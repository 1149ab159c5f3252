use vstd::prelude::*;

use crate::json::{as_array, as_str, as_u64, deref_opt, get, json_array, json_get, json_str, json_u64, Json};
use crate::models::{Playlist, PlaylistView, Track, TrackView};
use crate::text::{decimal, decimal_chars, digit_char, string_of};

verus! {

pub open spec fn str_or(o: Option<Seq<char>>, default: Seq<char>) -> Seq<char> {
    match o {
        Some(s) => s,
        None => default,
    }
}

/// The `name` strings of the objects in `artists`, skipping those without one.
pub open spec fn artist_names(artists: Seq<Json>) -> Seq<Seq<char>>
    decreases artists.len(),
{
    if artists.len() == 0 {
        Seq::empty()
    } else {
        let prev = artist_names(artists.drop_last());
        match as_str(get(Some(artists.last()), "name"@)) {
            Some(n) => prev.push(n),
            None => prev,
        }
    }
}

/// `parts.join(sep)`.
pub open spec fn join(parts: Seq<Seq<char>>, sep: Seq<char>) -> Seq<char>
    decreases parts.len(),
{
    if parts.len() == 0 {
        Seq::empty()
    } else if parts.len() == 1 {
        parts[0]
    } else {
        join(parts.drop_last(), sep) + sep + parts.last()
    }
}

/// The `url` of the first image of `images` (an array of image objects).
pub open spec fn first_image_url(images: Option<Json>) -> Option<Seq<char>> {
    match as_array(images) {
        Some(a) => if a.len() > 0 {
            as_str(get(Some(a[0]), "url"@))
        } else {
            None
        },
        None => None,
    }
}

/// The track that a Spotify track object describes; `None` when it has no string `id`.
pub open spec fn track_of_json(item: Json) -> Option<TrackView> {
    let it = Some(item);
    match as_str(get(it, "id"@)) {
        None => None,
        Some(id) => {
            let uri = str_or(as_str(get(it, "uri"@)), Seq::empty());
            let album_obj = get(it, "album"@);
            Some(
                TrackView {
                    id,
                    uri: if uri.len() == 0 {
                        "spotify:track:"@ + id
                    } else {
                        uri
                    },
                    title: str_or(as_str(get(it, "name"@)), "Sem título"@),
                    artist: match as_array(get(it, "artists"@)) {
                        Some(a) => join(artist_names(a), ", "@),
                        None => "Artista desconhecido"@,
                    },
                    album: str_or(as_str(get(album_obj, "name"@)), Seq::empty()),
                    duration_ms: match as_u64(get(it, "duration_ms"@)) {
                        Some(d) => d as u32,
                        None => 0,
                    },
                    cover_url: first_image_url(get(album_obj, "images"@)),
                },
            )
        },
    }
}

pub open spec fn opt_str_view(o: Option<&String>) -> Option<Seq<char>> {
    match o {
        Some(s) => Some(s@),
        None => None,
    }
}

fn str_or_default(o: Option<&String>, default: &str) -> (res: String)
    ensures
        res@ == str_or(opt_str_view(o), default@),
{
    match o {
        Some(s) => s.clone(),
        None => default.to_owned(),
    }
}

fn artist_names_exec(artists: &Vec<Json>) -> (res: Vec<String>)
    ensures
        res@.map_values(|s: String| s@) == artist_names(artists@),
{
    let mut res: Vec<String> = Vec::new();
    let mut i: usize = 0;
    while i < artists.len()
        invariant
            i <= artists.len(),
            res@.map_values(|s: String| s@) == artist_names(artists@.take(i as int)),
        decreases artists.len() - i,
    {
        assert(artists@.take(i + 1).drop_last() == artists@.take(i as int));
        assert(artists@.take(i + 1).last() == artists@[i as int]);
        let name = json_str(json_get(Some(&artists[i]), "name"));
        if let Some(n) = name {
            let ghost before = res@;
            res.push(n.clone());
            assert(res@.map_values(|s: String| s@) == before.map_values(|s: String| s@).push(
                n@,
            ));
        }
        i = i + 1;
    }
    assert(artists@.take(i as int) == artists@);
    res
}

fn join_strings(parts: &Vec<String>, sep: &str) -> (res: String)
    ensures
        res@ == join(parts@.map_values(|s: String| s@), sep@),
{
    let ghost pv = parts@.map_values(|s: String| s@);
    let mut res = String::new();
    let mut i: usize = 0;
    while i < parts.len()
        invariant
            i <= parts.len(),
            pv == parts@.map_values(|s: String| s@),
            res@ == join(pv.take(i as int), sep@),
        decreases parts.len() - i,
    {
        assert(pv.take(i + 1).drop_last() == pv.take(i as int));
        assert(pv.take(i + 1).last() == parts@[i as int]@);
        if i > 0 {
            res.append(sep);
        } else {
            assert(res@ == Seq::<char>::empty());
        }
        res.append(parts[i].as_str());
        i = i + 1;
    }
    assert(pv.take(i as int) == pv);
    res
}

fn first_image_url_exec(images: Option<&Json>) -> (res: Option<String>)
    ensures
        crate::models::opt_view(res) == first_image_url(deref_opt(images)),
{
    match json_array(images) {
        Some(a) => {
            if a.len() > 0 {
                match json_str(json_get(Some(&a[0]), "url")) {
                    Some(u) => Some(u.clone()),
                    None => None,
                }
            } else {
                None
            }
        },
        None => None,
    }
}

/// Reads a Spotify track object.
pub fn parse_track_json(item: &Json) -> (res: Option<Track>)
    ensures
        match track_of_json(*item) {
            Some(t) => res matches Some(r) && r@ == t,
            None => res is None,
        },
{
    proof {
        reveal_strlit("");
    }
    let it = Some(item);
    let id = match json_str(json_get(it, "id")) {
        Some(id) => id.clone(),
        None => return None,
    };
    let uri_found = str_or_default(json_str(json_get(it, "uri")), "");
    let title = str_or_default(json_str(json_get(it, "name")), "Sem título");
    let duration_ms: u32 = match json_u64(json_get(it, "duration_ms")) {
        Some(d) => d as u32,
        None => 0,
    };
    let artist = match json_array(json_get(it, "artists")) {
        Some(a) => join_strings(&artist_names_exec(a), ", "),
        None => "Artista desconhecido".to_owned(),
    };
    let album_obj = json_get(it, "album");
    let album = str_or_default(json_str(json_get(album_obj, "name")), "");
    let cover_url = first_image_url_exec(json_get(album_obj, "images"));
    let uri = if uri_found.as_str().is_empty() {
        let mut u = "spotify:track:".to_owned();
        u.append(id.as_str());
        u
    } else {
        uri_found
    };
    // The view of the result, field by field.
    let ghost t = track_of_json(*item).unwrap();
    assert(id@ == t.id);
    assert(uri@ == t.uri);
    assert(title@ == t.title);
    assert(artist@ == t.artist);
    assert(album@ == t.album);
    assert(duration_ms == t.duration_ms);
    assert(crate::models::opt_view(cover_url) == t.cover_url);
    Some(Track { id, uri, title, artist, album, duration_ms, cover_url })
}


/// Where an item of a response holds its track object.
pub enum TrackSlot {
    /// `item.item`, else `item.track`, else the item itself (playlist contents).
    ItemThenTrack,
    /// `item.track`, else `item.item`, else the item itself (saved tracks).
    TrackThenItem,
    /// `item.track`, else the item itself (recently played).
    TrackOnly,
    /// The item itself (search results, queue).
    Itself,
}

pub open spec fn or_else(a: Option<Json>, b: Json) -> Json {
    match a {
        Some(x) => x,
        None => b,
    }
}

pub open spec fn track_object(item: Json, slot: TrackSlot) -> Json {
    let it = Some(item);
    match slot {
        TrackSlot::ItemThenTrack => match get(it, "item"@) {
            Some(o) => o,
            None => or_else(get(it, "track"@), item),
        },
        TrackSlot::TrackThenItem => match get(it, "track"@) {
            Some(o) => o,
            None => or_else(get(it, "item"@), item),
        },
        TrackSlot::TrackOnly => or_else(get(it, "track"@), item),
        TrackSlot::Itself => item,
    }
}

/// The tracks that `items` hold (in `slot`), skipping the items whose track object has no id.
pub open spec fn tracks_of_items(items: Seq<Json>, slot: TrackSlot) -> Seq<TrackView>
    decreases items.len(),
{
    if items.len() == 0 {
        Seq::empty()
    } else {
        let prev = tracks_of_items(items.drop_last(), slot);
        match track_of_json(track_object(items.last(), slot)) {
            Some(t) => prev.push(t),
            None => prev,
        }
    }
}

/// The tracks of a list, without those matching the track that is playing (same uri, or
/// same id, where these are not empty).
pub open spec fn without_current(
    tracks: Seq<TrackView>,
    current_uri: Seq<char>,
    current_id: Seq<char>,
) -> Seq<TrackView>
    decreases tracks.len(),
{
    if tracks.len() == 0 {
        Seq::empty()
    } else {
        let prev = without_current(tracks.drop_last(), current_uri, current_id);
        let t = tracks.last();
        if (current_uri.len() > 0 && t.uri == current_uri) || (current_id.len() > 0 && t.id
            == current_id) {
            prev
        } else {
            prev.push(t)
        }
    }
}

fn track_object_exec<'a>(item: &'a Json, slot: &TrackSlot) -> (res: &'a Json)
    ensures
        *res == track_object(*item, *slot),
{
    let it = Some(item);
    match slot {
        TrackSlot::ItemThenTrack => match json_get(it, "item") {
            Some(o) => o,
            None => match json_get(it, "track") {
                Some(o) => o,
                None => item,
            },
        },
        TrackSlot::TrackThenItem => match json_get(it, "track") {
            Some(o) => o,
            None => match json_get(it, "item") {
                Some(o) => o,
                None => item,
            },
        },
        TrackSlot::TrackOnly => match json_get(it, "track") {
            Some(o) => o,
            None => item,
        },
        TrackSlot::Itself => item,
    }
}

fn tracks_of_items_exec(items: &Vec<Json>, slot: TrackSlot) -> (res: Vec<Track>)
    ensures
        crate::models::tracks_view(res@) == tracks_of_items(items@, slot),
{
    let mut res: Vec<Track> = Vec::new();
    let mut i: usize = 0;
    while i < items.len()
        invariant
            i <= items.len(),
            crate::models::tracks_view(res@) == tracks_of_items(items@.take(i as int), slot),
        decreases items.len() - i,
    {
        assert(items@.take(i + 1).drop_last() == items@.take(i as int));
        assert(items@.take(i + 1).last() == items@[i as int]);
        if let Some(t) = parse_track_json(track_object_exec(&items[i], &slot)) {
            let ghost before = res@;
            res.push(t);
            assert(crate::models::tracks_view(res@) == crate::models::tracks_view(before).push(
                t@,
            ));
        }
        i = i + 1;
    }
    assert(items@.take(i as int) == items@);
    res
}

/// The tracks of a playlist response: the items of `items.items`, `tracks.items` or `items`,
/// whichever is an array first.
pub open spec fn playlist_tracks_of_json(json: Json) -> Seq<TrackView> {
    let j = Some(json);
    let items = match as_array(get(get(j, "items"@), "items"@)) {
        Some(a) => Some(a),
        None => match as_array(get(get(j, "tracks"@), "items"@)) {
            Some(a) => Some(a),
            None => as_array(get(j, "items"@)),
        },
    };
    match items {
        Some(a) => tracks_of_items(a, TrackSlot::ItemThenTrack),
        None => Seq::empty(),
    }
}

/// Reads the tracks of a playlist response (`GET /v1/playlists/{id}`).
pub fn playlist_tracks_from_json(json: &Json) -> (res: Vec<Track>)
    ensures
        crate::models::tracks_view(res@) == playlist_tracks_of_json(*json),
{
    let j = Some(json);
    let items = match json_array(json_get(json_get(j, "items"), "items")) {
        Some(a) => Some(a),
        None => match json_array(json_get(json_get(j, "tracks"), "items")) {
            Some(a) => Some(a),
            None => json_array(json_get(j, "items")),
        },
    };
    match items {
        Some(a) => tracks_of_items_exec(a, TrackSlot::ItemThenTrack),
        None => Vec::new(),
    }
}

/// The tracks of a saved-tracks response: the items of `items`.
pub open spec fn liked_tracks_of_json(json: Json) -> Seq<TrackView> {
    match as_array(get(Some(json), "items"@)) {
        Some(a) => tracks_of_items(a, TrackSlot::TrackThenItem),
        None => Seq::empty(),
    }
}

/// Reads the tracks of a saved-tracks response (`GET /v1/me/tracks`).
pub fn liked_tracks_from_json(json: &Json) -> (res: Vec<Track>)
    ensures
        crate::models::tracks_view(res@) == liked_tracks_of_json(*json),
{
    match json_array(json_get(Some(json), "items")) {
        Some(a) => tracks_of_items_exec(a, TrackSlot::TrackThenItem),
        None => Vec::new(),
    }
}

/// The tracks of a recently-played response: the items of `items`.
pub open spec fn recently_played_of_json(json: Json) -> Seq<TrackView> {
    match as_array(get(Some(json), "items"@)) {
        Some(a) => tracks_of_items(a, TrackSlot::TrackOnly),
        None => Seq::empty(),
    }
}

/// Reads the tracks of a recently-played response (`GET /v1/me/player/recently-played`).
pub fn recently_played_from_json(json: &Json) -> (res: Vec<Track>)
    ensures
        crate::models::tracks_view(res@) == recently_played_of_json(*json),
{
    match json_array(json_get(Some(json), "items")) {
        Some(a) => tracks_of_items_exec(a, TrackSlot::TrackOnly),
        None => Vec::new(),
    }
}

/// The tracks of a search response: the items of `tracks.items`.
pub open spec fn search_results_of_json(json: Json) -> Seq<TrackView> {
    match as_array(get(get(Some(json), "tracks"@), "items"@)) {
        Some(a) => tracks_of_items(a, TrackSlot::Itself),
        None => Seq::empty(),
    }
}

/// Reads the tracks of a search response (`GET /v1/search?type=track`).
pub fn search_results_from_json(json: &Json) -> (res: Vec<Track>)
    ensures
        crate::models::tracks_view(res@) == search_results_of_json(*json),
{
    match json_array(json_get(json_get(Some(json), "tracks"), "items")) {
        Some(a) => tracks_of_items_exec(a, TrackSlot::Itself),
        None => Vec::new(),
    }
}

/// The tracks of a queue response: the items of `queue`, without the track that
/// `currently_playing` names.
pub open spec fn queue_of_json(json: Json) -> Seq<TrackView> {
    let j = Some(json);
    let current = get(j, "currently_playing"@);
    let current_uri = str_or(as_str(get(current, "uri"@)), Seq::empty());
    let current_id = str_or(as_str(get(current, "id"@)), Seq::empty());
    match as_array(get(j, "queue"@)) {
        Some(a) => without_current(tracks_of_items(a, TrackSlot::Itself), current_uri, current_id),
        None => Seq::empty(),
    }
}

/// Reads the tracks of a queue response (`GET /v1/me/player/queue`).
pub fn queue_from_json(json: &Json) -> (res: Vec<Track>)
    ensures
        crate::models::tracks_view(res@) == queue_of_json(*json),
{
    proof {
        reveal_strlit("");
    }
    let j = Some(json);
    let current = json_get(j, "currently_playing");
    let current_uri = str_or_default(json_str(json_get(current, "uri")), "");
    let current_id = str_or_default(json_str(json_get(current, "id")), "");
    let items = match json_array(json_get(j, "queue")) {
        Some(a) => a,
        None => return Vec::new(),
    };
    let tracks = tracks_of_items_exec(items, TrackSlot::Itself);
    let ghost tv = crate::models::tracks_view(tracks@);
    assert(current_uri@ == str_or(as_str(get(get(Some(*json), "currently_playing"@), "uri"@)), Seq::empty()));
    assert(current_id@ == str_or(as_str(get(get(Some(*json), "currently_playing"@), "id"@)), Seq::empty()));
    assert(as_array(get(Some(*json), "queue"@)) == Some(items@));
    assert(tv == tracks_of_items(items@, TrackSlot::Itself));
    assert(queue_of_json(*json) == without_current(tv, current_uri@, current_id@));
    let mut res: Vec<Track> = Vec::new();
    let mut i: usize = 0;
    assert(tv.take(0) == Seq::<TrackView>::empty());
    while i < tracks.len()
        invariant
            i <= tracks.len(),
            tv == crate::models::tracks_view(tracks@),
            queue_of_json(*json) == without_current(tv, current_uri@, current_id@),
            crate::models::tracks_view(res@) == without_current(
                tv.take(i as int),
                current_uri@,
                current_id@,
            ),
        decreases tracks.len() - i,
    {
        assert(tv.take(i + 1).drop_last() == tv.take(i as int));
        assert(tv.take(i + 1).last() == tracks@[i as int]@);
        let t = &tracks[i];
        let skip = (!current_uri.as_str().is_empty() && t.uri == current_uri) || (
        !current_id.as_str().is_empty() && t.id == current_id);
        if !skip {
            let ghost before = res@;
            res.push(t.clone());
            assert(crate::models::tracks_view(res@) == crate::models::tracks_view(before).push(
                tracks@[i as int]@,
            ));
        }
        i = i + 1;
    }
    assert(tv.take(i as int) == tv);
    res
}


/// `tracks.total`, or `tracks` itself when it is a number, as a `u32` (truncating); 0 when
/// neither is an integer.
pub open spec fn tracks_total_of(tracks: Option<Json>) -> u32 {
    match tracks {
        None => 0,
        Some(t) => match as_u64(get(Some(t), "total"@)) {
            Some(n) => n as u32,
            None => match as_u64(Some(t)) {
                Some(n) => n as u32,
                None => 0,
            },
        },
    }
}

/// The playlist that a Spotify playlist object describes.
pub open spec fn playlist_of_json(item: Json) -> PlaylistView {
    let it = Some(item);
    PlaylistView {
        id: str_or(as_str(get(it, "id"@)), Seq::empty()),
        name: str_or(as_str(get(it, "name"@)), "Sem nome"@),
        description: str_or(as_str(get(it, "description"@)), Seq::empty()),
        image_url: first_image_url(get(it, "images"@)),
        tracks_total: tracks_total_of(get(it, "tracks"@)),
        uri: str_or(as_str(get(it, "uri"@)), Seq::empty()),
    }
}

/// The playlists that `items` describe, skipping those with an empty or missing id.
pub open spec fn playlists_of_items(items: Seq<Json>) -> Seq<PlaylistView>
    decreases items.len(),
{
    if items.len() == 0 {
        Seq::empty()
    } else {
        let prev = playlists_of_items(items.drop_last());
        let p = playlist_of_json(items.last());
        if p.id.len() > 0 {
            prev.push(p)
        } else {
            prev
        }
    }
}

/// The playlists of a playlists response: those of `items`.
pub open spec fn user_playlists_of_json(json: Json) -> Seq<PlaylistView> {
    match as_array(get(Some(json), "items"@)) {
        Some(a) => playlists_of_items(a),
        None => Seq::empty(),
    }
}

fn tracks_total_exec(tracks: Option<&Json>) -> (res: u32)
    ensures
        res == tracks_total_of(deref_opt(tracks)),
{
    match tracks {
        None => 0,
        Some(t) => match json_u64(json_get(Some(t), "total")) {
            Some(n) => n as u32,
            None => match json_u64(Some(t)) {
                Some(n) => n as u32,
                None => 0,
            },
        },
    }
}

fn playlist_of_json_exec(item: &Json) -> (res: Playlist)
    ensures
        res@ == playlist_of_json(*item),
{
    proof {
        reveal_strlit("");
    }
    let it = Some(item);
    let id = str_or_default(json_str(json_get(it, "id")), "");
    let name = str_or_default(json_str(json_get(it, "name")), "Sem nome");
    let uri = str_or_default(json_str(json_get(it, "uri")), "");
    let description = str_or_default(json_str(json_get(it, "description")), "");
    let image_url = first_image_url_exec(json_get(it, "images"));
    let tracks_total = tracks_total_exec(json_get(it, "tracks"));
    // The view of the result, field by field.
    let ghost p = playlist_of_json(*item);
    assert(id@ == p.id);
    assert(name@ == p.name);
    assert(uri@ == p.uri);
    assert(description@ == p.description);
    assert(crate::models::opt_view(image_url) == p.image_url);
    assert(tracks_total == p.tracks_total);
    Playlist { id, name, description, image_url, tracks_total, uri }
}

/// Reads the playlists of a playlists response (`GET /v1/me/playlists`).
pub fn user_playlists_from_json(json: &Json) -> (res: Vec<Playlist>)
    ensures
        crate::models::playlists_view(res@) == user_playlists_of_json(*json),
{
    let items = match json_array(json_get(Some(json), "items")) {
        Some(a) => a,
        None => return Vec::new(),
    };
    let mut res: Vec<Playlist> = Vec::new();
    let mut i: usize = 0;
    assert(user_playlists_of_json(*json) == playlists_of_items(items@));
    while i < items.len()
        invariant
            i <= items.len(),
            user_playlists_of_json(*json) == playlists_of_items(items@),
            crate::models::playlists_view(res@) == playlists_of_items(items@.take(i as int)),
        decreases items.len() - i,
    {
        assert(items@.take(i + 1).drop_last() == items@.take(i as int));
        assert(items@.take(i + 1).last() == items@[i as int]);
        let p = playlist_of_json_exec(&items[i]);
        if !p.id.as_str().is_empty() {
            let ghost before = res@;
            res.push(p);
            assert(crate::models::playlists_view(res@) == crate::models::playlists_view(
                before,
            ).push(p@));
        }
        i = i + 1;
    }
    assert(items@.take(i as int) == items@);
    res
}


/// The Authorization header value for an access token: `Bearer {token}`.
pub fn bearer_authorization(access_token: &str) -> (res: String)
    ensures
        res@ == "Bearer "@ + access_token@,
{
    let mut res = "Bearer ".to_owned();
    res.append(access_token);
    res
}

/// The address of a playlist's details.
pub fn playlist_url(playlist_id: &str) -> (res: String)
    ensures
        res@ == "https://api.spotify.com/v1/playlists/"@ + playlist_id@,
{
    let mut res = "https://api.spotify.com/v1/playlists/".to_owned();
    res.append(playlist_id);
    res
}

fn with_decimal(prefix: &str, n: u32) -> (res: String)
    ensures
        res@ == prefix@ + decimal(n as nat),
{
    let mut res = prefix.to_owned();
    res.append(string_of(&decimal_chars(n)).as_str());
    res
}

/// The address of the user's saved tracks, `limit` of them.
pub fn liked_tracks_url(limit: u32) -> (res: String)
    ensures
        res@ == "https://api.spotify.com/v1/me/tracks?limit="@ + decimal(limit as nat),
{
    with_decimal("https://api.spotify.com/v1/me/tracks?limit=", limit)
}

/// The address of the user's recently played tracks, `limit` of them.
pub fn recently_played_url(limit: u32) -> (res: String)
    ensures
        res@ == "https://api.spotify.com/v1/me/player/recently-played?limit="@ + decimal(
            limit as nat,
        ),
{
    with_decimal("https://api.spotify.com/v1/me/player/recently-played?limit=", limit)
}

/// A byte that percent-encoding leaves as it is: ASCII letters and digits, `-`, `.`, `_`, `~`.
pub open spec fn is_unreserved(b: u8) -> bool {
    ||| 0x30 <= b <= 0x39
    ||| 0x41 <= b <= 0x5A
    ||| 0x61 <= b <= 0x7A
    ||| b == 0x2D
    ||| b == 0x2E
    ||| b == 0x5F
    ||| b == 0x7E
}

/// The upper-case hexadecimal digit for `d` (`0 <= d < 16`).
pub open spec fn hex_upper(d: int) -> char {
    if d < 10 {
        digit_char(d)
    } else if d == 10 {
        'A'
    } else if d == 11 {
        'B'
    } else if d == 12 {
        'C'
    } else if d == 13 {
        'D'
    } else if d == 14 {
        'E'
    } else {
        'F'
    }
}

/// Percent-encoding of `bytes`: unreserved bytes as they are, every other byte as `%XX`.
pub open spec fn percent_encode(bytes: Seq<u8>) -> Seq<char>
    decreases bytes.len(),
{
    if bytes.len() == 0 {
        Seq::empty()
    } else {
        let b = bytes[0];
        let head = if is_unreserved(b) {
            seq![b as char]
        } else {
            seq!['%', hex_upper((b / 16) as int), hex_upper((b % 16) as int)]
        };
        head + percent_encode(bytes.drop_first())
    }
}

/// `urlencoding::encode`: percent-encodes the UTF-8 bytes of `s`, leaving ASCII letters,
/// digits, `-`, `.`, `_` and `~` as they are. The contract restates the crate's documented
/// rule ("Percent-encodes every byte except alphanumerics and `-`, `_`, `.`, `~`. Assumes
/// UTF-8 encoding.") and its code (`%` and two upper-case hex digits).
#[verifier::external_body]
fn url_encode(s: &str) -> (res: String)
    ensures
        res@ == percent_encode(vstd::utf8::encode_utf8(s@)),
{
    urlencoding::encode(s).into_owned()
}

/// The address of a search for tracks matching `query` (ten results).
pub fn search_url(query: &str) -> (res: String)
    ensures
        res@ == "https://api.spotify.com/v1/search?type=track&limit=10&q="@ + percent_encode(
            vstd::utf8::encode_utf8(query@),
        ),
{
    let encoded = url_encode(query);
    let mut res = "https://api.spotify.com/v1/search?type=track&limit=10&q=".to_owned();
    res.append(encoded.as_str());
    res
}


/// Every track read from a track object has a uri: the object's own, or `spotify:track:{id}`.
pub proof fn lemma_track_has_uri(item: Json)
    ensures
        track_of_json(item) matches Some(t) ==> t.uri.len() > 0,
{
    reveal_strlit("spotify:track:");
}

proof fn lemma_playlists_have_ids(items: Seq<Json>)
    ensures
        forall|i: int|
            0 <= i < playlists_of_items(items).len() ==> #[trigger] playlists_of_items(
                items,
            )[i].id.len() > 0,
    decreases items.len(),
{
    if items.len() > 0 {
        lemma_playlists_have_ids(items.drop_last());
    }
}

/// Every playlist read from a playlists response has an id.
pub proof fn lemma_user_playlists_have_ids(json: Json)
    ensures
        forall|i: int|
            0 <= i < user_playlists_of_json(json).len() ==> #[trigger] user_playlists_of_json(
                json,
            )[i].id.len() > 0,
{
    if let Some(a) = as_array(get(Some(json), "items"@)) {
        lemma_playlists_have_ids(a);
    }
}

proof fn lemma_without_current(tracks: Seq<TrackView>, uri: Seq<char>, id: Seq<char>)
    ensures
        forall|i: int|
            0 <= i < without_current(tracks, uri, id).len() ==> {
                let t = #[trigger] without_current(tracks, uri, id)[i];
                &&& !(uri.len() > 0 && t.uri == uri)
                &&& !(id.len() > 0 && t.id == id)
            },
    decreases tracks.len(),
{
    if tracks.len() > 0 {
        lemma_without_current(tracks.drop_last(), uri, id);
    }
}

/// The queue never lists the track that is playing (by its uri or id, where given).
pub proof fn lemma_queue_excludes_current(json: Json)
    ensures
        ({
            let current = get(Some(json), "currently_playing"@);
            let uri = str_or(as_str(get(current, "uri"@)), Seq::empty());
            let id = str_or(as_str(get(current, "id"@)), Seq::empty());
            forall|i: int|
                0 <= i < queue_of_json(json).len() ==> {
                    let t = #[trigger] queue_of_json(json)[i];
                    &&& !(uri.len() > 0 && t.uri == uri)
                    &&& !(id.len() > 0 && t.id == id)
                }
        }),
{
    let j = Some(json);
    let current = get(j, "currently_playing"@);
    let uri = str_or(as_str(get(current, "uri"@)), Seq::empty());
    let id = str_or(as_str(get(current, "id"@)), Seq::empty());
    if let Some(a) = as_array(get(j, "queue"@)) {
        lemma_without_current(tracks_of_items(a, TrackSlot::Itself), uri, id);
    }
}

/// Each item of a list response is read on its own: the tracks of two runs of items are the
/// tracks of the first run followed by those of the second.
pub proof fn lemma_tracks_of_items_concat(x: Seq<Json>, y: Seq<Json>, slot: TrackSlot)
    ensures
        tracks_of_items(x + y, slot) == tracks_of_items(x, slot) + tracks_of_items(y, slot),
    decreases y.len(),
{
    if y.len() == 0 {
        assert(x + y == x);
        assert(tracks_of_items(x, slot) + tracks_of_items(y, slot) == tracks_of_items(x, slot));
    } else {
        lemma_tracks_of_items_concat(x, y.drop_last(), slot);
        assert((x + y).drop_last() == x + y.drop_last());
        assert((x + y).last() == y.last());
        let a = tracks_of_items(x, slot);
        let b = tracks_of_items(y.drop_last(), slot);
        match track_of_json(track_object(y.last(), slot)) {
            Some(t) => {
                assert((a + b).push(t) == a + b.push(t));
            },
            None => {},
        }
    }
}

/// One item gives its track when its track object reads, and nothing otherwise; with
/// `lemma_tracks_of_items_concat`, every readable item of a response gives its track, in
/// order, whatever the items around it.
pub proof fn lemma_tracks_of_one_item(item: Json, slot: TrackSlot)
    ensures
        tracks_of_items(seq![item], slot) == match track_of_json(track_object(item, slot)) {
            Some(t) => seq![t],
            None => Seq::<TrackView>::empty(),
        },
{
    assert(seq![item].drop_last() == Seq::<Json>::empty());
    assert(seq![item].last() == item);
    assert(tracks_of_items(Seq::<Json>::empty(), slot) == Seq::<TrackView>::empty());
    match track_of_json(track_object(item, slot)) {
        Some(t) => {
            assert(Seq::<TrackView>::empty().push(t) == seq![t]);
        },
        None => {},
    }
}

/// Each playlist object of a response is read on its own: the playlists of two runs of items
/// are those of the first run followed by those of the second.
pub proof fn lemma_playlists_of_items_concat(x: Seq<Json>, y: Seq<Json>)
    ensures
        playlists_of_items(x + y) == playlists_of_items(x) + playlists_of_items(y),
    decreases y.len(),
{
    if y.len() == 0 {
        assert(x + y == x);
        assert(playlists_of_items(x) + playlists_of_items(y) == playlists_of_items(x));
    } else {
        lemma_playlists_of_items_concat(x, y.drop_last());
        assert((x + y).drop_last() == x + y.drop_last());
        assert((x + y).last() == y.last());
        let a = playlists_of_items(x);
        let b = playlists_of_items(y.drop_last());
        let p = playlist_of_json(y.last());
        assert((a + b).push(p) == a + b.push(p));
    }
}

/// One playlist object gives its playlist when it has an id, and nothing otherwise.
pub proof fn lemma_playlists_of_one_item(item: Json)
    ensures
        playlists_of_items(seq![item]) == if playlist_of_json(item).id.len() > 0 {
            seq![playlist_of_json(item)]
        } else {
            Seq::<PlaylistView>::empty()
        },
{
    assert(seq![item].drop_last() == Seq::<Json>::empty());
    assert(seq![item].last() == item);
    assert(playlists_of_items(Seq::<Json>::empty()) == Seq::<PlaylistView>::empty());
    assert(Seq::<PlaylistView>::empty().push(playlist_of_json(item)) == seq![playlist_of_json(item)]);
}

} // verus!
