use spotify_rust::client::{
    bearer_authorization, liked_tracks_from_json, liked_tracks_url, parse_track_json,
    playlist_tracks_from_json, playlist_url, queue_from_json, recently_played_from_json,
    recently_played_url, search_results_from_json, search_url, user_playlists_from_json,
};
use spotify_rust::json::Json;

fn s(v: &str) -> Json {
    Json::Str(v.to_string())
}

fn obj(members: Vec<(&str, Json)>) -> Json {
    Json::Object(members.into_iter().map(|(k, v)| (k.to_string(), v)).collect())
}

fn full_track(id: &str, name: &str) -> Json {
    obj(vec![
        ("id", s(id)),
        ("uri", s(&format!("spotify:track:{}", id))),
        ("name", s(name)),
        ("duration_ms", Json::Number(Some(215_000))),
        ("artists", Json::Array(vec![obj(vec![("name", s("A"))]), obj(vec![("id", s("x"))]), obj(vec![("name", s("B"))])])),
        (
            "album",
            obj(vec![
                ("name", s("Album")),
                ("images", Json::Array(vec![obj(vec![("url", s("http://img/1"))]), obj(vec![("url", s("http://img/2"))])])),
            ]),
        ),
    ])
}

fn ids(tracks: &[spotify_rust::models::Track]) -> Vec<String> {
    tracks.iter().map(|t| t.id.clone()).collect()
}

#[test]
fn track_json_full() {
    let t = parse_track_json(&full_track("t1", "Song")).unwrap();
    assert_eq!(t.id, "t1");
    assert_eq!(t.uri, "spotify:track:t1");
    assert_eq!(t.title, "Song");
    assert_eq!(t.artist, "A, B");
    assert_eq!(t.album, "Album");
    assert_eq!(t.duration_ms, 215_000);
    assert_eq!(t.cover_url, Some("http://img/1".to_string()));
}

#[test]
fn track_json_defaults() {
    let t = parse_track_json(&obj(vec![("id", s("t2"))])).unwrap();
    assert_eq!(t.uri, "spotify:track:t2");
    assert_eq!(t.title, "Sem título");
    assert_eq!(t.artist, "Artista desconhecido");
    assert_eq!(t.album, "");
    assert_eq!(t.duration_ms, 0);
    assert_eq!(t.cover_url, None);
}

#[test]
fn track_json_edge_values() {
    let t = parse_track_json(&obj(vec![
        ("id", s("t3")),
        ("uri", s("")),
        ("artists", Json::Array(vec![])),
        ("duration_ms", Json::Number(Some((1u64 << 32) + 5))),
        ("album", obj(vec![("images", Json::Array(vec![]))])),
    ]))
    .unwrap();
    assert_eq!(t.uri, "spotify:track:t3");
    assert_eq!(t.artist, "");
    assert_eq!(t.duration_ms, 5);
    assert_eq!(t.cover_url, None);
}

#[test]
fn track_json_without_id() {
    assert!(parse_track_json(&obj(vec![("name", s("x"))])).is_none());
    assert!(parse_track_json(&obj(vec![("id", Json::Number(Some(3)))])).is_none());
    assert!(parse_track_json(&Json::Null).is_none());
}

#[test]
fn playlists_json() {
    let json = obj(vec![(
        "items",
        Json::Array(vec![
            obj(vec![
                ("id", s("p1")),
                ("name", s("Mix")),
                ("uri", s("spotify:playlist:p1")),
                ("description", s("d")),
                ("images", Json::Array(vec![obj(vec![("url", s("http://c"))])])),
                ("tracks", obj(vec![("total", Json::Number(Some(7)))])),
            ]),
            obj(vec![("id", s("")), ("name", s("skipped"))]),
            obj(vec![("id", s("p2")), ("tracks", Json::Number(Some(9)))]),
            obj(vec![("id", s("p3")), ("tracks", Json::Number(None))]),
        ]),
    )]);
    let p = user_playlists_from_json(&json);
    assert_eq!(p.len(), 3);
    assert_eq!(p[0].name, "Mix");
    assert_eq!(p[0].tracks_total, 7);
    assert_eq!(p[0].image_url, Some("http://c".to_string()));
    assert_eq!(p[1].name, "Sem nome");
    assert_eq!(p[1].tracks_total, 9);
    assert_eq!(p[1].uri, "");
    assert_eq!(p[2].tracks_total, 0);
    assert!(user_playlists_from_json(&obj(vec![])).is_empty());
}

#[test]
fn playlist_tracks_json_shapes() {
    let nested = obj(vec![("items", obj(vec![("items", Json::Array(vec![obj(vec![("item", full_track("a", "A"))])]))]))]);
    assert_eq!(ids(&playlist_tracks_from_json(&nested)), vec!["a"]);
    let classic = obj(vec![("tracks", obj(vec![("items", Json::Array(vec![obj(vec![("track", full_track("b", "B"))])]))]))]);
    assert_eq!(ids(&playlist_tracks_from_json(&classic)), vec!["b"]);
    let direct = obj(vec![("items", Json::Array(vec![full_track("c", "C"), obj(vec![("track", Json::Null)])]))]);
    assert_eq!(ids(&playlist_tracks_from_json(&direct)), vec!["c"]);
    assert!(playlist_tracks_from_json(&Json::Null).is_empty());
}

#[test]
fn liked_recent_and_search_json() {
    let liked = obj(vec![(
        "items",
        Json::Array(vec![obj(vec![("track", full_track("l1", "L"))]), obj(vec![("item", full_track("l2", "M"))])]),
    )]);
    assert_eq!(ids(&liked_tracks_from_json(&liked)), vec!["l1", "l2"]);
    let recent = obj(vec![(
        "items",
        Json::Array(vec![obj(vec![("track", full_track("r1", "R"))]), obj(vec![("item", full_track("r2", "S"))])]),
    )]);
    assert_eq!(ids(&recently_played_from_json(&recent)), vec!["r1"]);
    let search = obj(vec![("tracks", obj(vec![("items", Json::Array(vec![full_track("s1", "S"), full_track("s2", "T")]))]))]);
    assert_eq!(ids(&search_results_from_json(&search)), vec!["s1", "s2"]);
}

#[test]
fn queue_json_drops_current_track() {
    let json = obj(vec![
        ("currently_playing", obj(vec![("id", s("q1")), ("uri", s("spotify:track:q1"))])),
        ("queue", Json::Array(vec![full_track("q1", "now"), full_track("q2", "next"), full_track("q1", "again")])),
    ]);
    assert_eq!(ids(&queue_from_json(&json)), vec!["q2"]);
    let nothing_playing = obj(vec![
        ("currently_playing", Json::Null),
        ("queue", Json::Array(vec![full_track("q1", "a"), full_track("q2", "b")])),
    ]);
    assert_eq!(ids(&queue_from_json(&nothing_playing)), vec!["q1", "q2"]);
}

#[test]
fn request_addresses() {
    assert_eq!(bearer_authorization("tok"), "Bearer tok");
    assert_eq!(playlist_url("abc"), "https://api.spotify.com/v1/playlists/abc");
    assert_eq!(liked_tracks_url(50), "https://api.spotify.com/v1/me/tracks?limit=50");
    assert_eq!(recently_played_url(20), "https://api.spotify.com/v1/me/player/recently-played?limit=20");
    assert_eq!(recently_played_url(0), "https://api.spotify.com/v1/me/player/recently-played?limit=0");
}

#[test]
fn search_address_is_percent_encoded() {
    assert_eq!(search_url("a b&c"), "https://api.spotify.com/v1/search?type=track&limit=10&q=a%20b%26c");
    assert_eq!(search_url("Caf\u{e9}-_.~"), "https://api.spotify.com/v1/search?type=track&limit=10&q=Caf%C3%A9-_.~");
    assert_eq!(search_url(""), "https://api.spotify.com/v1/search?type=track&limit=10&q=");
}
