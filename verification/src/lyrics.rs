use vstd::prelude::*;

use crate::models::opt_view;

verus! {

/// The address that LRCLIB's lyrics lookup is asked at.
pub open spec fn lrclib_get_address() -> Seq<char> {
    "https://lrclib.net/api/get"@
}

/// The `reqwest::Url` built from `base` by `Url::parse`, with the name/value `pairs` appended
/// in order to its query by `query_pairs_mut` (form-urlencoded, `&` between pairs), as text;
/// `None` where `base` does not parse.
pub uninterp spec fn query_url(base: Seq<char>, pairs: Seq<(Seq<char>, Seq<char>)>) -> Option<
    Seq<char>,
>;

pub open spec fn pairs_view(pairs: Seq<(String, String)>) -> Seq<(Seq<char>, Seq<char>)> {
    pairs.map_values(|p: (String, String)| (p.0@, p.1@))
}

/// `reqwest::Url::parse(base)`, then `query_pairs_mut().extend_pairs(pairs)`, then the URL as a
/// `String`. The contract names the result as a function of the base and the pairs; it does not
/// restate URL parsing or form-urlencoding.
#[verifier::external_body]
fn url_with_query(base: &str, pairs: &Vec<(String, String)>) -> (res: Option<String>)
    ensures
        opt_view(res) == query_url(base@, pairs_view(pairs@)),
{
    let mut url = reqwest::Url::parse(base).ok()?;
    url.query_pairs_mut().extend_pairs(pairs.iter());
    Some(url.into())
}

pub open spec fn opt_text_view(o: Option<&str>) -> Option<Seq<char>> {
    match o {
        Some(s) => Some(s@),
        None => None,
    }
}

/// The query of a lyrics lookup: artist and track name, then the album name and the duration
/// (in seconds, as text) where given.
pub open spec fn lyrics_query(
    artist: Seq<char>,
    track_name: Seq<char>,
    album_name: Option<Seq<char>>,
    duration: Option<Seq<char>>,
) -> Seq<(Seq<char>, Seq<char>)> {
    let head = seq![("artist_name"@, artist), ("track_name"@, track_name)];
    let with_album = match album_name {
        Some(a) => head.push(("album_name"@, a)),
        None => head,
    };
    match duration {
        Some(d) => with_album.push(("duration"@, d)),
        None => with_album,
    }
}

/// The address of a lyrics lookup at LRCLIB (`None` only if the URL library refused the base
/// address).
pub fn lyrics_request_url(
    artist: &str,
    track_name: &str,
    album_name: Option<&str>,
    duration: Option<&str>,
) -> (res: Option<String>)
    ensures
        opt_view(res) == query_url(
            lrclib_get_address(),
            lyrics_query(artist@, track_name@, opt_text_view(album_name), opt_text_view(duration)),
        ),
{
    let mut pairs: Vec<(String, String)> = Vec::new();
    pairs.push(("artist_name".to_owned(), artist.to_owned()));
    pairs.push(("track_name".to_owned(), track_name.to_owned()));
    if let Some(a) = album_name {
        pairs.push(("album_name".to_owned(), a.to_owned()));
    }
    if let Some(d) = duration {
        pairs.push(("duration".to_owned(), d.to_owned()));
    }
    assert(pairs_view(pairs@) =~= lyrics_query(
        artist@,
        track_name@,
        opt_text_view(album_name),
        opt_text_view(duration),
    ));
    url_with_query("https://lrclib.net/api/get", &pairs)
}

/// The lyrics of an LRCLIB answer: the time-synced ones when present, else the plain ones.
pub fn select_lyrics(synced_lyrics: Option<String>, plain_lyrics: Option<String>) -> (res: Option<
    String,
>)
    ensures
        opt_view(res) == match synced_lyrics {
            Some(s) => Some(s@),
            None => opt_view(plain_lyrics),
        },
{
    match synced_lyrics {
        Some(s) => Some(s),
        None => plain_lyrics,
    }
}

} // verus!
