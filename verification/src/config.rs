use vstd::prelude::*;

use crate::text::{chars_of, trim, trim_chars};

verus! {

/// The view shown when none was saved.
pub fn default_view() -> (res: String)
    ensures
        res@ == "listen_now"@,
{
    "listen_now".to_owned()
}

/// A saved view is restored at start unless it is empty or the lyrics view.
pub fn restores_view(last_view: &str) -> (res: bool)
    ensures
        res == (last_view@.len() > 0 && last_view@ != "lyrics"@),
{
    !last_view.is_empty() && !is_lyrics(last_view)
}

/// A view navigated to is saved unless it is the lyrics view.
pub fn persists_view(view: &str) -> (res: bool)
    ensures
        res == (view@ != "lyrics"@),
{
    !is_lyrics(view)
}

fn is_lyrics(view: &str) -> (res: bool)
    ensures
        res == (view@ == "lyrics"@),
{
    let a = view.to_owned();
    let b = "lyrics".to_owned();
    a == b
}

/// The lyrics button: from the lyrics view back to "listen_now" (lyrics off), from any other
/// view to the lyrics (lyrics on).
pub fn toggle_lyrics_view(current_view: &str) -> (res: (String, bool))
    ensures
        current_view@ == "lyrics"@ ==> res.0@ == "listen_now"@ && !res.1,
        current_view@ != "lyrics"@ ==> res.0@ == "lyrics"@ && res.1,
{
    if is_lyrics(current_view) {
        ("listen_now".to_owned(), false)
    } else {
        ("lyrics".to_owned(), true)
    }
}

/// A search query of only white space clears the search.
pub fn is_blank_query(query: &str) -> (res: bool)
    ensures
        res == (trim(query@).len() == 0),
{
    trim_chars(&chars_of(query)).len() == 0
}

/// A click on a lyric line seeks to its time; negative times are ignored.
pub fn lyric_seek_target(timestamp_ms: i32) -> (res: Option<u32>)
    ensures
        timestamp_ms >= 0 ==> res == Some(timestamp_ms as u32),
        timestamp_ms < 0 ==> res is None,
{
    if timestamp_ms >= 0 {
        Some(timestamp_ms as u32)
    } else {
        None
    }
}

} // verus!
