use vstd::prelude::*;

use crate::text::{chars_of, index_of, string_of, sub_chars, trim, trim_chars};

verus! {

/// The client id to authorize with, and whether the flow is simulated (no id configured).
pub struct AuthClient {
    pub client_id: String,
    pub is_mock: bool,
}

/// Picks the client id from the configured one (`SPOTIFY_CLIENT_ID`, empty when unset): an
/// empty id runs the simulated flow with the id `mock_client_id`.
pub fn auth_client(configured_id: String) -> (res: AuthClient)
    ensures
        res.is_mock == (configured_id@.len() == 0),
        res.is_mock ==> res.client_id@ == "mock_client_id"@,
        !res.is_mock ==> res.client_id@ == configured_id@,
{
    if configured_id.as_str().is_empty() {
        AuthClient { client_id: "mock_client_id".to_owned(), is_mock: true }
    } else {
        AuthClient { client_id: configured_id, is_mock: false }
    }
}

/// Index of the first occurrence of `pat` in `s`.
pub open spec fn find_sub(s: Seq<char>, pat: Seq<char>) -> Option<int>
    decreases s.len(),
{
    if s.len() < pat.len() {
        None
    } else if s.take(pat.len() as int) == pat {
        Some(0)
    } else if s.len() == 0 {
        None
    } else {
        match find_sub(s.drop_first(), pat) {
            Some(i) => Some(i + 1),
            None => None,
        }
    }
}

/// What the local server does with a request to `url` (a path and query).
pub enum CallbackOutcome {
    /// Not the callback path: answer 404 and wait for the next request.
    NotFound,
    /// The callback without a `code=` parameter: answer the page and wait.
    NoCode,
    /// The callback with its authorization code: answer the page and stop.
    Code(String),
}

pub enum CallbackView {
    NotFound,
    NoCode,
    Code(Seq<char>),
}

pub open spec fn callback_view(o: CallbackOutcome) -> CallbackView {
    match o {
        CallbackOutcome::NotFound => CallbackView::NotFound,
        CallbackOutcome::NoCode => CallbackView::NoCode,
        CallbackOutcome::Code(c) => CallbackView::Code(c@),
    }
}

/// A request whose url starts with `/callback` carries the code that follows the first
/// `code=`, up to the next `code=` or `&` (`url.split("code=")` then `.split('&')`).
pub open spec fn callback_of(url: Seq<char>) -> CallbackView {
    if !(url.len() >= 9 && url.take(9) == "/callback"@) {
        CallbackView::NotFound
    } else {
        match find_sub(url, "code="@) {
            None => CallbackView::NoCode,
            Some(i) => {
                let after = url.skip(i + 5);
                let piece = match find_sub(after, "code="@) {
                    Some(j) => after.take(j),
                    None => after,
                };
                CallbackView::Code(
                    match index_of(piece, '&') {
                        Some(k) => piece.take(k),
                        None => piece,
                    },
                )
            },
        }
    }
}

fn starts_with_at(v: &Vec<char>, at: usize, pat: &Vec<char>) -> (res: bool)
    requires
        at <= v.len(),
    ensures
        res == (v@.len() - at >= pat@.len() && v@.subrange(at as int, at + pat@.len()) == pat@),
{
    if v.len() - at < pat.len() {
        return false;
    }
    let mut k: usize = 0;
    while k < pat.len()
        invariant
            k <= pat.len(),
            at + pat.len() <= v.len(),
            forall|m: int| 0 <= m < k ==> v@[at + m] == pat@[m],
        decreases pat.len() - k,
    {
        if v[at + k] != pat[k] {
            assert(v@.subrange(at as int, at + pat@.len())[k as int] != pat@[k as int]);
            return false;
        }
        k = k + 1;
    }
    assert(v@.subrange(at as int, at + pat@.len()) =~= pat@);
    true
}

fn find_sub_chars(v: &Vec<char>, pat: &Vec<char>) -> (res: Option<usize>)
    ensures
        match res {
            Some(i) => find_sub(v@, pat@) == Some(i as int) && i + pat@.len() <= v@.len(),
            None => find_sub(v@, pat@) is None,
        },
{
    let mut i: usize = 0;
    assert(v@.skip(0) == v@);
    while v.len() - i >= pat.len()
        invariant
            i <= v.len(),
            find_sub(v@, pat@) == crate::playback::shift(find_sub(v@.skip(i as int), pat@), i as int),
        decreases v.len() - i,
    {
        let ghost rest = v@.skip(i as int);
        assert(rest.take(pat@.len() as int) == v@.subrange(i as int, i + pat@.len()));
        if starts_with_at(v, i, pat) {
            return Some(i);
        }
        if i < v.len() {
            assert(rest.drop_first() == v@.skip(i + 1));
        }
        if i == v.len() {
            assert(pat@.len() == 0);
            assert(v@.subrange(i as int, i as int) =~= pat@);
        }
        i = i + 1;
    }
    None
}

/// Classifies a request to the local callback server.
pub fn callback_outcome(url: &str) -> (res: CallbackOutcome)
    ensures
        callback_view(res) == callback_of(url@),
{
    let v = chars_of(url);
    let prefix = chars_of("/callback");
    let marker = chars_of("code=");
    proof {
        reveal_strlit("/callback");
        reveal_strlit("code=");
    }
    assert(prefix@.len() == 9);
    assert(marker@.len() == 5);
    if !starts_with_at(&v, 0, &prefix) {
        if v.len() >= 9 {
            assert(v@.subrange(0, 9) == v@.take(9));
        }
        return CallbackOutcome::NotFound;
    }
    assert(v@.subrange(0, 9) == v@.take(9));
    match find_sub_chars(&v, &marker) {
        None => CallbackOutcome::NoCode,
        Some(i) => {
            let after = sub_chars(&v, i + 5, v.len());
            assert(after@ == v@.skip(i + 5));
            let piece = match find_sub_chars(&after, &marker) {
                Some(j) => sub_chars(&after, 0, j),
                None => after,
            };
            let code = match crate::text::find_char(&piece, '&') {
                Some(k) => {
                    proof {
                        crate::text::lemma_index_of_bound(piece@, '&');
                    }
                    sub_chars(&piece, 0, k)
                },
                None => piece,
            };
            CallbackOutcome::Code(string_of(&code))
        },
    }
}

/// `s` without the leading and trailing occurrences of `c` (`str::trim_matches(c)`).
pub open spec fn strip_char(s: Seq<char>, c: char) -> Seq<char> {
    strip_end(strip_start(s, c), c)
}

pub open spec fn strip_start(s: Seq<char>, c: char) -> Seq<char>
    decreases s.len(),
{
    if s.len() > 0 && s[0] == c {
        strip_start(s.drop_first(), c)
    } else {
        s
    }
}

pub open spec fn strip_end(s: Seq<char>, c: char) -> Seq<char>
    decreases s.len(),
{
    if s.len() > 0 && s.last() == c {
        strip_end(s.drop_last(), c)
    } else {
        s
    }
}

fn strip_char_exec(v: &Vec<char>, c: char) -> (res: Vec<char>)
    ensures
        res@ == strip_char(v@, c),
{
    let mut i: usize = 0;
    assert(v@.skip(0) == v@);
    while i < v.len() && v[i] == c
        invariant
            i <= v.len(),
            strip_start(v@, c) == strip_start(v@.skip(i as int), c),
        decreases v.len() - i,
    {
        assert(v@.skip(i as int).drop_first() == v@.skip(i + 1));
        i = i + 1;
    }
    let mut j = v.len();
    assert(v@.skip(i as int) == v@.subrange(i as int, j as int));
    while j > i && v[j - 1] == c
        invariant
            i <= j <= v.len(),
            strip_char(v@, c) == strip_end(v@.subrange(i as int, j as int), c),
        decreases j - i,
    {
        assert(v@.subrange(i as int, j as int).drop_last() == v@.subrange(i as int, j - 1));
        j = j - 1;
    }
    sub_chars(v, i, j)
}

/// An environment value cleaned of surrounding white space and quotes:
/// `s.trim().trim_matches('"').trim_matches('\'')`.
pub open spec fn cleaned_value(s: Seq<char>) -> Seq<char> {
    strip_char(strip_char(trim(s), '"'), '\'')
}

/// Cleans a credential read from the environment (`SPOTIFY_USER`, `SPOTIFY_PASS`).
pub fn clean_env_value(value: &str) -> (res: String)
    ensures
        res@ == cleaned_value(value@),
{
    let t = trim_chars(&chars_of(value));
    let unquoted = strip_char_exec(&t, '"');
    string_of(&strip_char_exec(&unquoted, '\''))
}

/// Signing in with a password is tried (after the token failed) only with both a user and a
/// password.
pub fn password_fallback(username: &str, password: &str) -> (res: bool)
    ensures
        res == (username@.len() > 0 && password@.len() > 0),
{
    !username.is_empty() && !password.is_empty()
}

} // verus!
