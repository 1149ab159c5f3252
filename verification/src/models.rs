use vstd::prelude::*;

use crate::text::{
    append_chars, byte_prefix, byte_prefix_chars, chars_of, decimal, decimal_chars, index_of,
    parse_u32, parse_u32_chars, split_chars, split_on, string_of, sub_chars, trim, trim_chars,
    two_digit_chars, two_digits, utf8_len, utf8_len_up_to, views_of, all_digits, digits_value,
    is_digit, char_width,
};

verus! {

/// A track of the Spotify catalogue.
#[derive(Debug)]
pub struct Track {
    pub id: String,
    pub uri: String,
    pub title: String,
    pub artist: String,
    pub album: String,
    pub duration_ms: u32,
    pub cover_url: Option<String>,
}

pub struct TrackView {
    pub id: Seq<char>,
    pub uri: Seq<char>,
    pub title: Seq<char>,
    pub artist: Seq<char>,
    pub album: Seq<char>,
    pub duration_ms: u32,
    pub cover_url: Option<Seq<char>>,
}

pub open spec fn opt_view(o: Option<String>) -> Option<Seq<char>> {
    match o {
        Some(s) => Some(s@),
        None => None,
    }
}

impl View for Track {
    type V = TrackView;

    open spec fn view(&self) -> TrackView {
        TrackView {
            id: self.id@,
            uri: self.uri@,
            title: self.title@,
            artist: self.artist@,
            album: self.album@,
            duration_ms: self.duration_ms,
            cover_url: opt_view(self.cover_url),
        }
    }
}

pub fn clone_opt_string(o: &Option<String>) -> (res: Option<String>)
    ensures
        opt_view(res) == opt_view(*o),
{
    match o {
        Some(s) => Some(s.clone()),
        None => None,
    }
}

impl Clone for Track {
    fn clone(&self) -> (res: Self)
        ensures
            res@ == self@,
    {
        Track {
            id: self.id.clone(),
            uri: self.uri.clone(),
            title: self.title.clone(),
            artist: self.artist.clone(),
            album: self.album.clone(),
            duration_ms: self.duration_ms,
            cover_url: clone_opt_string(&self.cover_url),
        }
    }
}

/// `"{minutes}:{seconds:02}"` for a number of seconds.
pub open spec fn minutes_seconds(total_seconds: nat) -> Seq<char> {
    decimal(total_seconds / 60) + seq![':'] + two_digits(total_seconds % 60)
}

/// The characters of `minutes_seconds(total_seconds)`.
pub fn minutes_seconds_chars(total_seconds: u32) -> (res: Vec<char>)
    ensures
        res@ == minutes_seconds(total_seconds as nat),
{
    let mut res = decimal_chars(total_seconds / 60);
    res.push(':');
    let secs = two_digit_chars(total_seconds % 60);
    append_chars(&mut res, &secs);
    res
}

impl Track {
    /// The duration as `m:ss` (whole seconds; minutes are not wrapped into hours).
    pub fn formatted_duration(&self) -> (res: String)
        ensures
            res@ == minutes_seconds((self.duration_ms / 1000) as nat),
    {
        let total_seconds = self.duration_ms / 1000;
        string_of(&minutes_seconds_chars(total_seconds))
    }
}

/// A playlist of the user's library.
#[derive(Debug)]
pub struct Playlist {
    pub id: String,
    pub name: String,
    pub description: String,
    pub image_url: Option<String>,
    pub tracks_total: u32,
    pub uri: String,
}

pub struct PlaylistView {
    pub id: Seq<char>,
    pub name: Seq<char>,
    pub description: Seq<char>,
    pub image_url: Option<Seq<char>>,
    pub tracks_total: u32,
    pub uri: Seq<char>,
}

impl View for Playlist {
    type V = PlaylistView;

    open spec fn view(&self) -> PlaylistView {
        PlaylistView {
            id: self.id@,
            name: self.name@,
            description: self.description@,
            image_url: opt_view(self.image_url),
            tracks_total: self.tracks_total,
            uri: self.uri@,
        }
    }
}

impl Clone for Playlist {
    fn clone(&self) -> (res: Self)
        ensures
            res@ == self@,
    {
        Playlist {
            id: self.id.clone(),
            name: self.name.clone(),
            description: self.description.clone(),
            image_url: clone_opt_string(&self.image_url),
            tracks_total: self.tracks_total,
            uri: self.uri.clone(),
        }
    }
}

/// A line of time-synced lyrics.
#[derive(Debug)]
pub struct LyricLine {
    pub timestamp_ms: u32,
    pub text: String,
}

pub struct LyricLineView {
    pub timestamp_ms: u32,
    pub text: Seq<char>,
}

impl View for LyricLine {
    type V = LyricLineView;

    open spec fn view(&self) -> LyricLineView {
        LyricLineView { timestamp_ms: self.timestamp_ms, text: self.text@ }
    }
}

impl Clone for LyricLine {
    fn clone(&self) -> (res: Self)
        ensures
            res@ == self@,
    {
        LyricLine { timestamp_ms: self.timestamp_ms, text: self.text.clone() }
    }
}


/// What reading an LRC timestamp gives: a number of milliseconds, a rejection, or a panic of
/// the reader (byte 3 of the fraction inside a character, or a total beyond `u32::MAX`).
pub enum TimestampOutcome {
    Millis(nat),
    Invalid,
    Panics,
}

/// The milliseconds that the fraction field of a timestamp adds: two bytes are hundredths,
/// three or more bytes are read as thousandths from the first three bytes, fewer bytes (or no
/// fraction field) add nothing.
pub open spec fn fraction_outcome(frac: Option<Seq<char>>) -> TimestampOutcome {
    match frac {
        Some(frac) => {
            let n = utf8_len(frac);
            if n == 2 {
                match parse_u32(frac) {
                    Some(f) => TimestampOutcome::Millis((f * 10) as nat),
                    None => TimestampOutcome::Invalid,
                }
            } else if n >= 3 {
                match byte_prefix(frac, 3) {
                    None => TimestampOutcome::Panics,
                    Some(p) => match parse_u32(p) {
                        Some(f) => TimestampOutcome::Millis(f as nat),
                        None => TimestampOutcome::Invalid,
                    },
                }
            } else {
                TimestampOutcome::Millis(0)
            }
        },
        None => TimestampOutcome::Millis(0),
    }
}

/// The fraction field of a timestamp split on `:` (`parts`), whose seconds field is split on
/// `.` (`sec_parts`): what follows the `.` (`mm:ss.xx`), or else the third `:` field
/// (`mm:ss:xx`).
pub open spec fn fraction_field(parts: Seq<Seq<char>>, sec_parts: Seq<Seq<char>>) -> Option<
    Seq<char>,
> {
    if sec_parts.len() > 1 {
        Some(sec_parts[1])
    } else if parts.len() > 2 {
        Some(parts[2])
    } else {
        None
    }
}

/// An LRC timestamp such as `mm:ss.xx`, `mm:ss.xxx` or `mm:ss:xx`: minutes before the first
/// `:`, seconds up to the next `.` or `:`, then the fraction field (see `fraction_field`);
/// fields after the fraction are ignored.
pub open spec fn timestamp_outcome(ts: Seq<char>) -> TimestampOutcome {
    let parts = split_on(ts, ':');
    if parts.len() < 2 {
        TimestampOutcome::Invalid
    } else {
        match parse_u32(parts[0]) {
            None => TimestampOutcome::Invalid,
            Some(minutes) => {
                let sec_parts = split_on(parts[1], '.');
                match parse_u32(sec_parts[0]) {
                    None => TimestampOutcome::Invalid,
                    Some(seconds) => match fraction_outcome(fraction_field(parts, sec_parts)) {
                        TimestampOutcome::Millis(ms) => {
                            let total = minutes * 60000 + seconds * 1000 + ms;
                            if total <= u32::MAX {
                                TimestampOutcome::Millis(total as nat)
                            } else {
                                TimestampOutcome::Panics
                            }
                        },
                        other => other,
                    },
                }
            },
        }
    }
}

/// The value of an LRC timestamp that reads without panicking.
pub open spec fn timestamp_value(ts: Seq<char>) -> Option<u32> {
    match timestamp_outcome(ts) {
        TimestampOutcome::Millis(v) => Some(v as u32),
        _ => None,
    }
}

/// The result of reading a timestamp or a part of one.
pub enum Reading {
    Millis(u64),
    Invalid,
    Panics,
}

pub open spec fn reading_matches(r: Reading, o: TimestampOutcome) -> bool {
    match o {
        TimestampOutcome::Millis(v) => r == Reading::Millis(v as u64),
        TimestampOutcome::Invalid => r is Invalid,
        TimestampOutcome::Panics => r is Panics,
    }
}

pub open spec fn opt_chars(o: Option<&Vec<char>>) -> Option<Seq<char>> {
    match o {
        Some(v) => Some(v@),
        None => None,
    }
}

fn fraction_reading(frac: Option<&Vec<char>>) -> (res: Reading)
    ensures
        reading_matches(res, fraction_outcome(opt_chars(frac))),
        res matches Reading::Millis(v) ==> v <= 10 * u32::MAX,
{
    match frac {
        Some(frac) => {
            let n = utf8_len_up_to(frac, 3);
            if n == 2 {
                match parse_u32_chars(frac) {
                    Some(f) => Reading::Millis(f as u64 * 10),
                    None => Reading::Invalid,
                }
            } else if n >= 3 {
                match byte_prefix_chars(frac, 3) {
                    None => Reading::Panics,
                    Some(p) => match parse_u32_chars(&p) {
                        Some(f) => Reading::Millis(f as u64),
                        None => Reading::Invalid,
                    },
                }
            } else {
                Reading::Millis(0)
            }
        },
        None => Reading::Millis(0),
    }
}

fn timestamp_reading(ts: &Vec<char>) -> (res: Reading)
    ensures
        reading_matches(res, timestamp_outcome(ts@)),
{
    let parts = split_chars(ts, ':');
    if parts.len() < 2 {
        return Reading::Invalid;
    }
    assert(views_of(parts@)[0] == parts@[0]@);
    assert(views_of(parts@)[1] == parts@[1]@);
    let minutes = match parse_u32_chars(&parts[0]) {
        Some(m) => m,
        None => return Reading::Invalid,
    };
    let sec_parts = split_chars(&parts[1], '.');
    assert(views_of(sec_parts@)[0] == sec_parts@[0]@);
    let seconds = match parse_u32_chars(&sec_parts[0]) {
        Some(s) => s,
        None => return Reading::Invalid,
    };
    let frac: Option<&Vec<char>> = if sec_parts.len() > 1 {
        assert(views_of(sec_parts@)[1] == sec_parts@[1]@);
        Some(&sec_parts[1])
    } else if parts.len() > 2 {
        assert(views_of(parts@)[2] == parts@[2]@);
        Some(&parts[2])
    } else {
        None
    };
    assert(opt_chars(frac) == fraction_field(views_of(parts@), views_of(sec_parts@)));
    match fraction_reading(frac) {
        Reading::Millis(ms) => {
            let total: u64 = minutes as u64 * 60000 + seconds as u64 * 1000 + ms;
            if total <= 0xFFFF_FFFF {
                Reading::Millis(total)
            } else {
                Reading::Panics
            }
        },
        other => other,
    }
}

fn timestamp_millis(ts: &Vec<char>) -> (res: Option<u32>)
    requires
        !(timestamp_outcome(ts@) is Panics),
    ensures
        res == timestamp_value(ts@),
{
    match timestamp_reading(ts) {
        Reading::Millis(v) => Some(v as u32),
        _ => None,
    }
}

/// Reads an LRC timestamp (`mm:ss.xx`, `mm:ss.xxx`, `mm:ss:xx`) as milliseconds.
pub fn parse_lrc_timestamp(timestamp: &str) -> (res: Option<u32>)
    requires
        !(timestamp_outcome(timestamp@) is Panics),
    ensures
        res == timestamp_value(timestamp@),
{
    let chars = chars_of(timestamp);
    timestamp_millis(&chars)
}


/// What a line of LRC text gives: a lyric line, nothing, or a panic of the timestamp reader.
pub enum LineOutcome {
    Entry(LyricLineView),
    Skip,
    Panics,
}

/// A trimmed line `[timestamp]text` gives a lyric line when the timestamp (up to the first
/// `]`) reads and the trimmed text after it is not empty.
pub open spec fn line_outcome(line: Seq<char>) -> LineOutcome {
    let t = trim(line);
    if t.len() == 0 || t[0] != '[' {
        LineOutcome::Skip
    } else {
        match index_of(t, ']') {
            None => LineOutcome::Skip,
            Some(cb) => match timestamp_outcome(t.subrange(1, cb)) {
                TimestampOutcome::Panics => LineOutcome::Panics,
                TimestampOutcome::Invalid => LineOutcome::Skip,
                TimestampOutcome::Millis(ms) => {
                    let text = trim(t.skip(cb + 1));
                    if text.len() == 0 {
                        LineOutcome::Skip
                    } else {
                        LineOutcome::Entry(LyricLineView { timestamp_ms: ms as u32, text })
                    }
                },
            },
        }
    }
}

/// The lines of `content` (`str::lines` followed by `trim`: a `\r` before a `\n` is white
/// space and goes with the trim).
pub open spec fn lrc_lines(content: Seq<char>) -> Seq<Seq<char>> {
    split_on(content, '\n')
}

/// No line of `content` makes the timestamp reader panic.
pub open spec fn lrc_readable(content: Seq<char>) -> bool {
    forall|i: int|
        0 <= i < lrc_lines(content).len() ==> !(line_outcome(#[trigger] lrc_lines(content)[i]) is Panics)
}

/// The lyric lines that `lines` give, in order.
pub open spec fn lrc_entries(lines: Seq<Seq<char>>) -> Seq<LyricLineView>
    decreases lines.len(),
{
    if lines.len() == 0 {
        Seq::empty()
    } else {
        let prev = lrc_entries(lines.drop_last());
        match line_outcome(lines.last()) {
            LineOutcome::Entry(e) => prev.push(e),
            _ => prev,
        }
    }
}

/// `s` with `x` inserted after the last element whose timestamp is not above `x`'s; keeps a
/// sorted sequence sorted and puts `x` after equal timestamps.
pub open spec fn insert_by_time(sorted: Seq<LyricLineView>, x: LyricLineView) -> Seq<LyricLineView>
    decreases sorted.len(),
{
    if sorted.len() == 0 || sorted.last().timestamp_ms <= x.timestamp_ms {
        sorted.push(x)
    } else {
        insert_by_time(sorted.drop_last(), x).push(sorted.last())
    }
}

/// The stable sort of `s` by timestamp (`sort_by_key(|l| l.timestamp_ms)`).
pub open spec fn sort_by_time(s: Seq<LyricLineView>) -> Seq<LyricLineView>
    decreases s.len(),
{
    if s.len() == 0 {
        s
    } else {
        insert_by_time(sort_by_time(s.drop_last()), s.last())
    }
}

/// The lyric lines of an LRC text, sorted by time.
pub open spec fn lrc_lyrics(content: Seq<char>) -> Seq<LyricLineView> {
    sort_by_time(lrc_entries(lrc_lines(content)))
}

pub open spec fn lines_view(v: Seq<LyricLine>) -> Seq<LyricLineView> {
    v.map_values(|l: LyricLine| l@)
}

fn parse_lrc_line(line: &Vec<char>) -> (res: Option<LyricLine>)
    requires
        !(line_outcome(line@) is Panics),
    ensures
        match line_outcome(line@) {
            LineOutcome::Entry(e) => res matches Some(l) && l@ == e,
            _ => res is None,
        },
{
    let t = trim_chars(line);
    if t.len() == 0 || t[0] != '[' {
        return None;
    }
    let cb = match find_char_index(&t, ']') {
        Some(cb) => cb,
        None => return None,
    };
    if cb == 0 {
        return None;
    }
    let time_chars = sub_chars(&t, 1, cb);
    let ms = match timestamp_millis(&time_chars) {
        Some(ms) => ms,
        None => return None,
    };
    let rest = sub_chars(&t, cb + 1, t.len());
    assert(rest@ == t@.skip(cb + 1));
    let text = trim_chars(&rest);
    if text.len() == 0 {
        return None;
    }
    Some(LyricLine { timestamp_ms: ms, text: string_of(&text) })
}

fn line_panics(line: &Vec<char>) -> (res: bool)
    ensures
        res == (line_outcome(line@) is Panics),
{
    let t = trim_chars(line);
    if t.len() == 0 || t[0] != '[' {
        return false;
    }
    let cb = match find_char_index(&t, ']') {
        Some(cb) => cb,
        None => return false,
    };
    if cb == 0 {
        return false;
    }
    let time_chars = sub_chars(&t, 1, cb);
    match timestamp_reading(&time_chars) {
        Reading::Panics => true,
        _ => false,
    }
}

/// Whether `parse_lrc` can read `content`: no line has a timestamp whose reading panics.
pub fn lrc_is_readable(content: &str) -> (res: bool)
    ensures
        res == lrc_readable(content@),
{
    let chars = chars_of(content);
    let lines = split_chars(&chars, '\n');
    let ghost ls = views_of(lines@);
    let mut i: usize = 0;
    while i < lines.len()
        invariant
            i <= lines.len(),
            ls == views_of(lines@),
            ls == lrc_lines(content@),
            forall|k: int| 0 <= k < i ==> !(line_outcome(#[trigger] ls[k]) is Panics),
        decreases lines.len() - i,
    {
        assert(ls[i as int] == lines@[i as int]@);
        if line_panics(&lines[i]) {
            return false;
        }
        i = i + 1;
    }
    true
}

fn find_char_index(v: &Vec<char>, c: char) -> (res: Option<usize>)
    ensures
        res matches Some(i) ==> index_of(v@, c) == Some(i as int) && i < v.len() && v@[i as int] == c,
        res is None ==> index_of(v@, c) is None,
{
    let r = crate::text::find_char(v, c);
    proof {
        if let Some(i) = r {
            crate::text::lemma_index_of_bound(v@, c);
        }
    }
    r
}

/// Inserts `x` into `out` as `insert_by_time` does.
fn insert_lyric(out: &mut Vec<LyricLine>, x: LyricLine)
    ensures
        lines_view(final(out)@) == insert_by_time(lines_view(old(out)@), x@),
{
    let ghost xv = x@;
    let ghost s = lines_view(out@);
    let mut j = out.len();
    assert(s.take(j as int) == s);
    assert(s.skip(j as int) == Seq::<LyricLineView>::empty());
    while j > 0 && out[j - 1].timestamp_ms > x.timestamp_ms
        invariant
            j <= out.len(),
            s == lines_view(out@),
            xv == x@,
            insert_by_time(s, xv) == insert_by_time(s.take(j as int), xv) + s.skip(j as int),
        decreases j,
    {
        let ghost p = s.take(j as int);
        assert(p.drop_last() == s.take(j - 1));
        assert(p.last() == s[j - 1]);
        assert(s.skip(j - 1) == seq![s[j - 1]] + s.skip(j as int));
        assert(insert_by_time(p, xv) == insert_by_time(s.take(j - 1), xv).push(s[j - 1]));
        j = j - 1;
    }
    out.insert(j, x);
    assert(lines_view(out@) == s.take(j as int).push(xv) + s.skip(j as int));
}

/// Reads LRC lyrics: one lyric line per line `[timestamp]text` whose timestamp reads and whose
/// text is not empty, sorted by time (lines with equal times keep their order).
pub fn parse_lrc(content: &str) -> (res: Vec<LyricLine>)
    requires
        lrc_readable(content@),
    ensures
        lines_view(res@) == lrc_lyrics(content@),
{
    let chars = chars_of(content);
    let lines = split_chars(&chars, '\n');
    let ghost ls = views_of(lines@);
    let mut out: Vec<LyricLine> = Vec::new();
    let mut i: usize = 0;
    assert(ls.take(0) == Seq::<Seq<char>>::empty());
    while i < lines.len()
        invariant
            i <= lines.len(),
            ls == views_of(lines@),
            ls == lrc_lines(content@),
            lrc_readable(content@),
            lines_view(out@) == sort_by_time(lrc_entries(ls.take(i as int))),
        decreases lines.len() - i,
    {
        assert(ls[i as int] == lines@[i as int]@);
        assert(ls.take(i + 1).drop_last() == ls.take(i as int));
        assert(ls.take(i + 1).last() == ls[i as int]);
        if let Some(l) = parse_lrc_line(&lines[i]) {
            let ghost e = l@;
            let ghost prev = lrc_entries(ls.take(i as int));
            assert(prev.push(e).drop_last() == prev);
            insert_lyric(&mut out, l);
        }
        i = i + 1;
    }
    assert(ls.take(i as int) == ls);
    out
}


pub open spec fn sorted_by_time(s: Seq<LyricLineView>) -> bool {
    forall|i: int, j: int| 0 <= i <= j < s.len() ==> s[i].timestamp_ms <= s[j].timestamp_ms
}

pub open spec fn all_at_most(s: Seq<LyricLineView>, b: u32) -> bool {
    forall|i: int| 0 <= i < s.len() ==> s[i].timestamp_ms <= b
}

proof fn lemma_insert_bounded(s: Seq<LyricLineView>, x: LyricLineView, b: u32)
    requires
        all_at_most(s, b),
        x.timestamp_ms <= b,
    ensures
        all_at_most(insert_by_time(s, x), b),
    decreases s.len(),
{
    if !(s.len() == 0 || s.last().timestamp_ms <= x.timestamp_ms) {
        lemma_insert_bounded(s.drop_last(), x, b);
    }
}

proof fn lemma_insert_sorted(s: Seq<LyricLineView>, x: LyricLineView)
    requires
        sorted_by_time(s),
    ensures
        sorted_by_time(insert_by_time(s, x)),
    decreases s.len(),
{
    if !(s.len() == 0 || s.last().timestamp_ms <= x.timestamp_ms) {
        lemma_insert_sorted(s.drop_last(), x);
        lemma_insert_bounded(s.drop_last(), x, s.last().timestamp_ms);
    }
}

proof fn lemma_insert_multiset(s: Seq<LyricLineView>, x: LyricLineView)
    ensures
        insert_by_time(s, x).to_multiset() == s.to_multiset().insert(x),
    decreases s.len(),
{
    broadcast use vstd::seq_lib::group_to_multiset_ensures;

    if !(s.len() == 0 || s.last().timestamp_ms <= x.timestamp_ms) {
        lemma_insert_multiset(s.drop_last(), x);
        assert(s.drop_last().push(s.last()) == s);
        assert(s.to_multiset() == s.drop_last().to_multiset().insert(s.last()));
    }
}

pub open spec fn at_time(t: u32) -> spec_fn(LyricLineView) -> bool {
    |e: LyricLineView| e.timestamp_ms == t
}

proof fn lemma_insert_stable(s: Seq<LyricLineView>, x: LyricLineView, t: u32)
    ensures
        insert_by_time(s, x).filter(at_time(t)) == s.push(x).filter(at_time(t)),
    decreases s.len(),
{
    broadcast use vstd::seq::Seq::lemma_filter_push;

    if !(s.len() == 0 || s.last().timestamp_ms <= x.timestamp_ms) {
        lemma_insert_stable(s.drop_last(), x, t);
        assert(s.drop_last().push(s.last()) == s);
    }
}

proof fn lemma_sort_properties(s: Seq<LyricLineView>)
    ensures
        sorted_by_time(sort_by_time(s)),
        sort_by_time(s).to_multiset() == s.to_multiset(),
        forall|t: u32| sort_by_time(s).filter(#[trigger] at_time(t)) == s.filter(at_time(t)),
    decreases s.len(),
{
    broadcast use vstd::seq_lib::group_to_multiset_ensures;
    broadcast use vstd::seq::Seq::lemma_filter_push;

    if s.len() > 0 {
        let p = s.drop_last();
        lemma_sort_properties(p);
        lemma_insert_sorted(sort_by_time(p), s.last());
        lemma_insert_multiset(sort_by_time(p), s.last());
        assert(p.push(s.last()) == s);
        assert forall|t: u32| sort_by_time(s).filter(#[trigger] at_time(t)) == s.filter(at_time(t)) by {
            lemma_insert_stable(sort_by_time(p), s.last(), t);
        }
    }
}

/// The lyrics that an LRC text gives are in time order.
pub proof fn lemma_lrc_lyrics_sorted(content: Seq<char>)
    ensures
        sorted_by_time(lrc_lyrics(content)),
{
    lemma_sort_properties(lrc_entries(lrc_lines(content)));
}

/// The lyrics that an LRC text gives are exactly its readable lines, none lost and none
/// repeated.
pub proof fn lemma_lrc_lyrics_permutation(content: Seq<char>)
    ensures
        lrc_lyrics(content).to_multiset() == lrc_entries(lrc_lines(content)).to_multiset(),
{
    lemma_sort_properties(lrc_entries(lrc_lines(content)));
}

/// Lines with the same timestamp keep the order they have in the text.
pub proof fn lemma_lrc_lyrics_stable(content: Seq<char>, t: u32)
    ensures
        lrc_lyrics(content).filter(at_time(t)) == lrc_entries(lrc_lines(content)).filter(
            at_time(t),
        ),
{
    lemma_sort_properties(lrc_entries(lrc_lines(content)));
}


pub open spec fn tracks_view(v: Seq<Track>) -> Seq<TrackView> {
    v.map_values(|t: Track| t@)
}

pub open spec fn playlists_view(v: Seq<Playlist>) -> Seq<PlaylistView> {
    v.map_values(|p: Playlist| p@)
}


proof fn lemma_split_no_sep(cur: Seq<char>, a: Seq<char>, r: Seq<char>, sep: char)
    requires
        forall|i: int| 0 <= i < a.len() ==> a[i] != sep,
    ensures
        crate::text::split_from(cur, a + r, sep) == crate::text::split_from(cur + a, r, sep),
    decreases a.len(),
{
    if a.len() > 0 {
        assert((a + r)[0] == a[0]);
        assert((a + r).drop_first() == a.drop_first() + r);
        lemma_split_no_sep(cur.push(a[0]), a.drop_first(), r, sep);
        assert(cur.push(a[0]) + a.drop_first() == cur + a);
    } else {
        assert(a + r == r);
        assert(cur + a == cur);
    }
}

/// Splitting `a sep b` (with no `sep` in `a` or `b`) gives `[a, b]`.
proof fn lemma_split_two(a: Seq<char>, b: Seq<char>, sep: char)
    requires
        forall|i: int| 0 <= i < a.len() ==> a[i] != sep,
        forall|i: int| 0 <= i < b.len() ==> b[i] != sep,
    ensures
        split_on(a + seq![sep] + b, sep) == seq![a, b],
{
    let e = Seq::<char>::empty();
    lemma_split_no_sep(e, a, seq![sep] + b, sep);
    assert(a + seq![sep] + b == a + (seq![sep] + b));
    assert(e + a == a);
    assert((seq![sep] + b).drop_first() == b);
    lemma_split_no_sep(e, b, e, sep);
    assert(b + e == b);
    assert(e + b == b);
    assert(crate::text::split_from(b, e, sep) == seq![b]);
}

proof fn lemma_digit_char(d: int)
    requires
        0 <= d < 10,
    ensures
        is_digit(crate::text::digit_char(d)),
        crate::text::digit_value(crate::text::digit_char(d)) == d,
        crate::text::digit_char(d) != ':',
        crate::text::digit_char(d) != '.',
        crate::text::digit_char(d) != '+',
        char_width(crate::text::digit_char(d)) == 1,
{
}

proof fn lemma_decimal(n: nat)
    ensures
        decimal(n).len() > 0,
        all_digits(decimal(n)),
        digits_value(decimal(n)) == n,
        forall|i: int| 0 <= i < decimal(n).len() ==> decimal(n)[i] != ':' && decimal(n)[i] != '.'
            && decimal(n)[i] != '+',
    decreases n,
{
    if n < 10 {
        lemma_digit_char(n as int);
        assert(decimal(n).drop_last() == Seq::<char>::empty());
        assert(decimal(n).last() == crate::text::digit_char(n as int));
        assert(digits_value(decimal(n)) == digits_value(decimal(n).drop_last()) * 10
            + crate::text::digit_value(decimal(n).last()));
    } else {
        lemma_decimal(n / 10);
        lemma_digit_char((n % 10) as int);
        assert(decimal(n).drop_last() == decimal(n / 10));
        assert(decimal(n).last() == crate::text::digit_char((n % 10) as int));
        vstd::arithmetic::div_mod::lemma_fundamental_div_mod(n as int, 10);
        assert(digits_value(decimal(n)) == digits_value(decimal(n).drop_last()) * 10
            + crate::text::digit_value(decimal(n).last()));
        assert forall|i: int| 0 <= i < decimal(n).len() implies is_digit(#[trigger] decimal(n)[i]) by {
            if i < decimal(n).len() - 1 {
                assert(decimal(n)[i] == decimal(n / 10)[i]);
            }
        }
    }
}

proof fn lemma_two_digits(n: nat)
    requires
        n < 100,
    ensures
        two_digits(n).len() == 2,
        all_digits(two_digits(n)),
        digits_value(two_digits(n)) == n,
        forall|i: int| 0 <= i < two_digits(n).len() ==> two_digits(n)[i] != ':' && two_digits(
            n,
        )[i] != '.' && two_digits(n)[i] != '+',
        utf8_len(two_digits(n)) == 2,
{
    let t = two_digits(n);
    if n < 10 {
        lemma_digit_char(n as int);
        lemma_digit_char(0);
        assert(t.drop_last() == seq!['0']);
        assert(t.drop_last().drop_last() == Seq::<char>::empty());
    } else {
        lemma_decimal(n);
        lemma_decimal(n / 10);
        lemma_digit_char((n / 10) as int);
        lemma_digit_char((n % 10) as int);
        assert(decimal(n / 10) == seq![crate::text::digit_char((n / 10) as int)]);
    }
    assert(t.drop_first().drop_first() == Seq::<char>::empty());
    assert(t.drop_last().drop_last() == Seq::<char>::empty());
    assert(digits_value(t) == digits_value(t.drop_last()) * 10 + crate::text::digit_value(t[1]));
    assert(digits_value(t.drop_last()) == digits_value(t.drop_last().drop_last()) * 10
        + crate::text::digit_value(t[0]));
    assert(utf8_len(t) == char_width(t[0]) + utf8_len(t.drop_first()));
    assert(utf8_len(t.drop_first()) == char_width(t[1]) + utf8_len(t.drop_first().drop_first()));
    assert(is_digit(t[0]) && is_digit(t[1]));
}

proof fn lemma_parse_digits(s: Seq<char>)
    requires
        s.len() > 0,
        all_digits(s),
        digits_value(s) <= u32::MAX,
    ensures
        parse_u32(s) == Some(digits_value(s) as u32),
{
    assert(is_digit(s[0]));
}

/// A timestamp written `m:ss.xx` reads back as `m` minutes, `ss` seconds and `xx` hundredths.
pub proof fn lemma_timestamp_round_trip(m: nat, s: nat, h: nat)
    requires
        s < 60,
        h < 100,
        m * 60000 + s * 1000 + h * 10 <= u32::MAX,
    ensures
        timestamp_value(decimal(m) + seq![':'] + two_digits(s) + seq!['.'] + two_digits(h))
            == Some((m * 60000 + s * 1000 + h * 10) as u32),
{
    let dm = decimal(m);
    let ds = two_digits(s);
    let dh = two_digits(h);
    lemma_decimal(m);
    lemma_two_digits(s);
    lemma_two_digits(h);
    let rest = ds + seq!['.'] + dh;
    assert forall|i: int| 0 <= i < rest.len() implies rest[i] != ':' by {
        if i < 2 {
            assert(rest[i] == ds[i]);
        } else if i > 2 {
            assert(rest[i] == dh[i - 3]);
        }
    }
    lemma_split_two(dm, rest, ':');
    assert(dm + seq![':'] + ds + seq!['.'] + dh == dm + seq![':'] + rest);
    lemma_split_two(ds, dh, '.');
    lemma_parse_digits(dm);
    lemma_parse_digits(ds);
    lemma_parse_digits(dh);
}

/// A timestamp written `m:ss:xx` reads back as `m` minutes, `ss` seconds and `xx` hundredths,
/// as `m:ss.xx` does.
pub proof fn lemma_colon_timestamp_round_trip(m: nat, s: nat, h: nat)
    requires
        s < 60,
        h < 100,
        m * 60000 + s * 1000 + h * 10 <= u32::MAX,
    ensures
        timestamp_value(decimal(m) + seq![':'] + two_digits(s) + seq![':'] + two_digits(h))
            == Some((m * 60000 + s * 1000 + h * 10) as u32),
        timestamp_value(decimal(m) + seq![':'] + two_digits(s) + seq![':'] + two_digits(h))
            == timestamp_value(decimal(m) + seq![':'] + two_digits(s) + seq!['.'] + two_digits(h)),
{
    let dm = decimal(m);
    let ds = two_digits(s);
    let dh = two_digits(h);
    let e = Seq::<char>::empty();
    lemma_decimal(m);
    lemma_two_digits(s);
    lemma_two_digits(h);
    lemma_timestamp_round_trip(m, s, h);
    let rest = ds + seq![':'] + dh;
    lemma_split_two(ds, dh, ':');
    lemma_split_no_sep(e, dm, seq![':'] + rest, ':');
    assert(e + dm == dm);
    assert((seq![':'] + rest)[0] == ':');
    assert((seq![':'] + rest).drop_first() == rest);
    assert(dm + seq![':'] + ds + seq![':'] + dh == dm + (seq![':'] + rest));
    assert(split_on(dm + seq![':'] + ds + seq![':'] + dh, ':') == seq![dm] + seq![ds, dh]);
    assert(seq![dm] + seq![ds, dh] == seq![dm, ds, dh]);
    lemma_split_no_sep(e, ds, e, '.');
    assert(ds + e == ds);
    assert(e + ds == ds);
    assert(split_on(ds, '.') == seq![ds]);
    lemma_parse_digits(dm);
    lemma_parse_digits(ds);
    lemma_parse_digits(dh);
}

proof fn lemma_split_join(cur: Seq<char>, x: Seq<char>, y: Seq<char>, sep: char)
    ensures
        crate::text::split_from(cur, x + seq![sep] + y, sep) == crate::text::split_from(cur, x, sep)
            + split_on(y, sep),
    decreases x.len(),
{
    let e = Seq::<char>::empty();
    let whole = x + seq![sep] + y;
    if x.len() == 0 {
        assert(whole == seq![sep] + y);
        assert(whole[0] == sep);
        assert(whole.drop_first() == y);
    } else {
        assert(whole[0] == x[0]);
        assert(whole.drop_first() == x.drop_first() + seq![sep] + y);
        if x[0] == sep {
            lemma_split_join(e, x.drop_first(), y, sep);
            assert(seq![cur] + (crate::text::split_from(e, x.drop_first(), sep) + split_on(y, sep))
                == seq![cur] + crate::text::split_from(e, x.drop_first(), sep) + split_on(y, sep));
        } else {
            lemma_split_join(cur.push(x[0]), x.drop_first(), y, sep);
        }
    }
}

proof fn lemma_entries_concat(x: Seq<Seq<char>>, y: Seq<Seq<char>>)
    ensures
        lrc_entries(x + y) == lrc_entries(x) + lrc_entries(y),
    decreases y.len(),
{
    if y.len() == 0 {
        assert(x + y == x);
        assert(lrc_entries(x) + lrc_entries(y) == lrc_entries(x));
    } else {
        lemma_entries_concat(x, y.drop_last());
        assert((x + y).drop_last() == x + y.drop_last());
        assert((x + y).last() == y.last());
        let ex = lrc_entries(x);
        let ey = lrc_entries(y.drop_last());
        match line_outcome(y.last()) {
            LineOutcome::Entry(e) => {
                assert((ex + ey).push(e) == ex + ey.push(e));
            },
            _ => {},
        }
    }
}

proof fn lemma_filter_none_at(s: Seq<LyricLineView>, t: u32)
    requires
        forall|i: int| 0 <= i < s.len() ==> s[i].timestamp_ms != t,
    ensures
        s.filter(at_time(t)) == Seq::<LyricLineView>::empty(),
    decreases s.len(),
{
    reveal(Seq::filter);
    if s.len() > 0 {
        lemma_filter_none_at(s.drop_last(), t);
    }
}

proof fn lemma_filter_last(s: Seq<LyricLineView>, t: u32)
    requires
        s.len() > 0,
    ensures
        s.filter(at_time(t)) == if s.last().timestamp_ms == t {
            s.drop_last().filter(at_time(t)).push(s.last())
        } else {
            s.drop_last().filter(at_time(t))
        },
{
    reveal(Seq::filter);
}

/// Two time-sorted sequences with the same lines at every time, in the same order, are equal.
proof fn lemma_sorted_unique(s1: Seq<LyricLineView>, s2: Seq<LyricLineView>)
    requires
        sorted_by_time(s1),
        sorted_by_time(s2),
        forall|t: u32| #[trigger] s1.filter(at_time(t)) == s2.filter(at_time(t)),
    ensures
        s1 == s2,
    decreases s1.len() + s2.len(),
{
    if s1.len() == 0 && s2.len() == 0 {
        assert(s1 == s2);
    } else if s1.len() == 0 {
        let t = s2.last().timestamp_ms;
        lemma_filter_last(s2, t);
        lemma_filter_none_at(s1, t);
        assert(s1.filter(at_time(t)).len() == 0);
    } else if s2.len() == 0 {
        let t = s1.last().timestamp_ms;
        lemma_filter_last(s1, t);
        lemma_filter_none_at(s2, t);
        assert(s2.filter(at_time(t)).len() == 0);
    } else {
        let k1 = s1.last().timestamp_ms;
        let k2 = s2.last().timestamp_ms;
        if k1 < k2 {
            lemma_filter_last(s2, k2);
            assert forall|i: int| 0 <= i < s1.len() implies s1[i].timestamp_ms != k2 by {
                assert(s1[i].timestamp_ms <= s1[s1.len() - 1].timestamp_ms);
            }
            lemma_filter_none_at(s1, k2);
            assert(s1.filter(at_time(k2)).len() == 0);
        } else if k2 < k1 {
            lemma_filter_last(s1, k1);
            assert forall|i: int| 0 <= i < s2.len() implies s2[i].timestamp_ms != k1 by {
                assert(s2[i].timestamp_ms <= s2[s2.len() - 1].timestamp_ms);
            }
            lemma_filter_none_at(s2, k1);
            assert(s2.filter(at_time(k1)).len() == 0);
        } else {
            let d1 = s1.drop_last();
            let d2 = s2.drop_last();
            lemma_filter_last(s1, k1);
            lemma_filter_last(s2, k1);
            assert(s1.filter(at_time(k1)) == s2.filter(at_time(k1)));
            assert(s1.last() == s2.last()) by {
                assert(s1.filter(at_time(k1)).last() == s1.last());
                assert(s2.filter(at_time(k1)).last() == s2.last());
            }
            assert forall|t: u32| #[trigger] d1.filter(at_time(t)) == d2.filter(at_time(t)) by {
                lemma_filter_last(s1, t);
                lemma_filter_last(s2, t);
                assert(s1.filter(at_time(t)) == s2.filter(at_time(t)));
                if t == k1 {
                    assert(d1.filter(at_time(t)) == s1.filter(at_time(t)).drop_last());
                    assert(d2.filter(at_time(t)) == s2.filter(at_time(t)).drop_last());
                }
            }
            assert(sorted_by_time(d1));
            assert(sorted_by_time(d2));
            lemma_sorted_unique(d1, d2);
            assert(s1 == d1.push(s1.last()));
            assert(s2 == d2.push(s2.last()));
        }
    }
}

/// Reading two LRC texts joined by a line break gives the lyrics of each, merged by time
/// (lines of the first text before lines of the second at equal times).
pub proof fn lemma_lrc_lyrics_join(a: Seq<char>, b: Seq<char>)
    ensures
        lrc_lyrics(a + seq!['\n'] + b) == sort_by_time(lrc_lyrics(a) + lrc_lyrics(b)),
{
    let e = Seq::<char>::empty();
    lemma_split_join(e, a, b, '\n');
    let la = lrc_lines(a);
    let lb = lrc_lines(b);
    assert(lrc_lines(a + seq!['\n'] + b) == la + lb);
    lemma_entries_concat(la, lb);
    let ea = lrc_entries(la);
    let eb = lrc_entries(lb);
    let lhs = sort_by_time(ea + eb);
    let rhs = sort_by_time(sort_by_time(ea) + sort_by_time(eb));
    lemma_sort_properties(ea + eb);
    lemma_sort_properties(sort_by_time(ea) + sort_by_time(eb));
    lemma_sort_properties(ea);
    lemma_sort_properties(eb);
    assert forall|t: u32| #[trigger] lhs.filter(at_time(t)) == rhs.filter(at_time(t)) by {
        Seq::filter_distributes_over_add(ea, eb, at_time(t));
        Seq::filter_distributes_over_add(sort_by_time(ea), sort_by_time(eb), at_time(t));
    }
    lemma_sorted_unique(lhs, rhs);
}

proof fn lemma_index_of_after(a: Seq<char>, c: char, r: Seq<char>)
    requires
        forall|i: int| 0 <= i < a.len() ==> a[i] != c,
    ensures
        index_of(a + seq![c] + r, c) == Some(a.len() as int),
    decreases a.len(),
{
    let w = a + seq![c] + r;
    if a.len() == 0 {
        assert(w[0] == c);
    } else {
        assert(w[0] == a[0]);
        assert(w.drop_first() == a.drop_first() + seq![c] + r);
        lemma_index_of_after(a.drop_first(), c, r);
    }
}

/// A text that neither starts nor ends with white space is its own trim.
proof fn lemma_trim_clean(s: Seq<char>)
    requires
        s.len() > 0,
        !crate::text::is_white_space(s[0]),
        !crate::text::is_white_space(s.last()),
    ensures
        trim(s) == s,
{
    assert(crate::text::trim_start(s) == s);
    assert(crate::text::trim_end(s) == s);
}

/// A line `[ts]text` whose timestamp reads gives a lyric line at that time holding the whole
/// text after the first `]` (here a text that is its own trim, and may itself hold `]`).
pub proof fn lemma_line_keeps_whole_text(ts: Seq<char>, text: Seq<char>)
    requires
        forall|i: int| 0 <= i < ts.len() ==> ts[i] != ']',
        text.len() > 0,
        !crate::text::is_white_space(text[0]),
        !crate::text::is_white_space(text.last()),
    ensures
        timestamp_outcome(ts) matches TimestampOutcome::Millis(ms) ==> line_outcome(
            seq!['['] + ts + seq![']'] + text,
        ) == LineOutcome::Entry(LyricLineView { timestamp_ms: ms as u32, text }),
{
    let l = seq!['['] + ts + seq![']'] + text;
    assert(l[0] == '[');
    assert(l.last() == text.last());
    lemma_trim_clean(l);
    assert(l.drop_first() == ts + seq![']'] + text);
    lemma_index_of_after(ts, ']', text);
    let cb: int = ts.len() as int + 1;
    assert(index_of(l, ']') == Some(cb));
    assert(l.subrange(1, cb) == ts);
    assert(l.skip(cb + 1) == text);
    lemma_trim_clean(text);
}

/// Reading a one-line LRC text `[m:ss.xx]text` gives exactly one lyric line: at `m` minutes,
/// `ss` seconds and `xx` hundredths, with the whole text.
pub proof fn lemma_single_line_lyrics(m: nat, s: nat, h: nat, text: Seq<char>)
    requires
        s < 60,
        h < 100,
        m * 60000 + s * 1000 + h * 10 <= u32::MAX,
        text.len() > 0,
        !crate::text::is_white_space(text[0]),
        !crate::text::is_white_space(text.last()),
        forall|i: int| 0 <= i < text.len() ==> text[i] != '\n',
    ensures
        lrc_lyrics(
            seq!['['] + decimal(m) + seq![':'] + two_digits(s) + seq!['.'] + two_digits(h) + seq![
                ']',
            ] + text,
        ) == seq![
            LyricLineView { timestamp_ms: (m * 60000 + s * 1000 + h * 10) as u32, text },
        ],
{
    let ts = decimal(m) + seq![':'] + two_digits(s) + seq!['.'] + two_digits(h);
    lemma_decimal(m);
    lemma_two_digits(s);
    lemma_two_digits(h);
    lemma_timestamp_round_trip(m, s, h);
    let dm = decimal(m);
    let ds = two_digits(s);
    let dh = two_digits(h);
    assert forall|i: int| 0 <= i < ts.len() implies ts[i] != ']' by {
        if i < dm.len() {
            assert(ts[i] == dm[i]);
            assert(is_digit(dm[i]));
        } else if i == dm.len() {
        } else if i < dm.len() + 3 {
            assert(ts[i] == ds[i - dm.len() - 1]);
            assert(is_digit(ds[i - dm.len() - 1]));
        } else if i == dm.len() + 3 {
        } else {
            assert(ts[i] == dh[i - dm.len() - 4]);
            assert(is_digit(dh[i - dm.len() - 4]));
        }
    }
    lemma_line_keeps_whole_text(ts, text);
    let l = seq!['['] + ts + seq![']'] + text;
    assert(l == seq!['['] + decimal(m) + seq![':'] + two_digits(s) + seq!['.'] + two_digits(h)
        + seq![']'] + text);
    assert forall|i: int| 0 <= i < l.len() implies l[i] != '\n' by {
        if i == 0 {
        } else if i <= ts.len() {
            assert(l[i] == ts[i - 1]);
        } else if i == ts.len() + 1 {
        } else {
            assert(l[i] == text[i - ts.len() - 2]);
        }
    }
    let e = Seq::<char>::empty();
    lemma_split_no_sep(e, l, e, '\n');
    assert(e + l == l);
    assert(l + e == l);
    assert(lrc_lines(l) == seq![l]);
    let entry = LyricLineView { timestamp_ms: (m * 60000 + s * 1000 + h * 10) as u32, text };
    assert(timestamp_outcome(ts) is Millis);
    assert(line_outcome(l) == LineOutcome::Entry(entry));
    assert(seq![l].drop_last() == Seq::<Seq<char>>::empty());
    assert(seq![l].last() == l);
    assert(lrc_entries(Seq::<Seq<char>>::empty()) == Seq::<LyricLineView>::empty());
    assert(lrc_entries(seq![l]) == Seq::<LyricLineView>::empty().push(entry));
    assert(Seq::<LyricLineView>::empty().push(entry) == seq![entry]);
    assert(seq![entry].drop_last() == Seq::<LyricLineView>::empty());
    assert(sort_by_time(Seq::<LyricLineView>::empty()) == Seq::<LyricLineView>::empty());
    assert(sort_by_time(seq![entry]) == insert_by_time(Seq::<LyricLineView>::empty(), entry));
}

} // verus!
