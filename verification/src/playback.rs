use vstd::prelude::*;

use crate::models::{
    lines_view, minutes_seconds, minutes_seconds_chars, opt_view, tracks_view, LyricLine,
    LyricLineView, Track, TrackView,
};
use crate::text::string_of;

verus! {

/// The tracks being played, the one that plays, its lyrics and the uri last sent to the
/// player.
pub struct PlaybackQueue {
    tracks: Vec<Track>,
    current_idx: usize,
    lyrics: Vec<LyricLine>,
    active_lyric_idx: Option<usize>,
    last_played_uri: Option<String>,
}

pub struct QueueView {
    pub tracks: Seq<TrackView>,
    pub current_idx: int,
    pub lyrics: Seq<LyricLineView>,
    pub active_lyric_idx: Option<usize>,
    pub last_played_uri: Option<Seq<char>>,
}

impl View for PlaybackQueue {
    type V = QueueView;

    closed spec fn view(&self) -> QueueView {
        QueueView {
            tracks: tracks_view(self.tracks@),
            current_idx: self.current_idx as int,
            lyrics: lines_view(self.lyrics@),
            active_lyric_idx: self.active_lyric_idx,
            last_played_uri: opt_view(self.last_played_uri),
        }
    }
}

/// The current index points into the tracks, or is 0 when there are none.
pub open spec fn queue_wf(q: QueueView) -> bool {
    (0 <= q.current_idx < q.tracks.len()) || (q.tracks.len() == 0 && q.current_idx == 0)
}

pub open spec fn opt_track_view(t: Option<Track>) -> Option<TrackView> {
    match t {
        Some(t) => Some(t@),
        None => None,
    }
}

pub open spec fn forget_played(q: QueueView) -> QueueView {
    QueueView { last_played_uri: None, ..q }
}

pub open spec fn playing_list(q: QueueView, tracks: Seq<TrackView>, index: int) -> QueueView {
    QueueView { tracks, current_idx: index, last_played_uri: None, ..q }
}

pub open spec fn min(a: int, b: int) -> int {
    if a < b {
        a
    } else {
        b
    }
}

/// Play-pause with an empty queue starts the recent tracks from the first; otherwise it
/// toggles the player.
pub enum ToggleAction {
    PlayTrack(Track),
    TogglePlayback,
    Nothing,
}

pub enum ToggleView {
    PlayTrack(TrackView),
    TogglePlayback,
    Nothing,
}

pub open spec fn toggle_view(a: ToggleAction) -> ToggleView {
    match a {
        ToggleAction::PlayTrack(t) => ToggleView::PlayTrack(t@),
        ToggleAction::TogglePlayback => ToggleView::TogglePlayback,
        ToggleAction::Nothing => ToggleView::Nothing,
    }
}

pub open spec fn after_toggle(q: QueueView, recents: Seq<TrackView>) -> (QueueView, ToggleView) {
    if q.tracks.len() == 0 {
        if recents.len() > 0 {
            (playing_list(q, recents, 0), ToggleView::PlayTrack(recents[0]))
        } else {
            (q, ToggleView::Nothing)
        }
    } else {
        (q, ToggleView::TogglePlayback)
    }
}

/// Next: a track queued by the user is inserted after the current one and played; else
/// the following track, wrapping to the first; an empty queue starts the recent tracks.
pub open spec fn after_next(q: QueueView, queued: Option<TrackView>, recents: Seq<TrackView>) -> (
    QueueView,
    Option<TrackView>,
) {
    match queued {
        Some(t) => {
            let pos = min(q.current_idx + 1, q.tracks.len() as int);
            (
                QueueView {
                    tracks: q.tracks.insert(pos, t),
                    current_idx: pos,
                    last_played_uri: None,
                    ..q
                },
                Some(t),
            )
        },
        None => {
            let f = forget_played(q);
            if q.tracks.len() == 0 {
                if recents.len() > 0 {
                    (playing_list(q, recents, 0), Some(recents[0]))
                } else {
                    (f, None)
                }
            } else if q.current_idx + 1 < q.tracks.len() {
                (
                    QueueView { current_idx: q.current_idx + 1, ..f },
                    Some(q.tracks[q.current_idx + 1]),
                )
            } else {
                (QueueView { current_idx: 0, ..f }, Some(q.tracks[0]))
            }
        },
    }
}

/// Previous: the track before the current one; on the first track, that track again from the
/// start (`true`: seek to 0 first).
pub open spec fn after_previous(q: QueueView) -> (QueueView, Option<TrackView>, bool) {
    let f = forget_played(q);
    if q.current_idx > 0 {
        (
            QueueView { current_idx: q.current_idx - 1, ..f },
            Some(q.tracks[q.current_idx - 1]),
            false,
        )
    } else if q.tracks.len() > 0 {
        (f, Some(q.tracks[0]), true)
    } else {
        (f, None, false)
    }
}

/// Sending `t` to the player: refused (`false`) when it is the one last sent; its uri is then
/// the last sent.
pub open spec fn after_start(q: QueueView, t: TrackView) -> (QueueView, bool) {
    (QueueView { last_played_uri: Some(t.uri), ..q }, q.last_played_uri != Some(t.uri))
}

/// Index of the first track with this id.
pub open spec fn index_of_id(tracks: Seq<TrackView>, id: Seq<char>) -> Option<int>
    decreases tracks.len(),
{
    if tracks.len() == 0 {
        None
    } else if tracks[0].id == id {
        Some(0)
    } else {
        match index_of_id(tracks.drop_first(), id) {
            Some(i) => Some(i + 1),
            None => None,
        }
    }
}

pub open spec fn shift(o: Option<int>, d: int) -> Option<int> {
    match o {
        Some(k) => Some(k + d),
        None => None,
    }
}

/// A track picked from the "up next" list becomes current: where the queue holds a track of
/// the same id, that one; else it is inserted after the current track.
pub open spec fn after_pick_queued(q: QueueView, t: TrackView) -> QueueView {
    match index_of_id(q.tracks, t.id) {
        Some(i) => QueueView { current_idx: i, last_played_uri: None, ..q },
        None => {
            let pos = min(q.current_idx + 1, q.tracks.len() as int);
            QueueView {
                tracks: q.tracks.insert(pos, t),
                current_idx: pos,
                last_played_uri: None,
                ..q
            }
        },
    }
}

/// The tracks after the current one, without the one last sent to the player.
pub open spec fn upcoming(q: QueueView) -> Seq<TrackView> {
    if q.current_idx + 1 < q.tracks.len() {
        without_uri(q.tracks.skip(q.current_idx + 1), q.last_played_uri)
    } else {
        Seq::empty()
    }
}

/// `tracks` without those whose uri is `uri`.
pub open spec fn without_uri(tracks: Seq<TrackView>, uri: Option<Seq<char>>) -> Seq<TrackView>
    decreases tracks.len(),
{
    if tracks.len() == 0 {
        Seq::empty()
    } else {
        let prev = without_uri(tracks.drop_last(), uri);
        if uri == Some(tracks.last().uri) {
            prev
        } else {
            prev.push(tracks.last())
        }
    }
}


impl PlaybackQueue {
    pub open spec fn wf(&self) -> bool {
        queue_wf(self@)
    }

    /// An empty queue without lyrics.
    pub fn new() -> (res: PlaybackQueue)
        ensures
            res.wf(),
            res@.tracks.len() == 0,
            res@.current_idx == 0,
            res@.lyrics.len() == 0,
            res@.active_lyric_idx is None,
            res@.last_played_uri is None,
    {
        let res = PlaybackQueue {
            tracks: Vec::new(),
            current_idx: 0,
            lyrics: Vec::new(),
            active_lyric_idx: None,
            last_played_uri: None,
        };
        assert(res@.tracks =~= Seq::<TrackView>::empty());
        assert(res@.lyrics =~= Seq::<LyricLineView>::empty());
        res
    }

    /// The tracks of the queue.
    pub fn tracks(&self) -> (res: &Vec<Track>)
        ensures
            tracks_view(res@) == self@.tracks,
    {
        &self.tracks
    }

    /// The index of the current track.
    pub fn current_index(&self) -> (res: usize)
        ensures
            res == self@.current_idx,
    {
        self.current_idx
    }

    /// The lyrics of the current track.
    pub fn lyrics(&self) -> (res: &Vec<LyricLine>)
        ensures
            lines_view(res@) == self@.lyrics,
    {
        &self.lyrics
    }

    /// The lyric line shown as active.
    pub fn active_lyric_index(&self) -> (res: Option<usize>)
        ensures
            res == self@.active_lyric_idx,
    {
        self.active_lyric_idx
    }

    /// The uri last sent to the player.
    pub fn last_played_uri(&self) -> (res: Option<String>)
        ensures
            opt_view(res) == self@.last_played_uri,
    {
        crate::models::clone_opt_string(&self.last_played_uri)
    }

    /// The current track, where there is one.
    pub fn current_track(&self) -> (res: Option<&Track>)
        requires
            self.wf(),
        ensures
            match res {
                Some(t) => self@.tracks.len() > 0 && t@ == self@.tracks[self@.current_idx],
                None => self@.tracks.len() == 0,
            },
    {
        if self.current_idx < self.tracks.len() {
            Some(&self.tracks[self.current_idx])
        } else {
            None
        }
    }

    /// Replaces the tracks by those of a playlist (or the saved tracks); the first becomes
    /// current.
    pub fn load_tracks(&mut self, tracks: Vec<Track>)
        requires
            old(self).wf(),
        ensures
            final(self).wf(),
            final(self)@ == (QueueView { tracks: tracks_view(tracks@), current_idx: 0, ..old(self)@ }),
    {
        self.tracks = tracks;
        self.current_idx = 0;
    }

    /// Marks `track` as sent to the player; `false` (and nothing changed) when it was the last
    /// one sent, so that the same request is not handled twice.
    pub fn start_playing(&mut self, track: &Track) -> (res: bool)
        ensures
            (final(self)@, res) == after_start(old(self)@, track@),
    {
        let same = match &self.last_played_uri {
            Some(u) => *u == track.uri,
            None => false,
        };
        if same {
            false
        } else {
            self.last_played_uri = Some(track.uri.clone());
            true
        }
    }
}


impl PlaybackQueue {
    proof fn lemma_index_in_range(&self)
        requires
            self.wf(),
        ensures
            self.current_idx < self.tracks.len() || (self.tracks.len() == 0 && self.current_idx
                == 0),
    {
        assert(self@.tracks.len() == self.tracks@.len());
    }

    /// Play-pause: with an empty queue the recent tracks become the queue and the first of them
    /// plays; otherwise the player toggles.
    pub fn toggle_play_pause(&mut self, recents: Vec<Track>) -> (res: ToggleAction)
        requires
            old(self).wf(),
        ensures
            final(self).wf(),
            (final(self)@, toggle_view(res)) == after_toggle(old(self)@, tracks_view(recents@)),
    {
        if self.tracks.len() == 0 {
            if recents.len() > 0 {
                let first = recents[0].clone();
                self.tracks = recents;
                self.current_idx = 0;
                self.last_played_uri = None;
                ToggleAction::PlayTrack(first)
            } else {
                ToggleAction::Nothing
            }
        } else {
            ToggleAction::TogglePlayback
        }
    }

    /// Next track: a track queued by the user (`queued`) is inserted after the current one and
    /// plays; otherwise the following track plays, wrapping to the first; with an empty queue
    /// the recent tracks become the queue.
    pub fn next_track(&mut self, queued: Option<Track>, recents: Vec<Track>) -> (res: Option<
        Track,
    >)
        requires
            old(self).wf(),
        ensures
            final(self).wf(),
            (final(self)@, opt_track_view(res)) == after_next(
                old(self)@,
                opt_track_view(queued),
                tracks_view(recents@),
            ),
    {
        proof {
            self.lemma_index_in_range();
        }
        match queued {
            Some(t) => {
                let ghost before = self.tracks@;
                self.last_played_uri = None;
                let pos = if self.current_idx + 1 < self.tracks.len() {
                    self.current_idx + 1
                } else {
                    self.tracks.len()
                };
                let result = t.clone();
                self.tracks.insert(pos, t);
                self.current_idx = pos;
                assert(tracks_view(self.tracks@) =~= tracks_view(before).insert(
                    pos as int,
                    result@,
                ));
                Some(result)
            },
            None => {
                self.last_played_uri = None;
                if self.tracks.len() == 0 {
                    if recents.len() > 0 {
                        let first = recents[0].clone();
                        self.tracks = recents;
                        self.current_idx = 0;
                        Some(first)
                    } else {
                        None
                    }
                } else if self.current_idx + 1 < self.tracks.len() {
                    self.current_idx = self.current_idx + 1;
                    Some(self.tracks[self.current_idx].clone())
                } else {
                    self.current_idx = 0;
                    Some(self.tracks[0].clone())
                }
            },
        }
    }

    /// Previous track: the one before the current; on the first track, that track again
    /// (`true`: seek to the start first).
    pub fn previous_track(&mut self) -> (res: (Option<Track>, bool))
        requires
            old(self).wf(),
        ensures
            final(self).wf(),
            (final(self)@, opt_track_view(res.0), res.1) == after_previous(old(self)@),
    {
        self.last_played_uri = None;
        if self.current_idx > 0 {
            self.current_idx = self.current_idx - 1;
            (Some(self.tracks[self.current_idx].clone()), false)
        } else if self.tracks.len() > 0 {
            (Some(self.tracks[0].clone()), true)
        } else {
            (None, false)
        }
    }

    /// A track picked from the "up next" list becomes current (see `after_pick_queued`).
    pub fn pick_queued_track(&mut self, track: Track) -> (res: Track)
        requires
            old(self).wf(),
        ensures
            final(self).wf(),
            final(self)@ == after_pick_queued(old(self)@, track@),
            res@ == track@,
    {
        self.last_played_uri = None;
        let ghost tv = tracks_view(self.tracks@);
        let mut i: usize = 0;
        assert(tv.skip(0) == tv);
        while i < self.tracks.len()
            invariant
                i <= self.tracks.len(),
                tv == tracks_view(self.tracks@),
                self@ == forget_played(old(self)@),
                self.wf(),
                index_of_id(tv, track@.id) == shift(index_of_id(tv.skip(i as int), track@.id), i as int),
            decreases self.tracks.len() - i,
        {
            assert(tv.skip(i as int).drop_first() == tv.skip(i + 1));
            assert(tv.skip(i as int)[0] == self.tracks@[i as int]@);
            if self.tracks[i].id == track.id {
                self.current_idx = i;
                return track;
            }
            i = i + 1;
        }
        let pos = if self.current_idx + 1 < self.tracks.len() {
            self.current_idx + 1
        } else {
            self.tracks.len()
        };
        let result = track.clone();
        self.tracks.insert(pos, track);
        self.current_idx = pos;
        assert(tracks_view(self.tracks@) =~= tv.insert(pos as int, result@));
        result
    }

    /// Plays the track at `index` of the queue (a click in the track list); the uri last sent
    /// is forgotten in any case.
    pub fn play_at_index(&mut self, index: usize) -> (res: Option<Track>)
        requires
            old(self).wf(),
        ensures
            final(self).wf(),
            index < old(self)@.tracks.len() ==> final(self)@ == (QueueView {
                current_idx: index as int,
                ..forget_played(old(self)@)
            }) && opt_track_view(res) == Some(old(self)@.tracks[index as int]),
            index >= old(self)@.tracks.len() ==> final(self)@ == forget_played(old(self)@)
                && res is None,
    {
        self.last_played_uri = None;
        if index < self.tracks.len() {
            self.current_idx = index;
            Some(self.tracks[index].clone())
        } else {
            None
        }
    }

    /// Plays the track at `index` of another list (recent tracks, search results), which
    /// becomes the queue; nothing happens when `index` is out of the list.
    pub fn play_from_list(&mut self, list: Vec<Track>, index: usize) -> (res: Option<Track>)
        requires
            old(self).wf(),
        ensures
            final(self).wf(),
            index < list@.len() ==> final(self)@ == playing_list(
                old(self)@,
                tracks_view(list@),
                index as int,
            ) && opt_track_view(res) == Some(list@[index as int]@),
            index >= list@.len() ==> final(self)@ == old(self)@ && res is None,
    {
        if index < list.len() {
            let track = list[index].clone();
            self.last_played_uri = None;
            self.tracks = list;
            self.current_idx = index;
            Some(track)
        } else {
            None
        }
    }

    /// The tracks after the current one, without the one last sent to the player.
    pub fn upcoming_tracks(&self) -> (res: Vec<Track>)
        requires
            self.wf(),
        ensures
            tracks_view(res@) == upcoming(self@),
    {
        proof {
            self.lemma_index_in_range();
        }
        if self.current_idx + 1 < self.tracks.len() {
            let mut rest: Vec<Track> = Vec::new();
            let mut i = self.current_idx + 1;
            let ghost start = self.current_idx + 1;
            while i < self.tracks.len()
                invariant
                    start <= i <= self.tracks.len(),
                    start == self.current_idx + 1,
                    tracks_view(rest@) == tracks_view(self.tracks@).subrange(start as int, i as int),
                decreases self.tracks.len() - i,
            {
                let ghost before = rest@;
                rest.push(self.tracks[i].clone());
                assert(tracks_view(rest@) == tracks_view(before).push(self.tracks@[i as int]@));
                assert(tracks_view(self.tracks@).subrange(start as int, i + 1) == tracks_view(
                    self.tracks@,
                ).subrange(start as int, i as int).push(self.tracks@[i as int]@));
                i = i + 1;
            }
            assert(tracks_view(self.tracks@).subrange(start as int, i as int) == tracks_view(
                self.tracks@,
            ).skip(start as int));
            without_uri_exec(&rest, &self.last_played_uri)
        } else {
            Vec::new()
        }
    }
}

/// `tracks` without those whose uri is `uri` (all of them when `uri` is `None`).
pub fn without_uri_exec(tracks: &Vec<Track>, uri: &Option<String>) -> (res: Vec<Track>)
    ensures
        tracks_view(res@) == without_uri(tracks_view(tracks@), opt_view(*uri)),
{
    let ghost tv = tracks_view(tracks@);
    let mut res: Vec<Track> = Vec::new();
    let mut i: usize = 0;
    while i < tracks.len()
        invariant
            i <= tracks.len(),
            tv == tracks_view(tracks@),
            tracks_view(res@) == without_uri(tv.take(i as int), opt_view(*uri)),
        decreases tracks.len() - i,
    {
        assert(tv.take(i + 1).drop_last() == tv.take(i as int));
        assert(tv.take(i + 1).last() == tracks@[i as int]@);
        let same = match uri {
            Some(u) => *u == tracks[i].uri,
            None => false,
        };
        if !same {
            let ghost before = res@;
            res.push(tracks[i].clone());
            assert(tracks_view(res@) == tracks_view(before).push(tracks@[i as int]@));
        }
        i = i + 1;
    }
    assert(tv.take(i as int) == tv);
    res
}


/// Number of leading lines whose time is at or before `ms`.
pub open spec fn lines_reached(lyrics: Seq<LyricLineView>, ms: u32) -> nat
    decreases lyrics.len(),
{
    if lyrics.len() > 0 && lyrics[0].timestamp_ms <= ms {
        1 + lines_reached(lyrics.drop_first(), ms)
    } else {
        0
    }
}

/// The line to show as active at `ms`: the last of the leading lines already reached, or the
/// first line when none is.
pub open spec fn active_line(lyrics: Seq<LyricLineView>, ms: u32) -> int {
    let n = lines_reached(lyrics, ms);
    if n == 0 {
        0
    } else {
        n - 1
    }
}

/// `-{m:ss}` for a number of milliseconds still to play.
pub open spec fn countdown(ms: nat) -> Seq<char> {
    seq!['-'] + minutes_seconds(ms / 1000)
}

/// The display of playback at a position.
pub struct PositionUpdate {
    /// The duration of the current track, 1 when there is none.
    pub total_ms: u32,
    /// `m:ss` played.
    pub elapsed: String,
    /// `-m:ss` left.
    pub remaining: String,
    /// The lyric line that becomes active, when it changes.
    pub active_lyric: Option<usize>,
}

/// `m:ss` for a number of milliseconds played.
pub fn elapsed_label(ms: u32) -> (res: String)
    ensures
        res@ == minutes_seconds((ms / 1000) as nat),
{
    string_of(&minutes_seconds_chars(ms / 1000))
}

/// `-m:ss` for a number of milliseconds left.
pub fn countdown_label(ms: u32) -> (res: String)
    ensures
        res@ == countdown(ms as nat),
{
    let mut v: Vec<char> = Vec::new();
    v.push('-');
    crate::text::append_chars(&mut v, &minutes_seconds_chars(ms / 1000));
    string_of(&v)
}

pub open spec fn total_of(q: QueueView) -> u32 {
    if 0 <= q.current_idx < q.tracks.len() {
        q.tracks[q.current_idx].duration_ms
    } else {
        1
    }
}

/// The queue after a position report, and the lyric line that becomes active.
pub open spec fn after_position(q: QueueView, ms: u32) -> (QueueView, Option<usize>) {
    if q.lyrics.len() > 0 {
        let a = active_line(q.lyrics, ms) as usize;
        if q.active_lyric_idx != Some(a) {
            (QueueView { active_lyric_idx: Some(a), ..q }, Some(a))
        } else {
            (q, None)
        }
    } else {
        (q, None)
    }
}

fn active_line_exec(lyrics: &Vec<LyricLine>, ms: u32) -> (res: usize)
    ensures
        res == active_line(lines_view(lyrics@), ms),
{
    let ghost lv = lines_view(lyrics@);
    let mut i: usize = 0;
    assert(lv.skip(0) == lv);
    while i < lyrics.len() && ms >= lyrics[i].timestamp_ms
        invariant
            i <= lyrics.len(),
            lv == lines_view(lyrics@),
            lines_reached(lv, ms) == i + lines_reached(lv.skip(i as int), ms),
        decreases lyrics.len() - i,
    {
        assert(lv.skip(i as int).drop_first() == lv.skip(i + 1));
        assert(lv.skip(i as int)[0] == lyrics@[i as int]@);
        i = i + 1;
    }
    if i < lyrics.len() {
        assert(lv.skip(i as int)[0] == lyrics@[i as int]@);
    }
    if i == 0 {
        0
    } else {
        i - 1
    }
}

impl PlaybackQueue {
    /// Shows new lyrics, from their first line.
    pub fn set_lyrics(&mut self, lyrics: Vec<LyricLine>)
        ensures
            final(self)@ == (QueueView {
                lyrics: lines_view(lyrics@),
                active_lyric_idx: Some(0),
                ..old(self)@
            }),
    {
        self.lyrics = lyrics;
        self.active_lyric_idx = Some(0);
    }

    /// Drops the lyrics (none were found).
    pub fn clear_lyrics(&mut self)
        ensures
            final(self)@ == (QueueView {
                lyrics: Seq::empty(),
                active_lyric_idx: None,
                ..old(self)@
            }),
    {
        self.lyrics = Vec::new();
        self.active_lyric_idx = None;
        assert(lines_view(self.lyrics@) =~= Seq::<LyricLineView>::empty());
    }

    /// Takes a position report: the labels to show, and the lyric line that becomes active.
    pub fn on_position(&mut self, ms: u32) -> (res: PositionUpdate)
        requires
            old(self).wf(),
        ensures
            final(self).wf(),
            res.total_ms == total_of(old(self)@),
            res.elapsed@ == minutes_seconds((ms / 1000) as nat),
            res.remaining@ == countdown(
                (if total_of(old(self)@) >= ms {
                    total_of(old(self)@) - ms
                } else {
                    0
                }) as nat,
            ),
            (final(self)@, res.active_lyric) == after_position(old(self)@, ms),
    {
        let total_ms = if self.current_idx < self.tracks.len() {
            self.tracks[self.current_idx].duration_ms
        } else {
            1
        };
        let remaining_ms = if total_ms >= ms {
            total_ms - ms
        } else {
            0
        };
        let elapsed = elapsed_label(ms);
        let remaining = countdown_label(remaining_ms);
        let mut active_lyric: Option<usize> = None;
        if self.lyrics.len() > 0 {
            let a = active_line_exec(&self.lyrics, ms);
            let changed = match self.active_lyric_idx {
                Some(x) => x != a,
                None => true,
            };
            if changed {
                self.active_lyric_idx = Some(a);
                active_lyric = Some(a);
            }
        }
        PositionUpdate { total_ms, elapsed, remaining, active_lyric }
    }

    /// The web address of the current track, for sharing.
    pub fn share_url(&self) -> (res: Option<String>)
        requires
            self.wf(),
        ensures
            match res {
                Some(u) => self@.tracks.len() > 0 && u@ == "https://open.spotify.com/track/"@
                    + self@.tracks[self@.current_idx].id,
                None => self@.tracks.len() == 0,
            },
    {
        match self.current_track() {
            Some(t) => {
                let mut u = "https://open.spotify.com/track/".to_owned();
                u.append(t.id.as_str());
                Some(u)
            },
            None => None,
        }
    }
}

/// The same track as `t`: same uri or same id.
pub open spec fn same_track(a: TrackView, b: TrackView) -> bool {
    a.uri == b.uri || a.id == b.id
}

/// The tracks of `tracks` that do not repeat an earlier one (same uri or same id), in order.
pub open spec fn dedupe(tracks: Seq<TrackView>) -> Seq<TrackView>
    decreases tracks.len(),
{
    if tracks.len() == 0 {
        Seq::empty()
    } else {
        let prev = dedupe(tracks.drop_last());
        if exists|k: int| 0 <= k < prev.len() && same_track(#[trigger] prev[k], tracks.last()) {
            prev
        } else {
            prev.push(tracks.last())
        }
    }
}

/// Drops the tracks that repeat an earlier one (same uri or same id).
pub fn dedupe_tracks(tracks: Vec<Track>) -> (res: Vec<Track>)
    ensures
        tracks_view(res@) == dedupe(tracks_view(tracks@)),
{
    let ghost tv = tracks_view(tracks@);
    let mut res: Vec<Track> = Vec::new();
    let mut i: usize = 0;
    while i < tracks.len()
        invariant
            i <= tracks.len(),
            tv == tracks_view(tracks@),
            tracks_view(res@) == dedupe(tv.take(i as int)),
        decreases tracks.len() - i,
    {
        assert(tv.take(i + 1).drop_last() == tv.take(i as int));
        assert(tv.take(i + 1).last() == tracks@[i as int]@);
        let t = &tracks[i];
        let mut found = false;
        let mut j: usize = 0;
        while j < res.len()
            invariant
                j <= res.len(),
                tv == tracks_view(tracks@),
                i < tracks.len(),
                *t == tracks@[i as int],
                found <==> exists|k: int| 0 <= k < j && same_track(#[trigger] tracks_view(res@)[k], t@),
            decreases res.len() - j,
        {
            if res[j].uri == t.uri || res[j].id == t.id {
                found = true;
            }
            assert(tracks_view(res@)[j as int] == res@[j as int]@);
            j = j + 1;
        }
        if !found {
            let ghost before = res@;
            res.push(t.clone());
            assert(tracks_view(res@) == tracks_view(before).push(t@));
        }
        i = i + 1;
    }
    assert(tv.take(i as int) == tv);
    res
}

/// Index of the first track of `tracks` with this uri or this id.
pub open spec fn index_of_track(tracks: Seq<TrackView>, uri: Seq<char>, id: Seq<char>) -> Option<int>
    decreases tracks.len(),
{
    if tracks.len() == 0 {
        None
    } else if tracks[0].uri == uri || tracks[0].id == id {
        Some(0)
    } else {
        shift(index_of_track(tracks.drop_first(), uri, id), 1)
    }
}

/// Finds the first track of `tracks` with this uri or this id (to take a track that starts
/// playing out of a displayed list).
pub fn find_track_index(tracks: &Vec<Track>, uri: &String, id: &String) -> (res: Option<usize>)
    ensures
        match res {
            Some(i) => index_of_track(tracks_view(tracks@), uri@, id@) == Some(i as int),
            None => index_of_track(tracks_view(tracks@), uri@, id@) is None,
        },
{
    let ghost tv = tracks_view(tracks@);
    let mut i: usize = 0;
    assert(tv.skip(0) == tv);
    while i < tracks.len()
        invariant
            i <= tracks.len(),
            tv == tracks_view(tracks@),
            index_of_track(tv, uri@, id@) == shift(index_of_track(tv.skip(i as int), uri@, id@), i as int),
        decreases tracks.len() - i,
    {
        assert(tv.skip(i as int).drop_first() == tv.skip(i + 1));
        assert(tv.skip(i as int)[0] == tracks@[i as int]@);
        if tracks[i].uri == *uri || tracks[i].id == *id {
            return Some(i);
        }
        i = i + 1;
    }
    None
}


pub open spec fn strings_view(v: Seq<String>) -> Seq<Seq<char>> {
    v.map_values(|x: String| x@)
}

/// Index of the first of `items` equal to `x`.
pub open spec fn first_index_of(items: Seq<Seq<char>>, x: Seq<char>) -> Option<int>
    decreases items.len(),
{
    if items.len() == 0 {
        None
    } else if items[0] == x {
        Some(0)
    } else {
        shift(first_index_of(items.drop_first(), x), 1)
    }
}

/// Finds the first of `ids` equal to `id` (a playlist picked in the sidebar, among those
/// shown).
pub fn find_id(ids: &Vec<String>, id: &str) -> (res: Option<usize>)
    ensures
        match res {
            Some(i) => first_index_of(strings_view(ids@), id@) == Some(i as int),
            None => first_index_of(strings_view(ids@), id@) is None,
        },
{
    let ghost iv = strings_view(ids@);
    let wanted = id.to_owned();
    let mut i: usize = 0;
    assert(iv.skip(0) == iv);
    while i < ids.len()
        invariant
            i <= ids.len(),
            iv == strings_view(ids@),
            wanted@ == id@,
            first_index_of(iv, id@) == shift(first_index_of(iv.skip(i as int), id@), i as int),
        decreases ids.len() - i,
    {
        assert(iv.skip(i as int).drop_first() == iv.skip(i + 1));
        assert(iv.skip(i as int)[0] == ids@[i as int]@);
        if ids[i] == wanted {
            return Some(i);
        }
        i = i + 1;
    }
    None
}

/// Next, with nothing queued, moves one track on and wraps from the last track to the first.
pub proof fn lemma_next_wraps(q: QueueView, recents: Seq<TrackView>)
    requires
        queue_wf(q),
        q.tracks.len() > 0,
    ensures
        after_next(q, None, recents).0.current_idx == (q.current_idx + 1) % (q.tracks.len() as int),
        after_next(q, None, recents).1 == Some(q.tracks[(q.current_idx + 1) % (q.tracks.len() as int)]),
        after_next(q, None, recents).0.tracks == q.tracks,
{
    if q.current_idx + 1 < q.tracks.len() {
        vstd::arithmetic::div_mod::lemma_small_mod((q.current_idx + 1) as nat, q.tracks.len());
    } else {
        assert(q.current_idx + 1 == q.tracks.len());
        vstd::arithmetic::div_mod::lemma_mod_self_0(q.tracks.len() as int);
    }
}

/// Previous undoes next (away from the last track, with nothing queued): the same track is
/// current and plays again.
pub proof fn lemma_previous_undoes_next(q: QueueView, recents: Seq<TrackView>)
    requires
        queue_wf(q),
        q.current_idx + 1 < q.tracks.len(),
    ensures
        after_previous(after_next(q, None, recents).0).0 == forget_played(q),
        after_previous(after_next(q, None, recents).0).1 == Some(q.tracks[q.current_idx]),
{
}

/// Every operation keeps the current index in range.
pub proof fn lemma_operations_keep_wf(
    q: QueueView,
    queued: Option<TrackView>,
    picked: TrackView,
    recents: Seq<TrackView>,
    ms: u32,
)
    requires
        queue_wf(q),
    ensures
        queue_wf(after_toggle(q, recents).0),
        queue_wf(after_next(q, queued, recents).0),
        queue_wf(after_previous(q).0),
        queue_wf(after_pick_queued(q, picked)),
        queue_wf(after_position(q, ms).0),
{
    lemma_index_of_id_bound(q.tracks, picked.id);
}

proof fn lemma_index_of_id_bound(tracks: Seq<TrackView>, id: Seq<char>)
    ensures
        index_of_id(tracks, id) matches Some(i) ==> 0 <= i < tracks.len() && tracks[i].id == id,
    decreases tracks.len(),
{
    if tracks.len() > 0 {
        lemma_index_of_id_bound(tracks.drop_first(), id);
    }
}

/// A picked track from "up next" is current afterwards (or a track with its id).
pub proof fn lemma_picked_track_is_current(q: QueueView, picked: TrackView)
    requires
        queue_wf(q),
    ensures
        after_pick_queued(q, picked).tracks[after_pick_queued(q, picked).current_idx].id
            == picked.id,
{
    lemma_index_of_id_bound(q.tracks, picked.id);
}

/// The tracks of `without_uri` are tracks of the list, none with that uri.
pub proof fn lemma_without_uri(tracks: Seq<TrackView>, uri: Option<Seq<char>>)
    ensures
        forall|i: int|
            0 <= i < without_uri(tracks, uri).len() ==> uri != Some(
                #[trigger] without_uri(tracks, uri)[i].uri,
            ) && tracks.contains(without_uri(tracks, uri)[i]),
    decreases tracks.len(),
{
    if tracks.len() > 0 {
        lemma_without_uri(tracks.drop_last(), uri);
        let prev = without_uri(tracks.drop_last(), uri);
        assert forall|i: int| 0 <= i < without_uri(tracks, uri).len() implies uri != Some(
            #[trigger] without_uri(tracks, uri)[i].uri,
        ) && tracks.contains(without_uri(tracks, uri)[i]) by {
            if i < prev.len() {
                assert(uri != Some(prev[i].uri));
                assert(tracks.drop_last().contains(prev[i]));
                let k = choose|k: int| 0 <= k < tracks.drop_last().len() && tracks.drop_last()[k] == prev[i];
                assert(tracks[k] == prev[i]);
            } else {
                assert(tracks[tracks.len() - 1] == tracks.last());
            }
        }
    }
}

/// "Up next" never shows the track last sent to the player, and only shows tracks that come
/// after the current one.
pub proof fn lemma_upcoming_excludes_playing(q: QueueView)
    requires
        queue_wf(q),
    ensures
        forall|i: int|
            0 <= i < upcoming(q).len() ==> q.last_played_uri != Some(#[trigger] upcoming(q)[i].uri)
                && q.tracks.skip(q.current_idx + 1).contains(upcoming(q)[i]),
{
    if q.current_idx + 1 < q.tracks.len() {
        lemma_without_uri(q.tracks.skip(q.current_idx + 1), q.last_played_uri);
    }
}

/// Starting the same track twice in a row is refused the second time, and changes nothing.
pub proof fn lemma_start_twice_refused(q: QueueView, t: TrackView)
    ensures
        !after_start(after_start(q, t).0, t).1,
        after_start(after_start(q, t).0, t).0 == after_start(q, t).0,
{
}

/// The recent tracks, once deduplicated, hold no two entries for the same track (same uri or
/// same id), and every track of the history is represented.
pub proof fn lemma_dedupe_tracks(tracks: Seq<TrackView>)
    ensures
        forall|i: int, j: int|
            0 <= i < j < dedupe(tracks).len() ==> !same_track(
                #[trigger] dedupe(tracks)[i],
                #[trigger] dedupe(tracks)[j],
            ),
        forall|i: int|
            0 <= i < tracks.len() ==> exists|k: int|
                0 <= k < dedupe(tracks).len() && same_track(
                    #[trigger] dedupe(tracks)[k],
                    #[trigger] tracks[i],
                ),
    decreases tracks.len(),
{
    if tracks.len() > 0 {
        let p = tracks.drop_last();
        lemma_dedupe_tracks(p);
        let prev = dedupe(p);
        let r = dedupe(tracks);
        assert forall|i: int| 0 <= i < tracks.len() implies exists|k: int|
            0 <= k < r.len() && same_track(#[trigger] r[k], #[trigger] tracks[i]) by {
            if i < tracks.len() - 1 {
                assert(tracks[i] == p[i]);
                let k = choose|k: int| 0 <= k < prev.len() && same_track(#[trigger] prev[k], p[i]);
                assert(r[k] == prev[k]);
            } else if exists|k: int| 0 <= k < prev.len() && same_track(#[trigger] prev[k], tracks.last()) {
                let k = choose|k: int| 0 <= k < prev.len() && same_track(#[trigger] prev[k], tracks.last());
                assert(r[k] == prev[k]);
            } else {
                assert(r[prev.len() as int] == tracks.last());
                assert(same_track(tracks.last(), tracks.last()));
            }
        }
    }
}

proof fn lemma_lines_reached(lyrics: Seq<LyricLineView>, ms: u32)
    ensures
        lines_reached(lyrics, ms) <= lyrics.len(),
        forall|i: int| 0 <= i < lines_reached(lyrics, ms) ==> #[trigger] lyrics[i].timestamp_ms <= ms,
        lines_reached(lyrics, ms) < lyrics.len() ==> lyrics[lines_reached(lyrics, ms) as int].timestamp_ms > ms,
    decreases lyrics.len(),
{
    if lyrics.len() > 0 && lyrics[0].timestamp_ms <= ms {
        let d = lyrics.drop_first();
        lemma_lines_reached(d, ms);
        assert forall|i: int| 0 <= i < lines_reached(lyrics, ms) implies #[trigger] lyrics[i].timestamp_ms <= ms by {
            if i > 0 {
                assert(lyrics[i] == d[i - 1]);
            }
        }
        if lines_reached(lyrics, ms) < lyrics.len() {
            assert(lyrics[lines_reached(lyrics, ms) as int] == d[lines_reached(d, ms) as int]);
        }
    }
}

/// With lyrics in time order (as `parse_lrc` gives them), the active line is the last line
/// whose time has come: its time is at or before the position and the next line's is after.
pub proof fn lemma_active_line_is_last_reached(lyrics: Seq<LyricLineView>, ms: u32)
    requires
        crate::models::sorted_by_time(lyrics),
        lyrics.len() > 0,
        lyrics[0].timestamp_ms <= ms,
    ensures
        0 <= active_line(lyrics, ms) < lyrics.len(),
        lyrics[active_line(lyrics, ms)].timestamp_ms <= ms,
        active_line(lyrics, ms) + 1 < lyrics.len() ==> lyrics[active_line(lyrics, ms) + 1].timestamp_ms > ms,
{
    lemma_lines_reached(lyrics, ms);
    assert(lines_reached(lyrics, ms) >= 1);
}

proof fn lemma_index_of_id_first(tracks: Seq<TrackView>, id: Seq<char>)
    ensures
        index_of_id(tracks, id) matches Some(i) ==> forall|k: int|
            0 <= k < i ==> #[trigger] tracks[k].id != id,
        (forall|k: int| 0 <= k < tracks.len() ==> #[trigger] tracks[k].id != id) <==> index_of_id(
            tracks,
            id,
        ) is None,
    decreases tracks.len(),
{
    if tracks.len() > 0 {
        lemma_index_of_id_first(tracks.drop_first(), id);
        if let Some(i) = index_of_id(tracks, id) {
            assert forall|k: int| 0 <= k < i implies #[trigger] tracks[k].id != id by {
                if k > 0 {
                    assert(tracks[k] == tracks.drop_first()[k - 1]);
                }
            }
        }
        if forall|k: int| 0 <= k < tracks.len() ==> #[trigger] tracks[k].id != id {
            assert forall|k: int| 0 <= k < tracks.drop_first().len() implies #[trigger] tracks.drop_first()[k].id != id by {
                assert(tracks.drop_first()[k] == tracks[k + 1]);
            }
        }
        if index_of_id(tracks, id) is None {
            assert forall|k: int| 0 <= k < tracks.len() implies #[trigger] tracks[k].id != id by {
                if k > 0 {
                    assert(tracks[k] == tracks.drop_first()[k - 1]);
                }
            }
        }
    }
}

/// A picked track that the queue does not hold (no track with its id) is put right after the
/// current track and plays: the track that was current comes just before it, the one that
/// followed comes just after it, and taking it out gives back the queue as it was.
pub proof fn lemma_pick_new_track_plays_next(q: QueueView, t: TrackView)
    requires
        queue_wf(q),
        forall|k: int| 0 <= k < q.tracks.len() ==> #[trigger] q.tracks[k].id != t.id,
    ensures
        ({
            let r = after_pick_queued(q, t);
            &&& r.current_idx == (if q.tracks.len() == 0 {
                0
            } else {
                q.current_idx + 1
            })
            &&& r.tracks.len() == q.tracks.len() + 1
            &&& r.tracks[r.current_idx] == t
            &&& r.tracks.remove(r.current_idx) == q.tracks
            &&& q.tracks.len() > 0 ==> r.tracks[r.current_idx - 1] == q.tracks[q.current_idx]
            &&& q.current_idx + 1 < q.tracks.len() ==> r.tracks[r.current_idx + 1]
                == q.tracks[q.current_idx + 1]
            &&& r.lyrics == q.lyrics
            &&& r.active_lyric_idx == q.active_lyric_idx
            &&& r.last_played_uri is None
        }),
{
    lemma_index_of_id_first(q.tracks, t.id);
    let r = after_pick_queued(q, t);
    assert(r.tracks.remove(r.current_idx) =~= q.tracks);
}

/// A picked track whose id the queue holds makes the first track with that id current; the
/// tracks stay as they were.
pub proof fn lemma_pick_known_track_keeps_queue(q: QueueView, t: TrackView, j: int)
    requires
        queue_wf(q),
        0 <= j < q.tracks.len(),
        q.tracks[j].id == t.id,
    ensures
        ({
            let r = after_pick_queued(q, t);
            &&& r.tracks == q.tracks
            &&& 0 <= r.current_idx <= j
            &&& r.tracks[r.current_idx].id == t.id
            &&& forall|k: int| 0 <= k < r.current_idx ==> #[trigger] q.tracks[k].id != t.id
            &&& r.last_played_uri is None
        }),
{
    lemma_index_of_id_first(q.tracks, t.id);
    lemma_index_of_id_bound(q.tracks, t.id);
    if index_of_id(q.tracks, t.id) is None {
        assert(q.tracks[j].id == t.id);
    }
    let i = index_of_id(q.tracks, t.id)->0;
    if i > j {
        assert(q.tracks[j].id != t.id);
    }
}

/// A position report, where there are lyrics, makes active the last of the leading lines whose
/// time has come (the first line when none has), whatever line was active before; it reports
/// that line exactly when it differs from the one that was active. Without lyrics nothing
/// changes. Nothing but the active line changes.
pub proof fn lemma_position_sets_active_line(q: QueueView, ms: u32)
    requires
        q.lyrics.len() <= usize::MAX,
    ensures
        ({
            let (r, reported) = after_position(q, ms);
            &&& r.tracks == q.tracks
            &&& r.current_idx == q.current_idx
            &&& r.lyrics == q.lyrics
            &&& r.last_played_uri == q.last_played_uri
            &&& q.lyrics.len() == 0 ==> r == q && reported is None
            &&& q.lyrics.len() > 0 ==> (r.active_lyric_idx matches Some(i) && {
                &&& 0 <= i < q.lyrics.len()
                &&& q.lyrics[0].timestamp_ms > ms ==> i == 0
                &&& q.lyrics[0].timestamp_ms <= ms ==> forall|k: int|
                    0 <= k <= i ==> #[trigger] q.lyrics[k].timestamp_ms <= ms
                &&& i + 1 < q.lyrics.len() && q.lyrics[0].timestamp_ms <= ms ==> q.lyrics[i
                    + 1].timestamp_ms > ms
                &&& reported == (if q.active_lyric_idx == Some(i) {
                    None
                } else {
                    Some(i)
                })
            })
        }),
{
    if q.lyrics.len() > 0 {
        lemma_lines_reached(q.lyrics, ms);
        if q.lyrics[0].timestamp_ms <= ms {
            assert(lines_reached(q.lyrics, ms) >= 1);
        } else {
            assert(lines_reached(q.lyrics, ms) == 0);
        }
    }
}

} // verus!
