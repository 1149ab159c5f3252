use spotify_rust::models::{parse_lrc, LyricLine, Track};
use spotify_rust::playback::{countdown_label, dedupe_tracks, elapsed_label, find_id, find_track_index, without_uri_exec, PlaybackQueue, ToggleAction};

fn t(id: &str) -> Track {
    Track {
        id: id.to_string(),
        uri: format!("spotify:track:{}", id),
        title: id.to_uppercase(),
        artist: "x".to_string(),
        album: "y".to_string(),
        duration_ms: 200_000,
        cover_url: None,
    }
}

fn ids(tracks: &[Track]) -> Vec<String> {
    tracks.iter().map(|t| t.id.clone()).collect()
}

fn queue_of(list: &[&str]) -> PlaybackQueue {
    let mut q = PlaybackQueue::new();
    q.load_tracks(list.iter().map(|id| t(id)).collect());
    q
}

#[test]
fn next_moves_on_and_wraps() {
    let mut q = queue_of(&["a", "b", "c"]);
    assert_eq!(q.next_track(None, vec![]).unwrap().id, "b");
    assert_eq!(q.next_track(None, vec![]).unwrap().id, "c");
    assert_eq!(q.next_track(None, vec![]).unwrap().id, "a");
    assert_eq!(q.current_index(), 0);
}

#[test]
fn next_plays_queued_track_after_current() {
    let mut q = queue_of(&["a", "b"]);
    let played = q.next_track(Some(t("z")), vec![]).unwrap();
    assert_eq!(played.id, "z");
    assert_eq!(ids(q.tracks()), vec!["a", "z", "b"]);
    assert_eq!(q.current_index(), 1);
}

#[test]
fn next_with_empty_queue_uses_recents() {
    let mut q = PlaybackQueue::new();
    assert!(q.next_track(None, vec![]).is_none());
    assert_eq!(q.next_track(None, vec![t("r1"), t("r2")]).unwrap().id, "r1");
    assert_eq!(ids(q.tracks()), vec!["r1", "r2"]);
}

#[test]
fn previous_undoes_next() {
    let mut q = queue_of(&["a", "b", "c"]);
    q.next_track(None, vec![]);
    let (track, restart) = q.previous_track();
    assert_eq!(track.unwrap().id, "a");
    assert!(!restart);
    assert_eq!(q.current_index(), 0);
    let (track, restart) = q.previous_track();
    assert_eq!(track.unwrap().id, "a");
    assert!(restart);
    let mut empty = PlaybackQueue::new();
    let (track, restart) = empty.previous_track();
    assert!(track.is_none() && !restart);
}

#[test]
fn toggle_play_pause_cases() {
    let mut q = PlaybackQueue::new();
    assert!(matches!(q.toggle_play_pause(vec![]), ToggleAction::Nothing));
    match q.toggle_play_pause(vec![t("r1"), t("r2")]) {
        ToggleAction::PlayTrack(tr) => assert_eq!(tr.id, "r1"),
        _ => panic!("expected the first recent track"),
    }
    assert!(matches!(q.toggle_play_pause(vec![t("other")]), ToggleAction::TogglePlayback));
    assert_eq!(ids(q.tracks()), vec!["r1", "r2"]);
}

#[test]
fn start_same_track_twice_is_refused() {
    let mut q = queue_of(&["a"]);
    assert!(q.start_playing(&t("a")));
    assert!(!q.start_playing(&t("a")));
    assert_eq!(q.last_played_uri(), Some("spotify:track:a".to_string()));
    assert!(q.start_playing(&t("b")));
    q.play_at_index(0);
    assert_eq!(q.last_played_uri(), None);
    assert!(q.start_playing(&t("b")));
}

#[test]
fn picking_queued_tracks() {
    let mut q = queue_of(&["a", "b", "c"]);
    q.pick_queued_track(t("c"));
    assert_eq!(q.current_index(), 2);
    q.pick_queued_track(t("n"));
    assert_eq!(ids(q.tracks()), vec!["a", "b", "c", "n"]);
    assert_eq!(q.current_index(), 3);
}

#[test]
fn play_at_index_and_from_list() {
    let mut q = queue_of(&["a", "b"]);
    assert_eq!(q.play_at_index(1).unwrap().id, "b");
    assert!(q.play_at_index(2).is_none());
    assert_eq!(q.current_index(), 1);
    assert_eq!(q.play_from_list(vec![t("s1"), t("s2"), t("s3")], 2).unwrap().id, "s3");
    assert_eq!(q.current_index(), 2);
    assert!(q.play_from_list(vec![t("x")], 4).is_none());
    assert_eq!(ids(q.tracks()), vec!["s1", "s2", "s3"]);
}

#[test]
fn upcoming_skips_current_and_played() {
    let mut q = queue_of(&["a", "b", "c", "b"]);
    assert_eq!(ids(&q.upcoming_tracks()), vec!["b", "c", "b"]);
    q.start_playing(&t("b"));
    assert_eq!(ids(&q.upcoming_tracks()), vec!["c"]);
    q.play_at_index(3);
    assert!(q.upcoming_tracks().is_empty());
}

#[test]
fn position_labels_and_lyrics() {
    let mut q = queue_of(&["a"]);
    q.set_lyrics(parse_lrc("[00:01.00]one\n[00:03.00]two\n[00:05.00]three"));
    let u = q.on_position(500);
    assert_eq!(u.total_ms, 200_000);
    assert_eq!(u.elapsed, "0:00");
    assert_eq!(u.remaining, "-3:19");
    assert_eq!(u.active_lyric, None);
    let u = q.on_position(3_500);
    assert_eq!(u.active_lyric, Some(1));
    assert_eq!(u.elapsed, "0:03");
    assert_eq!(q.on_position(4_000).active_lyric, None);
    assert_eq!(q.on_position(9_000).active_lyric, Some(2));
    assert_eq!(q.on_position(250_000).remaining, "-0:00");
    q.clear_lyrics();
    assert_eq!(q.on_position(1_000).active_lyric, None);
    assert_eq!(q.active_lyric_index(), None);
}

#[test]
fn position_without_track() {
    let mut q = PlaybackQueue::new();
    let u = q.on_position(0);
    assert_eq!(u.total_ms, 1);
    assert_eq!(u.remaining, "-0:00");
}

#[test]
fn labels() {
    assert_eq!(elapsed_label(0), "0:00");
    assert_eq!(elapsed_label(65_432), "1:05");
    assert_eq!(countdown_label(200_000), "-3:20");
}

#[test]
fn share_link() {
    let q = queue_of(&["abc"]);
    assert_eq!(q.share_url(), Some("https://open.spotify.com/track/abc".to_string()));
    assert_eq!(PlaybackQueue::new().share_url(), None);
}

#[test]
fn dedupe_by_id_or_uri() {
    let mut same_uri = t("z");
    same_uri.id = "other".to_string();
    same_uri.uri = "spotify:track:a".to_string();
    let out = dedupe_tracks(vec![t("a"), t("b"), t("a"), same_uri, t("c")]);
    assert_eq!(ids(&out), vec!["a", "b", "c"]);
}

#[test]
fn find_and_filter_tracks() {
    let list = vec![t("a"), t("b"), t("c")];
    assert_eq!(find_track_index(&list, &"spotify:track:c".to_string(), &"none".to_string()), Some(2));
    assert_eq!(find_track_index(&list, &"none".to_string(), &"b".to_string()), Some(1));
    assert_eq!(find_track_index(&list, &"none".to_string(), &"none".to_string()), None);
    assert_eq!(ids(&without_uri_exec(&list, &Some("spotify:track:b".to_string()))), vec!["a", "c"]);
    assert_eq!(ids(&without_uri_exec(&list, &None)), vec!["a", "b", "c"]);
}

#[test]
fn lyrics_stored() {
    let mut q = PlaybackQueue::new();
    q.set_lyrics(vec![LyricLine { timestamp_ms: 5, text: "x".to_string() }]);
    assert_eq!(q.lyrics().len(), 1);
    assert_eq!(q.active_lyric_index(), Some(0));
}

#[test]
fn playlist_found_by_id() {
    let ids = vec!["p1".to_string(), "p2".to_string(), "p2".to_string()];
    assert_eq!(find_id(&ids, "p2"), Some(1));
    assert_eq!(find_id(&ids, "p1"), Some(0));
    assert_eq!(find_id(&ids, "p3"), None);
    assert_eq!(find_id(&Vec::new(), "p1"), None);
}
