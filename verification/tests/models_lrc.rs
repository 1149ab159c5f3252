use spotify_rust::models::{lrc_is_readable, parse_lrc, parse_lrc_timestamp, LyricLine, Track};

fn track(duration_ms: u32) -> Track {
    Track {
        id: "id".to_string(),
        uri: "spotify:track:id".to_string(),
        title: "t".to_string(),
        artist: "a".to_string(),
        album: "b".to_string(),
        duration_ms,
        cover_url: None,
    }
}

fn pairs(lines: &[LyricLine]) -> Vec<(u32, String)> {
    lines.iter().map(|l| (l.timestamp_ms, l.text.clone())).collect()
}

#[test]
fn formatted_duration_pads_seconds() {
    assert_eq!(track(0).formatted_duration(), "0:00");
    assert_eq!(track(999).formatted_duration(), "0:00");
    assert_eq!(track(61_000).formatted_duration(), "1:01");
    assert_eq!(track(215_500).formatted_duration(), "3:35");
    assert_eq!(track(3_599_999).formatted_duration(), "59:59");
}

#[test]
fn formatted_duration_does_not_wrap_hours() {
    assert_eq!(track(3_600_000).formatted_duration(), "60:00");
    assert_eq!(track(u32::MAX).formatted_duration(), "71582:47");
}

#[test]
fn timestamp_hundredths() {
    assert_eq!(parse_lrc_timestamp("01:02.34"), Some(62_340));
    assert_eq!(parse_lrc_timestamp("00:00.05"), Some(50));
}

#[test]
fn timestamp_thousandths_from_first_three_bytes() {
    assert_eq!(parse_lrc_timestamp("01:02.345"), Some(62_345));
    assert_eq!(parse_lrc_timestamp("00:05.1234"), Some(5_123));
}

#[test]
fn timestamp_other_shapes() {
    assert_eq!(parse_lrc_timestamp("01:02:34"), Some(62_340));
    assert_eq!(parse_lrc_timestamp("01:02:345"), Some(62_345));
    assert_eq!(parse_lrc_timestamp("01:02:3"), Some(62_000));
    assert_eq!(parse_lrc_timestamp("01:02.50:99"), Some(62_500));
    assert_eq!(parse_lrc_timestamp("01:02:ab"), None);
    assert_eq!(parse_lrc_timestamp("1:2"), Some(62_000));
    assert_eq!(parse_lrc_timestamp("+1:02.5"), Some(62_000));
    assert_eq!(parse_lrc_timestamp("10:00.0"), Some(600_000));
}

#[test]
fn timestamp_rejections() {
    assert_eq!(parse_lrc_timestamp("12"), None);
    assert_eq!(parse_lrc_timestamp(""), None);
    assert_eq!(parse_lrc_timestamp("aa:00"), None);
    assert_eq!(parse_lrc_timestamp("00:bb"), None);
    assert_eq!(parse_lrc_timestamp("00:00.ab"), None);
    assert_eq!(parse_lrc_timestamp("-1:00"), None);
    assert_eq!(parse_lrc_timestamp("00:01.\u{e9}"), None);
    assert_eq!(parse_lrc_timestamp(" 00:01"), None);
}

#[test]
fn lrc_lines_sorted_by_time_and_stable() {
    let content = "[00:02.00]b\n[00:01.00]a\n[00:01.00]a2\n\n[ti:Title]\n[00:03.00]   \nplain line\n";
    let lines = parse_lrc(content);
    assert_eq!(
        pairs(&lines),
        vec![(1000, "a".to_string()), (1000, "a2".to_string()), (2000, "b".to_string())]
    );
}

#[test]
fn lrc_colon_fraction_lines() {
    let lines = parse_lrc("[00:01:50]b\n[00:01.20]a");
    assert_eq!(pairs(&lines), vec![(1200, "a".to_string()), (1500, "b".to_string())]);
}

#[test]
fn lrc_trims_lines_and_text() {
    let content = "  [00:10.50]  hello world  \r\n[01:00.000]bye\r\n[00:05]x";
    let lines = parse_lrc(content);
    assert_eq!(
        pairs(&lines),
        vec![(5000, "x".to_string()), (10_500, "hello world".to_string()), (60_000, "bye".to_string())]
    );
}

#[test]
fn lrc_text_after_first_bracket() {
    let lines = parse_lrc("[00:01.00]a]b");
    assert_eq!(pairs(&lines), vec![(1000, "a]b".to_string())]);
    assert!(parse_lrc("[00:01.00").is_empty());
    assert!(parse_lrc("").is_empty());
}

#[test]
fn lrc_readability() {
    assert!(lrc_is_readable("[00:01.00]a\n[xx]b"));
    assert!(!lrc_is_readable("[71583:00.00]too late"));
    assert!(lrc_is_readable("[71582:47.295]last"));
    assert!(!lrc_is_readable("[00:00.ab\u{20ac}]x"));
    assert!(lrc_is_readable("[00:00.\u{20ac}]x"));
}

#[test]
fn lrc_joined_texts_merge_by_time() {
    let a = "[00:02.00]x\n[00:01.00]y";
    let b = "[00:01.00]z\n[00:00.50]w";
    let joined = format!("{}\n{}", a, b);
    assert_eq!(
        pairs(&parse_lrc(&joined)),
        vec![(500, "w".to_string()), (1000, "y".to_string()), (1000, "z".to_string()), (2000, "x".to_string())]
    );
    let mut merged = parse_lrc(a);
    merged.extend(parse_lrc(b));
    merged.sort_by_key(|l| l.timestamp_ms);
    assert_eq!(pairs(&parse_lrc(&joined)), pairs(&merged));
}
