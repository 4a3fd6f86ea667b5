use asr_compare_tui::media::{
    format_media_time, format_seconds, media_progress_bar, parse_srt, parse_srt_time, repeat_char,
    MediaState, PlayerCommand, SrtError, SubtitleCue,
};

const SEC: u64 = 1_000_000_000;

fn cue(index: usize, start_ms: u64, end_ms: u64) -> SubtitleCue {
    SubtitleCue { index, start_ms, end_ms, text: format!("cue {index}") }
}

fn player(cues: Vec<SubtitleCue>) -> MediaState {
    MediaState::new("a.mp3".to_string(), "a.srt".to_string(), cues, 0)
}

#[test]
fn times_are_read() {
    assert_eq!(parse_srt_time("01:02:03,456").ok(), Some(3_723_456));
    assert_eq!(parse_srt_time("+1:0:0, 7 ").ok(), Some(3_600_007));
    assert!(matches!(parse_srt_time("01:02:03.456"),
        Err(SrtError::InvalidTime { input }) if input == "01:02:03.456"));
    assert!(matches!(parse_srt_time("02:03,456"), Err(SrtError::InvalidTime { .. })));
    assert!(matches!(parse_srt_time("x:02:03,456"), Err(SrtError::InvalidNumber)));
    assert!(matches!(parse_srt_time("1:2:3,"), Err(SrtError::InvalidNumber)));
    assert!(matches!(parse_srt_time("1:2:3:,4"), Err(SrtError::InvalidNumber)));
    assert!(matches!(parse_srt_time("18446744073709551615:0:0,0"), Err(SrtError::TooLong)));
}

#[test]
fn subtitles_are_read() {
    let raw = "1\r\n00:00:01,000 --> 00:00:02,500\r\nHello\r\n world \r\n\r\n\
               note\nskipped\n\n\
               2\n00:00:03,000-->00:00:04,000\n\n\
               3\nno times here\ntext\n\n\
                7 \n00:00:05,000 --> 00:00:06,000\nlast";
    let cues = parse_srt(raw).unwrap_or_else(|e| panic!("{e:?}"));
    assert_eq!(cues.len(), 2);
    assert_eq!(cues[0].index, 1);
    assert_eq!(cues[0].start_ms, 1_000);
    assert_eq!(cues[0].end_ms, 2_500);
    assert_eq!(cues[0].text, "Hello  world");
    assert_eq!(cues[1].index, 7);
    assert_eq!(cues[1].text, "last");
    assert!(parse_srt("").unwrap_or_else(|e| panic!("{e:?}")).is_empty());
}

#[test]
fn carriage_returns_before_line_ends_are_dropped() {
    let cues = parse_srt("1\n0:0:1,0 --> 0:0:2,0\nfoo\r\r\nbar\r")
        .unwrap_or_else(|e| panic!("{e:?}"));
    assert_eq!(cues[0].text, "foo bar");
}

#[test]
fn faulty_times_stop_the_reading() {
    assert!(matches!(
        parse_srt("1\n0:0:1,0 --> 0:0:2,0\na\n\n2\nx --> y\nb"),
        Err(SrtError::InvalidTime { input }) if input == "x"
    ));
    assert!(matches!(
        parse_srt("1\n0:0:1,0 --> 0:0:z,0\na"),
        Err(SrtError::InvalidNumber)
    ));
    let cues = parse_srt("1\nx --> y\n").unwrap_or_else(|e| panic!("{e:?}"));
    assert!(cues.is_empty());
}

#[test]
fn default_media_needs_both_files() {
    let raw = "1\n0:0:1,0 --> 0:0:2,0\na";
    assert!(matches!(MediaState::load_default(true, false, raw, 0), Ok(None)));
    assert!(matches!(MediaState::load_default(false, true, raw, 0), Ok(None)));
    match MediaState::load_default(true, true, raw, 5) {
        Ok(Some(m)) => {
            assert_eq!(m.audio_path, "ARC_Raiders_is_getting_DARKER....mp3");
            assert_eq!(m.srt_path, "ARC_Raiders_is_getting_DARKER....en.srt");
            assert_eq!(m.duration_ms, 2_000);
            assert!(!m.playing);
        }
        _ => panic!("expected media"),
    }
    assert!(MediaState::load_default(true, true, "1\nx --> y\na", 0).is_err());
}

#[test]
fn clock_drives_the_position() {
    let mut m = player(vec![cue(1, 0, 60_000)]);
    assert_eq!(m.toggle_play(SEC), PlayerCommand::Start { position_ms: 0 });
    assert!(!m.playing);
    m.resume_clock(SEC);
    m.refresh_position(3 * SEC + 999_999);
    assert_eq!(m.position_ms, 2_000);
    assert_eq!(m.toggle_play(4 * SEC), PlayerCommand::Stop);
    assert_eq!(m.position_ms, 3_000);
    m.refresh_position(9 * SEC);
    assert_eq!(m.position_ms, 3_000);
    m.resume_clock(10 * SEC);
    m.refresh_position(11 * SEC);
    assert_eq!(m.position_ms, 4_000);
    m.refresh_position(5 * SEC);
    assert_eq!(m.position_ms, 3_000);
    assert_eq!(m.start_clock_only(20 * SEC), PlayerCommand::Stop);
    assert!(m.playing);
}

#[test]
fn seeking_stays_inside() {
    let mut m = player(vec![cue(1, 0, 60_000)]);
    assert_eq!(m.seek_by(10_000, 0), PlayerCommand::Keep);
    assert_eq!(m.position_ms, 10_000);
    m.seek_by(-60_000, 0);
    assert_eq!(m.position_ms, 0);
    m.resume_clock(0);
    assert_eq!(m.seek_by(600_000, SEC), PlayerCommand::Start { position_ms: 60_000 });
    m.refresh_position(2 * SEC);
    assert_eq!(m.position_ms, 61_000);
    let mut unknown = player(vec![]);
    unknown.seek_by(600_000, 0);
    assert_eq!(unknown.position_ms, 600_000);
    unknown.seek_by(i64::MIN, 0);
    assert_eq!(unknown.position_ms, 0);
    unknown.position_ms = u64::MAX - 5;
    unknown.seek_by(10, 0);
    assert_eq!(unknown.position_ms, u64::MAX);
    assert!(unknown.has_room(999_999));
    assert!(!unknown.has_room(1_000_000));
}

#[test]
fn current_subtitle_is_found() {
    let mut m = player(vec![cue(1, 1_000, 2_000), cue(2, 3_000, 4_000), cue(3, 5_000, 6_000)]);
    for (position, expected) in
        [(0, 0), (1_500, 0), (2_500, 0), (3_000, 1), (4_000, 1), (4_500, 1), (5_000, 2), (9_000, 2)]
    {
        m.position_ms = position;
        assert_eq!(m.active_index(), expected, "at {position}");
    }
    assert_eq!(player(vec![]).active_index(), 0);
}

#[test]
fn positions_are_shown() {
    assert_eq!(format_media_time(0), "00:00");
    assert_eq!(format_media_time(65_999), "01:05");
    assert_eq!(format_media_time(3_600_000), "01:00:00");
    assert_eq!(format_media_time(360_000_000), "100:00:00");
    for ms in [0u64, 1, 12, 999, 1_000, 65_043, 86_400_000] {
        assert_eq!(format_seconds(ms), format!("{:.3}", ms as f64 / 1000.0));
    }
}

#[test]
fn progress_is_a_bar() {
    assert_eq!(media_progress_bar(3, 10, 5), "███░░");
    assert_eq!(media_progress_bar(9, 10, 5), "█████");
    assert_eq!(media_progress_bar(3, 0, 5), "     ");
    assert_eq!(media_progress_bar(3, 10, 0), "");
    assert_eq!(repeat_char('x', 3), "xxx");
}

#[test]
fn shown_times_are_read_back() {
    for ms in [0, 1, 61_002, 3_599_999, 3_600_000, 359_999_999, 400_000_123, u64::MAX] {
        let hours = if ms < 3_600_000 { "00:" } else { "" };
        let written = format!("{hours}{},{}", format_media_time(ms), ms % 1000);
        assert_eq!(parse_srt_time(&written).ok(), Some(ms));
    }
}
