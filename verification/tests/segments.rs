use asr_compare_tui::segments::{enhanced_zipformer_en, SegStats, SegmentAction, Segmenter};

fn now() -> u64 {
    1_000_000_000_000
}

fn make_seg() -> Segmenter {
    Segmenter::new(enhanced_zipformer_en(), now())
}

fn advance(base: u64, secs: f64) -> u64 {
    base + (secs * 1_000_000_000.0) as u64
}

#[test]
fn empty_partial_returns_none() {
    let mut seg = make_seg();
    let t = now();
    assert!(seg.feed_partial("", t).is_none());
    assert!(seg.feed_partial("   ", t).is_none());
}

#[test]
fn punct_stable_cut() {
    let mut seg = make_seg();
    let t0 = now();

    assert!(seg.feed_partial("Hello beautiful world.", t0).is_none());
    assert_eq!(seg.stats.punct_candidate_count, 1);

    let t1 = advance(t0, 0.5);
    assert!(seg.feed_partial("Hello beautiful world.", t1).is_none());

    let t2 = advance(t0, 0.75);
    let action = seg.feed_partial("Hello beautiful world.", t2);
    assert!(action.is_some());
    match action.unwrap() {
        SegmentAction::Checkpoint { text, draft } => {
            assert_eq!(text, "Hello beautiful world.");
            assert!(draft.is_empty());
        }
        _ => panic!("expected Checkpoint"),
    }
    assert_eq!(seg.stats.punct_success_count, 1);
}

#[test]
fn punct_regret_on_disappear() {
    let mut seg = make_seg();
    let t0 = now();

    assert!(seg.feed_partial("Hello beautiful world.", t0).is_none());
    assert_eq!(seg.stats.punct_candidate_count, 1);
    assert_eq!(seg.stats.punct_regret_count, 0);

    let t1 = advance(t0, 0.3);
    assert!(seg.feed_partial("Hello beautiful world", t1).is_none());
    assert_eq!(seg.stats.punct_regret_count, 1);
}

#[test]
fn connection_word_blocks_cut() {
    let mut seg = make_seg();
    let t0 = now();

    let _ = seg.feed_partial("I like this and.", t0);
    let t1 = advance(t0, 2.0);
    assert!(seg.feed_partial("I like this and.", t1).is_none());
}

#[test]
fn extreme_cut_after_25s() {
    let mut seg = make_seg();
    let t0 = now();

    assert!(seg
        .feed_partial("no punctuation at all just words going on and on and on and on", t0)
        .is_none());
    let t1 = advance(t0, 26.0);
    let action = seg.feed_partial(
        "no punctuation at all just words going on and on and on and on even more",
        t1,
    );
    assert!(action.is_some());
    match action.unwrap() {
        SegmentAction::ExtremeReset { .. } => {}
        _ => panic!("expected ExtremeReset"),
    }
    assert_eq!(seg.stats.extreme_cut_count, 1);
}

#[test]
fn no_punct_fallback() {
    let mut seg = make_seg();
    let t0 = now();

    let text = "this is a long sentence without any punctuation marks hello world really long";
    assert!(text.split_whitespace().count() >= 12);

    assert!(seg.feed_partial(text, t0).is_none());

    let t1 = advance(t0, 11.0);
    assert!(seg.feed_partial(text, t1).is_none());

    let t2 = advance(t1, 1.5);
    let action = seg.feed_partial(text, t2);
    assert!(action.is_some());
    match action.unwrap() {
        SegmentAction::Checkpoint { draft, .. } => {
            assert!(!draft.is_empty());
            let draft_words: Vec<&str> = draft.split_whitespace().collect();
            assert_eq!(draft_words.len(), 3, "draft should keep last 3 words, got: {draft}");
        }
        _ => panic!("expected Checkpoint"),
    }
    assert_eq!(seg.stats.no_punct_fallback_count, 1);
}

#[test]
fn no_punct_insufficient_words() {
    let mut seg = make_seg();
    let t0 = now();

    let text = "short text here";
    assert!(seg.feed_partial(text, t0).is_none());
    let t1 = advance(t0, 11.0);
    assert!(seg.feed_partial(text, t1).is_none());
    assert_eq!(seg.stats.no_punct_fallback_count, 0);
}

#[test]
fn stats_accumulate_correctly() {
    let mut seg = make_seg();
    let t0 = now();

    let _ = seg.feed_partial("Hello beautiful world.", t0);
    let t1 = advance(t0, 1.0);
    seg.feed_partial("Hello beautiful world.", t1);

    assert_eq!(seg.stats.total_segment_count, 1);
    assert_eq!(seg.stats.punct_success_count, 1);
    assert!(seg.stats.total_cut_latency_ms >= 700);
    assert_eq!(seg.stats.total_words_sum, 3);
}

#[test]
fn vad_silence_commits_tail() {
    let mut seg = make_seg();
    let t0 = now();

    seg.feed_partial("Hello world. This is a test.", t0);
    let t1 = advance(t0, 2.0);
    let action = seg.on_vad_silence(t1);
    assert!(action.is_some());
    match action.unwrap() {
        SegmentAction::VadReset { text } => {
            assert!(!text.is_empty());
        }
        _ => panic!("expected VadReset"),
    }
}

#[test]
fn stream_reset_clears_state() {
    let mut seg = make_seg();
    let t0 = now();

    seg.feed_partial("Hello world.", t0);
    assert!(!seg.last_partial.is_empty());

    seg.on_stream_reset(advance(t0, 1.0));
    assert!(seg.last_partial.is_empty());
    assert!(seg.committed_text.is_empty());
    assert!(seg.punct_candidate.is_none());
}

#[test]
fn find_nth_word_end_basic() {
    let s = "hello world this is a test";
    assert_eq!(Segmenter::find_nth_word_end(s, 0), Some(5));
    assert_eq!(Segmenter::find_nth_word_end(s, 1), Some(11));
    assert_eq!(Segmenter::find_nth_word_end(s, 5), Some(s.len()));
    assert_eq!(Segmenter::find_nth_word_end(s, 10), None);
}

#[test]
fn timer_reset_after_checkpoint() {
    let mut seg = make_seg();
    let t0 = now();

    let _ = seg.feed_partial("This is first sentence.", t0);
    let t1 = advance(t0, 1.0);
    seg.feed_partial("This is first sentence.", t1);
    assert_eq!(seg.stats.punct_success_count, 1);

    let t2 = advance(t1, 0.5);
    let _ = seg.feed_partial("This is first sentence. Another whole new sentence here.", t2);
    let t3 = advance(t2, 1.0);
    let action = seg.feed_partial("This is first sentence. Another whole new sentence here.", t3);
    match action {
        Some(SegmentAction::Checkpoint { .. }) => {}
        Some(SegmentAction::ExtremeReset { .. }) => {
            panic!("should not extreme-reset after normal checkpoint")
        }
        _ => {}
    }
    assert_eq!(seg.stats.extreme_cut_count, 0);
}

#[test]
fn checkpoint_keeps_exactly_the_rest() {
    let mut seg = make_seg();
    let t0 = now();
    let text = "We went home early. Then it rained";
    assert!(seg.feed_partial(text, t0).is_none());
    match seg.feed_partial(text, advance(t0, 0.7)) {
        Some(SegmentAction::Checkpoint { text: cut, draft }) => {
            assert_eq!(cut, "We went home early.");
            assert_eq!(draft, "Then it rained");
            assert_eq!(seg.draft(), " Then it rained");
            assert_eq!(seg.committed_text, "We went home early.");
        }
        other => panic!("expected Checkpoint, got {other:?}"),
    }
    match seg.on_vad_silence(advance(t0, 1.0)) {
        Some(SegmentAction::VadReset { text: rest }) => assert_eq!(rest, " Then it rained"),
        other => panic!("expected VadReset, got {other:?}"),
    }
}

#[test]
fn mark_must_stand_exactly_long_enough() {
    let mut seg = make_seg();
    let t0 = now();
    assert!(seg.feed_partial("One two three.", t0).is_none());
    assert!(seg.feed_partial("One two three.", t0 + 699_999_999).is_none());
    assert!(seg.feed_partial("One two three.", t0 + 700_000_000).is_some());
    assert_eq!(seg.stats.total_cut_latency_ms, 700);
}

#[test]
fn mark_is_ignored_while_cooling() {
    let mut seg = make_seg();
    let t0 = now();
    seg.feed_partial("One two three.", t0);
    assert!(seg.feed_partial("One two three.", advance(t0, 1.0)).is_some());
    let longer = "One two three. Four five six.";
    assert!(seg.feed_partial(longer, advance(t0, 1.5)).is_none());
    assert!(seg.punct_candidate.is_none());
    assert!(seg.feed_partial(longer, advance(t0, 2.5)).is_none());
    assert!(seg.punct_candidate.is_some());
    match seg.feed_partial(longer, advance(t0, 3.2)) {
        Some(SegmentAction::Checkpoint { text, .. }) => assert_eq!(text, longer),
        other => panic!("expected Checkpoint, got {other:?}"),
    }
}

#[test]
fn revised_prefix_is_regretted() {
    let mut seg = make_seg();
    let t0 = now();
    seg.feed_partial("One two three.", t0);
    seg.feed_partial("One two three.", advance(t0, 1.0));
    assert_eq!(seg.committed_text, "One two three.");
    seg.feed_partial("Won two three four five.", advance(t0, 3.0));
    assert_eq!(seg.committed_text, "");
    assert_eq!(seg.stats.punct_regret_count, 1);
}

#[test]
fn extreme_commits_only_what_is_new() {
    let mut seg = make_seg();
    let t0 = now();
    seg.feed_partial("One two three.", t0);
    assert!(seg.feed_partial("One two three.", advance(t0, 1.0)).is_some());
    match seg.feed_partial("One two three. and", advance(t0, 26.0)) {
        Some(SegmentAction::ExtremeReset { text }) => assert_eq!(text, " and"),
        other => panic!("expected ExtremeReset, got {other:?}"),
    }
}

#[test]
fn marks_come_before_the_longest_wait() {
    let mut seg = make_seg();
    let t0 = now();
    assert!(seg.feed_partial("Hello beautiful world.", t0).is_none());
    match seg.feed_partial("Hello beautiful world.", advance(t0, 26.0)) {
        Some(SegmentAction::Checkpoint { text, draft }) => {
            assert_eq!(text, "Hello beautiful world.");
            assert_eq!(draft, "");
        }
        other => panic!("expected Checkpoint, got {other:?}"),
    }
    assert_eq!(seg.stats.extreme_cut_count, 0);
}

#[test]
fn fallback_comes_before_the_longest_wait_and_keeps_every_word() {
    let mut seg = make_seg();
    let t0 = now();
    let text = "one  two three four five six seven eight nine ten eleven\ttwelve";
    assert!(seg.feed_partial(text, t0).is_none());
    assert!(seg.feed_partial(text, advance(t0, 24.5)).is_none());
    match seg.feed_partial(text, advance(t0, 25.5)) {
        Some(SegmentAction::Checkpoint { text, draft }) => {
            assert_eq!(text, "one  two three four five six seven eight nine");
            assert_eq!(draft, "ten eleven twelve");
        }
        other => panic!("expected Checkpoint, got {other:?}"),
    }
    assert_eq!(seg.stats.no_punct_fallback_count, 1);
    assert_eq!(seg.stats.extreme_cut_count, 0);
}

#[test]
fn blank_partial_drops_the_watch() {
    let mut seg = make_seg();
    seg.feed_partial("One two three.", now());
    assert!(seg.punct_candidate.is_some());
    assert!(seg.feed_partial(" \u{3000}\n", now()).is_none());
    assert!(seg.punct_candidate.is_none());
    assert_eq!(seg.last_partial, "One two three.");
}

#[test]
fn silence_without_text_does_nothing() {
    let mut seg = make_seg();
    assert!(seg.on_vad_silence(now()).is_none());
    assert_eq!(seg.stats.total_segment_count, 0);
}

#[test]
fn draft_rounds_down_to_a_character() {
    let mut seg = make_seg();
    seg.last_partial = "日本語".to_string();
    seg.committed_text = "abcd".to_string();
    assert_eq!(seg.draft(), "本語");
    seg.committed_text = "ab".to_string();
    assert_eq!(seg.draft(), "日本語");
    seg.committed_text = "a much longer committed text".to_string();
    assert_eq!(seg.draft(), "");
}

#[test]
fn word_ends_are_byte_offsets() {
    assert_eq!(Segmenter::find_nth_word_end("  日本 ok", 0), Some(8));
    assert_eq!(Segmenter::find_nth_word_end("  日本 ok", 1), Some(11));
    assert_eq!(Segmenter::find_nth_word_end("", 0), None);
}

#[test]
fn connection_words_are_told_without_marks_and_case() {
    assert!(Segmenter::ends_with_connection_word("I like this AND?!"));
    assert!(Segmenter::ends_with_connection_word("because"));
    assert!(!Segmenter::ends_with_connection_word("I like sand."));
    assert!(!Segmenter::ends_with_connection_word("...  123"));
    assert!(!Segmenter::ends_with_connection_word(""));
    assert!(!Segmenter::ends_with_connection_word("andé"));
}

#[test]
fn repeat_and_missing_words_are_counted() {
    let mut seg = make_seg();
    seg.committed_text = "two three".to_string();
    seg.last_partial = "one two three".to_string();
    assert!(seg.on_vad_silence(now()).is_some());
    assert_eq!(seg.stats.repeat_risk_count, 1);
    assert_eq!(seg.stats.missing_word_risk_count, 0);
    assert_eq!(seg.stats.total_words_sum, 3);
}

#[test]
fn room_is_told() {
    let mut seg = make_seg();
    assert!(seg.has_room(10, now()));
    seg.stats.total_words_sum = usize::MAX - 5;
    assert!(!seg.has_room(10, now()));
}

#[test]
fn summary_line_has_every_count() {
    let stats = SegStats {
        punct_candidate_count: 9,
        punct_success_count: 7,
        punct_regret_count: 1,
        no_punct_fallback_count: 2,
        extreme_cut_count: 3,
        total_cut_latency_ms: 5600,
        total_words_sum: 84,
        total_segment_count: 12,
        repeat_risk_count: 4,
        missing_word_risk_count: 5,
    };
    assert_eq!(stats.avg_cut_latency_ms(), (5600, 12));
    assert_eq!(stats.avg_words_per_segment(), (84, 12));
    assert_eq!(
        stats.summary_line("0.5", "7"),
        "标点切 7/9 | 兜底 2 | 强切 3 | 反悔 1 | 平均延迟 0.5s | 平均词数 7 | 重复风险 4 | 漏词风险 5"
    );
    assert_eq!(SegStats::default().avg_cut_latency_ms(), (0, 1));
    assert_eq!(SegStats::default().avg_words_per_segment(), (0, 1));
}

#[test]
fn reset_segmenter_cuts_as_a_new_one() {
    let t0 = now();
    let mut used = make_seg();
    for secs in 0..30 {
        used.feed_partial("we have heard a lot of words before. and more", advance(t0, secs as f64));
    }
    assert!(used.stats.total_segment_count > 0);
    let t1 = advance(t0, 60.0);
    used.on_stream_reset(t1);
    let mut fresh = Segmenter::new(enhanced_zipformer_en(), t1);
    let mut cuts: usize = 0;
    for step in 0..120 {
        let partial = match step / 40 {
            0 => "this is a new sentence that ends. and",
            1 => "this is a new sentence that ends. and it goes on",
            _ => "one two three four five six seven eight nine ten eleven twelve",
        };
        let at = advance(t1, step as f64 * 0.5);
        let (a, b) = (used.feed_partial(partial, at), fresh.feed_partial(partial, at));
        assert_eq!(format!("{a:?}"), format!("{b:?}"));
        cuts += usize::from(a.is_some());
    }
    assert!(cuts > 0);
    assert_eq!(used.draft(), fresh.draft());
}
