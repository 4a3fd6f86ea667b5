use asr_compare_tui::app::{App, MediaAction};
use asr_compare_tui::engine::offline::OfflineSlot;
use asr_compare_tui::engine::online::{FrameReply, OnlineSlot};
use asr_compare_tui::engine::{AnySlot, SlotView};
use asr_compare_tui::media::{MediaState, PlayerCommand, SubtitleCue};
use asr_compare_tui::models::OfflineFamily;
use asr_compare_tui::report::{export_report, report_file, ReportTexts};
use asr_compare_tui::segments::enhanced_zipformer_en;
use asr_compare_tui::ui::keys::{should_quit, Key, KeyPress};
use asr_compare_tui::vad::{VadBackend, VadReportTexts, VadState};

fn slots() -> Vec<AnySlot> {
    vec![
        AnySlot::Online(OnlineSlot::new("Zipformer-en", None, 0)),
        AnySlot::Offline(OfflineSlot::new("Canary-180m-flash", OfflineFamily::Canary)),
        AnySlot::Online(OnlineSlot::new("Zipformer-en (加强版)", Some(enhanced_zipformer_en()), 0)),
    ]
}

fn media() -> MediaState {
    let cues = (0..10)
        .map(|i| SubtitleCue {
            index: i + 1,
            start_ms: i as u64 * 1_000,
            end_ms: i as u64 * 1_000 + 900,
            text: format!("line {}", i + 1),
        })
        .collect();
    MediaState::new("a.mp3".to_string(), "a.srt".to_string(), cues, 0)
}

fn app() -> App<u8> {
    App {
        slots: slots(),
        vad: VadState::new(VadBackend::Disabled, 128_000),
        log: Vec::new(),
        started_at: 0,
        source_label: "输入端 / USB".to_string(),
        active_slot: 0,
        media: Some(media()),
        sample_file_mode: false,
    }
}

fn press(key: Key) -> KeyPress {
    KeyPress { key, control: false }
}

fn reply(text: &str) -> FrameReply {
    FrameReply { text: text.to_string(), final_text: None, voices: vec![] }
}

fn ended(text: &str) -> FrameReply {
    FrameReply { final_text: Some(text.to_string()), ..reply(text) }
}

fn texts(n: usize) -> ReportTexts {
    ReportTexts {
        vad: VadReportTexts {
            last_start: String::new(),
            last_len: String::new(),
            silero_model: String::new(),
            silero_threshold: String::new(),
            silero_min_silence_sec: String::new(),
            silero_min_speech_sec: String::new(),
            silero_max_speech_sec: String::new(),
            rms_threshold: String::new(),
            rms_max_buffer_sec: String::new(),
        },
        avg_cut_latency_ms: "0.0".to_string(),
        avg_words_per_segment: "0.0".to_string(),
        last_segment_sec: vec!["0.500".to_string(); n],
    }
}

#[test]
fn keys_that_quit() {
    assert!(should_quit(&press(Key::Char('q'))));
    assert!(should_quit(&press(Key::Esc)));
    assert!(should_quit(&KeyPress { key: Key::Char('c'), control: true }));
    assert!(!should_quit(&press(Key::Char('c'))));
    assert!(!should_quit(&KeyPress { key: Key::Char('x'), control: true }));
    let mut a = app();
    assert_eq!(a.handle_key(&press(Key::Esc), 0), None);
}

#[test]
fn active_slot_moves_within_the_slots() {
    let mut a = app();
    a.handle_key(&press(Key::Left), 0);
    assert_eq!(a.active_slot, 0);
    a.handle_key(&press(Key::Right), 0);
    a.handle_key(&press(Key::Right), 0);
    a.handle_key(&press(Key::Right), 0);
    assert_eq!(a.active_slot, 2);
    a.move_active_slot(isize::MIN);
    assert_eq!(a.active_slot, 0);
    a.slots.clear();
    a.active_slot = 7;
    a.move_active_slot(1);
    assert_eq!(a.active_slot, 0);
}

#[test]
fn active_slot_scrolls() {
    let mut a = app();
    a.handle_key(&press(Key::PageDown), 0);
    a.handle_key(&press(Key::Down), 0);
    assert_eq!(a.slots[0].finals_scroll(), 7);
    a.handle_key(&press(Key::PageUp), 0);
    a.handle_key(&press(Key::Up), 0);
    a.handle_key(&press(Key::Up), 0);
    assert_eq!(a.slots[0].finals_scroll(), 0);
    a.slots[0].set_finals_scroll(u16::MAX - 1);
    a.handle_key(&press(Key::PageDown), 0);
    assert_eq!(a.slots[0].finals_scroll(), u16::MAX);
    a.handle_key(&press(Key::Home), 0);
    assert_eq!(a.slots[0].finals_scroll(), 0);
    assert_eq!(a.slots[1].finals_scroll(), 0);
}

#[test]
fn digits_switch_slots() {
    let mut a = app();
    a.handle_key(&press(Key::Char('2')), 0);
    assert!(!a.slots[1].enabled());
    assert_eq!(a.log, vec!["[Canary-180m-flash] 已禁用"]);
    a.handle_key(&press(Key::Char('2')), 0);
    assert!(a.slots[1].enabled());
    assert_eq!(a.log[1], "[Canary-180m-flash] 已启用");
    a.handle_key(&press(Key::Char('9')), 0);
    a.handle_key(&press(Key::Char('0')), 0);
    assert_eq!(a.log.len(), 2);
}

#[test]
fn media_keys_ask_for_the_player() {
    let mut a = app();
    assert_eq!(
        a.handle_key(&press(Key::Char(' ')), 0),
        Some(MediaAction::Toggle(PlayerCommand::Start { position_ms: 0 }))
    );
    assert_eq!(
        a.handle_key(&press(Key::Char('l')), 0),
        Some(MediaAction::Seek(PlayerCommand::Keep))
    );
    assert_eq!(a.media.as_ref().map(|m| m.position_ms), Some(9_900));
    a.handle_key(&press(Key::Char('h')), 0);
    assert_eq!(a.media.as_ref().map(|m| m.position_ms), Some(0));
    if let Some(m) = &mut a.media {
        m.resume_clock(0);
    }
    a.refresh_media(2_000_000_000);
    assert_eq!(a.media.as_ref().map(|m| m.position_ms), Some(2_000));
    assert_eq!(
        a.handle_key(&press(Key::Char('L')), 2_000_000_000),
        Some(MediaAction::Seek(PlayerCommand::Start { position_ms: 9_900 }))
    );
    assert_eq!(
        a.handle_key(&press(Key::Char('H')), 2_000_000_000),
        Some(MediaAction::Seek(PlayerCommand::Start { position_ms: 0 }))
    );
    assert_eq!(a.handle_key(&press(Key::Char('e')), 0), Some(MediaAction::Export));
    assert_eq!(a.handle_key(&press(Key::Char('z')), 0), Some(MediaAction::Nothing));
    a.media = None;
    assert_eq!(a.handle_key(&press(Key::Char(' ')), 0), Some(MediaAction::Nothing));
    assert_eq!(a.handle_key(&press(Key::Char('e')), 0), Some(MediaAction::Export));
}

#[test]
fn frames_reach_the_streams_and_speech_the_others() {
    let mut a = app();
    let replies = [ended("hello"), ended("not looked at"), reply("some words")];
    assert!(a.has_room_for(&replies, 1));
    assert!(!a.has_room_for(&replies[..2], 1));
    let outcomes = a.take_frame(&replies, 1);
    assert_eq!(outcomes.len(), 3);
    assert_eq!(outcomes[0].final_text, Some("hello".to_string()));
    assert!(outcomes[0].reset);
    assert_eq!(outcomes[1].final_text, None);
    assert_eq!(outcomes[2].final_text, None);
    assert_eq!(a.slots[2].partial(), "some words");
    assert!(a.slots[1].all_finals().is_empty());
    assert!(a.has_room_for_segment());
    a.take_segment(100, &["x".to_string(), " Speech. ".to_string(), "y".to_string()]);
    assert_eq!(a.slots[1].all_finals(), ["Speech."]);
    assert_eq!(a.slots[0].all_finals(), ["hello"]);
    assert_eq!(
        a.log,
        vec!["[Zipformer-en] final: hello", "[Canary-180m-flash] final: Speech."]
    );
}

#[test]
fn clearing_forgets_what_was_said() {
    let mut a = app();
    a.take_frame(&[ended("hello"), reply(""), reply("x")], 1);
    a.toggle(1);
    a.handle_key(&press(Key::Char('c')), 1);
    assert!(a.log.is_empty());
    assert!(a.slots.iter().all(|s| s.all_finals().is_empty() && s.partial().is_empty()));
    assert!(!a.slots[1].enabled());
    assert!(a.media.is_some());
}

#[test]
fn outcomes_are_logged() {
    let mut a = app();
    a.note_toggle_failure("no ffplay");
    a.note_seek_failure("no ffplay");
    a.note_report(Ok("reports/x.md"));
    a.note_report(Err("disk full"));
    a.note_media_start(Ok("a.mp3"));
    a.note_media_start(Err("no ffplay"));
    assert_eq!(
        a.log,
        vec![
            "播放切换失败: no ffplay",
            "跳转失败: no ffplay",
            "报告已导出: reports/x.md",
            "报告导出失败: disk full",
            "已开始播放: a.mp3",
            "音频播放启动失败: no ffplay"
        ]
    );
    assert_eq!(
        a.media.and_then(|m| m.last_report),
        Some("reports/x.md".to_string())
    );
}

#[test]
fn report_holds_everything() {
    let mut a = app();
    a.take_frame(&[reply(" he "), reply(""), reply("")], 1);
    a.take_frame(&[ended("hello"), reply(""), reply("x")], 1);
    a.take_frame(&[ended(" again "), reply(""), reply("x")], 1);
    a.take_frame(&[reply(" now "), reply(""), reply("x")], 1);
    a.take_segment(8_000, &[String::new(), "Speech.".to_string(), String::new()]);
    if let Some(m) = &mut a.media {
        m.set_position_ms(4_200, 0);
    }
    let expected = "# ASR Compare Report\n\n- source: 输入端 / USB\n- runtime: 1分5秒\n\
        - audio: a.mp3\n- subtitle: a.srt\n- position: 00:04 (4.200s)\n\n## Subtitle Context\n\n\
        - [00:01 - 00:01] line 2\n- [00:02 - 00:02] line 3\n- [00:03 - 00:03] line 4\n\
        > [00:04 - 00:04] line 5\n- [00:05 - 00:05] line 6\n- [00:06 - 00:06] line 7\n\
        - [00:07 - 00:07] line 8\n\
        \n## VAD\n\n- backend: disabled\n- sample_rate: 16000\n- segments: 0\n\
        \n## Segmentation Stats\n\n- config: 加强版Zipformer-en\n- punct_candidate_count: 0\n\
        - punct_success_count: 0\n- punct_regret_count: 0\n- no_punct_fallback_count: 0\n\
        - extreme_cut_count: 0\n- avg_cut_latency_ms: 0.0\n- avg_words_per_segment: 0.0\n\
        - repeat_risk_count: 0\n- missing_word_risk_count: 0\n- total_segment_count: 0\n\n\
        \n## ASR Results\n\
        \n### Zipformer-en\n\npartial: now\n\npartial_history_count: 4\n\npartial_history:\n\n\
        1. he\n2. hello\n3. again\n4. now\n\nfinal_count: 2\n\n1. hello\n2. again\n\
        \n### Canary-180m-flash\n\n- family: canary\n- decoded_segments: 1\n\
        - last_decoded_segment_sec: 0.500\n\nfinal_count: 1\n\n1. Speech.\n\
        \n### Zipformer-en (加强版)\n\npartial: x\n\npartial_history_count: 1\n\n\
        partial_history:\n\n1. x\n\nfinals: <none>\n";
    assert_eq!(export_report(&a, 65, &texts(3)), expected);
    assert_eq!(report_file(1_700_000_000), "reports/asr_report_1700000000.md");
}

#[test]
fn report_without_subtitles_says_so() {
    let mut a = app();
    a.media = Some(MediaState::new("a".to_string(), "b".to_string(), vec![], 0));
    a.slots.clear();
    let text = export_report(&a, 0, &texts(0));
    assert!(text.contains("## Subtitle Context\n\n<no subtitles parsed>\n\n## VAD"));
    assert!(text.ends_with("\n## ASR Results\n"));
    a.media = None;
    let text = export_report(&a, 0, &texts(0));
    assert!(!text.contains("Subtitle"));
}
