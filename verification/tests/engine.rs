use asr_compare_tui::engine::offline::{decode_offline_segment, OfflineSlot};
use asr_compare_tui::engine::online::{feed_online_frame, FrameReply, OnlineSlot};
use asr_compare_tui::engine::settings::{
    candidate_files, first_existing_model_file, offline_settings, online_feature_dim,
    online_settings, silero_settings, slot_config, tail_vad, BuildError, FileProbe, ModelPart,
    OfflineModel, OnlineProbes, TailVad,
};
use asr_compare_tui::engine::{AnySlot, SlotView};
use asr_compare_tui::models::{model_descs, OfflineFamily, SherpaModelType};
use asr_compare_tui::segments::{enhanced_zipformer_en, SegmentAction};

const SEC: u64 = 1_000_000_000;

fn reply(text: &str) -> FrameReply {
    FrameReply { text: text.to_string(), final_text: None, voices: vec![] }
}

fn ended(text: &str) -> FrameReply {
    FrameReply { final_text: Some(text.to_string()), ..reply(text) }
}

fn voiced(text: &str, voices: &[usize]) -> FrameReply {
    FrameReply { voices: voices.to_vec(), ..reply(text) }
}

#[test]
fn recogniser_ends_the_sentence() {
    let mut slot = OnlineSlot::new("Zipformer-zh", None, 0);
    let out = feed_online_frame(&mut slot, &reply(" hello "), 0);
    assert_eq!(out.final_text, None);
    assert!(!out.reset);
    assert_eq!(slot.partial, " hello ");
    feed_online_frame(&mut slot, &reply("hello"), 0);
    assert_eq!(slot.all_partials, vec!["hello"]);
    let out = feed_online_frame(&mut slot, &ended("hello there"), 0);
    assert_eq!(out.final_text, Some("hello there".to_string()));
    assert!(out.reset);
    assert_eq!(slot.partial, "");
    assert_eq!(slot.finals, vec!["hello there"]);
    let out = feed_online_frame(&mut slot, &ended("  "), 0);
    assert_eq!(out.final_text, None);
    assert!(out.reset);
    assert_eq!(slot.all_finals.len(), 1);
    assert_eq!(slot.all_partials, vec!["hello", "hello there"]);
}

#[test]
fn only_the_last_finals_are_kept() {
    let mut slot = OnlineSlot::new("Zipformer-en", None, 0);
    for i in 0..9 {
        feed_online_frame(&mut slot, &ended(&format!("text {i}")), 0);
    }
    assert_eq!(slot.finals.len(), 6);
    assert_eq!(slot.finals[0], "text 3");
    assert_eq!(slot.all_finals.len(), 9);
}

#[test]
fn partial_history_is_bounded() {
    let mut slot = OnlineSlot::new("Zipformer-en", None, 0);
    for i in 0..2005 {
        feed_online_frame(&mut slot, &reply(&format!("text {i}")), 0);
    }
    assert_eq!(slot.all_partials.len(), 2000);
    assert_eq!(slot.all_partials[0], "text 5");
}

#[test]
fn disabled_slot_takes_nothing() {
    let mut slot = OnlineSlot::new("Zipformer-en", None, 0);
    slot.set_enabled(false);
    let out = feed_online_frame(&mut slot, &ended("text"), 0);
    assert_eq!(out.final_text, None);
    assert!(!out.reset);
    assert!(slot.all_finals.is_empty());
    assert!(slot.all_partials.is_empty());
}

#[test]
fn segmenter_ends_the_sentence() {
    let mut slot = OnlineSlot::new("Zipformer-en", Some(enhanced_zipformer_en()), 0);
    assert!(slot.use_custom_endpoint);
    let text = "One two three. Four";
    assert!(slot.has_room(text, SEC));
    let out = feed_online_frame(&mut slot, &voiced(text, &[100]), SEC);
    assert_eq!(out.final_text, None);
    assert_eq!(out.voices_used, 1);
    assert_eq!(slot.partial, text);
    let out = feed_online_frame(&mut slot, &reply(text), 2 * SEC);
    assert_eq!(out.final_text, Some("One two three.".to_string()));
    assert!(!out.reset);
    assert_eq!(slot.partial, "Four");
    feed_online_frame(&mut slot, &reply(text), 2 * SEC + 1);
    assert_eq!(slot.partial, " Four");
}

#[test]
fn end_of_speech_commits_the_rest() {
    let mut slot = OnlineSlot::new("Zipformer-en", Some(enhanced_zipformer_en()), 0);
    feed_online_frame(&mut slot, &reply("some words"), SEC);
    let out = feed_online_frame(&mut slot, &voiced("ignored", &[4_799, 4_800, 9_000]), 2 * SEC);
    assert_eq!(out.final_text, Some("some words".to_string()));
    assert!(out.reset);
    assert_eq!(out.voices_used, 2);
    assert_eq!(slot.partial, "");
    let seg = slot.segmenter.as_ref().unwrap_or_else(|| panic!("no segmenter"));
    assert_eq!(seg.last_partial, "");
    assert_eq!(seg.stream_started, 2 * SEC);
    let out = feed_online_frame(&mut slot, &voiced("", &[9_000]), 3 * SEC);
    assert_eq!(out.final_text, None);
    assert!(!out.reset);
    assert_eq!(out.voices_used, 1);
}

#[test]
fn cuts_are_carried_out() {
    let mut slot = OnlineSlot::new("Zipformer-en", Some(enhanced_zipformer_en()), 0);
    let action = SegmentAction::Checkpoint { text: "a b".to_string(), draft: "c".to_string() };
    assert_eq!(slot.apply_segment_action(action, 1), (Some("a b".to_string()), false));
    assert_eq!(slot.partial, "c");
    let action = SegmentAction::ExtremeReset { text: "  ".to_string() };
    assert_eq!(slot.apply_segment_action(action, 2), (None, true));
    assert_eq!(slot.partial, "");
    assert_eq!(slot.all_finals, vec!["a b"]);
}

#[test]
fn speech_is_decoded_as_a_whole() {
    let mut slot = OfflineSlot::new("Canary-180m-flash", OfflineFamily::Canary);
    assert!(slot.wants_segment(10));
    assert!(!slot.wants_segment(0));
    assert_eq!(decode_offline_segment(&mut slot, 10, " Hi. "), Some("Hi.".to_string()));
    assert_eq!(slot.segments_decoded, 1);
    assert_eq!(slot.last_segment_samples, 10);
    assert_eq!(decode_offline_segment(&mut slot, 20, "  "), None);
    assert_eq!(slot.segments_decoded, 2);
    assert_eq!(decode_offline_segment(&mut slot, 0, "x"), None);
    assert_eq!(slot.last_segment_samples, 0);
    slot.set_enabled(false);
    assert_eq!(decode_offline_segment(&mut slot, 30, "x"), None);
    assert_eq!(slot.segments_decoded, 2);
    assert_eq!(slot.all_finals, vec!["Hi."]);
    slot.set_enabled(true);
    for i in 0..7 {
        decode_offline_segment(&mut slot, 1, &i.to_string());
    }
    assert_eq!(slot.finals, vec!["1", "2", "3", "4", "5", "6"]);
}

#[test]
fn slots_of_both_kinds_look_alike() {
    let mut online = AnySlot::Online(OnlineSlot::new("Nemotron-en", None, 0));
    let mut offline =
        AnySlot::Offline(OfflineSlot::new("Canary-180m-flash", OfflineFamily::Canary));
    if let AnySlot::Online(s) = &mut online {
        feed_online_frame(s, &reply("words"), 0);
    }
    if let AnySlot::Offline(s) = &mut offline {
        decode_offline_segment(s, 5, "text");
    }
    assert_eq!(online.name(), "Nemotron-en");
    assert!(online.is_online());
    assert!(!offline.is_online());
    assert_eq!(online.partial(), "words");
    assert_eq!(offline.partial(), "");
    assert_eq!(offline.finals(), ["text"]);
    assert_eq!(offline.all_finals(), ["text"]);
    online.set_finals_scroll(9);
    assert_eq!(online.finals_scroll(), 9);
    online.set_enabled(false);
    assert!(!online.enabled());
    assert_eq!(online.partial(), "");
    online.clear();
    offline.clear();
    assert_eq!(online.finals_scroll(), 0);
    assert!(!online.enabled());
    assert!(offline.all_finals().is_empty());
    if let AnySlot::Offline(s) = &offline {
        assert_eq!(s.segments_decoded, 0);
    }
}

fn probe(path: &str, exists: bool) -> FileProbe {
    FileProbe { path: path.to_string(), exists }
}

fn all_probes() -> OnlineProbes {
    OnlineProbes {
        encoder: vec![probe("/m/encoder.int8.onnx", false), probe("/m/encoder.onnx", true)],
        decoder: vec![probe("/m/decoder.onnx", true), probe("/m/decoder.int8.onnx", true)],
        joiner: vec![probe("/m/joiner.int8.onnx", true), probe("/m/joiner.onnx", true)],
        tokens: vec![probe("/m/tokens.txt", true)],
    }
}

#[test]
fn preferred_files_come_first() {
    assert_eq!(
        candidate_files(ModelPart::Decoder, SherpaModelType::Zipformer),
        vec!["decoder.onnx", "decoder.int8.onnx"]
    );
    assert_eq!(
        candidate_files(ModelPart::Decoder, SherpaModelType::NemotronStreaming),
        vec!["decoder.int8.onnx", "decoder.onnx"]
    );
    let names = candidate_files(ModelPart::Encoder, SherpaModelType::Zipformer);
    let found = first_existing_model_file("M", "/m", &names, &all_probes().encoder);
    assert_eq!(found.ok(), Some("/m/encoder.onnx".to_string()));
    let missing = [probe("/m/encoder.int8.onnx", false), probe("/m/encoder.onnx", false)];
    match first_existing_model_file("M", "/m", &names, &missing) {
        Err(BuildError::MissingFile { message }) => assert_eq!(
            message,
            "M 模型文件缺失: 需要 encoder.int8.onnx / encoder.onnx 之一，目录 /m"
        ),
        other => panic!("unexpected {other:?}"),
    }
    assert_eq!(online_feature_dim(SherpaModelType::NemotronStreaming), 128);
    assert_eq!(online_feature_dim(SherpaModelType::Zipformer), 80);
}

#[test]
fn streaming_recognisers_are_set_up() {
    let descs = model_descs();
    let rules = ("r1", "r2", "r3");
    let s = online_settings(&descs[1], "/m", &all_probes(), "a, b", rules, false)
        .unwrap_or_else(|e| panic!("{e:?}"));
    assert_eq!(s.feature_dim, 80);
    assert_eq!(s.files.encoder, "/m/encoder.onnx");
    assert_eq!(s.files.tokens, "/m/tokens.txt");
    assert_eq!(s.decoding_method, "modified_beam_search");
    assert_eq!(s.hotwords, Some("a\nb".to_string()));
    assert_eq!(s.endpoint_rules, Some(rules));
    assert_eq!((s.num_threads, s.provider, s.debug, s.max_active_paths), (1, "cpu", false, 4));
    let s = online_settings(&descs[3], "/m", &all_probes(), "a, b", rules, true)
        .unwrap_or_else(|e| panic!("{e:?}"));
    assert_eq!(s.feature_dim, 128);
    assert_eq!(s.decoding_method, "greedy_search");
    assert_eq!(s.hotwords, None);
    assert_eq!(s.endpoint_rules, None);
    match online_settings(&descs[4], "/m", &all_probes(), "", rules, true).err() {
        Some(BuildError::WrongKind { message }) => {
            assert_eq!(message, "build_online_slot 收到离线模型")
        }
        other => panic!("unexpected {other:?}"),
    }
    let probes = OnlineProbes { tokens: vec![probe("/m/tokens.txt", false)], ..all_probes() };
    match online_settings(&descs[0], "/m", &probes, "", rules, true).err() {
        Some(BuildError::MissingFile { message }) => {
            assert_eq!(message, "Zipformer-zh 模型文件缺失: 需要 tokens.txt 之一，目录 /m")
        }
        other => panic!("unexpected {other:?}"),
    }
}

#[test]
fn other_recognisers_are_set_up() {
    let descs = model_descs();
    let files = [probe("/o/e", true), probe("/o/d", true), probe("/o/t", true)];
    let s = offline_settings(&descs[4], &files).unwrap_or_else(|e| panic!("{e:?}"));
    match s.model {
        OfflineModel::Canary { feature_dim, encoder, decoder, tokens, src_lang, tgt_lang, use_pnc } => {
            assert_eq!(feature_dim, 128);
            assert_eq!((encoder.as_str(), decoder.as_str(), tokens.as_str()), ("/o/e", "/o/d", "/o/t"));
            assert_eq!((src_lang, tgt_lang, use_pnc), ("en", "en", true));
        }
        OfflineModel::NemoCtc { .. } => panic!("wrong model"),
    }
    let s = offline_settings(&descs[5], &files[..2]).unwrap_or_else(|e| panic!("{e:?}"));
    assert!(matches!(s.model, OfflineModel::NemoCtc { model, tokens }
        if model == "/o/e" && tokens == "/o/d"));
    let files = [probe("/o/e", true), probe("/o/d", false), probe("/o/t", false)];
    match offline_settings(&descs[4], &files).err() {
        Some(BuildError::MissingFile { message }) => assert_eq!(
            message,
            "Canary-180m-flash 模型文件缺失: decoder (/o/d)\n请先运行 ./scripts/download-canary.sh 下载。"
        ),
        other => panic!("unexpected {other:?}"),
    }
    match offline_settings(&descs[0], &[]).err() {
        Some(BuildError::WrongKind { message }) => {
            assert_eq!(message, "build_offline_slot 收到流式模型")
        }
        other => panic!("unexpected {other:?}"),
    }
}

#[test]
fn enhanced_model_brings_its_settings() {
    let descs = model_descs();
    let chosen = Some(enhanced_zipformer_en());
    assert!(slot_config(&descs[0], None).is_none());
    assert!(slot_config(&descs[0], chosen).is_some());
    assert_eq!(slot_config(&descs[2], None).map(|c| c.name), Some("加强版Zipformer-en"));
    assert!(slot_config(&descs[4], chosen).is_none());
    assert_eq!(tail_vad(None, true), None);
    assert_eq!(tail_vad(chosen, false), None);
    assert_eq!(
        tail_vad(chosen, true),
        Some(TailVad {
            threshold_permille: 500,
            min_silence_ms: 300,
            min_speech_ms: 0,
            max_speech_ms: 18_000,
            buffer_sec: 5
        })
    );
}

#[test]
fn voice_activity_model_is_required() {
    let there = FileProbe { path: "m/silero.onnx".to_string(), exists: true };
    let settings = silero_settings(&there, 0.5f32, 0.5, 0.25, 8.0).unwrap_or_else(|_| panic!());
    assert_eq!(settings.model, "m/silero.onnx");
    assert_eq!(settings.max_speech_sec, 8.0);
    assert_eq!((settings.window_size, settings.sample_rate, settings.num_threads), (512, 16_000, 1));
    assert_eq!((settings.provider, settings.debug), ("cpu", false));

    let missing = FileProbe { path: "m/silero.onnx".to_string(), exists: false };
    match silero_settings(&missing, 0.5f32, 0.5, 0.25, 8.0) {
        Err(BuildError::MissingFile { message }) => assert_eq!(
            message,
            "Silero VAD 模型文件缺失: m/silero.onnx\n请先运行 ./scripts/download-silero-vad.sh 下载，或用 SILERO_VAD_MODEL 指定路径。"
        ),
        _ => panic!("expected a missing file"),
    }
}
