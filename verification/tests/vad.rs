use asr_compare_tui::vad::{
    choose_backend, RmsVadState, VadBackend, VadReportTexts, VadState,
};

fn report_texts() -> VadReportTexts {
    VadReportTexts {
        last_start: "1.500".to_string(),
        last_len: "0.400".to_string(),
        silero_model: "/m/silero.onnx".to_string(),
        silero_threshold: "0.5".to_string(),
        silero_min_silence_sec: "0.5".to_string(),
        silero_min_speech_sec: "0.25".to_string(),
        silero_max_speech_sec: "8".to_string(),
        rms_threshold: "0.012".to_string(),
        rms_max_buffer_sec: "8".to_string(),
    }
}

#[test]
fn backend_is_chosen_by_name() {
    assert_eq!(choose_backend(false, Some("nonsense")).ok(), Some(VadBackend::Disabled));
    assert_eq!(choose_backend(true, None).ok(), Some(VadBackend::Silero));
    assert_eq!(choose_backend(true, Some(" SILERO\n")).ok(), Some(VadBackend::Silero));
    assert_eq!(choose_backend(true, Some("Rms")).ok(), Some(VadBackend::Rms));
    let err = choose_backend(true, Some(" WebRTC ")).err();
    assert_eq!(err.map(|e| e.name), Some("webrtc".to_string()));
    assert_eq!(VadBackend::Rms.as_str(), "rms");
}

#[test]
fn quiet_frames_end_speech() {
    let mut state: RmsVadState<u16> = RmsVadState::new(128_000);
    assert!(state.push(&[1; 1_600], 0, false).is_none());
    assert!(state.push(&[2; 1_600], 1_600, true).is_none());
    for i in 0..3 {
        assert!(state.push(&[3; 1_600], 3_200 + i * 1_600, false).is_none());
    }
    let segment = state.push(&[4; 1_600], 8_000, false).unwrap_or_else(|| panic!("no segment"));
    assert_eq!(segment.start_sample, 0);
    assert_eq!(segment.samples.len(), 9_600);
    assert_eq!(segment.samples[0], 1);
    assert_eq!(segment.samples[9_599], 4);
    assert_eq!(segment.reason, "silence");
    assert!(state.buffer.is_empty());
    assert!(!state.speaking);
    assert!(state.push(&[5; 10], 9_600, true).is_none());
    assert_eq!(state.buffer_start_sample, 9_600);
}

#[test]
fn full_buffer_is_handed_out() {
    let mut state: RmsVadState<u16> = RmsVadState::new(100);
    assert!(state.push(&[1; 60], 7, false).is_none());
    let segment = state.push(&[1; 60], 67, true).unwrap_or_else(|| panic!("no segment"));
    assert_eq!(segment.reason, "max-buffer");
    assert_eq!(segment.start_sample, 7);
    assert_eq!(segment.samples.len(), 120);
    state.push(&[1; 60], 127, true);
    state.reset();
    assert_eq!(state.buffer_start_sample, 0);
    assert!(state.buffer.is_empty());
    assert!(!state.speaking);
    assert_eq!(state.buffer_limit, 100);
}

#[test]
fn model_segments_are_passed_on() {
    let mut vad: VadState<u8> = VadState::new(VadBackend::Silero, 128_000);
    let mut log = Vec::new();
    let fronts = vec![(-3i64, vec![1, 2]), (5, vec![]), (9, vec![3])];
    let segments = vad.push(&[0; 10], false, fronts);
    assert_eq!(segments.len(), 2);
    assert_eq!(segments[0].start_sample, 0);
    assert_eq!(segments[1].start_sample, 9);
    assert_eq!(segments[1].reason, "speech");
    for segment in &segments {
        vad.note_segment(segment, "0.00", "0.25", &mut log);
    }
    assert_eq!(log[1], "[VAD/silero] segment #2 (speech) start=0.00s len=0.25s");
    assert_eq!(vad.segment_count, 2);
    assert_eq!(vad.last_segment_start_sample, Some(9));
    assert_eq!(vad.last_segment_samples, 1);
    assert_eq!(vad.total_samples_seen, 10);
    vad.reset();
    assert_eq!(vad.segment_count, 0);
    assert_eq!(vad.last_segment_start_sample, None);
    assert_eq!(vad.backend(), VadBackend::Silero);
}

#[test]
fn loud_frames_count_from_the_start_of_the_recording() {
    let mut vad: VadState<u8> = VadState::new(VadBackend::Rms, 20);
    assert!(vad.push(&[1; 15], true, vec![]).is_empty());
    assert_eq!(vad.push(&[1; 15], true, vec![(0, vec![1])]).len(), 1);
    let segments = vad.push(&[1; 25], false, vec![]);
    assert_eq!(segments[0].start_sample, 30);
    let mut off: VadState<u8> = VadState::new(VadBackend::Disabled, 20);
    assert!(off.push(&[1; 50], true, vec![(0, vec![1])]).is_empty());
    assert_eq!(off.total_samples_seen, 50);
}

#[test]
fn status_tells_what_is_awaited() {
    let mut vad: VadState<u8> = VadState::new(VadBackend::Silero, 20);
    assert_eq!(vad.status_label(false, "0.4", "1.0"), "（Silero·等待语音）");
    vad.last_segment_samples = 6_400;
    assert_eq!(vad.status_label(true, "0.4", "1.0"), "（Silero·检测中 · 最近 0.4s）");
    let mut rms: VadState<u8> = VadState::new(VadBackend::Rms, 20);
    assert_eq!(rms.status_label(true, "0.4", "1.0"), "（RMS·等待语音）");
    rms.push(&[1; 5], true, vec![]);
    rms.last_segment_samples = 1;
    assert_eq!(rms.status_label(true, "0.4", "1.0"), "（RMS·检测中 1.0s · 最近 0.4s）");
    let off: VadState<u8> = VadState::new(VadBackend::Disabled, 20);
    assert_eq!(off.status_label(true, "0.4", "1.0"), "（离线 VAD 未启用）");
}

#[test]
fn report_names_the_settings() {
    let mut vad: VadState<u8> = VadState::new(VadBackend::Silero, 20);
    let mut out = "x".to_string();
    vad.append_report(&mut out, &report_texts());
    assert_eq!(
        out,
        "x\n## VAD\n\n- backend: silero\n- sample_rate: 16000\n- segments: 0\n\
         - silero_model: /m/silero.onnx\n- silero_threshold: 0.5\n\
         - silero_min_silence_sec: 0.5\n- silero_min_speech_sec: 0.25\n\
         - silero_max_speech_sec: 8\n- silero_window_size: 512\n- silero_buffer_sec: 10\n"
    );
    vad = VadState::new(VadBackend::Rms, 20);
    vad.segment_count = 3;
    vad.last_segment_start_sample = Some(24_000);
    let mut out = String::new();
    vad.append_report(&mut out, &report_texts());
    assert_eq!(
        out,
        "\n## VAD\n\n- backend: rms\n- sample_rate: 16000\n- segments: 3\n\
         - last_segment: start=1.500s len=0.400s\n\
         - rms_threshold: 0.012\n- rms_silence_sec: 0.4\n- rms_max_buffer_sec: 8\n"
    );
}
