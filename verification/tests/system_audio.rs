use asr_compare_tui::capture::{
    dedup_outputs, file_name_of, keep_inputs, preview_hint_for_pick, resolve_input, shown_name_of,
    DevicePick,
};
use asr_compare_tui::system_audio::status::{ensure_status, osstatus_to_string, warn_status};
use asr_compare_tui::system_audio::tap::{
    check_tap_format, describe_buffers, frame_ms, is_left_over, is_process_tap_supported,
    plan_aggregate, plan_mix, reports_drop, takes_block, teardown_steps, BufferShape, FormatError,
    TapFormat, TapPhase, TapResource, TapState, TeardownStep,
};
use asr_compare_tui::system_audio::watchdog::{is_all_zero, SilenceWatchdog};
use asr_compare_tui::system_audio::{
    list_output_devices, DeviceProbe, OutputDevice, SystemAudioTap,
};
use std::sync::atomic::{AtomicBool, Ordering};
use std::sync::Arc;

#[test]
fn watchdog_triggers_after_threshold_of_continuous_silence() {
    let mut watchdog = SilenceWatchdog::new(2_000);
    assert!(!watchdog.observe(false, 100));
    for _ in 0..19 {
        assert!(!watchdog.observe(true, 100));
    }
    assert!(watchdog.observe(true, 100));
}

#[test]
fn watchdog_ignores_initial_zero_frames_before_any_signal() {
    let mut watchdog = SilenceWatchdog::new(2_000);
    for _ in 0..30 {
        assert!(!watchdog.observe(true, 100));
    }
}

#[test]
fn watchdog_resets_on_any_signal() {
    let mut watchdog = SilenceWatchdog::new(2_000);
    for _ in 0..15 {
        watchdog.observe(true, 100);
    }
    assert!(!watchdog.observe(false, 100));
    for _ in 0..19 {
        assert!(!watchdog.observe(true, 100));
    }
}

#[test]
fn watchdog_tells_its_room() {
    let mut watchdog = SilenceWatchdog::new(5);
    watchdog.observe(true, u64::MAX - 1);
    assert!(watchdog.has_room(1));
    assert!(!watchdog.has_room(2));
}

#[test]
fn zeros_of_either_sign_are_zero() {
    assert!(is_all_zero(&[]));
    assert!(is_all_zero(&[0.0f32.to_bits(), (-0.0f32).to_bits()]));
    assert!(!is_all_zero(&[0.0f32.to_bits(), 1e-40f32.to_bits()]));
    assert!(!is_all_zero(&[f32::NAN.to_bits()]));
}

#[test]
fn status_is_spelled_if_it_prints() {
    assert_eq!(osstatus_to_string(0), "0");
    assert_eq!(osstatus_to_string(-50), "-50");
    assert_eq!(osstatus_to_string(0x216f_626a), "560947818 ('!obj')");
    assert_eq!(osstatus_to_string(0x2020_2020), "538976288 ('    ')");
    assert_eq!(osstatus_to_string(i32::MIN), "-2147483648");
}

#[test]
fn status_is_checked() {
    assert_eq!(ensure_status(0, "AudioDeviceStart"), Ok(()));
    assert_eq!(
        ensure_status(0x216f_626a, "AudioDeviceStart"),
        Err("AudioDeviceStart failed: osstatus=560947818 ('!obj')".to_string())
    );
    assert_eq!(warn_status(0), None);
    assert_eq!(warn_status(-1), Some("-1".to_string()));
}

#[test]
fn taps_need_a_recent_system() {
    assert!(is_process_tap_supported(14, 4));
    assert!(is_process_tap_supported(15, 0));
    assert!(!is_process_tap_supported(14, 3));
    assert!(!is_process_tap_supported(13, 9));
}

#[test]
fn failed_setup_releases_everything() {
    let mut phase = TapPhase::FindProcess;
    let mut steps = 0;
    while phase != TapPhase::Running {
        let (next, release) = phase.advance(true);
        assert!(release.is_empty());
        phase = next;
        steps += 1;
    }
    assert_eq!(steps, 6);
    assert_eq!(TapPhase::CreateTap.advance(false), (TapPhase::Failed, vec![]));
    assert_eq!(
        TapPhase::CreateAggregate.advance(false),
        (TapPhase::Failed, vec![TapResource::ProcessTap])
    );
    assert_eq!(
        TapPhase::ReadFormat.advance(false).1,
        vec![TapResource::AggregateDevice, TapResource::ProcessTap]
    );
    assert_eq!(
        TapPhase::StartDevice.advance(false).1,
        vec![
            TapResource::IoProc,
            TapResource::CallbackState,
            TapResource::AggregateDevice,
            TapResource::ProcessTap
        ]
    );
    assert_eq!(TapPhase::CreateIoProc.operation(), "AudioDeviceCreateIOProcID");
}

#[test]
fn teardown_stops_first() {
    assert_eq!(
        teardown_steps(true),
        vec![
            TeardownStep::MarkClosing,
            TeardownStep::StopDevice,
            TeardownStep::Release(TapResource::IoProc),
            TeardownStep::Leak(TapResource::CallbackState),
            TeardownStep::Release(TapResource::AggregateDevice),
            TeardownStep::Release(TapResource::ProcessTap),
        ]
    );
    assert_eq!(teardown_steps(false).len(), 5);
}

#[test]
fn aggregate_follows_the_chosen_output() {
    let plan = plan_aggregate(Some("uid-1"), Err("unused".to_string()), "tap".to_string());
    let plan = plan.unwrap_or_else(|e| panic!("{e}"));
    assert_eq!(plan.main_sub_device, "uid-1");
    assert_eq!(plan.tap_uid, "tap");
    assert_eq!(plan.uid, "com.arcvoice.capture");
    assert_eq!(plan.name, "ArcVoice Capture");
    let plan = plan_aggregate(None, Ok("default-uid".to_string()), "tap".to_string());
    assert_eq!(plan.map(|p| p.main_sub_device), Ok("default-uid".to_string()));
    let plan = plan_aggregate(None, Err("no default".to_string()), "tap".to_string());
    assert_eq!(plan.map(|p| p.uid), Err("no default".to_string()));
}

#[test]
fn left_over_devices_are_known_by_uid() {
    assert!(is_left_over(Some("com.arcvoice.capture")));
    assert!(!is_left_over(Some("BuiltInSpeaker")));
    assert!(!is_left_over(None));
}

fn good_format() -> TapFormat {
    TapFormat {
        rate_is_positive: true,
        rate: 48_000,
        channels: 2,
        format_id: 0x6c70_636d,
        format_flags: 9,
        bytes_per_frame: 8,
        bits_per_channel: 32,
    }
}

#[test]
fn formats_are_checked() {
    assert_eq!(check_tap_format(&good_format()), Ok(()));
    let f = TapFormat { channels: 0, ..good_format() };
    assert_eq!(check_tap_format(&f), Err(FormatError::Invalid));
    let f = TapFormat { rate_is_positive: false, ..good_format() };
    assert_eq!(check_tap_format(&f), Err(FormatError::Invalid));
    let f = TapFormat { format_flags: 12, ..good_format() };
    assert_eq!(check_tap_format(&f), Err(FormatError::NotFloatPcm));
    let f = TapFormat { format_id: 1, ..good_format() };
    assert_eq!(check_tap_format(&f), Err(FormatError::NotFloatPcm));
    let f = TapFormat { bits_per_channel: 16, ..good_format() };
    assert_eq!(check_tap_format(&f), Err(FormatError::NotFloatPcm));
    assert_eq!(FormatError::Invalid.message(), "tap returned invalid format: ");
}

fn shape(bytes: u32, channels: u32, all_zero: bool) -> BufferShape {
    BufferShape { has_data: true, bytes, channels, all_zero }
}

#[test]
fn one_buffer_is_mixed_alone() {
    let plan = plan_mix(&[shape(32, 0, false)], 2).unwrap_or_else(|| panic!("no plan"));
    assert_eq!(plan.parts.len(), 1);
    assert_eq!(plan.parts[0].channels, 2);
    assert_eq!(plan.frames, 4);
    assert_eq!(plan.total_channels, 2);
    assert!(!plan.all_zero);
}

#[test]
fn several_buffers_share_their_frames() {
    let buffers = [
        shape(40, 2, true),
        shape(0, 2, true),
        shape(12, 0, true),
        BufferShape { has_data: false, bytes: 40, channels: 1, all_zero: false },
    ];
    let plan = plan_mix(&buffers, 6).unwrap_or_else(|| panic!("no plan"));
    assert_eq!(plan.parts.iter().map(|p| p.buffer).collect::<Vec<_>>(), vec![0, 2]);
    assert_eq!(plan.parts[1].channels, 1);
    assert_eq!(plan.frames, 3);
    assert_eq!(plan.total_channels, 3);
    assert!(plan.all_zero);
    assert!(plan_mix(&[shape(4, 2, false)], 2).is_none());
    assert!(plan_mix(&[], 2).is_none());
}

#[test]
fn blocks_last_at_least_a_millisecond() {
    assert_eq!(frame_ms(480, 48_000), 10);
    assert_eq!(frame_ms(1, 48_000), 1);
    assert_eq!(frame_ms(3, 0), 3_000);
    assert_eq!(frame_ms(479, 48_000), 9);
}

#[test]
fn few_drops_are_reported() {
    assert!(reports_drop(1));
    assert!(!reports_drop(2));
    assert!(!reports_drop(249));
    assert!(reports_drop(250));
    assert!(reports_drop(500));
}

#[test]
fn stopped_recordings_take_no_blocks() {
    assert!(takes_block(false, false, 1));
    assert!(!takes_block(true, false, 1));
    assert!(!takes_block(false, true, 1));
    assert!(!takes_block(false, false, 0));
}

#[test]
fn buffers_are_described() {
    assert_eq!(
        describe_buffers(&[shape(16, 2, false), shape(3, 1, false)]),
        "#0:ch=2 bytes=16 samples=4 zero=false; #1:ch=1 bytes=3 samples=0 zero=true"
    );
    let many = vec![shape(4, 1, true); 12];
    assert!(describe_buffers(&many).ends_with("#7:ch=1 bytes=4 samples=1 zero=true"));
}

fn probe(id: u32, buffers: Option<u32>, uid: Option<&str>, name: Option<&str>) -> DeviceProbe {
    DeviceProbe {
        id,
        output_buffers: buffers,
        uid: uid.map(str::to_string),
        name: name.map(str::to_string),
    }
}

#[test]
fn only_devices_that_play_are_listed() {
    let probes = vec![
        probe(1, Some(0), Some("mic"), Some("Mic")),
        probe(2, Some(1), Some("spk"), Some("Speaker")),
        probe(3, None, Some("x"), Some("X")),
        probe(4, Some(2), None, Some("NoUid")),
        probe(5, Some(2), Some("y"), None),
        probe(6, Some(2), Some("bh"), Some("BlackHole 2ch")),
    ];
    let devices = list_output_devices(Ok(probes)).unwrap_or_else(|e| panic!("{e}"));
    let ids: Vec<u32> = devices.iter().map(|d| d.id).collect();
    assert_eq!(ids, vec![2, 6]);
    assert_eq!(devices[1].name, "BlackHole 2ch");
    assert_eq!(devices[1].uid, "bh");
    let failed = list_output_devices(Err("no devices".to_string()));
    assert_eq!(failed.map(|d| d.len()), Err("no devices".to_string()));
}

#[test]
fn tap_shares_its_flag_and_is_released_once() {
    let flag = Arc::new(AtomicBool::new(false));
    let mut tap = SystemAudioTap::new("objects", flag.clone());
    tap.needs_rebuild_flag().store(true, Ordering::Release);
    assert!(flag.load(Ordering::Acquire));
    assert_eq!(tap.take_objects(), Some("objects"));
    assert_eq!(tap.take_objects(), None);
}

fn device(name: &str, uid: &str) -> OutputDevice {
    OutputDevice { id: 7, name: name.to_string(), uid: uid.to_string() }
}

#[test]
fn outputs_of_one_name_are_listed_once() {
    let list = vec![
        device("A", "1"),
        device("A", "1"),
        device("B", "2"),
        device("A", "3"),
        device("C", "1"),
    ];
    let kept: Vec<(String, String)> =
        dedup_outputs(list).into_iter().map(|d| (d.name, d.uid)).collect();
    let expected = [("A", "1"), ("B", "2"), ("C", "1")];
    assert_eq!(kept, expected.map(|(n, u)| (n.to_string(), u.to_string())));
    assert!(dedup_outputs(vec![]).is_empty());
}

#[test]
fn nameless_inputs_are_dropped() {
    let names = vec!["Mic".to_string(), "  ".to_string(), String::new(), "USB".to_string()];
    assert_eq!(keep_inputs(names), vec!["Mic", "USB"]);
    assert_eq!(resolve_input(""), "default");
    assert_eq!(resolve_input("USB"), "USB");
}

#[test]
fn paths_end_with_a_name() {
    for (path, name) in [
        ("b.mp3", Some("b.mp3")),
        ("/a/b.mp3", Some("b.mp3")),
        ("/a/b/", Some("b")),
        ("a//./", Some("a")),
        ("../a", Some("a")),
        ("...", Some("...")),
        ("a/..", None),
        ("..", None),
        (".", None),
        ("./", None),
        ("/", None),
        ("", None),
    ] {
        assert_eq!(file_name_of(path).as_deref(), name, "{path}");
        assert_eq!(std::path::Path::new(path).file_name().and_then(|n| n.to_str()), name, "{path}");
    }
    assert_eq!(shown_name_of("/a/b.mp3"), "b.mp3");
    assert_eq!(shown_name_of("/"), "<unknown>");
}

#[test]
fn sources_have_labels() {
    let outputs = vec![device("Speaker", "spk"), device("BlackHole", "bh")];
    assert_eq!(DevicePick::Input("default".to_string()).label(&[], &outputs), "输入端 / 默认麦克风");
    assert_eq!(DevicePick::Input("USB".to_string()).label(&[], &outputs), "输入端 / USB");
    assert_eq!(DevicePick::Output("bh".to_string()).label(&[], &outputs), "输出端 / BlackHole");
    assert_eq!(DevicePick::Output("gone".to_string()).label(&[], &outputs), "输出端 / gone");
    assert_eq!(
        DevicePick::SampleFile("/a/b.mp3".to_string()).label(&[], &outputs),
        "示例文件 / b.mp3"
    );
    assert_eq!(
        DevicePick::SampleFile("/a/..".to_string()).label(&[], &outputs),
        "示例文件 / <unknown>"
    );
    assert_eq!(
        preview_hint_for_pick(&DevicePick::Output("x".to_string())),
        " 对着麦克风说话 / 播放声音，观察下方电平是否跳动"
    );
}

#[test]
fn running_tap_watches_its_blocks() {
    let mut state = TapState::new(&good_format());
    assert_eq!(state.channels, 2);
    let loud = [shape(480 * 8, 2, false)];
    let zero = [shape(48_000 * 8, 2, true)];
    assert!(state.fits(&loud));
    let out = state.on_block(false, false, &loud);
    assert_eq!(out.layout, Some("#0:ch=2 bytes=3840 samples=960 zero=false".to_string()));
    assert_eq!(out.mix.map(|m| m.frames), Some(480));
    assert!(!out.rebuild);
    assert!(!state.on_block(true, false, &zero).rebuild);
    assert_eq!(state.watchdog.accumulated_silent_ms, 0);
    let out = state.on_block(false, false, &zero);
    assert_eq!(out.layout, None);
    assert!(!out.rebuild);
    assert!(state.on_block(false, false, &zero).rebuild);
    assert!(state.on_block(false, false, &[shape(0, 2, true)]).mix.is_none());
    assert_eq!(state.on_drop(), Some(1));
    for _ in 2..250 {
        assert_eq!(state.on_drop(), None);
    }
    assert_eq!(state.on_drop(), Some(250));
    state.watchdog.accumulated_silent_ms = u64::MAX;
    assert!(!state.fits(&zero));
}
