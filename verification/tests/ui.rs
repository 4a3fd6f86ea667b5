use asr_compare_tui::app::App;
use asr_compare_tui::capture::DevicePick;
use asr_compare_tui::engine::offline::{decode_offline_segment, OfflineSlot};
use asr_compare_tui::engine::online::{feed_online_frame, FrameReply, OnlineSlot};
use asr_compare_tui::engine::{AnySlot, SlotView};
use asr_compare_tui::media::{MediaState, SubtitleCue};
use asr_compare_tui::models::{model_descs, OfflineFamily};
use asr_compare_tui::system_audio::OutputDevice;
use asr_compare_tui::ui::devices::{
    error_lines, level_line, region_height, DeviceResult, DeviceScreen, PreviewResult,
    PreviewScreen, SampleFile,
};
use asr_compare_tui::ui::keys::{digit_index, is_confirm, is_leave, Key};
use asr_compare_tui::ui::layout::{
    device_areas, device_rows, framed_rows, main_rows, media_columns, pair_of, preview_areas,
    preview_rows, rows_of, screen_areas, screen_of, selection_areas, selection_rows, slot_columns,
    slot_rows, split_rows, split_two, Along, Area, ColumnAreas, DeviceAreas, PreviewAreas,
    SelectionAreas, Share,
};
use asr_compare_tui::ui::render::{draw, log_lines, DrawTexts};
use asr_compare_tui::ui::selection::{loading_message, SelectionResult, SelectionScreen};
use asr_compare_tui::ui::style::{Color, Line, Lines, Style};
use asr_compare_tui::vad::{VadBackend, VadState};

fn text_of_line(line: &Line) -> String {
    line.spans.iter().map(|s| s.text.as_str()).collect()
}

fn texts(lines: &Lines) -> Vec<String> {
    lines.lines.iter().map(text_of_line).collect()
}

fn selection(available: &[bool]) -> SelectionScreen {
    SelectionScreen::new(model_descs(), available.to_vec())
}

#[test]
fn keys_are_told_apart() {
    assert!(is_leave(Key::Char('q')));
    assert!(is_leave(Key::Esc));
    assert!(!is_leave(Key::Enter));
    assert!(is_confirm(Key::Enter));
    assert!(is_confirm(Key::Char('\n')));
    assert!(is_confirm(Key::Char('\r')));
    assert!(!is_confirm(Key::Char(' ')));
    assert_eq!(digit_index(Key::Char('1')), Some(0));
    assert_eq!(digit_index(Key::Char('9')), Some(8));
    assert_eq!(digit_index(Key::Char('0')), None);
    assert_eq!(digit_index(Key::Up), None);
}

#[test]
fn models_without_a_stream_are_chosen_at_first() {
    let screen = selection(&[true, true, true, true, true, false]);
    assert_eq!(screen.selected, vec![false, false, false, false, true, false]);
    let screen = selection(&[true, true, true, true, false, false]);
    assert_eq!(screen.selected, vec![true, true, true, true, false, false]);
}

#[test]
fn models_are_chosen_by_digits() {
    let mut screen = selection(&[true, true, true, true, true, false]);
    assert!(matches!(screen.on_key(Key::Char('6')), SelectionResult::Stay));
    assert!(!screen.selected[5]);
    screen.on_key(Key::Char('1'));
    screen.on_key(Key::Char('7'));
    screen.on_key(Key::Char('e'));
    match screen.on_key(Key::Enter) {
        SelectionResult::Chosen { indices, config } => {
            assert_eq!(indices, vec![0, 4]);
            assert_eq!(config.map(|c| c.name), Some("加强版Zipformer-en"));
        }
        _ => panic!("expected a choice"),
    }
    screen.on_key(Key::Char('1'));
    screen.on_key(Key::Char('5'));
    assert!(matches!(screen.on_key(Key::Enter), SelectionResult::Stay));
    assert!(matches!(screen.on_key(Key::Esc), SelectionResult::Quit));
    screen.on_key(Key::Char('e'));
    screen.on_key(Key::Char('2'));
    assert!(matches!(
        screen.on_key(Key::Char('\r')),
        SelectionResult::Chosen { config: None, .. }
    ));
}

#[test]
fn choice_of_models_is_shown() {
    let mut screen = selection(&[true, true, true, true, true, false]);
    let lines = screen.lines();
    let shown = texts(&lines);
    assert_eq!(shown.len(), 8);
    assert_eq!(shown[0], " 1 [ ] Zipformer-zh (中文/流式)");
    assert_eq!(shown[4], " 5 [x] Canary-180m-flash (英文/离线+VAD)");
    assert_eq!(
        shown[5],
        " 6     Parakeet-TDT-CTC-110M (英文/离线+VAD)  (未下载: ./scripts/download-parakeet-tdt-ctc-110m.sh)"
    );
    assert_eq!(shown[6], "");
    assert_eq!(shown[7], " 1-9 勾选模型 · e 切换切句配置 · Enter 确认 · q 退出 ");
    assert_eq!(lines.lines[5].spans[1].style, Style { fg: Some(Color::DarkGray), bold: false });
    assert_eq!(lines.lines[4].spans[1].style, Style { fg: Some(Color::Green), bold: false });
    assert_eq!(screen.config_panel_height(), 8);
    assert_eq!(screen.hint().text, " 将加载 1 个引擎（模型较大，加载需几秒）");
    assert_eq!(texts(&screen.config_panel())[3], "    Sherpa rule1=2.4s rule2=1.2s rule3=20s");
    screen.on_key(Key::Char('e'));
    assert_eq!(
        screen.hint().text,
        " 将加载 1 个引擎 · 加强版Zipformer-en（模型较大，加载需几秒）"
    );
    let panel = screen.config_panel();
    assert_eq!(panel.count(), 5);
    assert_eq!(texts(&panel)[1], " [x] 加强版Zipformer-en");
    assert!(panel.lines[1].spans[0].style.bold);
    screen.on_key(Key::Char('5'));
    assert_eq!(screen.hint().text, " 请至少选择一个引擎");
    let descs = model_descs().into_iter().skip(4).collect();
    let offline = SelectionScreen::new(descs, vec![true, true]);
    assert_eq!(offline.config_panel_height(), 0);
    assert!(!offline.has_any_online());
    let names = vec!["A".to_string(), "B".to_string()];
    assert_eq!(loading_message(&names), " 正在加载: A, B ... ");
}

fn devices() -> DeviceScreen {
    DeviceScreen::new(
        vec!["Mic".to_string()],
        vec![OutputDevice { id: 1, name: "Speaker".to_string(), uid: "spk".to_string() }],
        vec![SampleFile { path: "/x/a.mp3".to_string(), name: "a.mp3".to_string() }],
    )
}

#[test]
fn cursor_runs_through_all_sources() {
    let mut screen = devices();
    screen.on_key(Key::Up);
    assert_eq!(screen.cursor, 0);
    assert!(matches!(screen.on_key(Key::Enter),
        DeviceResult::Picked(DevicePick::Input(name)) if name == "Mic"));
    screen.on_key(Key::Down);
    assert!(matches!(screen.on_key(Key::Enter),
        DeviceResult::Picked(DevicePick::Output(uid)) if uid == "spk"));
    screen.on_key(Key::Down);
    screen.on_key(Key::Down);
    assert_eq!(screen.cursor, 2);
    assert!(matches!(screen.on_key(Key::Enter),
        DeviceResult::Picked(DevicePick::SampleFile(path)) if path == "/x/a.mp3"));
    assert!(matches!(screen.on_key(Key::Char('q')), DeviceResult::Back));
    let mut none = DeviceScreen::new(vec![], vec![], vec![]);
    assert!(matches!(none.on_key(Key::Enter), DeviceResult::Stay));
    none.on_key(Key::Down);
    assert_eq!(none.cursor, 0);
}

#[test]
fn sources_are_shown() {
    let mut screen = devices();
    screen.on_key(Key::Down);
    assert_eq!(texts(&screen.input_lines()), vec!["   [I1] Mic"]);
    assert_eq!(texts(&screen.output_lines()), vec![" ▸ [O1] Speaker"]);
    assert_eq!(texts(&screen.sample_lines()), vec!["   [F1] a.mp3  直接送入 ASR"]);
    assert!(screen.output_lines().lines[0].spans[2].style.bold);
    assert_eq!(screen.hint().text, " ↑/↓ 移动 · Enter 选中并预览 · q 返回 ");
    let none = DeviceScreen::new(vec![], vec![], vec![]);
    assert_eq!(texts(&none.input_lines()), vec![" （无可用输入设备）"]);
    assert_eq!(texts(&none.output_lines()), vec![" （无可用输出设备）"]);
    assert_eq!(texts(&none.sample_lines()), vec![" （未找到默认示例 mp3）"]);
    assert_eq!(none.hint().text, " 无可用采集源，请检查麦克风/扬声器或默认 mp3 · q 返回");
    assert_eq!(region_height(0), 3);
    assert_eq!(region_height(1), 3);
    assert_eq!(region_height(4), 6);
}

#[test]
fn sources_are_tried_out() {
    let pick = DevicePick::Output("spk".to_string());
    let mut screen = PreviewScreen::new(pick, "输出端 / Speaker".to_string(), 10);
    assert!(!screen.shows_tcc_hint(3_000_000_009));
    assert!(screen.shows_tcc_hint(3_000_000_010));
    assert_eq!(texts(&screen.lines(0)).len(), 3);
    assert_eq!(texts(&screen.lines(u64::MAX)).len(), 6);
    assert_eq!(texts(&screen.lines(0))[0], " 选中源：输出端 / Speaker");
    screen.on_frame();
    assert!(!screen.shows_tcc_hint(u64::MAX));
    assert_eq!(screen.on_key(Key::Enter), PreviewResult::Enter);
    assert_eq!(screen.on_key(Key::Esc), PreviewResult::Back);
    assert_eq!(screen.on_key(Key::Up), PreviewResult::Stay);
    let pick = DevicePick::SampleFile("/x/a.mp3".to_string());
    let file = PreviewScreen::new(pick, "f".to_string(), 0);
    assert_eq!(file.on_key(Key::Enter), PreviewResult::Enter);
    assert_eq!(file.on_key(Key::Esc), PreviewResult::Back);
    assert!(!file.shows_tcc_hint(u64::MAX));
    let level = text_of_line(&level_line(3, "0.0123"));
    assert_eq!(level, format!(" {}{}  RMS 0.0123", "█".repeat(3), "░".repeat(27)));
    assert_eq!(text_of_line(&level_line(99, "1.0000")).matches('█').count(), 30);
    assert_eq!(
        texts(&error_lines("Mic", "busy")),
        vec![" 启动采集失败：Mic ", "", "busy", "", " 按任意键返回重选 "]
    );
}

#[test]
fn areas_are_divided() {
    let area = Area { x: 0, y: 0, width: 100, height: 40 };
    let rows = split_rows(area, &main_rows());
    assert_eq!(rows.top, Area { x: 0, y: 0, width: 100, height: 3 });
    assert_eq!(rows.middle, Area { x: 0, y: 3, width: 100, height: 31 });
    assert_eq!(rows.bottom, Area { x: 0, y: 34, width: 100, height: 6 });
    let (left, right) = split_two(Along::Horizontal, area, &media_columns());
    assert_eq!(left, Area { x: 0, y: 0, width: 34, height: 40 });
    assert_eq!(right, Area { x: 34, y: 0, width: 66, height: 40 });
    let areas = screen_areas(area, true, 3);
    assert!(areas.media.is_some());
    assert_eq!(areas.columns.len(), 3);
    assert_eq!(areas.columns[0].partial.height, 5);
    assert_eq!(areas.columns[2].finals.x, areas.columns[2].partial.x);
    assert_eq!(screen_areas(area, false, 0).columns.len(), 0);
    assert_eq!(slot_columns(0), vec![Share::Ratio(1, 1)]);
    assert_eq!(slot_columns(2), vec![Share::Ratio(1, 2), Share::Ratio(1, 2)]);
    assert_eq!(slot_rows(), vec![Share::Length(5), Share::Min(5)]);
    assert_eq!(framed_rows(14), vec![Share::Length(3), Share::Min(14), Share::Length(3)]);
    assert_eq!(selection_rows(8), vec![Share::Min(6), Share::Length(8)]);
    assert_eq!(device_rows(3, 4, 5), vec![Share::Length(3), Share::Length(4), Share::Min(5)]);
    assert_eq!(preview_rows(), vec![Share::Length(7), Share::Length(3), Share::Min(1)]);
}

#[test]
fn divided_areas_stay_inside() {
    for (width, height) in [(0, 0), (1, 1), (7, 3), (200, 60), (65_535, 2)] {
        let area = Area { x: 5, y: 9, width, height };
        for slots in 0..5 {
            let areas = screen_areas(area, slots % 2 == 0, slots);
            let mut all = vec![areas.top, areas.log];
            all.extend(areas.media);
            all.extend(areas.columns.iter().map(|c| c.partial));
            all.extend(areas.columns.iter().map(|c| c.finals));
            for a in all {
                assert!(a.x >= area.x && a.y >= area.y);
                assert!(a.x as u32 + a.width as u32 <= area.x as u32 + area.width as u32);
                assert!(a.y as u32 + a.height as u32 <= area.y as u32 + area.height as u32);
            }
        }
    }
}

fn area_at(n: u16) -> Area {
    Area { x: n, y: n + 1, width: n + 2, height: n + 3 }
}

#[test]
fn parts_are_put_in_their_places() {
    let parts = [area_at(1), area_at(2), area_at(3)];
    let rows = rows_of(&parts);
    assert_eq!((rows.top, rows.middle, rows.bottom), (area_at(1), area_at(2), area_at(3)));
    assert_eq!(pair_of(&parts[1..]), (area_at(2), area_at(3)));

    let columns = vec![(area_at(6), area_at(7)), (area_at(8), area_at(9))];
    let screen = screen_of(rows, Some((area_at(4), area_at(5))), columns);
    assert_eq!((screen.top, screen.log), (area_at(1), area_at(3)));
    assert_eq!(screen.media, Some(area_at(4)));
    assert_eq!(
        screen.columns,
        vec![
            ColumnAreas { partial: area_at(6), finals: area_at(7) },
            ColumnAreas { partial: area_at(8), finals: area_at(9) },
        ]
    );
    let screen = screen_of(rows, None, vec![]);
    assert_eq!(screen.media, None);
    assert!(screen.columns.is_empty());
}

/// The area of some rows across a screen of 80 columns.
fn band(y: u16, height: u16) -> Area {
    Area { x: 0, y, width: 80, height }
}

#[test]
fn shares_get_what_they_ask_for() {
    let rows = split_rows(band(2, 30), &[Share::Min(4), Share::Length(7), Share::Min(12)]);
    assert_eq!((rows.top.height, rows.middle.height, rows.bottom.height), (11, 7, 12));
    let rows = split_rows(band(2, 30), &[Share::Length(4), Share::Length(7), Share::Length(9)]);
    assert_eq!((rows.top.height, rows.middle.height, rows.bottom.height), (4, 7, 9));
    let rows = split_rows(band(2, 15), &[Share::Length(4), Share::Min(13), Share::Length(0)]);
    assert_eq!((rows.top.height, rows.middle.height, rows.bottom.height), (2, 13, 0));
    let rows = split_rows(band(2, 9), &[Share::Length(4), Share::Min(13), Share::Length(6)]);
    assert_eq!((rows.top.height, rows.middle.height, rows.bottom.height), (0, 9, 0));

    let area = Area { x: 5, y: 0, width: 25, height: 1 };
    let widths = |shares: [Share; 2]| {
        let (left, right) = split_two(Along::Horizontal, area, &shares);
        (left.width, right.width)
    };
    assert_eq!(widths([Share::Percentage(34), Share::Percentage(66)]), (9, 16));
    assert_eq!(widths([Share::Percentage(66), Share::Percentage(34)]), (17, 8));
    assert_eq!(widths([Share::Percentage(50), Share::Percentage(50)]), (13, 12));
    assert_eq!(widths([Share::Percentage(10), Share::Percentage(20)]), (3, 5));
}

#[test]
fn the_main_screen_has_room_for_everything() {
    let screen = screen_areas(Area { x: 0, y: 0, width: 100, height: 40 }, true, 3);
    assert_eq!(screen.top, Area { x: 0, y: 0, width: 100, height: 3 });
    assert_eq!(screen.log, Area { x: 0, y: 34, width: 100, height: 6 });
    assert_eq!(screen.media, Some(Area { x: 0, y: 3, width: 34, height: 31 }));
    for (i, column) in screen.columns.iter().enumerate() {
        let x = 34 + 22 * i as u16;
        assert_eq!(column.partial, Area { x, y: 3, width: 22, height: 5 });
        assert_eq!(column.finals, Area { x, y: 8, width: 22, height: 26 });
    }

    let screen = screen_areas(band(0, 17), false, 3);
    assert_eq!((screen.top.height, screen.log.y, screen.log.height), (3, 11, 6));
    let begins: Vec<u16> = screen.columns.iter().map(|c| c.partial.x).collect();
    assert_eq!(begins, vec![0, 27, 53]);
    assert_eq!(screen.columns[0].partial.height, 3);
    assert_eq!(screen.columns[0].finals.height, 5);

    let screen = screen_areas(band(0, 6), false, 1);
    assert_eq!((screen.top.height, screen.log.height), (0, 0));
    assert_eq!((screen.columns[0].partial.height, screen.columns[0].finals.height), (1, 5));
}

#[test]
fn the_columns_are_equally_wide() {
    for width in [0, 1, 7, 80, 201, 65_535] {
        for slots in [1, 2, 3, 6, 7, 30] {
            let screen = screen_areas(Area { x: 0, y: 0, width, height: 30 }, false, slots);
            for column in &screen.columns {
                let share = width as usize / slots;
                let got = column.partial.width as usize;
                assert!(share <= got && got <= share + 1, "{width} {slots} {got}");
            }
        }
    }
}

#[test]
fn the_other_screens_are_divided() {
    assert_eq!(
        selection_areas(band(0, 30), 8),
        SelectionAreas {
            title: band(0, 3),
            list: band(3, 16),
            panel: band(19, 8),
            foot: band(27, 3),
        }
    );
    assert_eq!(selection_areas(band(0, 30), 0).list, band(3, 24));
    assert_eq!(selection_areas(band(0, 9), 8).list.height, 6);
    assert_eq!(
        device_areas(band(0, 30), 4, 5, 3),
        DeviceAreas {
            title: band(0, 3),
            inputs: band(3, 4),
            outputs: band(7, 5),
            samples: band(12, 15),
            foot: band(27, 3),
        }
    );
    assert_eq!(device_areas(band(0, 16), 40, 0, 3).inputs, band(3, 7));
    assert_eq!(
        preview_areas(band(1, 20)),
        PreviewAreas { info: band(1, 7), level: band(8, 3), hint: band(11, 10) }
    );
}

/// The rows of an area follow each other, and fill it if `fills`.
fn assert_rows(area: Area, shares: &[Share], fills: bool) {
    let rows = split_rows(area, shares);
    assert_eq!(rows.top.y, area.y);
    assert_eq!(rows.middle.y, rows.top.y + rows.top.height);
    assert_eq!(rows.bottom.y, rows.middle.y + rows.middle.height);
    if fills {
        assert_eq!(rows.bottom.y + rows.bottom.height, area.y.saturating_add(area.height));
    }
}

/// The two parts of an area follow each other, and fill it if `fills`.
fn assert_pair(area: Area, shares: &[Share], fills: bool) {
    let (left, right) = split_two(Along::Horizontal, area, shares);
    assert_eq!(left.x, area.x);
    assert_eq!(right.x, left.x + left.width);
    if fills {
        assert_eq!(right.x + right.width, area.x.saturating_add(area.width));
    }
}

#[test]
fn divided_rows_leave_no_gap() {
    let sizes: Vec<u16> = (0..40).chain([97, 1_000, 40_001, 65_535]).collect();
    for at in [0, 1, 33, 60_000, 65_535] {
        for &height in &sizes {
            let area = Area { x: at, y: at, width: 10, height };
            assert_rows(area, &main_rows(), true);
            assert_rows(area, &framed_rows(14), true);
            assert_rows(area, &device_rows(5, 6, 3), true);
            assert_rows(area, &preview_rows(), true);
            assert_rows(area, &[Share::Min(2), Share::Min(9), Share::Min(1)], true);
            assert_rows(area, &[Share::Min(0), Share::Length(7), Share::Min(4)], true);
            assert_rows(area, &[Share::Length(2), Share::Length(9), Share::Length(1)], false);
        }
    }
}

#[test]
fn divided_pairs_leave_no_gap() {
    let sizes: Vec<u16> = (0..60).chain([97, 1_000, 40_001, 65_535]).collect();
    for at in [0, 7, 60_000, 65_535] {
        for &width in &sizes {
            let area = Area { x: at, y: at, width, height: 10 };
            assert_pair(area, &media_columns(), true);
            assert_pair(area, &[Share::Percentage(50), Share::Percentage(50)], true);
            assert_pair(area, &[Share::Percentage(33), Share::Percentage(33)], false);
            assert_pair(area, &[Share::Percentage(101), Share::Percentage(7)], true);
            assert_pair(area, &[Share::Percentage(0), Share::Percentage(300)], true);
            assert_pair(area, &slot_rows(), true);
            assert_pair(area, &selection_rows(8), true);
            assert_pair(area, &[Share::Min(3), Share::Min(20)], true);
            assert_pair(area, &slot_columns(2), true);
        }
    }
}

/// The main screen leaves no gap between its parts and fills the area.
fn assert_screen(area: Area, has_media: bool, slots: usize) {
    let screen = screen_areas(area, has_media, slots);
    let top_end = screen.top.y + screen.top.height;
    assert_eq!(screen.top.y, area.y);
    assert_eq!(screen.log.y + screen.log.height, area.y.saturating_add(area.height));
    let mut x = area.x;
    assert_eq!(screen.media.is_some(), has_media);
    if let Some(media) = screen.media {
        assert_eq!((media.x, media.y), (area.x, top_end));
        assert_eq!(media.y + media.height, screen.log.y);
        x = media.x + media.width;
    }
    for column in &screen.columns {
        assert_eq!((column.partial.x, column.partial.y), (x, top_end));
        assert_eq!(column.finals.x, column.partial.x);
        assert_eq!(column.finals.width, column.partial.width);
        assert_eq!(column.finals.y, column.partial.y + column.partial.height);
        assert_eq!(column.finals.y + column.finals.height, screen.log.y);
        x = column.partial.x + column.partial.width;
    }
    if slots > 0 {
        assert_eq!(x, area.x.saturating_add(area.width));
    }
}

#[test]
fn the_main_screen_leaves_no_gap() {
    for (x, y, width, height) in [
        (0, 0, 0, 0),
        (0, 0, 1, 1),
        (5, 9, 7, 3),
        (3, 1, 81, 25),
        (0, 0, 200, 60),
        (60_000, 65_000, 9_000, 900),
    ] {
        let area = Area { x, y, width, height };
        for slots in [0, 1, 2, 3, 4, 5, 7, 8] {
            assert_screen(area, slots % 2 == 0, slots);
            assert_screen(area, slots % 2 == 1, slots);
        }
    }
}

fn draw_texts() -> DrawTexts {
    DrawTexts {
        rms: "0.0100".to_string(),
        vad_detected: false,
        vad_last: "0.4".to_string(),
        vad_gathered: "0.1".to_string(),
        filled: 14,
    }
}

fn app() -> App<u8> {
    let mut online = OnlineSlot::new("Zipformer-en", None, 0);
    for text in ["first", "second"] {
        let reply = FrameReply {
            text: text.to_string(),
            final_text: Some(text.to_string()),
            voices: vec![],
        };
        feed_online_frame(&mut online, &reply, 0);
    }
    let reply = FrameReply { text: "third".to_string(), final_text: None, voices: vec![] };
    feed_online_frame(&mut online, &reply, 0);
    let mut offline = OfflineSlot::new("Canary-180m-flash", OfflineFamily::Canary);
    decode_offline_segment(&mut offline, 5, "");
    let cues = (0..30)
        .map(|i| SubtitleCue {
            index: i,
            start_ms: i as u64 * 1_000,
            end_ms: i as u64 * 1_000 + 900,
            text: format!("line {i}"),
        })
        .collect();
    let mut media = MediaState::new("a.mp3".to_string(), "a.srt".to_string(), cues, 0);
    media.set_position_ms(15_000, 0);
    media.last_report = Some("reports/r.md".to_string());
    App {
        slots: vec![AnySlot::Online(online), AnySlot::Offline(offline)],
        vad: VadState::new(VadBackend::Silero, 128_000),
        log: (0..7).map(|i| format!("log {i}")).collect(),
        started_at: 0,
        source_label: "输入端 / USB".to_string(),
        active_slot: 1,
        media: Some(media),
        sample_file_mode: true,
    }
}

#[test]
fn main_screen_is_drawn() {
    let mut a = app();
    let screen = draw(&a, &draw_texts());
    assert_eq!(
        text_of_line(&screen.title),
        " ASR Compare · ←/→ 选列 · ↑/↓ 滚动 · PgUp/PgDn 快速滚动 · q 退出 · c 清空 · 1-9 切换引擎 · 音频 RMS 0.0100 · 源:输入端 / USB"
    );
    assert_eq!(texts(&screen.log), vec!["log 6", "log 5", "log 4", "log 3", "log 2"]);
    assert_eq!(screen.columns.len(), 2);
    let first = &screen.columns[0];
    assert_eq!(first.title.text, " Zipformer-en ");
    assert_eq!(first.title.style, Style { fg: None, bold: true });
    assert_eq!(text_of_line(&first.partial), "partial: third");
    assert_eq!(texts(&first.finals), vec!["first", "", "second"]);
    assert_eq!(first.finals_title, " finals ");
    let second = &screen.columns[1];
    assert_eq!(second.title.style, Style { fg: Some(Color::Yellow), bold: true });
    assert_eq!(text_of_line(&second.partial), "vad: （Silero·等待语音）");
    assert_eq!(texts(&second.finals), vec!["（暂无 final）"]);
    assert_eq!(second.finals_title, " finals (active) ");
    a.slots[1].set_enabled(false);
    let screen = draw(&a, &draw_texts());
    assert_eq!(screen.columns[1].title.text, " Canary-180m-flash [关] ");
    assert_eq!(text_of_line(&screen.columns[1].partial), "partial: [已关闭]");
    a.media = None;
    assert!(draw(&a, &draw_texts()).media.is_none());
    assert!(texts(&log_lines(&[])).is_empty());
}

#[test]
fn media_is_drawn() {
    let mut a = app();
    let panel = draw(&a, &draw_texts()).media.unwrap_or_else(|| panic!("no panel"));
    assert_eq!(panel.title, " subtitles / sample file paused ");
    let shown = texts(&panel.lines);
    assert_eq!(shown[0], "time: 00:15 / 00:29");
    assert_eq!(shown[1], format!("{}{}", "█".repeat(14), "░".repeat(14)));
    assert_eq!(shown[2], "seek: h/l 10s · H/L 60s · space pause sample input · e report");
    assert_eq!(shown[3], "");
    assert_eq!(shown[4], "  00:07 line 7");
    assert_eq!(shown[12], "> 00:15 line 15");
    assert_eq!(shown[21], "  00:24 line 24");
    assert_eq!(shown[22], "");
    assert_eq!(shown[23], "report: reports/r.md");
    assert_eq!(shown.len(), 24);
    if let Some(m) = &mut a.media {
        m.cues.clear();
        m.last_report = None;
        m.playing = true;
    }
    a.sample_file_mode = false;
    let panel = draw(&a, &draw_texts()).media.unwrap_or_else(|| panic!("no panel"));
    assert_eq!(panel.title, " subtitles playing ");
    assert_eq!(texts(&panel.lines)[4], "未解析到字幕");
}
