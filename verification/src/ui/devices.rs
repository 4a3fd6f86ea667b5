//! The screens on which a source of audio is chosen and tried out.

use vstd::prelude::*;
use vstd::string::*;

use crate::capture;
use crate::capture::{DevicePick, PickView};
use crate::media;
use crate::number;
use crate::system_audio;
use crate::system_audio::{DeviceView, OutputDevice};
use crate::text;
use crate::ui::keys;
use crate::ui::keys::Key;
use crate::ui::style;
use crate::ui::style::{Color, Line, Lines, Span, SpanView, Style};

verus! {

/// A file to choose.
#[derive(Debug)]
pub struct SampleFile {
    pub path: String,
    /// What is shown of the path.
    pub name: String,
}

/// A file to choose, texts taken as sequences.
#[verifier::ext_equal]
pub struct SampleView {
    pub path: Seq<char>,
    pub name: Seq<char>,
}

impl View for SampleFile {
    type V = SampleView;

    open spec fn view(&self) -> SampleView {
        SampleView { path: self.path@, name: self.name@ }
    }
}

/// The files of a list.
pub open spec fn sample_views(list: Seq<SampleFile>) -> Seq<SampleView> {
    list.map_values(|s: SampleFile| s@)
}

/// The choice of a source as it stands. The cursor runs through microphones,
/// outputs and files as if they were one list.
pub struct DeviceScreen {
    pub inputs: Vec<String>,
    pub outputs: Vec<OutputDevice>,
    pub samples: Vec<SampleFile>,
    pub cursor: usize,
}

/// The choice, lists taken as sequences.
#[verifier::ext_equal]
pub struct DeviceScreenView {
    pub inputs: Seq<Seq<char>>,
    pub outputs: Seq<DeviceView>,
    pub samples: Seq<SampleView>,
    pub cursor: nat,
}

impl View for DeviceScreen {
    type V = DeviceScreenView;

    open spec fn view(&self) -> DeviceScreenView {
        DeviceScreenView {
            inputs: text::texts(self.inputs@),
            outputs: system_audio::device_views(self.outputs@),
            samples: sample_views(self.samples@),
            cursor: self.cursor as nat,
        }
    }
}

/// How many sources there are.
pub open spec fn source_count(v: DeviceScreenView) -> nat {
    v.inputs.len() + v.outputs.len() + v.samples.len()
}

/// The cursor is on a source, or there is none; sources can be counted.
pub open spec fn device_screen_ok(v: DeviceScreenView) -> bool {
    &&& source_count(v) <= usize::MAX
    &&& v.cursor < source_count(v) || v.cursor == 0
}

/// The source under the cursor.
pub open spec fn source_at(v: DeviceScreenView, cursor: nat) -> Option<PickView> {
    let i = cursor as int;
    let o = i - v.inputs.len();
    let s = o - v.outputs.len();
    if i < v.inputs.len() {
        Some(PickView::Input(v.inputs[i]))
    } else if o < v.outputs.len() {
        Some(PickView::Output(v.outputs[o].uid))
    } else if s < v.samples.len() {
        Some(PickView::SampleFile(v.samples[s].path))
    } else {
        None
    }
}

/// What a key does to the cursor.
pub open spec fn cursor_after(v: DeviceScreenView, key: Key) -> nat {
    if key == Key::Up && v.cursor > 0 {
        (v.cursor - 1) as nat
    } else if key == Key::Down && v.cursor + 1 < source_count(v) {
        v.cursor + 1
    } else {
        v.cursor
    }
}

/// What comes of a key.
pub enum DeviceResult {
    Stay,
    Back,
    Picked(DevicePick),
}

/// `r` is what comes of a key: a key that leaves goes back, one that confirms
/// picks what stands under the cursor.
pub open spec fn device_answers(v: DeviceScreenView, key: Key, r: DeviceResult) -> bool {
    match r {
        DeviceResult::Back => keys::leaves(key),
        DeviceResult::Picked(pick) => keys::confirms(key) && source_at(v, v.cursor) == Some(pick@),
        DeviceResult::Stay => !keys::leaves(key) && (keys::confirms(key) ==> source_at(
            v,
            v.cursor,
        ) is None),
    }
}

impl DeviceScreen {
    /// The choice among these sources, with the cursor on the first.
    pub fn new(inputs: Vec<String>, outputs: Vec<OutputDevice>, samples: Vec<SampleFile>) -> (r:
        DeviceScreen)
        requires
            inputs@.len() + outputs@.len() + samples@.len() <= usize::MAX,
        ensures
            r@ == (DeviceScreenView {
                inputs: text::texts(inputs@),
                outputs: system_audio::device_views(outputs@),
                samples: sample_views(samples@),
                cursor: 0,
            }),
            device_screen_ok(r@),
    {
        DeviceScreen { inputs, outputs, samples, cursor: 0 }
    }

    /// How many sources there are.
    pub fn total(&self) -> (r: usize)
        requires
            device_screen_ok(self@),
        ensures
            r == source_count(self@),
    {
        self.inputs.len() + self.outputs.len() + self.samples.len()
    }

    /// Takes a key.
    pub fn on_key(&mut self, key: Key) -> (r: DeviceResult)
        requires
            device_screen_ok(old(self)@),
        ensures
            final(self)@ == (DeviceScreenView {
                cursor: cursor_after(old(self)@, key),
                ..old(self)@
            }),
            device_screen_ok(final(self)@),
            device_answers(old(self)@, key, r),
    {
        if keys::is_leave(key) {
            return DeviceResult::Back;
        }
        if keys::is_confirm(key) {
            let ghost v = self@;
            let i: usize = self.cursor;
            let n: usize = self.inputs.len();
            let m: usize = self.outputs.len();
            if i < n {
                proof {
                    assert(v.inputs[i as int] == self.inputs@[i as int]@);
                }
                return DeviceResult::Picked(DevicePick::Input(self.inputs[i].clone()));
            }
            if i - n < m {
                proof {
                    assert(v.outputs[i - n] == self.outputs@[i - n]@);
                }
                return DeviceResult::Picked(DevicePick::Output(self.outputs[i - n].uid.clone()));
            }
            if i - n - m < self.samples.len() {
                proof {
                    assert(v.samples[i - n - m] == self.samples@[i - n - m]@);
                }
                return DeviceResult::Picked(
                    DevicePick::SampleFile(self.samples[i - n - m].path.clone()),
                );
            }
            return DeviceResult::Stay;
        }
        match key {
            Key::Up => {
                if self.cursor > 0 {
                    self.cursor = self.cursor - 1;
                }
            },
            Key::Down => {
                let total: usize = self.total();
                if self.cursor < total && self.cursor + 1 < total {
                    self.cursor = self.cursor + 1;
                }
            },
            _ => {},
        }
        DeviceResult::Stay
    }
}

// ─── What is shown ─────────────────────────────────────────────────────

/// The line of a source: a mark under the cursor, a tag, a name, and a note if
/// there is one.
pub open spec fn source_line(
    tag: Seq<char>,
    place: nat,
    name: Seq<char>,
    under_cursor: bool,
    note: Option<Seq<char>>,
) -> Seq<SpanView> {
    let line = seq![
        style::span(
            if under_cursor {
                " ▸ "@
            } else {
                "   "@
            },
            style::plain(),
        ),
        style::span("["@ + tag + number::dec(place + 1) + "] "@, style::colored(Color::Cyan)),
        style::span(
            name,
            if under_cursor {
                style::bold_colored(Color::Yellow)
            } else {
                style::plain()
            },
        ),
    ];
    match note {
        Some(n) => line.push(style::span(n, style::colored(Color::DarkGray))),
        None => line,
    }
}

/// The lines of sources of one kind, the first of which is at `base`.
pub open spec fn source_lines(
    tag: Seq<char>,
    names: Seq<Seq<char>>,
    base: nat,
    cursor: nat,
    note: Option<Seq<char>>,
) -> Seq<Seq<SpanView>> {
    Seq::new(
        names.len(),
        |i: int| source_line(tag, i as nat, names[i], base + i == cursor, note),
    )
}

/// The sources of one kind, or what is said if there are none.
pub open spec fn region_lines(
    tag: Seq<char>,
    names: Seq<Seq<char>>,
    base: nat,
    cursor: nat,
    note: Option<Seq<char>>,
    none: Seq<char>,
) -> Seq<Seq<SpanView>> {
    if names.len() == 0 {
        seq![seq![style::span(none, style::colored(Color::DarkGray))]]
    } else {
        source_lines(tag, names, base, cursor, note)
    }
}

/// The names of the outputs.
pub open spec fn output_names(outputs: Seq<DeviceView>) -> Seq<Seq<char>> {
    outputs.map_values(|d: DeviceView| d.name)
}

/// The names of the files.
pub open spec fn sample_names(samples: Seq<SampleView>) -> Seq<Seq<char>> {
    samples.map_values(|s: SampleView| s.name)
}

/// The region of the microphones.
pub open spec fn input_region(v: DeviceScreenView) -> Seq<Seq<SpanView>> {
    region_lines("I"@, v.inputs, 0, v.cursor, None, " （无可用输入设备）"@)
}

/// The region of the outputs.
pub open spec fn output_region(v: DeviceScreenView) -> Seq<Seq<SpanView>> {
    region_lines(
        "O"@,
        output_names(v.outputs),
        v.inputs.len(),
        v.cursor,
        None,
        " （无可用输出设备）"@,
    )
}

/// The region of the files.
pub open spec fn sample_region(v: DeviceScreenView) -> Seq<Seq<SpanView>> {
    region_lines(
        "F"@,
        sample_names(v.samples),
        v.inputs.len() + v.outputs.len(),
        v.cursor,
        Some("  直接送入 ASR"@),
        " （未找到默认示例 mp3）"@,
    )
}

/// What is said at the foot of the screen.
pub open spec fn device_hint(v: DeviceScreenView) -> SpanView {
    if source_count(v) == 0 {
        style::span(
            " 无可用采集源，请检查麦克风/扬声器或默认 mp3 · q 返回"@,
            style::colored(Color::Red),
        )
    } else {
        style::span(" ↑/↓ 移动 · Enter 选中并预览 · q 返回 "@, style::colored(Color::DarkGray))
    }
}

/// The height of a region with `n` sources, borders included.
pub open spec fn region_height_of(n: nat) -> nat {
    if n == 0 {
        3
    } else {
        n + 2
    }
}

/// The height of a region with `n` sources, borders included.
pub fn region_height(n: usize) -> (r: usize)
    requires
        n + 2 <= usize::MAX,
    ensures
        r == region_height_of(n as nat),
{
    if n == 0 {
        3
    } else {
        n + 2
    }
}

fn push_source(
    out: &mut Lines,
    tag: &str,
    place: usize,
    name: &str,
    under_cursor: bool,
    note: Option<&'static str>,
)
    requires
        place < usize::MAX,
    ensures
        final(out)@ == old(out)@.push(
            source_line(
                tag@,
                place as nat,
                name@,
                under_cursor,
                match note {
                    Some(n) => Some(n@),
                    None => None,
                },
            ),
        ),
{
    let mut line = Line::new();
    line.push(
        if under_cursor {
            " ▸ "
        } else {
            "   "
        },
        Style::plain(),
    );
    let mut label = "[".to_owned();
    label.append(tag);
    label.append(number::size_text(place + 1).as_str());
    label.append("] ");
    line.push(label.as_str(), Style::colored(Color::Cyan));
    line.push(
        name,
        if under_cursor {
            Style::bold_colored(Color::Yellow)
        } else {
            Style::plain()
        },
    );
    let ghost base = source_line(tag@, place as nat, name@, under_cursor, None);
    proof {
        assert(line@ =~= base);
    }
    if let Some(n) = note {
        line.push(n, Style::colored(Color::DarkGray));
    }
    out.push(line);
}

fn none_line(text: &str) -> (r: Lines)
    ensures
        r@ == seq![seq![style::span(text@, style::colored(Color::DarkGray))]],
{
    let mut out = Lines::new();
    out.push_text(text, Style::colored(Color::DarkGray));
    proof {
        assert(out@ =~= seq![seq![style::span(text@, style::colored(Color::DarkGray))]]);
    }
    out
}

impl DeviceScreen {
    /// The region of the microphones.
    pub fn input_lines(&self) -> (r: Lines)
        requires
            device_screen_ok(self@),
        ensures
            r@ == input_region(self@),
    {
        if self.inputs.len() == 0 {
            return none_line(" （无可用输入设备）");
        }
        let ghost all = source_lines("I"@, self@.inputs, 0, self@.cursor, None);
        let mut out = Lines::new();
        let mut i: usize = 0;
        proof {
            assert(out@ =~= all.take(0));
        }
        while i < self.inputs.len()
            invariant
                i <= self.inputs@.len(),
                all == source_lines("I"@, self@.inputs, 0, self@.cursor, None),
                out@ == all.take(i as int),
            decreases self.inputs@.len() - i,
        {
            proof {
                assert(self@.inputs[i as int] == self.inputs@[i as int]@);
                assert(all.take(i + 1) =~= out@.push(all[i as int]));
            }
            push_source(&mut out, "I", i, self.inputs[i].as_str(), i == self.cursor, None);
            i = i + 1;
        }
        proof {
            assert(all.take(i as int) =~= all);
        }
        out
    }

    /// The region of the outputs.
    pub fn output_lines(&self) -> (r: Lines)
        requires
            device_screen_ok(self@),
        ensures
            r@ == output_region(self@),
    {
        if self.outputs.len() == 0 {
            return none_line(" （无可用输出设备）");
        }
        let base: usize = self.inputs.len();
        let ghost names = output_names(self@.outputs);
        let ghost all = source_lines("O"@, names, base as nat, self@.cursor, None);
        let mut out = Lines::new();
        let mut i: usize = 0;
        proof {
            assert(out@ =~= all.take(0));
        }
        while i < self.outputs.len()
            invariant
                i <= self.outputs@.len(),
                base + self.outputs@.len() <= usize::MAX,
                names == output_names(self@.outputs),
                all == source_lines("O"@, names, base as nat, self@.cursor, None),
                out@ == all.take(i as int),
            decreases self.outputs@.len() - i,
        {
            proof {
                assert(names[i as int] == self.outputs@[i as int].name@);
                assert(all.take(i + 1) =~= out@.push(all[i as int]));
            }
            push_source(
                &mut out,
                "O",
                i,
                self.outputs[i].name.as_str(),
                base + i == self.cursor,
                None,
            );
            i = i + 1;
        }
        proof {
            assert(all.take(i as int) =~= all);
        }
        out
    }

    /// The region of the files.
    pub fn sample_lines(&self) -> (r: Lines)
        requires
            device_screen_ok(self@),
        ensures
            r@ == sample_region(self@),
    {
        if self.samples.len() == 0 {
            return none_line(" （未找到默认示例 mp3）");
        }
        let base: usize = self.inputs.len() + self.outputs.len();
        let ghost names = sample_names(self@.samples);
        let ghost note = Some("  直接送入 ASR"@);
        let ghost all = source_lines("F"@, names, base as nat, self@.cursor, note);
        let mut out = Lines::new();
        let mut i: usize = 0;
        proof {
            assert(out@ =~= all.take(0));
        }
        while i < self.samples.len()
            invariant
                i <= self.samples@.len(),
                base + self.samples@.len() <= usize::MAX,
                names == sample_names(self@.samples),
                note == Some("  直接送入 ASR"@),
                all == source_lines("F"@, names, base as nat, self@.cursor, note),
                out@ == all.take(i as int),
            decreases self.samples@.len() - i,
        {
            proof {
                assert(names[i as int] == self.samples@[i as int].name@);
                assert(all.take(i + 1) =~= out@.push(all[i as int]));
            }
            push_source(
                &mut out,
                "F",
                i,
                self.samples[i].name.as_str(),
                base + i == self.cursor,
                Some("  直接送入 ASR"),
            );
            i = i + 1;
        }
        proof {
            assert(all.take(i as int) =~= all);
        }
        out
    }

    /// What is said at the foot of the screen.
    pub fn hint(&self) -> (r: Span)
        requires
            device_screen_ok(self@),
        ensures
            r@ == device_hint(self@),
    {
        if self.total() == 0 {
            Span::new(
                " 无可用采集源，请检查麦克风/扬声器或默认 mp3 · q 返回",
                Style::colored(Color::Red),
            )
        } else {
            Span::new(" ↑/↓ 移动 · Enter 选中并预览 · q 返回 ", Style::colored(Color::DarkGray))
        }
    }
}

// ─── Trying a source out ───────────────────────────────────────────────

/// After how many nanoseconds without a frame the permission hint is shown.
pub const TCC_HINT_AFTER_NS: u64 = 3_000_000_000;

/// The cells of the level bar.
pub const LEVEL_BARS: usize = 30;

/// A source that is being tried out.
pub struct PreviewScreen {
    pub pick: DevicePick,
    pub label: String,
    pub received_frames: usize,
    pub started_at: u64,
}

/// What comes of a key.
#[derive(Clone, Copy, Debug, PartialEq, Eq, Structural)]
pub enum PreviewResult {
    Stay,
    /// Stop recording and go back.
    Back,
    /// Go on with this recording.
    Enter,
}

/// Whether the permission hint is shown: an output that has not delivered a
/// single frame for long.
pub open spec fn tcc_hint_due(pick: PickView, received: nat, started_at: u64, now: u64) -> bool {
    pick is Output && received == 0 && now - started_at >= TCC_HINT_AFTER_NS
}

/// What is shown of a source that is being tried out.
pub open spec fn preview_lines(label: Seq<char>, pick: PickView, tcc: bool) -> Seq<Seq<SpanView>> {
    let base = seq![
        seq![
            style::span(" 选中源："@, style::colored(Color::Cyan)),
            style::span(label, style::plain()),
        ],
        Seq::empty(),
        seq![style::span(capture::preview_hint(pick), style::colored(Color::DarkGray))],
    ];
    if tcc {
        base + seq![
            Seq::empty(),
            seq![
                style::span(
                    " 3 秒内仍未收到任何系统音频帧：若你是从终端 cargo run，macOS 可能在 TCC 层拒绝了 AudioCapture。"@,
                    style::colored(Color::Yellow),
                ),
            ],
            seq![
                style::span(
                    " 常见场景是终端宿主缺少 NSAudioCaptureUsageDescription；请改用带该键的 .app 宿主或先跑 diag_devices 核对。"@,
                    style::colored(Color::Yellow),
                ),
            ],
        ]
    } else {
        base
    }
}

/// The level of a source as a bar; `rms` is the level as text.
pub open spec fn level_line_of(filled: nat, rms: Seq<char>) -> Seq<SpanView> {
    let full = if filled > LEVEL_BARS {
        LEVEL_BARS as nat
    } else {
        filled
    };
    seq![
        style::span(" "@, style::plain()),
        style::span(media::repeated('█', full), style::colored(Color::Green)),
        style::span(
            media::repeated('░', (LEVEL_BARS - full) as nat),
            style::colored(Color::DarkGray),
        ),
        style::span("  RMS "@ + rms, style::plain()),
    ]
}

/// The level of a source as a bar of which `filled` cells are full; `rms` is
/// the level as text.
pub fn level_line(filled: usize, rms: &str) -> (r: Line)
    ensures
        r@ == level_line_of(filled as nat, rms@),
{
    let full: usize = if filled > LEVEL_BARS {
        LEVEL_BARS
    } else {
        filled
    };
    let mut line = Line::new();
    line.push(" ", Style::plain());
    line.push(media::repeat_char('█', full).as_str(), Style::colored(Color::Green));
    line.push(
        media::repeat_char('░', LEVEL_BARS - full).as_str(),
        Style::colored(Color::DarkGray),
    );
    let mut level = "  RMS ".to_owned();
    level.append(rms);
    line.push(level.as_str(), Style::plain());
    proof {
        assert(line@ =~= level_line_of(filled as nat, rms@));
    }
    line
}

/// What comes of a key while a source is listened to.
pub open spec fn preview_answer(key: Key) -> PreviewResult {
    if keys::leaves(key) {
        PreviewResult::Back
    } else if keys::confirms(key) {
        PreviewResult::Enter
    } else {
        PreviewResult::Stay
    }
}

impl PreviewScreen {
    /// A source that is tried out from `now` on.
    pub fn new(pick: DevicePick, label: String, now: u64) -> (r: PreviewScreen)
        ensures
            r.pick == pick,
            r.label == label,
            r.received_frames == 0,
            r.started_at == now,
    {
        PreviewScreen { pick, label, received_frames: 0, started_at: now }
    }

    /// Counts a frame.
    pub fn on_frame(&mut self)
        requires
            old(self).received_frames < usize::MAX,
        ensures
            *final(self) == (PreviewScreen {
                received_frames: (old(self).received_frames + 1) as usize,
                ..*old(self)
            }),
    {
        self.received_frames = self.received_frames + 1;
    }

    /// Whether the permission hint is shown at `now`.
    pub fn shows_tcc_hint(&self, now: u64) -> (r: bool)
        ensures
            r == tcc_hint_due(self.pick@, self.received_frames as nat, self.started_at, now),
    {
        let output = match &self.pick {
            DevicePick::Output(_) => true,
            _ => false,
        };
        output && self.received_frames == 0 && now >= self.started_at && now - self.started_at
            >= TCC_HINT_AFTER_NS
    }

    /// What is shown of the source.
    pub fn lines(&self, now: u64) -> (r: Lines)
        ensures
            r@ == preview_lines(
                self.label@,
                self.pick@,
                tcc_hint_due(self.pick@, self.received_frames as nat, self.started_at, now),
            ),
    {
        let mut out = Lines::new();
        let mut first = Line::new();
        first.push(" 选中源：", Style::colored(Color::Cyan));
        first.push(self.label.as_str(), Style::plain());
        proof {
            assert(first@ =~= seq![
                style::span(" 选中源："@, style::colored(Color::Cyan)),
                style::span(self.label@, style::plain()),
            ]);
        }
        out.push(first);
        out.push_blank();
        out.push_text(capture::preview_hint_for_pick(&self.pick), Style::colored(Color::DarkGray));
        if self.shows_tcc_hint(now) {
            out.push_blank();
            out.push_text(
                " 3 秒内仍未收到任何系统音频帧：若你是从终端 cargo run，macOS 可能在 TCC 层拒绝了 AudioCapture。",
                Style::colored(Color::Yellow),
            );
            out.push_text(
                " 常见场景是终端宿主缺少 NSAudioCaptureUsageDescription；请改用带该键的 .app 宿主或先跑 diag_devices 核对。",
                Style::colored(Color::Yellow),
            );
        }
        proof {
            assert(out@ =~= preview_lines(
                self.label@,
                self.pick@,
                tcc_hint_due(self.pick@, self.received_frames as nat, self.started_at, now),
            ));
        }
        out
    }

    /// Takes a key; a recording of any source is gone on with as it runs.
    pub fn on_key(&self, key: Key) -> (r: PreviewResult)
        ensures
            r == preview_answer(key),
    {
        if keys::is_leave(key) {
            return PreviewResult::Back;
        }
        if keys::is_confirm(key) {
            return PreviewResult::Enter;
        }
        PreviewResult::Stay
    }
}

// ─── A source that cannot be opened ────────────────────────────────────

/// What is shown if a source cannot be opened.
pub open spec fn error_lines_of(label: Seq<char>, err: Seq<char>) -> Seq<Seq<SpanView>> {
    seq![
        seq![style::span(" 启动采集失败："@ + label + " "@, style::bold_colored(Color::Red))],
        Seq::empty(),
        seq![style::span(err, style::plain())],
        Seq::empty(),
        seq![style::span(" 按任意键返回重选 "@, style::colored(Color::DarkGray))],
    ]
}

/// What is shown if the source `label` cannot be opened because of `err`.
pub fn error_lines(label: &str, err: &str) -> (r: Lines)
    ensures
        r@ == error_lines_of(label@, err@),
{
    let mut title = " 启动采集失败：".to_owned();
    title.append(label);
    title.append(" ");
    let mut out = Lines::new();
    out.push_text(title.as_str(), Style::bold_colored(Color::Red));
    out.push_blank();
    out.push_text(err, Style::plain());
    out.push_blank();
    out.push_text(" 按任意键返回重选 ", Style::colored(Color::DarkGray));
    proof {
        assert(out@ =~= error_lines_of(label@, err@));
    }
    out
}

// ─── Laws ──────────────────────────────────────────────────────────────

/// The cursor never leaves the sources, moves by at most one, and moving down
/// and up again brings it back.
pub proof fn law_cursor_stays_on_a_source(v: DeviceScreenView, key: Key)
    requires
        device_screen_ok(v),
    ensures
        device_screen_ok(DeviceScreenView { cursor: cursor_after(v, key), ..v }),
        source_count(v) > 0 ==> source_at(v, cursor_after(v, key)) is Some,
        v.cursor + 1 < source_count(v) ==> cursor_after(
            DeviceScreenView { cursor: cursor_after(v, Key::Down), ..v },
            Key::Up,
        ) == v.cursor,
{
}

/// Every source can be reached: it is what is picked with the cursor on its
/// place, and every place below the count has one.
pub proof fn law_every_source_has_a_place(v: DeviceScreenView, cursor: nat)
    ensures
        source_at(v, cursor) is Some <==> cursor < source_count(v),
{
}

/// The cursor runs through the microphones, then the outputs, then the files, and
/// what stands under it is picked: a microphone by its name, an output by its UID
/// and a file by its path.
pub proof fn law_cursor_picks_what_is_under_it(v: DeviceScreenView, i: int)
    ensures
        0 <= i < v.inputs.len() ==> source_at(v, i as nat) == Some(PickView::Input(v.inputs[i])),
        0 <= i < v.outputs.len() ==> source_at(v, v.inputs.len() + i as nat) == Some(
            PickView::Output(v.outputs[i].uid),
        ),
        0 <= i < v.samples.len() ==> source_at(v, v.inputs.len() + v.outputs.len() + i as nat)
            == Some(PickView::SampleFile(v.samples[i].path)),
{
}

/// Up and down move the cursor by one source and stop at the ends; no other key
/// moves it.
pub proof fn law_arrows_move_the_cursor(v: DeviceScreenView, c: char)
    requires
        device_screen_ok(v),
    ensures
        v.cursor > 0 ==> cursor_after(v, Key::Up) == v.cursor - 1,
        v.cursor == 0 ==> cursor_after(v, Key::Up) == 0,
        v.cursor + 1 < v.inputs.len() + v.outputs.len() + v.samples.len() ==> cursor_after(
            v,
            Key::Down,
        ) == v.cursor + 1,
        v.cursor + 1 >= v.inputs.len() + v.outputs.len() + v.samples.len() ==> cursor_after(
            v,
            Key::Down,
        ) == v.cursor,
        cursor_after(v, Key::Char(c)) == v.cursor && cursor_after(v, Key::Enter) == v.cursor,
{
}

/// Every source has its line with its number and its name, and exactly the line
/// under the cursor is marked; a region without sources says so.
pub proof fn law_sources_have_lines(v: DeviceScreenView, i: int)
    requires
        0 <= i,
    ensures
        i < v.inputs.len() ==> {
            let line = input_region(v)[i];
            &&& input_region(v).len() == v.inputs.len() && line.len() == 3
            &&& line[0].text == (if v.cursor == i {
                " ▸ "@
            } else {
                "   "@
            })
            &&& line[1].text == "["@ + "I"@ + number::dec((i + 1) as nat) + "] "@
            &&& line[2].text == v.inputs[i]
        },
        i < v.outputs.len() ==> {
            let line = output_region(v)[i];
            &&& output_region(v).len() == v.outputs.len() && line.len() == 3
            &&& line[0].text == (if v.cursor == v.inputs.len() + i {
                " ▸ "@
            } else {
                "   "@
            })
            &&& line[1].text == "["@ + "O"@ + number::dec((i + 1) as nat) + "] "@
            &&& line[2].text == v.outputs[i].name
        },
        i < v.samples.len() ==> {
            let line = sample_region(v)[i];
            &&& sample_region(v).len() == v.samples.len() && line.len() == 4
            &&& line[0].text == (if v.cursor == v.inputs.len() + v.outputs.len() + i {
                " ▸ "@
            } else {
                "   "@
            })
            &&& line[1].text == "["@ + "F"@ + number::dec((i + 1) as nat) + "] "@
            &&& line[2].text == v.samples[i].name
            &&& line[3].text == "  直接送入 ASR"@
        },
        v.inputs.len() == 0 ==> input_region(v).len() == 1 && input_region(v)[0][0].text
            == " （无可用输入设备）"@,
        v.outputs.len() == 0 ==> output_region(v).len() == 1 && output_region(v)[0][0].text
            == " （无可用输出设备）"@,
        v.samples.len() == 0 ==> sample_region(v).len() == 1 && sample_region(v)[0][0].text
            == " （未找到默认示例 mp3）"@,
{
}

/// A region is as high as its sources and its borders, and has a line even without
/// a source; without any source the foot says so.
pub proof fn law_region_is_as_high_as_its_sources(n: nat, v: DeviceScreenView)
    ensures
        n > 0 ==> region_height_of(n) == n + 2,
        region_height_of(0) == 3,
        v.inputs.len() + v.outputs.len() + v.samples.len() == 0 ==> device_hint(v).text
            == " 无可用采集源，请检查麦克风/扬声器或默认 mp3 · q 返回"@,
        v.inputs.len() + v.outputs.len() + v.samples.len() > 0 ==> device_hint(v).text
            == " ↑/↓ 移动 · Enter 选中并预览 · q 返回 "@,
{
}

/// The permission hint comes after three seconds without a single frame of an
/// output, and of nothing else.
pub proof fn law_permission_hint_comes_late(pick: PickView, received: nat, started: u64, now: u64)
    ensures
        tcc_hint_due(pick, received, started, now) <==> pick is Output && received == 0 && now
            >= started + 3_000_000_000,
{
}

/// What is shown of a source that is tried out: its label, what to do, and the
/// permission hint if it is due.
pub proof fn law_preview_shows_the_label(label: Seq<char>, pick: PickView, tcc: bool)
    ensures
        preview_lines(label, pick, tcc)[0][0].text == " 选中源："@,
        preview_lines(label, pick, tcc)[0][1].text == label,
        preview_lines(label, pick, tcc)[2][0].text == (if pick is SampleFile {
            " 正在把示例 mp3 解码为 16kHz mono PCM，并按实时速度送入 ASR"@
        } else {
            " 对着麦克风说话 / 播放声音，观察下方电平是否跳动"@
        }),
        preview_lines(label, pick, tcc).len() == (if tcc {
            6int
        } else {
            3
        }),
{
}

/// The level fills its bar of thirty cells from the left.
pub proof fn law_level_fills_the_bar(filled: nat, rms: Seq<char>)
    ensures
        ({
            let line = level_line_of(filled, rms);
            &&& line.len() == 4
            &&& line[1].text.len() + line[2].text.len() == 30
            &&& filled <= 30 ==> line[1].text.len() == filled
            &&& filled > 30 ==> line[1].text.len() == 30
            &&& forall|i: int| 0 <= i < line[1].text.len() ==> line[1].text[i] == '█'
            &&& forall|i: int| 0 <= i < line[2].text.len() ==> line[2].text[i] == '░'
            &&& line[3].text == "  RMS "@ + rms
        }),
{
}

/// A source that cannot be opened is named, and why.
pub proof fn law_error_names_the_source(label: Seq<char>, err: Seq<char>)
    ensures
        error_lines_of(label, err).len() == 5,
        error_lines_of(label, err)[0][0].text == " 启动采集失败："@ + label + " "@,
        error_lines_of(label, err)[2][0].text == err,
        error_lines_of(label, err)[4][0].text == " 按任意键返回重选 "@,
{
}

/// Enter picks the source under the cursor, if there is one; escape and `q` go
/// back, and the arrows stay on the screen.
pub proof fn law_enter_picks_and_escape_goes_back(v: DeviceScreenView, key: Key, r: DeviceResult)
    requires
        device_screen_ok(v),
        device_answers(v, key, r),
    ensures
        key == Key::Esc || key == Key::Char('q') ==> r is Back,
        key == Key::Enter && v.cursor < v.inputs.len() ==> r is Picked && r->Picked_0@
            == PickView::Input(v.inputs[v.cursor as int]),
        key == Key::Enter && v.inputs.len() + v.outputs.len() + v.samples.len() > 0 ==> r is Picked,
        key == Key::Enter && v.inputs.len() + v.outputs.len() + v.samples.len() == 0 ==> r is Stay,
        key == Key::Up || key == Key::Down || key == Key::Left || key == Key::Right ==> r is Stay,
{
}

/// While a source is listened to, enter takes it and escape goes back.
pub proof fn law_preview_is_taken_or_left(c: char)
    ensures
        preview_answer(Key::Enter) == PreviewResult::Enter,
        preview_answer(Key::Esc) == PreviewResult::Back,
        preview_answer(Key::Char('q')) == PreviewResult::Back,
        c != 'q' && c != '\n' && c != '\r' ==> preview_answer(Key::Char(c)) == PreviewResult::Stay,
        preview_answer(Key::Up) == PreviewResult::Stay,
        preview_answer(Key::Down) == PreviewResult::Stay,
        preview_answer(Key::Left) == PreviewResult::Stay,
        preview_answer(Key::Right) == PreviewResult::Stay,
{
}

} // verus!
