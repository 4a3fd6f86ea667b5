//! What the main screen shows.

use vstd::prelude::*;
use vstd::string::*;

use crate::app::{App, AppView};
use crate::engine;
use crate::engine::{AnySlot, AnyView, SlotView};
use crate::media;
use crate::media::{CueView, MediaState, MediaView};
use crate::text;
use crate::ui::style;
use crate::ui::style::{Color, Line, Lines, Span, SpanView, Style};
use crate::vad;

verus! {

/// How many lines of the log are shown.
pub const LOG_SHOWN: usize = 5;

/// The cells of the progress bar.
pub const PROGRESS_WIDTH: usize = 28;

/// How many subtitles before the current one are shown.
pub const CUES_ABOVE: usize = 8;

/// How many subtitles from the current one on are shown.
pub const CUES_BELOW: usize = 10;

// ─── Title and log ─────────────────────────────────────────────────────

/// The title: what keys do, the level as text, the source.
pub open spec fn title_spans(rms: Seq<char>, source: Seq<char>) -> Seq<SpanView> {
    let key = style::colored(Color::Yellow);
    let plain = style::plain();
    seq![
        style::span(" ASR Compare "@, style::bold()),
        style::span("· "@, plain),
        style::span("←/→"@, key),
        style::span(" 选列 · "@, plain),
        style::span("↑/↓"@, key),
        style::span(" 滚动 · "@, plain),
        style::span("PgUp/PgDn"@, key),
        style::span(" 快速滚动 · "@, plain),
        style::span("q"@, key),
        style::span(" 退出 · "@, plain),
        style::span("c"@, key),
        style::span(" 清空 · "@, plain),
        style::span("1-9"@, key),
        style::span(" 切换引擎 · "@, plain),
        style::span("音频 RMS "@ + rms, plain),
        style::span(" · 源:"@, plain),
        style::span(source, style::colored(Color::Cyan)),
    ]
}

/// The title: what keys do, the level as text, the source.
pub fn title_line(rms: &str, source: &str) -> (r: Line)
    ensures
        r@ == title_spans(rms@, source@),
{
    let key = Style::colored(Color::Yellow);
    let plain = Style::plain();
    let mut level = "音频 RMS ".to_owned();
    level.append(rms);
    let mut line = Line::new();
    line.push(" ASR Compare ", Style::bold());
    line.push("· ", plain);
    line.push("←/→", key);
    line.push(" 选列 · ", plain);
    line.push("↑/↓", key);
    line.push(" 滚动 · ", plain);
    line.push("PgUp/PgDn", key);
    line.push(" 快速滚动 · ", plain);
    line.push("q", key);
    line.push(" 退出 · ", plain);
    line.push("c", key);
    line.push(" 清空 · ", plain);
    line.push("1-9", key);
    line.push(" 切换引擎 · ", plain);
    line.push(level.as_str(), plain);
    line.push(" · 源:", plain);
    line.push(source, Style::colored(Color::Cyan));
    proof {
        assert(line@ =~= title_spans(rms@, source@));
    }
    line
}

/// The last lines of the log, the latest first.
pub open spec fn log_lines_of(log: Seq<Seq<char>>) -> Seq<Seq<SpanView>> {
    Seq::new(
        if log.len() < LOG_SHOWN {
            log.len()
        } else {
            LOG_SHOWN as nat
        },
        |i: int| seq![style::span(log[log.len() - 1 - i], style::plain())],
    )
}

/// The last lines of the log, the latest first.
pub fn log_lines(log: &[String]) -> (r: Lines)
    ensures
        r@ == log_lines_of(text::texts(log@)),
{
    let ghost all = log_lines_of(text::texts(log@));
    let n: usize = if log.len() < LOG_SHOWN {
        log.len()
    } else {
        LOG_SHOWN
    };
    let mut out = Lines::new();
    let mut i: usize = 0;
    proof {
        assert(out@ =~= all.take(0));
    }
    while i < n
        invariant
            i <= n <= log@.len(),
            n == all.len(),
            all == log_lines_of(text::texts(log@)),
            out@ == all.take(i as int),
        decreases n - i,
    {
        let at: usize = log.len() - 1 - i;
        proof {
            assert(text::texts(log@)[at as int] == log@[at as int]@);
            assert(all.take(i + 1) =~= out@.push(all[i as int]));
        }
        out.push_text(log[at].as_str(), Style::plain());
        i = i + 1;
    }
    proof {
        assert(all.take(n as int) =~= all);
    }
    out
}

// ─── Columns ───────────────────────────────────────────────────────────

/// The column of a recogniser.
pub struct Column {
    pub title: Span,
    /// What it is saying, or what it waits for.
    pub partial: Line,
    /// What it has said.
    pub finals: Lines,
    pub finals_title: &'static str,
    pub scroll: u16,
}

/// The column of a recogniser, texts taken as sequences.
#[verifier::ext_equal]
pub struct ColumnView {
    pub title: SpanView,
    pub partial: Seq<SpanView>,
    pub finals: Seq<Seq<SpanView>>,
    pub finals_title: Seq<char>,
    pub scroll: u16,
}

impl View for Column {
    type V = ColumnView;

    open spec fn view(&self) -> ColumnView {
        ColumnView {
            title: self.title@,
            partial: self.partial@,
            finals: self.finals@,
            finals_title: self.finals_title@,
            scroll: self.scroll,
        }
    }
}

/// The columns of a list.
pub open spec fn column_views(list: Seq<Column>) -> Seq<ColumnView> {
    list.map_values(|c: Column| c@)
}

/// The first `n` final texts with an empty line between them.
pub open spec fn finals_lines(finals: Seq<Seq<char>>, s: Style, n: nat) -> Seq<Seq<SpanView>>
    decreases n,
{
    if n == 0 {
        Seq::empty()
    } else if n == 1 {
        seq![seq![style::span(finals[0], s)]]
    } else {
        finals_lines(finals, s, (n - 1) as nat).push(Seq::empty()).push(
            seq![style::span(finals[n - 1], s)],
        )
    }
}

/// How the text of a slot looks: faint if it is switched off.
pub open spec fn slot_style(enabled: bool) -> Style {
    if enabled {
        style::plain()
    } else {
        style::colored(Color::DarkGray)
    }
}

/// How the title of a slot looks.
pub open spec fn slot_title_style(enabled: bool, active: bool) -> Style {
    if !enabled {
        style::colored(Color::DarkGray)
    } else if active {
        style::bold_colored(Color::Yellow)
    } else {
        style::bold()
    }
}

/// The column of a slot; `vad_label` is what slots that do not stream show
/// while they wait.
pub open spec fn column_of(slot: AnyView, active: bool, vad_label: Seq<char>) -> ColumnView {
    let c = engine::common(slot);
    let waits = slot is Offline && c.enabled;
    ColumnView {
        title: style::span(
            " "@ + engine::slot_name(slot) + (if c.enabled {
                Seq::empty()
            } else {
                " [关]"@
            }) + " "@,
            slot_title_style(c.enabled, active),
        ),
        partial: seq![
            style::span(
                if waits {
                    "vad: "@
                } else {
                    "partial: "@
                },
                style::colored(Color::Cyan),
            ),
            style::span(
                if !c.enabled {
                    "[已关闭]"@
                } else if waits {
                    vad_label
                } else {
                    c.partial
                },
                slot_style(c.enabled),
            ),
        ],
        finals: if c.finals.len() == 0 {
            seq![seq![style::span("（暂无 final）"@, style::colored(Color::DarkGray))]]
        } else {
            finals_lines(c.finals, slot_style(c.enabled), c.finals.len())
        },
        finals_title: if active {
            " finals (active) "@
        } else {
            " finals "@
        },
        scroll: c.finals_scroll,
    }
}

fn push_finals(finals: &[String], s: Style) -> (r: Lines)
    ensures
        r@ == finals_lines(text::texts(finals@), s, finals@.len()),
{
    let ghost all = text::texts(finals@);
    let mut out = Lines::new();
    let mut i: usize = 0;
    while i < finals.len()
        invariant
            i <= finals@.len(),
            all == text::texts(finals@),
            out@ == finals_lines(all, s, i as nat),
        decreases finals@.len() - i,
    {
        proof {
            assert(all[i as int] == finals@[i as int]@);
        }
        if i > 0 {
            out.push_blank();
        }
        out.push_text(finals[i].as_str(), s);
        proof {
            if i == 0 {
                assert(out@ =~= seq![seq![style::span(all[0], s)]]);
            }
        }
        i = i + 1;
    }
    out
}

/// The column of a slot.
pub fn column(slot: &AnySlot, active: bool, vad_label: &str) -> (r: Column)
    ensures
        r@ == column_of(slot@, active, vad_label@),
{
    let enabled = slot.enabled();
    let waits = !slot.is_online() && enabled;
    let text_style = if enabled {
        Style::plain()
    } else {
        Style::colored(Color::DarkGray)
    };
    let title_style = if !enabled {
        Style::colored(Color::DarkGray)
    } else if active {
        Style::bold_colored(Color::Yellow)
    } else {
        Style::bold()
    };
    let mut title = " ".to_owned();
    title.append(slot.name());
    let mut mark = String::new();
    if !enabled {
        mark = " [关]".to_owned();
    }
    title.append(mark.as_str());
    title.append(" ");
    let mut partial = Line::new();
    partial.push(
        if waits {
            "vad: "
        } else {
            "partial: "
        },
        Style::colored(Color::Cyan),
    );
    if !enabled {
        partial.push("[已关闭]", text_style);
    } else if waits {
        partial.push(vad_label, text_style);
    } else {
        partial.push(slot.partial(), text_style);
    }
    let said = slot.finals();
    proof {
        assert(text::texts(said@).len() == said@.len());
    }
    let mut finals = push_finals(said, text_style);
    if said.len() == 0 {
        finals.push_text("（暂无 final）", Style::colored(Color::DarkGray));
        proof {
            assert(finals@ =~= seq![
                seq![style::span("（暂无 final）"@, style::colored(Color::DarkGray))],
            ]);
        }
    }
    let r = Column {
        title: Span::new(title.as_str(), title_style),
        partial,
        finals,
        finals_title: if active {
            " finals (active) "
        } else {
            " finals "
        },
        scroll: slot.finals_scroll(),
    };
    proof {
        assert(r@.partial =~= column_of(slot@, active, vad_label@).partial);
    }
    r
}

// ─── Media ─────────────────────────────────────────────────────────────

/// The panel of the media.
pub struct MediaPanel {
    pub title: &'static str,
    pub lines: Lines,
}

/// The title of the panel.
pub open spec fn media_title(playing: bool, sample_file_mode: bool) -> Seq<char> {
    if sample_file_mode && playing {
        " subtitles / sample file running "@
    } else if sample_file_mode {
        " subtitles / sample file paused "@
    } else if playing {
        " subtitles playing "@
    } else {
        " subtitles paused "@
    }
}

/// The line of a subtitle, marked if it holds the position.
pub open spec fn cue_line(cue: CueView, position: nat) -> Seq<SpanView> {
    let on = media::cue_rank(cue, position) == 1;
    seq![
        style::span(
            (if on {
                ">"@
            } else {
                " "@
            }) + " "@ + media::media_time(cue.start_ms) + " "@ + text::replaced(
                cue.text,
                "\n"@,
                " "@,
            ),
            if on {
                style::bold_colored(Color::Yellow)
            } else {
                style::plain()
            },
        ),
    ]
}

/// The first subtitle that is shown.
pub open spec fn first_shown(active: int) -> int {
    if active < CUES_ABOVE {
        0
    } else {
        active - CUES_ABOVE
    }
}

/// One past the last subtitle that is shown.
pub open spec fn last_shown(active: int, count: int) -> int {
    if active + CUES_BELOW < count {
        active + CUES_BELOW
    } else {
        count
    }
}

/// The lines of the subtitles around `active`.
pub open spec fn cue_lines(cues: Seq<CueView>, position: nat, active: int) -> Seq<Seq<SpanView>> {
    let from = first_shown(active);
    Seq::new(
        (last_shown(active, cues.len() as int) - from) as nat,
        |i: int| cue_line(cues[from + i], position),
    )
}

/// The lines above the subtitles; `filled` cells of the progress bar are full.
pub open spec fn media_head(m: MediaView, sample_file_mode: bool, filled: nat) -> Seq<Seq<SpanView>> {
    seq![
        seq![
            style::span("time: "@, style::colored(Color::Cyan)),
            style::span(
                media::media_time(m.position_ms) + " / "@ + media::media_time(m.duration_ms),
                style::colored(Color::Yellow),
            ),
        ],
        seq![
            style::span(
                if m.duration_ms == 0 {
                    media::repeated(' ', PROGRESS_WIDTH as nat)
                } else {
                    media::bar(filled, PROGRESS_WIDTH as nat)
                },
                style::colored(Color::Green),
            ),
        ],
        seq![
            style::span("seek: "@, style::colored(Color::Cyan)),
            style::span(
                if sample_file_mode {
                    "h/l 10s · H/L 60s · space pause sample input · e report"@
                } else {
                    "h/l 10s · H/L 60s · space pause audio · e report"@
                },
                style::plain(),
            ),
        ],
        Seq::empty(),
    ]
}

/// The lines of the panel, with the subtitles around `active`.
pub open spec fn media_lines(m: MediaView, sample_file_mode: bool, filled: nat, active: int) -> Seq<
    Seq<SpanView>,
> {
    let body = media_head(m, sample_file_mode, filled) + (if m.cues.len() == 0 {
        seq![seq![style::span("未解析到字幕"@, style::colored(Color::Red))]]
    } else {
        cue_lines(m.cues, m.position_ms, active)
    });
    match m.last_report {
        Some(path) => body.push(Seq::empty()).push(
            seq![style::span("report: "@ + path, style::colored(Color::Green))],
        ),
        None => body,
    }
}

fn push_cues(out: &mut Lines, m: &MediaState, active: usize)
    requires
        active < m.cues@.len(),
    ensures
        final(out)@ == old(out)@ + cue_lines(m@.cues, m@.position_ms, active as int),
{
    let ghost start = out@;
    let ghost all = cue_lines(m@.cues, m@.position_ms, active as int);
    let from: usize = if active < CUES_ABOVE {
        0
    } else {
        active - CUES_ABOVE
    };
    let upto: usize = if m.cues.len() - active > CUES_BELOW {
        active + CUES_BELOW
    } else {
        m.cues.len()
    };
    let mut i: usize = from;
    proof {
        reveal_strlit("\n");
        assert(out@ =~= start + all.take(0));
    }
    while i < upto
        invariant
            from <= i <= upto <= m.cues@.len(),
            from == first_shown(active as int),
            all == cue_lines(m@.cues, m@.position_ms, active as int),
            all.len() == upto - from,
            "\n"@.len() > 0,
            out@ == start + all.take(i - from),
        decreases upto - i,
    {
        let cue = &m.cues[i];
        let on = m.position_ms >= cue.start_ms && m.position_ms <= cue.end_ms;
        let mut row = (if on {
            ">"
        } else {
            " "
        }).to_owned();
        row.append(" ");
        row.append(media::format_media_time(cue.start_ms).as_str());
        row.append(" ");
        row.append(text::replace_text(cue.text.as_str(), "\n", " ").as_str());
        proof {
            assert(m@.cues[i as int] == m.cues@[i as int]@);
            assert(all[i - from] == cue_line(m@.cues[i as int], m@.position_ms));
            assert(start + all.take(i + 1 - from) =~= out@.push(all[i - from]));
        }
        out.push_text(
            row.as_str(),
            if on {
                Style::bold_colored(Color::Yellow)
            } else {
                Style::plain()
            },
        );
        i = i + 1;
    }
    proof {
        assert(all.take(upto - from) =~= all);
    }
}

/// The panel of the media; `filled` cells of the progress bar are full.
pub fn render_media_panel(m: &MediaState, sample_file_mode: bool, filled: usize) -> (r: MediaPanel)
    ensures
        r.title@ == media_title(m.playing, sample_file_mode),
        exists|active: int|
            media::is_shown(m@, active) && r.lines@ == #[trigger] media_lines(
                m@,
                sample_file_mode,
                filled as nat,
                active,
            ),
{
    let active: usize = m.active_index();
    let title = if sample_file_mode && m.playing {
        " subtitles / sample file running "
    } else if sample_file_mode {
        " subtitles / sample file paused "
    } else if m.playing {
        " subtitles playing "
    } else {
        " subtitles paused "
    };
    let mut lines = Lines::new();
    let mut time = media::format_media_time(m.position_ms);
    time.append(" / ");
    time.append(media::format_media_time(m.duration_ms).as_str());
    let mut first = Line::new();
    first.push("time: ", Style::colored(Color::Cyan));
    first.push(time.as_str(), Style::colored(Color::Yellow));
    let ghost head = media_head(m@, sample_file_mode, filled as nat);
    proof {
        assert(first@ =~= head[0]);
    }
    lines.push(first);
    lines.push_text(
        media::media_progress_bar(filled, m.duration_ms, PROGRESS_WIDTH).as_str(),
        Style::colored(Color::Green),
    );
    let mut third = Line::new();
    third.push("seek: ", Style::colored(Color::Cyan));
    third.push(
        if sample_file_mode {
            "h/l 10s · H/L 60s · space pause sample input · e report"
        } else {
            "h/l 10s · H/L 60s · space pause audio · e report"
        },
        Style::plain(),
    );
    proof {
        assert(third@ =~= head[2]);
    }
    lines.push(third);
    lines.push_blank();
    proof {
        assert(lines@ =~= head);
    }
    if m.cues.len() == 0 {
        lines.push_text("未解析到字幕", Style::colored(Color::Red));
        proof {
            assert(lines@ =~= head + seq![
                seq![style::span("未解析到字幕"@, style::colored(Color::Red))],
            ]);
        }
    } else {
        push_cues(&mut lines, m, active);
    }
    if let Some(path) = &m.last_report {
        let mut row = "report: ".to_owned();
        row.append(path.as_str());
        lines.push_blank();
        lines.push_text(row.as_str(), Style::colored(Color::Green));
    }
    proof {
        assert(lines@ == media_lines(m@, sample_file_mode, filled as nat, active as int));
    }
    MediaPanel { title, lines }
}

// ─── The whole screen ──────────────────────────────────────────────────

/// Measurements as text, and what the voice activity model says right now.
pub struct DrawTexts {
    pub rms: String,
    pub vad_detected: bool,
    pub vad_last: String,
    pub vad_gathered: String,
    /// The cells of the progress bar that are full.
    pub filled: usize,
}

/// The main screen.
pub struct Screen {
    pub title: Line,
    pub media: Option<MediaPanel>,
    pub columns: Vec<Column>,
    pub log: Lines,
}

/// The columns of the slots.
pub open spec fn columns_of<T>(v: AppView<T>, vad_label: Seq<char>) -> Seq<ColumnView> {
    Seq::new(
        v.slots.len(),
        |i: int| column_of(v.slots[i], i == v.active_slot, vad_label),
    )
}

/// What the main screen shows.
pub fn draw<T: Copy>(app: &App<T>, t: &DrawTexts) -> (r: Screen)
    ensures
        r.title@ == title_spans(t.rms@, app@.source_label),
        r.log@ == log_lines_of(app@.log),
        column_views(r.columns@) == columns_of(
            app@,
            vad::status_text(app@.vad, t.vad_detected, t.vad_last@, t.vad_gathered@),
        ),
        match (app@.media, r.media) {
            (None, None) => true,
            (Some(m), Some(panel)) => panel.title@ == media_title(m.playing, app@.sample_file_mode)
                && exists|active: int|
                media::is_shown(m, active) && panel.lines@ == #[trigger] media_lines(
                    m,
                    app@.sample_file_mode,
                    t.filled as nat,
                    active,
                ),
            _ => false,
        },
{
    let title = title_line(t.rms.as_str(), app.source_label.as_str());
    let media = match &app.media {
        Some(m) => Some(render_media_panel(m, app.sample_file_mode, t.filled)),
        None => None,
    };
    let label = app.vad.status_label(
        t.vad_detected,
        t.vad_last.as_str(),
        t.vad_gathered.as_str(),
    );
    let ghost all = columns_of(app@, label@);
    let mut columns: Vec<Column> = Vec::new();
    let mut i: usize = 0;
    proof {
        assert(column_views(columns@) =~= all.take(0));
    }
    while i < app.slots.len()
        invariant
            i <= app.slots@.len(),
            all == columns_of(app@, label@),
            column_views(columns@) == all.take(i as int),
        decreases app.slots@.len() - i,
    {
        let ghost before = column_views(columns@);
        let c = column(&app.slots[i], i == app.active_slot, label.as_str());
        columns.push(c);
        proof {
            assert(app@.slots[i as int] == app.slots@[i as int]@);
            assert(column_views(columns@) =~= before.push(c@));
            assert(all.take(i + 1) =~= before.push(all[i as int]));
        }
        i = i + 1;
    }
    proof {
        assert(all.take(i as int) =~= all);
    }
    Screen { title, media, columns, log: log_lines(app.log.as_slice()) }
}

// ─── Laws ──────────────────────────────────────────────────────────────

/// There is a column for every slot, and exactly the active one is marked.
pub proof fn law_every_slot_has_a_column<T>(v: AppView<T>, vad_label: Seq<char>, i: int)
    requires
        0 <= i < v.slots.len(),
    ensures
        columns_of(v, vad_label).len() == v.slots.len(),
        columns_of(v, vad_label)[i].finals_title == " finals (active) "@ <==> i == v.active_slot,
{
    reveal_strlit(" finals (active) ");
    reveal_strlit(" finals ");
    assert(" finals (active) "@.len() != " finals "@.len());
}

/// The subtitles that are shown are some of those that there are, at most
/// eighteen, and the current one is among them.
pub proof fn law_shown_cues_surround_the_current(active: int, count: int)
    requires
        0 <= active < count,
    ensures
        0 <= first_shown(active) <= active < last_shown(active, count) <= count,
        last_shown(active, count) - first_shown(active) <= 18,
{
}

/// The latest line of the log is shown first.
pub proof fn law_latest_line_comes_first(log: Seq<Seq<char>>)
    requires
        log.len() > 0,
    ensures
        log_lines_of(log)[0] == seq![style::span(log.last(), style::plain())],
        log_lines_of(log).len() <= LOG_SHOWN,
{
}

/// The five latest lines of the log are shown, the latest first.
pub proof fn law_five_lines_of_the_log(log: Seq<Seq<char>>, i: int)
    requires
        0 <= i < log.len(),
        i < 5,
    ensures
        log.len() >= 5 ==> log_lines_of(log).len() == 5,
        log.len() < 5 ==> log_lines_of(log).len() == log.len(),
        log_lines_of(log)[i].len() == 1,
        log_lines_of(log)[i][0].text == log[log.len() - 1 - i],
{
}

/// The title names the source and the level.
pub proof fn law_title_names_the_source(rms: Seq<char>, source: Seq<char>)
    ensures
        title_spans(rms, source).len() == 17,
        title_spans(rms, source)[0].text == " ASR Compare "@,
        title_spans(rms, source)[14].text == "音频 RMS "@ + rms,
        title_spans(rms, source)[15].text == " · 源:"@,
        title_spans(rms, source)[16].text == source,
{
}

/// A column shows the name of its slot, and what the slot is saying: its partial
/// if it streams, the voice activity if it does not, and that it is off if it is.
pub proof fn law_column_shows_what_is_said(slot: AnyView, active: bool, vad_label: Seq<char>)
    ensures
        ({
            let c = column_of(slot, active, vad_label);
            let (name, partial, enabled, scroll) = match slot {
                AnyView::Online(s) => (s.name, s.partial, s.enabled, s.finals_scroll),
                AnyView::Offline(s) => (s.name, s.partial, s.enabled, s.finals_scroll),
            };
            &&& enabled ==> c.title.text == " "@ + name + " "@
            &&& !enabled ==> c.title.text == " "@ + name + " [关]"@ + " "@
            &&& c.partial.len() == 2
            &&& enabled && slot is Online ==> c.partial[0].text == "partial: "@ && c.partial[1].text
                == partial
            &&& enabled && slot is Offline ==> c.partial[0].text == "vad: "@ && c.partial[1].text
                == vad_label
            &&& !enabled ==> c.partial[0].text == "partial: "@ && c.partial[1].text == "[已关闭]"@
            &&& c.scroll == scroll
            &&& active ==> c.finals_title == " finals (active) "@
            &&& !active ==> c.finals_title == " finals "@
            &&& enabled && active ==> c.title.style == style::bold_colored(Color::Yellow)
            &&& enabled && !active ==> c.title.style == style::bold()
            &&& !enabled ==> c.title.style == style::colored(Color::DarkGray)
            &&& enabled ==> c.partial[1].style == style::plain()
            &&& !enabled ==> c.partial[1].style == style::colored(Color::DarkGray)
        }),
{
    let e = Seq::<char>::empty();
    let name = engine::slot_name(slot);
    assert(" "@ + name + e + " "@ =~= " "@ + name + " "@);
}

proof fn lemma_finals_lines(finals: Seq<Seq<char>>, s: Style, n: nat, k: int)
    requires
        0 <= k < n <= finals.len(),
    ensures
        finals_lines(finals, s, n).len() == 2 * n - 1,
        finals_lines(finals, s, n)[2 * k] == seq![style::span(finals[k], s)],
        k + 1 < n ==> finals_lines(finals, s, n)[2 * k + 1].len() == 0,
    decreases n,
{
    if n > 1 {
        if k + 1 < n {
            lemma_finals_lines(finals, s, (n - 1) as nat, k);
        } else {
            lemma_finals_lines(finals, s, (n - 1) as nat, k - 1);
        }
    }
}

/// A column shows the latest finals of its slot in order, with an empty line
/// between any two, and says so if there are none.
pub proof fn law_column_shows_the_finals(
    slot: AnyView,
    active: bool,
    vad_label: Seq<char>,
    k: int,
)
    ensures
        ({
            let lines = column_of(slot, active, vad_label).finals;
            let finals = match slot {
                AnyView::Online(s) => s.finals,
                AnyView::Offline(s) => s.finals,
            };
            &&& finals.len() == 0 ==> lines.len() == 1 && lines[0].len() == 1 && lines[0][0].text
                == "（暂无 final）"@
            &&& 0 <= k < finals.len() ==> lines.len() == 2 * finals.len() - 1 && lines[2 * k].len()
                == 1 && lines[2 * k][0].text == finals[k] && lines[2 * k][0].style == column_of(
                slot,
                active,
                vad_label,
            ).partial[1].style
            &&& 0 <= k && k + 1 < finals.len() ==> lines[2 * k + 1].len() == 0
        }),
{
    let c = engine::common(slot);
    if 0 <= k < c.finals.len() {
        lemma_finals_lines(c.finals, slot_style(c.enabled), c.finals.len(), k);
    }
}

/// The column of each slot stands at its place, and the active one is told.
pub proof fn law_columns_stand_in_order<T>(v: AppView<T>, vad_label: Seq<char>, i: int)
    requires
        0 <= i < v.slots.len(),
    ensures
        columns_of(v, vad_label)[i] == column_of(v.slots[i], i == v.active_slot, vad_label),
{
}

/// The panel tells whether the audio plays, where it is and how long it lasts.
pub proof fn law_panel_tells_the_position(
    m: MediaView,
    sample_file_mode: bool,
    filled: nat,
    active: int,
)
    ensures
        media_title(true, false) == " subtitles playing "@,
        media_title(false, false) == " subtitles paused "@,
        media_title(true, true) == " subtitles / sample file running "@,
        media_title(false, true) == " subtitles / sample file paused "@,
        ({
            let lines = media_lines(m, sample_file_mode, filled, active);
            &&& lines[0][0].text == "time: "@
            &&& lines[0][1].text == media::media_time(m.position_ms) + " / "@ + media::media_time(
                m.duration_ms,
            )
            &&& lines[1][0].text.len() == 28
            &&& m.duration_ms > 0 ==> lines[1][0].text == media::bar(filled, 28)
            &&& m.duration_ms == 0 ==> forall|i: int|
                0 <= i < 28 ==> (#[trigger] lines[1][0].text[i]) == ' '
            &&& lines[2][0].text == "seek: "@
            &&& sample_file_mode ==> lines[2][1].text
                == "h/l 10s · H/L 60s · space pause sample input · e report"@
            &&& !sample_file_mode ==> lines[2][1].text
                == "h/l 10s · H/L 60s · space pause audio · e report"@
            &&& lines[3].len() == 0
            &&& m.last_report is None && m.cues.len() == 0 ==> lines.len() == 5
            &&& m.cues.len() == 0 ==> lines[4][0].text == "未解析到字幕"@
            &&& m.last_report matches Some(path) ==> lines.last()[0].text == "report: "@ + path
        }),
{
    media::law_bar_has_its_width(filled, 28);
}

/// The eight subtitles before the current one, the current one and the nine behind
/// it are shown in order, each with its start and its text; those that hold the
/// position are marked.
pub proof fn law_panel_shows_the_subtitles_around(
    m: MediaView,
    sample_file_mode: bool,
    filled: nat,
    active: int,
    i: int,
)
    requires
        0 <= active < m.cues.len(),
        0 <= i < m.cues.len(),
        active - 8 <= i <= active + 9,
    ensures
        ({
            let from = if active < 8 {
                0
            } else {
                active - 8
            };
            let line = media_lines(m, sample_file_mode, filled, active)[4 + i - from];
            let cue = m.cues[i];
            let on = cue.start_ms <= m.position_ms <= cue.end_ms;
            &&& line.len() == 1
            &&& line[0].text == (if on {
                ">"@
            } else {
                " "@
            }) + " "@ + media::media_time(cue.start_ms) + " "@ + text::replaced(
                cue.text,
                "\n"@,
                " "@,
            )
            &&& on ==> line[0].style == style::bold_colored(Color::Yellow)
            &&& !on ==> line[0].style == style::plain()
        }),
{
}

} // verus!
