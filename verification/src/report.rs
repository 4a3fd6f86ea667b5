//! The report on what was recognised, in Markdown.

use std::collections::VecDeque;

use vstd::prelude::*;
use vstd::string::*;

use crate::app::{App, AppView};
use crate::engine;
use crate::engine::offline::OfflineView;
use crate::engine::online::OnlineView;
use crate::engine::{AnySlot, AnyView, SlotView};
use crate::media;
use crate::media::{CueView, MediaState, MediaView};
use crate::models;
use crate::number;
use crate::segments::{SegStats, SegView};
use crate::text;
use crate::util;
use crate::vad;
use crate::vad::VadReportTexts;

verus! {

/// Fractions in the report as text.
pub struct ReportTexts {
    pub vad: VadReportTexts,
    pub avg_cut_latency_ms: String,
    pub avg_words_per_segment: String,
    /// The length of the last stretch of speech in seconds, by slot.
    pub last_segment_sec: Vec<String>,
}

/// How many subtitles before the current one are reported.
pub const CUES_BEFORE: usize = 3;

/// How many subtitles from the current one on are reported.
pub const CUES_FROM: usize = 4;

/// Where a report of this second is written.
pub open spec fn report_path(unix_secs: nat) -> Seq<char> {
    "reports/asr_report_"@ + number::dec(unix_secs) + ".md"@
}

/// Where a report of this second is written.
pub fn report_file(unix_secs: u64) -> (r: String)
    ensures
        r@ == report_path(unix_secs as nat),
{
    let mut out = "reports/asr_report_".to_owned();
    out.append(number::dec_text(unix_secs).as_str());
    out.append(".md");
    out
}

// ─── Head and subtitles ────────────────────────────────────────────────

/// The head of a report.
pub open spec fn head(source: Seq<char>, elapsed_secs: nat) -> Seq<char> {
    "# ASR Compare Report\n\n- source: "@ + source + "\n- runtime: "@ + util::elapsed_text(
        elapsed_secs,
    ) + "\n"@
}

/// The first subtitle that is reported.
pub open spec fn first_cue(active: int) -> int {
    if active < CUES_BEFORE {
        0
    } else {
        active - CUES_BEFORE
    }
}

/// One past the last subtitle that is reported.
pub open spec fn last_cue(active: int, count: int) -> int {
    if active + CUES_FROM < count {
        active + CUES_FROM
    } else {
        count
    }
}

/// `out` with the subtitles from `from` to `upto`; those that share the number
/// of the current one are marked.
pub open spec fn with_cues(out: Seq<char>, cues: Seq<CueView>, active: int, from: int, upto: int) -> Seq<
    char,
>
    decreases upto - from,
{
    if upto <= from {
        out
    } else {
        let cue = cues[upto - 1];
        with_cues(out, cues, active, from, upto - 1) + (if cue.index == cues[active].index {
            ">"@
        } else {
            "-"@
        }) + " ["@ + media::media_time(cue.start_ms) + " - "@ + media::media_time(cue.end_ms)
            + "] "@ + cue.text + "\n"@
    }
}

/// `out` with the section on the media, of whose subtitles `active` is shown.
pub open spec fn with_media(out: Seq<char>, m: MediaView, active: int) -> Seq<char> {
    let intro = out + "- audio: "@ + m.audio_path + "\n- subtitle: "@ + m.srt_path
        + "\n- position: "@ + media::media_time(m.position_ms) + " ("@ + media::seconds_text(
        m.position_ms,
    ) + "s)\n\n## Subtitle Context\n\n"@;
    if m.cues.len() == 0 {
        intro + "<no subtitles parsed>\n"@
    } else {
        with_cues(intro, m.cues, active, first_cue(active), last_cue(active, m.cues.len() as int))
    }
}

fn append_media(out: &mut String, m: &MediaState, active: usize)
    requires
        active < m.cues@.len() || m.cues@.len() == 0,
    ensures
        final(out)@ == with_media(old(out)@, m@, active as int),
{
    out.append("- audio: ");
    out.append(m.audio_path.as_str());
    out.append("\n- subtitle: ");
    out.append(m.srt_path.as_str());
    out.append("\n- position: ");
    out.append(media::format_media_time(m.position_ms).as_str());
    out.append(" (");
    out.append(media::format_seconds(m.position_ms).as_str());
    out.append("s)\n\n## Subtitle Context\n\n");
    if m.cues.len() == 0 {
        out.append("<no subtitles parsed>\n");
        return ;
    }
    let ghost intro = out@;
    let ghost cues = m@.cues;
    let from: usize = if active < CUES_BEFORE {
        0
    } else {
        active - CUES_BEFORE
    };
    let upto: usize = if m.cues.len() - active > CUES_FROM {
        active + CUES_FROM
    } else {
        m.cues.len()
    };
    let mut i: usize = from;
    while i < upto
        invariant
            from <= i <= upto <= m.cues@.len(),
            active < m.cues@.len(),
            cues == m@.cues,
            out@ == with_cues(intro, cues, active as int, from as int, i as int),
        decreases upto - i,
    {
        proof {
            assert(cues[i as int] == m.cues@[i as int]@);
            assert(cues[active as int] == m.cues@[active as int]@);
        }
        out.append(
            if m.cues[i].index == m.cues[active].index {
                ">"
            } else {
                "-"
            },
        );
        out.append(" [");
        out.append(media::format_media_time(m.cues[i].start_ms).as_str());
        out.append(" - ");
        out.append(media::format_media_time(m.cues[i].end_ms).as_str());
        out.append("] ");
        out.append(m.cues[i].text.as_str());
        out.append("\n");
        i = i + 1;
    }
}

// ─── Sentence cuts ─────────────────────────────────────────────────────

/// The first segmenter among the slots from `from` on.
pub open spec fn first_segmenter(slots: Seq<AnyView>, from: int) -> Option<SegView>
    decreases slots.len() - from,
{
    if from >= slots.len() {
        None
    } else {
        match slots[from] {
            AnyView::Online(s) => match s.segmenter {
                Some(seg) => Some(seg),
                None => first_segmenter(slots, from + 1),
            },
            AnyView::Offline(_) => first_segmenter(slots, from + 1),
        }
    }
}

/// `out` with the section on sentence cuts.
pub open spec fn with_stats(
    out: Seq<char>,
    config: Seq<char>,
    st: SegStats,
    latency: Seq<char>,
    words: Seq<char>,
) -> Seq<char> {
    out + "\n## Segmentation Stats\n\n- config: "@ + config + "\n- punct_candidate_count: "@
        + number::dec(st.punct_candidate_count as nat) + "\n- punct_success_count: "@
        + number::dec(st.punct_success_count as nat) + "\n- punct_regret_count: "@ + number::dec(
        st.punct_regret_count as nat,
    ) + "\n- no_punct_fallback_count: "@ + number::dec(st.no_punct_fallback_count as nat)
        + "\n- extreme_cut_count: "@ + number::dec(st.extreme_cut_count as nat)
        + "\n- avg_cut_latency_ms: "@ + latency + "\n- avg_words_per_segment: "@ + words
        + "\n- repeat_risk_count: "@ + number::dec(st.repeat_risk_count as nat)
        + "\n- missing_word_risk_count: "@ + number::dec(st.missing_word_risk_count as nat)
        + "\n- total_segment_count: "@ + number::dec(st.total_segment_count as nat) + "\n\n"@
}

fn append_stats(out: &mut String, config: &str, st: &SegStats, latency: &str, words: &str)
    ensures
        final(out)@ == with_stats(old(out)@, config@, *st, latency@, words@),
{
    out.append("\n## Segmentation Stats\n\n- config: ");
    out.append(config);
    out.append("\n- punct_candidate_count: ");
    out.append(number::size_text(st.punct_candidate_count).as_str());
    out.append("\n- punct_success_count: ");
    out.append(number::size_text(st.punct_success_count).as_str());
    out.append("\n- punct_regret_count: ");
    out.append(number::size_text(st.punct_regret_count).as_str());
    out.append("\n- no_punct_fallback_count: ");
    out.append(number::size_text(st.no_punct_fallback_count).as_str());
    out.append("\n- extreme_cut_count: ");
    out.append(number::size_text(st.extreme_cut_count).as_str());
    out.append("\n- avg_cut_latency_ms: ");
    out.append(latency);
    out.append("\n- avg_words_per_segment: ");
    out.append(words);
    out.append("\n- repeat_risk_count: ");
    out.append(number::size_text(st.repeat_risk_count).as_str());
    out.append("\n- missing_word_risk_count: ");
    out.append(number::size_text(st.missing_word_risk_count).as_str());
    out.append("\n- total_segment_count: ");
    out.append(number::size_text(st.total_segment_count).as_str());
    out.append("\n\n");
}

// ─── What was recognised ───────────────────────────────────────────────

/// `out` with the line of item `n` of a numbered list.
pub open spec fn with_item(out: Seq<char>, n: nat, item: Seq<char>) -> Seq<char> {
    out + number::dec(n) + ". "@ + text::trim(item) + "\n"@
}

/// `out` with the first `n` items as a numbered list, each trimmed.
pub open spec fn with_numbered(out: Seq<char>, items: Seq<Seq<char>>, n: nat) -> Seq<char>
    decreases n,
{
    if n == 0 {
        out
    } else {
        with_item(with_numbered(out, items, (n - 1) as nat), n, items[n - 1])
    }
}

/// `out` with the history of partials of a slot that streams.
pub open spec fn with_online(out: Seq<char>, s: OnlineView) -> Seq<char> {
    if s.all_partials.len() == 0 {
        out
    } else {
        with_numbered(
            out + "partial_history_count: "@ + number::dec(s.all_partials.len())
                + "\n\npartial_history:\n\n"@,
            s.all_partials,
            s.all_partials.len(),
        ) + "\n"@
    }
}

/// `out` with the counters of a slot that does not stream.
pub open spec fn with_offline(out: Seq<char>, s: OfflineView, last_sec: Seq<char>) -> Seq<char> {
    let counted = out + "- family: "@ + models::family_name(s.family) + "\n- decoded_segments: "@
        + number::dec(s.segments_decoded) + "\n"@;
    (if s.last_segment_samples > 0 {
        counted + "- last_decoded_segment_sec: "@ + last_sec + "\n"@
    } else {
        counted
    }) + "\n"@
}

/// `out` with the name of a slot and what it is about to say.
pub open spec fn with_partial(out: Seq<char>, slot: AnyView) -> Seq<char> {
    let partial = text::trim(engine::common(slot).partial);
    let named = out + "\n### "@ + engine::slot_name(slot) + "\n\n"@;
    if partial.len() == 0 {
        named
    } else {
        named + "partial: "@ + partial + "\n\n"@
    }
}

/// `out` with what a slot has said.
pub open spec fn with_finals(out: Seq<char>, finals: Seq<Seq<char>>) -> Seq<char> {
    if finals.len() == 0 {
        out + "finals: <none>\n"@
    } else {
        with_numbered(
            out + "final_count: "@ + number::dec(finals.len()) + "\n\n"@,
            finals,
            finals.len(),
        )
    }
}

/// `out` with the section on one slot.
pub open spec fn with_slot(out: Seq<char>, slot: AnyView, last_sec: Seq<char>) -> Seq<char> {
    let named = with_partial(out, slot);
    let told = match slot {
        AnyView::Online(s) => with_online(named, s),
        AnyView::Offline(s) => with_offline(named, s, last_sec),
    };
    with_finals(told, engine::common(slot).all_finals)
}

/// `out` with the sections on the first `n` slots.
pub open spec fn with_slots(
    out: Seq<char>,
    slots: Seq<AnyView>,
    last_secs: Seq<Seq<char>>,
    n: nat,
) -> Seq<char>
    decreases n,
{
    if n == 0 {
        out
    } else {
        with_slot(
            with_slots(out, slots, last_secs, (n - 1) as nat),
            slots[n - 1],
            last_secs[n - 1],
        )
    }
}

fn append_item(out: &mut String, n: usize, item: &str)
    ensures
        final(out)@ == with_item(old(out)@, n as nat, item@),
{
    out.append(number::size_text(n).as_str());
    out.append(". ");
    out.append(text::trim_text(item).as_str());
    out.append("\n");
}

fn append_numbered(out: &mut String, items: &[String])
    ensures
        final(out)@ == with_numbered(old(out)@, text::texts(items@), items@.len()),
{
    let ghost start = out@;
    let ghost all = text::texts(items@);
    let mut i: usize = 0;
    while i < items.len()
        invariant
            i <= items@.len(),
            all == text::texts(items@),
            out@ == with_numbered(start, all, i as nat),
        decreases items@.len() - i,
    {
        proof {
            assert(all[i as int] == items@[i as int]@);
        }
        append_item(out, i + 1, items[i].as_str());
        i = i + 1;
    }
}

fn append_history(out: &mut String, items: &VecDeque<String>)
    ensures
        final(out)@ == with_numbered(old(out)@, text::texts(items@), items@.len()),
{
    let ghost start = out@;
    let ghost all = text::texts(items@);
    let mut i: usize = 0;
    while i < items.len()
        invariant
            i <= items@.len(),
            all == text::texts(items@),
            out@ == with_numbered(start, all, i as nat),
        decreases items@.len() - i,
    {
        proof {
            assert(all[i as int] == items@[i as int]@);
        }
        append_item(out, i + 1, items[i].as_str());
        i = i + 1;
    }
}

fn append_slot(out: &mut String, slot: &AnySlot, last_sec: &str)
    ensures
        final(out)@ == with_slot(old(out)@, slot@, last_sec@),
{
    out.append("\n### ");
    out.append(slot.name());
    out.append("\n\n");
    let partial = text::trim_text(slot.partial());
    if !partial.as_str().is_empty() {
        out.append("partial: ");
        out.append(partial.as_str());
        out.append("\n\n");
    }
    match slot {
        AnySlot::Online(s) => {
            if s.all_partials.len() > 0 {
                out.append("partial_history_count: ");
                out.append(number::size_text(s.all_partials.len()).as_str());
                out.append("\n\npartial_history:\n\n");
                append_history(out, &s.all_partials);
                out.append("\n");
            }
        },
        AnySlot::Offline(s) => {
            out.append("- family: ");
            out.append(s.family.as_str());
            out.append("\n- decoded_segments: ");
            out.append(number::size_text(s.segments_decoded).as_str());
            out.append("\n");
            if s.last_segment_samples > 0 {
                out.append("- last_decoded_segment_sec: ");
                out.append(last_sec);
                out.append("\n");
            }
            out.append("\n");
        },
    }
    let finals = slot.all_finals();
    proof {
        assert(text::texts(finals@).len() == finals@.len());
    }
    if finals.len() == 0 {
        out.append("finals: <none>\n");
    } else {
        out.append("final_count: ");
        out.append(number::size_text(finals.len()).as_str());
        out.append("\n\n");
        append_numbered(out, finals);
    }
}

// ─── The whole report ──────────────────────────────────────────────────

/// The head, the media and the voice activity.
pub open spec fn report_front<T>(v: AppView<T>, elapsed_secs: nat, t: ReportTexts, active: int) -> Seq<
    char,
> {
    let opened = head(v.source_label, elapsed_secs);
    vad::with_vad_report(
        match v.media {
            Some(m) => with_media(opened, m, active),
            None => opened,
        },
        v.vad,
        t.vad,
    )
}

/// A report on the program after `elapsed_secs` seconds; of the subtitles
/// `active` is shown.
pub open spec fn report_text<T>(v: AppView<T>, elapsed_secs: nat, t: ReportTexts, active: int) -> Seq<
    char,
> {
    let front = report_front(v, elapsed_secs, t, active);
    let counted = match first_segmenter(v.slots, 0) {
        Some(seg) => with_stats(
            front,
            seg.config.name@,
            seg.stats,
            t.avg_cut_latency_ms@,
            t.avg_words_per_segment@,
        ),
        None => front,
    };
    with_slots(
        counted + "\n## ASR Results\n"@,
        v.slots,
        text::texts(t.last_segment_sec@),
        v.slots.len(),
    )
}

fn append_segmenter<T>(out: &mut String, app: &App<T>, t: &ReportTexts)
    ensures
        final(out)@ == (match first_segmenter(app@.slots, 0) {
            Some(seg) => with_stats(
                old(out)@,
                seg.config.name@,
                seg.stats,
                t.avg_cut_latency_ms@,
                t.avg_words_per_segment@,
            ),
            None => old(out)@,
        }),
{
    let ghost start = out@;
    let mut i: usize = 0;
    while i < app.slots.len()
        invariant
            i <= app.slots@.len(),
            out@ == start,
            start == old(out)@,
            first_segmenter(app@.slots, 0) == first_segmenter(app@.slots, i as int),
        decreases app.slots@.len() - i,
    {
        proof {
            assert(app@.slots[i as int] == app.slots@[i as int]@);
        }
        if let AnySlot::Online(s) = &app.slots[i] {
            if let Some(seg) = &s.segmenter {
                append_stats(
                    out,
                    seg.config.name,
                    &seg.stats,
                    t.avg_cut_latency_ms.as_str(),
                    t.avg_words_per_segment.as_str(),
                );
                return ;
            }
        }
        i = i + 1;
    }
}

/// Writes a report on the program after `elapsed_secs` seconds.
pub fn export_report<T: Copy>(app: &App<T>, elapsed_secs: u64, t: &ReportTexts) -> (r: String)
    requires
        t.last_segment_sec@.len() == app.slots@.len(),
    ensures
        exists|active: int|
            (match app@.media {
                Some(m) => media::is_shown(m, active),
                None => true,
            }) && r@ == #[trigger] report_text(app@, elapsed_secs as nat, *t, active),
{
    let mut out = "# ASR Compare Report\n\n- source: ".to_owned();
    out.append(app.source_label.as_str());
    out.append("\n- runtime: ");
    out.append(util::humantime_elapsed(elapsed_secs).as_str());
    out.append("\n");
    let mut active: usize = 0;
    if let Some(m) = &app.media {
        active = m.active_index();
        append_media(&mut out, m, active);
    }
    app.vad.append_report(&mut out, &t.vad);
    proof {
        assert(out@ == report_front(app@, elapsed_secs as nat, *t, active as int));
    }
    append_segmenter(&mut out, app, t);
    out.append("\n## ASR Results\n");
    let ghost start = out@;
    let ghost secs = text::texts(t.last_segment_sec@);
    let mut i: usize = 0;
    while i < app.slots.len()
        invariant
            i <= app.slots@.len() == t.last_segment_sec@.len(),
            secs == text::texts(t.last_segment_sec@),
            out@ == with_slots(start, app@.slots, secs, i as nat),
        decreases app.slots@.len() - i,
    {
        proof {
            assert(app@.slots[i as int] == app.slots@[i as int]@);
            assert(secs[i as int] == t.last_segment_sec@[i as int]@);
        }
        append_slot(&mut out, &app.slots[i], t.last_segment_sec[i].as_str());
        i = i + 1;
    }
    proof {
        assert(out@ == report_text(app@, elapsed_secs as nat, *t, active as int));
    }
    out
}

// ─── Laws ──────────────────────────────────────────────────────────────

/// The subtitles that are reported are some of those that there are, at most
/// seven, and the current one is among them.
pub proof fn law_reported_cues_surround_the_current(active: int, count: int)
    requires
        0 <= active < count,
    ensures
        0 <= first_cue(active) <= active < last_cue(active, count) <= count,
        last_cue(active, count) - first_cue(active) <= 7,
{
}

proof fn lemma_prefix_of_sum(a: Seq<char>, b: Seq<char>)
    ensures
        a.is_prefix_of(a + b),
{
    assert((a + b).subrange(0, a.len() as int) =~= a);
}

proof fn lemma_prefix_trans(a: Seq<char>, b: Seq<char>, c: Seq<char>)
    requires
        a.is_prefix_of(b),
        b.is_prefix_of(c),
    ensures
        a.is_prefix_of(c),
{
    assert(c.subrange(0, a.len() as int) =~= b.subrange(0, a.len() as int));
}

proof fn lemma_numbered_appends(out: Seq<char>, items: Seq<Seq<char>>, n: nat)
    ensures
        out.is_prefix_of(with_numbered(out, items, n)),
    decreases n,
{
    if n == 0 {
        assert(out.subrange(0, out.len() as int) =~= out);
    } else {
        let before = with_numbered(out, items, (n - 1) as nat);
        lemma_numbered_appends(out, items, (n - 1) as nat);
        let tail = number::dec(n) + (". "@ + (text::trim(items[n - 1]) + "\n"@));
        assert(with_numbered(out, items, n) =~= before + tail);
        lemma_prefix_of_sum(before, tail);
        lemma_prefix_trans(out, before, before + tail);
    }
}

proof fn lemma_partial_appends(out: Seq<char>, slot: AnyView)
    ensures
        out.is_prefix_of(with_partial(out, slot)),
{
    let named = with_partial(out, slot);
    assert(named.subrange(0, out.len() as int) =~= out);
}

proof fn lemma_online_appends(out: Seq<char>, s: OnlineView)
    ensures
        out.is_prefix_of(with_online(out, s)),
{
    let n = s.all_partials.len();
    let intro = out + "partial_history_count: "@ + number::dec(n) + "\n\npartial_history:\n\n"@;
    let listed = with_numbered(intro, s.all_partials, n);
    assert(out.subrange(0, out.len() as int) =~= out);
    assert(intro.subrange(0, out.len() as int) =~= out);
    lemma_numbered_appends(intro, s.all_partials, n);
    lemma_prefix_trans(out, intro, listed);
    lemma_prefix_of_sum(listed, "\n"@);
    lemma_prefix_trans(out, listed, listed + "\n"@);
}

proof fn lemma_offline_appends(out: Seq<char>, s: OfflineView, last_sec: Seq<char>)
    ensures
        out.is_prefix_of(with_offline(out, s, last_sec)),
{
    assert(with_offline(out, s, last_sec).subrange(0, out.len() as int) =~= out);
}

proof fn lemma_finals_append(out: Seq<char>, finals: Seq<Seq<char>>)
    ensures
        out.is_prefix_of(with_finals(out, finals)),
{
    let intro = out + "final_count: "@ + number::dec(finals.len()) + "\n\n"@;
    if finals.len() == 0 {
        lemma_prefix_of_sum(out, "finals: <none>\n"@);
    } else {
        assert(intro.subrange(0, out.len() as int) =~= out);
        lemma_numbered_appends(intro, finals, finals.len());
        lemma_prefix_trans(out, intro, with_finals(out, finals));
    }
}

/// What is written of a slot before its finals.
spec fn before_finals(out: Seq<char>, slot: AnyView, last_sec: Seq<char>) -> Seq<char> {
    match slot {
        AnyView::Online(s) => with_online(with_partial(out, slot), s),
        AnyView::Offline(s) => with_offline(with_partial(out, slot), s, last_sec),
    }
}

proof fn lemma_slot_appends(out: Seq<char>, slot: AnyView, last_sec: Seq<char>)
    ensures
        out.is_prefix_of(with_slot(out, slot, last_sec)),
{
    let named = with_partial(out, slot);
    let told = before_finals(out, slot, last_sec);
    lemma_partial_appends(out, slot);
    match slot {
        AnyView::Online(s) => lemma_online_appends(named, s),
        AnyView::Offline(s) => lemma_offline_appends(named, s, last_sec),
    }
    lemma_finals_append(told, engine::common(slot).all_finals);
    lemma_prefix_trans(out, named, told);
    lemma_prefix_trans(out, told, with_slot(out, slot, last_sec));
}

proof fn lemma_occurs_in_prefix(s: Seq<char>, t: Seq<char>, needle: Seq<char>)
    requires
        s.is_prefix_of(t),
        text::occurs(s, needle),
    ensures
        text::occurs(t, needle),
{
    let i = choose|i: int| text::stands_at(s, needle, i);
    assert(t.subrange(0, s.len() as int) =~= s);
    assert(t.subrange(i, i + needle.len()) =~= s.subrange(i, i + needle.len()));
    assert(text::stands_at(t, needle, i));
}

/// The line of the item at place `k` of a numbered list.
pub open spec fn numbered_line(items: Seq<Seq<char>>, k: int) -> Seq<char> {
    number::dec((k + 1) as nat) + ". "@ + text::trim(items[k]) + "\n"@
}

proof fn lemma_numbered_holds(out: Seq<char>, items: Seq<Seq<char>>, n: nat, k: int)
    requires
        0 <= k < n,
    ensures
        text::occurs(with_numbered(out, items, n), numbered_line(items, k)),
    decreases n,
{
    let before = with_numbered(out, items, (n - 1) as nat);
    let line = numbered_line(items, n - 1);
    let all = with_numbered(out, items, n);
    assert(all =~= before + line);
    if k == n - 1 {
        assert(all.subrange(before.len() as int, before.len() as int + line.len()) =~= line);
        assert(text::stands_at(all, line, before.len() as int));
    } else {
        lemma_numbered_holds(out, items, (n - 1) as nat, k);
        lemma_prefix_of_sum(before, line);
        lemma_occurs_in_prefix(before, all, numbered_line(items, k));
    }
}

proof fn lemma_slots_hold(
    out: Seq<char>,
    slots: Seq<AnyView>,
    last_secs: Seq<Seq<char>>,
    n: nat,
    i: int,
    k: int,
)
    requires
        0 <= i < n <= slots.len(),
        0 <= k < engine::common(slots[i]).all_finals.len(),
    ensures
        text::occurs(
            with_slots(out, slots, last_secs, n),
            numbered_line(engine::common(slots[i]).all_finals, k),
        ),
    decreases n,
{
    let before = with_slots(out, slots, last_secs, (n - 1) as nat);
    let slot = slots[n - 1];
    lemma_slot_appends(before, slot, last_secs[n - 1]);
    if i < n - 1 {
        lemma_slots_hold(out, slots, last_secs, (n - 1) as nat, i, k);
        lemma_occurs_in_prefix(
            before,
            with_slots(out, slots, last_secs, n),
            numbered_line(engine::common(slots[i]).all_finals, k),
        );
    } else {
        let finals = engine::common(slot).all_finals;
        let told = before_finals(before, slot, last_secs[n - 1]);
        lemma_numbered_holds(
            told + "final_count: "@ + number::dec(finals.len()) + "\n\n"@,
            finals,
            finals.len(),
            k,
        );
    }
}

/// Every text that a slot has ended with stands in the report, numbered in
/// order.
pub proof fn law_report_holds_every_final<T>(
    v: AppView<T>,
    elapsed_secs: nat,
    t: ReportTexts,
    active: int,
    i: int,
    k: int,
)
    requires
        0 <= i < v.slots.len(),
        0 <= k < engine::common(v.slots[i]).all_finals.len(),
    ensures
        text::occurs(
            report_text(v, elapsed_secs, t, active),
            numbered_line(engine::common(v.slots[i]).all_finals, k),
        ),
{
    let front = report_front(v, elapsed_secs, t, active);
    let counted = match first_segmenter(v.slots, 0) {
        Some(seg) => with_stats(
            front,
            seg.config.name@,
            seg.stats,
            t.avg_cut_latency_ms@,
            t.avg_words_per_segment@,
        ),
        None => front,
    };
    lemma_slots_hold(
        counted + "\n## ASR Results\n"@,
        v.slots,
        text::texts(t.last_segment_sec@),
        v.slots.len(),
        i,
        k,
    );
}

/// The section on sentence cuts names every count, each behind its own name.
pub proof fn law_stats_name_every_count(
    out: Seq<char>,
    config: Seq<char>,
    st: SegStats,
    latency: Seq<char>,
    words: Seq<char>,
)
    ensures
        text::occurs(with_stats(out, config, st, latency, words), "\n## Segmentation Stats\n\n- config: "@ + config + "\n"@),
        text::occurs(with_stats(out, config, st, latency, words), "\n- punct_candidate_count: "@ + number::dec(st.punct_candidate_count as nat) + "\n"@),
        text::occurs(with_stats(out, config, st, latency, words), "\n- punct_success_count: "@ + number::dec(st.punct_success_count as nat) + "\n"@),
        text::occurs(with_stats(out, config, st, latency, words), "\n- punct_regret_count: "@ + number::dec(st.punct_regret_count as nat) + "\n"@),
        text::occurs(with_stats(out, config, st, latency, words), "\n- no_punct_fallback_count: "@ + number::dec(st.no_punct_fallback_count as nat) + "\n"@),
        text::occurs(with_stats(out, config, st, latency, words), "\n- extreme_cut_count: "@ + number::dec(st.extreme_cut_count as nat) + "\n"@),
        text::occurs(with_stats(out, config, st, latency, words), "\n- avg_cut_latency_ms: "@ + latency + "\n"@),
        text::occurs(with_stats(out, config, st, latency, words), "\n- avg_words_per_segment: "@ + words + "\n"@),
        text::occurs(with_stats(out, config, st, latency, words), "\n- repeat_risk_count: "@ + number::dec(st.repeat_risk_count as nat) + "\n"@),
        text::occurs(with_stats(out, config, st, latency, words), "\n- missing_word_risk_count: "@ + number::dec(st.missing_word_risk_count as nat) + "\n"@),
        text::occurs(with_stats(out, config, st, latency, words), "\n- total_segment_count: "@ + number::dec(st.total_segment_count as nat) + "\n"@),
{
    let q0 = Seq::<Seq<char>>::empty();
    let q1 = q0.push(out);
    text::lemma_strung_push(q0, out);
    let q2 = q1.push("\n## Segmentation Stats\n\n- config: "@);
    text::lemma_strung_push(q1, "\n## Segmentation Stats\n\n- config: "@);
    let q3 = q2.push(config);
    text::lemma_strung_push(q2, config);
    let q4 = q3.push("\n- punct_candidate_count: "@);
    text::lemma_strung_push(q3, "\n- punct_candidate_count: "@);
    let q5 = q4.push(number::dec(st.punct_candidate_count as nat));
    text::lemma_strung_push(q4, number::dec(st.punct_candidate_count as nat));
    let q6 = q5.push("\n- punct_success_count: "@);
    text::lemma_strung_push(q5, "\n- punct_success_count: "@);
    let q7 = q6.push(number::dec(st.punct_success_count as nat));
    text::lemma_strung_push(q6, number::dec(st.punct_success_count as nat));
    let q8 = q7.push("\n- punct_regret_count: "@);
    text::lemma_strung_push(q7, "\n- punct_regret_count: "@);
    let q9 = q8.push(number::dec(st.punct_regret_count as nat));
    text::lemma_strung_push(q8, number::dec(st.punct_regret_count as nat));
    let q10 = q9.push("\n- no_punct_fallback_count: "@);
    text::lemma_strung_push(q9, "\n- no_punct_fallback_count: "@);
    let q11 = q10.push(number::dec(st.no_punct_fallback_count as nat));
    text::lemma_strung_push(q10, number::dec(st.no_punct_fallback_count as nat));
    let q12 = q11.push("\n- extreme_cut_count: "@);
    text::lemma_strung_push(q11, "\n- extreme_cut_count: "@);
    let q13 = q12.push(number::dec(st.extreme_cut_count as nat));
    text::lemma_strung_push(q12, number::dec(st.extreme_cut_count as nat));
    let q14 = q13.push("\n- avg_cut_latency_ms: "@);
    text::lemma_strung_push(q13, "\n- avg_cut_latency_ms: "@);
    let q15 = q14.push(latency);
    text::lemma_strung_push(q14, latency);
    let q16 = q15.push("\n- avg_words_per_segment: "@);
    text::lemma_strung_push(q15, "\n- avg_words_per_segment: "@);
    let q17 = q16.push(words);
    text::lemma_strung_push(q16, words);
    let q18 = q17.push("\n- repeat_risk_count: "@);
    text::lemma_strung_push(q17, "\n- repeat_risk_count: "@);
    let q19 = q18.push(number::dec(st.repeat_risk_count as nat));
    text::lemma_strung_push(q18, number::dec(st.repeat_risk_count as nat));
    let q20 = q19.push("\n- missing_word_risk_count: "@);
    text::lemma_strung_push(q19, "\n- missing_word_risk_count: "@);
    let q21 = q20.push(number::dec(st.missing_word_risk_count as nat));
    text::lemma_strung_push(q20, number::dec(st.missing_word_risk_count as nat));
    let q22 = q21.push("\n- total_segment_count: "@);
    text::lemma_strung_push(q21, "\n- total_segment_count: "@);
    let q23 = q22.push(number::dec(st.total_segment_count as nat));
    text::lemma_strung_push(q22, number::dec(st.total_segment_count as nat));
    let q24 = q23.push("\n\n"@);
    text::lemma_strung_push(q23, "\n\n"@);
    assert(text::strung(q1) =~= out);
    assert(text::strung(q24) == with_stats(out, config, st, latency, words));
    reveal_strlit("\n- punct_candidate_count: ");
    reveal_strlit("\n");
    reveal_strlit("\n- punct_success_count: ");
    reveal_strlit("\n- punct_regret_count: ");
    reveal_strlit("\n- no_punct_fallback_count: ");
    reveal_strlit("\n- extreme_cut_count: ");
    reveal_strlit("\n- avg_cut_latency_ms: ");
    reveal_strlit("\n- avg_words_per_segment: ");
    reveal_strlit("\n- repeat_risk_count: ");
    reveal_strlit("\n- missing_word_risk_count: ");
    reveal_strlit("\n- total_segment_count: ");
    reveal_strlit("\n\n");
    assert("\n- punct_candidate_count: "@.subrange(0, "\n"@.len() as int) =~= "\n"@);
    text::lemma_strung_line(q24, 1, "\n"@);
    assert("\n- punct_success_count: "@.subrange(0, "\n"@.len() as int) =~= "\n"@);
    text::lemma_strung_line(q24, 3, "\n"@);
    assert("\n- punct_regret_count: "@.subrange(0, "\n"@.len() as int) =~= "\n"@);
    text::lemma_strung_line(q24, 5, "\n"@);
    assert("\n- no_punct_fallback_count: "@.subrange(0, "\n"@.len() as int) =~= "\n"@);
    text::lemma_strung_line(q24, 7, "\n"@);
    assert("\n- extreme_cut_count: "@.subrange(0, "\n"@.len() as int) =~= "\n"@);
    text::lemma_strung_line(q24, 9, "\n"@);
    assert("\n- avg_cut_latency_ms: "@.subrange(0, "\n"@.len() as int) =~= "\n"@);
    text::lemma_strung_line(q24, 11, "\n"@);
    assert("\n- avg_words_per_segment: "@.subrange(0, "\n"@.len() as int) =~= "\n"@);
    text::lemma_strung_line(q24, 13, "\n"@);
    assert("\n- repeat_risk_count: "@.subrange(0, "\n"@.len() as int) =~= "\n"@);
    text::lemma_strung_line(q24, 15, "\n"@);
    assert("\n- missing_word_risk_count: "@.subrange(0, "\n"@.len() as int) =~= "\n"@);
    text::lemma_strung_line(q24, 17, "\n"@);
    assert("\n- total_segment_count: "@.subrange(0, "\n"@.len() as int) =~= "\n"@);
    text::lemma_strung_line(q24, 19, "\n"@);
    assert("\n\n"@.subrange(0, "\n"@.len() as int) =~= "\n"@);
    text::lemma_strung_line(q24, 21, "\n"@);
}

/// The first slot with a segmenter is the one whose statistics are told.
pub proof fn law_first_segmenter_is_told(slots: Seq<AnyView>, i: int, from: int)
    requires
        0 <= from <= i < slots.len(),
        slots[i] matches AnyView::Online(s) && s.segmenter is Some,
        forall|j: int|
            from <= j < i ==> (#[trigger] slots[j] matches AnyView::Online(s) ==> s.segmenter
                is None),
    ensures
        first_segmenter(slots, from) == slots[i]->Online_0.segmenter,
    decreases i - from,
{
    if from < i {
        law_first_segmenter_is_told(slots, i, from + 1);
    }
}

proof fn lemma_slots_append(
    out: Seq<char>,
    slots: Seq<AnyView>,
    last_secs: Seq<Seq<char>>,
    n: nat,
)
    ensures
        out.is_prefix_of(with_slots(out, slots, last_secs, n)),
    decreases n,
{
    if n == 0 {
        assert(out.subrange(0, out.len() as int) =~= out);
    } else {
        let before = with_slots(out, slots, last_secs, (n - 1) as nat);
        lemma_slots_append(out, slots, last_secs, (n - 1) as nat);
        lemma_slot_appends(before, slots[n - 1], last_secs[n - 1]);
        lemma_prefix_trans(out, before, with_slots(out, slots, last_secs, n));
    }
}

/// What is told before the slots.
spec fn before_slots<T>(v: AppView<T>, elapsed_secs: nat, t: ReportTexts, active: int) -> Seq<char> {
    let front = report_front(v, elapsed_secs, t, active);
    match first_segmenter(v.slots, 0) {
        Some(seg) => with_stats(
            front,
            seg.config.name@,
            seg.stats,
            t.avg_cut_latency_ms@,
            t.avg_words_per_segment@,
        ),
        None => front,
    }
}

proof fn lemma_stats_append(
    out: Seq<char>,
    config: Seq<char>,
    st: SegStats,
    latency: Seq<char>,
    words: Seq<char>,
)
    ensures
        out.is_prefix_of(with_stats(out, config, st, latency, words)),
{
    assert(with_stats(out, config, st, latency, words).subrange(0, out.len() as int) =~= out);
}

proof fn lemma_occurs_in_report<T>(
    v: AppView<T>,
    elapsed_secs: nat,
    t: ReportTexts,
    active: int,
    part: Seq<char>,
    needle: Seq<char>,
)
    requires
        part.is_prefix_of(before_slots(v, elapsed_secs, t, active)),
        text::occurs(part, needle),
    ensures
        text::occurs(report_text(v, elapsed_secs, t, active), needle),
{
    let counted = before_slots(v, elapsed_secs, t, active);
    let titled = counted + "\n## ASR Results\n"@;
    let secs = text::texts(t.last_segment_sec@);
    lemma_occurs_in_prefix(part, counted, needle);
    text::lemma_occurs_in_front(counted, "\n## ASR Results\n"@, needle);
    lemma_slots_append(titled, v.slots, secs, v.slots.len());
    lemma_occurs_in_prefix(titled, report_text(v, elapsed_secs, t, active), needle);
}

/// Where a slot has a segmenter the report names the counts of the first of them,
/// each on a line of its own behind its own name.
pub proof fn law_report_names_every_count<T>(
    v: AppView<T>,
    elapsed_secs: nat,
    t: ReportTexts,
    active: int,
    i: int,
)
    requires
        0 <= i < v.slots.len(),
        v.slots[i] matches AnyView::Online(s) && s.segmenter is Some,
        forall|j: int|
            0 <= j < i ==> (#[trigger] v.slots[j] matches AnyView::Online(s) ==> s.segmenter
                is None),
    ensures
        ({
            let r = report_text(v, elapsed_secs, t, active);
            let seg = v.slots[i]->Online_0.segmenter->0;
            &&& text::occurs(r, "\n## Segmentation Stats\n\n- config: "@ + seg.config.name@ + "\n"@)
            &&& text::occurs(r, "\n- punct_candidate_count: "@ + number::dec(seg.stats.punct_candidate_count as nat) + "\n"@)
            &&& text::occurs(r, "\n- punct_success_count: "@ + number::dec(seg.stats.punct_success_count as nat) + "\n"@)
            &&& text::occurs(r, "\n- punct_regret_count: "@ + number::dec(seg.stats.punct_regret_count as nat) + "\n"@)
            &&& text::occurs(r, "\n- no_punct_fallback_count: "@ + number::dec(seg.stats.no_punct_fallback_count as nat) + "\n"@)
            &&& text::occurs(r, "\n- extreme_cut_count: "@ + number::dec(seg.stats.extreme_cut_count as nat) + "\n"@)
            &&& text::occurs(r, "\n- avg_cut_latency_ms: "@ + t.avg_cut_latency_ms@ + "\n"@)
            &&& text::occurs(r, "\n- avg_words_per_segment: "@ + t.avg_words_per_segment@ + "\n"@)
            &&& text::occurs(r, "\n- repeat_risk_count: "@ + number::dec(seg.stats.repeat_risk_count as nat) + "\n"@)
            &&& text::occurs(r, "\n- missing_word_risk_count: "@ + number::dec(seg.stats.missing_word_risk_count as nat) + "\n"@)
            &&& text::occurs(r, "\n- total_segment_count: "@ + number::dec(seg.stats.total_segment_count as nat) + "\n"@)
        }),
{
    let seg = v.slots[i]->Online_0.segmenter->0;
    let front = report_front(v, elapsed_secs, t, active);
    let counted = before_slots(v, elapsed_secs, t, active);
    law_first_segmenter_is_told(v.slots, i, 0);
    law_stats_name_every_count(
        front,
        seg.config.name@,
        seg.stats,
        t.avg_cut_latency_ms@,
        t.avg_words_per_segment@,
    );
    assert(counted.subrange(0, counted.len() as int) =~= counted);
    lemma_occurs_in_report(v, elapsed_secs, t, active, counted, "\n## Segmentation Stats\n\n- config: "@ + seg.config.name@ + "\n"@);
    lemma_occurs_in_report(v, elapsed_secs, t, active, counted, "\n- punct_candidate_count: "@ + number::dec(seg.stats.punct_candidate_count as nat) + "\n"@);
    lemma_occurs_in_report(v, elapsed_secs, t, active, counted, "\n- punct_success_count: "@ + number::dec(seg.stats.punct_success_count as nat) + "\n"@);
    lemma_occurs_in_report(v, elapsed_secs, t, active, counted, "\n- punct_regret_count: "@ + number::dec(seg.stats.punct_regret_count as nat) + "\n"@);
    lemma_occurs_in_report(v, elapsed_secs, t, active, counted, "\n- no_punct_fallback_count: "@ + number::dec(seg.stats.no_punct_fallback_count as nat) + "\n"@);
    lemma_occurs_in_report(v, elapsed_secs, t, active, counted, "\n- extreme_cut_count: "@ + number::dec(seg.stats.extreme_cut_count as nat) + "\n"@);
    lemma_occurs_in_report(v, elapsed_secs, t, active, counted, "\n- avg_cut_latency_ms: "@ + t.avg_cut_latency_ms@ + "\n"@);
    lemma_occurs_in_report(v, elapsed_secs, t, active, counted, "\n- avg_words_per_segment: "@ + t.avg_words_per_segment@ + "\n"@);
    lemma_occurs_in_report(v, elapsed_secs, t, active, counted, "\n- repeat_risk_count: "@ + number::dec(seg.stats.repeat_risk_count as nat) + "\n"@);
    lemma_occurs_in_report(v, elapsed_secs, t, active, counted, "\n- missing_word_risk_count: "@ + number::dec(seg.stats.missing_word_risk_count as nat) + "\n"@);
    lemma_occurs_in_report(v, elapsed_secs, t, active, counted, "\n- total_segment_count: "@ + number::dec(seg.stats.total_segment_count as nat) + "\n"@);
}

/// The report begins with its title, the source and how long the program ran.
pub proof fn law_report_begins_with_the_source<T>(
    v: AppView<T>,
    elapsed_secs: nat,
    t: ReportTexts,
    active: int,
    mins: nat,
    secs: nat,
)
    requires
        elapsed_secs == 60 * mins + secs,
        secs < 60,
    ensures
        ("# ASR Compare Report\n\n- source: "@ + v.source_label + "\n- runtime: "@ + number::dec(
            mins,
        ) + "分"@ + number::dec(secs) + "秒\n"@).is_prefix_of(
            report_text(v, elapsed_secs, t, active),
        ),
{
    let opened = head(v.source_label, elapsed_secs);
    let start = "# ASR Compare Report\n\n- source: "@ + v.source_label + "\n- runtime: "@
        + number::dec(mins) + "分"@ + number::dec(secs) + "秒\n"@;
    reveal_strlit("秒\n");
    reveal_strlit("秒");
    reveal_strlit("\n");
    assert("秒\n"@ =~= "秒"@ + "\n"@);
    assert(elapsed_secs / 60 == mins && elapsed_secs % 60 == secs);
    assert(opened =~= start);
    lemma_front_begins_with_head(v, elapsed_secs, t, active);
    lemma_counted_appends(v, elapsed_secs, t, active);
    let counted = before_slots(v, elapsed_secs, t, active);
    let titled = counted + "\n## ASR Results\n"@;
    lemma_prefix_trans(opened, report_front(v, elapsed_secs, t, active), counted);
    lemma_prefix_of_sum(counted, "\n## ASR Results\n"@);
    lemma_prefix_trans(opened, counted, titled);
    lemma_slots_append(titled, v.slots, text::texts(t.last_segment_sec@), v.slots.len());
    lemma_prefix_trans(opened, titled, report_text(v, elapsed_secs, t, active));
}

proof fn lemma_counted_appends<T>(v: AppView<T>, elapsed_secs: nat, t: ReportTexts, active: int)
    ensures
        report_front(v, elapsed_secs, t, active).is_prefix_of(
            before_slots(v, elapsed_secs, t, active),
        ),
{
    let front = report_front(v, elapsed_secs, t, active);
    match first_segmenter(v.slots, 0) {
        Some(seg) => lemma_stats_append(
            front,
            seg.config.name@,
            seg.stats,
            t.avg_cut_latency_ms@,
            t.avg_words_per_segment@,
        ),
        None => {
            assert(front.subrange(0, front.len() as int) =~= front);
        },
    }
}

proof fn lemma_cues_append_one(
    out: Seq<char>,
    cues: Seq<CueView>,
    active: int,
    from: int,
    upto: int,
)
    requires
        from < upto,
    ensures
        with_cues(out, cues, active, from, upto - 1).is_prefix_of(
            with_cues(out, cues, active, from, upto),
        ),
{
    let before = with_cues(out, cues, active, from, upto - 1);
    assert(with_cues(out, cues, active, from, upto).subrange(0, before.len() as int) =~= before);
}

proof fn lemma_cues_append(out: Seq<char>, cues: Seq<CueView>, active: int, from: int, upto: int)
    ensures
        out.is_prefix_of(with_cues(out, cues, active, from, upto)),
    decreases upto - from,
{
    if upto <= from {
        assert(out.subrange(0, out.len() as int) =~= out);
    } else {
        let before = with_cues(out, cues, active, from, upto - 1);
        lemma_cues_append(out, cues, active, from, upto - 1);
        lemma_cues_append_one(out, cues, active, from, upto);
        lemma_prefix_trans(out, before, with_cues(out, cues, active, from, upto));
    }
}

/// What is told of the media before its subtitles.
spec fn media_intro(out: Seq<char>, m: MediaView) -> Seq<char> {
    out + "- audio: "@ + m.audio_path + "\n- subtitle: "@ + m.srt_path + "\n- position: "@
        + media::media_time(m.position_ms) + " ("@ + media::seconds_text(m.position_ms)
        + "s)\n\n## Subtitle Context\n\n"@
}

proof fn lemma_media_appends(out: Seq<char>, m: MediaView, active: int)
    ensures
        out.is_prefix_of(with_media(out, m, active)),
        media_intro(out, m).is_prefix_of(with_media(out, m, active)),
{
    let intro = media_intro(out, m);
    assert(intro.subrange(0, out.len() as int) =~= out);
    if m.cues.len() == 0 {
        lemma_prefix_of_sum(intro, "<no subtitles parsed>\n"@);
    } else {
        lemma_cues_append(
            intro,
            m.cues,
            active,
            first_cue(active),
            last_cue(active, m.cues.len() as int),
        );
    }
    lemma_prefix_trans(out, intro, with_media(out, m, active));
}

proof fn lemma_front_begins_with_head<T>(
    v: AppView<T>,
    elapsed_secs: nat,
    t: ReportTexts,
    active: int,
)
    ensures
        head(v.source_label, elapsed_secs).is_prefix_of(report_front(v, elapsed_secs, t, active)),
        v.media matches Some(m) ==> with_media(
            head(v.source_label, elapsed_secs),
            m,
            active,
        ).is_prefix_of(report_front(v, elapsed_secs, t, active)),
{
    let opened = head(v.source_label, elapsed_secs);
    match v.media {
        Some(m) => {
            let told = with_media(opened, m, active);
            lemma_media_appends(opened, m, active);
            vad::lemma_vad_report_appends(told, v.vad, t.vad);
            lemma_prefix_trans(opened, told, report_front(v, elapsed_secs, t, active));
        },
        None => vad::lemma_vad_report_appends(opened, v.vad, t.vad),
    }
}

/// The section on the media names the audio, its subtitles and the position, as a
/// time and in seconds, and says so if there are no subtitles.
pub proof fn law_media_section_names_the_audio(out: Seq<char>, m: MediaView, active: int)
    ensures
        ({
            let r = with_media(out, m, active);
            &&& text::occurs(r, "- audio: "@ + m.audio_path + "\n"@)
            &&& text::occurs(r, "\n- subtitle: "@ + m.srt_path + "\n"@)
            &&& text::occurs(r, "\n- position: "@ + media::media_time(m.position_ms) + " ("@)
            &&& text::occurs(r, " ("@ + media::seconds_text(m.position_ms) + "s)\n"@)
            &&& text::occurs(r, "\n## Subtitle Context\n\n"@)
            &&& m.cues.len() == 0 ==> text::occurs(r, "<no subtitles parsed>\n"@)
        }),
{
    let r = with_media(out, m, active);
    let intro = media_intro(out, m);
    lemma_media_appends(out, m, active);
    let q0 = Seq::<Seq<char>>::empty();
    let q1 = q0.push(out);
    text::lemma_strung_push(q0, out);
    let q2 = q1.push("- audio: "@);
    text::lemma_strung_push(q1, "- audio: "@);
    let q3 = q2.push(m.audio_path);
    text::lemma_strung_push(q2, m.audio_path);
    let q4 = q3.push("\n- subtitle: "@);
    text::lemma_strung_push(q3, "\n- subtitle: "@);
    let q5 = q4.push(m.srt_path);
    text::lemma_strung_push(q4, m.srt_path);
    let q6 = q5.push("\n- position: "@);
    text::lemma_strung_push(q5, "\n- position: "@);
    let q7 = q6.push(media::media_time(m.position_ms));
    text::lemma_strung_push(q6, media::media_time(m.position_ms));
    let q8 = q7.push(" ("@);
    text::lemma_strung_push(q7, " ("@);
    let q9 = q8.push(media::seconds_text(m.position_ms));
    text::lemma_strung_push(q8, media::seconds_text(m.position_ms));
    let q10 = q9.push("s)\n\n## Subtitle Context\n\n"@);
    text::lemma_strung_push(q9, "s)\n\n## Subtitle Context\n\n"@);
    assert(text::strung(q1) =~= out);
    assert(text::strung(q10) == intro);
    reveal_strlit("\n- subtitle: ");
    reveal_strlit("\n");
    reveal_strlit("\n- position: ");
    reveal_strlit(" (");
    reveal_strlit("s)\n\n## Subtitle Context\n\n");
    reveal_strlit("s)\n");
    assert("\n- subtitle: "@.subrange(0, "\n"@.len() as int) =~= "\n"@);
    text::lemma_strung_line(q10, 1, "\n"@);
    assert("\n- position: "@.subrange(0, "\n"@.len() as int) =~= "\n"@);
    text::lemma_strung_line(q10, 3, "\n"@);
    assert(" ("@.subrange(0, " ("@.len() as int) =~= " ("@);
    text::lemma_strung_line(q10, 5, " ("@);
    assert("s)\n\n## Subtitle Context\n\n"@.subrange(0, "s)\n"@.len() as int) =~= "s)\n"@);
    text::lemma_strung_line(q10, 7, "s)\n"@);
    lemma_occurs_in_prefix(intro, r, "- audio: "@ + m.audio_path + "\n"@);
    lemma_occurs_in_prefix(intro, r, "\n- subtitle: "@ + m.srt_path + "\n"@);
    lemma_occurs_in_prefix(intro, r, "\n- position: "@ + media::media_time(m.position_ms) + " ("@);
    lemma_occurs_in_prefix(intro, r, " ("@ + media::seconds_text(m.position_ms) + "s)\n"@);
    reveal_strlit("s)\n\n## Subtitle Context\n\n");
    reveal_strlit("\n## Subtitle Context\n\n");
    let title = "\n## Subtitle Context\n\n"@;
    let last = "s)\n\n## Subtitle Context\n\n"@;
    let e = Seq::<char>::empty();
    let before = intro.take(intro.len() - title.len());
    assert(last.skip(3) =~= title);
    assert(before + title + e =~= intro) by {
        assert(intro.skip(intro.len() - title.len()) =~= title);
    }
    text::law_occurs_in_the_middle(before, title, e, e);
    lemma_occurs_in_prefix(intro, r, title);
    if m.cues.len() == 0 {
        let none = "<no subtitles parsed>\n"@;
        text::law_occurs_in_the_middle(intro, none, e, e);
        assert(intro + none + e =~= r);
    }
}

proof fn lemma_cue_is_told(
    out: Seq<char>,
    cues: Seq<CueView>,
    active: int,
    from: int,
    upto: int,
    i: int,
)
    requires
        from <= i < upto,
    ensures
        text::occurs(
            with_cues(out, cues, active, from, upto),
            (if cues[i].index == cues[active].index {
                "> ["@
            } else {
                "- ["@
            }) + media::media_time(cues[i].start_ms) + " - "@ + media::media_time(cues[i].end_ms)
                + "] "@ + cues[i].text + "\n"@,
        ),
    decreases upto - from,
{
    let before = with_cues(out, cues, active, from, upto - 1);
    let all = with_cues(out, cues, active, from, upto);
    let line = (if cues[i].index == cues[active].index {
        "> ["@
    } else {
        "- ["@
    }) + media::media_time(cues[i].start_ms) + " - "@ + media::media_time(cues[i].end_ms) + "] "@
        + cues[i].text + "\n"@;
    if i < upto - 1 {
        lemma_cue_is_told(out, cues, active, from, upto - 1, i);
        lemma_cues_append_one(out, cues, active, from, upto);
        lemma_occurs_in_prefix(before, all, line);
    } else {
        lemma_cue_marks();
        let mark = if cues[i].index == cues[active].index {
            ">"@
        } else {
            "-"@
        };
        lemma_line_behind(
            before,
            mark,
            media::media_time(cues[i].start_ms),
            media::media_time(cues[i].end_ms),
            cues[i].text,
        );
        lemma_occurs_at_the_end(before, line);
    }
}

proof fn lemma_line_behind(
    out: Seq<char>,
    mark: Seq<char>,
    start: Seq<char>,
    end: Seq<char>,
    text: Seq<char>,
)
    ensures
        out + mark + " ["@ + start + " - "@ + end + "] "@ + text + "\n"@ == out + (mark + " ["@
            + start + " - "@ + end + "] "@ + text + "\n"@),
{
    let l1 = mark + " ["@;
    let l2 = l1 + start;
    let l3 = l2 + " - "@;
    let l4 = l3 + end;
    let l5 = l4 + "] "@;
    let l6 = l5 + text;
    lemma_regrouped(out, mark, " ["@);
    lemma_regrouped(out, l1, start);
    lemma_regrouped(out, l2, " - "@);
    lemma_regrouped(out, l3, end);
    lemma_regrouped(out, l4, "] "@);
    lemma_regrouped(out, l5, text);
    lemma_regrouped(out, l6, "\n"@);
}

proof fn lemma_cue_marks()
    ensures
        "> ["@ == ">"@ + " ["@,
        "- ["@ == "-"@ + " ["@,
{
    reveal_strlit("> [");
    reveal_strlit("- [");
    reveal_strlit(" [");
    reveal_strlit(">");
    reveal_strlit("-");
    assert("> ["@ =~= ">"@ + " ["@);
    assert("- ["@ =~= "-"@ + " ["@);
}

proof fn lemma_regrouped(a: Seq<char>, b: Seq<char>, c: Seq<char>)
    ensures
        a + (b + c) == a + b + c,
{
    assert(a + (b + c) =~= a + b + c);
}

proof fn lemma_occurs_at_the_end(s: Seq<char>, needle: Seq<char>)
    ensures
        text::occurs(s + needle, needle),
{
    let e = Seq::<char>::empty();
    text::law_occurs_in_the_middle(s, needle, e, e);
    assert(s + needle + e =~= s + needle);
}

/// The three subtitles before the current one, the current one and the three
/// behind it stand in the report with their times and their text; those with the
/// number of the current one are marked.
pub proof fn law_report_holds_the_subtitles_around<T>(
    v: AppView<T>,
    elapsed_secs: nat,
    t: ReportTexts,
    active: int,
    i: int,
)
    requires
        v.media matches Some(m) && 0 <= active < m.cues.len() && 0 <= i < m.cues.len(),
        active - 3 <= i <= active + 3,
    ensures
        ({
            let cues = v.media->0.cues;
            text::occurs(
                report_text(v, elapsed_secs, t, active),
                (if cues[i].index == cues[active].index {
                    "> ["@
                } else {
                    "- ["@
                }) + media::media_time(cues[i].start_ms) + " - "@ + media::media_time(
                    cues[i].end_ms,
                ) + "] "@ + cues[i].text + "\n"@,
            )
        }),
{
    let m = v.media->0;
    let cues = m.cues;
    let opened = head(v.source_label, elapsed_secs);
    let told = with_media(opened, m, active);
    lemma_cue_is_told(
        media_intro(opened, m),
        cues,
        active,
        first_cue(active),
        last_cue(active, cues.len() as int),
        i,
    );
    lemma_front_begins_with_head(v, elapsed_secs, t, active);
    lemma_counted_appends(v, elapsed_secs, t, active);
    lemma_prefix_trans(
        told,
        report_front(v, elapsed_secs, t, active),
        before_slots(v, elapsed_secs, t, active),
    );
    lemma_occurs_in_report(
        v,
        elapsed_secs,
        t,
        active,
        told,
        (if cues[i].index == cues[active].index {
            "> ["@
        } else {
            "- ["@
        }) + media::media_time(cues[i].start_ms) + " - "@ + media::media_time(cues[i].end_ms)
            + "] "@ + cues[i].text + "\n"@,
    );
}

/// A report is written to a file of its own second.
pub proof fn law_report_file_is_named_by_its_second(secs: nat)
    ensures
        report_path(secs) == "reports/asr_report_"@ + number::dec(secs) + ".md"@,
{
}

/// What is told of slot `i` behind what was told of those before it.
spec fn told_of<T>(v: AppView<T>, elapsed_secs: nat, t: ReportTexts, active: int, i: int) -> Seq<char> {
    let secs = text::texts(t.last_segment_sec@);
    with_slots(
        before_slots(v, elapsed_secs, t, active) + "\n## ASR Results\n"@,
        v.slots,
        secs,
        (i + 1) as nat,
    )
}

proof fn lemma_more_slots_append(
    out: Seq<char>,
    slots: Seq<AnyView>,
    last_secs: Seq<Seq<char>>,
    few: nat,
    many: nat,
)
    requires
        few <= many,
    ensures
        with_slots(out, slots, last_secs, few).is_prefix_of(
            with_slots(out, slots, last_secs, many),
        ),
    decreases many,
{
    let part = with_slots(out, slots, last_secs, few);
    if few == many {
        assert(part.subrange(0, part.len() as int) =~= part);
    } else {
        let before = with_slots(out, slots, last_secs, (many - 1) as nat);
        lemma_more_slots_append(out, slots, last_secs, few, (many - 1) as nat);
        lemma_slot_appends(before, slots[many - 1], last_secs[many - 1]);
        lemma_prefix_trans(part, before, with_slots(out, slots, last_secs, many));
    }
}

proof fn lemma_told_of_slot<T>(
    v: AppView<T>,
    elapsed_secs: nat,
    t: ReportTexts,
    active: int,
    i: int,
    part: Seq<char>,
    needle: Seq<char>,
)
    requires
        0 <= i < v.slots.len(),
        part.is_prefix_of(told_of(v, elapsed_secs, t, active, i)),
        text::occurs(part, needle),
    ensures
        text::occurs(report_text(v, elapsed_secs, t, active), needle),
{
    let told = told_of(v, elapsed_secs, t, active, i);
    lemma_occurs_in_prefix(part, told, needle);
    lemma_more_slots_append(
        before_slots(v, elapsed_secs, t, active) + "\n## ASR Results\n"@,
        v.slots,
        text::texts(t.last_segment_sec@),
        (i + 1) as nat,
        v.slots.len(),
    );
    lemma_occurs_in_prefix(told, report_text(v, elapsed_secs, t, active), needle);
}

proof fn lemma_occurs_before_the_end(s: Seq<char>, needle: Seq<char>, y: Seq<char>)
    ensures
        text::occurs(s + needle + y, needle),
{
    text::law_occurs_in_the_middle(s, needle, y, needle);
}

proof fn lemma_name_is_told(out: Seq<char>, slot: AnyView)
    ensures
        text::occurs(with_partial(out, slot), "\n### "@ + engine::slot_name(slot) + "\n\n"@),
        text::trim(engine::common(slot).partial).len() > 0 ==> text::occurs(
            with_partial(out, slot),
            "partial: "@ + text::trim(engine::common(slot).partial) + "\n\n"@,
        ),
{
    let name = engine::slot_name(slot);
    let partial = text::trim(engine::common(slot).partial);
    let heading = "\n### "@ + name + "\n\n"@;
    let line = "partial: "@ + partial + "\n\n"@;
    let named = out + "\n### "@ + name + "\n\n"@;
    assert(named =~= out + heading);
    lemma_occurs_at_the_end(out, heading);
    if partial.len() > 0 {
        let all = with_partial(out, slot);
        assert(all =~= named + line);
        lemma_occurs_at_the_end(named, line);
        text::lemma_occurs_in_front(named, line, heading);
    }
}

/// The report names every slot and what it is about to say.
pub proof fn law_report_names_every_slot<T>(
    v: AppView<T>,
    elapsed_secs: nat,
    t: ReportTexts,
    active: int,
    i: int,
)
    requires
        0 <= i < v.slots.len(),
    ensures
        ({
            let r = report_text(v, elapsed_secs, t, active);
            let (name, partial) = match v.slots[i] {
                AnyView::Online(s) => (s.name, s.partial),
                AnyView::Offline(s) => (s.name, s.partial),
            };
            &&& text::occurs(r, "\n### "@ + name + "\n\n"@)
            &&& text::trim(partial).len() > 0 ==> text::occurs(
                r,
                "partial: "@ + text::trim(partial) + "\n\n"@,
            )
        }),
{
    let slot = v.slots[i];
    let secs = text::texts(t.last_segment_sec@);
    let before = with_slots(
        before_slots(v, elapsed_secs, t, active) + "\n## ASR Results\n"@,
        v.slots,
        secs,
        i as nat,
    );
    let named = with_partial(before, slot);
    lemma_name_is_told(before, slot);
    lemma_partial_in_slot(before, slot, secs[i]);
    let heading = "\n### "@ + engine::slot_name(slot) + "\n\n"@;
    let line = "partial: "@ + text::trim(engine::common(slot).partial) + "\n\n"@;
    lemma_told_of_slot(v, elapsed_secs, t, active, i, named, heading);
    if text::trim(engine::common(slot).partial).len() > 0 {
        lemma_told_of_slot(v, elapsed_secs, t, active, i, named, line);
    }
}

proof fn lemma_partial_in_slot(out: Seq<char>, slot: AnyView, last_sec: Seq<char>)
    ensures
        with_partial(out, slot).is_prefix_of(before_finals(out, slot, last_sec)),
        with_partial(out, slot).is_prefix_of(with_slot(out, slot, last_sec)),
        before_finals(out, slot, last_sec).is_prefix_of(with_slot(out, slot, last_sec)),
{
    let named = with_partial(out, slot);
    let told = before_finals(out, slot, last_sec);
    match slot {
        AnyView::Online(s) => lemma_online_appends(named, s),
        AnyView::Offline(s) => lemma_offline_appends(named, s, last_sec),
    }
    lemma_finals_append(told, engine::common(slot).all_finals);
    lemma_prefix_trans(named, told, with_slot(out, slot, last_sec));
}

/// The report tells how many texts a slot ended with, and says so if there were
/// none.
pub proof fn law_report_counts_the_finals<T>(
    v: AppView<T>,
    elapsed_secs: nat,
    t: ReportTexts,
    active: int,
    i: int,
)
    requires
        0 <= i < v.slots.len(),
    ensures
        ({
            let r = report_text(v, elapsed_secs, t, active);
            let finals = match v.slots[i] {
                AnyView::Online(s) => s.all_finals,
                AnyView::Offline(s) => s.all_finals,
            };
            &&& finals.len() == 0 ==> text::occurs(r, "finals: <none>\n"@)
            &&& finals.len() > 0 ==> text::occurs(
                r,
                "final_count: "@ + number::dec(finals.len()) + "\n\n"@,
            )
        }),
{
    let slot = v.slots[i];
    let finals = engine::common(slot).all_finals;
    let secs = text::texts(t.last_segment_sec@);
    let before = with_slots(
        before_slots(v, elapsed_secs, t, active) + "\n## ASR Results\n"@,
        v.slots,
        secs,
        i as nat,
    );
    let told = before_finals(before, slot, secs[i]);
    let all = with_slot(before, slot, secs[i]);
    if finals.len() == 0 {
        lemma_occurs_at_the_end(told, "finals: <none>\n"@);
        assert(all.subrange(0, all.len() as int) =~= all);
        lemma_told_of_slot(v, elapsed_secs, t, active, i, all, "finals: <none>\n"@);
    } else {
        let line = "final_count: "@ + number::dec(finals.len()) + "\n\n"@;
        let counted = told + "final_count: "@ + number::dec(finals.len()) + "\n\n"@;
        assert(counted =~= told + line);
        lemma_occurs_at_the_end(told, line);
        lemma_numbered_appends(counted, finals, finals.len());
        lemma_told_of_slot(v, elapsed_secs, t, active, i, counted, line);
    }
}

/// Of a slot that streams the report tells how often its partial changed, and
/// every change, numbered in order.
pub proof fn law_report_holds_the_history<T>(
    v: AppView<T>,
    elapsed_secs: nat,
    t: ReportTexts,
    active: int,
    i: int,
    k: int,
)
    requires
        0 <= i < v.slots.len(),
        v.slots[i] matches AnyView::Online(s) && 0 <= k < s.all_partials.len(),
    ensures
        ({
            let r = report_text(v, elapsed_secs, t, active);
            let history = v.slots[i]->Online_0.all_partials;
            &&& text::occurs(r, "partial_history_count: "@ + number::dec(history.len()) + "\n\n"@)
            &&& text::occurs(
                r,
                number::dec((k + 1) as nat) + ". "@ + text::trim(history[k]) + "\n"@,
            )
        }),
{
    let slot = v.slots[i];
    let s = slot->Online_0;
    let history = s.all_partials;
    let n = history.len();
    let secs = text::texts(t.last_segment_sec@);
    let before = with_slots(
        before_slots(v, elapsed_secs, t, active) + "\n## ASR Results\n"@,
        v.slots,
        secs,
        i as nat,
    );
    let named = with_partial(before, slot);
    let told = before_finals(before, slot, secs[i]);
    lemma_partial_in_slot(before, slot, secs[i]);
    let line = "partial_history_count: "@ + number::dec(n) + "\n\n"@;
    let titled = "partial_history_count: "@ + number::dec(n) + "\n\npartial_history:\n\n"@;
    let intro = named + "partial_history_count: "@ + number::dec(n) + "\n\npartial_history:\n\n"@;
    let listed = with_numbered(intro, history, n);
    assert(intro =~= named + titled);
    lemma_occurs_at_the_end(named, titled);
    reveal_strlit("\n\npartial_history:\n\n");
    reveal_strlit("\n\n");
    let rest = "\n\npartial_history:\n\n"@.skip(2);
    let e = Seq::<char>::empty();
    assert("\n\npartial_history:\n\n"@ =~= "\n\n"@ + rest);
    assert(titled =~= e + line + rest);
    text::lemma_occurs_part(intro, e, line, rest);
    lemma_numbered_appends(intro, history, n);
    lemma_occurs_in_prefix(intro, listed, line);
    lemma_numbered_holds(intro, history, n, k);
    lemma_prefix_of_sum(listed, "\n"@);
    lemma_occurs_in_prefix(listed, told, line);
    lemma_occurs_in_prefix(listed, told, numbered_line(history, k));
    lemma_told_of_slot(v, elapsed_secs, t, active, i, told, line);
    lemma_told_of_slot(v, elapsed_secs, t, active, i, told, numbered_line(history, k));
}

/// Of a slot that does not stream the report tells the family, how many stretches
/// of speech were decoded, and how long the last one was if there was one.
pub proof fn law_report_counts_the_decoded_speech<T>(
    v: AppView<T>,
    elapsed_secs: nat,
    t: ReportTexts,
    active: int,
    i: int,
)
    requires
        0 <= i < v.slots.len(),
        v.slots[i] is Offline,
        t.last_segment_sec@.len() == v.slots.len(),
    ensures
        ({
            let r = report_text(v, elapsed_secs, t, active);
            let s = v.slots[i]->Offline_0;
            &&& text::occurs(r, "- family: "@ + models::family_name(s.family) + "\n"@)
            &&& text::occurs(r, "- decoded_segments: "@ + number::dec(s.segments_decoded) + "\n"@)
            &&& s.last_segment_samples > 0 ==> text::occurs(
                r,
                "- last_decoded_segment_sec: "@ + t.last_segment_sec@[i]@ + "\n"@,
            )
        }),
{
    let slot = v.slots[i];
    let s = slot->Offline_0;
    let secs = text::texts(t.last_segment_sec@);
    let before = with_slots(
        before_slots(v, elapsed_secs, t, active) + "\n## ASR Results\n"@,
        v.slots,
        secs,
        i as nat,
    );
    let named = with_partial(before, slot);
    let told = before_finals(before, slot, secs[i]);
    lemma_partial_in_slot(before, slot, secs[i]);
    lemma_offline_is_told(named, s, secs[i]);
    lemma_told_of_slot(
        v,
        elapsed_secs,
        t,
        active,
        i,
        told,
        "- family: "@ + models::family_name(s.family) + "\n"@,
    );
    lemma_told_of_slot(
        v,
        elapsed_secs,
        t,
        active,
        i,
        told,
        "- decoded_segments: "@ + number::dec(s.segments_decoded) + "\n"@,
    );
    if s.last_segment_samples > 0 {
        lemma_told_of_slot(
            v,
            elapsed_secs,
            t,
            active,
            i,
            told,
            "- last_decoded_segment_sec: "@ + secs[i] + "\n"@,
        );
    }
}

proof fn lemma_offline_is_told(out: Seq<char>, s: OfflineView, last_sec: Seq<char>)
    ensures
        ({
            let r = with_offline(out, s, last_sec);
            &&& text::occurs(r, "- family: "@ + models::family_name(s.family) + "\n"@)
            &&& text::occurs(r, "- decoded_segments: "@ + number::dec(s.segments_decoded) + "\n"@)
            &&& s.last_segment_samples > 0 ==> text::occurs(
                r,
                "- last_decoded_segment_sec: "@ + last_sec + "\n"@,
            )
        }),
{
    let r = with_offline(out, s, last_sec);
    let family = models::family_name(s.family);
    let count = number::dec(s.segments_decoded);
    let first = "- family: "@ + family + "\n"@;
    let second = "- decoded_segments: "@ + count + "\n"@;
    let third = "- last_decoded_segment_sec: "@ + last_sec + "\n"@;
    reveal_strlit("\n- decoded_segments: ");
    reveal_strlit("- decoded_segments: ");
    reveal_strlit("\n");
    assert("\n- decoded_segments: "@ =~= "\n"@ + "- decoded_segments: "@);
    let counted = out + "- family: "@ + family + "\n- decoded_segments: "@ + count + "\n"@;
    assert(counted =~= out + first + second);
    lemma_occurs_before_the_end(out, first, second);
    lemma_occurs_at_the_end(out + first, second);
    if s.last_segment_samples > 0 {
        let more = counted + "- last_decoded_segment_sec: "@ + last_sec + "\n"@;
        assert(more =~= counted + third);
        lemma_occurs_at_the_end(counted, third);
        text::lemma_occurs_in_front(counted, third, first);
        text::lemma_occurs_in_front(counted, third, second);
        text::lemma_occurs_in_front(more, "\n"@, first);
        text::lemma_occurs_in_front(more, "\n"@, second);
        text::lemma_occurs_in_front(more, "\n"@, third);
    } else {
        text::lemma_occurs_in_front(counted, "\n"@, first);
        text::lemma_occurs_in_front(counted, "\n"@, second);
    }
}

/// The report tells of the media if there is any, and of the voice activity.
pub proof fn law_report_tells_of_media_and_voices<T>(
    v: AppView<T>,
    elapsed_secs: nat,
    t: ReportTexts,
    active: int,
)
    ensures
        ({
            let r = report_text(v, elapsed_secs, t, active);
            &&& v.media matches Some(m) ==> {
                &&& text::occurs(r, "- audio: "@ + m.audio_path + "\n"@)
                &&& text::occurs(r, "\n- subtitle: "@ + m.srt_path + "\n"@)
                &&& text::occurs(r, "\n- position: "@ + media::media_time(m.position_ms) + " ("@)
                &&& text::occurs(r, " ("@ + media::seconds_text(m.position_ms) + "s)\n"@)
            }
            &&& text::occurs(
                r,
                "\n## VAD\n\n- backend: "@ + vad::backend_name(vad::backend_of(v.vad.inner))
                    + "\n"@,
            )
            &&& text::occurs(r, "\n- segments: "@ + number::dec(v.vad.segment_count) + "\n"@)
        }),
{
    let opened = head(v.source_label, elapsed_secs);
    let front = report_front(v, elapsed_secs, t, active);
    let counted = before_slots(v, elapsed_secs, t, active);
    lemma_front_begins_with_head(v, elapsed_secs, t, active);
    lemma_counted_appends(v, elapsed_secs, t, active);
    let told = match v.media {
        Some(m) => with_media(opened, m, active),
        None => opened,
    };
    if let Some(m) = v.media {
        law_media_section_names_the_audio(opened, m, active);
        lemma_prefix_trans(told, front, counted);
        lemma_occurs_in_report(v, elapsed_secs, t, active, told, "- audio: "@ + m.audio_path + "\n"@);
        lemma_occurs_in_report(
            v,
            elapsed_secs,
            t,
            active,
            told,
            "\n- subtitle: "@ + m.srt_path + "\n"@,
        );
        lemma_occurs_in_report(
            v,
            elapsed_secs,
            t,
            active,
            told,
            "\n- position: "@ + media::media_time(m.position_ms) + " ("@,
        );
        lemma_occurs_in_report(
            v,
            elapsed_secs,
            t,
            active,
            told,
            " ("@ + media::seconds_text(m.position_ms) + "s)\n"@,
        );
    }
    vad::law_vad_report_counts_the_segments(told, v.vad, t.vad);
    lemma_occurs_in_report(
        v,
        elapsed_secs,
        t,
        active,
        front,
        "\n## VAD\n\n- backend: "@ + vad::backend_name(vad::backend_of(v.vad.inner)) + "\n"@,
    );
    lemma_occurs_in_report(
        v,
        elapsed_secs,
        t,
        active,
        front,
        "\n- segments: "@ + number::dec(v.vad.segment_count) + "\n"@,
    );
}

} // verus!
