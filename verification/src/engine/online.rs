//! Slots of recognisers that stream.
//!
//! The caller runs the recogniser and hands over what it says after each frame.
//! Sentences end either where the recogniser says so, or where a segmenter
//! cuts; the latter also listens for the end of speech.

use std::collections::VecDeque;

use vstd::prelude::*;
use vstd::string::*;

use crate::config::{FINALS_RETAIN, PARTIAL_HISTORY_RETAIN, TAIL_SPEECH_SAMPLES};
use crate::segments;
use crate::segments::{ActionView, SegConfig, SegView, SegmentAction, Segmenter};
use crate::text;
use crate::util;

verus! {

/// What a recogniser that streams has said.
pub struct OnlineSlot {
    pub name: &'static str,
    pub partial: String,
    /// The changes of the partial, oldest first.
    pub all_partials: VecDeque<String>,
    /// The last final texts.
    pub finals: Vec<String>,
    pub all_finals: Vec<String>,
    pub enabled: bool,
    pub finals_scroll: u16,
    /// A segmenter ends the sentences, not the recogniser.
    pub use_custom_endpoint: bool,
    pub segmenter: Option<Segmenter>,
}

/// A slot, texts and lists taken as sequences.
#[verifier::ext_equal]
pub struct OnlineView {
    pub name: Seq<char>,
    pub partial: Seq<char>,
    pub all_partials: Seq<Seq<char>>,
    pub finals: Seq<Seq<char>>,
    pub all_finals: Seq<Seq<char>>,
    pub enabled: bool,
    pub finals_scroll: u16,
    pub use_custom_endpoint: bool,
    pub segmenter: Option<SegView>,
}

impl View for OnlineSlot {
    type V = OnlineView;

    open spec fn view(&self) -> OnlineView {
        OnlineView {
            name: self.name@,
            partial: self.partial@,
            all_partials: text::texts(self.all_partials@),
            finals: text::texts(self.finals@),
            all_finals: text::texts(self.all_finals@),
            enabled: self.enabled,
            finals_scroll: self.finals_scroll,
            use_custom_endpoint: self.use_custom_endpoint,
            segmenter: match self.segmenter {
                Some(seg) => Some(seg@),
                None => None,
            },
        }
    }
}

/// What the recogniser and the voice activity say after a frame.
pub struct FrameReply {
    /// The text of the stream so far.
    pub text: String,
    /// That text once more if the recogniser ended the sentence.
    pub final_text: Option<String>,
    /// The lengths of the stretches of speech that ended, in samples.
    pub voices: Vec<usize>,
}

/// A reply, its texts taken as sequences.
#[verifier::ext_equal]
pub struct ReplyView {
    pub text: Seq<char>,
    pub final_text: Option<Seq<char>>,
    pub voices: Seq<usize>,
}

impl View for FrameReply {
    type V = ReplyView;

    open spec fn view(&self) -> ReplyView {
        ReplyView {
            text: self.text@,
            final_text: match self.final_text {
                Some(t) => Some(t@),
                None => None,
            },
            voices: self.voices@,
        }
    }
}

/// What comes of a frame.
pub struct FrameOutcome {
    /// The text of a sentence that ended.
    pub final_text: Option<String>,
    /// The recogniser's stream has to be reset.
    pub reset: bool,
    /// How many of the stretches of speech were looked at.
    pub voices_used: usize,
}

/// What comes of a frame, its text taken as a sequence.
#[verifier::ext_equal]
pub struct OutcomeView {
    pub final_text: Option<Seq<char>>,
    pub reset: bool,
    pub voices_used: nat,
}

impl View for FrameOutcome {
    type V = OutcomeView;

    open spec fn view(&self) -> OutcomeView {
        OutcomeView {
            final_text: match self.final_text {
                Some(t) => Some(t@),
                None => None,
            },
            reset: self.reset,
            voices_used: self.voices_used as nat,
        }
    }
}

// ─── Histories ─────────────────────────────────────────────────────────

/// The changes of the partial with `partial` noted: trimmed, unless it is blank
/// or the same as the last.
pub open spec fn noted(history: Seq<Seq<char>>, partial: Seq<char>) -> Seq<Seq<char>> {
    let p = text::trim(partial);
    if p.len() > 0 && (history.len() == 0 || text::trim(history.last()) != p) {
        util::capped_push(history, p, PARTIAL_HISTORY_RETAIN as nat)
    } else {
        history
    }
}

/// The slot with a sentence that ended.
pub open spec fn with_final(v: OnlineView, text: Seq<char>) -> OnlineView {
    OnlineView {
        finals: util::capped_push(v.finals, text, FINALS_RETAIN as nat),
        all_finals: v.all_finals.push(text),
        ..v
    }
}

/// The text if it is not blank.
pub open spec fn unless_blank(text: Seq<char>) -> Option<Seq<char>> {
    if text::trim(text).len() == 0 {
        None
    } else {
        Some(text)
    }
}

/// The slot with a sentence that ended, unless the sentence is blank.
pub open spec fn with_sentence(v: OnlineView, text: Seq<char>) -> OnlineView {
    if text::trim(text).len() == 0 {
        v
    } else {
        with_final(v, text)
    }
}

// ─── Sentences that the recogniser ends ────────────────────────────────

/// What a frame does to a slot whose recogniser ends the sentences.
pub open spec fn endpoint_fed(v: OnlineView, reply: ReplyView) -> (OnlineView, OutcomeView) {
    let heard = OnlineView {
        all_partials: noted(v.all_partials, reply.text),
        partial: reply.text,
        ..v
    };
    match reply.final_text {
        None => (heard, OutcomeView { final_text: None, reset: false, voices_used: 0 }),
        Some(f) => (
            with_sentence(OnlineView { partial: Seq::empty(), ..heard }, f),
            OutcomeView { final_text: unless_blank(f), reset: true, voices_used: 0 },
        ),
    }
}

// ─── Sentences that a segmenter ends ───────────────────────────────────

/// What a cut does to a slot, the text that it ends with, and whether the
/// stream has to be reset.
pub open spec fn applied(v: OnlineView, action: ActionView, now: u64) -> (
    OnlineView,
    Option<Seq<char>>,
    bool,
) {
    match action {
        ActionView::Checkpoint { text, draft } => (
            with_sentence(OnlineView { partial: draft, ..v }, text),
            unless_blank(text),
            false,
        ),
        ActionView::VadReset { text } => (stream_ended(v, text, now), unless_blank(text), true),
        ActionView::ExtremeReset { text } => (stream_ended(v, text, now), unless_blank(text), true),
    }
}

/// The slot after `text` ended the stream.
pub open spec fn stream_ended(v: OnlineView, text: Seq<char>, now: u64) -> OnlineView {
    with_sentence(
        OnlineView {
            partial: Seq::empty(),
            segmenter: match v.segmenter {
                Some(seg) => Some(segments::restarted(seg, now)),
                None => None,
            },
            ..v
        },
        text,
    )
}

/// The first stretch of speech from `from` on that is long enough to count.
pub open spec fn first_voice(voices: Seq<usize>, from: int) -> Option<int>
    decreases voices.len() - from,
{
    if from >= voices.len() {
        None
    } else if voices[from] >= TAIL_SPEECH_SAMPLES {
        Some(from)
    } else {
        first_voice(voices, from + 1)
    }
}

/// The cut that the end of speech brings about, and the stretch that did it.
pub open spec fn voice_cut(v: OnlineView, voices: Seq<usize>) -> Option<(ActionView, SegView, int)> {
    match (v.segmenter, first_voice(voices, 0)) {
        (Some(seg), Some(k)) => match segments::silenced(seg) {
            (after, Some(action)) => Some((action, after, k)),
            (_, None) => None,
        },
        _ => None,
    }
}

/// What a frame does to a slot whose segmenter ends the sentences: the end of
/// speech comes first, then the partial.
pub open spec fn custom_fed(v: OnlineView, reply: ReplyView, now: u64) -> (OnlineView, OutcomeView) {
    match voice_cut(v, reply.voices) {
        Some((action, after, k)) => {
            let (w, final_text, reset) = applied(
                OnlineView { segmenter: Some(after), ..v },
                action,
                now,
            );
            (w, OutcomeView { final_text, reset, voices_used: (k + 1) as nat })
        },
        None => {
            let heard = OnlineView { all_partials: noted(v.all_partials, reply.text), ..v };
            let (w, final_text, reset) = partial_fed(heard, reply.text, now);
            (w, OutcomeView { final_text, reset, voices_used: reply.voices.len() })
        },
    }
}

/// What a partial does to a slot whose segmenter ends the sentences.
pub open spec fn partial_fed(v: OnlineView, partial: Seq<char>, now: u64) -> (
    OnlineView,
    Option<Seq<char>>,
    bool,
) {
    match v.segmenter {
        None => (v, None, false),
        Some(seg) => match segments::fed(seg, partial, now) {
            (after, Some(action)) => applied(
                OnlineView { segmenter: Some(after), ..v },
                action,
                now,
            ),
            (after, None) => (
                OnlineView { segmenter: Some(after), partial: segments::draft_of(after), ..v },
                None,
                false,
            ),
        },
    }
}

/// What a frame does to a slot, and what comes of it. A slot that is switched
/// off takes no frames.
pub open spec fn frame_fed(v: OnlineView, reply: ReplyView, now: u64) -> (OnlineView, OutcomeView) {
    if !v.enabled {
        (v, OutcomeView { final_text: None, reset: false, voices_used: 0 })
    } else if v.use_custom_endpoint {
        custom_fed(v, reply, now)
    } else {
        endpoint_fed(v, reply)
    }
}

/// The segmenter's counters can take the frame.
pub open spec fn frame_fits(v: OnlineView, partial: Seq<char>, now: u64) -> bool {
    match v.segmenter {
        Some(seg) => segments::stats_have_room(seg.stats, seg.last_partial.len(), now)
            && segments::stats_have_room(seg.stats, partial.len(), now),
        None => true,
    }
}

impl OnlineSlot {
    /// An empty slot; a segmenter ends its sentences if there are settings for
    /// one.
    pub fn new(name: &'static str, seg_config: Option<SegConfig>, now: u64) -> (r: OnlineSlot)
        ensures
            r.name == name,
            r@ == (OnlineView {
                name: name@,
                partial: Seq::empty(),
                all_partials: Seq::empty(),
                finals: Seq::empty(),
                all_finals: Seq::empty(),
                enabled: true,
                finals_scroll: 0,
                use_custom_endpoint: seg_config is Some,
                segmenter: r@.segmenter,
            }),
            match (seg_config, r@.segmenter) {
                (Some(config), Some(seg)) => seg.config == config && seg.stats
                    == segments::zero_stats() && seg == segments::restarted(seg, now),
                (None, None) => true,
                _ => false,
            },
    {
        let segmenter = match seg_config {
            Some(config) => Some(Segmenter::new(config, now)),
            None => None,
        };
        let r = OnlineSlot {
            name,
            partial: String::new(),
            all_partials: VecDeque::new(),
            finals: Vec::new(),
            all_finals: Vec::new(),
            enabled: true,
            finals_scroll: 0,
            use_custom_endpoint: seg_config.is_some(),
            segmenter,
        };
        proof {
            assert(text::texts(r.all_partials@) =~= Seq::<Seq<char>>::empty());
            assert(text::texts(r.finals@) =~= Seq::<Seq<char>>::empty());
        }
        r
    }

    /// Whether the segmenter's counters can take a frame with this text.
    pub fn has_room(&self, partial: &str, now: u64) -> (r: bool)
        ensures
            r == frame_fits(self@, partial@, now),
    {
        match &self.segmenter {
            Some(seg) => {
                let last = text::chars_of(seg.last_partial.as_str());
                let next = text::chars_of(partial);
                seg.has_room(last.len(), now) && seg.has_room(next.len(), now)
            },
            None => true,
        }
    }

    fn note_partial(&mut self, partial: &str)
        ensures
            final(self)@ == (OnlineView {
                all_partials: noted(old(self)@.all_partials, partial@),
                ..old(self)@
            }),
    {
        let p = text::trim_text(partial);
        let n: usize = self.all_partials.len();
        let fresh = n == 0 || {
            let last = text::trim_text(self.all_partials[n - 1].as_str());
            !text::same_text(last.as_str(), p.as_str())
        };
        if !p.as_str().is_empty() && fresh {
            let ghost all = text::texts(self.all_partials@).push(p@);
            self.all_partials.push_back(p);
            proof {
                assert(text::texts(self.all_partials@) =~= all);
            }
            if self.all_partials.len() > PARTIAL_HISTORY_RETAIN {
                let _ = self.all_partials.pop_front();
                proof {
                    assert(text::texts(self.all_partials@) =~= all.drop_first());
                }
            }
        }
    }

    fn take_sentence(&mut self, sentence: String) -> (r: Option<String>)
        ensures
            final(self)@ == with_sentence(old(self)@, sentence@),
            match r {
                Some(t) => unless_blank(sentence@) == Some(t@),
                None => unless_blank(sentence@) is None,
            },
    {
        if text::is_blank(sentence.as_str()) {
            return None;
        }
        let ghost all = text::texts(self.all_finals@).push(sentence@);
        util::push_capped(&mut self.finals, sentence.clone(), FINALS_RETAIN);
        self.all_finals.push(sentence.clone());
        proof {
            assert(text::texts(self.all_finals@) =~= all);
        }
        Some(sentence)
    }

    /// Carries a cut out; tells the text that it ends with and whether the
    /// stream has to be reset.
    pub fn apply_segment_action(&mut self, action: SegmentAction, now: u64) -> (r: (
        Option<String>,
        bool,
    ))
        ensures
            ({
                let (after, final_text, reset) = applied(old(self)@, action@, now);
                final(self)@ == after && r.1 == reset && match r.0 {
                    Some(t) => final_text == Some(t@),
                    None => final_text is None,
                }
            }),
    {
        match action {
            SegmentAction::Checkpoint { text, draft } => {
                self.partial = draft;
                (self.take_sentence(text), false)
            },
            SegmentAction::VadReset { text } => (self.end_stream(text, now), true),
            SegmentAction::ExtremeReset { text } => (self.end_stream(text, now), true),
        }
    }

    fn end_stream(&mut self, text: String, now: u64) -> (r: Option<String>)
        ensures
            final(self)@ == stream_ended(old(self)@, text@, now),
            match r {
                Some(t) => unless_blank(text@) == Some(t@),
                None => unless_blank(text@) is None,
            },
    {
        self.partial = String::new();
        if let Some(seg) = &mut self.segmenter {
            seg.on_stream_reset(now);
        }
        self.take_sentence(text)
    }
}

fn find_voice(voices: &[usize]) -> (r: Option<usize>)
    ensures
        match r {
            Some(k) => first_voice(voices@, 0) == Some(k as int) && k < voices@.len(),
            None => first_voice(voices@, 0) is None,
        },
{
    let mut k: usize = 0;
    while k < voices.len()
        invariant
            k <= voices@.len(),
            first_voice(voices@, 0) == first_voice(voices@, k as int),
        decreases voices@.len() - k,
    {
        if voices[k] >= TAIL_SPEECH_SAMPLES {
            return Some(k);
        }
        k = k + 1;
    }
    None
}

/// Takes what the recogniser and the voice activity say after a frame.
pub fn feed_online_frame(slot: &mut OnlineSlot, reply: &FrameReply, now: u64) -> (r: FrameOutcome)
    requires
        old(slot).enabled && old(slot).use_custom_endpoint ==> frame_fits(
            old(slot)@,
            reply.text@,
            now,
        ),
    ensures
        (final(slot)@, r@) == frame_fed(old(slot)@, reply@, now),
{
    if !slot.enabled {
        return FrameOutcome { final_text: None, reset: false, voices_used: 0 };
    }
    if !slot.use_custom_endpoint {
        slot.note_partial(reply.text.as_str());
        slot.partial = reply.text.clone();
        return match &reply.final_text {
            Some(f) => {
                slot.partial = String::new();
                let final_text = slot.take_sentence(f.clone());
                FrameOutcome { final_text, reset: true, voices_used: 0 }
            },
            None => FrameOutcome { final_text: None, reset: false, voices_used: 0 },
        };
    }
    let mut cut: Option<SegmentAction> = None;
    let mut used: usize = reply.voices.len();
    if let Some(k) = find_voice(reply.voices.as_slice()) {
        if let Some(seg) = &mut slot.segmenter {
            cut = seg.on_vad_silence(now);
            if cut.is_some() {
                used = k + 1;
            }
        }
    }
    if let Some(action) = cut {
        let (final_text, reset) = slot.apply_segment_action(action, now);
        return FrameOutcome { final_text, reset, voices_used: used };
    }
    slot.note_partial(reply.text.as_str());
    let mut cut: Option<SegmentAction> = None;
    if let Some(seg) = &mut slot.segmenter {
        cut = seg.feed_partial(reply.text.as_str(), now);
        if cut.is_none() {
            slot.partial = seg.draft();
        }
    }
    match cut {
        Some(action) => {
            let (final_text, reset) = slot.apply_segment_action(action, now);
            FrameOutcome { final_text, reset, voices_used: used }
        },
        None => FrameOutcome { final_text: None, reset: false, voices_used: used },
    }
}

// ─── Laws ──────────────────────────────────────────────────────────────

/// The last finals are the end of all finals, as many as are kept.
pub open spec fn finals_are_latest(finals: Seq<Seq<char>>, all: Seq<Seq<char>>) -> bool {
    &&& finals.len() == (if all.len() < FINALS_RETAIN {
        all.len()
    } else {
        FINALS_RETAIN as nat
    })
    &&& finals == all.skip(all.len() - finals.len())
}

/// The history of partials is bounded, its entries are trimmed and not blank,
/// and no two neighbours are the same.
pub open spec fn history_is_clean(history: Seq<Seq<char>>) -> bool {
    &&& history.len() <= PARTIAL_HISTORY_RETAIN
    &&& forall|i: int|
        0 <= i < history.len() ==> (#[trigger] history[i]).len() > 0 && text::trim(history[i])
            == history[i]
    &&& forall|i: int, j: int| 0 <= i && j == i + 1 && j < history.len() ==> history[i] != history[j]
}

/// What holds of a slot at all times.
pub open spec fn slot_ok(v: OnlineView) -> bool {
    &&& finals_are_latest(v.finals, v.all_finals)
    &&& history_is_clean(v.all_partials)
}

proof fn lemma_final_keeps_latest(finals: Seq<Seq<char>>, all: Seq<Seq<char>>, t: Seq<char>)
    requires
        finals_are_latest(finals, all),
    ensures
        finals_are_latest(util::capped_push(finals, t, FINALS_RETAIN as nat), all.push(t)),
{
    let f = util::capped_push(finals, t, FINALS_RETAIN as nat);
    let a = all.push(t);
    assert(f =~= a.skip(a.len() - f.len()));
}

proof fn lemma_noted_is_clean(history: Seq<Seq<char>>, partial: Seq<char>)
    requires
        history_is_clean(history),
    ensures
        history_is_clean(noted(history, partial)),
{
    let p = text::trim(partial);
    text::lemma_trim_idempotent(partial);
    let h = noted(history, partial);
    let all = history.push(p);
    if h != history {
        assert forall|i: int| 0 <= i < h.len() implies (#[trigger] h[i]).len() > 0 && text::trim(
            h[i],
        ) == h[i] by {
            let k = i + all.len() - h.len();
            assert(h[i] == all[k]);
            if k < history.len() {
                assert(all[k] == history[k]);
            }
        }
        assert forall|i: int, j: int| 0 <= i && j == i + 1 && j < h.len() implies h[i] != h[j] by {
            let k = i + all.len() - h.len();
            assert(h[i] == all[k] && h[j] == all[k + 1]);
            if k + 1 < history.len() {
                assert(all[k] == history[k] && all[k + 1] == history[k + 1]);
            }
        }
    }
}

/// A frame keeps the slot in order, whatever the recogniser says.
pub proof fn law_frame_keeps_the_slot_in_order(v: OnlineView, reply: ReplyView, now: u64)
    requires
        slot_ok(v),
    ensures
        slot_ok(frame_fed(v, reply, now).0),
{
    lemma_noted_is_clean(v.all_partials, reply.text);
    assert forall|t: Seq<char>| finals_are_latest(
        #[trigger] util::capped_push(v.finals, t, FINALS_RETAIN as nat),
        v.all_finals.push(t),
    ) by {
        lemma_final_keeps_latest(v.finals, v.all_finals, t);
    }
}

/// A frame hands out a final text exactly if it appends that text to all
/// finals; otherwise they stay as they are. A text that is handed out is never
/// blank.
pub proof fn law_finals_are_what_was_handed_out(v: OnlineView, reply: ReplyView, now: u64)
    ensures
        match frame_fed(v, reply, now).1.final_text {
            Some(t) => frame_fed(v, reply, now).0.all_finals == v.all_finals.push(t) && text::trim(
                t,
            ).len() > 0,
            None => frame_fed(v, reply, now).0.all_finals == v.all_finals,
        },
{
}

/// A slot that is switched off does not change.
pub proof fn law_disabled_slot_is_untouched(v: OnlineView, reply: ReplyView, now: u64)
    requires
        !v.enabled,
    ensures
        frame_fed(v, reply, now).0 == v,
        frame_fed(v, reply, now).1.final_text is None,
        !frame_fed(v, reply, now).1.reset,
{
}

/// Whenever the stream has to be reset, the slot has already forgotten it: the
/// partial is empty and the segmenter starts over.
pub proof fn law_reset_leaves_nothing_behind(v: OnlineView, reply: ReplyView, now: u64)
    requires
        frame_fed(v, reply, now).1.reset,
    ensures
        frame_fed(v, reply, now).0.partial.len() == 0,
        v.use_custom_endpoint ==> match frame_fed(v, reply, now).0.segmenter {
            Some(seg) => seg == segments::restarted(seg, now),
            None => v.segmenter is None,
        },
{
}

/// The end of speech comes first: with anything left to commit it resets the
/// stream, whatever the recogniser says.
pub proof fn law_end_of_speech_comes_first(v: OnlineView, reply: ReplyView, now: u64)
    requires
        v.enabled && v.use_custom_endpoint,
        v.segmenter is Some,
        first_voice(reply.voices, 0) is Some,
        text::trim(
            segments::new_text(v.segmenter->0, v.segmenter->0.last_partial),
        ).len() > 0,
    ensures
        frame_fed(v, reply, now).1.reset,
        frame_fed(v, reply, now).1.final_text == Some(
            segments::new_text(v.segmenter->0, v.segmenter->0.last_partial),
        ),
        frame_fed(v, reply, now).0.all_partials == v.all_partials,
{
}

/// A checkpoint goes on with the stream: the recogniser is not reset.
pub proof fn law_checkpoint_keeps_the_stream(v: OnlineView, text: Seq<char>, draft: Seq<char>, now: u64)
    ensures
        !applied(v, ActionView::Checkpoint { text, draft }, now).2,
        applied(v, ActionView::Checkpoint { text, draft }, now).0.partial == draft,
        applied(v, ActionView::Checkpoint { text, draft }, now).0.segmenter == v.segmenter,
{
}

proof fn lemma_first_voice(voices: Seq<usize>, from: int, j: int)
    requires
        0 <= from <= j <= voices.len(),
        forall|k: int| from <= k < j ==> #[trigger] voices[k] < 4_800,
        j < voices.len() ==> voices[j] >= 4_800,
    ensures
        first_voice(voices, from) == (if j < voices.len() {
            Some(j)
        } else {
            None
        }),
    decreases j - from,
{
    if from < j {
        lemma_first_voice(voices, from + 1, j);
    }
}

/// A stretch of speech of 0.3 s or more, however long, ends the stream: what came
/// behind the committed text is handed out, the recogniser is reset, and the
/// stretches up to the first such one were looked at.
pub proof fn law_end_of_speech_hands_out_what_is_left(
    v: OnlineView,
    reply: ReplyView,
    now: u64,
    rest: Seq<char>,
    j: int,
)
    requires
        v.enabled && v.use_custom_endpoint,
        v.segmenter is Some,
        v.segmenter->0.last_partial == v.segmenter->0.committed_text + rest,
        text::trim(rest).len() > 0,
        0 <= j < reply.voices.len(),
        reply.voices[j] >= 4_800,
        forall|k: int| 0 <= k < j ==> #[trigger] reply.voices[k] < 4_800,
    ensures
        ({
            let (after, outcome) = frame_fed(v, reply, now);
            &&& outcome.final_text == Some(rest)
            &&& outcome.reset
            &&& outcome.voices_used == j + 1
            &&& after.all_finals == v.all_finals.push(rest)
            &&& after.partial.len() == 0
            &&& after.all_partials == v.all_partials
            &&& after.segmenter is Some
            &&& after.segmenter->0.last_partial.len() == 0
            &&& after.segmenter->0.committed_text.len() == 0
        }),
{
    lemma_first_voice(reply.voices, 0, j);
    segments::law_silence_commits_what_is_left(v.segmenter->0, rest);
}

/// Shorter stretches of speech end nothing: the frame goes on as if there were
/// none. So does one after which nothing is left to commit.
pub proof fn law_short_speech_ends_nothing(v: OnlineView, reply: ReplyView, now: u64, rest: Seq<char>)
    requires
        v.enabled && v.use_custom_endpoint,
        (forall|k: int| 0 <= k < reply.voices.len() ==> #[trigger] reply.voices[k] < 4_800) || (
        v.segmenter is Some && v.segmenter->0.last_partial == v.segmenter->0.committed_text + rest
            && text::trim(rest).len() == 0),
    ensures
        ({
            let silent = ReplyView { voices: Seq::empty(), ..reply };
            &&& frame_fed(v, reply, now).0 == frame_fed(v, silent, now).0
            &&& frame_fed(v, reply, now).1.final_text == frame_fed(v, silent, now).1.final_text
            &&& frame_fed(v, reply, now).1.reset == frame_fed(v, silent, now).1.reset
            &&& frame_fed(v, reply, now).1.voices_used == reply.voices.len()
        }),
{
    if forall|k: int| 0 <= k < reply.voices.len() ==> #[trigger] reply.voices[k] < 4_800 {
        lemma_first_voice(reply.voices, 0, reply.voices.len() as int);
    } else {
        segments::law_silence_commits_what_is_left(v.segmenter->0, rest);
    }
}

/// Where the recogniser ends the sentences the partial is what it says; a sentence
/// that it ends is handed out unless it is blank, and resets the recogniser.
pub proof fn law_recogniser_ends_its_sentences(v: OnlineView, reply: ReplyView, now: u64)
    requires
        v.enabled && !v.use_custom_endpoint,
    ensures
        ({
            let (after, outcome) = frame_fed(v, reply, now);
            &&& reply.final_text is None ==> after.partial == reply.text && !outcome.reset
                && outcome.final_text is None && after.all_finals == v.all_finals
            &&& reply.final_text matches Some(f) ==> {
                &&& outcome.reset
                &&& after.partial.len() == 0
                &&& text::trim(f).len() > 0 ==> outcome.final_text == Some(f) && after.all_finals
                    == v.all_finals.push(f)
                &&& text::trim(f).len() == 0 ==> outcome.final_text is None && after.all_finals
                    == v.all_finals
            }
            &&& after.segmenter == v.segmenter
            &&& after.name == v.name && after.enabled && after.finals_scroll == v.finals_scroll
        }),
{
}

/// Where a segmenter ends the sentences and nobody fell silent, a frame does what
/// the segmenter says of its text, whatever the recogniser itself ends.
pub proof fn law_segmenter_ends_the_sentences(v: OnlineView, reply: ReplyView, now: u64)
    requires
        v.enabled && v.use_custom_endpoint,
        v.segmenter is Some,
        reply.voices.len() == 0,
    ensures
        ({
            let (after, outcome) = frame_fed(v, reply, now);
            let (seg, cut) = segments::fed(v.segmenter->0, reply.text, now);
            &&& cut is None ==> {
                &&& outcome.final_text is None && !outcome.reset
                &&& after.partial == segments::draft_of(seg)
                &&& after.segmenter == Some(seg)
                &&& after.all_finals == v.all_finals
            }
            &&& cut matches Some(ActionView::Checkpoint { text, draft }) ==> {
                &&& !outcome.reset
                &&& after.partial == draft
                &&& after.segmenter == Some(seg)
                &&& text::trim(text).len() > 0 ==> outcome.final_text == Some(text)
            }
            &&& cut matches Some(ActionView::ExtremeReset { text }) ==> {
                &&& outcome.reset
                &&& after.partial.len() == 0
                &&& text::trim(text).len() > 0 ==> outcome.final_text == Some(text)
                &&& after.segmenter is Some && after.segmenter->0.last_partial.len() == 0
                    && after.segmenter->0.committed_text.len() == 0
            }
        }),
{
    lemma_first_voice(reply.voices, 0, 0);
}

/// A partial is noted, trimmed, if it is not blank and not what was noted last;
/// nothing is forgotten before two thousand partials are noted.
pub proof fn law_changes_of_the_partial_are_noted(
    history: Seq<Seq<char>>,
    left: Seq<char>,
    p: Seq<char>,
    right: Seq<char>,
)
    requires
        forall|i: int| 0 <= i < left.len() ==> text::is_space(#[trigger] left[i]),
        forall|i: int| 0 <= i < right.len() ==> text::is_space(#[trigger] right[i]),
        p.len() > 0 ==> !text::is_space(p[0]) && !text::is_space(p.last()),
        history_is_clean(history),
    ensures
        p.len() == 0 ==> noted(history, left + p + right) == history,
        p.len() > 0 && history.len() > 0 && history.last() == p ==> noted(history, left + p + right)
            == history,
        p.len() > 0 && (history.len() == 0 || history.last() != p) && history.len() < 2_000
            ==> noted(history, left + p + right) == history.push(p),
        p.len() > 0 && (history.len() == 0 || history.last() != p) && history.len() == 2_000
            ==> noted(history, left + p + right) == history.drop_first().push(p),
{
    text::law_trim_takes_off_both_ends(left, p, right);
    if history.len() > 0 {
        assert(text::trim(history[history.len() - 1]) == history[history.len() - 1]);
        assert(history.push(p).drop_first() =~= history.drop_first().push(p));
    }
}

/// A frame is noted in the history of partials unless the end of speech came
/// first.
pub proof fn law_frame_is_noted(v: OnlineView, reply: ReplyView, now: u64)
    requires
        v.enabled,
        !v.use_custom_endpoint || forall|k: int|
            0 <= k < reply.voices.len() ==> #[trigger] reply.voices[k] < 4_800,
    ensures
        frame_fed(v, reply, now).0.all_partials == noted(v.all_partials, reply.text),
{
    if v.use_custom_endpoint {
        lemma_first_voice(reply.voices, 0, reply.voices.len() as int);
    }
}

/// The six latest finals are shown.
pub proof fn law_six_finals_are_shown(v: OnlineView, text: Seq<char>)
    requires
        text::trim(text).len() > 0,
        slot_ok(v),
    ensures
        with_sentence(v, text).all_finals == v.all_finals.push(text),
        v.all_finals.len() < 6 ==> with_sentence(v, text).finals == v.all_finals.push(text),
        v.all_finals.len() >= 6 ==> with_sentence(v, text).finals.len() == 6 && with_sentence(
            v,
            text,
        ).finals == v.all_finals.push(text).skip(v.all_finals.len() - 5),
{
    lemma_final_keeps_latest(v.finals, v.all_finals, text);
    if v.all_finals.len() < 6 {
        assert(v.all_finals.push(text).skip(0) =~= v.all_finals.push(text));
    }
}

} // verus!
