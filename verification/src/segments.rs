//! Sentence cutting for streaming recognisers.
//!
//! A recogniser that streams delivers one growing text, its partial. The
//! segmenter watches the partial and cuts sentences off it. There are four
//! reasons to cut, from the strongest to the weakest:
//!
//! 1. the speaker fell silent: the rest is committed and the stream starts anew;
//! 2. a sentence-ending mark stood still: the text up to it is committed, the
//!    stream goes on;
//! 3. no cut for ten seconds: all but the last words are committed, the stream
//!    goes on;
//! 4. no cut for twenty-five seconds: the rest is committed and the stream
//!    starts anew.
//!
//! Times are nanoseconds since an origin that the caller picks.

use vstd::prelude::*;
use vstd::string::*;
use vstd::slice::*;

use crate::number;
use crate::text;

verus! {

// ─── Settings ──────────────────────────────────────────────────────────

/// When to cut. Durations are nanoseconds unless the name says otherwise.
#[derive(Clone, Copy, Debug)]
pub struct SegConfig {
    pub name: &'static str,
    /// Silence that ends speech, in milliseconds.
    pub vad_min_silence_ms: u64,
    /// Speech probability from which a frame counts as speech, in thousandths.
    pub vad_threshold_permille: u64,
    /// Longest stretch of speech, in milliseconds.
    pub vad_max_speech_ms: u64,
    /// How long a sentence-ending mark has to stand still.
    pub punct_stability: u64,
    /// How long after a cut no mark is looked at.
    pub punct_cooldown: u64,
    /// How many new words a sentence has at least.
    pub punct_min_new_words: usize,
    /// After how long without a cut a text without a mark is cut.
    pub no_punct_timeout: u64,
    /// How long that text has to stand still.
    pub no_punct_stability: u64,
    /// How many words that text has at least.
    pub no_punct_min_words: usize,
    /// How many of its last words stay uncommitted.
    pub no_punct_keep_last_words: usize,
    /// After how long without a cut everything is cut.
    pub extreme_timeout: u64,
}

/// The preset for the enhanced English Zipformer.
pub open spec fn is_enhanced_preset(r: SegConfig) -> bool {
    &&& r.name@ == "加强版Zipformer-en"@
    &&& r.vad_min_silence_ms == 300
    &&& r.vad_threshold_permille == 500
    &&& r.vad_max_speech_ms == 18_000
    &&& r.punct_stability == 700_000_000
    &&& r.punct_cooldown == 1_500_000_000
    &&& r.punct_min_new_words == 3
    &&& r.no_punct_timeout == 10_000_000_000
    &&& r.no_punct_stability == 1_000_000_000
    &&& r.no_punct_min_words == 12
    &&& r.no_punct_keep_last_words == 3
    &&& r.extreme_timeout == 25_000_000_000
}

/// The preset for the enhanced English Zipformer.
pub fn enhanced_zipformer_en() -> (r: SegConfig)
    ensures
        is_enhanced_preset(r),
{
    SegConfig {
        name: "加强版Zipformer-en",
        vad_min_silence_ms: 300,
        vad_threshold_permille: 500,
        vad_max_speech_ms: 18_000,
        punct_stability: 700_000_000,
        punct_cooldown: 1_500_000_000,
        punct_min_new_words: 3,
        no_punct_timeout: 10_000_000_000,
        no_punct_stability: 1_000_000_000,
        no_punct_min_words: 12,
        no_punct_keep_last_words: 3,
        extreme_timeout: 25_000_000_000,
    }
}

// ─── What a cut does ───────────────────────────────────────────────────

/// A cut that the caller has to carry out.
#[derive(Debug)]
pub enum SegmentAction {
    /// Commit `text`; the stream goes on with `draft` as what is left.
    Checkpoint { text: String, draft: String },
    /// The speaker fell silent: commit `text` and start the stream anew.
    VadReset { text: String },
    /// Too long without a cut: commit `text` and start the stream anew.
    ExtremeReset { text: String },
}

/// A cut, its texts taken as sequences.
#[verifier::ext_equal]
pub enum ActionView {
    Checkpoint { text: Seq<char>, draft: Seq<char> },
    VadReset { text: Seq<char> },
    ExtremeReset { text: Seq<char> },
}

impl View for SegmentAction {
    type V = ActionView;

    open spec fn view(&self) -> ActionView {
        match self {
            SegmentAction::Checkpoint { text, draft } => ActionView::Checkpoint {
                text: text@,
                draft: draft@,
            },
            SegmentAction::VadReset { text } => ActionView::VadReset { text: text@ },
            SegmentAction::ExtremeReset { text } => ActionView::ExtremeReset { text: text@ },
        }
    }
}

/// A cut that may be absent, its texts taken as sequences.
pub open spec fn action_view(a: Option<SegmentAction>) -> Option<ActionView> {
    match a {
        Some(x) => Some(x@),
        None => None,
    }
}

// ─── Statistics ────────────────────────────────────────────────────────

/// Counts over the life of a segmenter.
#[derive(Clone, Copy, Debug)]
pub struct SegStats {
    /// How often a partial brought a sentence-ending mark while none was watched.
    pub punct_candidate_count: usize,
    /// Cuts at a mark that stood still.
    pub punct_success_count: usize,
    /// Marks that went away or moved before they stood still, and committed
    /// text that the recogniser revised.
    pub punct_regret_count: usize,
    /// Cuts for want of a mark.
    pub no_punct_fallback_count: usize,
    /// Cuts after the longest wait.
    pub extreme_cut_count: usize,
    /// Sum of the times from the first sight of a mark to the cut, in milliseconds.
    pub total_cut_latency_ms: u64,
    /// Sum of the words of all committed texts.
    pub total_words_sum: usize,
    /// Number of committed texts.
    pub total_segment_count: usize,
    /// Committed texts that hold the text committed before, but not at their start.
    pub repeat_risk_count: usize,
    /// Checkpoints with less than a third of the words of the one before.
    pub missing_word_risk_count: usize,
}

impl Default for SegStats {
    fn default() -> (r: SegStats)
        ensures
            r == zero_stats(),
    {
        SegStats {
            punct_candidate_count: 0,
            punct_success_count: 0,
            punct_regret_count: 0,
            no_punct_fallback_count: 0,
            extreme_cut_count: 0,
            total_cut_latency_ms: 0,
            total_words_sum: 0,
            total_segment_count: 0,
            repeat_risk_count: 0,
            missing_word_risk_count: 0,
        }
    }
}

/// Statistics before the first partial.
pub open spec fn zero_stats() -> SegStats {
    SegStats {
        punct_candidate_count: 0,
        punct_success_count: 0,
        punct_regret_count: 0,
        no_punct_fallback_count: 0,
        extreme_cut_count: 0,
        total_cut_latency_ms: 0,
        total_words_sum: 0,
        total_segment_count: 0,
        repeat_risk_count: 0,
        missing_word_risk_count: 0,
    }
}

/// Every counter can take one more partial of `chars` characters at time `now`
/// without overflow.
pub open spec fn stats_have_room(st: SegStats, chars: nat, now: u64) -> bool {
    &&& st.punct_candidate_count < usize::MAX
    &&& st.punct_success_count < usize::MAX
    &&& st.punct_regret_count < usize::MAX
    &&& st.no_punct_fallback_count < usize::MAX
    &&& st.extreme_cut_count < usize::MAX
    &&& st.total_cut_latency_ms + now / 1_000_000 <= u64::MAX
    &&& st.total_words_sum + chars <= usize::MAX
    &&& st.total_segment_count < usize::MAX
    &&& st.repeat_risk_count < usize::MAX
    &&& st.missing_word_risk_count < usize::MAX
}

/// The statistics after `text` was committed while `committed` was the text
/// committed before. `whole` tells a text that repeats the committed prefix
/// (a checkpoint) from one that holds only what came after it.
pub open spec fn recorded(
    st: SegStats,
    committed: Seq<char>,
    text: Seq<char>,
    whole: bool,
) -> SegStats {
    let repeats = committed.len() > 0 && text.len() > 0 && text::occurs(text, committed)
        && !committed.is_prefix_of(text);
    let misses = whole && text::word_count(committed) > 0 && text::word_count(text) > 0 && text::word_count(text)
        < text::word_count(committed) / 3;
    SegStats {
        total_segment_count: (st.total_segment_count + 1) as usize,
        total_words_sum: (st.total_words_sum + text::word_count(text)) as usize,
        repeat_risk_count: if repeats {
            (st.repeat_risk_count + 1) as usize
        } else {
            st.repeat_risk_count
        },
        missing_word_risk_count: if misses {
            (st.missing_word_risk_count + 1) as usize
        } else {
            st.missing_word_risk_count
        },
        ..st
    }
}

/// The line that sums the statistics up; the two averages come as text.
pub open spec fn summary(st: SegStats, latency: Seq<char>, words: Seq<char>) -> Seq<char> {
    "标点切 "@ + number::dec(st.punct_success_count as nat) + "/"@ + number::dec(
        st.punct_candidate_count as nat,
    ) + " | 兜底 "@ + number::dec(st.no_punct_fallback_count as nat) + " | 强切 "@ + number::dec(
        st.extreme_cut_count as nat,
    ) + " | 反悔 "@ + number::dec(st.punct_regret_count as nat) + " | 平均延迟 "@ + latency
        + "s | 平均词数 "@ + words + " | 重复风险 "@ + number::dec(st.repeat_risk_count as nat)
        + " | 漏词风险 "@ + number::dec(st.missing_word_risk_count as nat)
}

/// The mean time from the first sight of a mark to the cut, in milliseconds, as
/// dividend and divisor.
pub open spec fn mean_latency(st: SegStats) -> (u64, usize) {
    if st.total_segment_count == 0 {
        (0, 1)
    } else {
        (st.total_cut_latency_ms, st.total_segment_count)
    }
}

/// The mean number of words of a committed text, as dividend and divisor.
pub open spec fn mean_words(st: SegStats) -> (usize, usize) {
    if st.total_segment_count == 0 {
        (0, 1)
    } else {
        (st.total_words_sum, st.total_segment_count)
    }
}

impl SegStats {
    /// The mean time from the first sight of a mark to the cut, in
    /// milliseconds, as dividend and divisor.
    pub fn avg_cut_latency_ms(&self) -> (r: (u64, usize))
        ensures
            r == mean_latency(*self),
    {
        if self.total_segment_count == 0 {
            return (0, 1);
        }
        (self.total_cut_latency_ms, self.total_segment_count)
    }

    /// The mean number of words of a committed text, as dividend and divisor.
    pub fn avg_words_per_segment(&self) -> (r: (usize, usize))
        ensures
            r == mean_words(*self),
    {
        if self.total_segment_count == 0 {
            return (0, 1);
        }
        (self.total_words_sum, self.total_segment_count)
    }

    /// The statistics in one line. `latency` is the mean latency in seconds and
    /// `words` the mean number of words, both as text.
    pub fn summary_line(&self, latency: &str, words: &str) -> (r: String)
        ensures
            r@ == summary(*self, latency@, words@),
    {
        let mut out = "标点切 ".to_owned();
        out.append(number::size_text(self.punct_success_count).as_str());
        out.append("/");
        out.append(number::size_text(self.punct_candidate_count).as_str());
        out.append(" | 兜底 ");
        out.append(number::size_text(self.no_punct_fallback_count).as_str());
        out.append(" | 强切 ");
        out.append(number::size_text(self.extreme_cut_count).as_str());
        out.append(" | 反悔 ");
        out.append(number::size_text(self.punct_regret_count).as_str());
        out.append(" | 平均延迟 ");
        out.append(latency);
        out.append("s | 平均词数 ");
        out.append(words);
        out.append(" | 重复风险 ");
        out.append(number::size_text(self.repeat_risk_count).as_str());
        out.append(" | 漏词风险 ");
        out.append(number::size_text(self.missing_word_risk_count).as_str());
        out
    }
}

// ─── Words at a cut ────────────────────────────────────────────────────

/// The marks that end a sentence.
pub open spec fn is_ending(c: char) -> bool {
    c == '.' || c == '?' || c == '!'
}

/// The place of the last sentence-ending mark of `s`.
pub open spec fn last_ending(s: Seq<char>) -> Option<int>
    decreases s.len(),
{
    if s.len() == 0 {
        None
    } else if is_ending(s.last()) {
        Some(s.len() - 1)
    } else {
        last_ending(s.drop_last())
    }
}

/// Words that never end a sentence.
pub open spec fn is_connection_word(w: Seq<char>) -> bool {
    ||| w == "and"@
    ||| w == "a"@
    ||| w == "an"@
    ||| w == "the"@
    ||| w == "this"@
    ||| w == "these"@
    ||| w == "those"@
    ||| w == "my"@
    ||| w == "your"@
    ||| w == "his"@
    ||| w == "her"@
    ||| w == "their"@
    ||| w == "our"@
    ||| w == "its"@
    ||| w == "or"@
    ||| w == "but"@
    ||| w == "for"@
    ||| w == "to"@
    ||| w == "with"@
    ||| w == "because"@
    ||| w == "that"@
    ||| w == "of"@
    ||| w == "in"@
    ||| w == "on"@
    ||| w == "at"@
    ||| w == "from"@
    ||| w == "into"@
    ||| w == "until"@
    ||| w == "if"@
    ||| w == "when"@
    ||| w == "while"@
    ||| w == "as"@
    ||| w == "so"@
}

/// `s` without what follows its last letter.
pub open spec fn upto_last_letter(s: Seq<char>) -> Seq<char>
    decreases s.len(),
{
    if s.len() > 0 && !text::is_letter(s.last()) {
        upto_last_letter(s.drop_last())
    } else {
        s
    }
}

/// Whether the last word of `s`, in small letters and without what follows its
/// last letter, is a connection word.
pub open spec fn ends_with_connection(s: Seq<char>) -> bool {
    let ws = text::words(s);
    ws.len() > 0 && is_connection_word(text::lower_text(upto_last_letter(ws.last())))
}

fn last_ending_of(s: &[char]) -> (r: Option<usize>)
    ensures
        match r {
            Some(i) => last_ending(s@) == Some(i as int) && i < s@.len(),
            None => last_ending(s@) is None,
        },
{
    let mut i: usize = s.len();
    proof {
        assert(s@.take(i as int) =~= s@);
    }
    while i > 0
        invariant
            i <= s@.len(),
            last_ending(s@.take(i as int)) == last_ending(s@),
        decreases i,
    {
        let c = s[i - 1];
        proof {
            assert(s@.take(i as int).drop_last() =~= s@.take(i - 1));
        }
        if c == '.' || c == '?' || c == '!' {
            return Some(i - 1);
        }
        i = i - 1;
    }
    None
}

fn connection_word(w: &str) -> (r: bool)
    ensures
        r == is_connection_word(w@),
{
    text::same_text(w, "and") || text::same_text(w, "a") || text::same_text(w, "an")
        || text::same_text(w, "the") || text::same_text(w, "this") || text::same_text(w, "these")
        || text::same_text(w, "those") || text::same_text(w, "my") || text::same_text(w, "your")
        || text::same_text(w, "his") || text::same_text(w, "her") || text::same_text(w, "their")
        || text::same_text(w, "our") || text::same_text(w, "its") || text::same_text(w, "or")
        || text::same_text(w, "but") || text::same_text(w, "for") || text::same_text(w, "to")
        || text::same_text(w, "with") || text::same_text(w, "because") || text::same_text(
        w,
        "that",
    ) || text::same_text(w, "of") || text::same_text(w, "in") || text::same_text(w, "on")
        || text::same_text(w, "at") || text::same_text(w, "from") || text::same_text(w, "into")
        || text::same_text(w, "until") || text::same_text(w, "if") || text::same_text(w, "when")
        || text::same_text(w, "while") || text::same_text(w, "as") || text::same_text(w, "so")
}

/// The words of `s` at `places` from `first` on, with a space between them.
fn join_words(s: &[char], places: &[(usize, usize)], first: usize) -> (r: String)
    requires
        places@.len() == text::spans(s@).len(),
        forall|k: int|
            0 <= k < places@.len() ==> (#[trigger] places@[k]).0 == text::spans(s@)[k].0
                && places@[k].1 == text::spans(s@)[k].1 && places@[k].0 < places@[k].1 <= s@.len(),
        first <= places@.len(),
    ensures
        r@ == text::joined(text::words(s@).skip(first as int), " "@),
{
    let ghost ws = text::words(s@).skip(first as int);
    let mut out = String::new();
    let mut i: usize = first;
    proof {
        assert(ws.take(0) =~= Seq::<Seq<char>>::empty());
    }
    while i < places.len()
        invariant
            first <= i <= places@.len(),
            places@.len() == text::spans(s@).len(),
            forall|k: int|
                0 <= k < places@.len() ==> (#[trigger] places@[k]).0 == text::spans(s@)[k].0
                    && places@[k].1 == text::spans(s@)[k].1 && places@[k].0 < places@[k].1
                    <= s@.len(),
            ws == text::words(s@).skip(first as int),
            out@ == text::joined(ws.take(i - first), " "@),
        decreases places@.len() - i,
    {
        let (a, b) = places[i];
        let word = text::text_of(s, a, b);
        proof {
            let t = ws.take(i + 1 - first);
            assert(t.drop_last() =~= ws.take(i - first));
            assert(t.last() == word@);
        }
        if i == first {
            out = word;
        } else {
            out.append(" ");
            out.append(word.as_str());
        }
        i = i + 1;
    }
    proof {
        assert(ws.take(ws.len() as int) =~= ws);
    }
    out
}

/// The byte offset just behind the `n`-th word of `s`, counted from zero.
pub open spec fn nth_word_end(s: Seq<char>, n: nat) -> Option<nat> {
    if n < text::word_count(s) {
        Some(text::byte_len(s.take(text::spans(s)[n as int].1)))
    } else {
        None
    }
}

// ─── The machine ───────────────────────────────────────────────────────

/// A sentence-ending mark that is being watched.
#[derive(Clone, Copy, Debug)]
pub struct PunctCandidate {
    /// Where the mark stands in the partial, in bytes.
    pub byte_pos: usize,
    /// When it was first seen there.
    pub first_seen: u64,
}

/// The sentence cutter of one stream.
pub struct Segmenter {
    pub config: SegConfig,
    pub stream_started: u64,
    pub last_cut: Option<u64>,
    /// From when the waits for want of a cut count: the first partial, or the
    /// last checkpoint.
    pub last_nonempty_partial: Option<u64>,
    pub last_partial: String,
    pub punct_candidate: Option<PunctCandidate>,
    /// The partial that stands still without a mark, and since when.
    pub no_punct_stable_since: Option<(u64, String)>,
    /// The text of the last checkpoint.
    pub committed_text: String,
    pub stats: SegStats,
}

/// A segmenter, its texts taken as sequences.
#[verifier::ext_equal]
pub struct SegView {
    pub config: SegConfig,
    pub stream_started: u64,
    pub last_cut: Option<u64>,
    pub last_nonempty_partial: Option<u64>,
    pub last_partial: Seq<char>,
    pub punct_candidate: Option<PunctCandidate>,
    pub no_punct_stable_since: Option<(u64, Seq<char>)>,
    pub committed_text: Seq<char>,
    pub stats: SegStats,
}

impl View for Segmenter {
    type V = SegView;

    open spec fn view(&self) -> SegView {
        SegView {
            config: self.config,
            stream_started: self.stream_started,
            last_cut: self.last_cut,
            last_nonempty_partial: self.last_nonempty_partial,
            last_partial: self.last_partial@,
            punct_candidate: self.punct_candidate,
            no_punct_stable_since: match self.no_punct_stable_since {
                Some((t, s)) => Some((t, s@)),
                None => None,
            },
            committed_text: self.committed_text@,
            stats: self.stats,
        }
    }
}

/// The time from `since` to `now`, none if `since` is later.
pub open spec fn elapsed(since: u64, now: u64) -> nat {
    if now >= since {
        (now - since) as nat
    } else {
        0
    }
}

/// How long the stream has waited for a cut.
pub open spec fn waited(v: SegView, now: u64) -> nat {
    match v.last_nonempty_partial {
        Some(t) => elapsed(t, now),
        None => 0,
    }
}

/// What of `partial` came after the last checkpoint: all of it where the
/// recogniser revised the committed text.
pub open spec fn new_text(v: SegView, partial: Seq<char>) -> Seq<char> {
    if v.committed_text.is_prefix_of(partial) {
        partial.skip(v.committed_text.len() as int)
    } else {
        partial
    }
}

/// A step that commits `text`, the rest of the stream.
pub open spec fn reset_cut(v: SegView, text: Seq<char>) -> SegView {
    SegView { stats: recorded(v.stats, v.committed_text, text, false), ..v }
}

/// A step that commits `text` and goes on with the stream.
pub open spec fn checkpoint_cut(v: SegView, text: Seq<char>, now: u64) -> SegView {
    SegView {
        stats: recorded(v.stats, v.committed_text, text, true),
        last_cut: Some(now),
        last_nonempty_partial: Some(now),
        committed_text: text,
        ..v
    }
}

/// The longest wait is over and there is something to commit.
pub open spec fn extreme_due(v: SegView, partial: Seq<char>, now: u64) -> bool {
    waited(v, now) >= v.config.extreme_timeout && text::trim(new_text(v, partial)).len() > 0
}

/// The step for the longest wait.
pub open spec fn extreme_step(v: SegView, partial: Seq<char>, now: u64) -> (
    SegView,
    Option<ActionView>,
) {
    if extreme_due(v, partial, now) {
        let counted = SegView {
            stats: SegStats {
                extreme_cut_count: (v.stats.extreme_cut_count + 1) as usize,
                ..v.stats
            },
            ..v
        };
        (
            reset_cut(counted, new_text(v, partial)),
            Some(ActionView::ExtremeReset { text: new_text(v, partial) }),
        )
    } else {
        (v, None)
    }
}

/// A mark watched so far is given up.
pub open spec fn regretted(v: SegView) -> SegView {
    SegView {
        stats: SegStats {
            punct_regret_count: (v.stats.punct_regret_count + 1) as usize,
            ..v.stats
        },
        punct_candidate: None,
        ..v
    }
}

/// A mark is seen: counted if none is being watched.
pub open spec fn mark_seen(v: SegView) -> SegView {
    if v.punct_candidate is None {
        SegView {
            stats: SegStats {
                punct_candidate_count: (v.stats.punct_candidate_count + 1) as usize,
                ..v.stats
            },
            ..v
        }
    } else {
        v
    }
}

/// The last checkpoint is too recent for another at a mark.
pub open spec fn cooling(v: SegView, now: u64) -> bool {
    v.last_cut is Some && elapsed(v.last_cut->0, now) < v.config.punct_cooldown
}

/// Where the recogniser revised the committed text, that text is forgotten.
pub open spec fn revision_checked(v: SegView, partial: Seq<char>) -> SegView {
    if v.committed_text.is_prefix_of(partial) {
        v
    } else {
        SegView { committed_text: Seq::empty(), ..regretted(v) }
    }
}

/// The sentence that ends just before `cut` has enough new words, and its last
/// word may end a sentence.
pub open spec fn sentence_ok(v: SegView, partial: Seq<char>, cut: int) -> bool {
    let from = v.committed_text.len() as int;
    &&& text::word_count(partial.subrange(from, if cut < from { from } else { cut }))
        >= v.config.punct_min_new_words
    &&& !ends_with_connection(partial.take(cut))
}

/// The step for sentence-ending marks.
pub open spec fn punct_step(v: SegView, partial: Seq<char>, changed: bool, now: u64) -> (
    SegView,
    Option<ActionView>,
) {
    match last_ending(partial) {
        None => (
            if v.punct_candidate is Some {
                regretted(v)
            } else {
                v
            },
            None,
        ),
        Some(mark) => {
            let seen = mark_seen(v);
            let w = revision_checked(seen, partial);
            let at = text::byte_len(partial.take(mark));
            if cooling(v, now) {
                (seen, None)
            } else if !sentence_ok(w, partial, mark + 1) {
                (w, None)
            } else if w.punct_candidate is Some && w.punct_candidate->0.byte_pos == at {
                let since = w.punct_candidate->0.first_seen;
                if changed || elapsed(since, now) < v.config.punct_stability {
                    (w, None)
                } else {
                    (
                        mark_cut(w, partial.take(mark + 1), since, now),
                        Some(
                            ActionView::Checkpoint {
                                text: partial.take(mark + 1),
                                draft: text::trim(partial.skip(mark + 1)),
                            },
                        ),
                    )
                }
            } else {
                (watching(w, at, now), None)
            }
        },
    }
}

/// A mark at byte `at` is watched from `now` on, in place of any other.
pub open spec fn watching(v: SegView, at: nat, now: u64) -> SegView {
    SegView {
        punct_candidate: Some(PunctCandidate { byte_pos: at as usize, first_seen: now }),
        ..if v.punct_candidate is Some {
            regretted(v)
        } else {
            v
        }
    }
}

/// The cut at a mark that stood still since `since`.
pub open spec fn mark_cut(v: SegView, text: Seq<char>, since: u64, now: u64) -> SegView {
    let counted = SegView {
        stats: SegStats {
            punct_success_count: (v.stats.punct_success_count + 1) as usize,
            total_cut_latency_ms: (v.stats.total_cut_latency_ms + elapsed(since, now)
                / 1_000_000) as u64,
            ..v.stats
        },
        punct_candidate: None,
        ..v
    };
    checkpoint_cut(counted, text, now)
}

/// `partial` is the text that stands still without a mark.
pub open spec fn standing(v: SegView, partial: Seq<char>) -> bool {
    match v.no_punct_stable_since {
        Some((_, s)) => s == partial,
        None => false,
    }
}

/// Since when a text stands still without a mark.
pub open spec fn stood_since(v: SegView) -> u64 {
    match v.no_punct_stable_since {
        Some((t, _)) => t,
        None => 0,
    }
}

/// The step for partials without a mark to cut at.
pub open spec fn no_punct_step(v: SegView, partial: Seq<char>, changed: bool, now: u64) -> (
    SegView,
    Option<ActionView>,
) {
    let n = text::word_count(partial);
    if waited(v, now) < v.config.no_punct_timeout || n < v.config.no_punct_min_words {
        (v, None)
    } else if changed || !standing(v, partial) {
        (SegView { no_punct_stable_since: Some((now, partial)), ..v }, None)
    } else if elapsed(stood_since(v), now) < v.config.no_punct_stability {
        (v, None)
    } else {
        let keep = if v.config.no_punct_keep_last_words < n {
            v.config.no_punct_keep_last_words as nat
        } else {
            n
        };
        let head = partial.take(text::spans(partial)[n - keep - 1].1);
        if keep == n || ends_with_connection(head) {
            (v, None)
        } else {
            let counted = SegView {
                stats: SegStats {
                    no_punct_fallback_count: (v.stats.no_punct_fallback_count + 1) as usize,
                    ..v.stats
                },
                no_punct_stable_since: None,
                ..v
            };
            (
                checkpoint_cut(counted, text::trim(head), now),
                Some(
                    ActionView::Checkpoint {
                        text: text::trim(head),
                        draft: text::joined(text::words(partial).skip(n - keep), " "@),
                    },
                ),
            )
        }
    }
}

/// The segmenter with the trimmed partial `p` noted, before anything is cut.
pub open spec fn noted(v: SegView, p: Seq<char>, now: u64) -> SegView {
    SegView {
        last_nonempty_partial: match v.last_nonempty_partial {
            Some(t) => Some(t),
            None => Some(now),
        },
        last_partial: p,
        ..v
    }
}

/// The steps for the trimmed partial `p`, the strongest first: a later one is
/// taken only where no earlier one cuts.
pub open spec fn steps_taken(v: SegView, p: Seq<char>, changed: bool, now: u64) -> (
    SegView,
    Option<ActionView>,
) {
    let punct = punct_step(v, p, changed, now);
    let fallback = no_punct_step(punct.0, p, changed, now);
    if punct.1 is Some {
        punct
    } else if fallback.1 is Some {
        fallback
    } else {
        extreme_step(fallback.0, p, now)
    }
}

/// What a partial does to the segmenter, and the cut it brings about.
pub open spec fn fed(v: SegView, partial: Seq<char>, now: u64) -> (SegView, Option<ActionView>) {
    let p = text::trim(partial);
    if p.len() == 0 {
        (SegView { punct_candidate: None, no_punct_stable_since: None, ..v }, None)
    } else {
        steps_taken(noted(v, p, now), p, v.last_partial != p, now)
    }
}

/// What silence does to the segmenter, and the cut it brings about.
pub open spec fn silenced(v: SegView) -> (SegView, Option<ActionView>) {
    let rest = new_text(v, v.last_partial);
    if text::trim(rest).len() == 0 {
        (v, None)
    } else {
        (reset_cut(v, rest), Some(ActionView::VadReset { text: rest }))
    }
}

/// How many leading characters of `s` fit into `bytes` bytes.
pub open spec fn fitting(s: Seq<char>, bytes: nat) -> int
    decreases s.len(),
{
    if s.len() == 0 || text::byte_len(s) <= bytes {
        s.len() as int
    } else {
        fitting(s.drop_last(), bytes)
    }
}

/// What is left of the last partial behind as many bytes as the committed text
/// has, rounded down to a whole character.
pub open spec fn draft_of(v: SegView) -> Seq<char> {
    v.last_partial.skip(fitting(v.last_partial, text::byte_len(v.committed_text)))
}

proof fn lemma_fitting(s: Seq<char>, n: int, bytes: nat)
    requires
        0 <= n <= s.len(),
        text::byte_len(s.take(n)) <= bytes,
        n < s.len() ==> text::byte_len(s.take(n + 1)) > bytes,
    ensures
        fitting(s, bytes) == n,
    decreases s.len(),
{
    if n == s.len() {
        assert(s.take(n) =~= s);
    } else {
        text::lemma_byte_len_split(s, n + 1);
        let t = s.drop_last();
        assert(t.take(n) =~= s.take(n));
        if n < t.len() {
            assert(t.take(n + 1) =~= s.take(n + 1));
        }
        lemma_fitting(t, n, bytes);
    }
}

/// The segmenter of a stream that starts at `now`; settings and statistics stay.
pub open spec fn restarted(v: SegView, now: u64) -> SegView {
    SegView {
        config: v.config,
        stream_started: now,
        last_cut: None,
        last_nonempty_partial: None,
        last_partial: Seq::empty(),
        punct_candidate: None,
        no_punct_stable_since: None,
        committed_text: Seq::empty(),
        stats: v.stats,
    }
}

impl Segmenter {
    /// A segmenter of a stream that starts at `now`.
    pub fn new(config: SegConfig, now: u64) -> (r: Segmenter)
        ensures
            r@ == restarted(r@, now),
            r.config == config,
            r.stats == zero_stats(),
    {
        Segmenter {
            config,
            stream_started: now,
            last_cut: None,
            last_nonempty_partial: None,
            last_partial: String::new(),
            punct_candidate: None,
            no_punct_stable_since: None,
            committed_text: String::new(),
            stats: SegStats::default(),
        }
    }

    /// Whether every counter can take a partial of `chars` characters at `now`.
    pub fn has_room(&self, chars: usize, now: u64) -> (r: bool)
        ensures
            r == stats_have_room(self.stats, chars as nat, now),
    {
        let st = self.stats;
        st.punct_candidate_count < usize::MAX && st.punct_success_count < usize::MAX
            && st.punct_regret_count < usize::MAX && st.no_punct_fallback_count < usize::MAX
            && st.extreme_cut_count < usize::MAX && st.total_cut_latency_ms <= u64::MAX - now
            / 1_000_000 && st.total_words_sum <= usize::MAX - chars && st.total_segment_count
            < usize::MAX && st.repeat_risk_count < usize::MAX && st.missing_word_risk_count
            < usize::MAX
    }

    /// Takes the next partial and tells which cut it brings about.
    pub fn feed_partial(&mut self, partial: &str, now: u64) -> (r: Option<SegmentAction>)
        requires
            stats_have_room(old(self).stats, partial@.len(), now),
        ensures
            (final(self)@, action_view(r)) == fed(old(self)@, partial@, now),
    {
        let p = text::trim_text(partial);
        proof {
            text::lemma_trim_ends(partial@);
        }
        if p.as_str().is_empty() {
            self.punct_candidate = None;
            self.no_punct_stable_since = None;
            return None;
        }
        if self.last_nonempty_partial.is_none() {
            self.last_nonempty_partial = Some(now);
        }
        let changed = !text::same_text(self.last_partial.as_str(), p.as_str());
        self.last_partial = p.clone();
        let punct = self.check_punctuation(p.as_str(), changed, now);
        if punct.is_some() {
            return punct;
        }
        let fallback = self.check_no_punct(p.as_str(), changed, now);
        if fallback.is_some() {
            return fallback;
        }
        self.check_extreme(p.as_str(), now)
    }

    /// What silence in the voice activity brings about.
    pub fn on_vad_silence(&mut self, _now: u64) -> (r: Option<SegmentAction>)
        requires
            stats_have_room(old(self).stats, old(self).last_partial@.len(), 0),
        ensures
            (final(self)@, action_view(r)) == silenced(old(self)@),
    {
        let rest = self.compute_new_text(self.last_partial.as_str());
        if text::is_blank(rest.as_str()) {
            return None;
        }
        self.record_segment(rest.as_str(), false);
        Some(SegmentAction::VadReset { text: rest })
    }

    /// Forgets the stream after it was started anew at `now`.
    pub fn on_stream_reset(&mut self, now: u64)
        ensures
            final(self)@ == restarted(old(self)@, now),
    {
        self.stream_started = now;
        self.last_cut = None;
        self.last_nonempty_partial = None;
        self.last_partial = String::new();
        self.punct_candidate = None;
        self.no_punct_stable_since = None;
        self.committed_text = String::new();
    }

    /// What is left of the last partial behind the committed text.
    pub fn draft(&self) -> (r: String)
        ensures
            r@ == draft_of(self@),
    {
        let limit: usize = text::text_bytes(self.committed_text.as_str());
        let chars = text::chars_of(self.last_partial.as_str());
        let len: usize = chars.len();
        let mut n: usize = 0;
        let mut used: usize = 0;
        let ghost p = self.last_partial@;
        proof {
            assert(p.take(0) =~= Seq::<char>::empty());
        }
        while n < len && text::utf8_len(chars[n]) <= limit - used
            invariant
                chars@ == p,
                len == p.len(),
                n <= len,
                used <= limit,
                used == text::byte_len(p.take(n as int)),
            decreases len - n,
        {
            proof {
                assert(p.take(n + 1).drop_last() =~= p.take(n as int));
            }
            used = used + text::utf8_len(chars[n]);
            n = n + 1;
        }
        proof {
            if n < len {
                assert(p.take(n + 1).drop_last() =~= p.take(n as int));
            }
            lemma_fitting(p, n as int, limit as nat);
            assert(p.subrange(n as int, len as int) =~= p.skip(n as int));
        }
        text::text_of(chars.as_slice(), n, len)
    }

    /// The cut for the longest wait.
    fn check_extreme(&mut self, partial: &str, now: u64) -> (r: Option<SegmentAction>)
        requires
            old(self).stats.extreme_cut_count < usize::MAX,
            old(self).stats.total_words_sum + partial@.len() <= usize::MAX,
            old(self).stats.total_segment_count < usize::MAX,
            old(self).stats.repeat_risk_count < usize::MAX,
            old(self).stats.missing_word_risk_count < usize::MAX,
        ensures
            (final(self)@, action_view(r)) == extreme_step(old(self)@, partial@, now),
    {
        let waited: u64 = match self.last_nonempty_partial {
            Some(t) => now.saturating_sub(t),
            None => 0,
        };
        if waited < self.config.extreme_timeout {
            return None;
        }
        let rest = self.compute_new_text(partial);
        if text::is_blank(rest.as_str()) {
            return None;
        }
        self.stats.extreme_cut_count = self.stats.extreme_cut_count + 1;
        self.record_segment(rest.as_str(), false);
        Some(SegmentAction::ExtremeReset { text: rest })
    }

    /// The cut at a sentence-ending mark.
    fn check_punctuation(&mut self, partial: &str, partial_changed: bool, now: u64) -> (r: Option<
        SegmentAction,
    >)
        requires
            stats_have_room(old(self).stats, partial@.len(), now),
        ensures
            (final(self)@, action_view(r)) == punct_step(
                old(self)@,
                partial@,
                partial_changed,
                now,
            ),
    {
        let chars = text::chars_of(partial);
        let mark: usize = match last_ending_of(chars.as_slice()) {
            Some(m) => m,
            None => {
                if self.punct_candidate.is_some() {
                    self.stats.punct_regret_count = self.stats.punct_regret_count + 1;
                    self.punct_candidate = None;
                }
                return None;
            },
        };
        if self.punct_candidate.is_none() {
            self.stats.punct_candidate_count = self.stats.punct_candidate_count + 1;
        }
        if let Some(last_cut) = self.last_cut {
            if now.saturating_sub(last_cut) < self.config.punct_cooldown {
                return None;
            }
        }
        let cut: usize = mark + 1;
        let committed = text::chars_of(self.committed_text.as_str());
        let mut from: usize = committed.len();
        if !text::begins_with(chars.as_slice(), committed.as_slice()) {
            self.stats.punct_regret_count = self.stats.punct_regret_count + 1;
            self.punct_candidate = None;
            self.committed_text = String::new();
            from = 0;
        }
        let ghost w = self@;
        assert(w == revision_checked(mark_seen(old(self)@), partial@));
        let until: usize = if cut < from {
            from
        } else {
            cut
        };
        let new_part = text::text_of(chars.as_slice(), from, until);
        if text::count_words(new_part.as_str()) < self.config.punct_min_new_words {
            return None;
        }
        let text = text::text_of(chars.as_slice(), 0, cut);
        proof {
            assert(partial@.subrange(0, cut as int) =~= partial@.take(cut as int));
        }
        if Self::ends_with_connection_word(text.as_str()) {
            return None;
        }
        let head = text::text_of(chars.as_slice(), 0, mark);
        proof {
            assert(partial@.subrange(0, mark as int) =~= partial@.take(mark as int));
        }
        let at: usize = text::text_bytes(head.as_str());
        let since: u64 = match self.punct_candidate {
            Some(c) => {
                if c.byte_pos != at {
                    self.stats.punct_regret_count = self.stats.punct_regret_count + 1;
                    self.punct_candidate = Some(PunctCandidate { byte_pos: at, first_seen: now });
                    return None;
                }
                c.first_seen
            },
            None => {
                self.punct_candidate = Some(PunctCandidate { byte_pos: at, first_seen: now });
                return None;
            },
        };
        let stable: u64 = now.saturating_sub(since);
        if partial_changed || stable < self.config.punct_stability {
            return None;
        }
        let tail = text::text_of(chars.as_slice(), cut, chars.len());
        proof {
            assert(partial@.subrange(cut as int, partial@.len() as int) =~= partial@.skip(
                cut as int,
            ));
        }
        let draft = text::trim_text(tail.as_str());
        self.stats.punct_success_count = self.stats.punct_success_count + 1;
        self.stats.total_cut_latency_ms = self.stats.total_cut_latency_ms + stable / 1_000_000;
        self.record_segment(text.as_str(), true);
        self.last_cut = Some(now);
        self.last_nonempty_partial = Some(now);
        self.punct_candidate = None;
        self.committed_text = text.clone();
        Some(SegmentAction::Checkpoint { text, draft })
    }

    /// The cut for want of a mark.
    fn check_no_punct(&mut self, partial: &str, partial_changed: bool, now: u64) -> (r: Option<
        SegmentAction,
    >)
        requires
            old(self).stats.no_punct_fallback_count < usize::MAX,
            old(self).stats.total_words_sum + partial@.len() <= usize::MAX,
            old(self).stats.total_segment_count < usize::MAX,
            old(self).stats.repeat_risk_count < usize::MAX,
            old(self).stats.missing_word_risk_count < usize::MAX,
        ensures
            (final(self)@, action_view(r)) == no_punct_step(
                old(self)@,
                partial@,
                partial_changed,
                now,
            ),
    {
        let waited: u64 = match self.last_nonempty_partial {
            Some(t) => now.saturating_sub(t),
            None => 0,
        };
        if waited < self.config.no_punct_timeout {
            return None;
        }
        let chars = text::chars_of(partial);
        let places = text::word_spans(chars.as_slice());
        if places.len() < self.config.no_punct_min_words {
            return None;
        }
        let standing = match &self.no_punct_stable_since {
            Some((_, s)) => !partial_changed && text::same_text(s.as_str(), partial),
            None => false,
        };
        if !standing {
            self.no_punct_stable_since = Some((now, partial.to_owned()));
            return None;
        }
        let since: u64 = match &self.no_punct_stable_since {
            Some((t, _)) => *t,
            None => now,
        };
        if now.saturating_sub(since) < self.config.no_punct_stability {
            return None;
        }
        let keep: usize = if self.config.no_punct_keep_last_words < places.len() {
            self.config.no_punct_keep_last_words
        } else {
            places.len()
        };
        if keep == places.len() {
            return None;
        }
        let first_kept: usize = places.len() - keep;
        let draft = join_words(chars.as_slice(), places.as_slice(), first_kept);
        let cut: usize = places[first_kept - 1].1;
        let head = text::text_of(chars.as_slice(), 0, cut);
        proof {
            assert(partial@.subrange(0, cut as int) =~= partial@.take(cut as int));
            text::lemma_trim_ends(head@);
        }
        if Self::ends_with_connection_word(head.as_str()) {
            return None;
        }
        let text = text::trim_text(head.as_str());
        self.stats.no_punct_fallback_count = self.stats.no_punct_fallback_count + 1;
        self.record_segment(text.as_str(), true);
        self.last_cut = Some(now);
        self.last_nonempty_partial = Some(now);
        self.committed_text = text.clone();
        self.no_punct_stable_since = None;
        Some(SegmentAction::Checkpoint { text, draft })
    }

    /// What of `partial` came after the last checkpoint.
    fn compute_new_text(&self, partial: &str) -> (r: String)
        ensures
            r@ == new_text(self@, partial@),
            r@.len() <= partial@.len(),
    {
        let p = text::chars_of(partial);
        let c = text::chars_of(self.committed_text.as_str());
        let from: usize = if text::begins_with(p.as_slice(), c.as_slice()) {
            c.len()
        } else {
            0
        };
        proof {
            assert(partial@.subrange(from as int, partial@.len() as int) =~= partial@.skip(
                from as int,
            ));
            assert(partial@.skip(0) =~= partial@);
        }
        text::text_of(p.as_slice(), from, p.len())
    }

    /// Counts `text` as committed.
    fn record_segment(&mut self, text: &str, is_checkpoint: bool)
        requires
            old(self).stats.total_words_sum + text@.len() <= usize::MAX,
            old(self).stats.total_segment_count < usize::MAX,
            old(self).stats.repeat_risk_count < usize::MAX,
            old(self).stats.missing_word_risk_count < usize::MAX,
        ensures
            final(self)@ == (SegView {
                stats: recorded(
                    old(self).stats,
                    old(self).committed_text@,
                    text@,
                    is_checkpoint,
                ),
                ..old(self)@
            }),
    {
        let words: usize = text::count_words(text);
        self.stats.total_segment_count = self.stats.total_segment_count + 1;
        proof {
            text::lemma_spans(text@);
        }
        self.stats.total_words_sum = self.stats.total_words_sum + words;
        let t = text::chars_of(text);
        let c = text::chars_of(self.committed_text.as_str());
        if c.len() > 0 && t.len() > 0 && text::contains_text(t.as_slice(), c.as_slice())
            && !text::begins_with(t.as_slice(), c.as_slice()) {
            self.stats.repeat_risk_count = self.stats.repeat_risk_count + 1;
        }
        if is_checkpoint {
            let before: usize = text::count_words(self.committed_text.as_str());
            if before > 0 && words > 0 && words < before / 3 {
                self.stats.missing_word_risk_count = self.stats.missing_word_risk_count + 1;
            }
        }
    }

    /// Whether the last word of `s`, whatever follows its last letter left
    /// aside, is one that never ends a sentence.
    pub fn ends_with_connection_word(s: &str) -> (r: bool)
        ensures
            r == ends_with_connection(s@),
    {
        let chars = text::chars_of(s);
        let places = text::word_spans(chars.as_slice());
        if places.len() == 0 {
            return false;
        }
        let (a, b) = places[places.len() - 1];
        let mut e: usize = b;
        let ghost w = s@.subrange(a as int, b as int);
        proof {
            assert(text::words(s@).last() == w);
            assert(w.take(b - a) =~= w);
        }
        while e > a && !chars[e - 1].is_alphabetic()
            invariant
                a <= e <= b <= s@.len(),
                chars@ == s@,
                w == s@.subrange(a as int, b as int),
                upto_last_letter(w.take(e - a)) == upto_last_letter(w),
            decreases e,
        {
            proof {
                assert(w.take(e - a).drop_last() =~= w.take(e - 1 - a));
            }
            e = e - 1;
        }
        let bare = text::lowered(slice_subrange(chars.as_slice(), a, e));
        proof {
            assert(w.take(e - a) =~= s@.subrange(a as int, e as int));
            assert(bare@.subrange(0, bare@.len() as int) =~= bare@);
        }
        let low = text::text_of(bare.as_slice(), 0, bare.len());
        connection_word(low.as_str())
    }

    /// The byte offset just behind the `n`-th word of `s`, counted from zero.
    pub fn find_nth_word_end(s: &str, n: usize) -> (r: Option<usize>)
        ensures
            match r {
                Some(at) => nth_word_end(s@, n as nat) == Some(at as nat),
                None => nth_word_end(s@, n as nat) is None,
            },
    {
        let chars = text::chars_of(s);
        let places = text::word_spans(chars.as_slice());
        if n < places.len() {
            let end: usize = places[n].1;
            let head = text::text_of(chars.as_slice(), 0, end);
            proof {
                assert(s@.subrange(0, end as int) =~= s@.take(end as int));
            }
            Some(text::text_bytes(head.as_str()))
        } else {
            None
        }
    }
}

// ─── Laws ──────────────────────────────────────────────────────────────

/// A blank partial never cuts; it only drops what was being watched.
pub proof fn law_blank_partial_never_cuts(v: SegView, partial: Seq<char>, now: u64)
    requires
        text::trim(partial).len() == 0,
    ensures
        fed(v, partial, now).1 is None,
        fed(v, partial, now).0.committed_text == v.committed_text,
        fed(v, partial, now).0.last_partial == v.last_partial,
        fed(v, partial, now).0.stats == v.stats,
        fed(v, partial, now).0.punct_candidate is None,
{
}

/// A stream that was started anew has nothing to commit and nothing left over.
pub proof fn law_reset_forgets_the_stream(v: SegView, now: u64)
    ensures
        draft_of(restarted(v, now)) == Seq::<char>::empty(),
        silenced(restarted(v, now)) == (restarted(v, now), None::<ActionView>),
        restarted(v, now).stats == v.stats,
        restarted(restarted(v, now), now) == restarted(v, now),
{
    let e = Seq::<char>::empty();
    assert(e.skip(0) =~= e);
    assert(text::trim_start(e) == e);
    assert(draft_of(restarted(v, now)) =~= e);
    assert(new_text(restarted(v, now), e) =~= e);
}

/// A cut at a mark comes before all other cuts that a partial can bring about,
/// and one for want of a mark before the one for the longest wait.
pub proof fn law_stronger_cuts_come_first(v: SegView, partial: Seq<char>, now: u64)
    requires
        text::trim(partial).len() > 0,
    ensures
        ({
            let p = text::trim(partial);
            let changed = v.last_partial != p;
            let punct = punct_step(noted(v, p, now), p, changed, now);
            let fallback = no_punct_step(punct.0, p, changed, now);
            &&& punct.1 is Some ==> fed(v, partial, now) == punct
            &&& punct.1 is None && fallback.1 is Some ==> fed(v, partial, now) == fallback
            &&& fed(v, partial, now).1 matches Some(ActionView::ExtremeReset { .. }) ==> punct.1
                is None && fallback.1 is None && extreme_due(v, p, now)
        }),
{
    lemma_extreme_due(v, text::trim(partial), now);
}

/// After the longest wait a partial with anything new in it always cuts: where
/// nothing stronger does, everything new is committed.
pub proof fn law_longest_wait_always_cuts(v: SegView, partial: Seq<char>, now: u64)
    requires
        text::trim(partial).len() > 0,
        extreme_due(v, text::trim(partial), now),
    ensures
        match fed(v, partial, now).1 {
            Some(ActionView::Checkpoint { .. }) => true,
            Some(ActionView::ExtremeReset { text }) => text == new_text(v, text::trim(partial)),
            Some(ActionView::VadReset { .. }) => false,
            None => false,
        },
{
    lemma_extreme_due(v, text::trim(partial), now);
}

/// Steps that do not cut leave the longest wait and what is new as they were.
proof fn lemma_extreme_due(v: SegView, p: Seq<char>, now: u64)
    ensures
        ({
            let changed = v.last_partial != p;
            let punct = punct_step(noted(v, p, now), p, changed, now);
            let fallback = no_punct_step(punct.0, p, changed, now);
            punct.1 is None && fallback.1 is None ==> {
                &&& new_text(fallback.0, p) == new_text(v, p)
                &&& fallback.0.config == v.config
                &&& extreme_due(fallback.0, p, now) == extreme_due(v, p, now)
            }
        }),
{
    let e = Seq::<char>::empty();
    assert(e.is_prefix_of(p));
    assert(p.skip(0) =~= p);
}

/// A cut at a mark is made only if the mark stood still long enough, the
/// partial did not change, the last cut is long enough ago, and the sentence
/// does not end with a connection word.
pub proof fn law_mark_cut_is_earned(v: SegView, partial: Seq<char>, now: u64)
    requires
        stats_have_room(v.stats, partial.len(), now),
        fed(v, partial, now).0.stats.punct_success_count != v.stats.punct_success_count,
    ensures
        v.punct_candidate is Some,
        elapsed(v.punct_candidate->0.first_seen, now) >= v.config.punct_stability,
        v.last_partial == text::trim(partial),
        !cooling(v, now),
        fed(v, partial, now).1 matches Some(ActionView::Checkpoint { text, .. }) && text.len() > 0
            && is_ending(text.last()) && !ends_with_connection(text),
        fed(v, partial, now).0.stats.punct_success_count == v.stats.punct_success_count + 1,
{
    lemma_last_ending(text::trim(partial));
}

/// A checkpoint commits a prefix of the partial, and what is left is exactly the
/// rest of it.
pub proof fn law_checkpoint_splits_the_partial(v: SegView, partial: Seq<char>, now: u64)
    requires
        fed(v, partial, now).1 is Some,
        fed(v, partial, now).1->0 is Checkpoint,
    ensures
        ({
            let p = text::trim(partial);
            let text = fed(v, partial, now).1->0->Checkpoint_text;
            let after = fed(v, partial, now).0;
            &&& text.len() > 0
            &&& text.is_prefix_of(p)
            &&& after.committed_text == text
            &&& after.last_partial == p
            &&& text + new_text(after, p) == p
            &&& draft_of(after) == p.skip(text.len() as int)
        }),
{
    let p = text::trim(partial);
    let r = fed(v, partial, now);
    let text = r.1->0->Checkpoint_text;
    lemma_last_ending(p);
    text::lemma_spans(p);
    text::lemma_trim_ends(partial);
    if last_ending(p) is None || text != p.take(last_ending(p)->0 + 1) {
        let n = text::word_count(p);
        let keep = if v.config.no_punct_keep_last_words < n {
            v.config.no_punct_keep_last_words as nat
        } else {
            n
        };
        let cut = text::spans(p)[n - keep - 1].1;
        let head = p.take(cut);
        assert(p[cut - 1] == head.last());
        assert(p[0] == head[0]);
        assert(!text::is_space(p[cut - 1])) by {
            assert(text::spans(p)[n - keep - 1].0 <= cut - 1 < cut);
        }
        text::lemma_trim_of_trimmed(head);
        assert(text == head);
    }
    assert(text + p.skip(text.len() as int) =~= p);
    text::lemma_byte_len_split(p, text.len() as int);
    assert(p.take(text.len() as int) =~= text);
    if text.len() < p.len() {
        assert(p.take(text.len() as int + 1).drop_last() =~= text);
    }
    lemma_fitting(p, text.len() as int, text::byte_len(text));
}

/// The text of a checkpoint and what silence then commits make up the whole
/// partial, unless what is left is blank.
pub proof fn law_checkpoint_then_silence_commits_all(v: SegView, partial: Seq<char>, now: u64)
    requires
        fed(v, partial, now).1 is Some,
        fed(v, partial, now).1->0 is Checkpoint,
    ensures
        ({
            let p = text::trim(partial);
            let text = fed(v, partial, now).1->0->Checkpoint_text;
            match silenced(fed(v, partial, now).0).1 {
                Some(ActionView::VadReset { text: rest }) => text + rest == p,
                Some(_) => false,
                None => text::trim(p.skip(text.len() as int)).len() == 0,
            }
        }),
{
    law_checkpoint_splits_the_partial(v, partial, now);
}

/// A cut at a mark that leaves the committed text in place goes beyond it: the
/// text of the cut repeats what was committed and adds enough new words.
pub proof fn law_mark_cut_extends_what_was_committed(v: SegView, partial: Seq<char>, now: u64)
    requires
        stats_have_room(v.stats, partial.len(), now),
        v.config.punct_min_new_words > 0,
        v.committed_text.is_prefix_of(text::trim(partial)),
        fed(v, partial, now).0.stats.punct_success_count != v.stats.punct_success_count,
    ensures
        ({
            let text = fed(v, partial, now).0.committed_text;
            &&& v.committed_text.len() < text.len()
            &&& v.committed_text.is_prefix_of(text)
            &&& text::word_count(text.skip(v.committed_text.len() as int))
                >= v.config.punct_min_new_words
        }),
{
    let p = text::trim(partial);
    let c = v.committed_text;
    lemma_last_ending(p);
    let cut = last_ending(p)->0 + 1;
    let text = p.take(cut);
    let from = c.len() as int;
    if cut < from {
        assert(text::word_count(p.subrange(from, from)) == 0);
    } else {
        assert(p.subrange(from, cut) =~= text.skip(from));
        if cut == from {
            assert(text.skip(from) =~= Seq::<char>::empty());
        }
        assert(p.subrange(0, from) == c);
        assert(text.subrange(0, from) =~= p.subrange(0, from));
    }
}

/// A cut for want of a mark keeps every word: those of its text, followed by
/// those of its draft, are the words of the partial.
pub proof fn law_fallback_cut_keeps_every_word(v: SegView, partial: Seq<char>, now: u64)
    requires
        stats_have_room(v.stats, partial.len(), now),
        fed(v, partial, now).0.stats.no_punct_fallback_count != v.stats.no_punct_fallback_count,
    ensures
        fed(v, partial, now).1 matches Some(ActionView::Checkpoint { text, draft }) && text::words(
            text,
        ) + text::words(draft) == text::words(text::trim(partial)),
{
    let p = text::trim(partial);
    let ws = text::words(p);
    let n = text::word_count(p);
    let keep = if v.config.no_punct_keep_last_words < n {
        v.config.no_punct_keep_last_words as nat
    } else {
        n
    };
    let cut = text::spans(p)[n - keep - 1].1;
    let head = p.take(cut);
    text::lemma_spans(p);
    text::lemma_trim_ends(partial);
    assert(p[cut - 1] == head.last());
    assert(p[0] == head[0]);
    assert(!text::is_space(p[cut - 1])) by {
        assert(text::spans(p)[n - keep - 1].0 <= cut - 1 < cut);
    }
    text::lemma_trim_of_trimmed(head);
    text::lemma_words_of_prefix(p, n - keep - 1);
    let rest = ws.skip(n - keep);
    assert forall|i: int| 0 <= i < rest.len() implies text::is_word(#[trigger] rest[i]) by {
        text::lemma_words_are_words(p, n - keep + i);
    }
    text::lemma_words_joined(rest);
    assert(ws.take(n - keep) + rest =~= ws);
}

/// What is new goes on from the committed text, and is all of the partial where
/// that text was revised.
proof fn lemma_new_text(v: SegView, p: Seq<char>)
    ensures
        v.committed_text.is_prefix_of(p) ==> v.committed_text + new_text(v, p) == p,
        !v.committed_text.is_prefix_of(p) ==> new_text(v, p) == p,
{
    let c = v.committed_text;
    if c.is_prefix_of(p) {
        assert(c + p.skip(c.len() as int) =~= p);
    }
}

/// A forced cut commits all that is new.
proof fn lemma_forced_cut(v: SegView, partial: Seq<char>, now: u64)
    ensures
        fed(v, partial, now).1 matches Some(ActionView::ExtremeReset { text }) ==> text == new_text(
            v,
            text::trim(partial),
        ) && text::trim(text).len() > 0,
{
    lemma_extreme_due(v, text::trim(partial), now);
}

/// A reset commits exactly what came after the last checkpoint, and all of the
/// partial where the committed text was revised.
pub proof fn law_reset_commits_the_rest(v: SegView, partial: Seq<char>, now: u64)
    ensures
        fed(v, partial, now).1 matches Some(ActionView::ExtremeReset { text }) ==> text::trim(
            text,
        ).len() > 0 && (v.committed_text.is_prefix_of(text::trim(partial)) ==> v.committed_text
            + text == text::trim(partial)) && (!v.committed_text.is_prefix_of(text::trim(partial))
            ==> text == text::trim(partial)),
        silenced(v).1 matches Some(ActionView::VadReset { text }) ==> text::trim(text).len() > 0
            && (v.committed_text.is_prefix_of(v.last_partial) ==> v.committed_text + text
            == v.last_partial) && (!v.committed_text.is_prefix_of(v.last_partial) ==> text
            == v.last_partial),
        silenced(v).1 is None <==> text::trim(new_text(v, v.last_partial)).len() == 0,
{
    lemma_forced_cut(v, partial, now);
    lemma_new_text(v, text::trim(partial));
    lemma_new_text(v, v.last_partial);
}

/// A checkpoint starts all waits anew.
proof fn lemma_checkpoint_starts_the_waits(v: SegView, partial: Seq<char>, now: u64)
    requires
        fed(v, partial, now).1 is Some,
        fed(v, partial, now).1->0 is Checkpoint,
    ensures
        fed(v, partial, now).0.config == v.config,
        fed(v, partial, now).0.last_cut == Some(now),
        fed(v, partial, now).0.last_nonempty_partial == Some(now),
{
}

/// Nothing cuts while the waits are on.
proof fn lemma_waits_hold(v: SegView, partial: Seq<char>, now: u64)
    requires
        v.last_nonempty_partial is Some,
        waited(v, now) < v.config.extreme_timeout,
    ensures
        fed(v, partial, now).1 matches Some(a) ==> a is Checkpoint,
        waited(v, now) < v.config.no_punct_timeout && cooling(v, now) ==> fed(v, partial, now).1
            is None,
{
    lemma_extreme_due(v, text::trim(partial), now);
}

/// The waits count from the last checkpoint: until the shortest of them is over
/// no partial cuts, and none resets the stream before the longest is.
pub proof fn law_waits_count_from_the_checkpoint(
    v: SegView,
    partial: Seq<char>,
    now: u64,
    next: Seq<char>,
    later: u64,
)
    requires
        fed(v, partial, now).1 is Some,
        fed(v, partial, now).1->0 is Checkpoint,
    ensures
        ({
            let after = fed(v, partial, now).0;
            let cut = fed(after, next, later).1;
            &&& after.last_cut == Some(now)
            &&& elapsed(now, later) < v.config.extreme_timeout ==> !(cut is Some
                && cut->0 is ExtremeReset)
            &&& elapsed(now, later) < v.config.extreme_timeout && elapsed(now, later)
                < v.config.no_punct_timeout && elapsed(now, later) < v.config.punct_cooldown
                ==> cut is None
        }),
{
    lemma_checkpoint_starts_the_waits(v, partial, now);
    let after = fed(v, partial, now).0;
    if elapsed(now, later) < v.config.extreme_timeout {
        lemma_waits_hold(after, next, later);
    }
}

/// The counters agree: every cut is counted once as a committed text, no more
/// cuts at marks than marks seen, and no more cuts of a kind than cuts.
pub open spec fn stats_agree(v: SegView) -> bool {
    let st = v.stats;
    &&& st.punct_success_count + (if v.punct_candidate is Some {
        1int
    } else {
        0int
    }) <= st.punct_candidate_count
    &&& st.punct_success_count + st.no_punct_fallback_count + st.extreme_cut_count
        <= st.total_segment_count
    &&& st.repeat_risk_count <= st.total_segment_count
    &&& st.missing_word_risk_count <= st.punct_success_count + st.no_punct_fallback_count
}

/// The text of a cut.
pub open spec fn cut_text(a: ActionView) -> Seq<char> {
    match a {
        ActionView::Checkpoint { text, .. } => text,
        ActionView::VadReset { text } => text,
        ActionView::ExtremeReset { text } => text,
    }
}

/// The statistics agree after a step if they did before, and they count the cut
/// that it made.
pub open spec fn step_counted(before: SegView, after: SegView, cut: Option<ActionView>) -> bool {
    let words = match cut {
        Some(a) => text::word_count(cut_text(a)),
        None => 0,
    };
    &&& stats_agree(before) ==> stats_agree(after)
    &&& after.stats.total_segment_count == before.stats.total_segment_count + (if cut is Some {
        1int
    } else {
        0int
    })
    &&& after.stats.total_words_sum == before.stats.total_words_sum + words
}

proof fn lemma_punct_counted(v: SegView, p: Seq<char>, changed: bool, now: u64)
    requires
        stats_have_room(v.stats, p.len(), now),
    ensures
        step_counted(v, punct_step(v, p, changed, now).0, punct_step(v, p, changed, now).1),
        punct_step(v, p, changed, now).1 is None ==> ({
            let st = punct_step(v, p, changed, now).0.stats;
            &&& st.no_punct_fallback_count == v.stats.no_punct_fallback_count
            &&& st.extreme_cut_count == v.stats.extreme_cut_count
            &&& st.repeat_risk_count == v.stats.repeat_risk_count
            &&& st.missing_word_risk_count == v.stats.missing_word_risk_count
        }),
{
    lemma_last_ending(p);
    if let Some(mark) = last_ending(p) {
        text::lemma_spans(p.take(mark + 1));
    }
}

proof fn lemma_no_punct_counted(v: SegView, p: Seq<char>, changed: bool, now: u64)
    requires
        v.stats.no_punct_fallback_count < usize::MAX,
        v.stats.total_words_sum + p.len() <= usize::MAX,
        v.stats.total_segment_count < usize::MAX,
        v.stats.repeat_risk_count < usize::MAX,
        v.stats.missing_word_risk_count < usize::MAX,
    ensures
        step_counted(v, no_punct_step(v, p, changed, now).0, no_punct_step(v, p, changed, now).1),
        no_punct_step(v, p, changed, now).1 is None ==> no_punct_step(v, p, changed, now).0.stats
            == v.stats,
{
    let n = text::word_count(p);
    let keep = if v.config.no_punct_keep_last_words < n {
        v.config.no_punct_keep_last_words as nat
    } else {
        n
    };
    text::lemma_spans(p);
    if keep < n {
        let head = p.take(text::spans(p)[n - keep - 1].1);
        text::lemma_trim_ends(head);
        text::lemma_spans(text::trim(head));
    }
}

proof fn lemma_extreme_counted(v: SegView, p: Seq<char>, now: u64)
    requires
        v.stats.extreme_cut_count < usize::MAX,
        v.stats.total_words_sum + p.len() <= usize::MAX,
        v.stats.total_segment_count < usize::MAX,
        v.stats.repeat_risk_count < usize::MAX,
    ensures
        step_counted(v, extreme_step(v, p, now).0, extreme_step(v, p, now).1),
{
    text::lemma_spans(new_text(v, p));
}

/// The statistics agree from the first partial on, and they count exactly the
/// cuts that were handed out.
pub proof fn law_statistics_count_the_cuts(v: SegView, partial: Seq<char>, now: u64)
    requires
        stats_have_room(v.stats, partial.len(), now),
        stats_agree(v),
    ensures
        ({
            let (after, cut) = fed(v, partial, now);
            &&& stats_agree(after)
            &&& cut is None ==> after.stats.total_segment_count == v.stats.total_segment_count
                && after.stats.total_words_sum == v.stats.total_words_sum
            &&& cut is Some ==> after.stats.total_segment_count == v.stats.total_segment_count + 1
                && after.stats.total_words_sum == v.stats.total_words_sum + text::word_count(
                cut_text(cut->0),
            )
        }),
{
    let p = text::trim(partial);
    text::lemma_trim_ends(partial);
    if p.len() > 0 {
        let changed = v.last_partial != p;
        let begun = noted(v, p, now);
        let punct = punct_step(begun, p, changed, now);
        let fallback = no_punct_step(punct.0, p, changed, now);
        lemma_punct_counted(begun, p, changed, now);
        if punct.1 is None {
            lemma_no_punct_counted(punct.0, p, changed, now);
            if fallback.1 is None {
                lemma_extreme_counted(fallback.0, p, now);
            }
        }
    }
}

/// The statistics agree after silence and after a reset, and at the start.
pub proof fn law_statistics_survive_silence_and_reset(v: SegView, now: u64)
    requires
        stats_have_room(v.stats, v.last_partial.len(), 0),
        stats_agree(v),
    ensures
        stats_agree(silenced(v).0),
        stats_agree(restarted(v, now)),
        stats_agree(SegView { stats: zero_stats(), ..restarted(v, now) }),
        silenced(v).1 is Some ==> silenced(v).0.stats.total_segment_count
            == v.stats.total_segment_count + 1,
        silenced(v).1 is None ==> silenced(v).0 == v,
{
    text::lemma_spans(new_text(v, v.last_partial));
}

/// Two segmenters that differ in nothing but what they have counted.
pub open spec fn alike(v: SegView, w: SegView) -> bool {
    &&& v.config == w.config
    &&& v.stream_started == w.stream_started
    &&& v.last_cut == w.last_cut
    &&& v.last_nonempty_partial == w.last_nonempty_partial
    &&& v.last_partial == w.last_partial
    &&& v.punct_candidate == w.punct_candidate
    &&& v.no_punct_stable_since == w.no_punct_stable_since
    &&& v.committed_text == w.committed_text
}

/// What a segmenter hands out for partials, each of which comes at a time.
pub open spec fn cuts_of(v: SegView, partials: Seq<(Seq<char>, u64)>) -> Seq<Option<ActionView>>
    decreases partials.len(),
{
    if partials.len() == 0 {
        Seq::empty()
    } else {
        let (next, cut) = fed(v, partials[0].0, partials[0].1);
        seq![cut] + cuts_of(next, partials.drop_first())
    }
}

proof fn lemma_punct_alike(v: SegView, w: SegView, p: Seq<char>, changed: bool, now: u64)
    requires
        alike(v, w),
    ensures
        punct_step(v, p, changed, now).1 == punct_step(w, p, changed, now).1,
        alike(punct_step(v, p, changed, now).0, punct_step(w, p, changed, now).0),
{
}

proof fn lemma_no_punct_alike(v: SegView, w: SegView, p: Seq<char>, changed: bool, now: u64)
    requires
        alike(v, w),
    ensures
        no_punct_step(v, p, changed, now).1 == no_punct_step(w, p, changed, now).1,
        alike(no_punct_step(v, p, changed, now).0, no_punct_step(w, p, changed, now).0),
{
}

proof fn lemma_extreme_alike(v: SegView, w: SegView, p: Seq<char>, now: u64)
    requires
        alike(v, w),
    ensures
        extreme_step(v, p, now).1 == extreme_step(w, p, now).1,
        alike(extreme_step(v, p, now).0, extreme_step(w, p, now).0),
{
}

/// What was counted has no say in what is cut.
pub proof fn law_counting_changes_no_cut(v: SegView, w: SegView, partial: Seq<char>, now: u64)
    requires
        alike(v, w),
    ensures
        fed(v, partial, now).1 == fed(w, partial, now).1,
        alike(fed(v, partial, now).0, fed(w, partial, now).0),
        silenced(v).1 == silenced(w).1,
        alike(silenced(v).0, silenced(w).0),
        draft_of(v) == draft_of(w),
{
    let p = text::trim(partial);
    if p.len() > 0 {
        let changed = v.last_partial != p;
        let (begun_v, begun_w) = (noted(v, p, now), noted(w, p, now));
        let (punct_v, punct_w) = (
            punct_step(begun_v, p, changed, now).0,
            punct_step(begun_w, p, changed, now).0,
        );
        lemma_punct_alike(begun_v, begun_w, p, changed, now);
        lemma_no_punct_alike(punct_v, punct_w, p, changed, now);
        lemma_extreme_alike(
            no_punct_step(punct_v, p, changed, now).0,
            no_punct_step(punct_w, p, changed, now).0,
            p,
            now,
        );
    }
}

proof fn lemma_alike_cuts(v: SegView, w: SegView, partials: Seq<(Seq<char>, u64)>)
    requires
        alike(v, w),
    ensures
        cuts_of(v, partials) == cuts_of(w, partials),
    decreases partials.len(),
{
    if partials.len() > 0 {
        let (partial, now) = partials[0];
        law_counting_changes_no_cut(v, w, partial, now);
        lemma_alike_cuts(
            fed(v, partial, now).0,
            fed(w, partial, now).0,
            partials.drop_first(),
        );
    }
}

/// After a reset a segmenter cuts as a new one with the same settings does,
/// whatever it heard before.
pub proof fn law_reset_cuts_as_a_new_segmenter(
    v: SegView,
    fresh: SegView,
    now: u64,
    partials: Seq<(Seq<char>, u64)>,
)
    requires
        fresh == restarted(fresh, now),
        fresh.config == v.config,
    ensures
        cuts_of(restarted(v, now), partials) == cuts_of(fresh, partials),
{
    lemma_alike_cuts(restarted(v, now), fresh, partials);
}

proof fn lemma_last_ending(s: Seq<char>)
    ensures
        last_ending(s) matches Some(i) ==> 0 <= i < s.len() && is_ending(s[i]) && (forall|j: int|
            i < j < s.len() ==> !is_ending(s[j])),
        last_ending(s) is None ==> (forall|j: int| 0 <= j < s.len() ==> !is_ending(s[j])),
    decreases s.len(),
{
    if s.len() > 0 && !is_ending(s.last()) {
        let t = s.drop_last();
        lemma_last_ending(t);
        assert(forall|j: int| 0 <= j < t.len() ==> t[j] == s[j]);
    }
}

/// The preset waits for a mark 0.7 s, holds marks off for 1.5 s after a cut, cuts
/// without a mark after 10 s and whatever comes after 25 s, and takes 300 ms of
/// silence for the end of speech.
pub proof fn law_preset_waits(r: SegConfig)
    requires
        is_enhanced_preset(r),
    ensures
        r.punct_stability == 700_000_000,
        r.punct_cooldown == 1_500_000_000,
        r.punct_min_new_words == 3,
        r.no_punct_timeout == 10_000_000_000,
        r.no_punct_stability == 1_000_000_000,
        r.no_punct_min_words == 12,
        r.no_punct_keep_last_words == 3,
        r.extreme_timeout == 25_000_000_000,
        r.vad_min_silence_ms == 300,
        r.vad_threshold_permille == 500,
        r.vad_max_speech_ms == 18_000,
        r.name@ == "加强版Zipformer-en"@,
{
}

proof fn lemma_upto_last_letter(w: Seq<char>, tail: Seq<char>)
    requires
        w.len() == 0 || text::is_letter(w.last()),
        forall|i: int| 0 <= i < tail.len() ==> !text::is_letter(#[trigger] tail[i]),
    ensures
        upto_last_letter(w + tail) == w,
    decreases tail.len(),
{
    if tail.len() == 0 {
        assert(w + tail =~= w);
    } else {
        assert((w + tail).drop_last() =~= w + tail.drop_last());
        assert((w + tail).last() == tail[tail.len() - 1]);
        lemma_upto_last_letter(w, tail.drop_last());
    }
}

/// A text may not be cut behind one of these words, in capitals or not, whatever
/// marks follow the word; behind any other word it may.
pub proof fn law_connection_words_never_end_a_sentence(
    x: Seq<char>,
    gap: Seq<char>,
    w: Seq<char>,
    tail: Seq<char>,
)
    requires
        forall|i: int| 0 <= i < gap.len() ==> text::is_space(#[trigger] gap[i]),
        gap.len() > 0 || x.len() == 0,
        w.len() == 0 || text::is_letter(w.last()),
        forall|i: int| 0 <= i < tail.len() ==> !text::is_letter(#[trigger] tail[i]),
        text::is_word(w + tail),
    ensures
        ends_with_connection(x + gap + (w + tail)) <==> seq![
            "and"@, "a"@, "an"@, "the"@, "this"@, "these"@, "those"@, "my"@,
            "your"@, "his"@, "her"@, "their"@, "our"@, "its"@, "or"@, "but"@,
            "for"@, "to"@, "with"@, "because"@, "that"@, "of"@, "in"@, "on"@, "at"@,
            "from"@, "into"@, "until"@, "if"@, "when"@, "while"@, "as"@, "so"@,
        ].contains(text::lower_text(w)),
{
    text::law_words_stand_between_white_space(x, gap, w + tail);
    lemma_upto_last_letter(w, tail);
    let low = text::lower_text(w);
    let all = seq![
        "and"@, "a"@, "an"@, "the"@, "this"@, "these"@, "those"@, "my"@,
        "your"@, "his"@, "her"@, "their"@, "our"@, "its"@, "or"@, "but"@,
        "for"@, "to"@, "with"@, "because"@, "that"@, "of"@, "in"@, "on"@, "at"@,
        "from"@, "into"@, "until"@, "if"@, "when"@, "while"@, "as"@, "so"@,
    ];
    assert(all[0] == "and"@);
    assert(all[1] == "a"@);
    assert(all[2] == "an"@);
    assert(all[3] == "the"@);
    assert(all[4] == "this"@);
    assert(all[5] == "these"@);
    assert(all[6] == "those"@);
    assert(all[7] == "my"@);
    assert(all[8] == "your"@);
    assert(all[9] == "his"@);
    assert(all[10] == "her"@);
    assert(all[11] == "their"@);
    assert(all[12] == "our"@);
    assert(all[13] == "its"@);
    assert(all[14] == "or"@);
    assert(all[15] == "but"@);
    assert(all[16] == "for"@);
    assert(all[17] == "to"@);
    assert(all[18] == "with"@);
    assert(all[19] == "because"@);
    assert(all[20] == "that"@);
    assert(all[21] == "of"@);
    assert(all[22] == "in"@);
    assert(all[23] == "on"@);
    assert(all[24] == "at"@);
    assert(all[25] == "from"@);
    assert(all[26] == "into"@);
    assert(all[27] == "until"@);
    assert(all[28] == "if"@);
    assert(all[29] == "when"@);
    assert(all[30] == "while"@);
    assert(all[31] == "as"@);
    assert(all[32] == "so"@);
    if all.contains(low) {
        let i = choose|i: int| 0 <= i < all.len() && all[i] == low;
    }
}

/// A blank text ends with no word at all.
pub proof fn law_blank_text_ends_with_no_word(s: Seq<char>)
    requires
        forall|i: int| 0 <= i < s.len() ==> text::is_space(#[trigger] s[i]),
    ensures
        !ends_with_connection(s),
{
    text::law_words_stand_between_white_space(Seq::empty(), s, seq!['x']);
}

proof fn lemma_last_mark(sentence: Seq<char>, tail: Seq<char>)
    requires
        sentence.len() > 0,
        sentence.last() == '.' || sentence.last() == '?' || sentence.last() == '!',
        forall|i: int|
            0 <= i < tail.len() ==> #[trigger] tail[i] != '.' && tail[i] != '?' && tail[i] != '!',
    ensures
        last_ending(sentence + tail) == Some(sentence.len() - 1),
        (sentence + tail).take(sentence.len() as int) == sentence,
        (sentence + tail).skip(sentence.len() as int) == tail,
    decreases tail.len(),
{
    let p = sentence + tail;
    assert(p.take(sentence.len() as int) =~= sentence);
    assert(p.skip(sentence.len() as int) =~= tail);
    if tail.len() == 0 {
        assert(p =~= sentence);
    } else {
        assert(p.drop_last() =~= sentence + tail.drop_last());
        assert(p.last() == tail[tail.len() - 1]);
        lemma_last_mark(sentence, tail.drop_last());
    }
}

proof fn lemma_no_mark(p: Seq<char>)
    requires
        forall|i: int|
            0 <= i < p.len() ==> #[trigger] p[i] != '.' && p[i] != '?' && p[i] != '!',
    ensures
        last_ending(p) is None,
    decreases p.len(),
{
    if p.len() > 0 {
        assert(p.last() == p[p.len() - 1]);
        lemma_no_mark(p.drop_last());
    }
}

/// What a partial is made of that ends a sentence: text that was committed
/// before, the rest of a sentence with its mark, and a tail without a mark. The
/// sentence has enough new words and ends with none that never ends one.
pub open spec fn ends_a_sentence(v: SegView, fresh: Seq<char>, tail: Seq<char>) -> bool {
    let sentence = v.committed_text + fresh;
    &&& fresh.len() > 0
    &&& fresh.last() == '.' || fresh.last() == '?' || fresh.last() == '!'
    &&& forall|i: int|
        0 <= i < tail.len() ==> #[trigger] tail[i] != '.' && tail[i] != '?' && tail[i] != '!'
    &&& text::words(fresh).len() >= v.config.punct_min_new_words
    &&& !ends_with_connection(sentence)
    &&& text::trim(sentence + tail) == sentence + tail
    &&& text::byte_len(sentence + tail) <= usize::MAX
}

/// Steps behind the one for marks leave what is watched and what is counted of
/// marks alone.
proof fn lemma_later_steps_keep_marks(w: SegView, p: Seq<char>, changed: bool, now: u64)
    ensures
        ({
            let x = no_punct_step(w, p, changed, now).0;
            let y = extreme_step(x, p, now).0;
            &&& x.punct_candidate == w.punct_candidate && y.punct_candidate == w.punct_candidate
            &&& x.stats.punct_regret_count == w.stats.punct_regret_count
            &&& y.stats.punct_regret_count == w.stats.punct_regret_count
            &&& x.stats.punct_candidate_count == w.stats.punct_candidate_count
            &&& y.stats.punct_candidate_count == w.stats.punct_candidate_count
            &&& x.stats.punct_success_count == w.stats.punct_success_count
            &&& y.stats.punct_success_count == w.stats.punct_success_count
        }),
{
}

/// Steps behind the one for marks that do not cut only note what stands still.
proof fn lemma_later_steps_without_cut(w: SegView, p: Seq<char>, changed: bool, now: u64)
    requires
        no_punct_step(w, p, changed, now).1 is None,
    ensures
        ({
            let x = no_punct_step(w, p, changed, now).0;
            &&& x == (SegView { no_punct_stable_since: x.no_punct_stable_since, ..w })
            &&& extreme_step(x, p, now).1 is None ==> extreme_step(x, p, now).0 == x
        }),
{
}

/// What the step for marks makes of a sentence whose mark is not watched at its
/// place.
proof fn lemma_step_watches_the_mark(
    v: SegView,
    fresh: Seq<char>,
    tail: Seq<char>,
    changed: bool,
    t: u64,
)
    requires
        ends_a_sentence(v, fresh, tail),
        v.punct_candidate matches Some(c) ==> c.byte_pos != text::byte_len(
            (v.committed_text + fresh).drop_last(),
        ),
        v.last_cut matches Some(cut) ==> t >= cut + v.config.punct_cooldown,
    ensures
        punct_step(v, v.committed_text + fresh + tail, changed, t) == (
            watching(mark_seen(v), text::byte_len((v.committed_text + fresh).drop_last()), t),
            None::<ActionView>,
        ),
        text::byte_len((v.committed_text + fresh).drop_last()) <= usize::MAX,
        v.committed_text.is_prefix_of(v.committed_text + fresh + tail),
        (v.committed_text + fresh + tail).len() > 0,
{
    let sentence = v.committed_text + fresh;
    let p = sentence + tail;
    let n = sentence.len() as int;
    lemma_last_mark(sentence, tail);
    assert(p.take(n - 1) =~= sentence.drop_last());
    assert(v.committed_text.is_prefix_of(p)) by {
        assert(p.subrange(0, v.committed_text.len() as int) =~= v.committed_text);
    }
    assert(p.subrange(v.committed_text.len() as int, n) =~= fresh);
    text::lemma_byte_len_split(p, n - 1);
}

proof fn lemma_mark_is_watched(v: SegView, fresh: Seq<char>, tail: Seq<char>, t: u64)
    requires
        ends_a_sentence(v, fresh, tail),
        v.punct_candidate is None,
        v.last_cut matches Some(cut) ==> t >= cut + v.config.punct_cooldown,
        fed(v, v.committed_text + fresh + tail, t).1 is None,
    ensures
        ({
            let sentence = v.committed_text + fresh;
            let w = fed(v, sentence + tail, t).0;
            &&& w.punct_candidate == Some(
                PunctCandidate {
                    byte_pos: text::byte_len(sentence.drop_last()) as usize,
                    first_seen: t,
                },
            )
            &&& text::byte_len(sentence.drop_last()) <= usize::MAX
            &&& w.committed_text == v.committed_text
            &&& w.last_cut == v.last_cut
            &&& w.last_partial == sentence + tail
            &&& w.config == v.config
            &&& w.stats == (SegStats {
                punct_candidate_count: (v.stats.punct_candidate_count + 1) as usize,
                ..v.stats
            })
        }),
{
    let sentence = v.committed_text + fresh;
    let p = sentence + tail;
    let begun = noted(v, p, t);
    let changed = v.last_partial != p;
    lemma_step_watches_the_mark(begun, fresh, tail, changed, t);
    let watched = punct_step(begun, p, changed, t).0;
    lemma_later_steps_without_cut(watched, p, changed, t);
}

proof fn lemma_watched_mark_cuts(
    w: SegView,
    fresh: Seq<char>,
    tail: Seq<char>,
    t: u64,
    later: u64,
)
    requires
        ends_a_sentence(w, fresh, tail),
        w.punct_candidate == Some(
            PunctCandidate {
                byte_pos: text::byte_len((w.committed_text + fresh).drop_last()) as usize,
                first_seen: t,
            },
        ),
        w.last_partial == w.committed_text + fresh + tail,
        w.last_cut matches Some(cut) ==> later >= cut + w.config.punct_cooldown,
        later >= t + w.config.punct_stability,
    ensures
        ({
            let p = w.committed_text + fresh + tail;
            fed(w, p, later) == (
                mark_cut(noted(w, p, later), w.committed_text + fresh, t, later),
                Some(
                    ActionView::Checkpoint {
                        text: w.committed_text + fresh,
                        draft: text::trim(tail),
                    },
                ),
            )
        }),
{
    let sentence = w.committed_text + fresh;
    let p = sentence + tail;
    let n = sentence.len() as int;
    lemma_last_mark(sentence, tail);
    assert(p.take(n - 1) =~= sentence.drop_last());
    assert(w.committed_text.is_prefix_of(p)) by {
        assert(p.subrange(0, w.committed_text.len() as int) =~= w.committed_text);
    }
    assert(p.subrange(w.committed_text.len() as int, n) =~= fresh);
    text::lemma_byte_len_split(p, n - 1);
    let begun = noted(w, p, later);
    assert(punct_step(begun, p, false, later) == (
        mark_cut(begun, sentence, t, later),
        Some(ActionView::Checkpoint { text: sentence, draft: text::trim(tail) }),
    ));
}

/// A sentence whose mark stands still for the set time is cut at the mark, be it
/// a full stop, a question mark or an exclamation mark: the text up to the mark
/// is committed and the rest of the partial is left. One cut at a mark is
/// counted, and the time from the first sight of the mark.
pub proof fn law_standing_mark_cuts_the_sentence(
    v: SegView,
    fresh: Seq<char>,
    tail: Seq<char>,
    t: u64,
    later: u64,
)
    requires
        ends_a_sentence(v, fresh, tail),
        v.punct_candidate is None,
        v.last_cut matches Some(cut) ==> t >= cut + v.config.punct_cooldown,
        fed(v, v.committed_text + fresh + tail, t).1 is None,
        later >= t + v.config.punct_stability,
        stats_have_room(v.stats, (v.committed_text + fresh + tail).len(), later),
        v.stats.punct_candidate_count + 1 < usize::MAX,
    ensures
        ({
            let p = v.committed_text + fresh + tail;
            let before = fed(v, p, t).0;
            let (after, cut) = fed(before, p, later);
            &&& cut == Some(
                ActionView::Checkpoint {
                    text: v.committed_text + fresh,
                    draft: text::trim(tail),
                },
            )
            &&& after.committed_text == v.committed_text + fresh
            &&& after.last_cut == Some(later)
            &&& after.stats.punct_candidate_count == v.stats.punct_candidate_count + 1
            &&& after.stats.punct_success_count == v.stats.punct_success_count + 1
            &&& after.stats.punct_regret_count == v.stats.punct_regret_count
            &&& after.stats.no_punct_fallback_count == v.stats.no_punct_fallback_count
            &&& after.stats.extreme_cut_count == v.stats.extreme_cut_count
            &&& after.stats.total_cut_latency_ms == v.stats.total_cut_latency_ms + (later - t)
                / 1_000_000
            &&& after.stats.total_segment_count == v.stats.total_segment_count + 1
            &&& after.stats.total_words_sum == v.stats.total_words_sum + text::words(
                v.committed_text + fresh,
            ).len()
        }),
{
    let sentence = v.committed_text + fresh;
    let p = sentence + tail;
    lemma_mark_is_watched(v, fresh, tail, t);
    let before = fed(v, p, t).0;
    lemma_watched_mark_cuts(before, fresh, tail, t, later);
    law_risks_are_counted(before.stats, v.committed_text, sentence, true);
    text::lemma_spans(sentence);
}

/// In a new stream a partial that is a whole sentence is not cut at first sight,
/// and is cut off whole once its mark stood still for the set time.
pub proof fn law_first_sentence_is_cut_whole(v: SegView, p: Seq<char>, t: u64, later: u64)
    requires
        v.last_cut is None && v.last_nonempty_partial is None && v.punct_candidate is None,
        v.no_punct_stable_since is None && v.committed_text.len() == 0,
        v.config.extreme_timeout > 0,
        p.len() > 0 && !text::is_space(p[0]),
        p.last() == '.' || p.last() == '?' || p.last() == '!',
        text::words(p).len() >= v.config.punct_min_new_words,
        !ends_with_connection(p),
        later >= t + v.config.punct_stability,
        stats_have_room(v.stats, p.len(), later),
        v.stats.punct_candidate_count + 1 < usize::MAX,
        text::byte_len(p) <= usize::MAX,
    ensures
        fed(v, p, t).1 is None,
        fed(fed(v, p, t).0, p, later).1 == Some(
            ActionView::Checkpoint { text: p, draft: Seq::empty() },
        ),
{
    let e = Seq::<char>::empty();
    assert(v.committed_text =~= e);
    assert(e + p =~= p && e + p + e =~= p);
    text::lemma_trim_of_trimmed(p);
    lemma_extreme_due(v, p, t);
    law_standing_mark_cuts_the_sentence(v, p, e, t, later);
}

/// A cut at a mark is made only behind the last of the marks `.`, `?` and `!`,
/// only once that mark stood still for the set time, only if the last cut is far
/// enough back, and only of a partial that did not change.
pub proof fn law_cut_at_a_mark_needs_all(v: SegView, partial: Seq<char>, now: u64)
    requires
        stats_have_room(v.stats, partial.len(), now),
        fed(v, partial, now).0.stats.punct_success_count != v.stats.punct_success_count,
    ensures
        fed(v, partial, now).1 matches Some(ActionView::Checkpoint { text, draft }) && {
            let p = text::trim(partial);
            let tail = p.skip(text.len() as int);
            &&& text.len() > 0
            &&& text.last() == '.' || text.last() == '?' || text.last() == '!'
            &&& p == text + tail
            &&& draft == text::trim(tail)
            &&& forall|i: int|
                0 <= i < tail.len() ==> #[trigger] tail[i] != '.' && tail[i] != '?' && tail[i]
                    != '!'
            &&& p == v.last_partial
        },
        v.punct_candidate matches Some(c) && (v.config.punct_stability > 0 ==> now >= c.first_seen
            + v.config.punct_stability),
        v.last_cut matches Some(cut) ==> v.config.punct_cooldown > 0 ==> now >= cut
            + v.config.punct_cooldown,
{
    let p = text::trim(partial);
    lemma_last_ending(p);
    let mark = last_ending(p)->0;
    assert(p =~= p.take(mark + 1) + p.skip(mark + 1));
}

/// A mark is watched from the moment at which it is first seen at its place: what
/// is watched after a partial was watched before, or is watched from now on.
pub proof fn law_mark_is_watched_from_first_sight(v: SegView, partial: Seq<char>, now: u64)
    ensures
        fed(v, partial, now).0.punct_candidate matches Some(c) ==> c.first_seen == now || Some(c)
            == v.punct_candidate,
{
}

/// A mark that moved to another place is watched from then on; the one watched
/// before is given up, and nothing is cut at a mark.
pub proof fn law_mark_that_moves_is_watched_anew(
    v: SegView,
    fresh: Seq<char>,
    tail: Seq<char>,
    t: u64,
)
    requires
        ends_a_sentence(v, fresh, tail),
        v.punct_candidate is Some,
        v.punct_candidate->0.byte_pos != text::byte_len((v.committed_text + fresh).drop_last()),
        v.last_cut matches Some(cut) ==> t >= cut + v.config.punct_cooldown,
        stats_have_room(v.stats, (v.committed_text + fresh + tail).len(), t),
    ensures
        ({
            let after = fed(v, v.committed_text + fresh + tail, t).0;
            &&& after.punct_candidate is Some
            &&& after.punct_candidate->0.first_seen == t
            &&& after.punct_candidate->0.byte_pos == text::byte_len(
                (v.committed_text + fresh).drop_last(),
            )
            &&& after.stats.punct_regret_count == v.stats.punct_regret_count + 1
            &&& after.stats.punct_candidate_count == v.stats.punct_candidate_count
            &&& after.stats.punct_success_count == v.stats.punct_success_count
        }),
{
    let sentence = v.committed_text + fresh;
    let p = sentence + tail;
    let begun = noted(v, p, t);
    let changed = v.last_partial != p;
    lemma_step_watches_the_mark(begun, fresh, tail, changed, t);
    lemma_later_steps_keep_marks(punct_step(begun, p, changed, t).0, p, changed, t);
}

/// Where the marks went away nothing is watched any more, and one that was
/// watched counts as given up; where none was, nothing is counted.
pub proof fn law_mark_that_goes_is_given_up(v: SegView, partial: Seq<char>, now: u64)
    requires
        stats_have_room(v.stats, partial.len(), now),
        text::trim(partial).len() > 0,
        forall|i: int|
            0 <= i < text::trim(partial).len() ==> #[trigger] text::trim(partial)[i] != '.'
                && text::trim(partial)[i] != '?' && text::trim(partial)[i] != '!',
    ensures
        fed(v, partial, now).0.punct_candidate is None,
        fed(v, partial, now).0.stats.punct_regret_count == v.stats.punct_regret_count + (
        if v.punct_candidate is Some {
            1int
        } else {
            0
        }),
        fed(v, partial, now).0.stats.punct_candidate_count == v.stats.punct_candidate_count,
        fed(v, partial, now).0.stats.punct_success_count == v.stats.punct_success_count,
{
    lemma_no_mark(text::trim(partial));
}

/// A text without a mark is cut once the wait for a cut is over and the text stood
/// still for the set time: all but the last words are committed, and those stay.
pub proof fn law_text_without_a_mark_is_cut(
    v: SegView,
    head: Seq<char>,
    gap: Seq<char>,
    rest: Seq<char>,
    since: u64,
    t: u64,
    later: u64,
)
    requires
        v.last_nonempty_partial == Some(since),
        v.punct_candidate is None && v.no_punct_stable_since is None,
        head.len() > 0 && !text::is_space(head[0]) && !text::is_space(head.last()),
        gap.len() > 0,
        forall|i: int| 0 <= i < gap.len() ==> text::is_space(#[trigger] gap[i]),
        rest.len() > 0 && !text::is_space(rest[0]) && !text::is_space(rest.last()),
        text::words(rest).len() == v.config.no_punct_keep_last_words,
        text::words(head + gap + rest).len() >= v.config.no_punct_min_words,
        forall|i: int|
            0 <= i < (head + gap + rest).len() ==> #[trigger] (head + gap + rest)[i] != '.' && (head
                + gap + rest)[i] != '?' && (head + gap + rest)[i] != '!',
        !ends_with_connection(head),
        since + v.config.no_punct_timeout <= t,
        t + v.config.no_punct_stability <= later,
        t < since + v.config.extreme_timeout,
        stats_have_room(v.stats, (head + gap + rest).len(), later),
    ensures
        ({
            let p = head + gap + rest;
            let before = fed(v, p, t);
            let (after, cut) = fed(before.0, p, later);
            &&& before.1 is None
            &&& cut matches Some(ActionView::Checkpoint { text, draft }) && text == head
                && text::words(draft) == text::words(rest)
            &&& after.committed_text == head
            &&& after.last_nonempty_partial == Some(later)
            &&& after.stats.no_punct_fallback_count == v.stats.no_punct_fallback_count + 1
            &&& after.stats.punct_success_count == v.stats.punct_success_count
            &&& after.stats.extreme_cut_count == v.stats.extreme_cut_count
            &&& after.stats.total_segment_count == v.stats.total_segment_count + 1
        }),
{
    let p = head + gap + rest;
    let ws = text::words(p);
    let n = text::word_count(p);
    let keep = v.config.no_punct_keep_last_words as int;
    text::lemma_trim_of_trimmed(p);
    text::lemma_trim_of_trimmed(head);
    lemma_no_mark(p);
    text::lemma_spans_behind_a_gap(head, gap, rest);
    text::lemma_spans(head);
    text::lemma_spans(p);
    assert(text::spans(p)[n - keep - 1] == text::spans(p).take(n - keep)[n - keep - 1]);
    assert(text::spans(p)[n - keep - 1].1 == head.len());
    assert(p.take(head.len() as int) =~= head);
    let kept = ws.skip(n - keep);
    assert(kept =~= text::words(rest));
    assert forall|i: int| 0 <= i < kept.len() implies text::is_word(#[trigger] kept[i]) by {
        text::lemma_words_are_words(rest, i);
    }
    text::lemma_words_joined(kept);
}

/// The wait for a cut counts from the first partial that is not blank, and from
/// each checkpoint anew.
pub proof fn law_wait_counts_from_the_first_partial(v: SegView, partial: Seq<char>, now: u64)
    requires
        text::trim(partial).len() > 0,
    ensures
        fed(v, partial, now).0.last_partial == text::trim(partial),
        fed(v, partial, now).0.last_nonempty_partial == (match fed(v, partial, now).1 {
            Some(ActionView::Checkpoint { .. }) => Some(now),
            _ => match v.last_nonempty_partial {
                Some(t) => Some(t),
                None => Some(now),
            },
        }),
        fed(v, partial, now).0.last_cut == (match fed(v, partial, now).1 {
            Some(ActionView::Checkpoint { .. }) => Some(now),
            _ => v.last_cut,
        }),
{
}

/// Once the longest wait is over a partial with anything new in it is cut; if it
/// has no mark and too few words for a cut without one, all that is new is
/// committed and the stream starts anew.
pub proof fn law_longest_wait_commits_what_is_new(
    v: SegView,
    fresh: Seq<char>,
    since: u64,
    now: u64,
)
    requires
        v.last_nonempty_partial == Some(since),
        now >= since + v.config.extreme_timeout,
        text::trim(v.committed_text + fresh) == v.committed_text + fresh,
        text::trim(fresh).len() > 0,
        stats_have_room(v.stats, (v.committed_text + fresh).len(), now),
    ensures
        fed(v, v.committed_text + fresh, now).1 is Some,
        text::words(v.committed_text + fresh).len() < v.config.no_punct_min_words && (forall|i: int|
            0 <= i < (v.committed_text + fresh).len() ==> #[trigger] (v.committed_text + fresh)[i]
                != '.' && (v.committed_text + fresh)[i] != '?' && (v.committed_text + fresh)[i]
                != '!') ==> fed(v, v.committed_text + fresh, now).1 == Some(
            ActionView::ExtremeReset { text: fresh },
        ) && fed(v, v.committed_text + fresh, now).0.stats.extreme_cut_count
            == v.stats.extreme_cut_count + 1,
{
    let p = v.committed_text + fresh;
    assert(p.subrange(0, v.committed_text.len() as int) =~= v.committed_text);
    assert(v.committed_text.is_prefix_of(p));
    assert(p.skip(v.committed_text.len() as int) =~= fresh);
    if p.len() == 0 {
        assert(fresh =~= Seq::<char>::empty());
    }
    lemma_extreme_due(v, p, now);
    if forall|i: int| 0 <= i < p.len() ==> #[trigger] p[i] != '.' && p[i] != '?' && p[i] != '!' {
        lemma_no_mark(p);
        text::lemma_spans(fresh);
    }
}

/// The stream is not started anew by a partial before the longest wait is over.
pub proof fn law_forced_cut_needs_the_longest_wait(v: SegView, partial: Seq<char>, now: u64)
    requires
        v.config.extreme_timeout > 0,
        fed(v, partial, now).1 matches Some(a) && !(a is Checkpoint),
    ensures
        v.last_nonempty_partial matches Some(since) && now >= since + v.config.extreme_timeout,
        fed(v, partial, now).1->0 is ExtremeReset,
{
    lemma_extreme_due(v, text::trim(partial), now);
}

/// Silence commits what came behind the committed text, and all of the partial
/// where that text was revised; where nothing but white space is left it does
/// nothing.
pub proof fn law_silence_commits_what_is_left(v: SegView, rest: Seq<char>)
    ensures
        v.last_partial == v.committed_text + rest && text::trim(rest).len() > 0 ==> silenced(v).1
            == Some(ActionView::VadReset { text: rest }),
        v.last_partial == v.committed_text + rest && text::trim(rest).len() == 0 ==> silenced(v)
            == (v, None::<ActionView>),
        !v.committed_text.is_prefix_of(v.last_partial) && text::trim(v.last_partial).len() > 0
            ==> silenced(v).1 == Some(ActionView::VadReset { text: v.last_partial }),
{
    let c = v.committed_text;
    let p = v.last_partial;
    if p == c + rest {
        assert(p.subrange(0, c.len() as int) =~= c);
        assert(c.is_prefix_of(p));
        assert(p.skip(c.len() as int) =~= rest);
    }
}

/// A partial that was not cut is what silence then commits, but for what was
/// committed before.
pub proof fn law_partial_then_silence(v: SegView, fresh: Seq<char>, now: u64)
    requires
        text::trim(v.committed_text + fresh) == v.committed_text + fresh,
        text::trim(fresh).len() > 0,
        fed(v, v.committed_text + fresh, now).1 is None,
    ensures
        silenced(fed(v, v.committed_text + fresh, now).0).1 == Some(
            ActionView::VadReset { text: fresh },
        ),
        draft_of(fed(v, v.committed_text + fresh, now).0) == fresh,
{
    let c = v.committed_text;
    let p = c + fresh;
    let after = fed(v, p, now).0;
    assert(p.subrange(0, c.len() as int) =~= c);
    assert(c.is_prefix_of(p));
    if p.len() == 0 {
        assert(fresh =~= Seq::<char>::empty());
    }
    assert(after.committed_text == c && after.last_partial == p);
    law_silence_commits_what_is_left(after, fresh);
    law_draft_is_what_is_left(after, fresh);
}

/// What is shown as left over is what stands behind the committed text.
pub proof fn law_draft_is_what_is_left(v: SegView, rest: Seq<char>)
    requires
        v.last_partial == v.committed_text + rest,
    ensures
        draft_of(v) == rest,
{
    let c = v.committed_text;
    let p = v.last_partial;
    let n = c.len() as int;
    assert(p.take(n) =~= c);
    assert(p.skip(n) =~= rest);
    if n < p.len() {
        assert(p.take(n + 1).drop_last() =~= c);
    }
    lemma_fitting(p, n, text::byte_len(c));
}

/// A committed text counts as a repeat if it holds the text committed before and
/// does not begin with it, and a checkpoint as one that misses words if it has
/// less than a third of the words of the one before.
pub proof fn law_risks_are_counted(
    st: SegStats,
    committed: Seq<char>,
    text: Seq<char>,
    whole: bool,
)
    requires
        stats_have_room(st, text.len(), 0),
    ensures
        ({
            let after = recorded(st, committed, text, whole);
            let (few, many) = (text::words(text).len(), text::words(committed).len());
            let repeats = committed.len() > 0 && text.len() > 0 && text::occurs(text, committed)
                && !committed.is_prefix_of(text);
            let misses = whole && few > 0 && 3 * (few + 1) <= many;
            &&& repeats ==> after.repeat_risk_count == st.repeat_risk_count + 1
            &&& !repeats ==> after.repeat_risk_count == st.repeat_risk_count
            &&& misses ==> after.missing_word_risk_count == st.missing_word_risk_count + 1
            &&& !misses ==> after.missing_word_risk_count == st.missing_word_risk_count
            &&& after.total_segment_count == st.total_segment_count + 1
            &&& after.total_words_sum == st.total_words_sum + few
            &&& after.punct_candidate_count == st.punct_candidate_count
            &&& after.punct_success_count == st.punct_success_count
            &&& after.punct_regret_count == st.punct_regret_count
            &&& after.no_punct_fallback_count == st.no_punct_fallback_count
            &&& after.extreme_cut_count == st.extreme_cut_count
            &&& after.total_cut_latency_ms == st.total_cut_latency_ms
        }),
{
    text::lemma_spans(text);
}

/// A new stream begins with nothing heard, nothing watched and nothing committed;
/// what was counted and the settings stay.
pub proof fn law_new_stream_has_nothing(v: SegView, now: u64)
    ensures
        ({
            let w = restarted(v, now);
            &&& w.config == v.config && w.stats == v.stats
            &&& w.stream_started == now
            &&& w.last_cut is None && w.last_nonempty_partial is None
            &&& w.last_partial.len() == 0 && w.committed_text.len() == 0
            &&& w.punct_candidate is None && w.no_punct_stable_since is None
        }),
{
}

/// Every count stands in the line that sums the statistics up, behind its own
/// name.
pub proof fn law_summary_names_every_count(st: SegStats, latency: Seq<char>, words: Seq<char>)
    ensures
        text::occurs(summary(st, latency, words), "标点切 "@ + number::dec(st.punct_success_count as nat) + "/"@),
        text::occurs(summary(st, latency, words), "/"@ + number::dec(st.punct_candidate_count as nat) + " "@),
        text::occurs(summary(st, latency, words), " | 兜底 "@ + number::dec(st.no_punct_fallback_count as nat) + " "@),
        text::occurs(summary(st, latency, words), " | 强切 "@ + number::dec(st.extreme_cut_count as nat) + " "@),
        text::occurs(summary(st, latency, words), " | 反悔 "@ + number::dec(st.punct_regret_count as nat) + " "@),
        text::occurs(summary(st, latency, words), " | 平均延迟 "@ + latency + "s "@),
        text::occurs(summary(st, latency, words), "s | 平均词数 "@ + words + " "@),
        text::occurs(summary(st, latency, words), " | 重复风险 "@ + number::dec(st.repeat_risk_count as nat) + " "@),
        text::occurs(summary(st, latency, words), " | 漏词风险 "@ + number::dec(st.missing_word_risk_count as nat) + ""@),
{
    let q0 = Seq::<Seq<char>>::empty();
    let q1 = q0.push("标点切 "@);
    text::lemma_strung_push(q0, "标点切 "@);
    let q2 = q1.push(number::dec(st.punct_success_count as nat));
    text::lemma_strung_push(q1, number::dec(st.punct_success_count as nat));
    let q3 = q2.push("/"@);
    text::lemma_strung_push(q2, "/"@);
    let q4 = q3.push(number::dec(st.punct_candidate_count as nat));
    text::lemma_strung_push(q3, number::dec(st.punct_candidate_count as nat));
    let q5 = q4.push(" | 兜底 "@);
    text::lemma_strung_push(q4, " | 兜底 "@);
    let q6 = q5.push(number::dec(st.no_punct_fallback_count as nat));
    text::lemma_strung_push(q5, number::dec(st.no_punct_fallback_count as nat));
    let q7 = q6.push(" | 强切 "@);
    text::lemma_strung_push(q6, " | 强切 "@);
    let q8 = q7.push(number::dec(st.extreme_cut_count as nat));
    text::lemma_strung_push(q7, number::dec(st.extreme_cut_count as nat));
    let q9 = q8.push(" | 反悔 "@);
    text::lemma_strung_push(q8, " | 反悔 "@);
    let q10 = q9.push(number::dec(st.punct_regret_count as nat));
    text::lemma_strung_push(q9, number::dec(st.punct_regret_count as nat));
    let q11 = q10.push(" | 平均延迟 "@);
    text::lemma_strung_push(q10, " | 平均延迟 "@);
    let q12 = q11.push(latency);
    text::lemma_strung_push(q11, latency);
    let q13 = q12.push("s | 平均词数 "@);
    text::lemma_strung_push(q12, "s | 平均词数 "@);
    let q14 = q13.push(words);
    text::lemma_strung_push(q13, words);
    let q15 = q14.push(" | 重复风险 "@);
    text::lemma_strung_push(q14, " | 重复风险 "@);
    let q16 = q15.push(number::dec(st.repeat_risk_count as nat));
    text::lemma_strung_push(q15, number::dec(st.repeat_risk_count as nat));
    let q17 = q16.push(" | 漏词风险 "@);
    text::lemma_strung_push(q16, " | 漏词风险 "@);
    let q18 = q17.push(number::dec(st.missing_word_risk_count as nat));
    text::lemma_strung_push(q17, number::dec(st.missing_word_risk_count as nat));
    let q19 = q18.push(""@);
    text::lemma_strung_push(q18, ""@);
    assert(text::strung(q1) =~= "标点切 "@);
    reveal_strlit("");
    assert(text::strung(q19) =~= text::strung(q18));
    assert(text::strung(q19) == summary(st, latency, words));
    reveal_strlit("/");
    reveal_strlit(" | 兜底 ");
    reveal_strlit(" ");
    reveal_strlit(" | 强切 ");
    reveal_strlit(" | 反悔 ");
    reveal_strlit(" | 平均延迟 ");
    reveal_strlit("s | 平均词数 ");
    reveal_strlit("s ");
    reveal_strlit(" | 重复风险 ");
    reveal_strlit(" | 漏词风险 ");
    assert("/"@.subrange(0, "/"@.len() as int) =~= "/"@);
    text::lemma_strung_line(q19, 0, "/"@);
    assert(" | 兜底 "@.subrange(0, " "@.len() as int) =~= " "@);
    text::lemma_strung_line(q19, 2, " "@);
    assert(" | 强切 "@.subrange(0, " "@.len() as int) =~= " "@);
    text::lemma_strung_line(q19, 4, " "@);
    assert(" | 反悔 "@.subrange(0, " "@.len() as int) =~= " "@);
    text::lemma_strung_line(q19, 6, " "@);
    assert(" | 平均延迟 "@.subrange(0, " "@.len() as int) =~= " "@);
    text::lemma_strung_line(q19, 8, " "@);
    assert("s | 平均词数 "@.subrange(0, "s "@.len() as int) =~= "s "@);
    text::lemma_strung_line(q19, 10, "s "@);
    assert(" | 重复风险 "@.subrange(0, " "@.len() as int) =~= " "@);
    text::lemma_strung_line(q19, 12, " "@);
    assert(" | 漏词风险 "@.subrange(0, " "@.len() as int) =~= " "@);
    text::lemma_strung_line(q19, 14, " "@);
    assert(""@.subrange(0, ""@.len() as int) =~= ""@);
    text::lemma_strung_line(q19, 16, ""@);
}

/// Means are sums divided by the number of committed texts, and nothing before
/// there is one.
pub proof fn law_means_divide_by_the_texts(st: SegStats)
    ensures
        st.total_segment_count > 0 ==> mean_latency(st).0 == st.total_cut_latency_ms
            && mean_latency(st).1 == st.total_segment_count,
        st.total_segment_count > 0 ==> mean_words(st).0 == st.total_words_sum && mean_words(st).1
            == st.total_segment_count,
        st.total_segment_count == 0 ==> mean_latency(st).0 == 0 && mean_words(st).0 == 0,
        mean_latency(st).1 > 0 && mean_words(st).1 > 0,
{
}

/// The end of a word is where the bytes of the text up to its last character end;
/// behind the last word there is none.
pub proof fn law_word_ends_where_its_bytes_end(
    x: Seq<char>,
    gap: Seq<char>,
    w: Seq<char>,
    space: Seq<char>,
    rest: Seq<char>,
)
    requires
        forall|i: int| 0 <= i < gap.len() ==> text::is_space(#[trigger] gap[i]),
        gap.len() > 0 || x.len() == 0,
        text::is_word(w),
        space.len() > 0,
        forall|i: int| 0 <= i < space.len() ==> text::is_space(#[trigger] space[i]),
    ensures
        nth_word_end(x + gap + w, text::words(x).len()) == Some(text::byte_len(x + gap + w)),
        nth_word_end(x + gap + w + space + rest, text::words(x).len()) == Some(
            text::byte_len(x + gap + w),
        ),
        nth_word_end(x, text::words(x).len()) is None,
{
    let head = x + gap + w;
    let all = head + space + rest;
    let n = text::words(x).len() as int;
    text::law_words_stand_between_white_space(x, gap, w);
    text::lemma_spans(head);
    assert(head.last() == w[w.len() - 1]);
    assert(head.take(head.len() as int) =~= head);
    text::lemma_spans_behind_a_gap(head, space, rest);
    assert(text::spans(all)[n] == text::spans(all).take(n + 1)[n]);
    assert(all.take(head.len() as int) =~= head);
}

} // verus!
