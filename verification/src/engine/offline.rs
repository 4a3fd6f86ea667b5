//! Slots of recognisers that do not stream.
//!
//! They have no partial: each stretch of speech is decoded as a whole, and
//! every slot that is switched on gets the same stretches.

use vstd::prelude::*;
use vstd::string::*;

use crate::config::FINALS_RETAIN;
use crate::models::OfflineFamily;
use crate::text;
use crate::util;

verus! {

/// What a recogniser without a stream has said.
pub struct OfflineSlot {
    pub name: &'static str,
    pub family: OfflineFamily,
    /// Always empty.
    pub partial: String,
    /// The last final texts.
    pub finals: Vec<String>,
    pub all_finals: Vec<String>,
    pub enabled: bool,
    pub finals_scroll: u16,
    pub segments_decoded: usize,
    /// The samples of the last stretch of speech, zero if it was not decoded.
    pub last_segment_samples: usize,
}

/// A slot, texts and lists taken as sequences.
#[verifier::ext_equal]
pub struct OfflineView {
    pub name: Seq<char>,
    pub family: OfflineFamily,
    pub partial: Seq<char>,
    pub finals: Seq<Seq<char>>,
    pub all_finals: Seq<Seq<char>>,
    pub enabled: bool,
    pub finals_scroll: u16,
    pub segments_decoded: nat,
    pub last_segment_samples: nat,
}

impl View for OfflineSlot {
    type V = OfflineView;

    open spec fn view(&self) -> OfflineView {
        OfflineView {
            name: self.name@,
            family: self.family,
            partial: self.partial@,
            finals: text::texts(self.finals@),
            all_finals: text::texts(self.all_finals@),
            enabled: self.enabled,
            finals_scroll: self.finals_scroll,
            segments_decoded: self.segments_decoded as nat,
            last_segment_samples: self.last_segment_samples as nat,
        }
    }
}

/// Whether a stretch of speech is decoded.
pub open spec fn wants(v: OfflineView, samples: nat) -> bool {
    v.enabled && samples > 0
}

/// What a stretch of speech of `samples` samples does to a slot, and the text
/// that comes of it; `decoded` is what the recogniser makes of it.
pub open spec fn segment_decoded(v: OfflineView, samples: nat, decoded: Seq<char>) -> (
    OfflineView,
    Option<Seq<char>>,
) {
    let t = text::trim(decoded);
    let counted = OfflineView {
        segments_decoded: v.segments_decoded + 1,
        last_segment_samples: samples,
        ..v
    };
    if !wants(v, samples) {
        (OfflineView { last_segment_samples: 0, ..v }, None)
    } else if t.len() == 0 {
        (counted, None)
    } else {
        (
            OfflineView {
                finals: util::capped_push(v.finals, t, FINALS_RETAIN as nat),
                all_finals: v.all_finals.push(t),
                ..counted
            },
            Some(t),
        )
    }
}

impl OfflineSlot {
    /// An empty slot.
    pub fn new(name: &'static str, family: OfflineFamily) -> (r: OfflineSlot)
        ensures
            r.name == name,
            r@ == (OfflineView {
                name: name@,
                family,
                partial: Seq::empty(),
                finals: Seq::empty(),
                all_finals: Seq::empty(),
                enabled: true,
                finals_scroll: 0,
                segments_decoded: 0,
                last_segment_samples: 0,
            }),
    {
        let r = OfflineSlot {
            name,
            family,
            partial: String::new(),
            finals: Vec::new(),
            all_finals: Vec::new(),
            enabled: true,
            finals_scroll: 0,
            segments_decoded: 0,
            last_segment_samples: 0,
        };
        proof {
            assert(text::texts(r.finals@) =~= Seq::<Seq<char>>::empty());
        }
        r
    }

    /// Whether a stretch of speech of `samples` samples is to be decoded.
    pub fn wants_segment(&self, samples: usize) -> (r: bool)
        ensures
            r == wants(self@, samples as nat),
    {
        self.enabled && samples > 0
    }
}

/// Takes what the recogniser makes of a stretch of speech of `samples` samples.
/// Of a stretch that is not wanted `decoded` is not looked at.
pub fn decode_offline_segment(slot: &mut OfflineSlot, samples: usize, decoded: &str) -> (r: Option<
    String,
>)
    requires
        wants(old(slot)@, samples as nat) ==> old(slot).segments_decoded < usize::MAX,
    ensures
        ({
            let (after, text) = segment_decoded(old(slot)@, samples as nat, decoded@);
            final(slot)@ == after && match r {
                Some(t) => text == Some(t@),
                None => text is None,
            }
        }),
{
    if !slot.wants_segment(samples) {
        slot.last_segment_samples = 0;
        return None;
    }
    slot.segments_decoded = slot.segments_decoded + 1;
    slot.last_segment_samples = samples;
    let t = text::trim_text(decoded);
    if t.as_str().is_empty() {
        return None;
    }
    let ghost all = text::texts(slot.all_finals@).push(t@);
    util::push_capped(&mut slot.finals, t.clone(), FINALS_RETAIN);
    slot.all_finals.push(t.clone());
    proof {
        assert(text::texts(slot.all_finals@) =~= all);
    }
    Some(t)
}

// ─── Laws ──────────────────────────────────────────────────────────────

/// Slots that are switched on and get the same stretch of speech and the same
/// text end with the same final, whatever came before.
pub proof fn law_same_speech_same_final(
    a: OfflineView,
    b: OfflineView,
    samples: nat,
    decoded: Seq<char>,
)
    requires
        a.enabled == b.enabled,
    ensures
        segment_decoded(a, samples, decoded).1 == segment_decoded(b, samples, decoded).1,
        segment_decoded(a, samples, decoded).0.last_segment_samples == segment_decoded(
            b,
            samples,
            decoded,
        ).0.last_segment_samples,
{
}

/// A slot has no partial, and hands out exactly what it appends to its finals.
pub proof fn law_offline_finals_are_what_was_handed_out(
    v: OfflineView,
    samples: nat,
    decoded: Seq<char>,
)
    requires
        v.partial.len() == 0,
    ensures
        segment_decoded(v, samples, decoded).0.partial.len() == 0,
        match segment_decoded(v, samples, decoded).1 {
            Some(t) => segment_decoded(v, samples, decoded).0.all_finals == v.all_finals.push(t)
                && t.len() > 0 && text::trim(t) == t && wants(v, samples),
            None => segment_decoded(v, samples, decoded).0.all_finals == v.all_finals,
        },
{
    text::lemma_trim_idempotent(decoded);
}

/// A slot that is switched on decodes every stretch of speech that has a sample:
/// it counts it, notes its length, and ends with its text, trimmed, unless that is
/// blank. Of any other stretch nothing is noted.
pub proof fn law_every_stretch_is_decoded(
    v: OfflineView,
    samples: nat,
    left: Seq<char>,
    t: Seq<char>,
    right: Seq<char>,
)
    requires
        forall|i: int| 0 <= i < left.len() ==> text::is_space(#[trigger] left[i]),
        forall|i: int| 0 <= i < right.len() ==> text::is_space(#[trigger] right[i]),
        t.len() > 0 ==> !text::is_space(t[0]) && !text::is_space(t.last()),
    ensures
        ({
            let (after, text) = segment_decoded(v, samples, left + t + right);
            &&& v.enabled && samples > 0 ==> {
                &&& after.segments_decoded == v.segments_decoded + 1
                &&& after.last_segment_samples == samples
                &&& t.len() > 0 ==> text == Some(t) && after.all_finals == v.all_finals.push(t)
                &&& t.len() == 0 ==> text is None && after.all_finals == v.all_finals
                &&& t.len() > 0 && v.finals.len() < 6 ==> after.finals == v.finals.push(t)
                &&& t.len() > 0 && v.finals.len() == 6 ==> after.finals
                    == v.finals.drop_first().push(t)
            }
            &&& !v.enabled || samples == 0 ==> {
                &&& text is None
                &&& after.segments_decoded == v.segments_decoded
                &&& after.last_segment_samples == 0
                &&& after.all_finals == v.all_finals && after.finals == v.finals
            }
            &&& after.name == v.name && after.family == v.family && after.enabled == v.enabled
            &&& after.partial == v.partial && after.finals_scroll == v.finals_scroll
        }),
{
    text::law_trim_takes_off_both_ends(left, t, right);
    if v.finals.len() > 0 {
        assert(v.finals.push(t).drop_first() =~= v.finals.drop_first().push(t));
    }
}

} // verus!
