//! Speech segments for the recognisers that do not stream.
//!
//! All of them share one voice activity state, so that they decode the very
//! same stretches of audio. Either an outside model tells where speech starts
//! and ends, or loudness does. Samples are opaque here: nothing looks at their
//! values.

use vstd::prelude::*;
use vstd::string::*;

use crate::config::{RMS_SILENCE_SAMPLES, SILERO_VAD_BUFFER_SEC, SILERO_VAD_WINDOW_SIZE,
    VAD_SAMPLE_RATE};
use crate::number;
use crate::text;
use crate::util;

verus! {

// ─── Segments ──────────────────────────────────────────────────────────

/// A stretch of speech.
pub struct VadSegment<T> {
    /// Where it starts, counted from the start of the recording.
    pub start_sample: usize,
    pub samples: Vec<T>,
    /// Why it ends where it ends.
    pub reason: &'static str,
}

/// A stretch of speech, its parts taken as sequences.
#[verifier::ext_equal]
pub struct SegmentView<T> {
    pub start_sample: nat,
    pub samples: Seq<T>,
    pub reason: Seq<char>,
}

impl<T> View for VadSegment<T> {
    type V = SegmentView<T>;

    open spec fn view(&self) -> SegmentView<T> {
        SegmentView {
            start_sample: self.start_sample as nat,
            samples: self.samples@,
            reason: self.reason@,
        }
    }
}

/// The segments of a list.
pub open spec fn segment_views<T>(list: Seq<VadSegment<T>>) -> Seq<SegmentView<T>> {
    list.map_values(|s: VadSegment<T>| s@)
}

// ─── Which backend ─────────────────────────────────────────────────────

/// What finds the speech.
#[derive(Clone, Copy, Debug, PartialEq, Eq, Structural)]
pub enum VadBackend {
    Disabled,
    Silero,
    Rms,
}

/// The name of a backend.
pub open spec fn backend_name(b: VadBackend) -> Seq<char> {
    match b {
        VadBackend::Disabled => "disabled"@,
        VadBackend::Silero => "silero"@,
        VadBackend::Rms => "rms"@,
    }
}

impl VadBackend {
    /// The name of the backend.
    pub fn as_str(self) -> (r: &'static str)
        ensures
            r@ == backend_name(self),
    {
        match self {
            VadBackend::Disabled => "disabled",
            VadBackend::Silero => "silero",
            VadBackend::Rms => "rms",
        }
    }
}

/// A name that no backend has, trimmed and in small letters.
#[derive(Debug)]
pub struct UnknownBackend {
    pub name: String,
}

/// The backend name that `setting` spells: trimmed, in small letters, and the
/// model's name where there is no setting.
pub open spec fn backend_setting(setting: Option<Seq<char>>) -> Seq<char> {
    match setting {
        Some(s) => text::lower_text(text::trim(s)),
        None => "silero"@,
    }
}

/// The backend: none without a recogniser that needs one, else the one that
/// `setting` names, or the name if no backend has it.
pub open spec fn chosen_backend(has_offline_slots: bool, setting: Option<Seq<char>>) -> Result<
    VadBackend,
    Seq<char>,
> {
    let name = backend_setting(setting);
    if !has_offline_slots {
        Ok(VadBackend::Disabled)
    } else if name == "silero"@ {
        Ok(VadBackend::Silero)
    } else if name == "rms"@ {
        Ok(VadBackend::Rms)
    } else {
        Err(name)
    }
}

/// Picks the backend: none without a recogniser that needs one, else the one
/// that `setting` names, the model by default.
pub fn choose_backend(has_offline_slots: bool, setting: Option<&str>) -> (r: Result<
    VadBackend,
    UnknownBackend,
>)
    ensures
        match r {
            Ok(b) => chosen_backend(
                has_offline_slots,
                match setting {
                    Some(s) => Some(s@),
                    None => None,
                },
            ) == Ok::<VadBackend, Seq<char>>(b),
            Err(e) => chosen_backend(
                has_offline_slots,
                match setting {
                    Some(s) => Some(s@),
                    None => None,
                },
            ) == Err::<VadBackend, Seq<char>>(e.name@),
        },
{
    if !has_offline_slots {
        return Ok(VadBackend::Disabled);
    }
    let name = match setting {
        Some(s) => {
            let bare = text::chars_of(text::trim_text(s).as_str());
            let low = text::lowered(bare.as_slice());
            proof {
                assert(low@.subrange(0, low@.len() as int) =~= low@);
            }
            text::text_of(low.as_slice(), 0, low.len())
        },
        None => "silero".to_owned(),
    };
    if text::same_text(name.as_str(), "silero") {
        Ok(VadBackend::Silero)
    } else if text::same_text(name.as_str(), "rms") {
        Ok(VadBackend::Rms)
    } else {
        Err(UnknownBackend { name })
    }
}

// ─── Speech by loudness ────────────────────────────────────────────────

/// Gathers samples until the speaker falls silent or the buffer is full.
pub struct RmsVadState<T> {
    pub buffer: Vec<T>,
    /// Where the first sample of the buffer stands in the recording.
    pub buffer_start_sample: usize,
    pub speaking: bool,
    /// Silent samples since the last loud frame.
    pub silence_samples: usize,
    /// How many samples are gathered at most.
    pub buffer_limit: usize,
}

/// The state by loudness, its buffer taken as a sequence.
#[verifier::ext_equal]
pub struct RmsView<T> {
    pub buffer: Seq<T>,
    pub buffer_start_sample: nat,
    pub speaking: bool,
    pub silence_samples: nat,
    pub buffer_limit: nat,
}

impl<T> View for RmsVadState<T> {
    type V = RmsView<T>;

    open spec fn view(&self) -> RmsView<T> {
        RmsView {
            buffer: self.buffer@,
            buffer_start_sample: self.buffer_start_sample as nat,
            speaking: self.speaking,
            silence_samples: self.silence_samples as nat,
            buffer_limit: self.buffer_limit as nat,
        }
    }
}

/// The state after a frame was taken in, before anything is handed out.
pub open spec fn rms_gathered<T>(v: RmsView<T>, pcm: Seq<T>, frame_start: nat, loud: bool) -> RmsView<
    T,
> {
    RmsView {
        buffer: v.buffer + pcm,
        buffer_start_sample: if v.buffer.len() == 0 {
            frame_start
        } else {
            v.buffer_start_sample
        },
        speaking: loud || v.speaking,
        silence_samples: if loud {
            0
        } else if v.speaking {
            v.silence_samples + pcm.len()
        } else {
            v.silence_samples
        },
        ..v
    }
}

/// What a frame does: the buffer is handed out as one segment once the speaker
/// was silent for long enough, or once it is full.
pub open spec fn rms_pushed<T>(v: RmsView<T>, pcm: Seq<T>, frame_start: nat, loud: bool) -> (
    RmsView<T>,
    Option<SegmentView<T>>,
) {
    let g = rms_gathered(v, pcm, frame_start, loud);
    let silent = g.speaking && g.silence_samples >= RMS_SILENCE_SAMPLES;
    let full = g.buffer.len() >= g.buffer_limit;
    if (silent || full) && g.buffer.len() > 0 {
        (
            RmsView { buffer: Seq::empty(), speaking: false, silence_samples: 0, ..g },
            Some(
                SegmentView {
                    start_sample: g.buffer_start_sample,
                    samples: g.buffer,
                    reason: if full {
                        "max-buffer"@
                    } else {
                        "silence"@
                    },
                },
            ),
        )
    } else {
        (g, None)
    }
}

impl<T: Copy> RmsVadState<T> {
    /// An empty state that gathers at most `buffer_limit` samples.
    pub fn new(buffer_limit: usize) -> (r: RmsVadState<T>)
        ensures
            r@ == rms_empty::<T>(buffer_limit as nat),
    {
        RmsVadState {
            buffer: Vec::new(),
            buffer_start_sample: 0,
            speaking: false,
            silence_samples: 0,
            buffer_limit,
        }
    }

    /// Takes a frame that starts at `frame_start_sample`; `loud` tells whether
    /// it is loud enough to be speech.
    pub fn push(&mut self, pcm: &[T], frame_start_sample: usize, loud: bool) -> (r: Option<
        VadSegment<T>,
    >)
        requires
            old(self).silence_samples + pcm@.len() <= usize::MAX,
        ensures
            ({
                let (after, segment) = rms_pushed(
                    old(self)@,
                    pcm@,
                    frame_start_sample as nat,
                    loud,
                );
                final(self)@ == after && match r {
                    Some(s) => segment == Some(s@),
                    None => segment is None,
                }
            }),
    {
        if self.buffer.len() == 0 {
            self.buffer_start_sample = frame_start_sample;
        }
        let n: usize = pcm.len();
        let mut i: usize = 0;
        let ghost before = *self;
        proof {
            assert(pcm@.take(0) =~= Seq::<T>::empty());
            assert(self.buffer@ + pcm@.take(0) =~= self.buffer@);
        }
        while i < n
            invariant
                i <= n == pcm@.len(),
                self.buffer@ == before.buffer@ + pcm@.take(i as int),
                self.buffer_start_sample == before.buffer_start_sample,
                self.speaking == before.speaking,
                self.silence_samples == before.silence_samples,
                self.buffer_limit == before.buffer_limit,
            decreases n - i,
        {
            self.buffer.push(pcm[i]);
            proof {
                assert(before.buffer@ + pcm@.take(i + 1) =~= (before.buffer@ + pcm@.take(
                    i as int,
                )).push(pcm@[i as int]));
            }
            i = i + 1;
        }
        proof {
            assert(pcm@.take(n as int) =~= pcm@);
        }
        if loud {
            self.speaking = true;
            self.silence_samples = 0;
        } else if self.speaking {
            self.silence_samples = self.silence_samples + n;
        }
        proof {
            assert(self@ == rms_gathered(old(self)@, pcm@, frame_start_sample as nat, loud));
        }
        let silent = self.speaking && self.silence_samples >= RMS_SILENCE_SAMPLES;
        let full = self.buffer.len() >= self.buffer_limit;
        if !(silent || full) || self.buffer.len() == 0 {
            return None;
        }
        let mut samples: Vec<T> = Vec::new();
        std::mem::swap(&mut samples, &mut self.buffer);
        self.speaking = false;
        self.silence_samples = 0;
        Some(
            VadSegment {
                start_sample: self.buffer_start_sample,
                samples,
                reason: if full {
                    "max-buffer"
                } else {
                    "silence"
                },
            },
        )
    }

    /// Forgets everything but the limit.
    pub fn reset(&mut self)
        ensures
            final(self)@ == rms_empty::<T>(old(self)@.buffer_limit),
    {
        self.buffer.clear();
        self.buffer_start_sample = 0;
        self.speaking = false;
        self.silence_samples = 0;
    }
}

// ─── The shared state ──────────────────────────────────────────────────

/// How speech is found.
pub enum VadImpl<T> {
    Disabled,
    Silero,
    Rms(RmsVadState<T>),
}

/// How speech is found, buffers taken as sequences.
#[verifier::ext_equal]
pub enum ImplView<T> {
    Disabled,
    Silero,
    Rms(RmsView<T>),
}

impl<T> View for VadImpl<T> {
    type V = ImplView<T>;

    open spec fn view(&self) -> ImplView<T> {
        match self {
            VadImpl::Disabled => ImplView::Disabled,
            VadImpl::Silero => ImplView::Silero,
            VadImpl::Rms(state) => ImplView::Rms(state@),
        }
    }
}

/// The voice activity that all recognisers without a stream share.
pub struct VadState<T> {
    pub inner: VadImpl<T>,
    pub total_samples_seen: usize,
    pub segment_count: usize,
    pub last_segment_start_sample: Option<usize>,
    pub last_segment_samples: usize,
}

/// The shared state, buffers taken as sequences.
#[verifier::ext_equal]
pub struct VadView<T> {
    pub inner: ImplView<T>,
    pub total_samples_seen: nat,
    pub segment_count: nat,
    pub last_segment_start_sample: Option<usize>,
    pub last_segment_samples: nat,
}

impl<T> View for VadState<T> {
    type V = VadView<T>;

    open spec fn view(&self) -> VadView<T> {
        VadView {
            inner: self.inner@,
            total_samples_seen: self.total_samples_seen as nat,
            segment_count: self.segment_count as nat,
            last_segment_start_sample: self.last_segment_start_sample,
            last_segment_samples: self.last_segment_samples as nat,
        }
    }
}

/// An empty state by loudness.
pub open spec fn rms_empty<T>(buffer_limit: nat) -> RmsView<T> {
    RmsView {
        buffer: Seq::empty(),
        buffer_start_sample: 0,
        speaking: false,
        silence_samples: 0,
        buffer_limit,
    }
}

/// The way to find speech, before the first frame.
pub open spec fn impl_empty<T>(backend: VadBackend, buffer_limit: nat) -> ImplView<T> {
    match backend {
        VadBackend::Disabled => ImplView::Disabled,
        VadBackend::Silero => ImplView::Silero,
        VadBackend::Rms => ImplView::Rms(rms_empty(buffer_limit)),
    }
}

/// The shared state before the first frame.
pub open spec fn vad_empty<T>(inner: ImplView<T>) -> VadView<T> {
    VadView {
        inner,
        total_samples_seen: 0,
        segment_count: 0,
        last_segment_start_sample: None,
        last_segment_samples: 0,
    }
}

/// The backend in use.
pub open spec fn backend_of<T>(inner: ImplView<T>) -> VadBackend {
    match inner {
        ImplView::Disabled => VadBackend::Disabled,
        ImplView::Silero => VadBackend::Silero,
        ImplView::Rms(_) => VadBackend::Rms,
    }
}

/// What is in the queue of the model: where each stretch starts, and its samples.
pub open spec fn front_views<T>(fronts: Seq<(i64, Vec<T>)>) -> Seq<(int, Seq<T>)> {
    fronts.map_values(|f: (i64, Vec<T>)| (f.0 as int, f.1@))
}

/// The stretches of speech that the model found, without empty ones. A start
/// before the recording counts as its start, one that cannot be counted as the
/// largest that can.
pub open spec fn silero_segments<T>(fronts: Seq<(int, Seq<T>)>) -> Seq<SegmentView<T>>
    decreases fronts.len(),
{
    if fronts.len() == 0 {
        Seq::empty()
    } else {
        let before = silero_segments(fronts.drop_last());
        let (start, samples) = fronts.last();
        if samples.len() == 0 {
            before
        } else {
            before.push(
                SegmentView {
                    start_sample: if start < 0 {
                        0
                    } else if start > usize::MAX {
                        usize::MAX as nat
                    } else {
                        start as nat
                    },
                    samples,
                    reason: "speech"@,
                },
            )
        }
    }
}

/// What a frame does to the shared state, and the segments that it completes.
pub open spec fn vad_pushed<T>(
    v: VadView<T>,
    pcm: Seq<T>,
    loud: bool,
    fronts: Seq<(int, Seq<T>)>,
) -> (VadView<T>, Seq<SegmentView<T>>) {
    let total = v.total_samples_seen + pcm.len();
    match v.inner {
        ImplView::Disabled => (VadView { total_samples_seen: total, ..v }, Seq::empty()),
        ImplView::Silero => (VadView { total_samples_seen: total, ..v }, silero_segments(fronts)),
        ImplView::Rms(state) => {
            let (after, segment) = rms_pushed(state, pcm, v.total_samples_seen, loud);
            (
                VadView { inner: ImplView::Rms(after), total_samples_seen: total, ..v },
                match segment {
                    Some(s) => seq![s],
                    None => Seq::empty(),
                },
            )
        },
    }
}

/// The log line of a segment; its times come as text.
pub open spec fn segment_line(
    backend: VadBackend,
    number: nat,
    reason: Seq<char>,
    start: Seq<char>,
    len: Seq<char>,
) -> Seq<char> {
    "[VAD/"@ + backend_name(backend) + "] segment #"@ + number::dec(number) + " ("@ + reason
        + ") start="@ + start + "s len="@ + len + "s"@
}

fn take_fronts<T>(fronts: Vec<(i64, Vec<T>)>) -> (r: Vec<VadSegment<T>>)
    ensures
        segment_views(r@) == silero_segments(front_views(fronts@)),
{
    let ghost all = front_views(fronts@);
    let mut out: Vec<VadSegment<T>> = Vec::new();
    proof {
        assert(all.take(0) =~= Seq::<(int, Seq<T>)>::empty());
        assert(segment_views(out@) =~= Seq::<SegmentView<T>>::empty());
    }
    for front in it: fronts.into_iter()
        invariant
            it.seq() == fronts@,
            all == front_views(fronts@),
            segment_views(out@) == silero_segments(all.take(it.index())),
    {
        let (start, samples) = front;
        let ghost before = segment_views(out@);
        proof {
            let i = it.index();
            assert(all.take(i + 1).drop_last() =~= all.take(i));
            assert(all.take(i + 1).last() == (start as int, samples@));
        }
        if samples.len() > 0 {
            let start_sample: usize = if start < 0 {
                0
            } else if start as u64 > usize::MAX as u64 {
                usize::MAX
            } else {
                start as usize
            };
            let segment = VadSegment { start_sample, samples, reason: "speech" };
            out.push(segment);
            proof {
                assert(segment_views(out@) =~= before.push(segment@));
            }
        }
    }
    proof {
        assert(all.take(all.len() as int) =~= all);
    }
    out
}

impl<T: Copy> VadState<T> {
    /// The state of a recording that starts now.
    pub fn new(backend: VadBackend, buffer_limit: usize) -> (r: VadState<T>)
        ensures
            r@ == vad_empty(impl_empty::<T>(backend, buffer_limit as nat)),
    {
        let inner = match backend {
            VadBackend::Disabled => VadImpl::Disabled,
            VadBackend::Silero => VadImpl::Silero,
            VadBackend::Rms => VadImpl::Rms(RmsVadState::new(buffer_limit)),
        };
        VadState {
            inner,
            total_samples_seen: 0,
            segment_count: 0,
            last_segment_start_sample: None,
            last_segment_samples: 0,
        }
    }

    /// Takes a frame and hands out the segments that it completes. `loud` tells
    /// whether the frame is loud enough to be speech; `fronts` is what the model
    /// has found so far. Only what the backend needs is looked at.
    pub fn push(&mut self, pcm: &[T], loud: bool, fronts: Vec<(i64, Vec<T>)>) -> (r: Vec<
        VadSegment<T>,
    >)
        requires
            old(self).total_samples_seen + pcm@.len() <= usize::MAX,
            old(self).inner matches VadImpl::Rms(state) ==> state.silence_samples + pcm@.len()
                <= usize::MAX,
        ensures
            (final(self)@, segment_views(r@)) == vad_pushed(
                old(self)@,
                pcm@,
                loud,
                front_views(fronts@),
            ),
    {
        let frame_start: usize = self.total_samples_seen;
        self.total_samples_seen = frame_start + pcm.len();
        match &mut self.inner {
            VadImpl::Disabled => {
                let out: Vec<VadSegment<T>> = Vec::new();
                proof {
                    assert(segment_views(out@) =~= Seq::<SegmentView<T>>::empty());
                }
                out
            },
            VadImpl::Silero => take_fronts(fronts),
            VadImpl::Rms(state) => {
                let mut out: Vec<VadSegment<T>> = Vec::new();
                match state.push(pcm, frame_start, loud) {
                    Some(segment) => {
                        out.push(segment);
                        proof {
                            assert(segment_views(out@) =~= seq![segment@]);
                        }
                    },
                    None => {
                        proof {
                            assert(segment_views(out@) =~= Seq::<SegmentView<T>>::empty());
                        }
                    },
                }
                out
            },
        }
    }

    /// Counts a segment and logs it; `start` and `len` are its times in seconds
    /// as text.
    pub fn note_segment(
        &mut self,
        segment: &VadSegment<T>,
        start: &str,
        len: &str,
        log: &mut Vec<String>,
    )
        requires
            old(self).segment_count < usize::MAX,
        ensures
            final(self)@ == (VadView {
                segment_count: old(self)@.segment_count + 1,
                last_segment_start_sample: Some(segment.start_sample),
                last_segment_samples: segment.samples@.len(),
                ..old(self)@
            }),
            text::texts(final(log)@) == util::capped_push(
                text::texts(old(log)@),
                segment_line(
                    backend_of(old(self)@.inner),
                    old(self)@.segment_count + 1,
                    segment.reason@,
                    start@,
                    len@,
                ),
                util::LOG_RETAIN as nat,
            ),
    {
        self.segment_count = self.segment_count + 1;
        self.last_segment_start_sample = Some(segment.start_sample);
        self.last_segment_samples = segment.samples.len();
        let mut line = "[VAD/".to_owned();
        line.append(self.backend().as_str());
        line.append("] segment #");
        line.append(number::size_text(self.segment_count).as_str());
        line.append(" (");
        line.append(segment.reason);
        line.append(") start=");
        line.append(start);
        line.append("s len=");
        line.append(len);
        line.append("s");
        util::push_log(log, line);
    }

    /// The backend in use.
    pub fn backend(&self) -> (r: VadBackend)
        ensures
            r == backend_of(self@.inner),
    {
        match &self.inner {
            VadImpl::Disabled => VadBackend::Disabled,
            VadImpl::Silero => VadBackend::Silero,
            VadImpl::Rms(_) => VadBackend::Rms,
        }
    }

    /// Forgets the recording.
    pub fn reset(&mut self)
        ensures
            final(self)@ == vad_empty(
                match old(self)@.inner {
                    ImplView::Rms(state) => ImplView::Rms(rms_empty(state.buffer_limit)),
                    other => other,
                },
            ),
    {
        match &mut self.inner {
            VadImpl::Disabled => {},
            VadImpl::Silero => {},
            VadImpl::Rms(state) => {
                state.reset();
            },
        }
        self.total_samples_seen = 0;
        self.segment_count = 0;
        self.last_segment_start_sample = None;
        self.last_segment_samples = 0;
    }
}

// ─── What is shown and reported ────────────────────────────────────────

/// What the slots show while they wait; times come as text in seconds: `last`
/// of the last segment, `gathered` of what is gathered so far.
pub open spec fn status_text<T>(
    v: VadView<T>,
    detected: bool,
    last: Seq<char>,
    gathered: Seq<char>,
) -> Seq<char> {
    let tail = if v.last_segment_samples > 0 {
        " · 最近 "@ + last + "s"@
    } else {
        Seq::empty()
    };
    match v.inner {
        ImplView::Disabled => "（离线 VAD 未启用）"@,
        ImplView::Silero => "（Silero·"@ + (if detected {
            "检测中"@
        } else {
            "等待语音"@
        }) + tail + "）"@,
        ImplView::Rms(state) => if state.speaking {
            "（RMS·检测中 "@ + gathered + "s"@ + tail + "）"@
        } else {
            "（RMS·等待语音"@ + tail + "）"@
        },
    }
}

/// Settings and times of the voice activity as text, for the report.
pub struct VadReportTexts {
    pub last_start: String,
    pub last_len: String,
    pub silero_model: String,
    pub silero_threshold: String,
    pub silero_min_silence_sec: String,
    pub silero_min_speech_sec: String,
    pub silero_max_speech_sec: String,
    pub rms_threshold: String,
    pub rms_max_buffer_sec: String,
}

/// `out` with the lines of the voice activity that every backend has.
pub open spec fn with_vad_head<T>(out: Seq<char>, v: VadView<T>, t: VadReportTexts) -> Seq<char> {
    let head = out + "\n## VAD\n\n- backend: "@ + backend_name(backend_of(v.inner))
        + "\n- sample_rate: "@ + number::dec(VAD_SAMPLE_RATE as nat) + "\n- segments: "@
        + number::dec(v.segment_count) + "\n"@;
    match v.last_segment_start_sample {
        Some(_) => head + "- last_segment: start="@ + t.last_start@ + "s len="@ + t.last_len@
            + "s\n"@,
        None => head,
    }
}

/// `out` with the section on the voice activity.
pub open spec fn with_vad_report<T>(out: Seq<char>, v: VadView<T>, t: VadReportTexts) -> Seq<char> {
    let head = with_vad_head(out, v, t);
    match v.inner {
        ImplView::Disabled => head,
        ImplView::Silero => head + "- silero_model: "@ + t.silero_model@ + "\n- silero_threshold: "@
            + t.silero_threshold@ + "\n- silero_min_silence_sec: "@ + t.silero_min_silence_sec@
            + "\n- silero_min_speech_sec: "@ + t.silero_min_speech_sec@
            + "\n- silero_max_speech_sec: "@ + t.silero_max_speech_sec@
            + "\n- silero_window_size: "@ + number::signed_dec(SILERO_VAD_WINDOW_SIZE as int)
            + "\n- silero_buffer_sec: "@ + number::dec(SILERO_VAD_BUFFER_SEC as nat) + "\n"@,
        ImplView::Rms(_) => head + "- rms_threshold: "@ + t.rms_threshold@
            + "\n- rms_silence_sec: 0.4\n- rms_max_buffer_sec: "@ + t.rms_max_buffer_sec@ + "\n"@,
    }
}

impl<T: Copy> VadState<T> {
    /// What the slots show while they wait; `detected` is what the model says
    /// of this moment.
    pub fn status_label(&self, detected: bool, last: &str, gathered: &str) -> (r: String)
        ensures
            r@ == status_text(self@, detected, last@, gathered@),
    {
        let mut tail = String::new();
        if self.last_segment_samples > 0 {
            tail = " · 最近 ".to_owned();
            tail.append(last);
            tail.append("s");
        }
        match &self.inner {
            VadImpl::Disabled => "（离线 VAD 未启用）".to_owned(),
            VadImpl::Silero => {
                let mut out = "（Silero·".to_owned();
                out.append(
                    if detected {
                        "检测中"
                    } else {
                        "等待语音"
                    },
                );
                out.append(tail.as_str());
                out.append("）");
                out
            },
            VadImpl::Rms(state) => {
                if state.speaking {
                    let mut out = "（RMS·检测中 ".to_owned();
                    out.append(gathered);
                    out.append("s");
                    out.append(tail.as_str());
                    out.append("）");
                    out
                } else {
                    let mut out = "（RMS·等待语音".to_owned();
                    out.append(tail.as_str());
                    out.append("）");
                    out
                }
            },
        }
    }

    /// Appends the section on the voice activity to a report.
    pub fn append_report(&self, out: &mut String, t: &VadReportTexts)
        ensures
            final(out)@ == with_vad_report(old(out)@, self@, *t),
    {
        out.append("\n## VAD\n\n- backend: ");
        out.append(self.backend().as_str());
        out.append("\n- sample_rate: ");
        out.append(number::size_text(VAD_SAMPLE_RATE).as_str());
        out.append("\n- segments: ");
        out.append(number::size_text(self.segment_count).as_str());
        out.append("\n");
        if self.last_segment_start_sample.is_some() {
            out.append("- last_segment: start=");
            out.append(t.last_start.as_str());
            out.append("s len=");
            out.append(t.last_len.as_str());
            out.append("s\n");
        }
        match &self.inner {
            VadImpl::Disabled => {},
            VadImpl::Silero => {
                out.append("- silero_model: ");
                out.append(t.silero_model.as_str());
                out.append("\n- silero_threshold: ");
                out.append(t.silero_threshold.as_str());
                out.append("\n- silero_min_silence_sec: ");
                out.append(t.silero_min_silence_sec.as_str());
                out.append("\n- silero_min_speech_sec: ");
                out.append(t.silero_min_speech_sec.as_str());
                out.append("\n- silero_max_speech_sec: ");
                out.append(t.silero_max_speech_sec.as_str());
                out.append("\n- silero_window_size: ");
                out.append(number::signed_text(SILERO_VAD_WINDOW_SIZE as i64).as_str());
                out.append("\n- silero_buffer_sec: ");
                out.append(number::dec_text(SILERO_VAD_BUFFER_SEC as u64).as_str());
                out.append("\n");
            },
            VadImpl::Rms(_) => {
                out.append("- rms_threshold: ");
                out.append(t.rms_threshold.as_str());
                out.append("\n- rms_silence_sec: 0.4\n- rms_max_buffer_sec: ");
                out.append(t.rms_max_buffer_sec.as_str());
                out.append("\n");
            },
        }
    }
}

// ─── Laws ──────────────────────────────────────────────────────────────

/// The buffer ends where the recording ends.
pub open spec fn rms_aligned<T>(v: RmsView<T>, total: nat) -> bool {
    v.buffer.len() > 0 ==> v.buffer_start_sample + v.buffer.len() == total
}

/// Every sample is handed out exactly once, in order: what was gathered and the
/// frame are the segment, if any, and what stays gathered. A segment starts
/// where its first sample stands in the recording and ends with the frame.
pub proof fn law_rms_hands_out_every_sample<T>(v: RmsView<T>, pcm: Seq<T>, total: nat, loud: bool)
    requires
        rms_aligned(v, total),
    ensures
        ({
            let (after, segment) = rms_pushed(v, pcm, total, loud);
            &&& rms_aligned(after, total + pcm.len())
            &&& match segment {
                Some(s) => s.samples == v.buffer + pcm && after.buffer.len() == 0 && s.start_sample
                    + s.samples.len() == total + pcm.len(),
                None => after.buffer == v.buffer + pcm,
            }
        }),
{
}

/// The buffer never stays full, and speech never stays silent for long.
pub proof fn law_rms_is_bounded<T>(v: RmsView<T>, pcm: Seq<T>, total: nat, loud: bool)
    requires
        v.buffer_limit > 0,
        v.buffer.len() > 0 || !v.speaking,
    ensures
        ({
            let (after, segment) = rms_pushed(v, pcm, total, loud);
            &&& after.buffer.len() < v.buffer_limit
            &&& after.buffer.len() > 0 ==> !(after.speaking && after.silence_samples
                >= RMS_SILENCE_SAMPLES)
            &&& pcm.len() > 0 ==> after.buffer.len() > 0 || !after.speaking
        }),
{
}

/// After speech, a quiet frame ends the segment exactly if the silence has then
/// lasted long enough or the buffer is full; a loud frame only if it is full.
pub proof fn law_rms_cuts_after_silence<T>(v: RmsView<T>, pcm: Seq<T>, total: nat)
    requires
        v.speaking,
        v.buffer.len() + pcm.len() > 0,
    ensures
        rms_pushed(v, pcm, total, false).1 is Some <==> v.silence_samples + pcm.len()
            >= RMS_SILENCE_SAMPLES || v.buffer.len() + pcm.len() >= v.buffer_limit,
        rms_pushed(v, pcm, total, true).1 is Some <==> v.buffer.len() + pcm.len()
            >= v.buffer_limit,
{
}

/// Nothing is handed out before anyone spoke, unless the buffer is full.
pub proof fn law_rms_waits_for_speech<T>(v: RmsView<T>, pcm: Seq<T>, total: nat)
    requires
        !v.speaking,
        v.buffer.len() + pcm.len() < v.buffer_limit,
    ensures
        rms_pushed(v, pcm, total, false).1 is None,
        !rms_pushed(v, pcm, total, false).0.speaking,
{
}

/// Only the recording's position and the way to find speech depend on a frame,
/// and a reset gives back the state before the first frame.
pub proof fn law_vad_reset_starts_over<T>(backend: VadBackend, buffer_limit: nat, v: VadView<T>)
    requires
        backend_of(v.inner) == backend,
        v.inner matches ImplView::Rms(state) ==> state.buffer_limit == buffer_limit,
    ensures
        vad_empty(
            match v.inner {
                ImplView::Rms(state) => ImplView::Rms(rms_empty(state.buffer_limit)),
                other => other,
            },
        ) == vad_empty(impl_empty::<T>(backend, buffer_limit)),
{
}

/// Every segment that the model finds has a sample, and there are no more of
/// them than it found.
pub proof fn law_model_segments_are_never_empty<T>(fronts: Seq<(int, Seq<T>)>)
    ensures
        silero_segments(fronts).len() <= fronts.len(),
        forall|i: int|
            0 <= i < silero_segments(fronts).len() ==> (#[trigger] silero_segments(
                fronts,
            )[i]).samples.len() > 0,
    decreases fronts.len(),
{
    if fronts.len() > 0 {
        law_model_segments_are_never_empty(fronts.drop_last());
    }
}

/// The samples of frames one behind the other.
pub open spec fn samples_of<T>(frames: Seq<Seq<T>>) -> Seq<T>
    decreases frames.len(),
{
    if frames.len() == 0 {
        Seq::empty()
    } else {
        samples_of(frames.drop_last()) + frames.last()
    }
}

/// The state after quiet frames, the first of which stands at `at` in the
/// recording.
pub open spec fn after_quiet<T>(v: RmsView<T>, frames: Seq<Seq<T>>, at: nat) -> RmsView<T>
    decreases frames.len(),
{
    if frames.len() == 0 {
        v
    } else {
        let front = frames.drop_last();
        rms_pushed(after_quiet(v, front, at), frames.last(), at + samples_of(front).len(), false).0
    }
}

/// After a loud frame that hands nothing out somebody speaks, and no silence is
/// counted, whatever came before.
pub proof fn law_loud_frame_ends_the_silence<T>(v: RmsView<T>, pcm: Seq<T>, at: nat)
    requires
        rms_pushed(v, pcm, at, true).1 is None,
    ensures
        rms_pushed(v, pcm, at, true).0.speaking,
        rms_pushed(v, pcm, at, true).0.silence_samples == 0,
        rms_pushed(v, pcm, at, true).0.buffer == v.buffer + pcm,
{
}

/// Quiet frames behind speech only add to the silence until 0.4 s of it have
/// passed or the buffer is full.
proof fn lemma_quiet_frames_gather<T>(v: RmsView<T>, quiet: Seq<Seq<T>>, at: nat)
    requires
        v.speaking,
        v.silence_samples == 0,
        samples_of(quiet).len() < 6_400,
        v.buffer.len() + samples_of(quiet).len() < v.buffer_limit,
    ensures
        after_quiet(v, quiet, at) == (RmsView {
            buffer: v.buffer + samples_of(quiet),
            buffer_start_sample: after_quiet(v, quiet, at).buffer_start_sample,
            silence_samples: samples_of(quiet).len(),
            ..v
        }),
        v.buffer.len() > 0 ==> after_quiet(v, quiet, at).buffer_start_sample
            == v.buffer_start_sample,
    decreases quiet.len(),
{
    if quiet.len() == 0 {
        assert(v.buffer + samples_of(quiet) =~= v.buffer);
    } else {
        let front = quiet.drop_last();
        lemma_quiet_frames_gather(v, front, at);
        assert(v.buffer + samples_of(front) + quiet.last() =~= v.buffer + samples_of(quiet));
    }
}

/// Speech ends with its silence: behind a loud frame, quiet frames hand nothing
/// out until they alone make up 0.4 s, or the buffer is full; the frame with which
/// they do hands out all that was gathered, from its start on.
pub proof fn law_silence_counts_from_the_last_loud_frame<T>(
    v: RmsView<T>,
    loud: Seq<T>,
    quiet: Seq<Seq<T>>,
    last: Seq<T>,
    at: nat,
)
    requires
        loud.len() > 0,
        v.buffer.len() + loud.len() + samples_of(quiet).len() < v.buffer_limit,
        samples_of(quiet).len() < 6_400,
    ensures
        ({
            let begun = rms_pushed(v, loud, at, true);
            let before = after_quiet(begun.0, quiet, at + loud.len());
            let (after, segment) = rms_pushed(
                before,
                last,
                at + loud.len() + samples_of(quiet).len(),
                false,
            );
            let all = v.buffer + loud + samples_of(quiet) + last;
            let silent = samples_of(quiet).len() + last.len() >= 6_400;
            let full = all.len() >= v.buffer_limit;
            &&& begun.1 is None
            &&& segment is Some <==> silent || full
            &&& segment matches Some(s) ==> {
                &&& s.samples == all
                &&& s.start_sample == (if v.buffer.len() == 0 {
                    at
                } else {
                    v.buffer_start_sample
                })
                &&& s.reason == (if full {
                    "max-buffer"@
                } else {
                    "silence"@
                })
                &&& after.buffer.len() == 0 && !after.speaking && after.silence_samples == 0
            }
            &&& segment is None ==> after.buffer == all && after.speaking && after.silence_samples
                == samples_of(quiet).len() + last.len()
        }),
{
    let begun = rms_pushed(v, loud, at, true).0;
    assert(samples_of(quiet).len() >= 0);
    lemma_quiet_frames_gather(begun, quiet, at + loud.len());
    assert(v.buffer + loud + samples_of(quiet) + last =~= begun.buffer + samples_of(quiet) + last);
}

/// Before anyone speaks, quiet frames are only gathered: no silence is counted,
/// and only a full buffer is handed out.
pub proof fn law_quiet_start_is_gathered<T>(v: RmsView<T>, pcm: Seq<T>, at: nat)
    requires
        !v.speaking,
        v.silence_samples == 0,
        v.buffer.len() + pcm.len() > 0,
    ensures
        ({
            let (after, segment) = rms_pushed(v, pcm, at, false);
            &&& segment is Some <==> v.buffer.len() + pcm.len() >= v.buffer_limit
            &&& segment matches Some(s) ==> s.samples == v.buffer + pcm && s.reason
                == "max-buffer"@
            &&& segment is None ==> after.buffer == v.buffer + pcm
            &&& !after.speaking && after.silence_samples == 0
            &&& after.buffer_limit == v.buffer_limit
        }),
{
}

/// A loud frame hands the buffer out exactly if it fills it, as full.
pub proof fn law_loud_frame_fills_the_buffer<T>(v: RmsView<T>, pcm: Seq<T>, at: nat)
    requires
        v.buffer.len() + pcm.len() > 0,
    ensures
        rms_pushed(v, pcm, at, true).1 is Some <==> v.buffer.len() + pcm.len() >= v.buffer_limit,
        rms_pushed(v, pcm, at, true).1 matches Some(s) ==> s.samples == v.buffer + pcm && s.reason
            == "max-buffer"@,
        rms_pushed(v, pcm, at, true).0.buffer_limit == v.buffer_limit,
{
}

/// A frame moves the recording on by its samples. Where loudness decides it goes
/// to the gathered samples and nowhere else; where the model decides only what the
/// model found is handed out; and where nothing decides, nothing is.
pub proof fn law_frame_goes_to_the_backend<T>(
    v: VadView<T>,
    pcm: Seq<T>,
    loud: bool,
    fronts: Seq<(int, Seq<T>)>,
)
    ensures
        ({
            let (after, segments) = vad_pushed(v, pcm, loud, fronts);
            &&& after.total_samples_seen == v.total_samples_seen + pcm.len()
            &&& after.segment_count == v.segment_count
            &&& after.last_segment_samples == v.last_segment_samples
            &&& after.last_segment_start_sample == v.last_segment_start_sample
            &&& v.inner is Disabled ==> after.inner is Disabled && segments.len() == 0
            &&& v.inner is Silero ==> after.inner is Silero && segments == silero_segments(fronts)
            &&& v.inner matches ImplView::Rms(state) ==> {
                let (pushed, segment) = rms_pushed(state, pcm, v.total_samples_seen, loud);
                &&& after.inner == ImplView::Rms(pushed)
                &&& segment is None ==> segments.len() == 0
                &&& segment is Some ==> segments == seq![segment->0]
            }
        }),
{
}

/// The model's stretches are handed out in order, with all their samples and
/// their starts; an empty one is left out, and none starts before the recording.
pub proof fn law_model_segments_are_what_it_found<T>(
    fronts: Seq<(int, Seq<T>)>,
    start: int,
    samples: Seq<T>,
)
    requires
        start <= usize::MAX,
    ensures
        silero_segments(Seq::<(int, Seq<T>)>::empty()).len() == 0,
        samples.len() == 0 ==> silero_segments(fronts.push((start, samples))) == silero_segments(
            fronts,
        ),
        samples.len() > 0 && start >= 0 ==> silero_segments(fronts.push((start, samples)))
            == silero_segments(fronts).push(
            SegmentView { start_sample: start as nat, samples, reason: "speech"@ },
        ),
        samples.len() > 0 && start < 0 ==> silero_segments(fronts.push((start, samples)))
            == silero_segments(fronts).push(
            SegmentView { start_sample: 0, samples, reason: "speech"@ },
        ),
{
    assert(fronts.push((start, samples)).drop_last() =~= fronts);
}

/// A state before the first frame has gathered nothing and heard nobody.
pub proof fn law_recording_starts_empty<T>(backend: VadBackend, buffer_limit: nat)
    ensures
        ({
            let v = vad_empty(impl_empty::<T>(backend, buffer_limit));
            &&& v.total_samples_seen == 0 && v.segment_count == 0 && v.last_segment_samples == 0
            &&& v.last_segment_start_sample is None
            &&& backend_of(v.inner) == backend
            &&& backend is Rms ==> v.inner is Rms
            &&& v.inner matches ImplView::Rms(r) ==> r.buffer.len() == 0 && !r.speaking
                && r.silence_samples == 0 && r.buffer_limit == buffer_limit
        }),
{
}

/// Backends go by their names, and a setting names one in capitals or not, with
/// white space around it or not; without a setting the model is meant.
pub proof fn law_backends_have_names(left: Seq<char>, name: Seq<char>, right: Seq<char>)
    requires
        forall|i: int| 0 <= i < left.len() ==> text::is_space(#[trigger] left[i]),
        forall|i: int| 0 <= i < right.len() ==> text::is_space(#[trigger] right[i]),
        name.len() > 0 && !text::is_space(name[0]) && !text::is_space(name.last()),
    ensures
        backend_name(VadBackend::Disabled) == "disabled"@,
        backend_name(VadBackend::Silero) == "silero"@,
        backend_name(VadBackend::Rms) == "rms"@,
        backend_setting(None) == "silero"@,
        backend_setting(Some(left + name + right)) == text::lower_text(name),
{
    text::law_trim_takes_off_both_ends(left, name, right);
}

/// What a segment is logged as: its backend, its number, why it ended, where it
/// starts and how long it is.
pub proof fn law_segment_line_tells_all(
    backend: VadBackend,
    number: nat,
    reason: Seq<char>,
    start: Seq<char>,
    len: Seq<char>,
)
    ensures
        text::occurs(segment_line(backend, number, reason, start, len), "[VAD/"@ + backend_name(backend) + "] "@),
        text::occurs(segment_line(backend, number, reason, start, len), "] segment #"@ + number::dec(number) + " "@),
        text::occurs(segment_line(backend, number, reason, start, len), " ("@ + reason + ")"@),
        text::occurs(segment_line(backend, number, reason, start, len), ") start="@ + start + "s "@),
        text::occurs(segment_line(backend, number, reason, start, len), "s len="@ + len + "s"@),
{
    let q0 = Seq::<Seq<char>>::empty();
    let q1 = q0.push("[VAD/"@);
    text::lemma_strung_push(q0, "[VAD/"@);
    let q2 = q1.push(backend_name(backend));
    text::lemma_strung_push(q1, backend_name(backend));
    let q3 = q2.push("] segment #"@);
    text::lemma_strung_push(q2, "] segment #"@);
    let q4 = q3.push(number::dec(number));
    text::lemma_strung_push(q3, number::dec(number));
    let q5 = q4.push(" ("@);
    text::lemma_strung_push(q4, " ("@);
    let q6 = q5.push(reason);
    text::lemma_strung_push(q5, reason);
    let q7 = q6.push(") start="@);
    text::lemma_strung_push(q6, ") start="@);
    let q8 = q7.push(start);
    text::lemma_strung_push(q7, start);
    let q9 = q8.push("s len="@);
    text::lemma_strung_push(q8, "s len="@);
    let q10 = q9.push(len);
    text::lemma_strung_push(q9, len);
    let q11 = q10.push("s"@);
    text::lemma_strung_push(q10, "s"@);
    assert(text::strung(q1) =~= "[VAD/"@);
    assert(text::strung(q11) == segment_line(backend, number, reason, start, len));
    reveal_strlit("] segment #");
    reveal_strlit("] ");
    reveal_strlit(" (");
    reveal_strlit(" ");
    reveal_strlit(") start=");
    reveal_strlit(")");
    reveal_strlit("s len=");
    reveal_strlit("s ");
    reveal_strlit("s");
    assert("] segment #"@.subrange(0, "] "@.len() as int) =~= "] "@);
    text::lemma_strung_line(q11, 0, "] "@);
    assert(" ("@.subrange(0, " "@.len() as int) =~= " "@);
    text::lemma_strung_line(q11, 2, " "@);
    assert(") start="@.subrange(0, ")"@.len() as int) =~= ")"@);
    text::lemma_strung_line(q11, 4, ")"@);
    assert("s len="@.subrange(0, "s "@.len() as int) =~= "s "@);
    text::lemma_strung_line(q11, 6, "s "@);
    assert("s"@.subrange(0, "s"@.len() as int) =~= "s"@);
    text::lemma_strung_line(q11, 8, "s"@);
}

proof fn lemma_head_appends<T>(out: Seq<char>, v: VadView<T>, t: VadReportTexts)
    ensures
        out.is_prefix_of(with_vad_head(out, v, t)),
        with_vad_head(out, v, t).is_prefix_of(with_vad_report(out, v, t)),
{
    let head = with_vad_head(out, v, t);
    assert(head.subrange(0, out.len() as int) =~= out);
    assert(with_vad_report(out, v, t).subrange(0, head.len() as int) =~= head);
}

/// The section on the voice activity goes behind what is there.
pub proof fn lemma_vad_report_appends<T>(out: Seq<char>, v: VadView<T>, t: VadReportTexts)
    ensures
        out.is_prefix_of(with_vad_report(out, v, t)),
{
    lemma_head_appends(out, v, t);
    let (head, all) = (with_vad_head(out, v, t), with_vad_report(out, v, t));
    assert(all.subrange(0, out.len() as int) =~= head.subrange(0, out.len() as int));
}

/// The report names the backend, the sample rate and how many segments there
/// were, and where the last one starts and how long it is if there was one.
pub proof fn law_vad_report_counts_the_segments<T>(out: Seq<char>, v: VadView<T>, t: VadReportTexts)
    ensures
        ({
            let r = with_vad_report(out, v, t);
            &&& text::occurs(r, "\n## VAD\n\n- backend: "@ + backend_name(backend_of(v.inner)) + "\n"@)
            &&& text::occurs(r, "\n- sample_rate: "@ + number::dec(16_000) + "\n"@)
            &&& text::occurs(r, "\n- segments: "@ + number::dec(v.segment_count) + "\n"@)
            &&& v.last_segment_start_sample is Some ==> {
                &&& text::occurs(r, "- last_segment: start="@ + t.last_start@ + "s "@)
                &&& text::occurs(r, "s len="@ + t.last_len@ + "s\n"@)
            }
        }),
{
    let r = with_vad_report(out, v, t);
    let head = with_vad_head(out, v, t);
    lemma_head_appends(out, v, t);
    let rest = r.skip(head.len() as int);
    assert(r =~= head + rest) by {
        assert(r.subrange(0, head.len() as int) =~= head);
    }
    if v.last_segment_start_sample is Some {
        let q0 = Seq::<Seq<char>>::empty();
        let q1 = q0.push(out);
        text::lemma_strung_push(q0, out);
        let q2 = q1.push("\n## VAD\n\n- backend: "@);
        text::lemma_strung_push(q1, "\n## VAD\n\n- backend: "@);
        let q3 = q2.push(backend_name(backend_of(v.inner)));
        text::lemma_strung_push(q2, backend_name(backend_of(v.inner)));
        let q4 = q3.push("\n- sample_rate: "@);
        text::lemma_strung_push(q3, "\n- sample_rate: "@);
        let q5 = q4.push(number::dec(VAD_SAMPLE_RATE as nat));
        text::lemma_strung_push(q4, number::dec(VAD_SAMPLE_RATE as nat));
        let q6 = q5.push("\n- segments: "@);
        text::lemma_strung_push(q5, "\n- segments: "@);
        let q7 = q6.push(number::dec(v.segment_count));
        text::lemma_strung_push(q6, number::dec(v.segment_count));
        let q8 = q7.push("\n"@);
        text::lemma_strung_push(q7, "\n"@);
        let q9 = q8.push("- last_segment: start="@);
        text::lemma_strung_push(q8, "- last_segment: start="@);
        let q10 = q9.push(t.last_start@);
        text::lemma_strung_push(q9, t.last_start@);
        let q11 = q10.push("s len="@);
        text::lemma_strung_push(q10, "s len="@);
        let q12 = q11.push(t.last_len@);
        text::lemma_strung_push(q11, t.last_len@);
        let q13 = q12.push("s\n"@);
        text::lemma_strung_push(q12, "s\n"@);
        assert(text::strung(q1) =~= out);
        assert(text::strung(q13) == head);
        reveal_strlit("\n- sample_rate: ");
        reveal_strlit("\n");
        reveal_strlit("\n- segments: ");
        reveal_strlit("s len=");
        reveal_strlit("s ");
        reveal_strlit("s\n");
        assert("\n- sample_rate: "@.subrange(0, "\n"@.len() as int) =~= "\n"@);
        text::lemma_strung_line(q13, 1, "\n"@);
        assert("\n- segments: "@.subrange(0, "\n"@.len() as int) =~= "\n"@);
        text::lemma_strung_line(q13, 3, "\n"@);
        assert("\n"@.subrange(0, "\n"@.len() as int) =~= "\n"@);
        text::lemma_strung_line(q13, 5, "\n"@);
        assert("s len="@.subrange(0, "s "@.len() as int) =~= "s "@);
        text::lemma_strung_line(q13, 8, "s "@);
        assert("s\n"@.subrange(0, "s\n"@.len() as int) =~= "s\n"@);
        text::lemma_strung_line(q13, 10, "s\n"@);
        text::lemma_occurs_in_front(head, rest, "\n## VAD\n\n- backend: "@ + backend_name(backend_of(v.inner)) + "\n"@);
        text::lemma_occurs_in_front(head, rest, "\n- sample_rate: "@ + number::dec(VAD_SAMPLE_RATE as nat) + "\n"@);
        text::lemma_occurs_in_front(head, rest, "\n- segments: "@ + number::dec(v.segment_count) + "\n"@);
        text::lemma_occurs_in_front(head, rest, "- last_segment: start="@ + t.last_start@ + "s "@);
        text::lemma_occurs_in_front(head, rest, "s len="@ + t.last_len@ + "s\n"@);
    } else {
        let q0 = Seq::<Seq<char>>::empty();
        let q1 = q0.push(out);
        text::lemma_strung_push(q0, out);
        let q2 = q1.push("\n## VAD\n\n- backend: "@);
        text::lemma_strung_push(q1, "\n## VAD\n\n- backend: "@);
        let q3 = q2.push(backend_name(backend_of(v.inner)));
        text::lemma_strung_push(q2, backend_name(backend_of(v.inner)));
        let q4 = q3.push("\n- sample_rate: "@);
        text::lemma_strung_push(q3, "\n- sample_rate: "@);
        let q5 = q4.push(number::dec(VAD_SAMPLE_RATE as nat));
        text::lemma_strung_push(q4, number::dec(VAD_SAMPLE_RATE as nat));
        let q6 = q5.push("\n- segments: "@);
        text::lemma_strung_push(q5, "\n- segments: "@);
        let q7 = q6.push(number::dec(v.segment_count));
        text::lemma_strung_push(q6, number::dec(v.segment_count));
        let q8 = q7.push("\n"@);
        text::lemma_strung_push(q7, "\n"@);
        assert(text::strung(q1) =~= out);
        assert(text::strung(q8) == head);
        reveal_strlit("\n- sample_rate: ");
        reveal_strlit("\n");
        reveal_strlit("\n- segments: ");
        assert("\n- sample_rate: "@.subrange(0, "\n"@.len() as int) =~= "\n"@);
        text::lemma_strung_line(q8, 1, "\n"@);
        assert("\n- segments: "@.subrange(0, "\n"@.len() as int) =~= "\n"@);
        text::lemma_strung_line(q8, 3, "\n"@);
        assert("\n"@.subrange(0, "\n"@.len() as int) =~= "\n"@);
        text::lemma_strung_line(q8, 5, "\n"@);
        text::lemma_occurs_in_front(head, rest, "\n## VAD\n\n- backend: "@ + backend_name(backend_of(v.inner)) + "\n"@);
        text::lemma_occurs_in_front(head, rest, "\n- sample_rate: "@ + number::dec(VAD_SAMPLE_RATE as nat) + "\n"@);
        text::lemma_occurs_in_front(head, rest, "\n- segments: "@ + number::dec(v.segment_count) + "\n"@);
    }
}

/// The report names every setting of the backend in use.
pub proof fn law_vad_report_names_the_settings<T>(out: Seq<char>, v: VadView<T>, t: VadReportTexts)
    ensures
        v.inner is Silero ==> {
            let r = with_vad_report(out, v, t);
            &&& text::occurs(r, "- silero_model: "@ + t.silero_model@ + "\n"@)
            &&& text::occurs(r, "\n- silero_threshold: "@ + t.silero_threshold@ + "\n"@)
            &&& text::occurs(r, "\n- silero_min_silence_sec: "@ + t.silero_min_silence_sec@ + "\n"@)
            &&& text::occurs(r, "\n- silero_min_speech_sec: "@ + t.silero_min_speech_sec@ + "\n"@)
            &&& text::occurs(r, "\n- silero_max_speech_sec: "@ + t.silero_max_speech_sec@ + "\n"@)
            &&& text::occurs(r, "\n- silero_window_size: "@ + number::signed_dec(512) + "\n"@)
            &&& text::occurs(r, "\n- silero_buffer_sec: "@ + number::dec(10) + "\n"@)
        },
        v.inner is Rms ==> {
            let r = with_vad_report(out, v, t);
            &&& text::occurs(r, "- rms_threshold: "@ + t.rms_threshold@ + "\n"@)
            &&& text::occurs(r, "\n- rms_silence_sec: 0.4\n- rms_max_buffer_sec: "@ + t.rms_max_buffer_sec@ + "\n"@)
            &&& text::occurs(r, "\n- rms_silence_sec: 0.4\n"@)
        },
{
    if v.inner is Silero {
        let q0 = Seq::<Seq<char>>::empty();
        let q1 = q0.push(with_vad_head(out, v, t));
        text::lemma_strung_push(q0, with_vad_head(out, v, t));
        let q2 = q1.push("- silero_model: "@);
        text::lemma_strung_push(q1, "- silero_model: "@);
        let q3 = q2.push(t.silero_model@);
        text::lemma_strung_push(q2, t.silero_model@);
        let q4 = q3.push("\n- silero_threshold: "@);
        text::lemma_strung_push(q3, "\n- silero_threshold: "@);
        let q5 = q4.push(t.silero_threshold@);
        text::lemma_strung_push(q4, t.silero_threshold@);
        let q6 = q5.push("\n- silero_min_silence_sec: "@);
        text::lemma_strung_push(q5, "\n- silero_min_silence_sec: "@);
        let q7 = q6.push(t.silero_min_silence_sec@);
        text::lemma_strung_push(q6, t.silero_min_silence_sec@);
        let q8 = q7.push("\n- silero_min_speech_sec: "@);
        text::lemma_strung_push(q7, "\n- silero_min_speech_sec: "@);
        let q9 = q8.push(t.silero_min_speech_sec@);
        text::lemma_strung_push(q8, t.silero_min_speech_sec@);
        let q10 = q9.push("\n- silero_max_speech_sec: "@);
        text::lemma_strung_push(q9, "\n- silero_max_speech_sec: "@);
        let q11 = q10.push(t.silero_max_speech_sec@);
        text::lemma_strung_push(q10, t.silero_max_speech_sec@);
        let q12 = q11.push("\n- silero_window_size: "@);
        text::lemma_strung_push(q11, "\n- silero_window_size: "@);
        let q13 = q12.push(number::signed_dec(SILERO_VAD_WINDOW_SIZE as int));
        text::lemma_strung_push(q12, number::signed_dec(SILERO_VAD_WINDOW_SIZE as int));
        let q14 = q13.push("\n- silero_buffer_sec: "@);
        text::lemma_strung_push(q13, "\n- silero_buffer_sec: "@);
        let q15 = q14.push(number::dec(SILERO_VAD_BUFFER_SEC as nat));
        text::lemma_strung_push(q14, number::dec(SILERO_VAD_BUFFER_SEC as nat));
        let q16 = q15.push("\n"@);
        text::lemma_strung_push(q15, "\n"@);
        assert(text::strung(q1) =~= with_vad_head(out, v, t));
        assert(text::strung(q16) == with_vad_report(out, v, t));
        reveal_strlit("\n- silero_threshold: ");
        reveal_strlit("\n");
        reveal_strlit("\n- silero_min_silence_sec: ");
        reveal_strlit("\n- silero_min_speech_sec: ");
        reveal_strlit("\n- silero_max_speech_sec: ");
        reveal_strlit("\n- silero_window_size: ");
        reveal_strlit("\n- silero_buffer_sec: ");
        assert("\n- silero_threshold: "@.subrange(0, "\n"@.len() as int) =~= "\n"@);
        text::lemma_strung_line(q16, 1, "\n"@);
        assert("\n- silero_min_silence_sec: "@.subrange(0, "\n"@.len() as int) =~= "\n"@);
        text::lemma_strung_line(q16, 3, "\n"@);
        assert("\n- silero_min_speech_sec: "@.subrange(0, "\n"@.len() as int) =~= "\n"@);
        text::lemma_strung_line(q16, 5, "\n"@);
        assert("\n- silero_max_speech_sec: "@.subrange(0, "\n"@.len() as int) =~= "\n"@);
        text::lemma_strung_line(q16, 7, "\n"@);
        assert("\n- silero_window_size: "@.subrange(0, "\n"@.len() as int) =~= "\n"@);
        text::lemma_strung_line(q16, 9, "\n"@);
        assert("\n- silero_buffer_sec: "@.subrange(0, "\n"@.len() as int) =~= "\n"@);
        text::lemma_strung_line(q16, 11, "\n"@);
        assert("\n"@.subrange(0, "\n"@.len() as int) =~= "\n"@);
        text::lemma_strung_line(q16, 13, "\n"@);
    }
    if v.inner is Rms {
        let q0 = Seq::<Seq<char>>::empty();
        let q1 = q0.push(with_vad_head(out, v, t));
        text::lemma_strung_push(q0, with_vad_head(out, v, t));
        let q2 = q1.push("- rms_threshold: "@);
        text::lemma_strung_push(q1, "- rms_threshold: "@);
        let q3 = q2.push(t.rms_threshold@);
        text::lemma_strung_push(q2, t.rms_threshold@);
        let q4 = q3.push("\n- rms_silence_sec: 0.4\n- rms_max_buffer_sec: "@);
        text::lemma_strung_push(q3, "\n- rms_silence_sec: 0.4\n- rms_max_buffer_sec: "@);
        let q5 = q4.push(t.rms_max_buffer_sec@);
        text::lemma_strung_push(q4, t.rms_max_buffer_sec@);
        let q6 = q5.push("\n"@);
        text::lemma_strung_push(q5, "\n"@);
        assert(text::strung(q1) =~= with_vad_head(out, v, t));
        assert(text::strung(q6) == with_vad_report(out, v, t));
        reveal_strlit("\n- rms_silence_sec: 0.4\n- rms_max_buffer_sec: ");
        reveal_strlit("\n");
        assert("\n- rms_silence_sec: 0.4\n- rms_max_buffer_sec: "@.subrange(0, "\n"@.len() as int) =~= "\n"@);
        text::lemma_strung_line(q6, 1, "\n"@);
        assert("\n"@.subrange(0, "\n"@.len() as int) =~= "\n"@);
        text::lemma_strung_line(q6, 3, "\n"@);
        reveal_strlit("\n- rms_silence_sec: 0.4\n- rms_max_buffer_sec: ");
        reveal_strlit("\n- rms_silence_sec: 0.4\n");
        let label = "\n- rms_silence_sec: 0.4\n- rms_max_buffer_sec: "@;
        let line = "\n- rms_silence_sec: 0.4\n"@;
        let e = Seq::<char>::empty();
        let rest = label.skip(line.len() as int) + t.rms_max_buffer_sec@ + "\n"@;
        assert(label.subrange(0, line.len() as int) =~= line);
        assert(e + line + rest =~= label + t.rms_max_buffer_sec@ + "\n"@);
        text::lemma_occurs_part(with_vad_report(out, v, t), e, line, rest);
    }
}

/// While they wait the slots show which backend listens and whether it hears
/// somebody, and how long the last segment was if there was one.
pub proof fn law_status_tells_who_listens<T>(
    v: VadView<T>,
    detected: bool,
    last: Seq<char>,
    gathered: Seq<char>,
)
    ensures
        ({
            let s = status_text(v, detected, last, gathered);
            let tail = if v.last_segment_samples > 0 {
                " · 最近 "@ + last + "s）"@
            } else {
                "）"@
            };
            &&& v.inner is Disabled ==> s == "（离线 VAD 未启用）"@
            &&& v.inner is Silero && detected ==> s == "（Silero·检测中"@ + tail
            &&& v.inner is Silero && !detected ==> s == "（Silero·等待语音"@ + tail
            &&& v.inner matches ImplView::Rms(state) ==> {
                &&& state.speaking ==> s == "（RMS·检测中 "@ + gathered + "s"@ + tail
                &&& !state.speaking ==> s == "（RMS·等待语音"@ + tail
            }
        }),
{
    reveal_strlit("s）");
    reveal_strlit("）");
    reveal_strlit("s");
    reveal_strlit("（Silero·检测中");
    reveal_strlit("（Silero·等待语音");
    reveal_strlit("（Silero·");
    reveal_strlit("检测中");
    reveal_strlit("等待语音");
    assert("s）"@ =~= "s"@ + "）"@);
    assert("（Silero·检测中"@ =~= "（Silero·"@ + "检测中"@);
    assert("（Silero·等待语音"@ =~= "（Silero·"@ + "等待语音"@);
    let s = status_text(v, detected, last, gathered);
    let tail = if v.last_segment_samples > 0 {
        " · 最近 "@ + last + "s）"@
    } else {
        "）"@
    };
    match v.inner {
        ImplView::Disabled => {},
        ImplView::Silero => {
            if detected {
                assert(s =~= "（Silero·检测中"@ + tail);
            } else {
                assert(s =~= "（Silero·等待语音"@ + tail);
            }
        },
        ImplView::Rms(state) => {
            if state.speaking {
                assert(s =~= "（RMS·检测中 "@ + gathered + "s"@ + tail);
            } else {
                assert(s =~= "（RMS·等待语音"@ + tail);
            }
        },
    }
}

/// Without a recogniser that needs one no backend is in use, whatever is set; else
/// the one that is named, the model by default, and any other name is refused.
pub proof fn law_setting_picks_the_backend(name: Seq<char>)
    requires
        name.len() > 0 && !text::is_space(name[0]) && !text::is_space(name.last()),
    ensures
        chosen_backend(false, Some(name)) == Ok::<VadBackend, Seq<char>>(VadBackend::Disabled),
        chosen_backend(false, None) == Ok::<VadBackend, Seq<char>>(VadBackend::Disabled),
        chosen_backend(true, None) == Ok::<VadBackend, Seq<char>>(VadBackend::Silero),
        text::lower_text(name) == "silero"@ ==> chosen_backend(true, Some(name)) == Ok::<
            VadBackend,
            Seq<char>,
        >(VadBackend::Silero),
        text::lower_text(name) == "rms"@ ==> chosen_backend(true, Some(name)) == Ok::<
            VadBackend,
            Seq<char>,
        >(VadBackend::Rms),
        text::lower_text(name) != "silero"@ && text::lower_text(name) != "rms"@ ==> chosen_backend(
            true,
            Some(name),
        ) == Err::<VadBackend, Seq<char>>(text::lower_text(name)),
{
    let e = Seq::<char>::empty();
    law_backends_have_names(e, name, e);
    assert(e + name + e =~= name);
    reveal_strlit("silero");
    reveal_strlit("rms");
    assert("silero"@.len() != "rms"@.len());
}

} // verus!
