//! The tap through which the system's sound is recorded.
//!
//! A tap is set up in phases, most of which acquire something that has to be
//! released again. The caller makes the calls into the audio system; what comes
//! next, what is released after a failure, and what is done with each block of
//! samples is decided here.

use vstd::prelude::*;
use vstd::string::*;

use crate::number;
use crate::system_audio::watchdog;
use crate::system_audio::watchdog::SilenceWatchdog;
use crate::text;

verus! {

/// Samples a second that a recording delivers.
pub const TARGET_SAMPLE_RATE: u32 = 16_000;

/// Blocks that wait at most to be fetched.
pub const TAP_SAMPLE_CHANNEL_CAPACITY: usize = 256;

/// After how many milliseconds of zeros a tap is dead.
pub const TAP_REBUILD_SILENCE_MS: u64 = 2_000;

/// Of how many dropped blocks one is reported.
pub const DROPPED_FRAME_WARN_EVERY: u64 = 250;

/// What the device that holds the tap is found by.
pub const CAPTURE_AGGREGATE_UID: &'static str = "com.arcvoice.capture";

/// What that device is called.
pub const CAPTURE_AGGREGATE_NAME: &'static str = "ArcVoice Capture";

/// What the tap is called.
pub const TAP_NAME: &'static str = "ArcVoice System Capture";

/// What is said where there are no taps.
pub const TAP_UNSUPPORTED: &'static str = "系统音频 tap 需要 macOS 14.4 或更高版本";

/// The format of samples that are not compressed.
pub const FORMAT_LINEAR_PCM: u32 = 0x6c70_636d;

/// The bytes of one sample.
pub const SAMPLE_BYTES: u32 = 4;

/// How many buffers of a block are described at most.
pub const DESCRIBED_BUFFERS: usize = 8;

/// The system has taps: from version 14.4 on.
pub open spec fn has_taps(major: int, minor: int) -> bool {
    major > 14 || (major == 14 && minor >= 4)
}

/// Whether the system has taps: from version 14.4 on.
pub fn is_process_tap_supported(major: i64, minor: i64) -> (r: bool)
    ensures
        r == has_taps(major as int, minor as int),
{
    major > 14 || (major == 14 && minor >= 4)
}

// ─── Setting up and tearing down ───────────────────────────────────────

/// What a tap holds.
#[derive(Clone, Copy, Debug, PartialEq, Eq, Structural)]
pub enum TapResource {
    ProcessTap,
    AggregateDevice,
    CallbackState,
    IoProc,
}

/// Where the set-up of a tap stands: what is done next.
#[derive(Clone, Copy, Debug, PartialEq, Eq, Structural)]
pub enum TapPhase {
    FindProcess,
    CreateTap,
    CreateAggregate,
    ReadFormat,
    CreateIoProc,
    StartDevice,
    Running,
    Failed,
}

/// What a phase acquires if it works.
pub open spec fn gained(phase: TapPhase) -> Seq<TapResource> {
    match phase {
        TapPhase::CreateTap => seq![TapResource::ProcessTap],
        TapPhase::CreateAggregate => seq![TapResource::AggregateDevice],
        TapPhase::ReadFormat => seq![TapResource::CallbackState],
        TapPhase::CreateIoProc => seq![TapResource::IoProc],
        _ => Seq::empty(),
    }
}

/// The phase after one that worked.
pub open spec fn next_phase(phase: TapPhase) -> TapPhase {
    match phase {
        TapPhase::FindProcess => TapPhase::CreateTap,
        TapPhase::CreateTap => TapPhase::CreateAggregate,
        TapPhase::CreateAggregate => TapPhase::ReadFormat,
        TapPhase::ReadFormat => TapPhase::CreateIoProc,
        TapPhase::CreateIoProc => TapPhase::StartDevice,
        TapPhase::StartDevice => TapPhase::Running,
        TapPhase::Running => TapPhase::Running,
        TapPhase::Failed => TapPhase::Failed,
    }
}

/// What a tap holds in a phase, in the order in which it was acquired.
pub open spec fn held(phase: TapPhase) -> Seq<TapResource> {
    match phase {
        TapPhase::FindProcess => Seq::empty(),
        TapPhase::CreateTap => Seq::empty(),
        TapPhase::CreateAggregate => seq![TapResource::ProcessTap],
        TapPhase::ReadFormat => seq![TapResource::ProcessTap, TapResource::AggregateDevice],
        TapPhase::CreateIoProc => seq![
            TapResource::ProcessTap,
            TapResource::AggregateDevice,
            TapResource::CallbackState,
        ],
        TapPhase::StartDevice => seq![
            TapResource::ProcessTap,
            TapResource::AggregateDevice,
            TapResource::CallbackState,
            TapResource::IoProc,
        ],
        TapPhase::Running => seq![
            TapResource::ProcessTap,
            TapResource::AggregateDevice,
            TapResource::CallbackState,
            TapResource::IoProc,
        ],
        TapPhase::Failed => Seq::empty(),
    }
}

/// The call that a phase makes.
pub open spec fn operation_of(phase: TapPhase) -> Seq<char> {
    match phase {
        TapPhase::FindProcess => "AudioObjectGetPropertyData(u32)"@,
        TapPhase::CreateTap => "AudioHardwareCreateProcessTap"@,
        TapPhase::CreateAggregate => "AudioHardwareCreateAggregateDevice"@,
        TapPhase::ReadFormat => "AudioObjectGetPropertyData(tap format)"@,
        TapPhase::CreateIoProc => "AudioDeviceCreateIOProcID"@,
        TapPhase::StartDevice => "AudioDeviceStart"@,
        TapPhase::Running => ""@,
        TapPhase::Failed => ""@,
    }
}

impl TapPhase {
    /// The call that the phase makes.
    pub fn operation(self) -> (r: &'static str)
        ensures
            r@ == operation_of(self),
    {
        match self {
            TapPhase::FindProcess => "AudioObjectGetPropertyData(u32)",
            TapPhase::CreateTap => "AudioHardwareCreateProcessTap",
            TapPhase::CreateAggregate => "AudioHardwareCreateAggregateDevice",
            TapPhase::ReadFormat => "AudioObjectGetPropertyData(tap format)",
            TapPhase::CreateIoProc => "AudioDeviceCreateIOProcID",
            TapPhase::StartDevice => "AudioDeviceStart",
            TapPhase::Running => "",
            TapPhase::Failed => "",
        }
    }

    /// The phase that follows, and what has to be released now, in order:
    /// nothing if the phase worked, everything that is held if it failed.
    pub fn advance(self, worked: bool) -> (r: (TapPhase, Vec<TapResource>))
        ensures
            r.0 == (if worked {
                next_phase(self)
            } else {
                TapPhase::Failed
            }),
            r.1@ == (if worked {
                Seq::empty()
            } else {
                held(self).reverse()
            }),
    {
        if worked {
            let next = match self {
                TapPhase::FindProcess => TapPhase::CreateTap,
                TapPhase::CreateTap => TapPhase::CreateAggregate,
                TapPhase::CreateAggregate => TapPhase::ReadFormat,
                TapPhase::ReadFormat => TapPhase::CreateIoProc,
                TapPhase::CreateIoProc => TapPhase::StartDevice,
                TapPhase::StartDevice => TapPhase::Running,
                TapPhase::Running => TapPhase::Running,
                TapPhase::Failed => TapPhase::Failed,
            };
            return (next, Vec::new());
        }
        let mut release: Vec<TapResource> = Vec::new();
        match self {
            TapPhase::FindProcess => {},
            TapPhase::CreateTap => {},
            TapPhase::CreateAggregate => {
                release.push(TapResource::ProcessTap);
            },
            TapPhase::ReadFormat => {
                release.push(TapResource::AggregateDevice);
                release.push(TapResource::ProcessTap);
            },
            TapPhase::CreateIoProc => {
                release.push(TapResource::CallbackState);
                release.push(TapResource::AggregateDevice);
                release.push(TapResource::ProcessTap);
            },
            TapPhase::StartDevice => {
                release.push(TapResource::IoProc);
                release.push(TapResource::CallbackState);
                release.push(TapResource::AggregateDevice);
                release.push(TapResource::ProcessTap);
            },
            TapPhase::Running => {
                release.push(TapResource::IoProc);
                release.push(TapResource::CallbackState);
                release.push(TapResource::AggregateDevice);
                release.push(TapResource::ProcessTap);
            },
            TapPhase::Failed => {},
        }
        proof {
            assert(release@ =~= held(self).reverse());
        }
        (TapPhase::Failed, release)
    }
}

/// A step of taking a running tap down.
#[derive(Clone, Copy, Debug, PartialEq, Eq, Structural)]
pub enum TeardownStep {
    /// Tell the callback to ignore further blocks.
    MarkClosing,
    StopDevice,
    /// Release this.
    Release(TapResource),
    /// Leave this allocated: a late callback may still read it.
    Leak(TapResource),
}

/// How a tap is taken down.
pub open spec fn teardown(started: bool) -> Seq<TeardownStep> {
    let rest = seq![
        TeardownStep::Release(TapResource::IoProc),
        TeardownStep::Leak(TapResource::CallbackState),
        TeardownStep::Release(TapResource::AggregateDevice),
        TeardownStep::Release(TapResource::ProcessTap),
    ];
    if started {
        seq![TeardownStep::MarkClosing, TeardownStep::StopDevice] + rest
    } else {
        seq![TeardownStep::MarkClosing] + rest
    }
}

/// How a tap is taken down.
pub fn teardown_steps(started: bool) -> (r: Vec<TeardownStep>)
    ensures
        r@ == teardown(started),
{
    let mut steps: Vec<TeardownStep> = Vec::new();
    steps.push(TeardownStep::MarkClosing);
    if started {
        steps.push(TeardownStep::StopDevice);
    }
    steps.push(TeardownStep::Release(TapResource::IoProc));
    steps.push(TeardownStep::Leak(TapResource::CallbackState));
    steps.push(TeardownStep::Release(TapResource::AggregateDevice));
    steps.push(TeardownStep::Release(TapResource::ProcessTap));
    proof {
        assert(steps@ =~= teardown(started));
    }
    steps
}

/// The device that holds the tap, as it is asked for.
pub struct AggregatePlan {
    pub name: &'static str,
    pub uid: &'static str,
    /// Other programs do not see it.
    pub private: bool,
    /// The output that it follows.
    pub main_sub_device: String,
    pub tap_uid: String,
    pub drift_compensation: bool,
    pub auto_start: bool,
}

/// The device is called and listed as the one that captures, for this program
/// alone, starts with its tap and follows its clock.
pub open spec fn is_capture_device(plan: AggregatePlan) -> bool {
    &&& plan.name@ == "ArcVoice Capture"@
    &&& is_capture_uid(plan.uid@)
    &&& plan.private
    &&& plan.drift_compensation
    &&& plan.auto_start
}

/// The UID of the device that captures.
pub open spec fn is_capture_uid(uid: Seq<char>) -> bool {
    uid == "com.arcvoice.capture"@
}

/// A block is taken: while nothing has stopped, and if it has a buffer.
pub open spec fn block_is_taken(callback_stopped: bool, session_stopped: bool, buffers: nat) -> bool {
    !callback_stopped && !session_stopped && buffers > 0
}

/// The output that a tap follows: the one that was chosen, else the default,
/// and what is said if that cannot be told.
pub open spec fn chosen_output(
    chosen: Option<Seq<char>>,
    default: Result<Seq<char>, Seq<char>>,
) -> Result<Seq<char>, Seq<char>> {
    match chosen {
        Some(uid) => Ok(uid),
        None => default,
    }
}

/// Plans the device for the tap `tap_uid`. `default` is the default output, or
/// what is said if it cannot be told; it is looked at only where none was
/// chosen.
pub fn plan_aggregate(
    chosen: Option<&str>,
    default: Result<String, String>,
    tap_uid: String,
) -> (r: Result<AggregatePlan, String>)
    ensures
        ({
            let output = chosen_output(
                match chosen {
                    Some(uid) => Some(uid@),
                    None => None,
                },
                match default {
                    Ok(uid) => Ok(uid@),
                    Err(e) => Err(e@),
                },
            );
            match r {
                Ok(plan) => output == Ok::<Seq<char>, Seq<char>>(plan.main_sub_device@)
                    && plan.tap_uid == tap_uid && is_capture_device(plan),
                Err(e) => output == Err::<Seq<char>, Seq<char>>(e@),
            }
        }),
{
    let main_sub_device = match chosen {
        Some(uid) => uid.to_owned(),
        None => match default {
            Ok(uid) => uid,
            Err(e) => return Err(e),
        },
    };
    Ok(
        AggregatePlan {
            name: CAPTURE_AGGREGATE_NAME,
            uid: CAPTURE_AGGREGATE_UID,
            private: true,
            main_sub_device,
            tap_uid,
            drift_compensation: true,
            auto_start: true,
        },
    )
}

/// Whether a device is left over from an earlier run; `uid` is what it is
/// found by, if that can be told.
pub fn is_left_over(uid: Option<&str>) -> (r: bool)
    ensures
        r == (match uid {
            Some(u) => is_capture_uid(u@),
            None => false,
        }),
{
    match uid {
        Some(u) => text::same_text(u, CAPTURE_AGGREGATE_UID),
        None => false,
    }
}

// ─── The format ────────────────────────────────────────────────────────

/// The format of a tap, as far as it matters.
#[derive(Clone, Copy, Debug)]
pub struct TapFormat {
    /// Samples a second are not none or fewer.
    pub rate_is_positive: bool,
    /// Samples a second, rounded.
    pub rate: u32,
    pub channels: u32,
    pub format_id: u32,
    pub format_flags: u32,
    pub bytes_per_frame: u32,
    pub bits_per_channel: u32,
}

/// Why the format of a tap cannot be taken.
#[derive(Clone, Copy, Debug, PartialEq, Eq, Structural)]
pub enum FormatError {
    /// It has no rate or no channel.
    Invalid,
    /// Its samples are not single-precision numbers.
    NotFloatPcm,
}

impl FormatError {
    /// What is said of it, in front of the format.
    pub fn message(self) -> (r: &'static str)
        ensures
            self == FormatError::Invalid ==> r@ == "tap returned invalid format: "@,
            self == FormatError::NotFloatPcm ==> r@ == "tap format is not f32 linear PCM: "@,
    {
        match self {
            FormatError::Invalid => "tap returned invalid format: ",
            FormatError::NotFloatPcm => "tap format is not f32 linear PCM: ",
        }
    }
}

/// Whether the format of a tap can be taken, or why not.
pub open spec fn format_taken(f: TapFormat) -> Result<(), FormatError> {
    if !f.rate_is_positive || f.channels == 0 {
        Err(FormatError::Invalid)
    } else if f.format_id != FORMAT_LINEAR_PCM || f.format_flags % 2 == 0 || f.bits_per_channel
        != 32 {
        Err(FormatError::NotFloatPcm)
    } else {
        Ok(())
    }
}

/// Whether the format of a tap can be taken. The lowest flag marks
/// floating-point samples.
pub fn check_tap_format(f: &TapFormat) -> (r: Result<(), FormatError>)
    ensures
        r == format_taken(*f),
{
    if !f.rate_is_positive || f.channels == 0 {
        return Err(FormatError::Invalid);
    }
    if f.format_id != FORMAT_LINEAR_PCM || f.format_flags % 2 == 0 || f.bits_per_channel != 32 {
        return Err(FormatError::NotFloatPcm);
    }
    Ok(())
}

// ─── Blocks of samples ─────────────────────────────────────────────────

/// Whether a block is taken at all.
pub fn takes_block(callback_stopped: bool, session_stopped: bool, buffers: u32) -> (r: bool)
    ensures
        r == block_is_taken(callback_stopped, session_stopped, buffers as nat),
{
    !callback_stopped && !session_stopped && buffers > 0
}

/// One buffer of a block.
#[derive(Clone, Copy, Debug)]
pub struct BufferShape {
    /// There is memory behind it.
    pub has_data: bool,
    pub bytes: u32,
    /// Channels that alternate in it, zero if that is not told.
    pub channels: u32,
    /// Every sample of it is zero.
    pub all_zero: bool,
}

/// The samples of a buffer.
pub open spec fn samples_of(b: BufferShape) -> nat {
    (b.bytes / SAMPLE_BYTES) as nat
}

/// The channels of a buffer among `count` buffers.
pub open spec fn channels_of(b: BufferShape, count: nat, fallback: nat) -> nat {
    if b.channels > 0 {
        b.channels as nat
    } else if count == 1 {
        if fallback > 1 {
            fallback
        } else {
            1
        }
    } else {
        1
    }
}

/// A buffer that is mixed in: its place, its channels, its frames.
#[derive(Clone, Copy, Debug, PartialEq, Eq, Structural)]
pub struct MixPart {
    pub buffer: usize,
    pub channels: usize,
    pub frames: usize,
}

/// A buffer has at least one whole frame.
pub open spec fn is_mixed(b: BufferShape, count: nat, fallback: nat) -> bool {
    b.has_data && samples_of(b) / channels_of(b, count, fallback) > 0
}

/// The buffers with at least one whole frame, among the first `n`.
pub open spec fn mix_parts(buffers: Seq<BufferShape>, fallback: nat, n: nat) -> Seq<MixPart>
    decreases n,
{
    if n == 0 {
        Seq::empty()
    } else {
        let before = mix_parts(buffers, fallback, (n - 1) as nat);
        let b = buffers[n - 1];
        let channels = channels_of(b, buffers.len(), fallback);
        if is_mixed(b, buffers.len(), fallback) {
            before.push(
                MixPart {
                    buffer: (n - 1) as usize,
                    channels: channels as usize,
                    frames: (samples_of(b) / channels) as usize,
                },
            )
        } else {
            before
        }
    }
}

/// The frames that all parts have.
pub open spec fn fewest_frames(parts: Seq<MixPart>) -> nat
    decreases parts.len(),
{
    if parts.len() == 0 {
        0
    } else if parts.len() == 1 {
        parts[0].frames as nat
    } else {
        let before = fewest_frames(parts.drop_last());
        if parts.last().frames < before {
            parts.last().frames as nat
        } else {
            before
        }
    }
}

/// The channels of all parts together.
pub open spec fn all_channels(parts: Seq<MixPart>) -> nat
    decreases parts.len(),
{
    if parts.len() == 0 {
        0
    } else {
        all_channels(parts.drop_last()) + parts.last().channels as nat
    }
}

/// Every buffer that is mixed in holds nothing but zeros.
pub open spec fn parts_all_zero(buffers: Seq<BufferShape>, parts: Seq<MixPart>) -> bool {
    forall|i: int| 0 <= i < parts.len() ==> buffers[(#[trigger] parts[i]).buffer as int].all_zero
}

/// How a block becomes one channel: frame `i` is the mean of the `channels`
/// samples of each part from `i * channels` on.
pub struct MixPlan {
    pub parts: Vec<MixPart>,
    pub frames: usize,
    /// By how much the sum of a frame is divided.
    pub total_channels: u64,
    pub all_zero: bool,
}

proof fn lemma_mix_parts(buffers: Seq<BufferShape>, fallback: nat, n: nat)
    requires
        n <= buffers.len(),
        buffers.len() <= u32::MAX,
    ensures
        mix_parts(buffers, fallback, n).len() <= n,
        forall|i: int|
            #![trigger mix_parts(buffers, fallback, n)[i]]
            0 <= i < mix_parts(buffers, fallback, n).len() ==> {
                let p = mix_parts(buffers, fallback, n)[i];
                let b = buffers[p.buffer as int];
                &&& p.buffer < n
                &&& is_mixed(b, buffers.len(), fallback)
                &&& 0 < p.frames
                &&& 0 < p.channels <= u32::MAX
                &&& p.frames * p.channels <= samples_of(b)
            },
        all_channels(mix_parts(buffers, fallback, n)) <= n * u32::MAX,
    decreases n,
{
    if n > 0 {
        lemma_mix_parts(buffers, fallback, (n - 1) as nat);
        let b = buffers[n - 1];
        let before = mix_parts(buffers, fallback, (n - 1) as nat);
        let parts = mix_parts(buffers, fallback, n);
        let channels = channels_of(b, buffers.len(), fallback);
        let samples = samples_of(b);
        if is_mixed(b, buffers.len(), fallback) {
            assert(channels <= samples && samples / channels <= samples && (samples / channels)
                * channels <= samples) by (nonlinear_arith)
                requires
                    channels > 0,
                    samples / channels > 0,
            ;
            assert(parts.drop_last() =~= before);
        }
        assert((n - 1) * u32::MAX + u32::MAX == n * u32::MAX) by (nonlinear_arith);
    }
}

/// Plans how the buffers of a block become one channel. `fallback_channels` is
/// taken for a single buffer that does not tell its channels. There is no plan
/// if no buffer has a whole frame.
pub fn plan_mix(buffers: &[BufferShape], fallback_channels: usize) -> (r: Option<MixPlan>)
    requires
        buffers@.len() <= u32::MAX,
    ensures
        ({
            let parts = mix_parts(buffers@, fallback_channels as nat, buffers@.len());
            match r {
                None => parts.len() == 0,
                Some(plan) => {
                    &&& parts.len() > 0
                    &&& plan.parts@ == parts
                    &&& plan.frames == fewest_frames(parts)
                    &&& plan.total_channels == all_channels(parts)
                    &&& plan.all_zero == parts_all_zero(buffers@, parts)
                },
            }
        }),
{
    let count: usize = buffers.len();
    let mut parts: Vec<MixPart> = Vec::new();
    let mut frames: usize = 0;
    let mut total_channels: u64 = 0;
    let mut all_zero = true;
    let mut i: usize = 0;
    while i < count
        invariant
            i <= count == buffers@.len(),
            count <= u32::MAX,
            parts@ == mix_parts(buffers@, fallback_channels as nat, i as nat),
            frames == fewest_frames(parts@),
            total_channels == all_channels(parts@),
            all_zero == parts_all_zero(buffers@, parts@),
        decreases count - i,
    {
        proof {
            lemma_mix_parts(buffers@, fallback_channels as nat, i as nat);
            lemma_mix_parts(buffers@, fallback_channels as nat, (i + 1) as nat);
            assert((i + 1) * u32::MAX <= u64::MAX) by (nonlinear_arith)
                requires
                    i < u32::MAX,
            ;
        }
        let b = buffers[i];
        let samples: usize = (b.bytes / SAMPLE_BYTES) as usize;
        let channels: usize = if b.channels > 0 {
            b.channels as usize
        } else if count == 1 && fallback_channels > 1 {
            fallback_channels
        } else {
            1
        };
        if b.has_data && samples / channels > 0 {
            let part = MixPart { buffer: i, channels, frames: samples / channels };
            let ghost before = parts@;
            if parts.len() == 0 || part.frames < frames {
                frames = part.frames;
            }
            parts.push(part);
            proof {
                assert(parts@.drop_last() =~= before);
                assert(parts@ == mix_parts(buffers@, fallback_channels as nat, (i + 1) as nat));
            }
            total_channels = total_channels + channels as u64;
            proof {
                assert(parts@.last() == part);
                if parts_all_zero(buffers@, before) && b.all_zero {
                    assert forall|j: int| 0 <= j < parts@.len() implies buffers@[(
                    #[trigger] parts@[j]).buffer as int].all_zero by {
                        if j < before.len() {
                            assert(parts@[j] == before[j]);
                        }
                    }
                } else if !b.all_zero {
                    assert(!buffers@[parts@[parts@.len() - 1].buffer as int].all_zero);
                } else {
                    let j = choose|j: int|
                        0 <= j < before.len() && !buffers@[(
                        #[trigger] before[j]).buffer as int].all_zero;
                    assert(parts@[j] == before[j]);
                }
            }
            all_zero = all_zero && b.all_zero;
        }
        i = i + 1;
    }
    if parts.len() == 0 {
        return None;
    }
    Some(MixPlan { parts, frames, total_channels, all_zero })
}

/// The milliseconds of a block, at least one.
pub open spec fn block_ms(frames: nat, rate: u32) -> nat {
    let per_second = if rate == 0 {
        1nat
    } else {
        rate as nat
    };
    let ms = frames * 1000 / per_second;
    if ms == 0 {
        1
    } else {
        ms
    }
}

/// The milliseconds of a block of `frames` frames, at least one.
pub fn frame_ms(frames: usize, rate: u32) -> (r: u64)
    requires
        frames * 1000 <= u64::MAX,
    ensures
        r == block_ms(frames as nat, rate),
{
    let per_second: u64 = if rate == 0 {
        1
    } else {
        rate as u64
    };
    let ms: u64 = frames as u64 * 1000 / per_second;
    if ms == 0 {
        1
    } else {
        ms
    }
}

/// The loss of a block is reported: the first, and then every so many.
pub open spec fn drop_is_told(dropped: nat) -> bool {
    dropped == 1 || dropped % DROPPED_FRAME_WARN_EVERY as nat == 0
}

/// Whether the loss of a block is reported: the first, and then every so many.
pub fn reports_drop(dropped: u64) -> (r: bool)
    ensures
        r == drop_is_told(dropped as nat),
{
    dropped == 1 || dropped % DROPPED_FRAME_WARN_EVERY == 0
}

/// What is said of one buffer.
pub open spec fn buffer_text(index: nat, b: BufferShape) -> Seq<char> {
    "#"@ + number::dec(index) + ":ch="@ + number::dec(b.channels as nat) + " bytes="@ + number::dec(
        b.bytes as nat,
    ) + " samples="@ + number::dec(samples_of(b)) + " zero="@ + (if b.all_zero || !b.has_data
        || samples_of(b) == 0 {
        "true"@
    } else {
        "false"@
    })
}

/// What is said of the buffers of a block, as far as they are described.
pub open spec fn buffer_texts(buffers: Seq<BufferShape>) -> Seq<Seq<char>> {
    Seq::new(
        if buffers.len() < DESCRIBED_BUFFERS {
            buffers.len()
        } else {
            DESCRIBED_BUFFERS as nat
        },
        |i: int| buffer_text(i as nat, buffers[i]),
    )
}

/// What is said of the buffers of a block.
pub fn describe_buffers(buffers: &[BufferShape]) -> (r: String)
    ensures
        r@ == text::joined(buffer_texts(buffers@), "; "@),
{
    let n: usize = if buffers.len() < DESCRIBED_BUFFERS {
        buffers.len()
    } else {
        DESCRIBED_BUFFERS
    };
    let ghost all = buffer_texts(buffers@);
    let mut parts: Vec<String> = Vec::new();
    let mut i: usize = 0;
    proof {
        assert(text::texts(parts@) =~= all.take(0));
    }
    while i < n
        invariant
            i <= n <= buffers@.len(),
            n == all.len(),
            all == buffer_texts(buffers@),
            text::texts(parts@) == all.take(i as int),
        decreases n - i,
    {
        let b = buffers[i];
        let ghost before = text::texts(parts@);
        let mut out = "#".to_owned();
        out.append(number::size_text(i).as_str());
        out.append(":ch=");
        out.append(number::dec_text(b.channels as u64).as_str());
        out.append(" bytes=");
        out.append(number::dec_text(b.bytes as u64).as_str());
        out.append(" samples=");
        out.append(number::dec_text((b.bytes / SAMPLE_BYTES) as u64).as_str());
        out.append(" zero=");
        out.append(
            if b.all_zero || !b.has_data || b.bytes / SAMPLE_BYTES == 0 {
                "true"
            } else {
                "false"
            },
        );
        parts.push(out);
        proof {
            assert(text::texts(parts@) =~= before.push(out@));
            assert(all.take(i + 1) =~= before.push(all[i as int]));
        }
        i = i + 1;
    }
    proof {
        assert(all.take(n as int) =~= all);
    }
    text::join_texts(parts.as_slice(), "; ")
}

// ─── The callback ──────────────────────────────────────────────────────

/// What the callback of a running tap remembers from one block to the next.
pub struct TapState {
    /// Samples a second that the tap delivers.
    pub rate: u32,
    /// Channels that the tap delivers, at least one.
    pub channels: usize,
    /// The buffers of a block were described once.
    pub layout_logged: bool,
    pub watchdog: SilenceWatchdog,
    pub dropped_frames: u64,
}

/// What is done with a block.
pub struct BlockOutcome {
    /// The buffers, described, for the first block.
    pub layout: Option<String>,
    /// How the block becomes one channel; it is dropped without a plan.
    pub mix: Option<MixPlan>,
    /// The tap has to be set up anew.
    pub rebuild: bool,
}

/// The state after a block was looked at.
pub open spec fn block_observed(s: TapState, buffers: Seq<BufferShape>) -> TapState {
    let parts = mix_parts(buffers, s.channels as nat, buffers.len());
    TapState {
        layout_logged: true,
        watchdog: if parts.len() == 0 {
            s.watchdog
        } else {
            watchdog::observed(
                s.watchdog,
                parts_all_zero(buffers, parts),
                block_ms(fewest_frames(parts), s.rate),
            )
        },
        ..s
    }
}

/// The block can be counted: its milliseconds fit, and so do those of silence.
pub open spec fn block_fits(s: TapState, buffers: Seq<BufferShape>) -> bool {
    let frames = fewest_frames(mix_parts(buffers, s.channels as nat, buffers.len()));
    &&& buffers.len() <= u32::MAX
    &&& s.watchdog.accumulated_silent_ms + block_ms(frames, s.rate) <= u64::MAX
}

proof fn lemma_frames_fit(buffers: Seq<BufferShape>, fallback: nat)
    requires
        buffers.len() <= u32::MAX,
    ensures
        fewest_frames(mix_parts(buffers, fallback, buffers.len())) <= u32::MAX,
{
    let parts = mix_parts(buffers, fallback, buffers.len());
    lemma_mix_parts(buffers, fallback, buffers.len());
    if parts.len() > 0 {
        lemma_fewest(parts, 0);
        let p = parts[0];
        assert(p.frames <= p.frames * p.channels) by (nonlinear_arith)
            requires
                p.channels > 0,
        ;
    }
}

impl TapState {
    /// The state of a tap that starts, with the format it was read to have.
    pub fn new(format: &TapFormat) -> (r: TapState)
        ensures
            r == (TapState {
                rate: format.rate,
                channels: if format.channels == 0 {
                    1
                } else {
                    format.channels as usize
                },
                layout_logged: false,
                watchdog: SilenceWatchdog {
                    dead_ms_threshold: TAP_REBUILD_SILENCE_MS,
                    accumulated_silent_ms: 0,
                    has_seen_signal: false,
                },
                dropped_frames: 0,
            }),
    {
        TapState {
            rate: format.rate,
            channels: if format.channels == 0 {
                1
            } else {
                format.channels as usize
            },
            layout_logged: false,
            watchdog: SilenceWatchdog::new(TAP_REBUILD_SILENCE_MS),
            dropped_frames: 0,
        }
    }

    /// Takes a block; nothing happens to one that comes after the end.
    pub fn on_block(
        &mut self,
        callback_stopped: bool,
        session_stopped: bool,
        buffers: &[BufferShape],
    ) -> (r: BlockOutcome)
        requires
            block_fits(*old(self), buffers@),
        ensures
            ({
                let parts = mix_parts(buffers@, old(self).channels as nat, buffers@.len());
                if callback_stopped || session_stopped || buffers@.len() == 0 {
                    &&& *final(self) == *old(self)
                    &&& r.layout is None
                    &&& r.mix is None
                    &&& !r.rebuild
                } else {
                    &&& *final(self) == block_observed(*old(self), buffers@)
                    &&& match r.layout {
                        Some(t) => !old(self).layout_logged && t@ == text::joined(
                            buffer_texts(buffers@),
                            "; "@,
                        ),
                        None => old(self).layout_logged,
                    }
                    &&& match r.mix {
                        Some(plan) => parts.len() > 0 && plan.parts@ == parts && plan.frames
                            == fewest_frames(parts) && plan.total_channels == all_channels(parts)
                            && plan.all_zero == parts_all_zero(buffers@, parts),
                        None => parts.len() == 0,
                    }
                    &&& r.rebuild == (parts.len() > 0 && watchdog::is_dead(final(self).watchdog))
                }
            }),
    {
        let count: usize = buffers.len();
        if !takes_block(callback_stopped, session_stopped, count as u32) {
            return BlockOutcome { layout: None, mix: None, rebuild: false };
        }
        let mut layout: Option<String> = None;
        if !self.layout_logged {
            layout = Some(describe_buffers(buffers));
            self.layout_logged = true;
        }
        let mix = plan_mix(buffers, self.channels);
        let mut rebuild = false;
        if let Some(plan) = &mix {
            proof {
                lemma_frames_fit(buffers@, self.channels as nat);
            }
            let ms: u64 = frame_ms(plan.frames, self.rate);
            rebuild = self.watchdog.observe(plan.all_zero, ms);
        }
        BlockOutcome { layout, mix, rebuild }
    }

    /// Counts a block that found no room; tells how many were lost so far if
    /// that is to be reported.
    pub fn on_drop(&mut self) -> (r: Option<u64>)
        requires
            old(self).dropped_frames < u64::MAX,
        ensures
            *final(self) == (TapState {
                dropped_frames: (old(self).dropped_frames + 1) as u64,
                ..*old(self)
            }),
            r == (if drop_is_told((old(self).dropped_frames + 1) as nat) {
                Some((old(self).dropped_frames + 1) as u64)
            } else {
                None
            }),
    {
        self.dropped_frames = self.dropped_frames + 1;
        if reports_drop(self.dropped_frames) {
            Some(self.dropped_frames)
        } else {
            None
        }
    }

    /// Whether a block can be counted.
    pub fn fits(&self, buffers: &[BufferShape]) -> (r: bool)
        ensures
            r == block_fits(*self, buffers@),
    {
        if buffers.len() > 0xffff_ffff {
            return false;
        }
        proof {
            lemma_frames_fit(buffers@, self.channels as nat);
        }
        let frames: usize = match plan_mix(buffers, self.channels) {
            Some(plan) => plan.frames,
            None => 0,
        };
        self.watchdog.has_room(frame_ms(frames, self.rate))
    }
}

// ─── Laws ──────────────────────────────────────────────────────────────

/// What is held grows by exactly what a phase acquires, so nothing is held that
/// no phase acquired and nothing is forgotten.
pub proof fn law_held_is_what_was_acquired(phase: TapPhase)
    ensures
        phase != TapPhase::Failed ==> held(next_phase(phase)) == held(phase) + gained(phase),
        held(TapPhase::FindProcess).len() == 0,
        held(TapPhase::Failed).len() == 0,
{
    if phase != TapPhase::Failed {
        assert(held(next_phase(phase)) =~= held(phase) + gained(phase));
    }
}

/// Every phase that works leads on to a running tap.
pub proof fn law_six_phases_lead_to_a_running_tap()
    ensures
        next_phase(
            next_phase(
                next_phase(next_phase(next_phase(next_phase(TapPhase::FindProcess)))),
            ),
        ) == TapPhase::Running,
{
}

/// Taking a tap down visits everything that a running tap holds, the last
/// acquired first, and stops the device before it releases anything.
pub proof fn law_teardown_visits_everything(started: bool)
    ensures
        ({
            let steps = teardown(started);
            let from = steps.len() - held(TapPhase::Running).len();
            &&& steps[0] == TeardownStep::MarkClosing
            &&& forall|i: int|
                0 <= i < held(TapPhase::Running).len() ==> {
                    let resource = #[trigger] held(TapPhase::Running).reverse()[i];
                    steps[from + i] == TeardownStep::Release(resource) || steps[from + i]
                        == TeardownStep::Leak(resource)
                }
            &&& started ==> steps[1] == TeardownStep::StopDevice && from == 2
        }),
{
}

/// Every frame of a plan lies inside each buffer that is mixed in, and there is
/// at least one frame and one channel.
pub proof fn law_mix_stays_inside_the_buffers(buffers: Seq<BufferShape>, fallback: nat, i: int, frame: nat)
    requires
        buffers.len() <= u32::MAX,
        0 <= i < mix_parts(buffers, fallback, buffers.len()).len(),
        frame < fewest_frames(mix_parts(buffers, fallback, buffers.len())),
    ensures
        ({
            let p = mix_parts(buffers, fallback, buffers.len())[i];
            &&& p.buffer < buffers.len()
            &&& (frame + 1) * p.channels <= samples_of(buffers[p.buffer as int])
            &&& p.channels > 0
        }),
{
    let parts = mix_parts(buffers, fallback, buffers.len());
    lemma_mix_parts(buffers, fallback, buffers.len());
    lemma_fewest(parts, i);
    let p = parts[i];
    assert((frame + 1) * p.channels <= p.frames * p.channels) by (nonlinear_arith)
        requires
            frame + 1 <= p.frames,
    ;
}

proof fn lemma_fewest(parts: Seq<MixPart>, i: int)
    requires
        0 <= i < parts.len(),
    ensures
        fewest_frames(parts) <= parts[i].frames,
    decreases parts.len(),
{
    if parts.len() > 1 && i < parts.len() - 1 {
        lemma_fewest(parts.drop_last(), i);
    }
}

/// A block is never taken for longer than it is, but for blocks shorter than a
/// millisecond, which count as one.
pub proof fn law_block_ms_is_the_duration(frames: nat, rate: u32)
    requires
        rate > 0,
    ensures
        block_ms(frames, rate) >= 1,
        frames * 1000 >= rate ==> block_ms(frames, rate) * rate <= frames * 1000 < (block_ms(
            frames,
            rate,
        ) + 1) * rate,
{
    let n = frames * 1000;
    let r = rate as nat;
    assert(n >= r ==> n / r >= 1) by (nonlinear_arith)
        requires
            r > 0,
    ;
    assert((n / r) * r <= n < (n / r + 1) * r) by (nonlinear_arith)
        requires
            r > 0,
    ;
}

/// A tap that delivers only zeros after a signal is set up anew exactly when
/// the zeros have lasted long enough; blocks without a whole frame do not count.
pub proof fn law_dead_tap_is_rebuilt(s: TapState, buffers: Seq<BufferShape>)
    requires
        block_fits(s, buffers),
        s.watchdog.has_seen_signal,
        mix_parts(buffers, s.channels as nat, buffers.len()).len() > 0,
        parts_all_zero(buffers, mix_parts(buffers, s.channels as nat, buffers.len())),
    ensures
        watchdog::is_dead(block_observed(s, buffers).watchdog)
            <==> s.watchdog.accumulated_silent_ms + block_ms(
            fewest_frames(mix_parts(buffers, s.channels as nat, buffers.len())),
            s.rate,
        ) >= s.watchdog.dead_ms_threshold,
{
}

/// A tap is set up by finding the process, making the tap, the device that holds
/// it, reading its format, making the callback and starting the device, in that
/// order; each step is told by its call.
pub proof fn law_set_up_goes_step_by_step()
    ensures
        next_phase(TapPhase::FindProcess) == TapPhase::CreateTap,
        next_phase(TapPhase::CreateTap) == TapPhase::CreateAggregate,
        next_phase(TapPhase::CreateAggregate) == TapPhase::ReadFormat,
        next_phase(TapPhase::ReadFormat) == TapPhase::CreateIoProc,
        next_phase(TapPhase::CreateIoProc) == TapPhase::StartDevice,
        next_phase(TapPhase::StartDevice) == TapPhase::Running,
        next_phase(TapPhase::Running) == TapPhase::Running,
        next_phase(TapPhase::Failed) == TapPhase::Failed,
        operation_of(TapPhase::CreateTap) == "AudioHardwareCreateProcessTap"@,
        operation_of(TapPhase::CreateAggregate) == "AudioHardwareCreateAggregateDevice"@,
        operation_of(TapPhase::ReadFormat) == "AudioObjectGetPropertyData(tap format)"@,
        operation_of(TapPhase::CreateIoProc) == "AudioDeviceCreateIOProcID"@,
        operation_of(TapPhase::StartDevice) == "AudioDeviceStart"@,
{
}

/// A step that fails releases what was acquired before it, and nothing that was
/// not; a running tap holds all four.
pub proof fn law_failed_step_releases_what_came_before()
    ensures
        held(TapPhase::FindProcess).len() == 0 && held(TapPhase::CreateTap).len() == 0,
        held(TapPhase::CreateAggregate).reverse() == seq![TapResource::ProcessTap],
        held(TapPhase::ReadFormat).reverse() == seq![
            TapResource::AggregateDevice,
            TapResource::ProcessTap,
        ],
        held(TapPhase::CreateIoProc).reverse() == seq![
            TapResource::CallbackState,
            TapResource::AggregateDevice,
            TapResource::ProcessTap,
        ],
        held(TapPhase::StartDevice).reverse() == seq![
            TapResource::IoProc,
            TapResource::CallbackState,
            TapResource::AggregateDevice,
            TapResource::ProcessTap,
        ],
        held(TapPhase::Running) == held(TapPhase::StartDevice),
        held(TapPhase::Failed).len() == 0,
{
    assert(held(TapPhase::CreateAggregate).reverse() =~= seq![TapResource::ProcessTap]);
    assert(held(TapPhase::ReadFormat).reverse() =~= seq![
        TapResource::AggregateDevice,
        TapResource::ProcessTap,
    ]);
    assert(held(TapPhase::CreateIoProc).reverse() =~= seq![
        TapResource::CallbackState,
        TapResource::AggregateDevice,
        TapResource::ProcessTap,
    ]);
    assert(held(TapPhase::StartDevice).reverse() =~= seq![
        TapResource::IoProc,
        TapResource::CallbackState,
        TapResource::AggregateDevice,
        TapResource::ProcessTap,
    ]);
}

/// A tap is taken down by closing the callback, stopping the device if it was
/// started, and releasing all but what a late callback may read, the last acquired
/// first.
pub proof fn law_tear_down_goes_backwards()
    ensures
        teardown(true) == seq![
            TeardownStep::MarkClosing,
            TeardownStep::StopDevice,
            TeardownStep::Release(TapResource::IoProc),
            TeardownStep::Leak(TapResource::CallbackState),
            TeardownStep::Release(TapResource::AggregateDevice),
            TeardownStep::Release(TapResource::ProcessTap),
        ],
        teardown(false) == teardown(true).remove(1),
{
    assert(teardown(true) =~= seq![
        TeardownStep::MarkClosing,
        TeardownStep::StopDevice,
        TeardownStep::Release(TapResource::IoProc),
        TeardownStep::Leak(TapResource::CallbackState),
        TeardownStep::Release(TapResource::AggregateDevice),
        TeardownStep::Release(TapResource::ProcessTap),
    ]);
    assert(teardown(false) =~= teardown(true).remove(1));
}

/// The tap follows the output that was chosen, and the default where none was.
pub proof fn law_tap_follows_the_chosen_output(
    uid: Seq<char>,
    default: Result<Seq<char>, Seq<char>>,
)
    ensures
        chosen_output(Some(uid), default) == Ok::<Seq<char>, Seq<char>>(uid),
        chosen_output(None, default) == default,
{
}

/// Bounds of a tap: two seconds of zeros make it dead, 256 blocks can wait, one of
/// 250 lost blocks is reported, and samples are single-precision at 16 000 a second.
pub proof fn law_bounds_of_a_tap()
    ensures
        TARGET_SAMPLE_RATE == 16_000,
        TAP_SAMPLE_CHANNEL_CAPACITY == 256,
        TAP_REBUILD_SILENCE_MS == 2_000,
        DROPPED_FRAME_WARN_EVERY == 250,
        SAMPLE_BYTES == 4,
        FORMAT_LINEAR_PCM == ((108 * 256 + 112) * 256 + 99) * 256 + 109,
        CAPTURE_AGGREGATE_UID@ == "com.arcvoice.capture"@,
        CAPTURE_AGGREGATE_NAME@ == "ArcVoice Capture"@,
        TAP_UNSUPPORTED@ == "系统音频 tap 需要 macOS 14.4 或更高版本"@,
        DESCRIBED_BUFFERS == 8,
{
}

/// A buffer has a sample for every four bytes, and the channels that it tells of;
/// where it tells of none it has those of the tap if it is alone, and else one.
pub proof fn law_buffers_have_samples_and_channels(
    b: BufferShape,
    samples: nat,
    rest: nat,
    count: nat,
    fallback: nat,
)
    requires
        b.bytes == 4 * samples + rest,
        rest < 4,
    ensures
        samples_of(b) == samples,
        b.channels > 0 ==> channels_of(b, count, fallback) == b.channels,
        b.channels == 0 && count == 1 && fallback >= 1 ==> channels_of(b, count, fallback)
            == fallback,
        b.channels == 0 && count != 1 ==> channels_of(b, count, fallback) == 1,
        b.channels == 0 && fallback == 0 ==> channels_of(b, count, fallback) == 1,
{
}

/// A buffer is mixed in exactly if it has data and at least one whole frame, with
/// its place, its channels and its whole frames; buffers keep their order.
pub proof fn law_buffers_with_a_frame_are_mixed(
    buffers: Seq<BufferShape>,
    fallback: nat,
    n: nat,
    frames: nat,
    rest: nat,
)
    requires
        n < buffers.len(),
        buffers.len() <= u32::MAX,
        ({
            let channels = channels_of(buffers[n as int], buffers.len(), fallback);
            samples_of(buffers[n as int]) == frames * channels + rest && rest < channels
        }),
    ensures
        ({
            let b = buffers[n as int];
            let before = mix_parts(buffers, fallback, n);
            let after = mix_parts(buffers, fallback, n + 1);
            &&& b.has_data && frames > 0 ==> {
                &&& after.len() == before.len() + 1
                &&& after.take(before.len() as int) == before
                &&& after.last().buffer == n
                &&& after.last().channels == channels_of(b, buffers.len(), fallback)
                &&& after.last().frames == frames
            }
            &&& !b.has_data || frames == 0 ==> after == before
        }),
        mix_parts(buffers, fallback, 0).len() == 0,
{
    let b = buffers[n as int];
    let channels = channels_of(b, buffers.len(), fallback);
    let samples = samples_of(b);
    assert(samples / channels == frames) by (nonlinear_arith)
        requires
            samples == frames * channels + rest,
            rest < channels,
    ;
    if b.has_data && frames > 0 {
        assert(channels <= samples && frames <= samples) by (nonlinear_arith)
            requires
                samples == frames * channels + rest,
                frames > 0,
                channels > 0,
        ;
        let before = mix_parts(buffers, fallback, n);
        let after = mix_parts(buffers, fallback, n + 1);
        assert(after.take(before.len() as int) =~= before);
    }
}

/// As many frames come of a block as every part has: no part has fewer, and one
/// has just as many. A frame is divided by the channels of all parts together.
pub proof fn law_block_has_the_frames_of_its_shortest_part(parts: Seq<MixPart>, part: MixPart)
    ensures
        fewest_frames(seq![part]) == part.frames,
        parts.len() > 0 ==> fewest_frames(parts.push(part)) == (if part.frames < fewest_frames(
            parts,
        ) {
            part.frames as nat
        } else {
            fewest_frames(parts)
        }),
        all_channels(Seq::<MixPart>::empty()) == 0,
        all_channels(parts.push(part)) == all_channels(parts) + part.channels,
{
    assert(parts.push(part).drop_last() =~= parts);
}

/// A block is all zeros exactly if every buffer that is mixed in is.
pub proof fn law_one_signal_is_enough(buffers: Seq<BufferShape>, parts: Seq<MixPart>, part: MixPart)
    ensures
        parts_all_zero(buffers, Seq::<MixPart>::empty()),
        parts_all_zero(buffers, parts.push(part)) <==> parts_all_zero(buffers, parts)
            && buffers[part.buffer as int].all_zero,
{
    let all = parts.push(part);
    assert(all[parts.len() as int] == part);
    assert(forall|i: int| 0 <= i < parts.len() ==> all[i] == parts[i]);
}

/// A block of so many milliseconds lasts as long: the rate tells the frames of a
/// second.
pub proof fn law_rate_tells_the_frames_of_a_second(secs: nat, rate: u32)
    requires
        rate > 0,
        secs > 0,
    ensures
        block_ms(secs * rate as nat, rate) == 1000 * secs,
        block_ms(0, rate) == 1,
{
    let r = rate as int;
    let n = secs as int;
    assert((n * r) * 1000 == (1000 * n) * r) by (nonlinear_arith);
    vstd::arithmetic::div_mod::lemma_div_by_multiple(1000 * n, r);
}

/// Each of the first eight buffers is described by its place, its channels, its
/// bytes and its samples, and whether there is anything but zeros in it.
pub proof fn law_buffers_are_described(index: nat, b: BufferShape, buffers: Seq<BufferShape>, i: int)
    ensures
        text::occurs(buffer_text(index, b), "#"@ + number::dec(index) + ":"@),
        text::occurs(buffer_text(index, b), ":ch="@ + number::dec(b.channels as nat) + " "@),
        text::occurs(buffer_text(index, b), " bytes="@ + number::dec(b.bytes as nat) + " "@),
        text::occurs(buffer_text(index, b), " samples="@ + number::dec(samples_of(b)) + " "@),
        text::occurs(
            buffer_text(index, b),
            if b.all_zero || !b.has_data || b.bytes < 4 {
                " zero=true"@
            } else {
                " zero=false"@
            },
        ),
        buffers.len() <= 8 ==> buffer_texts(buffers).len() == buffers.len(),
        buffers.len() > 8 ==> buffer_texts(buffers).len() == 8,
        0 <= i < buffer_texts(buffers).len() ==> buffer_texts(buffers)[i] == buffer_text(
            i as nat,
            buffers[i],
        ),
{
    let head = "#"@ + number::dec(index) + ":ch="@ + number::dec(b.channels as nat) + " bytes="@
        + number::dec(b.bytes as nat) + " samples="@ + number::dec(samples_of(b)) + " zero="@;
    let told = if b.all_zero || !b.has_data || samples_of(b) == 0 {
        "true"@
    } else {
        "false"@
    };
    let last = if b.all_zero || !b.has_data || b.bytes < 4 {
        " zero=true"@
    } else {
        " zero=false"@
    };
    reveal_strlit(" zero=true");
    reveal_strlit(" zero=false");
    reveal_strlit("true");
    reveal_strlit("false");
    let q0 = Seq::<Seq<char>>::empty();
    let q1 = q0.push("#"@);
    text::lemma_strung_push(q0, "#"@);
    let q2 = q1.push(number::dec(index));
    text::lemma_strung_push(q1, number::dec(index));
    let q3 = q2.push(":ch="@);
    text::lemma_strung_push(q2, ":ch="@);
    let q4 = q3.push(number::dec(b.channels as nat));
    text::lemma_strung_push(q3, number::dec(b.channels as nat));
    let q5 = q4.push(" bytes="@);
    text::lemma_strung_push(q4, " bytes="@);
    let q6 = q5.push(number::dec(b.bytes as nat));
    text::lemma_strung_push(q5, number::dec(b.bytes as nat));
    let q7 = q6.push(" samples="@);
    text::lemma_strung_push(q6, " samples="@);
    let q8 = q7.push(number::dec(samples_of(b)));
    text::lemma_strung_push(q7, number::dec(samples_of(b)));
    let q9 = q8.push(" zero="@);
    text::lemma_strung_push(q8, " zero="@);
    assert(text::strung(q1) =~= "#"@);
    assert(text::strung(q9) == head);
    reveal_strlit(":ch=");
    reveal_strlit(":");
    reveal_strlit(" bytes=");
    reveal_strlit(" ");
    reveal_strlit(" samples=");
    reveal_strlit(" zero=");
    assert(":ch="@.subrange(0, ":"@.len() as int) =~= ":"@);
    text::lemma_strung_line(q9, 0, ":"@);
    assert(" bytes="@.subrange(0, " "@.len() as int) =~= " "@);
    text::lemma_strung_line(q9, 2, " "@);
    assert(" samples="@.subrange(0, " "@.len() as int) =~= " "@);
    text::lemma_strung_line(q9, 4, " "@);
    assert(" zero="@.subrange(0, " "@.len() as int) =~= " "@);
    text::lemma_strung_line(q9, 6, " "@);
    text::lemma_occurs_in_front(head, told, "#"@ + number::dec(index) + ":"@);
    text::lemma_occurs_in_front(head, told, ":ch="@ + number::dec(b.channels as nat) + " "@);
    text::lemma_occurs_in_front(head, told, " bytes="@ + number::dec(b.bytes as nat) + " "@);
    text::lemma_occurs_in_front(head, told, " samples="@ + number::dec(samples_of(b)) + " "@);
    let before = head.take(head.len() - " zero="@.len());
    let e = Seq::<char>::empty();
    assert(last =~= " zero="@ + told);
    assert(head.skip(head.len() - " zero="@.len()) =~= " zero="@);
    assert(before + last + e =~= head + told);
    text::law_occurs_in_the_middle(before, last, e, e);
}

/// A block marks the description as done and moves the watchdog by its
/// milliseconds; rate, channels and lost blocks stay.
pub proof fn law_block_moves_the_watchdog(s: TapState, buffers: Seq<BufferShape>)
    requires
        block_fits(s, buffers),
    ensures
        ({
            let parts = mix_parts(buffers, s.channels as nat, buffers.len());
            let after = block_observed(s, buffers);
            &&& after.layout_logged
            &&& after.rate == s.rate && after.channels == s.channels && after.dropped_frames
                == s.dropped_frames
            &&& parts.len() == 0 ==> after.watchdog == s.watchdog
            &&& parts.len() > 0 && !parts_all_zero(buffers, parts) ==> {
                &&& after.watchdog.accumulated_silent_ms == 0
                &&& after.watchdog.has_seen_signal
            }
            &&& parts.len() > 0 && parts_all_zero(buffers, parts) ==> {
                &&& after.watchdog.accumulated_silent_ms == s.watchdog.accumulated_silent_ms
                    + block_ms(fewest_frames(parts), s.rate)
                &&& after.watchdog.has_seen_signal == s.watchdog.has_seen_signal
            }
        }),
{
}

/// Single-precision samples that are not compressed are taken, at any rate and of
/// any number of channels but none; nothing else is.
pub proof fn law_only_single_precision_is_taken(f: TapFormat)
    ensures
        format_taken(f) is Ok <==> f.rate_is_positive && f.channels > 0 && f.format_id == ((108 * 256
            + 112) * 256 + 99) * 256 + 109 && f.format_flags % 2 == 1 && f.bits_per_channel == 32,
        !f.rate_is_positive || f.channels == 0 ==> format_taken(f) == Err::<(), FormatError>(
            FormatError::Invalid,
        ),
        f.rate_is_positive && f.channels > 0 && format_taken(f) is Err ==> format_taken(f) == Err::<
            (),
            FormatError,
        >(FormatError::NotFloatPcm),
{
}

/// The first lost block is reported, and then every 250th.
pub proof fn law_lost_blocks_are_reported_now_and_then(n: nat, rest: nat)
    requires
        rest < 250,
    ensures
        drop_is_told(1),
        drop_is_told(250 * n),
        0 < rest && 250 * n + rest != 1 ==> !drop_is_told(250 * n + rest),
{
    assert((250 * n) % 250 == 0);
    assert((250 * n + rest) % 250 == rest as int);
}

/// There are taps from version 14.4 on.
pub proof fn law_taps_come_with_a_version(major: int, minor: int)
    ensures
        has_taps(14, 4),
        minor >= 4 ==> has_taps(14, minor),
        minor < 4 ==> !has_taps(14, minor),
        major > 14 ==> has_taps(major, minor),
        major < 14 ==> !has_taps(major, minor),
{
}

/// What is left over from an earlier run is known by the UID that every device of
/// this program has, and by nothing else.
pub proof fn law_own_devices_are_known_again(plan: AggregatePlan, uid: Seq<char>)
    requires
        is_capture_device(plan),
    ensures
        is_capture_uid(plan.uid@),
        is_capture_uid(uid) ==> uid == plan.uid@,
        plan.uid@ == "com.arcvoice.capture"@ && plan.name@ == "ArcVoice Capture"@,
        plan.private && plan.drift_compensation && plan.auto_start,
{
}

/// Once the callback or the session has stopped no block is taken, and an empty one
/// never is.
pub proof fn law_no_block_after_the_stop(stopped: bool, buffers: nat)
    ensures
        !block_is_taken(true, stopped, buffers),
        !block_is_taken(stopped, true, buffers),
        !block_is_taken(stopped, stopped, 0),
        block_is_taken(false, false, buffers + 1),
{
}

} // verus!
