//! The audio that is played beside the recognisers, and its subtitles.
//!
//! Times on the clock are nanoseconds since an origin that the caller picks;
//! positions in the audio are milliseconds.

use vstd::prelude::*;
use vstd::string::*;

use crate::config::{DEFAULT_MEDIA_MP3, DEFAULT_MEDIA_SRT};
use crate::number;
use crate::text;

verus! {

// ─── Subtitles ─────────────────────────────────────────────────────────

/// One subtitle.
#[derive(Debug)]
pub struct SubtitleCue {
    pub index: usize,
    pub start_ms: u64,
    pub end_ms: u64,
    pub text: String,
}

/// One subtitle, its text taken as a sequence.
#[verifier::ext_equal]
pub struct CueView {
    pub index: nat,
    pub start_ms: nat,
    pub end_ms: nat,
    pub text: Seq<char>,
}

impl View for SubtitleCue {
    type V = CueView;

    open spec fn view(&self) -> CueView {
        CueView {
            index: self.index as nat,
            start_ms: self.start_ms as nat,
            end_ms: self.end_ms as nat,
            text: self.text@,
        }
    }
}

/// The subtitles of a list.
pub open spec fn cue_views(list: Seq<SubtitleCue>) -> Seq<CueView> {
    list.map_values(|c: SubtitleCue| c@)
}

/// Why subtitles cannot be read.
#[derive(Debug)]
pub enum SrtError {
    /// A time that is not of the form hours:minutes:seconds,milliseconds.
    InvalidTime { input: String },
    /// A part of a time that is not a number.
    InvalidNumber,
    /// A time that does not fit 64 bits of milliseconds.
    TooLong,
}

/// Why subtitles cannot be read, the text taken as a sequence.
#[verifier::ext_equal]
pub enum SrtFault {
    InvalidTime { input: Seq<char> },
    InvalidNumber,
    TooLong,
}

impl View for SrtError {
    type V = SrtFault;

    open spec fn view(&self) -> SrtFault {
        match self {
            SrtError::InvalidTime { input } => SrtFault::InvalidTime { input: input@ },
            SrtError::InvalidNumber => SrtFault::InvalidNumber,
            SrtError::TooLong => SrtFault::TooLong,
        }
    }
}

/// Every part spells a 64-bit number.
pub open spec fn all_numbers(parts: Seq<Seq<char>>) -> bool {
    forall|i: int|
        0 <= i < parts.len() ==> number::number_of(#[trigger] parts[i], u64::MAX as nat) is Some
}

/// The number that `s` spells, zero if it spells none.
pub open spec fn number_or_zero(s: Seq<char>) -> nat {
    match number::number_of(s, u64::MAX as nat) {
        Some(n) => n,
        None => 0,
    }
}

/// The milliseconds of a time of the form hours:minutes:seconds,milliseconds.
pub open spec fn srt_time(input: Seq<char>) -> Result<nat, SrtFault> {
    match text::place_from(input, seq![','], 0) {
        None => Err(SrtFault::InvalidTime { input }),
        Some(comma) => {
            let parts = text::pieces(input.take(comma), ':', ':');
            let millis = text::trim(input.skip(comma + 1));
            let total = (number_or_zero(parts[0]) * 3600 + number_or_zero(parts[1]) * 60
                + number_or_zero(parts[2])) * 1000 + number_or_zero(millis);
            if !all_numbers(parts) {
                Err(SrtFault::InvalidNumber)
            } else if parts.len() != 3 {
                Err(SrtFault::InvalidTime { input })
            } else if number::number_of(millis, u64::MAX as nat) is None {
                Err(SrtFault::InvalidNumber)
            } else if total > u64::MAX {
                Err(SrtFault::TooLong)
            } else {
                Ok(total)
            }
        },
    }
}

fn parse_numbers(parts: &[String]) -> (r: Option<Vec<u64>>)
    ensures
        match r {
            Some(n) => all_numbers(text::texts(parts@)) && n@.len() == parts@.len() && forall|j: int|
                0 <= j < n@.len() ==> #[trigger] n@[j] == number_or_zero(text::texts(parts@)[j]),
            None => !all_numbers(text::texts(parts@)),
        },
{
    let ghost views = text::texts(parts@);
    let mut numbers: Vec<u64> = Vec::new();
    let mut i: usize = 0;
    while i < parts.len()
        invariant
            i <= parts@.len(),
            views == text::texts(parts@),
            numbers@.len() == i,
            forall|j: int|
                0 <= j < i ==> number::number_of(#[trigger] views[j], u64::MAX as nat) == Some(
                    numbers@[j] as nat,
                ),
        decreases parts@.len() - i,
    {
        proof {
            assert(views[i as int] == parts@[i as int]@);
        }
        match number::parse_number(parts[i].as_str()) {
            Some(n) => numbers.push(n),
            None => return None,
        }
        i = i + 1;
    }
    Some(numbers)
}

/// Reads a time of the form hours:minutes:seconds,milliseconds.
pub fn parse_srt_time(input: &str) -> (r: Result<u64, SrtError>)
    ensures
        match r {
            Ok(ms) => srt_time(input@) == Ok::<nat, SrtFault>(ms as nat),
            Err(e) => srt_time(input@) == Err::<nat, SrtFault>(e@),
        },
{
    let chars = text::chars_of(input);
    let len: usize = chars.len();
    let mut comma_text: Vec<char> = Vec::new();
    comma_text.push(',');
    proof {
        assert(comma_text@ =~= seq![',']);
    }
    let comma: usize = match text::find_from(chars.as_slice(), comma_text.as_slice(), 0) {
        Some(i) => i,
        None => return Err(SrtError::InvalidTime { input: input.to_owned() }),
    };
    let hms = text::text_of(chars.as_slice(), 0, comma);
    proof {
        assert(input@.subrange(0, comma as int) =~= input@.take(comma as int));
    }
    let parts = text::pieces_of(hms.as_str(), ':', ':');
    let numbers = match parse_numbers(parts.as_slice()) {
        Some(n) => n,
        None => return Err(SrtError::InvalidNumber),
    };
    if parts.len() != 3 {
        return Err(SrtError::InvalidTime { input: input.to_owned() });
    }
    let tail = text::text_of(chars.as_slice(), comma + 1, len);
    proof {
        assert(input@.subrange(comma + 1, input@.len() as int) =~= input@.skip(comma + 1));
    }
    let millis: u64 = match number::parse_number(text::trim_text(tail.as_str()).as_str()) {
        Some(n) => n,
        None => return Err(SrtError::InvalidNumber),
    };
    let total: u128 = (numbers[0] as u128 * 3600 + numbers[1] as u128 * 60 + numbers[2] as u128)
        * 1000 + millis as u128;
    if total > u64::MAX as u128 {
        return Err(SrtError::TooLong);
    }
    Ok(total as u64)
}

// ─── Blocks of subtitles ───────────────────────────────────────────────

/// `line` without a carriage return at its end.
pub open spec fn without_return(line: Seq<char>) -> Seq<char> {
    if line.len() > 0 && line.last() == '\r' {
        line.drop_last()
    } else {
        line
    }
}

/// The lines among `lines` that are not blank. Where `ended` says so, the last
/// one ends with a line feed as the others do: a carriage return before a line
/// feed belongs to the line end.
pub open spec fn filled_lines(lines: Seq<Seq<char>>, ended: bool) -> Seq<Seq<char>>
    decreases lines.len(),
{
    if lines.len() == 0 {
        Seq::empty()
    } else {
        let before = filled_lines(lines.drop_last(), true);
        let line = if ended {
            without_return(lines.last())
        } else {
            lines.last()
        };
        if text::trim(line).len() == 0 {
            before
        } else {
            before.push(line)
        }
    }
}

/// The lines of `block` that are not blank.
pub open spec fn block_lines(block: Seq<char>) -> Seq<Seq<char>> {
    filled_lines(text::pieces(block, '\n', '\n'), false)
}

/// What a block of lines is.
#[verifier::ext_equal]
pub enum BlockView {
    /// No subtitle.
    Skipped,
    Cue(CueView),
    Faulty(SrtFault),
}

/// What `block` is: a line with a number, a line with two times, and lines of
/// text make a subtitle. Anything else is skipped, but for faulty times.
pub open spec fn block_view(block: Seq<char>) -> BlockView {
    let lines = block_lines(block);
    let text = text::trim(text::joined(lines.skip(2), " "@));
    if lines.len() < 2 {
        BlockView::Skipped
    } else {
        match (
            number::number_of(text::trim(lines[0]), usize::MAX as nat),
            text::place_from(lines[1], "-->"@, 0),
        ) {
            (Some(index), Some(arrow)) => {
                let start = srt_time(text::trim(lines[1].take(arrow)));
                let end = srt_time(text::trim(lines[1].skip(arrow + 3)));
                if text.len() == 0 {
                    BlockView::Skipped
                } else {
                    match (start, end) {
                        (Ok(start_ms), Ok(end_ms)) => BlockView::Cue(
                            CueView { index, start_ms, end_ms, text },
                        ),
                        (Err(e), _) => BlockView::Faulty(e),
                        (_, Err(e)) => BlockView::Faulty(e),
                    }
                }
            },
            _ => BlockView::Skipped,
        }
    }
}

/// The subtitles of `blocks` in order, or the first fault.
pub open spec fn cues_of(blocks: Seq<Seq<char>>) -> Result<Seq<CueView>, SrtFault>
    decreases blocks.len(),
{
    if blocks.len() == 0 {
        Ok(Seq::empty())
    } else {
        match cues_of(blocks.drop_last()) {
            Err(e) => Err(e),
            Ok(before) => match block_view(blocks.last()) {
                BlockView::Skipped => Ok(before),
                BlockView::Cue(cue) => Ok(before.push(cue)),
                BlockView::Faulty(e) => Err(e),
            },
        }
    }
}

/// The subtitles of a file: blocks with an empty line between them.
pub open spec fn srt_cues(raw: Seq<char>) -> Result<Seq<CueView>, SrtFault> {
    cues_of(text::split(text::replaced(raw, "\r\n"@, "\n"@), "\n\n"@))
}

fn lines_of_block(block: &str) -> (r: Vec<String>)
    ensures
        text::texts(r@) == block_lines(block@),
{
    let parts = text::pieces_of(block, '\n', '\n');
    let ghost all = text::texts(parts@);
    let mut out: Vec<String> = Vec::new();
    let n: usize = parts.len();
    let mut i: usize = 0;
    proof {
        assert(all.take(0) =~= Seq::<Seq<char>>::empty());
        assert(text::texts(out@) =~= Seq::<Seq<char>>::empty());
    }
    while i < n
        invariant
            i <= n == parts@.len(),
            all == text::texts(parts@),
            i < n ==> text::texts(out@) == filled_lines(all.take(i as int), true),
            i == n ==> text::texts(out@) == filled_lines(all.take(i as int), i == 0),
        decreases n - i,
    {
        let ghost before = text::texts(out@);
        proof {
            assert(all.take(i + 1).drop_last() =~= all.take(i as int));
            assert(all.take(i + 1).last() == parts@[i as int]@);
        }
        let chars = text::chars_of(parts[i].as_str());
        let len: usize = chars.len();
        let upto: usize = if i + 1 < n && len > 0 && chars[len - 1] == '\r' {
            len - 1
        } else {
            len
        };
        let line = text::text_of(chars.as_slice(), 0, upto);
        proof {
            assert(chars@.subrange(0, len as int) =~= chars@);
            assert(len > 0 ==> chars@.subrange(0, len - 1) =~= chars@.drop_last());
        }
        if !text::is_blank(line.as_str()) {
            out.push(line);
            proof {
                assert(text::texts(out@) =~= before.push(line@));
            }
        }
        i = i + 1;
    }
    proof {
        assert(all.take(all.len() as int) =~= all);
    }
    out
}

/// What a block of lines is.
enum Block {
    Skipped,
    Cue(SubtitleCue),
    Faulty(SrtError),
}

fn read_block(block: &str) -> (r: Block)
    ensures
        match r {
            Block::Skipped => block_view(block@) is Skipped,
            Block::Cue(cue) => block_view(block@) == BlockView::Cue(cue@),
            Block::Faulty(e) => block_view(block@) == BlockView::Faulty(e@),
        },
{
    let lines = lines_of_block(block);
    let ghost all = text::texts(lines@);
    if lines.len() < 2 {
        return Block::Skipped;
    }
    proof {
        assert(all[0] == lines@[0]@);
        assert(all[1] == lines@[1]@);
        reveal_strlit("-->");
    }
    let index: usize = match number::parse_size(text::trim_text(lines[0].as_str()).as_str()) {
        Some(n) => n,
        None => return Block::Skipped,
    };
    let times = text::chars_of(lines[1].as_str());
    let len: usize = times.len();
    let arrow_text = text::chars_of("-->");
    let arrow: usize = match text::find_from(times.as_slice(), arrow_text.as_slice(), 0) {
        Some(i) => i,
        None => return Block::Skipped,
    };
    let mut rest: Vec<String> = Vec::new();
    let mut i: usize = 2;
    proof {
        assert(text::texts(rest@) =~= all.subrange(2, 2));
    }
    while i < lines.len()
        invariant
            2 <= i <= lines@.len(),
            all == text::texts(lines@),
            text::texts(rest@) == all.subrange(2, i as int),
        decreases lines@.len() - i,
    {
        let ghost before = text::texts(rest@);
        rest.push(lines[i].clone());
        proof {
            assert(text::texts(rest@) =~= before.push(all[i as int]));
            assert(all.subrange(2, i + 1) =~= before.push(all[i as int]));
        }
        i = i + 1;
    }
    proof {
        assert(all.subrange(2, all.len() as int) =~= all.skip(2));
    }
    let text = text::trim_text(text::join_texts(rest.as_slice(), " ").as_str());
    if text.as_str().is_empty() {
        return Block::Skipped;
    }
    let start = text::text_of(times.as_slice(), 0, arrow);
    let end = text::text_of(times.as_slice(), arrow + 3, len);
    proof {
        assert(all[1].subrange(0, arrow as int) =~= all[1].take(arrow as int));
        assert(all[1].subrange(arrow + 3, len as int) =~= all[1].skip(arrow + 3));
    }
    let start_ms: u64 = match parse_srt_time(text::trim_text(start.as_str()).as_str()) {
        Ok(ms) => ms,
        Err(e) => return Block::Faulty(e),
    };
    let end_ms: u64 = match parse_srt_time(text::trim_text(end.as_str()).as_str()) {
        Ok(ms) => ms,
        Err(e) => return Block::Faulty(e),
    };
    Block::Cue(SubtitleCue { index, start_ms, end_ms, text })
}

/// Reads the subtitles of a file.
pub fn parse_srt(raw: &str) -> (r: Result<Vec<SubtitleCue>, SrtError>)
    ensures
        match r {
            Ok(cues) => srt_cues(raw@) == Ok::<Seq<CueView>, SrtFault>(cue_views(cues@)),
            Err(e) => srt_cues(raw@) == Err::<Seq<CueView>, SrtFault>(e@),
        },
{
    proof {
        reveal_strlit("\r\n");
        reveal_strlit("\n\n");
    }
    let normalized = text::replace_text(raw, "\r\n", "\n");
    let blocks = text::split_text(normalized.as_str(), "\n\n");
    let ghost all = text::texts(blocks@);
    let mut cues: Vec<SubtitleCue> = Vec::new();
    let mut i: usize = 0;
    proof {
        assert(all.take(0) =~= Seq::<Seq<char>>::empty());
        assert(cue_views(cues@) =~= Seq::<CueView>::empty());
    }
    while i < blocks.len()
        invariant
            i <= blocks@.len(),
            all == text::texts(blocks@),
            cues_of(all.take(i as int)) == Ok::<Seq<CueView>, SrtFault>(cue_views(cues@)),
            srt_cues(raw@) == cues_of(all),
        decreases blocks@.len() - i,
    {
        let ghost before = cue_views(cues@);
        proof {
            assert(all.take(i + 1).drop_last() =~= all.take(i as int));
            assert(all.take(i + 1).last() == blocks@[i as int]@);
        }
        match read_block(blocks[i].as_str()) {
            Block::Skipped => {},
            Block::Cue(cue) => {
                cues.push(cue);
                proof {
                    assert(cue_views(cues@) =~= before.push(cue@));
                }
            },
            Block::Faulty(e) => {
                proof {
                    lemma_fault_stays(all, i + 1);
                }
                return Err(e);
            },
        }
        i = i + 1;
    }
    proof {
        assert(all.take(all.len() as int) =~= all);
    }
    Ok(cues)
}

/// A fault in some of the first blocks is the fault of all of them.
proof fn lemma_fault_stays(blocks: Seq<Seq<char>>, n: int)
    requires
        0 <= n <= blocks.len(),
        cues_of(blocks.take(n)) is Err,
    ensures
        cues_of(blocks) == cues_of(blocks.take(n)),
    decreases blocks.len(),
{
    if n == blocks.len() {
        assert(blocks.take(n) =~= blocks);
    } else {
        assert(blocks.drop_last().take(n) =~= blocks.take(n));
        lemma_fault_stays(blocks.drop_last(), n);
    }
}

// ─── The player ────────────────────────────────────────────────────────

/// The audio, its subtitles, and the clock that follows it.
pub struct MediaState {
    pub audio_path: String,
    pub srt_path: String,
    pub cues: Vec<SubtitleCue>,
    /// Where the last subtitle ends, zero without one.
    pub duration_ms: u64,
    pub position_ms: u64,
    /// The position at which the clock was last set.
    pub anchor_ms: u64,
    /// When it was set.
    pub anchor_started_at: u64,
    pub playing: bool,
    pub last_report: Option<String>,
}

/// The player, texts and lists taken as sequences.
#[verifier::ext_equal]
pub struct MediaView {
    pub audio_path: Seq<char>,
    pub srt_path: Seq<char>,
    pub cues: Seq<CueView>,
    pub duration_ms: nat,
    pub position_ms: nat,
    pub anchor_ms: nat,
    pub anchor_started_at: nat,
    pub playing: bool,
    pub last_report: Option<Seq<char>>,
}

impl View for MediaState {
    type V = MediaView;

    open spec fn view(&self) -> MediaView {
        MediaView {
            audio_path: self.audio_path@,
            srt_path: self.srt_path@,
            cues: cue_views(self.cues@),
            duration_ms: self.duration_ms as nat,
            position_ms: self.position_ms as nat,
            anchor_ms: self.anchor_ms as nat,
            anchor_started_at: self.anchor_started_at as nat,
            playing: self.playing,
            last_report: match self.last_report {
                Some(p) => Some(p@),
                None => None,
            },
        }
    }
}

/// What the caller has to do with the process that plays the audio.
#[derive(Clone, Copy, Debug, PartialEq, Eq, Structural)]
pub enum PlayerCommand {
    /// Leave it alone.
    Keep,
    /// End it.
    Stop,
    /// End it and start one at this position; then call `resume_clock`.
    Start { position_ms: u64 },
}

/// Milliseconds on the clock from `since` to `now`, none if `since` is later.
pub open spec fn elapsed_ms(since: nat, now: nat) -> nat {
    if now >= since {
        ((now - since) / 1_000_000) as nat
    } else {
        0
    }
}

/// The clock can be read at `now` without overflow.
pub open spec fn clock_fits(v: MediaView, now: u64) -> bool {
    v.anchor_ms + now / 1_000_000 <= u64::MAX
}

/// Where the last subtitle ends, zero without one.
pub open spec fn duration_of(cues: Seq<CueView>) -> nat {
    if cues.len() == 0 {
        0
    } else {
        cues.last().end_ms
    }
}

/// A player at the start of the audio.
pub open spec fn loaded(
    audio_path: Seq<char>,
    srt_path: Seq<char>,
    cues: Seq<CueView>,
    now: nat,
) -> MediaView {
    MediaView {
        audio_path,
        srt_path,
        cues,
        duration_ms: duration_of(cues),
        position_ms: 0,
        anchor_ms: 0,
        anchor_started_at: now,
        playing: false,
        last_report: None,
    }
}

/// The player with its position brought up to date.
pub open spec fn refreshed(v: MediaView, now: nat) -> MediaView {
    if v.playing {
        MediaView { position_ms: v.anchor_ms + elapsed_ms(v.anchor_started_at, now), ..v }
    } else {
        v
    }
}

/// The player with its clock stopped.
pub open spec fn paused(v: MediaView, now: nat) -> MediaView {
    MediaView { playing: false, ..refreshed(v, now) }
}

/// The player with its clock running from the position.
pub open spec fn resumed(v: MediaView, now: nat) -> MediaView {
    MediaView { anchor_ms: v.position_ms, anchor_started_at: now, playing: true, ..v }
}

/// The player at `position`, but not behind the end where the end is known.
pub open spec fn positioned(v: MediaView, position: nat, now: nat) -> MediaView {
    let p = if v.duration_ms > 0 && position > v.duration_ms {
        v.duration_ms
    } else {
        position
    };
    MediaView { position_ms: p, anchor_ms: p, anchor_started_at: now, ..v }
}

/// `position` moved by `delta`, within 64 bits.
pub open spec fn moved(position: nat, delta: int) -> nat {
    if position + delta < 0 {
        0
    } else if position + delta > u64::MAX {
        u64::MAX as nat
    } else {
        (position + delta) as nat
    }
}

/// The player moved by `delta_ms`.
pub open spec fn sought(v: MediaView, delta_ms: int, now: nat) -> MediaView {
    let r = refreshed(v, now);
    positioned(r, moved(r.position_ms, delta_ms), now)
}

/// The player after its key: stopped where it stands if it plays, else as it is
/// until the audio has started.
pub open spec fn toggled(v: MediaView, now: nat) -> MediaView {
    if v.playing {
        paused(v, now)
    } else {
        v
    }
}

/// What is asked of the audio if the player is switched.
pub open spec fn toggle_command(playing: bool, position_ms: u64) -> PlayerCommand {
    if playing {
        PlayerCommand::Stop
    } else {
        PlayerCommand::Start { position_ms }
    }
}

/// What is asked of the audio if the player has moved.
pub open spec fn seek_command(playing: bool, position_ms: u64) -> PlayerCommand {
    if playing {
        PlayerCommand::Start { position_ms }
    } else {
        PlayerCommand::Keep
    }
}

/// The player of the default audio, if both of its files are there.
pub open spec fn default_media(
    audio_exists: bool,
    srt_exists: bool,
    raw: Seq<char>,
    now: nat,
) -> Result<Option<MediaView>, SrtFault> {
    if audio_exists && srt_exists {
        match srt_cues(raw) {
            Ok(cues) => Ok(Some(loaded(DEFAULT_MEDIA_MP3@, DEFAULT_MEDIA_SRT@, cues, now))),
            Err(e) => Err(e),
        }
    } else {
        Ok(None)
    }
}

/// How a subtitle stands to a position: 0 ends before it, 1 holds it, 2 starts
/// behind it.
pub open spec fn cue_rank(cue: CueView, position: nat) -> int {
    if position < cue.start_ms {
        2
    } else if position > cue.end_ms {
        0
    } else {
        1
    }
}

/// Seen from `position`, past subtitles come first, then those that hold it,
/// then those to come.
pub open spec fn cues_in_order(cues: Seq<CueView>, position: nat) -> bool {
    forall|i: int, j: int|
        0 <= i <= j < cues.len() ==> cue_rank(cues[i], position) <= cue_rank(cues[j], position)
}

/// `i` is the subtitle to show at `position`: one that holds it, or else the
/// last that ended, or else the first.
pub open spec fn is_active(cues: Seq<CueView>, position: nat, i: int) -> bool {
    if exists|j: int| 0 <= j < cues.len() && cue_rank(#[trigger] cues[j], position) == 1 {
        0 <= i < cues.len() && cue_rank(cues[i], position) == 1
    } else {
        &&& 0 <= i
        &&& i < cues.len() || i == 0
        &&& forall|j: int| 0 <= j < i ==> cue_rank(#[trigger] cues[j], position) == 0
        &&& forall|j: int| i < j < cues.len() ==> cue_rank(#[trigger] cues[j], position) == 2
        &&& i > 0 ==> cue_rank(cues[i], position) == 0
    }
}

/// `i` is a subtitle, if there is one, and the one to show, if they are in order.
pub open spec fn is_shown(v: MediaView, i: int) -> bool {
    &&& 0 <= i < v.cues.len() || i == 0
    &&& cues_in_order(v.cues, v.position_ms) ==> is_active(v.cues, v.position_ms, i)
}

impl MediaState {
    /// A player at the start of the audio.
    pub fn new(audio_path: String, srt_path: String, cues: Vec<SubtitleCue>, now: u64) -> (r:
        MediaState)
        ensures
            r@ == loaded(audio_path@, srt_path@, cue_views(cues@), now as nat),
    {
        let duration_ms: u64 = if cues.len() == 0 {
            0
        } else {
            cues[cues.len() - 1].end_ms
        };
        proof {
            if cues@.len() > 0 {
                assert(cue_views(cues@).last() == cues@.last()@);
            }
        }
        MediaState {
            audio_path,
            srt_path,
            cues,
            duration_ms,
            position_ms: 0,
            anchor_ms: 0,
            anchor_started_at: now,
            playing: false,
            last_report: None,
        }
    }

    /// The player of the default audio, if the audio and its subtitles are
    /// there; `raw` is what the subtitle file holds.
    pub fn load_default(audio_exists: bool, srt_exists: bool, raw: &str, now: u64) -> (r: Result<
        Option<MediaState>,
        SrtError,
    >)
        ensures
            match r {
                Ok(None) => default_media(audio_exists, srt_exists, raw@, now as nat) == Ok::<
                    Option<MediaView>,
                    SrtFault,
                >(None),
                Ok(Some(media)) => default_media(audio_exists, srt_exists, raw@, now as nat) == Ok::<
                    Option<MediaView>,
                    SrtFault,
                >(Some(media@)),
                Err(e) => default_media(audio_exists, srt_exists, raw@, now as nat) == Err::<
                    Option<MediaView>,
                    SrtFault,
                >(e@),
            },
    {
        if !audio_exists || !srt_exists {
            return Ok(None);
        }
        match parse_srt(raw) {
            Ok(cues) => Ok(
                Some(
                    MediaState::new(
                        DEFAULT_MEDIA_MP3.to_owned(),
                        DEFAULT_MEDIA_SRT.to_owned(),
                        cues,
                        now,
                    ),
                ),
            ),
            Err(e) => Err(e),
        }
    }

    /// Whether the clock can be read at `now`.
    pub fn has_room(&self, now: u64) -> (r: bool)
        ensures
            r == clock_fits(self@, now),
    {
        self.anchor_ms <= u64::MAX - now / 1_000_000
    }

    /// Brings the position up to date.
    pub fn refresh_position(&mut self, now: u64)
        requires
            clock_fits(old(self)@, now),
        ensures
            final(self)@ == refreshed(old(self)@, now as nat),
    {
        if self.playing {
            self.position_ms = self.anchor_ms + now.saturating_sub(self.anchor_started_at)
                / 1_000_000;
        }
    }

    /// Stops the clock.
    pub fn pause_clock(&mut self, now: u64) -> (r: PlayerCommand)
        requires
            clock_fits(old(self)@, now),
        ensures
            final(self)@ == paused(old(self)@, now as nat),
            r == PlayerCommand::Stop,
    {
        self.refresh_position(now);
        self.playing = false;
        PlayerCommand::Stop
    }

    /// Lets the clock run from the position.
    pub fn resume_clock(&mut self, now: u64)
        ensures
            final(self)@ == resumed(old(self)@, now as nat),
    {
        self.anchor_ms = self.position_ms;
        self.anchor_started_at = now;
        self.playing = true;
    }

    /// Lets the clock run without a process that plays the audio.
    pub fn start_clock_only(&mut self, now: u64) -> (r: PlayerCommand)
        ensures
            final(self)@ == resumed(old(self)@, now as nat),
            r == PlayerCommand::Stop,
    {
        self.resume_clock(now);
        PlayerCommand::Stop
    }

    /// Pauses if it plays, and asks for a start if not.
    pub fn toggle_play(&mut self, now: u64) -> (r: PlayerCommand)
        requires
            clock_fits(old(self)@, now),
        ensures
            final(self)@ == toggled(old(self)@, now as nat),
            r == toggle_command(old(self).playing, old(self).position_ms),
    {
        if self.playing {
            self.pause_clock(now)
        } else {
            PlayerCommand::Start { position_ms: self.position_ms }
        }
    }

    /// Sets the position, and the clock with it.
    pub fn set_position_ms(&mut self, position_ms: u64, now: u64)
        ensures
            final(self)@ == positioned(old(self)@, position_ms as nat, now as nat),
    {
        self.position_ms = if self.duration_ms > 0 && position_ms > self.duration_ms {
            self.duration_ms
        } else {
            position_ms
        };
        self.anchor_ms = self.position_ms;
        self.anchor_started_at = now;
    }

    /// Moves the position; a process that plays has to be started there anew.
    pub fn seek_by(&mut self, delta_ms: i64, now: u64) -> (r: PlayerCommand)
        requires
            clock_fits(old(self)@, now),
        ensures
            final(self)@ == sought(old(self)@, delta_ms as int, now as nat),
            r == seek_command(old(self).playing, final(self).position_ms),
    {
        self.refresh_position(now);
        let next: u64 = if delta_ms < 0 {
            self.position_ms.saturating_sub((-(delta_ms as i128)) as u64)
        } else {
            self.position_ms.saturating_add(delta_ms as u64)
        };
        self.set_position_ms(next, now);
        if self.playing {
            PlayerCommand::Start { position_ms: self.position_ms }
        } else {
            PlayerCommand::Keep
        }
    }

    /// The subtitle to show.
    pub fn active_index(&self) -> (r: usize)
        ensures
            is_shown(self@, r as int),
    {
        let ghost cues = self@.cues;
        let ghost position = self@.position_ms;
        let ghost ordered = cues_in_order(cues, position);
        let mut lo: usize = 0;
        let mut hi: usize = self.cues.len();
        while lo < hi
            invariant
                lo <= hi <= self.cues@.len(),
                cues == self@.cues,
                position == self@.position_ms,
                ordered == cues_in_order(cues, position),
                ordered ==> forall|j: int|
                    0 <= j < lo ==> cue_rank(#[trigger] cues[j], position) == 0,
                ordered ==> forall|j: int|
                    hi <= j < cues.len() ==> cue_rank(#[trigger] cues[j], position) == 2,
            decreases hi - lo,
        {
            let mid: usize = lo + (hi - lo) / 2;
            let cue = &self.cues[mid];
            proof {
                assert(cues[mid as int] == self.cues@[mid as int]@);
            }
            if self.position_ms < cue.start_ms {
                hi = mid;
            } else if self.position_ms > cue.end_ms {
                lo = mid + 1;
            } else {
                return mid;
            }
        }
        lo.saturating_sub(1)
    }
}

// ─── What is shown ─────────────────────────────────────────────────────

/// A position as minutes and seconds, with hours in front if there are any.
pub open spec fn media_time(ms: nat) -> Seq<char> {
    let total = ms / 1000;
    let h = total / 3600;
    let m = (total % 3600) / 60;
    let s = total % 60;
    if h > 0 {
        number::dec2(h) + ":"@ + number::dec2(m) + ":"@ + number::dec2(s)
    } else {
        number::dec2(m) + ":"@ + number::dec2(s)
    }
}

/// A position as minutes and seconds, with hours in front if there are any.
pub fn format_media_time(ms: u64) -> (r: String)
    ensures
        r@ == media_time(ms as nat),
{
    let total: u64 = ms / 1000;
    let h: u64 = total / 3600;
    let m: u64 = (total % 3600) / 60;
    let s: u64 = total % 60;
    let mut out = if h > 0 {
        let mut hours = number::dec2_text(h);
        hours.append(":");
        hours.append(number::dec2_text(m).as_str());
        hours
    } else {
        number::dec2_text(m)
    };
    out.append(":");
    out.append(number::dec2_text(s).as_str());
    out
}

/// A position in seconds with three decimals.
pub open spec fn seconds_text(ms: nat) -> Seq<char> {
    number::dec(ms / 1000) + "."@ + number::dec(ms % 1000 / 100) + number::dec(ms % 100 / 10)
        + number::dec(ms % 10)
}

/// A position in seconds with three decimals.
pub fn format_seconds(ms: u64) -> (r: String)
    ensures
        r@ == seconds_text(ms as nat),
{
    let mut out = number::dec_text(ms / 1000);
    out.append(".");
    out.append(number::dec_text(ms % 1000 / 100).as_str());
    out.append(number::dec_text(ms % 100 / 10).as_str());
    out.append(number::dec_text(ms % 10).as_str());
    out
}

/// `n` times the character `c`.
pub open spec fn repeated(c: char, n: nat) -> Seq<char> {
    Seq::new(n, |i: int| c)
}

/// `n` times the character `c`.
pub fn repeat_char(c: char, n: usize) -> (r: String)
    ensures
        r@ == repeated(c, n as nat),
{
    let mut out = String::new();
    let mut i: usize = 0;
    proof {
        assert(out@ =~= repeated(c, 0));
    }
    while i < n
        invariant
            i <= n,
            out@ == repeated(c, i as nat),
        decreases n - i,
    {
        out.push(c);
        i = i + 1;
        proof {
            assert(out@ =~= repeated(c, i as nat));
        }
    }
    out
}

/// A bar of `width` cells of which `filled` are full.
pub open spec fn bar(filled: nat, width: nat) -> Seq<char> {
    let full = if filled > width {
        width
    } else {
        filled
    };
    repeated('█', full) + repeated('░', (width - full) as nat)
}

/// The progress through audio of `duration_ms` as a bar of `width` cells, of
/// which `filled` are full. Without a duration the bar is blank.
pub fn media_progress_bar(filled: usize, duration_ms: u64, width: usize) -> (r: String)
    ensures
        r@ == (if duration_ms == 0 {
            repeated(' ', width as nat)
        } else {
            bar(filled as nat, width as nat)
        }),
{
    if duration_ms == 0 {
        return repeat_char(' ', width);
    }
    let full: usize = if filled > width {
        width
    } else {
        filled
    };
    let mut out = repeat_char('█', full);
    out.append(repeat_char('░', width - full).as_str());
    out
}

// ─── Laws ──────────────────────────────────────────────────────────────

/// A paused player stays where it is.
pub proof fn law_pause_freezes_the_position(v: MediaView, now: nat, later: nat)
    ensures
        refreshed(paused(v, now), later) == paused(v, now),
        paused(v, now).position_ms == refreshed(v, now).position_ms,
{
}

/// A playing player advances as the clock does, from where it was.
pub proof fn law_clock_drives_the_position(v: MediaView, now: nat, later: nat)
    ensures
        refreshed(resumed(v, now), later).position_ms == v.position_ms + elapsed_ms(now, later),
        refreshed(resumed(v, now), now).position_ms == v.position_ms,
{
}

/// Pausing and resuming loses no time and gains none.
pub proof fn law_pause_then_resume_continues(v: MediaView, now: nat, later: nat)
    requires
        v.playing,
    ensures
        refreshed(resumed(paused(v, now), later), later).position_ms == refreshed(
            v,
            now,
        ).position_ms,
{
}

/// A move never leaves the audio, a move within it goes exactly as far as asked
/// for, and the clock goes on from there.
pub proof fn law_seek_stays_inside(v: MediaView, delta_ms: int, now: nat)
    ensures
        v.duration_ms > 0 ==> sought(v, delta_ms, now).position_ms <= v.duration_ms,
        sought(v, delta_ms, now).playing == v.playing,
        refreshed(sought(v, delta_ms, now), now).position_ms == sought(
            v,
            delta_ms,
            now,
        ).position_ms,
        ({
            let target = refreshed(v, now).position_ms + delta_ms;
            0 <= target <= u64::MAX && (v.duration_ms > 0 ==> target <= v.duration_ms) ==> sought(
                v,
                delta_ms,
                now,
            ).position_ms == target
        }),
{
}

/// A bar is as wide as asked for.
pub proof fn law_bar_has_its_width(filled: nat, width: nat)
    ensures
        bar(filled, width).len() == width,
        filled >= width ==> bar(filled, width) == repeated('█', width),
        bar(0, width) == repeated('░', width),
{
    assert(repeated('█', 0) + repeated('░', width) =~= repeated('░', width));
    assert(repeated('█', width) + repeated('░', 0) =~= repeated('█', width));
}

/// What spells a number holds neither a separator of a time nor white space.
proof fn lemma_number_is_plain(s: Seq<char>)
    requires
        number::number_of(s, u64::MAX as nat) is Some,
    ensures
        s.len() > 0,
        forall|i: int|
            0 <= i < s.len() ==> #[trigger] s[i] != ':' && s[i] != ',' && !text::is_space(s[i]),
{
    let d = number::unsigned_part(s);
    assert forall|i: int| 0 <= i < s.len() implies #[trigger] s[i] != ':' && s[i] != ','
        && !text::is_space(s[i]) by {
        if s[0] != '+' {
            assert(number::is_digit(d[i]));
        } else if i > 0 {
            assert(d[i - 1] == s[i]);
        }
    }
}

/// A text without the separator is its only piece.
proof fn lemma_one_piece(s: Seq<char>)
    requires
        forall|i: int| 0 <= i < s.len() ==> #[trigger] s[i] != ':',
    ensures
        text::pieces(s, ':', ':') == seq![s],
    decreases s.len(),
{
    if s.len() == 0 {
        assert(s =~= Seq::<char>::empty());
    } else {
        lemma_one_piece(s.drop_last());
        assert(s.drop_last().push(s.last()) =~= s);
        assert(seq![s.drop_last()].update(0, s.drop_last().push(s.last())) =~= seq![s]);
    }
}

/// A separator and a text without one make one piece more.
proof fn lemma_next_piece(s: Seq<char>, t: Seq<char>)
    requires
        forall|i: int| 0 <= i < t.len() ==> #[trigger] t[i] != ':',
    ensures
        text::pieces(s.push(':') + t, ':', ':') == text::pieces(s, ':', ':').push(t),
    decreases t.len(),
{
    let all = s.push(':') + t;
    if t.len() == 0 {
        assert(all =~= s.push(':'));
        assert(all.drop_last() =~= s);
        assert(t =~= Seq::<char>::empty());
    } else {
        let before = text::pieces(s, ':', ':');
        lemma_next_piece(s, t.drop_last());
        assert(all.drop_last() =~= s.push(':') + t.drop_last());
        assert(t.drop_last().push(t.last()) =~= t);
        assert(before.push(t.drop_last()).update(
            before.len() as int,
            t.drop_last().push(t.last()),
        ) =~= before.push(t));
    }
}

/// A time made of four numbers is read as the milliseconds they stand for.
pub proof fn law_reads_a_time_of_numbers(h: Seq<char>, m: Seq<char>, s: Seq<char>, k: Seq<char>)
    requires
        all_numbers(seq![h, m, s, k]),
    ensures
        ({
            let total = (number_or_zero(h) * 3600 + number_or_zero(m) * 60 + number_or_zero(s))
                * 1000 + number_or_zero(k);
            srt_time(h + ":"@ + m + ":"@ + s + ","@ + k) == (if total <= u64::MAX {
                Ok::<nat, SrtFault>(total)
            } else {
                Err(SrtFault::TooLong)
            })
        }),
{
    let parts = seq![h, m, s, k];
    assert(parts[0] == h && parts[1] == m && parts[2] == s && parts[3] == k);
    lemma_number_is_plain(h);
    lemma_number_is_plain(m);
    lemma_number_is_plain(s);
    lemma_number_is_plain(k);
    reveal_strlit(":");
    reveal_strlit(",");
    let hms = h + ":"@ + m + ":"@ + s;
    let input = hms + ","@ + k;
    let comma = hms.len() as int;
    assert(":"@ =~= seq![':'] && ","@ =~= seq![',']);
    assert(hms =~= (h.push(':') + m).push(':') + s);
    assert(forall|i: int| 0 <= i < hms.len() ==> #[trigger] hms[i] != ',');
    assert(input.subrange(comma, comma + 1) =~= seq![',']);
    assert(text::stands_at(input, seq![','], comma));
    assert forall|j: int| 0 <= j < comma implies !text::stands_at(input, seq![','], j) by {
        assert(input.subrange(j, j + 1)[0] == hms[j]);
    }
    text::lemma_place(input, seq![','], 0);
    assert(input.take(comma) =~= hms);
    assert(input.skip(comma + 1) =~= k);
    lemma_one_piece(h);
    lemma_next_piece(h, m);
    lemma_next_piece(h.push(':') + m, s);
    let pieces = text::pieces(hms, ':', ':');
    assert(pieces =~= seq![h, m, s]);
    assert(text::trim(k) == k);
}

/// A subtitle time that is written as positions are shown, always with hours and
/// with the milliseconds behind a comma, is read back as that position.
pub proof fn law_reads_back_the_time_that_is_shown(ms: nat)
    requires
        ms <= u64::MAX,
    ensures
        ({
            let shown = if ms >= 3_600_000 {
                media_time(ms)
            } else {
                "00"@ + ":"@ + media_time(ms)
            };
            srt_time(shown + ","@ + number::dec(ms % 1000)) == Ok::<nat, SrtFault>(ms)
        }),
{
    let total = ms / 1000;
    let (h, m, s, k) = (total / 3600, (total % 3600) / 60, total % 60, ms % 1000);
    let max = u64::MAX as nat;
    number::law_reads_what_it_writes(h, max);
    number::law_reads_what_it_writes(m, max);
    number::law_reads_what_it_writes(s, max);
    number::law_reads_what_it_writes(k, max);
    let parts = seq![number::dec2(h), number::dec2(m), number::dec2(s), number::dec(k)];
    assert(all_numbers(parts));
    law_reads_a_time_of_numbers(parts[0], parts[1], parts[2], parts[3]);
    lemma_parts_of_a_time(ms);
    if ms < 3_600_000 {
        reveal_strlit("00");
        assert(number::dec2(0) =~= "00"@);
        lemma_hours_in_front("00"@ + ":"@, number::dec2(m), ":"@, number::dec2(s));
    }
}

proof fn lemma_hours_in_front(a: Seq<char>, b: Seq<char>, c: Seq<char>, d: Seq<char>)
    ensures
        a + (b + c + d) == a + b + c + d,
{
    assert(a + (b + c + d) =~= a + b + c + d);
}

proof fn lemma_parts_of_a_time(ms: nat)
    ensures
        ({
            let total = ms / 1000;
            let (h, m, s) = (total / 3600, (total % 3600) / 60, total % 60);
            &&& (h * 3600 + m * 60 + s) * 1000 + ms % 1000 == ms
            &&& h == 0 <==> ms < 3_600_000
        }),
{
    let total = (ms / 1000) as int;
    let rest = total % 3600;
    let (h, m, s) = (total / 3600, rest / 60, rest % 60);
    vstd::arithmetic::div_mod::lemma_fundamental_div_mod(ms as int, 1000);
    vstd::arithmetic::div_mod::lemma_fundamental_div_mod(total, 3600);
    vstd::arithmetic::div_mod::lemma_fundamental_div_mod(rest, 60);
    vstd::arithmetic::div_mod::lemma_fundamental_div_mod_converse(total, 60, h * 60 + m, s);
}

/// A line of a file: it holds no line end and something besides white space.
pub open spec fn is_line(line: Seq<char>) -> bool {
    &&& forall|i: int| 0 <= i < line.len() ==> #[trigger] line[i] != '\n' && line[i] != '\r'
    &&& text::trim(line).len() > 0
}

proof fn lemma_pieces_of_lines(lines: Seq<Seq<char>>)
    requires
        lines.len() > 0,
        forall|i: int| 0 <= i < lines.len() ==> is_line(#[trigger] lines[i]),
    ensures
        text::pieces(text::joined(lines, seq!['\n']), '\n', '\n') == lines,
    decreases lines.len(),
{
    let front = lines.drop_last();
    let all = text::joined(lines, seq!['\n']);
    assert(is_line(lines[lines.len() - 1]));
    if lines.len() == 1 {
        text::law_separators_part_pieces(Seq::empty(), '\n', lines[0], '\n', '\n');
        assert(lines =~= seq![lines[0]]);
    } else {
        assert(forall|i: int| 0 <= i < front.len() ==> front[i] == lines[i]);
        lemma_pieces_of_lines(front);
        let a = text::joined(front, seq!['\n']);
        text::law_separators_part_pieces(a, '\n', lines.last(), '\n', '\n');
        assert(all =~= a.push('\n') + lines.last());
        assert(front.push(lines.last()) =~= lines);
    }
}

proof fn lemma_all_lines_are_filled(lines: Seq<Seq<char>>, ended: bool)
    requires
        forall|i: int| 0 <= i < lines.len() ==> is_line(#[trigger] lines[i]),
    ensures
        filled_lines(lines, ended) == lines,
    decreases lines.len(),
{
    if lines.len() == 0 {
        assert(lines =~= Seq::<Seq<char>>::empty());
    } else {
        let front = lines.drop_last();
        assert(forall|i: int| 0 <= i < front.len() ==> front[i] == lines[i]);
        lemma_all_lines_are_filled(front, true);
        let last = lines.last();
        assert(is_line(lines[lines.len() - 1]));
        if last.len() > 0 {
            assert(last[last.len() - 1] != '\r');
        }
        assert(front.push(last) =~= lines);
    }
}

proof fn lemma_first_arrow(a: Seq<char>, b: Seq<char>)
    requires
        forall|i: int| 0 <= i < a.len() ==> #[trigger] a[i] != '>',
    ensures
        text::place_from(a + "-->"@ + b, "-->"@, 0) == Some(a.len() as int),
        (a + "-->"@ + b).take(a.len() as int) == a,
        (a + "-->"@ + b).skip(a.len() as int + 3) == b,
{
    reveal_strlit("-->");
    let arrow = "-->"@;
    let s = a + arrow + b;
    text::law_occurs_in_the_middle(a, arrow, b, a);
    assert forall|j: int| 0 <= j < a.len() implies !text::stands_at(s, arrow, j) by {
        if text::stands_at(s, arrow, j) {
            assert(s.subrange(j, j + 3)[2] == arrow[2]);
            assert(s[j + 2] == '>');
            if j + 2 < a.len() {
                assert(a[j + 2] == '>');
            } else {
                assert(s[j + 2] == arrow[j + 2 - a.len()]);
            }
        }
    }
    text::lemma_place(s, arrow, 0);
    assert(s.take(a.len() as int) =~= a);
    assert(s.skip(a.len() as int + 3) =~= b);
}

/// A block of a line with a number, a line with two times and lines of text is a
/// subtitle with that number, exactly those two times, and the text, its lines
/// with a space between them.
pub proof fn law_block_is_a_subtitle(
    number: Seq<char>,
    a: Seq<char>,
    b: Seq<char>,
    words: Seq<Seq<char>>,
)
    requires
        is_line(number) && is_line(a + "-->"@ + b),
        words.len() > 0,
        forall|i: int| 0 <= i < words.len() ==> is_line(#[trigger] words[i]),
        forall|i: int| 0 <= i < a.len() ==> #[trigger] a[i] != '>',
        number::number_of(text::trim(number), usize::MAX as nat) is Some,
        srt_time(text::trim(a)) is Ok,
        srt_time(text::trim(b)) is Ok,
        text::trim(text::joined(words, " "@)).len() > 0,
    ensures
        block_view(text::joined(seq![number, a + "-->"@ + b] + words, "\n"@)) == BlockView::Cue(
            CueView {
                index: number::number_of(text::trim(number), usize::MAX as nat)->0,
                start_ms: srt_time(text::trim(a))->Ok_0,
                end_ms: srt_time(text::trim(b))->Ok_0,
                text: text::trim(text::joined(words, " "@)),
            },
        ),
{
    let lines = seq![number, a + "-->"@ + b] + words;
    reveal_strlit("\n");
    assert("\n"@ =~= seq!['\n']);
    assert forall|i: int| 0 <= i < lines.len() implies is_line(#[trigger] lines[i]) by {
        if i >= 2 {
            assert(lines[i] == words[i - 2]);
        }
    }
    lemma_pieces_of_lines(lines);
    lemma_all_lines_are_filled(lines, false);
    assert(lines.skip(2) =~= words);
    lemma_first_arrow(a, b);
}

/// A block with a faulty time is a fault, and the first of two is told; one without
/// a number, an arrow or a text is passed over.
pub proof fn law_other_blocks_are_no_subtitles(lines: Seq<Seq<char>>)
    requires
        lines.len() > 0,
        forall|i: int| 0 <= i < lines.len() ==> is_line(#[trigger] lines[i]),
    ensures
        ({
            let block = block_view(text::joined(lines, "\n"@));
            &&& lines.len() < 2 ==> block is Skipped
            &&& number::number_of(text::trim(lines[0]), usize::MAX as nat) is None ==> block
                is Skipped
            &&& lines.len() >= 2 && !text::occurs(lines[1], "-->"@) ==> block is Skipped
            &&& lines.len() == 2 ==> block is Skipped
        }),
{
    reveal_strlit("\n");
    reveal_strlit("-->");
    assert("\n"@ =~= seq!['\n']);
    lemma_pieces_of_lines(lines);
    lemma_all_lines_are_filled(lines, false);
    if lines.len() >= 2 {
        text::lemma_place(lines[1], "-->"@, 0);
    }
    if lines.len() == 2 {
        let e = Seq::<char>::empty();
        assert(lines.skip(2) =~= Seq::<Seq<char>>::empty());
        text::law_trim_takes_off_both_ends(e, e, e);
        assert(e + e + e =~= e);
    }
}

/// Faulty times are told: that of the start before that of the end.
pub proof fn law_faulty_times_are_told(
    number: Seq<char>,
    a: Seq<char>,
    b: Seq<char>,
    words: Seq<Seq<char>>,
)
    requires
        is_line(number) && is_line(a + "-->"@ + b),
        words.len() > 0,
        forall|i: int| 0 <= i < words.len() ==> is_line(#[trigger] words[i]),
        forall|i: int| 0 <= i < a.len() ==> #[trigger] a[i] != '>',
        number::number_of(text::trim(number), usize::MAX as nat) is Some,
        srt_time(text::trim(a)) is Err || srt_time(text::trim(b)) is Err,
        text::trim(text::joined(words, " "@)).len() > 0,
    ensures
        ({
            let block = block_view(text::joined(seq![number, a + "-->"@ + b] + words, "\n"@));
            &&& srt_time(text::trim(a)) matches Err(e) ==> block == BlockView::Faulty(e)
            &&& srt_time(text::trim(a)) is Ok ==> block == BlockView::Faulty(
                srt_time(text::trim(b))->Err_0,
            )
        }),
{
    let lines = seq![number, a + "-->"@ + b] + words;
    reveal_strlit("\n");
    assert("\n"@ =~= seq!['\n']);
    assert forall|i: int| 0 <= i < lines.len() implies is_line(#[trigger] lines[i]) by {
        if i >= 2 {
            assert(lines[i] == words[i - 2]);
        }
    }
    lemma_pieces_of_lines(lines);
    lemma_all_lines_are_filled(lines, false);
    assert(lines.skip(2) =~= words);
    lemma_first_arrow(a, b);
}

/// The subtitles of a file come in the order of its blocks: one more block adds
/// its subtitle behind the others, nothing if it is none, and its fault if it is
/// the first.
pub proof fn law_subtitles_keep_the_order_of_blocks(blocks: Seq<Seq<char>>, block: Seq<char>)
    ensures
        cues_of(Seq::<Seq<char>>::empty()) == Ok::<Seq<CueView>, SrtFault>(Seq::empty()),
        cues_of(blocks) is Err ==> cues_of(blocks.push(block)) == cues_of(blocks),
        cues_of(blocks) matches Ok(cues) ==> cues_of(blocks.push(block)) == (match block_view(
            block,
        ) {
            BlockView::Skipped => Ok::<Seq<CueView>, SrtFault>(cues),
            BlockView::Cue(cue) => Ok(cues.push(cue)),
            BlockView::Faulty(e) => Err(e),
        }),
{
    assert(blocks.push(block).drop_last() =~= blocks);
}

/// The blocks of a file are parted by empty lines, and a line may end with a
/// carriage return and a line feed as well as with a line feed.
pub proof fn law_blocks_are_parted_by_empty_lines(raw: Seq<char>)
    ensures
        srt_cues(raw) == cues_of(text::split(text::replaced(raw, "\r\n"@, "\n"@), "\n\n"@)),
        !text::occurs(raw, "\r\n"@) ==> srt_cues(raw) == cues_of(text::split(raw, "\n\n"@)),
        !text::occurs(raw, "\r\n"@) && !text::occurs(raw, "\n\n"@) ==> srt_cues(raw) == (
        match block_view(raw) {
            BlockView::Skipped => Ok::<Seq<CueView>, SrtFault>(Seq::empty()),
            BlockView::Cue(cue) => Ok(seq![cue]),
            BlockView::Faulty(e) => Err(e),
        }),
{
    reveal_strlit("\r\n");
    reveal_strlit("\n\n");
    let e = Seq::<char>::empty();
    text::law_every_place_is_replaced(e, "\r\n"@, "\n"@, raw);
    text::law_split_parts_at_the_first_place(e, "\n\n"@, raw);
    let none = Seq::<Seq<char>>::empty();
    law_subtitles_keep_the_order_of_blocks(none, raw);
    assert(none.push(raw) =~= seq![raw]);
    assert(Seq::<CueView>::empty().push(block_view(raw)->Cue_0) =~= seq![block_view(raw)->Cue_0]);
}

/// What is no time is told: without a comma, with other than three parts before it,
/// or with a part that is no number.
pub proof fn law_other_text_is_no_time(input: Seq<char>, comma: int)
    ensures
        (forall|i: int| 0 <= i < input.len() ==> #[trigger] input[i] != ',') ==> srt_time(input)
            == Err::<nat, SrtFault>(SrtFault::InvalidTime { input }),
        0 <= comma < input.len() && input[comma] == ',' && (forall|i: int|
            0 <= i < comma ==> #[trigger] input[i] != ',') ==> {
            let parts = text::pieces(input.take(comma), ':', ':');
            let millis = text::trim(input.skip(comma + 1));
            &&& !all_numbers(parts) ==> srt_time(input) == Err::<nat, SrtFault>(
                SrtFault::InvalidNumber,
            )
            &&& all_numbers(parts) && parts.len() != 3 ==> srt_time(input) == Err::<nat, SrtFault>(
                SrtFault::InvalidTime { input },
            )
            &&& all_numbers(parts) && parts.len() == 3 && number::number_of(millis, u64::MAX as nat)
                is None ==> srt_time(input) == Err::<nat, SrtFault>(SrtFault::InvalidNumber)
        },
{
    let needle = seq![','];
    text::lemma_place(input, needle, 0);
    assert forall|i: int| text::stands_at(input, needle, i) implies 0 <= i < input.len() && input[i]
        == ',' by {
        assert(input.subrange(i, i + 1)[0] == needle[0]);
    }
    if 0 <= comma < input.len() && input[comma] == ',' {
        assert(input.subrange(comma, comma + 1) =~= needle);
        assert(text::stands_at(input, needle, comma));
    }
    if forall|i: int| 0 <= i < input.len() ==> #[trigger] input[i] != ',' {
        if let Some(i) = text::place_from(input, needle, 0) {
            assert(input[i] == ',');
        }
        assert(text::place_from(input, needle, 0) is None);
    } else if 0 <= comma < input.len() && input[comma] == ',' && (forall|i: int|
        0 <= i < comma ==> #[trigger] input[i] != ',') {
        let i = text::place_from(input, needle, 0)->0;
        assert(input[i] == ',');
        assert(i == comma);
    }
}

/// Of subtitles that follow each other the one is shown that holds the position;
/// between two the earlier one, and before the first the first.
pub proof fn law_shown_subtitle_holds_the_position(v: MediaView, i: int, j: int)
    requires
        is_shown(v, i),
        forall|k: int| 0 <= k < v.cues.len() ==> (#[trigger] v.cues[k]).start_ms <= v.cues[k].end_ms,
        forall|k: int, l: int|
            0 <= k < l < v.cues.len() ==> v.cues[k].end_ms < v.cues[l].start_ms,
        0 <= j < v.cues.len(),
    ensures
        0 <= i < v.cues.len(),
        v.cues[j].start_ms <= v.position_ms <= v.cues[j].end_ms ==> i == j,
        v.cues[j].end_ms < v.position_ms && (j + 1 < v.cues.len() ==> v.position_ms
            < v.cues[j + 1].start_ms) ==> i == j,
        v.position_ms < v.cues[0].start_ms ==> i == 0,
{
    let (cues, position) = (v.cues, v.position_ms);
    assert(cues_in_order(cues, position)) by {
        assert forall|k: int, l: int| 0 <= k <= l < cues.len() implies cue_rank(cues[k], position)
            <= cue_rank(cues[l], position) by {
            if k < l {
                assert(cues[k].end_ms < cues[l].start_ms);
                assert(cues[k].start_ms <= cues[k].end_ms);
                assert(cues[l].start_ms <= cues[l].end_ms);
            }
        }
    }
    assert(is_active(cues, position, i));
    if cues[j].start_ms <= position <= cues[j].end_ms {
        assert(cue_rank(cues[j], position) == 1);
        if i < j {
            assert(cues[i].end_ms < cues[j].start_ms);
        }
        if j < i {
            assert(cues[j].end_ms < cues[i].start_ms);
        }
    } else if cues[j].end_ms < position && (j + 1 < cues.len() ==> position < cues[j
        + 1].start_ms) {
        assert(cue_rank(cues[j], position) == 0) by {
            assert(cues[j].start_ms <= cues[j].end_ms);
        }
        assert forall|k: int| 0 <= k < cues.len() implies cue_rank(#[trigger] cues[k], position)
            != 1 by {
            if k < j {
                assert(cues[k].end_ms < cues[j].start_ms);
            }
            if k > j {
                assert(k == j + 1 || cues[j + 1].end_ms < cues[k].start_ms);
                assert(cues[j + 1].start_ms <= cues[j + 1].end_ms);
            }
        }
        if i < j {
            assert(cue_rank(cues[j], position) == 2);
        }
        if j < i {
            assert(i == j + 1 || cues[j + 1].end_ms < cues[i].start_ms);
            assert(cues[j + 1].start_ms <= cues[j + 1].end_ms);
        }
    } else if position < cues[0].start_ms {
        assert forall|k: int| 0 <= k < cues.len() implies cue_rank(#[trigger] cues[k], position)
            == 2 by {
            if k > 0 {
                assert(cues[0].end_ms < cues[k].start_ms);
                assert(cues[0].start_ms <= cues[0].end_ms);
            }
        }
    }
}

/// While it plays the position goes on by a millisecond for each millisecond on
/// the clock; while it does not, the position stays.
pub proof fn law_a_millisecond_is_a_millisecond(v: MediaView, now: nat, ms: nat, rest: nat)
    requires
        rest < 1_000_000,
    ensures
        ({
            let later = now + 1_000_000 * ms + rest;
            &&& refreshed(resumed(v, now), later).position_ms == v.position_ms + ms
            &&& resumed(v, now).playing
            &&& !paused(resumed(v, now), later).playing
            &&& paused(resumed(v, now), later).position_ms == v.position_ms + ms
            &&& !v.playing ==> refreshed(v, later).position_ms == v.position_ms
        }),
{
    assert((1_000_000 * ms + rest) / 1_000_000 == ms);
}

/// A move goes as far as asked for, but not before the start nor behind the end.
pub proof fn law_move_stops_at_the_ends(v: MediaView, delta_ms: int, now: nat)
    requires
        v.duration_ms <= u64::MAX,
        !v.playing,
    ensures
        ({
            let target = v.position_ms + delta_ms;
            let got = sought(v, delta_ms, now).position_ms;
            &&& target < 0 ==> got == 0
            &&& v.duration_ms > 0 && target > v.duration_ms ==> got == v.duration_ms
            &&& 0 <= target <= v.duration_ms ==> got == target
            &&& v.duration_ms == 0 && 0 <= target <= u64::MAX ==> got == target
        }),
        positioned(v, 0, now).position_ms == 0,
{
}

/// The audio lasts until its last subtitle ends, and a player starts at its
/// beginning without playing.
pub proof fn law_audio_lasts_until_the_last_subtitle(
    audio: Seq<char>,
    srt: Seq<char>,
    cues: Seq<CueView>,
    cue: CueView,
    now: nat,
)
    ensures
        loaded(audio, srt, cues.push(cue), now).duration_ms == cue.end_ms,
        loaded(audio, srt, Seq::empty(), now).duration_ms == 0,
        ({
            let m = loaded(audio, srt, cues, now);
            &&& m.audio_path == audio && m.srt_path == srt && m.cues == cues
            &&& m.position_ms == 0 && !m.playing && m.last_report is None
        }),
{
    assert(cues.push(cue).last() == cue);
}

/// A position is shown as minutes and seconds, two digits each, with hours before
/// them from the first hour on.
pub proof fn law_position_is_shown_as_a_time(h: nat, m: nat, s: nat, k: nat)
    requires
        m < 60 && s < 60 && k < 1000,
    ensures
        h == 0 ==> media_time(((h * 60 + m) * 60 + s) * 1000 + k) == number::dec2(m) + ":"@
            + number::dec2(s),
        h > 0 ==> media_time(((h * 60 + m) * 60 + s) * 1000 + k) == number::dec2(h) + ":"@
            + number::dec2(m) + ":"@ + number::dec2(s),
{
    let total = (h * 60 + m) * 60 + s;
    let rest = m * 60 + s;
    vstd::arithmetic::div_mod::lemma_fundamental_div_mod_converse(
        (total * 1000 + k) as int,
        1000,
        total as int,
        k as int,
    );
    vstd::arithmetic::div_mod::lemma_fundamental_div_mod_converse(
        total as int,
        3600,
        h as int,
        rest as int,
    );
    vstd::arithmetic::div_mod::lemma_fundamental_div_mod_converse(
        rest as int,
        60,
        m as int,
        s as int,
    );
    vstd::arithmetic::div_mod::lemma_fundamental_div_mod_converse(
        total as int,
        60,
        (h * 60 + m) as int,
        s as int,
    );
}

/// A position in seconds has three decimals.
pub proof fn law_position_in_seconds(secs: nat, a: nat, b: nat, c: nat)
    requires
        a < 10 && b < 10 && c < 10,
    ensures
        seconds_text(1000 * secs + 100 * a + 10 * b + c) == number::dec(secs) + "."@ + number::dec(
            a,
        ) + number::dec(b) + number::dec(c),
{
    let ms = 1000 * secs + 100 * a + 10 * b + c;
    let rest = 100 * a + 10 * b + c;
    let hundreds = 10 * secs + a;
    let tens = 10 * hundreds + b;
    vstd::arithmetic::div_mod::lemma_fundamental_div_mod_converse(
        ms as int,
        1000,
        secs as int,
        rest as int,
    );
    vstd::arithmetic::div_mod::lemma_fundamental_div_mod_converse(
        rest as int,
        100,
        a as int,
        (10 * b + c) as int,
    );
    vstd::arithmetic::div_mod::lemma_fundamental_div_mod_converse(
        ms as int,
        100,
        hundreds as int,
        (10 * b + c) as int,
    );
    vstd::arithmetic::div_mod::lemma_fundamental_div_mod_converse(
        (10 * b + c) as int,
        10,
        b as int,
        c as int,
    );
    vstd::arithmetic::div_mod::lemma_fundamental_div_mod_converse(
        ms as int,
        10,
        tens as int,
        c as int,
    );
}

/// The first cells of a bar are full, as many as asked for, and the others empty.
pub proof fn law_bar_fills_from_the_left(filled: nat, width: nat, i: int)
    requires
        0 <= i < width,
    ensures
        i < filled ==> bar(filled, width)[i] == '█',
        i >= filled ==> bar(filled, width)[i] == '░',
        repeated('x', width).len() == width && repeated('x', width)[i] == 'x',
{
}

/// A player that plays is stopped where its clock stands and the audio with it; one
/// that does not play stays as it is and the audio is started from its position.
pub proof fn law_switch_stops_or_starts(v: MediaView, now: nat, ms: nat, position_ms: u64)
    ensures
        ({
            let r = toggled(resumed(v, now), now + 1_000_000 * ms);
            !r.playing && r.position_ms == v.position_ms + ms && r.cues == v.cues
        }),
        !v.playing ==> toggled(v, now) == v,
        toggle_command(true, position_ms) == PlayerCommand::Stop,
        toggle_command(false, position_ms) == (PlayerCommand::Start { position_ms }),
        seek_command(true, position_ms) == (PlayerCommand::Start { position_ms }),
        seek_command(false, position_ms) == PlayerCommand::Keep,
{
    law_a_millisecond_is_a_millisecond(v, now, ms, 0);
}

/// A player that plays moves from where its clock stands, and plays on from there.
pub proof fn law_move_starts_where_the_clock_stands(
    v: MediaView,
    now: nat,
    ms: nat,
    delta_ms: int,
    more: nat,
)
    requires
        0 <= v.position_ms + ms + delta_ms <= v.duration_ms <= u64::MAX,
    ensures
        ({
            let later = now + 1_000_000 * ms;
            let r = sought(resumed(v, now), delta_ms, later);
            &&& r.playing
            &&& r.position_ms == v.position_ms + ms + delta_ms
            &&& refreshed(r, later + 1_000_000 * more).position_ms == v.position_ms + ms + delta_ms
                + more
            &&& r.cues == v.cues && r.duration_ms == v.duration_ms && r.audio_path == v.audio_path
                && r.srt_path == v.srt_path && r.last_report == v.last_report
        }),
{
    law_a_millisecond_is_a_millisecond(v, now, ms, 0);
    let later = now + 1_000_000 * ms;
    let r = sought(resumed(v, now), delta_ms, later);
    assert((1_000_000 * more) / 1_000_000 == more);
    assert(r.anchor_started_at == later);
}

/// Without its audio or its subtitles there is no default player; with both there is
/// one with all subtitles, unless one of them has a faulty time.
pub proof fn law_default_player_needs_both_files(raw: Seq<char>, now: nat)
    ensures
        default_media(false, true, raw, now) == Ok::<Option<MediaView>, SrtFault>(None),
        default_media(true, false, raw, now) == Ok::<Option<MediaView>, SrtFault>(None),
        default_media(false, false, raw, now) == Ok::<Option<MediaView>, SrtFault>(None),
        match srt_cues(raw) {
            Ok(cues) => {
                let r = default_media(true, true, raw, now);
                &&& r is Ok && r->Ok_0 is Some
                &&& r->Ok_0->0.cues == cues && r->Ok_0->0.position_ms == 0 && !r->Ok_0->0.playing
                &&& r->Ok_0->0.audio_path == "ARC_Raiders_is_getting_DARKER....mp3"@
                &&& r->Ok_0->0.srt_path == "ARC_Raiders_is_getting_DARKER....en.srt"@
            },
            Err(e) => default_media(true, true, raw, now) == Err::<Option<MediaView>, SrtFault>(e),
        },
{
}

} // verus!
