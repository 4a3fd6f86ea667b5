//! Constants and settings read from text.

use vstd::prelude::*;
use vstd::string::*;

use crate::text;

verus! {

/// How many final texts a slot shows at most.
pub const FINALS_RETAIN: usize = 6;

/// How many changes of the partial a streaming slot remembers at most.
pub const PARTIAL_HISTORY_RETAIN: usize = 2000;

/// How long the main loop waits for a key, in milliseconds.
pub const POLL_INTERVAL_MS: u64 = 50;

/// Samples a second that the recognisers take.
pub const VAD_SAMPLE_RATE: usize = 16_000;

/// Samples that the voice activity model looks at together.
pub const SILERO_VAD_WINDOW_SIZE: i32 = 512;

/// Seconds of audio that the voice activity model keeps.
pub const SILERO_VAD_BUFFER_SEC: u32 = 10;

/// After how many silent samples speech ends, where loudness decides: 0.4 s.
pub const RMS_SILENCE_SAMPLES: usize = 6_400;

/// How many samples are gathered at most, where loudness decides: 8 s.
pub const RMS_BUFFER_SAMPLES: usize = 128_000;

/// How many samples of speech count as speech at the end of a stream: 0.3 s.
pub const TAIL_SPEECH_SAMPLES: usize = 4_800;

/// The audio that is played if it is there.
pub const DEFAULT_MEDIA_MP3: &'static str = "ARC_Raiders_is_getting_DARKER....mp3";

/// The subtitles of that audio.
pub const DEFAULT_MEDIA_SRT: &'static str = "ARC_Raiders_is_getting_DARKER....en.srt";

/// `parts`, each trimmed, without those that are blank.
pub open spec fn trimmed_parts(parts: Seq<Seq<char>>) -> Seq<Seq<char>>
    decreases parts.len(),
{
    if parts.len() == 0 {
        Seq::empty()
    } else {
        let before = trimmed_parts(parts.drop_last());
        let word = text::trim(parts.last());
        if word.len() == 0 {
            before
        } else {
            before.push(word)
        }
    }
}

/// The hot words of a list that commas or line ends separate.
pub fn hotwords(raw: &str) -> (r: Vec<String>)
    ensures
        text::texts(r@) == trimmed_parts(text::pieces(raw@, ',', '\n')),
{
    let parts = text::pieces_of(raw, ',', '\n');
    let ghost all = text::texts(parts@);
    let mut out: Vec<String> = Vec::new();
    let mut i: usize = 0;
    proof {
        assert(all.take(0) =~= Seq::<Seq<char>>::empty());
        assert(text::texts(out@) =~= Seq::<Seq<char>>::empty());
    }
    while i < parts.len()
        invariant
            i <= parts@.len(),
            all == text::texts(parts@),
            text::texts(out@) == trimmed_parts(all.take(i as int)),
        decreases parts@.len() - i,
    {
        let word = text::trim_text(parts[i].as_str());
        let ghost before = text::texts(out@);
        proof {
            assert(all.take(i + 1).drop_last() =~= all.take(i as int));
            assert(all.take(i + 1).last() == parts@[i as int]@);
        }
        if !word.as_str().is_empty() {
            out.push(word);
            proof {
                assert(text::texts(out@) =~= before.push(word@));
            }
        }
        i = i + 1;
    }
    proof {
        assert(all.take(all.len() as int) =~= all);
    }
    out
}

/// Every hot word has a character and no white space at either end.
pub proof fn law_hotwords_are_trimmed(parts: Seq<Seq<char>>)
    ensures
        forall|i: int|
            0 <= i < trimmed_parts(parts).len() ==> (#[trigger] trimmed_parts(parts)[i]).len() > 0
                && text::trim(trimmed_parts(parts)[i]) == trimmed_parts(parts)[i],
        trimmed_parts(parts).len() <= parts.len(),
    decreases parts.len(),
{
    if parts.len() > 0 {
        law_hotwords_are_trimmed(parts.drop_last());
        text::lemma_trim_idempotent(parts.last());
    }
}

/// Times and bounds in samples: 0.4 s of silence end speech by loudness, 8 s are
/// gathered at most, and 0.3 s count as speech, at 16 000 samples a second.
pub proof fn law_times_in_samples()
    ensures
        VAD_SAMPLE_RATE == 16_000,
        10 * RMS_SILENCE_SAMPLES == 4 * 16_000,
        RMS_BUFFER_SAMPLES == 8 * 16_000,
        10 * TAIL_SPEECH_SAMPLES == 3 * 16_000,
        SILERO_VAD_WINDOW_SIZE == 512,
        SILERO_VAD_BUFFER_SEC == 10,
        FINALS_RETAIN == 6,
        PARTIAL_HISTORY_RETAIN == 2_000,
        POLL_INTERVAL_MS == 50,
        DEFAULT_MEDIA_MP3@ == "ARC_Raiders_is_getting_DARKER....mp3"@,
        DEFAULT_MEDIA_SRT@ == "ARC_Raiders_is_getting_DARKER....en.srt"@,
{
}

/// Hot words are the parts between commas and line ends, trimmed and in order; a
/// blank part is none.
pub proof fn law_parts_are_hotwords(
    raw: Seq<char>,
    sep: char,
    left: Seq<char>,
    word: Seq<char>,
    right: Seq<char>,
)
    requires
        sep == ',' || sep == '\n',
        forall|i: int|
            0 <= i < (left + word + right).len() ==> #[trigger] (left + word + right)[i] != ',' && (
            left + word + right)[i] != '\n',
        forall|i: int| 0 <= i < left.len() ==> text::is_space(#[trigger] left[i]),
        forall|i: int| 0 <= i < right.len() ==> text::is_space(#[trigger] right[i]),
        word.len() > 0 ==> !text::is_space(word[0]) && !text::is_space(word.last()),
    ensures
        ({
            let before = trimmed_parts(text::pieces(raw, ',', '\n'));
            let after = trimmed_parts(
                text::pieces(raw.push(sep) + (left + word + right), ',', '\n'),
            );
            &&& word.len() > 0 ==> after == before.push(word)
            &&& word.len() == 0 ==> after == before
        }),
        word.len() > 0 ==> trimmed_parts(text::pieces(left + word + right, ',', '\n'))
            == seq![word],
{
    let part = left + word + right;
    text::law_separators_part_pieces(raw, sep, part, ',', '\n');
    text::law_trim_takes_off_both_ends(left, word, right);
    let before = text::pieces(raw, ',', '\n');
    assert(before.push(part).drop_last() =~= before);
    assert(seq![part].drop_last() =~= Seq::<Seq<char>>::empty());
    assert(trimmed_parts(Seq::<Seq<char>>::empty()) == Seq::<Seq<char>>::empty());
    assert(Seq::<Seq<char>>::empty().push(word) =~= seq![word]);
}

} // verus!
