# ASR Compare TUI

Compares speech recognisers on one audio stream, side by side in the terminal:
how well they hear, how they cope with noise, how soon they answer, and how they
set punctuation.

## Layout

- `src/` is the library: everything that the program decides, stated in contracts
  and proved with Verus.
  - `segments` cuts sentences off the text of a recogniser that streams.
  - `vad` gathers samples into stretches of speech, by loudness or by a model.
  - `engine` holds what each recogniser has said, and how recognisers are set up.
  - `media` reads subtitles and follows the position of what is played.
  - `system_audio` sets the tap on the system's sound up and takes it down, and
    plans how its blocks become one channel.
  - `app`, `report` and `ui` are the state of the program, its report, and what
    each screen shows.
  - `text`, `number`, `models`, `config`, `capture` and `util` are what these
    share.
- `app/` is the program around the library: the terminal, files, processes, the
  audio system, and all arithmetic on samples. Recording and recognition run on
  macOS 14.4 or later; microphones come from the `arcvoice-core` crate.
- `tests/` runs the library on examples.

Proof functions whose names begin with `law_` state what holds of the library as
a whole.

## Time and fractions

The library has no clock and no floating-point numbers. Times on the clock are
nanoseconds since an origin that the caller picks. Thresholds that are fractions
are either whole numbers of samples or are carried through unread, and
measurements that are shown arrive as text.
