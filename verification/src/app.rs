//! The running program: its slots, its log, the media player, and what keys do.

use vstd::prelude::*;
use vstd::string::*;

use crate::engine;
use crate::engine::offline;
use crate::engine::online;
use crate::engine::online::{FrameOutcome, FrameReply, OutcomeView, ReplyView};
use crate::engine::{AnySlot, AnyView, SlotView};
use crate::media;
use crate::media::{MediaState, MediaView, PlayerCommand};
use crate::text;
use crate::ui::keys;
use crate::ui::keys::{Key, KeyPress};
use crate::util;
use crate::vad;
use crate::vad::{VadState, VadView};

verus! {

/// The running program. `T` is the type of a sample.
pub struct App<T> {
    pub slots: Vec<AnySlot>,
    pub vad: VadState<T>,
    pub log: Vec<String>,
    /// When the program started, in nanoseconds.
    pub started_at: u64,
    pub source_label: String,
    pub active_slot: usize,
    pub media: Option<MediaState>,
    /// The audio comes from the file that is played.
    pub sample_file_mode: bool,
}

/// The running program, lists taken as sequences.
#[verifier::ext_equal]
pub struct AppView<T> {
    pub slots: Seq<AnyView>,
    pub vad: VadView<T>,
    pub log: Seq<Seq<char>>,
    pub started_at: u64,
    pub source_label: Seq<char>,
    pub active_slot: nat,
    pub media: Option<MediaView>,
    pub sample_file_mode: bool,
}

impl<T> View for App<T> {
    type V = AppView<T>;

    open spec fn view(&self) -> AppView<T> {
        AppView {
            slots: engine::slot_views(self.slots@),
            vad: self.vad@,
            log: text::texts(self.log@),
            started_at: self.started_at,
            source_label: self.source_label@,
            active_slot: self.active_slot as nat,
            media: match self.media {
                Some(m) => Some(m@),
                None => None,
            },
            sample_file_mode: self.sample_file_mode,
        }
    }
}

/// The active slot is one of the slots, or the first place if there are none.
pub open spec fn app_ok<T>(v: AppView<T>) -> bool {
    v.active_slot < v.slots.len() || v.active_slot == 0
}

/// The voice activity before the first frame.
pub open spec fn vad_reset<T>(v: VadView<T>) -> VadView<T> {
    vad::vad_empty(
        match v.inner {
            vad::ImplView::Rms(state) => vad::ImplView::Rms(vad::rms_empty(state.buffer_limit)),
            other => other,
        },
    )
}

/// The program with everything that was said forgotten.
pub open spec fn app_cleared<T>(v: AppView<T>) -> AppView<T> {
    AppView {
        slots: v.slots.map_values(|s: AnyView| engine::cleared(s)),
        vad: vad_reset(v.vad),
        log: Seq::empty(),
        ..v
    }
}

/// The line about a slot that was switched.
pub open spec fn switch_line(name: Seq<char>, enabled: bool) -> Seq<char> {
    "["@ + name + "] 已"@ + (if enabled {
        "启用"@
    } else {
        "禁用"@
    })
}

/// The program with a line more in its log.
pub open spec fn app_logged<T>(v: AppView<T>, line: Seq<char>) -> AppView<T> {
    AppView { log: util::capped_push(v.log, line, util::LOG_RETAIN as nat), ..v }
}

/// What is logged if the media could not be started or stopped.
pub open spec fn toggle_failure_line(error: Seq<char>) -> Seq<char> {
    "播放切换失败: "@ + error
}

/// What is logged if the media could not be moved.
pub open spec fn seek_failure_line(error: Seq<char>) -> Seq<char> {
    "跳转失败: "@ + error
}

/// What is logged if the media plays.
pub open spec fn media_start_line(file: Seq<char>) -> Seq<char> {
    "已开始播放: "@ + file
}

/// What is logged if the media does not play.
pub open spec fn media_failure_line(error: Seq<char>) -> Seq<char> {
    "音频播放启动失败: "@ + error
}

/// The program after its report was written to `path`.
pub open spec fn app_reported<T>(v: AppView<T>, path: Seq<char>) -> AppView<T> {
    app_logged(
        AppView {
            media: match v.media {
                Some(m) => Some(MediaView { last_report: Some(path), ..m }),
                None => None,
            },
            ..v
        },
        "报告已导出: "@ + path,
    )
}

/// The program after its report could not be written.
pub open spec fn app_unreported<T>(v: AppView<T>, error: Seq<char>) -> AppView<T> {
    app_logged(v, "报告导出失败: "@ + error)
}

/// The program with the slot at `index` switched, if there is one.
pub open spec fn app_toggled<T>(v: AppView<T>, index: nat) -> AppView<T> {
    if index < v.slots.len() {
        let slot = v.slots[index as int];
        let enabled = !engine::common(slot).enabled;
        app_logged(
            AppView { slots: v.slots.update(index as int, engine::switched(slot, enabled)), ..v },
            switch_line(engine::slot_name(slot), enabled),
        )
    } else {
        v
    }
}

/// The active slot moved by `delta`, within the slots.
pub open spec fn active_moved(active: nat, slots: nat, delta: int) -> nat {
    if slots == 0 || active + delta < 0 {
        0
    } else if active + delta >= slots {
        (slots - 1) as nat
    } else {
        (active + delta) as nat
    }
}

/// A scroll position moved by `delta`, within 16 bits.
pub open spec fn scroll_moved(scroll: u16, delta: int) -> u16 {
    if scroll + delta < 0 {
        0
    } else if scroll + delta > u16::MAX {
        u16::MAX
    } else {
        (scroll + delta) as u16
    }
}

/// The program with the active slot scrolled to `scroll`.
pub open spec fn active_scrolled<T>(v: AppView<T>, scroll: u16) -> AppView<T> {
    let i = v.active_slot as int;
    if v.active_slot < v.slots.len() {
        AppView { slots: v.slots.update(i, engine::scrolled(v.slots[i], scroll)), ..v }
    } else {
        v
    }
}

/// The program with the active slot scrolled by `delta`.
pub open spec fn app_scrolled<T>(v: AppView<T>, delta: int) -> AppView<T> {
    active_scrolled(
        v,
        scroll_moved(engine::common(v.slots[v.active_slot as int]).finals_scroll, delta),
    )
}

/// The media clock can be read at `now`.
pub open spec fn app_clock_fits<T>(v: AppView<T>, now: u64) -> bool {
    match v.media {
        Some(m) => media::clock_fits(m, now),
        None => true,
    }
}

/// What the caller has to do for a key that is about the media.
#[derive(Clone, Copy, Debug, PartialEq, Eq, Structural)]
pub enum MediaAction {
    Nothing,
    /// Obey the player, and log a failure as one of toggling.
    Toggle(PlayerCommand),
    /// Obey the player, and log a failure as one of moving.
    Seek(PlayerCommand),
    /// Write the report.
    Export,
}

/// By how many milliseconds a key moves the media.
pub open spec fn seek_delta(key: Key) -> Option<int> {
    if key == Key::Char('h') {
        Some(-10_000)
    } else if key == Key::Char('l') {
        Some(10_000)
    } else if key == Key::Char('H') {
        Some(-60_000)
    } else if key == Key::Char('L') {
        Some(60_000)
    } else {
        None
    }
}

/// What a key that is about the media does to the player, and what the caller
/// has to do.
pub open spec fn media_key(m: MediaView, key: Key, now: nat) -> (MediaView, MediaAction) {
    if key == Key::Char(' ') {
        if m.playing {
            (media::paused(m, now), MediaAction::Toggle(PlayerCommand::Stop))
        } else {
            (
                m,
                MediaAction::Toggle(PlayerCommand::Start { position_ms: m.position_ms as u64 }),
            )
        }
    } else {
        match seek_delta(key) {
            Some(delta) => {
                let after = media::sought(m, delta, now);
                (
                    after,
                    MediaAction::Seek(
                        if m.playing {
                            PlayerCommand::Start { position_ms: after.position_ms as u64 }
                        } else {
                            PlayerCommand::Keep
                        },
                    ),
                )
            },
            None => (m, MediaAction::Nothing),
        }
    }
}

/// What a key that is about the media does, and what the caller has to do.
pub open spec fn app_media_key<T>(v: AppView<T>, key: Key, now: nat) -> (AppView<T>, MediaAction) {
    if key == Key::Char('e') {
        (v, MediaAction::Export)
    } else {
        match v.media {
            Some(m) => {
                let (after, action) = media_key(m, key, now);
                (AppView { media: Some(after), ..v }, action)
            },
            None => (v, MediaAction::Nothing),
        }
    }
}

/// What a key that moves, scrolls or switches does.
pub open spec fn app_move_key<T>(v: AppView<T>, key: Key) -> AppView<T> {
    match key {
        Key::Left => AppView {
            active_slot: active_moved(v.active_slot, v.slots.len(), -1),
            ..v
        },
        Key::Right => AppView { active_slot: active_moved(v.active_slot, v.slots.len(), 1), ..v },
        Key::Up => app_scrolled(v, -1),
        Key::Down => app_scrolled(v, 1),
        Key::PageUp => app_scrolled(v, -6),
        Key::PageDown => app_scrolled(v, 6),
        Key::Home => active_scrolled(v, 0),
        _ => match keys::digit_place(key) {
            Some(i) => app_toggled(v, i),
            None => v,
        },
    }
}

/// What a key does, and what the caller has to do; nothing if the key ends the
/// program.
pub open spec fn app_key<T>(v: AppView<T>, press: KeyPress, now: nat) -> (
    AppView<T>,
    Option<MediaAction>,
) {
    if keys::quits(press) {
        (v, None)
    } else {
        let c = if press.key == Key::Char('c') {
            app_cleared(v)
        } else {
            v
        };
        let (m, action) = app_media_key(c, press.key, now);
        (app_move_key(m, press.key), Some(action))
    }
}

/// The line about a text that a recogniser ended with.
pub open spec fn final_line(name: Seq<char>, text: Seq<char>) -> Seq<char> {
    "["@ + name + "] final: "@ + text
}

impl<T: Copy> App<T> {
    /// Forgets everything that was said.
    pub fn clear(&mut self)
        ensures
            final(self)@ == app_cleared(old(self)@),
    {
        let ghost v = self@;
        let n: usize = self.slots.len();
        let mut i: usize = 0;
        while i < n
            invariant
                i <= n == self.slots@.len(),
                v == old(self)@,
                n == v.slots.len(),
                self@ == (AppView { slots: self@.slots, ..v }),
                forall|j: int|
                    0 <= j < i ==> (#[trigger] self.slots@[j])@ == engine::cleared(v.slots[j]),
                forall|j: int| i <= j < n ==> (#[trigger] self.slots@[j])@ == v.slots[j],
            decreases n - i,
        {
            self.slots[i].clear();
            i = i + 1;
        }
        self.vad.reset();
        self.log.clear();
        proof {
            assert(self@.slots =~= app_cleared(v).slots);
            assert(text::texts(self.log@) =~= Seq::<Seq<char>>::empty());
        }
    }

    /// Switches the slot at `index` on or off, if there is one.
    pub fn toggle(&mut self, index: usize)
        ensures
            final(self)@ == app_toggled(old(self)@, index as nat),
    {
        if index < self.slots.len() {
            let ghost v = self@;
            proof {
                assert(v.slots[index as int] == self.slots@[index as int]@);
            }
            let enabled = !self.slots[index].enabled();
            self.slots[index].set_enabled(enabled);
            proof {
                assert(self@.slots =~= v.slots.update(
                    index as int,
                    engine::switched(v.slots[index as int], enabled),
                ));
            }
            let mut line = "[".to_owned();
            line.append(self.slots[index].name());
            line.append("] 已");
            line.append(
                if enabled {
                    "启用"
                } else {
                    "禁用"
                },
            );
            util::push_log(&mut self.log, line);
        }
    }

    /// Moves to another slot.
    pub fn move_active_slot(&mut self, delta: isize)
        ensures
            final(self)@ == (AppView {
                active_slot: active_moved(
                    old(self)@.active_slot,
                    old(self)@.slots.len(),
                    delta as int,
                ),
                ..old(self)@
            }),
    {
        let n: usize = self.slots.len();
        let next: i128 = self.active_slot as i128 + delta as i128;
        self.active_slot = if n == 0 || next < 0 {
            0
        } else if next >= n as i128 {
            n - 1
        } else {
            next as usize
        };
    }

    /// Scrolls the active slot.
    pub fn scroll_active_slot(&mut self, delta: i16)
        ensures
            final(self)@ == app_scrolled(old(self)@, delta as int),
    {
        let i: usize = self.active_slot;
        if i < self.slots.len() {
            let ghost v = self@;
            proof {
                assert(v.slots[i as int] == self.slots@[i as int]@);
            }
            let scroll: i32 = self.slots[i].finals_scroll() as i32 + delta as i32;
            let next: u16 = if scroll < 0 {
                0
            } else if scroll > 0xffff {
                0xffff
            } else {
                scroll as u16
            };
            self.slots[i].set_finals_scroll(next);
            proof {
                assert(self@.slots =~= v.slots.update(
                    i as int,
                    engine::scrolled(v.slots[i as int], next),
                ));
            }
        }
    }

    /// Scrolls the active slot back to its start.
    pub fn reset_active_scroll(&mut self)
        ensures
            final(self)@ == active_scrolled(old(self)@, 0),
    {
        let i: usize = self.active_slot;
        if i < self.slots.len() {
            let ghost v = self@;
            proof {
                assert(v.slots[i as int] == self.slots@[i as int]@);
            }
            self.slots[i].set_finals_scroll(0);
            proof {
                assert(self@.slots =~= v.slots.update(
                    i as int,
                    engine::scrolled(v.slots[i as int], 0),
                ));
            }
        }
    }

    /// Brings the position of the media up to date.
    pub fn refresh_media(&mut self, now: u64)
        requires
            app_clock_fits(old(self)@, now),
        ensures
            final(self)@ == (AppView {
                media: match old(self)@.media {
                    Some(m) => Some(media::refreshed(m, now as nat)),
                    None => None,
                },
                ..old(self)@
            }),
    {
        if let Some(m) = &mut self.media {
            m.refresh_position(now);
        }
    }

    /// Takes a key that is about the media; tells what the caller has to do.
    pub fn handle_media_key(&mut self, key: Key, now: u64) -> (r: MediaAction)
        requires
            app_clock_fits(old(self)@, now),
        ensures
            (final(self)@, r) == app_media_key(old(self)@, key, now as nat),
    {
        let c: char = match key {
            Key::Char(c) => c,
            _ => return MediaAction::Nothing,
        };
        if c == 'e' {
            return MediaAction::Export;
        }
        let delta: i64 = if c == 'h' {
            -10_000
        } else if c == 'l' {
            10_000
        } else if c == 'H' {
            -60_000
        } else if c == 'L' {
            60_000
        } else {
            0
        };
        match &mut self.media {
            Some(m) => {
                if c == ' ' {
                    MediaAction::Toggle(m.toggle_play(now))
                } else if delta != 0 {
                    MediaAction::Seek(m.seek_by(delta, now))
                } else {
                    MediaAction::Nothing
                }
            },
            None => MediaAction::Nothing,
        }
    }

    /// Takes a key; tells what the caller has to do, nothing if the key ends
    /// the program.
    pub fn handle_key(&mut self, press: &KeyPress, now: u64) -> (r: Option<MediaAction>)
        requires
            app_clock_fits(old(self)@, now),
        ensures
            (final(self)@, r) == app_key(old(self)@, *press, now as nat),
    {
        if keys::should_quit(press) {
            return None;
        }
        let clears = match press.key {
            Key::Char(c) => c == 'c',
            _ => false,
        };
        if clears {
            self.clear();
        }
        let action = self.handle_media_key(press.key, now);
        match press.key {
            Key::Left => self.move_active_slot(-1),
            Key::Right => self.move_active_slot(1),
            Key::Up => self.scroll_active_slot(-1),
            Key::Down => self.scroll_active_slot(1),
            Key::PageUp => self.scroll_active_slot(-6),
            Key::PageDown => self.scroll_active_slot(6),
            Key::Home => self.reset_active_scroll(),
            key => {
                if let Some(i) = keys::digit_index(key) {
                    self.toggle(i);
                }
            },
        }
        Some(action)
    }

    /// Logs a text that a recogniser ended with.
    pub fn note_final(&mut self, name: &str, final_text: &str)
        ensures
            final(self)@ == app_logged(old(self)@, final_line(name@, final_text@)),
    {
        let mut line = "[".to_owned();
        line.append(name);
        line.append("] final: ");
        line.append(final_text);
        util::push_log(&mut self.log, line);
    }

    /// Logs that the media could not be started or stopped.
    pub fn note_toggle_failure(&mut self, error: &str)
        ensures
            final(self)@ == app_logged(old(self)@, toggle_failure_line(error@)),
    {
        let mut line = "播放切换失败: ".to_owned();
        line.append(error);
        util::push_log(&mut self.log, line);
    }

    /// Logs that the media could not be moved.
    pub fn note_seek_failure(&mut self, error: &str)
        ensures
            final(self)@ == app_logged(old(self)@, seek_failure_line(error@)),
    {
        let mut line = "跳转失败: ".to_owned();
        line.append(error);
        util::push_log(&mut self.log, line);
    }

    /// Logs where the report was written, or why it was not.
    pub fn note_report(&mut self, written: Result<&str, &str>)
        ensures
            match written {
                Ok(path) => final(self)@ == app_reported(old(self)@, path@),
                Err(error) => final(self)@ == app_unreported(old(self)@, error@),
            },
    {
        match written {
            Ok(path) => {
                if let Some(m) = &mut self.media {
                    m.last_report = Some(path.to_owned());
                }
                let mut line = "报告已导出: ".to_owned();
                line.append(path);
                util::push_log(&mut self.log, line);
            },
            Err(error) => {
                let mut line = "报告导出失败: ".to_owned();
                line.append(error);
                util::push_log(&mut self.log, line);
            },
        }
    }

    /// Logs that the media plays, or why it does not.
    pub fn note_media_start(&mut self, started: Result<&str, &str>)
        ensures
            final(self)@ == app_logged(
                old(self)@,
                match started {
                    Ok(file) => media_start_line(file@),
                    Err(error) => media_failure_line(error@),
                },
            ),
    {
        let line = match started {
            Ok(file) => {
                let mut line = "已开始播放: ".to_owned();
                line.append(file);
                line
            },
            Err(error) => {
                let mut line = "音频播放启动失败: ".to_owned();
                line.append(error);
                line
            },
        };
        util::push_log(&mut self.log, line);
    }
}

// ─── Audio ─────────────────────────────────────────────────────────────

/// The replies of a list.
pub open spec fn reply_views(list: Seq<FrameReply>) -> Seq<ReplyView> {
    list.map_values(|r: FrameReply| r@)
}

/// The outcomes of a list.
pub open spec fn outcome_views(list: Seq<FrameOutcome>) -> Seq<OutcomeView> {
    list.map_values(|o: FrameOutcome| o@)
}

/// Nothing comes of a frame.
pub open spec fn no_outcome() -> OutcomeView {
    OutcomeView { final_text: None, reset: false, voices_used: 0 }
}

/// The counters of a slot can take a frame with this text.
pub open spec fn slot_fits(slot: AnyView, partial: Seq<char>, now: u64) -> bool {
    match slot {
        AnyView::Online(s) => s.enabled && s.use_custom_endpoint ==> online::frame_fits(
            s,
            partial,
            now,
        ),
        AnyView::Offline(_) => true,
    }
}

/// What a frame does to the program if only the first `n` slots take it: each
/// slot that streams takes the reply at its place, and a text that it ends with
/// is logged.
pub open spec fn frame_taken<T>(v: AppView<T>, replies: Seq<ReplyView>, now: u64, n: nat) -> AppView<T>
    decreases n,
{
    if n == 0 {
        v
    } else {
        let i = n - 1;
        let w = frame_taken(v, replies, now, i as nat);
        match v.slots[i] {
            AnyView::Online(slot) => {
                let (after, outcome) = online::frame_fed(slot, replies[i], now);
                let x = AppView { slots: w.slots.update(i, AnyView::Online(after)), ..w };
                match outcome.final_text {
                    Some(t) => app_logged(x, final_line(slot.name, t)),
                    None => x,
                }
            },
            AnyView::Offline(_) => w,
        }
    }
}

/// What comes of a frame for each slot.
pub open spec fn frame_outcomes<T>(v: AppView<T>, replies: Seq<ReplyView>, now: u64) -> Seq<
    OutcomeView,
> {
    Seq::new(
        v.slots.len(),
        |i: int|
            match v.slots[i] {
                AnyView::Online(slot) => online::frame_fed(slot, replies[i], now).1,
                AnyView::Offline(_) => no_outcome(),
            },
    )
}

/// The counter of a slot can take a stretch of speech.
pub open spec fn segment_fits(slot: AnyView) -> bool {
    match slot {
        AnyView::Online(_) => true,
        AnyView::Offline(s) => s.segments_decoded < usize::MAX,
    }
}

/// What a stretch of speech does to the program if only the first `n` slots
/// take it: each slot that does not stream takes what its recogniser made of
/// it, and a text that it ends with is logged.
pub open spec fn segment_taken<T>(v: AppView<T>, samples: nat, decoded: Seq<Seq<char>>, n: nat) -> AppView<
    T,
>
    decreases n,
{
    if n == 0 {
        v
    } else {
        let i = n - 1;
        let w = segment_taken(v, samples, decoded, i as nat);
        match v.slots[i] {
            AnyView::Online(_) => w,
            AnyView::Offline(slot) => {
                let (after, text) = offline::segment_decoded(slot, samples, decoded[i]);
                let x = AppView { slots: w.slots.update(i, AnyView::Offline(after)), ..w };
                match text {
                    Some(t) => app_logged(x, final_line(slot.name, t)),
                    None => x,
                }
            },
        }
    }
}

proof fn lemma_frame_taken<T>(v: AppView<T>, replies: Seq<ReplyView>, now: u64, n: nat)
    requires
        n <= v.slots.len(),
    ensures
        frame_taken(v, replies, now, n).slots.len() == v.slots.len(),
        forall|j: int|
            n <= j < v.slots.len() ==> (#[trigger] frame_taken(v, replies, now, n).slots[j])
                == v.slots[j],
        frame_taken(v, replies, now, n) == (AppView {
            slots: frame_taken(v, replies, now, n).slots,
            log: frame_taken(v, replies, now, n).log,
            ..v
        }),
    decreases n,
{
    if n > 0 {
        lemma_frame_taken(v, replies, now, (n - 1) as nat);
    }
}

proof fn lemma_segment_taken<T>(v: AppView<T>, samples: nat, decoded: Seq<Seq<char>>, n: nat)
    requires
        n <= v.slots.len(),
    ensures
        segment_taken(v, samples, decoded, n).slots.len() == v.slots.len(),
        forall|j: int|
            n <= j < v.slots.len() ==> (#[trigger] segment_taken(v, samples, decoded, n).slots[j])
                == v.slots[j],
        segment_taken(v, samples, decoded, n) == (AppView {
            slots: segment_taken(v, samples, decoded, n).slots,
            log: segment_taken(v, samples, decoded, n).log,
            ..v
        }),
    decreases n,
{
    if n > 0 {
        lemma_segment_taken(v, samples, decoded, (n - 1) as nat);
    }
}

impl<T: Copy> App<T> {
    /// Whether the counters of the slots can take a frame with these replies.
    pub fn has_room_for(&self, replies: &[FrameReply], now: u64) -> (r: bool)
        ensures
            r == (replies@.len() == self.slots@.len() && forall|i: int|
                0 <= i < self.slots@.len() ==> #[trigger] slot_fits(
                    self@.slots[i],
                    replies@[i].text@,
                    now,
                )),
    {
        if replies.len() != self.slots.len() {
            return false;
        }
        let mut i: usize = 0;
        while i < self.slots.len()
            invariant
                i <= self.slots@.len() == replies@.len(),
                forall|j: int|
                    0 <= j < i ==> #[trigger] slot_fits(self@.slots[j], replies@[j].text@, now),
            decreases self.slots@.len() - i,
        {
            proof {
                assert(self@.slots[i as int] == self.slots@[i as int]@);
            }
            if let AnySlot::Online(slot) = &self.slots[i] {
                if slot.enabled && slot.use_custom_endpoint && !slot.has_room(
                    replies[i].text.as_str(),
                    now,
                ) {
                    proof {
                        assert(!slot_fits(self@.slots[i as int], replies@[i as int].text@, now));
                    }
                    return false;
                }
            }
            proof {
                assert(slot_fits(self@.slots[i as int], replies@[i as int].text@, now));
            }
            i = i + 1;
        }
        true
    }

    /// Takes a frame: what the recogniser of each slot says after it. Replies
    /// at places of slots that do not stream are not looked at.
    pub fn take_frame(&mut self, replies: &[FrameReply], now: u64) -> (r: Vec<FrameOutcome>)
        requires
            replies@.len() == old(self).slots@.len(),
            forall|i: int|
                0 <= i < old(self).slots@.len() ==> #[trigger] slot_fits(
                    old(self)@.slots[i],
                    replies@[i].text@,
                    now,
                ),
        ensures
            final(self)@ == frame_taken(
                old(self)@,
                reply_views(replies@),
                now,
                replies@.len(),
            ),
            outcome_views(r@) == frame_outcomes(old(self)@, reply_views(replies@), now),
    {
        let ghost v = self@;
        let ghost views = reply_views(replies@);
        let ghost all = frame_outcomes(v, views, now);
        let n: usize = self.slots.len();
        let mut out: Vec<FrameOutcome> = Vec::new();
        let mut i: usize = 0;
        proof {
            assert(outcome_views(out@) =~= all.take(0));
        }
        while i < n
            invariant
                i <= n == v.slots.len(),
                n == replies@.len(),
                n == self.slots@.len(),
                views == reply_views(replies@),
                all == frame_outcomes(v, views, now),
                forall|j: int|
                    0 <= j < n ==> #[trigger] slot_fits(v.slots[j], replies@[j].text@, now),
                self@ == frame_taken(v, views, now, i as nat),
                outcome_views(out@) == all.take(i as int),
            decreases n - i,
        {
            let ghost w = self@;
            let ghost before = outcome_views(out@);
            proof {
                lemma_frame_taken(v, views, now, i as nat);
                assert(w.slots[i as int] == v.slots[i as int]);
                assert(w.slots[i as int] == self.slots@[i as int]@);
                assert(slot_fits(v.slots[i as int], replies@[i as int].text@, now));
                assert(views[i as int] == replies@[i as int]@);
            }
            let mut outcome = FrameOutcome { final_text: None, reset: false, voices_used: 0 };
            let mut name: &'static str = "";
            if let AnySlot::Online(slot) = &mut self.slots[i] {
                name = slot.name;
                outcome = online::feed_online_frame(slot, &replies[i], now);
            }
            proof {
                match v.slots[i as int] {
                    AnyView::Online(slot) => {
                        let after = online::frame_fed(slot, views[i as int], now).0;
                        assert(self@.slots =~= w.slots.update(i as int, AnyView::Online(after)));
                    },
                    AnyView::Offline(_) => {
                        assert(self@.slots =~= w.slots);
                    },
                }
            }
            if let Some(t) = &outcome.final_text {
                self.note_final(name, t.as_str());
            }
            proof {
                assert(outcome@ == all[i as int]);
            }
            out.push(outcome);
            proof {
                assert(outcome_views(out@) =~= before.push(outcome@));
                assert(all.take(i + 1) =~= before.push(all[i as int]));
            }
            i = i + 1;
        }
        proof {
            assert(all.take(n as int) =~= all);
        }
        out
    }

    /// Whether the counters of the slots can take a stretch of speech.
    pub fn has_room_for_segment(&self) -> (r: bool)
        ensures
            r == forall|i: int|
                0 <= i < self.slots@.len() ==> segment_fits(#[trigger] self@.slots[i]),
    {
        let mut i: usize = 0;
        while i < self.slots.len()
            invariant
                i <= self.slots@.len(),
                forall|j: int| 0 <= j < i ==> segment_fits(#[trigger] self@.slots[j]),
            decreases self.slots@.len() - i,
        {
            proof {
                assert(self@.slots[i as int] == self.slots@[i as int]@);
            }
            if let AnySlot::Offline(slot) = &self.slots[i] {
                if slot.segments_decoded == usize::MAX {
                    proof {
                        assert(!segment_fits(self@.slots[i as int]));
                    }
                    return false;
                }
            }
            i = i + 1;
        }
        true
    }

    /// Takes a stretch of speech of `samples` samples: what the recogniser of
    /// each slot made of it. Texts at places of slots that stream, or that do
    /// not want the stretch, are not looked at.
    pub fn take_segment(&mut self, samples: usize, decoded: &[String])
        requires
            decoded@.len() == old(self).slots@.len(),
            forall|i: int|
                0 <= i < old(self).slots@.len() ==> segment_fits(#[trigger] old(self)@.slots[i]),
        ensures
            final(self)@ == segment_taken(
                old(self)@,
                samples as nat,
                text::texts(decoded@),
                decoded@.len(),
            ),
    {
        let ghost v = self@;
        let ghost views = text::texts(decoded@);
        let n: usize = self.slots.len();
        let mut i: usize = 0;
        while i < n
            invariant
                i <= n == v.slots.len(),
                n == decoded@.len(),
                n == self.slots@.len(),
                views == text::texts(decoded@),
                forall|j: int| 0 <= j < n ==> segment_fits(#[trigger] v.slots[j]),
                self@ == segment_taken(v, samples as nat, views, i as nat),
            decreases n - i,
        {
            let ghost w = self@;
            proof {
                lemma_segment_taken(v, samples as nat, views, i as nat);
                assert(w.slots[i as int] == v.slots[i as int]);
                assert(w.slots[i as int] == self.slots@[i as int]@);
                assert(segment_fits(v.slots[i as int]));
                assert(views[i as int] == decoded@[i as int]@);
            }
            let mut final_text: Option<String> = None;
            let mut name: &'static str = "";
            if let AnySlot::Offline(slot) = &mut self.slots[i] {
                name = slot.name;
                final_text = offline::decode_offline_segment(slot, samples, decoded[i].as_str());
            }
            proof {
                match v.slots[i as int] {
                    AnyView::Offline(slot) => {
                        let after = offline::segment_decoded(
                            slot,
                            samples as nat,
                            views[i as int],
                        ).0;
                        assert(self@.slots =~= w.slots.update(i as int, AnyView::Offline(after)));
                    },
                    AnyView::Online(_) => {
                        assert(self@.slots =~= w.slots);
                    },
                }
            }
            if let Some(t) = &final_text {
                self.note_final(name, t.as_str());
            }
            i = i + 1;
        }
    }
}

// ─── Laws ──────────────────────────────────────────────────────────────

/// No key moves the active slot off the slots.
pub proof fn law_active_slot_stays_inside<T>(v: AppView<T>, press: KeyPress, now: nat)
    requires
        app_ok(v),
    ensures
        app_ok(app_key(v, press, now).0),
        app_key(v, press, now).0.slots.len() == v.slots.len(),
{
}

/// A key that ends the program changes nothing.
pub proof fn law_quit_changes_nothing<T>(v: AppView<T>, press: KeyPress, now: nat)
    requires
        keys::quits(press),
    ensures
        app_key(v, press, now) == (v, None::<MediaAction>),
{
}

/// Moving right and left again comes back, unless the last slot was active.
pub proof fn law_right_then_left_comes_back(active: nat, slots: nat)
    requires
        active + 1 < slots,
    ensures
        active_moved(active_moved(active, slots, 1), slots, -1) == active,
{
}

/// A slot that is switched twice is as enabled as before, and no other slot is
/// touched.
pub proof fn law_toggle_touches_one_slot<T>(v: AppView<T>, index: nat, other: int)
    requires
        index < v.slots.len(),
        0 <= other < v.slots.len(),
        other != index,
    ensures
        engine::common(app_toggled(app_toggled(v, index), index).slots[index as int]).enabled
            == engine::common(v.slots[index as int]).enabled,
        app_toggled(v, index).slots[other] == v.slots[other],
        app_toggled(v, index).vad == v.vad,
        app_toggled(v, index).media == v.media,
{
}

/// After everything was forgotten, no slot has anything left and the log is
/// empty, while slots stay switched as they were and the media goes on.
pub proof fn law_clear_forgets_everything<T>(v: AppView<T>, i: int)
    requires
        0 <= i < v.slots.len(),
    ensures
        engine::common(app_cleared(v).slots[i]).all_finals.len() == 0,
        engine::common(app_cleared(v).slots[i]).partial.len() == 0,
        engine::common(app_cleared(v).slots[i]).enabled == engine::common(v.slots[i]).enabled,
        app_cleared(v).log.len() == 0,
        app_cleared(v).media == v.media,
        app_cleared(v).active_slot == v.active_slot,
        app_cleared(app_cleared(v)) == app_cleared(v),
{
    engine::law_clear_leaves_nothing(v.slots[i]);
    assert(app_cleared(app_cleared(v)).slots =~= app_cleared(v).slots) by {
        assert forall|j: int| 0 <= j < v.slots.len() implies app_cleared(
            app_cleared(v),
        ).slots[j] == app_cleared(v).slots[j] by {
            engine::law_clear_leaves_nothing(v.slots[j]);
        }
    }
}

/// A slot never scrolls above its start, and scrolling back as far as it was
/// scrolled comes back, short of 16 bits.
pub proof fn law_scroll_comes_back(scroll: u16, delta: int)
    requires
        0 <= delta,
        scroll + delta <= u16::MAX,
    ensures
        scroll_moved(scroll_moved(scroll, delta), -delta) == scroll,
{
}

/// A frame reaches every slot that streams exactly once, with its own reply,
/// and no other slot.
pub proof fn law_frame_reaches_every_stream<T>(
    v: AppView<T>,
    replies: Seq<ReplyView>,
    now: u64,
    n: nat,
    i: int,
)
    requires
        0 <= i < n <= v.slots.len(),
    ensures
        frame_taken(v, replies, now, n).slots[i] == (match v.slots[i] {
            AnyView::Online(slot) => AnyView::Online(online::frame_fed(slot, replies[i], now).0),
            AnyView::Offline(slot) => AnyView::Offline(slot),
        }),
    decreases n,
{
    lemma_frame_taken(v, replies, now, n);
    lemma_frame_taken(v, replies, now, (n - 1) as nat);
    if i < n - 1 {
        law_frame_reaches_every_stream(v, replies, now, (n - 1) as nat, i);
    }
}

/// A stretch of speech reaches every slot that does not stream exactly once,
/// and no other slot: all of them decode the same audio.
pub proof fn law_segment_reaches_every_slot<T>(
    v: AppView<T>,
    samples: nat,
    decoded: Seq<Seq<char>>,
    n: nat,
    i: int,
)
    requires
        0 <= i < n <= v.slots.len(),
    ensures
        segment_taken(v, samples, decoded, n).slots[i] == (match v.slots[i] {
            AnyView::Online(slot) => AnyView::Online(slot),
            AnyView::Offline(slot) => AnyView::Offline(
                offline::segment_decoded(slot, samples, decoded[i]).0,
            ),
        }),
    decreases n,
{
    lemma_segment_taken(v, samples, decoded, n);
    lemma_segment_taken(v, samples, decoded, (n - 1) as nat);
    if i < n - 1 {
        law_segment_reaches_every_slot(v, samples, decoded, (n - 1) as nat, i);
    }
}

/// The arrow keys move to the slot beside and scroll by one line, the page keys by
/// six, and home goes back to the first line; nothing else changes.
pub proof fn law_arrows_move_and_scroll<T>(v: AppView<T>, control: bool, now: nat)
    requires
        v.active_slot < v.slots.len(),
    ensures
        ({
            let at = v.active_slot as int;
            let top = engine::common(v.slots[at]).finals_scroll as int;
            let after = |key: Key| app_key(v, KeyPress { key, control }, now).0;
            let top_of = |key: Key| engine::common(after(key).slots[at]).finals_scroll as int;
            &&& after(Key::Left).active_slot == (if at > 0 {
                at - 1
            } else {
                0
            })
            &&& after(Key::Right).active_slot == (if at + 1 < v.slots.len() {
                at + 1
            } else {
                at
            })
            &&& after(Key::Left).slots == v.slots && after(Key::Right).slots == v.slots
            &&& top_of(Key::Up) == (if top >= 1 {
                top - 1
            } else {
                0
            })
            &&& top_of(Key::PageUp) == (if top >= 6 {
                top - 6
            } else {
                0
            })
            &&& top + 1 <= u16::MAX ==> top_of(Key::Down) == top + 1
            &&& top + 6 <= u16::MAX ==> top_of(Key::PageDown) == top + 6
            &&& top_of(Key::Home) == 0
            &&& after(Key::Down).active_slot == at && after(Key::Down).log == v.log
        }),
{
}

/// A digit switches the slot at its place, on if it was off and off if it was on,
/// and logs that; a digit without a slot does nothing.
pub proof fn law_digit_switches_its_slot<T>(v: AppView<T>, i: nat, now: nat)
    requires
        i < 9,
        v.log.len() < 200,
    ensures
        ({
            let press = KeyPress { key: Key::Char("123456789"@[i as int]), control: false };
            let after = app_key(v, press, now).0;
            &&& i >= v.slots.len() ==> after == v
            &&& i < v.slots.len() ==> {
                let (was, is) = (
                    engine::common(v.slots[i as int]),
                    engine::common(after.slots[i as int]),
                );
                &&& is.enabled == !was.enabled
                &&& is.all_finals == was.all_finals
                &&& after.log == v.log.push(
                    "["@ + engine::slot_name(v.slots[i as int]) + (if was.enabled {
                        "] 已禁用"@
                    } else {
                        "] 已启用"@
                    }),
                )
                &&& after.active_slot == v.active_slot
            }
        }),
{
    keys::law_digits_stand_for_places(i, 'x');
    reveal_strlit("123456789");
    let all = "123456789"@;
    assert(all[0] == '1' && all[1] == '2' && all[2] == '3' && all[3] == '4' && all[4] == '5');
    assert(all[5] == '6' && all[6] == '7' && all[7] == '8' && all[8] == '9');
    reveal_strlit("] 已禁用");
    reveal_strlit("] 已启用");
    reveal_strlit("] 已");
    reveal_strlit("禁用");
    reveal_strlit("启用");
    assert("] 已禁用"@ =~= "] 已"@ + "禁用"@);
    assert("] 已启用"@ =~= "] 已"@ + "启用"@);
    if i < v.slots.len() {
        let name = engine::slot_name(v.slots[i as int]);
        assert("["@ + name + "] 已"@ + "禁用"@ =~= "["@ + name + "] 已禁用"@);
        assert("["@ + name + "] 已"@ + "启用"@ =~= "["@ + name + "] 已启用"@);
    }
    match v.media {
        Some(m) => {},
        None => {},
    }
}

/// `c` forgets what was said, and `e` asks for the report, whether or not there is
/// media.
pub proof fn law_c_clears_and_e_exports<T>(v: AppView<T>, now: nat, i: int)
    requires
        0 <= i < v.slots.len(),
    ensures
        ({
            let cleared = app_key(v, KeyPress { key: Key::Char('c'), control: false }, now);
            let exported = app_key(v, KeyPress { key: Key::Char('e'), control: false }, now);
            &&& cleared.0.log.len() == 0
            &&& engine::common(cleared.0.slots[i]).all_finals.len() == 0
            &&& engine::common(cleared.0.slots[i]).finals.len() == 0
            &&& engine::common(cleared.0.slots[i]).partial.len() == 0
            &&& cleared.0.vad.segment_count == 0 && cleared.0.vad.total_samples_seen == 0
            &&& cleared.0.media == v.media
            &&& exported == (v, Some(MediaAction::Export))
        }),
{
    law_clear_forgets_everything(v, i);
}

/// The space pauses what plays where it is, and asks to play on from there what
/// does not; `h` and `l` move by ten seconds back and on, `H` and `L` by sixty.
pub proof fn law_media_keys<T>(v: AppView<T>, now: nat)
    requires
        v.media is Some,
    ensures
        ({
            let m = v.media->0;
            let key = |c: char| app_key(v, KeyPress { key: Key::Char(c), control: false }, now);
            &&& m.playing ==> key(' ') == (
                AppView { media: Some(media::paused(m, now)), ..v },
                Some(MediaAction::Toggle(PlayerCommand::Stop)),
            )
            &&& !m.playing ==> key(' ') == (
                v,
                Some(
                    MediaAction::Toggle(PlayerCommand::Start { position_ms: m.position_ms as u64 }),
                ),
            )
            &&& key('h').0.media == Some(media::sought(m, -10_000, now))
            &&& key('l').0.media == Some(media::sought(m, 10_000, now))
            &&& key('H').0.media == Some(media::sought(m, -60_000, now))
            &&& key('L').0.media == Some(media::sought(m, 60_000, now))
            &&& m.playing ==> key('l').1 == Some(
                MediaAction::Seek(
                    PlayerCommand::Start {
                        position_ms: media::sought(m, 10_000, now).position_ms as u64,
                    },
                ),
            )
            &&& !m.playing ==> key('l').1 == Some(MediaAction::Seek(PlayerCommand::Keep))
            &&& key('x') == (v, Some(MediaAction::Nothing))
        }),
{
}

/// Without media the keys for it do nothing.
pub proof fn law_media_keys_need_media<T>(v: AppView<T>, c: char, now: nat)
    requires
        v.media is None,
        c == ' ' || c == 'h' || c == 'l' || c == 'H' || c == 'L',
    ensures
        app_key(v, KeyPress { key: Key::Char(c), control: false }, now) == (
            v,
            Some(MediaAction::Nothing),
        ),
{
}

/// Each text that a recogniser ends with in a frame is logged under its name, in
/// the order of the slots, and nothing else is.
pub proof fn law_frame_logs_its_finals<T>(
    v: AppView<T>,
    replies: Seq<ReplyView>,
    now: u64,
    n: nat,
)
    requires
        n < v.slots.len(),
        frame_taken(v, replies, now, n).log.len() < 200,
    ensures
        frame_taken(v, replies, now, 0).log == v.log,
        frame_taken(v, replies, now, n + 1).log == (match v.slots[n as int] {
            AnyView::Online(s) => match online::frame_fed(s, replies[n as int], now).1.final_text {
                Some(t) => frame_taken(v, replies, now, n).log.push(
                    "["@ + s.name + "] final: "@ + t,
                ),
                None => frame_taken(v, replies, now, n).log,
            },
            AnyView::Offline(_) => frame_taken(v, replies, now, n).log,
        }),
        frame_outcomes(v, replies, now).len() == v.slots.len(),
        v.slots[n as int] matches AnyView::Online(s) ==> frame_outcomes(v, replies, now)[n as int]
            == online::frame_fed(s, replies[n as int], now).1,
        v.slots[n as int] is Offline ==> frame_outcomes(v, replies, now)[n as int].final_text
            is None && !frame_outcomes(v, replies, now)[n as int].reset,
{
}

/// Each text that a recogniser makes of a stretch of speech is logged under its
/// name, in the order of the slots, and nothing else is.
pub proof fn law_segment_logs_its_finals<T>(
    v: AppView<T>,
    samples: nat,
    decoded: Seq<Seq<char>>,
    n: nat,
)
    requires
        n < v.slots.len(),
        segment_taken(v, samples, decoded, n).log.len() < 200,
    ensures
        segment_taken(v, samples, decoded, 0).log == v.log,
        segment_taken(v, samples, decoded, n + 1).log == (match v.slots[n as int] {
            AnyView::Offline(s) => match offline::segment_decoded(
                s,
                samples,
                decoded[n as int],
            ).1 {
                Some(t) => segment_taken(v, samples, decoded, n).log.push(
                    "["@ + s.name + "] final: "@ + t,
                ),
                None => segment_taken(v, samples, decoded, n).log,
            },
            AnyView::Online(_) => segment_taken(v, samples, decoded, n).log,
        }),
{
}

/// Frames and stretches of speech touch nothing but the slots and the log.
pub proof fn law_audio_touches_slots_and_log_only<T>(
    v: AppView<T>,
    replies: Seq<ReplyView>,
    samples: nat,
    decoded: Seq<Seq<char>>,
    now: u64,
)
    ensures
        ({
            let a = frame_taken(v, replies, now, v.slots.len());
            let b = segment_taken(v, samples, decoded, v.slots.len());
            &&& a.slots.len() == v.slots.len() && b.slots.len() == v.slots.len()
            &&& a.media == v.media && b.media == v.media
            &&& a.vad == v.vad && b.vad == v.vad
            &&& a.active_slot == v.active_slot && b.active_slot == v.active_slot
            &&& a.source_label == v.source_label && b.source_label == v.source_label
        }),
{
    lemma_frame_taken(v, replies, now, v.slots.len());
    lemma_segment_taken(v, samples, decoded, v.slots.len());
}

/// A report that was written is logged with its path, and the player remembers it;
/// one that was not is logged with the reason, and nothing else changes.
pub proof fn law_report_is_logged_and_remembered<T>(v: AppView<T>, path: Seq<char>, m: MediaView)
    requires
        v.log.len() < 200,
    ensures
        app_reported(v, path).log == v.log.push("报告已导出: "@ + path),
        v.media == Some(m) ==> app_reported(v, path).media is Some && ({
            let now = app_reported(v, path).media->0;
            &&& now.last_report == Some(path)
            &&& now.position_ms == m.position_ms && now.playing == m.playing && now.cues == m.cues
        }),
        v.media is None ==> app_reported(v, path).media is None,
        app_reported(v, path).slots == v.slots && app_reported(v, path).active_slot == v.active_slot,
        app_unreported(v, path).log == v.log.push("报告导出失败: "@ + path),
        app_unreported(v, path).media == v.media,
        app_unreported(v, path).slots == v.slots && app_unreported(v, path).active_slot == v.active_slot,
{
    util::law_history_is_bounded(v.log, "报告已导出: "@ + path, 200);
    util::law_history_is_bounded(v.log, "报告导出失败: "@ + path, 200);
}

/// What goes wrong with the media, or that it plays, is logged with what is known of
/// it at the end of the line.
pub proof fn law_media_lines_end_with_what_is_known(what: Seq<char>)
    ensures
        toggle_failure_line(what) == "播放切换失败: "@ + what,
        seek_failure_line(what) == "跳转失败: "@ + what,
        media_start_line(what) == "已开始播放: "@ + what,
        media_failure_line(what) == "音频播放启动失败: "@ + what,
{
}

} // verus!
