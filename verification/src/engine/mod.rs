//! The slots of the recognisers: those that stream and those that do not.

use std::collections::VecDeque;

use vstd::prelude::*;
use vstd::string::*;

use crate::text;

pub mod offline;
pub mod online;
pub mod settings;

use offline::{OfflineSlot, OfflineView};
use online::{OnlineSlot, OnlineView};

verus! {

/// A slot of either kind.
pub enum AnySlot {
    Online(OnlineSlot),
    Offline(OfflineSlot),
}

/// A slot of either kind, texts and lists taken as sequences.
#[verifier::ext_equal]
pub enum AnyView {
    Online(OnlineView),
    Offline(OfflineView),
}

impl View for AnySlot {
    type V = AnyView;

    open spec fn view(&self) -> AnyView {
        match self {
            AnySlot::Online(s) => AnyView::Online(s@),
            AnySlot::Offline(s) => AnyView::Offline(s@),
        }
    }
}

/// The slots of a list.
pub open spec fn slot_views(list: Seq<AnySlot>) -> Seq<AnyView> {
    list.map_values(|s: AnySlot| s@)
}

/// What both kinds of slots have.
#[verifier::ext_equal]
pub struct CommonView {
    pub partial: Seq<char>,
    pub finals: Seq<Seq<char>>,
    pub all_finals: Seq<Seq<char>>,
    pub enabled: bool,
    pub finals_scroll: u16,
}

/// What a slot shows.
pub open spec fn online_common(v: OnlineView) -> CommonView {
    CommonView {
        partial: v.partial,
        finals: v.finals,
        all_finals: v.all_finals,
        enabled: v.enabled,
        finals_scroll: v.finals_scroll,
    }
}

/// What a slot shows.
pub open spec fn offline_common(v: OfflineView) -> CommonView {
    CommonView {
        partial: v.partial,
        finals: v.finals,
        all_finals: v.all_finals,
        enabled: v.enabled,
        finals_scroll: v.finals_scroll,
    }
}

/// What a slot shows.
pub open spec fn common(v: AnyView) -> CommonView {
    match v {
        AnyView::Online(s) => online_common(s),
        AnyView::Offline(s) => offline_common(s),
    }
}

/// The name of a slot.
pub open spec fn slot_name(v: AnyView) -> Seq<char> {
    match v {
        AnyView::Online(s) => s.name,
        AnyView::Offline(s) => s.name,
    }
}

/// The slot switched on or off; off means that its partial goes.
pub open spec fn online_switched(v: OnlineView, enabled: bool) -> OnlineView {
    OnlineView {
        enabled,
        partial: if enabled {
            v.partial
        } else {
            Seq::empty()
        },
        ..v
    }
}

/// The slot switched on or off; off means that its partial goes.
pub open spec fn offline_switched(v: OfflineView, enabled: bool) -> OfflineView {
    OfflineView {
        enabled,
        partial: if enabled {
            v.partial
        } else {
            Seq::empty()
        },
        ..v
    }
}

/// The slot switched on or off; off means that its partial goes.
pub open spec fn switched(v: AnyView, enabled: bool) -> AnyView {
    match v {
        AnyView::Online(s) => AnyView::Online(online_switched(s, enabled)),
        AnyView::Offline(s) => AnyView::Offline(offline_switched(s, enabled)),
    }
}

/// The slot without anything that was said.
pub open spec fn online_cleared(v: OnlineView) -> OnlineView {
    OnlineView {
        partial: Seq::empty(),
        all_partials: Seq::empty(),
        finals: Seq::empty(),
        all_finals: Seq::empty(),
        finals_scroll: 0,
        ..v
    }
}

/// The slot without anything that was said.
pub open spec fn offline_cleared(v: OfflineView) -> OfflineView {
    OfflineView {
        partial: Seq::empty(),
        finals: Seq::empty(),
        all_finals: Seq::empty(),
        finals_scroll: 0,
        segments_decoded: 0,
        last_segment_samples: 0,
        ..v
    }
}

/// The slot without anything that was said.
pub open spec fn cleared(v: AnyView) -> AnyView {
    match v {
        AnyView::Online(s) => AnyView::Online(online_cleared(s)),
        AnyView::Offline(s) => AnyView::Offline(offline_cleared(s)),
    }
}

/// The slot scrolled to `scroll`.
pub open spec fn scrolled(v: AnyView, scroll: u16) -> AnyView {
    match v {
        AnyView::Online(s) => AnyView::Online(OnlineView { finals_scroll: scroll, ..s }),
        AnyView::Offline(s) => AnyView::Offline(OfflineView { finals_scroll: scroll, ..s }),
    }
}

/// What both kinds of slots offer to those who show, report and switch them.
pub trait SlotView: Sized {
    /// What the slot shows.
    spec fn shown(&self) -> CommonView;

    fn partial(&self) -> (r: &str)
        ensures
            r@ == self.shown().partial,
    ;

    fn finals(&self) -> (r: &[String])
        ensures
            text::texts(r@) == self.shown().finals,
    ;

    fn all_finals(&self) -> (r: &[String])
        ensures
            text::texts(r@) == self.shown().all_finals,
    ;

    fn enabled(&self) -> (r: bool)
        ensures
            r == self.shown().enabled,
    ;

    fn finals_scroll(&self) -> (r: u16)
        ensures
            r == self.shown().finals_scroll,
    ;

    fn set_finals_scroll(&mut self, scroll: u16)
        ensures
            final(self).shown() == (CommonView { finals_scroll: scroll, ..old(self).shown() }),
    ;

    fn set_enabled(&mut self, enabled: bool)
        ensures
            final(self).shown() == (CommonView {
                enabled,
                partial: if enabled {
                    old(self).shown().partial
                } else {
                    Seq::empty()
                },
                ..old(self).shown()
            }),
    ;

    fn clear(&mut self)
        ensures
            final(self).shown() == (CommonView {
                partial: Seq::empty(),
                finals: Seq::empty(),
                all_finals: Seq::empty(),
                finals_scroll: 0,
                ..old(self).shown()
            }),
    ;
}

impl SlotView for OnlineSlot {
    open spec fn shown(&self) -> CommonView {
        online_common(self@)
    }

    fn partial(&self) -> (r: &str) {
        self.partial.as_str()
    }

    fn finals(&self) -> (r: &[String]) {
        self.finals.as_slice()
    }

    fn all_finals(&self) -> (r: &[String]) {
        self.all_finals.as_slice()
    }

    fn enabled(&self) -> (r: bool) {
        self.enabled
    }

    fn finals_scroll(&self) -> (r: u16) {
        self.finals_scroll
    }

    fn set_finals_scroll(&mut self, scroll: u16)
        ensures
            final(self)@ == (OnlineView { finals_scroll: scroll, ..old(self)@ }),
    {
        self.finals_scroll = scroll;
    }

    fn set_enabled(&mut self, enabled: bool)
        ensures
            final(self)@ == online_switched(old(self)@, enabled),
    {
        self.enabled = enabled;
        if !enabled {
            self.partial = String::new();
        }
    }

    fn clear(&mut self)
        ensures
            final(self)@ == online_cleared(old(self)@),
    {
        self.partial = String::new();
        self.all_partials = VecDeque::new();
        self.finals = Vec::new();
        self.all_finals = Vec::new();
        self.finals_scroll = 0;
        proof {
            assert(text::texts(self.all_partials@) =~= Seq::<Seq<char>>::empty());
            assert(text::texts(self.finals@) =~= Seq::<Seq<char>>::empty());
        }
    }
}

impl SlotView for OfflineSlot {
    open spec fn shown(&self) -> CommonView {
        offline_common(self@)
    }

    fn partial(&self) -> (r: &str) {
        self.partial.as_str()
    }

    fn finals(&self) -> (r: &[String]) {
        self.finals.as_slice()
    }

    fn all_finals(&self) -> (r: &[String]) {
        self.all_finals.as_slice()
    }

    fn enabled(&self) -> (r: bool) {
        self.enabled
    }

    fn finals_scroll(&self) -> (r: u16) {
        self.finals_scroll
    }

    fn set_finals_scroll(&mut self, scroll: u16)
        ensures
            final(self)@ == (OfflineView { finals_scroll: scroll, ..old(self)@ }),
    {
        self.finals_scroll = scroll;
    }

    fn set_enabled(&mut self, enabled: bool)
        ensures
            final(self)@ == offline_switched(old(self)@, enabled),
    {
        self.enabled = enabled;
        if !enabled {
            self.partial = String::new();
        }
    }

    fn clear(&mut self)
        ensures
            final(self)@ == offline_cleared(old(self)@),
    {
        self.partial = String::new();
        self.finals = Vec::new();
        self.all_finals = Vec::new();
        self.finals_scroll = 0;
        self.segments_decoded = 0;
        self.last_segment_samples = 0;
        proof {
            assert(text::texts(self.finals@) =~= Seq::<Seq<char>>::empty());
        }
    }
}

impl SlotView for AnySlot {
    open spec fn shown(&self) -> CommonView {
        common(self@)
    }

    fn partial(&self) -> (r: &str) {
        match self {
            AnySlot::Online(s) => s.partial(),
            AnySlot::Offline(s) => s.partial(),
        }
    }

    fn finals(&self) -> (r: &[String]) {
        match self {
            AnySlot::Online(s) => s.finals(),
            AnySlot::Offline(s) => s.finals(),
        }
    }

    fn all_finals(&self) -> (r: &[String]) {
        match self {
            AnySlot::Online(s) => s.all_finals(),
            AnySlot::Offline(s) => s.all_finals(),
        }
    }

    fn enabled(&self) -> (r: bool) {
        match self {
            AnySlot::Online(s) => s.enabled(),
            AnySlot::Offline(s) => s.enabled(),
        }
    }

    fn finals_scroll(&self) -> (r: u16) {
        match self {
            AnySlot::Online(s) => s.finals_scroll(),
            AnySlot::Offline(s) => s.finals_scroll(),
        }
    }

    fn set_finals_scroll(&mut self, scroll: u16)
        ensures
            final(self)@ == scrolled(old(self)@, scroll),
    {
        match self {
            AnySlot::Online(s) => s.set_finals_scroll(scroll),
            AnySlot::Offline(s) => s.set_finals_scroll(scroll),
        }
    }

    fn set_enabled(&mut self, enabled: bool)
        ensures
            final(self)@ == switched(old(self)@, enabled),
    {
        match self {
            AnySlot::Online(s) => s.set_enabled(enabled),
            AnySlot::Offline(s) => s.set_enabled(enabled),
        }
    }

    fn clear(&mut self)
        ensures
            final(self)@ == cleared(old(self)@),
    {
        match self {
            AnySlot::Online(s) => s.clear(),
            AnySlot::Offline(s) => s.clear(),
        }
    }
}

impl AnySlot {
    /// The name of the model.
    pub fn name(&self) -> (r: &'static str)
        ensures
            r@ == slot_name(self@),
    {
        match self {
            AnySlot::Online(s) => s.name,
            AnySlot::Offline(s) => s.name,
        }
    }

    /// Whether the model streams.
    pub fn is_online(&self) -> (r: bool)
        ensures
            r == (self@ is Online),
    {
        match self {
            AnySlot::Online(_) => true,
            AnySlot::Offline(_) => false,
        }
    }
}

// ─── Laws ──────────────────────────────────────────────────────────────

/// A cleared slot is in order again, keeps its switch, and has nothing left.
pub proof fn law_clear_leaves_nothing(v: AnyView)
    ensures
        common(cleared(v)).partial.len() == 0,
        common(cleared(v)).all_finals.len() == 0,
        common(cleared(v)).enabled == common(v).enabled,
        slot_name(cleared(v)) == slot_name(v),
        cleared(cleared(v)) == cleared(v),
        cleared(v) matches AnyView::Online(s) ==> online::slot_ok(s),
{
    let e = Seq::<Seq<char>>::empty();
    assert(e.skip(0) =~= e);
}

/// Switching a slot off and on again only costs it its partial.
pub proof fn law_switch_off_and_on(v: AnyView)
    ensures
        common(switched(switched(v, false), true)) == (CommonView {
            enabled: true,
            partial: Seq::empty(),
            ..common(v)
        }),
        !common(switched(v, false)).enabled,
{
}

/// Switching changes the switch; switching off drops the partial, and nothing
/// else.
pub proof fn law_switch_touches_the_partial_only(v: AnyView, enabled: bool)
    ensures
        common(switched(v, enabled)).enabled == enabled,
        enabled ==> common(switched(v, enabled)).partial == common(v).partial,
        !enabled ==> common(switched(v, enabled)).partial.len() == 0,
        common(switched(v, enabled)).finals == common(v).finals,
        common(switched(v, enabled)).all_finals == common(v).all_finals,
        common(switched(v, enabled)).finals_scroll == common(v).finals_scroll,
        slot_name(switched(v, enabled)) == slot_name(v),
        v matches AnyView::Online(s) ==> switched(v, enabled) matches AnyView::Online(w)
            && w.segmenter == s.segmenter && w.all_partials == s.all_partials,
        v matches AnyView::Offline(s) ==> switched(v, enabled) matches AnyView::Offline(w)
            && w.segments_decoded == s.segments_decoded && w.last_segment_samples
            == s.last_segment_samples,
{
}

/// What is shown of a slot is its own.
pub proof fn law_slot_shows_its_own(online: OnlineView, offline: OfflineView)
    ensures
        ({
            let c = common(AnyView::Online(online));
            &&& c.partial == online.partial && c.finals == online.finals
            &&& c.all_finals == online.all_finals && c.enabled == online.enabled
            &&& c.finals_scroll == online.finals_scroll
            &&& slot_name(AnyView::Online(online)) == online.name
        }),
        ({
            let c = common(AnyView::Offline(offline));
            &&& c.partial == offline.partial && c.finals == offline.finals
            &&& c.all_finals == offline.all_finals && c.enabled == offline.enabled
            &&& c.finals_scroll == offline.finals_scroll
            &&& slot_name(AnyView::Offline(offline)) == offline.name
        }),
{
}

/// Clearing drops all texts and counts of what was said, and scrolls back to the
/// top; it leaves the switch, the name and the segmenter alone.
pub proof fn law_clear_drops_what_was_said(v: AnyView)
    ensures
        ({
            let c = common(cleared(v));
            &&& c.partial.len() == 0 && c.finals.len() == 0 && c.all_finals.len() == 0
            &&& c.finals_scroll == 0
            &&& c.enabled == common(v).enabled
            &&& slot_name(cleared(v)) == slot_name(v)
        }),
        v matches AnyView::Online(s) ==> cleared(v) matches AnyView::Online(w)
            && w.all_partials.len() == 0 && w.segmenter == s.segmenter && w.use_custom_endpoint
            == s.use_custom_endpoint,
        v matches AnyView::Offline(s) ==> cleared(v) matches AnyView::Offline(w)
            && w.segments_decoded == 0 && w.last_segment_samples == 0 && w.family == s.family,
{
}

/// Scrolling changes where the finals are scrolled to and nothing else.
pub proof fn law_scroll_moves_the_finals_only(v: AnyView, scroll: u16)
    ensures
        common(scrolled(v, scroll)) == (CommonView { finals_scroll: scroll, ..common(v) }),
        scrolled(scrolled(v, scroll), common(v).finals_scroll) == v,
        slot_name(scrolled(v, scroll)) == slot_name(v),
{
}

} // verus!
