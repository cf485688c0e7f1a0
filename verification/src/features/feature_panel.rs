//! The panels this application ships, behind the workspace's panel contract.

use crate::features::dummies::clock::{handle_ticks, stores_with_ticks, ClockPanel};
use crate::features::dummies::counter::{
    counter_updated, handle_count, shown_count, stores_with_slot, CounterMessage, CounterPanel,
};
use crate::features::dummies::text::{handle_content, text_captures, TextMessage, TextPanel};
use crate::features::scratch::{scratch_discard_prompt, scratch_status, ScratchMessage, ScratchPanel};
use crate::workspace::workspace_command::Chord;
use crate::workspace::workspace_panel::{CloseRequest, HandleData, HandleView, Panel, PanelKind};
use crate::workspace::workspace_stores::{AppStores, StoresModel};
use vstd::prelude::*;

verus! {

/// One of the shipped panels.
#[derive(Debug, Clone)]
pub enum FeaturePanel {
    Counter(CounterPanel),
    Text(TextPanel),
    Clock(ClockPanel),
    Scratch(ScratchPanel),
}

/// A message addressed to one of the shipped panels.
#[derive(Debug, Clone, PartialEq, Eq)]
pub enum FeatureMessage {
    Counter(CounterMessage),
    Text(TextMessage),
    Scratch(ScratchMessage),
}

/// The tab title of each kind.
pub open spec fn kind_title(kind: PanelKind) -> Seq<char> {
    match kind {
        PanelKind::Counter => "Counter"@,
        PanelKind::Text => "Text"@,
        PanelKind::Clock => "Clock"@,
        PanelKind::Scratch => "untitled"@,
    }
}

impl Panel for FeaturePanel {
    type Message = FeatureMessage;

    type Surface = PanelKind;

    open spec fn title_spec(&self) -> Seq<char> {
        kind_title(self.kind_spec())
    }

    open spec fn kind_spec(&self) -> PanelKind {
        match self {
            FeaturePanel::Counter(_) => PanelKind::Counter,
            FeaturePanel::Text(_) => PanelKind::Text,
            FeaturePanel::Clock(_) => PanelKind::Clock,
            FeaturePanel::Scratch(_) => PanelKind::Scratch,
        }
    }

    open spec fn captures_spec(&self, chord: Chord) -> bool {
        self is Text && text_captures(chord)
    }

    open spec fn dirty_spec(&self) -> bool {
        match self {
            FeaturePanel::Scratch(s) => s.text@.len() > 0,
            _ => false,
        }
    }

    open spec fn close_prompt_spec(&self) -> Option<Seq<char>> {
        if self.dirty_spec() {
            Some(scratch_discard_prompt())
        } else {
            None
        }
    }

    open spec fn status_spec(&self) -> Seq<Seq<char>> {
        match self {
            FeaturePanel::Scratch(s) => scratch_status(s.line as nat, s.column as nat),
            _ => Seq::empty(),
        }
    }

    open spec fn snapshot_spec(&self, stores: StoresModel) -> Option<HandleView> {
        match self {
            FeaturePanel::Counter(c) => Some(
                HandleView { count: Some(shown_count(stores, c.id)), ticks: None, content: None },
            ),
            FeaturePanel::Text(t) => Some(HandleView { count: None, ticks: None, content: Some(t.content@) }),
            FeaturePanel::Clock(_) => Some(HandleView { count: None, ticks: Some(stores.ticks), content: None }),
            FeaturePanel::Scratch(_) => None,
        }
    }

    open spec fn update_post(p: Self, message: FeatureMessage, stores: StoresModel, q: Self, t: StoresModel) -> bool {
        match (p, message) {
            (FeaturePanel::Counter(c), FeatureMessage::Counter(m)) => q == p && t == counter_updated(stores, c.id, m),
            (FeaturePanel::Text(_), FeatureMessage::Text(TextMessage::Changed(v))) => {
                &&& q matches FeaturePanel::Text(nt)
                &&& nt.content@ == v@
                &&& t == stores
            },
            (FeaturePanel::Scratch(_), FeatureMessage::Scratch(ScratchMessage::Edited { text, line, column })) => {
                &&& q matches FeaturePanel::Scratch(ns)
                &&& ns.text@ == text@
                &&& ns.line == line
                &&& ns.column == column
                &&& t == stores
            },
            _ => q == p && t == stores,
        }
    }

    open spec fn closed_stores(self, stores: StoresModel) -> StoresModel {
        match self {
            FeaturePanel::Counter(c) => StoresModel { counts: stores.counts.remove(c.id), ..stores },
            _ => stores,
        }
    }

    open spec fn build_post(surface: PanelKind, stores: StoresModel, q: Self, t: StoresModel) -> bool {
        &&& q.kind_spec() == surface
        &&& match q {
            FeaturePanel::Counter(c) => c.id == stores.next_id && t == stores_with_slot(stores, 0),
            FeaturePanel::Text(x) => x.content@ == Seq::<char>::empty() && t == stores,
            FeaturePanel::Clock(_) => t == stores,
            FeaturePanel::Scratch(x) => x.text@ == Seq::<char>::empty() && x.line == 0 && x.column == 0
                && t == stores,
        }
    }

    open spec fn rehydrate_post(kind: PanelKind, handle: HandleView, stores: StoresModel, q: Self, t: StoresModel) -> bool {
        &&& q.kind_spec() == kind
        &&& match q {
            FeaturePanel::Counter(c) => c.id == stores.next_id && t == stores_with_slot(stores, handle_count(handle)),
            FeaturePanel::Text(x) => x.content@ == handle_content(handle) && t == stores,
            FeaturePanel::Clock(_) => t == stores_with_ticks(stores, handle_ticks(handle)),
            FeaturePanel::Scratch(x) => x.text@ == Seq::<char>::empty() && x.line == 0 && x.column == 0
                && t == stores,
        }
    }

    open spec fn room(stores: StoresModel, n: nat) -> bool {
        stores.next_id + n <= u64::MAX
    }

    proof fn lemma_room_mono(stores: StoresModel, n: nat, m: nat) {
    }

    fn title(&self) -> (r: String) {
        match self {
            FeaturePanel::Counter(_) => "Counter".to_owned(),
            FeaturePanel::Text(_) => "Text".to_owned(),
            FeaturePanel::Clock(_) => "Clock".to_owned(),
            FeaturePanel::Scratch(_) => "untitled".to_owned(),
        }
    }

    fn kind(&self) -> (r: PanelKind) {
        match self {
            FeaturePanel::Counter(_) => PanelKind::Counter,
            FeaturePanel::Text(_) => PanelKind::Text,
            FeaturePanel::Clock(_) => PanelKind::Clock,
            FeaturePanel::Scratch(_) => PanelKind::Scratch,
        }
    }

    fn captures_chord(&self, chord: Chord) -> (r: bool) {
        match self {
            FeaturePanel::Text(t) => t.captures_chord(chord),
            _ => false,
        }
    }

    fn is_dirty(&self) -> (r: bool) {
        match self {
            FeaturePanel::Scratch(s) => s.is_dirty(),
            _ => false,
        }
    }

    fn close_request(&self) -> (r: CloseRequest) {
        if self.is_dirty() {
            CloseRequest::Confirm { message: "Discard changes to untitled?".to_owned() }
        } else {
            CloseRequest::Allowed
        }
    }

    fn status_contribution(&self) -> (r: Vec<String>) {
        match self {
            FeaturePanel::Scratch(s) => s.status_segments(),
            _ => {
                let v: Vec<String> = Vec::new();
                proof {
                    assert(v@.map_values(|seg: String| seg@) =~= Seq::<Seq<char>>::empty());
                }
                v
            },
        }
    }

    fn snapshot(&self, stores: &AppStores) -> (r: Option<HandleData>) {
        match self {
            FeaturePanel::Counter(c) => c.snapshot(stores),
            FeaturePanel::Text(t) => t.snapshot(),
            FeaturePanel::Clock(c) => c.snapshot(stores),
            FeaturePanel::Scratch(s) => s.snapshot(),
        }
    }

    fn update(&mut self, message: FeatureMessage, stores: &mut AppStores) {
        match (self, message) {
            (FeaturePanel::Counter(c), FeatureMessage::Counter(m)) => c.update(m, stores),
            (FeaturePanel::Text(t), FeatureMessage::Text(m)) => t.update(m),
            (FeaturePanel::Scratch(s), FeatureMessage::Scratch(m)) => s.update(m),
            _ => {},
        }
    }

    fn on_close(&mut self, stores: &mut AppStores) {
        match self {
            FeaturePanel::Counter(c) => c.on_close(stores),
            _ => {},
        }
    }

    fn build(surface: PanelKind, stores: &mut AppStores) -> (r: Self) {
        match surface {
            PanelKind::Counter => FeaturePanel::Counter(CounterPanel::new(stores)),
            PanelKind::Text => FeaturePanel::Text(TextPanel::new()),
            PanelKind::Clock => FeaturePanel::Clock(ClockPanel::new()),
            PanelKind::Scratch => FeaturePanel::Scratch(ScratchPanel::new()),
        }
    }

    fn from_handle(kind: PanelKind, handle: &HandleData, stores: &mut AppStores) -> (r: Self) {
        match kind {
            PanelKind::Counter => FeaturePanel::Counter(CounterPanel::from_snapshot(handle, stores)),
            PanelKind::Text => FeaturePanel::Text(TextPanel::from_snapshot(handle)),
            PanelKind::Clock => FeaturePanel::Clock(ClockPanel::from_snapshot(handle, stores)),
            PanelKind::Scratch => FeaturePanel::Scratch(ScratchPanel::new()),
        }
    }

    fn has_room(stores: &AppStores, n: u64) -> (r: bool) {
        n <= u64::MAX - stores.counter.upcoming_id()
    }
}

} // verus!
