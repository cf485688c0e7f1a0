//! The `Panel` trait — the contract every workspace panel implements.
//!
//! The shell addresses panels only through this trait and [`PanelKind`].
//! Each panel states its behaviour as spec functions (its title, whether
//! it swallows a chord, what closing it asks, the handle it persists, and
//! what a message or a close does to it and to the app-root stores), and
//! its executable methods are bound to them. The workspace reducer is
//! verified against these statements alone.
//!
//! A panel's messages are typed (`Panel::Message`) rather than erased, and
//! the default surfaces a composition root registers are described by a
//! `Panel::Surface` recipe rather than by a function pointer.

use crate::workspace::workspace_command::Chord;
use crate::workspace::workspace_stores::{AppStores, StoresModel};
use vstd::prelude::*;

verus! {

/// Identity of a panel type: drives the registry and persistence.
#[derive(Debug, Clone, Copy, PartialEq, Eq, Hash, Structural)]
pub enum PanelKind {
    Counter,
    Text,
    Clock,
    Scratch,
}

/// What closing a panel asks of the user.
#[derive(Debug, Clone, PartialEq, Eq)]
pub enum CloseRequest {
    /// Close right away.
    Allowed,
    /// Ask first, with this prompt.
    Confirm { message: String },
}

/// The rehydration handle a panel persists: only the fields its kind
/// reads back (a counter's count, the clock's ticks, a text's content).
#[derive(Debug, Clone, PartialEq, Eq)]
pub struct HandleData {
    pub count: Option<i64>,
    pub ticks: Option<u64>,
    pub content: Option<String>,
}

/// The plain value of a handle.
pub struct HandleView {
    pub count: Option<i64>,
    pub ticks: Option<u64>,
    pub content: Option<Seq<char>>,
}

impl HandleData {
    pub open spec fn view(&self) -> HandleView {
        HandleView {
            count: self.count,
            ticks: self.ticks,
            content: match self.content {
                Some(s) => Some(s@),
                None => None,
            },
        }
    }
}

/// The panel contract.
pub trait Panel: Sized {
    /// The panel's own messages.
    type Message;

    /// A recipe for a fresh default surface (what a registered factory
    /// builds).
    type Surface: Copy;

    /// The tab / title-bar label.
    spec fn title_spec(&self) -> Seq<char>;

    /// The kind identity.
    spec fn kind_spec(&self) -> PanelKind;

    /// Whether the panel consumes `chord` itself.
    spec fn captures_spec(&self, chord: Chord) -> bool;

    /// Whether the panel holds unsaved changes.
    spec fn dirty_spec(&self) -> bool;

    /// The confirmation prompt closing asks for; `None` when closing is
    /// allowed right away.
    spec fn close_prompt_spec(&self) -> Option<Seq<char>>;

    /// The segments the panel adds to the status bar while it is focused.
    spec fn status_spec(&self) -> Seq<Seq<char>>;

    /// The persisted handle; `None` for a panel that is not durable.
    spec fn snapshot_spec(&self, stores: StoresModel) -> Option<HandleView>;

    /// Folding `message` into panel `p` over `stores` gives panel `q` and
    /// stores `t`.
    spec fn update_post(p: Self, message: Self::Message, stores: StoresModel, q: Self, t: StoresModel) -> bool;

    /// The stores after the panel is closed.
    spec fn closed_stores(self, stores: StoresModel) -> StoresModel;

    /// Building `surface` over `stores` gives panel `q` and stores `t`.
    spec fn build_post(surface: Self::Surface, stores: StoresModel, q: Self, t: StoresModel) -> bool;

    /// Rehydrating a panel of `kind` from `handle` over `stores` gives
    /// panel `q` and stores `t`.
    spec fn rehydrate_post(kind: PanelKind, handle: HandleView, stores: StoresModel, q: Self, t: StoresModel) -> bool;

    /// Whether `n` more surfaces can be built in `stores`.
    spec fn room(stores: StoresModel, n: nat) -> bool;

    /// Room for `n` builds leaves room for any fewer.
    proof fn lemma_room_mono(stores: StoresModel, n: nat, m: nat)
        requires
            Self::room(stores, n),
            m <= n,
        ensures
            Self::room(stores, m),
    ;

    fn title(&self) -> (r: String)
        ensures
            r@ == self.title_spec(),
    ;

    fn kind(&self) -> (r: PanelKind)
        ensures
            r == self.kind_spec(),
    ;

    fn captures_chord(&self, chord: Chord) -> (r: bool)
        ensures
            r == self.captures_spec(chord),
    ;

    fn is_dirty(&self) -> (r: bool)
        ensures
            r == self.dirty_spec(),
    ;

    fn close_request(&self) -> (r: CloseRequest)
        ensures
            match r {
                CloseRequest::Allowed => self.close_prompt_spec() is None,
                CloseRequest::Confirm { message } => self.close_prompt_spec() == Some(message@),
            },
    ;

    fn status_contribution(&self) -> (r: Vec<String>)
        ensures
            r@.map_values(|seg: String| seg@) == self.status_spec(),
    ;

    fn snapshot(&self, stores: &AppStores) -> (r: Option<HandleData>)
        ensures
            match r {
                Some(h) => self.snapshot_spec(stores.model()) == Some(h.view()),
                None => self.snapshot_spec(stores.model()) is None,
            },
    ;

    fn update(&mut self, message: Self::Message, stores: &mut AppStores)
        requires
            old(stores).wf(),
        ensures
            final(stores).wf(),
            Self::update_post(*old(self), message, old(stores).model(), *final(self), final(stores).model()),
            forall|n: nat| #[trigger]
                Self::room(old(stores).model(), n) ==> Self::room(final(stores).model(), n),
    ;

    fn on_close(&mut self, stores: &mut AppStores)
        requires
            old(stores).wf(),
        ensures
            final(stores).wf(),
            final(stores).model() == (*old(self)).closed_stores(old(stores).model()),
            forall|n: nat| #[trigger]
                Self::room(old(stores).model(), n) ==> Self::room(final(stores).model(), n),
    ;

    fn build(surface: Self::Surface, stores: &mut AppStores) -> (r: Self)
        requires
            old(stores).wf(),
            Self::room(old(stores).model(), 1),
        ensures
            final(stores).wf(),
            Self::build_post(surface, old(stores).model(), r, final(stores).model()),
            forall|n: nat|
                Self::room(old(stores).model(), n + 1) ==> #[trigger] Self::room(final(stores).model(), n),
    ;

    fn from_handle(kind: PanelKind, handle: &HandleData, stores: &mut AppStores) -> (r: Self)
        requires
            old(stores).wf(),
            Self::room(old(stores).model(), 1),
        ensures
            final(stores).wf(),
            Self::rehydrate_post(kind, handle.view(), old(stores).model(), r, final(stores).model()),
            forall|n: nat|
                Self::room(old(stores).model(), n + 1) ==> #[trigger] Self::room(final(stores).model(), n),
    ;

    fn has_room(stores: &AppStores, n: u64) -> (r: bool)
        ensures
            r == Self::room(stores.model(), n as nat),
    ;
}

} // verus!
