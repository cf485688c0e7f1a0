//! Command palette state, command identity, and filtering.
//!
//! The workspace owns [`PaletteState`] (open / query / selection). The app
//! root seeds the catalog of [`CommandItem`]s. Filtering is case-insensitive
//! substring matching on the trimmed query; a non-empty query keeps at most
//! [`MAX_RESULTS`] matches, an empty query shows the whole catalog.

use crate::workspace::workspace_location::DockSide;
use crate::workspace::workspace_text::{
    chars_of, concat_str, contains_chars, decimal, decimal_string, is_substring, law_substring_anywhere, lowercase_str, lowercased, trim_str, trimmed,
};
use vstd::prelude::*;

verus! {

/// Typed identifier of a palette command (workspace and app commands).
#[derive(Debug, Clone, Copy, PartialEq, Eq, Hash, Structural)]
pub enum CommandId {
    OpenDock(DockSide),
    CollapseDock(DockSide),
    HideDock(DockSide),
    SplitFocused,
    CloseActiveTab,
    ToggleTheme,
    NewWindow,
}

/// A palette entry: human-readable label paired with a [`CommandId`].
#[derive(Debug)]
pub struct CommandItem {
    pub label: String,
    pub id: CommandId,
}

impl View for CommandItem {
    type V = (Seq<char>, CommandId);

    open spec fn view(&self) -> (Seq<char>, CommandId) {
        (self.label@, self.id)
    }
}

impl Clone for CommandItem {
    fn clone(&self) -> (r: Self)
        ensures
            r@ == self@,
    {
        CommandItem { label: self.label.clone(), id: self.id }
    }
}

impl CommandItem {
    pub fn new(label: &str, id: CommandId) -> (r: Self)
        ensures
            r@ == (label@, id),
    {
        CommandItem { label: label.to_owned(), id }
    }
}

/// Maximum results a non-empty query shows.
pub const MAX_RESULTS: usize = 10;

/// The views of a list of items.
pub open spec fn item_views(items: Seq<CommandItem>) -> Seq<(Seq<char>, CommandId)> {
    items.map_values(|item: CommandItem| item@)
}

/// An item matches a (trimmed, lower-cased) query when the query occurs in
/// its lower-cased label.
pub open spec fn item_matches(item: (Seq<char>, CommandId), query: Seq<char>) -> bool {
    is_substring(query, lowercased(item.0))
}

/// Every matching item, in catalog order.
pub open spec fn all_matches(items: Seq<(Seq<char>, CommandId)>, query: Seq<char>) -> Seq<
    (Seq<char>, CommandId),
>
    decreases items.len(),
{
    if items.len() == 0 {
        Seq::empty()
    } else if item_matches(items.last(), query) {
        all_matches(items.drop_last(), query).push(items.last())
    } else {
        all_matches(items.drop_last(), query)
    }
}

/// At most the first `n` elements.
pub open spec fn capped<A>(s: Seq<A>, n: nat) -> Seq<A> {
    if s.len() <= n {
        s
    } else {
        s.take(n as int)
    }
}

/// What the palette lists for `query` over `catalog`.
pub open spec fn palette_results(catalog: Seq<(Seq<char>, CommandId)>, query: Seq<char>) -> Seq<
    (Seq<char>, CommandId),
> {
    let t = trimmed(query);
    if t.len() == 0 {
        catalog
    } else {
        capped(all_matches(catalog, lowercased(t)), MAX_RESULTS as nat)
    }
}

/// The result count the palette shows: a notice with no results, else the
/// selected position (from one) over the number of results.
pub open spec fn result_count_label(n: nat, selected: usize) -> Seq<char> {
    if n == 0 {
        "No matching commands"@
    } else {
        decimal((selected + 1) as nat) + "/"@ + decimal(n)
    }
}

/// The selection after moving up over `n` results: from the first to the
/// last, unchanged when there are none.
pub open spec fn wrapped_prev(selected: int, n: int) -> int {
    if n == 0 {
        selected
    } else if selected == 0 {
        n - 1
    } else {
        selected - 1
    }
}

/// The selection after moving down over `n` results: from the last (or
/// past it) to the first, unchanged when there are none.
pub open spec fn wrapped_next(selected: int, n: int) -> int {
    if n == 0 {
        selected
    } else if selected + 1 >= n {
        0
    } else {
        selected + 1
    }
}

/// Moving the selection down then up (or up then down) returns to the
/// same result, and the moves wrap at either end.
pub proof fn law_selection_wraps(selected: int, n: int)
    requires
        0 <= selected < n,
    ensures
        wrapped_prev(wrapped_next(selected, n), n) == selected,
        wrapped_next(wrapped_prev(selected, n), n) == selected,
        wrapped_next(n - 1, n) == 0,
        wrapped_prev(0, n) == n - 1,
        0 <= wrapped_next(selected, n) < n,
        0 <= wrapped_prev(selected, n) < n,
{
}

/// An item matches a query that occurs anywhere in its lower-cased label,
/// not only at the start.
pub proof fn law_match_anywhere_in_label(item: (Seq<char>, CommandId), query: Seq<char>, at: int)
    requires
        0 <= at,
        at + query.len() <= lowercased(item.0).len(),
        lowercased(item.0).subrange(at, at + query.len()) == query,
    ensures
        item_matches(item, query),
{
    law_substring_anywhere(query, lowercased(item.0), at);
}

/// The matches of a query are exactly the items that match it: an item is
/// listed if and only if it is in the list and matches.
pub proof fn law_all_matches_are_the_matching_items(
    items: Seq<(Seq<char>, CommandId)>,
    query: Seq<char>,
    x: (Seq<char>, CommandId),
)
    ensures
        all_matches(items, query).contains(x) <==> (items.contains(x) && item_matches(x, query)),
    decreases items.len(),
{
    if items.len() > 0 {
        let init = items.drop_last();
        let last = items.last();
        law_all_matches_are_the_matching_items(init, query, x);
        assert(items =~= init.push(last));
        if items.contains(x) {
            let k = choose|k: int| 0 <= k < items.len() && items[k] == x;
            if k < init.len() {
                assert(init[k] == x);
            }
        }
        if init.contains(x) {
            let k = choose|k: int| 0 <= k < init.len() && init[k] == x;
            assert(items[k] == x);
        }
        if item_matches(last, query) {
            let m = all_matches(init, query);
            assert(m.push(last)[m.len() as int] == last);
            if m.push(last).contains(x) {
                let k = choose|k: int| 0 <= k < m.push(last).len() && m.push(last)[k] == x;
                if k < m.len() {
                    assert(m[k] == x);
                }
            }
            if m.contains(x) {
                let k = choose|k: int| 0 <= k < m.len() && m[k] == x;
                assert(m.push(last)[k] == x);
            }
        }
        assert(items[items.len() - 1] == last);
    }
}

/// The matches of a query keep catalog order: they are the catalog
/// filtered by the query.
pub proof fn law_all_matches_is_filter(items: Seq<(Seq<char>, CommandId)>, query: Seq<char>)
    ensures
        all_matches(items, query) == items.filter(
            |x: (Seq<char>, CommandId)| item_matches(x, query),
        ),
    decreases items.len(),
{
    reveal(Seq::filter);
    if items.len() > 0 {
        law_all_matches_is_filter(items.drop_last(), query);
    }
}

/// A non-blank query that occurs anywhere in the lower-cased label of some
/// catalog command lists at least one result, so the palette does not
/// report that nothing matches.
pub proof fn law_palette_finds_inner_match(
    catalog: Seq<(Seq<char>, CommandId)>,
    query: Seq<char>,
    x: (Seq<char>, CommandId),
    at: int,
)
    requires
        trimmed(query).len() > 0,
        catalog.contains(x),
        0 <= at,
        at + lowercased(trimmed(query)).len() <= lowercased(x.0).len(),
        lowercased(x.0).subrange(at, at + lowercased(trimmed(query)).len()) == lowercased(
            trimmed(query),
        ),
    ensures
        palette_results(catalog, query).len() > 0,
{
    let q = lowercased(trimmed(query));
    law_match_anywhere_in_label(x, q, at);
    law_all_matches_are_the_matching_items(catalog, q, x);
    let m = all_matches(catalog, q);
    assert(m.len() > 0);
}

/// The palette's UI state, owned by the workspace.
#[derive(Debug, Clone)]
pub struct PaletteState {
    /// Whether the palette overlay is open.
    pub open: bool,
    /// Current search query.
    pub query: String,
    /// Filtered results.
    pub filtered: Vec<CommandItem>,
    /// Index of the highlighted result (0 when empty).
    pub selected: usize,
}

impl PaletteState {
    pub open spec fn results(&self) -> Seq<(Seq<char>, CommandId)> {
        item_views(self.filtered@)
    }

    /// The closed, empty palette.
    pub open spec fn is_cleared(&self) -> bool {
        &&& !self.open
        &&& self.query@.len() == 0
        &&& self.filtered@.len() == 0
        &&& self.selected == 0
    }

    pub fn new() -> (p: Self)
        ensures
            p.is_cleared(),
    {
        PaletteState { open: false, query: String::new(), filtered: Vec::new(), selected: 0 }
    }

    /// The result count the palette shows (see [`result_count_label`]).
    pub fn count_label(&self) -> (r: String)
        ensures
            r@ == result_count_label(self.results().len(), self.selected),
    {
        if self.filtered.len() == 0 {
            "No matching commands".to_owned()
        } else {
            let a = decimal_string(self.selected as u128 + 1);
            let b = concat_str(a.as_str(), "/");
            let n = decimal_string(self.filtered.len() as u128);
            concat_str(b.as_str(), n.as_str())
        }
    }

    /// Re-filter from `all` and reset the selection to the first result.
    pub fn filter(&mut self, all: &[CommandItem])
        ensures
            final(self).results() == palette_results(item_views(all@), old(self).query@),
            final(self).selected == 0,
            final(self).open == old(self).open,
            final(self).query@ == old(self).query@,
    {
        let trimmed_query = trim_str(self.query.as_str());
        let q = lowercase_str(trimmed_query);
        let qchars = chars_of(q.as_str());
        let ghost views = item_views(all@);
        let mut out: Vec<CommandItem> = Vec::new();
        let n = all.len();
        if qchars.len() == 0 {
            let mut i: usize = 0;
            while i < n
                invariant
                    n == all@.len(),
                    i <= n,
                    views == item_views(all@),
                    item_views(out@) == views.take(i as int),
                decreases n - i,
            {
                let ghost prev = item_views(out@);
                let item = all[i].clone();
                assert(item@ == all@[i as int]@);
                out.push(item);
                assert(item_views(out@) =~= prev.push(all@[i as int]@));
                i += 1;
                assert(item_views(out@) =~= views.take(i as int));
            }
            assert(views.take(n as int) =~= views);
        } else {
            let mut i: usize = 0;
            while i < n
                invariant
                    n == all@.len(),
                    i <= n,
                    views == item_views(all@),
                    qchars@ == q@,
                    item_views(out@) == capped(
                        all_matches(views.take(i as int), q@),
                        MAX_RESULTS as nat,
                    ),
                decreases n - i,
            {
                let label = lowercase_str(all[i].label.as_str());
                let lchars = chars_of(label.as_str());
                let hit = contains_chars(&lchars, &qchars);
                proof {
                    assert(views.take(i + 1).drop_last() =~= views.take(i as int));
                    assert(views.take(i + 1).last() == all@[i as int]@);
                }
                let ghost prev = item_views(out@);
                let ghost matched = all_matches(views.take(i as int), q@);
                if hit && out.len() < MAX_RESULTS {
                    let item = all[i].clone();
                    out.push(item);
                    assert(item_views(out@) =~= prev.push(all@[i as int]@));
                }
                proof {
                    let next = all_matches(views.take(i + 1), q@);
                    if hit {
                        assert(next == matched.push(all@[i as int]@));
                        if matched.len() < MAX_RESULTS {
                            assert(capped(matched, MAX_RESULTS as nat) == matched);
                        } else {
                            assert(capped(next, MAX_RESULTS as nat) =~= capped(
                                matched,
                                MAX_RESULTS as nat,
                            ));
                        }
                    } else {
                        assert(next == matched);
                    }
                }
                i += 1;
            }
            assert(views.take(n as int) =~= views);
        }
        self.filtered = out;
        self.selected = 0;
    }

    /// Move the selection up, wrapping from the first result to the last.
    pub fn select_prev(&mut self)
        ensures
            final(self).selected == wrapped_prev(old(self).selected as int, old(self).filtered@.len() as int),
            final(self).filtered@ == old(self).filtered@,
            final(self).query@ == old(self).query@,
            final(self).open == old(self).open,
    {
        if self.filtered.len() == 0 {
            return;
        }
        self.selected = if self.selected == 0 {
            self.filtered.len() - 1
        } else {
            self.selected - 1
        };
    }

    /// Move the selection down, wrapping from the last result to the first.
    pub fn select_next(&mut self)
        ensures
            final(self).selected == wrapped_next(old(self).selected as int, old(self).filtered@.len() as int),
            final(self).filtered@ == old(self).filtered@,
            final(self).query@ == old(self).query@,
            final(self).open == old(self).open,
    {
        if self.filtered.len() == 0 {
            return;
        }
        self.selected = if self.selected >= self.filtered.len() - 1 {
            0
        } else {
            self.selected + 1
        };
    }

    /// Select an absolute index, clamped to the last result.
    pub fn select_at(&mut self, index: usize)
        ensures
            final(self).selected == (if old(self).filtered@.len() == 0 {
                old(self).selected as int
            } else if index < old(self).filtered@.len() {
                index as int
            } else {
                old(self).filtered@.len() - 1
            }),
            final(self).filtered@ == old(self).filtered@,
            final(self).query@ == old(self).query@,
            final(self).open == old(self).open,
    {
        if self.filtered.len() != 0 {
            let last = self.filtered.len() - 1;
            self.selected = if index < last {
                index
            } else {
                last
            };
        }
    }

    /// Dismiss the palette and return the highlighted command, if any.
    pub fn take_selection(&mut self) -> (r: Option<CommandId>)
        ensures
            r == (if old(self).selected < old(self).filtered@.len() {
                Some(old(self).filtered@[old(self).selected as int].id)
            } else {
                None::<CommandId>
            }),
            final(self).is_cleared(),
    {
        let cmd = if self.selected < self.filtered.len() {
            Some(self.filtered[self.selected].id)
        } else {
            None
        };
        self.dismiss();
        cmd
    }

    /// Dismiss without selecting.
    pub fn dismiss(&mut self)
        ensures
            final(self).is_cleared(),
    {
        self.open = false;
        self.query = String::new();
        self.filtered = Vec::new();
        self.selected = 0;
    }
}

impl Default for PaletteState {
    fn default() -> (p: Self)
        ensures
            p.is_cleared(),
    {
        PaletteState::new()
    }
}

/// The shipped catalog, in display order.
pub open spec fn default_catalog() -> Seq<(Seq<char>, CommandId)> {
    seq![
        ("Open Activity Dock"@, CommandId::OpenDock(DockSide::Left)),
        ("Open Conversation Dock"@, CommandId::OpenDock(DockSide::Right)),
        ("Open Output Dock"@, CommandId::OpenDock(DockSide::Bottom)),
        ("Collapse Activity Dock"@, CommandId::CollapseDock(DockSide::Left)),
        ("Collapse Conversation Dock"@, CommandId::CollapseDock(DockSide::Right)),
        ("Collapse Output Dock"@, CommandId::CollapseDock(DockSide::Bottom)),
        ("Hide Activity Dock"@, CommandId::HideDock(DockSide::Left)),
        ("Hide Conversation Dock"@, CommandId::HideDock(DockSide::Right)),
        ("Hide Output Dock"@, CommandId::HideDock(DockSide::Bottom)),
        ("Split Pane"@, CommandId::SplitFocused),
        ("Close Active Tab"@, CommandId::CloseActiveTab),
        ("Toggle Theme"@, CommandId::ToggleTheme),
        ("New Window"@, CommandId::NewWindow),
    ]
}

/// Seed the palette's available commands.
pub fn default_command_items() -> (r: Vec<CommandItem>)
    ensures
        item_views(r@) == default_catalog(),
{
    let mut v: Vec<CommandItem> = Vec::new();
    v.push(CommandItem::new("Open Activity Dock", CommandId::OpenDock(DockSide::Left)));
    v.push(CommandItem::new("Open Conversation Dock", CommandId::OpenDock(DockSide::Right)));
    v.push(CommandItem::new("Open Output Dock", CommandId::OpenDock(DockSide::Bottom)));
    v.push(CommandItem::new("Collapse Activity Dock", CommandId::CollapseDock(DockSide::Left)));
    v.push(
        CommandItem::new("Collapse Conversation Dock", CommandId::CollapseDock(DockSide::Right)),
    );
    v.push(CommandItem::new("Collapse Output Dock", CommandId::CollapseDock(DockSide::Bottom)));
    v.push(CommandItem::new("Hide Activity Dock", CommandId::HideDock(DockSide::Left)));
    v.push(CommandItem::new("Hide Conversation Dock", CommandId::HideDock(DockSide::Right)));
    v.push(CommandItem::new("Hide Output Dock", CommandId::HideDock(DockSide::Bottom)));
    v.push(CommandItem::new("Split Pane", CommandId::SplitFocused));
    v.push(CommandItem::new("Close Active Tab", CommandId::CloseActiveTab));
    v.push(CommandItem::new("Toggle Theme", CommandId::ToggleTheme));
    v.push(CommandItem::new("New Window", CommandId::NewWindow));
    assert(item_views(v@) =~= default_catalog());
    v
}

} // verus!
