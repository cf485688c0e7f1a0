//! The center split tree of the workspace.
//!
//! A [`PaneGrid`] is a binary tree of splits whose leaves are [`Pane`]s,
//! plus the per-pane state. It follows the semantics of the pane grid the
//! renderer draws: panes get increasing ids from one counter, a split turns
//! a leaf into a half/half split with the new pane second (or first, for an
//! inverse split), closing a pane hoists its sibling subtree and reports the
//! sibling's first pane, and panes iterate in ascending id order.
//!
//! Split ratios are carried as the bit pattern of the renderer's single
//! precision ratio; the library never computes with them.

use crate::workspace::workspace_location::Pane;
use vstd::prelude::*;

verus! {

/// Split direction of a tree node.
#[derive(Debug, Clone, Copy, PartialEq, Eq, Hash, Structural)]
pub enum SplitAxis {
    Horizontal,
    Vertical,
}

/// The bit pattern of the ratio one half, the ratio every new split gets.
pub const HALF_RATIO_BITS: u32 = 0x3f00_0000u32;

/// A node of the split tree.
#[derive(Debug)]
pub enum Node {
    /// The region is split in two along `axis`; `a` is the left/top part.
    Split { axis: SplitAxis, ratio_bits: u32, a: Box<Node>, b: Box<Node> },
    /// The region shows one pane.
    Pane(Pane),
}

impl Node {
    /// The panes of the subtree, depth first, `a` before `b`.
    pub open spec fn leaves(self) -> Seq<Pane>
        decreases self,
    {
        match self {
            Node::Split { a, b, .. } => a.leaves() + b.leaves(),
            Node::Pane(p) => seq![p],
        }
    }

    /// The first pane of the subtree.
    pub open spec fn first_leaf(self) -> Pane
        decreases self,
    {
        match self {
            Node::Split { a, .. } => a.first_leaf(),
            Node::Pane(p) => p,
        }
    }

    /// Every leaf `target` replaced by the subtree `with`.
    pub open spec fn replace_leaf(self, target: Pane, with: Node) -> Node
        decreases self,
    {
        match self {
            Node::Split { axis, ratio_bits, a, b } => Node::Split {
                axis,
                ratio_bits,
                a: Box::new(a.replace_leaf(target, with)),
                b: Box::new(b.replace_leaf(target, with)),
            },
            Node::Pane(p) => if p == target {
                with
            } else {
                Node::Pane(p)
            },
        }
    }

    /// Leaves `x` and `y` exchanged.
    pub open spec fn swap_leaves(self, x: Pane, y: Pane) -> Node
        decreases self,
    {
        match self {
            Node::Split { axis, ratio_bits, a, b } => Node::Split {
                axis,
                ratio_bits,
                a: Box::new(a.swap_leaves(x, y)),
                b: Box::new(b.swap_leaves(x, y)),
            },
            Node::Pane(p) => Node::Pane(swapped(p, x, y)),
        }
    }

    /// The tree without leaf `p`: the split holding `p` directly is
    /// replaced by the other child, whose first pane is reported. `None`
    /// when `p` is not a leaf under some split.
    pub open spec fn remove_leaf(self, p: Pane) -> Option<(Node, Pane)>
        decreases self,
    {
        match self {
            Node::Split { axis, ratio_bits, a, b } => {
                if *a == Node::Pane(p) {
                    Some((*b, b.first_leaf()))
                } else if *b == Node::Pane(p) {
                    Some((*a, a.first_leaf()))
                } else {
                    match a.remove_leaf(p) {
                        Some((na, s)) => Some(
                            (Node::Split { axis, ratio_bits, a: Box::new(na), b }, s),
                        ),
                        None => match b.remove_leaf(p) {
                            Some((nb, s)) => Some(
                                (Node::Split { axis, ratio_bits, a, b: Box::new(nb) }, s),
                            ),
                            None => None,
                        },
                    }
                }
            },
            Node::Pane(_) => None,
        }
    }
}

/// `p` with `x` and `y` exchanged.
pub open spec fn swapped(p: Pane, x: Pane, y: Pane) -> Pane {
    if p == x {
        y
    } else if p == y {
        x
    } else {
        p
    }
}

/// The split a new pane produces: the old leaf first, the new pane second,
/// or the other way round when `inverse`.
pub open spec fn split_node_of(old: Node, axis: SplitAxis, new_pane: Pane, inverse: bool) -> Node {
    if inverse {
        Node::Split {
            axis,
            ratio_bits: HALF_RATIO_BITS,
            a: Box::new(Node::Pane(new_pane)),
            b: Box::new(old),
        }
    } else {
        Node::Split {
            axis,
            ratio_bits: HALF_RATIO_BITS,
            a: Box::new(old),
            b: Box::new(Node::Pane(new_pane)),
        }
    }
}

impl Clone for Node {
    fn clone(&self) -> (r: Self)
        ensures
            r == *self,
        decreases self,
    {
        match self {
            Node::Split { axis, ratio_bits, a, b } => {
                let ca = (**a).clone();
                let cb = (**b).clone();
                Node::Split { axis: *axis, ratio_bits: *ratio_bits, a: Box::new(ca), b: Box::new(cb) }
            },
            Node::Pane(p) => Node::Pane(*p),
        }
    }
}

proof fn lemma_leaves_nonempty(n: Node)
    ensures
        n.leaves().len() >= 1,
        n.leaves()[0] == n.first_leaf(),
    decreases n,
{
    match n {
        Node::Split { a, b, .. } => {
            lemma_leaves_nonempty(*a);
            lemma_leaves_nonempty(*b);
        },
        Node::Pane(_) => {},
    }
}

/// Replacing a unique leaf swaps it for the leaves of the new subtree.
proof fn lemma_replace_leaf(n: Node, t: Pane, w: Node)
    requires
        n.leaves().no_duplicates(),
        w.leaves().no_duplicates(),
        forall|x: Pane| #[trigger] w.leaves().contains(x) ==> x == t || !n.leaves().contains(x),
    ensures
        n.replace_leaf(t, w).leaves().no_duplicates(),
        forall|x: Pane| #[trigger]
            n.replace_leaf(t, w).leaves().contains(x) <==> if n.leaves().contains(t) {
                (n.leaves().contains(x) && x != t) || w.leaves().contains(x)
            } else {
                n.leaves().contains(x)
            },
    decreases n,
{
    match n {
        Node::Split { axis, ratio_bits, a, b } => {
            let la = a.leaves();
            let lb = b.leaves();
            assert(n.leaves() == la + lb);
            assert forall|x: Pane| #[trigger] la.contains(x) implies (la + lb).contains(x) by {
                let i = choose|i: int| 0 <= i < la.len() && la[i] == x;
                assert((la + lb)[i] == x);
            }
            assert forall|x: Pane| #[trigger] lb.contains(x) implies (la + lb).contains(x) by {
                let i = choose|i: int| 0 <= i < lb.len() && lb[i] == x;
                assert((la + lb)[la.len() + i] == x);
            }
            assert forall|x: Pane| #[trigger] (la + lb).contains(x) implies la.contains(x)
                || lb.contains(x) by {
                let i = choose|i: int| 0 <= i < (la + lb).len() && (la + lb)[i] == x;
                if i < la.len() {
                    assert(la[i] == x);
                } else {
                    assert(lb[i - la.len()] == x);
                }
            }
            assert(la.no_duplicates()) by {
                assert forall|i: int, j: int| 0 <= i < la.len() && 0 <= j < la.len() && i != j implies la[i]
                    != la[j] by {
                    assert((la + lb)[i] == la[i]);
                    assert((la + lb)[j] == la[j]);
                }
            }
            assert(lb.no_duplicates()) by {
                assert forall|i: int, j: int| 0 <= i < lb.len() && 0 <= j < lb.len() && i != j implies lb[i]
                    != lb[j] by {
                    assert((la + lb)[la.len() + i] == lb[i]);
                    assert((la + lb)[la.len() + j] == lb[j]);
                }
            }
            assert forall|x: Pane| la.contains(x) implies !lb.contains(x) by {
                let i = choose|i: int| 0 <= i < la.len() && la[i] == x;
                if lb.contains(x) {
                    let j = choose|j: int| 0 <= j < lb.len() && lb[j] == x;
                    assert((la + lb)[i] == (la + lb)[la.len() + j]);
                }
            }
            lemma_replace_leaf(*a, t, w);
            lemma_replace_leaf(*b, t, w);
            let ra = a.replace_leaf(t, w).leaves();
            let rb = b.replace_leaf(t, w).leaves();
            let r = n.replace_leaf(t, w);
            assert(r.leaves() == ra + rb);
            assert forall|x: Pane| #[trigger] (ra + rb).contains(x) <==> ra.contains(x)
                || rb.contains(x) by {
                if ra.contains(x) {
                    let i = choose|i: int| 0 <= i < ra.len() && ra[i] == x;
                    assert((ra + rb)[i] == x);
                }
                if rb.contains(x) {
                    let i = choose|i: int| 0 <= i < rb.len() && rb[i] == x;
                    assert((ra + rb)[ra.len() + i] == x);
                }
                if (ra + rb).contains(x) {
                    let i = choose|i: int| 0 <= i < (ra + rb).len() && (ra + rb)[i] == x;
                    if i < ra.len() {
                        assert(ra[i] == x);
                    } else {
                        assert(rb[i - ra.len()] == x);
                    }
                }
            }
            assert((la + lb).contains(t) <==> la.contains(t) || lb.contains(t));
            assert forall|x: Pane| #[trigger]
                r.leaves().contains(x) <==> if n.leaves().contains(t) {
                    (n.leaves().contains(x) && x != t) || w.leaves().contains(x)
                } else {
                    n.leaves().contains(x)
                } by {
                assert(r.leaves().contains(x) <==> ra.contains(x) || rb.contains(x));
                assert(a.replace_leaf(t, w).leaves().contains(x) == ra.contains(x));
                assert(b.replace_leaf(t, w).leaves().contains(x) == rb.contains(x));
                assert((la + lb).contains(x) <==> la.contains(x) || lb.contains(x));
            }
            // t occurs in at most one side, so the two results stay disjoint.
            assert forall|i: int, j: int|
                0 <= i < (ra + rb).len() && 0 <= j < (ra + rb).len() && i != j implies (ra
                + rb)[i] != (ra + rb)[j] by {
                if i < ra.len() && j < ra.len() {
                } else if i >= ra.len() && j >= ra.len() {
                    assert((ra + rb)[i] == rb[i - ra.len()]);
                    assert((ra + rb)[j] == rb[j - ra.len()]);
                } else {
                    let (ii, jj) = if i < ra.len() {
                        (i, j - ra.len())
                    } else {
                        (j, i - ra.len())
                    };
                    let x = ra[ii];
                    let y = rb[jj];
                    assert(ra.contains(x));
                    assert(rb.contains(y));
                    if x == y {
                        if la.contains(t) {
                            assert(!lb.contains(t));
                            assert(rb.contains(x) == lb.contains(x));
                            if w.leaves().contains(x) {
                                assert(!lb.contains(x) || x == t);
                            }
                        } else {
                            assert(ra.contains(x) == la.contains(x));
                        }
                    }
                }
            }
        },
        Node::Pane(p) => {
            if p == t {
                assert(n.leaves()[0] == t);
            } else {
                assert(n.replace_leaf(t, w).leaves() =~= seq![p]);
                assert forall|x: Pane| n.leaves().contains(x) <==> x == p by {
                    if n.leaves().contains(x) {
                        let i = choose|i: int| 0 <= i < n.leaves().len() && n.leaves()[i] == x;
                    }
                    if x == p {
                        assert(n.leaves()[0] == p);
                    }
                }
            }
        },
    }
}

/// Membership in a concatenation.
pub proof fn lemma_concat_contains<A>(la: Seq<A>, lb: Seq<A>)
    ensures
        forall|x: A| #[trigger] (la + lb).contains(x) <==> la.contains(x) || lb.contains(x),
{
    assert forall|x: A| #[trigger] (la + lb).contains(x) <==> la.contains(x) || lb.contains(x) by {
        if la.contains(x) {
            let i = choose|i: int| 0 <= i < la.len() && la[i] == x;
            assert((la + lb)[i] == x);
        }
        if lb.contains(x) {
            let i = choose|i: int| 0 <= i < lb.len() && lb[i] == x;
            assert((la + lb)[la.len() + i] == x);
        }
        if (la + lb).contains(x) {
            let i = choose|i: int| 0 <= i < (la + lb).len() && (la + lb)[i] == x;
            if i < la.len() {
                assert(la[i] == x);
            } else {
                assert(lb[i - la.len()] == x);
            }
        }
    }
}

/// A concatenation has no duplicates exactly when both parts have none and
/// they share no element.
pub proof fn lemma_concat_no_dup<A>(la: Seq<A>, lb: Seq<A>)
    ensures
        (la + lb).no_duplicates() <==> la.no_duplicates() && lb.no_duplicates() && (forall|x: A|
            #[trigger] la.contains(x) ==> !lb.contains(x)),
{
    lemma_concat_contains(la, lb);
    let s = la + lb;
    if s.no_duplicates() {
        assert forall|i: int, j: int| 0 <= i < la.len() && 0 <= j < la.len() && i != j implies la[i]
            != la[j] by {
            assert(s[i] == la[i] && s[j] == la[j]);
        }
        assert forall|i: int, j: int| 0 <= i < lb.len() && 0 <= j < lb.len() && i != j implies lb[i]
            != lb[j] by {
            assert(s[la.len() + i] == lb[i] && s[la.len() + j] == lb[j]);
        }
        assert forall|x: A| #[trigger] la.contains(x) implies !lb.contains(x) by {
            let i = choose|i: int| 0 <= i < la.len() && la[i] == x;
            if lb.contains(x) {
                let j = choose|j: int| 0 <= j < lb.len() && lb[j] == x;
                assert(s[i] == s[la.len() + j]);
            }
        }
    }
    if la.no_duplicates() && lb.no_duplicates() && (forall|x: A| #[trigger] la.contains(x)
        ==> !lb.contains(x)) {
        assert forall|i: int, j: int| 0 <= i < s.len() && 0 <= j < s.len() && i != j implies s[i]
            != s[j] by {
            if i < la.len() && j < la.len() {
            } else if i >= la.len() && j >= la.len() {
                assert(s[i] == lb[i - la.len()] && s[j] == lb[j - la.len()]);
            } else if i < la.len() {
                assert(la.contains(s[i]));
                assert(lb.contains(s[j])) by { assert(s[j] == lb[j - la.len()]); }
            } else {
                assert(la.contains(s[j]));
                assert(lb.contains(s[i])) by { assert(s[i] == lb[i - la.len()]); }
            }
        }
    }
}

/// Exchanging two leaves maps every leaf through [`swapped`].
pub proof fn lemma_swap_leaves(n: Node, x: Pane, y: Pane)
    ensures
        n.swap_leaves(x, y).leaves() == n.leaves().map_values(|p: Pane| swapped(p, x, y)),
    decreases n,
{
    match n {
        Node::Split { a, b, .. } => {
            lemma_swap_leaves(*a, x, y);
            lemma_swap_leaves(*b, x, y);
            assert(n.leaves().map_values(|p: Pane| swapped(p, x, y)) =~= a.leaves().map_values(
                |p: Pane| swapped(p, x, y),
            ) + b.leaves().map_values(|p: Pane| swapped(p, x, y)));
        },
        Node::Pane(p) => {
            assert(n.leaves().map_values(|q: Pane| swapped(q, x, y)) =~= seq![swapped(p, x, y)]);
        },
    }
}

/// Exchanging two leaves keeps the leaves free of duplicates and maps
/// membership through [`swapped`].
pub proof fn lemma_swap_leaves_set(n: Node, x: Pane, y: Pane)
    requires
        n.leaves().no_duplicates(),
    ensures
        n.swap_leaves(x, y).leaves().no_duplicates(),
        forall|q: Pane| #[trigger]
            n.swap_leaves(x, y).leaves().contains(q) <==> n.leaves().contains(swapped(q, x, y)),
{
    lemma_swap_leaves(n, x, y);
    let l = n.leaves();
    let m = n.swap_leaves(x, y).leaves();
    assert forall|i: int, j: int| 0 <= i < m.len() && 0 <= j < m.len() && i != j implies m[i]
        != m[j] by {
        assert(m[i] == swapped(l[i], x, y));
        assert(m[j] == swapped(l[j], x, y));
    }
    assert forall|q: Pane| #[trigger] m.contains(q) <==> l.contains(swapped(q, x, y)) by {
        if m.contains(q) {
            let i = choose|i: int| 0 <= i < m.len() && m[i] == q;
            assert(l[i] == swapped(q, x, y));
        }
        if l.contains(swapped(q, x, y)) {
            let i = choose|i: int| 0 <= i < l.len() && l[i] == swapped(q, x, y);
            assert(m[i] == q);
        }
    }
}

/// Exchanging a leaf `t` with a pane `x` that is not in the tree, after
/// every `t` was replaced by a subtree, is the same as exchanging them
/// inside that subtree only.
pub proof fn lemma_replace_then_swap(n: Node, t: Pane, x: Pane, with: Node)
    requires
        !n.leaves().contains(x),
    ensures
        n.replace_leaf(t, with).swap_leaves(x, t) == n.replace_leaf(t, with.swap_leaves(x, t)),
    decreases n,
{
    match n {
        Node::Split { a, b, .. } => {
            lemma_concat_contains(a.leaves(), b.leaves());
            lemma_replace_then_swap(*a, t, x, with);
            lemma_replace_then_swap(*b, t, x, with);
        },
        Node::Pane(p) => {
            assert(n.leaves()[0] == p);
        },
    }
}

/// Removing a leaf that sits under some split succeeds; the remaining tree
/// holds every other leaf and the reported sibling.
pub proof fn lemma_remove_leaf(n: Node, p: Pane)
    requires
        n.leaves().no_duplicates(),
    ensures
        (n.remove_leaf(p) is Some) <==> (n.leaves().contains(p) && n is Split),
        n.remove_leaf(p) matches Some((m, s)) ==> {
            &&& m.leaves().no_duplicates()
            &&& m.leaves().contains(s)
            &&& forall|x: Pane| #[trigger]
                m.leaves().contains(x) <==> (n.leaves().contains(x) && x != p)
        },
    decreases n,
{
    match n {
        Node::Split { axis, ratio_bits, a, b } => {
            let la = a.leaves();
            let lb = b.leaves();
            lemma_concat_contains(la, lb);
            lemma_concat_no_dup(la, lb);
            lemma_leaves_nonempty(*a);
            lemma_leaves_nonempty(*b);
            if *a == Node::Pane(p) {
                assert(la == seq![p]);
                assert(la.contains(p)) by { assert(la[0] == p); }
                assert forall|x: Pane| #[trigger] lb.contains(x) <==> ((la + lb).contains(x) && x != p) by {
                    if la.contains(x) {
                        let i = choose|i: int| 0 <= i < la.len() && la[i] == x;
                    }
                }
            } else if *b == Node::Pane(p) {
                assert(lb == seq![p]);
                assert(lb.contains(p)) by { assert(lb[0] == p); }
                assert forall|x: Pane| #[trigger] la.contains(x) <==> ((la + lb).contains(x) && x != p) by {
                    if lb.contains(x) {
                        let i = choose|i: int| 0 <= i < lb.len() && lb[i] == x;
                    }
                }
            } else {
                lemma_remove_leaf(*a, p);
                lemma_remove_leaf(*b, p);
                match a.remove_leaf(p) {
                    Some((na, s)) => {
                        let ln = na.leaves();
                        lemma_concat_contains(ln, lb);
                        lemma_concat_no_dup(ln, lb);
                    },
                    None => {
                        match b.remove_leaf(p) {
                            Some((nb, s)) => {
                                let ln = nb.leaves();
                                lemma_concat_contains(la, ln);
                                lemma_concat_no_dup(la, ln);
                            },
                            None => {
                                if la.contains(p) {
                                    assert(a.leaves() == seq![p]) by {
                                        match *a {
                                            Node::Pane(q) => {
                                                assert(la[0] == q);
                                                let i = choose|i: int| 0 <= i < la.len() && la[i] == p;
                                            },
                                            Node::Split { .. } => {},
                                        }
                                    }
                                }
                                if lb.contains(p) {
                                    match *b {
                                        Node::Pane(q) => {
                                            let i = choose|i: int| 0 <= i < lb.len() && lb[i] == p;
                                            assert(lb[i] == q);
                                        },
                                        Node::Split { .. } => {},
                                    }
                                }
                                match *a {
                                    Node::Pane(q) => {
                                        if la.contains(p) {
                                            let i = choose|i: int| 0 <= i < la.len() && la[i] == p;
                                            assert(la[i] == q);
                                        }
                                    },
                                    Node::Split { .. } => {},
                                }
                            },
                        }
                    },
                }
            }
        },
        Node::Pane(_) => {},
    }
}

/// The leaves of a single-pane node.
proof fn lemma_pane_leaves(p: Pane)
    ensures
        Node::Pane(p).leaves().no_duplicates(),
        forall|x: Pane| #[trigger] Node::Pane(p).leaves().contains(x) <==> x == p,
{
    let l = Node::Pane(p).leaves();
    assert(l[0] == p);
    assert forall|x: Pane| #[trigger] l.contains(x) <==> x == p by {
        if l.contains(x) {
            let i = choose|i: int| 0 <= i < l.len() && l[i] == x;
        }
    }
}

/// Splitting the leaf `t` with a fresh pane adds exactly that pane.
proof fn lemma_split_leaf(n: Node, t: Pane, axis: SplitAxis, new_pane: Pane, inverse: bool)
    requires
        n.leaves().no_duplicates(),
        n.leaves().contains(t),
        !n.leaves().contains(new_pane),
    ensures
        n.replace_leaf(t, split_node_of(Node::Pane(t), axis, new_pane, inverse)).leaves().no_duplicates(),
        forall|x: Pane| #[trigger]
            n.replace_leaf(t, split_node_of(Node::Pane(t), axis, new_pane, inverse)).leaves().contains(x)
                <==> (n.leaves().contains(x) || x == new_pane),
{
    let with = split_node_of(Node::Pane(t), axis, new_pane, inverse);
    lemma_pane_leaves(t);
    lemma_pane_leaves(new_pane);
    assert(t != new_pane);
    lemma_concat_no_dup(with->a.leaves(), with->b.leaves());
    lemma_concat_contains(with->a.leaves(), with->b.leaves());
    assert(with.leaves() == with->a.leaves() + with->b.leaves());
    assert forall|x: Pane| #[trigger] with.leaves().contains(x) implies x == t || !n.leaves().contains(x) by {}
    lemma_replace_leaf(n, t, with);
}

/// Splitting the whole tree with a fresh pane adds exactly that pane.
proof fn lemma_split_root(n: Node, axis: SplitAxis, new_pane: Pane, inverse: bool)
    requires
        n.leaves().no_duplicates(),
        !n.leaves().contains(new_pane),
    ensures
        split_node_of(n, axis, new_pane, inverse).leaves().no_duplicates(),
        forall|x: Pane| #[trigger]
            split_node_of(n, axis, new_pane, inverse).leaves().contains(x)
                <==> (n.leaves().contains(x) || x == new_pane),
{
    let np = Node::Pane(new_pane).leaves();
    lemma_pane_leaves(new_pane);
    lemma_concat_no_dup(n.leaves(), np);
    lemma_concat_contains(n.leaves(), np);
    lemma_concat_no_dup(np, n.leaves());
    lemma_concat_contains(np, n.leaves());
}

// ---- executable tree operations ------------------------------------------

/// Whether `p` is a leaf of `n`.
fn contains_leaf(n: &Node, p: Pane) -> (r: bool)
    ensures
        r == n.leaves().contains(p),
    decreases n,
{
    match n {
        Node::Split { a, b, .. } => {
            proof {
                lemma_concat_contains(a.leaves(), b.leaves());
            }
            contains_leaf(a, p) || contains_leaf(b, p)
        },
        Node::Pane(q) => {
            proof {
                if n.leaves().contains(p) {
                    let i = choose|i: int| 0 <= i < n.leaves().len() && n.leaves()[i] == p;
                }
                if *q == p {
                    assert(n.leaves()[0] == p);
                }
            }
            *q == p
        },
    }
}

/// The first pane of a subtree.
fn first_leaf_of(n: &Node) -> (r: Pane)
    ensures
        r == n.first_leaf(),
    decreases n,
{
    match n {
        Node::Split { a, .. } => first_leaf_of(a),
        Node::Pane(q) => *q,
    }
}

fn replace_leaf_exec(n: Node, t: Pane, w: &Node) -> (r: Node)
    ensures
        r == n.replace_leaf(t, *w),
    decreases n,
{
    match n {
        Node::Split { axis, ratio_bits, a, b } => {
            let na = replace_leaf_exec(*a, t, w);
            let nb = replace_leaf_exec(*b, t, w);
            Node::Split { axis, ratio_bits, a: Box::new(na), b: Box::new(nb) }
        },
        Node::Pane(q) => {
            if q == t {
                w.clone()
            } else {
                Node::Pane(q)
            }
        },
    }
}

fn swap_leaves_exec(n: Node, x: Pane, y: Pane) -> (r: Node)
    ensures
        r == n.swap_leaves(x, y),
    decreases n,
{
    match n {
        Node::Split { axis, ratio_bits, a, b } => {
            let na = swap_leaves_exec(*a, x, y);
            let nb = swap_leaves_exec(*b, x, y);
            Node::Split { axis, ratio_bits, a: Box::new(na), b: Box::new(nb) }
        },
        Node::Pane(q) => {
            if q == x {
                Node::Pane(y)
            } else if q == y {
                Node::Pane(x)
            } else {
                Node::Pane(q)
            }
        },
    }
}

fn is_pane_leaf(n: &Node, p: Pane) -> (r: bool)
    ensures
        r == (*n == Node::Pane(p)),
{
    match n {
        Node::Pane(q) => *q == p,
        Node::Split { .. } => false,
    }
}

/// Remove leaf `p`; on failure the untouched tree comes back.
fn remove_leaf_exec(n: Node, p: Pane) -> (r: Result<(Node, Pane), Node>)
    ensures
        match r {
            Ok((m, s)) => n.remove_leaf(p) == Some((m, s)),
            Err(o) => n.remove_leaf(p) is None && o == n,
        },
    decreases n,
{
    match n {
        Node::Split { axis, ratio_bits, a, b } => {
            if is_pane_leaf(&a, p) {
                let s = first_leaf_of(&b);
                Ok((*b, s))
            } else if is_pane_leaf(&b, p) {
                let s = first_leaf_of(&a);
                Ok((*a, s))
            } else {
                match remove_leaf_exec(*a, p) {
                    Ok((na, s)) => Ok((Node::Split { axis, ratio_bits, a: Box::new(na), b }, s)),
                    Err(a0) => match remove_leaf_exec(*b, p) {
                        Ok((nb, s)) => Ok(
                            (Node::Split { axis, ratio_bits, a: Box::new(a0), b: Box::new(nb) }, s),
                        ),
                        Err(b0) => Err(
                            Node::Split { axis, ratio_bits, a: Box::new(a0), b: Box::new(b0) },
                        ),
                    },
                }
            }
        },
        Node::Pane(q) => Err(Node::Pane(q)),
    }
}

// ---- pane maps --------------------------------------------------------------

/// Pane ids strictly increase along the entries.
pub open spec fn ids_increasing<T>(s: Seq<(Pane, T)>) -> bool {
    forall|i: int, j: int| 0 <= i < j < s.len() ==> (#[trigger] s[i]).0.0 < (#[trigger] s[j]).0.0
}

/// The ids of the entries.
pub open spec fn entry_ids<T>(s: Seq<(Pane, T)>) -> Seq<Pane> {
    s.map_values(|e: (Pane, T)| e.0)
}

/// The index of the entry of pane `p`.
pub open spec fn index_of_pane<T>(s: Seq<(Pane, T)>, p: Pane) -> int {
    choose|i: int| 0 <= i < s.len() && (#[trigger] s[i]).0 == p
}

/// The entries as a map from pane to state.
pub open spec fn entries_map<T>(s: Seq<(Pane, T)>) -> Map<Pane, T> {
    Map::new(
        |p: Pane| exists|i: int| 0 <= i < s.len() && (#[trigger] s[i]).0 == p,
        |p: Pane| s[index_of_pane(s, p)].1,
    )
}

proof fn lemma_index_of<T>(s: Seq<(Pane, T)>, i: int)
    requires
        ids_increasing(s),
        0 <= i < s.len(),
    ensures
        index_of_pane(s, s[i].0) == i,
        entries_map(s).contains_key(s[i].0),
        entries_map(s)[s[i].0] == s[i].1,
{
    let p = s[i].0;
    assert(exists|k: int| 0 <= k < s.len() && (#[trigger] s[k]).0 == p);
    let k = index_of_pane(s, p);
    if k < i {
        assert(s[k].0.0 < s[i].0.0);
    } else if k > i {
        assert(s[i].0.0 < s[k].0.0);
    }
}

proof fn lemma_entry_ids<T>(s: Seq<(Pane, T)>)
    ensures
        forall|p: Pane| #[trigger]
            entry_ids(s).contains(p) <==> entries_map(s).contains_key(p),
        entry_ids(s).len() == s.len(),
{
    assert forall|p: Pane| #[trigger] entry_ids(s).contains(p) <==> entries_map(s).contains_key(
        p,
    ) by {
        if entry_ids(s).contains(p) {
            let i = choose|i: int| 0 <= i < entry_ids(s).len() && entry_ids(s)[i] == p;
            assert(s[i].0 == p);
        }
        if entries_map(s).contains_key(p) {
            let i = choose|i: int| 0 <= i < s.len() && (#[trigger] s[i]).0 == p;
            assert(entry_ids(s)[i] == p);
        }
    }
}

// ---- the grid ------------------------------------------------------------

/// Edges of an area, for drops onto the grid border or a pane edge.
#[derive(Debug, Clone, Copy, PartialEq, Eq, Structural)]
pub enum Edge {
    Top,
    Left,
    Right,
    Bottom,
}

/// The region of a pane a dragged pane is dropped on.
#[derive(Debug, Clone, Copy, PartialEq, Eq, Structural)]
pub enum Region {
    Center,
    Edge(Edge),
}

/// Where a dragged pane is dropped.
#[derive(Debug, Clone, Copy, PartialEq, Eq, Structural)]
pub enum PaneDropTarget {
    /// An edge of the whole grid.
    Edge(Edge),
    /// A region of one pane.
    Pane(Pane, Region),
}

/// The abstract state of a grid: its split tree, the state of each pane,
/// and the id counter.
pub struct GridModel<T> {
    pub layout: Node,
    pub panes: Map<Pane, T>,
    pub last_id: int,
}

/// The pane with the smallest id among the panes of `m`.
pub open spec fn min_pane(ids: Set<Pane>) -> Pane {
    choose|p: Pane| #[trigger]
        ids.contains(p) && forall|q: Pane| #[trigger] ids.contains(q) ==> p.0 <= q.0
}

/// Splitting: the target leaf (or, with no target, the whole tree) becomes
/// a half/half split with a fresh pane; fails when the target is absent or
/// the id counter is exhausted.
#[verifier::opaque]
pub open spec fn model_split_node<T>(
    m: GridModel<T>,
    axis: SplitAxis,
    target: Option<Pane>,
    state: T,
    inverse: bool,
) -> (GridModel<T>, Option<Pane>) {
    if target matches Some(t) && !m.layout.leaves().contains(t) {
        (m, None)
    } else if m.last_id >= usize::MAX {
        (m, None)
    } else if m.last_id + 1 >= usize::MAX {
        (GridModel { last_id: m.last_id + 1, ..m }, None)
    } else {
        let new_pane = Pane((m.last_id + 1) as usize);
        let layout = match target {
            Some(t) => m.layout.replace_leaf(t, split_node_of(Node::Pane(t), axis, new_pane, inverse)),
            None => split_node_of(m.layout, axis, new_pane, inverse),
        };
        (
            GridModel { layout, panes: m.panes.insert(new_pane, state), last_id: m.last_id + 2 },
            Some(new_pane),
        )
    }
}

/// Closing: the pane leaves the tree and the map; its state and the first
/// pane of its sibling come back.
#[verifier::opaque]
pub open spec fn model_close<T>(m: GridModel<T>, p: Pane) -> (GridModel<T>, Option<(T, Pane)>) {
    match m.layout.remove_leaf(p) {
        Some((layout, sibling)) => (
            GridModel { layout, panes: m.panes.remove(p), ..m },
            Some((m.panes[p], sibling)),
        ),
        None => (m, None),
    }
}

/// Swapping two panes' positions in the tree.
#[verifier::opaque]
pub open spec fn model_swap<T>(m: GridModel<T>, a: Pane, b: Pane) -> GridModel<T> {
    GridModel { layout: m.layout.swap_leaves(a, b), ..m }
}

/// Giving the pane `target` the id `label`.
#[verifier::opaque]
pub open spec fn model_relabel<T>(m: GridModel<T>, target: Pane, label: Pane) -> GridModel<T> {
    let m1 = model_swap(m, target, label);
    if m1.panes.contains_key(target) {
        GridModel { panes: m1.panes.remove(target).insert(label, m1.panes[target]), ..m1 }
    } else {
        m1
    }
}

/// Moving `pane` next to `target` along `axis`, first when `swap`.
pub open spec fn model_split_and_swap<T>(
    m: GridModel<T>,
    axis: SplitAxis,
    target: Pane,
    pane: Pane,
    swap: bool,
) -> GridModel<T> {
    let (m1, closed) = model_close(m, pane);
    match closed {
        Some((state, _)) => {
            let (m2, made) = model_split_node(m1, axis, Some(target), state, false);
            match made {
                Some(new_pane) => {
                    let m3 = model_relabel(m2, new_pane, pane);
                    if swap {
                        model_swap(m3, target, pane)
                    } else {
                        m3
                    }
                },
                None => m2,
            }
        },
        None => m1,
    }
}

/// Moving `pane` to a side of the whole grid.
pub open spec fn model_split_major<T>(
    m: GridModel<T>,
    axis: SplitAxis,
    pane: Pane,
    inverse: bool,
) -> GridModel<T> {
    let (m1, closed) = model_close(m, pane);
    match closed {
        Some((state, _)) => {
            let (m2, made) = model_split_node(m1, axis, None, state, inverse);
            match made {
                Some(new_pane) => model_relabel(m2, new_pane, pane),
                None => m2,
            }
        },
        None => m1,
    }
}

/// Moving `pane` to an edge of the grid.
pub open spec fn model_move_to_edge<T>(m: GridModel<T>, pane: Pane, edge: Edge) -> GridModel<T> {
    match edge {
        Edge::Top => model_split_major(m, SplitAxis::Horizontal, pane, true),
        Edge::Bottom => model_split_major(m, SplitAxis::Horizontal, pane, false),
        Edge::Left => model_split_major(m, SplitAxis::Vertical, pane, true),
        Edge::Right => model_split_major(m, SplitAxis::Vertical, pane, false),
    }
}

/// Dropping `pane` on a region of `target`.
pub open spec fn model_split_with<T>(
    m: GridModel<T>,
    target: Pane,
    pane: Pane,
    region: Region,
) -> GridModel<T> {
    match region {
        Region::Center => model_swap(m, pane, target),
        Region::Edge(Edge::Top) => model_split_and_swap(m, SplitAxis::Horizontal, target, pane, true),
        Region::Edge(Edge::Bottom) => model_split_and_swap(
            m,
            SplitAxis::Horizontal,
            target,
            pane,
            false,
        ),
        Region::Edge(Edge::Left) => model_split_and_swap(m, SplitAxis::Vertical, target, pane, true),
        Region::Edge(Edge::Right) => model_split_and_swap(
            m,
            SplitAxis::Vertical,
            target,
            pane,
            false,
        ),
    }
}

/// Dropping a dragged pane.
pub open spec fn model_drop<T>(m: GridModel<T>, pane: Pane, target: PaneDropTarget) -> GridModel<T> {
    match target {
        PaneDropTarget::Edge(edge) => model_move_to_edge(m, pane, edge),
        PaneDropTarget::Pane(t, region) => model_split_with(m, t, pane, region),
    }
}

/// A layout configuration to build a grid from: a split tree whose leaves
/// carry the pane states.
pub enum Configuration<T> {
    Split { axis: SplitAxis, ratio_bits: u32, a: Box<Configuration<T>>, b: Box<Configuration<T>> },
    Pane(T),
}

impl<T> Configuration<T> {
    /// Number of nodes.
    pub open spec fn size(self) -> nat
        decreases self,
    {
        match self {
            Configuration::Split { a, b, .. } => a.size() + b.size() + 1,
            Configuration::Pane(_) => 1,
        }
    }

    /// The leaf states, depth first, `a` before `b`.
    pub open spec fn states(self) -> Seq<T>
        decreases self,
    {
        match self {
            Configuration::Split { a, b, .. } => a.states() + b.states(),
            Configuration::Pane(t) => seq![t],
        }
    }

    /// The tree built from the configuration when ids start at `next`:
    /// leaves get ids depth first, each split takes the id after its
    /// children; also the leaf entries in order and the next free id.
    pub open spec fn built(self, next: int) -> (Node, Seq<(Pane, T)>, int)
        decreases self,
    {
        match self {
            Configuration::Split { axis, ratio_bits, a, b } => {
                let (na, ea, next_a) = a.built(next);
                let (nb, eb, next_b) = b.built(next_a);
                (Node::Split { axis, ratio_bits, a: Box::new(na), b: Box::new(nb) }, ea + eb, next_b + 1)
            },
            Configuration::Pane(t) => (Node::Pane(Pane(next as usize)), seq![(Pane(next as usize), t)], next + 1),
        }
    }
}

/// The center split tree and the state of each of its panes.
pub struct PaneGrid<T> {
    layout: Node,
    panes: Vec<(Pane, T)>,
    last_id: usize,
}

impl<T> PaneGrid<T> {
    /// The abstract state.
    pub closed spec fn model(&self) -> GridModel<T> {
        GridModel { layout: self.layout, panes: entries_map(self.panes@), last_id: self.last_id as int }
    }

    /// The panes in iteration (ascending id) order.
    pub closed spec fn order(&self) -> Seq<Pane> {
        entry_ids(self.panes@)
    }

    /// The tree's leaves are exactly the panes with state, without
    /// duplicates, and every id is at most the counter.
    pub closed spec fn wf(&self) -> bool {
        &&& ids_increasing(self.panes@)
        &&& self.layout.leaves().no_duplicates()
        &&& forall|p: Pane| #[trigger]
            self.layout.leaves().contains(p) <==> entries_map(self.panes@).contains_key(p)
        &&& forall|i: int| 0 <= i < self.panes@.len() ==> (#[trigger] self.panes@[i]).0.0 <= self.last_id
    }

    /// What a well-formed grid guarantees about its model and order.
    /// A pane with state has an id no larger than the counter, and is a
    /// leaf of the tree.
    pub proof fn lemma_wf_pane(&self, p: Pane)
        requires
            self.wf(),
            self.model().panes.contains_key(p),
        ensures
            p.0 <= self.model().last_id,
            self.model().layout.leaves().contains(p),
    {
        let s = self.panes@;
        let i = choose|i: int| 0 <= i < s.len() && (#[trigger] s[i]).0 == p;
    }

    /// A pane that can be closed has state.
    pub proof fn lemma_wf_close(&self, p: Pane)
        requires
            self.wf(),
        ensures
            self.model().layout.remove_leaf(p) is Some ==> self.model().panes.contains_key(p),
    {
        lemma_remove_leaf(self.layout, p);
    }

    /// A leaf of the tree has state.
    pub proof fn lemma_wf_leaf(&self, p: Pane)
        requires
            self.wf(),
            self.model().layout.leaves().contains(p),
        ensures
            self.model().panes.contains_key(p),
    {
    }

    /// The iteration order lists exactly the panes, by increasing id.
    pub proof fn lemma_wf_order(&self)
        requires
            self.wf(),
        ensures
            forall|p: Pane| #[trigger] self.order().contains(p) <==> self.model().panes.contains_key(p),
            self.order().no_duplicates(),
            forall|i: int, j: int|
                0 <= i < j < self.order().len() ==> (#[trigger] self.order()[i]).0 < (#[trigger] self.order()[j]).0,
    {
        let s = self.panes@;
        lemma_entry_ids(s);
        let o = entry_ids(s);
        assert forall|i: int, j: int| 0 <= i < j < o.len() implies (#[trigger] o[i]).0 < (#[trigger] o[j]).0 by {
            assert(o[i] == s[i].0 && o[j] == s[j].0);
        }
    }

    /// What a well-formed grid guarantees about its model and order.
    pub proof fn lemma_wf(&self)
        requires
            self.wf(),
        ensures
            self.model().layout.leaves().no_duplicates(),
            forall|p: Pane| #[trigger]
                self.model().layout.leaves().contains(p) <==> self.model().panes.contains_key(p),
            forall|p: Pane| #[trigger] self.model().panes.contains_key(p) ==> p.0 <= self.model().last_id,
            forall|p: Pane| #[trigger] self.order().contains(p) <==> self.model().panes.contains_key(p),
            self.order().no_duplicates(),
            forall|i: int, j: int|
                0 <= i < j < self.order().len() ==> (#[trigger] self.order()[i]).0 < (#[trigger] self.order()[j]).0,
            self.model().panes.dom().finite(),
            self.model().panes.len() == self.order().len(),
            self.order().len() > 0 ==> self.order()[0] == min_pane(self.model().panes.dom()),
    {
        self.lemma_wf_order();
        assert forall|p: Pane| #[trigger] self.model().panes.contains_key(p) implies p.0 <= self.model().last_id by {
            self.lemma_wf_pane(p);
        }
        let o = self.order();
        assert(self.model().panes.dom() =~= o.to_set());
        o.unique_seq_to_set();
        if o.len() > 0 {
            let p0 = o[0];
            assert(o.contains(p0));
            assert forall|q: Pane| #[trigger] self.model().panes.contains_key(q) implies p0.0 <= q.0 by {
                assert(o.contains(q));
                let k = choose|k: int| 0 <= k < o.len() && o[k] == q;
                if k > 0 {
                    assert(o[0].0 < o[k].0);
                }
            }
            let m = min_pane(self.model().panes.dom());
            assert(self.model().panes.dom().contains(m) && forall|q: Pane| #[trigger] self.model().panes.dom().contains(q) ==> m.0 <= q.0);
            assert(o.contains(m));
            let k = choose|k: int| 0 <= k < o.len() && o[k] == m;
            if k > 0 {
                assert(o[0].0 < o[k].0);
            }
        }
    }
}

proof fn lemma_entries_push<T>(s: Seq<(Pane, T)>, e: (Pane, T))
    requires
        ids_increasing(s),
        forall|i: int| 0 <= i < s.len() ==> (#[trigger] s[i]).0.0 < e.0.0,
    ensures
        ids_increasing(s.push(e)),
        entries_map(s.push(e)) == entries_map(s).insert(e.0, e.1),
{
    let t = s.push(e);
    assert forall|a: int, b: int| 0 <= a < b < t.len() implies (#[trigger] t[a]).0.0 < (#[trigger] t[b]).0.0 by {
        if b < s.len() {
            assert(t[a] == s[a] && t[b] == s[b]);
        } else {
            assert(t[a] == s[a]);
        }
    }
    assert forall|p: Pane| #[trigger] entries_map(t).contains_key(p) <==> entries_map(s).insert(e.0, e.1).contains_key(p) by {
        if entries_map(t).contains_key(p) {
            let k = choose|k: int| 0 <= k < t.len() && (#[trigger] t[k]).0 == p;
            if k < s.len() {
                assert(s[k] == t[k]);
            }
        }
        if entries_map(s).contains_key(p) {
            let k = choose|k: int| 0 <= k < s.len() && (#[trigger] s[k]).0 == p;
            assert(t[k] == s[k]);
        }
        if p == e.0 {
            assert(t[s.len() as int] == e);
        }
    }
    assert forall|p: Pane| #[trigger] entries_map(t).contains_key(p) implies entries_map(t)[p] == entries_map(s).insert(e.0, e.1)[p] by {
        let k = choose|k: int| 0 <= k < t.len() && (#[trigger] t[k]).0 == p;
        lemma_index_of(t, k);
        if k < s.len() {
            assert(t[k] == s[k]);
            lemma_index_of(s, k);
        }
    }
    assert(entries_map(t) =~= entries_map(s).insert(e.0, e.1));
}

proof fn lemma_entries_remove<T>(s: Seq<(Pane, T)>, i: int)
    requires
        ids_increasing(s),
        0 <= i < s.len(),
    ensures
        ids_increasing(s.remove(i)),
        entries_map(s.remove(i)) == entries_map(s).remove(s[i].0),
        forall|k: int| 0 <= k < s.remove(i).len() ==> #[trigger] s.remove(i)[k] == (if k < i { s[k] } else { s[k + 1] }),
{
    let t = s.remove(i);
    assert forall|k: int| 0 <= k < t.len() implies #[trigger] t[k] == (if k < i { s[k] } else { s[k + 1] }) by {}
    assert forall|a: int, b: int| 0 <= a < b < t.len() implies (#[trigger] t[a]).0.0 < (#[trigger] t[b]).0.0 by {
        let a2 = if a < i { a } else { a + 1 };
        let b2 = if b < i { b } else { b + 1 };
        assert(t[a] == s[a2] && t[b] == s[b2]);
    }
    let m = entries_map(s).remove(s[i].0);
    assert forall|p: Pane| #[trigger] entries_map(t).contains_key(p) <==> m.contains_key(p) by {
        if entries_map(t).contains_key(p) {
            let k = choose|k: int| 0 <= k < t.len() && (#[trigger] t[k]).0 == p;
            let k2 = if k < i { k } else { k + 1 };
            assert(s[k2] == t[k]);
            lemma_index_of(s, k2);
            lemma_index_of(s, i);
            if p == s[i].0 {
                assert(k2 == i);
            }
        }
        if m.contains_key(p) {
            let k = choose|k: int| 0 <= k < s.len() && (#[trigger] s[k]).0 == p;
            assert(k != i);
            let k2 = if k < i { k } else { k - 1 };
            assert(t[k2] == s[k]);
        }
    }
    assert forall|p: Pane| #[trigger] entries_map(t).contains_key(p) implies entries_map(t)[p] == m[p] by {
        let k = choose|k: int| 0 <= k < t.len() && (#[trigger] t[k]).0 == p;
        lemma_index_of(t, k);
        let k2 = if k < i { k } else { k + 1 };
        assert(s[k2] == t[k]);
        lemma_index_of(s, k2);
    }
    assert(entries_map(t) =~= m);
}

proof fn lemma_entries_update<T>(s: Seq<(Pane, T)>, i: int, v: T)
    requires
        ids_increasing(s),
        0 <= i < s.len(),
    ensures
        ids_increasing(s.update(i, (s[i].0, v))),
        entries_map(s.update(i, (s[i].0, v))) == entries_map(s).insert(s[i].0, v),
        entry_ids(s.update(i, (s[i].0, v))) == entry_ids(s),
{
    let t = s.update(i, (s[i].0, v));
    assert forall|a: int, b: int| 0 <= a < b < t.len() implies (#[trigger] t[a]).0.0 < (#[trigger] t[b]).0.0 by {
        assert(t[a].0 == s[a].0 && t[b].0 == s[b].0);
    }
    let m = entries_map(s).insert(s[i].0, v);
    assert forall|p: Pane| #[trigger] entries_map(t).contains_key(p) <==> m.contains_key(p) by {
        if entries_map(t).contains_key(p) {
            let k = choose|k: int| 0 <= k < t.len() && (#[trigger] t[k]).0 == p;
            assert(s[k].0 == p);
        }
        if entries_map(s).contains_key(p) {
            let k = choose|k: int| 0 <= k < s.len() && (#[trigger] s[k]).0 == p;
            assert(t[k].0 == p);
        }
        if p == s[i].0 {
            assert(t[i].0 == p);
        }
    }
    assert forall|p: Pane| #[trigger] entries_map(t).contains_key(p) implies entries_map(t)[p] == m[p] by {
        let k = choose|k: int| 0 <= k < t.len() && (#[trigger] t[k]).0 == p;
        lemma_index_of(t, k);
        lemma_index_of(s, k);
        lemma_index_of(s, i);
    }
    assert(entries_map(t) =~= m);
    assert(entry_ids(t) =~= entry_ids(s));
}

proof fn lemma_entries_insert<T>(s: Seq<(Pane, T)>, i: int, e: (Pane, T))
    requires
        ids_increasing(s),
        0 <= i <= s.len(),
        i > 0 ==> s[i - 1].0.0 < e.0.0,
        i < s.len() ==> e.0.0 < s[i].0.0,
    ensures
        ids_increasing(s.insert(i, e)),
        entries_map(s.insert(i, e)) == entries_map(s).insert(e.0, e.1),
{
    let t = s.insert(i, e);
    assert forall|k: int| 0 <= k < t.len() implies #[trigger] t[k] == (if k < i { s[k] } else if k == i { e } else { s[k - 1] }) by {}
    assert forall|a: int, b: int| 0 <= a < b < t.len() implies (#[trigger] t[a]).0.0 < (#[trigger] t[b]).0.0 by {
        if a < i && b < i {
        } else if a < i && b == i {
            if a < i - 1 { assert(s[a].0.0 < s[i - 1].0.0); }
        } else if a < i {
            assert(t[b] == s[b - 1]);
        } else if a == i {
            assert(t[b] == s[b - 1]);
            if b - 1 > i { assert(s[i].0.0 < s[b - 1].0.0); }
        } else {
            assert(t[a] == s[a - 1] && t[b] == s[b - 1]);
        }
    }
    let m = entries_map(s).insert(e.0, e.1);
    assert forall|p: Pane| #[trigger] entries_map(t).contains_key(p) <==> m.contains_key(p) by {
        if entries_map(t).contains_key(p) {
            let k = choose|k: int| 0 <= k < t.len() && (#[trigger] t[k]).0 == p;
            if k < i { assert(s[k] == t[k]); } else if k > i { assert(s[k - 1] == t[k]); }
        }
        if entries_map(s).contains_key(p) {
            let k = choose|k: int| 0 <= k < s.len() && (#[trigger] s[k]).0 == p;
            if k < i { assert(t[k] == s[k]); } else { assert(t[k + 1] == s[k]); }
        }
        if p == e.0 { assert(t[i] == e); }
    }
    assert forall|p: Pane| #[trigger] entries_map(t).contains_key(p) implies entries_map(t)[p] == m[p] by {
        let k = choose|k: int| 0 <= k < t.len() && (#[trigger] t[k]).0 == p;
        lemma_index_of(t, k);
        if k < i {
            assert(s[k] == t[k]);
            lemma_index_of(s, k);
        } else if k > i {
            assert(s[k - 1] == t[k]);
            lemma_index_of(s, k - 1);
        }
    }
    assert(entries_map(t) =~= m);
}

impl<T> PaneGrid<T> {
    /// Move the tree out, leaving a placeholder leaf behind.
    fn take_layout(&mut self) -> (r: Node)
        ensures
            r == old(self).layout,
            final(self).panes == old(self).panes,
            final(self).last_id == old(self).last_id,
    {
        let mut tmp = Node::Pane(Pane(0));
        std::mem::swap(&mut tmp, &mut self.layout);
        tmp
    }

    /// A grid of one pane holding `first`; the pane is `Pane(0)`.
    pub fn new(first: T) -> (r: (Self, Pane))
        ensures
            r.0.wf(),
            r.1 == Pane(0),
            r.0.model().layout == Node::Pane(Pane(0)),
            r.0.model().panes == Map::<Pane, T>::empty().insert(Pane(0), first),
            r.0.model().last_id == 1,
    {
        let mut panes: Vec<(Pane, T)> = Vec::new();
        panes.push((Pane(0), first));
        let g = PaneGrid { layout: Node::Pane(Pane(0)), panes, last_id: 1 };
        proof {
            lemma_entries_push(Seq::<(Pane, T)>::empty(), (Pane(0), first));
            assert(g.panes@ =~= Seq::<(Pane, T)>::empty().push((Pane(0), first)));
            assert(entries_map(Seq::<(Pane, T)>::empty()) =~= Map::<Pane, T>::empty());
            assert forall|p: Pane| #[trigger] g.layout.leaves().contains(p) <==> entries_map(g.panes@).contains_key(p) by {
                if g.layout.leaves().contains(p) {
                    let i = choose|i: int| 0 <= i < g.layout.leaves().len() && g.layout.leaves()[i] == p;
                }
                if p == Pane(0) {
                    assert(g.layout.leaves()[0] == p);
                }
            }
        }
        (g, Pane(0))
    }

    /// Number of panes.
    pub fn len(&self) -> (n: usize)
        requires
            self.wf(),
        ensures
            n == self.model().panes.len(),
    {
        proof {
            self.lemma_wf();
        }
        self.panes.len()
    }

    /// Whether the grid has no pane.
    pub fn is_empty(&self) -> (b: bool)
        requires
            self.wf(),
        ensures
            b == (self.model().panes.len() == 0),
    {
        proof {
            self.lemma_wf();
        }
        self.panes.len() == 0
    }

    fn position(&self, pane: Pane) -> (r: Option<usize>)
        requires
            ids_increasing(self.panes@),
        ensures
            r matches Some(i) ==> i < self.panes@.len() && self.panes@[i as int].0 == pane,
            r is None <==> !entries_map(self.panes@).contains_key(pane),
    {
        let n = self.panes.len();
        let mut i: usize = 0;
        while i < n
            invariant
                n == self.panes@.len(),
                i <= n,
                forall|k: int| 0 <= k < i ==> (#[trigger] self.panes@[k]).0 != pane,
            decreases n - i,
        {
            if self.panes[i].0 == pane {
                return Some(i);
            }
            i += 1;
        }
        None
    }

    /// Whether `pane` is in the grid.
    pub fn contains(&self, pane: Pane) -> (b: bool)
        requires
            self.wf(),
        ensures
            b == self.model().panes.contains_key(pane),
    {
        self.position(pane).is_some()
    }

    /// The state of a pane, if it exists.
    pub fn get(&self, pane: Pane) -> (r: Option<&T>)
        requires
            self.wf(),
        ensures
            r is Some <==> self.model().panes.contains_key(pane),
            r matches Some(v) ==> *v == self.model().panes[pane],
    {
        match self.position(pane) {
            Some(i) => {
                proof {
                    lemma_index_of(self.panes@, i as int);
                }
                Some(&self.panes[i].1)
            },
            None => None,
        }
    }

    /// Put `value` in place of the state of `pane` and hand the old state
    /// back; `None` (and `value` dropped) when the pane does not exist.
    pub fn replace(&mut self, pane: Pane, value: T) -> (r: Option<T>)
        requires
            old(self).wf(),
        ensures
            final(self).wf(),
            final(self).order() == old(self).order(),
            r is Some <==> old(self).model().panes.contains_key(pane),
            r matches Some(v) ==> v == old(self).model().panes[pane],
            final(self).model() == (if old(self).model().panes.contains_key(pane) {
                GridModel { panes: old(self).model().panes.insert(pane, value), ..old(self).model() }
            } else {
                old(self).model()
            }),
    {
        match self.position(pane) {
            Some(i) => {
                let ghost s = self.panes@;
                proof {
                    lemma_index_of(s, i as int);
                    lemma_entries_update(s, i as int, value);
                }
                let (id, old_value) = self.panes.remove(i);
                self.panes.insert(i, (id, value));
                proof {
                    assert(self.panes@ =~= s.update(i as int, (s[i as int].0, value)));
                    assert forall|k: int| 0 <= k < self.panes@.len() implies (#[trigger] self.panes@[k]).0.0 <= self.last_id by {
                        assert(self.panes@[k].0 == s[k].0);
                    }
                }
                Some(old_value)
            },
            None => None,
        }
    }

    /// The first pane in iteration order (the smallest id).
    pub fn first_pane(&self) -> (r: Option<Pane>)
        requires
            self.wf(),
        ensures
            r == (if self.model().panes.len() == 0 {
                None::<Pane>
            } else {
                Some(min_pane(self.model().panes.dom()))
            }),
    {
        proof {
            self.lemma_wf();
        }
        if self.panes.len() == 0 {
            None
        } else {
            Some(self.panes[0].0)
        }
    }

    /// The panes in iteration (ascending id) order.
    pub fn pane_ids(&self) -> (r: Vec<Pane>)
        ensures
            r@ == self.order(),
    {
        let n = self.panes.len();
        let mut out: Vec<Pane> = Vec::new();
        let mut i: usize = 0;
        while i < n
            invariant
                n == self.panes@.len(),
                i <= n,
                out@ == entry_ids(self.panes@).take(i as int),
            decreases n - i,
        {
            out.push(self.panes[i].0);
            i += 1;
            assert(out@ =~= entry_ids(self.panes@).take(i as int));
        }
        assert(out@ =~= entry_ids(self.panes@));
        out
    }

    /// The split tree.
    pub fn layout(&self) -> (r: &Node)
        ensures
            *r == self.model().layout,
    {
        &self.layout
    }

    fn split_node(&mut self, axis: SplitAxis, target: Option<Pane>, state: T, inverse: bool) -> (r: Option<Pane>)
        requires
            old(self).wf(),
        ensures
            final(self).wf(),
            (final(self).model(), r) == model_split_node(old(self).model(), axis, target, state, inverse),
            r matches Some(np) ==> final(self).model().panes == old(self).model().panes.insert(np, state)
                && !old(self).model().panes.contains_key(np) && np.0 > old(self).model().last_id,
            r is None ==> final(self).model().panes == old(self).model().panes,
            final(self).model().last_id >= old(self).model().last_id,
    {
        proof {
            reveal(model_split_node);
        }
        if let Some(t) = target {
            if !contains_leaf(&self.layout, t) {
                return None;
            }
        }
        if self.last_id == usize::MAX {
            return None;
        }
        self.last_id = self.last_id + 1;
        let new_pane = Pane(self.last_id);
        if self.last_id == usize::MAX {
            proof {
                assert forall|i: int| 0 <= i < self.panes@.len() implies (#[trigger] self.panes@[i]).0.0 <= self.last_id by {}
            }
            return None;
        }
        self.last_id = self.last_id + 1;
        let ghost old_layout = self.layout;
        let ghost s = self.panes@;
        proof {
            assert(!old_layout.leaves().contains(new_pane)) by {
                if old_layout.leaves().contains(new_pane) {
                    assert(entries_map(s).contains_key(new_pane));
                    let k = choose|k: int| 0 <= k < s.len() && (#[trigger] s[k]).0 == new_pane;
                }
            }
        }
        let layout = self.take_layout();
        let new_layout = match target {
            Some(t) => {
                let with = if inverse {
                    Node::Split {
                        axis,
                        ratio_bits: HALF_RATIO_BITS,
                        a: Box::new(Node::Pane(new_pane)),
                        b: Box::new(Node::Pane(t)),
                    }
                } else {
                    Node::Split {
                        axis,
                        ratio_bits: HALF_RATIO_BITS,
                        a: Box::new(Node::Pane(t)),
                        b: Box::new(Node::Pane(new_pane)),
                    }
                };
                proof {
                    lemma_split_leaf(old_layout, t, axis, new_pane, inverse);
                }
                replace_leaf_exec(layout, t, &with)
            },
            None => {
                proof {
                    lemma_split_root(old_layout, axis, new_pane, inverse);
                }
                if inverse {
                    Node::Split {
                        axis,
                        ratio_bits: HALF_RATIO_BITS,
                        a: Box::new(Node::Pane(new_pane)),
                        b: Box::new(layout),
                    }
                } else {
                    Node::Split {
                        axis,
                        ratio_bits: HALF_RATIO_BITS,
                        a: Box::new(layout),
                        b: Box::new(Node::Pane(new_pane)),
                    }
                }
            },
        };
        self.layout = new_layout;
        proof {
            assert forall|i: int| 0 <= i < s.len() implies (#[trigger] s[i]).0.0 < new_pane.0 by {}
            lemma_entries_push(s, (new_pane, state));
        }
        self.panes.push((new_pane, state));
        proof {
            assert forall|i: int| 0 <= i < self.panes@.len() implies (#[trigger] self.panes@[i]).0.0 <= self.last_id by {
                if i < s.len() {
                    assert(self.panes@[i] == s[i]);
                }
            }
        }
        Some(new_pane)
    }

    /// Split `pane` along `axis`; the new pane, holding `state`, comes
    /// second. `None` when `pane` does not exist or ids are exhausted.
    pub fn split(&mut self, axis: SplitAxis, pane: Pane, state: T) -> (r: Option<Pane>)
        requires
            old(self).wf(),
        ensures
            final(self).wf(),
            (final(self).model(), r) == model_split_node(old(self).model(), axis, Some(pane), state, false),
            r matches Some(np) ==> final(self).model().panes == old(self).model().panes.insert(np, state)
                && !old(self).model().panes.contains_key(np) && np.0 > old(self).model().last_id,
            final(self).model().last_id >= old(self).model().last_id,
    {
        self.split_node(axis, Some(pane), state, false)
    }

    /// Close `pane`: its sibling subtree takes the parent split's place.
    /// Returns the pane's state and the first pane of the sibling; `None`
    /// when the pane is absent or is the only pane.
    pub fn close(&mut self, pane: Pane) -> (r: Option<(T, Pane)>)
        requires
            old(self).wf(),
        ensures
            final(self).wf(),
            (final(self).model(), r) == model_close(old(self).model(), pane),
            r is Some ==> old(self).model().panes.contains_key(pane),
            r matches Some((st, _)) ==> final(self).model().panes == old(self).model().panes.remove(pane)
                && st == old(self).model().panes[pane],
            r is None ==> final(self).model() == old(self).model(),
            final(self).model().last_id == old(self).model().last_id,
    {
        proof {
            reveal(model_close);
        }
        let ghost old_layout = self.layout;
        let ghost s = self.panes@;
        proof {
            lemma_remove_leaf(old_layout, pane);
        }
        let layout = self.take_layout();
        match remove_leaf_exec(layout, pane) {
            Ok((new_layout, sibling)) => {
                self.layout = new_layout;
                proof {
                    assert(entries_map(s).contains_key(pane));
                }
                match self.position(pane) {
                    Some(i) => {
                        proof {
                            lemma_index_of(s, i as int);
                            lemma_entries_remove(s, i as int);
                        }
                        let (_, state) = self.panes.remove(i);
                        proof {
                            assert forall|k: int| 0 <= k < self.panes@.len() implies (#[trigger] self.panes@[k]).0.0 <= self.last_id by {
                                if k < i {
                                    assert(self.panes@[k] == s[k]);
                                } else {
                                    assert(self.panes@[k] == s[k + 1]);
                                }
                            }
                        }
                        Some((state, sibling))
                    },
                    None => {
                        proof {
                            assert(false);
                        }
                        None
                    },
                }
            },
            Err(previous) => {
                self.layout = previous;
                None
            },
        }
    }

    /// Exchange the positions of two panes in the tree.
    pub fn swap(&mut self, a: Pane, b: Pane)
        requires
            old(self).wf(),
            old(self).model().panes.contains_key(a) == old(self).model().panes.contains_key(b),
        ensures
            final(self).wf(),
            final(self).order() == old(self).order(),
            final(self).model() == model_swap(old(self).model(), a, b),
            final(self).model().panes == old(self).model().panes,
            final(self).model().last_id == old(self).model().last_id,
    {
        proof {
            reveal(model_swap);
        }
        let ghost old_layout = self.layout;
        proof {
            lemma_swap_leaves_set(old_layout, a, b);
        }
        let layout = self.take_layout();
        self.layout = swap_leaves_exec(layout, a, b);
        proof {
            assert forall|p: Pane| #[trigger] self.layout.leaves().contains(p) <==> entries_map(self.panes@).contains_key(p) by {
                assert(old_layout.leaves().contains(swapped(p, a, b)) <==> entries_map(self.panes@).contains_key(swapped(p, a, b)));
            }
        }
    }

    fn insert_sorted(&mut self, pane: Pane, state: T)
        requires
            ids_increasing(old(self).panes@),
            !entries_map(old(self).panes@).contains_key(pane),
        ensures
            ids_increasing(final(self).panes@),
            entries_map(final(self).panes@) == entries_map(old(self).panes@).insert(pane, state),
            final(self).layout == old(self).layout,
            final(self).last_id == old(self).last_id,
            forall|i: int| 0 <= i < final(self).panes@.len() ==> #[trigger] final(self).panes@[i].0 == pane || exists|j: int| 0 <= j < old(self).panes@.len() && old(self).panes@[j].0 == final(self).panes@[i].0,
    {
        let ghost s = self.panes@;
        let n = self.panes.len();
        let mut i: usize = 0;
        while i < n && self.panes[i].0.0 < pane.0
            invariant
                n == self.panes@.len(),
                self.panes@ == s,
                i <= n,
                forall|k: int| 0 <= k < i ==> (#[trigger] s[k]).0.0 < pane.0,
            decreases n - i,
        {
            i += 1;
        }
        proof {
            if i < n {
                assert(s[i as int].0.0 >= pane.0);
                assert(s[i as int].0 != pane) by {
                    if s[i as int].0 == pane {
                        assert(entries_map(s).contains_key(pane));
                    }
                }
            }
            lemma_entries_insert(s, i as int, (pane, state));
        }
        self.panes.insert(i, (pane, state));
        proof {
            let t = self.panes@;
            assert forall|k: int| 0 <= k < t.len() implies #[trigger] t[k].0 == pane || exists|j: int| 0 <= j < s.len() && s[j].0 == t[k].0 by {
                if k < i {
                    assert(t[k] == s[k]);
                } else if k > i {
                    assert(t[k] == s[k - 1]);
                }
            }
        }
    }

    /// Give the pane `target` the id `label` (an id no pane has).
    fn relabel(&mut self, target: Pane, label: Pane)
        requires
            old(self).wf(),
            old(self).model().panes.contains_key(target),
            !old(self).model().panes.contains_key(label),
            label.0 <= old(self).model().last_id,
        ensures
            final(self).wf(),
            final(self).model() == model_relabel(old(self).model(), target, label),
            final(self).model().panes == old(self).model().panes.remove(target).insert(label, old(self).model().panes[target]),
            final(self).model().last_id == old(self).model().last_id,
    {
        proof {
            reveal(model_relabel);
            reveal(model_swap);
        }
        let ghost m0 = self.model();
        let ghost old_layout = self.layout;
        proof {
            lemma_swap_leaves_set(old_layout, target, label);
        }
        let layout = self.take_layout();
        self.layout = swap_leaves_exec(layout, target, label);
        let ghost s = self.panes@;
        match self.position(target) {
            Some(i) => {
                proof {
                    lemma_index_of(s, i as int);
                    lemma_entries_remove(s, i as int);
                }
                let (_, state) = self.panes.remove(i);
                let ghost s1 = self.panes@;
                self.insert_sorted(label, state);
                proof {
                    let m1 = model_swap(m0, target, label);
                    assert(entries_map(self.panes@) == m1.panes.remove(target).insert(label, m1.panes[target]));
                    assert forall|p: Pane| #[trigger] self.layout.leaves().contains(p) <==> entries_map(self.panes@).contains_key(p) by {
                        assert(old_layout.leaves().contains(swapped(p, target, label)) <==> entries_map(s).contains_key(swapped(p, target, label)));
                        if p == target {
                        } else if p == label {
                        } else {
                        }
                    }
                    assert forall|k: int| 0 <= k < self.panes@.len() implies (#[trigger] self.panes@[k]).0.0 <= self.last_id by {
                        if self.panes@[k].0 != label {
                            let j = choose|j: int| 0 <= j < s1.len() && s1[j].0 == self.panes@[k].0;
                            let j2 = if j < i { j } else { j + 1 };
                            assert(s1[j] == s[j2]);
                        }
                    }
                }
            },
            None => {
                proof {
                    assert(false);
                }
            },
        }
    }
}


impl<T> PaneGrid<T> {
    fn split_and_swap(&mut self, axis: SplitAxis, target: Pane, pane: Pane, swap: bool)
        requires
            old(self).wf(),
        ensures
            final(self).wf(),
            final(self).model() == model_split_and_swap(old(self).model(), axis, target, pane, swap),
            final(self).model().panes.submap_of(old(self).model().panes),
    {
        let ghost m0 = self.model();
        proof {
            if m0.panes.contains_key(pane) {
                self.lemma_wf_pane(pane);
            }
        }
        if let Some((state, _)) = self.close(pane) {
            let ghost m1 = self.model();
            proof {
                if m1.layout.leaves().contains(target) {
                    self.lemma_wf_leaf(target);
                }
            }
            match self.split_node(axis, Some(target), state, false) {
                Some(new_pane) => {
                    self.relabel(new_pane, pane);
                    proof {
                        assert(self.model().panes =~= m0.panes);
                    }
                    if swap {
                        let ghost m3 = self.model();
                        proof {
                            reveal(model_split_node);
                            assert(m3.panes.contains_key(pane));
                            assert(m1.layout.leaves().contains(target));
                            assert(m1.panes.contains_key(target));
                        }
                        self.swap(target, pane);
                    }
                },
                None => {},
            }
        }
    }

    fn split_major_node_and_swap(&mut self, axis: SplitAxis, pane: Pane, inverse: bool)
        requires
            old(self).wf(),
        ensures
            final(self).wf(),
            final(self).model() == model_split_major(old(self).model(), axis, pane, inverse),
            final(self).model().panes.submap_of(old(self).model().panes),
    {
        let ghost m0 = self.model();
        proof {
            if m0.panes.contains_key(pane) {
                self.lemma_wf_pane(pane);
            }
        }
        if let Some((state, _)) = self.close(pane) {
            match self.split_node(axis, None, state, inverse) {
                Some(new_pane) => {
                    self.relabel(new_pane, pane);
                    proof {
                        assert(self.model().panes =~= m0.panes);
                    }
                },
                None => {},
            }
        }
    }

    /// Move `pane` to an edge of the whole grid.
    pub fn move_to_edge(&mut self, pane: Pane, edge: Edge)
        requires
            old(self).wf(),
        ensures
            final(self).wf(),
            final(self).model() == model_move_to_edge(old(self).model(), pane, edge),
            final(self).model().panes.submap_of(old(self).model().panes),
    {
        match edge {
            Edge::Top => self.split_major_node_and_swap(SplitAxis::Horizontal, pane, true),
            Edge::Bottom => self.split_major_node_and_swap(SplitAxis::Horizontal, pane, false),
            Edge::Left => self.split_major_node_and_swap(SplitAxis::Vertical, pane, true),
            Edge::Right => self.split_major_node_and_swap(SplitAxis::Vertical, pane, false),
        }
    }

    /// Drop `pane` on a region of `target`: the center swaps the two, an
    /// edge moves `pane` beside `target` on that side. A center drop where
    /// only one of the two panes exists changes nothing.
    pub fn split_with(&mut self, target: Pane, pane: Pane, region: Region)
        requires
            old(self).wf(),
        ensures
            final(self).wf(),
            final(self).model() == (if region is Center && old(self).model().panes.contains_key(pane)
                != old(self).model().panes.contains_key(target) {
                old(self).model()
            } else {
                model_split_with(old(self).model(), target, pane, region)
            }),
            final(self).model().panes.submap_of(old(self).model().panes),
    {
        match region {
            Region::Center => {
                if self.contains(pane) == self.contains(target) {
                    self.swap(pane, target);
                }
            },
            Region::Edge(Edge::Top) => self.split_and_swap(SplitAxis::Horizontal, target, pane, true),
            Region::Edge(Edge::Bottom) => self.split_and_swap(SplitAxis::Horizontal, target, pane, false),
            Region::Edge(Edge::Left) => self.split_and_swap(SplitAxis::Vertical, target, pane, true),
            Region::Edge(Edge::Right) => self.split_and_swap(SplitAxis::Vertical, target, pane, false),
        }
    }

    /// Apply a finished pane drag.
    pub fn drop(&mut self, pane: Pane, target: PaneDropTarget)
        requires
            old(self).wf(),
        ensures
            final(self).wf(),
            final(self).model() == (if target matches PaneDropTarget::Pane(t, Region::Center)
                && old(self).model().panes.contains_key(pane) != old(self).model().panes.contains_key(t) {
                old(self).model()
            } else {
                model_drop(old(self).model(), pane, target)
            }),
            final(self).model().panes.submap_of(old(self).model().panes),
    {
        match target {
            PaneDropTarget::Edge(edge) => self.move_to_edge(pane, edge),
            PaneDropTarget::Pane(t, region) => self.split_with(t, pane, region),
        }
    }
}


// ---- mapping pane states ------------------------------------------------------

/// The grid with every pane state mapped through `f`.
pub open spec fn map_grid<T, U>(m: GridModel<T>, f: spec_fn(T) -> U) -> GridModel<U> {
    GridModel { layout: m.layout, panes: m.panes.map_values(f), last_id: m.last_id }
}

/// Closing commutes with mapping the pane states.
pub proof fn lemma_map_close<T, U>(m: GridModel<T>, p: Pane, f: spec_fn(T) -> U)
    requires
        m.layout.remove_leaf(p) is Some ==> m.panes.contains_key(p),
    ensures
        model_close(map_grid(m, f), p).0 == map_grid(model_close(m, p).0, f),
        model_close(map_grid(m, f), p).1 == (match model_close(m, p).1 {
            Some((st, sib)) => Some((f(st), sib)),
            None => None,
        }),
{
    reveal(model_close);
    match m.layout.remove_leaf(p) {
        Some((layout, sibling)) => {
            assert(m.panes.remove(p).map_values(f) =~= m.panes.map_values(f).remove(p));
        },
        None => {},
    }
}

/// Splitting commutes with mapping the pane states.
pub proof fn lemma_map_split<T, U>(
    m: GridModel<T>,
    axis: SplitAxis,
    target: Option<Pane>,
    state: T,
    inverse: bool,
    f: spec_fn(T) -> U,
)
    ensures
        model_split_node(map_grid(m, f), axis, target, f(state), inverse).0 == map_grid(
            model_split_node(m, axis, target, state, inverse).0,
            f,
        ),
        model_split_node(map_grid(m, f), axis, target, f(state), inverse).1 == model_split_node(
            m,
            axis,
            target,
            state,
            inverse,
        ).1,
{
    reveal(model_split_node);
    if m.last_id + 1 < usize::MAX {
        let new_pane = Pane((m.last_id + 1) as usize);
        assert(m.panes.insert(new_pane, state).map_values(f) =~= m.panes.map_values(f).insert(new_pane, f(state)));
    }
}

/// Swapping commutes with mapping the pane states.
pub proof fn lemma_map_swap<T, U>(m: GridModel<T>, a: Pane, b: Pane, f: spec_fn(T) -> U)
    ensures
        model_swap(map_grid(m, f), a, b) == map_grid(model_swap(m, a, b), f),
{
    reveal(model_swap);
}

/// Relabelling commutes with mapping the pane states.
pub proof fn lemma_map_relabel<T, U>(m: GridModel<T>, t: Pane, l: Pane, f: spec_fn(T) -> U)
    ensures
        model_relabel(map_grid(m, f), t, l) == map_grid(model_relabel(m, t, l), f),
{
    reveal(model_relabel);
    reveal(model_swap);
    if m.panes.contains_key(t) {
        assert(m.panes.remove(t).insert(l, m.panes[t]).map_values(f) =~= m.panes.map_values(f).remove(t).insert(
            l,
            m.panes.map_values(f)[t],
        ));
    }
}

/// Moving a pane beside another commutes with mapping the pane states.
pub proof fn lemma_map_split_and_swap<T, U>(
    m: GridModel<T>,
    axis: SplitAxis,
    target: Pane,
    pane: Pane,
    swap: bool,
    f: spec_fn(T) -> U,
)
    requires
        m.layout.remove_leaf(pane) is Some ==> m.panes.contains_key(pane),
    ensures
        model_split_and_swap(map_grid(m, f), axis, target, pane, swap) == map_grid(
            model_split_and_swap(m, axis, target, pane, swap),
            f,
        ),
{
    lemma_map_close(m, pane, f);
    let (m1, closed) = model_close(m, pane);
    match closed {
        Some((state, _)) => {
            lemma_map_split(m1, axis, Some(target), state, false, f);
            let (m2, made) = model_split_node(m1, axis, Some(target), state, false);
            match made {
                Some(np) => {
                    lemma_map_relabel(m2, np, pane, f);
                    lemma_map_swap(model_relabel(m2, np, pane), target, pane, f);
                },
                None => {},
            }
        },
        None => {},
    }
}

/// Moving a pane to the grid's side commutes with mapping the pane states.
pub proof fn lemma_map_split_major<T, U>(
    m: GridModel<T>,
    axis: SplitAxis,
    pane: Pane,
    inverse: bool,
    f: spec_fn(T) -> U,
)
    requires
        m.layout.remove_leaf(pane) is Some ==> m.panes.contains_key(pane),
    ensures
        model_split_major(map_grid(m, f), axis, pane, inverse) == map_grid(
            model_split_major(m, axis, pane, inverse),
            f,
        ),
{
    lemma_map_close(m, pane, f);
    let (m1, closed) = model_close(m, pane);
    match closed {
        Some((state, _)) => {
            lemma_map_split(m1, axis, None, state, inverse, f);
            let (m2, made) = model_split_node(m1, axis, None, state, inverse);
            match made {
                Some(np) => {
                    lemma_map_relabel(m2, np, pane, f);
                },
                None => {},
            }
        },
        None => {},
    }
}

/// A pane drop commutes with mapping the pane states.
pub proof fn lemma_map_drop<T, U>(m: GridModel<T>, pane: Pane, target: PaneDropTarget, f: spec_fn(T) -> U)
    requires
        m.layout.remove_leaf(pane) is Some ==> m.panes.contains_key(pane),
    ensures
        model_drop(map_grid(m, f), pane, target) == map_grid(model_drop(m, pane, target), f),
{
    match target {
        PaneDropTarget::Edge(edge) => match edge {
            Edge::Top => lemma_map_split_major(m, SplitAxis::Horizontal, pane, true, f),
            Edge::Bottom => lemma_map_split_major(m, SplitAxis::Horizontal, pane, false, f),
            Edge::Left => lemma_map_split_major(m, SplitAxis::Vertical, pane, true, f),
            Edge::Right => lemma_map_split_major(m, SplitAxis::Vertical, pane, false, f),
        },
        PaneDropTarget::Pane(t, region) => match region {
            Region::Center => lemma_map_swap(m, pane, t, f),
            Region::Edge(Edge::Top) => lemma_map_split_and_swap(m, SplitAxis::Horizontal, t, pane, true, f),
            Region::Edge(Edge::Bottom) => lemma_map_split_and_swap(m, SplitAxis::Horizontal, t, pane, false, f),
            Region::Edge(Edge::Left) => lemma_map_split_and_swap(m, SplitAxis::Vertical, t, pane, true, f),
            Region::Edge(Edge::Right) => lemma_map_split_and_swap(m, SplitAxis::Vertical, t, pane, false, f),
        },
    }
}


// ---- building from a configuration ------------------------------------------

/// What building a configuration yields: `size` consecutive ids from
/// `next`, the leaf entries in increasing id order, listing exactly the
/// tree's leaves.
proof fn lemma_built<T>(c: Configuration<T>, next: int)
    requires
        0 <= next,
        next + c.size() <= usize::MAX,
    ensures
        c.built(next).2 == next + c.size(),
        c.size() >= 1,
        entry_ids(c.built(next).1) == c.built(next).0.leaves(),
        forall|i: int| 0 <= i < c.built(next).1.len() ==> next <= (#[trigger] c.built(next).1[i]).0.0 < c.built(next).2,
        ids_increasing(c.built(next).1),
        c.states().len() == c.built(next).1.len(),
        forall|i: int| 0 <= i < c.states().len() ==> (#[trigger] c.built(next).1[i]).1 == c.states()[i],
    decreases c,
{
    match c {
        Configuration::Split { axis, ratio_bits, a, b } => {
            lemma_built(*a, next);
            let (na, ea, next_a) = a.built(next);
            assert(next_a + b.size() <= usize::MAX);
            lemma_built(*b, next_a);
            let (nb, eb, next_b) = b.built(next_a);
            let e = ea + eb;
            assert(entry_ids(e) =~= entry_ids(ea) + entry_ids(eb));
            assert forall|i: int| 0 <= i < e.len() implies (#[trigger] e[i]).1 == c.states()[i] by {
                if i < ea.len() {
                    assert(e[i] == ea[i]);
                } else {
                    assert(e[i] == eb[i - ea.len()]);
                }
            }
            assert forall|i: int| 0 <= i < e.len() implies next <= (#[trigger] e[i]).0.0 < next_b + 1 by {
                if i < ea.len() {
                    assert(e[i] == ea[i]);
                } else {
                    assert(e[i] == eb[i - ea.len()]);
                }
            }
            assert forall|i: int, j: int| 0 <= i < j < e.len() implies (#[trigger] e[i]).0.0 < (#[trigger] e[j]).0.0 by {
                if j < ea.len() {
                    assert(e[i] == ea[i] && e[j] == ea[j]);
                } else if i >= ea.len() {
                    assert(e[i] == eb[i - ea.len()] && e[j] == eb[j - ea.len()]);
                } else {
                    assert(e[i] == ea[i] && e[j] == eb[j - ea.len()]);
                }
            }
        },
        Configuration::Pane(t) => {
            assert(entry_ids(seq![(Pane(next as usize), t)]) =~= seq![Pane(next as usize)]);
        },
    }
}

/// Build the tree of `config` with ids from `next`, appending the leaf
/// entries to `out`.
fn build_node<T>(config: Configuration<T>, next: usize, out: &mut Vec<(Pane, T)>) -> (r: (Node, usize))
    requires
        next + config.size() <= usize::MAX,
    ensures
        r.0 == config.built(next as int).0,
        r.1 == config.built(next as int).2,
        final(out)@ == old(out)@ + config.built(next as int).1,
    decreases config,
{
    proof {
        lemma_built(config, next as int);
    }
    match config {
        Configuration::Split { axis, ratio_bits, a, b } => {
            proof {
                lemma_built(*a, next as int);
                assert(a.built(next as int).2 + b.size() <= usize::MAX);
                lemma_built(*b, a.built(next as int).2);
            }
            let (na, next_a) = build_node(*a, next, out);
            let (nb, next_b) = build_node(*b, next_a, out);
            proof {
                assert(out@ =~= old(out)@ + (a.built(next as int).1 + b.built(next_a as int).1));
            }
            (Node::Split { axis, ratio_bits, a: Box::new(na), b: Box::new(nb) }, next_b + 1)
        },
        Configuration::Pane(t) => {
            out.push((Pane(next), t));
            proof {
                assert(out@ =~= old(out)@ + seq![(Pane(next), t)]);
            }
            (Node::Pane(Pane(next)), next + 1)
        },
    }
}

impl<T> PaneGrid<T> {
    /// Build a grid from a configuration: leaves get ids depth first from
    /// zero, each split the id after its children.
    pub fn with_configuration(config: Configuration<T>) -> (r: Self)
        requires
            config.size() <= usize::MAX,
        ensures
            r.wf(),
            r.model().layout == config.built(0).0,
            r.model().panes == entries_map(config.built(0).1),
            r.model().last_id == config.built(0).2,
            r.order() == entry_ids(config.built(0).1),
            r.order() == config.built(0).0.leaves(),
            config.states().len() == config.built(0).0.leaves().len(),
            forall|i: int| 0 <= i < config.states().len() ==> r.model().panes.contains_key(#[trigger] config.built(0).0.leaves()[i])
                && r.model().panes[config.built(0).0.leaves()[i]] == config.states()[i],
    {
        let ghost c = config;
        proof {
            lemma_built(c, 0);
        }
        let mut out: Vec<(Pane, T)> = Vec::new();
        let (layout, next) = build_node(config, 0, &mut out);
        let g = PaneGrid { layout, panes: out, last_id: next };
        proof {
            assert(out@ =~= c.built(0).1);
            lemma_entry_ids(out@);
            let o = entry_ids(out@);
            assert forall|i: int, j: int| 0 <= i < o.len() && 0 <= j < o.len() && i != j implies o[i] != o[j] by {
                assert(o[i] == out@[i].0 && o[j] == out@[j].0);
                if i < j {
                    assert(out@[i].0.0 < out@[j].0.0);
                } else {
                    assert(out@[j].0.0 < out@[i].0.0);
                }
            }
            assert forall|p: Pane| #[trigger] g.layout.leaves().contains(p) <==> entries_map(g.panes@).contains_key(p) by {
                assert(o.contains(p) <==> entries_map(g.panes@).contains_key(p));
            }
            assert forall|i: int| 0 <= i < g.panes@.len() implies (#[trigger] g.panes@[i]).0.0 <= g.last_id by {
                assert(c.built(0).1[i] == g.panes@[i]);
            }
            assert forall|i: int| 0 <= i < c.states().len() implies g.model().panes.contains_key(#[trigger] c.built(0).0.leaves()[i])
                && g.model().panes[c.built(0).0.leaves()[i]] == c.states()[i] by {
                lemma_index_of(out@, i);
                assert(o[i] == out@[i].0);
            }
        }
        g
    }
}

} // verus!
