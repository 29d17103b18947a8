//! The tree of filesystem entries and the selection filter.
//!
//! A [`TreeNode`] owns its children by value; its mathematical model is the
//! ghost [`Tree`], a rose tree over plain values. Every operation's contract
//! is stated against that model: [`set_checked_tree`] for downward
//! propagation of the selection state, [`toggle_tree`] for toggling by
//! identity, and [`prune_tree`] for removing unselected subtrees.

use vstd::prelude::*;

use crate::ident::fresh_id;

verus! {

/// The mathematical model of a node: its identity, name, selection state and
/// the models of its children, in order.
#[verifier::ext_equal]
pub ghost struct Tree {
    pub id: u128,
    pub name: Seq<char>,
    pub checked: bool,
    pub children: Seq<Tree>,
}

// ------------------------------------------------------------------
// Ghost operations on trees
// ------------------------------------------------------------------

/// `t` with its own selection state and that of every descendant set to `b`.
pub open spec fn set_checked_tree(t: Tree, b: bool) -> Tree
    decreases t, 0int,
{
    Tree { checked: b, children: set_checked_kids(t.children, t.children.len() as int, b), ..t }
}

/// The first `i` trees of `cs`, each with every selection state set to `b`.
pub open spec fn set_checked_kids(cs: Seq<Tree>, i: int, b: bool) -> Seq<Tree>
    decreases cs, i,
{
    if 0 < i <= cs.len() {
        set_checked_kids(cs, i - 1, b).push(set_checked_tree(cs[i - 1], b))
    } else {
        Seq::<Tree>::empty()
    }
}

pub broadcast proof fn lemma_set_checked_kids(cs: Seq<Tree>, i: int, b: bool)
    requires
        0 <= i <= cs.len(),
    ensures
        (#[trigger] set_checked_kids(cs, i, b)).len() == i,
        forall|j: int| 0 <= j < i ==> set_checked_kids(cs, i, b)[j] == set_checked_tree(cs[j], b),
    decreases i,
{
    if 0 < i {
        lemma_set_checked_kids(cs, i - 1, b);
    }
}

/// `t` after the selection state `b` has been propagated to the node with
/// identity `target` and its whole subtree; every other node keeps its state.
pub open spec fn toggle_tree(t: Tree, target: u128, b: bool) -> Tree
    decreases t, 0int,
{
    if t.id == target {
        set_checked_tree(t, b)
    } else {
        Tree { children: toggle_kids(t.children, t.children.len() as int, target, b), ..t }
    }
}

/// The first `i` trees of `cs`, each toggled by identity `target`.
pub open spec fn toggle_kids(cs: Seq<Tree>, i: int, target: u128, b: bool) -> Seq<Tree>
    decreases cs, i,
{
    if 0 < i <= cs.len() {
        toggle_kids(cs, i - 1, target, b).push(toggle_tree(cs[i - 1], target, b))
    } else {
        Seq::<Tree>::empty()
    }
}

pub broadcast proof fn lemma_toggle_kids(cs: Seq<Tree>, i: int, target: u128, b: bool)
    requires
        0 <= i <= cs.len(),
    ensures
        (#[trigger] toggle_kids(cs, i, target, b)).len() == i,
        forall|j: int| 0 <= j < i ==> toggle_kids(cs, i, target, b)[j] == toggle_tree(cs[j], target, b),
    decreases i,
{
    if 0 < i {
        lemma_toggle_kids(cs, i - 1, target, b);
    }
}

/// The trees of `cs` whose own selection state is set, in order.
pub open spec fn keep_checked(cs: Seq<Tree>) -> Seq<Tree>
    decreases cs.len(),
{
    if cs.len() == 0 {
        Seq::<Tree>::empty()
    } else {
        let rest = keep_checked(cs.drop_last());
        if cs.last().checked {
            rest.push(cs.last())
        } else {
            rest
        }
    }
}

pub proof fn lemma_keep_checked_push(cs: Seq<Tree>, x: Tree)
    ensures
        x.checked ==> keep_checked(cs.push(x)) == keep_checked(cs).push(x),
        !x.checked ==> keep_checked(cs.push(x)) == keep_checked(cs),
{
    assert(cs.push(x).drop_last() =~= cs);
    assert(cs.push(x).last() == x);
}

/// Every tree that the selection keeps is selected, and is one of the trees
/// given to it.
pub proof fn lemma_keep_checked_elems(cs: Seq<Tree>)
    ensures
        keep_checked(cs).len() <= cs.len(),
        forall|j: int|
            0 <= j < keep_checked(cs).len() ==> (#[trigger] keep_checked(cs)[j]).checked
                && cs.contains(keep_checked(cs)[j]),
    decreases cs.len(),
{
    if cs.len() > 0 {
        lemma_keep_checked_elems(cs.drop_last());
        assert(cs.contains(cs.last())) by {
            assert(cs[cs.len() - 1] == cs.last());
        }
        assert forall|j: int| 0 <= j < cs.drop_last().len() implies cs.contains(
            #[trigger] cs.drop_last()[j],
        ) by {
            assert(cs[j] == cs.drop_last()[j]);
        }
    }
}

/// `t` with every unselected child removed, recursively, in every retained
/// subtree. The root itself is never removed, whatever its own state.
pub open spec fn prune_tree(t: Tree) -> Tree
    decreases t, 0int,
{
    Tree { children: keep_checked(prune_kids(t.children, t.children.len() as int)), ..t }
}

/// The first `i` trees of `cs`, each pruned. Pruning a tree keeps its own
/// selection state, so filtering the pruned children by their state removes
/// exactly the children that were unselected before pruning.
pub open spec fn prune_kids(cs: Seq<Tree>, i: int) -> Seq<Tree>
    decreases cs, i,
{
    if 0 < i <= cs.len() {
        prune_kids(cs, i - 1).push(prune_tree(cs[i - 1]))
    } else {
        Seq::<Tree>::empty()
    }
}

pub broadcast proof fn lemma_prune_kids(cs: Seq<Tree>, i: int)
    requires
        0 <= i <= cs.len(),
    ensures
        (#[trigger] prune_kids(cs, i)).len() == i,
        forall|j: int| 0 <= j < i ==> prune_kids(cs, i)[j] == prune_tree(cs[j]),
    decreases i,
{
    if 0 < i {
        lemma_prune_kids(cs, i - 1);
    }
}

/// Whether some node of `t` has identity `target`.
pub open spec fn contains_id(t: Tree, target: u128) -> bool
    decreases t, 0int,
{
    t.id == target || kids_contain_id(t.children, t.children.len() as int, target)
}

/// Whether one of the first `i` trees of `cs` contains identity `target`.
pub open spec fn kids_contain_id(cs: Seq<Tree>, i: int, target: u128) -> bool
    decreases cs, i,
{
    if 0 < i <= cs.len() {
        kids_contain_id(cs, i - 1, target) || contains_id(cs[i - 1], target)
    } else {
        false
    }
}

pub broadcast proof fn lemma_kids_contain_id(cs: Seq<Tree>, i: int, target: u128)
    requires
        0 <= i <= cs.len(),
    ensures
        #[trigger] kids_contain_id(cs, i, target) <==> exists|j: int|
            0 <= j < i && contains_id(#[trigger] cs[j], target),
    decreases i,
{
    if 0 < i {
        lemma_kids_contain_id(cs, i - 1, target);
        if contains_id(cs[i - 1], target) {
            assert(0 <= i - 1 < i && contains_id(cs[i - 1], target));
        }
    }
}

/// The number of levels of `t`: one for the root plus the deepest child.
pub open spec fn tree_height(t: Tree) -> nat
    decreases t, 0int,
{
    1 + kids_height(t.children, t.children.len() as int)
}

/// The greatest height among the first `i` trees of `cs`.
pub open spec fn kids_height(cs: Seq<Tree>, i: int) -> nat
    decreases cs, i,
{
    if 0 < i <= cs.len() {
        let rest = kids_height(cs, i - 1);
        let h = tree_height(cs[i - 1]);
        if h > rest {
            h
        } else {
            rest
        }
    } else {
        0
    }
}

pub proof fn lemma_kids_height(cs: Seq<Tree>, i: int)
    requires
        0 <= i <= cs.len(),
    ensures
        forall|j: int| 0 <= j < i ==> tree_height(#[trigger] cs[j]) <= kids_height(cs, i),
    decreases i,
{
    if 0 < i {
        lemma_kids_height(cs, i - 1);
    }
}

/// A bound that holds of every tree of a prefix bounds the prefix's
/// greatest height.
pub proof fn lemma_kids_height_bound(cs: Seq<Tree>, i: int, bound: nat)
    requires
        0 <= i <= cs.len(),
        forall|j: int| 0 <= j < i ==> tree_height(#[trigger] cs[j]) <= bound,
    ensures
        kids_height(cs, i) <= bound,
    decreases i,
{
    if 0 < i {
        lemma_kids_height_bound(cs, i - 1, bound);
    }
}

/// Every child of `t` is strictly lower than `t`.
pub proof fn lemma_child_height(t: Tree, j: int)
    requires
        0 <= j < t.children.len(),
    ensures
        tree_height(t.children[j]) < tree_height(t),
{
    lemma_kids_height(t.children, t.children.len() as int);
}

// ------------------------------------------------------------------
// Laws of the ghost operations
// ------------------------------------------------------------------

/// Whether every node of `t`, itself included, has selection state `b`.
pub open spec fn all_checked_eq(t: Tree, b: bool) -> bool
    decreases t, 0int,
{
    t.checked == b && kids_all_checked_eq(t.children, t.children.len() as int, b)
}

/// Whether every node of the first `i` trees of `cs` has state `b`.
pub open spec fn kids_all_checked_eq(cs: Seq<Tree>, i: int, b: bool) -> bool
    decreases cs, i,
{
    if 0 < i <= cs.len() {
        kids_all_checked_eq(cs, i - 1, b) && all_checked_eq(cs[i - 1], b)
    } else {
        true
    }
}

pub proof fn lemma_kids_all_checked_eq(cs: Seq<Tree>, i: int, b: bool)
    requires
        0 <= i <= cs.len(),
    ensures
        kids_all_checked_eq(cs, i, b) <==> (forall|j: int|
            0 <= j < i ==> all_checked_eq(#[trigger] cs[j], b)),
    decreases i,
{
    if 0 < i {
        lemma_kids_all_checked_eq(cs, i - 1, b);
    }
}

/// Whether `a` and `b` are the same tree apart from selection states:
/// same identities, same names, same number and order of children.
pub open spec fn same_skeleton(a: Tree, b: Tree) -> bool
    decreases a, 0int,
{
    a.id == b.id && a.name == b.name && a.children.len() == b.children.len()
        && kids_same_skeleton(a.children, b.children, a.children.len() as int)
}

/// Whether the first `i` trees of `xs` and of `ys` have the same skeleton,
/// pairwise.
pub open spec fn kids_same_skeleton(xs: Seq<Tree>, ys: Seq<Tree>, i: int) -> bool
    decreases xs, i,
{
    if 0 < i <= xs.len() && i <= ys.len() {
        kids_same_skeleton(xs, ys, i - 1) && same_skeleton(xs[i - 1], ys[i - 1])
    } else {
        true
    }
}

pub proof fn lemma_kids_same_skeleton(xs: Seq<Tree>, ys: Seq<Tree>, i: int)
    requires
        0 <= i <= xs.len(),
        i <= ys.len(),
    ensures
        kids_same_skeleton(xs, ys, i) <==> (forall|j: int|
            0 <= j < i ==> same_skeleton(#[trigger] xs[j], ys[j])),
    decreases i,
{
    if 0 < i {
        lemma_kids_same_skeleton(xs, ys, i - 1);
    }
}

/// Propagation reaches the whole subtree and nothing but its states: after
/// setting the selection state of a tree to `b`, every node of it (itself
/// included) has state `b`, while identities, names and the number and
/// order of children are exactly as before.
pub proof fn lemma_set_checked_propagates(t: Tree, b: bool)
    ensures
        all_checked_eq(set_checked_tree(t, b), b),
        same_skeleton(set_checked_tree(t, b), t),
    decreases t, 0int,
{
    let s = set_checked_tree(t, b);
    let n = t.children.len() as int;
    lemma_set_checked_kids(t.children, n, b);
    assert forall|j: int| 0 <= j < n implies all_checked_eq(#[trigger] s.children[j], b)
        && same_skeleton(s.children[j], t.children[j]) by {
        assert(decreases_to!(t => t.children));
        assert(decreases_to!(t.children => t.children[j]));
        lemma_set_checked_propagates(t.children[j], b);
    }
    lemma_kids_all_checked_eq(s.children, n, b);
    lemma_kids_same_skeleton(s.children, t.children, n);
}

/// Toggling by an identity that no node of the tree has is a no-op: the
/// tree afterwards is the very same value. In particular a toggle never
/// touches a sibling branch in which the identity does not occur.
pub proof fn lemma_toggle_unknown_noop(t: Tree, target: u128, b: bool)
    requires
        !contains_id(t, target),
    ensures
        toggle_tree(t, target, b) == t,
    decreases t, 0int,
{
    let n = t.children.len() as int;
    lemma_kids_contain_id(t.children, n, target);
    lemma_toggle_kids(t.children, n, target, b);
    assert forall|j: int| 0 <= j < n implies toggle_tree(#[trigger] t.children[j], target, b)
        == t.children[j] by {
        assert(decreases_to!(t => t.children));
        assert(decreases_to!(t.children => t.children[j]));
        lemma_toggle_unknown_noop(t.children[j], target, b);
    }
    assert(toggle_tree(t, target, b).children =~= t.children);
    assert(toggle_tree(t, target, b) =~= t);
}

/// A toggle changes selection states only: the skeleton — identities,
/// names, number and order of children — is kept whether or not the
/// identity occurs in the tree.
pub proof fn lemma_toggle_skeleton(t: Tree, target: u128, b: bool)
    ensures
        same_skeleton(toggle_tree(t, target, b), t),
    decreases t, 0int,
{
    if t.id == target {
        lemma_set_checked_propagates(t, b);
    } else {
        let s = toggle_tree(t, target, b);
        let n = t.children.len() as int;
        lemma_toggle_kids(t.children, n, target, b);
        assert forall|j: int| 0 <= j < n implies same_skeleton(#[trigger] s.children[j],
            t.children[j]) by {
            assert(decreases_to!(t => t.children));
            assert(decreases_to!(t.children => t.children[j]));
            lemma_toggle_skeleton(t.children[j], target, b);
        }
        lemma_kids_same_skeleton(s.children, t.children, n);
    }
}

/// Whether every node strictly below the root of `t` is selected.
pub open spec fn descendants_checked(t: Tree) -> bool
    decreases t, 0int,
{
    kids_descendants_checked(t.children, t.children.len() as int)
}

/// Whether, among the first `i` trees of `cs`, every node is selected.
pub open spec fn kids_descendants_checked(cs: Seq<Tree>, i: int) -> bool
    decreases cs, i,
{
    if 0 < i <= cs.len() {
        kids_descendants_checked(cs, i - 1) && cs[i - 1].checked && descendants_checked(cs[i - 1])
    } else {
        true
    }
}

pub proof fn lemma_kids_descendants_checked(cs: Seq<Tree>, i: int)
    requires
        0 <= i <= cs.len(),
    ensures
        kids_descendants_checked(cs, i) <==> (forall|j: int|
            0 <= j < i ==> (#[trigger] cs[j]).checked && descendants_checked(cs[j])),
    decreases i,
{
    if 0 < i {
        lemma_kids_descendants_checked(cs, i - 1);
    }
}

/// Pruning is correct: afterwards no remaining node other than the root is
/// unselected, and the root itself — its identity, name and own state — is
/// never removed or changed, whatever its own state was.
pub proof fn lemma_prune_correct(t: Tree)
    ensures
        descendants_checked(prune_tree(t)),
        prune_tree(t).id == t.id,
        prune_tree(t).name == t.name,
        prune_tree(t).checked == t.checked,
    decreases t, 0int,
{
    let n = t.children.len() as int;
    let pruned = prune_kids(t.children, n);
    let kept = keep_checked(pruned);
    lemma_prune_kids(t.children, n);
    lemma_keep_checked_elems(pruned);
    assert forall|j: int| 0 <= j < kept.len() implies (#[trigger] kept[j]).checked
        && descendants_checked(kept[j]) by {
        assert(pruned.contains(kept[j]));
        let k = choose|k: int| 0 <= k < pruned.len() && pruned[k] == kept[j];
        assert(kept[j] == prune_tree(t.children[k]));
        assert(decreases_to!(t => t.children));
        assert(decreases_to!(t.children => t.children[k]));
        lemma_prune_correct(t.children[k]);
    }
    lemma_kids_descendants_checked(kept, kept.len() as int);
}

/// Two trees with the same skeleton have the same height.
pub proof fn lemma_skeleton_height(a: Tree, b: Tree)
    requires
        same_skeleton(a, b),
    ensures
        tree_height(a) == tree_height(b),
    decreases a, 0int,
{
    let n = a.children.len() as int;
    lemma_kids_same_skeleton(a.children, b.children, n);
    assert forall|j: int| 0 <= j < n implies tree_height(#[trigger] a.children[j]) == tree_height(
        b.children[j],
    ) by {
        assert(decreases_to!(a => a.children));
        assert(decreases_to!(a.children => a.children[j]));
        lemma_skeleton_height(a.children[j], b.children[j]);
    }
    lemma_kids_height_congruence(a.children, b.children, n);
}

pub proof fn lemma_kids_height_congruence(xs: Seq<Tree>, ys: Seq<Tree>, i: int)
    requires
        0 <= i <= xs.len(),
        i <= ys.len(),
        forall|j: int| 0 <= j < i ==> tree_height(#[trigger] xs[j]) == tree_height(ys[j]),
    ensures
        kids_height(xs, i) == kids_height(ys, i),
    decreases i,
{
    if 0 < i {
        lemma_kids_height_congruence(xs, ys, i - 1);
    }
}

/// Pruning never makes a tree taller.
pub proof fn lemma_prune_height(t: Tree)
    ensures
        tree_height(prune_tree(t)) <= tree_height(t),
    decreases t, 0int,
{
    let n = t.children.len() as int;
    let pruned = prune_kids(t.children, n);
    let kept = keep_checked(pruned);
    lemma_prune_kids(t.children, n);
    lemma_keep_checked_elems(pruned);
    lemma_kids_height(t.children, n);
    assert forall|j: int| 0 <= j < kept.len() implies tree_height(#[trigger] kept[j])
        <= kids_height(t.children, n) by {
        assert(pruned.contains(kept[j]));
        let k = choose|k: int| 0 <= k < pruned.len() && pruned[k] == kept[j];
        assert(kept[j] == prune_tree(t.children[k]));
        assert(decreases_to!(t => t.children));
        assert(decreases_to!(t.children => t.children[k]));
        lemma_prune_height(t.children[k]);
    }
    lemma_kids_height_bound(kept, kept.len() as int, kids_height(t.children, n));
}

// ------------------------------------------------------------------
// The executable node type
// ------------------------------------------------------------------

/// One filesystem entry (file or directory) in the built tree.
///
/// `id` is unique within one tree snapshot in practice (it is drawn from a
/// 128-bit random generator at build time) and is ordinary data: cloning a
/// tree copies identities verbatim, so a node can still be addressed in the
/// copy.
#[derive(Debug, PartialEq)]
pub struct TreeNode {
    pub id: u128,
    pub name: String,
    pub is_checked: bool,
    pub children: Vec<TreeNode>,
}

impl TreeNode {
    /// The ghost tree this node represents.
    pub open spec fn as_tree(self) -> Tree
        decreases self, 0int,
    {
        Tree {
            id: self.id,
            name: self.name@,
            checked: self.is_checked,
            children: TreeNode::views_upto(self.children, self.children@.len() as int),
        }
    }

    /// The models of the first `i` elements of `v`, in order.
    pub open spec fn views_upto(v: Vec<TreeNode>, i: int) -> Seq<Tree>
        decreases v, i,
    {
        if 0 < i <= v@.len() {
            TreeNode::views_upto(v, i - 1).push(v[i - 1].as_tree())
        } else {
            Seq::<Tree>::empty()
        }
    }
}

pub broadcast proof fn lemma_views_upto(v: Vec<TreeNode>, i: int)
    requires
        0 <= i <= v@.len(),
    ensures
        (#[trigger] TreeNode::views_upto(v, i)).len() == i,
        forall|j: int| 0 <= j < i ==> TreeNode::views_upto(v, i)[j] == v@[j]@,
    decreases i,
{
    if 0 < i {
        lemma_views_upto(v, i - 1);
    }
}

impl View for TreeNode {
    type V = Tree;

    open spec fn view(&self) -> Tree {
        self.as_tree()
    }
}

impl TreeNode {
    /// A fresh node: named, selected, childless, with a newly drawn identity.
    pub fn new(name: String) -> (node: TreeNode)
        ensures
            node@.name == name@,
            node@.checked,
            node@.children == Seq::<Tree>::empty(),
    {
        let node = TreeNode { id: fresh_id(), name, is_checked: true, children: Vec::new() };
        proof {
            assert(node@.children =~= Seq::<Tree>::empty());
        }
        node
    }

    /// Appends `child` after the existing children, leaving the rest of the
    /// node unchanged.
    pub fn push_child(&mut self, child: TreeNode)
        ensures
            final(self)@.id == old(self)@.id,
            final(self)@.name == old(self)@.name,
            final(self)@.checked == old(self)@.checked,
            final(self)@.children == old(self)@.children.push(child@),
    {
        self.children.push(child);
        proof {
            lemma_views_upto(self.children, self.children@.len() as int);
            lemma_views_upto(old(self).children, old(self).children@.len() as int);
            assert(self@.children =~= old(self)@.children.push(child@));
        }
    }

    /// Sets this node's selection state to `is_checked`, then applies the
    /// same value to every descendant, overwriting their prior state.
    pub fn set_checked_recursive(&mut self, is_checked: bool)
        ensures
            final(self)@ == set_checked_tree(old(self)@, is_checked),
        decreases *old(self),
    {
        self.is_checked = is_checked;
        let n = self.children.len();
        let mut i: usize = 0;
        while i < n
            invariant
                i <= n,
                n == self.children@.len(),
                n == old(self).children@.len(),
                self.id == old(self).id,
                self.name == old(self).name,
                self.is_checked == is_checked,
                forall|j: int| i <= j < n ==> self.children@[j] == old(self).children@[j],
                forall|j: int|
                    0 <= j < i ==> #[trigger] self.children@[j]@ == set_checked_tree(
                        old(self).children@[j]@,
                        is_checked,
                    ),
            decreases n - i,
        {
            let mut tmp = TreeNode {
                id: 0,
                name: String::new(),
                is_checked: false,
                children: Vec::new(),
            };
            self.children.set_and_swap(i, &mut tmp);
            proof {
                assert(tmp == old(self).children@[i as int]);
                assert(decreases_to!(*old(self) => old(self).children));
                assert(decreases_to!(old(self).children => old(self).children[i as int]));
            }
            tmp.set_checked_recursive(is_checked);
            self.children.set_and_swap(i, &mut tmp);
            i = i + 1;
        }
        proof {
            lemma_views_upto(self.children, n as int);
            lemma_views_upto(old(self).children, n as int);
            lemma_set_checked_kids(old(self)@.children, n as int, is_checked);
            assert(self@.children =~= set_checked_tree(old(self)@, is_checked).children);
            assert(self@ =~= set_checked_tree(old(self)@, is_checked));
        }
    }

    /// Searches the tree for the node whose identity is `target_id`; when
    /// found, propagates `is_checked` to it and its whole subtree. No other
    /// branch is touched; an unknown identity leaves the tree unchanged.
    pub fn update_check_by_id(&mut self, target_id: u128, is_checked: bool)
        ensures
            final(self)@ == toggle_tree(old(self)@, target_id, is_checked),
        decreases *old(self),
    {
        if self.id == target_id {
            self.set_checked_recursive(is_checked);
        } else {
            let n = self.children.len();
            let mut i: usize = 0;
            while i < n
                invariant
                    i <= n,
                    n == self.children@.len(),
                    n == old(self).children@.len(),
                    self.id == old(self).id,
                    self.name == old(self).name,
                    self.is_checked == old(self).is_checked,
                    forall|j: int| i <= j < n ==> self.children@[j] == old(self).children@[j],
                    forall|j: int|
                        0 <= j < i ==> #[trigger] self.children@[j]@ == toggle_tree(
                            old(self).children@[j]@,
                            target_id,
                            is_checked,
                        ),
                decreases n - i,
            {
                let mut tmp = TreeNode {
                    id: 0,
                    name: String::new(),
                    is_checked: false,
                    children: Vec::new(),
                };
                self.children.set_and_swap(i, &mut tmp);
                proof {
                    assert(tmp == old(self).children@[i as int]);
                    assert(decreases_to!(*old(self) => old(self).children));
                    assert(decreases_to!(old(self).children => old(self).children[i as int]));
                }
                tmp.update_check_by_id(target_id, is_checked);
                self.children.set_and_swap(i, &mut tmp);
                i = i + 1;
            }
            proof {
                lemma_views_upto(self.children, n as int);
                lemma_views_upto(old(self).children, n as int);
                lemma_toggle_kids(old(self)@.children, n as int, target_id, is_checked);
                assert(self@.children =~= toggle_tree(old(self)@, target_id, is_checked).children);
                assert(self@ =~= toggle_tree(old(self)@, target_id, is_checked));
            }
        }
    }

    /// Removes every unselected child, recursively, in every retained
    /// subtree. A child's own state is read before recursing, so an
    /// unselected subtree is discarded wholesale. The node itself is never
    /// removed, whatever its own state.
    pub fn apply_filter(&mut self)
        ensures
            final(self)@ == prune_tree(old(self)@),
        decreases *old(self),
    {
        let n = self.children.len();
        let mut kept: Vec<TreeNode> = Vec::new();
        let mut i: usize = 0;
        while i < n
            invariant
                i <= n,
                n == self.children@.len(),
                n == old(self).children@.len(),
                self.id == old(self).id,
                self.name == old(self).name,
                self.is_checked == old(self).is_checked,
                forall|j: int| i <= j < n ==> self.children@[j] == old(self).children@[j],
                TreeNode::views_upto(kept, kept@.len() as int) == keep_checked(
                    prune_kids(old(self)@.children, i as int),
                ),
            decreases n - i,
        {
            let mut tmp = TreeNode {
                id: 0,
                name: String::new(),
                is_checked: false,
                children: Vec::new(),
            };
            self.children.set_and_swap(i, &mut tmp);
            proof {
                lemma_views_upto(old(self).children, n as int);
                assert(tmp == old(self).children@[i as int]);
                assert(tmp@ == old(self)@.children[i as int]);
                assert(decreases_to!(*old(self) => old(self).children));
                assert(decreases_to!(old(self).children => old(self).children[i as int]));
            }
            let ghost kept_before = TreeNode::views_upto(kept, kept@.len() as int);
            let ghost pruned_before = prune_kids(old(self)@.children, i as int);
            let ghost child_tree = old(self)@.children[i as int];
            let keep_this = tmp.is_checked;
            if keep_this {
                tmp.apply_filter();
                let ghost kv = kept;
                kept.push(tmp);
                proof {
                    lemma_views_upto(kv, kv@.len() as int);
                    lemma_views_upto(kept, kept@.len() as int);
                    assert(TreeNode::views_upto(kept, kept@.len() as int) =~= kept_before.push(
                        prune_tree(child_tree),
                    ));
                }
            }
            proof {
                lemma_prune_kids(old(self)@.children, i as int);
                lemma_prune_kids(old(self)@.children, i + 1);
                assert(prune_kids(old(self)@.children, i + 1) =~= pruned_before.push(
                    prune_tree(child_tree),
                ));
                lemma_keep_checked_push(pruned_before, prune_tree(child_tree));
                assert(prune_tree(child_tree).checked == child_tree.checked);
                assert(child_tree.checked == keep_this);
                assert(TreeNode::views_upto(kept, kept@.len() as int) == keep_checked(
                    prune_kids(old(self)@.children, i + 1),
                ));
            }
            i = i + 1;
        }
        self.children = kept;
        proof {
            lemma_views_upto(old(self).children, n as int);
            assert(self@.children =~= prune_tree(old(self)@).children);
            assert(self@ =~= prune_tree(old(self)@));
        }
    }
}

impl Clone for TreeNode {
    /// A deep copy whose model is the same tree: names, selection states and
    /// identities are copied verbatim, so a node of the copy can still be
    /// addressed by an identity taken from the original.
    fn clone(&self) -> (res: Self)
        ensures
            res@ == self@,
        decreases *self,
    {
        let n = self.children.len();
        let mut children: Vec<TreeNode> = Vec::new();
        let mut i: usize = 0;
        while i < n
            invariant
                i <= n,
                n == self.children@.len(),
                children@.len() == i,
                forall|j: int| 0 <= j < i ==> #[trigger] children@[j]@ == self.children@[j]@,
            decreases n - i,
        {
            proof {
                assert(decreases_to!(*self => self.children));
                assert(decreases_to!(self.children => self.children[i as int]));
            }
            let c = self.children[i].clone();
            children.push(c);
            i = i + 1;
        }
        let res = TreeNode {
            id: self.id,
            name: self.name.clone(),
            is_checked: self.is_checked,
            children,
        };
        proof {
            lemma_views_upto(res.children, n as int);
            lemma_views_upto(self.children, n as int);
            assert(res@.children =~= self@.children);
            assert(res@ =~= self@);
        }
        res
    }
}

} // verus!
