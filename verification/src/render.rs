//! The text renderer: one line per node, depth first, children in stored
//! order, with `|--` for a branch, `|__` for a last child, and `|   ` or
//! four spaces as the continuation fragment of each ancestor level.

use vstd::prelude::*;
use vstd::slice::slice_to_vec;

use crate::tree::{
    lemma_child_height, lemma_views_upto, tree_height, Tree, TreeNode,
};

verus! {

/// The four-character fragment shown for one ancestor level: blank if that
/// ancestor was itself a last child (its branch is closed), a bar otherwise.
pub open spec fn marker_of(was_last: bool) -> Seq<char> {
    if was_last {
        "    "@
    } else {
        "|   "@
    }
}

/// The fragments for the first `k` ancestor levels of `p`, concatenated.
pub open spec fn markers_upto(p: Seq<bool>, k: int) -> Seq<char>
    decreases k,
{
    if 0 < k <= p.len() {
        markers_upto(p, k - 1) + marker_of(p[k - 1])
    } else {
        Seq::<char>::empty()
    }
}

/// The connector immediately before a node's name.
pub open spec fn connector_of(is_last: bool) -> Seq<char> {
    if is_last {
        "|__ "@
    } else {
        "|-- "@
    }
}

/// What stands before a node's name on its line: nothing for the root;
/// otherwise one fragment per ancestor level strictly between the root and
/// the node's parent, then the node's own connector.
pub open spec fn line_prefix(depth: nat, is_last: bool, p: Seq<bool>) -> Seq<char> {
    if depth > 0 {
        let k = if depth - 1 <= p.len() {
            depth - 1
        } else {
            p.len() as int
        };
        markers_upto(p, k) + connector_of(is_last)
    } else {
        Seq::<char>::empty()
    }
}

/// The rendered text of `t`: the node's own line, then the texts of its
/// children in stored order, each child passed the ancestor chain `p`
/// extended by whether it is the last child.
pub open spec fn render_tree(t: Tree, depth: nat, is_last: bool, p: Seq<bool>) -> Seq<char>
    decreases t, 0int,
{
    line_prefix(depth, is_last, p) + t.name + "\n"@ + rendered_kids(
        t.children,
        t.children.len() as int,
        depth + 1,
        p,
    )
}

/// The rendered texts of the first `i` trees of `cs`, concatenated in order.
pub open spec fn rendered_kids(cs: Seq<Tree>, i: int, depth: nat, p: Seq<bool>) -> Seq<char>
    decreases cs, i,
{
    if 0 < i <= cs.len() {
        let last = (i - 1 == cs.len() - 1);
        rendered_kids(cs, i - 1, depth, p) + render_tree(cs[i - 1], depth, last, p.push(last))
    } else {
        Seq::<char>::empty()
    }
}

impl TreeNode {
    /// Renders this subtree as text, one line per node. `depth` is how far
    /// below the rendered root this node stands, `is_last` whether it is the
    /// last child of its parent, and `parent_is_last` the chain of
    /// was-last-child flags of its ancestors below the rendered root. A
    /// whole tree is rendered by `to_string_recursive(0, true, &[])`.
    ///
    /// The height bound only keeps the depth counter within the machine's
    /// integers; any tree that fits in memory satisfies it.
    pub fn to_string_recursive(&self, depth: usize, is_last: bool, parent_is_last: &[bool]) -> (result:
        String)
        requires
            depth + tree_height(self@) <= usize::MAX,
        ensures
            result@ == render_tree(self@, depth as nat, is_last, parent_is_last@),
        decreases *self,
    {
        let mut result = String::new();
        if depth > 0 {
            let end = if depth - 1 <= parent_is_last.len() {
                depth - 1
            } else {
                parent_is_last.len()
            };
            let mut k: usize = 0;
            while k < end
                invariant
                    k <= end,
                    end <= parent_is_last@.len(),
                    result@ == markers_upto(parent_is_last@, k as int),
                decreases end - k,
            {
                if parent_is_last[k] {
                    result.append("    ");
                } else {
                    result.append("|   ");
                }
                k = k + 1;
            }
            if is_last {
                result.append("|__ ");
            } else {
                result.append("|-- ");
            }
        }
        result.append(self.name.as_str());
        result.append("\n");
        let ghost head = result@;
        proof {
            assert(head == line_prefix(depth as nat, is_last, parent_is_last@) + self@.name
                + "\n"@);
        }
        let n = self.children.len();
        let mut i: usize = 0;
        while i < n
            invariant
                i <= n,
                n == self.children@.len(),
                depth + tree_height(self@) <= usize::MAX,
                head == line_prefix(depth as nat, is_last, parent_is_last@) + self@.name + "\n"@,
                result@ == head + rendered_kids(
                    self@.children,
                    i as int,
                    (depth + 1) as nat,
                    parent_is_last@,
                ),
            decreases n - i,
        {
            let is_last_child = i + 1 == n;
            let mut child_prefix = slice_to_vec(parent_is_last);
            child_prefix.push(is_last_child);
            proof {
                lemma_views_upto(self.children, n as int);
                lemma_child_height(self@, i as int);
                assert(decreases_to!(*self => self.children));
                assert(decreases_to!(self.children => self.children[i as int]));
            }
            let sub = self.children[i].to_string_recursive(
                depth + 1,
                is_last_child,
                child_prefix.as_slice(),
            );
            result.append(sub.as_str());
            proof {
                assert(rendered_kids(
                    self@.children,
                    i + 1,
                    (depth + 1) as nat,
                    parent_is_last@,
                ) == rendered_kids(self@.children, i as int, (depth + 1) as nat, parent_is_last@)
                    + render_tree(
                    self@.children[i as int],
                    (depth + 1) as nat,
                    is_last_child,
                    parent_is_last@.push(is_last_child),
                ));
                assert(result@ =~= head + rendered_kids(
                    self@.children,
                    i + 1,
                    (depth + 1) as nat,
                    parent_is_last@,
                ));
            }
            i = i + 1;
        }
        proof {
            lemma_views_upto(self.children, n as int);
            assert(result@ == render_tree(self@, depth as nat, is_last, parent_is_last@));
        }
        result
    }
}

/// How many line breaks a text holds.
pub open spec fn count_newlines(s: Seq<char>) -> nat
    decreases s.len(),
{
    if s.len() == 0 {
        0
    } else {
        count_newlines(s.drop_last()) + (if s.last() == '\n' {
            1nat
        } else {
            0nat
        })
    }
}

pub proof fn lemma_count_newlines_add(a: Seq<char>, b: Seq<char>)
    ensures
        count_newlines(a + b) == count_newlines(a) + count_newlines(b),
    decreases b.len(),
{
    if b.len() == 0 {
        assert(a + b =~= a);
    } else {
        lemma_count_newlines_add(a, b.drop_last());
        assert((a + b).drop_last() =~= a + b.drop_last());
        assert((a + b).last() == b.last());
    }
}

pub proof fn lemma_count_no_newline(s: Seq<char>)
    requires
        forall|i: int| 0 <= i < s.len() ==> s[i] != '\n',
    ensures
        count_newlines(s) == 0,
    decreases s.len(),
{
    if s.len() > 0 {
        assert(forall|i: int| 0 <= i < s.drop_last().len() ==> s.drop_last()[i] == s[i]);
        lemma_count_no_newline(s.drop_last());
        assert(s.last() == s[s.len() - 1]);
    }
}

/// The number of nodes of `t`, the root included.
pub open spec fn node_count(t: Tree) -> nat
    decreases t, 0int,
{
    1 + kids_node_count(t.children, t.children.len() as int)
}

/// The number of nodes of the first `i` trees of `cs`, together.
pub open spec fn kids_node_count(cs: Seq<Tree>, i: int) -> nat
    decreases cs, i,
{
    if 0 < i <= cs.len() {
        kids_node_count(cs, i - 1) + node_count(cs[i - 1])
    } else {
        0
    }
}

/// Whether no node name of `t` holds a line break.
pub open spec fn newline_free_names(t: Tree) -> bool
    decreases t, 0int,
{
    (forall|i: int| 0 <= i < t.name.len() ==> t.name[i] != '\n') && kids_newline_free(
        t.children,
        t.children.len() as int,
    )
}

/// Whether no node name among the first `i` trees of `cs` holds a line
/// break.
pub open spec fn kids_newline_free(cs: Seq<Tree>, i: int) -> bool
    decreases cs, i,
{
    if 0 < i <= cs.len() {
        kids_newline_free(cs, i - 1) && newline_free_names(cs[i - 1])
    } else {
        true
    }
}

pub proof fn lemma_kids_newline_free(cs: Seq<Tree>, i: int)
    requires
        0 <= i <= cs.len(),
    ensures
        kids_newline_free(cs, i) <==> (forall|j: int|
            0 <= j < i ==> newline_free_names(#[trigger] cs[j])),
    decreases i,
{
    if 0 < i {
        lemma_kids_newline_free(cs, i - 1);
    }
}

pub proof fn lemma_marker_no_newline(was_last: bool)
    ensures
        count_newlines(marker_of(was_last)) == 0,
{
    reveal_strlit("    ");
    reveal_strlit("|   ");
    lemma_count_no_newline(marker_of(was_last));
}

pub proof fn lemma_markers_no_newline(p: Seq<bool>, k: int)
    ensures
        count_newlines(markers_upto(p, k)) == 0,
    decreases k,
{
    if 0 < k <= p.len() {
        lemma_markers_no_newline(p, k - 1);
        lemma_marker_no_newline(p[k - 1]);
        lemma_count_newlines_add(markers_upto(p, k - 1), marker_of(p[k - 1]));
    }
}

pub proof fn lemma_line_prefix_no_newline(depth: nat, is_last: bool, p: Seq<bool>)
    ensures
        count_newlines(line_prefix(depth, is_last, p)) == 0,
{
    if depth > 0 {
        let k = if depth - 1 <= p.len() {
            depth - 1
        } else {
            p.len() as int
        };
        lemma_markers_no_newline(p, k);
        reveal_strlit("|__ ");
        reveal_strlit("|-- ");
        lemma_count_no_newline(connector_of(is_last));
        lemma_count_newlines_add(markers_upto(p, k), connector_of(is_last));
    }
}

/// One line per node: however a tree is rendered, the text holds exactly as
/// many line breaks as the tree has nodes — for a whole tree, the root line
/// plus one line per descendant — provided no name holds a line break of
/// its own.
pub proof fn lemma_render_line_count(t: Tree, depth: nat, is_last: bool, p: Seq<bool>)
    requires
        newline_free_names(t),
    ensures
        count_newlines(render_tree(t, depth, is_last, p)) == node_count(t),
    decreases t, 0int,
{
    let n = t.children.len() as int;
    let lp = line_prefix(depth, is_last, p);
    lemma_line_prefix_no_newline(depth, is_last, p);
    lemma_count_no_newline(t.name);
    assert(count_newlines("\n"@) == 1) by {
        reveal_strlit("\n");
        let s = "\n"@;
        assert(s.len() == 1);
        assert(s.last() == '\n');
        assert(s.drop_last() =~= Seq::<char>::empty());
        assert(count_newlines(Seq::<char>::empty()) == 0);
        assert(count_newlines(s) == count_newlines(s.drop_last()) + 1);
    }
    lemma_count_newlines_add(lp, t.name);
    lemma_count_newlines_add(lp + t.name, "\n"@);
    lemma_count_newlines_add(lp + t.name + "\n"@, rendered_kids(t.children, n, depth + 1, p));
    lemma_kids_newline_free(t.children, n);
    lemma_rendered_kids_count(t.children, n, depth + 1, p);
}

pub proof fn lemma_rendered_kids_count(cs: Seq<Tree>, i: int, depth: nat, p: Seq<bool>)
    requires
        0 <= i <= cs.len(),
        forall|j: int| 0 <= j < cs.len() ==> newline_free_names(#[trigger] cs[j]),
    ensures
        count_newlines(rendered_kids(cs, i, depth, p)) == kids_node_count(cs, i),
    decreases cs, i,
{
    if 0 < i {
        let last = (i - 1 == cs.len() - 1);
        lemma_rendered_kids_count(cs, i - 1, depth, p);
        assert(decreases_to!(cs => cs[i - 1]));
        lemma_render_line_count(cs[i - 1], depth, last, p.push(last));
        lemma_count_newlines_add(
            rendered_kids(cs, i - 1, depth, p),
            render_tree(cs[i - 1], depth, last, p.push(last)),
        );
    }
}

/// Rendering is deterministic and performs no mutation: two renderings of
/// one tree with the same arguments are the very same text, so rendering an
/// unchanged tree twice gives equal strings.
pub proof fn lemma_render_deterministic(
    t: Tree,
    depth: nat,
    is_last: bool,
    p: Seq<bool>,
    r1: Seq<char>,
    r2: Seq<char>,
)
    requires
        r1 == render_tree(t, depth, is_last, p),
        r2 == render_tree(t, depth, is_last, p),
    ensures
        r1 == r2,
{
}

} // verus!
