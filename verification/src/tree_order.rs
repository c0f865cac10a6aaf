//! The render order of a forest holds every node, and holds it once.

use vstd::prelude::*;
use crate::node::NodeId;
use crate::tree::{lemma_concat_contains, SceneView};

verus! {

/// Two lists that share no id and hold none twice hold none twice together.
proof fn lemma_concat_no_duplicates(a: Seq<NodeId>, b: Seq<NodeId>)
    requires
        a.no_duplicates(),
        b.no_duplicates(),
        forall|x: NodeId| !(a.contains(x) && b.contains(x)),
    ensures
        (a + b).no_duplicates(),
{
    assert forall|i: int, j: int| 0 <= i < (a + b).len() && 0 <= j < (a + b).len() && i != j implies (
    a + b)[i] != (a + b)[j] by {
        if i < a.len() && j >= a.len() {
            assert(a.contains(a[i]));
            assert(b.contains(b[j - a.len()]));
        } else if j < a.len() && i >= a.len() {
            assert(a.contains(a[j]));
            assert(b.contains(b[i - a.len()]));
        }
    }
}

impl SceneView {
    /// What lies in the subtrees of a list of ids lies in the subtree of one
    /// of them.
    pub proof fn lemma_forest_member(self, ids: Seq<NodeId>, x: NodeId)
        ensures
            self.forest(ids).contains(x) <==> exists|j: int|
                0 <= j < ids.len() && #[trigger] self.in_subtree(ids[j], x),
        decreases ids.len(),
    {
        if ids.len() == 0 {
        } else {
            let a = self.subtree(ids[0]);
            let rest = ids.skip(1);
            lemma_concat_contains(a, self.forest(rest), x);
            self.lemma_forest_member(rest, x);
            if self.forest(ids).contains(x) {
                if a.contains(x) {
                    assert(self.in_subtree(ids[0], x));
                } else {
                    let j = choose|j: int|
                        0 <= j < rest.len() && #[trigger] self.in_subtree(rest[j], x);
                    assert(self.in_subtree(ids[j + 1], x));
                }
            }
            if exists|j: int| 0 <= j < ids.len() && #[trigger] self.in_subtree(ids[j], x) {
                let j = choose|j: int| 0 <= j < ids.len() && #[trigger] self.in_subtree(ids[j], x);
                if j > 0 {
                    assert(self.in_subtree(rest[j - 1], x));
                }
            }
        }
    }

    /// The render order of a well-formed scene holds each of its nodes: no
    /// node is an orphan.
    pub proof fn lemma_order_complete(self, x: NodeId)
        requires
            self.wf(),
            self.contains(x),
        ensures
            self.order().contains(x),
    {
        let (rank, bound) = choose|rank: spec_fn(NodeId) -> nat, bound: nat|
            self.ranked(rank, bound);
        assert(self.ranked(rank, bound));
        self.lemma_order_complete_ranked(rank, bound, x);
    }

    proof fn lemma_order_complete_ranked(self, rank: spec_fn(NodeId) -> nat, bound: nat, x: NodeId)
        requires
            self.wf(),
            self.ranked(rank, bound),
            self.contains(x),
        ensures
            self.order().contains(x),
        decreases rank(x),
    {
        self.lemma_forest_member(self.roots, x);
        match self.parent(x) {
            None => {
                let j = choose|j: int| 0 <= j < self.roots.len() && self.roots[j] == x;
                self.lemma_subtree_first(x);
                assert(self.in_subtree(self.roots[j], x));
            },
            Some(p) => {
                let k = self.lemma_child_at(p, x);
                assert(rank(p) < rank(self.children(p)[k]));
                self.lemma_order_complete_ranked(rank, bound, p);
                self.lemma_forest_member(self.roots, p);
                let j = choose|j: int|
                    0 <= j < self.roots.len() && #[trigger] self.in_subtree(self.roots[j], p);
                self.lemma_subtree_child_closed(self.roots[j], p, k);
                assert(self.in_subtree(self.roots[j], x));
            },
        }
    }

    /// The render order holds nodes of the scene only.
    pub proof fn lemma_order_sound(self, x: NodeId)
        requires
            self.wf(),
            self.order().contains(x),
        ensures
            self.contains(x),
    {
        self.lemma_forest_member(self.roots, x);
        let j = choose|j: int|
            0 <= j < self.roots.len() && #[trigger] self.in_subtree(self.roots[j], x);
        assert(self.contains(self.roots[j]));
        self.lemma_subtree_within_scene(self.roots[j], x);
    }

    /// Of two subtrees that share a node, one holds the root of the other.
    pub proof fn lemma_shared_node(self, a: NodeId, b: NodeId, x: NodeId)
        requires
            self.wf(),
            self.in_subtree(a, x),
            self.in_subtree(b, x),
        ensures
            self.in_subtree(a, b) || self.in_subtree(b, a),
    {
        let (rank, bound) = choose|rank: spec_fn(NodeId) -> nat, bound: nat|
            self.ranked(rank, bound);
        assert(self.ranked(rank, bound));
        self.lemma_shared_node_ranked(rank, bound, a, b, x);
    }

    proof fn lemma_shared_node_ranked(
        self,
        rank: spec_fn(NodeId) -> nat,
        bound: nat,
        a: NodeId,
        b: NodeId,
        x: NodeId,
    )
        requires
            self.wf(),
            self.ranked(rank, bound),
            self.in_subtree(a, x),
            self.in_subtree(b, x),
        ensures
            self.in_subtree(a, b) || self.in_subtree(b, a),
        decreases rank(x),
    {
        if x == a || x == b {
        } else {
            self.lemma_subtree_parent_closed(a, x);
            self.lemma_subtree_parent_closed(b, x);
            let p = self.parent(x).unwrap();
            assert(self.contains(p) && self.children(p).contains(x));
            let k = self.lemma_child_at(p, x);
            assert(rank(p) < rank(self.children(p)[k]));
            self.lemma_shared_node_ranked(rank, bound, a, b, p);
        }
    }

    /// The subtrees of two nodes that are listed in one list, at different
    /// places, share no node.
    proof fn lemma_listed_apart(self, a: NodeId, b: NodeId, x: NodeId)
        requires
            self.wf(),
            self.contains(a),
            self.contains(b),
            a != b,
            self.parent(a) == self.parent(b),
        ensures
            !(self.in_subtree(a, x) && self.in_subtree(b, x)),
    {
        if self.in_subtree(a, x) && self.in_subtree(b, x) {
            self.lemma_shared_node(a, b, x);
            if self.in_subtree(a, b) {
                self.lemma_below_has_other_parent(a, b);
            } else {
                self.lemma_below_has_other_parent(b, a);
            }
        }
    }

    /// A node below another in its subtree does not name the parent of the
    /// other as its own.
    proof fn lemma_below_has_other_parent(self, a: NodeId, b: NodeId)
        requires
            self.wf(),
            self.contains(a),
            self.in_subtree(a, b),
            a != b,
        ensures
            self.parent(a) != self.parent(b),
    {
        self.lemma_subtree_parent_closed(a, b);
        let p = self.parent(b).unwrap();
        if self.parent(a) == Some(p) {
            // The parent of `a` would lie in the subtree of `a`.
            self.lemma_parent_outside_child(p, a);
        }
    }

    /// A subtree of a well-formed scene holds no node twice.
    pub proof fn lemma_subtree_no_duplicates(self, id: NodeId)
        requires
            self.wf(),
        ensures
            self.subtree(id).no_duplicates(),
        decreases self.height(id), 1nat, 0nat,
    {
        if self.contains(id) {
            self.lemma_kids_no_duplicates(id, 0);
            let kids = self.kids_from(id, 0);
            assert forall|x: NodeId| !(seq![id].contains(x) && kids.contains(x)) by {
                if seq![id].contains(x) && kids.contains(x) {
                    assert(x == id);
                    self.lemma_kids_member(id, 0, id);
                    let j = choose|j: int|
                        0 <= j < self.children(id).len() && #[trigger] self.in_subtree(
                            self.children(id)[j],
                            id,
                        );
                    let c = self.children(id)[j];
                    assert(self.contains(c) && self.parent(c) == Some(id));
                    self.lemma_parent_outside_child(id, c);
                }
            }
            lemma_concat_no_duplicates(seq![id], kids);
        }
    }

    /// The subtrees of the children of a node from the `k`-th on hold no node
    /// twice.
    proof fn lemma_kids_no_duplicates(self, id: NodeId, k: int)
        requires
            self.wf(),
            self.contains(id),
            0 <= k,
        ensures
            self.kids_from(id, k).no_duplicates(),
        decreases self.height(id), 0nat, self.children(id).len() - k,
    {
        if k < self.children(id).len() {
            let c = self.children(id)[k];
            self.lemma_height(id, k);
            self.lemma_subtree_no_duplicates(c);
            self.lemma_kids_no_duplicates(id, k + 1);
            let a = self.subtree(c);
            let b = self.kids_from(id, k + 1);
            assert forall|x: NodeId| !(a.contains(x) && b.contains(x)) by {
                if a.contains(x) && b.contains(x) {
                    self.lemma_kids_member(id, k + 1, x);
                    let j = choose|j: int|
                        k + 1 <= j < self.children(id).len() && #[trigger] self.in_subtree(
                            self.children(id)[j],
                            x,
                        );
                    let d = self.children(id)[j];
                    assert(self.contains(c) && self.parent(c) == Some(id));
                    assert(self.contains(d) && self.parent(d) == Some(id));
                    assert(c != d);
                    self.lemma_listed_apart(c, d, x);
                }
            }
            lemma_concat_no_duplicates(a, b);
        }
    }

    /// The subtrees of the roots from a place on hold no node twice.
    proof fn lemma_forest_no_duplicates(self, from: int)
        requires
            self.wf(),
            0 <= from <= self.roots.len(),
        ensures
            self.forest(self.roots.skip(from)).no_duplicates(),
        decreases self.roots.len() - from,
    {
        let ids = self.roots.skip(from);
        if ids.len() > 0 {
            let c = ids[0];
            assert(c == self.roots[from]);
            assert(ids.skip(1) =~= self.roots.skip(from + 1));
            self.lemma_subtree_no_duplicates(c);
            self.lemma_forest_no_duplicates(from + 1);
            let a = self.subtree(c);
            let b = self.forest(ids.skip(1));
            assert forall|x: NodeId| !(a.contains(x) && b.contains(x)) by {
                if a.contains(x) && b.contains(x) {
                    self.lemma_forest_member(ids.skip(1), x);
                    let j = choose|j: int|
                        0 <= j < ids.skip(1).len() && #[trigger] self.in_subtree(
                            ids.skip(1)[j],
                            x,
                        );
                    let d = ids.skip(1)[j];
                    assert(d == self.roots[from + 1 + j]);
                    assert(self.contains(self.roots[from]) && self.parent(self.roots[from]) is None);
                    assert(self.contains(self.roots[from + 1 + j]) && self.parent(
                        self.roots[from + 1 + j],
                    ) is None);
                    assert(c != d);
                    self.lemma_listed_apart(c, d, x);
                }
            }
            lemma_concat_no_duplicates(a, b);
        }
    }

    /// The render order of a well-formed scene holds no node twice: each node
    /// is reached from one place only.
    pub proof fn lemma_order_no_duplicates(self)
        requires
            self.wf(),
        ensures
            self.order().no_duplicates(),
    {
        assert(self.roots.skip(0) =~= self.roots);
        self.lemma_forest_no_duplicates(0);
    }

    /// In two scenes of the same shape a node has the same subtree.
    pub proof fn lemma_same_shape_subtree(self, t: SceneView, id: NodeId)
        requires
            self.wf(),
            self.same_shape(t),
        ensures
            t.subtree(id) == self.subtree(id),
        decreases self.height(id), 1nat, 0nat,
    {
        self.lemma_same_shape_wf(t);
        assert(t.contains(id) == self.contains(id)) by {
            assert(t.nodes.dom().contains(id) == self.nodes.dom().contains(id));
        }
        if self.contains(id) {
            self.lemma_same_shape_kids(t, id, 0);
        }
    }

    /// In two scenes of the same shape the children of a node have the same
    /// subtrees.
    proof fn lemma_same_shape_kids(self, t: SceneView, id: NodeId, k: int)
        requires
            self.wf(),
            t.wf(),
            self.same_shape(t),
            self.contains(id),
            t.contains(id),
            0 <= k,
        ensures
            t.kids_from(id, k) == self.kids_from(id, k),
        decreases self.height(id), 0nat, self.children(id).len() - k,
    {
        assert(Self::same_links(self.nodes[id], t.nodes[id]));
        if k < self.children(id).len() {
            self.lemma_height(id, k);
            self.lemma_same_shape_subtree(t, self.children(id)[k]);
            self.lemma_same_shape_kids(t, id, k + 1);
        }
    }

    /// In two scenes of the same shape a list of ids has the same subtrees.
    proof fn lemma_same_shape_forest(self, t: SceneView, ids: Seq<NodeId>)
        requires
            self.wf(),
            self.same_shape(t),
        ensures
            t.forest(ids) == self.forest(ids),
        decreases ids.len(),
    {
        if ids.len() > 0 {
            self.lemma_same_shape_subtree(t, ids[0]);
            self.lemma_same_shape_forest(t, ids.skip(1));
        }
    }

    /// Two scenes of the same shape have the same render order: what changes
    /// no id, parent or child list changes no place in the order.
    pub proof fn lemma_same_shape_order(self, t: SceneView)
        requires
            self.wf(),
            self.same_shape(t),
        ensures
            t.order() == self.order(),
    {
        self.lemma_same_shape_forest(t, self.roots);
    }
}

} // verus!
