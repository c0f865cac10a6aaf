//! The operations on a scene as functions of its model, and the proofs that
//! each keeps a well-formed scene well formed.

use vstd::prelude::*;
use crate::ids::{
    without, lemma_without_contains, lemma_without_no_duplicates, lemma_push_contains,
    lemma_push_no_duplicates,
};
use crate::node::{NodeId, NodeView};
use crate::tree::SceneView;

verus! {

impl SceneView {
    /// The empty scene, whose first free id is 1.
    pub open spec fn empty() -> SceneView {
        SceneView { nodes: Map::empty(), roots: Seq::empty(), next_id: 1 }
    }

    /// The empty scene is well formed.
    pub proof fn lemma_empty_wf()
        ensures
            Self::empty().wf(),
    {
        let s = Self::empty();
        let rank = |id: NodeId| 0nat;
        assert(s.ranked(rank, 0));
    }

    /// Whether a node can be inserted: an id is left, and the parent that the
    /// node names, if it names one, exists.
    pub open spec fn can_insert(self, node: NodeView) -> bool {
        &&& self.next_id < u64::MAX
        &&& match node.parent {
            None => true,
            Some(p) => self.contains(p),
        }
    }

    /// The node as it is stored: under the next free id, and without children.
    pub open spec fn fresh(self, node: NodeView) -> NodeView {
        NodeView { id: self.next_id, children: Seq::empty(), ..node }
    }

    /// The scene after the insertion of a node: the node is stored under the
    /// next free id and appended to the children of the parent it names, or to
    /// the roots if it names none. Where the node cannot be inserted the scene
    /// stays as it is.
    pub open spec fn inserted(self, node: NodeView) -> SceneView {
        let id = self.next_id;
        if !self.can_insert(node) {
            self
        } else {
            match node.parent {
                None => SceneView {
                    nodes: self.nodes.insert(id, self.fresh(node)),
                    roots: self.roots.push(id),
                    next_id: (id + 1) as NodeId,
                },
                Some(p) => SceneView {
                    nodes: self.nodes.insert(
                        p,
                        NodeView { children: self.children(p).push(id), ..self.nodes[p] },
                    ).insert(id, self.fresh(node)),
                    roots: self.roots,
                    next_id: (id + 1) as NodeId,
                },
            }
        }
    }

    /// No list of a well-formed scene holds an id that names no node.
    pub proof fn lemma_absent_unlisted(self, id: NodeId)
        requires
            self.wf(),
            !self.contains(id),
        ensures
            !self.roots.contains(id),
            forall|p: NodeId| self.contains(p) ==> !(#[trigger] self.children(p)).contains(id),
    {
        if self.roots.contains(id) {
            let k = choose|k: int| 0 <= k < self.roots.len() && self.roots[k] == id;
            assert(self.contains(self.roots[k]));
        }
        assert forall|p: NodeId| self.contains(p) implies !(#[trigger] self.children(p)).contains(
            id,
        ) by {
            if self.children(p).contains(id) {
                let k = choose|k: int| 0 <= k < self.children(p).len() && self.children(p)[k] == id;
                assert(self.contains(self.children(p)[k]));
            }
        }
    }

    /// Insertion keeps a scene well formed.
    pub proof fn lemma_inserted_wf(self, node: NodeView)
        requires
            self.wf(),
        ensures
            self.inserted(node).wf(),
    {
        if self.can_insert(node) {
            let id = self.next_id;
            let t = self.inserted(node);
            assert(!self.contains(id));
            self.lemma_absent_unlisted(id);
            let (rank, bound) = choose|rank: spec_fn(NodeId) -> nat, bound: nat|
                self.ranked(rank, bound);
            assert(self.ranked(rank, bound));
            match node.parent {
                None => {
                    assert(t.ids_ok()) by {
                        assert forall|x: NodeId| #[trigger] t.contains(x) implies t.nodes[x].id == x
                            && 0 < x < t.next_id by {
                            if x != id {
                                assert(self.contains(x));
                            }
                        }
                    }
                    assert(t.roots_ok()) by {
                        assert forall|k: int| 0 <= k < t.roots.len() implies t.contains(
                            #[trigger] t.roots[k],
                        ) && t.parent(t.roots[k]) is None by {
                            if k < self.roots.len() {
                                assert(self.contains(self.roots[k]));
                            }
                        }
                        assert forall|i: int, j: int|
                            0 <= i < t.roots.len() && 0 <= j < t.roots.len() && i != j implies t.roots[i]
                            != t.roots[j] by {
                            if i < self.roots.len() {
                                assert(self.roots.contains(self.roots[i]));
                            }
                            if j < self.roots.len() {
                                assert(self.roots.contains(self.roots[j]));
                            }
                        }
                    }
                    assert(t.children_ok()) by {
                        assert forall|p: NodeId| #[trigger] t.contains(p) implies t.children(
                            p,
                        ).no_duplicates() by {
                            if p != id {
                                assert(self.contains(p));
                            }
                        }
                        assert forall|p: NodeId, k: int|
                            t.contains(p) && 0 <= k < t.children(p).len() implies t.contains(
                            #[trigger] t.children(p)[k],
                        ) && t.parent(t.children(p)[k]) == Some(p) by {
                            assert(self.contains(p));
                            assert(self.contains(self.children(p)[k]));
                        }
                    }
                    assert(t.parents_ok()) by {
                        assert forall|x: NodeId| #[trigger] t.contains(x) implies match t.parent(x) {
                            None => t.roots.contains(x),
                            Some(p) => t.contains(p) && t.children(p).contains(x),
                        } by {
                            if x == id {
                                assert(t.roots[self.roots.len() as int] == id);
                            } else {
                                assert(self.contains(x));
                                match self.parent(x) {
                                    None => {
                                        let k = choose|k: int|
                                            0 <= k < self.roots.len() && self.roots[k] == x;
                                        assert(t.roots[k] == x);
                                    },
                                    Some(p) => {},
                                }
                            }
                        }
                    }
                    assert(t.ranked(rank, bound)) by {
                        assert forall|p: NodeId, k: int|
                            t.contains(p) && 0 <= k < t.children(p).len() implies rank(p) < rank(
                            #[trigger] t.children(p)[k],
                        ) by {
                            assert(self.contains(p));
                            assert(rank(p) < rank(self.children(p)[k]));
                        }
                    }
                },
                Some(q) => {
                    let r2 = |x: NodeId| if x == id { (rank(q) + 1) as nat } else { rank(x) };
                    let b2 = bound + 1;
                    assert(t.ids_ok()) by {
                        assert forall|x: NodeId| #[trigger] t.contains(x) implies t.nodes[x].id == x
                            && 0 < x < t.next_id by {
                            if x != id {
                                assert(self.contains(x));
                            }
                        }
                    }
                    assert(t.roots_ok()) by {
                        assert forall|k: int| 0 <= k < t.roots.len() implies t.contains(
                            #[trigger] t.roots[k],
                        ) && t.parent(t.roots[k]) is None by {
                            assert(self.contains(self.roots[k]));
                        }
                    }
                    assert(t.children_ok()) by {
                        assert forall|p: NodeId| #[trigger] t.contains(p) implies t.children(
                            p,
                        ).no_duplicates() by {
                            if p == id {
                            } else if p == q {
                                let c = self.children(q);
                                assert(c.no_duplicates());
                                assert forall|i: int, j: int|
                                    0 <= i < c.len() + 1 && 0 <= j < c.len() + 1 && i != j implies c.push(
                                    id,
                                )[i] != c.push(id)[j] by {
                                    if i < c.len() {
                                        assert(c.contains(c[i]));
                                    }
                                    if j < c.len() {
                                        assert(c.contains(c[j]));
                                    }
                                }
                            } else {
                                assert(self.contains(p));
                            }
                        }
                        assert forall|p: NodeId, k: int|
                            t.contains(p) && 0 <= k < t.children(p).len() implies t.contains(
                            #[trigger] t.children(p)[k],
                        ) && t.parent(t.children(p)[k]) == Some(p) by {
                            assert(self.contains(p));
                            if p == q && k == self.children(q).len() {
                            } else {
                                assert(self.contains(self.children(p)[k]));
                                assert(self.children(p)[k] != id);
                            }
                        }
                    }
                    assert(t.parents_ok()) by {
                        assert forall|x: NodeId| #[trigger] t.contains(x) implies match t.parent(x) {
                            None => t.roots.contains(x),
                            Some(p) => t.contains(p) && t.children(p).contains(x),
                        } by {
                            if x == id {
                                assert(t.children(q)[self.children(q).len() as int] == id);
                            } else {
                                assert(self.contains(x));
                                match self.parent(x) {
                                    None => {},
                                    Some(p) => {
                                        let k = choose|k: int|
                                            0 <= k < self.children(p).len() && self.children(p)[k]
                                                == x;
                                        assert(t.children(p)[k] == x);
                                    },
                                }
                            }
                        }
                    }
                    assert(t.ranked(r2, b2)) by {
                        assert forall|x: NodeId| #[trigger] r2(x) <= b2 by {
                            assert(rank(x) <= bound);
                            assert(rank(q) <= bound);
                        }
                        assert forall|p: NodeId, k: int|
                            t.contains(p) && 0 <= k < t.children(p).len() implies r2(p) < r2(
                            #[trigger] t.children(p)[k],
                        ) by {
                            assert(self.contains(p));
                            if p == q && k == self.children(q).len() {
                            } else {
                                assert(self.contains(self.children(p)[k]));
                                assert(rank(p) < rank(self.children(p)[k]));
                            }
                        }
                    }
                },
            }
        }
    }

    /// The scene after the removal of a node: the node and its descendants
    /// are gone, the node is gone from the list that held it, and nothing
    /// else has changed. An id that names no node removes nothing.
    pub open spec fn removed(self, id: NodeId) -> SceneView {
        if !self.contains(id) {
            self
        } else {
            SceneView {
                nodes: Map::new(
                    |x: NodeId| self.contains(x) && !self.in_subtree(id, x),
                    |x: NodeId|
                        if self.parent(id) == Some(x) {
                            NodeView { children: without(self.children(x), id), ..self.nodes[x] }
                        } else {
                            self.nodes[x]
                        },
                ),
                roots: without(self.roots, id),
                next_id: self.next_id,
            }
        }
    }

    /// A child list holds each of its members at some position.
    pub proof fn lemma_child_at(self, p: NodeId, c: NodeId) -> (k: int)
        requires
            self.children(p).contains(c),
        ensures
            0 <= k < self.children(p).len(),
            self.children(p)[k] == c,
    {
        choose|k: int| 0 <= k < self.children(p).len() && self.children(p)[k] == c
    }

    /// Removal keeps a scene well formed.
    pub proof fn lemma_removed_wf(self, id: NodeId)
        requires
            self.wf(),
        ensures
            self.removed(id).wf(),
    {
        if self.contains(id) {
            let t = self.removed(id);
            self.lemma_subtree_first(id);
            let (rank, bound) = choose|rank: spec_fn(NodeId) -> nat, bound: nat|
                self.ranked(rank, bound);
            assert(self.ranked(rank, bound));
            // What a child list of the new scene holds, the old one held, and it is not `id`.
            assert forall|p: NodeId, c: NodeId|
                t.contains(p) && (#[trigger] t.children(p).contains(c)) implies self.children(
                p,
            ).contains(c) && c != id && t.contains(c) by {
                if self.parent(id) == Some(p) {
                    lemma_without_contains(self.children(p), id, c);
                }
                let k = self.lemma_child_at(p, c);
                assert(self.contains(self.children(p)[k]));
                assert(self.parent(c) == Some(p));
                if c == id {
                    assert(self.parent(id) == Some(p));
                }
                if self.in_subtree(id, c) {
                    self.lemma_subtree_parent_closed(id, c);
                }
            }
            assert(t.ids_ok());
            assert(t.roots_ok()) by {
                lemma_without_no_duplicates(self.roots, id);
                assert forall|k: int| 0 <= k < t.roots.len() implies t.contains(
                    #[trigger] t.roots[k],
                ) && t.parent(t.roots[k]) is None by {
                    let r = t.roots[k];
                    assert(t.roots.contains(r));
                    lemma_without_contains(self.roots, id, r);
                    let j = choose|j: int| 0 <= j < self.roots.len() && self.roots[j] == r;
                    assert(self.contains(self.roots[j]));
                    if self.in_subtree(id, r) {
                        self.lemma_subtree_parent_closed(id, r);
                    }
                }
            }
            assert(t.children_ok()) by {
                assert forall|p: NodeId| #[trigger] t.contains(p) implies t.children(
                    p,
                ).no_duplicates() by {
                    assert(self.contains(p));
                    lemma_without_no_duplicates(self.children(p), id);
                }
                assert forall|p: NodeId, k: int|
                    t.contains(p) && 0 <= k < t.children(p).len() implies t.contains(
                    #[trigger] t.children(p)[k],
                ) && t.parent(t.children(p)[k]) == Some(p) by {
                    let c = t.children(p)[k];
                    assert(t.children(p).contains(c));
                    let j = self.lemma_child_at(p, c);
                    assert(self.contains(self.children(p)[j]));
                }
            }
            assert(t.parents_ok()) by {
                assert forall|x: NodeId| #[trigger] t.contains(x) implies match t.parent(x) {
                    None => t.roots.contains(x),
                    Some(p) => t.contains(p) && t.children(p).contains(x),
                } by {
                    assert(self.contains(x));
                    assert(x != id);
                    match self.parent(x) {
                        None => {
                            lemma_without_contains(self.roots, id, x);
                        },
                        Some(p) => {
                            let k = self.lemma_child_at(p, x);
                            if self.in_subtree(id, p) {
                                self.lemma_subtree_child_closed(id, p, k);
                            }
                            lemma_without_contains(self.children(p), id, x);
                        },
                    }
                }
            }
            assert(t.ranked(rank, bound)) by {
                assert forall|p: NodeId, k: int|
                    t.contains(p) && 0 <= k < t.children(p).len() implies rank(p) < rank(
                    #[trigger] t.children(p)[k],
                ) by {
                    let c = t.children(p)[k];
                    assert(t.children(p).contains(c));
                    let j = self.lemma_child_at(p, c);
                    assert(rank(p) < rank(self.children(p)[j]));
                }
            }
        }
    }

    /// Removal takes away the node and its descendants and nothing else: a
    /// node stays exactly if it is not among them, and stays as it was, but
    /// that the parent of the removed node lists it no more.
    pub proof fn lemma_removed_exact(self, id: NodeId, x: NodeId)
        requires
            self.wf(),
            self.contains(id),
        ensures
            self.removed(id).contains(x) <==> (self.contains(x) && !self.in_subtree(id, x)),
            !self.removed(id).contains(id),
            self.removed(id).contains(x) && self.parent(id) != Some(x) ==> self.removed(
                id,
            ).nodes[x] == self.nodes[x],
            self.removed(id).contains(x) && self.parent(id) == Some(x) ==> self.removed(
                id,
            ).nodes[x] == (NodeView {
                children: without(self.children(x), id),
                ..self.nodes[x]
            }),
    {
        self.lemma_subtree_first(id);
    }

    /// Whether two nodes have the same id, parent and children.
    pub open spec fn same_links(a: NodeView, b: NodeView) -> bool {
        a.id == b.id && a.parent == b.parent && a.children == b.children
    }

    /// The scene with one node replaced.
    pub open spec fn with_node(self, id: NodeId, n: NodeView) -> SceneView {
        SceneView { nodes: self.nodes.insert(id, n), ..self }
    }

    /// Replacing a node by one with the same id, parent and children keeps a
    /// scene well formed.
    pub proof fn lemma_with_node_wf(self, id: NodeId, n: NodeView)
        requires
            self.wf(),
            self.contains(id),
            Self::same_links(self.nodes[id], n),
        ensures
            self.with_node(id, n).wf(),
    {
        let t = self.with_node(id, n);
        let (rank, bound) = choose|rank: spec_fn(NodeId) -> nat, bound: nat|
            self.ranked(rank, bound);
        assert(self.ranked(rank, bound));
        assert forall|p: NodeId| t.contains(p) == self.contains(p) && t.children(p)
            == self.children(p) && t.parent(p) == self.parent(p) by {}
        assert(t.ids_ok()) by {
            assert forall|x: NodeId| #[trigger] t.contains(x) implies t.nodes[x].id == x && 0 < x
                < t.next_id by {
                assert(self.contains(x));
            }
        }
        assert(t.roots_ok()) by {
            assert forall|k: int| 0 <= k < t.roots.len() implies t.contains(#[trigger] t.roots[k])
                && t.parent(t.roots[k]) is None by {
                assert(self.contains(self.roots[k]));
            }
        }
        assert(t.children_ok()) by {
            assert forall|p: NodeId| #[trigger] t.contains(p) implies t.children(
                p,
            ).no_duplicates() by {
                assert(self.contains(p));
            }
            assert forall|p: NodeId, k: int|
                t.contains(p) && 0 <= k < t.children(p).len() implies t.contains(
                #[trigger] t.children(p)[k],
            ) && t.parent(t.children(p)[k]) == Some(p) by {
                assert(self.contains(self.children(p)[k]));
            }
        }
        assert(t.parents_ok()) by {
            assert forall|x: NodeId| #[trigger] t.contains(x) implies match t.parent(x) {
                None => t.roots.contains(x),
                Some(p) => t.contains(p) && t.children(p).contains(x),
            } by {
                assert(self.contains(x));
            }
        }
        assert(t.ranked(rank, bound)) by {
            assert forall|p: NodeId, k: int|
                t.contains(p) && 0 <= k < t.children(p).len() implies rank(p) < rank(
                #[trigger] t.children(p)[k],
            ) by {
                assert(rank(p) < rank(self.children(p)[k]));
            }
        }
    }

    /// Whether a node can be moved under a new parent, or among the roots:
    /// the node exists, and the new parent exists and is neither the node nor
    /// one of its descendants.
    pub open spec fn can_reparent(self, id: NodeId, new_parent: Option<NodeId>) -> bool {
        &&& self.contains(id)
        &&& match new_parent {
            None => true,
            Some(p) => self.contains(p) && !self.in_subtree(id, p),
        }
    }

    /// The child list of `x` after `id` has left the list that held it.
    pub open spec fn children_after_detach(self, id: NodeId, x: NodeId) -> Seq<NodeId> {
        if self.parent(id) == Some(x) {
            without(self.children(x), id)
        } else {
            self.children(x)
        }
    }

    /// The roots after `id` has left the list that held it.
    pub open spec fn roots_after_detach(self, id: NodeId) -> Seq<NodeId> {
        if self.parent(id) is None {
            without(self.roots, id)
        } else {
            self.roots
        }
    }

    /// The scene after a node has moved: it has left the list that held it,
    /// stands at the end of the children of its new parent, or of the roots
    /// where it has none, and names that parent. Where the node cannot be
    /// moved the scene stays as it is.
    pub open spec fn reparented(self, id: NodeId, new_parent: Option<NodeId>) -> SceneView {
        if !self.can_reparent(id, new_parent) {
            self
        } else {
            SceneView {
                nodes: Map::new(
                    |x: NodeId| self.contains(x),
                    |x: NodeId|
                        NodeView {
                            parent: if x == id {
                                new_parent
                            } else {
                                self.parent(x)
                            },
                            children: if new_parent == Some(x) {
                                self.children_after_detach(id, x).push(id)
                            } else {
                                self.children_after_detach(id, x)
                            },
                            ..self.nodes[x]
                        },
                ),
                roots: if new_parent is None {
                    self.roots_after_detach(id).push(id)
                } else {
                    self.roots_after_detach(id)
                },
                next_id: self.next_id,
            }
        }
    }

    /// Moving a node keeps a scene well formed.
    pub proof fn lemma_reparented_wf(self, id: NodeId, new_parent: Option<NodeId>)
        requires
            self.wf(),
        ensures
            self.reparented(id, new_parent).wf(),
    {
        if self.can_reparent(id, new_parent) {
            let t = self.reparented(id, new_parent);
            self.lemma_subtree_first(id);
            let (rank, bound) = choose|rank: spec_fn(NodeId) -> nat, bound: nat|
                self.ranked(rank, bound);
            assert(self.ranked(rank, bound));
            let r2 = |x: NodeId|
                if self.in_subtree(id, x) {
                    (rank(x) + bound + 1) as nat
                } else {
                    rank(x)
                };
            let b2 = 2 * bound + 1;
            // What a child list of the new scene holds.
            assert forall|p: NodeId, c: NodeId| self.contains(p) implies ((#[trigger] t.children(
                p,
            ).contains(c)) <==> ((c == id && new_parent == Some(p)) || (c != id
                && self.children(p).contains(c)))) by {
                let d = self.children_after_detach(id, p);
                lemma_without_contains(self.children(p), id, c);
                lemma_push_contains(d, id, c);
                if self.children(p).contains(id) {
                    let k = self.lemma_child_at(p, id);
                    assert(self.parent(self.children(p)[k]) == Some(p));
                }
            }
            assert forall|p: NodeId| self.contains(p) implies (#[trigger] t.children(
                p,
            )).no_duplicates() by {
                let d = self.children_after_detach(id, p);
                lemma_without_no_duplicates(self.children(p), id);
                lemma_without_contains(self.children(p), id, id);
                if self.children(p).contains(id) {
                    let k = self.lemma_child_at(p, id);
                    assert(self.parent(self.children(p)[k]) == Some(p));
                }
                if new_parent == Some(p) {
                    lemma_push_no_duplicates(d, id);
                }
            }
            assert forall|c: NodeId| ((#[trigger] t.roots.contains(c)) <==> ((c == id
                && new_parent is None) || (c != id && self.roots.contains(c)))) by {
                let d = self.roots_after_detach(id);
                lemma_without_contains(self.roots, id, c);
                lemma_push_contains(d, id, c);
                if self.roots.contains(id) {
                    let k = choose|k: int| 0 <= k < self.roots.len() && self.roots[k] == id;
                    assert(self.parent(self.roots[k]) is None);
                }
            }
            assert(t.roots.no_duplicates()) by {
                let d = self.roots_after_detach(id);
                lemma_without_no_duplicates(self.roots, id);
                lemma_without_contains(self.roots, id, id);
                if self.roots.contains(id) {
                    let k = choose|k: int| 0 <= k < self.roots.len() && self.roots[k] == id;
                    assert(self.parent(self.roots[k]) is None);
                }
                if new_parent is None {
                    lemma_push_no_duplicates(d, id);
                }
            }
            assert(t.ids_ok());
            assert(t.roots_ok()) by {
                assert forall|k: int| 0 <= k < t.roots.len() implies t.contains(
                    #[trigger] t.roots[k],
                ) && t.parent(t.roots[k]) is None by {
                    let r = t.roots[k];
                    assert(t.roots.contains(r));
                    if r != id {
                        let j = choose|j: int| 0 <= j < self.roots.len() && self.roots[j] == r;
                        assert(self.contains(self.roots[j]));
                    }
                }
            }
            assert(t.children_ok()) by {
                assert forall|p: NodeId, k: int|
                    t.contains(p) && 0 <= k < t.children(p).len() implies t.contains(
                    #[trigger] t.children(p)[k],
                ) && t.parent(t.children(p)[k]) == Some(p) by {
                    let c = t.children(p)[k];
                    assert(t.children(p).contains(c));
                    if c != id {
                        let j = self.lemma_child_at(p, c);
                        assert(self.contains(self.children(p)[j]));
                    }
                }
            }
            assert(t.parents_ok()) by {
                assert forall|x: NodeId| #[trigger] t.contains(x) implies match t.parent(x) {
                    None => t.roots.contains(x),
                    Some(p) => t.contains(p) && t.children(p).contains(x),
                } by {
                    assert(self.contains(x));
                }
            }
            assert(t.ranked(r2, b2)) by {
                assert forall|x: NodeId| #[trigger] r2(x) <= b2 by {
                    assert(rank(x) <= bound);
                }
                assert forall|p: NodeId, k: int|
                    t.contains(p) && 0 <= k < t.children(p).len() implies r2(p) < r2(
                    #[trigger] t.children(p)[k],
                ) by {
                    let c = t.children(p)[k];
                    assert(t.children(p).contains(c));
                    if c == id {
                        assert(rank(p) <= bound);
                    } else {
                        let j = self.lemma_child_at(p, c);
                        assert(rank(p) < rank(self.children(p)[j]));
                        if self.in_subtree(id, p) {
                            self.lemma_subtree_child_closed(id, p, j);
                        }
                    }
                }
            }
        }
    }

    /// Whether another scene has the same roots and next free id, and the
    /// same nodes but for what is not their id, parent or children.
    pub open spec fn same_shape(self, t: SceneView) -> bool {
        &&& t.roots == self.roots
        &&& t.next_id == self.next_id
        &&& t.nodes.dom() == self.nodes.dom()
        &&& forall|x: NodeId| #[trigger]
            self.contains(x) ==> Self::same_links(self.nodes[x], t.nodes[x])
    }

    /// A scene of the same shape as a well-formed one is well formed.
    pub proof fn lemma_same_shape_wf(self, t: SceneView)
        requires
            self.wf(),
            self.same_shape(t),
        ensures
            t.wf(),
    {
        let (rank, bound) = choose|rank: spec_fn(NodeId) -> nat, bound: nat|
            self.ranked(rank, bound);
        assert(self.ranked(rank, bound));
        assert forall|p: NodeId|
            t.contains(p) == self.contains(p) && (self.contains(p) ==> t.children(p)
                == self.children(p) && t.parent(p) == self.parent(p) && t.nodes[p].id
                == self.nodes[p].id) by {
            assert(t.nodes.dom().contains(p) == self.nodes.dom().contains(p));
            if self.contains(p) {
                assert(Self::same_links(self.nodes[p], t.nodes[p]));
            }
        }
        assert(t.ids_ok()) by {
            assert forall|x: NodeId| #[trigger] t.contains(x) implies t.nodes[x].id == x && 0 < x
                < t.next_id by {
                assert(self.contains(x));
            }
        }
        assert(t.roots_ok()) by {
            assert forall|k: int| 0 <= k < t.roots.len() implies t.contains(#[trigger] t.roots[k])
                && t.parent(t.roots[k]) is None by {
                assert(self.contains(self.roots[k]));
            }
        }
        assert(t.children_ok()) by {
            assert forall|p: NodeId| #[trigger] t.contains(p) implies t.children(
                p,
            ).no_duplicates() by {
                assert(self.contains(p));
            }
            assert forall|p: NodeId, k: int|
                t.contains(p) && 0 <= k < t.children(p).len() implies t.contains(
                #[trigger] t.children(p)[k],
            ) && t.parent(t.children(p)[k]) == Some(p) by {
                assert(self.contains(self.children(p)[k]));
            }
        }
        assert(t.parents_ok()) by {
            assert forall|x: NodeId| #[trigger] t.contains(x) implies match t.parent(x) {
                None => t.roots.contains(x),
                Some(p) => t.contains(p) && t.children(p).contains(x),
            } by {
                assert(self.contains(x));
            }
        }
        assert(t.ranked(rank, bound)) by {
            assert forall|p: NodeId, k: int|
                t.contains(p) && 0 <= k < t.children(p).len() implies rank(p) < rank(
                #[trigger] t.children(p)[k],
            ) by {
                assert(rank(p) < rank(self.children(p)[k]));
            }
        }
    }
}

} // verus!
