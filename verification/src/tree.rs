//! The mathematical model of a scene: a forest of nodes held by id.
//!
//! A scene is a map from ids to nodes, a list of roots and the next free id.
//! Each node names its parent and lists its children. The scene is well formed
//! when these agree, nothing occurs twice in a list, and no node is its own
//! ancestor.

use vstd::prelude::*;
use crate::deep::listed;
use crate::node::{NodeId, NodeView};
use crate::types::{Point, Rect};

verus! {

/// A scene as a value of mathematics.
pub struct SceneView {
    pub nodes: Map<NodeId, NodeView>,
    pub roots: Seq<NodeId>,
    pub next_id: NodeId,
}

/// A scene as it is written out: its nodes as a list, its roots, and the next
/// free id.
pub struct SceneDataView {
    pub nodes: Seq<NodeView>,
    pub root_children: Seq<NodeId>,
    pub next_id: NodeId,
}

/// The nodes of a list by their ids; of two nodes with one id the later.
pub open spec fn node_map(nodes: Seq<NodeView>) -> Map<NodeId, NodeView>
    decreases nodes.len(),
{
    if nodes.len() == 0 {
        Map::empty()
    } else {
        node_map(nodes.drop_last()).insert(nodes.last().id, nodes.last())
    }
}

/// The map of a list of nodes holds exactly the ids of the nodes of the list.
pub proof fn lemma_node_map_dom(nodes: Seq<NodeView>, x: NodeId)
    ensures
        node_map(nodes).contains_key(x) <==> exists|i: int|
            0 <= i < nodes.len() && (#[trigger] nodes[i]).id == x,
    decreases nodes.len(),
{
    if nodes.len() > 0 {
        let rest = nodes.drop_last();
        lemma_node_map_dom(rest, x);
        if node_map(nodes).contains_key(x) {
            if nodes.last().id == x {
                assert(nodes[nodes.len() - 1].id == x);
            } else {
                let i = choose|i: int| 0 <= i < rest.len() && (#[trigger] rest[i]).id == x;
                assert(nodes[i].id == x);
            }
        }
        if exists|i: int| 0 <= i < nodes.len() && (#[trigger] nodes[i]).id == x {
            let i = choose|i: int| 0 <= i < nodes.len() && (#[trigger] nodes[i]).id == x;
            if i < rest.len() {
                assert(rest[i].id == x);
            }
        }
    }
}

impl SceneDataView {
    /// The scene that the data describe.
    pub open spec fn scene(self) -> SceneView {
        SceneView {
            nodes: node_map(self.nodes),
            roots: self.root_children,
            next_id: self.next_id,
        }
    }

    /// The data describe a well-formed scene.
    pub open spec fn valid(self) -> bool {
        self.scene().wf()
    }
}

impl SceneView {
    /// Whether the scene holds a node of this id.
    pub open spec fn contains(self, id: NodeId) -> bool {
        self.nodes.contains_key(id)
    }

    /// The child list of a node.
    pub open spec fn children(self, id: NodeId) -> Seq<NodeId> {
        self.nodes[id].children
    }

    /// The parent of a node.
    pub open spec fn parent(self, id: NodeId) -> Option<NodeId> {
        self.nodes[id].parent
    }

    /// Each node is held under its own id, and ids are positive and below the
    /// next free one.
    pub open spec fn ids_ok(self) -> bool {
        &&& 0 < self.next_id
        &&& forall|id: NodeId| #[trigger]
            self.contains(id) ==> self.nodes[id].id == id && 0 < id < self.next_id
    }

    /// Every root exists and names no parent, and no root occurs twice.
    pub open spec fn roots_ok(self) -> bool {
        &&& self.roots.no_duplicates()
        &&& forall|k: int|
            0 <= k < self.roots.len() ==> self.contains(#[trigger] self.roots[k])
                && self.parent(self.roots[k]) is None
    }

    /// Every child exists and names the node that lists it as its parent, and
    /// no child occurs twice in a list.
    pub open spec fn children_ok(self) -> bool {
        &&& forall|p: NodeId| #[trigger] self.contains(p) ==> self.children(p).no_duplicates()
        &&& forall|p: NodeId, k: int|
            self.contains(p) && 0 <= k < self.children(p).len() ==> self.contains(
                #[trigger] self.children(p)[k],
            ) && self.parent(self.children(p)[k]) == Some(p)
    }

    /// Every node is listed where its parent pointer says: among the roots if
    /// it names no parent, else among the children of its parent.
    pub open spec fn parents_ok(self) -> bool {
        forall|id: NodeId| #[trigger]
            self.contains(id) ==> match self.parent(id) {
                None => self.roots.contains(id),
                Some(p) => self.contains(p) && self.children(p).contains(id),
            }
    }

    /// A rank that grows from each node to its children and stays under a
    /// bound: it exists exactly when no node is its own ancestor.
    pub open spec fn ranked(self, rank: spec_fn(NodeId) -> nat, bound: nat) -> bool {
        &&& forall|id: NodeId| #[trigger] rank(id) <= bound
        &&& forall|p: NodeId, k: int|
            self.contains(p) && 0 <= k < self.children(p).len() ==> rank(p) < rank(
                #[trigger] self.children(p)[k],
            )
    }

    /// No node is its own ancestor.
    pub open spec fn acyclic(self) -> bool {
        exists|rank: spec_fn(NodeId) -> nat, bound: nat| self.ranked(rank, bound)
    }

    /// The scene is a forest: each node sits in exactly one list, the one its
    /// parent pointer names, and following parent pointers ends at a root.
    pub open spec fn wf(self) -> bool {
        &&& self.ids_ok()
        &&& self.roots_ok()
        &&& self.children_ok()
        &&& self.parents_ok()
        &&& self.acyclic()
    }

    /// A measure that falls from each node to its children.
    pub closed spec fn height(self, id: NodeId) -> nat {
        let (rank, bound) = choose|rank: spec_fn(NodeId) -> nat, bound: nat|
            self.ranked(rank, bound);
        (bound - rank(id)) as nat
    }

    /// A child is lower than its parent.
    pub proof fn lemma_height(self, p: NodeId, k: int)
        requires
            self.acyclic(),
            self.contains(p),
            0 <= k < self.children(p).len(),
        ensures
            self.height(self.children(p)[k]) < self.height(p),
    {
        let (rank, bound) = choose|rank: spec_fn(NodeId) -> nat, bound: nat|
            self.ranked(rank, bound);
        assert(self.ranked(rank, bound));
        assert(rank(p) < rank(self.children(p)[k]));
        assert(rank(self.children(p)[k]) <= bound);
    }

    /// A node followed by its descendants, depth first, each child list in its
    /// order. An id that names no node stands alone.
    pub open spec fn subtree(self, id: NodeId) -> Seq<NodeId>
        decreases self.height(id), 1nat, 0nat,
        when self.acyclic()
    {
        if self.contains(id) {
            seq![id] + self.kids_from(id, 0)
        } else {
            seq![id]
        }
    }

    /// The subtrees of the children of a node from the `k`-th on, one after
    /// the other.
    pub open spec fn kids_from(self, id: NodeId, k: int) -> Seq<NodeId>
        decreases self.height(id), 0nat, self.children(id).len() - k,
        when self.acyclic() && self.contains(id) && 0 <= k
    {
        if k >= self.children(id).len() {
            Seq::empty()
        } else {
            proof {
                self.lemma_height(id, k);
            }
            self.subtree(self.children(id)[k]) + self.kids_from(id, k + 1)
        }
    }

    /// The subtrees of a list of ids, one after the other.
    pub open spec fn forest(self, ids: Seq<NodeId>) -> Seq<NodeId>
        decreases ids.len(),
    {
        if ids.len() == 0 {
            Seq::empty()
        } else {
            self.subtree(ids[0]) + self.forest(ids.skip(1))
        }
    }

    /// The render order: every root followed by its descendants, depth first.
    /// Later in the order is nearer the viewer.
    pub open spec fn order(self) -> Seq<NodeId> {
        self.forest(self.roots)
    }

    /// Whether `x` is `root` or one of its descendants.
    pub open spec fn in_subtree(self, root: NodeId, x: NodeId) -> bool {
        self.subtree(root).contains(x)
    }

    /// A subtree begins with its root.
    pub proof fn lemma_subtree_first(self, id: NodeId)
        requires
            self.acyclic(),
        ensures
            self.subtree(id).len() > 0,
            self.subtree(id)[0] == id,
            self.in_subtree(id, id),
    {
        if self.contains(id) {
            assert(self.subtree(id) == seq![id] + self.kids_from(id, 0));
            assert(self.subtree(id)[0] == id);
        } else {
            assert(self.subtree(id)[0] == id);
        }
    }

    /// What lies in the subtrees of the children from the `k`-th on lies in
    /// the subtree of one of them.
    pub proof fn lemma_kids_member(self, id: NodeId, k: int, x: NodeId)
        requires
            self.acyclic(),
            self.contains(id),
            0 <= k,
        ensures
            self.kids_from(id, k).contains(x) <==> exists|j: int|
                k <= j < self.children(id).len() && #[trigger] self.in_subtree(
                    self.children(id)[j],
                    x,
                ),
        decreases self.children(id).len() - k,
    {
        if k >= self.children(id).len() {
            assert(self.kids_from(id, k) =~= Seq::empty());
        } else {
            let a = self.subtree(self.children(id)[k]);
            let b = self.kids_from(id, k + 1);
            assert(self.kids_from(id, k) == a + b);
            lemma_concat_contains(a, b, x);
            self.lemma_kids_member(id, k + 1, x);
            if self.kids_from(id, k).contains(x) {
                if a.contains(x) {
                    assert(self.in_subtree(self.children(id)[k], x));
                } else {
                    let j = choose|j: int|
                        k + 1 <= j < self.children(id).len() && #[trigger] self.in_subtree(
                            self.children(id)[j],
                            x,
                        );
                    assert(self.in_subtree(self.children(id)[j], x));
                }
            }
            if exists|j: int|
                k <= j < self.children(id).len() && #[trigger] self.in_subtree(
                    self.children(id)[j],
                    x,
                ) {
                let j = choose|j: int|
                    k <= j < self.children(id).len() && #[trigger] self.in_subtree(
                        self.children(id)[j],
                        x,
                    );
                if j == k {
                    assert(a.contains(x));
                } else {
                    assert(k + 1 <= j && self.in_subtree(self.children(id)[j], x));
                    assert(b.contains(x));
                }
            }
        }
    }

    /// What lies in the subtree of a child lies in the subtree of its parent.
    pub proof fn lemma_child_subtree_within(self, p: NodeId, j: int, x: NodeId)
        requires
            self.acyclic(),
            self.contains(p),
            0 <= j < self.children(p).len(),
            self.in_subtree(self.children(p)[j], x),
        ensures
            self.in_subtree(p, x),
    {
        self.lemma_kids_member(p, 0, x);
        lemma_concat_contains(seq![p], self.kids_from(p, 0), x);
    }

    /// A subtree holds the children of each node that it holds.
    pub proof fn lemma_subtree_child_closed(self, root: NodeId, x: NodeId, k: int)
        requires
            self.acyclic(),
            self.in_subtree(root, x),
            self.contains(x),
            0 <= k < self.children(x).len(),
        ensures
            self.in_subtree(root, self.children(x)[k]),
        decreases self.height(root),
    {
        let c = self.children(x)[k];
        if !self.contains(root) {
            assert(self.subtree(root) == seq![root]);
            assert(self.subtree(root)[0] == root);
        } else if x == root {
            self.lemma_subtree_first(c);
            self.lemma_child_subtree_within(root, k, c);
        } else {
            lemma_concat_contains(seq![root], self.kids_from(root, 0), x);
            assert(seq![root][0] == root);
            self.lemma_kids_member(root, 0, x);
            let j = choose|j: int|
                0 <= j < self.children(root).len() && #[trigger] self.in_subtree(
                    self.children(root)[j],
                    x,
                );
            self.lemma_height(root, j);
            self.lemma_subtree_child_closed(self.children(root)[j], x, k);
            self.lemma_child_subtree_within(root, j, c);
        }
    }

    /// A subtree holds, of each node below its root, the parent too.
    pub proof fn lemma_subtree_parent_closed(self, root: NodeId, x: NodeId)
        requires
            self.acyclic(),
            self.children_ok(),
            self.in_subtree(root, x),
            x != root,
        ensures
            self.contains(root),
            self.contains(x),
            self.parent(x) is Some,
            self.in_subtree(root, self.parent(x).unwrap()),
        decreases self.height(root),
    {
        if !self.contains(root) {
            assert(self.subtree(root) == seq![root]);
            assert(self.subtree(root)[0] == root);
        } else {
            lemma_concat_contains(seq![root], self.kids_from(root, 0), x);
            assert(seq![root][0] == root);
            self.lemma_kids_member(root, 0, x);
            let j = choose|j: int|
                0 <= j < self.children(root).len() && #[trigger] self.in_subtree(
                    self.children(root)[j],
                    x,
                );
            let c = self.children(root)[j];
            if x == c {
                self.lemma_subtree_first(root);
            } else {
                self.lemma_height(root, j);
                self.lemma_subtree_parent_closed(c, x);
                self.lemma_child_subtree_within(root, j, self.parent(x).unwrap());
            }
        }
    }

    /// A subtree of a node of the scene holds nodes of the scene only.
    pub proof fn lemma_subtree_within_scene(self, root: NodeId, x: NodeId)
        requires
            self.acyclic(),
            self.children_ok(),
            self.contains(root),
            self.in_subtree(root, x),
        ensures
            self.contains(x),
    {
        if x != root {
            self.lemma_subtree_parent_closed(root, x);
        }
    }

    /// Whether a point hits a node: the node exists, is visible and unlocked,
    /// and its bounding box holds the point.
    pub open spec fn hit(self, id: NodeId, p: Point) -> bool {
        let n = self.nodes[id];
        &&& self.contains(id)
        &&& n.visible
        &&& !n.locked
        &&& (Rect { x: n.x, y: n.y, width: n.width, height: n.height }).spec_contains(p)
    }

    /// The last id of a list that a point hits.
    pub open spec fn topmost_hit(self, ids: Seq<NodeId>, p: Point) -> Option<NodeId>
        decreases ids.len(),
    {
        if ids.len() == 0 {
            None
        } else if self.hit(ids.last(), p) {
            Some(ids.last())
        } else {
            self.topmost_hit(ids.drop_last(), p)
        }
    }

    /// The scene written out: its nodes in ascending order of their ids.
    pub open spec fn data(self) -> SceneDataView {
        SceneDataView {
            nodes: listed(self.nodes, self.next_id as int),
            root_children: self.roots,
            next_id: self.next_id,
        }
    }

    /// The nodes listed below a bound, by their ids, are the nodes of the
    /// scene with an id below the bound.
    pub proof fn lemma_listed_map(self, upto: int)
        requires
            self.ids_ok(),
            0 <= upto <= u64::MAX,
        ensures
            node_map(listed(self.nodes, upto)) == self.nodes.restrict(
                Set::new(|id: NodeId| id < upto),
            ),
        decreases upto,
    {
        let want = self.nodes.restrict(Set::new(|id: NodeId| id < upto));
        if upto <= 0 {
            assert(node_map(listed(self.nodes, upto)) =~= want);
        } else {
            self.lemma_listed_map(upto - 1);
            let k = (upto - 1) as NodeId;
            let prev = listed(self.nodes, upto - 1);
            if self.contains(k) {
                assert(prev.push(self.nodes[k]).drop_last() =~= prev);
                assert(node_map(listed(self.nodes, upto)) =~= want);
            } else {
                assert(node_map(listed(self.nodes, upto)) =~= want);
            }
        }
    }

    /// Written out and read back, a scene is what it was.
    pub proof fn lemma_data_scene(self)
        requires
            self.ids_ok(),
        ensures
            self.data().scene() == self,
    {
        self.lemma_listed_map(self.next_id as int);
        assert forall|id: NodeId| self.nodes.contains_key(id) implies id < self.next_id by {
            assert(self.contains(id));
        }
        assert(self.nodes.restrict(Set::new(|id: NodeId| id < self.next_id as int)) =~= self.nodes);
    }

    /// What a subtree holds below its root is lower than the root.
    pub proof fn lemma_subtree_lower(self, root: NodeId, x: NodeId)
        requires
            self.acyclic(),
            self.in_subtree(root, x),
            x != root,
        ensures
            self.height(x) < self.height(root),
        decreases self.height(root),
    {
        if !self.contains(root) {
            assert(self.subtree(root) == seq![root]);
            assert(self.subtree(root)[0] == root);
        } else {
            lemma_concat_contains(seq![root], self.kids_from(root, 0), x);
            assert(seq![root][0] == root);
            self.lemma_kids_member(root, 0, x);
            let j = choose|j: int|
                0 <= j < self.children(root).len() && #[trigger] self.in_subtree(
                    self.children(root)[j],
                    x,
                );
            let c = self.children(root)[j];
            self.lemma_height(root, j);
            if x != c {
                self.lemma_subtree_lower(c, x);
            }
        }
    }

    /// A node does not lie in the subtree of one of its children.
    pub proof fn lemma_parent_outside_child(self, p: NodeId, c: NodeId)
        requires
            self.wf(),
            self.contains(c),
            self.parent(c) == Some(p),
        ensures
            !self.in_subtree(c, p),
            p != c,
    {
        assert(self.contains(p) && self.children(p).contains(c));
        let k = choose|k: int| 0 <= k < self.children(p).len() && self.children(p)[k] == c;
        self.lemma_height(p, k);
        if self.in_subtree(c, p) {
            self.lemma_subtree_lower(c, p);
        }
    }

    /// A node and its descendants as they are, depth first; nothing for an id
    /// that names no node.
    pub open spec fn snapshot(self, id: NodeId) -> Seq<NodeView> {
        if self.contains(id) {
            Seq::new(self.subtree(id).len(), |i: int| self.nodes[self.subtree(id)[i]])
        } else {
            Seq::empty()
        }
    }

    /// What a well-formed scene is written out as describes a well-formed
    /// scene: the scene itself.
    pub proof fn lemma_data_valid(self)
        requires
            self.wf(),
        ensures
            self.data().valid(),
            self.data().scene() == self,
    {
        self.lemma_data_scene();
    }
}

/// What a concatenation holds, one of its two parts holds.
pub proof fn lemma_concat_contains(a: Seq<NodeId>, b: Seq<NodeId>, x: NodeId)
    ensures
        (a + b).contains(x) <==> (a.contains(x) || b.contains(x)),
{
    if (a + b).contains(x) {
        let i = choose|i: int| 0 <= i < (a + b).len() && (a + b)[i] == x;
        if i < a.len() {
            assert(a[i] == x);
        } else {
            assert(b[i - a.len()] == x);
        }
    }
    if a.contains(x) {
        let i = choose|i: int| 0 <= i < a.len() && a[i] == x;
        assert((a + b)[i] == x);
    }
    if b.contains(x) {
        let i = choose|i: int| 0 <= i < b.len() && b[i] == x;
        assert((a + b)[a.len() + i] == x);
    }
}

} // verus!
