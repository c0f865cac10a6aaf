//! The scene: the store of nodes, with the operations that insert, remove,
//! move and traverse them.

use vstd::prelude::*;
use std::collections::HashMap;
use std::collections::hash_map::Entry;
use crate::deep::{lemma_listed_by_keys, listed, same_vec, views, Same};
use crate::ids::{contains_id, has_no_duplicates, remove_id, sorted_keys, without};
use crate::node::{Node, NodeId, NodeView};
use crate::tree::{lemma_node_map_dom, node_map, SceneDataView, SceneView};
use crate::types::{clamp_int, clamp_scalar, Point, Scalar, UNIT};

verus! {

broadcast use vstd::std_specs::hash::group_hash_axioms;

/// A scene as it is written out: its nodes as a list, its roots in order,
/// and the next free id.
#[derive(Debug)]
pub struct SceneData {
    pub nodes: Vec<Node>,
    pub root_children: Vec<NodeId>,
    pub next_id: NodeId,
}

impl View for SceneData {
    type V = SceneDataView;

    open spec fn view(&self) -> SceneDataView {
        SceneDataView {
            nodes: views(self.nodes@),
            root_children: self.root_children@,
            next_id: self.next_id,
        }
    }
}

impl Clone for SceneData {
    fn clone(&self) -> (r: Self)
        ensures
            r@ == self@,
    {
        let nodes = self.nodes.clone();
        assert(views(nodes@) =~= views(self.nodes@));
        SceneData { nodes, root_children: self.root_children.clone(), next_id: self.next_id }
    }
}

impl Same for SceneData {
    fn same(&self, other: &Self) -> (r: bool) {
        let roots = same_vec(&self.root_children, &other.root_children);
        assert(views(self.root_children@) =~= self.root_children@);
        assert(views(other.root_children@) =~= other.root_children@);
        same_vec(&self.nodes, &other.nodes) && roots && self.next_id == other.next_id
    }
}

/// A scene: its nodes by id, its roots in order, the next free id, and the
/// ids that are selected.
pub struct Scene {
    nodes: HashMap<NodeId, Node>,
    root_children: Vec<NodeId>,
    next_id: NodeId,
    selection: Vec<NodeId>,
}

/// The views of the nodes of a map, under the same ids.
pub open spec fn node_views(m: Map<NodeId, Node>) -> Map<NodeId, NodeView> {
    Map::new(|id: NodeId| m.contains_key(id), |id: NodeId| m[id]@)
}

/// The views of a map with one node replaced.
pub proof fn lemma_node_views_insert(m: Map<NodeId, Node>, id: NodeId, n: Node)
    ensures
        #[trigger] node_views(m.insert(id, n)) == node_views(m).insert(id, n@),
{
    assert(node_views(m.insert(id, n)) =~= node_views(m).insert(id, n@));
}

impl View for Scene {
    type V = SceneView;

    closed spec fn view(&self) -> SceneView {
        SceneView {
            nodes: node_views(self.nodes@),
            roots: self.root_children@,
            next_id: self.next_id,
        }
    }
}

impl Scene {
    /// The scene is a forest (see `SceneView::wf`).
    pub open spec fn wf(&self) -> bool {
        self@.wf()
    }

    /// The ids that are selected, in the order in which they were selected.
    /// A selected id need not name a node.
    pub closed spec fn selected(&self) -> Seq<NodeId> {
        self.selection@
    }

    /// The empty scene.
    pub fn new() -> (s: Scene)
        ensures
            s@ == SceneView::empty(),
            s.wf(),
            s.selected() == Seq::<NodeId>::empty(),
    {
        let s = Scene {
            nodes: HashMap::new(),
            root_children: Vec::new(),
            next_id: 1,
            selection: Vec::new(),
        };
        proof {
            assert(s@.nodes =~= Map::<NodeId, NodeView>::empty());
            SceneView::lemma_empty_wf();
        }
        s
    }

    /// Inserts a node. The node gets the next free id, loses any children it
    /// was given, and is appended to the children of the parent that it names,
    /// or to the roots if it names none. Returns the new id, or 0, the scene
    /// unchanged, where the parent does not exist or no id is left.
    pub fn add_node(&mut self, node: Node) -> (id: NodeId)
        requires
            old(self).wf(),
        ensures
            final(self)@ == old(self)@.inserted(node@),
            final(self).wf(),
            final(self).selected() == old(self).selected(),
            id == if old(self)@.can_insert(node@) {
                old(self)@.next_id
            } else {
                0
            },
    {
        proof {
            old(self)@.lemma_inserted_wf(node@);
        }
        if self.next_id == u64::MAX {
            return 0;
        }
        let id: NodeId = self.next_id;
        let mut n = node;
        n.id = id;
        n.children = Vec::new();
        match n.parent {
            Some(p) => {
                match self.nodes.remove(&p) {
                    Some(mut parent) => {
                        parent.children.push(id);
                        self.nodes.insert(p, parent);
                    },
                    None => {
                        assert(self.nodes@ =~= old(self).nodes@);
                        assert(self@.nodes =~= old(self)@.nodes);
                        return 0;
                    },
                }
            },
            None => {
                self.root_children.push(id);
            },
        }
        self.nodes.insert(id, n);
        self.next_id = id + 1;
        assert(self@.nodes =~= old(self)@.inserted(node@).nodes);
        id
    }

    /// The node of an id, if the scene holds one.
    pub fn get_node(&self, id: NodeId) -> (r: Option<&Node>)
        ensures
            match r {
                Some(n) => self@.contains(id) && n@ == self@.nodes[id],
                None => !self@.contains(id),
            },
    {
        self.nodes.get(&id)
    }

    /// The node of an id, to be changed in place. The scene stays well formed
    /// if the node keeps its id, parent and children.
    pub fn get_node_mut(&mut self, id: NodeId) -> (r: Option<&mut Node>)
        ensures
            match r {
                Some(n) => {
                    &&& old(self)@.contains(id)
                    &&& n@ == old(self)@.nodes[id]
                    &&& final(self)@ == old(self)@.with_node(id, final(n)@)
                    &&& final(self).selected() == old(self).selected()
                    &&& old(self).wf() && SceneView::same_links(n@, final(n)@)
                        ==> final(self).wf()
                },
                None => !old(self)@.contains(id) && final(self)@ == old(self)@ && final(self).selected()
                    == old(self).selected(),
            },
    {
        proof {
            assert forall|n: Node| #[trigger]
                node_views(self.nodes@.insert(id, n)) == node_views(self.nodes@).insert(
                    id,
                    n@,
                ) by {
                lemma_node_views_insert(self.nodes@, id, n);
            }
            if !self.nodes@.contains_key(id) {
                assert(self.nodes@.remove(id) =~= self.nodes@);
            }
            assert forall|n: NodeView|
                self.wf() && self@.contains(id) && SceneView::same_links(
                    self@.nodes[id],
                    n,
                ) implies (#[trigger] self@.with_node(id, n)).wf() by {
                self@.lemma_with_node_wf(id, n);
            }
        }
        match self.nodes.entry(id) {
            Entry::Occupied(e) => {
                let n = e.into_mut();
                Some(n)
            },
            Entry::Vacant(_) => {
                None
            },
        }
    }

    /// The number of nodes.
    pub fn node_count(&self) -> (n: usize)
        ensures
            n == self@.nodes.dom().len(),
    {
        assert(self@.nodes.dom() =~= self.nodes@.dom());
        self.nodes.len()
    }

    /// The children of a node, in order; none for an id that names no node.
    pub fn get_children_of(&self, parent_id: NodeId) -> (r: Vec<NodeId>)
        ensures
            r@ == if self@.contains(parent_id) {
                self@.children(parent_id)
            } else {
                Seq::empty()
            },
    {
        match self.nodes.get(&parent_id) {
            Some(node) => node.children.clone(),
            None => Vec::new(),
        }
    }

    /// Appends a node and its descendants, depth first.
    fn collect(&self, id: NodeId, result: &mut Vec<NodeId>)
        requires
            self@.acyclic(),
        ensures
            final(result)@ == old(result)@ + self@.subtree(id),
        decreases self@.height(id),
    {
        result.push(id);
        match self.nodes.get(&id) {
            Some(node) => {
                let mut k: usize = 0;
                while k < node.children.len()
                    invariant
                        self@.acyclic(),
                        self@.contains(id),
                        node@ == self@.nodes[id],
                        k <= node.children.len(),
                        result@ + self@.kids_from(id, k as int) == old(result)@ + self@.subtree(
                            id,
                        ),
                    decreases node.children.len() - k,
                {
                    let ghost before = result@;
                    proof {
                        self@.lemma_height(id, k as int);
                    }
                    self.collect(node.children[k], result);
                    proof {
                        let a = self@.subtree(self@.children(id)[k as int]);
                        let b = self@.kids_from(id, k as int + 1);
                        assert(self@.kids_from(id, k as int) == a + b);
                        assert((before + a) + b =~= before + (a + b));
                    }
                    k += 1;
                }
                proof {
                    assert(self@.kids_from(id, k as int) =~= Seq::empty());
                    assert(result@ + Seq::<NodeId>::empty() =~= result@);
                }
            },
            None => {
                assert(self@.subtree(id) == seq![id]);
                assert(old(result)@.push(id) =~= old(result)@ + seq![id]);
            },
        }
    }

    /// A node followed by its descendants, depth first.
    pub fn subtree_ids(&self, id: NodeId) -> (r: Vec<NodeId>)
        requires
            self.wf(),
        ensures
            r@ == self@.subtree(id),
    {
        let mut r: Vec<NodeId> = Vec::new();
        self.collect(id, &mut r);
        assert(Seq::<NodeId>::empty() + self@.subtree(id) =~= self@.subtree(id));
        r
    }

    /// The render order: each root followed by its descendants, depth first.
    /// Later in the order is nearer the viewer.
    pub fn render_order(&self) -> (r: Vec<NodeId>)
        requires
            self.wf(),
        ensures
            r@ == self@.order(),
    {
        let mut r: Vec<NodeId> = Vec::new();
        let mut k: usize = 0;
        proof {
            assert(self.root_children@.skip(0) =~= self.root_children@);
            assert(r@ + self@.order() =~= self@.order());
        }
        while k < self.root_children.len()
            invariant
                self@.acyclic(),
                k <= self.root_children.len(),
                r@ + self@.forest(self.root_children@.skip(k as int)) == self@.order(),
            decreases self.root_children.len() - k,
        {
            let ghost before = r@;
            self.collect(self.root_children[k], &mut r);
            proof {
                let rest = self.root_children@.skip(k as int);
                assert(rest[0] == self.root_children@[k as int]);
                assert(rest.skip(1) =~= self.root_children@.skip(k as int + 1));
                let a = self@.subtree(rest[0]);
                let b = self@.forest(rest.skip(1));
                assert(self@.forest(rest) == a + b);
                assert((before + a) + b =~= before + (a + b));
            }
            k += 1;
        }
        proof {
            assert(self.root_children@.skip(k as int) =~= Seq::empty());
            assert(r@ + Seq::<NodeId>::empty() =~= r@);
        }
        r
    }

    /// The ids of all nodes, in render order.
    pub fn all_node_ids(&self) -> (r: Vec<NodeId>)
        requires
            self.wf(),
        ensures
            r@ == self@.order(),
    {
        self.render_order()
    }

    /// Removes a node and all its descendants, and takes the node out of the
    /// list that held it and out of the selection. An id that names no node
    /// leaves the nodes as they are.
    pub fn remove_node(&mut self, id: NodeId)
        requires
            old(self).wf(),
        ensures
            final(self)@ == old(self)@.removed(id),
            final(self).wf(),
            final(self).selected() == without(old(self).selected(), id),
    {
        proof {
            old(self)@.lemma_removed_wf(id);
        }
        let parent: Option<NodeId> = match self.nodes.get(&id) {
            Some(n) => n.parent,
            None => {
                remove_id(&mut self.selection, id);
                return ;
            },
        };
        let ids = self.subtree_ids(id);
        remove_id(&mut self.root_children, id);
        match parent {
            Some(p) => {
                match self.nodes.remove(&p) {
                    Some(mut pn) => {
                        remove_id(&mut pn.children, id);
                        self.nodes.insert(p, pn);
                    },
                    None => {},
                }
            },
            None => {},
        }
        let ghost mid = self.nodes@;
        let mut i: usize = 0;
        assert(ids@.take(0) =~= Seq::<NodeId>::empty());
        while i < ids.len()
            invariant
                i <= ids.len(),
                self.nodes@ =~= mid.remove_keys(ids@.take(i as int).to_set()),
                self.root_children@ == without(old(self).root_children@, id),
                self.next_id == old(self).next_id,
                self.selection@ == old(self).selection@,
            decreases ids.len() - i,
        {
            let ghost t0 = ids@.take(i as int);
            let ghost t1 = ids@.take(i as int + 1);
            let ghost prev = self.nodes@;
            self.nodes.remove(&ids[i]);
            proof {
                assert(t1 =~= t0.push(ids@[i as int]));
                assert forall|x: NodeId| t1.contains(x) <==> (t0.contains(x) || x == ids@[i as int]) by {
                    crate::ids::lemma_push_contains(t0, ids@[i as int], x);
                }
                assert(self.nodes@ == prev.remove(ids@[i as int]));
                assert(t1.to_set() =~= t0.to_set().insert(ids@[i as int]));
                assert(self.nodes@ =~= mid.remove_keys(t1.to_set()));
            }
            i += 1;
        }
        remove_id(&mut self.selection, id);
        proof {
            assert(ids@.take(ids.len() as int) =~= ids@);
            assert forall|x: NodeId| ids@.to_set().contains(x) <==> old(self)@.in_subtree(id, x) by {}
            old(self)@.lemma_subtree_first(id);
            assert(self@.nodes =~= old(self)@.removed(id).nodes);
        }
    }

    /// Moves a node to the end of the children of a new parent, or to the end
    /// of the roots. Nothing changes where the node does not exist, or the new
    /// parent does not exist or is the node itself or one of its descendants.
    pub fn reparent(&mut self, node_id: NodeId, new_parent: Option<NodeId>)
        requires
            old(self).wf(),
        ensures
            final(self)@ == old(self)@.reparented(node_id, new_parent),
            final(self).wf(),
            final(self).selected() == old(self).selected(),
    {
        proof {
            old(self)@.lemma_reparented_wf(node_id, new_parent);
        }
        let old_parent: Option<NodeId> = match self.nodes.get(&node_id) {
            Some(n) => n.parent,
            None => {
                return ;
            },
        };
        match new_parent {
            Some(p) => {
                if !self.nodes.contains_key(&p) {
                    return ;
                }
                let ids = self.subtree_ids(node_id);
                if contains_id(&ids, p) {
                    return ;
                }
            },
            None => {},
        }
        assert(old(self)@.can_reparent(node_id, new_parent));
        match old_parent {
            Some(q) => {
                match self.nodes.remove(&q) {
                    Some(mut qn) => {
                        remove_id(&mut qn.children, node_id);
                        self.nodes.insert(q, qn);
                    },
                    None => {},
                }
            },
            None => {
                remove_id(&mut self.root_children, node_id);
            },
        }
        match new_parent {
            Some(p) => {
                match self.nodes.remove(&p) {
                    Some(mut pn) => {
                        pn.children.push(node_id);
                        self.nodes.insert(p, pn);
                    },
                    None => {},
                }
            },
            None => {
                self.root_children.push(node_id);
            },
        }
        match self.nodes.remove(&node_id) {
            Some(mut n) => {
                n.parent = new_parent;
                self.nodes.insert(node_id, n);
            },
            None => {},
        }
        proof {
            old(self)@.lemma_subtree_first(node_id);
            assert(self@.nodes =~= old(self)@.reparented(node_id, new_parent).nodes);
        }
    }

    /// The topmost node under a point: the last node in render order that is
    /// visible, unlocked and whose bounding box holds the point.
    pub fn hit_test(&self, point: Point) -> (r: Option<NodeId>)
        requires
            self.wf(),
        ensures
            r == self@.topmost_hit(self@.order(), point),
    {
        let order = self.render_order();
        let mut i: usize = order.len();
        assert(order@.take(i as int) =~= order@);
        while i > 0
            invariant
                i <= order.len(),
                order@ == self@.order(),
                self@.topmost_hit(order@, point) == self@.topmost_hit(
                    order@.take(i as int),
                    point,
                ),
            decreases i,
        {
            let id: NodeId = order[i - 1];
            proof {
                let t = order@.take(i as int);
                assert(t.last() == id);
                assert(t.drop_last() =~= order@.take(i as int - 1));
            }
            match self.nodes.get(&id) {
                Some(node) => {
                    if node.visible && !node.locked && node.bounds().contains(point) {
                        return Some(id);
                    }
                },
                None => {},
            }
            i -= 1;
        }
        proof {
            assert(order@.take(0) =~= Seq::<NodeId>::empty());
        }
        None
    }

    /// Moves a node by an offset, each coordinate clamped to the scalar range.
    /// An id that names no node changes nothing.
    pub fn move_node(&mut self, id: NodeId, dx: Scalar, dy: Scalar)
        requires
            old(self).wf(),
        ensures
            final(self).wf(),
            final(self).selected() == old(self).selected(),
            final(self)@ == if old(self)@.contains(id) {
                let n = old(self)@.nodes[id];
                old(self)@.with_node(
                    id,
                    NodeView {
                        x: clamp_int(n.x + dx) as Scalar,
                        y: clamp_int(n.y + dy) as Scalar,
                        ..n
                    },
                )
            } else {
                old(self)@
            },
    {
        match self.get_node_mut(id) {
            Some(node) => {
                node.x = clamp_scalar(node.x as i128 + dx as i128);
                node.y = clamp_scalar(node.y as i128 + dy as i128);
            },
            None => {},
        }
        proof {
            if old(self)@.contains(id) {
                old(self)@.lemma_with_node_wf(id, self@.nodes[id]);
            }
        }
    }

    /// Gives a node a new size, each extent raised to one unit where it is
    /// less. An id that names no node changes nothing.
    pub fn resize_node(&mut self, id: NodeId, width: Scalar, height: Scalar)
        requires
            old(self).wf(),
        ensures
            final(self).wf(),
            final(self).selected() == old(self).selected(),
            final(self)@ == if old(self)@.contains(id) {
                old(self)@.with_node(
                    id,
                    NodeView {
                        width: if width < UNIT { UNIT } else { width },
                        height: if height < UNIT { UNIT } else { height },
                        ..old(self)@.nodes[id]
                    },
                )
            } else {
                old(self)@
            },
    {
        match self.get_node_mut(id) {
            Some(node) => {
                node.width = if width < UNIT { UNIT } else { width };
                node.height = if height < UNIT { UNIT } else { height };
            },
            None => {},
        }
        proof {
            if old(self)@.contains(id) {
                old(self)@.lemma_with_node_wf(id, self@.nodes[id]);
            }
        }
    }

    /// The selected ids.
    pub fn get_selection(&self) -> (r: Vec<NodeId>)
        ensures
            r@ == self.selected(),
    {
        self.selection.clone()
    }

    /// Replaces the selection.
    pub fn set_selection(&mut self, ids: Vec<NodeId>)
        ensures
            final(self)@ == old(self)@,
            final(self).selected() == ids@,
    {
        self.selection = ids;
    }

    /// Selects one id and nothing else.
    pub fn select(&mut self, id: NodeId)
        ensures
            final(self)@ == old(self)@,
            final(self).selected() == seq![id],
    {
        let mut v: Vec<NodeId> = Vec::new();
        v.push(id);
        assert(v@ =~= seq![id]);
        self.selection = v;
    }

    /// Adds an id to the selection, unless it is selected already.
    pub fn add_to_selection(&mut self, id: NodeId)
        ensures
            final(self)@ == old(self)@,
            final(self).selected() == if old(self).selected().contains(id) {
                old(self).selected()
            } else {
                old(self).selected().push(id)
            },
    {
        if !contains_id(&self.selection, id) {
            self.selection.push(id);
        }
    }

    /// Empties the selection.
    pub fn deselect_all(&mut self)
        ensures
            final(self)@ == old(self)@,
            final(self).selected() == Seq::<NodeId>::empty(),
    {
        self.selection.clear();
    }

    /// The roots, in order.
    pub fn root_ids(&self) -> (r: Vec<NodeId>)
        ensures
            r@ == self@.roots,
    {
        self.root_children.clone()
    }

    /// The scene written out: copies of its nodes in ascending order of their
    /// ids, its roots, and the next free id.
    pub fn export(&self) -> (r: SceneData)
        ensures
            r@ == self@.data(),
    {
        let keys = sorted_keys(&self.nodes);
        let ghost count = lemma_listed_by_keys(self@.nodes, keys@, self.next_id as int);
        let mut nodes: Vec<Node> = Vec::new();
        let mut i: usize = 0;
        while i < keys.len() && keys[i] < self.next_id
            invariant
                i <= count <= keys.len(),
                forall|j: int| 0 <= j < count ==> keys@[j] < self.next_id,
                forall|j: int| count <= j < keys@.len() ==> keys@[j] >= self.next_id,
                forall|x: NodeId| keys@.contains(x) <==> self.nodes@.contains_key(x),
                nodes@.len() == i,
                forall|j: int| 0 <= j < i ==> (#[trigger] nodes@[j])@ == self@.nodes[keys@[j]],
            decreases keys.len() - i,
        {
            assert(keys@.contains(keys@[i as int]));
            match self.nodes.get(&keys[i]) {
                Some(n) => {
                    nodes.push(n.clone());
                },
                None => {},
            }
            i += 1;
        }
        proof {
            assert(i == count);
            assert(views(nodes@) =~= listed(self@.nodes, self.next_id as int));
        }
        SceneData { nodes, root_children: self.root_children.clone(), next_id: self.next_id }
    }

    /// The scene that data describe, with nothing selected. Of two nodes with
    /// one id the later stays.
    fn build(data: SceneData) -> (r: Scene)
        ensures
            r@ == data@.scene(),
            r.selected() == Seq::<NodeId>::empty(),
    {
        let mut nodes: HashMap<NodeId, Node> = HashMap::new();
        let mut i: usize = 0;
        assert(views(data.nodes@).take(0) =~= Seq::<NodeView>::empty());
        assert(node_views(nodes@) =~= Map::<NodeId, NodeView>::empty());
        while i < data.nodes.len()
            invariant
                i <= data.nodes.len(),
                node_views(nodes@) == node_map(views(data.nodes@).take(i as int)),
            decreases data.nodes.len() - i,
        {
            let n = data.nodes[i].clone();
            proof {
                let t = views(data.nodes@).take(i as int + 1);
                assert(t.drop_last() =~= views(data.nodes@).take(i as int));
                assert(t.last() == n@);
                lemma_node_views_insert(nodes@, n.id, n);
            }
            nodes.insert(n.id, n);
            i += 1;
        }
        assert(views(data.nodes@).take(data.nodes.len() as int) =~= views(data.nodes@));
        Scene {
            nodes,
            root_children: data.root_children,
            next_id: data.next_id,
            selection: Vec::new(),
        }
    }

    /// The scene that valid data describe, with nothing selected.
    pub(crate) fn restore(data: SceneData) -> (r: Scene)
        requires
            data@.valid(),
        ensures
            r@ == data@.scene(),
            r.wf(),
            r.selected() == Seq::<NodeId>::empty(),
    {
        Self::build(data)
    }

    /// Copies of a node and its descendants, depth first; none for an id that
    /// names no node.
    pub fn deep_clone_subtree(&self, id: NodeId) -> (r: Vec<Node>)
        requires
            self.wf(),
        ensures
            views(r@) == self@.snapshot(id),
    {
        let mut r: Vec<Node> = Vec::new();
        if self.nodes.get(&id).is_none() {
            assert(views(r@) =~= self@.snapshot(id));
            return r;
        }
        let ids = self.subtree_ids(id);
        let mut i: usize = 0;
        while i < ids.len()
            invariant
                i <= ids.len(),
                self.wf(),
                self@.contains(id),
                ids@ == self@.subtree(id),
                r@.len() == i,
                forall|j: int| 0 <= j < i ==> (#[trigger] r@[j])@ == self@.nodes[ids@[j]],
            decreases ids.len() - i,
        {
            proof {
                assert(self@.in_subtree(id, ids@[i as int]));
                self@.lemma_subtree_within_scene(id, ids@[i as int]);
            }
            match self.nodes.get(&ids[i]) {
                Some(n) => {
                    r.push(n.clone());
                },
                None => {},
            }
            i += 1;
        }
        assert(views(r@) =~= self@.snapshot(id));
        r
    }

    /// Whether the roots exist, name no parent, and do not occur twice.
    fn roots_in_order(&self) -> (b: bool)
        ensures
            b == self@.roots_ok(),
    {
        if !has_no_duplicates(&self.root_children) {
            return false;
        }
        let mut k: usize = 0;
        while k < self.root_children.len()
            invariant
                k <= self.root_children.len(),
                forall|j: int|
                    0 <= j < k ==> self@.contains(#[trigger] self@.roots[j]) && self@.parent(
                        self@.roots[j],
                    ) is None,
            decreases self.root_children.len() - k,
        {
            let ok: bool = match self.nodes.get(&self.root_children[k]) {
                Some(n) => n.parent.is_none(),
                None => false,
            };
            if !ok {
                assert(!(self@.contains(self@.roots[k as int]) && self@.parent(
                    self@.roots[k as int],
                ) is None));
                return false;
            }
            k += 1;
        }
        true
    }

    /// Whether the chain of parents of a node ends within a number of steps.
    fn climbs_within(&self, x: NodeId, steps: usize) -> (b: bool)
        ensures
            b == self@.climbs(x, steps as nat),
    {
        let mut cur: NodeId = x;
        let mut left: usize = steps;
        loop
            invariant
                self@.climbs(x, steps as nat) == self@.climbs(cur, left as nat),
            decreases left,
        {
            match self.nodes.get(&cur) {
                Some(n) => match n.parent {
                    Some(p) => {
                        if left == 0 {
                            return false;
                        }
                        cur = p;
                        left -= 1;
                    },
                    None => {
                        return true;
                    },
                },
                None => {
                    return false;
                },
            }
        }
    }

    /// Whether a node is held under its id, its children are its own, it is
    /// listed where its parent pointer says, and its chain of parents ends.
    fn node_in_order(&self, x: NodeId, steps: usize) -> (b: bool)
        requires
            self@.contains(x),
        ensures
            b == self@.node_ok(x, steps as nat),
    {
        let node = match self.nodes.get(&x) {
            Some(n) => n,
            None => {
                return false;
            },
        };
        if node.id != x || x == 0 || x >= self.next_id {
            return false;
        }
        if !has_no_duplicates(&node.children) {
            return false;
        }
        let mut k: usize = 0;
        while k < node.children.len()
            invariant
                k <= node.children.len(),
                node@ == self@.nodes[x],
                forall|j: int|
                    0 <= j < k ==> self@.contains(#[trigger] self@.children(x)[j])
                        && self@.parent(self@.children(x)[j]) == Some(x),
            decreases node.children.len() - k,
        {
            let ok: bool = match self.nodes.get(&node.children[k]) {
                Some(c) => match c.parent {
                    Some(p) => p == x,
                    None => false,
                },
                None => false,
            };
            if !ok {
                assert(!(self@.contains(self@.children(x)[k as int]) && self@.parent(
                    self@.children(x)[k as int],
                ) == Some(x)));
                return false;
            }
            k += 1;
        }
        let listed: bool = match node.parent {
            None => contains_id(&self.root_children, x),
            Some(p) => match self.nodes.get(&p) {
                Some(pn) => contains_id(&pn.children, x),
                None => false,
            },
        };
        if !listed {
            return false;
        }
        self.climbs_within(x, steps)
    }

    /// Whether the scene is well formed, given a list that holds the ids of
    /// its nodes.
    fn in_order(&self, keys: &Vec<NodeId>) -> (b: bool)
        requires
            forall|x: NodeId| self@.contains(x) <==> keys@.contains(x),
        ensures
            b == self.wf(),
    {
        proof {
            assert(self@.nodes.dom() =~= self.nodes@.dom());
            self@.lemma_wf_by_nodes();
        }
        if self.next_id == 0 || !self.roots_in_order() {
            return false;
        }
        let n: usize = self.nodes.len();
        let mut i: usize = 0;
        while i < keys.len()
            invariant
                i <= keys.len(),
                n == self@.nodes.dom().len(),
                forall|x: NodeId| self@.contains(x) <==> keys@.contains(x),
                forall|j: int| 0 <= j < i ==> self@.node_ok(#[trigger] keys@[j], n as nat),
            decreases keys.len() - i,
        {
            assert(keys@.contains(keys@[i as int]));
            if !self.node_in_order(keys[i], n) {
                proof {
                    assert(self@.nodes.dom() =~= self.nodes@.dom());
                    self@.lemma_wf_by_nodes();
                    assert(self@.contains(keys@[i as int]));
                }
                return false;
            }
            i += 1;
        }
        proof {
            assert(self@.nodes.dom() =~= self.nodes@.dom());
            self@.lemma_wf_by_nodes();
            assert forall|x: NodeId| #[trigger] self@.contains(x) implies self@.node_ok(
                x,
                n as nat,
            ) by {
                let j = choose|j: int| 0 <= j < keys@.len() && keys@[j] == x;
                assert(self@.node_ok(keys@[j], n as nat));
            }
        }
        true
    }

    /// The scene that data describe, with nothing selected; none where the
    /// data do not describe a well-formed scene.
    pub fn import(data: SceneData) -> (r: Option<Scene>)
        ensures
            match r {
                Some(s) => data@.valid() && s@ == data@.scene() && s.wf() && s.selected()
                    == Seq::<NodeId>::empty(),
                None => !data@.valid(),
            },
    {
        let mut keys: Vec<NodeId> = Vec::new();
        let mut i: usize = 0;
        while i < data.nodes.len()
            invariant
                i <= data.nodes.len(),
                keys@.len() == i,
                forall|j: int| 0 <= j < i ==> #[trigger] keys@[j] == data.nodes@[j].id,
            decreases data.nodes.len() - i,
        {
            keys.push(data.nodes[i].id);
            i += 1;
        }
        let ghost list = views(data.nodes@);
        let scene = Self::build(data);
        proof {
            assert forall|x: NodeId| scene@.contains(x) <==> keys@.contains(x) by {
                lemma_node_map_dom(list, x);
                if scene@.contains(x) {
                    let j = choose|j: int| 0 <= j < list.len() && (#[trigger] list[j]).id == x;
                    assert(keys@[j] == x);
                }
                if keys@.contains(x) {
                    let j = choose|j: int| 0 <= j < keys@.len() && keys@[j] == x;
                    assert(list[j].id == x);
                }
            }
        }
        if scene.in_order(&keys) {
            Some(scene)
        } else {
            None
        }
    }
}

} // verus!
