//! What it takes to tell that a scene is a forest: following parent pointers
//! from each node must end at a root within as many steps as there are nodes.

use vstd::prelude::*;
use vstd::set_lib::lemma_len_subset;
use crate::node::NodeId;
use crate::tree::SceneView;

verus! {

impl SceneView {
    /// Whether following parent pointers from a node ends, within a number of
    /// steps, at a node that names no parent.
    pub open spec fn climbs(self, x: NodeId, steps: nat) -> bool
        decreases steps,
    {
        self.contains(x) && match self.parent(x) {
            None => true,
            Some(p) => steps > 0 && self.climbs(p, (steps - 1) as nat),
        }
    }

    /// The number of parent pointers between a node and the end of its chain
    /// of parents, counted up to a number of steps.
    pub open spec fn depth(self, x: NodeId, steps: nat) -> nat
        decreases steps,
    {
        match self.parent(x) {
            None => 0,
            Some(p) => if steps == 0 {
                0
            } else {
                1 + self.depth(p, (steps - 1) as nat)
            },
        }
    }

    /// A chain of parents that ends within some steps ends within more, at
    /// the same depth.
    pub proof fn lemma_climbs_more(self, x: NodeId, steps: nat, more: nat)
        requires
            self.climbs(x, steps),
            steps <= more,
        ensures
            self.climbs(x, more),
            self.depth(x, more) == self.depth(x, steps),
            self.depth(x, steps) <= steps,
        decreases steps,
    {
        match self.parent(x) {
            None => {},
            Some(p) => {
                self.lemma_climbs_more(p, (steps - 1) as nat, (more - 1) as nat);
            },
        }
    }

    /// A depth is at most the number of steps that it is counted up to.
    pub proof fn lemma_depth_bound(self, x: NodeId, steps: nat)
        ensures
            self.depth(x, steps) <= steps,
        decreases steps,
    {
        match self.parent(x) {
            None => {},
            Some(p) => {
                if steps > 0 {
                    self.lemma_depth_bound(p, (steps - 1) as nat);
                }
            },
        }
    }

    /// Where the lists agree with the parent pointers and every chain of
    /// parents ends within a number of steps, no node is its own ancestor.
    pub proof fn lemma_climbing_is_acyclic(self, steps: nat)
        requires
            self.children_ok(),
            forall|x: NodeId| #[trigger] self.contains(x) ==> self.climbs(x, steps),
        ensures
            self.acyclic(),
    {
        let rank = |x: NodeId| self.depth(x, steps);
        assert forall|x: NodeId| #[trigger] rank(x) <= steps by {
            self.lemma_depth_bound(x, steps);
        }
        assert forall|p: NodeId, k: int|
            self.contains(p) && 0 <= k < self.children(p).len() implies rank(p) < rank(
            #[trigger] self.children(p)[k],
        ) by {
            let c = self.children(p)[k];
            assert(self.contains(c) && self.parent(c) == Some(p));
            assert(self.climbs(c, steps));
            assert(self.climbs(p, (steps - 1) as nat));
            self.lemma_climbs_more(p, (steps - 1) as nat, steps);
        }
        assert(self.ranked(rank, steps));
    }

    /// The nodes of rank below that of a node.
    pub open spec fn lower_set(self, rank: spec_fn(NodeId) -> nat, x: NodeId) -> Set<NodeId> {
        self.nodes.dom().filter(|y: NodeId| rank(y) < rank(x))
    }

    /// In a forest, the chain of parents of a node ends within as many steps
    /// as there are nodes of lower rank.
    pub proof fn lemma_forest_climbs_ranked(self, rank: spec_fn(NodeId) -> nat, bound: nat, x: NodeId)
        requires
            self.wf(),
            self.nodes.dom().finite(),
            self.ranked(rank, bound),
            self.contains(x),
        ensures
            self.climbs(x, self.lower_set(rank, x).len()),
        decreases rank(x),
    {
        let lx = self.lower_set(rank, x);
        self.nodes.dom().lemma_len_filter(|y: NodeId| rank(y) < rank(x));
        lemma_len_subset(lx, self.nodes.dom());
        match self.parent(x) {
            None => {},
            Some(p) => {
                assert(self.contains(p) && self.children(p).contains(x));
                let k = choose|k: int| 0 <= k < self.children(p).len() && self.children(p)[k] == x;
                assert(rank(p) < rank(self.children(p)[k]));
                let lp = self.lower_set(rank, p);
                self.nodes.dom().lemma_len_filter(|y: NodeId| rank(y) < rank(p));
                lemma_len_subset(lp, self.nodes.dom());
                assert(lx.contains(p));
                assert(lp.subset_of(lx.remove(p)));
                lemma_len_subset(lp, lx.remove(p));
                self.lemma_forest_climbs_ranked(rank, bound, p);
                self.lemma_climbs_more(p, lp.len(), (lx.len() - 1) as nat);
            },
        }
    }

    /// In a forest, the chain of parents of each node ends within as many
    /// steps as there are nodes.
    pub proof fn lemma_forest_climbs(self, x: NodeId)
        requires
            self.wf(),
            self.nodes.dom().finite(),
            self.contains(x),
        ensures
            self.climbs(x, self.nodes.dom().len()),
    {
        let (rank, bound) = choose|rank: spec_fn(NodeId) -> nat, bound: nat|
            self.ranked(rank, bound);
        assert(self.ranked(rank, bound));
        self.lemma_forest_climbs_ranked(rank, bound, x);
        let lx = self.lower_set(rank, x);
        self.nodes.dom().lemma_len_filter(|y: NodeId| rank(y) < rank(x));
        lemma_len_subset(lx, self.nodes.dom());
        self.lemma_climbs_more(x, lx.len(), self.nodes.dom().len());
    }

    /// What well-formedness asks of one node, with a number of steps for its
    /// chain of parents: it is held under its id, its children are its own,
    /// it is listed where its parent pointer says, and its chain of parents
    /// ends.
    pub open spec fn node_ok(self, x: NodeId, steps: nat) -> bool {
        &&& self.nodes[x].id == x
        &&& 0 < x < self.next_id
        &&& self.children(x).no_duplicates()
        &&& forall|k: int|
            0 <= k < self.children(x).len() ==> self.contains(#[trigger] self.children(x)[k])
                && self.parent(self.children(x)[k]) == Some(x)
        &&& match self.parent(x) {
            None => self.roots.contains(x),
            Some(p) => self.contains(p) && self.children(p).contains(x),
        }
        &&& self.climbs(x, steps)
    }

    /// A scene is well formed exactly when its next id is positive, its roots
    /// are in order, and each of its nodes is.
    pub proof fn lemma_wf_by_nodes(self)
        requires
            self.nodes.dom().finite(),
        ensures
            self.wf() <==> (0 < self.next_id && self.roots_ok() && forall|x: NodeId| #[trigger]
                self.contains(x) ==> self.node_ok(x, self.nodes.dom().len())),
    {
        let n = self.nodes.dom().len();
        if self.wf() {
            assert forall|x: NodeId| #[trigger] self.contains(x) implies self.node_ok(x, n) by {
                self.lemma_forest_climbs(x);
            }
        }
        if 0 < self.next_id && self.roots_ok() && forall|x: NodeId| #[trigger]
            self.contains(x) ==> self.node_ok(x, n) {
            assert(self.children_ok()) by {
                assert forall|p: NodeId, k: int|
                    self.contains(p) && 0 <= k < self.children(p).len() implies self.contains(
                    #[trigger] self.children(p)[k],
                ) && self.parent(self.children(p)[k]) == Some(p) by {
                    assert(self.node_ok(p, n));
                }
                assert forall|p: NodeId| #[trigger] self.contains(p) implies self.children(
                    p,
                ).no_duplicates() by {
                    assert(self.node_ok(p, n));
                }
            }
            assert(self.ids_ok()) by {
                assert forall|x: NodeId| #[trigger] self.contains(x) implies self.nodes[x].id == x
                    && 0 < x < self.next_id by {
                    assert(self.node_ok(x, n));
                }
            }
            assert(self.parents_ok()) by {
                assert forall|x: NodeId| #[trigger] self.contains(x) implies match self.parent(x) {
                    None => self.roots.contains(x),
                    Some(p) => self.contains(p) && self.children(p).contains(x),
                } by {
                    assert(self.node_ok(x, n));
                }
            }
            assert forall|x: NodeId| #[trigger] self.contains(x) implies self.climbs(x, n) by {
                assert(self.node_ok(x, n));
            }
            self.lemma_climbing_is_acyclic(n);
        }
    }
}

} // verus!
