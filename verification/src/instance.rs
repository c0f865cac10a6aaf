//! Instances: copies of a component's template in a scene.

use vstd::prelude::*;
use crate::component::{
    default_key_of, find_variant, Component, ComponentId, ComponentStore, ComponentStoreView,
    ComponentView, InstanceData, InstanceDataView, KeyEntryView, NodeOverrides,
    NodeOverridesView, OverrideEntry, OverrideEntryView, SlotDef, SlotDefView, SlotFill,
    SlotFillView, VariantData, VariantDataView, VariantEntryView, VariantKey, VariantProp,
    VariantPropView,
};
use crate::deep::views;
use crate::ids::without_all;
use crate::json::{prop_of_json, read_prop};
use crate::node::{new_node, LayoutMode, Node, NodeId, NodeKind, NodeKindView, NodeView};
use crate::scene::Scene;
use crate::text::{strip_prefix_all, stripped};
use crate::tree::SceneView;
use crate::types::{clamp_int, clamp_scalar, Scalar, UNIT};

verus! {

/// The position of the first node of a list, from a position on, that has an
/// id.
pub open spec fn find_node(nodes: Seq<NodeView>, id: NodeId, from: int) -> Option<int>
    decreases nodes.len() - from,
{
    if from < 0 || from >= nodes.len() {
        None
    } else if nodes[from].id == id {
        Some(from)
    } else {
        find_node(nodes, id, from + 1)
    }
}

/// The position of the first node of a list that has an id.
pub fn node_index(nodes: &Vec<Node>, id: NodeId) -> (r: Option<usize>)
    ensures
        match r {
            Some(i) => find_node(views(nodes@), id, 0) == Some(i as int) && i < nodes@.len(),
            None => find_node(views(nodes@), id, 0) is None,
        },
{
    let mut i: usize = 0;
    while i < nodes.len()
        invariant
            i <= nodes.len(),
            find_node(views(nodes@), id, 0) == find_node(views(nodes@), id, i as int),
        decreases nodes.len() - i,
    {
        assert(views(nodes@)[i as int].id == nodes@[i as int].id);
        if nodes[i].id == id {
            return Some(i);
        }
        i += 1;
    }
    None
}

/// A template node as it enters a scene under a parent: moved by an offset,
/// unless the parent lays out its children, which will place it anyway.
pub open spec fn placed_copy(s: SceneView, t: NodeView, parent: NodeId, dx: int, dy: int) -> NodeView {
    let laid_out = s.contains(parent) && s.nodes[parent].layout.mode != LayoutMode::Off;
    NodeView {
        x: if laid_out { t.x } else { clamp_int(t.x + dx) as Scalar },
        y: if laid_out { t.y } else { clamp_int(t.y + dy) as Scalar },
        parent: Some(parent),
        ..t
    }
}

/// The scene after the template nodes named by a list of ids, and all that
/// the template holds below them, have been copied under a parent. Each copy
/// gets a fresh id and is appended to the children of the copy of its
/// template parent. An id that the template does not hold is passed over.
/// `depth` bounds how deep the copying goes, so that a template that names
/// itself below itself is copied to that depth and no further.
pub open spec fn grown(
    s: SceneView,
    nodes: Seq<NodeView>,
    kids: Seq<NodeId>,
    parent: NodeId,
    dx: int,
    dy: int,
    depth: nat,
) -> SceneView
    decreases depth, kids.len(),
{
    if kids.len() == 0 || depth == 0 {
        s
    } else {
        let after_first = match find_node(nodes, kids[0], 0) {
            Some(j) => {
                let copy = placed_copy(s, nodes[j], parent, dx, dy);
                if s.can_insert(copy) {
                    grown(
                        s.inserted(copy),
                        nodes,
                        nodes[j].children,
                        s.next_id,
                        dx,
                        dy,
                        (depth - 1) as nat,
                    )
                } else {
                    s
                }
            },
            None => s,
        };
        grown(after_first, nodes, kids.skip(1), parent, dx, dy, depth)
    }
}

/// Copying a template into a well-formed scene keeps it well formed.
pub proof fn lemma_grown_wf(
    s: SceneView,
    nodes: Seq<NodeView>,
    kids: Seq<NodeId>,
    parent: NodeId,
    dx: int,
    dy: int,
    depth: nat,
)
    requires
        s.wf(),
    ensures
        grown(s, nodes, kids, parent, dx, dy, depth).wf(),
    decreases depth, kids.len(),
{
    if kids.len() == 0 || depth == 0 {
    } else {
        let after_first = match find_node(nodes, kids[0], 0) {
            Some(j) => {
                let copy = placed_copy(s, nodes[j], parent, dx, dy);
                if s.can_insert(copy) {
                    s.lemma_inserted_wf(copy);
                    lemma_grown_wf(
                        s.inserted(copy),
                        nodes,
                        nodes[j].children,
                        s.next_id,
                        dx,
                        dy,
                        (depth - 1) as nat,
                    );
                    grown(
                        s.inserted(copy),
                        nodes,
                        nodes[j].children,
                        s.next_id,
                        dx,
                        dy,
                        (depth - 1) as nat,
                    )
                } else {
                    s
                }
            },
            None => s,
        };
        lemma_grown_wf(after_first, nodes, kids.skip(1), parent, dx, dy, depth);
    }
}

/// Whether a scene has grown out of another: it has the same roots, each
/// node of the other is in it as it was, but for children that it may have
/// gained at the end of its list, and each further node has an id that was
/// free in the other.
pub open spec fn grown_from(t: SceneView, s: SceneView) -> bool {
    &&& t.roots == s.roots
    &&& s.next_id <= t.next_id
    &&& forall|x: NodeId| #[trigger]
        s.contains(x) ==> t.contains(x) && t.nodes[x] == (NodeView {
            children: t.children(x),
            ..s.nodes[x]
        }) && s.children(x).is_prefix_of(t.children(x))
    &&& forall|x: NodeId| #[trigger] t.contains(x) && !s.contains(x) ==> s.next_id <= x < t.next_id
}

/// Copying a template into a scene changes nothing that the scene held: the
/// scene grows.
pub proof fn lemma_grown_grows(
    s: SceneView,
    nodes: Seq<NodeView>,
    kids: Seq<NodeId>,
    parent: NodeId,
    dx: int,
    dy: int,
    depth: nat,
)
    requires
        s.wf(),
    ensures
        grown_from(grown(s, nodes, kids, parent, dx, dy, depth), s),
    decreases depth, kids.len(),
{
    let t = grown(s, nodes, kids, parent, dx, dy, depth);
    if kids.len() == 0 || depth == 0 {
        assert forall|x: NodeId| #[trigger] s.contains(x) implies s.children(x).is_prefix_of(
            s.children(x),
        ) by {
            assert(s.children(x).subrange(0, s.children(x).len() as int) =~= s.children(x));
        }
    } else {
        let after_first = match find_node(nodes, kids[0], 0) {
            Some(j) => {
                let copy = placed_copy(s, nodes[j], parent, dx, dy);
                if s.can_insert(copy) {
                    let s1 = s.inserted(copy);
                    s.lemma_inserted_wf(copy);
                    let s2 = grown(
                        s1,
                        nodes,
                        nodes[j].children,
                        s.next_id,
                        dx,
                        dy,
                        (depth - 1) as nat,
                    );
                    lemma_grown_grows(
                        s1,
                        nodes,
                        nodes[j].children,
                        s.next_id,
                        dx,
                        dy,
                        (depth - 1) as nat,
                    );
                    lemma_grown_wf(
                        s1,
                        nodes,
                        nodes[j].children,
                        s.next_id,
                        dx,
                        dy,
                        (depth - 1) as nat,
                    );
                    assert(grown_from(s1, s)) by {
                        assert forall|x: NodeId| #[trigger] s.contains(x) implies s1.contains(x)
                            && s1.nodes[x] == (NodeView { children: s1.children(x), ..s.nodes[x] })
                            && s.children(x).is_prefix_of(s1.children(x)) by {
                            assert(x != s.next_id);
                            assert(s1.children(x).subrange(0, s.children(x).len() as int)
                                =~= s.children(x));
                        }
                    }
                    lemma_grown_from_trans(s2, s1, s);
                    s2
                } else {
                    lemma_grown_from_refl(s);
                    s
                }
            },
            None => {
                lemma_grown_from_refl(s);
                s
            },
        };
        lemma_grown_grows(after_first, nodes, kids.skip(1), parent, dx, dy, depth);
        lemma_grown_from_trans(t, after_first, s);
    }
}

/// A scene has grown out of itself.
proof fn lemma_grown_from_refl(s: SceneView)
    ensures
        grown_from(s, s),
{
    assert forall|x: NodeId| #[trigger] s.contains(x) implies s.children(x).is_prefix_of(
        s.children(x),
    ) by {
        assert(s.children(x).subrange(0, s.children(x).len() as int) =~= s.children(x));
    }
}

/// What has grown out of a scene that has grown out of another has grown out
/// of the other.
proof fn lemma_grown_from_trans(u: SceneView, t: SceneView, s: SceneView)
    requires
        grown_from(u, t),
        grown_from(t, s),
    ensures
        grown_from(u, s),
{
    assert forall|x: NodeId| #[trigger] s.contains(x) implies u.contains(x) && u.nodes[x] == (
    NodeView { children: u.children(x), ..s.nodes[x] }) && s.children(x).is_prefix_of(
        u.children(x),
    ) by {
        assert(t.contains(x));
        assert(u.contains(x));
        let a = s.children(x);
        let b = t.children(x);
        let c = u.children(x);
        assert(a =~= b.subrange(0, a.len() as int));
        assert(b =~= c.subrange(0, b.len() as int));
        assert(a =~= c.subrange(0, a.len() as int));
    }
    assert forall|x: NodeId| #[trigger] u.contains(x) && !s.contains(x) implies s.next_id <= x
        < u.next_id by {
        if t.contains(x) {
            assert(s.next_id <= x < t.next_id);
        }
    }
}

/// Copies the template nodes named by the children of a template node, and
/// all that the template holds below them, under a node of the scene.
pub fn clone_template_children(
    scene: &mut Scene,
    template_parent: &Node,
    all_nodes: &Vec<Node>,
    scene_parent: NodeId,
    dx: i64,
    dy: i64,
    depth: usize,
)
    requires
        old(scene).wf(),
        -0x1_0000_0000 <= dx <= 0x1_0000_0000,
        -0x1_0000_0000 <= dy <= 0x1_0000_0000,
    ensures
        final(scene)@ == grown(
            old(scene)@,
            views(all_nodes@),
            template_parent@.children,
            scene_parent,
            dx as int,
            dy as int,
            depth as nat,
        ),
        final(scene).wf(),
        final(scene).selected() == old(scene).selected(),
    decreases depth,
{
    let ghost nodes = views(all_nodes@);
    let ghost kids = template_parent@.children;
    if depth == 0 {
        return ;
    }
    let mut k: usize = 0;
    assert(kids.skip(0) =~= kids);
    while k < template_parent.children.len()
        invariant
            k <= template_parent.children.len(),
            depth > 0,
            nodes == views(all_nodes@),
            kids == template_parent@.children,
            -0x1_0000_0000 <= dx <= 0x1_0000_0000,
            -0x1_0000_0000 <= dy <= 0x1_0000_0000,
            scene.wf(),
            scene.selected() == old(scene).selected(),
            grown(scene@, nodes, kids.skip(k as int), scene_parent, dx as int, dy as int, depth as nat)
                == grown(old(scene)@, nodes, kids, scene_parent, dx as int, dy as int, depth as nat),
        decreases template_parent.children.len() - k,
    {
        let child_id: NodeId = template_parent.children[k];
        let ghost s0 = scene@;
        proof {
            let rest = kids.skip(k as int);
            assert(rest[0] == child_id);
            assert(rest.skip(1) =~= kids.skip(k as int + 1));
        }
        match node_index(all_nodes, child_id) {
            Some(j) => {
                let template_child = &all_nodes[j];
                assert(template_child@ == nodes[j as int]);
                let mut new_node = template_child.clone();
                let parent_has_layout: bool = match scene.get_node(scene_parent) {
                    Some(p) => p.layout.mode != LayoutMode::Off,
                    None => false,
                };
                if !parent_has_layout {
                    new_node.x = clamp_scalar(new_node.x as i128 + dx as i128);
                    new_node.y = clamp_scalar(new_node.y as i128 + dy as i128);
                }
                new_node.parent = Some(scene_parent);
                assert(new_node@ == placed_copy(s0, nodes[j as int], scene_parent, dx as int, dy as int));
                let new_id = scene.add_node(new_node);
                if new_id != 0 {
                    clone_template_children(
                        scene,
                        template_child,
                        all_nodes,
                        new_id,
                        dx,
                        dy,
                        depth - 1,
                    );
                }
            },
            None => {},
        }
        k += 1;
    }
    assert(kids.skip(kids.len() as int) =~= Seq::<NodeId>::empty());
}

/// The variant that a new instance of a component shows: the one that the
/// default values of the properties resolve to, else the first one, else none.
pub open spec fn chosen_variant(comp: ComponentView) -> Option<VariantDataView> {
    match comp.resolve(default_key_of(comp.properties)) {
        Some(v) => Some(v),
        None => if comp.variants.len() > 0 {
            Some(comp.variants[0].data)
        } else {
            None
        },
    }
}

/// A node with the size, fill, stroke, corner radius and layout of the root
/// of a template, if the template has one.
pub open spec fn dressed(n: NodeView, v: VariantDataView) -> NodeView {
    if v.nodes.len() > 0 {
        let t = v.nodes[0];
        NodeView {
            width: t.width,
            height: t.height,
            fill: t.fill,
            stroke: t.stroke,
            corner_radius: t.corner_radius,
            layout: t.layout,
            ..n
        }
    } else {
        n
    }
}

/// The root node of a new instance.
pub open spec fn instance_root(
    comp: ComponentView,
    comp_id: ComponentId,
    v: VariantDataView,
    x: Scalar,
    y: Scalar,
) -> NodeView {
    let base = new_node(
        0,
        NodeKindView::Instance(
            InstanceDataView {
                component_id: comp_id,
                variant_values: default_key_of(comp.properties),
                slot_fills: Seq::empty(),
                overrides: Seq::empty(),
            },
        ),
    );
    dressed(NodeView { name: "[I] "@ + comp.name, x, y, ..base }, v)
}

/// The scene after the children of the root of a template have been copied
/// under a node that stands at a position.
pub open spec fn with_template(s: SceneView, v: VariantDataView, root: NodeId, x: Scalar, y: Scalar) -> SceneView {
    if v.nodes.len() == 0 {
        s
    } else {
        let t = v.nodes[0];
        grown(s, v.nodes, t.children, root, x - t.x, y - t.y, v.nodes.len())
    }
}

/// The scene after an instance of a component has been created at a
/// position: unchanged where the component has no variant or the root cannot
/// be inserted; else the root is a new root of the scene and the template of
/// the chosen variant is copied under it.
pub open spec fn with_instance(s: SceneView, comp: ComponentView, comp_id: ComponentId, x: Scalar, y: Scalar) -> SceneView {
    match chosen_variant(comp) {
        None => s,
        Some(v) => {
            let root = instance_root(comp, comp_id, v, x, y);
            if !s.can_insert(root) {
                s
            } else {
                with_template(s.inserted(root), v, s.next_id, x, y)
            }
        },
    }
}

/// A component without variants has no instances: creating one changes
/// nothing.
pub proof fn lemma_no_variant_no_instance(
    s: SceneView,
    comp: ComponentView,
    comp_id: ComponentId,
    x: Scalar,
    y: Scalar,
)
    requires
        comp.variants.len() == 0,
    ensures
        chosen_variant(comp) is None,
        with_instance(s, comp, comp_id, x, y) == s,
{
}

/// Gives a node the size, fill, stroke, corner radius and layout of the root
/// of a template.
fn dress(node: &mut Node, variant: &VariantData)
    ensures
        final(node)@ == dressed(old(node)@, variant@),
{
    if variant.nodes.len() > 0 {
        let t = &variant.nodes[0];
        assert(t@ == variant@.nodes[0]);
        node.width = t.width;
        node.height = t.height;
        node.fill = t.fill;
        node.stroke = t.stroke;
        node.corner_radius = t.corner_radius;
        node.layout = t.layout;
    }
}

/// Copies the children of the root of a template under a node that stands at
/// a position.
fn copy_template(scene: &mut Scene, variant: &VariantData, root: NodeId, x: Scalar, y: Scalar)
    requires
        old(scene).wf(),
    ensures
        final(scene)@ == with_template(old(scene)@, variant@, root, x, y),
        final(scene).wf(),
        final(scene).selected() == old(scene).selected(),
{
    if variant.nodes.len() > 0 {
        let t = &variant.nodes[0];
        assert(t@ == variant@.nodes[0]);
        let dx: i64 = x as i64 - t.x as i64;
        let dy: i64 = y as i64 - t.y as i64;
        clone_template_children(scene, t, &variant.nodes, root, dx, dy, variant.nodes.len());
    }
}

/// The variant that a new instance of a component shows.
fn choose_variant<'a>(comp: &'a Component, default_key: &VariantKey) -> (r: Option<&'a VariantData>)
    requires
        views(default_key@) == default_key_of(comp@.properties),
    ensures
        match r {
            Some(v) => chosen_variant(comp@) == Some(v@),
            None => chosen_variant(comp@) is None,
        },
{
    match comp.get_variant(default_key) {
        Some(v) => Some(v),
        None => {
            if comp.variants.len() > 0 {
                assert(comp@.variants[0].data == comp.variants@[0].data@);
                Some(&comp.variants[0].data)
            } else {
                None
            }
        },
    }
}

/// Creates an instance of a component at a position: a new root node that
/// records the component and the default values of its properties, with the
/// template of the chosen variant copied under it. Returns the id of the new
/// node, or 0, the scene unchanged, where the component does not exist or has
/// no variant, or no id is left.
pub fn create_instance(
    scene: &mut Scene,
    components: &ComponentStore,
    comp_id: ComponentId,
    x: Scalar,
    y: Scalar,
) -> (id: NodeId)
    requires
        old(scene).wf(),
    ensures
        final(scene).wf(),
        final(scene).selected() == old(scene).selected(),
        !components@.components.contains_key(comp_id) ==> id == 0 && final(scene)@ == old(scene)@,
        components@.components.contains_key(comp_id) ==> {
            let comp = components@.components[comp_id];
            &&& final(scene)@ == with_instance(old(scene)@, comp, comp_id, x, y)
            &&& id == match chosen_variant(comp) {
                None => 0,
                Some(v) => if old(scene)@.can_insert(instance_root(comp, comp_id, v, x, y)) {
                    old(scene)@.next_id
                } else {
                    0
                },
            }
            &&& chosen_variant(comp) is None ==> final(scene)@ == old(scene)@
        },
{
    let comp = match components.get(comp_id) {
        Some(c) => c,
        None => {
            return 0;
        },
    };
    let default_key = comp.default_key();
    let variant = match choose_variant(comp, &default_key) {
        Some(v) => v,
        None => {
            return 0;
        },
    };
    let data = InstanceData {
        component_id: comp_id,
        variant_values: default_key,
        slot_fills: Vec::new(),
        overrides: Vec::new(),
    };
    assert(data@.slot_fills =~= Seq::empty());
    assert(data@.overrides =~= Seq::empty());
    let mut root = Node::new(0, NodeKind::Instance(Box::new(data)));
    let mut name = String::from_str("[I] ");
    name.append(comp.name.as_str());
    root.name = name;
    root.x = x;
    root.y = y;
    dress(&mut root, variant);
    assert(root@ == instance_root(comp@, comp_id, variant@, x, y));
    let root_id = scene.add_node(root);
    if root_id == 0 {
        return 0;
    }
    copy_template(scene, variant, root_id, x, y);
    root_id
}

/// The scene after the nodes of a list have been removed, one after the
/// other, each with its descendants.
pub open spec fn removed_all(s: SceneView, ids: Seq<NodeId>) -> SceneView
    decreases ids.len(),
{
    if ids.len() == 0 {
        s
    } else {
        removed_all(s.removed(ids[0]), ids.skip(1))
    }
}

/// The component that a node is an instance of, if it is an instance.
pub open spec fn instance_of(s: SceneView, id: NodeId) -> Option<InstanceDataView> {
    if s.contains(id) {
        match s.nodes[id].kind {
            NodeKindView::Instance(d) => Some(d),
            _ => None,
        }
    } else {
        None
    }
}

/// The root of an instance after it has switched to a variant: it records
/// the key and is dressed as the root of the template.
pub open spec fn switched_root(n: NodeView, key: Seq<KeyEntryView>, v: VariantDataView) -> NodeView {
    let kind = match n.kind {
        NodeKindView::Instance(d) => NodeKindView::Instance(
            InstanceDataView { variant_values: key, ..d },
        ),
        k => k,
    };
    dressed(NodeView { kind, ..n }, v)
}

/// The scene after an instance has switched to a variant: its children are
/// removed with all their descendants, its root is dressed as the root of the
/// template and records the key, and the template is copied under it.
pub open spec fn with_variant_switched(s: SceneView, id: NodeId, key: Seq<KeyEntryView>, v: VariantDataView) -> SceneView {
    let s1 = removed_all(s, s.children(id));
    let s2 = s1.with_node(id, switched_root(s1.nodes[id], key, v));
    with_template(s2, v, id, s2.nodes[id].x, s2.nodes[id].y)
}

/// The data that an instance node records, if the node is an instance.
fn instance_data(scene: &Scene, id: NodeId) -> (r: Option<InstanceData>)
    ensures
        match r {
            Some(d) => instance_of(scene@, id) == Some(d@),
            None => instance_of(scene@, id) is None,
        },
{
    match scene.get_node(id) {
        Some(node) => match &node.kind {
            NodeKind::Instance(data) => {
                let d: &InstanceData = &**data;
                Some(d.clone())
            },
            _ => None,
        },
        None => None,
    }
}

/// Removes the children of a node with all their descendants.
fn remove_children(scene: &mut Scene, id: NodeId)
    requires
        old(scene).wf(),
        old(scene)@.contains(id),
    ensures
        final(scene)@ == removed_all(old(scene)@, old(scene)@.children(id)),
        final(scene).wf(),
        final(scene)@.contains(id),
        final(scene).selected() == without_all(old(scene).selected(), old(scene)@.children(id)),
{
    let children = scene.get_children_of(id);
    let ghost s0 = scene@;
    let mut k: usize = 0;
    assert(children@.skip(0) =~= children@);
    while k < children.len()
        invariant
            k <= children.len(),
            scene.wf(),
            scene@.contains(id),
            forall|x: NodeId| #[trigger]
                scene@.contains(x) ==> s0.contains(x) && scene@.parent(x) == s0.parent(x),
            s0.wf(),
            children@ == s0.children(id),
            removed_all(scene@, children@.skip(k as int)) == removed_all(s0, children@),
            without_all(scene.selected(), children@.skip(k as int)) == without_all(
                old(scene).selected(),
                children@,
            ),
        decreases children.len() - k,
    {
        let c: NodeId = children[k];
        let ghost s = scene@;
        proof {
            let rest = children@.skip(k as int);
            assert(rest[0] == c);
            assert(rest.skip(1) =~= children@.skip(k as int + 1));
            assert(s0.contains(s0.children(id)[k as int]));
            assert(s0.parent(c) == Some(id));
            if s.contains(c) {
                s.lemma_parent_outside_child(id, c);
            }
        }
        scene.remove_node(c);
        k += 1;
    }
    assert(children@.skip(children.len() as int) =~= Seq::<NodeId>::empty());
}

/// Switches an instance to the variant stored under exactly the given key.
/// Returns false, and changes nothing, where the node is not an instance,
/// its component does not exist, or the component has no variant under the
/// key. Else the children of the instance are removed, its root is dressed
/// as the root of the new template and records the key, and the template is
/// copied under it; what was recorded against the removed children stays as
/// it was.
pub fn set_instance_variant(
    scene: &mut Scene,
    components: &ComponentStore,
    instance_id: NodeId,
    key: VariantKey,
) -> (done: bool)
    requires
        old(scene).wf(),
    ensures
        final(scene).wf(),
        done == match instance_of(old(scene)@, instance_id) {
            Some(d) => components@.components.contains_key(d.component_id)
                && components@.components[d.component_id].exact(views(key@)) is Some,
            None => false,
        },
        !done ==> final(scene)@ == old(scene)@ && final(scene).selected() == old(scene).selected(),
        done ==> final(scene)@ == with_variant_switched(
            old(scene)@,
            instance_id,
            views(key@),
            components@.components[instance_of(
                old(scene)@,
                instance_id,
            ).unwrap().component_id].exact(views(key@)).unwrap(),
        ) && final(scene).selected() == without_all(
            old(scene).selected(),
            old(scene)@.children(instance_id),
        ),
{
    let data = match instance_data(scene, instance_id) {
        Some(d) => d,
        None => {
            return false;
        },
    };
    let comp = match components.get(data.component_id) {
        Some(c) => c,
        None => {
            return false;
        },
    };
    let variant = match comp.get_exact_variant(&key) {
        Some(v) => v,
        None => {
            return false;
        },
    };
    remove_children(scene, instance_id);
    let ghost s1 = scene@;
    let mut new_data = match instance_data(scene, instance_id) {
        Some(d) => d,
        None => data,
    };
    new_data.variant_values = key;
    let (x, y): (Scalar, Scalar) = match scene.get_node_mut(instance_id) {
        Some(node) => {
            match &node.kind {
                NodeKind::Instance(_) => {
                    node.kind = NodeKind::Instance(Box::new(new_data));
                },
                _ => {},
            }
            dress(node, variant);
            (node.x, node.y)
        },
        None => (0, 0),
    };
    proof {
        s1.lemma_with_node_wf(instance_id, scene@.nodes[instance_id]);
    }
    copy_template(scene, variant, instance_id, x, y);
    true
}

/// Whether a node is a slot of a name.
pub open spec fn is_slot(s: SceneView, x: NodeId, name: Seq<char>) -> bool {
    s.contains(x) && match s.nodes[x].kind {
        NodeKindView::Slot { slot_name } => slot_name == name,
        _ => false,
    }
}

/// The first id of a list, from a position on, that names a slot of a name.
pub open spec fn first_slot(s: SceneView, ids: Seq<NodeId>, name: Seq<char>, from: int) -> Option<
    NodeId,
>
    decreases ids.len() - from,
{
    if from < 0 || from >= ids.len() {
        None
    } else if is_slot(s, ids[from], name) {
        Some(ids[from])
    } else {
        first_slot(s, ids, name, from + 1)
    }
}

/// The slot of a name below a node: the first, depth first, of its
/// descendants that is a slot of that name.
pub open spec fn slot_below(s: SceneView, id: NodeId, name: Seq<char>) -> Option<NodeId> {
    first_slot(s, s.subtree(id), name, 1)
}

/// The first slot of a name among the descendants of a node, depth first.
pub fn find_slot_in_children(scene: &Scene, parent_id: NodeId, slot_name: &String) -> (r: Option<
    NodeId,
>)
    requires
        scene.wf(),
    ensures
        r == slot_below(scene@, parent_id, slot_name@),
{
    let ids = scene.subtree_ids(parent_id);
    let mut i: usize = 1;
    while i < ids.len()
        invariant
            1 <= i,
            ids@ == scene@.subtree(parent_id),
            slot_below(scene@, parent_id, slot_name@) == first_slot(
                scene@,
                ids@,
                slot_name@,
                i as int,
            ),
        decreases ids.len() - i,
    {
        match scene.get_node(ids[i]) {
            Some(node) => match &node.kind {
                NodeKind::Slot { slot_name: sn } => {
                    if *sn == *slot_name {
                        return Some(ids[i]);
                    }
                },
                _ => {},
            },
            None => {},
        }
        i += 1;
    }
    None
}

/// The position of the first record, from a position on, of the content of
/// a slot of a name.
pub open spec fn find_fill(fills: Seq<SlotFillView>, name: Seq<char>, from: int) -> Option<int>
    decreases fills.len() - from,
{
    if from < 0 || from >= fills.len() {
        None
    } else if fills[from].name == name {
        Some(from)
    } else {
        find_fill(fills, name, from + 1)
    }
}

/// The records of slot contents after a node has been added to the content
/// of a slot: at the end of the record of that slot, or as a new record.
pub open spec fn fill_added(fills: Seq<SlotFillView>, name: Seq<char>, content: NodeId) -> Seq<
    SlotFillView,
> {
    match find_fill(fills, name, 0) {
        Some(i) => fills.update(i, SlotFillView { name, nodes: fills[i].nodes.push(content) }),
        None => fills.push(SlotFillView { name, nodes: seq![content] }),
    }
}

/// Adds a node to the recorded content of a slot.
fn add_fill(fills: &mut Vec<SlotFill>, name: &String, content: NodeId)
    ensures
        views(final(fills)@) == fill_added(views(old(fills)@), name@, content),
{
    let ghost before = views(fills@);
    let mut i: usize = 0;
    while i < fills.len()
        invariant
            i <= fills.len(),
            fills@ == old(fills)@,
            before == views(fills@),
            before.len() == fills@.len(),
            find_fill(before, name@, 0) == find_fill(before, name@, i as int),
        decreases fills.len() - i,
    {
        assert(before[i as int].name == fills@[i as int].name@);
        if fills[i].name == *name {
            fills[i].nodes.push(content);
            assert(views(fills@) =~= before.update(
                i as int,
                SlotFillView { name: name@, nodes: before[i as int].nodes.push(content) },
            ));
            return ;
        }
        i += 1;
    }
    let mut nodes: Vec<NodeId> = Vec::new();
    nodes.push(content);
    assert(nodes@ =~= seq![content]);
    fills.push(SlotFill { name: name.clone(), nodes });
    assert(views(fills@) =~= before.push(SlotFillView { name: name@, nodes: seq![content] }));
}

/// The scene after a node has filled a slot of an instance: the node has
/// moved to the end of the children of the slot, and the instance records it
/// under the name of the slot.
pub open spec fn slot_filled(s: SceneView, instance: NodeId, slot: NodeId, name: Seq<char>, content: NodeId) -> SceneView {
    let s1 = s.reparented(content, Some(slot));
    let n = s1.nodes[instance];
    match n.kind {
        NodeKindView::Instance(d) => s1.with_node(
            instance,
            NodeView {
                kind: NodeKindView::Instance(
                    InstanceDataView { slot_fills: fill_added(d.slot_fills, name, content), ..d },
                ),
                ..n
            },
        ),
        _ => s1,
    }
}

/// Whether a node can fill a slot of a name of an instance: the node is an
/// instance, it has a slot of that name below it, and the content can move
/// under the slot.
pub open spec fn can_fill_slot(s: SceneView, instance: NodeId, name: Seq<char>, content: NodeId) -> bool {
    &&& instance_of(s, instance) is Some
    &&& slot_below(s, instance, name) is Some
    &&& s.can_reparent(content, slot_below(s, instance, name))
}

/// Fills a slot of an instance with a node of the scene: the node moves to
/// the end of the children of the slot, and the instance records it under
/// the name of the slot, after what it has recorded there before. Returns
/// false, and changes nothing, where that cannot be done.
pub fn fill_slot(scene: &mut Scene, instance_id: NodeId, slot_name: &String, content_node_id: NodeId) -> (done: bool)
    requires
        old(scene).wf(),
    ensures
        final(scene).wf(),
        final(scene).selected() == old(scene).selected(),
        done == can_fill_slot(old(scene)@, instance_id, slot_name@, content_node_id),
        !done ==> final(scene)@ == old(scene)@,
        done ==> final(scene)@ == slot_filled(
            old(scene)@,
            instance_id,
            slot_below(old(scene)@, instance_id, slot_name@).unwrap(),
            slot_name@,
            content_node_id,
        ),
{
    let mut data = match instance_data(scene, instance_id) {
        Some(d) => d,
        None => {
            return false;
        },
    };
    let slot_id = match find_slot_in_children(scene, instance_id, slot_name) {
        Some(id) => id,
        None => {
            return false;
        },
    };
    if scene.get_node(content_node_id).is_none() || scene.get_node(slot_id).is_none() {
        return false;
    }
    let below = scene.subtree_ids(content_node_id);
    if crate::ids::contains_id(&below, slot_id) {
        return false;
    }
    let ghost s0 = scene@;
    scene.reparent(content_node_id, Some(slot_id));
    let ghost s1 = scene@;
    proof {
        s0.lemma_subtree_first(content_node_id);
        assert(s1.nodes[instance_id].kind == s0.nodes[instance_id].kind);
    }
    add_fill(&mut data.slot_fills, slot_name, content_node_id);
    match scene.get_node_mut(instance_id) {
        Some(node) => {
            node.kind = NodeKind::Instance(Box::new(data));
        },
        None => {},
    }
    proof {
        s1.lemma_with_node_wf(instance_id, scene@.nodes[instance_id]);
    }
    true
}

/// A node with overrides applied: its text, if it is a text node and a text
/// is given, and its visibility, if one is given. A fill is recorded only.
pub open spec fn overridden(n: NodeView, ov: NodeOverridesView) -> NodeView {
    let kind = match (ov.text, n.kind) {
        (Some(t), NodeKindView::Text { content, font_size, font_family }) => NodeKindView::Text {
            content: t,
            font_size,
            font_family,
        },
        (_, k) => k,
    };
    NodeView {
        kind,
        visible: match ov.visible {
            Some(v) => v,
            None => n.visible,
        },
        ..n
    }
}

/// The position of the first record of overrides, from a position on, for a
/// node.
pub open spec fn find_override(entries: Seq<OverrideEntryView>, node: NodeId, from: int) -> Option<
    int,
>
    decreases entries.len() - from,
{
    if from < 0 || from >= entries.len() {
        None
    } else if entries[from].node == node {
        Some(from)
    } else {
        find_override(entries, node, from + 1)
    }
}

/// The records of overrides after those of a node have been set: in place of
/// its record, or as a new record.
pub open spec fn override_recorded(entries: Seq<OverrideEntryView>, node: NodeId, ov: NodeOverridesView) -> Seq<
    OverrideEntryView,
> {
    let e = OverrideEntryView { node, overrides: ov };
    match find_override(entries, node, 0) {
        Some(i) => entries.update(i, e),
        None => entries.push(e),
    }
}

/// Sets the recorded overrides of a node.
fn record_override(entries: &mut Vec<OverrideEntry>, node: NodeId, ov: NodeOverrides)
    ensures
        views(final(entries)@) == override_recorded(views(old(entries)@), node, ov@),
{
    let ghost before = views(entries@);
    let mut i: usize = 0;
    while i < entries.len()
        invariant
            i <= entries.len(),
            entries@ == old(entries)@,
            before == views(entries@),
            before.len() == entries@.len(),
            find_override(before, node, 0) == find_override(before, node, i as int),
        decreases entries.len() - i,
    {
        assert(before[i as int].node == entries@[i as int].node);
        if entries[i].node == node {
            entries[i] = OverrideEntry { node, overrides: ov };
            assert(views(entries@) =~= before.update(
                i as int,
                OverrideEntryView { node, overrides: ov@ },
            ));
            return ;
        }
        i += 1;
    }
    entries.push(OverrideEntry { node, overrides: ov });
    assert(views(entries@) =~= before.push(OverrideEntryView { node, overrides: ov@ }));
}

/// The scene after overrides have been set for a node of an instance: they
/// are applied to the node and recorded by the instance.
pub open spec fn with_override(s: SceneView, instance: NodeId, target: NodeId, ov: NodeOverridesView) -> SceneView {
    let s1 = s.with_node(target, overridden(s.nodes[target], ov));
    let n = s1.nodes[instance];
    match n.kind {
        NodeKindView::Instance(d) => s1.with_node(
            instance,
            NodeView {
                kind: NodeKindView::Instance(
                    InstanceDataView {
                        overrides: override_recorded(d.overrides, target, ov),
                        ..d
                    },
                ),
                ..n
            },
        ),
        _ => s1,
    }
}

/// Sets overrides for a node of an instance. The text is applied to the node
/// if it is a text node, the visibility whatever it is, and the instance
/// records the overrides for the node, in place of what it had recorded for
/// it. Returns false, and changes nothing, where the first node is not an
/// instance or the second does not exist.
pub fn set_instance_override(
    scene: &mut Scene,
    instance_id: NodeId,
    target_node_id: NodeId,
    overrides: NodeOverrides,
) -> (done: bool)
    requires
        old(scene).wf(),
    ensures
        final(scene).wf(),
        final(scene).selected() == old(scene).selected(),
        done == (instance_of(old(scene)@, instance_id) is Some && old(scene)@.contains(
            target_node_id,
        )),
        !done ==> final(scene)@ == old(scene)@,
        done ==> final(scene)@ == with_override(
            old(scene)@,
            instance_id,
            target_node_id,
            overrides@,
        ),
{
    let mut data = match instance_data(scene, instance_id) {
        Some(d) => d,
        None => {
            return false;
        },
    };
    let new_kind: Option<NodeKind> = match scene.get_node(target_node_id) {
        Some(node) => match (&overrides.text, &node.kind) {
            (Some(t), NodeKind::Text { content, font_size, font_family }) => Some(
                NodeKind::Text {
                    content: t.clone(),
                    font_size: *font_size,
                    font_family: font_family.clone(),
                },
            ),
            _ => None,
        },
        None => {
            return false;
        },
    };
    let ghost s0 = scene@;
    match scene.get_node_mut(target_node_id) {
        Some(node) => {
            match new_kind {
                Some(k) => {
                    node.kind = k;
                },
                None => {},
            }
            match overrides.visible {
                Some(v) => {
                    node.visible = v;
                },
                None => {},
            }
        },
        None => {},
    }
    let ghost s1 = scene@;
    proof {
        assert(s1.nodes[target_node_id] == overridden(s0.nodes[target_node_id], overrides@));
        s0.lemma_with_node_wf(target_node_id, s1.nodes[target_node_id]);
        assert(s1.nodes[instance_id].kind == s0.nodes[instance_id].kind);
    }
    record_override(&mut data.overrides, target_node_id, overrides);
    match scene.get_node_mut(instance_id) {
        Some(node) => {
            node.kind = NodeKind::Instance(Box::new(data));
        },
        None => {},
    }
    proof {
        s1.lemma_with_node_wf(instance_id, scene@.nodes[instance_id]);
    }
    true
}

/// The name of a frame that a component has been made of: `[C] ` before the
/// name without the marks that it bore already.
pub open spec fn component_mark(name: Seq<char>) -> Seq<char> {
    "[C] "@ + stripped(stripped(name, "\u{2B21} "@), "[C] "@)
}

/// The component that is made of a frame: it has one variant, its default,
/// stored under the empty key: a snapshot of the frame and its descendants.
pub open spec fn component_of_frame(s: SceneView, id: ComponentId, name: Seq<char>, frame: NodeId) -> ComponentView {
    ComponentView {
        id,
        name,
        description: Seq::empty(),
        properties: Seq::empty(),
        slots: Seq::empty(),
        variants: seq![
            VariantEntryView {
                key: Seq::empty(),
                data: VariantDataView {
                    key: Seq::empty(),
                    root_node_id: frame,
                    nodes: s.snapshot(frame),
                },
            },
        ],
        default_variant_key: Seq::empty(),
    }
}

/// Makes a component of a frame of the scene. The component gets the next
/// free id and one variant, a snapshot of the frame and its descendants, so
/// that later changes of the frame do not reach it; the frame, if it exists,
/// is marked in its name. Returns the id of the component, or 0, nothing
/// changed, where no id is left.
pub fn create_component(
    scene: &mut Scene,
    components: &mut ComponentStore,
    frame_id: NodeId,
    name: &String,
) -> (id: ComponentId)
    requires
        old(scene).wf(),
        old(components).wf(),
    ensures
        final(scene).wf(),
        final(components).wf(),
        final(scene).selected() == old(scene).selected(),
        old(components)@.next_id == u64::MAX ==> id == 0 && final(scene)@ == old(scene)@
            && final(components)@ == old(components)@,
        old(components)@.next_id < u64::MAX ==> {
            &&& id == old(components)@.next_id
            &&& final(components)@ == (ComponentStoreView {
                components: old(components)@.components.insert(
                    id,
                    component_of_frame(old(scene)@, id, name@, frame_id),
                ),
                next_id: (id + 1) as ComponentId,
            })
            &&& final(scene)@ == if old(scene)@.contains(frame_id) {
                old(scene)@.with_node(
                    frame_id,
                    NodeView {
                        name: component_mark(old(scene)@.nodes[frame_id].name),
                        ..old(scene)@.nodes[frame_id]
                    },
                )
            } else {
                old(scene)@
            }
        },
{
    let comp_id = components.create(name.clone());
    if comp_id == 0 {
        return 0;
    }
    let nodes = scene.deep_clone_subtree(frame_id);
    let ghost c0 = components@;
    match components.get_mut(comp_id) {
        Some(comp) => {
            comp.default_variant_key = String::new();
            let data = VariantData { key: Vec::new(), root_node_id: frame_id, nodes };
            assert(data@.key =~= Seq::empty());
            let ghost before = views(comp.variants@);
            comp.variants.push(crate::component::VariantEntry { key: String::new(), data });
            proof {
                assert(before =~= Seq::empty());
                assert(views(comp.variants@) =~= seq![
                    VariantEntryView { key: Seq::<char>::empty(), data: data@ },
                ]);
            }
        },
        None => {},
    }
    proof {
        assert(components@.components =~= old(components)@.components.insert(
            comp_id,
            component_of_frame(old(scene)@, comp_id, name@, frame_id),
        ));
    }
    let new_name: Option<String> = match scene.get_node(frame_id) {
        Some(node) => {
            proof {
                reveal_strlit("\u{2B21} ");
                reveal_strlit("[C] ");
            }
            let a = strip_prefix_all(node.name.as_str(), "\u{2B21} ");
            let b = strip_prefix_all(a.as_str(), "[C] ");
            let mut marked = String::from_str("[C] ");
            marked.append(b.as_str());
            Some(marked)
        },
        None => None,
    };
    match new_name {
        Some(marked) => {
            match scene.get_node_mut(frame_id) {
                Some(node) => {
                    node.name = marked;
                },
                None => {},
            }
            proof {
                old(scene)@.lemma_with_node_wf(frame_id, scene@.nodes[frame_id]);
            }
        },
        None => {},
    }
    comp_id
}

/// Stores a snapshot of a frame and its descendants as the variant of a
/// component under a key. Returns false, nothing changed, where the
/// component does not exist.
pub fn add_variant(
    scene: &Scene,
    components: &mut ComponentStore,
    comp_id: ComponentId,
    key: VariantKey,
    frame_id: NodeId,
) -> (done: bool)
    requires
        scene.wf(),
    ensures
        done == old(components)@.components.contains_key(comp_id),
        !done ==> final(components)@ == old(components)@,
        done ==> final(components)@ == (ComponentStoreView {
            components: old(components)@.components.insert(
                comp_id,
                old(components)@.components[comp_id].with_variant(
                    views(key@),
                    VariantDataView {
                        key: Seq::empty(),
                        root_node_id: frame_id,
                        nodes: scene@.snapshot(frame_id),
                    },
                ),
            ),
            next_id: old(components)@.next_id,
        }),
{
    let nodes = scene.deep_clone_subtree(frame_id);
    match components.get_mut(comp_id) {
        Some(comp) => {
            let data = VariantData { key: Vec::new(), root_node_id: frame_id, nodes };
            assert(data@.key =~= Seq::empty());
            comp.set_variant(key, data);
            true
        },
        None => false,
    }
}

/// The node that stands for a slot of a name in a template.
pub open spec fn slot_marked(n: NodeView, name: Seq<char>) -> NodeView {
    NodeView { kind: NodeKindView::Slot { slot_name: name }, name: "[S] "@ + name, ..n }
}

/// Declares a slot of a component, and turns its placeholder, if the scene
/// holds it, into a slot node. Returns false, nothing changed, where the
/// component does not exist.
pub fn add_slot(
    scene: &mut Scene,
    components: &mut ComponentStore,
    comp_id: ComponentId,
    slot_name: &String,
    placeholder_node_id: NodeId,
) -> (done: bool)
    requires
        old(scene).wf(),
    ensures
        final(scene).wf(),
        final(scene).selected() == old(scene).selected(),
        done == old(components)@.components.contains_key(comp_id),
        !done ==> final(components)@ == old(components)@ && final(scene)@ == old(scene)@,
        done ==> {
            let c = old(components)@.components[comp_id];
            &&& final(components)@ == (ComponentStoreView {
                components: old(components)@.components.insert(
                    comp_id,
                    ComponentView {
                        slots: c.slots.push(
                            SlotDefView {
                                name: slot_name@,
                                placeholder_node_id,
                                default_children: Seq::empty(),
                            },
                        ),
                        ..c
                    },
                ),
                next_id: old(components)@.next_id,
            })
            &&& final(scene)@ == if old(scene)@.contains(placeholder_node_id) {
                old(scene)@.with_node(
                    placeholder_node_id,
                    slot_marked(old(scene)@.nodes[placeholder_node_id], slot_name@),
                )
            } else {
                old(scene)@
            }
        },
{
    match components.get_mut(comp_id) {
        Some(comp) => {
            let ghost before = views(comp.slots@);
            let def = SlotDef {
                name: slot_name.clone(),
                placeholder_node_id,
                default_children: Vec::new(),
            };
            comp.slots.push(def);
            assert(views(comp.slots@) =~= before.push(def@));
        },
        None => {
            return false;
        },
    }
    match scene.get_node_mut(placeholder_node_id) {
        Some(node) => {
            node.kind = NodeKind::Slot { slot_name: slot_name.clone() };
            let mut label = String::from_str("[S] ");
            label.append(slot_name.as_str());
            node.name = label;
        },
        None => {},
    }
    proof {
        if old(scene)@.contains(placeholder_node_id) {
            old(scene)@.lemma_with_node_wf(placeholder_node_id, scene@.nodes[placeholder_node_id]);
        }
    }
    true
}

/// What an instance says of its component.
#[derive(Debug)]
pub struct InstanceInfo {
    pub component_id: ComponentId,
    pub component_name: String,
    /// The root of the template of the default variant, or 0 where the
    /// component has none.
    pub source_node_id: NodeId,
}

/// The root of the template of the default variant of a component, or 0.
pub open spec fn source_node(comp: ComponentView) -> NodeId {
    match find_variant(comp.variants, comp.default_variant_key, 0) {
        Some(i) => comp.variants[i].data.root_node_id,
        None => 0,
    }
}

/// The component of an instance node: its id, its name, and the node that
/// its default variant was made of. None where the node is not an instance
/// or its component does not exist.
pub fn get_instance_component_info(scene: &Scene, components: &ComponentStore, node_id: NodeId) -> (r: Option<
    InstanceInfo,
>)
    ensures
        match r {
            Some(info) => {
                &&& instance_of(scene@, node_id) is Some
                &&& info.component_id == instance_of(scene@, node_id).unwrap().component_id
                &&& components@.components.contains_key(info.component_id)
                &&& info.component_name@ == components@.components[info.component_id].name
                &&& info.source_node_id == source_node(components@.components[info.component_id])
            },
            None => match instance_of(scene@, node_id) {
                Some(d) => !components@.components.contains_key(d.component_id),
                None => true,
            },
        },
{
    let comp_id: ComponentId = match scene.get_node(node_id) {
        Some(node) => match &node.kind {
            NodeKind::Instance(data) => data.component_id,
            _ => {
                return None;
            },
        },
        None => {
            return None;
        },
    };
    match components.get(comp_id) {
        Some(comp) => {
            let source: NodeId = match crate::component::variant_index(
                &comp.variants,
                &comp.default_variant_key,
            ) {
                Some(i) => {
                    assert(comp@.variants[i as int].data == comp.variants@[i as int].data@);
                    comp.variants[i].data.root_node_id
                },
                None => 0,
            };
            Some(
                InstanceInfo {
                    component_id: comp_id,
                    component_name: comp.name.clone(),
                    source_node_id: source,
                },
            )
        },
        None => None,
    }
}

/// The copy that duplicates a node: twenty units right of it and below it.
pub open spec fn duplicate_of(n: NodeView) -> NodeView {
    NodeView {
        x: clamp_int(n.x + 20 * UNIT) as Scalar,
        y: clamp_int(n.y + 20 * UNIT) as Scalar,
        ..n
    }
}

/// Duplicates a node, without its children: the copy stands twenty units
/// right of the node and below it, and after the node's siblings. Returns
/// the id of the copy, or 0, the scene unchanged, where the node does not
/// exist or no id is left.
pub fn duplicate_node(scene: &mut Scene, id: NodeId) -> (r: NodeId)
    requires
        old(scene).wf(),
    ensures
        final(scene).wf(),
        final(scene).selected() == old(scene).selected(),
        !old(scene)@.contains(id) ==> r == 0 && final(scene)@ == old(scene)@,
        old(scene)@.contains(id) ==> {
            let copy = duplicate_of(old(scene)@.nodes[id]);
            &&& final(scene)@ == old(scene)@.inserted(copy)
            &&& r == if old(scene)@.can_insert(copy) {
                old(scene)@.next_id
            } else {
                0
            }
        },
{
    let mut copy = match scene.get_node(id) {
        Some(node) => node.clone(),
        None => {
            return 0;
        },
    };
    copy.x = clamp_scalar(copy.x as i128 + 20 * UNIT as i128);
    copy.y = clamp_scalar(copy.y as i128 + 20 * UNIT as i128);
    scene.add_node(copy)
}

/// Declares a variant property of a component, described by a JSON text
/// with the members `type` (`boolean` or `string`), `default` and, for a
/// string, `options`. Returns false, nothing changed, where the text
/// describes no property or the component does not exist.
pub fn add_variant_prop(
    components: &mut ComponentStore,
    comp_id: ComponentId,
    name: &str,
    prop_json: &str,
) -> (done: bool)
    ensures
        done == (prop_of_json(prop_json@) is Some && old(components)@.components.contains_key(
            comp_id,
        )),
        !done ==> final(components)@ == old(components)@,
        done ==> {
            let c = old(components)@.components[comp_id];
            let p = prop_of_json(prop_json@).unwrap();
            final(components)@ == (ComponentStoreView {
                components: old(components)@.components.insert(
                    comp_id,
                    ComponentView {
                        properties: c.properties.push(
                            VariantPropView { name: name@, prop_type: p.0, default_value: p.1 },
                        ),
                        ..c
                    },
                ),
                next_id: old(components)@.next_id,
            })
        },
{
    let (prop_type, default_value) = match read_prop(prop_json) {
        Some(p) => p,
        None => {
            return false;
        },
    };
    match components.get_mut(comp_id) {
        Some(comp) => {
            let ghost before = views(comp.properties@);
            let prop = VariantProp { name: String::from_str(name), prop_type, default_value };
            comp.properties.push(prop);
            assert(views(comp.properties@) =~= before.push(prop@));
            true
        },
        None => false,
    }
}

} // verus!
