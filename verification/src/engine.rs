//! The engine: one scene, its components and its undo history.

use vstd::prelude::*;
use crate::component::{
    ComponentId, ComponentStore, ComponentStoreView, ComponentView, NodeOverrides,
    SlotDefView, VariantDataView, VariantKey, VariantPropView,
};
use crate::deep::{views, Same};
use crate::ids::{without, without_all};
use crate::instance::{
    can_fill_slot, chosen_variant, component_mark, component_of_frame, duplicate_of,
    instance_of, instance_root, slot_below, slot_filled, slot_marked, with_instance,
    with_override, with_variant_switched, InstanceInfo, source_node,
};
use crate::hit_test::{handle_hit, hit_test_handles};
use crate::json::{prop_of_json, read_string_list, string_list_of_json};
use crate::layout::{containers_of, laid_out_all};
use crate::node::{
    Align, Fill, FlexDirection, FlexWrap, Justify, Layout, LayoutMode, Node, NodeId, NodeKind,
    NodeKindView, NodeView, Note, NoteView, Stroke, TextSizing, new_node,
};
use crate::scene::{Scene, SceneData};
use crate::text::{decimal_text, has_text, holds_text, is_text, lowercase, numbered, to_lower};
use crate::tree::{SceneDataView, SceneView};
use crate::types::{clamp_int, clamp_scalar, floor_div, Color, Point, Scalar, UNIT};

verus! {

/// The greatest number of snapshots that the undo history keeps.
pub const HISTORY_LIMIT: usize = 100;

/// The ids of a list that name nodes of a scene, in their order.
pub open spec fn existing_of(s: SceneView, ids: Seq<NodeId>) -> Seq<NodeId>
    decreases ids.len(),
{
    if ids.len() == 0 {
        ids
    } else if s.contains(ids.last()) {
        existing_of(s, ids.drop_last()).push(ids.last())
    } else {
        existing_of(s, ids.drop_last())
    }
}

/// An engine as a value of mathematics.
pub struct EngineView {
    pub scene: SceneView,
    pub selection: Seq<NodeId>,
    pub editing: Option<NodeId>,
    pub components: ComponentStoreView,
    /// The snapshots to go back to, the latest last.
    pub undo: Seq<SceneDataView>,
    /// The snapshots to go forward to, the nearest last.
    pub redo: Seq<SceneDataView>,
}

impl EngineView {
    /// The scene and the store of components are well formed, every snapshot
    /// describes a well-formed scene, and the history is within its limit.
    pub open spec fn wf(self) -> bool {
        &&& self.scene.wf()
        &&& self.components.wf()
        &&& self.undo.len() + self.redo.len() <= HISTORY_LIMIT
        &&& forall|i: int| 0 <= i < self.undo.len() ==> (#[trigger] self.undo[i]).valid()
        &&& forall|i: int| 0 <= i < self.redo.len() ==> (#[trigger] self.redo[i]).valid()
    }

    /// The engine with one node of its scene replaced, if the scene holds a
    /// node of that id.
    pub open spec fn edited(self, id: NodeId, n: NodeView) -> EngineView {
        if self.scene.contains(id) {
            self.with_scene(self.scene.with_node(id, n))
        } else {
            self
        }
    }

    /// The engine with another scene.
    pub open spec fn with_scene(self, scene: SceneView) -> EngineView {
        EngineView { scene, ..self }
    }

    /// The engine after a checkpoint. A snapshot of the scene is pushed on
    /// the undo history, the oldest snapshot leaves where the history would
    /// exceed its limit, and the redo history is emptied. Where the latest
    /// snapshot equals the scene already, nothing changes.
    pub open spec fn checkpointed(self) -> EngineView {
        let snap = self.scene.data();
        if self.undo.len() > 0 && self.undo.last() == snap {
            self
        } else {
            let pushed = self.undo.push(snap);
            EngineView {
                undo: if pushed.len() > HISTORY_LIMIT {
                    pushed.skip(1)
                } else {
                    pushed
                },
                redo: Seq::empty(),
                ..self
            }
        }
    }

    /// The engine after an undo: the scene is the latest snapshot, which has
    /// left the undo history; a snapshot of the scene as it was is pushed on
    /// the redo history; of the selection, the ids that the new scene holds
    /// stay. With an empty undo history nothing changes.
    pub open spec fn undone(self) -> EngineView {
        if self.undo.len() == 0 {
            self
        } else {
            let prev = self.undo.last();
            EngineView {
                scene: prev.scene(),
                selection: existing_of(prev.scene(), self.selection),
                undo: self.undo.drop_last(),
                redo: self.redo.push(self.scene.data()),
                ..self
            }
        }
    }

    /// The engine after a redo: the mirror image of an undo.
    pub open spec fn redone(self) -> EngineView {
        if self.redo.len() == 0 {
            self
        } else {
            let next = self.redo.last();
            EngineView {
                scene: next.scene(),
                selection: existing_of(next.scene(), self.selection),
                undo: self.undo.push(self.scene.data()),
                redo: self.redo.drop_last(),
                ..self
            }
        }
    }

    /// A checkpoint keeps an engine well formed.
    pub proof fn lemma_checkpointed_wf(self)
        requires
            self.wf(),
        ensures
            self.checkpointed().wf(),
    {
        self.scene.lemma_data_scene();
    }

    /// An undo keeps an engine well formed.
    pub proof fn lemma_undone_wf(self)
        requires
            self.wf(),
        ensures
            self.undone().wf(),
    {
        self.scene.lemma_data_scene();
        if self.undo.len() > 0 {
            assert(self.undo.last().valid());
        }
    }

    /// A redo keeps an engine well formed.
    pub proof fn lemma_redone_wf(self)
        requires
            self.wf(),
        ensures
            self.redone().wf(),
    {
        self.scene.lemma_data_scene();
        if self.redo.len() > 0 {
            assert(self.redo.last().valid());
        }
    }

    /// Undo after a checkpoint and any change of the scene brings back the
    /// scene of the checkpoint, and redo after that the changed scene.
    pub proof fn lemma_undo_redo_round_trip(self, changed: SceneView)
        requires
            self.wf(),
            changed.wf(),
        ensures
            self.checkpointed().with_scene(changed).undone().scene == self.scene,
            self.checkpointed().with_scene(changed).undone().redone().scene == changed,
    {
        self.scene.lemma_data_scene();
        changed.lemma_data_scene();
    }

    /// After a checkpoint that pushed a snapshot, the undo history is what it
    /// was with the snapshot at its end, cut at the front to its limit.
    pub proof fn lemma_checkpoint_keeps_latest(self)
        requires
            self.wf(),
            !(self.undo.len() > 0 && self.undo.last() == self.scene.data()),
        ensures
            self.checkpointed().undo.len() == if self.undo.len() < HISTORY_LIMIT {
                self.undo.len() + 1
            } else {
                HISTORY_LIMIT as nat
            },
            self.checkpointed().undo.last() == self.scene.data(),
            forall|i: int|
                0 <= i < self.checkpointed().undo.len() ==> #[trigger] self.checkpointed().undo[i]
                    == self.undo.push(self.scene.data())[i + self.undo.len() + 1
                    - self.checkpointed().undo.len()],
    {
    }
}


/// The layout mode that a word names: `flex`, `grid`, or else none.
pub open spec fn parsed_mode(s: Seq<char>) -> LayoutMode {
    if s == "flex"@ {
        LayoutMode::Flex
    } else if s == "grid"@ {
        LayoutMode::Grid
    } else {
        LayoutMode::Off
    }
}

/// The layout mode that a word names.
pub fn parse_mode(s: &str) -> (r: LayoutMode)
    ensures
        r == parsed_mode(s@),
{
    if is_text(s, "flex") {
        LayoutMode::Flex
    } else if is_text(s, "grid") {
        LayoutMode::Grid
    } else {
        LayoutMode::Off
    }
}

/// The axis that a word names: `column` or `col`, or else the row.
pub open spec fn parsed_direction(s: Seq<char>) -> FlexDirection {
    if s == "column"@ || s == "col"@ {
        FlexDirection::Column
    } else {
        FlexDirection::Row
    }
}

/// The axis that a word names.
pub fn parse_direction(s: &str) -> (r: FlexDirection)
    ensures
        r == parsed_direction(s@),
{
    if is_text(s, "column") || is_text(s, "col") {
        FlexDirection::Column
    } else {
        FlexDirection::Row
    }
}

/// The alignment that a word names: `center`, `end`, `stretch`, or else the
/// start.
pub open spec fn parsed_align(s: Seq<char>) -> Align {
    if s == "center"@ {
        Align::Center
    } else if s == "end"@ {
        Align::End
    } else if s == "stretch"@ {
        Align::Stretch
    } else {
        Align::Start
    }
}

/// The alignment that a word names.
pub fn parse_align(s: &str) -> (r: Align)
    ensures
        r == parsed_align(s@),
{
    if is_text(s, "center") {
        Align::Center
    } else if is_text(s, "end") {
        Align::End
    } else if is_text(s, "stretch") {
        Align::Stretch
    } else {
        Align::Start
    }
}

/// The justification that a word names: `center`, `end`, `space-between` or
/// `between`, `space-around` or `around`, `space-evenly` or `evenly`, or else
/// the start.
pub open spec fn parsed_justify(s: Seq<char>) -> Justify {
    if s == "center"@ {
        Justify::Center
    } else if s == "end"@ {
        Justify::End
    } else if s == "space-between"@ || s == "between"@ {
        Justify::SpaceBetween
    } else if s == "space-around"@ || s == "around"@ {
        Justify::SpaceAround
    } else if s == "space-evenly"@ || s == "evenly"@ {
        Justify::SpaceEvenly
    } else {
        Justify::Start
    }
}

/// The justification that a word names.
pub fn parse_justify(s: &str) -> (r: Justify)
    ensures
        r == parsed_justify(s@),
{
    if is_text(s, "center") {
        Justify::Center
    } else if is_text(s, "end") {
        Justify::End
    } else if is_text(s, "space-between") || is_text(s, "between") {
        Justify::SpaceBetween
    } else if is_text(s, "space-around") || is_text(s, "around") {
        Justify::SpaceAround
    } else if is_text(s, "space-evenly") || is_text(s, "evenly") {
        Justify::SpaceEvenly
    } else {
        Justify::Start
    }
}


/// The number of bytes of a text.
pub open spec fn byte_len(s: Seq<char>) -> int {
    (vstd::utf8::encode_utf8(s).len() as usize) as int
}

/// The width of a text of a number of bytes at a font size: six tenths of
/// the font size for each byte.
pub open spec fn text_width(bytes: int, font_size: int) -> int {
    clamp_int((bytes * font_size * 6) / 10)
}

/// The height of a line of text at a font size: twelve tenths of it.
pub open spec fn text_height(font_size: int) -> int {
    clamp_int((font_size * 12) / 10)
}

/// The width of a text of a number of bytes at a font size.
pub fn measure_width(bytes: usize, font_size: Scalar) -> (r: Scalar)
    ensures
        r as int == text_width(bytes as int, font_size as int),
{
    proof {
        assert(-(0x1_0000_0000_0000_0000 * 0x8000_0000) <= (bytes as int) * (font_size as int)
            <= 0x1_0000_0000_0000_0000 * 0x8000_0000) by (nonlinear_arith)
            requires
                0 <= bytes as int <= 0x1_0000_0000_0000_0000,
                -0x8000_0000 <= font_size as int <= 0x8000_0000,
        ;
    }
    let p: i128 = (bytes as i128) * (font_size as i128);
    clamp_scalar(floor_div(p * 6, 10))
}

/// The height of a line of text at a font size.
pub fn measure_height(font_size: Scalar) -> (r: Scalar)
    ensures
        r as int == text_height(font_size as int),
{
    clamp_scalar(floor_div((font_size as i128) * 12, 10))
}

/// The number in the name of a new node of a scene with a number of nodes.
pub open spec fn next_number(count: nat) -> nat {
    if count < u64::MAX {
        count + 1
    } else {
        count
    }
}

/// A new shape: a node of a kind at a position, of a size, with a fill, and
/// named by a label and a number.
pub open spec fn shape_node(
    kind: NodeKindView,
    label: Seq<char>,
    count: nat,
    x: Scalar,
    y: Scalar,
    width: Scalar,
    height: Scalar,
    fill: Fill,
) -> NodeView {
    NodeView {
        name: label + " "@ + decimal_text(next_number(count)),
        x,
        y,
        width,
        height,
        fill: Some(fill),
        ..new_node(0, kind)
    }
}

/// The kind of a text node in the font that new texts have.
pub open spec fn text_kind(content: Seq<char>, font_size: Scalar) -> NodeKindView {
    NodeKindView::Text { content, font_size, font_family: "Inter"@ }
}

/// A text node with another content, and the width that the content has at
/// the font size of the node. Another node stays as it is.
pub open spec fn with_content(n: NodeView, content: Seq<char>, bytes: int) -> NodeView {
    match n.kind {
        NodeKindView::Text { content: _, font_size, font_family } => NodeView {
            kind: NodeKindView::Text { content, font_size, font_family },
            width: text_width(bytes, font_size as int) as Scalar,
            ..n
        },
        _ => n,
    }
}

/// A text node with another font size, and the width and height that its
/// content has at that size. Another node stays as it is.
pub open spec fn with_font_size(n: NodeView, size: Scalar) -> NodeView {
    match n.kind {
        NodeKindView::Text { content, font_size: _, font_family } => NodeView {
            kind: NodeKindView::Text { content, font_size: size, font_family },
            width: text_width(byte_len(content), size as int) as Scalar,
            height: text_height(size as int) as Scalar,
            ..n
        },
        _ => n,
    }
}

/// A text node with another font family. Another node stays as it is.
pub open spec fn with_font_family(n: NodeView, family: Seq<char>) -> NodeView {
    match n.kind {
        NodeKindView::Text { content, font_size, font_family: _ } => NodeView {
            kind: NodeKindView::Text { content, font_size, font_family: family },
            ..n
        },
        _ => n,
    }
}


/// The handle that a point hits of the first node of a list that has one
/// hit, as a number from 0 to 3; -1 where no node of the list has one.
pub open spec fn first_handle_hit(s: SceneView, ids: Seq<NodeId>, p: Point, handle_size: Scalar, from: int) -> i32
    decreases ids.len() - from,
{
    if from < 0 || from >= ids.len() {
        -1i32
    } else if s.contains(ids[from]) && handle_hit(s.nodes[ids[from]], p, handle_size) is Some {
        handle_hit(s.nodes[ids[from]], p, handle_size).unwrap() as i32
    } else {
        first_handle_hit(s, ids, p, handle_size, from + 1)
    }
}

/// The ids of a list that name frames, in their order.
pub open spec fn frames_of(s: SceneView, ids: Seq<NodeId>) -> Seq<NodeId>
    decreases ids.len(),
{
    if ids.len() == 0 {
        ids
    } else if s.contains(ids.last()) && s.nodes[ids.last()].kind == NodeKindView::Frame {
        frames_of(s, ids.drop_last()).push(ids.last())
    } else {
        frames_of(s, ids.drop_last())
    }
}

/// The ids of a list that name nodes whose name, in lower case, holds a
/// text, in their order.
pub open spec fn named_like(s: SceneView, ids: Seq<NodeId>, part: Seq<char>) -> Seq<NodeId>
    decreases ids.len(),
{
    if ids.len() == 0 {
        ids
    } else if s.contains(ids.last()) && holds_text(lowercase(s.nodes[ids.last()].name), part) {
        named_like(s, ids.drop_last(), part).push(ids.last())
    } else {
        named_like(s, ids.drop_last(), part)
    }
}

/// The nodes that a list of ids names, in the order of the list.
pub open spec fn nodes_of(s: SceneView, ids: Seq<NodeId>) -> Seq<NodeView>
    decreases ids.len(),
{
    if ids.len() == 0 {
        Seq::empty()
    } else if s.contains(ids.last()) {
        nodes_of(s, ids.drop_last()).push(s.nodes[ids.last()])
    } else {
        nodes_of(s, ids.drop_last())
    }
}


/// The size that the host has measured for the content of a text node.
#[derive(Clone, Copy, Debug)]
pub struct TextSize {
    pub id: NodeId,
    pub width: Scalar,
    pub height: Scalar,
}

/// A text node that takes its size from its content, with a measured size.
/// Another node stays as it is.
pub open spec fn fitted(n: NodeView, width: Scalar, height: Scalar) -> NodeView {
    match n.kind {
        NodeKindView::Text { .. } => if n.text_sizing == TextSizing::Fit {
            NodeView { width, height, ..n }
        } else {
            n
        },
        _ => n,
    }
}

/// The scene after measured sizes have been given to its text nodes, one
/// after the other.
pub open spec fn fitted_all(s: SceneView, sizes: Seq<TextSize>) -> SceneView
    decreases sizes.len(),
{
    if sizes.len() == 0 {
        s
    } else {
        let m = sizes[0];
        let s1 = if s.contains(m.id) {
            s.with_node(m.id, fitted(s.nodes[m.id], m.width, m.height))
        } else {
            s
        };
        fitted_all(s1, sizes.skip(1))
    }
}

/// The scene as a render cycle leaves it: measured sizes are given to the
/// text nodes, then the layout pass runs.
pub open spec fn rendered(s: SceneView, sizes: Seq<TextSize>) -> SceneView {
    let m = fitted_all(s, sizes);
    laid_out_all(m, containers_of(m, m.order()))
}

/// The engine: a scene, the components, the node that is being edited, and
/// the undo and redo histories.
pub struct Engine {
    scene: Scene,
    editing_node: Option<NodeId>,
    components: ComponentStore,
    undo_stack: Vec<SceneData>,
    redo_stack: Vec<SceneData>,
}

impl View for Engine {
    type V = EngineView;

    closed spec fn view(&self) -> EngineView {
        EngineView {
            scene: self.scene@,
            selection: self.scene.selected(),
            editing: self.editing_node,
            components: self.components@,
            undo: views(self.undo_stack@),
            redo: views(self.redo_stack@),
        }
    }
}

/// The ids of a list that name nodes of a scene.
fn existing_ids(scene: &Scene, ids: &Vec<NodeId>) -> (r: Vec<NodeId>)
    ensures
        r@ == existing_of(scene@, ids@),
{
    let mut r: Vec<NodeId> = Vec::new();
    let mut i: usize = 0;
    while i < ids.len()
        invariant
            i <= ids.len(),
            r@ == existing_of(scene@, ids@.take(i as int)),
        decreases ids.len() - i,
    {
        proof {
            let t = ids@.take(i as int + 1);
            assert(t.drop_last() =~= ids@.take(i as int));
            assert(t.last() == ids@[i as int]);
        }
        if scene.get_node(ids[i]).is_some() {
            r.push(ids[i]);
        }
        i += 1;
    }
    assert(ids@.take(ids.len() as int) =~= ids@);
    r
}

impl Engine {
    /// The engine is well formed (see `EngineView::wf`).
    pub open spec fn wf(&self) -> bool {
        self@.wf()
    }

    /// An engine with an empty scene, no components and no history.
    pub fn new() -> (e: Engine)
        ensures
            e.wf(),
            e@ == (EngineView {
                scene: SceneView::empty(),
                selection: Seq::empty(),
                editing: None,
                components: ComponentStoreView { components: Map::empty(), next_id: 1 },
                undo: Seq::empty(),
                redo: Seq::empty(),
            }),
    {
        let e = Engine {
            scene: Scene::new(),
            editing_node: None,
            components: ComponentStore::new(),
            undo_stack: Vec::new(),
            redo_stack: Vec::new(),
        };
        assert(e@.undo =~= Seq::empty());
        assert(e@.redo =~= Seq::empty());
        e
    }

    /// Saves the scene to the undo history; to be called before a change.
    pub fn push_undo(&mut self)
        requires
            old(self).wf(),
        ensures
            final(self)@ == old(self)@.checkpointed(),
            final(self).wf(),
    {
        proof {
            old(self)@.lemma_checkpointed_wf();
        }
        let snapshot = self.scene.export();
        let n: usize = self.undo_stack.len();
        if n > 0 {
            assert(views(self.undo_stack@).last() == self.undo_stack@[n - 1]@);
            if self.undo_stack[n - 1].same(&snapshot) {
                return ;
            }
        }
        let ghost before = views(self.undo_stack@);
        self.undo_stack.push(snapshot);
        assert(views(self.undo_stack@) =~= before.push(snapshot@));
        if self.undo_stack.len() > HISTORY_LIMIT {
            self.undo_stack.remove(0);
            assert(views(self.undo_stack@) =~= before.push(snapshot@).skip(1));
        }
        self.redo_stack.clear();
        assert(views(self.redo_stack@) =~= Seq::empty());
    }

    /// Goes back to the latest snapshot. Returns whether there was one.
    pub fn undo(&mut self) -> (done: bool)
        requires
            old(self).wf(),
        ensures
            final(self)@ == old(self)@.undone(),
            final(self).wf(),
            done == (old(self)@.undo.len() > 0),
    {
        proof {
            old(self)@.lemma_undone_wf();
        }
        if self.undo_stack.len() == 0 {
            return false;
        }
        let ghost undo0 = views(self.undo_stack@);
        let ghost redo0 = views(self.redo_stack@);
        let prev = self.undo_stack.pop().unwrap();
        assert(views(self.undo_stack@) =~= undo0.drop_last());
        assert(prev@ == undo0.last());
        let saved = self.scene.get_selection();
        let current = self.scene.export();
        self.redo_stack.push(current);
        assert(views(self.redo_stack@) =~= redo0.push(current@));
        self.scene = Scene::restore(prev);
        let kept = existing_ids(&self.scene, &saved);
        self.scene.set_selection(kept);
        true
    }

    /// Goes forward to the snapshot that the latest undo left. Returns
    /// whether there was one.
    pub fn redo(&mut self) -> (done: bool)
        requires
            old(self).wf(),
        ensures
            final(self)@ == old(self)@.redone(),
            final(self).wf(),
            done == (old(self)@.redo.len() > 0),
    {
        proof {
            old(self)@.lemma_redone_wf();
        }
        if self.redo_stack.len() == 0 {
            return false;
        }
        let ghost undo0 = views(self.undo_stack@);
        let ghost redo0 = views(self.redo_stack@);
        let next = self.redo_stack.pop().unwrap();
        assert(views(self.redo_stack@) =~= redo0.drop_last());
        assert(next@ == redo0.last());
        let saved = self.scene.get_selection();
        let current = self.scene.export();
        self.undo_stack.push(current);
        assert(views(self.undo_stack@) =~= undo0.push(current@));
        self.scene = Scene::restore(next);
        let kept = existing_ids(&self.scene, &saved);
        self.scene.set_selection(kept);
        true
    }

    /// Whether there is a snapshot to go back to.
    pub fn can_undo(&self) -> (r: bool)
        ensures
            r == (self@.undo.len() > 0),
    {
        self.undo_stack.len() > 0
    }

    /// Whether there is a snapshot to go forward to.
    pub fn can_redo(&self) -> (r: bool)
        ensures
            r == (self@.redo.len() > 0),
    {
        self.redo_stack.len() > 0
    }

    /// Says which node is being edited, if any.
    pub fn set_editing(&mut self, id: Option<NodeId>)
        ensures
            final(self)@ == (EngineView { editing: id, ..old(self)@ }),
    {
        self.editing_node = id;
    }

    /// Puts a node at a position.
    pub fn set_node_position(&mut self, id: NodeId, x: Scalar, y: Scalar)
        requires
            old(self).wf(),
        ensures
            final(self).wf(),
            final(self)@ == old(self)@.edited(
                id,
                (NodeView { x, y, ..old(self)@.scene.nodes[id] }),
            ),
    {
        match self.scene.get_node_mut(id) {
            Some(node) => {
                node.x = x;
                node.y = y;
            },
            None => {},
        }
        proof {
            if old(self)@.scene.contains(id) {
                old(self)@.scene.lemma_with_node_wf(id, self.scene@.nodes[id]);
            }
        }
    }

    /// Fills a node with a colour.
    pub fn set_fill_color(&mut self, id: NodeId, r: u8, g: u8, b: u8, a: Scalar)
        requires
            old(self).wf(),
        ensures
            final(self).wf(),
            final(self)@ == old(self)@.edited(
                id,
                (NodeView { fill: Some(Fill { color: Color { r, g, b, a } }), ..old(self)@.scene.nodes[id] }),
            ),
    {
        match self.scene.get_node_mut(id) {
            Some(node) => {
                node.fill = Some(Fill { color: Color { r, g, b, a } });
            },
            None => {},
        }
        proof {
            if old(self)@.scene.contains(id) {
                old(self)@.scene.lemma_with_node_wf(id, self.scene@.nodes[id]);
            }
        }
    }

    /// Gives a node a stroke of a colour and a width.
    pub fn set_stroke(&mut self, id: NodeId, r: u8, g: u8, b: u8, a: Scalar, width: Scalar)
        requires
            old(self).wf(),
        ensures
            final(self).wf(),
            final(self)@ == old(self)@.edited(
                id,
                (NodeView { stroke: Some(Stroke { color: Color { r, g, b, a }, width }), ..old(self)@.scene.nodes[id] }),
            ),
    {
        match self.scene.get_node_mut(id) {
            Some(node) => {
                node.stroke = Some(Stroke { color: Color { r, g, b, a }, width });
            },
            None => {},
        }
        proof {
            if old(self)@.scene.contains(id) {
                old(self)@.scene.lemma_with_node_wf(id, self.scene@.nodes[id]);
            }
        }
    }

    /// Gives a node a corner radius.
    pub fn set_corner_radius(&mut self, id: NodeId, radius: Scalar)
        requires
            old(self).wf(),
        ensures
            final(self).wf(),
            final(self)@ == old(self)@.edited(
                id,
                (NodeView { corner_radius: radius, ..old(self)@.scene.nodes[id] }),
            ),
    {
        match self.scene.get_node_mut(id) {
            Some(node) => {
                node.corner_radius = radius;
            },
            None => {},
        }
        proof {
            if old(self)@.scene.contains(id) {
                old(self)@.scene.lemma_with_node_wf(id, self.scene@.nodes[id]);
            }
        }
    }

    /// Gives a node an opacity, clamped to the range from 0 to one unit.
    pub fn set_opacity(&mut self, id: NodeId, opacity: Scalar)
        requires
            old(self).wf(),
        ensures
            final(self).wf(),
            final(self)@ == old(self)@.edited(
                id,
                (NodeView { opacity: if opacity < 0 { 0 } else if opacity > UNIT { UNIT } else { opacity }, ..old(self)@.scene.nodes[id] }),
            ),
    {
        match self.scene.get_node_mut(id) {
            Some(node) => {
                node.opacity = if opacity < 0 { 0 } else if opacity > UNIT { UNIT } else { opacity };
            },
            None => {},
        }
        proof {
            if old(self)@.scene.contains(id) {
                old(self)@.scene.lemma_with_node_wf(id, self.scene@.nodes[id]);
            }
        }
    }

    /// Gives a node a name.
    pub fn set_node_name(&mut self, id: NodeId, name: &str)
        requires
            old(self).wf(),
        ensures
            final(self).wf(),
            final(self)@ == old(self)@.edited(
                id,
                (NodeView { name: name@, ..old(self)@.scene.nodes[id] }),
            ),
    {
        match self.scene.get_node_mut(id) {
            Some(node) => {
                node.name = String::from_str(name);
            },
            None => {},
        }
        proof {
            if old(self)@.scene.contains(id) {
                old(self)@.scene.lemma_with_node_wf(id, self.scene@.nodes[id]);
            }
        }
    }

    /// Shows or hides a node.
    pub fn set_visible(&mut self, id: NodeId, visible: bool)
        requires
            old(self).wf(),
        ensures
            final(self).wf(),
            final(self)@ == old(self)@.edited(
                id,
                (NodeView { visible, ..old(self)@.scene.nodes[id] }),
            ),
    {
        match self.scene.get_node_mut(id) {
            Some(node) => {
                node.visible = visible;
            },
            None => {},
        }
        proof {
            if old(self)@.scene.contains(id) {
                old(self)@.scene.lemma_with_node_wf(id, self.scene@.nodes[id]);
            }
        }
    }

    /// Locks or unlocks a node.
    pub fn set_locked(&mut self, id: NodeId, locked: bool)
        requires
            old(self).wf(),
        ensures
            final(self).wf(),
            final(self)@ == old(self)@.edited(
                id,
                (NodeView { locked, ..old(self)@.scene.nodes[id] }),
            ),
    {
        match self.scene.get_node_mut(id) {
            Some(node) => {
                node.locked = locked;
            },
            None => {},
        }
        proof {
            if old(self)@.scene.contains(id) {
                old(self)@.scene.lemma_with_node_wf(id, self.scene@.nodes[id]);
            }
        }
    }

    /// Says how a text node is sized: `fixed`, or else by its content.
    pub fn set_text_sizing(&mut self, id: NodeId, mode: &str)
        requires
            old(self).wf(),
        ensures
            final(self).wf(),
            final(self)@ == old(self)@.edited(
                id,
                (NodeView { text_sizing: if mode@ == "fixed"@ { TextSizing::Fixed } else { TextSizing::Fit }, ..old(self)@.scene.nodes[id] }),
            ),
    {
        let sizing: TextSizing = if is_text(mode, "fixed") { TextSizing::Fixed } else { TextSizing::Fit };
        match self.scene.get_node_mut(id) {
            Some(node) => {
                node.text_sizing = sizing;
            },
            None => {},
        }
        proof {
            if old(self)@.scene.contains(id) {
                old(self)@.scene.lemma_with_node_wf(id, self.scene@.nodes[id]);
            }
        }
    }

    /// Sets the layout mode of a node: `flex`, `grid`, or else none.
    pub fn set_layout_mode(&mut self, id: NodeId, mode: &str)
        requires
            old(self).wf(),
        ensures
            final(self).wf(),
            final(self)@ == old(self)@.edited(
                id,
                (NodeView { layout: (Layout { mode: parsed_mode(mode@), ..old(self)@.scene.nodes[id].layout }), ..old(self)@.scene.nodes[id] }),
            ),
    {
        let m: LayoutMode = parse_mode(mode);
        match self.scene.get_node_mut(id) {
            Some(node) => {
                node.layout.mode = m;
            },
            None => {},
        }
        proof {
            if old(self)@.scene.contains(id) {
                old(self)@.scene.lemma_with_node_wf(id, self.scene@.nodes[id]);
            }
        }
    }

    /// Sets the main axis of a flex container: `column` or `col`, or else
    /// the row.
    pub fn set_flex_direction(&mut self, id: NodeId, dir: &str)
        requires
            old(self).wf(),
        ensures
            final(self).wf(),
            final(self)@ == old(self)@.edited(
                id,
                (NodeView { layout: (Layout { direction: parsed_direction(dir@), ..old(self)@.scene.nodes[id].layout }), ..old(self)@.scene.nodes[id] }),
            ),
    {
        let d: FlexDirection = parse_direction(dir);
        match self.scene.get_node_mut(id) {
            Some(node) => {
                node.layout.direction = d;
            },
            None => {},
        }
        proof {
            if old(self)@.scene.contains(id) {
                old(self)@.scene.lemma_with_node_wf(id, self.scene@.nodes[id]);
            }
        }
    }

    /// Sets how a flex container places its children across its axis.
    pub fn set_align_items(&mut self, id: NodeId, align: &str)
        requires
            old(self).wf(),
        ensures
            final(self).wf(),
            final(self)@ == old(self)@.edited(
                id,
                (NodeView { layout: (Layout { align_items: parsed_align(align@), ..old(self)@.scene.nodes[id].layout }), ..old(self)@.scene.nodes[id] }),
            ),
    {
        let a: Align = parse_align(align);
        match self.scene.get_node_mut(id) {
            Some(node) => {
                node.layout.align_items = a;
            },
            None => {},
        }
        proof {
            if old(self)@.scene.contains(id) {
                old(self)@.scene.lemma_with_node_wf(id, self.scene@.nodes[id]);
            }
        }
    }

    /// Sets how a flex container spreads its children along its axis.
    pub fn set_justify_content(&mut self, id: NodeId, justify: &str)
        requires
            old(self).wf(),
        ensures
            final(self).wf(),
            final(self)@ == old(self)@.edited(
                id,
                (NodeView { layout: (Layout { justify_content: parsed_justify(justify@), ..old(self)@.scene.nodes[id].layout }), ..old(self)@.scene.nodes[id] }),
            ),
    {
        let j: Justify = parse_justify(justify);
        match self.scene.get_node_mut(id) {
            Some(node) => {
                node.layout.justify_content = j;
            },
            None => {},
        }
        proof {
            if old(self)@.scene.contains(id) {
                old(self)@.scene.lemma_with_node_wf(id, self.scene@.nodes[id]);
            }
        }
    }

    /// Sets the gap between the children of a container.
    pub fn set_layout_gap(&mut self, id: NodeId, gap: Scalar)
        requires
            old(self).wf(),
        ensures
            final(self).wf(),
            final(self)@ == old(self)@.edited(
                id,
                (NodeView { layout: (Layout { gap, ..old(self)@.scene.nodes[id].layout }), ..old(self)@.scene.nodes[id] }),
            ),
    {
        match self.scene.get_node_mut(id) {
            Some(node) => {
                node.layout.gap = gap;
            },
            None => {},
        }
        proof {
            if old(self)@.scene.contains(id) {
                old(self)@.scene.lemma_with_node_wf(id, self.scene@.nodes[id]);
            }
        }
    }

    /// Sets the padding of a container on its four sides.
    pub fn set_layout_padding(&mut self, id: NodeId, top: Scalar, right: Scalar, bottom: Scalar, left: Scalar)
        requires
            old(self).wf(),
        ensures
            final(self).wf(),
            final(self)@ == old(self)@.edited(
                id,
                (NodeView { layout: (Layout { padding_top: top, padding_right: right, padding_bottom: bottom, padding_left: left, ..old(self)@.scene.nodes[id].layout }), ..old(self)@.scene.nodes[id] }),
            ),
    {
        match self.scene.get_node_mut(id) {
            Some(node) => {
                node.layout.padding_top = top;
                node.layout.padding_right = right;
                node.layout.padding_bottom = bottom;
                node.layout.padding_left = left;
            },
            None => {},
        }
        proof {
            if old(self)@.scene.contains(id) {
                old(self)@.scene.lemma_with_node_wf(id, self.scene@.nodes[id]);
            }
        }
    }

    /// Sets the number of columns of a grid container.
    pub fn set_grid_columns(&mut self, id: NodeId, cols: u32)
        requires
            old(self).wf(),
        ensures
            final(self).wf(),
            final(self)@ == old(self)@.edited(
                id,
                (NodeView { layout: (Layout { grid_columns: cols, ..old(self)@.scene.nodes[id].layout }), ..old(self)@.scene.nodes[id] }),
            ),
    {
        match self.scene.get_node_mut(id) {
            Some(node) => {
                node.layout.grid_columns = cols;
            },
            None => {},
        }
        proof {
            if old(self)@.scene.contains(id) {
                old(self)@.scene.lemma_with_node_wf(id, self.scene@.nodes[id]);
            }
        }
    }

    /// Sets whether a flex container wraps: `wrap`, or else not.
    pub fn set_flex_wrap(&mut self, id: NodeId, wrap: &str)
        requires
            old(self).wf(),
        ensures
            final(self).wf(),
            final(self)@ == old(self)@.edited(
                id,
                (NodeView { layout: (Layout { wrap: if wrap@ == "wrap"@ { FlexWrap::Wrap } else { FlexWrap::NoWrap }, ..old(self)@.scene.nodes[id].layout }), ..old(self)@.scene.nodes[id] }),
            ),
    {
        let w: FlexWrap = if is_text(wrap, "wrap") { FlexWrap::Wrap } else { FlexWrap::NoWrap };
        match self.scene.get_node_mut(id) {
            Some(node) => {
                node.layout.wrap = w;
            },
            None => {},
        }
        proof {
            if old(self)@.scene.contains(id) {
                old(self)@.scene.lemma_with_node_wf(id, self.scene@.nodes[id]);
            }
        }
    }

    /// Inserts a shape as a root of the scene.
    fn add_shape(
        &mut self,
        kind: NodeKind,
        label: &str,
        x: Scalar,
        y: Scalar,
        width: Scalar,
        height: Scalar,
        fill: Fill,
    ) -> (id: NodeId)
        requires
            old(self).wf(),
        ensures
            final(self).wf(),
            final(self)@ == old(self)@.with_scene(
                old(self)@.scene.inserted(
                    shape_node(
                        kind@,
                        label@,
                        old(self)@.scene.nodes.dom().len(),
                        x,
                        y,
                        width,
                        height,
                        fill,
                    ),
                ),
            ),
            id == if old(self)@.scene.next_id < u64::MAX {
                old(self)@.scene.next_id
            } else {
                0
            },
    {
        let count: u64 = self.scene.node_count() as u64;
        let number: u64 = if count < u64::MAX { count + 1 } else { count };
        let mut node = Node::new(0, kind);
        node.x = x;
        node.y = y;
        node.width = width;
        node.height = height;
        node.name = numbered(label, number);
        node.fill = Some(fill);
        self.scene.add_node(node)
    }

    /// Adds a rectangle as a root of the scene, filled light grey and named
    /// `Rect` and a number. Returns its id, or 0 where no id is left.
    pub fn add_rect(&mut self, x: Scalar, y: Scalar, w: Scalar, h: Scalar) -> (id: NodeId)
        requires
            old(self).wf(),
        ensures
            final(self).wf(),
            final(self)@ == old(self)@.with_scene(
                old(self)@.scene.inserted(
                    shape_node(
                        NodeKindView::Rect,
                        "Rect"@,
                        old(self)@.scene.nodes.dom().len(),
                        x,
                        y,
                        w,
                        h,
                        crate::node::default_fill(),
                    ),
                ),
            ),
            id == if old(self)@.scene.next_id < u64::MAX {
                old(self)@.scene.next_id
            } else {
                0
            },
    {
        let fill = Fill { color: Color { r: 200, g: 200, b: 200, a: UNIT } };
        self.add_shape(NodeKind::Rect, "Rect", x, y, w, h, fill)
    }

    /// Adds an ellipse as a root of the scene, filled light grey and named
    /// `Ellipse` and a number. Returns its id, or 0 where no id is left.
    pub fn add_ellipse(&mut self, x: Scalar, y: Scalar, w: Scalar, h: Scalar) -> (id: NodeId)
        requires
            old(self).wf(),
        ensures
            final(self).wf(),
            final(self)@ == old(self)@.with_scene(
                old(self)@.scene.inserted(
                    shape_node(
                        NodeKindView::Ellipse,
                        "Ellipse"@,
                        old(self)@.scene.nodes.dom().len(),
                        x,
                        y,
                        w,
                        h,
                        crate::node::default_fill(),
                    ),
                ),
            ),
            id == if old(self)@.scene.next_id < u64::MAX {
                old(self)@.scene.next_id
            } else {
                0
            },
    {
        let fill = Fill { color: Color { r: 200, g: 200, b: 200, a: UNIT } };
        self.add_shape(NodeKind::Ellipse, "Ellipse", x, y, w, h, fill)
    }

    /// Adds a frame as a root of the scene, filled white and named `Frame`
    /// and a number. Returns its id, or 0 where no id is left.
    pub fn add_frame(&mut self, x: Scalar, y: Scalar, w: Scalar, h: Scalar) -> (id: NodeId)
        requires
            old(self).wf(),
        ensures
            final(self).wf(),
            final(self)@ == old(self)@.with_scene(
                old(self)@.scene.inserted(
                    shape_node(
                        NodeKindView::Frame,
                        "Frame"@,
                        old(self)@.scene.nodes.dom().len(),
                        x,
                        y,
                        w,
                        h,
                        (Fill { color: Color { r: 255, g: 255, b: 255, a: UNIT } }),
                    ),
                ),
            ),
            id == if old(self)@.scene.next_id < u64::MAX {
                old(self)@.scene.next_id
            } else {
                0
            },
    {
        self.add_shape(NodeKind::Frame, "Frame", x, y, w, h, Fill { color: Color::white() })
    }

    /// Adds a text as a root of the scene, in the font `Inter`, filled black,
    /// as wide and high as its content is at the font size, and named `Text`
    /// and a number. Returns its id, or 0 where no id is left.
    pub fn add_text(&mut self, x: Scalar, y: Scalar, content: &str, font_size: Scalar) -> (id: NodeId)
        requires
            old(self).wf(),
        ensures
            final(self).wf(),
            final(self)@ == old(self)@.with_scene(
                old(self)@.scene.inserted(
                    shape_node(
                        text_kind(content@, font_size),
                        "Text"@,
                        old(self)@.scene.nodes.dom().len(),
                        x,
                        y,
                        text_width(byte_len(content@), font_size as int) as Scalar,
                        text_height(font_size as int) as Scalar,
                        (Fill { color: Color { r: 0, g: 0, b: 0, a: UNIT } }),
                    ),
                ),
            ),
            id == if old(self)@.scene.next_id < u64::MAX {
                old(self)@.scene.next_id
            } else {
                0
            },
    {
        let kind = NodeKind::Text {
            content: String::from_str(content),
            font_size,
            font_family: String::from_str("Inter"),
        };
        let w = measure_width(content.len(), font_size);
        let h = measure_height(font_size);
        self.add_shape(kind, "Text", x, y, w, h, Fill { color: Color::black() })
    }

    /// Gives a text node another content, and the width that the content has
    /// at the font size of the node. Another node stays as it is.
    pub fn set_text_content(&mut self, id: NodeId, content: &str)
        requires
            old(self).wf(),
        ensures
            final(self).wf(),
            final(self)@ == old(self)@.edited(
                id,
                with_content(old(self)@.scene.nodes[id], content@, byte_len(content@)),
            ),
    {
        let update: Option<(NodeKind, Scalar)> = match self.scene.get_node(id) {
            Some(node) => match &node.kind {
                NodeKind::Text { content: _, font_size, font_family } => Some(
                    (
                        NodeKind::Text {
                            content: String::from_str(content),
                            font_size: *font_size,
                            font_family: font_family.clone(),
                        },
                        measure_width(content.len(), *font_size),
                    ),
                ),
                _ => None,
            },
            None => None,
        };
        match update {
            Some((kind, width)) => {
                match self.scene.get_node_mut(id) {
                    Some(node) => {
                        node.kind = kind;
                        node.width = width;
                    },
                    None => {},
                }
                proof {
                    old(self)@.scene.lemma_with_node_wf(id, self.scene@.nodes[id]);
                }
            },
            None => {
                proof {
                    if old(self)@.scene.contains(id) {
                        assert(self@.scene.nodes =~= old(self)@.scene.with_node(
                            id,
                            old(self)@.scene.nodes[id],
                        ).nodes);
                    }
                }
            },
        }
    }

    /// Gives a text node another font size, and the width and height that
    /// its content has at that size. Another node stays as it is.
    pub fn set_font_size(&mut self, id: NodeId, size: Scalar)
        requires
            old(self).wf(),
        ensures
            final(self).wf(),
            final(self)@ == old(self)@.edited(id, with_font_size(old(self)@.scene.nodes[id], size)),
    {
        let update: Option<(NodeKind, Scalar)> = match self.scene.get_node(id) {
            Some(node) => match &node.kind {
                NodeKind::Text { content, font_size: _, font_family } => Some(
                    (
                        NodeKind::Text {
                            content: content.clone(),
                            font_size: size,
                            font_family: font_family.clone(),
                        },
                        measure_width(content.as_str().len(), size),
                    ),
                ),
                _ => None,
            },
            None => None,
        };
        match update {
            Some((kind, width)) => {
                match self.scene.get_node_mut(id) {
                    Some(node) => {
                        node.kind = kind;
                        node.width = width;
                        node.height = measure_height(size);
                    },
                    None => {},
                }
                proof {
                    old(self)@.scene.lemma_with_node_wf(id, self.scene@.nodes[id]);
                }
            },
            None => {
                proof {
                    if old(self)@.scene.contains(id) {
                        assert(self@.scene.nodes =~= old(self)@.scene.with_node(
                            id,
                            old(self)@.scene.nodes[id],
                        ).nodes);
                    }
                }
            },
        }
    }

    /// Gives a text node another font family. Another node stays as it is.
    pub fn set_font_family(&mut self, id: NodeId, family: &str)
        requires
            old(self).wf(),
        ensures
            final(self).wf(),
            final(self)@ == old(self)@.edited(
                id,
                with_font_family(old(self)@.scene.nodes[id], family@),
            ),
    {
        let update: Option<NodeKind> = match self.scene.get_node(id) {
            Some(node) => match &node.kind {
                NodeKind::Text { content, font_size, font_family: _ } => Some(
                    NodeKind::Text {
                        content: content.clone(),
                        font_size: *font_size,
                        font_family: String::from_str(family),
                    },
                ),
                _ => None,
            },
            None => None,
        };
        match update {
            Some(kind) => {
                match self.scene.get_node_mut(id) {
                    Some(node) => {
                        node.kind = kind;
                    },
                    None => {},
                }
                proof {
                    old(self)@.scene.lemma_with_node_wf(id, self.scene@.nodes[id]);
                }
            },
            None => {
                proof {
                    if old(self)@.scene.contains(id) {
                        assert(self@.scene.nodes =~= old(self)@.scene.with_node(
                            id,
                            old(self)@.scene.nodes[id],
                        ).nodes);
                    }
                }
            },
        }
    }

    /// The scene.
    pub fn scene(&self) -> (r: &Scene)
        ensures
            r@ == self@.scene,
            r.selected() == self@.selection,
    {
        &self.scene
    }

    /// The store of components.
    pub fn components(&self) -> (r: &ComponentStore)
        ensures
            r@ == self@.components,
    {
        &self.components
    }

    /// The node that is being edited, if any.
    pub fn editing(&self) -> (r: Option<NodeId>)
        ensures
            r == self@.editing,
    {
        self.editing_node
    }

    /// Removes a node with all its descendants (see `Scene::remove_node`).
    pub fn remove_node(&mut self, id: NodeId)
        requires
            old(self).wf(),
        ensures
            final(self).wf(),
            final(self)@ == (EngineView {
                scene: old(self)@.scene.removed(id),
                selection: without(old(self)@.selection, id),
                ..old(self)@
            }),
    {
        self.scene.remove_node(id);
    }

    /// Moves a node by an offset (see `Scene::move_node`).
    pub fn move_node(&mut self, id: NodeId, dx: Scalar, dy: Scalar)
        requires
            old(self).wf(),
        ensures
            final(self).wf(),
            final(self)@ == old(self)@.edited(
                id,
                (NodeView {
                    x: clamp_int(old(self)@.scene.nodes[id].x + dx) as Scalar,
                    y: clamp_int(old(self)@.scene.nodes[id].y + dy) as Scalar,
                    ..old(self)@.scene.nodes[id]
                }),
            ),
    {
        self.scene.move_node(id, dx, dy);
    }

    /// Gives a node a size of at least one unit each way (see
    /// `Scene::resize_node`).
    pub fn resize_node(&mut self, id: NodeId, w: Scalar, h: Scalar)
        requires
            old(self).wf(),
        ensures
            final(self).wf(),
            final(self)@ == old(self)@.edited(
                id,
                (NodeView {
                    width: if w < UNIT { UNIT } else { w },
                    height: if h < UNIT { UNIT } else { h },
                    ..old(self)@.scene.nodes[id]
                }),
            ),
    {
        self.scene.resize_node(id, w, h);
    }

    /// Moves a node under a new parent, or among the roots (see
    /// `Scene::reparent`).
    pub fn reparent_node(&mut self, node_id: NodeId, new_parent: Option<NodeId>)
        requires
            old(self).wf(),
        ensures
            final(self).wf(),
            final(self)@ == old(self)@.with_scene(
                old(self)@.scene.reparented(node_id, new_parent),
            ),
    {
        self.scene.reparent(node_id, new_parent);
    }

    /// Duplicates a node without its children (see
    /// `instance::duplicate_node`).
    pub fn duplicate_node(&mut self, id: NodeId) -> (r: NodeId)
        requires
            old(self).wf(),
        ensures
            final(self).wf(),
            !old(self)@.scene.contains(id) ==> r == 0 && final(self)@ == old(self)@,
            old(self)@.scene.contains(id) ==> {
                let copy = duplicate_of(old(self)@.scene.nodes[id]);
                &&& final(self)@ == old(self)@.with_scene(old(self)@.scene.inserted(copy))
                &&& r == if old(self)@.scene.can_insert(copy) {
                    old(self)@.scene.next_id
                } else {
                    0
                }
            },
    {
        crate::instance::duplicate_node(&mut self.scene, id)
    }

    /// Selects one id and nothing else.
    pub fn select(&mut self, id: NodeId)
        ensures
            final(self)@ == (EngineView { selection: seq![id], ..old(self)@ }),
    {
        self.scene.select(id);
    }

    /// Adds an id to the selection, unless it is selected already.
    pub fn add_to_selection(&mut self, id: NodeId)
        ensures
            final(self)@ == (EngineView {
                selection: if old(self)@.selection.contains(id) {
                    old(self)@.selection
                } else {
                    old(self)@.selection.push(id)
                },
                ..old(self)@
            }),
    {
        self.scene.add_to_selection(id);
    }

    /// Empties the selection.
    pub fn deselect_all(&mut self)
        ensures
            final(self)@ == (EngineView { selection: Seq::empty(), ..old(self)@ }),
    {
        self.scene.deselect_all();
    }

    /// The selected ids.
    pub fn get_selection(&self) -> (r: Vec<NodeId>)
        ensures
            r@ == self@.selection,
    {
        self.scene.get_selection()
    }

    /// The topmost node under a point of the scene (see `Scene::hit_test`).
    pub fn hit_test(&self, point: Point) -> (r: Option<NodeId>)
        requires
            self.wf(),
        ensures
            r == self@.scene.topmost_hit(self@.scene.order(), point),
    {
        self.scene.hit_test(point)
    }

    /// The roots of the scene, in order.
    pub fn get_root_children(&self) -> (r: Vec<NodeId>)
        ensures
            r@ == self@.scene.roots,
    {
        self.scene.root_ids()
    }

    /// The scene written out (see `Scene::export`).
    pub fn export_scene(&self) -> (r: SceneData)
        ensures
            r@ == self@.scene.data(),
    {
        self.scene.export()
    }

    /// The layout pass (see `layout::compute_layouts`).
    pub fn layout(&mut self)
        requires
            old(self).wf(),
        ensures
            final(self).wf(),
            final(self)@ == old(self)@.with_scene(
                laid_out_all(
                    old(self)@.scene,
                    containers_of(old(self)@.scene, old(self)@.scene.order()),
                ),
            ),
    {
        crate::layout::compute_layouts(&mut self.scene);
    }

    /// Makes a component of a frame (see `instance::create_component`).
    pub fn create_component(&mut self, frame_id: NodeId, name: &str) -> (id: ComponentId)
        requires
            old(self).wf(),
        ensures
            final(self).wf(),
            old(self)@.components.next_id == u64::MAX ==> id == 0 && final(self)@ == old(self)@,
            old(self)@.components.next_id < u64::MAX ==> {
                &&& id == old(self)@.components.next_id
                &&& final(self)@ == (EngineView {
                    components: ComponentStoreView {
                        components: old(self)@.components.components.insert(
                            id,
                            component_of_frame(old(self)@.scene, id, name@, frame_id),
                        ),
                        next_id: (id + 1) as ComponentId,
                    },
                    ..old(self)@.edited(
                        frame_id,
                        (NodeView {
                            name: component_mark(old(self)@.scene.nodes[frame_id].name),
                            ..old(self)@.scene.nodes[frame_id]
                        }),
                    )
                })
            },
    {
        let owned = String::from_str(name);
        crate::instance::create_component(&mut self.scene, &mut self.components, frame_id, &owned)
    }

    /// Stores a snapshot of a frame as the variant of a component under a key
    /// (see `instance::add_variant`).
    pub fn add_variant(&mut self, comp_id: ComponentId, key: VariantKey, frame_id: NodeId) -> (done: bool)
        requires
            old(self).wf(),
        ensures
            final(self).wf(),
            done == old(self)@.components.components.contains_key(comp_id),
            !done ==> final(self)@ == old(self)@,
            done ==> final(self)@ == (EngineView {
                components: ComponentStoreView {
                    components: old(self)@.components.components.insert(
                        comp_id,
                        old(self)@.components.components[comp_id].with_variant(
                            views(key@),
                            VariantDataView {
                                key: Seq::empty(),
                                root_node_id: frame_id,
                                nodes: old(self)@.scene.snapshot(frame_id),
                            },
                        ),
                    ),
                    next_id: old(self)@.components.next_id,
                },
                ..old(self)@
            }),
    {
        crate::instance::add_variant(&self.scene, &mut self.components, comp_id, key, frame_id)
    }

    /// Declares a slot of a component (see `instance::add_slot`).
    pub fn add_slot(&mut self, comp_id: ComponentId, slot_name: &str, placeholder_node_id: NodeId) -> (done: bool)
        requires
            old(self).wf(),
        ensures
            final(self).wf(),
            done == old(self)@.components.components.contains_key(comp_id),
            !done ==> final(self)@ == old(self)@,
            done ==> {
                let c = old(self)@.components.components[comp_id];
                final(self)@ == (EngineView {
                    components: ComponentStoreView {
                        components: old(self)@.components.components.insert(
                            comp_id,
                            ComponentView {
                                slots: c.slots.push(
                                    SlotDefView {
                                        name: slot_name@,
                                        placeholder_node_id,
                                        default_children: Seq::empty(),
                                    },
                                ),
                                ..c
                            },
                        ),
                        next_id: old(self)@.components.next_id,
                    },
                    ..old(self)@.edited(
                        placeholder_node_id,
                        slot_marked(old(self)@.scene.nodes[placeholder_node_id], slot_name@),
                    )
                })
            },
    {
        let owned = String::from_str(slot_name);
        crate::instance::add_slot(
            &mut self.scene,
            &mut self.components,
            comp_id,
            &owned,
            placeholder_node_id,
        )
    }

    /// Creates an instance of a component at a position (see
    /// `instance::create_instance`). Returns the id of its root, or 0, the
    /// scene unchanged, where the component does not exist or has no variant,
    /// or no id is left.
    pub fn create_instance(&mut self, comp_id: ComponentId, x: Scalar, y: Scalar) -> (id: NodeId)
        requires
            old(self).wf(),
        ensures
            final(self).wf(),
            !old(self)@.components.components.contains_key(comp_id) ==> id == 0 && final(self)@
                == old(self)@,
            old(self)@.components.components.contains_key(comp_id) ==> {
                let comp = old(self)@.components.components[comp_id];
                &&& final(self)@ == old(self)@.with_scene(
                    with_instance(old(self)@.scene, comp, comp_id, x, y),
                )
                &&& chosen_variant(comp) is None ==> id == 0 && final(self)@ == old(self)@
                &&& id == match chosen_variant(comp) {
                    None => 0,
                    Some(v) => if old(self)@.scene.can_insert(
                        instance_root(comp, comp_id, v, x, y),
                    ) {
                        old(self)@.scene.next_id
                    } else {
                        0
                    },
                }
            },
    {
        crate::instance::create_instance(&mut self.scene, &self.components, comp_id, x, y)
    }

    /// Switches an instance to the variant stored under exactly a key (see
    /// `instance::set_instance_variant`). Returns false, and changes nothing,
    /// where the node is not an instance, its component does not exist, or
    /// the component has no variant under the key.
    pub fn set_instance_variant(&mut self, instance_id: NodeId, key: VariantKey) -> (done: bool)
        requires
            old(self).wf(),
        ensures
            final(self).wf(),
            done == match instance_of(old(self)@.scene, instance_id) {
                Some(d) => old(self)@.components.components.contains_key(d.component_id)
                    && old(self)@.components.components[d.component_id].exact(views(key@)) is Some,
                None => false,
            },
            !done ==> final(self)@ == old(self)@,
            done ==> final(self)@ == (EngineView {
                scene: with_variant_switched(
                    old(self)@.scene,
                    instance_id,
                    views(key@),
                    old(self)@.components.components[instance_of(
                        old(self)@.scene,
                        instance_id,
                    ).unwrap().component_id].exact(views(key@)).unwrap(),
                ),
                selection: without_all(
                    old(self)@.selection,
                    old(self)@.scene.children(instance_id),
                ),
                ..old(self)@
            }),
    {
        crate::instance::set_instance_variant(&mut self.scene, &self.components, instance_id, key)
    }

    /// Fills a slot of an instance with a node (see `instance::fill_slot`).
    pub fn fill_slot(&mut self, instance_id: NodeId, slot_name: &str, content_node_id: NodeId) -> (done: bool)
        requires
            old(self).wf(),
        ensures
            final(self).wf(),
            done == can_fill_slot(old(self)@.scene, instance_id, slot_name@, content_node_id),
            !done ==> final(self)@ == old(self)@,
            done ==> final(self)@ == old(self)@.with_scene(
                slot_filled(
                    old(self)@.scene,
                    instance_id,
                    slot_below(old(self)@.scene, instance_id, slot_name@).unwrap(),
                    slot_name@,
                    content_node_id,
                ),
            ),
    {
        let owned = String::from_str(slot_name);
        crate::instance::fill_slot(&mut self.scene, instance_id, &owned, content_node_id)
    }

    /// Sets overrides for a node of an instance (see
    /// `instance::set_instance_override`).
    pub fn set_instance_override(&mut self, instance_id: NodeId, target_node_id: NodeId, overrides: NodeOverrides) -> (done: bool)
        requires
            old(self).wf(),
        ensures
            final(self).wf(),
            done == (instance_of(old(self)@.scene, instance_id) is Some
                && old(self)@.scene.contains(target_node_id)),
            !done ==> final(self)@ == old(self)@,
            done ==> final(self)@ == old(self)@.with_scene(
                with_override(old(self)@.scene, instance_id, target_node_id, overrides@),
            ),
    {
        crate::instance::set_instance_override(
            &mut self.scene,
            instance_id,
            target_node_id,
            overrides,
        )
    }

    /// The component of an instance node (see
    /// `instance::get_instance_component_info`).
    pub fn get_instance_component_info(&self, node_id: NodeId) -> (r: Option<InstanceInfo>)
        ensures
            match r {
                Some(info) => {
                    &&& instance_of(self@.scene, node_id) is Some
                    &&& info.component_id == instance_of(self@.scene, node_id).unwrap().component_id
                    &&& self@.components.components.contains_key(info.component_id)
                    &&& info.component_name@
                        == self@.components.components[info.component_id].name
                    &&& info.source_node_id == source_node(
                        self@.components.components[info.component_id],
                    )
                },
                None => match instance_of(self@.scene, node_id) {
                    Some(d) => !self@.components.components.contains_key(d.component_id),
                    None => true,
                },
            },
    {
        crate::instance::get_instance_component_info(&self.scene, &self.components, node_id)
    }

    /// How a text node is sized: `fixed`, or `fit`, which is also the answer
    /// for an id that names no node.
    pub fn get_text_sizing(&self, id: NodeId) -> (r: String)
        ensures
            r@ == if self@.scene.contains(id) && self@.scene.nodes[id].text_sizing
                == TextSizing::Fixed {
                "fixed"@
            } else {
                "fit"@
            },
    {
        match self.scene.get_node(id) {
            Some(node) => match node.text_sizing {
                TextSizing::Fit => String::from_str("fit"),
                TextSizing::Fixed => String::from_str("fixed"),
            },
            None => String::from_str("fit"),
        }
    }

    /// The layout configuration of a node.
    pub fn get_layout(&self, id: NodeId) -> (r: Option<Layout>)
        ensures
            r == if self@.scene.contains(id) {
                Some(self@.scene.nodes[id].layout)
            } else {
                None
            },
    {
        match self.scene.get_node(id) {
            Some(node) => Some(node.layout),
            None => None,
        }
    }

    /// Declares a variant property of a component (see
    /// `instance::add_variant_prop`).
    pub fn add_variant_prop(&mut self, comp_id: ComponentId, name: &str, prop_json: &str) -> (done: bool)
        requires
            old(self).wf(),
        ensures
            final(self).wf(),
            done == (prop_of_json(prop_json@) is Some
                && old(self)@.components.components.contains_key(comp_id)),
            !done ==> final(self)@ == old(self)@,
            done ==> {
                let c = old(self)@.components.components[comp_id];
                let p = prop_of_json(prop_json@).unwrap();
                final(self)@ == (EngineView {
                    components: ComponentStoreView {
                        components: old(self)@.components.components.insert(
                            comp_id,
                            ComponentView {
                                properties: c.properties.push(
                                    VariantPropView {
                                        name: name@,
                                        prop_type: p.0,
                                        default_value: p.1,
                                    },
                                ),
                                ..c
                            },
                        ),
                        next_id: old(self)@.components.next_id,
                    },
                    ..old(self)@
                })
            },
    {
        crate::instance::add_variant_prop(&mut self.components, comp_id, name, prop_json)
    }

    /// The handle that a point hits of a selected node: the handle of the
    /// first selected node that has one hit, as a number from 0 to 3 (see
    /// `hit_test::hit_test_handles`), or -1.
    pub fn hit_test_handle(&self, point: Point, handle_size: Scalar) -> (r: i32)
        ensures
            r == first_handle_hit(self@.scene, self@.selection, point, handle_size, 0),
    {
        let sel = self.scene.get_selection();
        let mut i: usize = 0;
        while i < sel.len()
            invariant
                i <= sel.len(),
                sel@ == self@.selection,
                first_handle_hit(self@.scene, sel@, point, handle_size, 0) == first_handle_hit(
                    self@.scene,
                    sel@,
                    point,
                    handle_size,
                    i as int,
                ),
            decreases sel.len() - i,
        {
            match hit_test_handles(&self.scene, sel[i], point, handle_size) {
                Some(k) => {
                    return k as i32;
                },
                None => {},
            }
            i += 1;
        }
        -1
    }

    /// Copies of the children of a node, in order; none for an id that names
    /// no node.
    pub fn get_frame_children(&self, id: NodeId) -> (r: Vec<Node>)
        ensures
            views(r@) == if self@.scene.contains(id) {
                nodes_of(self@.scene, self@.scene.children(id))
            } else {
                Seq::empty()
            },
    {
        let children = self.scene.get_children_of(id);
        let mut r: Vec<Node> = Vec::new();
        let mut i: usize = 0;
        assert(children@.take(0) =~= Seq::<NodeId>::empty());
        assert(views(r@) =~= Seq::<NodeView>::empty());
        while i < children.len()
            invariant
                i <= children.len(),
                views(r@) == nodes_of(self@.scene, children@.take(i as int)),
            decreases children.len() - i,
        {
            proof {
                let t = children@.take(i as int + 1);
                assert(t.drop_last() =~= children@.take(i as int));
                assert(t.last() == children@[i as int]);
            }
            match self.scene.get_node(children[i]) {
                Some(n) => {
                    let copy = n.clone();
                    assert(views(r@.push(copy)) =~= views(r@).push(copy@));
                    r.push(copy);
                },
                None => {},
            }
            i += 1;
        }
        assert(children@.take(children.len() as int) =~= children@);
        r
    }

    /// The ids of the frames, in render order.
    pub fn get_frames(&self) -> (r: Vec<NodeId>)
        requires
            self.wf(),
        ensures
            r@ == frames_of(self@.scene, self@.scene.order()),
    {
        let all = self.scene.all_node_ids();
        let mut r: Vec<NodeId> = Vec::new();
        let mut i: usize = 0;
        while i < all.len()
            invariant
                i <= all.len(),
                r@ == frames_of(self@.scene, all@.take(i as int)),
            decreases all.len() - i,
        {
            proof {
                let t = all@.take(i as int + 1);
                assert(t.drop_last() =~= all@.take(i as int));
                assert(t.last() == all@[i as int]);
            }
            let is_frame: bool = match self.scene.get_node(all[i]) {
                Some(n) => match n.kind {
                    NodeKind::Frame => true,
                    _ => false,
                },
                None => false,
            };
            if is_frame {
                r.push(all[i]);
            }
            i += 1;
        }
        assert(all@.take(all.len() as int) =~= all@);
        r
    }

    /// The ids of the nodes whose name holds a text, whatever the case of
    /// their letters, in render order.
    pub fn find_by_name(&self, query: &str) -> (r: Vec<NodeId>)
        requires
            self.wf(),
        ensures
            r@ == named_like(self@.scene, self@.scene.order(), lowercase(query@)),
    {
        let lower = to_lower(query);
        let all = self.scene.all_node_ids();
        let mut r: Vec<NodeId> = Vec::new();
        let mut i: usize = 0;
        while i < all.len()
            invariant
                i <= all.len(),
                lower@ == lowercase(query@),
                r@ == named_like(self@.scene, all@.take(i as int), lower@),
            decreases all.len() - i,
        {
            proof {
                let t = all@.take(i as int + 1);
                assert(t.drop_last() =~= all@.take(i as int));
                assert(t.last() == all@[i as int]);
            }
            let found: bool = match self.scene.get_node(all[i]) {
                Some(n) => {
                    let name = to_lower(n.name.as_str());
                    has_text(name.as_str(), lower.as_str())
                },
                None => false,
            };
            if found {
                r.push(all[i]);
            }
            i += 1;
        }
        assert(all@.take(all.len() as int) =~= all@);
        r
    }

    /// Attaches a note to a node: a text, the tags that a JSON text lists,
    /// and the time. Returns whether the node exists.
    pub fn add_note(&mut self, node_id: NodeId, content: &str, tags_json: &str, now: u64) -> (done: bool)
        requires
            old(self).wf(),
        ensures
            final(self).wf(),
            done == old(self)@.scene.contains(node_id),
            final(self)@ == old(self)@.edited(
                node_id,
                (NodeView {
                    notes: old(self)@.scene.nodes[node_id].notes.push(
                        NoteView {
                            content: content@,
                            tags: string_list_of_json(tags_json@),
                            updated_at: now,
                        },
                    ),
                    ..old(self)@.scene.nodes[node_id]
                }),
            ),
    {
        let tags = read_string_list(tags_json);
        let done: bool = match self.scene.get_node_mut(node_id) {
            Some(node) => {
                let ghost before = views(node.notes@);
                let note = Note { content: String::from_str(content), tags, updated_at: now };
                node.notes.push(note);
                assert(views(node.notes@) =~= before.push(note@));
                true
            },
            None => false,
        };
        proof {
            if old(self)@.scene.contains(node_id) {
                old(self)@.scene.lemma_with_node_wf(node_id, self.scene@.nodes[node_id]);
            }
        }
        done
    }

    /// Gives a note of a node another text and time. Returns false, nothing
    /// changed, where the node does not exist or has no note of that number.
    pub fn update_note(&mut self, node_id: NodeId, index: usize, content: &str, now: u64) -> (done: bool)
        requires
            old(self).wf(),
        ensures
            final(self).wf(),
            done == (old(self)@.scene.contains(node_id) && index
                < old(self)@.scene.nodes[node_id].notes.len()),
            !done ==> final(self)@ == old(self)@,
            done ==> final(self)@ == old(self)@.edited(
                node_id,
                (NodeView {
                    notes: old(self)@.scene.nodes[node_id].notes.update(
                        index as int,
                        NoteView {
                            content: content@,
                            updated_at: now,
                            ..old(self)@.scene.nodes[node_id].notes[index as int]
                        },
                    ),
                    ..old(self)@.scene.nodes[node_id]
                }),
            ),
    {
        let tags: Vec<String> = match self.scene.get_node(node_id) {
            Some(node) => {
                if index < node.notes.len() {
                    assert(views(node.notes@)[index as int] == node.notes@[index as int]@);
                    node.notes[index].tags.clone()
                } else {
                    return false;
                }
            },
            None => {
                return false;
            },
        };
        match self.scene.get_node_mut(node_id) {
            Some(node) => {
                let ghost before = views(node.notes@);
                let note = Note { content: String::from_str(content), tags, updated_at: now };
                assert(before.len() == node.notes@.len());
                assert(before == old(self)@.scene.nodes[node_id].notes);
                node.notes[index] = note;
                assert(views(node.notes@) =~= before.update(index as int, note@));
            },
            None => {},
        }
        proof {
            old(self)@.scene.lemma_with_node_wf(node_id, self.scene@.nodes[node_id]);
        }
        true
    }

    /// Removes a note of a node. Returns false, nothing changed, where the
    /// node does not exist or has no note of that number.
    pub fn remove_note(&mut self, node_id: NodeId, index: usize) -> (done: bool)
        requires
            old(self).wf(),
        ensures
            final(self).wf(),
            done == (old(self)@.scene.contains(node_id) && index
                < old(self)@.scene.nodes[node_id].notes.len()),
            !done ==> final(self)@ == old(self)@,
            done ==> final(self)@ == old(self)@.edited(
                node_id,
                (NodeView {
                    notes: old(self)@.scene.nodes[node_id].notes.remove(index as int),
                    ..old(self)@.scene.nodes[node_id]
                }),
            ),
    {
        let in_range: bool = match self.scene.get_node(node_id) {
            Some(node) => index < node.notes.len(),
            None => false,
        };
        if !in_range {
            return false;
        }
        match self.scene.get_node_mut(node_id) {
            Some(node) => {
                let ghost before = views(node.notes@);
                node.notes.remove(index);
                assert(views(node.notes@) =~= before.remove(index as int));
            },
            None => {},
        }
        proof {
            old(self)@.scene.lemma_with_node_wf(node_id, self.scene@.nodes[node_id]);
        }
        true
    }

    /// Copies of the notes of a node; none for an id that names no node.
    pub fn get_notes(&self, node_id: NodeId) -> (r: Vec<Note>)
        ensures
            views(r@) == if self@.scene.contains(node_id) {
                self@.scene.nodes[node_id].notes
            } else {
                Seq::empty()
            },
    {
        match self.scene.get_node(node_id) {
            Some(node) => {
                let r = node.notes.clone();
                assert(views(r@) =~= views(node.notes@));
                r
            },
            None => {
                let r: Vec<Note> = Vec::new();
                assert(views(r@) =~= Seq::<NoteView>::empty());
                r
            },
        }
    }

    /// Replaces the scene by the one that data describe, with nothing
    /// selected. Returns false, nothing changed, where the data do not
    /// describe a well-formed scene.
    pub fn import_scene(&mut self, data: SceneData) -> (done: bool)
        requires
            old(self).wf(),
        ensures
            final(self).wf(),
            done == data@.valid(),
            !done ==> final(self)@ == old(self)@,
            done ==> final(self)@ == (EngineView {
                scene: data@.scene(),
                selection: Seq::empty(),
                ..old(self)@
            }),
    {
        match Scene::import(data) {
            Some(scene) => {
                self.scene = scene;
                true
            },
            None => false,
        }
    }

    /// One render cycle: gives the text nodes that take their size from
    /// their content the sizes that the host has measured, runs the layout
    /// pass, and returns the render order, in which the host draws.
    pub fn render(&mut self, sizes: &Vec<TextSize>) -> (order: Vec<NodeId>)
        requires
            old(self).wf(),
        ensures
            final(self).wf(),
            final(self)@ == old(self)@.with_scene(rendered(old(self)@.scene, sizes@)),
            order@ == final(self)@.scene.order(),
    {
        let mut i: usize = 0;
        assert(sizes@.skip(0) =~= sizes@);
        while i < sizes.len()
            invariant
                i <= sizes.len(),
                self.wf(),
                self@ == old(self)@.with_scene(self@.scene),
                fitted_all(self@.scene, sizes@.skip(i as int)) == fitted_all(
                    old(self)@.scene,
                    sizes@,
                ),
            decreases sizes.len() - i,
        {
            let m: TextSize = sizes[i];
            let ghost s0 = self@.scene;
            proof {
                let rest = sizes@.skip(i as int);
                assert(rest[0] == m);
                assert(rest.skip(1) =~= sizes@.skip(i as int + 1));
            }
            match self.scene.get_node_mut(m.id) {
                Some(node) => {
                    let fits: bool = match &node.kind {
                        NodeKind::Text { .. } => match node.text_sizing {
                            TextSizing::Fit => true,
                            TextSizing::Fixed => false,
                        },
                        _ => false,
                    };
                    if fits {
                        node.width = m.width;
                        node.height = m.height;
                    }
                },
                None => {},
            }
            i += 1;
        }
        assert(sizes@.skip(sizes.len() as int) =~= Seq::<TextSize>::empty());
        crate::layout::compute_layouts(&mut self.scene);
        self.scene.render_order()
    }
}

} // verus!
