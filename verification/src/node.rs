//! Nodes: the visual elements of a scene, and their layout configuration.

use vstd::prelude::*;
use crate::component::{InstanceData, InstanceDataView};
use crate::deep::{views, same_vec, Same};
use crate::types::{Color, Rect, Scalar, UNIT};

verus! {

pub type NodeId = u64;

/// What a node is.
#[derive(Debug)]
pub enum NodeKind {
    Rect,
    Ellipse,
    Text { content: String, font_size: Scalar, font_family: String },
    Frame,
    Group,
    /// A named placeholder inside a component template.
    Slot { slot_name: String },
    /// An instance of a component.
    Instance(Box<InstanceData>),
}

pub enum NodeKindView {
    Rect,
    Ellipse,
    Text { content: Seq<char>, font_size: Scalar, font_family: Seq<char> },
    Frame,
    Group,
    Slot { slot_name: Seq<char> },
    Instance(InstanceDataView),
}

impl View for NodeKind {
    type V = NodeKindView;

    open spec fn view(&self) -> NodeKindView {
        match self {
            NodeKind::Rect => NodeKindView::Rect,
            NodeKind::Ellipse => NodeKindView::Ellipse,
            NodeKind::Text { content, font_size, font_family } => NodeKindView::Text {
                content: content@,
                font_size: *font_size,
                font_family: font_family@,
            },
            NodeKind::Frame => NodeKindView::Frame,
            NodeKind::Group => NodeKindView::Group,
            NodeKind::Slot { slot_name } => NodeKindView::Slot { slot_name: slot_name@ },
            NodeKind::Instance(data) => NodeKindView::Instance(data@),
        }
    }
}

impl Clone for NodeKind {
    fn clone(&self) -> (r: Self)
        ensures
            r@ == self@,
    {
        match self {
            NodeKind::Rect => NodeKind::Rect,
            NodeKind::Ellipse => NodeKind::Ellipse,
            NodeKind::Text { content, font_size, font_family } => NodeKind::Text {
                content: content.clone(),
                font_size: *font_size,
                font_family: font_family.clone(),
            },
            NodeKind::Frame => NodeKind::Frame,
            NodeKind::Group => NodeKind::Group,
            NodeKind::Slot { slot_name } => NodeKind::Slot { slot_name: slot_name.clone() },
            NodeKind::Instance(data) => {
                let d: &InstanceData = &**data;
                NodeKind::Instance(Box::new(d.clone()))
            },
        }
    }
}

impl Same for NodeKind {
    fn same(&self, other: &Self) -> (r: bool) {
        match (self, other) {
            (NodeKind::Rect, NodeKind::Rect) => true,
            (NodeKind::Ellipse, NodeKind::Ellipse) => true,
            (
                NodeKind::Text { content: c1, font_size: s1, font_family: f1 },
                NodeKind::Text { content: c2, font_size: s2, font_family: f2 },
            ) => c1.same(c2) && *s1 == *s2 && f1.same(f2),
            (NodeKind::Frame, NodeKind::Frame) => true,
            (NodeKind::Group, NodeKind::Group) => true,
            (NodeKind::Slot { slot_name: a }, NodeKind::Slot { slot_name: b }) => a.same(b),
            (NodeKind::Instance(a), NodeKind::Instance(b)) => {
                let x: &InstanceData = &**a;
                let y: &InstanceData = &**b;
                x.same(y)
            },
            _ => false,
        }
    }
}

/// The name of a kind's variant.
pub open spec fn kind_label(kind: NodeKindView) -> Seq<char> {
    match kind {
        NodeKindView::Rect => "Rect"@,
        NodeKindView::Ellipse => "Ellipse"@,
        NodeKindView::Text { .. } => "Text"@,
        NodeKindView::Frame => "Frame"@,
        NodeKindView::Group => "Group"@,
        NodeKindView::Slot { .. } => "Slot"@,
        NodeKindView::Instance(_) => "Instance"@,
    }
}

impl NodeKind {
    /// The name of the kind's variant, the display name of a new node.
    pub fn label(&self) -> (r: String)
        ensures
            r@ == kind_label(self@),
    {
        match self {
            NodeKind::Rect => String::from_str("Rect"),
            NodeKind::Ellipse => String::from_str("Ellipse"),
            NodeKind::Text { .. } => String::from_str("Text"),
            NodeKind::Frame => String::from_str("Frame"),
            NodeKind::Group => String::from_str("Group"),
            NodeKind::Slot { .. } => String::from_str("Slot"),
            NodeKind::Instance(_) => String::from_str("Instance"),
        }
    }
}

/// A fill: one colour.
#[derive(Clone, Copy, Debug, PartialEq, Eq, Structural)]
pub struct Fill {
    pub color: Color,
}

/// A stroke: a colour and a width.
#[derive(Clone, Copy, Debug, PartialEq, Eq, Structural)]
pub struct Stroke {
    pub color: Color,
    pub width: Scalar,
}

/// How a container lays out its children.
#[derive(Clone, Copy, Debug, PartialEq, Eq, Structural)]
pub enum LayoutMode {
    /// The container leaves its children where they are.
    Off,
    Flex,
    Grid,
}

impl Default for LayoutMode {
    fn default() -> (r: Self)
        ensures
            r == LayoutMode::Off,
    {
        LayoutMode::Off
    }
}

#[derive(Clone, Copy, Debug, PartialEq, Eq, Structural)]
pub enum FlexDirection {
    Row,
    Column,
}

impl Default for FlexDirection {
    fn default() -> (r: Self)
        ensures
            r == FlexDirection::Row,
    {
        FlexDirection::Row
    }
}

#[derive(Clone, Copy, Debug, PartialEq, Eq, Structural)]
pub enum Align {
    Start,
    Center,
    End,
    Stretch,
}

impl Default for Align {
    fn default() -> (r: Self)
        ensures
            r == Align::Start,
    {
        Align::Start
    }
}

#[derive(Clone, Copy, Debug, PartialEq, Eq, Structural)]
pub enum Justify {
    Start,
    Center,
    End,
    SpaceBetween,
    SpaceAround,
    SpaceEvenly,
}

impl Default for Justify {
    fn default() -> (r: Self)
        ensures
            r == Justify::Start,
    {
        Justify::Start
    }
}

#[derive(Clone, Copy, Debug, PartialEq, Eq, Structural)]
pub enum FlexWrap {
    NoWrap,
    Wrap,
}

impl Default for FlexWrap {
    fn default() -> (r: Self)
        ensures
            r == FlexWrap::NoWrap,
    {
        FlexWrap::NoWrap
    }
}

/// Whether a text node takes its size from its content or keeps the size it
/// was given.
#[derive(Clone, Copy, Debug, PartialEq, Eq, Structural)]
pub enum TextSizing {
    Fit,
    Fixed,
}

impl Default for TextSizing {
    fn default() -> (r: Self)
        ensures
            r == TextSizing::Fit,
    {
        TextSizing::Fit
    }
}

/// The layout configuration of a container.
#[derive(Clone, Copy, Debug, PartialEq, Eq, Structural)]
pub struct Layout {
    pub mode: LayoutMode,
    pub direction: FlexDirection,
    pub align_items: Align,
    pub justify_content: Justify,
    pub gap: Scalar,
    pub padding_top: Scalar,
    pub padding_right: Scalar,
    pub padding_bottom: Scalar,
    pub padding_left: Scalar,
    pub wrap: FlexWrap,
    pub grid_columns: u32,
    pub grid_rows: u32,
}

/// The layout of a node that lays nothing out.
pub open spec fn default_layout() -> Layout {
    Layout {
        mode: LayoutMode::Off,
        direction: FlexDirection::Row,
        align_items: Align::Start,
        justify_content: Justify::Start,
        gap: 0,
        padding_top: 0,
        padding_right: 0,
        padding_bottom: 0,
        padding_left: 0,
        wrap: FlexWrap::NoWrap,
        grid_columns: 0,
        grid_rows: 0,
    }
}

impl Default for Layout {
    fn default() -> (r: Self)
        ensures
            r == default_layout(),
    {
        Layout {
            mode: LayoutMode::Off,
            direction: FlexDirection::Row,
            align_items: Align::Start,
            justify_content: Justify::Start,
            gap: 0,
            padding_top: 0,
            padding_right: 0,
            padding_bottom: 0,
            padding_left: 0,
            wrap: FlexWrap::NoWrap,
            grid_columns: 0,
            grid_rows: 0,
        }
    }
}

/// A note attached to a node.
#[derive(Debug)]
pub struct Note {
    pub content: String,
    pub tags: Vec<String>,
    pub updated_at: u64,
}

pub struct NoteView {
    pub content: Seq<char>,
    pub tags: Seq<Seq<char>>,
    pub updated_at: u64,
}

impl View for Note {
    type V = NoteView;

    open spec fn view(&self) -> NoteView {
        NoteView { content: self.content@, tags: views(self.tags@), updated_at: self.updated_at }
    }
}

impl Clone for Note {
    fn clone(&self) -> (r: Self)
        ensures
            r@ == self@,
    {
        let tags = self.tags.clone();
        assert(views(tags@) =~= views(self.tags@));
        Note { content: self.content.clone(), tags, updated_at: self.updated_at }
    }
}

impl Same for Note {
    fn same(&self, other: &Self) -> (r: bool) {
        self.content.same(&other.content) && same_vec(&self.tags, &other.tags) && self.updated_at
            == other.updated_at
    }
}

/// A visual element of a scene.
#[derive(Debug)]
pub struct Node {
    pub id: NodeId,
    pub name: String,
    pub kind: NodeKind,
    pub x: Scalar,
    pub y: Scalar,
    pub width: Scalar,
    pub height: Scalar,
    pub rotation: Scalar,
    pub opacity: Scalar,
    pub visible: bool,
    pub locked: bool,
    pub fill: Option<Fill>,
    pub stroke: Option<Stroke>,
    pub corner_radius: Scalar,
    pub children: Vec<NodeId>,
    pub parent: Option<NodeId>,
    pub layout: Layout,
    pub text_sizing: TextSizing,
    pub notes: Vec<Note>,
}

pub struct NodeView {
    pub id: NodeId,
    pub name: Seq<char>,
    pub kind: NodeKindView,
    pub x: Scalar,
    pub y: Scalar,
    pub width: Scalar,
    pub height: Scalar,
    pub rotation: Scalar,
    pub opacity: Scalar,
    pub visible: bool,
    pub locked: bool,
    pub fill: Option<Fill>,
    pub stroke: Option<Stroke>,
    pub corner_radius: Scalar,
    pub children: Seq<NodeId>,
    pub parent: Option<NodeId>,
    pub layout: Layout,
    pub text_sizing: TextSizing,
    pub notes: Seq<NoteView>,
}

impl View for Node {
    type V = NodeView;

    open spec fn view(&self) -> NodeView {
        NodeView {
            id: self.id,
            name: self.name@,
            kind: self.kind@,
            x: self.x,
            y: self.y,
            width: self.width,
            height: self.height,
            rotation: self.rotation,
            opacity: self.opacity,
            visible: self.visible,
            locked: self.locked,
            fill: self.fill,
            stroke: self.stroke,
            corner_radius: self.corner_radius,
            children: self.children@,
            parent: self.parent,
            layout: self.layout,
            text_sizing: self.text_sizing,
            notes: views(self.notes@),
        }
    }
}

impl Clone for Node {
    fn clone(&self) -> (r: Self)
        ensures
            r@ == self@,
    {
        let notes = self.notes.clone();
        assert(views(notes@) =~= views(self.notes@));
        Node {
            id: self.id,
            name: self.name.clone(),
            kind: self.kind.clone(),
            x: self.x,
            y: self.y,
            width: self.width,
            height: self.height,
            rotation: self.rotation,
            opacity: self.opacity,
            visible: self.visible,
            locked: self.locked,
            fill: self.fill,
            stroke: self.stroke,
            corner_radius: self.corner_radius,
            children: self.children.clone(),
            parent: self.parent,
            layout: self.layout,
            text_sizing: self.text_sizing,
            notes,
        }
    }
}

/// Whether two optional plain values are equal.
fn same_fill(a: &Option<Fill>, b: &Option<Fill>) -> (r: bool)
    ensures
        r == (*a == *b),
{
    match (a, b) {
        (Some(x), Some(y)) => *x == *y,
        (None, None) => true,
        _ => false,
    }
}

fn same_stroke(a: &Option<Stroke>, b: &Option<Stroke>) -> (r: bool)
    ensures
        r == (*a == *b),
{
    match (a, b) {
        (Some(x), Some(y)) => *x == *y,
        (None, None) => true,
        _ => false,
    }
}

fn same_parent(a: &Option<NodeId>, b: &Option<NodeId>) -> (r: bool)
    ensures
        r == (*a == *b),
{
    match (a, b) {
        (Some(x), Some(y)) => *x == *y,
        (None, None) => true,
        _ => false,
    }
}

impl Same for Node {
    fn same(&self, other: &Self) -> (r: bool) {
        let children = same_vec(&self.children, &other.children);
        assert(views(self.children@) =~= self.children@);
        assert(views(other.children@) =~= other.children@);
        self.id == other.id && self.name.same(&other.name) && self.kind.same(&other.kind) && self.x
            == other.x && self.y == other.y && self.width == other.width && self.height
            == other.height && self.rotation == other.rotation && self.opacity == other.opacity
            && self.visible == other.visible && self.locked == other.locked && same_fill(
            &self.fill,
            &other.fill,
        ) && same_stroke(&self.stroke, &other.stroke) && self.corner_radius == other.corner_radius
            && children && same_parent(&self.parent, &other.parent) && self.layout == other.layout
            && self.text_sizing == other.text_sizing && same_vec(&self.notes, &other.notes)
    }
}

/// The fill of a new node: light grey.
pub open spec fn default_fill() -> Fill {
    Fill { color: Color { r: 200, g: 200, b: 200, a: UNIT } }
}

/// The node that `Node::new` makes of an id and a kind.
pub open spec fn new_node(id: NodeId, kind: NodeKindView) -> NodeView {
    NodeView {
        id,
        name: kind_label(kind),
        kind,
        x: 0,
        y: 0,
        width: (100 * UNIT) as Scalar,
        height: (100 * UNIT) as Scalar,
        rotation: 0,
        opacity: UNIT,
        visible: true,
        locked: false,
        fill: Some(default_fill()),
        stroke: None,
        corner_radius: 0,
        children: Seq::empty(),
        parent: None,
        layout: default_layout(),
        text_sizing: TextSizing::Fit,
        notes: Seq::empty(),
    }
}

impl Node {
    /// A node of the given kind, named after the kind, a hundred units wide and
    /// high at the origin, opaque, visible, unlocked, filled light grey, with
    /// no parent and no children.
    pub fn new(id: NodeId, kind: NodeKind) -> (r: Node)
        ensures
            r@ == new_node(id, kind@),
    {
        let name = kind.label();
        let r = Node {
            id,
            name,
            kind,
            x: 0,
            y: 0,
            width: 100 * UNIT,
            height: 100 * UNIT,
            rotation: 0,
            opacity: UNIT,
            visible: true,
            locked: false,
            fill: Some(Fill { color: Color { r: 200, g: 200, b: 200, a: UNIT } }),
            stroke: None,
            corner_radius: 0,
            children: Vec::new(),
            parent: None,
            layout: Layout::default(),
            text_sizing: TextSizing::Fit,
            notes: Vec::new(),
        };
        assert(r@.notes =~= Seq::empty());
        r
    }

    /// The node's bounding box.
    pub fn bounds(&self) -> (r: Rect)
        ensures
            r == (Rect { x: self.x, y: self.y, width: self.width, height: self.height }),
    {
        Rect { x: self.x, y: self.y, width: self.width, height: self.height }
    }
}

} // verus!
