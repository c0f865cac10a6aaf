//! The layout pass: flex and grid containers place their visible children.
//!
//! A container reads the sizes that its children have when its turn comes and
//! writes their positions; a flex container that stretches also writes their
//! size across the axis, a grid their width. Positions are computed on
//! unbounded integers, with division rounding down, and clamped to the scalar
//! range when they are stored.

use vstd::prelude::*;
use crate::ids::lemma_push_contains;
use crate::node::{Align, FlexDirection, Justify, Layout, LayoutMode, NodeId, NodeView};
use crate::scene::Scene;
use crate::tree::SceneView;
use crate::types::{clamp_int, clamp_scalar, floor_div, Scalar};

verus! {

/// The ids of a list that name visible nodes, in their order.
pub open spec fn visible_of(s: SceneView, ids: Seq<NodeId>) -> Seq<NodeId>
    decreases ids.len(),
{
    if ids.len() == 0 {
        ids
    } else if s.contains(ids.last()) && s.nodes[ids.last()].visible {
        visible_of(s, ids.drop_last()).push(ids.last())
    } else {
        visible_of(s, ids.drop_last())
    }
}

/// The visible ids of a list are those of its ids that name visible nodes.
pub proof fn lemma_visible_contains(s: SceneView, ids: Seq<NodeId>, x: NodeId)
    ensures
        visible_of(s, ids).contains(x) <==> (ids.contains(x) && s.contains(x)
            && s.nodes[x].visible),
    decreases ids.len(),
{
    if ids.len() > 0 {
        let rest = ids.drop_last();
        lemma_visible_contains(s, rest, x);
        lemma_push_contains(rest, ids.last(), x);
        assert(rest.push(ids.last()) =~= ids);
        lemma_push_contains(visible_of(s, rest), ids.last(), x);
    }
}

/// The visible ids of a list without duplicates hold no duplicates.
pub proof fn lemma_visible_no_duplicates(s: SceneView, ids: Seq<NodeId>)
    requires
        ids.no_duplicates(),
    ensures
        visible_of(s, ids).no_duplicates(),
    decreases ids.len(),
{
    if ids.len() > 0 {
        let rest = ids.drop_last();
        lemma_visible_no_duplicates(s, rest);
        lemma_visible_contains(s, rest, ids.last());
        if rest.contains(ids.last()) {
            let i = choose|i: int| 0 <= i < rest.len() && rest[i] == ids.last();
            assert(ids[i] == ids[ids.len() - 1]);
        }
        if s.contains(ids.last()) && s.nodes[ids.last()].visible {
            crate::ids::lemma_push_no_duplicates(visible_of(s, rest), ids.last());
        }
    }
}

/// The sum of the first `k` numbers of a list.
pub open spec fn prefix_sum(q: Seq<int>, k: int) -> int
    decreases k,
{
    if k <= 0 {
        0
    } else {
        prefix_sum(q, k - 1) + q[k - 1]
    }
}

/// The content box of a container and what a flex layout derives from it and
/// from the sizes of the visible children.
pub struct FlexFrame {
    /// Whether the main axis is the horizontal one.
    pub row: bool,
    pub content_x: int,
    pub content_y: int,
    /// The extent of the content box along the main axis.
    pub avail_main: int,
    /// The extent of the content box across the main axis.
    pub avail_cross: int,
    /// The sizes of the visible children along the main axis.
    pub mains: Seq<int>,
    /// Where the first child starts on the main axis, from the content box.
    pub start: int,
    /// The gap between two children.
    pub gap: int,
}

/// The size of a node along the main axis.
pub open spec fn main_size(n: NodeView, row: bool) -> int {
    if row {
        n.width as int
    } else {
        n.height as int
    }
}

/// The size of a node across the main axis.
pub open spec fn cross_size(n: NodeView, row: bool) -> int {
    if row {
        n.height as int
    } else {
        n.width as int
    }
}

/// The gap between two children of a flex container with `n` visible
/// children whose main sizes add up to `sum`: the configured gap, or for the
/// distributing modes the free space divided among the gaps.
pub open spec fn flex_gap(l: Layout, avail: int, sum: int, n: int) -> int {
    match l.justify_content {
        Justify::SpaceBetween => if n > 1 {
            (avail - sum) / (n - 1)
        } else {
            l.gap as int
        },
        Justify::SpaceAround => (avail - sum) / n,
        Justify::SpaceEvenly => (avail - sum) / (n + 1),
        _ => l.gap as int,
    }
}

/// Where the first child of a flex container starts on the main axis.
pub open spec fn flex_start(l: Layout, avail: int, sum: int, n: int) -> int {
    let total = sum + l.gap * (n - 1);
    match l.justify_content {
        Justify::Start => 0,
        Justify::Center => (avail - total) / 2,
        Justify::End => avail - total,
        Justify::SpaceBetween => 0,
        Justify::SpaceAround => ((avail - sum) / n) / 2,
        Justify::SpaceEvenly => (avail - sum) / (n + 1),
    }
}

/// The visible children of a container.
pub open spec fn visible_children(s: SceneView, pid: NodeId) -> Seq<NodeId> {
    visible_of(s, s.children(pid))
}

/// The frame of a flex container.
pub open spec fn flex_frame(s: SceneView, pid: NodeId) -> FlexFrame {
    let p = s.nodes[pid];
    let l = p.layout;
    let row = l.direction == FlexDirection::Row;
    let vis = visible_children(s, pid);
    let w = p.width - l.padding_left - l.padding_right;
    let h = p.height - l.padding_top - l.padding_bottom;
    let avail_main = if row { w } else { h };
    let mains = Seq::new(vis.len(), |j: int| main_size(s.nodes[vis[j]], row));
    let sum = prefix_sum(mains, vis.len() as int);
    FlexFrame {
        row,
        content_x: p.x + l.padding_left,
        content_y: p.y + l.padding_top,
        avail_main,
        avail_cross: if row { h } else { w },
        mains,
        start: flex_start(l, avail_main, sum, vis.len() as int),
        gap: flex_gap(l, avail_main, sum, vis.len() as int),
    }
}

/// Where a child stands across the main axis, from the content box.
pub open spec fn flex_cross(align: Align, avail_cross: int, child_cross: int) -> int {
    match align {
        Align::Start => 0,
        Align::Center => (avail_cross - child_cross) / 2,
        Align::End => avail_cross - child_cross,
        Align::Stretch => 0,
    }
}

/// The `i`-th visible child of a flex container after layout. It starts where
/// the children before it and the gaps between them end; across the axis it
/// stands as the alignment says, and takes the extent of the content box
/// where the alignment stretches.
pub open spec fn flex_placed(f: FlexFrame, align: Align, c: NodeView, i: int) -> NodeView {
    let main_pos = f.start + prefix_sum(f.mains, i) + i * f.gap;
    let cross_pos = flex_cross(align, f.avail_cross, cross_size(c, f.row));
    let x = if f.row { f.content_x + main_pos } else { f.content_x + cross_pos };
    let y = if f.row { f.content_y + cross_pos } else { f.content_y + main_pos };
    let stretch = align == Align::Stretch;
    NodeView {
        x: clamp_int(x) as Scalar,
        y: clamp_int(y) as Scalar,
        width: if stretch && !f.row { clamp_int(f.avail_cross) as Scalar } else { c.width },
        height: if stretch && f.row { clamp_int(f.avail_cross) as Scalar } else { c.height },
        ..c
    }
}

/// The scene after a flex container has placed the first `k` of its visible
/// children.
pub open spec fn flexed_upto(s: SceneView, pid: NodeId, k: int) -> SceneView {
    let vis = visible_children(s, pid);
    SceneView {
        nodes: Map::new(
            |x: NodeId| s.contains(x),
            |x: NodeId|
                if vis.take(k).contains(x) {
                    flex_placed(
                        flex_frame(s, pid),
                        s.nodes[pid].layout.align_items,
                        s.nodes[x],
                        vis.index_of(x),
                    )
                } else {
                    s.nodes[x]
                },
        ),
        ..s
    }
}

/// The scene after a flex container has placed its visible children.
pub open spec fn flexed(s: SceneView, pid: NodeId) -> SceneView {
    flexed_upto(s, pid, visible_children(s, pid).len() as int)
}

/// The product of a count and a number, bounded by the bounds of both.
proof fn lemma_scaled_bound(k: int, g: int, kmax: int, gmax: int)
    requires
        0 <= k <= kmax,
        -gmax <= g <= gmax,
    ensures
        -(kmax * gmax) <= k * g <= kmax * gmax,
{
    assert(-(kmax * gmax) <= k * g <= kmax * gmax) by (nonlinear_arith)
        requires
            0 <= k <= kmax,
            -gmax <= g <= gmax,
    ;
}

/// A share of a quantity, taken at most as often as there are shares, stays
/// within the quantity and the number of shares.
proof fn lemma_share_bound(d: int, m: int, k: int, dmax: int)
    requires
        m > 0,
        0 <= k <= m,
        -dmax <= d <= dmax,
    ensures
        -(dmax + m) <= k * (d / m) <= dmax + m,
        -dmax - 1 <= d / m <= dmax,
{
    let q = d / m;
    let r = d % m;
    vstd::arithmetic::div_mod::lemma_fundamental_div_mod(d, m);
    vstd::arithmetic::div_mod::lemma_mod_bound(d, m);
    assert(-(dmax + m) <= k * q <= dmax + m && -dmax - 1 <= q <= dmax) by (nonlinear_arith)
        requires
            d == m * q + r,
            0 <= r < m,
            m > 0,
            0 <= k <= m,
            -dmax <= d <= dmax,
    ;
}

/// A visible child as the layout reads it: its id and its size.
#[derive(Clone, Copy)]
struct ChildBox {
    id: NodeId,
    width: Scalar,
    height: Scalar,
}

/// Whether a list of boxes is that of the visible ids of a scene.
spec fn boxes_of(s: SceneView, vis: Seq<NodeId>, boxes: Seq<ChildBox>) -> bool {
    &&& boxes.len() == vis.len()
    &&& forall|j: int|
        0 <= j < vis.len() ==> (#[trigger] boxes[j]).id == vis[j] && s.contains(vis[j])
            && boxes[j].width == s.nodes[vis[j]].width && boxes[j].height
            == s.nodes[vis[j]].height
}

/// The visible children among a list of ids, each with its size.
fn visible_boxes(scene: &Scene, children: &Vec<NodeId>) -> (r: Vec<ChildBox>)
    ensures
        boxes_of(scene@, visible_of(scene@, children@), r@),
{
    let mut r: Vec<ChildBox> = Vec::new();
    let mut i: usize = 0;
    while i < children.len()
        invariant
            i <= children.len(),
            boxes_of(scene@, visible_of(scene@, children@.take(i as int)), r@),
        decreases children.len() - i,
    {
        let cid: NodeId = children[i];
        proof {
            let t = children@.take(i as int + 1);
            assert(t.drop_last() =~= children@.take(i as int));
            assert(t.last() == cid);
        }
        match scene.get_node(cid) {
            Some(child) => {
                if child.visible {
                    r.push(ChildBox { id: cid, width: child.width, height: child.height });
                }
            },
            None => {},
        }
        i += 1;
    }
    assert(children@.take(children.len() as int) =~= children@);
    r
}

/// The main sizes of a list of boxes.
spec fn box_mains(boxes: Seq<ChildBox>, row: bool) -> Seq<int> {
    Seq::new(
        boxes.len(),
        |j: int|
            if row {
                boxes[j].width as int
            } else {
                boxes[j].height as int
            },
    )
}

/// The sum of the main sizes of a list of boxes.
fn sum_mains(boxes: &Vec<ChildBox>, row: bool) -> (sum: i128)
    ensures
        sum == prefix_sum(box_mains(boxes@, row), boxes@.len() as int),
        -(boxes@.len() * 0x8000_0000) <= sum <= boxes@.len() * 0x8000_0000,
{
    let ghost q = box_mains(boxes@, row);
    let mut sum: i128 = 0;
    let mut i: usize = 0;
    while i < boxes.len()
        invariant
            i <= boxes.len(),
            q == box_mains(boxes@, row),
            sum == prefix_sum(q, i as int),
            -(i * 0x8000_0000) <= sum <= i * 0x8000_0000,
        decreases boxes.len() - i,
    {
        let v: i128 = if row { boxes[i].width as i128 } else { boxes[i].height as i128 };
        assert(q[i as int] == v);
        sum = sum + v;
        i += 1;
    }
    sum
}

/// A node at another position and, where one is given, of another width or
/// height.
pub open spec fn boxed(n: NodeView, x: Scalar, y: Scalar, width: Option<Scalar>, height: Option<Scalar>) -> NodeView {
    NodeView {
        x,
        y,
        width: match width {
            Some(w) => w,
            None => n.width,
        },
        height: match height {
            Some(h) => h,
            None => n.height,
        },
        ..n
    }
}

/// Puts a node at a position and gives it, where one is given, a width or a
/// height.
fn set_box(scene: &mut Scene, id: NodeId, x: Scalar, y: Scalar, width: Option<Scalar>, height: Option<Scalar>)
    requires
        old(scene)@.contains(id),
    ensures
        final(scene)@ == old(scene)@.with_node(
            id,
            boxed(old(scene)@.nodes[id], x, y, width, height),
        ),
        final(scene).selected() == old(scene).selected(),
{
    match scene.get_node_mut(id) {
        Some(child) => {
            child.x = x;
            child.y = y;
            match width {
                Some(w) => {
                    child.width = w;
                },
                None => {},
            }
            match height {
                Some(h) => {
                    child.height = h;
                },
                None => {},
            }
        },
        None => {},
    }
}

/// Where the first child starts and the gap between two children.
fn flex_measure(layout: &Layout, avail: i128, sum: i128, n: usize) -> (r: (i128, i128))
    requires
        n >= 1,
        -0x2_0000_0000 <= avail <= 0x2_0000_0000,
        -(n * 0x8000_0000) <= sum <= n * 0x8000_0000,
    ensures
        r.0 == flex_start(*layout, avail as int, sum as int, n as int),
        r.1 == flex_gap(*layout, avail as int, sum as int, n as int),
        -0x4_0000_0000_0000_0000_0000_0000 <= r.0 <= 0x4_0000_0000_0000_0000_0000_0000,
        forall|k: int|
            0 <= k < n ==> -0x4_0000_0000_0000_0000_0000_0000 <= #[trigger] (k * r.1)
                <= 0x4_0000_0000_0000_0000_0000_0000,
{
    let nn: i128 = n as i128;
    let gap: i128 = layout.gap as i128;
    proof {
        lemma_scaled_bound(n as int, 0x8000_0000, 0x1_0000_0000_0000_0000, 0x8000_0000);
        lemma_scaled_bound(nn - 1, gap as int, 0x1_0000_0000_0000_0000, 0x8000_0000);
        assert(gap * (nn - 1) == (nn - 1) * gap) by (nonlinear_arith);
    }
    let total: i128 = sum + gap * (nn - 1);
    let free: i128 = avail - sum;
    let start: i128 = match layout.justify_content {
        Justify::Start => 0,
        Justify::Center => floor_div(avail - total, 2),
        Justify::End => avail - total,
        Justify::SpaceBetween => 0,
        Justify::SpaceAround => {
            proof {
                lemma_share_bound(free as int, nn as int, 0, 0x1_0000_0000_0000_0000_0000_0000);
            }
            floor_div(floor_div(free, nn), 2)
        },
        Justify::SpaceEvenly => {
            proof {
                lemma_share_bound(
                    free as int,
                    nn + 1,
                    0,
                    0x1_0000_0000_0000_0000_0000_0000,
                );
            }
            floor_div(free, nn + 1)
        },
    };
    let step: i128 = match layout.justify_content {
        Justify::SpaceBetween => {
            if n > 1 {
                floor_div(free, nn - 1)
            } else {
                gap
            }
        },
        Justify::SpaceAround => floor_div(free, nn),
        Justify::SpaceEvenly => floor_div(free, nn + 1),
        _ => gap,
    };
    proof {
        assert forall|k: int| 0 <= k < n implies -0x4_0000_0000_0000_0000_0000_0000 <= #[trigger] (k
            * step) <= 0x4_0000_0000_0000_0000_0000_0000 by {
            let d = free as int;
            let big = 0x1_0000_0000_0000_0000_0000_0000;
            if step == gap {
                lemma_scaled_bound(k, gap as int, 0x1_0000_0000_0000_0000, 0x8000_0000);
            } else {
                match layout.justify_content {
                    Justify::SpaceBetween => {
                        lemma_share_bound(d, nn - 1, k, big);
                    },
                    Justify::SpaceAround => {
                        lemma_share_bound(d, nn as int, k, big);
                    },
                    Justify::SpaceEvenly => {
                        lemma_share_bound(d, nn + 1, k, big);
                    },
                    _ => {},
                }
            }
        }
    }
    (start, step)
}

/// The position across the axis of a child of the given cross size.
fn cross_position(align: Align, avail_cross: i128, child_cross: i128) -> (r: i128)
    requires
        -0x2_0000_0000 <= avail_cross <= 0x2_0000_0000,
        -0x8000_0000 <= child_cross <= 0x8000_0000,
    ensures
        r == flex_cross(align, avail_cross as int, child_cross as int),
        -0x4_0000_0000 <= r <= 0x4_0000_0000,
{
    match align {
        Align::Start => 0,
        Align::Center => floor_div(avail_cross - child_cross, 2),
        Align::End => avail_cross - child_cross,
        Align::Stretch => 0,
    }
}

/// Places the visible children of a flex container.
#[verifier::rlimit(50)]
fn compute_flex(scene: &mut Scene, parent_id: NodeId)
    requires
        old(scene).wf(),
        old(scene)@.contains(parent_id),
    ensures
        final(scene)@ == flexed(old(scene)@, parent_id),
        final(scene).wf(),
        final(scene).selected() == old(scene).selected(),
{
    let ghost s = scene@;
    let ghost vis = visible_children(s, parent_id);
    let ghost f = flex_frame(s, parent_id);
    let (layout, px, py, pw, ph, children) = match scene.get_node(parent_id) {
        Some(n) => (n.layout, n.x, n.y, n.width, n.height, n.children.clone()),
        None => {
            return ;
        },
    };
    let boxes = visible_boxes(scene, &children);
    let n: usize = boxes.len();
    proof {
        assert(s.children(parent_id).no_duplicates());
        lemma_visible_no_duplicates(s, s.children(parent_id));
        assert(vis.take(0) =~= Seq::<NodeId>::empty());
        assert(flexed_upto(s, parent_id, 0).nodes =~= s.nodes);
    }
    if n == 0 {
        return ;
    }
    let row: bool = layout.direction == FlexDirection::Row;
    let content_x: i128 = px as i128 + layout.padding_left as i128;
    let content_y: i128 = py as i128 + layout.padding_top as i128;
    let content_w: i128 = pw as i128 - layout.padding_left as i128 - layout.padding_right as i128;
    let content_h: i128 = ph as i128 - layout.padding_top as i128 - layout.padding_bottom as i128;
    let avail_main: i128 = if row { content_w } else { content_h };
    let avail_cross: i128 = if row { content_h } else { content_w };
    let sum: i128 = sum_mains(&boxes, row);
    proof {
        assert(box_mains(boxes@, row) =~= f.mains);
    }
    let (start, step) = flex_measure(&layout, avail_main, sum, n);
    let stretch: bool = layout.align_items == Align::Stretch;
    let mut acc: i128 = 0;
    let mut i: usize = 0;
    while i < n
        invariant
            i <= n,
            n == boxes.len(),
            s.wf(),
            s.contains(parent_id),
            vis == visible_children(s, parent_id),
            vis.no_duplicates(),
            f == flex_frame(s, parent_id),
            layout == s.nodes[parent_id].layout,
            boxes_of(s, vis, boxes@),
            row == f.row,
            stretch == (layout.align_items == Align::Stretch),
            content_x == f.content_x,
            content_y == f.content_y,
            avail_cross == f.avail_cross,
            start == f.start,
            step == f.gap,
            -0x2_0000_0000 <= content_x <= 0x2_0000_0000,
            -0x2_0000_0000 <= content_y <= 0x2_0000_0000,
            -0x2_0000_0000 <= avail_cross <= 0x2_0000_0000,
            -0x4_0000_0000_0000_0000_0000_0000 <= start <= 0x4_0000_0000_0000_0000_0000_0000,
            forall|k: int|
                0 <= k < n ==> -0x4_0000_0000_0000_0000_0000_0000 <= #[trigger] (k * step)
                    <= 0x4_0000_0000_0000_0000_0000_0000,
            acc == prefix_sum(f.mains, i as int),
            -(i * 0x8000_0000) <= acc <= i * 0x8000_0000,
            scene@ == flexed_upto(s, parent_id, i as int),
            scene.selected() == old(scene).selected(),
        decreases n - i,
    {
        let b: ChildBox = boxes[i];
        let child_main: i128 = if row { b.width as i128 } else { b.height as i128 };
        let child_cross: i128 = if row { b.height as i128 } else { b.width as i128 };
        proof {
            assert(-0x4_0000_0000_0000_0000_0000_0000 <= (i as int) * step
                <= 0x4_0000_0000_0000_0000_0000_0000);
            lemma_scaled_bound(i as int, 0x8000_0000, 0x1_0000_0000_0000_0000, 0x8000_0000);
            assert(f.mains[i as int] == child_main);
            assert(vis[i as int] == b.id);
            assert(!vis.take(i as int).contains(b.id));
        }
        let main_pos: i128 = start + acc + (i as i128) * step;
        let cross_pos: i128 = cross_position(layout.align_items, avail_cross, child_cross);
        let new_x: i128 = if row { content_x + main_pos } else { content_x + cross_pos };
        let new_y: i128 = if row { content_y + cross_pos } else { content_y + main_pos };
        let ghost before = scene@;
        let across: Scalar = clamp_scalar(avail_cross);
        let new_width: Option<Scalar> = if stretch && !row { Some(across) } else { None };
        let new_height: Option<Scalar> = if stretch && row { Some(across) } else { None };
        assert(before.contains(b.id));
        set_box(scene, b.id, clamp_scalar(new_x), clamp_scalar(new_y), new_width, new_height);
        proof {
            let t0 = vis.take(i as int);
            let t1 = vis.take(i as int + 1);
            assert(t1 =~= t0.push(b.id));
            assert forall|x: NodeId| t1.contains(x) <==> (t0.contains(x) || x == b.id) by {
                lemma_push_contains(t0, b.id, x);
            }
            assert(vis.index_of(b.id) == i as int);
            assert(before.nodes[b.id] == s.nodes[b.id]);
            assert(scene@.nodes =~= flexed_upto(s, parent_id, i as int + 1).nodes);
        }
        acc = acc + child_main;
        i += 1;
    }
    proof {
        s.lemma_same_shape_wf(scene@);
    }
}

/// The number of columns of a grid: the configured number, and at least one.
pub open spec fn grid_cols(l: Layout) -> int {
    if l.grid_columns < 1 {
        1
    } else {
        l.grid_columns as int
    }
}

/// The greatest of the numbers of a list from one position up to another, and
/// at least zero.
pub open spec fn span_max(hs: Seq<int>, from: int, to: int) -> int
    decreases to - from,
{
    if to <= from {
        0
    } else {
        let m = span_max(hs, from, to - 1);
        if hs[to - 1] > m {
            hs[to - 1]
        } else {
            m
        }
    }
}

/// Where the `r`-th row of a grid starts, from the content box: below the
/// rows before it, each as high as its highest child, and a gap after each.
pub open spec fn row_top(hs: Seq<int>, cols: int, gap: int, r: int) -> int
    decreases r,
{
    if r <= 0 {
        0
    } else {
        row_top(hs, cols, gap, r - 1) + span_max(hs, (r - 1) * cols, r * cols) + gap
    }
}

/// The content box of a grid container and what the layout derives from it
/// and from the heights of the visible children.
pub struct GridFrame {
    pub content_x: int,
    pub content_y: int,
    pub cols: int,
    pub col_width: int,
    pub gap: int,
    /// The heights of the visible children.
    pub heights: Seq<int>,
}

/// The frame of a grid container.
pub open spec fn grid_frame(s: SceneView, pid: NodeId) -> GridFrame {
    let p = s.nodes[pid];
    let l = p.layout;
    let vis = visible_children(s, pid);
    let w = p.width - l.padding_left - l.padding_right;
    let cols = grid_cols(l);
    GridFrame {
        content_x: p.x + l.padding_left,
        content_y: p.y + l.padding_top,
        cols,
        col_width: (w - l.gap * (cols - 1)) / cols,
        gap: l.gap as int,
        heights: Seq::new(vis.len(), |j: int| s.nodes[vis[j]].height as int),
    }
}

/// The `i`-th visible child of a grid container after layout: in column
/// `i mod cols` and row `i div cols`, as wide as a column, its height as it
/// was.
pub open spec fn grid_placed(g: GridFrame, c: NodeView, i: int) -> NodeView {
    NodeView {
        x: clamp_int(g.content_x + (i % g.cols) * (g.col_width + g.gap)) as Scalar,
        y: clamp_int(g.content_y + row_top(g.heights, g.cols, g.gap, i / g.cols)) as Scalar,
        width: clamp_int(g.col_width) as Scalar,
        ..c
    }
}

/// The scene after a grid container has placed the first `k` of its visible
/// children.
pub open spec fn gridded_upto(s: SceneView, pid: NodeId, k: int) -> SceneView {
    let vis = visible_children(s, pid);
    SceneView {
        nodes: Map::new(
            |x: NodeId| s.contains(x),
            |x: NodeId|
                if vis.take(k).contains(x) {
                    grid_placed(grid_frame(s, pid), s.nodes[x], vis.index_of(x))
                } else {
                    s.nodes[x]
                },
        ),
        ..s
    }
}

/// The scene after a grid container has placed its visible children.
pub open spec fn gridded(s: SceneView, pid: NodeId) -> SceneView {
    gridded_upto(s, pid, visible_children(s, pid).len() as int)
}

/// Places the visible children of a grid container.
#[verifier::rlimit(50)]
fn compute_grid(scene: &mut Scene, parent_id: NodeId)
    requires
        old(scene).wf(),
        old(scene)@.contains(parent_id),
    ensures
        final(scene)@ == gridded(old(scene)@, parent_id),
        final(scene).wf(),
        final(scene).selected() == old(scene).selected(),
{
    let ghost s = scene@;
    let ghost vis = visible_children(s, parent_id);
    let ghost g = grid_frame(s, parent_id);
    let (layout, px, py, pw, children) = match scene.get_node(parent_id) {
        Some(n) => (n.layout, n.x, n.y, n.width, n.children.clone()),
        None => {
            return ;
        },
    };
    let boxes = visible_boxes(scene, &children);
    let n: usize = boxes.len();
    proof {
        assert(s.children(parent_id).no_duplicates());
        lemma_visible_no_duplicates(s, s.children(parent_id));
        assert(vis.take(0) =~= Seq::<NodeId>::empty());
        assert(gridded_upto(s, parent_id, 0).nodes =~= s.nodes);
    }
    let content_x: i128 = px as i128 + layout.padding_left as i128;
    let content_y: i128 = py as i128 + layout.padding_top as i128;
    let content_w: i128 = pw as i128 - layout.padding_left as i128 - layout.padding_right as i128;
    let cols: i128 = if layout.grid_columns < 1 { 1 } else { layout.grid_columns as i128 };
    let gap: i128 = layout.gap as i128;
    proof {
        lemma_scaled_bound(cols - 1, gap as int, 0x1_0000_0000, 0x8000_0000);
        assert(gap * (cols - 1) == (cols - 1) * gap) by (nonlinear_arith);
        lemma_share_bound(
            (content_w - gap * (cols - 1)) as int,
            cols as int,
            0,
            0x1_0000_0000_0000_0000,
        );
    }
    let col_w: i128 = floor_div(content_w - gap * (cols - 1), cols);
    let pitch: i128 = col_w + gap;
    let width: Scalar = clamp_scalar(col_w);
    let mut col: i128 = 0;
    let ghost mut row: int = 0;
    let mut row_y: i128 = 0;
    let mut row_h: i128 = 0;
    let mut i: usize = 0;
    while i < n
        invariant
            i <= n,
            n == boxes.len(),
            s.wf(),
            s.contains(parent_id),
            vis == visible_children(s, parent_id),
            vis.no_duplicates(),
            g == grid_frame(s, parent_id),
            boxes_of(s, vis, boxes@),
            content_x == g.content_x,
            content_y == g.content_y,
            cols == g.cols,
            1 <= cols <= 0xFFFF_FFFF,
            gap == g.gap,
            col_w == g.col_width,
            pitch == col_w + gap,
            width as int == clamp_int(g.col_width),
            -0x2_0000_0000 <= content_x <= 0x2_0000_0000,
            -0x2_0000_0000 <= content_y <= 0x2_0000_0000,
            -0x2_0000_0000_0000_0000 <= pitch <= 0x2_0000_0000_0000_0000,
            -0x8000_0000 <= gap <= 0x8000_0000,
            0 <= col < cols,
            0 <= row,
            i as int == row * cols + col,
            row_y == row_top(g.heights, g.cols, g.gap, row),
            row_h == span_max(g.heights, row * cols, i as int),
            0 <= row_h <= 0x8000_0000,
            -(i * 0x1_0000_0000) <= row_y <= i * 0x1_0000_0000,
            scene@ == gridded_upto(s, parent_id, i as int),
            scene.selected() == old(scene).selected(),
        decreases n - i,
    {
        let b: ChildBox = boxes[i];
        proof {
            lemma_scaled_bound(col as int, pitch as int, 0x1_0000_0000, 0x2_0000_0000_0000_0000);
            vstd::arithmetic::div_mod::lemma_fundamental_div_mod_converse(
                i as int,
                cols as int,
                row,
                col as int,
            );
            assert(g.heights[i as int] == b.height);
            assert(vis[i as int] == b.id);
            assert(!vis.take(i as int).contains(b.id));
        }
        let new_x: i128 = content_x + col * pitch;
        let new_y: i128 = content_y + row_y;
        let ghost before = scene@;
        assert(before.contains(b.id));
        set_box(scene, b.id, clamp_scalar(new_x), clamp_scalar(new_y), Some(width), None);
        proof {
            let t0 = vis.take(i as int);
            let t1 = vis.take(i as int + 1);
            assert(t1 =~= t0.push(b.id));
            assert forall|x: NodeId| t1.contains(x) <==> (t0.contains(x) || x == b.id) by {
                lemma_push_contains(t0, b.id, x);
            }
            assert(vis.index_of(b.id) == i as int);
            assert(before.nodes[b.id] == s.nodes[b.id]);
            assert(scene@.nodes =~= gridded_upto(s, parent_id, i as int + 1).nodes);
        }
        let h: i128 = b.height as i128;
        if h > row_h {
            row_h = h;
        }
        assert(row_h == span_max(g.heights, row * cols, i as int + 1));
        col = col + 1;
        if col == cols {
            proof {
                assert((row + 1) * cols == row * cols + cols) by (nonlinear_arith);
                assert((row + 1 - 1) * cols == row * cols);
            }
            row_y = row_y + row_h + gap;
            row_h = 0;
            col = 0;
            proof {
                row = row + 1;
            }
        }
        i += 1;
    }
    proof {
        s.lemma_same_shape_wf(scene@);
    }
}

/// The scene after one container has laid out its children: as its layout
/// mode says, or unchanged where it lays nothing out or does not exist.
pub open spec fn laid_out(s: SceneView, pid: NodeId) -> SceneView {
    if !s.contains(pid) {
        s
    } else {
        match s.nodes[pid].layout.mode {
            LayoutMode::Flex => flexed(s, pid),
            LayoutMode::Grid => gridded(s, pid),
            LayoutMode::Off => s,
        }
    }
}

/// Lays out the children of one container.
fn compute_node_layout(scene: &mut Scene, parent_id: NodeId)
    requires
        old(scene).wf(),
    ensures
        final(scene)@ == laid_out(old(scene)@, parent_id),
        final(scene).wf(),
        final(scene).selected() == old(scene).selected(),
{
    let mode: LayoutMode = match scene.get_node(parent_id) {
        Some(n) => n.layout.mode,
        None => {
            return ;
        },
    };
    match mode {
        LayoutMode::Flex => compute_flex(scene, parent_id),
        LayoutMode::Grid => compute_grid(scene, parent_id),
        LayoutMode::Off => {},
    }
}

/// The ids of a list that name containers with a layout, in their order.
pub open spec fn containers_of(s: SceneView, ids: Seq<NodeId>) -> Seq<NodeId>
    decreases ids.len(),
{
    if ids.len() == 0 {
        ids
    } else if s.contains(ids.last()) && s.nodes[ids.last()].layout.mode != LayoutMode::Off {
        containers_of(s, ids.drop_last()).push(ids.last())
    } else {
        containers_of(s, ids.drop_last())
    }
}

/// The scene after the containers of a list have laid out their children,
/// one after the other, each reading what those before it have written.
pub open spec fn laid_out_all(s: SceneView, ids: Seq<NodeId>) -> SceneView
    decreases ids.len(),
{
    if ids.len() == 0 {
        s
    } else {
        laid_out_all(laid_out(s, ids[0]), ids.skip(1))
    }
}

/// The layout pass: every container with a layout, in render order, places
/// its direct children. A container uses the sizes that its children have
/// when its turn comes, so a size that a nested container's parent changes is
/// seen by the nested container, but not the other way round.
pub fn compute_layouts(scene: &mut Scene)
    requires
        old(scene).wf(),
    ensures
        final(scene)@ == laid_out_all(
            old(scene)@,
            containers_of(old(scene)@, old(scene)@.order()),
        ),
        final(scene).wf(),
        final(scene).selected() == old(scene).selected(),
{
    let all = scene.all_node_ids();
    let mut ids: Vec<NodeId> = Vec::new();
    let mut k: usize = 0;
    while k < all.len()
        invariant
            k <= all.len(),
            ids@ == containers_of(scene@, all@.take(k as int)),
        decreases all.len() - k,
    {
        let id: NodeId = all[k];
        proof {
            let t = all@.take(k as int + 1);
            assert(t.drop_last() =~= all@.take(k as int));
            assert(t.last() == id);
        }
        let has_layout: bool = match scene.get_node(id) {
            Some(n) => n.layout.mode != LayoutMode::Off,
            None => false,
        };
        if has_layout {
            ids.push(id);
        }
        k += 1;
    }
    assert(all@.take(all.len() as int) =~= all@);
    let mut i: usize = 0;
    assert(ids@.skip(0) =~= ids@);
    while i < ids.len()
        invariant
            i <= ids.len(),
            scene.wf(),
            scene.selected() == old(scene).selected(),
            laid_out_all(scene@, ids@.skip(i as int)) == laid_out_all(old(scene)@, ids@),
        decreases ids.len() - i,
    {
        proof {
            let rest = ids@.skip(i as int);
            assert(rest[0] == ids@[i as int]);
            assert(rest.skip(1) =~= ids@.skip(i as int + 1));
        }
        compute_node_layout(scene, ids[i]);
        i += 1;
    }
    assert(ids@.skip(ids.len() as int) =~= Seq::<NodeId>::empty());
}

/// A container that lays out its children changes no id, parent or child
/// list: the scene keeps its shape.
pub proof fn lemma_laid_out_same_shape(s: SceneView, pid: NodeId)
    ensures
        s.same_shape(laid_out(s, pid)),
{
    let t = laid_out(s, pid);
    assert(t.nodes.dom() =~= s.nodes.dom());
    assert forall|x: NodeId| #[trigger] s.contains(x) implies SceneView::same_links(
        s.nodes[x],
        t.nodes[x],
    ) by {}
}

/// The layout pass keeps a well-formed scene well formed, in its shape, and
/// in its render order.
pub proof fn lemma_laid_out_all_same_shape(s: SceneView, ids: Seq<NodeId>)
    requires
        s.wf(),
    ensures
        s.same_shape(laid_out_all(s, ids)),
        laid_out_all(s, ids).wf(),
        laid_out_all(s, ids).order() == s.order(),
    decreases ids.len(),
{
    if ids.len() > 0 {
        let s1 = laid_out(s, ids[0]);
        lemma_laid_out_same_shape(s, ids[0]);
        s.lemma_same_shape_wf(s1);
        lemma_laid_out_all_same_shape(s1, ids.skip(1));
        let t = laid_out_all(s1, ids.skip(1));
        assert(s.same_shape(t)) by {
            assert forall|x: NodeId| #[trigger] s.contains(x) implies SceneView::same_links(
                s.nodes[x],
                t.nodes[x],
            ) by {
                assert(s1.contains(x));
                assert(SceneView::same_links(s.nodes[x], s1.nodes[x]));
                assert(SceneView::same_links(s1.nodes[x], t.nodes[x]));
            }
        }
        s.lemma_same_shape_order(t);
    } else {
        s.lemma_same_shape_order(s);
    }
}

} // verus!
