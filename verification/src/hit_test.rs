//! Hit testing of the resize handles at the corners of a node.

use vstd::prelude::*;
use crate::node::{NodeId, NodeView};
use crate::scene::Scene;
use crate::types::{floor_div, Point, Scalar};

verus! {

/// Whether a point is nearer than a reach to a corner, on both axes.
pub open spec fn within_reach(p: Point, cx: int, cy: int, reach: int) -> bool {
    -reach < p.x - cx < reach && -reach < p.y - cy < reach
}

/// The handle of a node that a point hits: the first of the four corners,
/// top left, top right, bottom left, bottom right, that the point is nearer
/// to than half the handle size on both axes.
pub open spec fn handle_hit(n: NodeView, p: Point, handle_size: Scalar) -> Option<usize> {
    let reach = handle_size as int / 2;
    if within_reach(p, n.x as int, n.y as int, reach) {
        Some(0usize)
    } else if within_reach(p, n.x + n.width, n.y as int, reach) {
        Some(1usize)
    } else if within_reach(p, n.x as int, n.y + n.height, reach) {
        Some(2usize)
    } else if within_reach(p, n.x + n.width, n.y + n.height, reach) {
        Some(3usize)
    } else {
        None
    }
}

/// Whether a point is nearer than a reach to a corner, on both axes.
fn reaches(p: Point, cx: i64, cy: i64, reach: i64) -> (r: bool)
    requires
        -0x1_0000_0000 <= cx <= 0x1_0000_0000,
        -0x1_0000_0000 <= cy <= 0x1_0000_0000,
        -0x1_0000_0000 <= reach <= 0x1_0000_0000,
    ensures
        r == within_reach(p, cx as int, cy as int, reach as int),
{
    let dx: i64 = p.x as i64 - cx;
    let dy: i64 = p.y as i64 - cy;
    -reach < dx && dx < reach && -reach < dy && dy < reach
}

/// The handle of a node that a point hits, if the node exists and the point
/// hits one: 0 for the top left corner, 1 for the top right, 2 for the bottom
/// left, 3 for the bottom right.
pub fn hit_test_handles(scene: &Scene, node_id: NodeId, point: Point, handle_size: Scalar) -> (r: Option<usize>)
    ensures
        r == if scene@.contains(node_id) {
            handle_hit(scene@.nodes[node_id], point, handle_size)
        } else {
            None
        },
{
    let node = match scene.get_node(node_id) {
        Some(n) => n,
        None => {
            return None;
        },
    };
    let reach: i64 = floor_div(handle_size as i128, 2) as i64;
    let x: i64 = node.x as i64;
    let y: i64 = node.y as i64;
    let right: i64 = node.x as i64 + node.width as i64;
    let bottom: i64 = node.y as i64 + node.height as i64;
    if reaches(point, x, y, reach) {
        Some(0)
    } else if reaches(point, right, y, reach) {
        Some(1)
    } else if reaches(point, x, bottom, reach) {
        Some(2)
    } else if reaches(point, right, bottom, reach) {
        Some(3)
    } else {
        None
    }
}

} // verus!
