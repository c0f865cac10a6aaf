use engine::deep::Same;
use engine::node::{Node, NodeKind};
use engine::scene::{Scene, SceneData};
use engine::types::{Point, UNIT};

fn rect() -> Node {
    Node::new(0, NodeKind::Rect)
}

fn child_of(parent: u64) -> Node {
    let mut n = rect();
    n.parent = Some(parent);
    n
}

/// root 1 with children 2 and 3; 2 has child 4; root 5.
fn small_tree() -> Scene {
    let mut s = Scene::new();
    assert_eq!(s.add_node(rect()), 1);
    assert_eq!(s.add_node(child_of(1)), 2);
    assert_eq!(s.add_node(child_of(1)), 3);
    assert_eq!(s.add_node(child_of(2)), 4);
    assert_eq!(s.add_node(rect()), 5);
    s
}

#[test]
fn new_scene_is_empty() {
    let s = Scene::new();
    assert_eq!(s.node_count(), 0);
    assert_eq!(s.render_order(), Vec::<u64>::new());
    assert_eq!(s.get_selection(), Vec::<u64>::new());
    assert_eq!(s.export().next_id, 1);
}

#[test]
fn add_node_assigns_ids_and_links() {
    let s = small_tree();
    assert_eq!(s.node_count(), 5);
    assert_eq!(s.get_children_of(1), vec![2, 3]);
    assert_eq!(s.get_children_of(2), vec![4]);
    assert_eq!(s.get_node(4).unwrap().parent, Some(2));
    assert_eq!(s.get_node(1).unwrap().parent, None);
    assert_eq!(s.export().root_children, vec![1, 5]);
    assert_eq!(s.get_node(3).unwrap().id, 3);
}

#[test]
fn add_node_under_missing_parent_changes_nothing() {
    let mut s = small_tree();
    assert_eq!(s.add_node(child_of(99)), 0);
    assert_eq!(s.node_count(), 5);
    assert_eq!(s.export().next_id, 6);
}

#[test]
fn add_node_drops_children_it_was_given() {
    let mut s = small_tree();
    let mut n = rect();
    n.children = vec![1, 2];
    let id = s.add_node(n);
    assert_eq!(id, 6);
    assert_eq!(s.get_children_of(6), Vec::<u64>::new());
}

#[test]
fn render_order_is_depth_first() {
    let s = small_tree();
    assert_eq!(s.render_order(), vec![1, 2, 4, 3, 5]);
    assert_eq!(s.all_node_ids(), vec![1, 2, 4, 3, 5]);
    assert_eq!(s.subtree_ids(2), vec![2, 4]);
    assert_eq!(s.subtree_ids(77), vec![77]);
}

#[test]
fn every_node_is_in_exactly_one_place() {
    let mut s = small_tree();
    s.reparent(4, Some(5));
    s.reparent(3, None);
    s.remove_node(2);
    s.add_node(child_of(4));
    let order = s.render_order();
    assert_eq!(order.len(), s.node_count());
    let mut sorted = order.clone();
    sorted.sort();
    sorted.dedup();
    assert_eq!(sorted.len(), order.len());
    for id in order {
        let n = s.get_node(id).unwrap();
        match n.parent {
            None => assert!(s.export().root_children.contains(&id)),
            Some(p) => assert!(s.get_children_of(p).contains(&id)),
        }
    }
}

#[test]
fn remove_node_removes_subtree_and_nothing_else() {
    let mut s = small_tree();
    s.set_selection(vec![2, 4, 5]);
    s.remove_node(2);
    assert!(s.get_node(2).is_none());
    assert!(s.get_node(4).is_none());
    assert!(s.get_node(1).is_some());
    assert!(s.get_node(3).is_some());
    assert!(s.get_node(5).is_some());
    assert_eq!(s.get_children_of(1), vec![3]);
    assert_eq!(s.render_order(), vec![1, 3, 5]);
    assert_eq!(s.get_selection(), vec![4, 5]);
}

#[test]
fn remove_root_removes_it_from_roots() {
    let mut s = small_tree();
    s.remove_node(1);
    assert_eq!(s.export().root_children, vec![5]);
    assert_eq!(s.node_count(), 1);
}

#[test]
fn remove_missing_node_only_touches_selection() {
    let mut s = small_tree();
    s.set_selection(vec![42, 1]);
    s.remove_node(42);
    assert_eq!(s.node_count(), 5);
    assert_eq!(s.get_selection(), vec![1]);
}

#[test]
fn ids_are_never_reused() {
    let mut s = small_tree();
    s.remove_node(5);
    assert_eq!(s.add_node(rect()), 6);
}

#[test]
fn reparent_moves_to_end_of_new_parent() {
    let mut s = small_tree();
    s.reparent(5, Some(1));
    assert_eq!(s.get_children_of(1), vec![2, 3, 5]);
    assert_eq!(s.get_node(5).unwrap().parent, Some(1));
    assert_eq!(s.export().root_children, vec![1]);
    s.reparent(2, None);
    assert_eq!(s.export().root_children, vec![1, 2]);
    assert_eq!(s.get_children_of(1), vec![3, 5]);
    assert_eq!(s.get_node(2).unwrap().parent, None);
    assert_eq!(s.render_order(), vec![1, 3, 5, 2, 4]);
}

#[test]
fn reparent_within_same_parent_moves_to_end() {
    let mut s = small_tree();
    s.reparent(2, Some(1));
    assert_eq!(s.get_children_of(1), vec![3, 2]);
}

#[test]
fn reparent_under_own_descendant_is_refused() {
    let mut s = small_tree();
    s.reparent(1, Some(4));
    assert_eq!(s.get_node(1).unwrap().parent, None);
    assert_eq!(s.get_children_of(4), Vec::<u64>::new());
    s.reparent(2, Some(2));
    assert_eq!(s.get_node(2).unwrap().parent, Some(1));
    assert_eq!(s.render_order(), vec![1, 2, 4, 3, 5]);
}

#[test]
fn reparent_with_missing_ids_is_refused() {
    let mut s = small_tree();
    s.reparent(99, Some(1));
    s.reparent(3, Some(99));
    assert_eq!(s.get_children_of(1), vec![2, 3]);
    assert_eq!(s.get_node(3).unwrap().parent, Some(1));
}

#[test]
fn get_node_mut_changes_in_place() {
    let mut s = small_tree();
    s.get_node_mut(3).unwrap().visible = false;
    assert!(!s.get_node(3).unwrap().visible);
    assert!(s.get_node_mut(99).is_none());
}

#[test]
fn move_node_adds_offset_and_clamps() {
    let mut s = small_tree();
    s.move_node(1, 5 * UNIT, -3 * UNIT);
    assert_eq!(s.get_node(1).unwrap().x, 5 * UNIT);
    assert_eq!(s.get_node(1).unwrap().y, -3 * UNIT);
    s.move_node(1, i32::MAX, i32::MIN);
    assert_eq!(s.get_node(1).unwrap().x, i32::MAX);
    assert_eq!(s.get_node(1).unwrap().y, i32::MIN);
    s.move_node(99, 1, 1);
}

#[test]
fn resize_node_floors_size_at_one_unit() {
    let mut s = small_tree();
    s.resize_node(1, 30 * UNIT, 0);
    assert_eq!(s.get_node(1).unwrap().width, 30 * UNIT);
    assert_eq!(s.get_node(1).unwrap().height, UNIT);
    s.resize_node(1, -5, UNIT + 1);
    assert_eq!(s.get_node(1).unwrap().width, UNIT);
    assert_eq!(s.get_node(1).unwrap().height, UNIT + 1);
}

#[test]
fn hit_test_returns_topmost_visible_unlocked() {
    let mut s = Scene::new();
    let a = s.add_node(rect());
    let b = s.add_node(rect());
    let c = s.add_node(child_of(a));
    let p = Point { x: 50 * UNIT, y: 50 * UNIT };
    // order is a, c, b: b is on top
    assert_eq!(s.hit_test(p), Some(b));
    s.get_node_mut(b).unwrap().locked = true;
    assert_eq!(s.hit_test(p), Some(c));
    s.get_node_mut(c).unwrap().visible = false;
    assert_eq!(s.hit_test(p), Some(a));
    assert_eq!(s.hit_test(Point { x: 100 * UNIT, y: 100 * UNIT }), Some(a));
    assert_eq!(s.hit_test(Point { x: 100 * UNIT + 1, y: 100 * UNIT }), None);
    assert_eq!(s.hit_test(Point { x: -1, y: 0 }), None);
}

#[test]
fn selection_operations() {
    let mut s = small_tree();
    s.select(3);
    assert_eq!(s.get_selection(), vec![3]);
    s.add_to_selection(4);
    s.add_to_selection(3);
    assert_eq!(s.get_selection(), vec![3, 4]);
    s.deselect_all();
    assert_eq!(s.get_selection(), Vec::<u64>::new());
}

#[test]
fn export_lists_nodes_by_ascending_id() {
    let mut s = small_tree();
    s.remove_node(3);
    let d = s.export();
    let ids: Vec<u64> = d.nodes.iter().map(|n| n.id).collect();
    assert_eq!(ids, vec![1, 2, 4, 5]);
    assert_eq!(d.root_children, vec![1, 5]);
    assert_eq!(d.next_id, 6);
}

#[test]
fn import_of_export_gives_the_same_scene() {
    let s = small_tree();
    let d = s.export();
    let t = Scene::import(d.clone()).unwrap();
    assert!(t.export().same(&d));
    assert_eq!(t.render_order(), vec![1, 2, 4, 3, 5]);
    assert_eq!(t.get_selection(), Vec::<u64>::new());
}

fn data(nodes: Vec<Node>, roots: Vec<u64>, next_id: u64) -> SceneData {
    SceneData { nodes, root_children: roots, next_id }
}

fn node(id: u64, parent: Option<u64>, children: Vec<u64>) -> Node {
    let mut n = Node::new(id, NodeKind::Frame);
    n.parent = parent;
    n.children = children;
    n
}

#[test]
fn import_accepts_nodes_in_any_order() {
    let d = data(vec![node(2, Some(1), vec![]), node(1, None, vec![2])], vec![1], 3);
    let s = Scene::import(d).unwrap();
    assert_eq!(s.render_order(), vec![1, 2]);
}

#[test]
fn import_refuses_a_dangling_child() {
    let d = data(vec![node(1, None, vec![2])], vec![1], 3);
    assert!(Scene::import(d).is_none());
}

#[test]
fn import_refuses_a_cycle() {
    let d = data(vec![node(1, Some(2), vec![2]), node(2, Some(1), vec![1])], vec![], 3);
    assert!(Scene::import(d).is_none());
}

#[test]
fn import_refuses_an_orphan() {
    let d = data(vec![node(1, None, vec![]), node(2, None, vec![])], vec![1], 3);
    assert!(Scene::import(d).is_none());
}

#[test]
fn import_refuses_a_root_listed_twice() {
    let d = data(vec![node(1, None, vec![])], vec![1, 1], 3);
    assert!(Scene::import(d).is_none());
}

#[test]
fn import_refuses_a_child_listed_twice() {
    let d = data(vec![node(1, None, vec![2, 2]), node(2, Some(1), vec![])], vec![1], 3);
    assert!(Scene::import(d).is_none());
}

#[test]
fn import_refuses_ids_not_below_next_id() {
    let d = data(vec![node(3, None, vec![])], vec![3], 3);
    assert!(Scene::import(d).is_none());
    let d = data(vec![node(0, None, vec![])], vec![0], 3);
    assert!(Scene::import(d).is_none());
    let d = data(vec![], vec![], 0);
    assert!(Scene::import(d).is_none());
}

#[test]
fn import_refuses_a_wrong_parent_pointer() {
    let d = data(
        vec![node(1, None, vec![2]), node(2, Some(3), vec![]), node(3, None, vec![])],
        vec![1, 3],
        4,
    );
    assert!(Scene::import(d).is_none());
}

#[test]
fn deep_clone_subtree_copies_depth_first() {
    let s = small_tree();
    let ids: Vec<u64> = s.deep_clone_subtree(1).iter().map(|n| n.id).collect();
    assert_eq!(ids, vec![1, 2, 4, 3]);
    assert!(s.deep_clone_subtree(9).is_empty());
}

#[test]
fn add_node_fails_when_no_id_is_left() {
    let d = data(vec![], vec![], u64::MAX);
    let mut s = Scene::import(d).unwrap();
    assert_eq!(s.add_node(rect()), 0);
    assert_eq!(s.node_count(), 0);
    assert_eq!(s.export().next_id, u64::MAX);
    let d = data(vec![], vec![], u64::MAX - 1);
    let mut s = Scene::import(d).unwrap();
    assert_eq!(s.add_node(rect()), u64::MAX - 1);
    assert_eq!(s.add_node(rect()), 0);
}

#[test]
fn import_keeps_the_later_of_two_nodes_with_one_id() {
    let mut first = node(1, None, vec![]);
    first.name = "first".to_string();
    let mut second = node(1, None, vec![]);
    second.name = "second".to_string();
    let s = Scene::import(data(vec![first, second], vec![1], 2)).unwrap();
    assert_eq!(s.node_count(), 1);
    assert_eq!(s.get_node(1).unwrap().name, "second");
}
