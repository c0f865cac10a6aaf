use engine::deep::Same;
use engine::engine::{Engine, HISTORY_LIMIT};
use engine::types::UNIT;

#[test]
fn undo_and_redo_on_empty_history_fail() {
    let mut e = Engine::new();
    assert!(!e.undo());
    assert!(!e.redo());
}

#[test]
fn undo_restores_and_redo_reapplies() {
    let mut e = Engine::new();
    let f = e.add_frame(0, 0, 50 * UNIT, 50 * UNIT);
    let before = e.export_scene();
    e.push_undo();
    let r = e.add_rect(0, 0, 5 * UNIT, 5 * UNIT);
    e.reparent_node(r, Some(f));
    e.move_node(f, 3 * UNIT, 0);
    let after = e.export_scene();
    assert!(!after.same(&before));
    assert!(e.can_undo());
    assert!(e.undo());
    assert!(e.export_scene().same(&before));
    assert!(!e.can_undo());
    assert!(e.can_redo());
    assert!(e.redo());
    assert!(e.export_scene().same(&after));
    assert!(!e.can_redo());
    assert!(e.can_undo());
}

#[test]
fn undo_keeps_selected_ids_that_still_exist() {
    let mut e = Engine::new();
    let f = e.add_frame(0, 0, 50 * UNIT, 50 * UNIT);
    e.push_undo();
    let r = e.add_rect(0, 0, 5 * UNIT, 5 * UNIT);
    e.select(r);
    e.add_to_selection(f);
    assert!(e.undo());
    assert_eq!(e.get_selection(), vec![f]);
}

#[test]
fn checkpoint_skips_identical_snapshot() {
    let mut e = Engine::new();
    e.add_frame(0, 0, 50 * UNIT, 50 * UNIT);
    e.push_undo();
    e.push_undo();
    e.push_undo();
    assert!(e.undo());
    assert!(!e.can_undo());
}

#[test]
fn checkpoint_clears_redo() {
    let mut e = Engine::new();
    e.push_undo();
    e.add_frame(0, 0, 50 * UNIT, 50 * UNIT);
    assert!(e.undo());
    assert!(e.can_redo());
    e.add_rect(0, 0, UNIT, UNIT);
    e.push_undo();
    assert!(!e.can_redo());
}

#[test]
fn history_keeps_the_hundred_most_recent_checkpoints() {
    let mut e = Engine::new();
    let r = e.add_rect(0, 0, UNIT, UNIT);
    for i in 0..150 {
        // before checkpoint i the rectangle stands at x = i
        e.set_node_position(r, i, 0);
        e.push_undo();
    }
    e.set_node_position(r, 150, 0);
    let mut undone = 0;
    let mut seen = vec![];
    while e.undo() {
        undone += 1;
        seen.push(e.scene().get_node(r).unwrap().x);
    }
    assert_eq!(undone, HISTORY_LIMIT);
    assert_eq!(undone, 100);
    let expected: Vec<i32> = (50..150).rev().collect();
    assert_eq!(seen, expected);
}

#[test]
fn redo_after_many_undos_walks_forward() {
    let mut e = Engine::new();
    let r = e.add_rect(0, 0, UNIT, UNIT);
    for i in 0..5 {
        e.set_node_position(r, i, 0);
        e.push_undo();
    }
    e.set_node_position(r, 5, 0);
    let last = e.export_scene();
    for _ in 0..5 {
        assert!(e.undo());
    }
    assert_eq!(e.scene().get_node(r).unwrap().x, 0);
    for i in 1..=5 {
        assert!(e.redo());
        assert_eq!(e.scene().get_node(r).unwrap().x, i);
    }
    assert!(e.export_scene().same(&last));
    assert!(!e.redo());
}

#[test]
fn history_does_not_cover_components() {
    let mut e = Engine::new();
    let f = e.add_frame(0, 0, 50 * UNIT, 50 * UNIT);
    e.push_undo();
    let c = e.create_component(f, "Card");
    assert!(e.undo());
    assert!(e.components().get(c).is_some());
    assert_eq!(e.scene().get_node(f).unwrap().name, "Frame 1");
}
