use engine::deep::Same;
use engine::engine::{
    measure_height, measure_width, parse_align, parse_direction, parse_justify, parse_mode,
    Engine, TextSize,
};
use engine::hit_test::hit_test_handles;
use engine::node::{
    Align, Fill, FlexDirection, FlexWrap, Justify, LayoutMode, Node, NodeKind, Stroke,
    TextSizing,
};
use engine::scene::SceneData;
use engine::types::{Color, Point, UNIT};

fn node(e: &Engine, id: u64) -> &Node {
    e.scene().get_node(id).unwrap()
}

#[test]
fn new_engine_is_empty() {
    let e = Engine::new();
    assert_eq!(e.scene().node_count(), 0);
    assert!(!e.can_undo());
    assert!(!e.can_redo());
    assert_eq!(e.editing(), None);
    assert_eq!(e.get_selection(), Vec::<u64>::new());
    assert!(e.components().list().is_empty());
}

#[test]
fn add_shapes_names_and_fills() {
    let mut e = Engine::new();
    let r = e.add_rect(1 * UNIT, 2 * UNIT, 3 * UNIT, 4 * UNIT);
    let c = e.add_ellipse(0, 0, 5 * UNIT, 6 * UNIT);
    let f = e.add_frame(0, 0, 7 * UNIT, 8 * UNIT);
    assert_eq!((r, c, f), (1, 2, 3));
    assert_eq!(node(&e, r).name, "Rect 1");
    assert_eq!(node(&e, c).name, "Ellipse 2");
    assert_eq!(node(&e, f).name, "Frame 3");
    assert!(matches!(node(&e, r).kind, NodeKind::Rect));
    assert!(matches!(node(&e, c).kind, NodeKind::Ellipse));
    assert!(matches!(node(&e, f).kind, NodeKind::Frame));
    assert_eq!((node(&e, r).x, node(&e, r).y), (1 * UNIT, 2 * UNIT));
    assert_eq!((node(&e, r).width, node(&e, r).height), (3 * UNIT, 4 * UNIT));
    assert_eq!(node(&e, r).fill, Some(Fill { color: Color { r: 200, g: 200, b: 200, a: UNIT } }));
    assert_eq!(node(&e, f).fill, Some(Fill { color: Color::white() }));
    assert_eq!(e.get_root_children(), vec![1, 2, 3]);
}

#[test]
fn add_text_measures_its_content() {
    let mut e = Engine::new();
    let t = e.add_text(5 * UNIT, 6 * UNIT, "hello", 10 * UNIT);
    let n = node(&e, t);
    assert_eq!(n.name, "Text 1");
    assert_eq!(n.width, 30 * UNIT);
    assert_eq!(n.height, 12 * UNIT);
    assert_eq!(n.fill, Some(Fill { color: Color::black() }));
    match &n.kind {
        NodeKind::Text { content, font_size, font_family } => {
            assert_eq!(content, "hello");
            assert_eq!(*font_size, 10 * UNIT);
            assert_eq!(font_family, "Inter");
        }
        _ => panic!("not a text"),
    }
}

#[test]
fn text_metrics() {
    assert_eq!(measure_width(5, 10 * UNIT), 30 * UNIT);
    assert_eq!(measure_width(0, 10 * UNIT), 0);
    assert_eq!(measure_width(3, 7), 12);
    assert_eq!(measure_width(usize::MAX, i32::MAX), i32::MAX);
    assert_eq!(measure_height(10 * UNIT), 12 * UNIT);
    assert_eq!(measure_height(7), 8);
    assert_eq!(measure_height(-7), -9);
}

#[test]
fn text_setters() {
    let mut e = Engine::new();
    let t = e.add_text(0, 0, "hello", 10 * UNIT);
    let r = e.add_rect(0, 0, 50 * UNIT, 50 * UNIT);
    e.set_text_content(t, "hi");
    assert_eq!(node(&e, t).width, 12 * UNIT);
    e.set_font_size(t, 20 * UNIT);
    assert_eq!(node(&e, t).width, 24 * UNIT);
    assert_eq!(node(&e, t).height, 24 * UNIT);
    e.set_font_family(t, "Mono");
    match &node(&e, t).kind {
        NodeKind::Text { content, font_size, font_family } => {
            assert_eq!(content, "hi");
            assert_eq!(*font_size, 20 * UNIT);
            assert_eq!(font_family, "Mono");
        }
        _ => panic!("not a text"),
    }
    // not a text: nothing happens
    e.set_text_content(r, "x");
    e.set_font_size(r, 1);
    e.set_font_family(r, "x");
    assert_eq!(node(&e, r).width, 50 * UNIT);
    assert!(matches!(node(&e, r).kind, NodeKind::Rect));
    e.set_text_content(99, "x");
}

#[test]
fn attribute_setters() {
    let mut e = Engine::new();
    let r = e.add_rect(0, 0, 50 * UNIT, 50 * UNIT);
    e.set_node_position(r, 3, 4);
    e.set_fill_color(r, 1, 2, 3, 500);
    e.set_stroke(r, 4, 5, 6, UNIT, 2 * UNIT);
    e.set_corner_radius(r, 8 * UNIT);
    e.set_node_name(r, "box");
    e.set_visible(r, false);
    e.set_locked(r, true);
    let n = node(&e, r);
    assert_eq!((n.x, n.y), (3, 4));
    assert_eq!(n.fill, Some(Fill { color: Color { r: 1, g: 2, b: 3, a: 500 } }));
    assert_eq!(n.stroke, Some(Stroke { color: Color { r: 4, g: 5, b: 6, a: UNIT }, width: 2 * UNIT }));
    assert_eq!(n.corner_radius, 8 * UNIT);
    assert_eq!(n.name, "box");
    assert!(!n.visible);
    assert!(n.locked);
    e.set_visible(99, true);
}

#[test]
fn opacity_is_clamped() {
    let mut e = Engine::new();
    let r = e.add_rect(0, 0, 50 * UNIT, 50 * UNIT);
    e.set_opacity(r, 500);
    assert_eq!(node(&e, r).opacity, 500);
    e.set_opacity(r, UNIT + 1);
    assert_eq!(node(&e, r).opacity, UNIT);
    e.set_opacity(r, -1);
    assert_eq!(node(&e, r).opacity, 0);
}

#[test]
fn layout_setters_parse_words() {
    let mut e = Engine::new();
    let f = e.add_frame(0, 0, 50 * UNIT, 50 * UNIT);
    e.set_layout_mode(f, "grid");
    e.set_flex_direction(f, "col");
    e.set_align_items(f, "stretch");
    e.set_justify_content(f, "around");
    e.set_layout_gap(f, 7);
    e.set_layout_padding(f, 1, 2, 3, 4);
    e.set_grid_columns(f, 5);
    e.set_flex_wrap(f, "wrap");
    let l = e.get_layout(f).unwrap();
    assert_eq!(l.mode, LayoutMode::Grid);
    assert_eq!(l.direction, FlexDirection::Column);
    assert_eq!(l.align_items, Align::Stretch);
    assert_eq!(l.justify_content, Justify::SpaceAround);
    assert_eq!(l.gap, 7);
    assert_eq!((l.padding_top, l.padding_right, l.padding_bottom, l.padding_left), (1, 2, 3, 4));
    assert_eq!(l.grid_columns, 5);
    assert_eq!(l.wrap, FlexWrap::Wrap);
    e.set_flex_wrap(f, "other");
    assert_eq!(e.get_layout(f).unwrap().wrap, FlexWrap::NoWrap);
    assert_eq!(e.get_layout(99), None);
}

#[test]
fn words_parse_to_defaults_when_unknown() {
    assert_eq!(parse_mode("flex"), LayoutMode::Flex);
    assert_eq!(parse_mode("grid"), LayoutMode::Grid);
    assert_eq!(parse_mode("none"), LayoutMode::Off);
    assert_eq!(parse_mode("FLEX"), LayoutMode::Off);
    assert_eq!(parse_direction("column"), FlexDirection::Column);
    assert_eq!(parse_direction("col"), FlexDirection::Column);
    assert_eq!(parse_direction("row"), FlexDirection::Row);
    assert_eq!(parse_direction(""), FlexDirection::Row);
    assert_eq!(parse_align("center"), Align::Center);
    assert_eq!(parse_align("end"), Align::End);
    assert_eq!(parse_align("stretch"), Align::Stretch);
    assert_eq!(parse_align("start"), Align::Start);
    assert_eq!(parse_align("x"), Align::Start);
    assert_eq!(parse_justify("center"), Justify::Center);
    assert_eq!(parse_justify("end"), Justify::End);
    assert_eq!(parse_justify("space-between"), Justify::SpaceBetween);
    assert_eq!(parse_justify("between"), Justify::SpaceBetween);
    assert_eq!(parse_justify("space-around"), Justify::SpaceAround);
    assert_eq!(parse_justify("around"), Justify::SpaceAround);
    assert_eq!(parse_justify("space-evenly"), Justify::SpaceEvenly);
    assert_eq!(parse_justify("evenly"), Justify::SpaceEvenly);
    assert_eq!(parse_justify("start"), Justify::Start);
    assert_eq!(parse_justify("?"), Justify::Start);
}

#[test]
fn text_sizing_words() {
    let mut e = Engine::new();
    let t = e.add_text(0, 0, "a", UNIT);
    assert_eq!(e.get_text_sizing(t), "fit");
    e.set_text_sizing(t, "fixed");
    assert_eq!(node(&e, t).text_sizing, TextSizing::Fixed);
    assert_eq!(e.get_text_sizing(t), "fixed");
    e.set_text_sizing(t, "anything");
    assert_eq!(e.get_text_sizing(t), "fit");
    assert_eq!(e.get_text_sizing(99), "fit");
}

#[test]
fn engine_tree_operations() {
    let mut e = Engine::new();
    let f = e.add_frame(0, 0, 50 * UNIT, 50 * UNIT);
    let r = e.add_rect(10 * UNIT, 10 * UNIT, 5 * UNIT, 5 * UNIT);
    e.reparent_node(r, Some(f));
    assert_eq!(e.scene().get_children_of(f), vec![r]);
    e.move_node(r, UNIT, UNIT);
    assert_eq!(node(&e, r).x, 11 * UNIT);
    e.resize_node(r, 0, 9 * UNIT);
    assert_eq!(node(&e, r).width, UNIT);
    e.select(r);
    e.remove_node(f);
    assert_eq!(e.scene().node_count(), 0);
    assert_eq!(e.get_selection(), vec![r]);
    e.remove_node(r);
    assert_eq!(e.get_selection(), Vec::<u64>::new());
}

#[test]
fn duplicate_node_copies_without_children() {
    let mut e = Engine::new();
    let f = e.add_frame(0, 0, 50 * UNIT, 50 * UNIT);
    let r = e.add_rect(10 * UNIT, 10 * UNIT, 5 * UNIT, 5 * UNIT);
    let s = e.add_rect(0, 0, 5 * UNIT, 5 * UNIT);
    e.reparent_node(r, Some(f));
    e.reparent_node(s, Some(r));
    e.set_node_name(r, "orig");
    let d = e.duplicate_node(r);
    assert_eq!(d, 4);
    let n = node(&e, d);
    assert_eq!((n.x, n.y), (30 * UNIT, 30 * UNIT));
    assert_eq!(n.parent, Some(f));
    assert!(n.children.is_empty());
    assert_eq!(n.name, "orig");
    assert_eq!(e.scene().get_children_of(f), vec![r, d]);
    assert_eq!(e.duplicate_node(99), 0);
}

#[test]
fn selection_and_editing() {
    let mut e = Engine::new();
    e.select(3);
    e.add_to_selection(4);
    e.add_to_selection(4);
    assert_eq!(e.get_selection(), vec![3, 4]);
    e.deselect_all();
    assert_eq!(e.get_selection(), Vec::<u64>::new());
    e.set_editing(Some(2));
    assert_eq!(e.editing(), Some(2));
}

#[test]
fn hit_test_and_handles() {
    let mut e = Engine::new();
    let r = e.add_rect(10 * UNIT, 10 * UNIT, 20 * UNIT, 30 * UNIT);
    assert_eq!(e.hit_test(Point { x: 15 * UNIT, y: 15 * UNIT }), Some(r));
    assert_eq!(e.hit_test(Point { x: 0, y: 0 }), None);
    let hs = 8 * UNIT;
    let at = |x: i32, y: i32| Point { x: x * UNIT, y: y * UNIT };
    assert_eq!(hit_test_handles(e.scene(), r, at(10, 10), hs), Some(0));
    assert_eq!(hit_test_handles(e.scene(), r, at(30, 10), hs), Some(1));
    assert_eq!(hit_test_handles(e.scene(), r, at(10, 40), hs), Some(2));
    assert_eq!(hit_test_handles(e.scene(), r, at(30, 40), hs), Some(3));
    assert_eq!(hit_test_handles(e.scene(), r, at(13, 10), hs), Some(0));
    assert_eq!(hit_test_handles(e.scene(), r, at(14, 10), hs), None);
    assert_eq!(hit_test_handles(e.scene(), r, at(20, 20), hs), None);
    assert_eq!(hit_test_handles(e.scene(), 99, at(10, 10), hs), None);
    assert_eq!(e.hit_test_handle(at(30, 40), hs), -1);
    e.select(99);
    e.add_to_selection(r);
    assert_eq!(e.hit_test_handle(at(30, 40), hs), 3);
    assert_eq!(e.hit_test_handle(at(20, 20), hs), -1);
}

#[test]
fn frames_and_names() {
    let mut e = Engine::new();
    let f = e.add_frame(0, 0, 50 * UNIT, 50 * UNIT);
    let r = e.add_rect(0, 0, 5 * UNIT, 5 * UNIT);
    let g = e.add_frame(0, 0, 5 * UNIT, 5 * UNIT);
    e.reparent_node(g, Some(f));
    e.set_node_name(r, "Big BUTTON");
    assert_eq!(e.get_frames(), vec![f, g]);
    assert_eq!(e.find_by_name("button"), vec![r]);
    assert_eq!(e.find_by_name("FRAME"), vec![f, g]);
    assert_eq!(e.find_by_name("frame 3"), vec![g]);
    assert_eq!(e.find_by_name("zzz"), Vec::<u64>::new());
    let kids = e.get_frame_children(f);
    assert_eq!(kids.len(), 1);
    assert_eq!(kids[0].id, g);
    assert!(e.get_frame_children(99).is_empty());
}

#[test]
fn notes() {
    let mut e = Engine::new();
    let r = e.add_rect(0, 0, 5 * UNIT, 5 * UNIT);
    assert!(e.add_note(r, "first", "[\"a\",\"b\"]", 100));
    assert!(e.add_note(r, "second", "not json", 101));
    assert!(e.add_note(r, "third", "[\"a\", 3]", 102));
    assert!(!e.add_note(99, "x", "[]", 1));
    let notes = e.get_notes(r);
    assert_eq!(notes.len(), 3);
    assert_eq!(notes[0].content, "first");
    assert_eq!(notes[0].tags, vec!["a", "b"]);
    assert_eq!(notes[0].updated_at, 100);
    assert!(notes[1].tags.is_empty());
    assert!(notes[2].tags.is_empty());
    assert!(e.update_note(r, 0, "changed", 200));
    assert!(!e.update_note(r, 3, "x", 200));
    assert!(!e.update_note(99, 0, "x", 200));
    let notes = e.get_notes(r);
    assert_eq!(notes[0].content, "changed");
    assert_eq!(notes[0].tags, vec!["a", "b"]);
    assert_eq!(notes[0].updated_at, 200);
    assert!(e.remove_note(r, 1));
    assert!(!e.remove_note(r, 2));
    assert!(!e.remove_note(99, 0));
    let notes = e.get_notes(r);
    assert_eq!(notes.len(), 2);
    assert_eq!(notes[1].content, "third");
    assert!(e.get_notes(99).is_empty());
}

#[test]
fn import_scene_replaces_or_fails_cleanly() {
    let mut a = Engine::new();
    let f = a.add_frame(0, 0, 50 * UNIT, 50 * UNIT);
    let r = a.add_rect(0, 0, 5 * UNIT, 5 * UNIT);
    a.reparent_node(r, Some(f));
    let data = a.export_scene();

    let mut b = Engine::new();
    b.add_rect(0, 0, UNIT, UNIT);
    b.select(1);
    assert!(b.import_scene(data.clone()));
    assert!(b.export_scene().same(&data));
    assert_eq!(b.get_selection(), Vec::<u64>::new());

    let before = b.export_scene();
    let mut bad = data.clone();
    bad.root_children.push(77);
    assert!(!b.import_scene(bad));
    assert!(b.export_scene().same(&before));
    let broken = SceneData { nodes: vec![], root_children: vec![], next_id: 0 };
    assert!(!b.import_scene(broken));
    assert!(b.export_scene().same(&before));
}

#[test]
fn render_cycle_fits_texts_then_lays_out() {
    let mut e = Engine::new();
    let f = e.add_frame(0, 0, 300 * UNIT, 100 * UNIT);
    let t = e.add_text(0, 0, "hello", 10 * UNIT);
    let u = e.add_text(0, 0, "fixed", 10 * UNIT);
    let r = e.add_rect(0, 0, 5 * UNIT, 5 * UNIT);
    e.reparent_node(t, Some(f));
    e.reparent_node(u, Some(f));
    e.reparent_node(r, Some(f));
    e.set_text_sizing(u, "fixed");
    e.set_layout_mode(f, "flex");
    let sizes = vec![
        TextSize { id: t, width: 40 * UNIT, height: 11 * UNIT },
        TextSize { id: u, width: 99 * UNIT, height: 99 * UNIT },
        TextSize { id: r, width: 99 * UNIT, height: 99 * UNIT },
        TextSize { id: 77, width: 1, height: 1 },
    ];
    let order = e.render(&sizes);
    assert_eq!(order, vec![f, t, u, r]);
    assert_eq!(node(&e, t).width, 40 * UNIT);
    assert_eq!(node(&e, t).height, 11 * UNIT);
    assert_eq!(node(&e, u).width, 30 * UNIT);
    assert_eq!(node(&e, r).width, 5 * UNIT);
    // flex row, start: the second child follows the fitted first one
    assert_eq!(node(&e, u).x, 40 * UNIT);
    assert_eq!(node(&e, r).x, 70 * UNIT);
}
