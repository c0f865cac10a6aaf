use engine::engine::Engine;
use engine::types::UNIT;

fn x_of(e: &Engine, id: u64) -> i32 {
    e.scene().get_node(id).unwrap().x
}

fn y_of(e: &Engine, id: u64) -> i32 {
    e.scene().get_node(id).unwrap().y
}

fn width_of(e: &Engine, id: u64) -> i32 {
    e.scene().get_node(id).unwrap().width
}

fn height_of(e: &Engine, id: u64) -> i32 {
    e.scene().get_node(id).unwrap().height
}

fn frame_with_children(e: &mut Engine, w: i32, h: i32, sizes: &[(i32, i32)]) -> (u64, Vec<u64>) {
    let frame = e.add_frame(0, 0, w * UNIT, h * UNIT);
    let mut kids = vec![];
    for &(cw, ch) in sizes {
        let id = e.add_rect(7 * UNIT, 9 * UNIT, cw * UNIT, ch * UNIT);
        e.reparent_node(id, Some(frame));
        kids.push(id);
    }
    (frame, kids)
}

#[test]
fn flex_row_space_between_spreads_children() {
    let mut e = Engine::new();
    let (frame, kids) = frame_with_children(&mut e, 300, 100, &[(50, 10), (50, 10), (50, 10)]);
    e.set_layout_mode(frame, "flex");
    e.set_justify_content(frame, "space-between");
    e.set_layout_gap(frame, 999 * UNIT);
    e.layout();
    assert_eq!(x_of(&e, kids[0]), 0);
    assert_eq!(x_of(&e, kids[1]), 125 * UNIT);
    assert_eq!(x_of(&e, kids[2]), 250 * UNIT);
    assert_eq!(y_of(&e, kids[0]), 0);
}

#[test]
fn grid_two_columns_places_rows_by_highest_child() {
    let mut e = Engine::new();
    let (frame, kids) = frame_with_children(&mut e, 220, 500, &[(1, 20), (1, 30), (1, 15)]);
    e.set_layout_mode(frame, "grid");
    e.set_grid_columns(frame, 2);
    e.set_layout_gap(frame, 10 * UNIT);
    e.layout();
    assert_eq!(width_of(&e, kids[0]), 105 * UNIT);
    assert_eq!((x_of(&e, kids[0]), y_of(&e, kids[0])), (0, 0));
    assert_eq!((x_of(&e, kids[1]), y_of(&e, kids[1])), (115 * UNIT, 0));
    assert_eq!((x_of(&e, kids[2]), y_of(&e, kids[2])), (0, 40 * UNIT));
    assert_eq!(height_of(&e, kids[1]), 30 * UNIT);
}

fn xs(e: &Engine, kids: &[u64]) -> Vec<i32> {
    kids.iter().map(|&k| x_of(e, k)).collect()
}

fn ys(e: &Engine, kids: &[u64]) -> Vec<i32> {
    kids.iter().map(|&k| y_of(e, k)).collect()
}

fn u(v: &[i32]) -> Vec<i32> {
    v.iter().map(|&x| x * UNIT).collect()
}

#[test]
fn flex_start_uses_configured_gap() {
    let mut e = Engine::new();
    let (frame, kids) = frame_with_children(&mut e, 300, 100, &[(50, 10), (30, 10), (20, 10)]);
    e.set_layout_mode(frame, "flex");
    e.set_layout_gap(frame, 10 * UNIT);
    e.layout();
    assert_eq!(xs(&e, &kids), u(&[0, 60, 100]));
    assert_eq!(ys(&e, &kids), u(&[0, 0, 0]));
}

#[test]
fn flex_center_and_end() {
    let mut e = Engine::new();
    let (frame, kids) = frame_with_children(&mut e, 300, 100, &[(50, 10), (30, 10)]);
    e.set_layout_mode(frame, "flex");
    e.set_layout_gap(frame, 20 * UNIT);
    e.set_justify_content(frame, "center");
    e.layout();
    // total = 50 + 30 + 20 = 100; offset = (300 - 100) / 2 = 100
    assert_eq!(xs(&e, &kids), u(&[100, 170]));
    e.set_justify_content(frame, "end");
    e.layout();
    assert_eq!(xs(&e, &kids), u(&[200, 270]));
}

#[test]
fn flex_space_around_and_evenly() {
    let mut e = Engine::new();
    let (frame, kids) = frame_with_children(&mut e, 300, 100, &[(50, 10), (50, 10), (50, 10)]);
    e.set_layout_mode(frame, "flex");
    e.set_justify_content(frame, "space-around");
    e.layout();
    // gap = 150 / 3 = 50, offset = 25
    assert_eq!(xs(&e, &kids), u(&[25, 125, 225]));
    e.set_justify_content(frame, "evenly");
    e.layout();
    // gap = 150 / 4 = 37.5, offset = 37.5
    assert_eq!(xs(&e, &kids), vec![37_500, 125_000, 212_500]);
}

#[test]
fn flex_space_between_with_one_child_uses_configured_gap() {
    let mut e = Engine::new();
    let (frame, kids) = frame_with_children(&mut e, 300, 100, &[(50, 10)]);
    e.set_layout_mode(frame, "flex");
    e.set_justify_content(frame, "between");
    e.layout();
    assert_eq!(xs(&e, &kids), u(&[0]));
}

#[test]
fn flex_division_rounds_down() {
    let mut e = Engine::new();
    let frame = e.add_frame(0, 0, 10, 10);
    let a = e.add_rect(0, 0, 3, 3);
    let b = e.add_rect(0, 0, 4, 3);
    e.reparent_node(a, Some(frame));
    e.reparent_node(b, Some(frame));
    e.set_layout_mode(frame, "flex");
    e.set_justify_content(frame, "center");
    e.layout();
    // (10 - 7) / 2 rounds down to 1
    assert_eq!(x_of(&e, a), 1);
    assert_eq!(x_of(&e, b), 4);
    // a container narrower than its children: (4 - 7) / 2 rounds down to -2
    e.resize_node(frame, 4, 2000);
    let frame_w = width_of(&e, frame);
    assert_eq!(frame_w, UNIT);
    e.set_node_position(frame, 0, 0);
    e.layout();
    assert_eq!(x_of(&e, a), (UNIT - 7) / 2);
}

#[test]
fn flex_cross_axis_alignment() {
    let mut e = Engine::new();
    let (frame, kids) = frame_with_children(&mut e, 300, 100, &[(50, 10), (50, 40)]);
    e.set_layout_mode(frame, "flex");
    e.set_align_items(frame, "center");
    e.layout();
    assert_eq!(ys(&e, &kids), u(&[45, 30]));
    e.set_align_items(frame, "end");
    e.layout();
    assert_eq!(ys(&e, &kids), u(&[90, 60]));
    e.set_align_items(frame, "stretch");
    e.layout();
    assert_eq!(ys(&e, &kids), u(&[0, 0]));
    assert_eq!(height_of(&e, kids[0]), 100 * UNIT);
    assert_eq!(height_of(&e, kids[1]), 100 * UNIT);
    assert_eq!(width_of(&e, kids[0]), 50 * UNIT);
}

#[test]
fn flex_column_swaps_axes() {
    let mut e = Engine::new();
    let (frame, kids) = frame_with_children(&mut e, 100, 300, &[(10, 50), (10, 30)]);
    e.set_layout_mode(frame, "flex");
    e.set_flex_direction(frame, "column");
    e.set_layout_gap(frame, 5 * UNIT);
    e.set_align_items(frame, "stretch");
    e.layout();
    assert_eq!(ys(&e, &kids), u(&[0, 55]));
    assert_eq!(xs(&e, &kids), u(&[0, 0]));
    assert_eq!(width_of(&e, kids[0]), 100 * UNIT);
    assert_eq!(height_of(&e, kids[0]), 50 * UNIT);
}

#[test]
fn flex_padding_and_container_position() {
    let mut e = Engine::new();
    let (frame, kids) = frame_with_children(&mut e, 300, 100, &[(50, 10), (50, 10)]);
    e.set_node_position(frame, 1000 * UNIT, 2000 * UNIT);
    e.set_layout_mode(frame, "flex");
    e.set_layout_padding(frame, 1 * UNIT, 20 * UNIT, 3 * UNIT, 40 * UNIT);
    e.set_justify_content(frame, "end");
    e.set_align_items(frame, "end");
    e.layout();
    // content box: x 1040, y 2001, w 240, h 96
    assert_eq!(xs(&e, &kids), u(&[1040 + 140, 1040 + 190]));
    assert_eq!(ys(&e, &kids), u(&[2001 + 86, 2001 + 86]));
}

#[test]
fn invisible_children_are_left_out_of_flow() {
    let mut e = Engine::new();
    let (frame, kids) = frame_with_children(&mut e, 300, 100, &[(50, 10), (50, 10), (50, 10)]);
    e.set_visible(kids[1], false);
    e.set_layout_mode(frame, "flex");
    e.set_justify_content(frame, "space-between");
    e.layout();
    assert_eq!(x_of(&e, kids[0]), 0);
    assert_eq!(x_of(&e, kids[2]), 250 * UNIT);
    // the invisible child stays where it was
    assert_eq!(x_of(&e, kids[1]), 7 * UNIT);
    assert_eq!(y_of(&e, kids[1]), 9 * UNIT);
}

#[test]
fn grid_indexes_visible_children_only() {
    let mut e = Engine::new();
    let (frame, kids) = frame_with_children(&mut e, 220, 500, &[(1, 20), (1, 99), (1, 30), (1, 15)]);
    e.set_visible(kids[1], false);
    e.set_layout_mode(frame, "grid");
    e.set_grid_columns(frame, 2);
    e.set_layout_gap(frame, 10 * UNIT);
    e.layout();
    assert_eq!((x_of(&e, kids[0]), y_of(&e, kids[0])), (0, 0));
    assert_eq!((x_of(&e, kids[2]), y_of(&e, kids[2])), (115 * UNIT, 0));
    assert_eq!((x_of(&e, kids[3]), y_of(&e, kids[3])), (0, 40 * UNIT));
    assert_eq!(width_of(&e, kids[1]), 1 * UNIT);
}

#[test]
fn grid_with_zero_columns_has_one() {
    let mut e = Engine::new();
    let (frame, kids) = frame_with_children(&mut e, 200, 500, &[(1, 20), (1, 30)]);
    e.set_layout_mode(frame, "grid");
    e.set_layout_gap(frame, 4 * UNIT);
    e.layout();
    assert_eq!(width_of(&e, kids[0]), 200 * UNIT);
    assert_eq!((x_of(&e, kids[1]), y_of(&e, kids[1])), (0, 24 * UNIT));
}

#[test]
fn grid_three_rows() {
    let mut e = Engine::new();
    let (frame, kids) = frame_with_children(
        &mut e,
        310,
        500,
        &[(1, 10), (1, 20), (1, 5), (1, 7), (1, 40), (1, 1), (1, 9)],
    );
    e.set_node_position(frame, 10 * UNIT, 20 * UNIT);
    e.set_layout_mode(frame, "grid");
    e.set_grid_columns(frame, 3);
    e.set_layout_gap(frame, 5 * UNIT);
    e.layout();
    // column width = (310 - 10) / 3 = 100
    assert_eq!(xs(&e, &kids), u(&[10, 115, 220, 10, 115, 220, 10]));
    assert_eq!(ys(&e, &kids), u(&[20, 20, 20, 45, 45, 45, 90]));
}

#[test]
fn nested_container_sees_size_set_by_its_parent() {
    let mut e = Engine::new();
    let outer = e.add_frame(0, 0, 400 * UNIT, 200 * UNIT);
    let inner = e.add_frame(0, 0, 100 * UNIT, 50 * UNIT);
    let leaf = e.add_rect(0, 0, 10 * UNIT, 10 * UNIT);
    e.reparent_node(inner, Some(outer));
    e.reparent_node(leaf, Some(inner));
    e.set_layout_mode(outer, "flex");
    e.set_align_items(outer, "stretch");
    e.set_layout_mode(inner, "flex");
    e.set_align_items(inner, "end");
    e.layout();
    assert_eq!(height_of(&e, inner), 200 * UNIT);
    assert_eq!(y_of(&e, leaf), 190 * UNIT);
}

#[test]
fn layout_leaves_plain_containers_alone() {
    let mut e = Engine::new();
    let (_frame, kids) = frame_with_children(&mut e, 300, 100, &[(50, 10), (50, 10)]);
    e.layout();
    assert_eq!(xs(&e, &kids), u(&[7, 7]));
    assert_eq!(ys(&e, &kids), u(&[9, 9]));
}

#[test]
fn layout_clamps_positions() {
    let mut e = Engine::new();
    let frame = e.add_frame(i32::MAX, 0, 100, 100);
    let a = e.add_rect(0, 0, i32::MAX, 10);
    let b = e.add_rect(0, 0, 10, 10);
    e.reparent_node(a, Some(frame));
    e.reparent_node(b, Some(frame));
    e.set_layout_mode(frame, "flex");
    e.layout();
    assert_eq!(x_of(&e, a), i32::MAX);
    assert_eq!(x_of(&e, b), i32::MAX);
}

#[test]
fn layout_keeps_tree_and_render_order() {
    let mut e = Engine::new();
    let (frame, kids) = frame_with_children(&mut e, 300, 100, &[(50, 10), (50, 10), (50, 10)]);
    let inner = e.add_frame(0, 0, 10 * UNIT, 10 * UNIT);
    e.reparent_node(inner, Some(kids[1]));
    e.set_layout_mode(frame, "grid");
    e.set_layout_mode(kids[1], "flex");
    let order = e.scene().render_order();
    let roots = e.get_root_children();
    e.layout();
    assert_eq!(e.scene().render_order(), order);
    assert_eq!(e.get_root_children(), roots);
    assert_eq!(e.scene().get_children_of(frame), kids);
    assert_eq!(e.scene().get_node(inner).unwrap().parent, Some(kids[1]));
}
