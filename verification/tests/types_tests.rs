use engine::node::{
    Align, Fill, FlexDirection, FlexWrap, Justify, Layout, LayoutMode, Node, NodeKind,
    TextSizing,
};
use engine::text::{decimal, is_text, join, numbered, scalar_to_string, sorted_strings};
use engine::types::{clamp_scalar, floor_div, Color, Point, Rect, UNIT};

#[test]
fn clamp_scalar_brings_into_range() {
    assert_eq!(clamp_scalar(0), 0);
    assert_eq!(clamp_scalar(-7), -7);
    assert_eq!(clamp_scalar(i32::MAX as i128), i32::MAX);
    assert_eq!(clamp_scalar(i32::MAX as i128 + 1), i32::MAX);
    assert_eq!(clamp_scalar(i32::MIN as i128 - 1), i32::MIN);
    assert_eq!(clamp_scalar(i128::MAX), i32::MAX);
}

#[test]
fn floor_div_rounds_down() {
    assert_eq!(floor_div(7, 2), 3);
    assert_eq!(floor_div(-7, 2), -4);
    assert_eq!(floor_div(-8, 2), -4);
    assert_eq!(floor_div(0, 5), 0);
    assert_eq!(floor_div(-1, 10), -1);
    assert_eq!(floor_div(9, 10), 0);
}

#[test]
fn rect_contains_includes_edges() {
    let r = Rect { x: 10, y: 20, width: 30, height: 40 };
    assert!(r.contains(Point { x: 10, y: 20 }));
    assert!(r.contains(Point { x: 40, y: 60 }));
    assert!(r.contains(Point { x: 25, y: 30 }));
    assert!(!r.contains(Point { x: 41, y: 30 }));
    assert!(!r.contains(Point { x: 9, y: 30 }));
    assert!(!r.contains(Point { x: 25, y: 61 }));
    assert!(!r.contains(Point { x: 25, y: 19 }));
}

#[test]
fn rect_contains_does_not_overflow() {
    let r = Rect { x: i32::MAX, y: i32::MAX, width: i32::MAX, height: i32::MAX };
    assert!(r.contains(Point { x: i32::MAX, y: i32::MAX }));
}

#[test]
fn rect_from_two_points_in_any_order() {
    let a = Point { x: 5, y: 50 };
    let b = Point { x: 20, y: 10 };
    let r = Rect::from_two_points(a, b);
    assert_eq!(r, Rect { x: 5, y: 10, width: 15, height: 40 });
    assert_eq!(Rect::from_two_points(b, a), r);
}

#[test]
fn rect_from_two_points_clamps_extent() {
    let r = Rect::from_two_points(Point { x: i32::MIN, y: 0 }, Point { x: i32::MAX, y: 0 });
    assert_eq!(r.x, i32::MIN);
    assert_eq!(r.width, i32::MAX);
    assert_eq!(r.height, 0);
}

#[test]
fn named_colors() {
    assert_eq!(Color::white(), Color { r: 255, g: 255, b: 255, a: UNIT });
    assert_eq!(Color::black(), Color { r: 0, g: 0, b: 0, a: UNIT });
    assert_eq!(Color::transparent(), Color { r: 0, g: 0, b: 0, a: 0 });
    assert_eq!(Color::blue(), Color { r: 59, g: 130, b: 246, a: UNIT });
}

#[test]
fn defaults() {
    assert_eq!(LayoutMode::default(), LayoutMode::Off);
    assert_eq!(FlexDirection::default(), FlexDirection::Row);
    assert_eq!(Align::default(), Align::Start);
    assert_eq!(Justify::default(), Justify::Start);
    assert_eq!(FlexWrap::default(), FlexWrap::NoWrap);
    assert_eq!(TextSizing::default(), TextSizing::Fit);
    let l = Layout::default();
    assert_eq!(l.mode, LayoutMode::Off);
    assert_eq!(l.gap, 0);
    assert_eq!(l.grid_columns, 0);
    assert_eq!(l.padding_left, 0);
}

#[test]
fn new_node_has_documented_defaults() {
    let n = Node::new(7, NodeKind::Ellipse);
    assert_eq!(n.id, 7);
    assert_eq!(n.name, "Ellipse");
    assert_eq!((n.x, n.y), (0, 0));
    assert_eq!((n.width, n.height), (100 * UNIT, 100 * UNIT));
    assert_eq!(n.opacity, UNIT);
    assert!(n.visible);
    assert!(!n.locked);
    assert_eq!(n.fill, Some(Fill { color: Color { r: 200, g: 200, b: 200, a: UNIT } }));
    assert_eq!(n.stroke, None);
    assert_eq!(n.parent, None);
    assert!(n.children.is_empty());
    assert!(n.notes.is_empty());
    let b = n.bounds();
    assert_eq!(b, Rect { x: 0, y: 0, width: 100 * UNIT, height: 100 * UNIT });
}

#[test]
fn kind_labels() {
    assert_eq!(NodeKind::Rect.label(), "Rect");
    assert_eq!(NodeKind::Frame.label(), "Frame");
    assert_eq!(NodeKind::Group.label(), "Group");
    assert_eq!(NodeKind::Slot { slot_name: "s".to_string() }.label(), "Slot");
    let t = NodeKind::Text {
        content: "c".to_string(),
        font_size: 12 * UNIT,
        font_family: "Inter".to_string(),
    };
    assert_eq!(t.label(), "Text");
}

#[test]
fn decimal_digits() {
    assert_eq!(decimal(0), "0");
    assert_eq!(decimal(7), "7");
    assert_eq!(decimal(10), "10");
    assert_eq!(decimal(1234567890), "1234567890");
    assert_eq!(decimal(u64::MAX), "18446744073709551615");
    assert_eq!(numbered("Rect", 12), "Rect 12");
}

#[test]
fn text_helpers() {
    assert!(is_text("flex", "flex"));
    assert!(!is_text("flex", "Flex"));
    assert!(!is_text("fle", "flex"));
    assert_eq!(join(&vec!["a".to_string(), "b".to_string(), "c".to_string()], ","), "a,b,c");
    assert_eq!(join(&vec!["a".to_string()], ","), "a");
    assert_eq!(join(&vec![], ","), "");
}

#[test]
fn sorted_strings_orders_by_code_point() {
    let v = vec!["b".to_string(), "a".to_string(), "B".to_string(), "ab".to_string(), "".to_string()];
    assert_eq!(sorted_strings(v), vec!["", "B", "a", "ab", "b"]);
}

#[test]
fn scalars_as_decimal_numbers() {
    assert_eq!(scalar_to_string(0), "0");
    assert_eq!(scalar_to_string(UNIT), "1");
    assert_eq!(scalar_to_string(500), "0.5");
    assert_eq!(scalar_to_string(250), "0.25");
    assert_eq!(scalar_to_string(1), "0.001");
    assert_eq!(scalar_to_string(10), "0.01");
    assert_eq!(scalar_to_string(105), "0.105");
    assert_eq!(scalar_to_string(12_340), "12.34");
    assert_eq!(scalar_to_string(-1_500), "-1.5");
    assert_eq!(scalar_to_string(-7), "-0.007");
    assert_eq!(scalar_to_string(i32::MAX), "2147483.647");
    assert_eq!(scalar_to_string(i32::MIN), "-2147483.648");
}

#[test]
fn color_to_css() {
    assert_eq!(Color::white().to_css(), "rgba(255,255,255,1)");
    assert_eq!(Color::transparent().to_css(), "rgba(0,0,0,0)");
    assert_eq!(Color { r: 1, g: 20, b: 3, a: 500 }.to_css(), "rgba(1,20,3,0.5)");
    assert_eq!(Color::blue().to_css(), "rgba(59,130,246,1)");
}
