use engine::component::{KeyEntry, NodeOverrides, VariantKey, VariantPropType, VariantValue};
use engine::deep::Same;
use engine::engine::Engine;
use engine::json::{prop_from_parts, read_prop, read_prop_parts, read_string_list, PropParts};
use engine::node::{LayoutMode, Node, NodeKind};
use engine::types::UNIT;

fn node(e: &Engine, id: u64) -> &Node {
    e.scene().get_node(id).unwrap()
}

fn entry(name: &str, value: VariantValue) -> KeyEntry {
    KeyEntry { name: name.to_string(), value }
}

fn key_on(on: bool) -> VariantKey {
    vec![entry("on", VariantValue::Boolean(on))]
}

/// A frame at (100, 200) with a rect child, an inner frame child, and a text
/// below the inner frame. Returns the engine and the ids.
fn engine_with_template() -> (Engine, u64, u64, u64, u64) {
    let mut e = Engine::new();
    let frame = e.add_frame(100 * UNIT, 200 * UNIT, 120 * UNIT, 80 * UNIT);
    let rect = e.add_rect(110 * UNIT, 210 * UNIT, 20 * UNIT, 20 * UNIT);
    let inner = e.add_frame(140 * UNIT, 210 * UNIT, 60 * UNIT, 40 * UNIT);
    let text = e.add_text(145 * UNIT, 215 * UNIT, "label", 10 * UNIT);
    e.reparent_node(rect, Some(frame));
    e.reparent_node(inner, Some(frame));
    e.reparent_node(text, Some(inner));
    e.set_corner_radius(frame, 4 * UNIT);
    (e, frame, rect, inner, text)
}

#[test]
fn create_component_snapshots_the_frame() {
    let (mut e, frame, rect, _inner, _text) = engine_with_template();
    let c = e.create_component(frame, "Card");
    assert_eq!(c, 1);
    let comp = e.components().get(c).unwrap();
    assert_eq!(comp.name, "Card");
    assert_eq!(comp.default_variant_key, "");
    assert_eq!(comp.variants.len(), 1);
    assert_eq!(comp.variants[0].key, "");
    let data = &comp.variants[0].data;
    assert_eq!(data.root_node_id, frame);
    let ids: Vec<u64> = data.nodes.iter().map(|n| n.id).collect();
    assert_eq!(ids, vec![1, 2, 3, 4]);
    assert_eq!(node(&e, frame).name, "[C] Frame 1");
    // later edits of the source do not reach the component
    e.move_node(rect, 50 * UNIT, 0);
    let comp = e.components().get(c).unwrap();
    assert_eq!(comp.variants[0].data.nodes[1].x, 110 * UNIT);
}

#[test]
fn create_component_strips_earlier_marks() {
    let (mut e, frame, _rect, _inner, _text) = engine_with_template();
    e.set_node_name(frame, "[C] [C] Card");
    e.create_component(frame, "A");
    assert_eq!(node(&e, frame).name, "[C] Card");
    e.set_node_name(frame, "\u{2B21} \u{2B21} [C] Card");
    e.create_component(frame, "B");
    assert_eq!(node(&e, frame).name, "[C] Card");
    e.set_node_name(frame, "[C]Card");
    e.create_component(frame, "C");
    assert_eq!(node(&e, frame).name, "[C] [C]Card");
}

#[test]
fn create_component_of_missing_frame_has_empty_template() {
    let mut e = Engine::new();
    let c = e.create_component(42, "Ghost");
    assert_eq!(c, 1);
    let comp = e.components().get(c).unwrap();
    assert_eq!(comp.variants.len(), 1);
    assert!(comp.variants[0].data.nodes.is_empty());
}

#[test]
fn create_instance_clones_template_with_fresh_ids() {
    let (mut e, frame, _rect, _inner, _text) = engine_with_template();
    let c = e.create_component(frame, "Card");
    let i = e.create_instance(c, 500 * UNIT, 600 * UNIT);
    assert_eq!(i, 5);
    let root = node(&e, i);
    assert_eq!(root.name, "[I] Card");
    assert_eq!((root.x, root.y), (500 * UNIT, 600 * UNIT));
    assert_eq!((root.width, root.height), (120 * UNIT, 80 * UNIT));
    assert_eq!(root.corner_radius, 4 * UNIT);
    assert_eq!(root.parent, None);
    match &root.kind {
        NodeKind::Instance(d) => {
            assert_eq!(d.component_id, c);
            assert!(d.variant_values.is_empty());
            assert!(d.slot_fills.is_empty());
            assert!(d.overrides.is_empty());
        }
        _ => panic!("not an instance"),
    }
    assert_eq!(e.scene().subtree_ids(i), vec![5, 6, 7, 8]);
    assert_eq!(e.scene().get_children_of(5), vec![6, 7]);
    assert_eq!(e.scene().get_children_of(7), vec![8]);
    // offset = instance position - template root position = (400, 400)
    assert_eq!((node(&e, 6).x, node(&e, 6).y), (510 * UNIT, 610 * UNIT));
    assert_eq!((node(&e, 7).x, node(&e, 7).y), (540 * UNIT, 610 * UNIT));
    assert_eq!((node(&e, 8).x, node(&e, 8).y), (545 * UNIT, 615 * UNIT));
    assert_eq!(node(&e, 8).parent, Some(7));
    assert!(matches!(node(&e, 8).kind, NodeKind::Text { .. }));
    assert_eq!(e.get_root_children(), vec![1, 5]);
}

#[test]
fn create_instance_skips_offset_under_layout_parent() {
    let (mut e, frame, _rect, inner, _text) = engine_with_template();
    e.set_layout_mode(inner, "flex");
    let c = e.create_component(frame, "Card");
    let i = e.create_instance(c, 500 * UNIT, 600 * UNIT);
    assert_eq!(node(&e, i + 2).layout.mode, LayoutMode::Flex);
    // the text sits under the flex container: it keeps its template position
    assert_eq!((node(&e, i + 3).x, node(&e, i + 3).y), (145 * UNIT, 215 * UNIT));
    // the others are offset
    assert_eq!(node(&e, i + 1).x, 510 * UNIT);
}

#[test]
fn create_instance_of_missing_component_fails() {
    let (mut e, _frame, _rect, _inner, _text) = engine_with_template();
    let before = e.export_scene();
    assert_eq!(e.create_instance(9, 0, 0), 0);
    assert!(e.export_scene().same(&before));
}

#[test]
fn create_instance_without_variants_fails_and_keeps_scene() {
    let mut e = Engine::new();
    e.add_rect(0, 0, UNIT, UNIT);
    // a component with no variant at all can only come from outside
    let mut store = engine::component::ComponentStore::new();
    let id = store.create("Empty".to_string());
    let before = e.export_scene();
    let mut scene = engine::scene::Scene::import(before.clone()).unwrap();
    assert_eq!(engine::instance::create_instance(&mut scene, &store, id, 10, 10), 0);
    assert!(scene.export().same(&before));
    assert_eq!(scene.node_count(), 1);
}

#[test]
fn create_instance_uses_default_then_first_variant() {
    let (mut e, frame, _rect, inner, _text) = engine_with_template();
    let c = e.create_component(frame, "Card");
    assert!(e.add_variant_prop(c, "on", "{\"type\":\"boolean\",\"default\":true}"));
    // no variant under on=true: falls back to the default variant ""
    let i = e.create_instance(c, 0, 0);
    assert_eq!(e.scene().subtree_ids(i).len(), 4);
    // now register on=true with the inner frame as template
    assert!(e.add_variant(c, key_on(true), inner));
    let j = e.create_instance(c, 0, 0);
    assert_eq!(e.scene().subtree_ids(j).len(), 2);
    match &node(&e, j).kind {
        NodeKind::Instance(d) => {
            assert_eq!(d.variant_values.len(), 1);
            assert_eq!(d.variant_values[0].name, "on");
        }
        _ => panic!("not an instance"),
    }
}

#[test]
fn set_instance_variant_rebuilds_children() {
    let (mut e, frame, _rect, inner, _text) = engine_with_template();
    let c = e.create_component(frame, "Card");
    assert!(e.add_variant(c, key_on(true), inner));
    let i = e.create_instance(c, 500 * UNIT, 600 * UNIT);
    let old_children = e.scene().get_children_of(i);
    e.select(old_children[0]);
    assert!(e.set_instance_variant(i, key_on(true)));
    for id in &old_children {
        assert!(e.scene().get_node(*id).is_none());
    }
    assert_eq!(e.get_selection(), Vec::<u64>::new());
    let kids = e.scene().get_children_of(i);
    assert_eq!(kids.len(), 1);
    assert!(matches!(node(&e, kids[0]).kind, NodeKind::Text { .. }));
    let root = node(&e, i);
    assert_eq!((root.width, root.height), (60 * UNIT, 40 * UNIT));
    assert_eq!((root.x, root.y), (500 * UNIT, 600 * UNIT));
    // offset = (500 - 140, 600 - 210)
    assert_eq!((node(&e, kids[0]).x, node(&e, kids[0]).y), (505 * UNIT, 605 * UNIT));
    match &root.kind {
        NodeKind::Instance(d) => assert_eq!(d.variant_values[0].name, "on"),
        _ => panic!("not an instance"),
    }
}

#[test]
fn set_instance_variant_with_unregistered_key_fails_and_keeps_children() {
    let (mut e, frame, _rect, inner, _text) = engine_with_template();
    let c = e.create_component(frame, "Card");
    assert!(e.add_variant(c, key_on(true), inner));
    let i = e.create_instance(c, 500 * UNIT, 600 * UNIT);
    let before = e.export_scene();
    assert!(!e.set_instance_variant(i, key_on(false)));
    assert!(e.export_scene().same(&before));
    assert_eq!(e.scene().get_children_of(i).len(), 2);
    // not an instance, or no such node
    assert!(!e.set_instance_variant(frame, key_on(true)));
    assert!(!e.set_instance_variant(999, key_on(true)));
    assert!(e.export_scene().same(&before));
}

#[test]
fn set_instance_variant_keeps_recorded_overrides() {
    let (mut e, frame, _rect, inner, _text) = engine_with_template();
    let c = e.create_component(frame, "Card");
    assert!(e.add_variant(c, key_on(true), inner));
    let i = e.create_instance(c, 0, 0);
    let kid = e.scene().get_children_of(i)[0];
    let ov = NodeOverrides { text: None, fill_hex: None, visible: Some(false) };
    assert!(e.set_instance_override(i, kid, ov));
    assert!(e.set_instance_variant(i, key_on(true)));
    match &node(&e, i).kind {
        NodeKind::Instance(d) => {
            assert_eq!(d.overrides.len(), 1);
            assert_eq!(d.overrides[0].node, kid);
        }
        _ => panic!("not an instance"),
    }
    // the rebuilt children are visible: overrides are not reapplied
    for k in e.scene().get_children_of(i) {
        assert!(node(&e, k).visible);
    }
}

#[test]
fn add_slot_marks_placeholder() {
    let (mut e, frame, rect, _inner, _text) = engine_with_template();
    let c = e.create_component(frame, "Card");
    assert!(e.add_slot(c, "body", rect));
    assert!(!e.add_slot(99, "body", rect));
    let comp = e.components().get(c).unwrap();
    assert_eq!(comp.slots.len(), 1);
    assert_eq!(comp.slots[0].name, "body");
    assert_eq!(comp.slots[0].placeholder_node_id, rect);
    assert!(comp.slots[0].default_children.is_empty());
    assert_eq!(node(&e, rect).name, "[S] body");
    match &node(&e, rect).kind {
        NodeKind::Slot { slot_name } => assert_eq!(slot_name, "body"),
        _ => panic!("not a slot"),
    }
    // a placeholder that is not in the scene is declared all the same
    assert!(e.add_slot(c, "ghost", 999));
    assert_eq!(e.components().get(c).unwrap().slots.len(), 2);
}

/// An instance whose template has a slot "body" nested one level down.
fn engine_with_slot() -> (Engine, u64, u64) {
    let (mut e, frame, _rect, _inner, text) = engine_with_template();
    let c0 = e.create_component(frame, "Tmp");
    assert!(e.add_slot(c0, "body", text));
    let c = e.create_component(frame, "Card");
    let i = e.create_instance(c, 0, 0);
    (e, c, i)
}

#[test]
fn fill_slot_reparents_and_accumulates() {
    let (mut e, _c, i) = engine_with_slot();
    let a = e.add_rect(0, 0, UNIT, UNIT);
    let b = e.add_rect(0, 0, UNIT, UNIT);
    let ids = e.scene().subtree_ids(i);
    let slot = ids[3];
    assert!(matches!(node(&e, slot).kind, NodeKind::Slot { .. }));
    assert!(e.fill_slot(i, "body", a));
    assert!(e.fill_slot(i, "body", b));
    assert_eq!(e.scene().get_children_of(slot), vec![a, b]);
    assert_eq!(node(&e, a).parent, Some(slot));
    match &node(&e, i).kind {
        NodeKind::Instance(d) => {
            assert_eq!(d.slot_fills.len(), 1);
            assert_eq!(d.slot_fills[0].name, "body");
            assert_eq!(d.slot_fills[0].nodes, vec![a, b]);
        }
        _ => panic!("not an instance"),
    }
}

#[test]
fn fill_slot_fails_cleanly() {
    let (mut e, _c, i) = engine_with_slot();
    let a = e.add_rect(0, 0, UNIT, UNIT);
    let before = e.export_scene();
    assert!(!e.fill_slot(i, "nope", a));
    assert!(!e.fill_slot(i, "body", 999));
    assert!(!e.fill_slot(999, "body", a));
    assert!(!e.fill_slot(a, "body", a));
    // the instance cannot fill its own slot: it would hold itself
    assert!(!e.fill_slot(i, "body", i));
    assert!(e.export_scene().same(&before));
}

#[test]
fn set_instance_override_applies_and_records() {
    let (mut e, frame, _rect, _inner, _text) = engine_with_template();
    let c = e.create_component(frame, "Card");
    let i = e.create_instance(c, 0, 0);
    let ids = e.scene().subtree_ids(i);
    let (rect, text) = (ids[1], ids[3]);
    let ov = NodeOverrides {
        text: Some("new".to_string()),
        fill_hex: Some("#ff0000".to_string()),
        visible: Some(false),
    };
    let fill_before = node(&e, text).fill;
    assert!(e.set_instance_override(i, text, ov));
    match &node(&e, text).kind {
        NodeKind::Text { content, .. } => assert_eq!(content, "new"),
        _ => panic!("not a text"),
    }
    assert!(!node(&e, text).visible);
    assert_eq!(node(&e, text).fill, fill_before);
    let ov2 = NodeOverrides { text: Some("ignored".to_string()), fill_hex: None, visible: None };
    assert!(e.set_instance_override(i, rect, ov2));
    assert!(matches!(node(&e, rect).kind, NodeKind::Rect));
    assert!(node(&e, rect).visible);
    let ov3 = NodeOverrides { text: Some("newer".to_string()), fill_hex: None, visible: None };
    assert!(e.set_instance_override(i, text, ov3));
    match &node(&e, i).kind {
        NodeKind::Instance(d) => {
            assert_eq!(d.overrides.len(), 2);
            assert_eq!(d.overrides[0].node, text);
            assert_eq!(d.overrides[0].overrides.text, Some("newer".to_string()));
            assert_eq!(d.overrides[0].overrides.fill_hex, None);
            assert_eq!(d.overrides[1].node, rect);
        }
        _ => panic!("not an instance"),
    }
}

#[test]
fn set_instance_override_fails_cleanly() {
    let (mut e, frame, rect, _inner, _text) = engine_with_template();
    let c = e.create_component(frame, "Card");
    let i = e.create_instance(c, 0, 0);
    let before = e.export_scene();
    let ov = || NodeOverrides { text: None, fill_hex: None, visible: Some(false) };
    assert!(!e.set_instance_override(frame, rect, ov()));
    assert!(!e.set_instance_override(i, 999, ov()));
    assert!(!e.set_instance_override(999, rect, ov()));
    assert!(e.export_scene().same(&before));
    let d = NodeOverrides::default();
    assert_eq!((d.text, d.fill_hex, d.visible), (None, None, None));
}

#[test]
fn instance_component_info() {
    let (mut e, frame, rect, _inner, _text) = engine_with_template();
    let c = e.create_component(frame, "Card");
    let i = e.create_instance(c, 0, 0);
    let info = e.get_instance_component_info(i).unwrap();
    assert_eq!(info.component_id, c);
    assert_eq!(info.component_name, "Card");
    assert_eq!(info.source_node_id, frame);
    assert!(e.get_instance_component_info(rect).is_none());
    assert!(e.get_instance_component_info(999).is_none());
}

#[test]
fn add_variant_prop_reads_json() {
    let (mut e, frame, _rect, _inner, _text) = engine_with_template();
    let c = e.create_component(frame, "Card");
    assert!(e.add_variant_prop(c, "on", "{\"type\":\"boolean\",\"default\":true}"));
    assert!(e.add_variant_prop(c, "off", "{\"type\":\"boolean\"}"));
    assert!(e.add_variant_prop(
        c,
        "size",
        "{\"type\":\"string\",\"options\":[\"s\",1,\"l\"],\"default\":\"l\"}"
    ));
    assert!(e.add_variant_prop(c, "tone", "{\"type\":\"string\",\"options\":[\"warm\",\"cold\"]}"));
    assert!(e.add_variant_prop(c, "bare", "{\"type\":\"string\"}"));
    assert!(!e.add_variant_prop(c, "bad", "{\"type\":\"number\"}"));
    assert!(!e.add_variant_prop(c, "bad", "{\"default\":true}"));
    assert!(!e.add_variant_prop(c, "bad", "{not json"));
    assert!(!e.add_variant_prop(c, "bad", "[1,2]"));
    assert!(!e.add_variant_prop(99, "on", "{\"type\":\"boolean\"}"));
    let comp = e.components().get(c).unwrap();
    assert_eq!(comp.properties.len(), 5);
    let p = &comp.properties;
    assert_eq!(p[0].name, "on");
    assert!(matches!(p[0].prop_type, VariantPropType::Boolean));
    assert!(matches!(p[0].default_value, VariantValue::Boolean(true)));
    assert!(matches!(p[1].default_value, VariantValue::Boolean(false)));
    match (&p[2].prop_type, &p[2].default_value) {
        (VariantPropType::String { options }, VariantValue::String(d)) => {
            assert_eq!(options, &vec!["s".to_string(), "l".to_string()]);
            assert_eq!(d, "l");
        }
        _ => panic!("not a string property"),
    }
    match (&p[3].prop_type, &p[3].default_value) {
        (VariantPropType::String { options }, VariantValue::String(d)) => {
            assert_eq!(options.len(), 2);
            assert_eq!(d, "warm");
        }
        _ => panic!("not a string property"),
    }
    match (&p[4].prop_type, &p[4].default_value) {
        (VariantPropType::String { options }, VariantValue::String(d)) => {
            assert!(options.is_empty());
            assert_eq!(d, "");
        }
        _ => panic!("not a string property"),
    }
}

#[test]
fn prop_from_parts_on_plain_values() {
    let parts = |t: Option<&str>, f: Option<bool>, d: Option<&str>, o: Option<Vec<&str>>| PropParts {
        kind_name: t.map(|s| s.to_string()),
        default_flag: f,
        default_text: d.map(|s| s.to_string()),
        options: o.map(|v| v.iter().map(|s| s.to_string()).collect()),
    };
    assert!(prop_from_parts(parts(None, Some(true), None, None)).is_none());
    assert!(prop_from_parts(parts(Some("bool"), None, None, None)).is_none());
    match prop_from_parts(parts(Some("boolean"), Some(true), Some("x"), None)) {
        Some((VariantPropType::Boolean, VariantValue::Boolean(true))) => {}
        _ => panic!("wrong property"),
    }
    match prop_from_parts(parts(Some("boolean"), None, None, None)) {
        Some((VariantPropType::Boolean, VariantValue::Boolean(false))) => {}
        _ => panic!("wrong property"),
    }
    match prop_from_parts(parts(Some("string"), Some(true), None, Some(vec!["a", "b"]))) {
        Some((VariantPropType::String { options }, VariantValue::String(d))) => {
            assert_eq!(options, vec!["a", "b"]);
            assert_eq!(d, "a");
        }
        _ => panic!("wrong property"),
    }
    match prop_from_parts(parts(Some("string"), None, Some("z"), Some(vec!["a"]))) {
        Some((VariantPropType::String { options }, VariantValue::String(d))) => {
            assert_eq!(options, vec!["a"]);
            assert_eq!(d, "z");
        }
        _ => panic!("wrong property"),
    }
}

#[test]
fn json_reading() {
    let p = read_prop_parts("{\"type\":\"string\",\"default\":false,\"options\":\"x\"}");
    assert_eq!(p.kind_name, Some("string".to_string()));
    assert_eq!(p.default_flag, Some(false));
    assert_eq!(p.default_text, None);
    assert!(p.options.is_none());
    let p = read_prop_parts("{\"type\":7,\"default\":\"d\",\"options\":[]}");
    assert_eq!(p.kind_name, None);
    assert_eq!(p.default_flag, None);
    assert_eq!(p.default_text, Some("d".to_string()));
    assert_eq!(p.options, Some(vec![]));
    let p = read_prop_parts("nonsense");
    assert!(p.kind_name.is_none() && p.default_flag.is_none() && p.options.is_none());
    assert!(read_prop("{\"type\":\"boolean\"}").is_some());
    assert!(read_prop("\"boolean\"").is_none());
    assert_eq!(read_string_list("[\"x\",\"y\"]"), vec!["x", "y"]);
    assert_eq!(read_string_list("[]"), Vec::<String>::new());
    assert_eq!(read_string_list("[\"x\",null]"), Vec::<String>::new());
    assert_eq!(read_string_list("{\"a\":1}"), Vec::<String>::new());
    assert_eq!(read_string_list("[\"x\""), Vec::<String>::new());
}

#[test]
fn add_variant_stores_snapshot_under_key() {
    let (mut e, frame, _rect, inner, _text) = engine_with_template();
    let c = e.create_component(frame, "Card");
    assert!(e.add_variant(c, key_on(true), inner));
    assert!(!e.add_variant(99, key_on(true), inner));
    let comp = e.components().get(c).unwrap();
    assert_eq!(comp.variants.len(), 2);
    assert_eq!(comp.variants[1].key, "on=true");
    assert_eq!(comp.variants[1].data.root_node_id, inner);
    assert_eq!(comp.variants[1].data.nodes.len(), 2);
    assert!(comp.variants[1].data.key.is_empty());
    assert_eq!(comp.default_variant_key, "");
}

#[test]
fn template_that_names_itself_is_copied_to_a_bounded_depth() {
    let mut e = Engine::new();
    let f = e.add_frame(0, 0, UNIT, UNIT);
    let c = e.create_component(f, "Loop");
    // a template whose root lists itself as its child
    let mut root = Node::new(1, NodeKind::Frame);
    root.children = vec![1];
    let mut store = engine::component::ComponentStore::new();
    let id = store.create("Loop".to_string());
    store.get_mut(id).unwrap().set_variant(
        vec![],
        engine::component::VariantData { key: vec![], root_node_id: 1, nodes: vec![root] },
    );
    let mut scene = engine::scene::Scene::new();
    let i = engine::instance::create_instance(&mut scene, &store, id, 0, 0);
    assert_eq!(i, 1);
    // one template node: the copying goes one level deep
    assert_eq!(scene.subtree_ids(i), vec![1, 2]);
    assert_eq!(c, 1);
}

#[test]
fn create_instance_leaves_existing_nodes_as_they_were() {
    let (mut e, frame, _rect, _inner, _text) = engine_with_template();
    let c = e.create_component(frame, "Card");
    let before = e.export_scene();
    let i = e.create_instance(c, 500 * UNIT, 600 * UNIT);
    let after = e.export_scene();
    assert_eq!(after.nodes.len(), before.nodes.len() + 4);
    for (old, new) in before.nodes.iter().zip(after.nodes.iter()) {
        assert!(old.same(new));
    }
    for n in &after.nodes[before.nodes.len()..] {
        assert!(n.id >= before.next_id && n.id < after.next_id);
    }
    assert_eq!(after.root_children, vec![frame, i]);
}
