use engine::component::{
    variant_key_to_string, Component, ComponentStore, KeyEntry, VariantData, VariantKey,
    VariantProp, VariantPropType, VariantValue,
};

fn entry(name: &str, value: VariantValue) -> KeyEntry {
    KeyEntry { name: name.to_string(), value }
}

fn key_ab() -> VariantKey {
    vec![entry("a", VariantValue::Boolean(true)), entry("b", VariantValue::String("x".to_string()))]
}

fn key_ba() -> VariantKey {
    vec![entry("b", VariantValue::String("x".to_string())), entry("a", VariantValue::Boolean(true))]
}

fn data(root: u64) -> VariantData {
    VariantData { key: vec![], root_node_id: root, nodes: vec![] }
}

#[test]
fn to_display_of_values() {
    assert_eq!(VariantValue::Boolean(true).to_display(), "true");
    assert_eq!(VariantValue::Boolean(false).to_display(), "false");
    assert_eq!(VariantValue::String("big".to_string()).to_display(), "big");
}

#[test]
fn key_text_is_sorted_and_joined() {
    assert_eq!(variant_key_to_string(&key_ab()), "a=true,b=x");
    assert_eq!(variant_key_to_string(&vec![]), "");
    assert_eq!(variant_key_to_string(&vec![entry("size", VariantValue::String("l".to_string()))]), "size=l");
}

#[test]
fn key_text_is_order_independent() {
    assert_eq!(variant_key_to_string(&key_ab()), variant_key_to_string(&key_ba()));
    let k1 = vec![
        entry("z", VariantValue::Boolean(false)),
        entry("m", VariantValue::String("q".to_string())),
        entry("a", VariantValue::Boolean(true)),
    ];
    let k2 = vec![
        entry("a", VariantValue::Boolean(true)),
        entry("z", VariantValue::Boolean(false)),
        entry("m", VariantValue::String("q".to_string())),
    ];
    assert_eq!(variant_key_to_string(&k1), "a=true,m=q,z=false");
    assert_eq!(variant_key_to_string(&k2), "a=true,m=q,z=false");
}

#[test]
fn reordered_keys_resolve_to_the_same_variant() {
    let mut c = Component::new(1, "Button".to_string());
    c.set_variant(vec![], data(10));
    c.set_variant(key_ab(), data(20));
    assert_eq!(c.get_variant(&key_ba()).unwrap().root_node_id, 20);
    assert_eq!(c.get_variant(&key_ab()).unwrap().root_node_id, 20);
    assert_eq!(c.get_exact_variant(&key_ba()).unwrap().root_node_id, 20);
}

#[test]
fn first_variant_becomes_default() {
    let mut c = Component::new(1, "Button".to_string());
    assert!(c.get_variant(&vec![]).is_none());
    c.set_variant(key_ab(), data(20));
    assert_eq!(c.default_variant_key, "a=true,b=x");
    c.set_variant(vec![], data(10));
    assert_eq!(c.default_variant_key, "a=true,b=x");
    assert_eq!(c.variants.len(), 2);
}

#[test]
fn unknown_key_falls_back_to_default() {
    let mut c = Component::new(1, "Button".to_string());
    c.set_variant(key_ab(), data(20));
    let other = vec![entry("a", VariantValue::Boolean(false))];
    assert_eq!(c.get_variant(&other).unwrap().root_node_id, 20);
    assert!(c.get_exact_variant(&other).is_none());
}

#[test]
fn set_variant_replaces_under_same_key() {
    let mut c = Component::new(1, "Button".to_string());
    c.set_variant(key_ab(), data(20));
    c.set_variant(key_ba(), data(30));
    assert_eq!(c.variants.len(), 1);
    assert_eq!(c.get_variant(&key_ab()).unwrap().root_node_id, 30);
}

#[test]
fn default_key_gives_each_property_its_default() {
    let mut c = Component::new(1, "Button".to_string());
    c.properties.push(VariantProp {
        name: "on".to_string(),
        prop_type: VariantPropType::Boolean,
        default_value: VariantValue::Boolean(true),
    });
    c.properties.push(VariantProp {
        name: "size".to_string(),
        prop_type: VariantPropType::String { options: vec!["s".to_string(), "l".to_string()] },
        default_value: VariantValue::String("s".to_string()),
    });
    let k = c.default_key();
    assert_eq!(variant_key_to_string(&k), "on=true,size=s");
    assert_eq!(k.len(), 2);
    assert_eq!(k[0].name, "on");
}

#[test]
fn new_component_is_empty() {
    let c = Component::new(4, "Card".to_string());
    assert_eq!(c.id, 4);
    assert_eq!(c.name, "Card");
    assert_eq!(c.description, "");
    assert!(c.properties.is_empty());
    assert!(c.slots.is_empty());
    assert!(c.variants.is_empty());
    assert_eq!(c.default_variant_key, "");
}

#[test]
fn store_creates_monotonic_ids() {
    let mut s = ComponentStore::new();
    assert_eq!(s.create("a".to_string()), 1);
    assert_eq!(s.create("b".to_string()), 2);
    assert!(s.remove(1).is_some());
    assert_eq!(s.create("c".to_string()), 3);
    assert!(s.get(1).is_none());
    assert_eq!(s.get(2).unwrap().name, "b");
    assert!(s.remove(1).is_none());
}

#[test]
fn store_get_mut_changes_in_place() {
    let mut s = ComponentStore::new();
    let id = s.create("a".to_string());
    s.get_mut(id).unwrap().description = "d".to_string();
    assert_eq!(s.get(id).unwrap().description, "d");
    assert!(s.get_mut(9).is_none());
}

#[test]
fn store_lists_by_ascending_id() {
    let mut s = ComponentStore::new();
    s.create("a".to_string());
    s.create("b".to_string());
    s.create("c".to_string());
    s.remove(2);
    let names: Vec<String> = s.list().iter().map(|c| c.name.clone()).collect();
    assert_eq!(names, vec!["a", "c"]);
    let ids: Vec<u64> = s.export().iter().map(|c| c.id).collect();
    assert_eq!(ids, vec![1, 3]);
}

#[test]
fn store_import_moves_next_id_above() {
    let mut s = ComponentStore::new();
    s.create("a".to_string());
    s.import(vec![Component::new(7, "x".to_string()), Component::new(1, "y".to_string())]);
    assert_eq!(s.get(1).unwrap().name, "y");
    assert_eq!(s.get(7).unwrap().name, "x");
    assert_eq!(s.create("z".to_string()), 8);
    assert_eq!(s.list().len(), 3);
}

#[test]
fn store_create_fails_when_no_id_is_left() {
    let mut s = ComponentStore::new();
    s.import(vec![Component::new(u64::MAX - 1, "last".to_string())]);
    assert_eq!(s.create("more".to_string()), 0);
    assert_eq!(s.export().len(), 1);
}
