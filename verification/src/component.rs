//! Components: reusable templates with variants, slots and instances.

use vstd::prelude::*;
use std::collections::HashMap;
use std::collections::hash_map::Entry;
use crate::deep::{
    lemma_listed_by_keys, listed, option_view, same_option, same_vec, views, Same,
};
use crate::ids::sorted_keys;
use crate::text::{join, joined, sorted_strings, sorted_texts};
use crate::node::{Node, NodeId, NodeView};

verus! {

broadcast use vstd::std_specs::hash::group_hash_axioms;

pub type ComponentId = u64;

/// The type of a variant property.
#[derive(Debug)]
pub enum VariantPropType {
    Boolean,
    String { options: Vec<String> },
}

pub enum VariantPropTypeView {
    Boolean,
    String { options: Seq<Seq<char>> },
}

impl View for VariantPropType {
    type V = VariantPropTypeView;

    open spec fn view(&self) -> VariantPropTypeView {
        match self {
            VariantPropType::Boolean => VariantPropTypeView::Boolean,
            VariantPropType::String { options } => VariantPropTypeView::String {
                options: views(options@),
            },
        }
    }
}

impl Clone for VariantPropType {
    fn clone(&self) -> (r: Self)
        ensures
            r@ == self@,
    {
        match self {
            VariantPropType::Boolean => VariantPropType::Boolean,
            VariantPropType::String { options } => {
                let o = options.clone();
                assert(views(o@) =~= views(options@));
                VariantPropType::String { options: o }
            },
        }
    }
}

/// A concrete value of a variant property.
#[derive(Debug)]
pub enum VariantValue {
    Boolean(bool),
    String(String),
}

pub enum VariantValueView {
    Boolean(bool),
    String(Seq<char>),
}

impl View for VariantValue {
    type V = VariantValueView;

    open spec fn view(&self) -> VariantValueView {
        match self {
            VariantValue::Boolean(b) => VariantValueView::Boolean(*b),
            VariantValue::String(s) => VariantValueView::String(s@),
        }
    }
}

impl Clone for VariantValue {
    fn clone(&self) -> (r: Self)
        ensures
            r@ == self@,
    {
        match self {
            VariantValue::Boolean(b) => VariantValue::Boolean(*b),
            VariantValue::String(s) => VariantValue::String(s.clone()),
        }
    }
}

impl Same for VariantValue {
    fn same(&self, other: &Self) -> (r: bool) {
        match (self, other) {
            (VariantValue::Boolean(a), VariantValue::Boolean(b)) => *a == *b,
            (VariantValue::String(a), VariantValue::String(b)) => a.same(b),
            _ => false,
        }
    }
}

/// The text that a value contributes to a canonical variant key.
pub open spec fn display_text(v: VariantValueView) -> Seq<char> {
    match v {
        VariantValueView::Boolean(b) => if b { "true"@ } else { "false"@ },
        VariantValueView::String(s) => s,
    }
}

impl VariantValue {
    /// The value as text: `true` or `false` for a boolean, the string itself
    /// for a string.
    pub fn to_display(&self) -> (r: String)
        ensures
            r@ == display_text(self@),
    {
        match self {
            VariantValue::Boolean(b) => {
                if *b {
                    String::from_str("true")
                } else {
                    String::from_str("false")
                }
            },
            VariantValue::String(s) => s.clone(),
        }
    }
}

/// A variant property definition.
#[derive(Debug)]
pub struct VariantProp {
    pub name: String,
    pub prop_type: VariantPropType,
    pub default_value: VariantValue,
}

pub struct VariantPropView {
    pub name: Seq<char>,
    pub prop_type: VariantPropTypeView,
    pub default_value: VariantValueView,
}

impl View for VariantProp {
    type V = VariantPropView;

    open spec fn view(&self) -> VariantPropView {
        VariantPropView {
            name: self.name@,
            prop_type: self.prop_type@,
            default_value: self.default_value@,
        }
    }
}

impl Clone for VariantProp {
    fn clone(&self) -> (r: Self)
        ensures
            r@ == self@,
    {
        VariantProp {
            name: self.name.clone(),
            prop_type: self.prop_type.clone(),
            default_value: self.default_value.clone(),
        }
    }
}

/// One entry of a variant key: a property name and the value chosen for it.
#[derive(Debug)]
pub struct KeyEntry {
    pub name: String,
    pub value: VariantValue,
}

pub struct KeyEntryView {
    pub name: Seq<char>,
    pub value: VariantValueView,
}

impl View for KeyEntry {
    type V = KeyEntryView;

    open spec fn view(&self) -> KeyEntryView {
        KeyEntryView { name: self.name@, value: self.value@ }
    }
}

impl Clone for KeyEntry {
    fn clone(&self) -> (r: Self)
        ensures
            r@ == self@,
    {
        KeyEntry { name: self.name.clone(), value: self.value.clone() }
    }
}

impl Same for KeyEntry {
    fn same(&self, other: &Self) -> (r: bool) {
        self.name.same(&other.name) && self.value.same(&other.value)
    }
}

/// A variant key: a value for each of some property names, in any order.
pub type VariantKey = Vec<KeyEntry>;

/// The properties that an instance may override on one of its nodes.
#[derive(Debug)]
pub struct NodeOverrides {
    pub text: Option<String>,
    pub fill_hex: Option<String>,
    pub visible: Option<bool>,
}

pub struct NodeOverridesView {
    pub text: Option<Seq<char>>,
    pub fill_hex: Option<Seq<char>>,
    pub visible: Option<bool>,
}

impl View for NodeOverrides {
    type V = NodeOverridesView;

    open spec fn view(&self) -> NodeOverridesView {
        NodeOverridesView {
            text: option_view(self.text),
            fill_hex: option_view(self.fill_hex),
            visible: self.visible,
        }
    }
}

impl Clone for NodeOverrides {
    fn clone(&self) -> (r: Self)
        ensures
            r@ == self@,
    {
        let text = match &self.text {
            Some(t) => Some(t.clone()),
            None => None,
        };
        let fill_hex = match &self.fill_hex {
            Some(t) => Some(t.clone()),
            None => None,
        };
        NodeOverrides { text, fill_hex, visible: self.visible }
    }
}

impl Same for NodeOverrides {
    fn same(&self, other: &Self) -> (r: bool) {
        let v = match (self.visible, other.visible) {
            (Some(a), Some(b)) => a == b,
            (None, None) => true,
            _ => false,
        };
        same_option(&self.text, &other.text) && same_option(&self.fill_hex, &other.fill_hex) && v
    }
}

impl Default for NodeOverrides {
    fn default() -> (r: Self)
        ensures
            r@ == (NodeOverridesView { text: None, fill_hex: None, visible: None }),
    {
        NodeOverrides { text: None, fill_hex: None, visible: None }
    }
}

/// The content that fills one slot of an instance.
#[derive(Debug)]
pub struct SlotFill {
    pub name: String,
    pub nodes: Vec<NodeId>,
}

pub struct SlotFillView {
    pub name: Seq<char>,
    pub nodes: Seq<NodeId>,
}

impl View for SlotFill {
    type V = SlotFillView;

    open spec fn view(&self) -> SlotFillView {
        SlotFillView { name: self.name@, nodes: self.nodes@ }
    }
}

impl Clone for SlotFill {
    fn clone(&self) -> (r: Self)
        ensures
            r@ == self@,
    {
        SlotFill { name: self.name.clone(), nodes: self.nodes.clone() }
    }
}

impl Same for SlotFill {
    fn same(&self, other: &Self) -> (r: bool) {
        let n = same_vec(&self.nodes, &other.nodes);
        assert(views(self.nodes@) =~= self.nodes@);
        assert(views(other.nodes@) =~= other.nodes@);
        self.name.same(&other.name) && n
    }
}

/// The overrides recorded for one node of an instance.
#[derive(Debug)]
pub struct OverrideEntry {
    pub node: NodeId,
    pub overrides: NodeOverrides,
}

pub struct OverrideEntryView {
    pub node: NodeId,
    pub overrides: NodeOverridesView,
}

impl View for OverrideEntry {
    type V = OverrideEntryView;

    open spec fn view(&self) -> OverrideEntryView {
        OverrideEntryView { node: self.node, overrides: self.overrides@ }
    }
}

impl Clone for OverrideEntry {
    fn clone(&self) -> (r: Self)
        ensures
            r@ == self@,
    {
        OverrideEntry { node: self.node, overrides: self.overrides.clone() }
    }
}

impl Same for OverrideEntry {
    fn same(&self, other: &Self) -> (r: bool) {
        self.node == other.node && self.overrides.same(&other.overrides)
    }
}

/// What an instance node records: its component, its variant, the content of
/// its slots and the overrides of its nodes.
#[derive(Debug)]
pub struct InstanceData {
    pub component_id: ComponentId,
    pub variant_values: VariantKey,
    pub slot_fills: Vec<SlotFill>,
    pub overrides: Vec<OverrideEntry>,
}

pub struct InstanceDataView {
    pub component_id: ComponentId,
    pub variant_values: Seq<KeyEntryView>,
    pub slot_fills: Seq<SlotFillView>,
    pub overrides: Seq<OverrideEntryView>,
}

impl View for InstanceData {
    type V = InstanceDataView;

    open spec fn view(&self) -> InstanceDataView {
        InstanceDataView {
            component_id: self.component_id,
            variant_values: views(self.variant_values@),
            slot_fills: views(self.slot_fills@),
            overrides: views(self.overrides@),
        }
    }
}

impl Clone for InstanceData {
    fn clone(&self) -> (r: Self)
        ensures
            r@ == self@,
    {
        let variant_values = self.variant_values.clone();
        let slot_fills = self.slot_fills.clone();
        let overrides = self.overrides.clone();
        assert(views(variant_values@) =~= views(self.variant_values@));
        assert(views(slot_fills@) =~= views(self.slot_fills@));
        assert(views(overrides@) =~= views(self.overrides@));
        InstanceData { component_id: self.component_id, variant_values, slot_fills, overrides }
    }
}

impl Same for InstanceData {
    fn same(&self, other: &Self) -> (r: bool) {
        self.component_id == other.component_id && same_vec(
            &self.variant_values,
            &other.variant_values,
        ) && same_vec(&self.slot_fills, &other.slot_fills) && same_vec(
            &self.overrides,
            &other.overrides,
        )
    }
}

/// The text of one entry of a variant key: the name, `=`, and the value.
pub open spec fn entry_text(e: KeyEntryView) -> Seq<char> {
    e.name + "="@ + display_text(e.value)
}

/// The texts of the entries of a variant key, in the order of the entries.
pub open spec fn entry_texts(key: Seq<KeyEntryView>) -> Seq<Seq<char>> {
    Seq::new(key.len(), |i: int| entry_text(key[i]))
}

/// The canonical text of a variant key: the texts of its entries in ascending
/// order, with a comma between two.
pub open spec fn key_text(key: Seq<KeyEntryView>) -> Seq<char> {
    joined(sorted_texts(entry_texts(key)), ","@)
}

/// The canonical text of a variant key, by which variants are stored and
/// found: `name=value` for each entry, sorted, joined by commas.
pub fn variant_key_to_string(key: &VariantKey) -> (r: String)
    ensures
        r@ == key_text(views(key@)),
{
    let mut parts: Vec<String> = Vec::new();
    let mut i: usize = 0;
    while i < key.len()
        invariant
            i <= key.len(),
            parts@.len() == i,
            views(parts@) == entry_texts(views(key@)).take(i as int),
        decreases key.len() - i,
    {
        let mut t = key[i].name.clone();
        t.append("=");
        let d = key[i].value.to_display();
        t.append(d.as_str());
        proof {
            assert(t@ == entry_text(key@[i as int]@));
            let want = entry_texts(views(key@));
            assert(want[i as int] == entry_text(views(key@)[i as int]));
            assert forall|j: int| 0 <= j < i as int + 1 implies views(parts@.push(t))[j]
                == want.take(i as int + 1)[j] by {
                if j < i {
                    assert(views(parts@)[j] == want.take(i as int)[j]);
                }
            }
            assert(views(parts@.push(t)) =~= want.take(i as int + 1));
        }
        parts.push(t);
        i += 1;
    }
    assert(entry_texts(views(key@)).take(key.len() as int) =~= entry_texts(views(key@)));
    let sorted = sorted_strings(parts);
    join(&sorted, ",")
}

/// The texts of the entries of two keys that hold the same entries equally
/// often occur equally often.
proof fn lemma_entry_texts_multiset(a: Seq<KeyEntryView>, b: Seq<KeyEntryView>)
    requires
        a.to_multiset() == b.to_multiset(),
    ensures
        entry_texts(a).to_multiset() == entry_texts(b).to_multiset(),
    decreases a.len(),
{
    broadcast use vstd::multiset::group_multiset_axioms;
    broadcast use vstd::seq_lib::group_to_multiset_ensures;

    if a.len() == 0 {
        assert(b.to_multiset().len() == 0);
        assert(b.len() == 0);
        assert(entry_texts(a) =~= entry_texts(b));
    } else {
        let x = a.last();
        assert(a.to_multiset().contains(x));
        assert(b.to_multiset().contains(x));
        let i = choose|i: int| 0 <= i < b.len() && b[i] == x;
        let a1 = a.drop_last();
        let b1 = b.remove(i);
        assert(a1.push(x) =~= a);
        assert(b1.insert(i, x) =~= b);
        assert(a1.to_multiset() =~= a.to_multiset().remove(x));
        assert(b1.to_multiset() =~= b.to_multiset().remove(x));
        lemma_entry_texts_multiset(a1, b1);
        assert(entry_texts(a) =~= entry_texts(a1).push(entry_text(x)));
        assert(entry_texts(b) =~= entry_texts(b1).insert(i, entry_text(x)));
        assert(entry_texts(a).to_multiset() =~= entry_texts(a1).to_multiset().insert(
            entry_text(x),
        ));
        assert(entry_texts(b).to_multiset() =~= entry_texts(b1).to_multiset().insert(
            entry_text(x),
        ));
    }
}

/// The canonical text of a variant key does not depend on the order of its
/// entries: two keys that hold the same entries, each as often as the other,
/// have the same text.
pub proof fn lemma_key_text_order_independent(a: Seq<KeyEntryView>, b: Seq<KeyEntryView>)
    requires
        a.to_multiset() == b.to_multiset(),
    ensures
        key_text(a) == key_text(b),
{
    lemma_entry_texts_multiset(a, b);
    crate::text::lemma_text_order_total();
    entry_texts(a).lemma_sort_by_ensures(crate::text::text_order());
    entry_texts(b).lemma_sort_by_ensures(crate::text::text_order());
    vstd::seq_lib::lemma_sorted_unique(
        sorted_texts(entry_texts(a)),
        sorted_texts(entry_texts(b)),
        crate::text::text_order(),
    );
}

/// A slot of a component: a name and the placeholder node of the template
/// that stands for it.
#[derive(Debug)]
pub struct SlotDef {
    pub name: String,
    pub placeholder_node_id: NodeId,
    pub default_children: Vec<NodeId>,
}

pub struct SlotDefView {
    pub name: Seq<char>,
    pub placeholder_node_id: NodeId,
    pub default_children: Seq<NodeId>,
}

impl View for SlotDef {
    type V = SlotDefView;

    open spec fn view(&self) -> SlotDefView {
        SlotDefView {
            name: self.name@,
            placeholder_node_id: self.placeholder_node_id,
            default_children: self.default_children@,
        }
    }
}

impl Clone for SlotDef {
    fn clone(&self) -> (r: Self)
        ensures
            r@ == self@,
    {
        SlotDef {
            name: self.name.clone(),
            placeholder_node_id: self.placeholder_node_id,
            default_children: self.default_children.clone(),
        }
    }
}

/// The template of one variant: a snapshot of a subtree, its root first.
#[derive(Debug)]
pub struct VariantData {
    pub key: VariantKey,
    pub root_node_id: NodeId,
    pub nodes: Vec<Node>,
}

pub struct VariantDataView {
    pub key: Seq<KeyEntryView>,
    pub root_node_id: NodeId,
    pub nodes: Seq<NodeView>,
}

impl View for VariantData {
    type V = VariantDataView;

    open spec fn view(&self) -> VariantDataView {
        VariantDataView {
            key: views(self.key@),
            root_node_id: self.root_node_id,
            nodes: views(self.nodes@),
        }
    }
}

impl Clone for VariantData {
    fn clone(&self) -> (r: Self)
        ensures
            r@ == self@,
    {
        let key = self.key.clone();
        let nodes = self.nodes.clone();
        assert(views(key@) =~= views(self.key@));
        assert(views(nodes@) =~= views(self.nodes@));
        VariantData { key, root_node_id: self.root_node_id, nodes }
    }
}

/// A variant as a component stores it: under the canonical text of its key.
#[derive(Debug)]
pub struct VariantEntry {
    pub key: String,
    pub data: VariantData,
}

pub struct VariantEntryView {
    pub key: Seq<char>,
    pub data: VariantDataView,
}

impl View for VariantEntry {
    type V = VariantEntryView;

    open spec fn view(&self) -> VariantEntryView {
        VariantEntryView { key: self.key@, data: self.data@ }
    }
}

impl Clone for VariantEntry {
    fn clone(&self) -> (r: Self)
        ensures
            r@ == self@,
    {
        VariantEntry { key: self.key.clone(), data: self.data.clone() }
    }
}

/// A component: a named template with properties, slots and variants.
#[derive(Debug)]
pub struct Component {
    pub id: ComponentId,
    pub name: String,
    pub description: String,
    pub properties: Vec<VariantProp>,
    pub slots: Vec<SlotDef>,
    /// The variants, in the order in which their keys were first set.
    pub variants: Vec<VariantEntry>,
    /// The canonical text of the key of the default variant.
    pub default_variant_key: String,
}

pub struct ComponentView {
    pub id: ComponentId,
    pub name: Seq<char>,
    pub description: Seq<char>,
    pub properties: Seq<VariantPropView>,
    pub slots: Seq<SlotDefView>,
    pub variants: Seq<VariantEntryView>,
    pub default_variant_key: Seq<char>,
}

impl View for Component {
    type V = ComponentView;

    open spec fn view(&self) -> ComponentView {
        ComponentView {
            id: self.id,
            name: self.name@,
            description: self.description@,
            properties: views(self.properties@),
            slots: views(self.slots@),
            variants: views(self.variants@),
            default_variant_key: self.default_variant_key@,
        }
    }
}

impl Clone for Component {
    fn clone(&self) -> (r: Self)
        ensures
            r@ == self@,
    {
        let properties = self.properties.clone();
        let slots = self.slots.clone();
        let variants = self.variants.clone();
        assert(views(properties@) =~= views(self.properties@));
        assert(views(slots@) =~= views(self.slots@));
        assert(views(variants@) =~= views(self.variants@));
        Component {
            id: self.id,
            name: self.name.clone(),
            description: self.description.clone(),
            properties,
            slots,
            variants,
            default_variant_key: self.default_variant_key.clone(),
        }
    }
}

/// The position of the first variant, from a position on, that is stored
/// under a key text.
pub open spec fn find_variant(variants: Seq<VariantEntryView>, key: Seq<char>, from: int) -> Option<
    int,
>
    decreases variants.len() - from,
{
    if from < 0 || from >= variants.len() {
        None
    } else if variants[from].key == key {
        Some(from)
    } else {
        find_variant(variants, key, from + 1)
    }
}

/// The key that gives each property its default value.
pub open spec fn default_key_of(properties: Seq<VariantPropView>) -> Seq<KeyEntryView> {
    Seq::new(
        properties.len(),
        |i: int| KeyEntryView { name: properties[i].name, value: properties[i].default_value },
    )
}

impl ComponentView {
    /// The variant stored under exactly this key, if there is one.
    pub open spec fn exact(self, key: Seq<KeyEntryView>) -> Option<VariantDataView> {
        match find_variant(self.variants, key_text(key), 0) {
            Some(i) => Some(self.variants[i].data),
            None => None,
        }
    }

    /// The variant that a key resolves to: the one stored under the key, else
    /// the default variant, else none.
    pub open spec fn resolve(self, key: Seq<KeyEntryView>) -> Option<VariantDataView> {
        match find_variant(self.variants, key_text(key), 0) {
            Some(i) => Some(self.variants[i].data),
            None => match find_variant(self.variants, self.default_variant_key, 0) {
                Some(i) => Some(self.variants[i].data),
                None => None,
            },
        }
    }

    /// The component after a variant has been stored under a key: in place of
    /// the variant that the key had, or after the others. The first variant
    /// of a component becomes its default.
    pub open spec fn with_variant(self, key: Seq<KeyEntryView>, data: VariantDataView) -> ComponentView {
        let entry = VariantEntryView { key: key_text(key), data };
        ComponentView {
            default_variant_key: if self.variants.len() == 0 {
                key_text(key)
            } else {
                self.default_variant_key
            },
            variants: match find_variant(self.variants, key_text(key), 0) {
                Some(i) => self.variants.update(i, entry),
                None => self.variants.push(entry),
            },
            ..self
        }
    }
}

/// Two keys that hold the same entries, each as often as the other, find the
/// same variant of a component, in whatever order they hold them.
pub proof fn lemma_resolve_order_independent(
    comp: ComponentView,
    a: Seq<KeyEntryView>,
    b: Seq<KeyEntryView>,
)
    requires
        a.to_multiset() == b.to_multiset(),
    ensures
        comp.exact(a) == comp.exact(b),
        comp.resolve(a) == comp.resolve(b),
{
    lemma_key_text_order_independent(a, b);
}

/// The position of the first variant that is stored under a key text.
pub fn variant_index(variants: &Vec<VariantEntry>, key: &String) -> (r: Option<usize>)
    ensures
        match r {
            Some(i) => find_variant(views(variants@), key@, 0) == Some(i as int) && i
                < variants@.len(),
            None => find_variant(views(variants@), key@, 0) is None,
        },
{
    let mut i: usize = 0;
    while i < variants.len()
        invariant
            i <= variants.len(),
            find_variant(views(variants@), key@, 0) == find_variant(
                views(variants@),
                key@,
                i as int,
            ),
        decreases variants.len() - i,
    {
        assert(views(variants@)[i as int].key == variants@[i as int].key@);
        if variants[i].key == *key {
            return Some(i);
        }
        i += 1;
    }
    None
}

impl Component {
    /// A component without properties, slots or variants.
    pub fn new(id: ComponentId, name: String) -> (r: Component)
        ensures
            r@ == (ComponentView {
                id,
                name: name@,
                description: Seq::empty(),
                properties: Seq::empty(),
                slots: Seq::empty(),
                variants: Seq::empty(),
                default_variant_key: Seq::empty(),
            }),
    {
        let r = Component {
            id,
            name,
            description: String::new(),
            properties: Vec::new(),
            slots: Vec::new(),
            variants: Vec::new(),
            default_variant_key: String::new(),
        };
        assert(r@.properties =~= Seq::empty());
        assert(r@.slots =~= Seq::empty());
        assert(r@.variants =~= Seq::empty());
        r
    }

    /// The key that gives each property its default value.
    pub fn default_key(&self) -> (r: VariantKey)
        ensures
            views(r@) == default_key_of(self@.properties),
    {
        let mut r: VariantKey = Vec::new();
        let mut i: usize = 0;
        while i < self.properties.len()
            invariant
                i <= self.properties.len(),
                r@.len() == i,
                forall|j: int|
                    0 <= j < i ==> (#[trigger] r@[j])@ == default_key_of(self@.properties)[j],
            decreases self.properties.len() - i,
        {
            let p = &self.properties[i];
            let e = KeyEntry { name: p.name.clone(), value: p.default_value.clone() };
            assert(e@ == default_key_of(self@.properties)[i as int]);
            r.push(e);
            i += 1;
        }
        assert(views(r@) =~= default_key_of(self@.properties));
        r
    }

    /// The variant that a key resolves to: the one stored under the key, else
    /// the default variant; none only where the component has neither.
    pub fn get_variant(&self, key: &VariantKey) -> (r: Option<&VariantData>)
        ensures
            match r {
                Some(d) => self@.resolve(views(key@)) == Some(d@),
                None => self@.resolve(views(key@)) is None,
            },
    {
        let key_str = variant_key_to_string(key);
        match variant_index(&self.variants, &key_str) {
            Some(i) => Some(&self.variants[i].data),
            None => match variant_index(&self.variants, &self.default_variant_key) {
                Some(i) => Some(&self.variants[i].data),
                None => None,
            },
        }
    }

    /// The variant stored under exactly this key, if there is one.
    pub fn get_exact_variant(&self, key: &VariantKey) -> (r: Option<&VariantData>)
        ensures
            match r {
                Some(d) => self@.exact(views(key@)) == Some(d@),
                None => self@.exact(views(key@)) is None,
            },
    {
        let key_str = variant_key_to_string(key);
        match variant_index(&self.variants, &key_str) {
            Some(i) => Some(&self.variants[i].data),
            None => None,
        }
    }

    /// Stores a variant under a key, in place of the variant that the key
    /// had. The first variant of a component becomes its default.
    pub fn set_variant(&mut self, key: VariantKey, data: VariantData)
        ensures
            final(self)@ == old(self)@.with_variant(views(key@), data@),
    {
        let key_str = variant_key_to_string(&key);
        if self.variants.len() == 0 {
            self.default_variant_key = key_str.clone();
        }
        let ghost before = views(self.variants@);
        let ghost entry = VariantEntryView { key: key_str@, data: data@ };
        match variant_index(&self.variants, &key_str) {
            Some(i) => {
                self.variants[i] = VariantEntry { key: key_str, data };
                assert(views(self.variants@) =~= before.update(i as int, entry));
            },
            None => {
                self.variants.push(VariantEntry { key: key_str, data });
                assert(views(self.variants@) =~= before.push(entry));
            },
        }
    }
}

/// The views of the components of a map, under the same ids.
pub open spec fn component_views(m: Map<ComponentId, Component>) -> Map<
    ComponentId,
    ComponentView,
> {
    Map::new(|id: ComponentId| m.contains_key(id), |id: ComponentId| m[id]@)
}

/// The views of a map with one component replaced.
pub proof fn lemma_component_views_insert(m: Map<ComponentId, Component>, id: ComponentId, c: Component)
    ensures
        #[trigger] component_views(m.insert(id, c)) == component_views(m).insert(id, c@),
{
    assert(component_views(m.insert(id, c)) =~= component_views(m).insert(id, c@));
}

/// The store of components as a value of mathematics.
pub struct ComponentStoreView {
    pub components: Map<ComponentId, ComponentView>,
    pub next_id: ComponentId,
}

impl ComponentStoreView {
    /// Every component is stored under an id below the next free one.
    pub open spec fn wf(self) -> bool {
        &&& 0 < self.next_id
        &&& forall|id: ComponentId| #[trigger] self.components.contains_key(id) ==> id < self.next_id
    }

    /// The store after components have been taken in, each under its own id
    /// and in place of the component that the id had; the next free id lies
    /// above all of them.
    pub open spec fn imported(self, comps: Seq<ComponentView>) -> ComponentStoreView
        decreases comps.len(),
    {
        if comps.len() == 0 {
            self
        } else {
            let s = self.imported(comps.drop_last());
            let c = comps.last();
            ComponentStoreView {
                components: s.components.insert(c.id, c),
                next_id: if c.id >= s.next_id {
                    (c.id + 1) as ComponentId
                } else {
                    s.next_id
                },
            }
        }
    }
}

/// The store of components: each under its id, and the next free id.
#[derive(Debug)]
pub struct ComponentStore {
    components: HashMap<ComponentId, Component>,
    next_id: ComponentId,
}

impl View for ComponentStore {
    type V = ComponentStoreView;

    closed spec fn view(&self) -> ComponentStoreView {
        ComponentStoreView {
            components: component_views(self.components@),
            next_id: self.next_id,
        }
    }
}

impl ComponentStore {
    /// Every component is stored under an id below the next free one.
    pub open spec fn wf(&self) -> bool {
        self@.wf()
    }

    /// The empty store, whose first free id is 1.
    pub fn new() -> (r: ComponentStore)
        ensures
            r@ == (ComponentStoreView { components: Map::empty(), next_id: 1 }),
            r.wf(),
    {
        let r = ComponentStore { components: HashMap::new(), next_id: 1 };
        assert(r@.components =~= Map::<ComponentId, ComponentView>::empty());
        r
    }

    /// Stores a new, empty component under the next free id and returns the
    /// id; returns 0, and stores nothing, where no id is left.
    pub fn create(&mut self, name: String) -> (id: ComponentId)
        requires
            old(self).wf(),
        ensures
            final(self).wf(),
            old(self)@.next_id == u64::MAX ==> id == 0 && final(self)@ == old(self)@,
            old(self)@.next_id < u64::MAX ==> id == old(self)@.next_id && final(self)@ == (
            ComponentStoreView {
                components: old(self)@.components.insert(
                    id,
                    ComponentView {
                        id,
                        name: name@,
                        description: Seq::empty(),
                        properties: Seq::empty(),
                        slots: Seq::empty(),
                        variants: Seq::empty(),
                        default_variant_key: Seq::empty(),
                    },
                ),
                next_id: (id + 1) as ComponentId,
            }),
    {
        if self.next_id == u64::MAX {
            return 0;
        }
        let id: ComponentId = self.next_id;
        self.next_id = id + 1;
        let c = Component::new(id, name);
        proof {
            lemma_component_views_insert(self.components@, id, c);
        }
        self.components.insert(id, c);
        id
    }

    /// The component of an id, if the store holds one.
    pub fn get(&self, id: ComponentId) -> (r: Option<&Component>)
        ensures
            match r {
                Some(c) => self@.components.contains_key(id) && c@ == self@.components[id],
                None => !self@.components.contains_key(id),
            },
    {
        self.components.get(&id)
    }

    /// The component of an id, to be changed in place.
    pub fn get_mut(&mut self, id: ComponentId) -> (r: Option<&mut Component>)
        ensures
            match r {
                Some(c) => {
                    &&& old(self)@.components.contains_key(id)
                    &&& c@ == old(self)@.components[id]
                    &&& final(self)@ == (ComponentStoreView {
                        components: old(self)@.components.insert(id, final(c)@),
                        next_id: old(self)@.next_id,
                    })
                },
                None => !old(self)@.components.contains_key(id) && final(self)@ == old(self)@,
            },
    {
        proof {
            assert forall|c: Component| #[trigger]
                component_views(self.components@.insert(id, c)) == component_views(
                    self.components@,
                ).insert(id, c@) by {
                lemma_component_views_insert(self.components@, id, c);
            }
            if !self.components@.contains_key(id) {
                assert(self.components@.remove(id) =~= self.components@);
            }
        }
        match self.components.entry(id) {
            Entry::Occupied(e) => Some(e.into_mut()),
            Entry::Vacant(_) => None,
        }
    }

    /// Takes a component out of the store and returns it.
    pub fn remove(&mut self, id: ComponentId) -> (r: Option<Component>)
        ensures
            final(self)@ == (ComponentStoreView {
                components: old(self)@.components.remove(id),
                next_id: old(self)@.next_id,
            }),
            match r {
                Some(c) => old(self)@.components.contains_key(id) && c@
                    == old(self)@.components[id],
                None => !old(self)@.components.contains_key(id),
            },
    {
        let r = self.components.remove(&id);
        assert(self@.components =~= old(self)@.components.remove(id));
        r
    }

    /// The components in ascending order of their ids.
    pub fn list(&self) -> (r: Vec<&Component>)
        requires
            self.wf(),
        ensures
            r@.len() == listed(self@.components, self@.next_id as int).len(),
            forall|i: int|
                0 <= i < r@.len() ==> (#[trigger] r@[i])@ == listed(
                    self@.components,
                    self@.next_id as int,
                )[i],
    {
        let keys = sorted_keys(&self.components);
        let ghost count = lemma_listed_by_keys(self@.components, keys@, self.next_id as int);
        let mut r: Vec<&Component> = Vec::new();
        let mut i: usize = 0;
        while i < keys.len() && keys[i] < self.next_id
            invariant
                i <= count <= keys.len(),
                forall|j: int| 0 <= j < count ==> keys@[j] < self.next_id,
                forall|j: int| count <= j < keys@.len() ==> keys@[j] >= self.next_id,
                forall|x: ComponentId| keys@.contains(x) <==> self.components@.contains_key(x),
                r@.len() == i,
                forall|j: int|
                    0 <= j < i ==> (#[trigger] r@[j])@ == self@.components[keys@[j]],
            decreases keys.len() - i,
        {
            assert(keys@.contains(keys@[i as int]));
            match self.components.get(&keys[i]) {
                Some(c) => {
                    r.push(c);
                },
                None => {},
            }
            i += 1;
        }
        proof {
            assert(i == count);
            assert(listed(self@.components, self.next_id as int).len() == count);
        }
        r
    }

    /// Copies of the components, in ascending order of their ids.
    pub fn export(&self) -> (r: Vec<Component>)
        requires
            self.wf(),
        ensures
            views(r@) == listed(self@.components, self@.next_id as int),
    {
        let keys = sorted_keys(&self.components);
        let ghost count = lemma_listed_by_keys(self@.components, keys@, self.next_id as int);
        let mut r: Vec<Component> = Vec::new();
        let mut i: usize = 0;
        while i < keys.len() && keys[i] < self.next_id
            invariant
                i <= count <= keys.len(),
                forall|j: int| 0 <= j < count ==> keys@[j] < self.next_id,
                forall|j: int| count <= j < keys@.len() ==> keys@[j] >= self.next_id,
                forall|x: ComponentId| keys@.contains(x) <==> self.components@.contains_key(x),
                r@.len() == i,
                forall|j: int|
                    0 <= j < i ==> (#[trigger] r@[j])@ == self@.components[keys@[j]],
            decreases keys.len() - i,
        {
            assert(keys@.contains(keys@[i as int]));
            match self.components.get(&keys[i]) {
                Some(c) => {
                    r.push(c.clone());
                },
                None => {},
            }
            i += 1;
        }
        proof {
            assert(i == count);
            assert(views(r@) =~= listed(self@.components, self.next_id as int));
        }
        r
    }

    /// Takes in components, each under its own id and in place of the
    /// component that the id had, and moves the next free id above them.
    pub fn import(&mut self, components: Vec<Component>)
        requires
            old(self).wf(),
            forall|i: int| 0 <= i < components@.len() ==> (#[trigger] components@[i]).id < u64::MAX,
        ensures
            final(self)@ == old(self)@.imported(views(components@)),
            final(self).wf(),
    {
        let ghost all = views(components@);
        let ghost start = self@;
        let mut i: usize = 0;
        assert(all.take(0) =~= Seq::<ComponentView>::empty());
        while i < components.len()
            invariant
                i <= components.len(),
                all == views(components@),
                self@ == start.imported(all.take(i as int)),
                self.wf(),
                forall|k: int|
                    0 <= k < components@.len() ==> (#[trigger] components@[k]).id < u64::MAX,
            decreases components.len() - i,
        {
            let c = components[i].clone();
            let ghost pre = self@;
            proof {
                assert(c@ == all[i as int]);
                assert(all.take(i as int + 1).drop_last() =~= all.take(i as int));
                assert(all.take(i as int + 1).last() == c@);
                lemma_component_views_insert(self.components@, c.id, c);
                assert(components@[i as int].id < u64::MAX);
            }
            if c.id >= self.next_id {
                self.next_id = c.id + 1;
            }
            let ghost before = self@;
            self.components.insert(c.id, c);
            proof {
                assert(self@.components == before.components.insert(c.id, c@));
                assert forall|id: ComponentId| #[trigger]
                    self@.components.contains_key(id) implies id < self@.next_id by {
                    if id != c.id {
                        assert(pre.components.contains_key(id));
                    }
                }
            }
            i += 1;
        }
        proof {
            assert(all.take(components@.len() as int) =~= all);
        }
    }
}

} // verus!
