//! A plain class, whose nodes keep the values that they are given.

use vstd::prelude::*;
use crate::class::{
    infos_view, ClassError, NodeBuilder, NodeClass, ParsedNode, PropertyInfo, PropertySpec,
};
use crate::lexeme::{copy_bytes, same_bytes};
use crate::value::{values_view, PropertyValue, PropertyValueType, TypedValue};

verus! {

/// What a record does with a property that is set a second time.
#[derive(Clone, Copy, Debug, PartialEq, Eq, Structural)]
pub enum DuplicatePolicy {
    /// The second value is refused.
    Reject,
    /// The second value takes the place of the first.
    LastWins,
}

/// A class given by its name, the properties that it declares, the kind
/// of its array elements if it takes any, and what it does with a
/// property that is set twice.
#[derive(Debug, PartialEq, Eq)]
pub struct RecordClass {
    pub name: Vec<u8>,
    pub properties: Vec<PropertyInfo>,
    pub array_type: Option<PropertyValueType>,
    pub duplicates: DuplicatePolicy,
}

/// A node of a [`RecordClass`]: its class, the properties in the order in
/// which they were first set, and the array elements in their order.
#[derive(Debug, PartialEq, Eq)]
pub struct RecordNode {
    pub class: RecordClass,
    pub properties: Vec<(Vec<u8>, PropertyValue)>,
    pub array: Vec<PropertyValue>,
}

/// A node of a [`RecordClass`] in the making.
#[derive(Debug, PartialEq, Eq)]
pub struct RecordBuilder {
    pub node: RecordNode,
}

/// The mathematical value of a [`RecordClass`].
pub struct RecordClassView {
    pub name: Seq<u8>,
    pub properties: Seq<PropertySpec>,
    pub array_type: Option<PropertyValueType>,
    pub duplicates: DuplicatePolicy,
}

/// The mathematical value of a [`RecordNode`] and of a [`RecordBuilder`].
pub struct RecordView {
    pub class: RecordClassView,
    pub properties: Seq<(Seq<u8>, TypedValue)>,
    pub array: Seq<TypedValue>,
}

impl View for RecordClass {
    type V = RecordClassView;

    open spec fn view(&self) -> RecordClassView {
        RecordClassView {
            name: self.name@,
            properties: infos_view(self.properties@),
            array_type: self.array_type,
            duplicates: self.duplicates,
        }
    }
}

/// The values of a list of properties that are set, in order.
pub open spec fn entries_view(entries: Seq<(Vec<u8>, PropertyValue)>) -> Seq<
    (Seq<u8>, TypedValue),
> {
    Seq::new(entries.len(), |i: int| (entries[i].0@, entries[i].1@))
}

impl View for RecordNode {
    type V = RecordView;

    open spec fn view(&self) -> RecordView {
        RecordView {
            class: self.class@,
            properties: entries_view(self.properties@),
            array: values_view(self.array@),
        }
    }
}

impl View for RecordBuilder {
    type V = RecordView;

    open spec fn view(&self) -> RecordView {
        self.node@
    }
}

/// The place of the first entry for `name`.
pub open spec fn entry_index(entries: Seq<(Seq<u8>, TypedValue)>, name: Seq<u8>) -> Option<int>
    decreases entries.len(),
{
    if entries.len() == 0 {
        None
    } else {
        match entry_index(entries.drop_last(), name) {
            Some(i) => Some(i),
            None => if entries.last().0 == name {
                Some(entries.len() - 1)
            } else {
                None
            },
        }
    }
}

/// The text `duplicate`, with which a record refuses a property set twice.
pub open spec fn duplicate_message() -> Seq<u8> {
    seq![0x64u8, 0x75u8, 0x70u8, 0x6cu8, 0x69u8, 0x63u8, 0x61u8, 0x74u8, 0x65u8]
}

/// What setting the property `name` to `value` makes of a record.
pub open spec fn record_set(state: RecordView, name: Seq<u8>, value: TypedValue) -> Result<
    RecordView,
    Seq<u8>,
> {
    match entry_index(state.properties, name) {
        None => Ok(RecordView { properties: state.properties.push((name, value)), ..state }),
        Some(i) => match state.class.duplicates {
            DuplicatePolicy::Reject => Err(duplicate_message()),
            DuplicatePolicy::LastWins => Ok(
                RecordView { properties: state.properties.update(i, (name, value)), ..state },
            ),
        },
    }
}

pub proof fn lemma_entry_index_found(entries: Seq<(Seq<u8>, TypedValue)>, name: Seq<u8>, i: int)
    requires
        0 <= i < entries.len(),
        entries[i].0 == name,
        entry_index(entries.subrange(0, i), name) is None,
    ensures
        entry_index(entries, name) == Some(i),
    decreases entries.len(),
{
    if entries.len() - 1 == i {
        assert(entries.drop_last() =~= entries.subrange(0, i));
    } else {
        assert(entries.drop_last().subrange(0, i) =~= entries.subrange(0, i));
        lemma_entry_index_found(entries.drop_last(), name, i);
    }
}

/// Looks for the first entry for `name`.
fn find_entry(entries: &Vec<(Vec<u8>, PropertyValue)>, name: &[u8]) -> (r: Option<usize>)
    ensures
        match r {
            Some(i) => i < entries.len() && entry_index(entries_view(entries@), name@) == Some(
                i as int,
            ),
            None => entry_index(entries_view(entries@), name@) is None,
        },
{
    let ghost all = entries_view(entries@);
    let mut i: usize = 0;
    while i < entries.len()
        invariant
            i <= entries.len(),
            all == entries_view(entries@),
            entry_index(all.subrange(0, i as int), name@) is None,
        decreases entries.len() - i,
    {
        if same_bytes(entries[i].0.as_slice(), name) {
            proof {
                lemma_entry_index_found(all, name@, i as int);
            }
            return Some(i);
        }
        proof {
            let longer = all.subrange(0, i + 1);
            assert(longer.drop_last() =~= all.subrange(0, i as int));
        }
        i += 1;
    }
    assert(all.subrange(0, entries.len() as int) =~= all);
    None
}

impl PropertyInfo {
    /// A copy of this declaration.
    pub fn duplicate(&self) -> (r: PropertyInfo)
        ensures
            r@ == self@,
    {
        PropertyInfo {
            name: copy_bytes(self.name.as_slice()),
            help: copy_bytes(self.help.as_slice()),
            kind: self.kind,
        }
    }
}

impl PropertyValue {
    /// A copy of this value.
    pub fn duplicate(&self) -> (r: PropertyValue)
        ensures
            r@ == self@,
    {
        match self {
            PropertyValue::Stringy(s) => PropertyValue::Stringy(copy_bytes(s.as_slice())),
            PropertyValue::Enummy(i) => PropertyValue::Enummy(*i),
            PropertyValue::Numbery(n) => PropertyValue::Numbery(*n),
            PropertyValue::Floaty(t) => PropertyValue::Floaty(copy_bytes(t.as_slice())),
            PropertyValue::Booly(b) => PropertyValue::Booly(*b),
            PropertyValue::SockAddr(t) => PropertyValue::SockAddr(copy_bytes(t.as_slice())),
            PropertyValue::IpAddr(t) => PropertyValue::IpAddr(copy_bytes(t.as_slice())),
            PropertyValue::PortNumber(p) => PropertyValue::PortNumber(*p),
            PropertyValue::Path(p) => PropertyValue::Path(copy_bytes(p.as_slice())),
            PropertyValue::Uri(u) => PropertyValue::Uri(copy_bytes(u.as_slice())),
            PropertyValue::Duration(s, n) => PropertyValue::Duration(*s, *n),
            PropertyValue::ChildNode(id) => PropertyValue::ChildNode(*id),
        }
    }
}

/// A copy of a list of declarations.
fn copy_infos(infos: &Vec<PropertyInfo>) -> (r: Vec<PropertyInfo>)
    ensures
        infos_view(r@) == infos_view(infos@),
{
    let mut r: Vec<PropertyInfo> = Vec::new();
    let mut i: usize = 0;
    while i < infos.len()
        invariant
            i <= infos.len(),
            r@.len() == i,
            forall|j: int| 0 <= j < i ==> (#[trigger] r@[j])@ == infos@[j]@,
        decreases infos.len() - i,
    {
        r.push(infos[i].duplicate());
        i += 1;
    }
    assert(infos_view(r@) =~= infos_view(infos@));
    r
}

/// A copy of a list of values.
fn copy_values(values: &Vec<PropertyValue>) -> (r: Vec<PropertyValue>)
    ensures
        values_view(r@) == values_view(values@),
{
    let mut r: Vec<PropertyValue> = Vec::new();
    let mut i: usize = 0;
    while i < values.len()
        invariant
            i <= values.len(),
            r@.len() == i,
            forall|j: int| 0 <= j < i ==> (#[trigger] r@[j])@ == values@[j]@,
        decreases values.len() - i,
    {
        r.push(values[i].duplicate());
        i += 1;
    }
    assert(values_view(r@) =~= values_view(values@));
    r
}

impl RecordClass {
    /// A copy of this class.
    pub fn duplicate(&self) -> (r: RecordClass)
        ensures
            r@ == self@,
    {
        RecordClass {
            name: copy_bytes(self.name.as_slice()),
            properties: copy_infos(&self.properties),
            array_type: self.array_type,
            duplicates: self.duplicates,
        }
    }
}

impl NodeBuilder for RecordBuilder {
    type Node = RecordNode;

    open spec fn set_property_spec(state: RecordView, name: Seq<u8>, value: TypedValue) -> Result<
        RecordView,
        Seq<u8>,
    > {
        record_set(state, name, value)
    }

    open spec fn push_array_element_spec(state: RecordView, value: TypedValue) -> Result<
        RecordView,
        Seq<u8>,
    > {
        Ok(RecordView { array: state.array.push(value), ..state })
    }

    open spec fn finish_spec(state: RecordView) -> Result<RecordView, Seq<u8>> {
        Ok(state)
    }

    fn set_property(&mut self, name: &[u8], value: PropertyValue) -> (r: Result<(), ClassError>) {
        let ghost before = self.node.properties@;
        match find_entry(&self.node.properties, name) {
            None => {
                self.node.properties.push((copy_bytes(name), value));
                assert(entries_view(self.node.properties@) =~= entries_view(before).push(
                    (name@, value@),
                ));
                Ok(())
            },
            Some(i) => match self.node.class.duplicates {
                DuplicatePolicy::Reject => {
                    let mut message: Vec<u8> = Vec::new();
                    message.push(0x64);
                    message.push(0x75);
                    message.push(0x70);
                    message.push(0x6c);
                    message.push(0x69);
                    message.push(0x63);
                    message.push(0x61);
                    message.push(0x74);
                    message.push(0x65);
                    assert(message@ =~= duplicate_message());
                    Err(ClassError { message })
                },
                DuplicatePolicy::LastWins => {
                    self.node.properties.set(i, (copy_bytes(name), value));
                    assert(entries_view(self.node.properties@) =~= entries_view(before).update(
                        i as int,
                        (name@, value@),
                    ));
                    Ok(())
                },
            },
        }
    }

    fn push_array_element(&mut self, value: PropertyValue) -> (r: Result<(), ClassError>) {
        let ghost before = self.node.array@;
        self.node.array.push(value);
        assert(values_view(self.node.array@) =~= values_view(before).push(value@));
        Ok(())
    }

    fn finish(self) -> (r: Result<RecordNode, ClassError>) {
        Ok(self.node)
    }
}

impl NodeClass for RecordClass {
    type Builder = RecordBuilder;

    open spec fn official_name_spec(&self) -> Seq<u8> {
        self.name@
    }

    open spec fn properties_spec(&self) -> Seq<PropertySpec> {
        infos_view(self.properties@)
    }

    open spec fn array_type_spec(&self) -> Option<PropertyValueType> {
        self.array_type
    }

    open spec fn new_node_spec(&self) -> RecordView {
        RecordView { class: self@, properties: Seq::empty(), array: Seq::empty() }
    }

    fn official_name(&self) -> (r: Vec<u8>) {
        copy_bytes(self.name.as_slice())
    }

    fn properties(&self) -> (r: Vec<PropertyInfo>) {
        copy_infos(&self.properties)
    }

    fn array_type(&self) -> (r: Option<PropertyValueType>) {
        self.array_type
    }

    fn new_node(&self) -> (r: RecordBuilder) {
        let node = RecordNode {
            class: self.duplicate(),
            properties: Vec::new(),
            array: Vec::new(),
        };
        let r = RecordBuilder { node };
        proof {
            assert(r@.class == self@);
            assert(r@.properties =~= Seq::<(Seq<u8>, TypedValue)>::empty());
            assert(r@.array =~= Seq::<TypedValue>::empty());
        }
        r
    }
}

impl ParsedNode for RecordNode {
    type Class = RecordClass;

    open spec fn class_spec(&self) -> RecordClass {
        self.class
    }

    open spec fn property_spec(&self, name: Seq<u8>) -> Option<TypedValue> {
        match entry_index(entries_view(self.properties@), name) {
            Some(i) => Some(entries_view(self.properties@)[i].1),
            None => None,
        }
    }

    open spec fn array_spec(&self) -> Seq<TypedValue> {
        values_view(self.array@)
    }

    fn class(&self) -> (r: &RecordClass) {
        &self.class
    }

    fn get_property(&self, name: &[u8]) -> (r: Option<PropertyValue>) {
        match find_entry(&self.properties, name) {
            Some(i) => Some(self.properties[i].1.duplicate()),
            None => None,
        }
    }

    fn get_array(&self) -> (r: Vec<PropertyValue>) {
        copy_values(&self.array)
    }
}

} // verus!
