//! What the library asks of the classes of nodes.
//!
//! A class names the properties that its nodes may have, with the kind of
//! each, and the kind of its array if it has one; it hands out a builder
//! that takes typed values and ends in a node. The library calls a class
//! through the traits of this module and decides nothing for it: what a
//! method answers is named by the `spec` function beside it, and a type
//! that implements a trait owes the answers so named.

use vstd::prelude::*;
use crate::lexeme::same_bytes;
use crate::value::{optional_value, values_view, PropertyValue, PropertyValueType, TypedValue};

verus! {

/// A class's refusal of a value or of a node.
#[derive(Clone, Debug, PartialEq, Eq)]
pub struct ClassError {
    pub message: Vec<u8>,
}

impl View for ClassError {
    type V = Seq<u8>;

    open spec fn view(&self) -> Seq<u8> {
        self.message@
    }
}

/// A property that a class declares.
#[derive(Clone, Debug, PartialEq, Eq)]
pub struct PropertyInfo {
    pub name: Vec<u8>,
    pub help: Vec<u8>,
    pub kind: PropertyValueType,
}

/// The mathematical value of a [`PropertyInfo`].
pub struct PropertySpec {
    pub name: Seq<u8>,
    pub help: Seq<u8>,
    pub kind: PropertyValueType,
}

impl View for PropertyInfo {
    type V = PropertySpec;

    open spec fn view(&self) -> PropertySpec {
        PropertySpec { name: self.name@, help: self.help@, kind: self.kind }
    }
}

/// The values of a list of declared properties, in order.
pub open spec fn infos_view(infos: Seq<PropertyInfo>) -> Seq<PropertySpec> {
    Seq::new(infos.len(), |i: int| infos[i]@)
}

/// The kind under which `name` is declared: that of the last declaration
/// of the name, where there are several.
pub open spec fn declared_kind(infos: Seq<PropertySpec>, name: Seq<u8>) -> Option<
    PropertyValueType,
>
    decreases infos.len(),
{
    if infos.len() == 0 {
        None
    } else if infos.last().name == name {
        Some(infos.last().kind)
    } else {
        declared_kind(infos.drop_last(), name)
    }
}

/// Looks up the kind under which `name` is declared.
pub fn find_kind(infos: &Vec<PropertyInfo>, name: &[u8]) -> (r: Option<PropertyValueType>)
    ensures
        r == declared_kind(infos_view(infos@), name@),
{
    let ghost all = infos_view(infos@);
    let mut i: usize = infos.len();
    assert(all.subrange(0, i as int) =~= all);
    while i > 0
        invariant
            i <= infos.len(),
            all == infos_view(infos@),
            declared_kind(all, name@) == declared_kind(all.subrange(0, i as int), name@),
        decreases i,
    {
        let ghost upto = all.subrange(0, i as int);
        assert(upto.last() == infos@[i - 1]@);
        assert(upto.drop_last() =~= all.subrange(0, i - 1));
        if same_bytes(infos[i - 1].name.as_slice(), name) {
            return Some(infos[i - 1].kind);
        }
        i -= 1;
    }
    None
}

/// A node in the making.
pub trait NodeBuilder: View + Sized {
    /// The node that the builder ends in.
    type Node: View;

    /// What setting a property makes of a builder: the builder with the
    /// property set, or the class's refusal.
    spec fn set_property_spec(state: Self::V, name: Seq<u8>, value: TypedValue) -> Result<
        Self::V,
        Seq<u8>,
    >;

    /// What one more array element makes of a builder: the builder with
    /// the element behind the others, or the class's refusal.
    spec fn push_array_element_spec(state: Self::V, value: TypedValue) -> Result<Self::V, Seq<u8>>;

    /// What a builder ends in: the node, or the class's refusal.
    spec fn finish_spec(state: Self::V) -> Result<<Self::Node as View>::V, Seq<u8>>;

    /// Sets the property `name` to `value`.
    fn set_property(&mut self, name: &[u8], value: PropertyValue) -> (r: Result<(), ClassError>)
        ensures
            match Self::set_property_spec(old(self)@, name@, value@) {
                Ok(next) => r is Ok && final(self)@ == next,
                Err(refusal) => r matches Err(e) && e@ == refusal,
            },
    ;

    /// Puts `value` behind the array elements already given.
    fn push_array_element(&mut self, value: PropertyValue) -> (r: Result<(), ClassError>)
        ensures
            match Self::push_array_element_spec(old(self)@, value@) {
                Ok(next) => r is Ok && final(self)@ == next,
                Err(refusal) => r matches Err(e) && e@ == refusal,
            },
    ;

    /// Ends the making of the node.
    fn finish(self) -> (r: Result<Self::Node, ClassError>)
        ensures
            match Self::finish_spec(self@) {
                Ok(node) => r matches Ok(n) && n@ == node,
                Err(refusal) => r matches Err(e) && e@ == refusal,
            },
    ;
}

/// A class of nodes.
pub trait NodeClass: Sized {
    /// The builder of the class's nodes.
    type Builder: NodeBuilder;

    /// The name under which the class is registered and its nodes are written.
    spec fn official_name_spec(&self) -> Seq<u8>;

    /// The properties that the class declares, in the order of declaration.
    spec fn properties_spec(&self) -> Seq<PropertySpec>;

    /// The kind of the class's array elements, where it takes any.
    spec fn array_type_spec(&self) -> Option<PropertyValueType>;

    /// The builder that the class hands out.
    spec fn new_node_spec(&self) -> <Self::Builder as View>::V;

    fn official_name(&self) -> (r: Vec<u8>)
        ensures
            r@ == self.official_name_spec(),
    ;

    fn properties(&self) -> (r: Vec<PropertyInfo>)
        ensures
            infos_view(r@) == self.properties_spec(),
    ;

    fn array_type(&self) -> (r: Option<PropertyValueType>)
        ensures
            r == self.array_type_spec(),
    ;

    fn new_node(&self) -> (r: Self::Builder)
        ensures
            r@ == self.new_node_spec(),
    ;
}

/// A finished node.
pub trait ParsedNode: Sized {
    /// The class of the node.
    type Class: NodeClass;

    /// The node's class.
    spec fn class_spec(&self) -> Self::Class;

    /// The value of the property `name`, where the node has one.
    spec fn property_spec(&self, name: Seq<u8>) -> Option<TypedValue>;

    /// The node's array elements, in order.
    spec fn array_spec(&self) -> Seq<TypedValue>;

    fn class(&self) -> (r: &Self::Class)
        ensures
            *r == self.class_spec(),
    ;

    fn get_property(&self, name: &[u8]) -> (r: Option<PropertyValue>)
        ensures
            optional_value(r) == self.property_spec(name@),
    ;

    fn get_array(&self) -> (r: Vec<PropertyValue>)
        ensures
            values_view(r@) == self.array_spec(),
    ;
}

/// The classes that nodes may be built of, latest registration last.
pub struct ClassRegistrar<C> {
    pub classes: Vec<C>,
}

/// The class registered under `name`: the latest, where there are several.
pub open spec fn class_named<C: NodeClass>(classes: Seq<C>, name: Seq<u8>) -> Option<C>
    decreases classes.len(),
{
    if classes.len() == 0 {
        None
    } else if classes.last().official_name_spec() == name {
        Some(classes.last())
    } else {
        class_named(classes.drop_last(), name)
    }
}

impl<C: NodeClass> ClassRegistrar<C> {
    /// A registry without classes.
    pub fn new() -> (r: Self)
        ensures
            r.classes@ == Seq::<C>::empty(),
    {
        ClassRegistrar { classes: Vec::new() }
    }

    /// Registers `class` under its official name. It takes the place of a
    /// class registered under that name before.
    pub fn register(&mut self, class: C)
        ensures
            final(self).classes@ == old(self).classes@.push(class),
    {
        self.classes.push(class);
    }

    /// The class registered under `name`.
    pub fn lookup(&self, name: &[u8]) -> (r: Option<&C>)
        ensures
            match class_named(self.classes@, name@) {
                Some(class) => r == Some(&class),
                None => r is None,
            },
    {
        let ghost all = self.classes@;
        let mut i: usize = self.classes.len();
        assert(all.subrange(0, i as int) =~= all);
        while i > 0
            invariant
                i <= self.classes.len(),
                all == self.classes@,
                class_named(all, name@) == class_named(all.subrange(0, i as int), name@),
            decreases i,
        {
            let ghost upto = all.subrange(0, i as int);
            assert(upto.last() == all[i - 1]);
            assert(upto.drop_last() =~= all.subrange(0, i - 1));
            let official = self.classes[i - 1].official_name();
            if same_bytes(official.as_slice(), name) {
                return Some(&self.classes[i - 1]);
            }
            i -= 1;
        }
        None
    }
}

} // verus!
