//! The untyped tree that the surface syntax denotes.

use vstd::prelude::*;
use crate::lexeme::is_identifier;

verus! {

/// The name of a node or of a property.
#[derive(Debug, Clone, PartialEq, Eq)]
pub struct Ident(pub Vec<u8>);

/// A value in a node: a string of bytes or a nested node.
#[derive(Debug, PartialEq, Eq)]
pub enum StringOrSubnode {
    Str(Vec<u8>),
    Subnode(StringyNode),
}

/// A node of the surface syntax, before its class is looked up: a name,
/// the properties in the order they were written, and the positional
/// values in the order they were written.
#[derive(Debug, PartialEq, Eq)]
pub struct StringyNode {
    pub name: Ident,
    pub properties: Vec<(Ident, StringOrSubnode)>,
    pub array: Vec<StringOrSubnode>,
}

/// The mathematical value of a [`StringOrSubnode`].
pub enum SurfaceValue {
    Str(Seq<u8>),
    Subnode(Box<SurfaceNode>),
}

/// The mathematical value of a [`StringyNode`].
pub struct SurfaceNode {
    pub name: Seq<u8>,
    pub properties: Seq<(Seq<u8>, SurfaceValue)>,
    pub array: Seq<SurfaceValue>,
}

pub open spec fn node_view(n: StringyNode) -> SurfaceNode
    decreases n,
{
    SurfaceNode {
        name: n.name.0@,
        properties: Seq::new(
            n.properties@.len(),
            |i: int|
                if 0 <= i < n.properties@.len() {
                    (n.properties@[i].0.0@, value_view(n.properties@[i].1))
                } else {
                    (Seq::empty(), SurfaceValue::Str(Seq::empty()))
                },
        ),
        array: Seq::new(
            n.array@.len(),
            |i: int|
                if 0 <= i < n.array@.len() {
                    value_view(n.array@[i])
                } else {
                    SurfaceValue::Str(Seq::empty())
                },
        ),
    }
}

pub open spec fn value_view(v: StringOrSubnode) -> SurfaceValue
    decreases v,
{
    match v {
        StringOrSubnode::Str(s) => SurfaceValue::Str(s@),
        StringOrSubnode::Subnode(n) => SurfaceValue::Subnode(Box::new(node_view(n))),
    }
}

/// The values of a list of properties, in order.
pub open spec fn properties_view(ps: Seq<(Ident, StringOrSubnode)>) -> Seq<(Seq<u8>, SurfaceValue)> {
    Seq::new(ps.len(), |i: int| (ps[i].0.0@, value_view(ps[i].1)))
}

/// The values of a list of positional values, in order.
pub open spec fn array_view(vs: Seq<StringOrSubnode>) -> Seq<SurfaceValue> {
    Seq::new(vs.len(), |i: int| value_view(vs[i]))
}

/// The value of a node is made of the values of its parts.
pub proof fn lemma_node_view(n: StringyNode)
    ensures
        node_view(n).name == n.name.0@,
        node_view(n).properties == properties_view(n.properties@),
        node_view(n).array == array_view(n.array@),
{
    assert(node_view(n).properties =~= properties_view(n.properties@));
    assert(node_view(n).array =~= array_view(n.array@));
}

impl View for Ident {
    type V = Seq<u8>;

    open spec fn view(&self) -> Seq<u8> {
        self.0@
    }
}

impl View for StringOrSubnode {
    type V = SurfaceValue;

    open spec fn view(&self) -> SurfaceValue {
        value_view(*self)
    }
}

impl View for StringyNode {
    type V = SurfaceNode;

    open spec fn view(&self) -> SurfaceNode {
        node_view(*self)
    }
}

impl SurfaceValue {
    /// A string, or a subnode that is well formed.
    pub open spec fn wf(self) -> bool
        decreases self,
    {
        match self {
            SurfaceValue::Str(_) => true,
            SurfaceValue::Subnode(n) => n.wf(),
        }
    }
}

impl SurfaceNode {
    /// The name and every property key, here and in every nested node, is
    /// an identifier.
    pub open spec fn wf(self) -> bool
        decreases self,
    {
        &&& is_identifier(self.name)
        &&& forall|i: int|
            0 <= i < self.properties.len() ==> is_identifier((#[trigger] self.properties[i]).0)
                && self.properties[i].1.wf()
        &&& forall|i: int| 0 <= i < self.array.len() ==> (#[trigger] self.array[i]).wf()
    }
}

} // verus!
