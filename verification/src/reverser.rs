//! From a typed node in an arena back to a surface tree.

use vstd::prelude::*;
use crate::arena::Tree;
use crate::builder::{Place, PlaceSpec};
use crate::class::{infos_view, NodeClass, ParsedNode, PropertySpec};
use crate::lexeme::copy_bytes;
use crate::surface::{
    array_view, lemma_node_view, properties_view, Ident, StringOrSubnode, StringyNode,
    SurfaceNode, SurfaceValue,
};
use crate::value::{value_text, values_view, NodeId, PropertyValue, PropertyValueType, TypedValue};

verus! {

/// Why a typed node is not turned back into a surface tree.
#[derive(Clone, Debug, PartialEq, Eq)]
pub enum ReverseError {
    /// The arena holds no node with this handle.
    NodeNotFound { id: NodeId },
    /// The node with this handle lies deeper below the root than the arena
    /// has nodes: a node is its own descendant.
    TooDeep { id: NodeId },
    /// The value at `place` is a child node where the class declares
    /// another kind, or another value where it declares a child node.
    Inconsistent { node: Vec<u8>, place: Place },
    /// The node has array elements and its class takes none.
    ArrayNotExpected { node: Vec<u8> },
    /// The value at `place` is of a kind that has no text.
    NoText { node: Vec<u8>, place: Place },
}

/// The mathematical value of a [`ReverseError`].
pub enum ReverseFailure {
    NodeNotFound { id: NodeId },
    TooDeep { id: NodeId },
    Inconsistent { node: Seq<u8>, place: PlaceSpec },
    ArrayNotExpected { node: Seq<u8> },
    NoText { node: Seq<u8>, place: PlaceSpec },
}

impl View for ReverseError {
    type V = ReverseFailure;

    open spec fn view(&self) -> ReverseFailure {
        match *self {
            ReverseError::NodeNotFound { id } => ReverseFailure::NodeNotFound { id },
            ReverseError::TooDeep { id } => ReverseFailure::TooDeep { id },
            ReverseError::Inconsistent { node, place } => ReverseFailure::Inconsistent {
                node: node@,
                place: place@,
            },
            ReverseError::ArrayNotExpected { node } => ReverseFailure::ArrayNotExpected {
                node: node@,
            },
            ReverseError::NoText { node, place } => ReverseFailure::NoText {
                node: node@,
                place: place@,
            },
        }
    }
}

/// The surface value that stands for the typed value `v` at `place` of the
/// node named `node`, whose class declares `kind` there: a child node is
/// turned back into a nested node, any other value into its text.
pub open spec fn reverse_value<N: ParsedNode>(
    arena: Seq<N>,
    budget: nat,
    node: Seq<u8>,
    place: PlaceSpec,
    kind: PropertyValueType,
    v: TypedValue,
) -> Result<SurfaceValue, ReverseFailure>
    decreases budget, 1nat, 0nat,
{
    match v {
        TypedValue::ChildNode(child) => {
            if kind is ChildNode {
                match reverse_node(arena, child, budget) {
                    Ok(sub) => Ok(SurfaceValue::Subnode(Box::new(sub))),
                    Err(e) => Err(e),
                }
            } else {
                Err(ReverseFailure::Inconsistent { node, place })
            }
        },
        _ => {
            if kind is ChildNode {
                Err(ReverseFailure::Inconsistent { node, place })
            } else {
                match value_text(v) {
                    Some(text) => Ok(SurfaceValue::Str(text)),
                    None => Err(ReverseFailure::NoText { node, place }),
                }
            }
        },
    }
}

/// The surface properties of the typed node `n`: for each property that
/// the class declares, from index `i` on and in the order of declaration,
/// the value that the node has for it, where it has one.
pub open spec fn reverse_properties<N: ParsedNode>(
    arena: Seq<N>,
    budget: nat,
    n: N,
    node: Seq<u8>,
    declared: Seq<PropertySpec>,
    i: int,
) -> Result<Seq<(Seq<u8>, SurfaceValue)>, ReverseFailure>
    decreases budget, 2nat, declared.len() - i,
{
    if 0 <= i < declared.len() {
        let key = declared[i].name;
        match n.property_spec(key) {
            None => reverse_properties(arena, budget, n, node, declared, i + 1),
            Some(v) => match reverse_value(
                arena,
                budget,
                node,
                PlaceSpec::Property(key),
                declared[i].kind,
                v,
            ) {
                Err(e) => Err(e),
                Ok(value) => match reverse_properties(arena, budget, n, node, declared, i + 1) {
                    Err(e) => Err(e),
                    Ok(rest) => Ok(seq![(key, value)] + rest),
                },
            },
        }
    } else {
        Ok(Seq::empty())
    }
}

/// The surface values of the array elements `elements` from index `j` on.
pub open spec fn reverse_elements<N: ParsedNode>(
    arena: Seq<N>,
    budget: nat,
    node: Seq<u8>,
    kind: Option<PropertyValueType>,
    elements: Seq<TypedValue>,
    j: int,
) -> Result<Seq<SurfaceValue>, ReverseFailure>
    decreases budget, 2nat, elements.len() - j,
{
    if 0 <= j < elements.len() {
        match kind {
            None => Err(ReverseFailure::ArrayNotExpected { node }),
            Some(kind) => match reverse_value(
                arena,
                budget,
                node,
                PlaceSpec::Element(j as usize),
                kind,
                elements[j],
            ) {
                Err(e) => Err(e),
                Ok(value) => match reverse_elements(
                    arena,
                    budget,
                    node,
                    Some(kind),
                    elements,
                    j + 1,
                ) {
                    Err(e) => Err(e),
                    Ok(rest) => Ok(seq![value] + rest),
                },
            },
        }
    } else {
        Ok(Seq::empty())
    }
}

/// The node of the given name, properties and array elements, or the
/// first failure met on the way to them.
pub open spec fn assemble(
    name: Seq<u8>,
    properties: Result<Seq<(Seq<u8>, SurfaceValue)>, ReverseFailure>,
    array: Result<Seq<SurfaceValue>, ReverseFailure>,
) -> Result<SurfaceNode, ReverseFailure> {
    match properties {
        Err(e) => Err(e),
        Ok(properties) => match array {
            Err(e) => Err(e),
            Ok(array) => Ok(SurfaceNode { name, properties, array }),
        },
    }
}

/// The surface node that stands for the typed node with handle `root`:
/// the official name of its class, the properties in the order in which
/// the class declares them, and the array elements in their order. Nodes
/// are followed at most `budget` deep.
pub open spec fn reverse_node<N: ParsedNode>(arena: Seq<N>, root: NodeId, budget: nat) -> Result<
    SurfaceNode,
    ReverseFailure,
>
    decreases budget, 0nat, 0nat,
{
    if root.0 >= arena.len() {
        Err(ReverseFailure::NodeNotFound { id: root })
    } else if budget == 0 {
        Err(ReverseFailure::TooDeep { id: root })
    } else {
        let n = arena[root.0 as int];
        let class = n.class_spec();
        let name = class.official_name_spec();
        assemble(
            name,
            reverse_properties(arena, (budget - 1) as nat, n, name, class.properties_spec(), 0),
            reverse_elements(
                arena,
                (budget - 1) as nat,
                name,
                class.array_type_spec(),
                n.array_spec(),
                0,
            ),
        )
    }
}

/// The mathematical value of what [`StringyNode::reverse`] returns.
pub open spec fn reverse_outcome(r: Result<StringyNode, ReverseError>) -> Result<
    SurfaceNode,
    ReverseFailure,
> {
    match r {
        Ok(node) => Ok(node@),
        Err(e) => Err(e@),
    }
}

/// The mathematical value of what turning one value back returns.
pub open spec fn reverse_value_outcome(r: Result<StringOrSubnode, ReverseError>) -> Result<
    SurfaceValue,
    ReverseFailure,
> {
    match r {
        Ok(v) => Ok(v@),
        Err(e) => Err(e@),
    }
}

/// What comes of the values already turned back and of those that follow.
pub open spec fn joined<T>(done: Seq<T>, rest: Result<Seq<T>, ReverseFailure>) -> Result<
    Seq<T>,
    ReverseFailure,
> {
    match rest {
        Ok(more) => Ok(done + more),
        Err(e) => Err(e),
    }
}

fn reverse_one<N: ParsedNode>(
    v: &PropertyValue,
    kind: PropertyValueType,
    node: &[u8],
    place: Place,
    tree: &Tree<N>,
    budget: usize,
) -> (r: Result<StringOrSubnode, ReverseError>)
    ensures
        reverse_value_outcome(r) == reverse_value(
            tree@,
            budget as nat,
            node@,
            place@,
            kind,
            v@,
        ),
    decreases budget, 1nat,
{
    match v {
        PropertyValue::ChildNode(child) => {
            if kind == PropertyValueType::ChildNode {
                match reverse_within(*child, tree, budget) {
                    Ok(sub) => Ok(StringOrSubnode::Subnode(sub)),
                    Err(e) => Err(e),
                }
            } else {
                Err(ReverseError::Inconsistent { node: copy_bytes(node), place })
            }
        },
        _ => {
            if kind == PropertyValueType::ChildNode {
                Err(ReverseError::Inconsistent { node: copy_bytes(node), place })
            } else {
                match v.to_bytes() {
                    Some(text) => Ok(StringOrSubnode::Str(text)),
                    None => Err(ReverseError::NoText { node: copy_bytes(node), place }),
                }
            }
        },
    }
}

fn reverse_within<N: ParsedNode>(root: NodeId, tree: &Tree<N>, budget: usize) -> (r: Result<
    StringyNode,
    ReverseError,
>)
    ensures
        reverse_outcome(r) == reverse_node(tree@, root, budget as nat),
    decreases budget, 0nat,
{
    let n = match tree.get(root) {
        Some(n) => n,
        None => {
            return Err(ReverseError::NodeNotFound { id: root });
        },
    };
    if budget == 0 {
        return Err(ReverseError::TooDeep { id: root });
    }
    let class = n.class();
    let name = class.official_name();
    let declared = class.properties();
    let ghost arena = tree@;
    let ghost specs = class.properties_spec();
    let ghost left = (budget - 1) as nat;
    let ghost all_properties = reverse_properties(arena, left, *n, name@, specs, 0);
    let ghost goal = reverse_node(arena, root, budget as nat);
    assert(goal == assemble(
        name@,
        all_properties,
        reverse_elements(arena, left, name@, class.array_type_spec(), n.array_spec(), 0),
    ));
    let mut properties: Vec<(Ident, StringOrSubnode)> = Vec::new();
    let mut i: usize = 0;
    assert(properties_view(properties@) =~= Seq::empty());
    assert(Seq::<(Seq<u8>, SurfaceValue)>::empty() + all_properties->Ok_0 =~= all_properties->Ok_0);
    while i < declared.len()
        invariant
            i <= declared.len(),
            budget > 0,
            left == (budget - 1) as nat,
            arena == tree@,
            specs == infos_view(declared@),
            goal == reverse_node(tree@, root, budget as nat),
            goal == assemble(
                name@,
                all_properties,
                reverse_elements(arena, left, name@, class.array_type_spec(), n.array_spec(), 0),
            ),
            all_properties == joined(
                properties_view(properties@),
                reverse_properties(arena, left, *n, name@, specs, i as int),
            ),
        decreases declared.len() - i,
    {
        let key = declared[i].name.as_slice();
        assert(specs[i as int] == declared@[i as int]@);
        let ghost rest = reverse_properties(arena, left, *n, name@, specs, i + 1);
        match n.get_property(key) {
            None => {},
            Some(v) => {
                let value = match reverse_one(
                    &v,
                    declared[i].kind,
                    name.as_slice(),
                    Place::Property(copy_bytes(key)),
                    tree,
                    budget - 1,
                ) {
                    Ok(value) => value,
                    Err(e) => {
                        return Err(e);
                    },
                };
                let ghost before = properties_view(properties@);
                properties.push((Ident(copy_bytes(key)), value));
                proof {
                    assert(properties_view(properties@) =~= before.push((key@, value@)));
                    if rest is Ok {
                        assert(before + (seq![(key@, value@)] + rest->Ok_0) =~= before.push(
                            (key@, value@),
                        ) + rest->Ok_0);
                    }
                }
            },
        }
        i += 1;
    }
    assert(properties_view(properties@) + Seq::empty() =~= properties_view(properties@));
    let elements = n.get_array();
    let element_kind = class.array_type();
    let ghost values = n.array_spec();
    let ghost all_elements = reverse_elements(arena, left, name@, element_kind, values, 0);
    let mut array: Vec<StringOrSubnode> = Vec::new();
    let mut j: usize = 0;
    assert(array_view(array@) =~= Seq::empty());
    assert(Seq::<SurfaceValue>::empty() + all_elements->Ok_0 =~= all_elements->Ok_0);
    while j < elements.len()
        invariant
            j <= elements.len(),
            budget > 0,
            left == (budget - 1) as nat,
            arena == tree@,
            values == values_view(elements@),
            goal == reverse_node(tree@, root, budget as nat),
            goal == assemble(name@, all_properties, all_elements),
            all_properties == Ok::<Seq<(Seq<u8>, SurfaceValue)>, ReverseFailure>(
                properties_view(properties@),
            ),
            all_elements == joined(
                array_view(array@),
                reverse_elements(arena, left, name@, element_kind, values, j as int),
            ),
        decreases elements.len() - j,
    {
        assert(values[j as int] == elements@[j as int]@);
        let ghost rest = reverse_elements(arena, left, name@, element_kind, values, j + 1);
        let kind = match element_kind {
            Some(kind) => kind,
            None => {
                return Err(ReverseError::ArrayNotExpected { node: name });
            },
        };
        let value = match reverse_one(
            &elements[j],
            kind,
            name.as_slice(),
            Place::Element(j),
            tree,
            budget - 1,
        ) {
            Ok(value) => value,
            Err(e) => {
                return Err(e);
            },
        };
        let ghost before = array_view(array@);
        array.push(value);
        proof {
            assert(array_view(array@) =~= before.push(value@));
            if rest is Ok {
                assert(before + (seq![value@] + rest->Ok_0) =~= before.push(value@) + rest->Ok_0);
            }
        }
        j += 1;
    }
    let node = StringyNode { name: Ident(name), properties, array };
    proof {
        lemma_node_view(node);
        assert(properties_view(properties@) + Seq::empty() =~= properties_view(properties@));
        assert(array_view(array@) + Seq::empty() =~= array_view(array@));
    }
    Ok(node)
}

impl StringyNode {
    /// Turns the typed node with handle `root` back into a surface node:
    /// the official name of its class, the properties that the node has in
    /// the order in which the class declares them, and the array elements
    /// in their order; child nodes are turned back in the same way.
    pub fn reverse<N: ParsedNode>(root: NodeId, tree: &Tree<N>) -> (r: Result<
        StringyNode,
        ReverseError,
    >)
        ensures
            reverse_outcome(r) == reverse_node(tree@, root, tree@.len()),
    {
        reverse_within(root, tree, tree.len())
    }
}

} // verus!
