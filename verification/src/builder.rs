//! From a surface tree, checked against the classes, to typed nodes in an arena.

use vstd::prelude::*;
use crate::arena::Tree;
use crate::class::{
    class_named, declared_kind, find_kind, infos_view, ClassError, ClassRegistrar, NodeBuilder,
    NodeClass,
};
use crate::host::{HostReadingView, HostReadings};
use crate::interpret::{interpret_spec, InterpretError};
use crate::lexeme::copy_bytes;
use crate::surface::{StringOrSubnode, StringyNode, SurfaceNode, SurfaceValue};
use crate::value::{NodeId, PropertyValue, PropertyValueType, TypedValue};

verus! {

/// The builder of the nodes of class `C`.
pub type BuilderOf<C> = <C as NodeClass>::Builder;

/// The nodes of class `C`.
pub type NodeOf<C> = <<C as NodeClass>::Builder as NodeBuilder>::Node;

/// The mathematical value of a builder of class `C`.
pub type BuilderView<C> = <<C as NodeClass>::Builder as View>::V;

/// The mathematical value of a node of class `C`.
pub type NodeView<C> = <<<C as NodeClass>::Builder as NodeBuilder>::Node as View>::V;

/// A place in a node.
#[derive(Clone, Debug, PartialEq, Eq)]
pub enum Place {
    /// The property with this key.
    Property(Vec<u8>),
    /// The positional value with this index, counted from zero.
    Element(usize),
    /// The node as a whole.
    Node,
}

/// The mathematical value of a [`Place`].
pub enum PlaceSpec {
    Property(Seq<u8>),
    Element(usize),
    Node,
}

impl View for Place {
    type V = PlaceSpec;

    open spec fn view(&self) -> PlaceSpec {
        match *self {
            Place::Property(key) => PlaceSpec::Property(key@),
            Place::Element(index) => PlaceSpec::Element(index),
            Place::Node => PlaceSpec::Node,
        }
    }
}

/// Why a surface tree is not built. Each variant names the node, by the
/// name written in the text, in which the fault lies.
#[derive(Clone, Debug, PartialEq, Eq)]
pub enum BuildError {
    /// No class is registered under the node's name.
    UnknownNodeType { node: Vec<u8> },
    /// The node's class declares no property of this name.
    UnknownProperty { node: Vec<u8>, property: Vec<u8> },
    /// The node has positional values and its class takes none.
    ArrayNotSupported { node: Vec<u8> },
    /// A nested node stands where the class declares another kind.
    SubnodeNotExpected { node: Vec<u8>, place: Place },
    /// A string stands where the class declares a child node.
    SubnodeExpected { node: Vec<u8>, place: Place },
    /// The string `value` is no value of the declared kind.
    Coercion { node: Vec<u8>, place: Place, value: Vec<u8>, cause: InterpretError },
    /// The class refused a property, a positional value or the node.
    Rejected { node: Vec<u8>, place: Place, refusal: ClassError },
}

/// The mathematical value of a [`BuildError`].
pub enum BuildFailure {
    UnknownNodeType { node: Seq<u8> },
    UnknownProperty { node: Seq<u8>, property: Seq<u8> },
    ArrayNotSupported { node: Seq<u8> },
    SubnodeNotExpected { node: Seq<u8>, place: PlaceSpec },
    SubnodeExpected { node: Seq<u8>, place: PlaceSpec },
    Coercion { node: Seq<u8>, place: PlaceSpec, value: Seq<u8>, cause: InterpretError },
    Rejected { node: Seq<u8>, place: PlaceSpec, refusal: Seq<u8> },
}

impl View for BuildError {
    type V = BuildFailure;

    open spec fn view(&self) -> BuildFailure {
        match *self {
            BuildError::UnknownNodeType { node } => BuildFailure::UnknownNodeType { node: node@ },
            BuildError::UnknownProperty { node, property } => BuildFailure::UnknownProperty {
                node: node@,
                property: property@,
            },
            BuildError::ArrayNotSupported { node } => BuildFailure::ArrayNotSupported {
                node: node@,
            },
            BuildError::SubnodeNotExpected { node, place } => BuildFailure::SubnodeNotExpected {
                node: node@,
                place: place@,
            },
            BuildError::SubnodeExpected { node, place } => BuildFailure::SubnodeExpected {
                node: node@,
                place: place@,
            },
            BuildError::Coercion { node, place, value, cause } => BuildFailure::Coercion {
                node: node@,
                place: place@,
                value: value@,
                cause,
            },
            BuildError::Rejected { node, place, refusal } => BuildFailure::Rejected {
                node: node@,
                place: place@,
                refusal: refusal@,
            },
        }
    }
}

/// A typed value or a failure, and the arena as it then stands.
pub struct Converted<N> {
    pub result: Result<TypedValue, BuildFailure>,
    pub arena: Seq<N>,
}

/// A builder or a failure, and the arena as it then stands.
pub struct Filled<B, N> {
    pub result: Result<B, BuildFailure>,
    pub arena: Seq<N>,
}

/// The handle of a node or a failure, and the arena as it then stands.
pub struct Built<N> {
    pub result: Result<NodeId, BuildFailure>,
    pub arena: Seq<N>,
}

/// The typed value of kind `kind` that the surface value `v` stands for at
/// `place` of the node named `node`: a nested node is built where a child
/// node is declared, a string is interpreted where another kind is
/// declared, and each in the place of the other is a fault.
pub open spec fn convert<C: NodeClass>(
    classes: Seq<C>,
    host: Seq<(Seq<u8>, HostReadingView)>,
    arena: Seq<NodeView<C>>,
    node: Seq<u8>,
    place: PlaceSpec,
    kind: PropertyValueType,
    v: SurfaceValue,
) -> Converted<NodeView<C>>
    decreases v, 0nat, 0nat,
{
    match v {
        SurfaceValue::Subnode(child) => {
            if kind is ChildNode {
                let built = build_node(classes, host, arena, *child);
                match built.result {
                    Ok(id) => Converted {
                        result: Ok(TypedValue::ChildNode(id)),
                        arena: built.arena,
                    },
                    Err(e) => Converted { result: Err(e), arena: built.arena },
                }
            } else {
                Converted { result: Err(BuildFailure::SubnodeNotExpected { node, place }), arena }
            }
        },
        SurfaceValue::Str(x) => {
            if kind is ChildNode {
                Converted { result: Err(BuildFailure::SubnodeExpected { node, place }), arena }
            } else {
                match interpret_spec(kind, x, host) {
                    Ok(value) => Converted { result: Ok(value), arena },
                    Err(cause) => Converted {
                        result: Err(BuildFailure::Coercion { node, place, value: x, cause }),
                        arena,
                    },
                }
            }
        },
    }
}

/// The builder after the properties of `n` from index `i` on are set, in
/// the order of the text.
pub open spec fn fill_properties<C: NodeClass>(
    classes: Seq<C>,
    host: Seq<(Seq<u8>, HostReadingView)>,
    arena: Seq<NodeView<C>>,
    n: SurfaceNode,
    class: C,
    i: int,
    builder: BuilderView<C>,
) -> Filled<BuilderView<C>, NodeView<C>>
    decreases n, 1nat, n.properties.len() - i,
{
    if 0 <= i < n.properties.len() {
        let key = n.properties[i].0;
        match declared_kind(class.properties_spec(), key) {
            None => Filled {
                result: Err(BuildFailure::UnknownProperty { node: n.name, property: key }),
                arena,
            },
            Some(kind) => {
                let place = PlaceSpec::Property(key);
                let item = convert(classes, host, arena, n.name, place, kind, n.properties[i].1);
                match item.result {
                    Err(e) => Filled { result: Err(e), arena: item.arena },
                    Ok(value) => match <C::Builder as NodeBuilder>::set_property_spec(
                        builder,
                        key,
                        value,
                    ) {
                        Err(refusal) => Filled {
                            result: Err(BuildFailure::Rejected { node: n.name, place, refusal }),
                            arena: item.arena,
                        },
                        Ok(next) => fill_properties(
                            classes,
                            host,
                            item.arena,
                            n,
                            class,
                            i + 1,
                            next,
                        ),
                    },
                }
            },
        }
    } else {
        Filled { result: Ok(builder), arena }
    }
}

/// The builder after the positional values of `n` from index `j` on are
/// pushed, in the order of the text.
pub open spec fn fill_elements<C: NodeClass>(
    classes: Seq<C>,
    host: Seq<(Seq<u8>, HostReadingView)>,
    arena: Seq<NodeView<C>>,
    n: SurfaceNode,
    class: C,
    j: int,
    builder: BuilderView<C>,
) -> Filled<BuilderView<C>, NodeView<C>>
    decreases n, 0nat, n.array.len() - j,
{
    if 0 <= j < n.array.len() {
        match class.array_type_spec() {
            None => Filled {
                result: Err(BuildFailure::ArrayNotSupported { node: n.name }),
                arena,
            },
            Some(kind) => {
                let place = PlaceSpec::Element(j as usize);
                let item = convert(classes, host, arena, n.name, place, kind, n.array[j]);
                match item.result {
                    Err(e) => Filled { result: Err(e), arena: item.arena },
                    Ok(value) => match <C::Builder as NodeBuilder>::push_array_element_spec(
                        builder,
                        value,
                    ) {
                        Err(refusal) => Filled {
                            result: Err(BuildFailure::Rejected { node: n.name, place, refusal }),
                            arena: item.arena,
                        },
                        Ok(next) => fill_elements(classes, host, item.arena, n, class, j + 1, next),
                    },
                }
            },
        }
    } else {
        Filled { result: Ok(builder), arena }
    }
}

/// What building `n` comes to: the class registered under the node's name
/// hands out a builder, the properties are set and the positional values
/// pushed in the order of the text, nested nodes being built and inserted
/// on the way, and the finished node is inserted behind all of them.
pub open spec fn build_node<C: NodeClass>(
    classes: Seq<C>,
    host: Seq<(Seq<u8>, HostReadingView)>,
    arena: Seq<NodeView<C>>,
    n: SurfaceNode,
) -> Built<NodeView<C>>
    decreases n, 2nat, 0nat,
{
    match class_named(classes, n.name) {
        None => Built { result: Err(BuildFailure::UnknownNodeType { node: n.name }), arena },
        Some(class) => {
            let with_properties = fill_properties(
                classes,
                host,
                arena,
                n,
                class,
                0,
                class.new_node_spec(),
            );
            match with_properties.result {
                Err(e) => Built { result: Err(e), arena: with_properties.arena },
                Ok(first) => {
                    let with_elements = fill_elements(
                        classes,
                        host,
                        with_properties.arena,
                        n,
                        class,
                        0,
                        first,
                    );
                    match with_elements.result {
                        Err(e) => Built { result: Err(e), arena: with_elements.arena },
                        Ok(second) => match <C::Builder as NodeBuilder>::finish_spec(second) {
                            Err(refusal) => Built {
                                result: Err(
                                    BuildFailure::Rejected {
                                        node: n.name,
                                        place: PlaceSpec::Node,
                                        refusal,
                                    },
                                ),
                                arena: with_elements.arena,
                            },
                            Ok(node) => Built {
                                result: Ok(NodeId(with_elements.arena.len() as usize)),
                                arena: with_elements.arena.push(node),
                            },
                        },
                    }
                },
            }
        },
    }
}

/// The mathematical value of what converting a value returns.
pub open spec fn convert_outcome(r: Result<PropertyValue, BuildError>) -> Result<
    TypedValue,
    BuildFailure,
> {
    match r {
        Ok(v) => Ok(v@),
        Err(e) => Err(e@),
    }
}

/// The mathematical value of what [`StringyNode::build`] returns.
pub open spec fn build_outcome(r: Result<NodeId, BuildError>) -> Result<NodeId, BuildFailure> {
    match r {
        Ok(id) => Ok(id),
        Err(e) => Err(e@),
    }
}

impl StringOrSubnode {
    /// The typed value of kind `kind` that this value stands for.
    fn convert<C: NodeClass>(
        &self,
        kind: PropertyValueType,
        node: &[u8],
        place: Place,
        classes: &ClassRegistrar<C>,
        host: &HostReadings,
        tree: &mut Tree<NodeOf<C>>,
    ) -> (r: Result<PropertyValue, BuildError>)
        ensures
            convert_outcome(r) == convert(
                classes.classes@,
                host@,
                old(tree).views(),
                node@,
                place@,
                kind,
                self@,
            ).result,
            final(tree).views() == convert(
                classes.classes@,
                host@,
                old(tree).views(),
                node@,
                place@,
                kind,
                self@,
            ).arena,
        decreases self, 0nat,
    {
        match self {
            StringOrSubnode::Subnode(child) => {
                if kind == PropertyValueType::ChildNode {
                    match child.build_impl(classes, host, tree) {
                        Ok(id) => Ok(PropertyValue::ChildNode(id)),
                        Err(e) => Err(e),
                    }
                } else {
                    Err(BuildError::SubnodeNotExpected { node: copy_bytes(node), place })
                }
            },
            StringOrSubnode::Str(x) => {
                if kind == PropertyValueType::ChildNode {
                    Err(BuildError::SubnodeExpected { node: copy_bytes(node), place })
                } else {
                    match kind.interpret(x.as_slice(), host) {
                        Ok(value) => Ok(value),
                        Err(cause) => Err(
                            BuildError::Coercion {
                                node: copy_bytes(node),
                                place,
                                value: copy_bytes(x.as_slice()),
                                cause,
                            },
                        ),
                    }
                }
            },
        }
    }
}

impl StringyNode {
    fn build_impl<C: NodeClass>(
        &self,
        classes: &ClassRegistrar<C>,
        host: &HostReadings,
        tree: &mut Tree<NodeOf<C>>,
    ) -> (r: Result<NodeId, BuildError>)
        ensures
            build_outcome(r) == build_node(classes.classes@, host@, old(tree).views(), self@).result,
            final(tree).views() == build_node(
                classes.classes@,
                host@,
                old(tree).views(),
                self@,
            ).arena,
        decreases self, 1nat,
    {
        let name = self.name.0.as_slice();
        let class = match classes.lookup(name) {
            Some(class) => class,
            None => {
                return Err(BuildError::UnknownNodeType { node: copy_bytes(name) });
            },
        };
        let declared = class.properties();
        let mut builder = class.new_node();
        let ghost all = classes.classes@;
        let ghost with_properties = fill_properties(
            all,
            host@,
            old(tree).views(),
            self@,
            *class,
            0,
            builder@,
        );
        let mut i: usize = 0;
        while i < self.properties.len()
            invariant
                i <= self.properties.len(),
                name@ == self@.name,
                all == classes.classes@,
                infos_view(declared@) == class.properties_spec(),
                class_named(all, self@.name) == Some(*class),
                with_properties == fill_properties(
                    all,
                    host@,
                    old(tree).views(),
                    self@,
                    *class,
                    0,
                    class.new_node_spec(),
                ),
                with_properties == fill_properties(
                    all,
                    host@,
                    tree.views(),
                    self@,
                    *class,
                    i as int,
                    builder@,
                ),
            decreases self.properties.len() - i,
        {
            let key = self.properties[i].0.0.as_slice();
            assert(self@.properties[i as int] == (key@, self.properties@[i as int].1@));
            let kind = match find_kind(&declared, key) {
                Some(kind) => kind,
                None => {
                    return Err(
                        BuildError::UnknownProperty {
                            node: copy_bytes(name),
                            property: copy_bytes(key),
                        },
                    );
                },
            };
            let value = match self.properties[i].1.convert(
                kind,
                name,
                Place::Property(copy_bytes(key)),
                classes,
                host,
                tree,
            ) {
                Ok(value) => value,
                Err(e) => {
                    return Err(e);
                },
            };
            match builder.set_property(key, value) {
                Ok(()) => {},
                Err(refusal) => {
                    return Err(
                        BuildError::Rejected {
                            node: copy_bytes(name),
                            place: Place::Property(copy_bytes(key)),
                            refusal,
                        },
                    );
                },
            }
            i += 1;
        }
        let element_kind = class.array_type();
        let ghost with_elements = fill_elements(all, host@, tree.views(), self@, *class, 0, builder@);
        let mut j: usize = 0;
        while j < self.array.len()
            invariant
                j <= self.array.len(),
                name@ == self@.name,
                all == classes.classes@,
                element_kind == class.array_type_spec(),
                class_named(all, self@.name) == Some(*class),
                with_properties == fill_properties(
                    all,
                    host@,
                    old(tree).views(),
                    self@,
                    *class,
                    0,
                    class.new_node_spec(),
                ),
                with_properties.result is Ok,
                with_elements == fill_elements(
                    all,
                    host@,
                    with_properties.arena,
                    self@,
                    *class,
                    0,
                    with_properties.result->Ok_0,
                ),
                with_elements == fill_elements(
                    all,
                    host@,
                    tree.views(),
                    self@,
                    *class,
                    j as int,
                    builder@,
                ),
            decreases self.array.len() - j,
        {
            assert(self@.array[j as int] == self.array@[j as int]@);
            let kind = match element_kind {
                Some(kind) => kind,
                None => {
                    return Err(BuildError::ArrayNotSupported { node: copy_bytes(name) });
                },
            };
            let value = match self.array[j].convert(
                kind,
                name,
                Place::Element(j),
                classes,
                host,
                tree,
            ) {
                Ok(value) => value,
                Err(e) => {
                    return Err(e);
                },
            };
            match builder.push_array_element(value) {
                Ok(()) => {},
                Err(refusal) => {
                    return Err(
                        BuildError::Rejected {
                            node: copy_bytes(name),
                            place: Place::Element(j),
                            refusal,
                        },
                    );
                },
            }
            j += 1;
        }
        match builder.finish() {
            Ok(node) => {
                let ghost before = tree.views();
                let id = tree.insert(node);
                assert(tree.views() =~= before.push(node@));
                Ok(id)
            },
            Err(refusal) => Err(
                BuildError::Rejected { node: copy_bytes(name), place: Place::Node, refusal },
            ),
        }
    }

    /// Builds this node against `classes`: the typed nodes are inserted in
    /// `tree`, nested nodes before the node that holds them, and the handle
    /// of the node built from this one is returned. Where a fault is found
    /// the nodes inserted before it stay in `tree`.
    pub fn build<C: NodeClass>(
        &self,
        classes: &ClassRegistrar<C>,
        host: &HostReadings,
        tree: &mut Tree<NodeOf<C>>,
    ) -> (r: Result<NodeId, BuildError>)
        ensures
            build_outcome(r) == build_node(classes.classes@, host@, old(tree).views(), self@).result,
            final(tree).views() == build_node(
                classes.classes@,
                host@,
                old(tree).views(),
                self@,
            ).arena,
            extends(final(tree).views(), old(tree).views()),
            r matches Ok(id) ==> final(tree).contains(id) && id.0 + 1 == final(tree)@.len(),
    {
        let r = self.build_impl(classes, host, tree);
        let held = tree.len();
        proof {
            lemma_build_grows(classes.classes@, host@, old(tree).views(), self@);
            assert(tree.views().len() == held);
        }
        r
    }
}

/// Whether `arena` starts with the nodes of `before`, in their places.
pub open spec fn extends<N>(arena: Seq<N>, before: Seq<N>) -> bool {
    before.len() <= arena.len() && arena.subrange(0, before.len() as int) == before
}

/// What starts with a start of an arena starts with the arena's own start.
pub proof fn lemma_extends_chain<N>(last: Seq<N>, middle: Seq<N>, first: Seq<N>)
    requires
        extends(last, middle),
        extends(middle, first),
    ensures
        extends(last, first),
{
    assert(last.subrange(0, first.len() as int) =~= last.subrange(0, middle.len() as int).subrange(
        0,
        first.len() as int,
    ));
}

/// Converting a value leaves the nodes of the arena in their places, and
/// a child node that comes out of it stands in the arena.
pub proof fn lemma_convert_grows<C: NodeClass>(
    classes: Seq<C>,
    host: Seq<(Seq<u8>, HostReadingView)>,
    arena: Seq<NodeView<C>>,
    node: Seq<u8>,
    place: PlaceSpec,
    kind: PropertyValueType,
    v: SurfaceValue,
)
    ensures
        extends(convert(classes, host, arena, node, place, kind, v).arena, arena),
        arena.len() < usize::MAX ==> match convert(
            classes,
            host,
            arena,
            node,
            place,
            kind,
            v,
        ).result {
            Ok(TypedValue::ChildNode(id)) => id.0 < convert(
                classes,
                host,
                arena,
                node,
                place,
                kind,
                v,
            ).arena.len(),
            _ => true,
        },
    decreases v, 0nat, 0nat,
{
    assert(arena.subrange(0, arena.len() as int) =~= arena);
    match v {
        SurfaceValue::Subnode(child) => {
            if kind is ChildNode {
                lemma_build_grows(classes, host, arena, *child);
            }
        },
        SurfaceValue::Str(x) => {},
    }
}

/// Setting the properties leaves the nodes of the arena in their places.
pub proof fn lemma_fill_properties_grows<C: NodeClass>(
    classes: Seq<C>,
    host: Seq<(Seq<u8>, HostReadingView)>,
    arena: Seq<NodeView<C>>,
    n: SurfaceNode,
    class: C,
    i: int,
    builder: BuilderView<C>,
)
    ensures
        extends(fill_properties(classes, host, arena, n, class, i, builder).arena, arena),
    decreases n, 1nat, n.properties.len() - i,
{
    assert(arena.subrange(0, arena.len() as int) =~= arena);
    if 0 <= i < n.properties.len() {
        let key = n.properties[i].0;
        match declared_kind(class.properties_spec(), key) {
            None => {},
            Some(kind) => {
                let place = PlaceSpec::Property(key);
                let item = convert(classes, host, arena, n.name, place, kind, n.properties[i].1);
                lemma_convert_grows(classes, host, arena, n.name, place, kind, n.properties[i].1);
                match item.result {
                    Err(e) => {},
                    Ok(value) => match <C::Builder as NodeBuilder>::set_property_spec(
                        builder,
                        key,
                        value,
                    ) {
                        Err(cause) => {},
                        Ok(next) => {
                            lemma_fill_properties_grows(
                                classes,
                                host,
                                item.arena,
                                n,
                                class,
                                i + 1,
                                next,
                            );
                            lemma_extends_chain(
                                fill_properties(classes, host, item.arena, n, class, i + 1, next).arena,
                                item.arena,
                                arena,
                            );
                        },
                    },
                }
            },
        }
    }
}

/// Pushing the positional values leaves the nodes of the arena in their places.
pub proof fn lemma_fill_elements_grows<C: NodeClass>(
    classes: Seq<C>,
    host: Seq<(Seq<u8>, HostReadingView)>,
    arena: Seq<NodeView<C>>,
    n: SurfaceNode,
    class: C,
    j: int,
    builder: BuilderView<C>,
)
    ensures
        extends(fill_elements(classes, host, arena, n, class, j, builder).arena, arena),
    decreases n, 0nat, n.array.len() - j,
{
    assert(arena.subrange(0, arena.len() as int) =~= arena);
    if 0 <= j < n.array.len() {
        match class.array_type_spec() {
            None => {},
            Some(kind) => {
                let place = PlaceSpec::Element(j as usize);
                let item = convert(classes, host, arena, n.name, place, kind, n.array[j]);
                lemma_convert_grows(classes, host, arena, n.name, place, kind, n.array[j]);
                match item.result {
                    Err(e) => {},
                    Ok(value) => match <C::Builder as NodeBuilder>::push_array_element_spec(
                        builder,
                        value,
                    ) {
                        Err(cause) => {},
                        Ok(next) => {
                            lemma_fill_elements_grows(classes, host, item.arena, n, class, j + 1, next);
                            lemma_extends_chain(
                                fill_elements(classes, host, item.arena, n, class, j + 1, next).arena,
                                item.arena,
                                arena,
                            );
                        },
                    },
                }
            },
        }
    }
}

/// Building a node leaves the nodes of the arena in their places, and the
/// handle that a successful build gives is that of the last node of the
/// arena as it then stands.
pub proof fn lemma_build_grows<C: NodeClass>(
    classes: Seq<C>,
    host: Seq<(Seq<u8>, HostReadingView)>,
    arena: Seq<NodeView<C>>,
    n: SurfaceNode,
)
    ensures
        extends(build_node(classes, host, arena, n).arena, arena),
        build_node(classes, host, arena, n).result matches Ok(id) ==> {
            &&& arena.len() < build_node(classes, host, arena, n).arena.len()
            &&& (arena.len() < usize::MAX ==> id.0 < build_node(classes, host, arena, n).arena.len())
            &&& (build_node(classes, host, arena, n).arena.len() <= usize::MAX ==> id.0 + 1
                == build_node(classes, host, arena, n).arena.len())
        },
    decreases n, 2nat, 0nat,
{
    assert(arena.subrange(0, arena.len() as int) =~= arena);
    match class_named(classes, n.name) {
        None => {},
        Some(class) => {
            let first = class.new_node_spec();
            let with_properties = fill_properties(classes, host, arena, n, class, 0, first);
            lemma_fill_properties_grows(classes, host, arena, n, class, 0, first);
            match with_properties.result {
                Err(e) => {},
                Ok(second) => {
                    let with_elements = fill_elements(
                        classes,
                        host,
                        with_properties.arena,
                        n,
                        class,
                        0,
                        second,
                    );
                    lemma_fill_elements_grows(
                        classes,
                        host,
                        with_properties.arena,
                        n,
                        class,
                        0,
                        second,
                    );
                    lemma_extends_chain(with_elements.arena, with_properties.arena, arena);
                    match with_elements.result {
                        Err(e) => {},
                        Ok(third) => match <C::Builder as NodeBuilder>::finish_spec(third) {
                            Err(cause) => {},
                            Ok(node) => {
                                let last = with_elements.arena.push(node);
                                assert(last.subrange(0, arena.len() as int)
                                    =~= with_elements.arena.subrange(0, arena.len() as int));
                            },
                        },
                    }
                },
            }
        },
    }
}

} // verus!
