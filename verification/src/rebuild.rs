//! Trees of records that go through text and come back.
//!
//! A typed tree of records, turned back into a surface tree, printed, read
//! and built again, gives a typed tree that turns back into the same
//! surface tree: the two typed trees have the same classes, the same
//! properties with the same values, and children of which the same holds.

use vstd::prelude::*;
use crate::builder::{
    build_node, convert, extends, fill_elements, fill_properties, lemma_build_grows,
    lemma_convert_grows, lemma_extends_chain, lemma_fill_elements_grows, lemma_fill_properties_grows, PlaceSpec,
};
use crate::class::{class_named, declared_kind, NodeBuilder, NodeClass, ParsedNode, PropertySpec};
use crate::grammar::ParseFailure;
use crate::host::HostReadingView;
use crate::interpret::interpret_spec;
use crate::lexeme::is_identifier;
use crate::parser::parse;
use crate::printer::print_node;
use crate::record::{
    entry_index, lemma_entry_index_found, record_set, RecordClass, RecordNode, RecordView,
};
use crate::reverser::{
    reverse_elements, reverse_node, reverse_properties, reverse_value, ReverseFailure,
};
use crate::roundtrip::theorem_print_then_parse;
use crate::surface::{SurfaceNode, SurfaceValue};
use crate::value::{value_text, NodeId, PropertyValueType, TypedValue};

verus! {

/// The mathematical values of the records of an arena, in order.
pub open spec fn records_view(nodes: Seq<RecordNode>) -> Seq<RecordView> {
    Seq::new(nodes.len(), |i: int| nodes[i]@)
}

/// No name is declared twice.
pub open spec fn distinct_names(declared: Seq<PropertySpec>) -> bool {
    forall|a: int, b: int|
        0 <= a < b < declared.len() ==> (#[trigger] declared[a]).name != (
        #[trigger] declared[b]).name
}

/// The keys of the properties from index `j` on are declared, from index
/// `i` on and in the order of declaration.
pub open spec fn selected(
    declared: Seq<PropertySpec>,
    properties: Seq<(Seq<u8>, SurfaceValue)>,
    i: int,
    j: int,
) -> bool
    decreases declared.len() - i,
{
    if j >= properties.len() {
        true
    } else if i < 0 || i >= declared.len() {
        false
    } else if declared[i].name == properties[j].0 {
        selected(declared, properties, i + 1, j + 1)
    } else {
        selected(declared, properties, i + 1, j)
    }
}

/// A surface value as a typed value of kind `kind` has it: a nested node
/// that is itself canonical where a child node is declared, and elsewhere
/// a string that is the text of the value that it denotes.
pub open spec fn canonical_value(
    classes: Seq<RecordClass>,
    host: Seq<(Seq<u8>, HostReadingView)>,
    kind: PropertyValueType,
    v: SurfaceValue,
) -> bool
    decreases v, 0nat,
{
    match v {
        SurfaceValue::Subnode(child) => kind is ChildNode && canonical(classes, host, *child),
        SurfaceValue::Str(x) => !(kind is ChildNode) && (interpret_spec(kind, x, host) matches Ok(
            value,
        ) && value_text(value) == Some(x)),
    }
}

/// A surface tree as turning a typed tree of records back gives it: the
/// class of each node is registered and declares no name twice, the
/// properties are declared and stand in the order of declaration, there
/// are positional values only where the class takes them, and each value
/// is canonical for its declared kind.
pub open spec fn canonical(
    classes: Seq<RecordClass>,
    host: Seq<(Seq<u8>, HostReadingView)>,
    t: SurfaceNode,
) -> bool
    decreases t, 1nat,
{
    match class_named(classes, t.name) {
        None => false,
        Some(class) => {
            &&& distinct_names(class.properties_spec())
            &&& selected(class.properties_spec(), t.properties, 0, 0)
            &&& forall|j: int|
                0 <= j < t.properties.len() ==> (declared_kind(
                    class.properties_spec(),
                    (#[trigger] t.properties[j]).0,
                ) matches Some(kind) && canonical_value(classes, host, kind, t.properties[j].1))
            &&& (t.array.len() > 0 ==> class.array_type_spec() is Some)
            &&& forall|j: int|
                0 <= j < t.array.len() ==> canonical_value(
                    classes,
                    host,
                    class.array_type_spec()->0,
                    #[trigger] t.array[j],
                )
        },
    }
}

proof fn lemma_class_named(classes: Seq<RecordClass>, name: Seq<u8>)
    ensures
        class_named(classes, name) matches Some(class) ==> class.name@ == name,
    decreases classes.len(),
{
    if classes.len() > 0 {
        lemma_class_named(classes.drop_last(), name);
    }
}

proof fn lemma_declared_kind(declared: Seq<PropertySpec>, i: int)
    requires
        distinct_names(declared),
        0 <= i < declared.len(),
    ensures
        declared_kind(declared, declared[i].name) == Some(declared[i].kind),
    decreases declared.len(),
{
    if i < declared.len() - 1 {
        let shorter = declared.drop_last();
        assert(declared[declared.len() - 1].name != declared[i].name);
        assert forall|a: int, b: int| 0 <= a < b < shorter.len() implies (#[trigger] shorter[a]).name
            != (#[trigger] shorter[b]).name by {
            assert(shorter[a] == declared[a]);
            assert(shorter[b] == declared[b]);
        }
        assert(shorter[i] == declared[i]);
        lemma_declared_kind(shorter, i);
    }
}

proof fn lemma_entry_absent(entries: Seq<(Seq<u8>, TypedValue)>, name: Seq<u8>)
    requires
        forall|j: int| 0 <= j < entries.len() ==> (#[trigger] entries[j]).0 != name,
    ensures
        entry_index(entries, name) is None,
    decreases entries.len(),
{
    if entries.len() > 0 {
        let shorter = entries.drop_last();
        assert forall|j: int| 0 <= j < shorter.len() implies (#[trigger] shorter[j]).0 != name by {
            assert(shorter[j] == entries[j]);
        }
        lemma_entry_absent(shorter, name);
        assert(entries.last() == entries[entries.len() - 1]);
    }
}

proof fn lemma_entry_first(entries: Seq<(Seq<u8>, TypedValue)>, name: Seq<u8>, j: int)
    requires
        0 <= j < entries.len(),
        entries[j].0 == name,
        forall|k: int| 0 <= k < j ==> (#[trigger] entries[k]).0 != name,
    ensures
        entry_index(entries, name) == Some(j),
{
    let before = entries.subrange(0, j);
    assert forall|k: int| 0 <= k < before.len() implies (#[trigger] before[k]).0 != name by {
        assert(before[k] == entries[k]);
    }
    lemma_entry_absent(before, name);
    lemma_entry_index_found(entries, name, j);
}

/// A key that is selected is declared.
proof fn lemma_selected_declared(
    declared: Seq<PropertySpec>,
    properties: Seq<(Seq<u8>, SurfaceValue)>,
    i: int,
    j: int,
    k: int,
) -> (at: int)
    requires
        selected(declared, properties, i, j),
        0 <= i,
        0 <= j <= k < properties.len(),
    ensures
        i <= at < declared.len(),
        declared[at].name == properties[k].0,
    decreases declared.len() - i,
{
    if declared[i].name == properties[j].0 {
        if k == j {
            i
        } else {
            lemma_selected_declared(declared, properties, i + 1, j + 1, k)
        }
    } else {
        lemma_selected_declared(declared, properties, i + 1, j, k)
    }
}

/// No key stands before index `j` that is declared at index `i` or later.
pub open spec fn passed(
    declared: Seq<PropertySpec>,
    properties: Seq<(Seq<u8>, SurfaceValue)>,
    i: int,
    j: int,
) -> bool {
    forall|k: int, at: int|
        0 <= k < j && k < properties.len() && i <= at < declared.len() ==> (
        #[trigger] declared[at]).name != (#[trigger] properties[k]).0
}

/// Keys that are selected from distinct names are distinct.
proof fn lemma_selected_distinct(
    declared: Seq<PropertySpec>,
    properties: Seq<(Seq<u8>, SurfaceValue)>,
    i: int,
    j: int,
    a: int,
    b: int,
)
    requires
        distinct_names(declared),
        selected(declared, properties, i, j),
        passed(declared, properties, i, j),
        0 <= i,
        0 <= j,
        0 <= a < b < properties.len(),
        j <= b,
    ensures
        properties[a].0 != properties[b].0,
    decreases declared.len() - i,
{
    if declared[i].name == properties[j].0 {
        assert(passed(declared, properties, i + 1, j + 1)) by {
            assert forall|k: int, at: int|
                0 <= k < j + 1 && k < properties.len() && i + 1 <= at < declared.len() implies (
            #[trigger] declared[at]).name != (#[trigger] properties[k]).0 by {
                if k == j {
                    assert(declared[i].name != declared[at].name);
                }
            }
        }
        if b == j {
            assert(declared[i].name != properties[a].0);
        } else {
            lemma_selected_distinct(declared, properties, i + 1, j + 1, a, b);
        }
    } else {
        lemma_selected_distinct(declared, properties, i + 1, j, a, b);
    }
}

/// The kind under which the key of property `j` of `t` is declared.
pub open spec fn kind_of_property(class: RecordClass, t: SurfaceNode, j: int) -> PropertyValueType {
    declared_kind(class.properties_spec(), t.properties[j].0)->0
}

/// What the properties of a canonical node are built into turns back into them.
proof fn lemma_fill_properties_rebuilt(
    classes: Seq<RecordClass>,
    host: Seq<(Seq<u8>, HostReadingView)>,
    arena: Seq<RecordView>,
    t: SurfaceNode,
    class: RecordClass,
    i: int,
    builder: RecordView,
    nodes: Seq<RecordNode>,
    budget: nat,
)
    requires
        canonical(classes, host, t),
        class_named(classes, t.name) == Some(class),
        0 <= i <= t.properties.len(),
        builder.properties.len() == i,
        forall|j: int|
            0 <= j < i ==> (#[trigger] builder.properties[j]).0 == t.properties[j].0
                && reverse_value(
                nodes,
                budget,
                t.name,
                PlaceSpec::Property(t.properties[j].0),
                kind_of_property(class, t, j),
                builder.properties[j].1,
            ) == Ok::<SurfaceValue, ReverseFailure>(t.properties[j].1),
        fill_properties(classes, host, arena, t, class, i, builder).arena.len() <= usize::MAX,
        extends(
            records_view(nodes),
            fill_properties(classes, host, arena, t, class, i, builder).arena,
        ),
        budget >= fill_properties(classes, host, arena, t, class, i, builder).arena.len(),
    ensures
        fill_properties(classes, host, arena, t, class, i, builder).result matches Ok(last) && {
            &&& last.class == builder.class
            &&& last.array == builder.array
            &&& last.properties.len() == t.properties.len()
            &&& forall|j: int|
                0 <= j < t.properties.len() ==> (#[trigger] last.properties[j]).0
                    == t.properties[j].0 && reverse_value(
                    nodes,
                    budget,
                    t.name,
                    PlaceSpec::Property(t.properties[j].0),
                    kind_of_property(class, t, j),
                    last.properties[j].1,
                ) == Ok::<SurfaceValue, ReverseFailure>(t.properties[j].1)
        },
    decreases t, 1nat, t.properties.len() - i,
{
    if i < t.properties.len() {
        let declared = class.properties_spec();
        let key = t.properties[i].0;
        let v = t.properties[i].1;
        let kind = kind_of_property(class, t, i);
        let place = PlaceSpec::Property(key);
        let item = convert(classes, host, arena, t.name, place, kind, v);
        let whole = fill_properties(classes, host, arena, t, class, i, builder).arena;
        lemma_convert_grows(classes, host, arena, t.name, place, kind, v);
        assert(canonical_value(classes, host, kind, v));
        match item.result {
            Err(e) => {
                lemma_value_rebuilt(classes, host, arena, t.name, place, kind, v, nodes, budget);
            },
            Ok(value) => {
                assert(entry_index(builder.properties, key) is None) by {
                    assert forall|k: int| 0 <= k < builder.properties.len() implies (
                    #[trigger] builder.properties[k]).0 != key by {
                        assert(passed(declared, t.properties, 0, 0));
                        lemma_selected_distinct(declared, t.properties, 0, 0, k, i);
                    }
                    lemma_entry_absent(builder.properties, key);
                }
                let next = RecordView { properties: builder.properties.push((key, value)), ..builder };
                assert(record_set(builder, key, value) == Ok::<RecordView, Seq<u8>>(next));
                lemma_fill_properties_grows(classes, host, item.arena, t, class, i + 1, next);
                lemma_extends_chain(records_view(nodes), whole, item.arena);
                lemma_value_rebuilt(classes, host, arena, t.name, place, kind, v, nodes, budget);
                lemma_fill_properties_rebuilt(
                    classes,
                    host,
                    item.arena,
                    t,
                    class,
                    i + 1,
                    next,
                    nodes,
                    budget,
                );
            },
        }
    }
}

/// What the positional values of a canonical node are built into turns
/// back into them.
proof fn lemma_fill_elements_rebuilt(
    classes: Seq<RecordClass>,
    host: Seq<(Seq<u8>, HostReadingView)>,
    arena: Seq<RecordView>,
    t: SurfaceNode,
    class: RecordClass,
    j: int,
    builder: RecordView,
    nodes: Seq<RecordNode>,
    budget: nat,
)
    requires
        canonical(classes, host, t),
        class_named(classes, t.name) == Some(class),
        0 <= j <= t.array.len(),
        builder.array.len() == j,
        forall|k: int|
            0 <= k < j ==> reverse_value(
                nodes,
                budget,
                t.name,
                PlaceSpec::Element(k as usize),
                class.array_type_spec()->0,
                #[trigger] builder.array[k],
            ) == Ok::<SurfaceValue, ReverseFailure>(t.array[k]),
        fill_elements(classes, host, arena, t, class, j, builder).arena.len() <= usize::MAX,
        extends(records_view(nodes), fill_elements(classes, host, arena, t, class, j, builder).arena),
        budget >= fill_elements(classes, host, arena, t, class, j, builder).arena.len(),
    ensures
        fill_elements(classes, host, arena, t, class, j, builder).result matches Ok(last) && {
            &&& last.class == builder.class
            &&& last.properties == builder.properties
            &&& last.array.len() == t.array.len()
            &&& forall|k: int|
                0 <= k < t.array.len() ==> reverse_value(
                    nodes,
                    budget,
                    t.name,
                    PlaceSpec::Element(k as usize),
                    class.array_type_spec()->0,
                    #[trigger] last.array[k],
                ) == Ok::<SurfaceValue, ReverseFailure>(t.array[k])
        },
    decreases t, 0nat, t.array.len() - j,
{
    if j < t.array.len() {
        let kind = class.array_type_spec()->0;
        let v = t.array[j];
        let place = PlaceSpec::Element(j as usize);
        let item = convert(classes, host, arena, t.name, place, kind, v);
        let whole = fill_elements(classes, host, arena, t, class, j, builder).arena;
        lemma_convert_grows(classes, host, arena, t.name, place, kind, v);
        assert(canonical_value(classes, host, kind, v));
        match item.result {
            Err(e) => {
                lemma_value_rebuilt(classes, host, arena, t.name, place, kind, v, nodes, budget);
            },
            Ok(value) => {
                let next = RecordView { array: builder.array.push(value), ..builder };
                lemma_fill_elements_grows(classes, host, item.arena, t, class, j + 1, next);
                lemma_extends_chain(records_view(nodes), whole, item.arena);
                lemma_value_rebuilt(classes, host, arena, t.name, place, kind, v, nodes, budget);
                lemma_fill_elements_rebuilt(
                    classes,
                    host,
                    item.arena,
                    t,
                    class,
                    j + 1,
                    next,
                    nodes,
                    budget,
                );
            },
        }
    }
}

/// What a canonical value is converted into turns back into it.
proof fn lemma_value_rebuilt(
    classes: Seq<RecordClass>,
    host: Seq<(Seq<u8>, HostReadingView)>,
    arena: Seq<RecordView>,
    node: Seq<u8>,
    place: PlaceSpec,
    kind: PropertyValueType,
    v: SurfaceValue,
    nodes: Seq<RecordNode>,
    budget: nat,
)
    requires
        canonical_value(classes, host, kind, v),
        convert(classes, host, arena, node, place, kind, v).arena.len() <= usize::MAX,
        extends(records_view(nodes), convert(classes, host, arena, node, place, kind, v).arena),
        budget >= convert(classes, host, arena, node, place, kind, v).arena.len(),
    ensures
        convert(classes, host, arena, node, place, kind, v).result matches Ok(value)
            && reverse_value(nodes, budget, node, place, kind, value) == Ok::<
            SurfaceValue,
            ReverseFailure,
        >(v),
    decreases v, 0nat, 0nat,
{
    match v {
        SurfaceValue::Subnode(child) => {
            lemma_node_rebuilt(classes, host, arena, *child, nodes, budget);
        },
        SurfaceValue::Str(x) => {},
    }
}

/// The properties of a record that was built of a canonical node turn
/// back into the properties of the node.
proof fn lemma_reverse_properties(
    nodes: Seq<RecordNode>,
    budget: nat,
    n: RecordNode,
    t: SurfaceNode,
    class: RecordClass,
    i: int,
    j: int,
)
    requires
        n.class@ == class@,
        distinct_names(class.properties_spec()),
        selected(class.properties_spec(), t.properties, i, j),
        passed(class.properties_spec(), t.properties, i, j),
        0 <= i,
        0 <= j <= t.properties.len(),
        n@.properties.len() == t.properties.len(),
        forall|k: int|
            0 <= k < t.properties.len() ==> (#[trigger] n@.properties[k]).0 == t.properties[k].0
                && reverse_value(
                nodes,
                budget,
                t.name,
                PlaceSpec::Property(t.properties[k].0),
                kind_of_property(class, t, k),
                n@.properties[k].1,
            ) == Ok::<SurfaceValue, ReverseFailure>(t.properties[k].1),
    ensures
        reverse_properties(nodes, budget, n, t.name, class.properties_spec(), i) == Ok::<
            Seq<(Seq<u8>, SurfaceValue)>,
            ReverseFailure,
        >(t.properties.subrange(j, t.properties.len() as int)),
    decreases class.properties_spec().len() - i,
{
    let declared = class.properties_spec();
    let entries = n@.properties;
    let p = t.properties.len() as int;
    if i < declared.len() {
        let key = declared[i].name;
        if j < p && key == t.properties[j].0 {
            assert forall|k: int| 0 <= k < j implies (#[trigger] entries[k]).0 != key by {
                assert(declared[i].name != t.properties[k].0);
            }
            lemma_entry_first(entries, key, j);
            lemma_declared_kind(declared, i);
            assert(passed(declared, t.properties, i + 1, j + 1)) by {
                assert forall|k: int, at: int|
                    0 <= k < j + 1 && k < t.properties.len() && i + 1 <= at
                        < declared.len() implies (#[trigger] declared[at]).name != (
                #[trigger] t.properties[k]).0 by {
                    if k == j {
                        assert(declared[i].name != declared[at].name);
                    }
                }
            }
            lemma_reverse_properties(nodes, budget, n, t, class, i + 1, j + 1);
            assert(seq![(key, t.properties[j].1)] + t.properties.subrange(j + 1, p)
                =~= t.properties.subrange(j, p));
        } else {
            assert forall|k: int| 0 <= k < entries.len() implies (#[trigger] entries[k]).0
                != key by {
                if k < j {
                    assert(declared[i].name != t.properties[k].0);
                } else {
                    let at = lemma_selected_declared(declared, t.properties, i + 1, j, k);
                    assert(declared[i].name != declared[at].name);
                }
            }
            lemma_entry_absent(entries, key);
            lemma_reverse_properties(nodes, budget, n, t, class, i + 1, j);
        }
    } else {
        assert(t.properties.subrange(j, p) =~= Seq::empty());
    }
}

/// The array elements of a record that was built of a canonical node
/// turn back into the positional values of the node.
proof fn lemma_reverse_elements(
    nodes: Seq<RecordNode>,
    budget: nat,
    t: SurfaceNode,
    kind: Option<PropertyValueType>,
    elements: Seq<TypedValue>,
    j: int,
)
    requires
        0 <= j <= t.array.len(),
        elements.len() == t.array.len(),
        t.array.len() > 0 ==> kind is Some,
        forall|k: int|
            0 <= k < t.array.len() ==> reverse_value(
                nodes,
                budget,
                t.name,
                PlaceSpec::Element(k as usize),
                kind->0,
                #[trigger] elements[k],
            ) == Ok::<SurfaceValue, ReverseFailure>(t.array[k]),
    ensures
        reverse_elements(nodes, budget, t.name, kind, elements, j) == Ok::<
            Seq<SurfaceValue>,
            ReverseFailure,
        >(t.array.subrange(j, t.array.len() as int)),
    decreases t.array.len() - j,
{
    let q = t.array.len() as int;
    if j < q {
        assert(elements[j] == elements[j]);
        lemma_reverse_elements(nodes, budget, t, kind, elements, j + 1);
        assert(seq![t.array[j]] + t.array.subrange(j + 1, q) =~= t.array.subrange(j, q));
    } else {
        assert(t.array.subrange(j, q) =~= Seq::empty());
    }
}

/// A canonical node is built, and the record built of it turns back
/// into the node, in the arena as it stands right after and in every
/// arena that this one grows into.
pub proof fn lemma_node_rebuilt(
    classes: Seq<RecordClass>,
    host: Seq<(Seq<u8>, HostReadingView)>,
    arena: Seq<RecordView>,
    t: SurfaceNode,
    nodes: Seq<RecordNode>,
    budget: nat,
)
    requires
        canonical(classes, host, t),
        build_node(classes, host, arena, t).arena.len() <= usize::MAX,
        extends(records_view(nodes), build_node(classes, host, arena, t).arena),
        budget >= build_node(classes, host, arena, t).arena.len(),
    ensures
        build_node(classes, host, arena, t).result matches Ok(id) && id.0 + 1 == build_node(
            classes,
            host,
            arena,
            t,
        ).arena.len() && reverse_node(nodes, id, budget) == Ok::<SurfaceNode, ReverseFailure>(t),
    decreases t, 2nat, 0nat,
{
    let class = class_named(classes, t.name)->0;
    lemma_class_named(classes, t.name);
    let first = class.new_node_spec();
    let with_properties = fill_properties(classes, host, arena, t, class, 0, first);
    let whole = build_node(classes, host, arena, t).arena;
    let left = (budget - 1) as nat;
    lemma_build_grows(classes, host, arena, t);
    lemma_fill_properties_grows(classes, host, arena, t, class, 0, first);
    match with_properties.result {
        Err(e) => {
            lemma_fill_properties_rebuilt(classes, host, arena, t, class, 0, first, nodes, budget);
        },
        Ok(second) => {
            let with_elements = fill_elements(
                classes,
                host,
                with_properties.arena,
                t,
                class,
                0,
                second,
            );
            lemma_fill_elements_grows(classes, host, with_properties.arena, t, class, 0, second);
            match with_elements.result {
                Err(e) => {
                    lemma_extends_chain(records_view(nodes), whole, with_properties.arena);
                    lemma_fill_properties_rebuilt(
                        classes,
                        host,
                        arena,
                        t,
                        class,
                        0,
                        first,
                        nodes,
                        budget,
                    );
                    lemma_fill_elements_rebuilt(
                        classes,
                        host,
                        with_properties.arena,
                        t,
                        class,
                        0,
                        second,
                        nodes,
                        budget,
                    );
                },
                Ok(third) => {
                    assert(whole == with_elements.arena.push(third));
                    assert(extends(whole, with_elements.arena)) by {
                        assert(whole.subrange(0, with_elements.arena.len() as int)
                            =~= with_elements.arena);
                    }
                    lemma_extends_chain(records_view(nodes), whole, with_elements.arena);
                    lemma_extends_chain(
                        records_view(nodes),
                        with_elements.arena,
                        with_properties.arena,
                    );
                    lemma_fill_properties_rebuilt(
                        classes,
                        host,
                        arena,
                        t,
                        class,
                        0,
                        first,
                        nodes,
                        left,
                    );
                    lemma_fill_elements_rebuilt(
                        classes,
                        host,
                        with_properties.arena,
                        t,
                        class,
                        0,
                        second,
                        nodes,
                        left,
                    );
                    let id = NodeId(with_elements.arena.len() as usize);
                    let n = nodes[id.0 as int];
                    assert(n@ == third) by {
                        assert(records_view(nodes).subrange(0, whole.len() as int)[id.0 as int]
                            == whole[id.0 as int]);
                    }
                    assert(passed(class.properties_spec(), t.properties, 0, 0));
                    lemma_reverse_properties(nodes, left, n, t, class, 0, 0);
                    lemma_reverse_elements(nodes, left, t, n.class.array_type, n@.array, 0);
                    assert(t.properties.subrange(0, t.properties.len() as int) =~= t.properties);
                    assert(t.array.subrange(0, t.array.len() as int) =~= t.array);
                    assert(n.class_spec().properties_spec() == class.properties_spec());
                    assert(n.class_spec().official_name_spec() == t.name);
                },
            }
        },
    }
}

/// A typed value as a sound record of handle `owner` holds it under the
/// declared kind `kind`: a child node that was inserted before the record
/// where a child node is declared, and elsewhere a value that is no node,
/// has a text, and is read out of that text again.
pub open spec fn sound_value(
    host: Seq<(Seq<u8>, HostReadingView)>,
    kind: PropertyValueType,
    v: TypedValue,
    owner: NodeId,
) -> bool {
    match v {
        TypedValue::ChildNode(id) => kind is ChildNode && id.0 < owner.0,
        _ => !(kind is ChildNode) && (value_text(v) matches Some(text) && (interpret_spec(
            kind,
            text,
            host,
        ) matches Ok(again) && value_text(again) == Some(text))),
    }
}

/// The record with handle `id` is sound: its class is registered, the
/// name of the class and the names that it declares are identifiers, no
/// name is declared twice, the record has array elements only where the
/// class takes them, and each value that it holds is sound for its kind.
pub open spec fn sound_record(
    arena: Seq<RecordNode>,
    classes: Seq<RecordClass>,
    host: Seq<(Seq<u8>, HostReadingView)>,
    id: NodeId,
) -> bool {
    let n = arena[id.0 as int];
    let declared = n.class.properties_spec();
    &&& class_named(classes, n.class.name@) matches Some(class) && class@ == n.class@
    &&& is_identifier(n.class.name@)
    &&& distinct_names(declared)
    &&& forall|i: int|
        0 <= i < declared.len() ==> is_identifier((#[trigger] declared[i]).name) && (
        n.property_spec(declared[i].name) matches Some(v) ==> sound_value(
            host,
            declared[i].kind,
            v,
            id,
        ))
    &&& (n@.array.len() > 0 ==> n.class.array_type is Some)
    &&& forall|j: int|
        0 <= j < n@.array.len() ==> sound_value(
            host,
            n.class.array_type->0,
            #[trigger] n@.array[j],
            id,
        )
}

/// Every record of the arena up to the one with handle `root` is sound.
pub open spec fn sound_tree(
    arena: Seq<RecordNode>,
    classes: Seq<RecordClass>,
    host: Seq<(Seq<u8>, HostReadingView)>,
    root: NodeId,
) -> bool {
    root.0 < arena.len() && forall|id: NodeId|
        id.0 <= root.0 ==> #[trigger] sound_record(arena, classes, host, id)
}

proof fn lemma_selected_shift(
    declared: Seq<PropertySpec>,
    rest: Seq<(Seq<u8>, SurfaceValue)>,
    first: (Seq<u8>, SurfaceValue),
    i: int,
    j: int,
)
    requires
        selected(declared, rest, i, j),
        0 <= j,
    ensures
        selected(declared, seq![first] + rest, i, j + 1),
    decreases declared.len() - i,
{
    let longer = seq![first] + rest;
    if j < rest.len() {
        assert(longer[j + 1] == rest[j]);
        if declared[i].name == rest[j].0 {
            lemma_selected_shift(declared, rest, first, i + 1, j + 1);
        } else {
            lemma_selected_shift(declared, rest, first, i + 1, j);
        }
    }
}

/// A sound value turns back into a surface value that is well formed
/// and canonical for its kind.
proof fn lemma_value_reversed(
    arena: Seq<RecordNode>,
    classes: Seq<RecordClass>,
    host: Seq<(Seq<u8>, HostReadingView)>,
    budget: nat,
    node: Seq<u8>,
    place: PlaceSpec,
    kind: PropertyValueType,
    v: TypedValue,
    owner: NodeId,
)
    requires
        sound_tree(arena, classes, host, owner),
        sound_value(host, kind, v, owner),
        budget >= owner.0,
    ensures
        reverse_value(arena, budget, node, place, kind, v) matches Ok(value) && value.wf()
            && canonical_value(classes, host, kind, value),
    decreases owner.0, 0nat, 0nat,
{
    match v {
        TypedValue::ChildNode(id) => {
            assert forall|other: NodeId| other.0 <= id.0 implies #[trigger] sound_record(
                arena,
                classes,
                host,
                other,
            ) by {}
            lemma_node_reversed(arena, classes, host, id, budget);
        },
        _ => {},
    }
}

/// The properties of a sound record turn back into properties that are
/// well formed, declared, in the order of declaration, and canonical.
proof fn lemma_properties_reversed(
    arena: Seq<RecordNode>,
    classes: Seq<RecordClass>,
    host: Seq<(Seq<u8>, HostReadingView)>,
    budget: nat,
    root: NodeId,
    i: int,
)
    requires
        sound_tree(arena, classes, host, root),
        budget >= root.0,
        0 <= i,
    ensures
        reverse_properties(
            arena,
            budget,
            arena[root.0 as int],
            arena[root.0 as int].class.name@,
            arena[root.0 as int].class.properties_spec(),
            i,
        ) matches Ok(properties) && {
            &&& selected(arena[root.0 as int].class.properties_spec(), properties, i, 0)
            &&& forall|j: int|
                0 <= j < properties.len() ==> {
                    &&& is_identifier((#[trigger] properties[j]).0)
                    &&& properties[j].1.wf()
                    &&& declared_kind(
                        arena[root.0 as int].class.properties_spec(),
                        properties[j].0,
                    ) matches Some(kind) && canonical_value(classes, host, kind, properties[j].1)
                }
        },
    decreases root.0, 1nat, arena[root.0 as int].class.properties_spec().len() - i,
{
    let n = arena[root.0 as int];
    let name = n.class.name@;
    let declared = n.class.properties_spec();
    assert(sound_record(arena, classes, host, root));
    if i < declared.len() {
        let key = declared[i].name;
        assert(is_identifier(declared[i].name));
        lemma_properties_reversed(arena, classes, host, budget, root, i + 1);
        let rest = reverse_properties(arena, budget, n, name, declared, i + 1)->Ok_0;
        match n.property_spec(key) {
            None => {
                if rest.len() > 0 {
                    let at = lemma_selected_declared(declared, rest, i + 1, 0, 0);
                    assert(declared[i].name != declared[at].name);
                }
            },
            Some(v) => {
                let place = PlaceSpec::Property(key);
                lemma_value_reversed(
                    arena,
                    classes,
                    host,
                    budget,
                    name,
                    place,
                    declared[i].kind,
                    v,
                    root,
                );
                let value = reverse_value(arena, budget, name, place, declared[i].kind, v)->Ok_0;
                let all = seq![(key, value)] + rest;
                lemma_declared_kind(declared, i);
                lemma_selected_shift(declared, rest, (key, value), i + 1, 0);
                assert(all[0] == (key, value));
                assert forall|j: int| 0 <= j < all.len() implies {
                    &&& is_identifier((#[trigger] all[j]).0)
                    &&& all[j].1.wf()
                    &&& declared_kind(declared, all[j].0) matches Some(kind) && canonical_value(
                        classes,
                        host,
                        kind,
                        all[j].1,
                    )
                } by {
                    if j > 0 {
                        assert(all[j] == rest[j - 1]);
                    }
                }
            },
        }
    }
}

/// The array elements of a sound record turn back into positional
/// values that are well formed and canonical.
proof fn lemma_elements_reversed(
    arena: Seq<RecordNode>,
    classes: Seq<RecordClass>,
    host: Seq<(Seq<u8>, HostReadingView)>,
    budget: nat,
    root: NodeId,
    j: int,
)
    requires
        sound_tree(arena, classes, host, root),
        budget >= root.0,
        0 <= j,
    ensures
        reverse_elements(
            arena,
            budget,
            arena[root.0 as int].class.name@,
            arena[root.0 as int].class.array_type,
            arena[root.0 as int]@.array,
            j,
        ) matches Ok(array) && {
            &&& array.len() == (if j <= arena[root.0 as int]@.array.len() {
                arena[root.0 as int]@.array.len() - j
            } else {
                0
            })
            &&& forall|k: int|
                0 <= k < array.len() ==> (#[trigger] array[k]).wf() && canonical_value(
                    classes,
                    host,
                    arena[root.0 as int].class.array_type->0,
                    array[k],
                )
        },
    decreases root.0, 1nat, arena[root.0 as int]@.array.len() - j,
{
    let n = arena[root.0 as int];
    let name = n.class.name@;
    let elements = n@.array;
    assert(sound_record(arena, classes, host, root));
    if j < elements.len() {
        let kind = n.class.array_type->0;
        let place = PlaceSpec::Element(j as usize);
        assert(sound_value(host, kind, elements[j], root));
        lemma_value_reversed(arena, classes, host, budget, name, place, kind, elements[j], root);
        lemma_elements_reversed(arena, classes, host, budget, root, j + 1);
        let value = reverse_value(arena, budget, name, place, kind, elements[j])->Ok_0;
        let rest = reverse_elements(arena, budget, name, Some(kind), elements, j + 1)->Ok_0;
        let all = seq![value] + rest;
        assert(all[0] == value);
        assert forall|k: int| 0 <= k < all.len() implies (#[trigger] all[k]).wf()
            && canonical_value(classes, host, kind, all[k]) by {
            if k > 0 {
                assert(all[k] == rest[k - 1]);
            }
        }
    }
}

/// A sound record turns back into a surface node that is well formed
/// and canonical for the classes.
pub proof fn lemma_node_reversed(
    arena: Seq<RecordNode>,
    classes: Seq<RecordClass>,
    host: Seq<(Seq<u8>, HostReadingView)>,
    root: NodeId,
    budget: nat,
)
    requires
        sound_tree(arena, classes, host, root),
        budget > root.0,
    ensures
        reverse_node(arena, root, budget) matches Ok(t) && t.wf() && canonical(classes, host, t),
    decreases root.0, 2nat, 0nat,
{
    let n = arena[root.0 as int];
    let left = (budget - 1) as nat;
    assert(sound_record(arena, classes, host, root));
    lemma_properties_reversed(arena, classes, host, left, root, 0);
    lemma_elements_reversed(arena, classes, host, left, root, 0);
    let t = reverse_node(arena, root, budget)->Ok_0;
    let class = class_named(classes, t.name)->0;
    assert(class.properties_spec() == n.class.properties_spec());
    assert(class.array_type_spec() == n.class.array_type);
}

/// A typed tree of records that is turned back into a surface tree,
/// printed, read and built again comes out as a typed tree that turns
/// back into the same surface tree.
///
/// The typed tree is the node `root` of `arena`, with the records before
/// it; `rebuilt` is the arena in which the tree is built again, on top
/// of the records of `base`. The law holds of sound typed trees.
pub proof fn theorem_rebuild(
    arena: Seq<RecordNode>,
    root: NodeId,
    classes: Seq<RecordClass>,
    host: Seq<(Seq<u8>, HostReadingView)>,
    base: Seq<RecordView>,
    rebuilt: Seq<RecordNode>,
)
    requires
        sound_tree(arena, classes, host, root),
        reverse_node(arena, root, arena.len()) matches Ok(t) ==> records_view(rebuilt)
            == build_node(classes, host, base, t).arena,
        rebuilt.len() <= usize::MAX,
    ensures
        reverse_node(arena, root, arena.len()) matches Ok(t) && {
            &&& parse(print_node(t)) == Ok::<SurfaceNode, ParseFailure>(t)
            &&& build_node(classes, host, base, t).result matches Ok(id) && reverse_node(
                rebuilt,
                id,
                rebuilt.len(),
            ) == Ok::<SurfaceNode, ReverseFailure>(t)
        },
{
    lemma_node_reversed(arena, classes, host, root, arena.len());
    let t = reverse_node(arena, root, arena.len())->Ok_0;
    theorem_print_then_parse(t);
    let built = build_node(classes, host, base, t).arena;
    assert(records_view(rebuilt).subrange(0, built.len() as int) =~= built);
    lemma_node_rebuilt(classes, host, base, t, rebuilt, rebuilt.len());
}

} // verus!
