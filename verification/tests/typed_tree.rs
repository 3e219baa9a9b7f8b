use websocat_api::arena::Tree;
use websocat_api::builder::{BuildError, Place};
use websocat_api::class::{ClassError, ClassRegistrar, NodeClass, ParsedNode, PropertyInfo};
use websocat_api::host::{HostReading, HostReadings};
use websocat_api::interpret::InterpretError;
use websocat_api::number::NumberError;
use websocat_api::record::{DuplicatePolicy, RecordClass, RecordNode};
use websocat_api::reverser::ReverseError;
use websocat_api::value::{NodeId, PropertyValue, PropertyValueType};
use websocat_api::{Ident, StringOrSubnode, StringyNode};

fn class(
    name: &str,
    properties: &[(&str, PropertyValueType)],
    array_type: Option<PropertyValueType>,
    duplicates: DuplicatePolicy,
) -> RecordClass {
    RecordClass {
        name: name.as_bytes().to_vec(),
        properties: properties
            .iter()
            .map(|(n, k)| PropertyInfo { name: n.as_bytes().to_vec(), help: Vec::new(), kind: *k })
            .collect(),
        array_type,
        duplicates,
    }
}

fn registry(classes: Vec<RecordClass>) -> ClassRegistrar<RecordClass> {
    let mut r = ClassRegistrar::new();
    for c in classes {
        r.register(c);
    }
    r
}

fn network() -> ClassRegistrar<RecordClass> {
    registry(vec![
        class(
            "tcp",
            &[("host", PropertyValueType::IpAddr), ("port", PropertyValueType::PortNumber)],
            None,
            DuplicatePolicy::Reject,
        ),
        class(
            "ws",
            &[("inner", PropertyValueType::ChildNode), ("uri", PropertyValueType::Stringy)],
            Some(PropertyValueType::ChildNode),
            DuplicatePolicy::Reject,
        ),
        class("list", &[], Some(PropertyValueType::Numbery), DuplicatePolicy::Reject),
    ])
}

fn host() -> HostReadings {
    let mut h = HostReadings::new();
    h.record(
        b"127.0.0.1".to_vec(),
        HostReading { float: None, ip_addr: Some(b"127.0.0.1".to_vec()), sock_addr: None },
    );
    h.record(
        b"h".to_vec(),
        HostReading { float: None, ip_addr: None, sock_addr: None },
    );
    h
}

fn parse(s: &str) -> StringyNode {
    StringyNode::from_str(s).unwrap()
}

fn build(s: &str, classes: &ClassRegistrar<RecordClass>) -> (Result<NodeId, BuildError>, Tree<RecordNode>) {
    let mut tree = Tree::new();
    let r = parse(s).build(classes, &host(), &mut tree);
    (r, tree)
}

fn name(s: &str) -> Vec<u8> {
    s.as_bytes().to_vec()
}

#[test]
fn tcp_holds_typed_values() {
    let (r, tree) = build("[tcp host=127.0.0.1 port=80]", &network());
    let id = r.unwrap();
    assert_eq!(id, NodeId(0));
    let node = tree.get(id).unwrap();
    assert_eq!(node.class().official_name(), name("tcp"));
    assert_eq!(node.get_property(b"host"), Some(PropertyValue::IpAddr(name("127.0.0.1"))));
    assert_eq!(node.get_property(b"port"), Some(PropertyValue::PortNumber(80)));
    assert_eq!(node.get_property(b"other"), None);
    assert!(node.get_array().is_empty());
}

#[test]
fn children_are_inserted_before_their_parent() {
    let (r, tree) = build(
        "[ws uri=x inner=[tcp port=1] [tcp port=2] [ws [tcp port=3]]]",
        &network(),
    );
    let root = r.unwrap();
    assert_eq!(tree.len(), 5);
    assert_eq!(root, NodeId(4));
    let top = tree.get(root).unwrap();
    assert_eq!(top.get_property(b"inner"), Some(PropertyValue::ChildNode(NodeId(0))));
    assert_eq!(
        top.get_array(),
        vec![PropertyValue::ChildNode(NodeId(1)), PropertyValue::ChildNode(NodeId(3))]
    );
    assert_eq!(tree.get(NodeId(0)).unwrap().get_property(b"port"), Some(PropertyValue::PortNumber(1)));
    assert_eq!(tree.get(NodeId(1)).unwrap().get_property(b"port"), Some(PropertyValue::PortNumber(2)));
    assert_eq!(tree.get(NodeId(2)).unwrap().get_property(b"port"), Some(PropertyValue::PortNumber(3)));
    assert_eq!(
        tree.get(NodeId(3)).unwrap().get_array(),
        vec![PropertyValue::ChildNode(NodeId(2))]
    );
    assert!(tree.get(NodeId(5)).is_none());
}

#[test]
fn every_handle_issued_is_in_the_arena() {
    let mut tree: Tree<RecordNode> = Tree::new();
    let classes = network();
    let first = parse("[tcp port=1]").build(&classes, &host(), &mut tree).unwrap();
    let second = parse("[ws [tcp port=2] [tcp port=3]]").build(&classes, &host(), &mut tree).unwrap();
    assert_eq!(first, NodeId(0));
    assert_eq!(second, NodeId(3));
    assert_eq!(tree.len(), 4);
    for i in 0..tree.len() {
        let node = tree.get(NodeId(i)).unwrap();
        for v in node.get_array() {
            match v {
                PropertyValue::ChildNode(id) => {
                    assert!(id.0 < i);
                    assert!(tree.get(id).is_some());
                },
                _ => panic!("only child nodes expected"),
            }
        }
    }
}

#[test]
fn child_property_builds_iff_declared_and_class_exists() {
    let declared = registry(vec![
        class("a", &[("b", PropertyValueType::ChildNode)], None, DuplicatePolicy::Reject),
        class("c", &[], None, DuplicatePolicy::Reject),
    ]);
    let (r, tree) = build("[a b=[c]]", &declared);
    assert_eq!(r, Ok(NodeId(1)));
    assert_eq!(tree.len(), 2);

    let other_kind = registry(vec![
        class("a", &[("b", PropertyValueType::Stringy)], None, DuplicatePolicy::Reject),
        class("c", &[], None, DuplicatePolicy::Reject),
    ]);
    let (r, tree) = build("[a b=[c]]", &other_kind);
    assert_eq!(
        r,
        Err(BuildError::SubnodeNotExpected { node: name("a"), place: Place::Property(name("b")) })
    );
    assert_eq!(tree.len(), 0);

    let undeclared = registry(vec![
        class("a", &[], None, DuplicatePolicy::Reject),
        class("c", &[], None, DuplicatePolicy::Reject),
    ]);
    let (r, _) = build("[a b=[c]]", &undeclared);
    assert_eq!(r, Err(BuildError::UnknownProperty { node: name("a"), property: name("b") }));

    let no_child_class = registry(vec![class(
        "a",
        &[("b", PropertyValueType::ChildNode)],
        None,
        DuplicatePolicy::Reject,
    )]);
    let (r, _) = build("[a b=[c]]", &no_child_class);
    assert_eq!(r, Err(BuildError::UnknownNodeType { node: name("c") }));
}

#[test]
fn duplicate_property_by_class_policy() {
    let rejecting =
        registry(vec![class("a", &[("x", PropertyValueType::Numbery)], None, DuplicatePolicy::Reject)]);
    let (r, _) = build("[a x=1 x=2]", &rejecting);
    assert_eq!(
        r,
        Err(BuildError::Rejected {
            node: name("a"),
            place: Place::Property(name("x")),
            refusal: ClassError { message: name("duplicate") },
        })
    );
    let last_wins = registry(vec![class(
        "a",
        &[("x", PropertyValueType::Numbery)],
        None,
        DuplicatePolicy::LastWins,
    )]);
    let (r, tree) = build("[a x=1 x=2]", &last_wins);
    let node = tree.get(r.unwrap()).unwrap();
    assert_eq!(node.get_property(b"x"), Some(PropertyValue::Numbery(2)));
    assert_eq!(node.properties.len(), 1);
}

#[test]
fn coercion_fault_names_property_and_value() {
    let classes =
        registry(vec![class("c", &[("kind", PropertyValueType::Numbery)], None, DuplicatePolicy::Reject)]);
    let (r, _) = build("[c kind=abc]", &classes);
    assert_eq!(
        r,
        Err(BuildError::Coercion {
            node: name("c"),
            place: Place::Property(name("kind")),
            value: name("abc"),
            cause: InterpretError::Number(NumberError::Malformed),
        })
    );
}

#[test]
fn every_kind_of_build_fault() {
    let classes = network();
    assert_eq!(build("[udp]", &classes).0, Err(BuildError::UnknownNodeType { node: name("udp") }));
    assert_eq!(
        build("[tcp colour=red]", &classes).0,
        Err(BuildError::UnknownProperty { node: name("tcp"), property: name("colour") })
    );
    assert_eq!(
        build("[tcp port=1 extra]", &classes).0,
        Err(BuildError::ArrayNotSupported { node: name("tcp") })
    );
    assert_eq!(
        build("[tcp port=[tcp]]", &classes).0,
        Err(BuildError::SubnodeNotExpected {
            node: name("tcp"),
            place: Place::Property(name("port")),
        })
    );
    assert_eq!(
        build("[list 1 [tcp]]", &classes).0,
        Err(BuildError::SubnodeNotExpected { node: name("list"), place: Place::Element(1) })
    );
    assert_eq!(
        build("[ws inner=tcp]", &classes).0,
        Err(BuildError::SubnodeExpected { node: name("ws"), place: Place::Property(name("inner")) })
    );
    assert_eq!(
        build("[ws tcp]", &classes).0,
        Err(BuildError::SubnodeExpected { node: name("ws"), place: Place::Element(0) })
    );
    assert_eq!(
        build("[list 1 2 x]", &classes).0,
        Err(BuildError::Coercion {
            node: name("list"),
            place: Place::Element(2),
            value: name("x"),
            cause: InterpretError::Number(NumberError::Malformed),
        })
    );
    assert_eq!(
        build("[tcp host=h]", &classes).0,
        Err(BuildError::Coercion {
            node: name("tcp"),
            place: Place::Property(name("host")),
            value: name("h"),
            cause: InterpretError::HostRejected,
        })
    );
    assert_eq!(
        build("[tcp host=example]", &classes).0,
        Err(BuildError::Coercion {
            node: name("tcp"),
            place: Place::Property(name("host")),
            value: name("example"),
            cause: InterpretError::HostUnread,
        })
    );
    assert_eq!(
        build("[tcp port=1 port=2]", &classes).0,
        Err(BuildError::Rejected {
            node: name("tcp"),
            place: Place::Property(name("port")),
            refusal: ClassError { message: name("duplicate") },
        })
    );
}

#[test]
fn nodes_built_before_a_fault_stay() {
    let (r, tree) = build("[ws [tcp port=1] [tcp port=x]]", &network());
    assert!(r.is_err());
    assert_eq!(tree.len(), 1);
    let (r, tree) = build("[ws [tcp port=1] inner=[nothing]]", &network());
    assert_eq!(r, Err(BuildError::UnknownNodeType { node: name("nothing") }));
    assert_eq!(tree.len(), 0);
}

#[test]
fn later_registration_replaces_earlier() {
    let classes = registry(vec![
        class("a", &[("x", PropertyValueType::Numbery)], None, DuplicatePolicy::Reject),
        class("a", &[("x", PropertyValueType::Booly)], None, DuplicatePolicy::Reject),
    ]);
    let (r, tree) = build("[a x=true]", &classes);
    assert_eq!(tree.get(r.unwrap()).unwrap().get_property(b"x"), Some(PropertyValue::Booly(true)));
    assert!(classes.lookup(b"b").is_none());
}

#[test]
fn later_declaration_of_a_property_decides_its_kind() {
    let classes = registry(vec![class(
        "a",
        &[("x", PropertyValueType::Numbery), ("x", PropertyValueType::Stringy)],
        None,
        DuplicatePolicy::Reject,
    )]);
    let (r, tree) = build("[a x=word]", &classes);
    assert_eq!(
        tree.get(r.unwrap()).unwrap().get_property(b"x"),
        Some(PropertyValue::Stringy(name("word")))
    );
}

#[test]
fn reverse_follows_declared_order() {
    let (r, tree) = build("[tcp port=80 host=127.0.0.1]", &network());
    let back = StringyNode::reverse(r.unwrap(), &tree).unwrap();
    assert_eq!(back.to_bytes(), b"[tcp host=127.0.0.1 port=80]".to_vec());
}

#[test]
fn reverse_of_nested_nodes() {
    let text = "[ws inner=[tcp port=1] uri=\"a b\" [tcp host=127.0.0.1] [ws]]";
    let (r, tree) = build(text, &network());
    let back = StringyNode::reverse(r.unwrap(), &tree).unwrap();
    assert_eq!(back, parse(text));
    assert_eq!(back.to_bytes(), text.as_bytes().to_vec());
}

#[test]
fn reverse_then_print_then_parse_then_build_gives_an_equal_tree() {
    let text = "[ws uri=u [tcp port=2 host=127.0.0.1] inner=[ws [tcp]]]";
    let classes = network();
    let (r, tree) = build(text, &classes);
    let root = r.unwrap();
    let printed = StringyNode::reverse(root, &tree).unwrap().to_bytes();
    assert_eq!(printed, b"[ws inner=[ws [tcp]] uri=u [tcp host=127.0.0.1 port=2]]".to_vec());
    let mut second: Tree<RecordNode> = Tree::new();
    let again = StringyNode::from_bytes(&printed).unwrap().build(&classes, &host(), &mut second).unwrap();
    let reprinted = StringyNode::reverse(again, &second).unwrap().to_bytes();
    assert_eq!(reprinted, printed);
    assert_eq!(second.len(), tree.len());
}

fn record(
    class: RecordClass,
    properties: Vec<(&str, PropertyValue)>,
    array: Vec<PropertyValue>,
) -> RecordNode {
    RecordNode {
        class,
        properties: properties.into_iter().map(|(k, v)| (name(k), v)).collect(),
        array,
    }
}

#[test]
fn every_kind_of_reverse_fault() {
    let plain = || class("p", &[("x", PropertyValueType::Numbery)], None, DuplicatePolicy::Reject);
    let parent = || {
        class(
            "q",
            &[("c", PropertyValueType::ChildNode)],
            Some(PropertyValueType::ChildNode),
            DuplicatePolicy::Reject,
        )
    };
    let mut tree: Tree<RecordNode> = Tree::new();
    assert_eq!(
        StringyNode::reverse(NodeId(0), &tree),
        Err(ReverseError::NodeNotFound { id: NodeId(0) })
    );
    let a = tree.insert(record(plain(), vec![("x", PropertyValue::ChildNode(NodeId(0)))], vec![]));
    assert_eq!(
        StringyNode::reverse(a, &tree),
        Err(ReverseError::Inconsistent { node: name("p"), place: Place::Property(name("x")) })
    );
    let b = tree.insert(record(parent(), vec![("c", PropertyValue::Numbery(1))], vec![]));
    assert_eq!(
        StringyNode::reverse(b, &tree),
        Err(ReverseError::Inconsistent { node: name("q"), place: Place::Property(name("c")) })
    );
    let c = tree.insert(record(parent(), vec![], vec![PropertyValue::Booly(true)]));
    assert_eq!(
        StringyNode::reverse(c, &tree),
        Err(ReverseError::Inconsistent { node: name("q"), place: Place::Element(0) })
    );
    let d = tree.insert(record(plain(), vec![], vec![PropertyValue::Numbery(1)]));
    assert_eq!(
        StringyNode::reverse(d, &tree),
        Err(ReverseError::ArrayNotExpected { node: name("p") })
    );
    let e = tree.insert(record(plain(), vec![("x", PropertyValue::Duration(1, 0))], vec![]));
    assert_eq!(
        StringyNode::reverse(e, &tree),
        Err(ReverseError::NoText { node: name("p"), place: Place::Property(name("x")) })
    );
    let f = tree.insert(record(parent(), vec![("c", PropertyValue::ChildNode(NodeId(77)))], vec![]));
    assert_eq!(
        StringyNode::reverse(f, &tree),
        Err(ReverseError::NodeNotFound { id: NodeId(77) })
    );
}

#[test]
fn reverse_ends_on_a_node_that_holds_itself() {
    let parent = class("q", &[("c", PropertyValueType::ChildNode)], None, DuplicatePolicy::Reject);
    let mut tree: Tree<RecordNode> = Tree::new();
    tree.insert(record(parent, vec![("c", PropertyValue::ChildNode(NodeId(0)))], vec![]));
    assert_eq!(
        StringyNode::reverse(NodeId(0), &tree),
        Err(ReverseError::TooDeep { id: NodeId(0) })
    );
}

#[test]
fn reverse_follows_a_chain_as_long_as_the_arena() {
    let parent = || class("q", &[("c", PropertyValueType::ChildNode)], None, DuplicatePolicy::Reject);
    let mut tree: Tree<RecordNode> = Tree::new();
    tree.insert(record(parent(), vec![("c", PropertyValue::ChildNode(NodeId(1)))], vec![]));
    tree.insert(record(parent(), vec![("c", PropertyValue::ChildNode(NodeId(2)))], vec![]));
    tree.insert(record(parent(), vec![], vec![]));
    let back = StringyNode::reverse(NodeId(0), &tree).unwrap();
    assert_eq!(back.to_bytes(), b"[q c=[q c=[q]]]".to_vec());
}

#[test]
fn reverse_leaves_out_what_is_not_declared_or_not_set() {
    let c = class(
        "p",
        &[("x", PropertyValueType::Numbery), ("y", PropertyValueType::Stringy)],
        Some(PropertyValueType::Stringy),
        DuplicatePolicy::Reject,
    );
    let mut tree: Tree<RecordNode> = Tree::new();
    let id = tree.insert(record(
        c,
        vec![("z", PropertyValue::Numbery(9)), ("y", PropertyValue::Stringy(name("")))],
        vec![PropertyValue::Stringy(name("a b")), PropertyValue::Numbery(3)],
    ));
    let back = StringyNode::reverse(id, &tree).unwrap();
    assert_eq!(
        back,
        StringyNode {
            name: Ident(name("p")),
            properties: vec![(Ident(name("y")), StringOrSubnode::Str(name("")))],
            array: vec![StringOrSubnode::Str(name("a b")), StringOrSubnode::Str(name("3"))],
        }
    );
    assert_eq!(back.to_bytes(), b"[p y=\"\" \"a b\" 3]".to_vec());
}
