//! The kinds of value that a class may declare, and the typed values.

use vstd::prelude::*;
use vstd::utf8::valid_utf8;
use crate::lexeme::copy_bytes;
use crate::number::{boolean_text, format_bool, format_i64, format_u16, integer_text};

verus! {

/// A handle on a node in a [`crate::arena::Tree`]: the place at which the
/// node was inserted.
#[derive(Clone, Copy, Debug, PartialEq, Eq, Structural)]
pub struct NodeId(pub usize);

/// A handle on the list of symbols that an enumerated property draws from.
#[derive(Clone, Copy, Debug, PartialEq, Eq, Structural)]
pub struct SchemaId(pub usize);

/// The kind of value that a property or an array of a class takes.
#[derive(Clone, Copy, Debug, PartialEq, Eq, Structural)]
pub enum PropertyValueType {
    /// Any string of bytes.
    Stringy,
    /// One symbol out of a list.
    Enummy(SchemaId),
    /// A 64-bit signed integer.
    Numbery,
    /// A floating-point number.
    Floaty,
    /// A truth value.
    Booly,
    /// An IP address with a port.
    SockAddr,
    /// An IP address.
    IpAddr,
    /// A 16-bit port number.
    PortNumber,
    /// A path in the file system.
    Path,
    /// A uniform resource identifier.
    Uri,
    /// A span of time.
    Duration,
    /// Another node.
    ChildNode,
}

/// A typed value.
///
/// A floating-point number, an IP address and a socket address are held as
/// the text that the host platform prints for them: this crate neither
/// reads nor prints such values itself (see [`crate::host`]).
#[derive(Clone, Debug, PartialEq, Eq)]
pub enum PropertyValue {
    Stringy(Vec<u8>),
    /// The index of the symbol in its list.
    Enummy(usize),
    Numbery(i64),
    /// The host's text for the number.
    Floaty(Vec<u8>),
    Booly(bool),
    /// The host's text for the address and port.
    SockAddr(Vec<u8>),
    /// The host's text for the address.
    IpAddr(Vec<u8>),
    PortNumber(u16),
    /// The bytes of the path.
    Path(Vec<u8>),
    /// The text of the identifier.
    Uri(Vec<u8>),
    /// Whole seconds and the nanoseconds beyond them.
    Duration(u64, u32),
    ChildNode(NodeId),
}

/// The mathematical value of a [`PropertyValue`].
pub enum TypedValue {
    Stringy(Seq<u8>),
    Enummy(usize),
    Numbery(i64),
    Floaty(Seq<u8>),
    Booly(bool),
    SockAddr(Seq<u8>),
    IpAddr(Seq<u8>),
    PortNumber(u16),
    Path(Seq<u8>),
    Uri(Seq<u8>),
    Duration(u64, u32),
    ChildNode(NodeId),
}

impl View for PropertyValue {
    type V = TypedValue;

    open spec fn view(&self) -> TypedValue {
        match *self {
            PropertyValue::Stringy(s) => TypedValue::Stringy(s@),
            PropertyValue::Enummy(i) => TypedValue::Enummy(i),
            PropertyValue::Numbery(v) => TypedValue::Numbery(v),
            PropertyValue::Floaty(t) => TypedValue::Floaty(t@),
            PropertyValue::Booly(b) => TypedValue::Booly(b),
            PropertyValue::SockAddr(t) => TypedValue::SockAddr(t@),
            PropertyValue::IpAddr(t) => TypedValue::IpAddr(t@),
            PropertyValue::PortNumber(p) => TypedValue::PortNumber(p),
            PropertyValue::Path(p) => TypedValue::Path(p@),
            PropertyValue::Uri(u) => TypedValue::Uri(u@),
            PropertyValue::Duration(s, n) => TypedValue::Duration(s, n),
            PropertyValue::ChildNode(id) => TypedValue::ChildNode(id),
        }
    }
}

/// The values of an optional typed value.
pub open spec fn optional_value(o: Option<PropertyValue>) -> Option<TypedValue> {
    match o {
        Some(v) => Some(v@),
        None => None,
    }
}

/// The values of a list of typed values, in order.
pub open spec fn values_view(vs: Seq<PropertyValue>) -> Seq<TypedValue> {
    Seq::new(vs.len(), |i: int| vs[i]@)
}

/// The text `(?:/??)`, which stands for a path that is no text.
pub open spec fn opaque_path_text() -> Seq<u8> {
    seq![0x28u8, 0x3fu8, 0x3au8, 0x2fu8, 0x3fu8, 0x3fu8, 0x29u8]
}

/// The text `[???]`, which stands for a node.
pub open spec fn node_text() -> Seq<u8> {
    seq![0x5bu8, 0x3fu8, 0x3fu8, 0x3fu8, 0x5du8]
}

/// The text of a typed value: the bytes of a string, the decimal digits
/// of a number, `true` or `false`, the host's text of a floating-point
/// number or an address, the bytes of a path that is UTF-8 and `(?:/??)`
/// for any other path, the text of an identifier, `[???]` for a node.
/// Symbols and spans of time have no text.
pub open spec fn value_text(v: TypedValue) -> Option<Seq<u8>> {
    match v {
        TypedValue::Stringy(s) => Some(s),
        TypedValue::Enummy(_) => None,
        TypedValue::Numbery(n) => Some(integer_text(n as int)),
        TypedValue::Floaty(t) => Some(t),
        TypedValue::Booly(b) => Some(boolean_text(b)),
        TypedValue::SockAddr(t) => Some(t),
        TypedValue::IpAddr(t) => Some(t),
        TypedValue::PortNumber(p) => Some(integer_text(p as int)),
        TypedValue::Path(p) => Some(
            if valid_utf8(p) {
                p
            } else {
                opaque_path_text()
            },
        ),
        TypedValue::Uri(u) => Some(u),
        TypedValue::Duration(_, _) => None,
        TypedValue::ChildNode(_) => Some(node_text()),
    }
}

/// `std::str::from_utf8`, which succeeds on the byte strings that are
/// well-formed UTF-8 and on no others.
#[verifier::external_body]
fn is_utf8(bytes: &[u8]) -> (r: bool)
    ensures
        r == valid_utf8(bytes@),
{
    std::str::from_utf8(bytes).is_ok()
}

impl PropertyValue {
    /// The text of this value, where it has one.
    pub fn to_bytes(&self) -> (r: Option<Vec<u8>>)
        ensures
            crate::lexeme::optional_bytes(r) == value_text(self@),
    {
        match self {
            PropertyValue::Stringy(s) => Some(copy_bytes(s.as_slice())),
            PropertyValue::Enummy(_) => None,
            PropertyValue::Numbery(n) => Some(format_i64(*n)),
            PropertyValue::Floaty(t) => Some(copy_bytes(t.as_slice())),
            PropertyValue::Booly(b) => Some(format_bool(*b)),
            PropertyValue::SockAddr(t) => Some(copy_bytes(t.as_slice())),
            PropertyValue::IpAddr(t) => Some(copy_bytes(t.as_slice())),
            PropertyValue::PortNumber(p) => Some(format_u16(*p)),
            PropertyValue::Path(p) => {
                if is_utf8(p.as_slice()) {
                    Some(copy_bytes(p.as_slice()))
                } else {
                    let mut out: Vec<u8> = Vec::new();
                    out.push(0x28);
                    out.push(0x3f);
                    out.push(0x3a);
                    out.push(0x2f);
                    out.push(0x3f);
                    out.push(0x3f);
                    out.push(0x29);
                    assert(out@ =~= opaque_path_text());
                    Some(out)
                }
            },
            PropertyValue::Uri(u) => Some(copy_bytes(u.as_slice())),
            PropertyValue::Duration(_, _) => None,
            PropertyValue::ChildNode(_) => {
                let mut out: Vec<u8> = Vec::new();
                out.push(0x5b);
                out.push(0x3f);
                out.push(0x3f);
                out.push(0x3f);
                out.push(0x5d);
                assert(out@ =~= node_text());
                Some(out)
            },
        }
    }
}

} // verus!
