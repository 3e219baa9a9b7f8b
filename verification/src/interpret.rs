//! From the text of a value to the typed value of a declared kind.

use vstd::prelude::*;
use crate::host::{reading_of, HostReadingView, HostReadings};
use crate::lexeme::copy_bytes;
use crate::number::{
    lemma_integer_text, parse_bool, parse_i64, parse_u16, read_boolean, read_integer,
    NumberError,
};
use crate::value::{value_text, PropertyValue, PropertyValueType, TypedValue};

verus! {

/// Why a text is no value of a kind.
#[derive(Clone, Copy, Debug, PartialEq, Eq, Structural)]
pub enum InterpretError {
    /// The text is no integer of the kind's type.
    Number(NumberError),
    /// The text is neither `true` nor `false`.
    NotBoolean,
    /// The host found no value of the kind in the text.
    HostRejected,
    /// No reading of the host is recorded for the text.
    HostUnread,
    /// Values of the kind are not read from text.
    Unimplemented,
}

/// The text that the host prints for the value of kind `kind` that it read
/// out of a text, where `kind` is one of the kinds that the host reads.
pub open spec fn host_text(kind: PropertyValueType, reading: HostReadingView) -> Option<Seq<u8>> {
    match kind {
        PropertyValueType::Floaty => reading.float,
        PropertyValueType::SockAddr => reading.sock_addr,
        _ => reading.ip_addr,
    }
}

/// The typed value of kind `kind` that holds the host's text `text`.
pub open spec fn host_value(kind: PropertyValueType, text: Seq<u8>) -> TypedValue {
    match kind {
        PropertyValueType::Floaty => TypedValue::Floaty(text),
        PropertyValueType::SockAddr => TypedValue::SockAddr(text),
        _ => TypedValue::IpAddr(text),
    }
}

/// The typed value that the text `x` denotes as a value of kind `kind`.
///
/// A string is taken as it stands; an integer, a port number and a truth
/// value are read from their decimal or literal form; a floating-point
/// number, a socket address and an IP address are what the host read out
/// of `x`, as recorded in `host`; symbols, paths, identifiers and spans of
/// time are not read from text. A node is never read from text.
pub open spec fn interpret_spec(
    kind: PropertyValueType,
    x: Seq<u8>,
    host: Seq<(Seq<u8>, HostReadingView)>,
) -> Result<TypedValue, InterpretError> {
    match kind {
        PropertyValueType::Stringy => Ok(TypedValue::Stringy(x)),
        PropertyValueType::Numbery => match read_integer(
            x,
            true,
            i64::MIN as int,
            i64::MAX as int,
        ) {
            Ok(v) => Ok(TypedValue::Numbery(v as i64)),
            Err(e) => Err(InterpretError::Number(e)),
        },
        PropertyValueType::PortNumber => match read_integer(x, false, 0, u16::MAX as int) {
            Ok(v) => Ok(TypedValue::PortNumber(v as u16)),
            Err(e) => Err(InterpretError::Number(e)),
        },
        PropertyValueType::Booly => match read_boolean(x) {
            Some(b) => Ok(TypedValue::Booly(b)),
            None => Err(InterpretError::NotBoolean),
        },
        PropertyValueType::Floaty | PropertyValueType::SockAddr | PropertyValueType::IpAddr => {
            match reading_of(host, x) {
                None => Err(InterpretError::HostUnread),
                Some(reading) => match host_text(kind, reading) {
                    Some(text) => Ok(host_value(kind, text)),
                    None => Err(InterpretError::HostRejected),
                },
            }
        },
        _ => Err(InterpretError::Unimplemented),
    }
}

/// The mathematical value of what [`PropertyValueType::interpret`] returns.
pub open spec fn interpret_outcome(r: Result<PropertyValue, InterpretError>) -> Result<
    TypedValue,
    InterpretError,
> {
    match r {
        Ok(v) => Ok(v@),
        Err(e) => Err(e),
    }
}

impl PropertyValueType {
    /// Reads the text `x` as a value of this kind. A node is not read from
    /// text: the kind of a child node is left out.
    pub fn interpret(&self, x: &[u8], host: &HostReadings) -> (r: Result<
        PropertyValue,
        InterpretError,
    >)
        requires
            !(self is ChildNode),
        ensures
            interpret_outcome(r) == interpret_spec(*self, x@, host@),
    {
        match *self {
            PropertyValueType::Stringy => Ok(PropertyValue::Stringy(copy_bytes(x))),
            PropertyValueType::Enummy(_) => Err(InterpretError::Unimplemented),
            PropertyValueType::Numbery => match parse_i64(x) {
                Ok(v) => Ok(PropertyValue::Numbery(v)),
                Err(e) => Err(InterpretError::Number(e)),
            },
            PropertyValueType::Floaty => match host.lookup(x) {
                None => Err(InterpretError::HostUnread),
                Some(reading) => match &reading.float {
                    Some(text) => Ok(PropertyValue::Floaty(copy_bytes(text.as_slice()))),
                    None => Err(InterpretError::HostRejected),
                },
            },
            PropertyValueType::Booly => match parse_bool(x) {
                Some(b) => Ok(PropertyValue::Booly(b)),
                None => Err(InterpretError::NotBoolean),
            },
            PropertyValueType::SockAddr => match host.lookup(x) {
                None => Err(InterpretError::HostUnread),
                Some(reading) => match &reading.sock_addr {
                    Some(text) => Ok(PropertyValue::SockAddr(copy_bytes(text.as_slice()))),
                    None => Err(InterpretError::HostRejected),
                },
            },
            PropertyValueType::IpAddr => match host.lookup(x) {
                None => Err(InterpretError::HostUnread),
                Some(reading) => match &reading.ip_addr {
                    Some(text) => Ok(PropertyValue::IpAddr(copy_bytes(text.as_slice()))),
                    None => Err(InterpretError::HostRejected),
                },
            },
            PropertyValueType::PortNumber => match parse_u16(x) {
                Ok(v) => Ok(PropertyValue::PortNumber(v)),
                Err(e) => Err(InterpretError::Number(e)),
            },
            PropertyValueType::Path => Err(InterpretError::Unimplemented),
            PropertyValueType::Uri => Err(InterpretError::Unimplemented),
            PropertyValueType::Duration => Err(InterpretError::Unimplemented),
            PropertyValueType::ChildNode => Err(InterpretError::Unimplemented),
        }
    }
}

/// The kind under which a string, an integer, a truth value or a port
/// number is declared.
pub open spec fn plain_kind(v: TypedValue) -> PropertyValueType {
    match v {
        TypedValue::Numbery(_) => PropertyValueType::Numbery,
        TypedValue::Booly(_) => PropertyValueType::Booly,
        TypedValue::PortNumber(_) => PropertyValueType::PortNumber,
        _ => PropertyValueType::Stringy,
    }
}

/// The text of a string, an integer, a truth value or a port number reads
/// back, under the value's kind, as the value itself.
pub proof fn theorem_text_reads_back(v: TypedValue, host: Seq<(Seq<u8>, HostReadingView)>)
    requires
        v is Stringy || v is Numbery || v is Booly || v is PortNumber,
    ensures
        value_text(v) matches Some(text) && interpret_spec(plain_kind(v), text, host) == Ok::<
            TypedValue,
            InterpretError,
        >(v),
{
    match v {
        TypedValue::Numbery(n) => lemma_integer_text(n as int),
        TypedValue::PortNumber(p) => lemma_integer_text(p as int),
        TypedValue::Booly(b) => {
            assert(crate::number::true_text().len() == 4);
            assert(crate::number::false_text().len() == 5);
        },
        _ => {},
    }
}

/// A text that the host reads as its own text for a value reads, under a
/// kind of the host, as the value that holds it.
pub proof fn theorem_host_text_reads_back(
    kind: PropertyValueType,
    text: Seq<u8>,
    host: Seq<(Seq<u8>, HostReadingView)>,
)
    requires
        kind is Floaty || kind is SockAddr || kind is IpAddr,
        reading_of(host, text) matches Some(reading) && host_text(kind, reading) == Some(text),
    ensures
        interpret_spec(kind, text, host) == Ok::<TypedValue, InterpretError>(
            host_value(kind, text),
        ),
        value_text(host_value(kind, text)) == Some(text),
{
}

} // verus!
