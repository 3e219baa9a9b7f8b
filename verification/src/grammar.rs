//! What the reader of the surface syntax computes, as a state machine over
//! the bytes of the input.
//!
//! A node is `[`, a name, elements that each follow one or more spaces, and
//! `]`. An element is `key=value` or a value; a value is a bare word, a
//! quoted string or a nested node. After the closing `"` of a string or the
//! closing `]` of a nested node only a space or the `]` of the enclosing
//! node may follow.

use vstd::prelude::*;
use crate::lexeme::{
    hex_value, is_ident_byte, APOSTROPHE, BACKSLASH, CLOSE, EQUALS, LOWER_N, LOWER_T, LOWER_X,
    NEWLINE, OPEN, QUOTE, SPACE, TAB,
};
use crate::surface::{SurfaceNode, SurfaceValue};

verus! {

/// Where the reader stands inside a node.
#[derive(Clone, Copy, Debug, PartialEq, Eq, Structural)]
pub enum Mode {
    /// After `[`, before the first byte of the name.
    BeforeName,
    /// Inside the name.
    Name,
    /// After a quoted string or a nested node: a space or `]` must follow.
    ForcedSpace,
    /// Between elements.
    Space,
    /// Inside a bare word, a key, or right after the `=` of a property.
    Chunk,
    /// Inside a quoted string.
    ChunkEsc,
    /// After a backslash in a quoted string.
    ChunkEscBs,
    /// Inside the two digits of a `\xNN` escape.
    ChunkEscHex,
}

/// Why an input is not a node.
#[derive(Clone, Copy, Debug, PartialEq, Eq, Structural)]
pub enum ParseErrorKind {
    /// The input does not start with `[`.
    MissingOpen,
    /// A byte that cannot stand in or after a node's name.
    InvalidNameByte(u8),
    /// Something other than a space or `]` after a closing `"` or `]`.
    ExpectedSpace(u8),
    /// A byte that cannot start an element.
    InvalidByte(u8),
    /// A property's `=` with no value behind it.
    EmptyValue,
    /// A second `=` in one property.
    DuplicateEquals,
    /// A `"` inside a bare word, or after a key without `=`.
    MisplacedQuote,
    /// A `[` inside a bare word, or after a key without `=`.
    MisplacedOpen,
    /// A byte that cannot stand in a bare word.
    InvalidValueByte(u8),
    /// A backslash followed by a byte that names no escape.
    InvalidEscape(u8),
    /// A `\x` escape with a byte that is no hexadecimal digit.
    InvalidHexDigit(u8),
    /// The input ends before the node's `]`.
    Truncated,
    /// The node has no name.
    EmptyNode,
}

/// The mathematical value of a [`crate::parser::ParseError`]: the kind of
/// the fault, the index of the byte at which it was found (the length of
/// the input where the input ended too early), the name of the innermost
/// node around it where that name was complete, and the key of the
/// property being read, if any.
pub struct ParseFailure {
    pub kind: ParseErrorKind,
    pub offset: int,
    pub node: Option<Seq<u8>>,
    pub property: Option<Seq<u8>>,
}

/// The reader's state inside one node.
pub struct Machine {
    pub mode: Mode,
    /// The node's name, once it is complete.
    pub name: Option<Seq<u8>>,
    /// The bytes collected for the name, key or value being read.
    pub chunk: Seq<u8>,
    /// The key of the property whose value is being read.
    pub key: Option<Seq<u8>>,
    /// The values of the digits read so far of a `\xNN` escape.
    pub hex: Seq<u8>,
    pub properties: Seq<(Seq<u8>, SurfaceValue)>,
    pub array: Seq<SurfaceValue>,
}

/// What one byte does to the reader.
pub enum Step {
    /// The byte is consumed and the reader goes on in the new state.
    Next(Machine),
    /// The byte opens a nested node, which is read from this byte on.
    Descend,
    /// The byte closes the node; the state holds what was read.
    Finish(Machine),
    /// The byte is not allowed here.
    Fail(ParseErrorKind),
}

impl Machine {
    /// The state right after `[`.
    pub open spec fn start() -> Machine {
        Machine {
            mode: Mode::BeforeName,
            name: None,
            chunk: Seq::empty(),
            key: None,
            hex: Seq::empty(),
            properties: Seq::empty(),
            array: Seq::empty(),
        }
    }

    /// The state with `b` added to the bytes collected, in mode `mode`.
    pub open spec fn collect(self, b: u8, mode: Mode) -> Machine {
        Machine { mode, chunk: self.chunk.push(b), ..self }
    }

    /// The state in mode `mode`, all else unchanged.
    pub open spec fn turn(self, mode: Mode) -> Machine {
        Machine { mode, ..self }
    }

    /// The state after a complete value: it becomes the value of the
    /// pending key, or else the next positional value; no key is pending
    /// afterwards.
    pub open spec fn absorb(self, v: SurfaceValue, mode: Mode) -> Machine {
        match self.key {
            Some(k) => Machine {
                mode,
                key: None,
                properties: self.properties.push((k, v)),
                ..self
            },
            None => Machine { mode, array: self.array.push(v), ..self },
        }
    }

    /// The state after the bytes collected are complete as a string value.
    pub open spec fn flush(self, mode: Mode) -> Machine {
        Machine { chunk: Seq::empty(), ..self.absorb(SurfaceValue::Str(self.chunk), mode) }
    }

    /// The state after the name is complete.
    pub open spec fn named(self, mode: Mode) -> Machine {
        Machine { mode, name: Some(self.chunk), chunk: Seq::empty(), ..self }
    }

    /// The node that the state holds.
    pub open spec fn node(self) -> SurfaceNode {
        SurfaceNode {
            name: match self.name {
                Some(n) => n,
                None => Seq::empty(),
            },
            properties: self.properties,
            array: self.array,
        }
    }

    /// The failure of kind `kind` at `offset`, with the node's name and the
    /// pending key as the state knows them.
    pub open spec fn failure(self, kind: ParseErrorKind, offset: int) -> ParseFailure {
        ParseFailure { kind, offset, node: self.name, property: self.key }
    }
}

/// The byte that an escape letter stands for, for the escapes of one letter.
pub open spec fn simple_escape(c: u8) -> Option<u8> {
    if c == LOWER_T {
        Some(TAB)
    } else if c == LOWER_N {
        Some(NEWLINE)
    } else if c == APOSTROPHE {
        Some(APOSTROPHE)
    } else if c == QUOTE {
        Some(QUOTE)
    } else if c == BACKSLASH {
        Some(BACKSLASH)
    } else {
        None
    }
}

/// What the byte `c` does in state `m`.
pub open spec fn step(m: Machine, c: u8) -> Step {
    match m.mode {
        Mode::BeforeName => {
            if is_ident_byte(c) {
                Step::Next(m.collect(c, Mode::Name))
            } else if c == SPACE {
                Step::Next(m)
            } else if c == CLOSE {
                Step::Finish(m)
            } else {
                Step::Fail(ParseErrorKind::InvalidNameByte(c))
            }
        },
        Mode::Name => {
            if is_ident_byte(c) {
                Step::Next(m.collect(c, Mode::Name))
            } else if c == SPACE {
                Step::Next(m.named(Mode::Space))
            } else if c == CLOSE {
                Step::Finish(m.named(Mode::Space))
            } else {
                Step::Fail(ParseErrorKind::InvalidNameByte(c))
            }
        },
        Mode::ForcedSpace => {
            if c == SPACE {
                Step::Next(m.turn(Mode::Space))
            } else if c == CLOSE {
                Step::Finish(m)
            } else {
                Step::Fail(ParseErrorKind::ExpectedSpace(c))
            }
        },
        Mode::Space => {
            if is_ident_byte(c) {
                Step::Next(m.collect(c, Mode::Chunk))
            } else if c == QUOTE {
                Step::Next(m.turn(Mode::ChunkEsc))
            } else if c == CLOSE {
                Step::Finish(m)
            } else if c == OPEN {
                Step::Descend
            } else if c == SPACE {
                Step::Next(m)
            } else {
                Step::Fail(ParseErrorKind::InvalidByte(c))
            }
        },
        Mode::Chunk => {
            if is_ident_byte(c) {
                Step::Next(m.collect(c, Mode::Chunk))
            } else if c == SPACE || c == CLOSE {
                if m.chunk.len() == 0 {
                    Step::Fail(ParseErrorKind::EmptyValue)
                } else if c == CLOSE {
                    Step::Finish(m.flush(Mode::Space))
                } else {
                    Step::Next(m.flush(Mode::Space))
                }
            } else if c == EQUALS {
                if m.key is Some {
                    Step::Fail(ParseErrorKind::DuplicateEquals)
                } else {
                    Step::Next(Machine { key: Some(m.chunk), chunk: Seq::empty(), ..m })
                }
            } else if c == QUOTE {
                if m.key is None || m.chunk.len() != 0 {
                    Step::Fail(ParseErrorKind::MisplacedQuote)
                } else {
                    Step::Next(m.turn(Mode::ChunkEsc))
                }
            } else if c == OPEN {
                if m.key is None || m.chunk.len() != 0 {
                    Step::Fail(ParseErrorKind::MisplacedOpen)
                } else {
                    Step::Descend
                }
            } else {
                Step::Fail(ParseErrorKind::InvalidValueByte(c))
            }
        },
        Mode::ChunkEsc => {
            if c == QUOTE {
                Step::Next(m.flush(Mode::ForcedSpace))
            } else if c == BACKSLASH {
                Step::Next(m.turn(Mode::ChunkEscBs))
            } else {
                Step::Next(m.collect(c, Mode::ChunkEsc))
            }
        },
        Mode::ChunkEscBs => {
            if c == LOWER_X {
                Step::Next(m.turn(Mode::ChunkEscHex))
            } else {
                match simple_escape(c) {
                    Some(b) => Step::Next(m.collect(b, Mode::ChunkEsc)),
                    None => Step::Fail(ParseErrorKind::InvalidEscape(c)),
                }
            }
        },
        Mode::ChunkEscHex => {
            match hex_value(c) {
                Some(d) => {
                    if m.hex.len() == 1 {
                        Step::Next(
                            Machine {
                                mode: Mode::ChunkEsc,
                                chunk: m.chunk.push((m.hex[0] * 16 + d) as u8),
                                hex: Seq::empty(),
                                ..m
                            },
                        )
                    } else {
                        Step::Next(Machine { hex: m.hex.push(d), ..m })
                    }
                },
                None => Step::Fail(ParseErrorKind::InvalidHexDigit(c)),
            }
        },
    }
}

/// What reading comes to from index `pos` of `s` in state `m`: the node
/// and the index right after its `]`, or the first failure.
pub open spec fn run(s: Seq<u8>, pos: int, m: Machine) -> Result<(SurfaceNode, int), ParseFailure>
    decreases s.len() - pos,
{
    if pos < 0 || pos >= s.len() {
        Err(m.failure(ParseErrorKind::Truncated, s.len() as int))
    } else {
        match step(m, s[pos]) {
            Step::Next(next) => run(s, pos + 1, next),
            Step::Finish(last) => {
                if last.name is Some {
                    Ok((last.node(), pos + 1))
                } else {
                    Err(last.failure(ParseErrorKind::EmptyNode, pos))
                }
            },
            Step::Fail(kind) => Err(m.failure(kind, pos)),
            Step::Descend => {
                match run(s, pos + 1, Machine::start()) {
                    Ok((child, after)) => {
                        // A node that was read ends behind its start and inside the
                        // input (`lemma_run_bounds`), so this test never fails.
                        if pos < after <= s.len() {
                            run(
                                s,
                                after,
                                m.absorb(SurfaceValue::Subnode(Box::new(child)), Mode::ForcedSpace),
                            )
                        } else {
                            Err(m.failure(ParseErrorKind::Truncated, s.len() as int))
                        }
                    },
                    Err(inner) => Err(inner),
                }
            },
        }
    }
}

/// What reading a node at index `pos` of `s` comes to: the node and the
/// index right after its `]`, or the first failure.
pub open spec fn parse_node(s: Seq<u8>, pos: int) -> Result<(SurfaceNode, int), ParseFailure> {
    if 0 <= pos < s.len() && s[pos] == OPEN {
        run(s, pos + 1, Machine::start())
    } else {
        Err(Machine::start().failure(ParseErrorKind::MissingOpen, pos))
    }
}

/// A node is read to its end without a look at what follows it: the end
/// lies behind the start and inside the input.
pub proof fn lemma_run_bounds(s: Seq<u8>, pos: int, m: Machine)
    requires
        0 <= pos,
    ensures
        run(s, pos, m) matches Ok((_, end)) ==> pos < end <= s.len(),
    decreases s.len() - pos,
{
    if pos < s.len() {
        match step(m, s[pos]) {
            Step::Next(next) => lemma_run_bounds(s, pos + 1, next),
            Step::Descend => {
                lemma_run_bounds(s, pos + 1, Machine::start());
                match run(s, pos + 1, Machine::start()) {
                    Ok((child, after)) => {
                        lemma_run_bounds(
                            s,
                            after,
                            m.absorb(SurfaceValue::Subnode(Box::new(child)), Mode::ForcedSpace),
                        );
                    },
                    Err(_) => {},
                }
            },
            _ => {},
        }
    }
}

} // verus!
