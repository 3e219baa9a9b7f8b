//! The reader of the surface syntax.

use vstd::prelude::*;
use vstd::string::StringSliceAdditionalSpecFns;
use crate::grammar::{
    lemma_run_bounds, parse_node, run, Machine, Mode, ParseErrorKind, ParseFailure,
};
use crate::hex_pair::{
    hex_pair_clear, hex_pair_get, hex_pair_items, hex_pair_len, hex_pair_new, hex_pair_push,
};
use crate::lexeme::{
    hex_digit, identchar, optional_bytes, APOSTROPHE, BACKSLASH, CLOSE, EQUALS, LOWER_N, LOWER_T, LOWER_X,
    NEWLINE, OPEN, QUOTE, SPACE, TAB,
};
use crate::surface::{
    array_view, lemma_node_view, properties_view, Ident, StringOrSubnode, StringyNode,
    SurfaceNode,
};

verus! {

/// A failed reading: the kind of the fault, the index of the byte at which
/// it was found (the length of the input where the input ended too early),
/// the name of the innermost node around it where that name was complete,
/// and the key of the property being read, if any.
#[derive(Debug, Clone, PartialEq, Eq)]
pub struct ParseError {
    pub kind: ParseErrorKind,
    pub offset: usize,
    pub node: Option<Vec<u8>>,
    pub property: Option<Vec<u8>>,
}

impl View for ParseError {
    type V = ParseFailure;

    open spec fn view(&self) -> ParseFailure {
        ParseFailure {
            kind: self.kind,
            offset: self.offset as int,
            node: optional_bytes(self.node),
            property: optional_bytes(self.property),
        }
    }
}

/// What is wrong with an input, in words.
pub open spec fn description_text(kind: ParseErrorKind) -> Seq<char> {
    match kind {
        ParseErrorKind::MissingOpen => "Tree node must begin with `[` character"@,
        ParseErrorKind::InvalidNameByte(_) => "Invalid character while reading tree node name"@,
        ParseErrorKind::ExpectedSpace(_) => "Expected a space character or `]` after `\"` or `]`"@,
        ParseErrorKind::InvalidByte(_) => "Invalid character in tree node"@,
        ParseErrorKind::EmptyValue => "Unescaped empty property value"@,
        ParseErrorKind::DuplicateEquals => "Duplicate unescaped = character when parsing property"@,
        ParseErrorKind::MisplacedQuote => "Property value `\"` escape character must come immediately after `=`"@,
        ParseErrorKind::MisplacedOpen => "Wrong `[` character position"@,
        ParseErrorKind::InvalidValueByte(_) => "Invalid character when parsing a potential property or array element"@,
        ParseErrorKind::InvalidEscape(_) => "Invalid escape sequence character"@,
        ParseErrorKind::InvalidHexDigit(_) => "Invalid hex escape sequence character"@,
        ParseErrorKind::Truncated => "Trimmed input when parsing the tree node"@,
        ParseErrorKind::EmptyNode => "Empty tree nodes are not allowed"@,
    }
}

impl ParseError {
    /// What is wrong with the input, in words.
    pub fn description(&self) -> (r: &'static str)
        ensures
            r@ == description_text(self.kind),
    {
        match self.kind {
            ParseErrorKind::MissingOpen => "Tree node must begin with `[` character",
            ParseErrorKind::InvalidNameByte(_) => "Invalid character while reading tree node name",
            ParseErrorKind::ExpectedSpace(_) => "Expected a space character or `]` after `\"` or `]`",
            ParseErrorKind::InvalidByte(_) => "Invalid character in tree node",
            ParseErrorKind::EmptyValue => "Unescaped empty property value",
            ParseErrorKind::DuplicateEquals => "Duplicate unescaped = character when parsing property",
            ParseErrorKind::MisplacedQuote => "Property value `\"` escape character must come immediately after `=`",
            ParseErrorKind::MisplacedOpen => "Wrong `[` character position",
            ParseErrorKind::InvalidValueByte(_) => "Invalid character when parsing a potential property or array element",
            ParseErrorKind::InvalidEscape(_) => "Invalid escape sequence character",
            ParseErrorKind::InvalidHexDigit(_) => "Invalid hex escape sequence character",
            ParseErrorKind::Truncated => "Trimmed input when parsing the tree node",
            ParseErrorKind::EmptyNode => "Empty tree nodes are not allowed",
        }
    }
}

/// The mathematical value of what [`StringyNode::read`] returns.
pub open spec fn read_outcome(r: Result<(StringyNode, usize), ParseError>) -> Result<
    (SurfaceNode, int),
    ParseFailure,
> {
    match r {
        Ok((node, end)) => Ok((node@, end as int)),
        Err(e) => Err(e@),
    }
}

/// The mathematical value of what [`StringyNode::from_bytes`] returns.
pub open spec fn parse_outcome(r: Result<StringyNode, ParseError>) -> Result<
    SurfaceNode,
    ParseFailure,
> {
    match r {
        Ok(node) => Ok(node@),
        Err(e) => Err(e@),
    }
}

/// What reading all of `s` as one node comes to: the node whose text
/// starts `s` (what follows its `]` is not looked at), or the first failure.
pub open spec fn parse(s: Seq<u8>) -> Result<SurfaceNode, ParseFailure> {
    match parse_node(s, 0) {
        Ok((node, _)) => Ok(node),
        Err(e) => Err(e),
    }
}

/// The reader's state that the local variables of [`StringyNode::read`] stand for.
pub open spec fn machine_of(
    mode: Mode,
    name: Option<Vec<u8>>,
    chunk: Vec<u8>,
    key: Option<Vec<u8>>,
    hex: tinyvec::ArrayVec<[u8; 2]>,
    properties: Vec<(Ident, StringOrSubnode)>,
    array: Vec<StringOrSubnode>,
) -> Machine {
    Machine {
        mode,
        name: optional_bytes(name),
        chunk: chunk@,
        key: optional_bytes(key),
        hex: hex_pair_items(hex),
        properties: properties_view(properties@),
        array: array_view(array@),
    }
}

/// Stores a complete value: under the pending key, or else as the next
/// positional value.
fn store(
    properties: &mut Vec<(Ident, StringOrSubnode)>,
    array: &mut Vec<StringOrSubnode>,
    key: Option<Vec<u8>>,
    value: StringOrSubnode,
)
    ensures
        key is Some ==> final(array)@ == old(array)@ && properties_view(final(properties)@)
            == properties_view(old(properties)@).push((key->0@, value@)),
        key is None ==> final(properties)@ == old(properties)@ && array_view(final(array)@)
            == array_view(old(array)@).push(value@),
{
    match key {
        Some(k) => {
            properties.push((Ident(k), value));
            assert(properties_view(properties@) =~= properties_view(old(properties)@).push(
                (k@, value@),
            ));
        },
        None => {
            array.push(value);
            assert(array_view(array@) =~= array_view(old(array)@).push(value@));
        },
    }
}

fn failure(kind: ParseErrorKind, offset: usize, name: Option<Vec<u8>>, key: Option<Vec<u8>>) -> (e:
    ParseError)
    ensures
        e@ == (ParseFailure {
            kind,
            offset: offset as int,
            node: optional_bytes(name),
            property: optional_bytes(key),
        }),
{
    ParseError { kind, offset, node: name, property: key }
}

/// Closes a node: the node read, or the failure of a node without a name.
fn conclude(
    name: Option<Vec<u8>>,
    key: Option<Vec<u8>>,
    properties: Vec<(Ident, StringOrSubnode)>,
    array: Vec<StringOrSubnode>,
    pos: usize,
) -> (r: Result<(StringyNode, usize), ParseError>)
    requires
        pos < usize::MAX,
    ensures
        read_outcome(r) == (match optional_bytes(name) {
            Some(n) => Ok(
                (
                    SurfaceNode {
                        name: n,
                        properties: properties_view(properties@),
                        array: array_view(array@),
                    },
                    pos + 1,
                ),
            ),
            None => Err(
                ParseFailure {
                    kind: ParseErrorKind::EmptyNode,
                    offset: pos as int,
                    node: None,
                    property: optional_bytes(key),
                },
            ),
        }),
{
    match name {
        Some(n) => {
            let node = StringyNode { name: Ident(n), properties, array };
            proof {
                lemma_node_view(node);
            }
            Ok((node, pos + 1))
        },
        None => Err(failure(ParseErrorKind::EmptyNode, pos, None, key)),
    }
}

impl StringyNode {
    /// Reads the node that starts at index `start` of `input`: the node and
    /// the index right after its closing `]`, or the first fault found.
    pub fn read(input: &[u8], start: usize) -> (r: Result<(StringyNode, usize), ParseError>)
        ensures
            read_outcome(r) == parse_node(input@, start as int),
            r matches Ok((_, end)) ==> start < end <= input.len(),
        decreases input.len() - start,
    {
        if start >= input.len() || input[start] != OPEN {
            return Err(failure(ParseErrorKind::MissingOpen, start, None, None));
        }
        proof {
            lemma_run_bounds(input@, start + 1, Machine::start());
        }
        let mut mode = Mode::BeforeName;
        let mut name: Option<Vec<u8>> = None;
        let mut chunk: Vec<u8> = Vec::with_capacity(20);
        let mut key: Option<Vec<u8>> = None;
        let mut hex = hex_pair_new();
        let mut properties: Vec<(Ident, StringOrSubnode)> = Vec::new();
        let mut array: Vec<StringOrSubnode> = Vec::new();
        let mut pos: usize = start + 1;
        let ghost s = input@;
        let ghost goal = parse_node(s, start as int);
        assert(machine_of(mode, name, chunk, key, hex, properties, array) == Machine::start()) by {
            assert(properties_view(properties@) =~= Seq::empty());
            assert(array_view(array@) =~= Seq::empty());
        }
        while pos < input.len()
            invariant
                s == input@,
                goal == parse_node(s, start as int),
                start < pos <= input.len(),
                hex_pair_items(hex).len() <= 1,
                forall|i: int| 0 <= i < hex_pair_items(hex).len() ==> hex_pair_items(hex)[i] < 16,
                run(s, pos as int, machine_of(mode, name, chunk, key, hex, properties, array))
                    == goal,
            decreases input.len() - pos,
        {
            let c: u8 = input[pos];
            let ghost m = machine_of(mode, name, chunk, key, hex, properties, array);
            if mode == Mode::BeforeName || mode == Mode::Name {
                if identchar(c) {
                    chunk.push(c);
                    mode = Mode::Name;
                } else if c == SPACE {
                    if mode == Mode::Name {
                        name = Some(chunk);
                        chunk = Vec::with_capacity(20);
                        mode = Mode::Space;
                    }
                } else if c == CLOSE {
                    if mode == Mode::Name {
                        name = Some(chunk);
                    }
                    return conclude(name, key, properties, array, pos);
                } else {
                    return Err(failure(ParseErrorKind::InvalidNameByte(c), pos, name, key));
                }
            } else if mode == Mode::ForcedSpace {
                if c == SPACE {
                    mode = Mode::Space;
                } else if c == CLOSE {
                    return conclude(name, key, properties, array, pos);
                } else {
                    return Err(failure(ParseErrorKind::ExpectedSpace(c), pos, name, key));
                }
            } else if mode == Mode::Space {
                if identchar(c) {
                    chunk.push(c);
                    mode = Mode::Chunk;
                } else if c == QUOTE {
                    mode = Mode::ChunkEsc;
                } else if c == CLOSE {
                    return conclude(name, key, properties, array, pos);
                } else if c == OPEN {
                    match StringyNode::read(input, pos) {
                        Ok((child, after)) => {
                            proof {
                                lemma_run_bounds(s, pos + 1, Machine::start());
                            }
                            store(&mut properties, &mut array, key, StringOrSubnode::Subnode(child));
                            key = None;
                            mode = Mode::ForcedSpace;
                            pos = after;
                            continue ;
                        },
                        Err(e) => {
                            return Err(e);
                        },
                    }
                } else if c == SPACE {
                } else {
                    return Err(failure(ParseErrorKind::InvalidByte(c), pos, name, key));
                }
            } else if mode == Mode::Chunk {
                if identchar(c) {
                    chunk.push(c);
                } else if c == SPACE || c == CLOSE {
                    if chunk.len() == 0 {
                        return Err(failure(ParseErrorKind::EmptyValue, pos, name, key));
                    }
                    store(&mut properties, &mut array, key, StringOrSubnode::Str(chunk));
                    key = None;
                    chunk = Vec::with_capacity(20);
                    if c == CLOSE {
                        return conclude(name, key, properties, array, pos);
                    }
                    mode = Mode::Space;
                } else if c == EQUALS {
                    if key.is_some() {
                        return Err(failure(ParseErrorKind::DuplicateEquals, pos, name, key));
                    }
                    key = Some(chunk);
                    chunk = Vec::with_capacity(20);
                } else if c == QUOTE {
                    if key.is_none() || chunk.len() != 0 {
                        return Err(failure(ParseErrorKind::MisplacedQuote, pos, name, key));
                    }
                    mode = Mode::ChunkEsc;
                } else if c == OPEN {
                    if key.is_none() || chunk.len() != 0 {
                        return Err(failure(ParseErrorKind::MisplacedOpen, pos, name, key));
                    }
                    match StringyNode::read(input, pos) {
                        Ok((child, after)) => {
                            proof {
                                lemma_run_bounds(s, pos + 1, Machine::start());
                            }
                            store(&mut properties, &mut array, key, StringOrSubnode::Subnode(child));
                            key = None;
                            mode = Mode::ForcedSpace;
                            pos = after;
                            continue ;
                        },
                        Err(e) => {
                            return Err(e);
                        },
                    }
                } else {
                    return Err(failure(ParseErrorKind::InvalidValueByte(c), pos, name, key));
                }
            } else if mode == Mode::ChunkEsc {
                if c == QUOTE {
                    store(&mut properties, &mut array, key, StringOrSubnode::Str(chunk));
                    key = None;
                    chunk = Vec::with_capacity(20);
                    mode = Mode::ForcedSpace;
                } else if c == BACKSLASH {
                    mode = Mode::ChunkEscBs;
                } else {
                    chunk.push(c);
                }
            } else if mode == Mode::ChunkEscBs {
                if c == LOWER_T {
                    chunk.push(TAB);
                } else if c == LOWER_N {
                    chunk.push(NEWLINE);
                } else if c == APOSTROPHE {
                    chunk.push(APOSTROPHE);
                } else if c == QUOTE {
                    chunk.push(QUOTE);
                } else if c == BACKSLASH {
                    chunk.push(BACKSLASH);
                } else if c == LOWER_X {
                } else {
                    return Err(failure(ParseErrorKind::InvalidEscape(c), pos, name, key));
                }
                mode = Mode::ChunkEsc;
                if c == LOWER_X {
                    mode = Mode::ChunkEscHex;
                }
            } else {
                match hex_digit(c) {
                    Some(d) => {
                        hex_pair_push(&mut hex, d);
                    },
                    None => {
                        return Err(failure(ParseErrorKind::InvalidHexDigit(c), pos, name, key));
                    },
                }
                if hex_pair_len(&hex) == 2 {
                    let high: u8 = hex_pair_get(&hex, 0);
                    let low: u8 = hex_pair_get(&hex, 1);
                    chunk.push(high * 16 + low);
                    mode = Mode::ChunkEsc;
                    hex_pair_clear(&mut hex);
                }
            }
            pos += 1;
        }
        Err(failure(ParseErrorKind::Truncated, pos, name, key))
    }

    /// Reads the node whose text starts `input`; what follows the node's
    /// closing `]` is not looked at.
    pub fn from_bytes(input: &[u8]) -> (r: Result<StringyNode, ParseError>)
        ensures
            parse_outcome(r) == parse(input@),
    {
        match StringyNode::read(input, 0) {
            Ok((node, _)) => Ok(node),
            Err(e) => Err(e),
        }
    }

    /// Reads the node whose text starts `text`; what follows the node's
    /// closing `]` is not looked at.
    pub fn from_str(text: &str) -> (r: Result<StringyNode, ParseError>)
        ensures
            parse_outcome(r) == parse(text.spec_bytes()),
    {
        StringyNode::from_bytes(text.as_bytes())
    }
}

} // verus!
