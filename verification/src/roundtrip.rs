//! What printing and reading do to each other.
//!
//! The text that the printer gives for a well-formed tree reads back as
//! that tree, every tree that the reader gives is well formed, and the
//! reader looks at nothing behind the `]` that closes the node.

use vstd::prelude::*;
use crate::grammar::{lemma_run_bounds, parse_node, run, step, Machine, Mode, ParseFailure, Step};
use crate::lexeme::{
    all_ident_bytes, escape_byte, escape_bytes, hex_char, hex_value, is_bare, is_ident_byte,
    is_identifier, is_plain_byte, BACKSLASH, CLOSE, EQUALS, NEWLINE, OPEN, QUOTE, SPACE, TAB,
};
use crate::parser::parse;
use crate::printer::{print_array, print_node, print_properties, print_value};
use crate::surface::{SurfaceNode, SurfaceValue};

verus! {

/// The bytes of `t` stand in `s` from index `p` on.
pub open spec fn holds_at(s: Seq<u8>, p: int, t: Seq<u8>) -> bool {
    &&& 0 <= p
    &&& p + t.len() <= s.len()
    &&& forall|i: int| 0 <= i < t.len() ==> s[p + i] == #[trigger] t[i]
}

/// The state between two elements of a node: the name is complete and
/// nothing is pending or collected.
pub open spec fn between(m: Machine) -> bool {
    &&& m.mode == Mode::Space
    &&& m.name is Some
    &&& m.key is None
    &&& m.chunk == Seq::<u8>::empty()
    &&& m.hex == Seq::<u8>::empty()
}

/// A state in which a value may start: between two elements, or right
/// after the `=` of a property.
pub open spec fn awaiting(m: Machine) -> bool {
    ||| between(m)
    ||| {
        &&& m.mode == Mode::Chunk
        &&& m.name is Some
        &&& m.key is Some
        &&& m.chunk == Seq::<u8>::empty()
        &&& m.hex == Seq::<u8>::empty()
    }
}

/// The state between two elements after the value `v` was read in state `m`.
pub open spec fn settled(m: Machine, v: SurfaceValue) -> Machine {
    Machine { mode: Mode::Space, chunk: Seq::empty(), ..m.absorb(v, Mode::Space) }
}

/// What follows the properties from index `i` on in the text of `n`.
pub open spec fn tail_from_property(n: SurfaceNode, i: int) -> Seq<u8> {
    print_properties(n.properties, i) + print_array(n.array, 0) + seq![CLOSE]
}

/// What follows the positional values from index `j` on in the text of `n`.
pub open spec fn tail_from_element(n: SurfaceNode, j: int) -> Seq<u8> {
    print_array(n.array, j) + seq![CLOSE]
}

/// The state between two elements of `n` when its first `i` properties and
/// its first `j` positional values have been read.
pub open spec fn progress(n: SurfaceNode, i: int, j: int) -> Machine {
    Machine {
        mode: Mode::Space,
        name: Some(n.name),
        chunk: Seq::empty(),
        key: None,
        hex: Seq::empty(),
        properties: n.properties.subrange(0, i),
        array: n.array.subrange(0, j),
    }
}

proof fn lemma_holds_at_split(s: Seq<u8>, p: int, a: Seq<u8>, b: Seq<u8>)
    requires
        holds_at(s, p, a + b),
    ensures
        holds_at(s, p, a),
        holds_at(s, p + a.len(), b),
{
    assert forall|i: int| 0 <= i < a.len() implies s[p + i] == #[trigger] a[i] by {
        assert((a + b)[i] == a[i]);
    }
    assert forall|i: int| 0 <= i < b.len() implies s[p + a.len() + i] == #[trigger] b[i] by {
        assert((a + b)[a.len() + i] == b[i]);
    }
}

proof fn lemma_holds_at_first(s: Seq<u8>, p: int, t: Seq<u8>)
    requires
        holds_at(s, p, t),
        t.len() > 0,
    ensures
        p < s.len(),
        s[p] == t[0],
{
    assert(s[p + 0] == t[0]);
}

/// A run of identifier bytes is collected as it stands.
proof fn lemma_collect_idents(s: Seq<u8>, p: int, m: Machine, t: Seq<u8>)
    requires
        m.mode == Mode::BeforeName || m.mode == Mode::Name || m.mode == Mode::Space || m.mode
            == Mode::Chunk,
        all_ident_bytes(t),
        t.len() > 0,
        holds_at(s, p, t),
    ensures
        run(s, p, m) == run(
            s,
            p + t.len(),
            Machine {
                mode: if m.mode == Mode::BeforeName || m.mode == Mode::Name {
                    Mode::Name
                } else {
                    Mode::Chunk
                },
                chunk: m.chunk + t,
                ..m
            },
        ),
    decreases t.len(),
{
    lemma_holds_at_first(s, p, t);
    let after = if m.mode == Mode::BeforeName || m.mode == Mode::Name {
        Mode::Name
    } else {
        Mode::Chunk
    };
    let m1 = m.collect(t[0], after);
    assert(step(m, s[p]) == Step::Next(m1));
    assert(run(s, p, m) == run(s, p + 1, m1));
    let rest = t.subrange(1, t.len() as int);
    assert(t =~= seq![t[0]] + rest);
    if rest.len() > 0 {
        lemma_holds_at_split(s, p, seq![t[0]], rest);
        lemma_collect_idents(s, p + 1, m1, rest);
        assert(m1.chunk + rest =~= m.chunk + t);
    } else {
        assert(m1.chunk =~= m.chunk + t);
    }
}

proof fn lemma_hex_char(v: u8)
    requires
        v < 16,
    ensures
        hex_value(hex_char(v)) == Some(v),
{
}

/// Inside a quoted string the escaped form of a byte is read as that byte.
proof fn lemma_read_escaped_byte(s: Seq<u8>, p: int, m: Machine, b: u8)
    requires
        m.mode == Mode::ChunkEsc,
        m.hex == Seq::<u8>::empty(),
        holds_at(s, p, escape_byte(b)),
    ensures
        run(s, p, m) == run(s, p + escape_byte(b).len(), m.collect(b, Mode::ChunkEsc)),
{
    let e = escape_byte(b);
    lemma_holds_at_first(s, p, e);
    if b == TAB || b == NEWLINE || b == QUOTE || b == BACKSLASH {
        assert(s[p + 1] == e[1]);
        let m1 = m.turn(Mode::ChunkEscBs);
        assert(step(m, s[p]) == Step::Next(m1));
        assert(run(s, p, m) == run(s, p + 1, m1));
        assert(step(m1, s[p + 1]) == Step::Next(m1.collect(b, Mode::ChunkEsc)));
        assert(run(s, p + 1, m1) == run(s, p + 2, m1.collect(b, Mode::ChunkEsc)));
        assert(m1.collect(b, Mode::ChunkEsc) == m.collect(b, Mode::ChunkEsc));
    } else if is_plain_byte(b) {
        assert(step(m, s[p]) == Step::Next(m.collect(b, Mode::ChunkEsc)));
    } else {
        assert(s[p + 1] == e[1]);
        assert(s[p + 2] == e[2]);
        assert(s[p + 3] == e[3]);
        let high: u8 = b / 16;
        let low: u8 = b % 16;
        lemma_hex_char(high);
        lemma_hex_char(low);
        let m1 = m.turn(Mode::ChunkEscBs);
        let m2 = m.turn(Mode::ChunkEscHex);
        let m3 = Machine { hex: m2.hex.push(high), ..m2 };
        let m4 = Machine {
            mode: Mode::ChunkEsc,
            chunk: m3.chunk.push((m3.hex[0] * 16 + low) as u8),
            hex: Seq::empty(),
            ..m3
        };
        assert(step(m, s[p]) == Step::Next(m1));
        assert(run(s, p, m) == run(s, p + 1, m1));
        assert(step(m1, s[p + 1]) == Step::Next(m2));
        assert(run(s, p + 1, m1) == run(s, p + 2, m2));
        assert(step(m2, s[p + 2]) == Step::Next(m3));
        assert(run(s, p + 2, m2) == run(s, p + 3, m3));
        assert(m3.hex.len() == 1);
        assert(step(m3, s[p + 3]) == Step::Next(m4));
        assert(run(s, p + 3, m3) == run(s, p + 4, m4));
        assert(high * 16 + low == b);
        assert(m4 == m.collect(b, Mode::ChunkEsc));
    }
}

/// Inside a quoted string the escaped form of a string is read as that string.
proof fn lemma_read_escaped(s: Seq<u8>, p: int, m: Machine, t: Seq<u8>)
    requires
        m.mode == Mode::ChunkEsc,
        m.hex == Seq::<u8>::empty(),
        holds_at(s, p, escape_bytes(t)),
    ensures
        run(s, p, m) == run(s, p + escape_bytes(t).len(), Machine { chunk: m.chunk + t, ..m }),
    decreases t.len(),
{
    if t.len() == 0 {
        assert(m.chunk + t =~= m.chunk);
    } else {
        let front = t.drop_last();
        lemma_holds_at_split(s, p, escape_bytes(front), escape_byte(t.last()));
        lemma_read_escaped(s, p, m, front);
        let m1 = Machine { chunk: m.chunk + front, ..m };
        lemma_read_escaped_byte(s, p + escape_bytes(front).len(), m1, t.last());
        assert((m.chunk + front).push(t.last()) =~= m.chunk + t);
    }
}

/// The text of a value, read where a value may start, leaves the reader
/// with that value stored: a space behind it leads on between the
/// elements, a `]` behind it closes the node.
proof fn lemma_read_value(s: Seq<u8>, p: int, m: Machine, v: SurfaceValue)
    requires
        awaiting(m),
        v.wf(),
        holds_at(s, p, print_value(v)),
        p + print_value(v).len() < s.len(),
    ensures
        s[p + print_value(v).len()] == SPACE ==> run(s, p, m) == run(
            s,
            p + print_value(v).len() + 1,
            settled(m, v),
        ),
        s[p + print_value(v).len()] == CLOSE ==> run(s, p, m) == Ok::<
            (SurfaceNode, int),
            ParseFailure,
        >((settled(m, v).node(), p + print_value(v).len() + 1)),
    decreases v, 0nat, 0nat,
{
    let text = print_value(v);
    let q = p + text.len();
    match v {
        SurfaceValue::Str(t) => {
            if is_bare(t) {
                lemma_collect_idents(s, p, m, t);
                let mb = Machine { mode: Mode::Chunk, chunk: m.chunk + t, ..m };
                assert(run(s, p, m) == run(s, q, mb));
                assert(mb.chunk =~= t);
                assert(mb.flush(Mode::Space) == settled(m, v));
                if s[q] == SPACE {
                    assert(step(mb, s[q]) == Step::Next(mb.flush(Mode::Space)));
                    assert(run(s, q, mb) == run(s, q + 1, settled(m, v)));
                } else if s[q] == CLOSE {
                    assert(step(mb, s[q]) == Step::Finish(mb.flush(Mode::Space)));
                }
            } else {
                let body = escape_bytes(t);
                assert(text == seq![QUOTE] + body + seq![QUOTE]);
                lemma_holds_at_split(s, p, seq![QUOTE] + body, seq![QUOTE]);
                lemma_holds_at_split(s, p, seq![QUOTE], body);
                lemma_holds_at_first(s, p, seq![QUOTE]);
                lemma_holds_at_first(s, p + 1 + body.len(), seq![QUOTE]);
                let m1 = m.turn(Mode::ChunkEsc);
                assert(step(m, s[p]) == Step::Next(m1));
                assert(run(s, p, m) == run(s, p + 1, m1));
                lemma_read_escaped(s, p + 1, m1, t);
                let m2 = Machine { chunk: m1.chunk + t, ..m1 };
                assert(m2.chunk =~= t);
                let m3 = m2.flush(Mode::ForcedSpace);
                assert(step(m2, s[q - 1]) == Step::Next(m3));
                assert(run(s, q - 1, m2) == run(s, q, m3));
                assert(m3.turn(Mode::Space) == settled(m, v));
                if s[q] == SPACE {
                    assert(step(m3, s[q]) == Step::Next(m3.turn(Mode::Space)));
                    assert(run(s, q, m3) == run(s, q + 1, settled(m, v)));
                } else if s[q] == CLOSE {
                    assert(step(m3, s[q]) == Step::Finish(m3));
                    assert(m3.node() == settled(m, v).node());
                }
            }
        },
        SurfaceValue::Subnode(child) => {
            lemma_read_node(s, p, *child);
            lemma_holds_at_first(s, p, print_node(*child));
            assert(print_node(*child)[0] == OPEN);
            assert(step(m, s[p]) == Step::Descend);
            let m1 = m.absorb(v, Mode::ForcedSpace);
            assert(run(s, p, m) == run(s, q, m1));
            assert(m1.turn(Mode::Space) == settled(m, v));
            if s[q] == SPACE {
                assert(step(m1, s[q]) == Step::Next(m1.turn(Mode::Space)));
                assert(run(s, q, m1) == run(s, q + 1, settled(m, v)));
            } else if s[q] == CLOSE {
                assert(step(m1, s[q]) == Step::Finish(m1));
                assert(m1.node() == settled(m, v).node());
            }
        },
    }
}

/// The rest of a node's text behind its first `j` positional values is
/// read to the end of the node.
proof fn lemma_read_elements(
    s: Seq<u8>,
    p: int,
    n: SurfaceNode,
    j: int,
    whole: Result<(SurfaceNode, int), ParseFailure>,
)
    requires
        n.wf(),
        0 <= j <= n.array.len(),
        holds_at(s, p, tail_from_element(n, j)),
        s[p] == SPACE ==> whole == run(s, p + 1, progress(n, n.properties.len() as int, j)),
        s[p] == CLOSE ==> whole == Ok::<(SurfaceNode, int), ParseFailure>(
            (progress(n, n.properties.len() as int, j).node(), p + 1),
        ),
    ensures
        whole == Ok::<(SurfaceNode, int), ParseFailure>((n, p + tail_from_element(n, j).len())),
    decreases n, 1nat, n.array.len() - j,
{
    let np = n.properties.len() as int;
    let here = progress(n, np, j);
    lemma_holds_at_first(s, p, tail_from_element(n, j));
    if j < n.array.len() {
        let v = n.array[j];
        let text = print_value(v);
        let rest = tail_from_element(n, j + 1);
        assert(tail_from_element(n, j) =~= seq![SPACE] + text + rest);
        lemma_holds_at_split(s, p, seq![SPACE] + text, rest);
        lemma_holds_at_split(s, p, seq![SPACE], text);
        lemma_holds_at_first(s, p + 1 + text.len(), rest);
        assert(rest[0] == SPACE || rest[0] == CLOSE) by {
            if j + 1 < n.array.len() {
                assert(print_array(n.array, j + 1)[0] == SPACE);
            }
        }
        lemma_read_value(s, p + 1, here, v);
        assert(settled(here, v) == progress(n, np, j + 1)) by {
            assert(here.array.push(v) =~= n.array.subrange(0, j + 1));
        }
        lemma_read_elements(s, p + 1 + text.len(), n, j + 1, whole);
    } else {
        assert(print_array(n.array, j) =~= Seq::<u8>::empty());
        assert(tail_from_element(n, j) =~= seq![CLOSE]);
        assert(here.node() == n) by {
            assert(n.properties.subrange(0, np) =~= n.properties);
            assert(n.array.subrange(0, j) =~= n.array);
        }
    }
}

/// The rest of a node's text behind its first `i` properties is read to
/// the end of the node.
proof fn lemma_read_properties(
    s: Seq<u8>,
    p: int,
    n: SurfaceNode,
    i: int,
    whole: Result<(SurfaceNode, int), ParseFailure>,
)
    requires
        n.wf(),
        0 <= i <= n.properties.len(),
        holds_at(s, p, tail_from_property(n, i)),
        s[p] == SPACE ==> whole == run(s, p + 1, progress(n, i, 0)),
        s[p] == CLOSE ==> whole == Ok::<(SurfaceNode, int), ParseFailure>(
            (progress(n, i, 0).node(), p + 1),
        ),
    ensures
        whole == Ok::<(SurfaceNode, int), ParseFailure>((n, p + tail_from_property(n, i).len())),
    decreases n, 2nat, n.properties.len() - i,
{
    let here = progress(n, i, 0);
    if i < n.properties.len() {
        let key = n.properties[i].0;
        let v = n.properties[i].1;
        let text = print_value(v);
        let rest = tail_from_property(n, i + 1);
        assert(tail_from_property(n, i) =~= seq![SPACE] + key + seq![EQUALS] + text + rest);
        lemma_holds_at_split(s, p, seq![SPACE] + key + seq![EQUALS] + text, rest);
        lemma_holds_at_split(s, p, seq![SPACE] + key + seq![EQUALS], text);
        lemma_holds_at_split(s, p, seq![SPACE] + key, seq![EQUALS]);
        lemma_holds_at_split(s, p, seq![SPACE], key);
        lemma_holds_at_first(s, p, seq![SPACE]);
        lemma_holds_at_first(s, p + 1 + key.len(), seq![EQUALS]);
        lemma_holds_at_first(s, p + 2 + key.len() + text.len(), rest);
        assert(rest[0] == SPACE || rest[0] == CLOSE) by {
            if i + 1 < n.properties.len() {
                assert(print_properties(n.properties, i + 1)[0] == SPACE);
            } else {
                assert(print_properties(n.properties, i + 1) =~= Seq::<u8>::empty());
                if 0 < n.array.len() {
                    assert(print_array(n.array, 0)[0] == SPACE);
                } else {
                    assert(print_array(n.array, 0) =~= Seq::<u8>::empty());
                }
            }
        }
        assert(is_identifier(key));
        lemma_collect_idents(s, p + 1, here, key);
        let m1 = Machine { mode: Mode::Chunk, chunk: here.chunk + key, ..here };
        assert(m1.chunk =~= key);
        let m2 = Machine { key: Some(m1.chunk), chunk: Seq::empty(), ..m1 };
        assert(!is_ident_byte(EQUALS));
        assert(step(m1, s[p + 1 + key.len()]) == Step::Next(m2));
        assert(run(s, p + 1 + key.len(), m1) == run(s, p + 2 + key.len(), m2));
        lemma_read_value(s, p + 2 + key.len(), m2, v);
        assert(settled(m2, v) == progress(n, i + 1, 0)) by {
            assert(here.properties.push((key, v)) =~= n.properties.subrange(0, i + 1));
        }
        lemma_read_properties(s, p + 2 + key.len() + text.len(), n, i + 1, whole);
    } else {
        assert(print_properties(n.properties, i) =~= Seq::<u8>::empty());
        assert(tail_from_property(n, i) =~= tail_from_element(n, 0));
        lemma_read_elements(s, p, n, 0, whole);
    }
}

/// The text of a well-formed node, wherever it stands in an input, is
/// read as that node, up to the end of the text.
pub proof fn lemma_read_node(s: Seq<u8>, p: int, n: SurfaceNode)
    requires
        n.wf(),
        holds_at(s, p, print_node(n)),
    ensures
        parse_node(s, p) == Ok::<(SurfaceNode, int), ParseFailure>((n, p + print_node(n).len())),
    decreases n, 3nat, 0nat,
{
    let tail = tail_from_property(n, 0);
    assert(print_node(n) =~= seq![OPEN] + n.name + tail);
    lemma_holds_at_split(s, p, seq![OPEN] + n.name, tail);
    lemma_holds_at_split(s, p, seq![OPEN], n.name);
    lemma_holds_at_first(s, p, seq![OPEN]);
    lemma_collect_idents(s, p + 1, Machine::start(), n.name);
    let m1 = Machine { mode: Mode::Name, chunk: Machine::start().chunk + n.name, ..Machine::start() };
    assert(m1.chunk =~= n.name);
    let q = p + 1 + n.name.len();
    lemma_holds_at_first(s, q, tail);
    assert(m1.named(Mode::Space) == progress(n, 0, 0)) by {
        assert(n.properties.subrange(0, 0) =~= Seq::empty());
        assert(n.array.subrange(0, 0) =~= Seq::empty());
    }
    let whole = parse_node(s, p);
    assert(whole == run(s, q, m1));
    if s[q] == SPACE {
        assert(step(m1, s[q]) == Step::Next(m1.named(Mode::Space)));
    } else if s[q] == CLOSE {
        assert(step(m1, s[q]) == Step::Finish(m1.named(Mode::Space)));
    }
    lemma_read_properties(s, q, n, 0, whole);
}

/// Reading the canonical text of a well-formed tree gives the tree back.
pub proof fn theorem_print_then_parse(n: SurfaceNode)
    requires
        n.wf(),
    ensures
        parse(print_node(n)) == Ok::<SurfaceNode, ParseFailure>(n),
{
    lemma_read_node(print_node(n), 0, n);
}

/// What holds of the reader's state at every byte: a complete name or key
/// is an identifier, what was stored is well formed, a name or a bare word
/// in the making is made of identifier bytes, and no bytes are kept
/// between two elements.
pub open spec fn sound(m: Machine) -> bool {
    &&& m.name matches Some(name) ==> is_identifier(name)
    &&& m.key matches Some(key) ==> is_identifier(key)
    &&& forall|i: int|
        0 <= i < m.properties.len() ==> is_identifier((#[trigger] m.properties[i]).0)
            && m.properties[i].1.wf()
    &&& forall|i: int| 0 <= i < m.array.len() ==> (#[trigger] m.array[i]).wf()
    &&& match m.mode {
        Mode::BeforeName => m.chunk.len() == 0,
        Mode::Name => is_identifier(m.chunk),
        Mode::Space | Mode::ForcedSpace => m.chunk.len() == 0,
        Mode::Chunk => all_ident_bytes(m.chunk) && (m.key is None ==> m.chunk.len() > 0),
        _ => true,
    }
}

proof fn lemma_step_sound(m: Machine, c: u8)
    requires
        sound(m),
    ensures
        step(m, c) matches Step::Next(next) ==> sound(next),
        step(m, c) matches Step::Finish(last) ==> sound(last),
        step(m, c) is Descend ==> m.chunk.len() == 0,
{
}

proof fn lemma_absorb_sound(m: Machine, child: SurfaceNode)
    requires
        sound(m),
        m.chunk.len() == 0,
        child.wf(),
    ensures
        sound(m.absorb(SurfaceValue::Subnode(Box::new(child)), Mode::ForcedSpace)),
{
}

/// Whatever the reader gives from a sound state is well formed.
pub proof fn lemma_run_well_formed(s: Seq<u8>, pos: int, m: Machine)
    requires
        0 <= pos,
        sound(m),
    ensures
        run(s, pos, m) matches Ok((node, _)) ==> node.wf(),
    decreases s.len() - pos,
{
    if pos < s.len() {
        lemma_step_sound(m, s[pos]);
        match step(m, s[pos]) {
            Step::Next(next) => lemma_run_well_formed(s, pos + 1, next),
            Step::Descend => {
                lemma_run_well_formed(s, pos + 1, Machine::start());
                match run(s, pos + 1, Machine::start()) {
                    Ok((child, after)) => {
                        if pos < after <= s.len() {
                            lemma_absorb_sound(m, child);
                            lemma_run_well_formed(
                                s,
                                after,
                                m.absorb(SurfaceValue::Subnode(Box::new(child)), Mode::ForcedSpace),
                            );
                        }
                    },
                    Err(_) => {},
                }
            },
            _ => {},
        }
    }
}

/// A reading that succeeds stops right behind a `]`.
pub proof fn lemma_run_stops_at_close(s: Seq<u8>, pos: int, m: Machine)
    requires
        0 <= pos,
    ensures
        run(s, pos, m) matches Ok((_, end)) ==> pos < end <= s.len() && s[end - 1] == CLOSE,
    decreases s.len() - pos,
{
    if pos < s.len() {
        match step(m, s[pos]) {
            Step::Next(next) => lemma_run_stops_at_close(s, pos + 1, next),
            Step::Descend => {
                lemma_run_bounds(s, pos + 1, Machine::start());
                match run(s, pos + 1, Machine::start()) {
                    Ok((child, after)) => {
                        lemma_run_stops_at_close(
                            s,
                            after,
                            m.absorb(SurfaceValue::Subnode(Box::new(child)), Mode::ForcedSpace),
                        );
                    },
                    Err(_) => {},
                }
            },
            _ => {},
        }
    }
}

/// A reading that succeeds depends on no byte behind its end: on an input
/// with the same bytes up to there it comes to the same.
pub proof fn lemma_run_local(s: Seq<u8>, other: Seq<u8>, pos: int, m: Machine)
    requires
        0 <= pos,
        run(s, pos, m) is Ok,
        run(s, pos, m)->Ok_0.1 <= other.len(),
        forall|i: int| pos <= i < run(s, pos, m)->Ok_0.1 ==> s[i] == other[i],
    ensures
        run(other, pos, m) == run(s, pos, m),
    decreases s.len() - pos,
{
    let end = run(s, pos, m)->Ok_0.1;
    lemma_run_bounds(s, pos, m);
    match step(m, s[pos]) {
        Step::Next(next) => lemma_run_local(s, other, pos + 1, next),
        Step::Descend => {
            lemma_run_bounds(s, pos + 1, Machine::start());
            match run(s, pos + 1, Machine::start()) {
                Ok((child, after)) => {
                    let onward = m.absorb(SurfaceValue::Subnode(Box::new(child)), Mode::ForcedSpace);
                    lemma_run_bounds(s, after, onward);
                    lemma_run_local(s, other, pos + 1, Machine::start());
                    lemma_run_local(s, other, after, onward);
                },
                Err(_) => {},
            }
        },
        _ => {},
    }
}

/// Every tree that the reader gives is well formed, and its canonical
/// text reads back as the same tree.
pub proof fn theorem_parse_then_print(input: Seq<u8>)
    ensures
        parse(input) matches Ok(node) ==> node.wf() && parse(print_node(node)) == Ok::<
            SurfaceNode,
            ParseFailure,
        >(node),
{
    if parse(input) is Ok {
        lemma_run_well_formed(input, 1, Machine::start());
        theorem_print_then_parse(parse(input)->Ok_0);
    }
}

/// The reader looks at its node only: a node read from index `start` ends
/// right behind a `]` inside the input, and every input with the same
/// bytes from `start` to that end gives the same node and the same end.
pub proof fn theorem_reads_one_node(input: Seq<u8>, other: Seq<u8>, start: int)
    requires
        parse_node(input, start) is Ok,
        parse_node(input, start)->Ok_0.1 <= other.len(),
        forall|i: int| start <= i < parse_node(input, start)->Ok_0.1 ==> input[i] == other[i],
    ensures
        start < parse_node(input, start)->Ok_0.1 <= input.len(),
        input[parse_node(input, start)->Ok_0.1 - 1] == CLOSE,
        parse_node(other, start) == parse_node(input, start),
{
    lemma_run_bounds(input, start + 1, Machine::start());
    lemma_run_stops_at_close(input, start + 1, Machine::start());
    lemma_run_local(input, other, start + 1, Machine::start());
}

} // verus!
