//! The canonical text of a surface tree.

use vstd::prelude::*;
use crate::lexeme::{
    bare, escape_bytes, is_bare, push_all, push_escaped, CLOSE, EQUALS, OPEN, QUOTE, SPACE,
};
use crate::surface::{StringOrSubnode, StringyNode, SurfaceNode, SurfaceValue};

verus! {

/// The text of a string value: the bytes themselves where they can stand
/// bare, else the escaped bytes between quotes.
pub open spec fn print_string(s: Seq<u8>) -> Seq<u8> {
    if is_bare(s) {
        s
    } else {
        seq![QUOTE] + escape_bytes(s) + seq![QUOTE]
    }
}

/// The text of a value: that of the string, or that of the nested node.
pub open spec fn print_value(v: SurfaceValue) -> Seq<u8>
    decreases v, 0nat,
{
    match v {
        SurfaceValue::Str(s) => print_string(s),
        SurfaceValue::Subnode(n) => print_node(*n),
    }
}

/// The text of the properties from index `from` on: for each, a space, the
/// key, `=`, and the value.
pub open spec fn print_properties(ps: Seq<(Seq<u8>, SurfaceValue)>, from: int) -> Seq<u8>
    decreases ps, ps.len() - from,
{
    if 0 <= from < ps.len() {
        seq![SPACE] + ps[from].0 + seq![EQUALS] + print_value(ps[from].1) + print_properties(
            ps,
            from + 1,
        )
    } else {
        Seq::empty()
    }
}

/// The text of the positional values from index `from` on: for each, a
/// space and the value.
pub open spec fn print_array(vs: Seq<SurfaceValue>, from: int) -> Seq<u8>
    decreases vs, vs.len() - from,
{
    if 0 <= from < vs.len() {
        seq![SPACE] + print_value(vs[from]) + print_array(vs, from + 1)
    } else {
        Seq::empty()
    }
}

/// The canonical text of a node: `[`, the name, the properties, the
/// positional values, `]`.
pub open spec fn print_node(n: SurfaceNode) -> Seq<u8>
    decreases n, 0nat,
{
    seq![OPEN] + n.name + print_properties(n.properties, 0) + print_array(n.array, 0) + seq![
        CLOSE,
    ]
}

/// Appends the text of a string value to `out`.
pub fn write_string(out: &mut Vec<u8>, s: &[u8])
    ensures
        final(out)@ == old(out)@ + print_string(s@),
{
    if bare(s) {
        push_all(out, s);
    } else {
        out.push(QUOTE);
        let mut i: usize = 0;
        while i < s.len()
            invariant
                i <= s.len(),
                out@ == old(out)@ + seq![QUOTE] + escape_bytes(s@.subrange(0, i as int)),
            decreases s.len() - i,
        {
            push_escaped(out, s[i]);
            proof {
                let longer = s@.subrange(0, i + 1);
                assert(longer.drop_last() =~= s@.subrange(0, i as int));
                assert(longer.last() == s@[i as int]);
                assert(out@ =~= old(out)@ + seq![QUOTE] + escape_bytes(longer));
            }
            i += 1;
        }
        out.push(QUOTE);
        assert(s@.subrange(0, s@.len() as int) =~= s@);
        assert(out@ =~= old(out)@ + print_string(s@));
    }
}

impl StringOrSubnode {
    /// Appends the text of this value to `out`.
    pub fn write_to(&self, out: &mut Vec<u8>)
        ensures
            final(out)@ == old(out)@ + print_value(self@),
        decreases self, 0nat,
    {
        match self {
            StringOrSubnode::Str(s) => write_string(out, s.as_slice()),
            StringOrSubnode::Subnode(n) => n.write_to(out),
        }
    }
}

impl StringyNode {
    /// Appends the canonical text of this node to `out`.
    pub fn write_to(&self, out: &mut Vec<u8>)
        ensures
            final(out)@ == old(out)@ + print_node(self@),
        decreases self, 1nat,
    {
        out.push(OPEN);
        push_all(out, self.name.0.as_slice());
        let ghost head = out@;
        let mut i: usize = 0;
        while i < self.properties.len()
            invariant
                i <= self.properties.len(),
                out@ + print_properties(self@.properties, i as int) == head + print_properties(
                    self@.properties,
                    0,
                ),
            decreases self.properties.len() - i,
        {
            let ghost before = out@;
            out.push(SPACE);
            push_all(out, self.properties[i].0.0.as_slice());
            out.push(EQUALS);
            self.properties[i].1.write_to(out);
            proof {
                let ps = self@.properties;
                assert(ps[i as int] == (self.properties@[i as int].0@, self.properties@[i as int].1@));
                assert(out@ + print_properties(ps, i + 1) =~= before + print_properties(
                    ps,
                    i as int,
                ));
            }
            i += 1;
        }
        let ghost middle = out@;
        let mut j: usize = 0;
        while j < self.array.len()
            invariant
                j <= self.array.len(),
                out@ + print_array(self@.array, j as int) == middle + print_array(self@.array, 0),
            decreases self.array.len() - j,
        {
            let ghost before = out@;
            out.push(SPACE);
            self.array[j].write_to(out);
            proof {
                let vs = self@.array;
                assert(vs[j as int] == self.array@[j as int]@);
                assert(out@ + print_array(vs, j + 1) =~= before + print_array(vs, j as int));
            }
            j += 1;
        }
        out.push(CLOSE);
        proof {
            assert(print_properties(self@.properties, self.properties.len() as int) =~= Seq::<
                u8,
            >::empty());
            assert(print_array(self@.array, self.array.len() as int) =~= Seq::<u8>::empty());
            assert(middle =~= head + print_properties(self@.properties, 0));
            assert(out@ =~= middle + print_array(self@.array, 0) + seq![CLOSE]);
            assert(head =~= old(out)@ + seq![OPEN] + self@.name);
            assert(out@ =~= old(out)@ + print_node(self@));
        }
    }

    /// The canonical text of this node.
    pub fn to_bytes(&self) -> (r: Vec<u8>)
        ensures
            r@ == print_node(self@),
    {
        let mut out: Vec<u8> = Vec::new();
        self.write_to(&mut out);
        assert(out@ =~= print_node(self@));
        out
    }
}

} // verus!
