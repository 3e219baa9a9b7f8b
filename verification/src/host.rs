//! Values that only the host platform can read.
//!
//! Floating-point numbers, IP addresses and socket addresses are read and
//! printed by the platform's own routines, which verified code cannot
//! call. The caller reads each string of a tree with them beforehand and
//! records what came out; the typed tree then holds such a value as the
//! text that the platform prints for it.

use vstd::prelude::*;
use crate::lexeme::{optional_bytes, same_bytes};
use crate::surface::{StringOrSubnode, StringyNode, SurfaceNode, SurfaceValue};

verus! {

/// What the host reads out of one text: for each kind, the text that it
/// prints for the value read, or `None` where the text is no such value.
#[derive(Clone, Debug, PartialEq, Eq)]
pub struct HostReading {
    pub float: Option<Vec<u8>>,
    pub ip_addr: Option<Vec<u8>>,
    pub sock_addr: Option<Vec<u8>>,
}

/// The mathematical value of a [`HostReading`].
pub struct HostReadingView {
    pub float: Option<Seq<u8>>,
    pub ip_addr: Option<Seq<u8>>,
    pub sock_addr: Option<Seq<u8>>,
}

impl View for HostReading {
    type V = HostReadingView;

    open spec fn view(&self) -> HostReadingView {
        HostReadingView {
            float: optional_bytes(self.float),
            ip_addr: optional_bytes(self.ip_addr),
            sock_addr: optional_bytes(self.sock_addr),
        }
    }
}

/// The readings recorded for the texts of a tree, latest last.
#[derive(Clone, Debug, PartialEq, Eq)]
pub struct HostReadings {
    pub entries: Vec<(Vec<u8>, HostReading)>,
}

impl View for HostReadings {
    type V = Seq<(Seq<u8>, HostReadingView)>;

    open spec fn view(&self) -> Seq<(Seq<u8>, HostReadingView)> {
        Seq::new(self.entries@.len(), |i: int| (self.entries@[i].0@, self.entries@[i].1@))
    }
}

/// The reading recorded for `text`: the latest, where there are several.
pub open spec fn reading_of(entries: Seq<(Seq<u8>, HostReadingView)>, text: Seq<u8>) -> Option<
    HostReadingView,
>
    decreases entries.len(),
{
    if entries.len() == 0 {
        None
    } else if entries.last().0 == text {
        Some(entries.last().1)
    } else {
        reading_of(entries.drop_last(), text)
    }
}

/// The strings of the properties of a node from index `from` on, each
/// followed by those of the nodes nested in it, in the order of the text.
pub open spec fn property_strings(ps: Seq<(Seq<u8>, SurfaceValue)>, from: int) -> Seq<Seq<u8>>
    decreases ps, ps.len() - from,
{
    if 0 <= from < ps.len() {
        value_strings(ps[from].1) + property_strings(ps, from + 1)
    } else {
        Seq::empty()
    }
}

/// The strings of the positional values of a node from index `from` on.
pub open spec fn array_strings(vs: Seq<SurfaceValue>, from: int) -> Seq<Seq<u8>>
    decreases vs, vs.len() - from,
{
    if 0 <= from < vs.len() {
        value_strings(vs[from]) + array_strings(vs, from + 1)
    } else {
        Seq::empty()
    }
}

/// The strings of a value: the string itself, or those of the nested node.
pub open spec fn value_strings(v: SurfaceValue) -> Seq<Seq<u8>>
    decreases v, 0nat,
{
    match v {
        SurfaceValue::Str(s) => seq![s],
        SurfaceValue::Subnode(n) => node_strings(*n),
    }
}

/// Every string value in a node, in the order in which the node is built:
/// those of the properties, then those of the positional values.
pub open spec fn node_strings(n: SurfaceNode) -> Seq<Seq<u8>>
    decreases n, 0nat,
{
    property_strings(n.properties, 0) + array_strings(n.array, 0)
}

/// The byte strings of a list, in order.
pub open spec fn strings_view(vs: Seq<Vec<u8>>) -> Seq<Seq<u8>> {
    Seq::new(vs.len(), |i: int| vs[i]@)
}

impl HostReadings {
    /// No readings.
    pub fn new() -> (r: HostReadings)
        ensures
            r@ == Seq::<(Seq<u8>, HostReadingView)>::empty(),
    {
        let r = HostReadings { entries: Vec::new() };
        assert(r@ =~= Seq::empty());
        r
    }

    /// Records what the host read out of `text`.
    pub fn record(&mut self, text: Vec<u8>, reading: HostReading)
        ensures
            final(self)@ == old(self)@.push((text@, reading@)),
    {
        self.entries.push((text, reading));
        assert(self@ =~= old(self)@.push((text@, reading@)));
    }

    /// The reading recorded for `text`.
    pub fn lookup(&self, text: &[u8]) -> (r: Option<&HostReading>)
        ensures
            match reading_of(self@, text@) {
                Some(reading) => r matches Some(found) && found@ == reading,
                None => r is None,
            },
    {
        let mut i: usize = self.entries.len();
        assert(self@.subrange(0, i as int) =~= self@);
        while i > 0
            invariant
                i <= self.entries.len(),
                reading_of(self@, text@) == reading_of(self@.subrange(0, i as int), text@),
            decreases i,
        {
            let ghost upto = self@.subrange(0, i as int);
            assert(upto.last() == (self.entries@[i - 1].0@, self.entries@[i - 1].1@));
            assert(upto.drop_last() =~= self@.subrange(0, i - 1));
            if same_bytes(self.entries[i - 1].0.as_slice(), text) {
                return Some(&self.entries[i - 1].1);
            }
            i -= 1;
        }
        None
    }
}

impl StringOrSubnode {
    /// Appends the strings of this value to `out`.
    pub fn collect_strings(&self, out: &mut Vec<Vec<u8>>)
        ensures
            strings_view(final(out)@) == strings_view(old(out)@) + value_strings(self@),
        decreases self, 0nat,
    {
        match self {
            StringOrSubnode::Str(s) => {
                out.push(crate::lexeme::copy_bytes(s.as_slice()));
                assert(strings_view(out@) =~= strings_view(old(out)@) + value_strings(self@));
            },
            StringOrSubnode::Subnode(n) => n.collect_strings(out),
        }
    }
}

impl StringyNode {
    /// Appends every string value of this node to `out`, in the order in
    /// which the node is built.
    pub fn collect_strings(&self, out: &mut Vec<Vec<u8>>)
        ensures
            strings_view(final(out)@) == strings_view(old(out)@) + node_strings(self@),
        decreases self, 1nat,
    {
        let ghost start = strings_view(out@);
        let mut i: usize = 0;
        while i < self.properties.len()
            invariant
                i <= self.properties.len(),
                strings_view(out@) + property_strings(self@.properties, i as int) == start
                    + property_strings(self@.properties, 0),
            decreases self.properties.len() - i,
        {
            let ghost before = strings_view(out@);
            self.properties[i].1.collect_strings(out);
            proof {
                let ps = self@.properties;
                assert(ps[i as int].1 == self.properties@[i as int].1@);
                assert(strings_view(out@) + property_strings(ps, i + 1) =~= before
                    + property_strings(ps, i as int));
            }
            i += 1;
        }
        let ghost middle = strings_view(out@);
        let mut j: usize = 0;
        while j < self.array.len()
            invariant
                j <= self.array.len(),
                strings_view(out@) + array_strings(self@.array, j as int) == middle
                    + array_strings(self@.array, 0),
            decreases self.array.len() - j,
        {
            let ghost before = strings_view(out@);
            self.array[j].collect_strings(out);
            proof {
                let vs = self@.array;
                assert(vs[j as int] == self.array@[j as int]@);
                assert(strings_view(out@) + array_strings(vs, j + 1) =~= before + array_strings(
                    vs,
                    j as int,
                ));
            }
            j += 1;
        }
        proof {
            assert(property_strings(self@.properties, self.properties.len() as int) =~= Seq::<
                Seq<u8>,
            >::empty());
            assert(array_strings(self@.array, self.array.len() as int) =~= Seq::<Seq<u8>>::empty());
            assert(middle =~= start + property_strings(self@.properties, 0));
            assert(strings_view(out@) =~= start + node_strings(self@));
        }
    }

    /// Every string value of this node, in the order in which the node is
    /// built: the texts that the host has to read before the node is built.
    pub fn strings(&self) -> (r: Vec<Vec<u8>>)
        ensures
            strings_view(r@) == node_strings(self@),
    {
        let mut out: Vec<Vec<u8>> = Vec::new();
        assert(strings_view(out@) =~= Seq::<Seq<u8>>::empty());
        self.collect_strings(&mut out);
        assert(strings_view(out@) =~= node_strings(self@));
        out
    }
}

} // verus!
