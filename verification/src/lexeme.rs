//! Byte classes of the surface syntax and the escapes of quoted strings.

use vstd::prelude::*;

verus! {

/// `[`, which opens a node.
pub const OPEN: u8 = 0x5b;

/// `]`, which closes a node.
pub const CLOSE: u8 = 0x5d;

/// The space between the elements of a node.
pub const SPACE: u8 = 0x20;

/// `=`, between a property's key and its value.
pub const EQUALS: u8 = 0x3d;

/// `"`, around a quoted string.
pub const QUOTE: u8 = 0x22;

/// `\`, which starts an escape in a quoted string.
pub const BACKSLASH: u8 = 0x5c;

/// `'`, which a quoted string may hold escaped or as it is.
pub const APOSTROPHE: u8 = 0x27;

/// The horizontal tab, written `\t` in a quoted string.
pub const TAB: u8 = 0x09;

/// The line feed, written `\n` in a quoted string.
pub const NEWLINE: u8 = 0x0a;

/// The letter `t` of the escape `\t`.
pub const LOWER_T: u8 = 0x74;

/// The letter `n` of the escape `\n`.
pub const LOWER_N: u8 = 0x6e;

/// The letter `x` of the escape `\xNN`.
pub const LOWER_X: u8 = 0x78;

/// The digit `0`.
pub const DIGIT_0: u8 = 0x30;

/// The digit `9`.
pub const DIGIT_9: u8 = 0x39;

/// The letter `a`.
pub const LOWER_A: u8 = 0x61;

/// The letter `f`.
pub const LOWER_F: u8 = 0x66;

/// The letter `z`.
pub const LOWER_Z: u8 = 0x7a;

/// The letter `A`.
pub const UPPER_A: u8 = 0x41;

/// The letter `F`.
pub const UPPER_F: u8 = 0x46;

/// The letter `Z`.
pub const UPPER_Z: u8 = 0x5a;

/// The bytes an identifier or a bare value may hold: ASCII letters and
/// digits, the punctuation `_ : ? @ . / # &`, and every byte from `0x80` up.
pub open spec fn is_ident_byte(b: u8) -> bool {
    ||| DIGIT_0 <= b <= DIGIT_9
    ||| LOWER_A <= b <= LOWER_Z
    ||| UPPER_A <= b <= UPPER_Z
    ||| b == 0x5f
    ||| b == 0x3a
    ||| b == 0x3f
    ||| b == 0x40
    ||| b == 0x2e
    ||| b == 0x2f
    ||| b == 0x23
    ||| b == 0x26
    ||| b >= 0x80
}

/// A run of identifier bytes, possibly empty.
pub open spec fn all_ident_bytes(s: Seq<u8>) -> bool {
    forall|i: int| 0 <= i < s.len() ==> is_ident_byte(#[trigger] s[i])
}

/// An identifier: a non-empty run of identifier bytes.
pub open spec fn is_identifier(s: Seq<u8>) -> bool {
    s.len() > 0 && all_ident_bytes(s)
}

/// Whether `b` may stand in an identifier or a bare value.
pub fn identchar(b: u8) -> (r: bool)
    ensures
        r == is_ident_byte(b),
{
    (DIGIT_0 <= b && b <= DIGIT_9) || (LOWER_A <= b && b <= LOWER_Z) || (UPPER_A <= b && b <= UPPER_Z) || b == 0x5f
        || b == 0x3a || b == 0x3f || b == 0x40 || b == 0x2e || b == 0x2f || b == 0x23 || b
        == 0x26 || b >= 0x80
}

/// The value of a hexadecimal digit, in either case; `None` for any other byte.
pub open spec fn hex_value(b: u8) -> Option<u8> {
    if DIGIT_0 <= b <= DIGIT_9 {
        Some((b - DIGIT_0) as u8)
    } else if LOWER_A <= b <= LOWER_F {
        Some((b - LOWER_A + 10) as u8)
    } else if UPPER_A <= b <= UPPER_F {
        Some((b - UPPER_A + 10) as u8)
    } else {
        None
    }
}

/// Reads one hexadecimal digit.
pub fn hex_digit(b: u8) -> (r: Option<u8>)
    ensures
        r == hex_value(b),
        r matches Some(v) ==> v < 16,
{
    if DIGIT_0 <= b && b <= DIGIT_9 {
        Some(b - DIGIT_0)
    } else if LOWER_A <= b && b <= LOWER_F {
        Some(b - LOWER_A + 10)
    } else if UPPER_A <= b && b <= UPPER_F {
        Some(b - UPPER_A + 10)
    } else {
        None
    }
}

/// The lower-case hexadecimal digit that prints a value below sixteen.
pub open spec fn hex_char(v: u8) -> u8 {
    if v < 10 {
        (DIGIT_0 + v) as u8
    } else {
        (LOWER_A + (v - 10)) as u8
    }
}

/// A byte that a quoted string shows as itself: printable ASCII other than
/// the quote and the backslash.
pub open spec fn is_plain_byte(b: u8) -> bool {
    0x20 <= b <= 0x7e && b != QUOTE && b != BACKSLASH
}

/// The form a byte takes inside a quoted string: `\t`, `\n`, `\"`, `\\`,
/// the byte itself when it is plain, and `\xNN` with two lower-case
/// hexadecimal digits for everything else.
pub open spec fn escape_byte(b: u8) -> Seq<u8> {
    if b == TAB {
        seq![BACKSLASH, LOWER_T]
    } else if b == NEWLINE {
        seq![BACKSLASH, LOWER_N]
    } else if b == QUOTE {
        seq![BACKSLASH, QUOTE]
    } else if b == BACKSLASH {
        seq![BACKSLASH, BACKSLASH]
    } else if is_plain_byte(b) {
        seq![b]
    } else {
        seq![BACKSLASH, LOWER_X, hex_char(b / 16), hex_char(b % 16)]
    }
}

/// The escaped form of a whole string: the escaped bytes, one after another.
pub open spec fn escape_bytes(s: Seq<u8>) -> Seq<u8>
    decreases s.len(),
{
    if s.len() == 0 {
        Seq::empty()
    } else {
        escape_bytes(s.drop_last()) + escape_byte(s.last())
    }
}

/// A value that is printed without quotes: not empty, and made of
/// identifier bytes that a quoted string would show unchanged.
pub open spec fn is_bare(s: Seq<u8>) -> bool {
    s.len() > 0 && forall|i: int|
        0 <= i < s.len() ==> is_ident_byte(#[trigger] s[i]) && is_plain_byte(s[i])
}

fn hex_char_of(v: u8) -> (r: u8)
    requires
        v < 16,
    ensures
        r == hex_char(v),
{
    if v < 10 {
        DIGIT_0 + v
    } else {
        LOWER_A + (v - 10)
    }
}

/// Appends the escaped form of `b` to `out`.
pub fn push_escaped(out: &mut Vec<u8>, b: u8)
    ensures
        final(out)@ == old(out)@ + escape_byte(b),
{
    if b == TAB {
        out.push(BACKSLASH);
        out.push(LOWER_T);
    } else if b == NEWLINE {
        out.push(BACKSLASH);
        out.push(LOWER_N);
    } else if b == QUOTE {
        out.push(BACKSLASH);
        out.push(QUOTE);
    } else if b == BACKSLASH {
        out.push(BACKSLASH);
        out.push(BACKSLASH);
    } else if 0x20 <= b && b <= 0x7e {
        out.push(b);
    } else {
        out.push(BACKSLASH);
        out.push(LOWER_X);
        out.push(hex_char_of(b / 16));
        out.push(hex_char_of(b % 16));
    }
    assert(out@ =~= old(out)@ + escape_byte(b));
}

/// Whether `s` is printed without quotes.
pub fn bare(s: &[u8]) -> (r: bool)
    ensures
        r == is_bare(s@),
{
    if s.len() == 0 {
        return false;
    }
    let mut i: usize = 0;
    while i < s.len()
        invariant
            i <= s.len(),
            forall|j: int| 0 <= j < i ==> is_ident_byte(#[trigger] s@[j]) && is_plain_byte(s@[j]),
        decreases s.len() - i,
    {
        let b: u8 = s[i];
        if !(identchar(b) && 0x20 <= b && b <= 0x7e && b != QUOTE && b != BACKSLASH) {
            return false;
        }
        i += 1;
    }
    true
}

/// Appends a copy of `s` to `out`.
pub fn push_all(out: &mut Vec<u8>, s: &[u8])
    ensures
        final(out)@ == old(out)@ + s@,
{
    let mut i: usize = 0;
    while i < s.len()
        invariant
            i <= s.len(),
            out@ == old(out)@ + s@.subrange(0, i as int),
        decreases s.len() - i,
    {
        out.push(s[i]);
        i += 1;
        assert(out@ =~= old(out)@ + s@.subrange(0, i as int));
    }
    assert(s@.subrange(0, s@.len() as int) =~= s@);
}

/// A fresh copy of `s`.
pub fn copy_bytes(s: &[u8]) -> (r: Vec<u8>)
    ensures
        r@ == s@,
{
    let mut r: Vec<u8> = Vec::new();
    push_all(&mut r, s);
    assert(r@ =~= s@);
    r
}

/// The bytes of an optional byte string.
pub open spec fn optional_bytes(o: Option<Vec<u8>>) -> Option<Seq<u8>> {
    match o {
        Some(v) => Some(v@),
        None => None,
    }
}

/// Whether two byte strings are equal.
pub fn same_bytes(a: &[u8], b: &[u8]) -> (r: bool)
    ensures
        r == (a@ == b@),
{
    if a.len() != b.len() {
        return false;
    }
    let mut i: usize = 0;
    while i < a.len()
        invariant
            i <= a.len(),
            a.len() == b.len(),
            forall|j: int| 0 <= j < i ==> a@[j] == b@[j],
        decreases a.len() - i,
    {
        if a[i] != b[i] {
            return false;
        }
        i += 1;
    }
    assert(a@ =~= b@);
    true
}

} // verus!
