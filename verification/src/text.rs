//! Offsets and ranges in a source text, and the small text functions that the other modules use.

use vstd::prelude::*;
use vstd::string::StringExecFns;
use vstd::string::StringSliceAdditionalSpecFns;

verus! {

/// An offset in a text, or the length of a piece of one, in bytes.
#[derive(Clone, Copy, PartialEq, Eq, Structural, Debug, Hash, PartialOrd, Ord)]
pub struct TextSize(pub u32);

impl TextSize {
    pub fn new(raw: u32) -> (r: TextSize)
        ensures
            r == TextSize(raw),
    {
        TextSize(raw)
    }
}

/// A half open range of offsets.
#[derive(Clone, Copy, PartialEq, Eq, Structural, Debug, Hash)]
pub struct TextRange {
    pub start: TextSize,
    pub end: TextSize,
}

impl TextRange {
    /// A range does not end before it starts.
    pub open spec fn wf(self) -> bool {
        self.start.0 <= self.end.0
    }

    /// The range `start..end`.
    pub fn new(start: TextSize, end: TextSize) -> (r: TextRange)
        requires
            start.0 <= end.0,
        ensures
            r == (TextRange { start, end }),
            r.wf(),
    {
        TextRange { start, end }
    }

    /// The range of length `len` that starts at `offset`.
    pub fn at(offset: TextSize, len: TextSize) -> (r: TextRange)
        requires
            offset.0 + len.0 <= u32::MAX,
        ensures
            r.start == offset,
            r.end.0 == offset.0 + len.0,
            r.wf(),
    {
        TextRange { start: offset, end: TextSize(offset.0 + len.0) }
    }

    pub fn len(self) -> (r: TextSize)
        requires
            self.wf(),
        ensures
            r.0 == self.end.0 - self.start.0,
    {
        TextSize(self.end.0 - self.start.0)
    }

    pub open spec fn spec_contains_range(self, other: TextRange) -> bool {
        self.start.0 <= other.start.0 && other.end.0 <= self.end.0
    }

    /// Whether every offset of `other` lies in this range.
    pub fn contains_range(self, other: TextRange) -> (r: bool)
        ensures
            r == self.spec_contains_range(other),
    {
        self.start.0 <= other.start.0 && other.end.0 <= self.end.0
    }
}

/// Whether two strings hold the same text.
pub fn same_text(a: &str, b: &str) -> (r: bool)
    ensures
        r == (a@ == b@),
{
    let x = a.as_bytes();
    let y = b.as_bytes();
    proof {
        vstd::utf8::encode_utf8_decode_utf8(a@);
        vstd::utf8::encode_utf8_decode_utf8(b@);
    }
    if x.len() != y.len() {
        return false;
    }
    let mut i: usize = 0;
    while i < x.len()
        invariant
            i <= x.len(),
            x@.len() == y@.len(),
            x@ == a.spec_bytes(),
            y@ == b.spec_bytes(),
            forall|j: int| 0 <= j < i ==> x@[j] == y@[j],
        decreases x.len() - i,
    {
        if x[i] != y[i] {
            return false;
        }
        i = i + 1;
    }
    assert(x@ =~= y@);
    true
}

/// The character that writes a digit below 16.
pub open spec fn digit(d: nat) -> char {
    if d < 10 {
        (('0' as u32) + d) as char
    } else {
        (('A' as u32) + (d - 10)) as char
    }
}

/// A number in decimal, without leading zeros.
pub open spec fn decimal(n: nat) -> Seq<char>
    decreases n,
{
    if n < 10 {
        seq![digit(n)]
    } else {
        decimal(n / 10).push(digit(n % 10))
    }
}

/// A number below `0x10000` in upper case hexadecimal, padded with zeros to four digits.
pub open spec fn hex4(n: nat) -> Seq<char> {
    seq![digit(n / 4096), digit(n / 256 % 16), digit(n / 16 % 16), digit(n % 16)]
}

fn digit_str(d: u32) -> (r: &'static str)
    requires
        d < 16,
    ensures
        r@ == seq![digit(d as nat)],
{
    proof {
        reveal_strlit("0");
        reveal_strlit("1");
        reveal_strlit("2");
        reveal_strlit("3");
        reveal_strlit("4");
        reveal_strlit("5");
        reveal_strlit("6");
        reveal_strlit("7");
        reveal_strlit("8");
        reveal_strlit("9");
        reveal_strlit("A");
        reveal_strlit("B");
        reveal_strlit("C");
        reveal_strlit("D");
        reveal_strlit("E");
        reveal_strlit("F");
    }
    match d {
        0 => "0",
        1 => "1",
        2 => "2",
        3 => "3",
        4 => "4",
        5 => "5",
        6 => "6",
        7 => "7",
        8 => "8",
        9 => "9",
        10 => "A",
        11 => "B",
        12 => "C",
        13 => "D",
        14 => "E",
        _ => "F",
    }
}

/// Appends `n` in decimal.
pub fn push_decimal(buf: &mut String, n: u32)
    ensures
        final(buf)@ == old(buf)@ + decimal(n as nat),
    decreases n,
{
    if n >= 10 {
        push_decimal(buf, n / 10);
    }
    buf.append(digit_str(n % 10));
}

/// Appends `n` as four hexadecimal digits.
pub fn push_hex4(buf: &mut String, n: u16)
    ensures
        final(buf)@ == old(buf)@ + hex4(n as nat),
{
    buf.append(digit_str(n as u32 / 4096));
    buf.append(digit_str(n as u32 / 256 % 16));
    buf.append(digit_str(n as u32 / 16 % 16));
    buf.append(digit_str(n as u32 % 16));
}

} // verus!
