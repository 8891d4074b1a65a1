//! Punctuation in a macro, packed into one number where that is possible.

use crate::span::Span;
use crate::text::{TextRange, TextSize};
use crate::tt::{Punct, Spacing, MAX_GLUED_PUNCT_LEN};
use vstd::prelude::*;

verus! {

/// Whether the number stands for a character.
pub open spec fn is_scalar(x: u32) -> bool {
    x <= 0x10ffff && !(0xd800 <= x <= 0xdfff)
}

/// `char::from_u32` gives the character with the number, if there is one.
#[verifier::external_body]
pub(crate) fn char_from_u32(x: u32) -> (r: Option<char>)
    ensures
        r is Some <==> is_scalar(x),
        r matches Some(c) ==> c == x as char,
{
    char::from_u32(x)
}

pub open spec fn spacing_bits(s: Spacing) -> u32 {
    match s {
        Spacing::Alone => 0,
        Spacing::Joint => 1,
        Spacing::JointHidden => 2,
    }
}

fn encode_spacing(s: Spacing) -> (r: u32)
    ensures
        r == spacing_bits(s),
        r < 3,
{
    match s {
        Spacing::Alone => 0,
        Spacing::Joint => 1,
        Spacing::JointHidden => 2,
    }
}

// Bits 0 and 1 of a packed number store the length less one, bits 2 to 7 the spacings, and the
// others either one character or up to three ASCII characters.

pub open spec fn packed_len(encoded: u32) -> nat {
    ((encoded & 3) + 1) as nat
}

pub open spec fn packed_char(encoded: u32, i: int) -> u32 {
    if packed_len(encoded) == 1 {
        encoded >> 8
    } else if i == 0 {
        (encoded >> 8) & 0xff
    } else if i == 1 {
        (encoded >> 16) & 0xff
    } else {
        (encoded >> 24) & 0xff
    }
}

pub open spec fn packed_spacing(encoded: u32, i: int) -> u32 {
    if i == 0 {
        (encoded >> 2) & 3
    } else if i == 1 {
        (encoded >> 4) & 3
    } else {
        (encoded >> 6) & 3
    }
}

/// Whether the number packs some punctuation.
pub open spec fn packed_wf(span: Span, encoded: u32) -> bool {
    &&& packed_len(encoded) <= 3
    &&& packed_len(encoded) > 1 ==> span.range.start.0 + packed_len(encoded) <= u32::MAX
    &&& forall|i: int|
        0 <= i < packed_len(encoded) ==> is_scalar(#[trigger] packed_char(encoded, i))
            && packed_spacing(encoded, i) < 3
}

/// The span of the `i`th of the characters that follow each other from the start of `span`.
pub open spec fn span_at(span: Span, i: int) -> Span {
    if i == 0 {
        span
    } else {
        Span {
            range: TextRange {
                start: TextSize((span.range.start.0 + i) as u32),
                end: TextSize((span.range.start.0 + i + 1) as u32),
            },
            ..span
        }
    }
}

/// Whether the packed number stands for these characters.
pub open spec fn packs(span: Span, encoded: u32, puncts: Seq<Punct>) -> bool {
    &&& packed_wf(span, encoded)
    &&& puncts.len() == packed_len(encoded)
    &&& forall|i: int|
        0 <= i < puncts.len() ==> {
            let p = #[trigger] puncts[i];
            &&& p.char as u32 == packed_char(encoded, i)
            &&& spacing_bits(p.spacing) == packed_spacing(encoded, i)
            &&& p.span == span_at(span, i)
        }
}

/// Whether the characters can be packed: one always can, several if they are ASCII and follow each
/// other in the text.
pub open spec fn can_pack(puncts: Seq<Punct>) -> bool {
    puncts.len() == 1 || forall|i: int|
        0 <= i < puncts.len() ==> {
            let p = #[trigger] puncts[i];
            &&& (p.char as u32) < 128
            &&& p.span.anchor == puncts[0].span.anchor
            &&& p.span.ctx == puncts[0].span.ctx
            &&& p.span.range.start.0 == puncts[0].span.range.start.0 + i
            &&& p.span.range.end.0 == puncts[0].span.range.start.0 + i + 1
        }
}

fn follows(first: Punct, p: Punct, index: u32) -> (r: bool)
    requires
        index < 3,
    ensures
        r == {
            &&& (p.char as u32) < 128
            &&& p.span.anchor == first.span.anchor
            &&& p.span.ctx == first.span.ctx
            &&& p.span.range.start.0 == first.span.range.start.0 + index
            &&& p.span.range.end.0 == first.span.range.start.0 + index + 1
        },
{
    let start: u64 = first.span.range.start.0 as u64 + index as u64;
    (p.char as u32) < 128 && p.span.anchor == first.span.anchor && p.span.ctx == first.span.ctx
        && p.span.range.start.0 as u64 == start && p.span.range.end.0 as u64 == start + 1
}

proof fn lemma_pack1(c: u32, s: u32, e: u32)
    requires
        c <= 0x10ffff,
        s < 3,
        e == (s << 2) | (c << 8),
    ensures
        packed_len(e) == 1,
        packed_char(e, 0) == c,
        packed_spacing(e, 0) == s,
{
    assert(e & 3 == 0 && e >> 8 == c && (e >> 2) & 3 == s) by (bit_vector)
        requires
            c <= 0x10ffff,
            s < 3,
            e == (s << 2) | (c << 8),
    ;
}

proof fn lemma_pack2(c0: u32, c1: u32, s0: u32, s1: u32, e: u32)
    requires
        c0 < 128,
        c1 < 128,
        s0 < 3,
        s1 < 3,
        e == 1 | (s0 << 2) | (c0 << 8) | (s1 << 4) | (c1 << 16),
    ensures
        packed_len(e) == 2,
        packed_char(e, 0) == c0,
        packed_char(e, 1) == c1,
        packed_spacing(e, 0) == s0,
        packed_spacing(e, 1) == s1,
{
    assert(e & 3 == 1 && (e >> 8) & 0xff == c0 && (e >> 16) & 0xff == c1 && (e >> 2) & 3 == s0 && (e
        >> 4) & 3 == s1) by (bit_vector)
        requires
            c0 < 128,
            c1 < 128,
            s0 < 3,
            s1 < 3,
            e == 1 | (s0 << 2) | (c0 << 8) | (s1 << 4) | (c1 << 16),
    ;
}

proof fn lemma_pack3(c0: u32, c1: u32, c2: u32, s0: u32, s1: u32, s2: u32, e: u32)
    requires
        c0 < 128,
        c1 < 128,
        c2 < 128,
        s0 < 3,
        s1 < 3,
        s2 < 3,
        e == 2 | (s0 << 2) | (c0 << 8) | (s1 << 4) | (c1 << 16) | (s2 << 6) | (c2 << 24),
    ensures
        packed_len(e) == 3,
        packed_char(e, 0) == c0,
        packed_char(e, 1) == c1,
        packed_char(e, 2) == c2,
        packed_spacing(e, 0) == s0,
        packed_spacing(e, 1) == s1,
        packed_spacing(e, 2) == s2,
{
    assert(e & 3 == 2 && (e >> 8) & 0xff == c0 && (e >> 16) & 0xff == c1 && (e >> 24) & 0xff == c2
        && (e >> 2) & 3 == s0 && (e >> 4) & 3 == s1 && (e >> 6) & 3 == s2) by (bit_vector)
        requires
            c0 < 128,
            c1 < 128,
            c2 < 128,
            s0 < 3,
            s1 < 3,
            s2 < 3,
            e == 2 | (s0 << 2) | (c0 << 8) | (s1 << 4) | (c1 << 16) | (s2 << 6) | (c2 << 24),
    ;
}

/// Packs up to three characters, if that is possible.
pub fn pack(puncts: &Vec<Punct>) -> (r: Option<u32>)
    requires
        1 <= puncts@.len() <= MAX_GLUED_PUNCT_LEN,
    ensures
        r is Some <==> can_pack(puncts@),
        r matches Some(encoded) ==> packs(puncts@[0].span, encoded, puncts@),
{
    let first = puncts[0];
    let c0: u32 = first.char as u32;
    let s0: u32 = encode_spacing(first.spacing);
    if puncts.len() == 1 {
        let e: u32 = (s0 << 2) | (c0 << 8);
        proof {
            lemma_pack1(c0, s0, e);
        }
        return Some(e);
    }
    let second = puncts[1];
    if !follows(first, first, 0) {
        assert(!can_pack(puncts@)) by {
            assert(puncts@[0] == first);
        }
        return None;
    }
    if !follows(first, second, 1) {
        assert(!can_pack(puncts@)) by {
            assert(puncts@[1] == second);
        }
        return None;
    }
    let c1: u32 = second.char as u32;
    let s1: u32 = encode_spacing(second.spacing);
    if puncts.len() == 2 {
        let e: u32 = 1 | (s0 << 2) | (c0 << 8) | (s1 << 4) | (c1 << 16);
        proof {
            lemma_pack2(c0, c1, s0, s1, e);
        }
        return Some(e);
    }
    let third = puncts[2];
    if !follows(first, third, 2) {
        assert(!can_pack(puncts@)) by {
            assert(puncts@[2] == third);
        }
        return None;
    }
    let c2: u32 = third.char as u32;
    let s2: u32 = encode_spacing(third.spacing);
    let e: u32 = 2 | (s0 << 2) | (c0 << 8) | (s1 << 4) | (c1 << 16) | (s2 << 6) | (c2 << 24);
    proof {
        lemma_pack3(c0, c1, c2, s0, s1, s2, e);
    }
    Some(e)
}

pub open spec fn spacing_of(bits: u32) -> Spacing {
    if bits == 0 {
        Spacing::Alone
    } else if bits == 1 {
        Spacing::Joint
    } else {
        Spacing::JointHidden
    }
}

/// The characters that a packed number stands for.
pub open spec fn unpacked(span: Span, encoded: u32) -> Seq<Punct> {
    Seq::new(
        packed_len(encoded),
        |i: int|
            Punct {
                char: packed_char(encoded, i) as char,
                spacing: spacing_of(packed_spacing(encoded, i)),
                span: span_at(span, i),
            },
    )
}

/// Unpacking gives back what was packed.
pub proof fn unpacking_undoes_packing(span: Span, encoded: u32, puncts: Seq<Punct>)
    requires
        packs(span, encoded, puncts),
    ensures
        unpacked(span, encoded) == puncts,
{
    let u = unpacked(span, encoded);
    assert forall|i: int| 0 <= i < puncts.len() implies u[i] == puncts[i] by {
        let p = puncts[i];
        assert(p.char as u32 == packed_char(encoded, i));
        assert(u[i].char == p.char);
    }
    assert(u =~= puncts);
}

fn decode_spacing(bits: u32) -> (r: Spacing)
    ensures
        r == spacing_of(bits),
{
    if bits == 0 {
        Spacing::Alone
    } else if bits == 1 {
        Spacing::Joint
    } else {
        Spacing::JointHidden
    }
}

/// The character at an index of a packed number.
fn unpack_at(span: Span, encoded: u32, index: u8) -> (r: Punct)
    requires
        packed_wf(span, encoded),
        index < packed_len(encoded),
    ensures
        r == unpacked(span, encoded)[index as int],
{
    let single = encoded & 3 == 0;
    let value: u32 = if single {
        encoded >> 8
    } else if index == 0 {
        (encoded >> 8) & 0xff
    } else if index == 1 {
        (encoded >> 16) & 0xff
    } else {
        (encoded >> 24) & 0xff
    };
    let bits: u32 = if index == 0 {
        (encoded >> 2) & 3
    } else if index == 1 {
        (encoded >> 4) & 3
    } else {
        (encoded >> 6) & 3
    };
    assert(value == packed_char(encoded, index as int));
    assert(bits == packed_spacing(encoded, index as int));
    let char = char_from_u32(value).unwrap();
    let mut punct_span = span;
    if index != 0 {
        let start = TextSize(span.range.start.0 + index as u32);
        punct_span.range = TextRange::at(start, TextSize(1));
    }
    let r = Punct { char, spacing: decode_spacing(bits), span: punct_span };
    assert(r.span =~= span_at(span, index as int));
    r
}

/// The characters of a token that are still to come.
pub enum Puncts<'a> {
    Inline { span: Span, encoded: u32, index: u8 },
    Boxed { puncts: &'a Vec<Punct>, place: usize },
}

impl<'a> Puncts<'a> {
    pub open spec fn wf(self) -> bool {
        match self {
            Puncts::Inline { span, encoded, index } => packed_wf(span, encoded) && index
                <= packed_len(encoded),
            Puncts::Boxed { puncts, place } => place <= puncts@.len(),
        }
    }

    /// What is still to come.
    pub open spec fn remaining(self) -> Seq<Punct> {
        match self {
            Puncts::Inline { span, encoded, index } => unpacked(span, encoded).skip(index as int),
            Puncts::Boxed { puncts, place } => puncts@.skip(place as int),
        }
    }

    /// Takes the next character.
    pub fn next(&mut self) -> (r: Option<Punct>)
        requires
            old(self).wf(),
        ensures
            final(self).wf(),
            r is Some <==> old(self).remaining().len() > 0,
            r matches Some(p) ==> p == old(self).remaining()[0] && final(self).remaining() == old(
                self,
            ).remaining().skip(1),
            r is None ==> final(self).remaining() == old(self).remaining(),
    {
        let ghost before = self.remaining();
        match self {
            Puncts::Inline { span, encoded, index } => {
                let bits: u32 = *encoded;
                assert(bits & 3 < 4) by (bit_vector);
                let len: u8 = (bits & 3) as u8 + 1;
                if *index == len {
                    return None;
                }
                let punct = unpack_at(*span, *encoded, *index);
                *index = *index + 1;
                assert(self.remaining() =~= before.skip(1));
                Some(punct)
            },
            Puncts::Boxed { puncts, place } => {
                if *place < puncts.len() {
                    let punct = puncts[*place];
                    *place = *place + 1;
                    assert(self.remaining() =~= before.skip(1));
                    Some(punct)
                } else {
                    None
                }
            },
        }
    }

    /// How many characters are still to come.
    pub fn len(&self) -> (r: usize)
        requires
            self.wf(),
        ensures
            r == self.remaining().len(),
    {
        match self {
            Puncts::Inline { span: _, encoded, index } => {
                let bits: u32 = *encoded;
                assert(bits & 3 < 4) by (bit_vector);
                (bits & 3) as usize + 1 - *index as usize
            },
            Puncts::Boxed { puncts, place } => puncts.len() - *place,
        }
    }
}

} // verus!
