//! Sorting, and dropping what comes twice.

use crate::text;
use itertools::Itertools;
use vstd::prelude::*;
use vstd::utf8::encode_utf8;

verus! {

/// The order of strings: byte by byte, and a string before those that it starts.
pub open spec fn bytes_le(a: Seq<u8>, b: Seq<u8>) -> bool
    decreases a.len(),
{
    if a.len() == 0 {
        true
    } else if b.len() == 0 {
        false
    } else if a[0] != b[0] {
        a[0] < b[0]
    } else {
        bytes_le(a.skip(1), b.skip(1))
    }
}

pub open spec fn text_le(a: Seq<char>, b: Seq<char>) -> bool {
    bytes_le(encode_utf8(a), encode_utf8(b))
}

proof fn lemma_bytes_le_antisymmetric(a: Seq<u8>, b: Seq<u8>)
    requires
        bytes_le(a, b),
        bytes_le(b, a),
    ensures
        a == b,
    decreases a.len(),
{
    if a.len() == 0 {
        assert(a =~= b);
    } else {
        lemma_bytes_le_antisymmetric(a.skip(1), b.skip(1));
        assert(a =~= seq![a[0]] + a.skip(1));
        assert(b =~= seq![b[0]] + b.skip(1));
    }
}

proof fn lemma_bytes_le_transitive(a: Seq<u8>, b: Seq<u8>, c: Seq<u8>)
    requires
        bytes_le(a, b),
        bytes_le(b, c),
    ensures
        bytes_le(a, c),
    decreases a.len(),
{
    if a.len() > 0 && a[0] == b[0] && b[0] == c[0] {
        lemma_bytes_le_transitive(a.skip(1), b.skip(1), c.skip(1));
    }
}

pub proof fn lemma_text_le_antisymmetric(a: Seq<char>, b: Seq<char>)
    requires
        text_le(a, b),
        text_le(b, a),
    ensures
        a == b,
{
    lemma_bytes_le_antisymmetric(encode_utf8(a), encode_utf8(b));
    vstd::utf8::encode_utf8_decode_utf8(a);
    vstd::utf8::encode_utf8_decode_utf8(b);
}

pub proof fn lemma_text_le_transitive(a: Seq<char>, b: Seq<char>, c: Seq<char>)
    requires
        text_le(a, b),
        text_le(b, c),
    ensures
        text_le(a, c),
{
    lemma_bytes_le_transitive(encode_utf8(a), encode_utf8(b), encode_utf8(c));
}

/// `Itertools::sorted` puts the strings in order.
#[verifier::external_body]
pub(crate) fn sorted_names<'a>(v: Vec<&'a String>) -> (r: Vec<&'a String>)
    ensures
        r@.to_multiset() == v@.to_multiset(),
        forall|i: int, j: int|
            0 <= i < j < r@.len() ==> text_le((#[trigger] r@[i])@, (#[trigger] r@[j])@),
{
    v.into_iter().sorted().collect()
}

/// The strings are in order, and none comes twice.
pub open spec fn increasing(v: Seq<&String>) -> bool {
    forall|i: int, j: int|
        0 <= i < j < v.len() ==> text_le((#[trigger] v[i])@, (#[trigger] v[j])@) && v[i]@ != v[j]@
}

pub open spec fn has_text(v: Seq<&String>, text: Seq<char>) -> bool {
    exists|i: int| 0 <= i < v.len() && (#[trigger] v[i])@ == text
}

/// The strings in order, each once.
pub fn sorted_dedup<'a>(v: Vec<&'a String>) -> (r: Vec<&'a String>)
    ensures
        increasing(r@),
        forall|t: Seq<char>| #[trigger] has_text(r@, t) <==> has_text(v@, t),
{
    let ghost given = v@;
    let sorted = sorted_names(v);
    proof {
        assert forall|t: Seq<char>| #[trigger] has_text(sorted@, t) <==> has_text(given, t) by {
            lemma_same_texts(sorted@, given, t);
            lemma_same_texts(given, sorted@, t);
        }
    }
    let mut r: Vec<&'a String> = Vec::new();
    let mut i: usize = 0;
    while i < sorted.len()
        invariant
            i <= sorted@.len(),
            forall|a: int, b: int|
                0 <= a < b < sorted@.len() ==> text_le(
                    (#[trigger] sorted@[a])@,
                    (#[trigger] sorted@[b])@,
                ),
            increasing(r@),
            i > 0 ==> r@.len() > 0 && r@.last()@ == sorted@[i - 1]@,
            i == 0 ==> r@.len() == 0,
            forall|t: Seq<char>| #[trigger] has_text(r@, t) <==> has_text(
                sorted@.take(i as int),
                t,
            ),
        decreases sorted@.len() - i,
    {
        let ghost before = r@;
        let ghost x = sorted@[i as int];
        let keep = r.len() == 0 || !text::same_text(r[r.len() - 1].as_str(), sorted[i].as_str());
        if keep {
            r.push(sorted[i]);
        }
        proof {
            let taken = sorted@.take(i as int);
            let more = sorted@.take(i + 1);
            assert(more =~= taken.push(x));
            if keep {
                assert forall|a: int, b: int| 0 <= a < b < r@.len() implies text_le(
                    (#[trigger] r@[a])@,
                    (#[trigger] r@[b])@,
                ) && r@[a]@ != r@[b]@ by {
                    if b == before.len() {
                        let last = before.last();
                        assert(text_le(sorted@[i - 1]@, sorted@[i as int]@));
                        if a < before.len() - 1 {
                            assert(text_le(before[a]@, before[before.len() - 1]@));
                            lemma_text_le_transitive(before[a]@, last@, x@);
                            if before[a]@ == x@ {
                                lemma_text_le_antisymmetric(before[a]@, last@);
                            }
                        }
                    } else {
                        assert(text_le(before[a]@, before[b]@));
                    }
                }
            }
            assert forall|t: Seq<char>| #[trigger] has_text(r@, t) <==> has_text(more, t) by {
                if has_text(r@, t) {
                    let k = choose|k: int| 0 <= k < r@.len() && (#[trigger] r@[k])@ == t;
                    if k < before.len() {
                        assert(before[k]@ == t);
                        assert(has_text(before, t));
                        let m = choose|m: int| 0 <= m < taken.len() && (#[trigger] taken[m])@ == t;
                        assert(more[m]@ == t);
                    } else {
                        assert(more[i as int]@ == t);
                    }
                }
                if has_text(more, t) {
                    let m = choose|m: int| 0 <= m < more.len() && (#[trigger] more[m])@ == t;
                    if m < i {
                        assert(taken[m]@ == t);
                        assert(has_text(taken, t));
                        assert(has_text(before, t));
                        let k = choose|k: int| 0 <= k < before.len() && (#[trigger] before[k])@ == t;
                        assert(r@[k]@ == t);
                    } else {
                        assert(r@[r@.len() - 1]@ == t);
                    }
                }
            }
        }
        i = i + 1;
    }
    assert(sorted@.take(sorted@.len() as int) =~= sorted@);
    r
}

proof fn lemma_same_texts(a: Seq<&String>, b: Seq<&String>, t: Seq<char>)
    requires
        a.to_multiset() == b.to_multiset(),
    ensures
        has_text(a, t) ==> has_text(b, t),
{
    if has_text(a, t) {
        let i = choose|i: int| 0 <= i < a.len() && (#[trigger] a[i])@ == t;
        a.to_multiset_ensures();
        b.to_multiset_ensures();
        assert(a.contains(a[i]));
        assert(a.to_multiset().count(a[i]) > 0);
        assert(b.contains(a[i]));
        let j = choose|j: int| 0 <= j < b.len() && b[j] == a[i];
        assert(b[j]@ == t);
    }
}

/// The order of triples of numbers.
pub open spec fn triple_le(a: (u32, u32, u32), b: (u32, u32, u32)) -> bool {
    a.0 < b.0 || (a.0 == b.0 && (a.1 < b.1 || (a.1 == b.1 && a.2 <= b.2)))
}

/// `Itertools::sorted` puts the triples in order.
#[verifier::external_body]
pub(crate) fn sorted_triples(v: Vec<(u32, u32, u32)>) -> (r: Vec<(u32, u32, u32)>)
    ensures
        r@.to_multiset() == v@.to_multiset(),
        forall|i: int, j: int|
            0 <= i < j < r@.len() ==> triple_le(#[trigger] r@[i], #[trigger] r@[j]),
{
    v.into_iter().sorted().collect()
}

/// The triples are in order, and none comes twice.
pub open spec fn triples_increasing(v: Seq<(u32, u32, u32)>) -> bool {
    forall|i: int, j: int|
        0 <= i < j < v.len() ==> triple_le(#[trigger] v[i], #[trigger] v[j]) && v[i] != v[j]
}

/// The triples in order, each once.
pub fn sorted_dedup_triples(v: Vec<(u32, u32, u32)>) -> (r: Vec<(u32, u32, u32)>)
    ensures
        triples_increasing(r@),
        forall|t: (u32, u32, u32)| #[trigger] r@.contains(t) <==> v@.contains(t),
{
    let ghost given = v@;
    let sorted = sorted_triples(v);
    proof {
        sorted@.to_multiset_ensures();
        given.to_multiset_ensures();
        assert forall|t: (u32, u32, u32)| #[trigger] sorted@.contains(t) <==> given.contains(t) by {
            assert(sorted@.to_multiset().count(t) == given.to_multiset().count(t));
        }
    }
    let mut r: Vec<(u32, u32, u32)> = Vec::new();
    let mut i: usize = 0;
    while i < sorted.len()
        invariant
            i <= sorted@.len(),
            forall|a: int, b: int|
                0 <= a < b < sorted@.len() ==> triple_le(#[trigger] sorted@[a], #[trigger] sorted@[b]),
            triples_increasing(r@),
            i > 0 ==> r@.len() > 0 && r@.last() == sorted@[i - 1],
            i == 0 ==> r@.len() == 0,
            forall|t: (u32, u32, u32)| #[trigger]
                r@.contains(t) <==> sorted@.take(i as int).contains(t),
        decreases sorted@.len() - i,
    {
        let ghost before = r@;
        let x = sorted[i];
        let keep = r.len() == 0 || {
            let last = r[r.len() - 1];
            last.0 != x.0 || last.1 != x.1 || last.2 != x.2
        };
        if keep {
            r.push(x);
        }
        proof {
            let taken = sorted@.take(i as int);
            let more = sorted@.take(i + 1);
            assert(more =~= taken.push(x));
            if keep {
                assert forall|a: int, b: int| 0 <= a < b < r@.len() implies triple_le(
                    #[trigger] r@[a],
                    #[trigger] r@[b],
                ) && r@[a] != r@[b] by {
                    if b == before.len() {
                        assert(triple_le(sorted@[i - 1], sorted@[i as int]));
                        if a < before.len() - 1 {
                            assert(triple_le(before[a], before[before.len() - 1]));
                        }
                    } else {
                        assert(triple_le(before[a], before[b]));
                    }
                }
            }
            assert forall|t: (u32, u32, u32)| #[trigger] r@.contains(t) <==> more.contains(t) by {
                if r@.contains(t) {
                    let k = choose|k: int| 0 <= k < r@.len() && r@[k] == t;
                    if k < before.len() {
                        assert(before[k] == t);
                        assert(before.contains(t));
                        let m = choose|m: int| 0 <= m < taken.len() && taken[m] == t;
                        assert(more[m] == t);
                    } else {
                        assert(more[i as int] == t);
                    }
                }
                if more.contains(t) {
                    let m = choose|m: int| 0 <= m < more.len() && more[m] == t;
                    if m < i {
                        assert(taken[m] == t);
                        assert(taken.contains(t));
                        assert(before.contains(t));
                        let k = choose|k: int| 0 <= k < before.len() && before[k] == t;
                        assert(r@[k] == t);
                    } else {
                        assert(r@[r@.len() - 1] == t);
                    }
                }
            }
        }
        i = i + 1;
    }
    assert(sorted@.take(sorted@.len() as int) =~= sorted@);
    r
}

} // verus!
