//! How ids, numbers and the lines of reports are written, told by what can be read off them.

use crate::ast_id::erased;
use crate::ast_id::erased::{ErasedFileAstId, ErasedFileAstIdKind};
use crate::memory_usage;
use crate::memory_usage::QueryMemory;
use crate::text;
use vstd::prelude::*;

verus! {

/// The value of a digit in upper case hexadecimal.
pub open spec fn digit_value(c: char) -> int {
    if '0' <= c <= '9' {
        c as u32 - '0' as u32
    } else {
        c as u32 - 'A' as u32 + 10
    }
}

/// A hash is written with four digits, from which it can be read off.
pub proof fn hashes_are_written_in_hexadecimal(n: nat)
    requires
        n < 0x10000,
    ensures
        text::hex4(n).len() == 4,
        forall|i: int|
            0 <= i < 4 ==> '0' <= #[trigger] text::hex4(n)[i] <= '9' || 'A' <= text::hex4(n)[i]
                <= 'F',
        ({
            let s = text::hex4(n);
            n == digit_value(s[0]) * 4096 + digit_value(s[1]) * 256 + digit_value(s[2]) * 16
                + digit_value(s[3])
        }),
{
    let s = text::hex4(n);
    let (a, b, c, d) = (n / 4096, n / 256 % 16, n / 16 % 16, n % 16);
    lemma_sixteenths(n);
    lemma_digit(a);
    lemma_digit(b);
    lemma_digit(c);
    lemma_digit(d);
    assert(s[0] == text::digit(a) && s[1] == text::digit(b));
    assert(s[2] == text::digit(c) && s[3] == text::digit(d));
}

proof fn lemma_sixteenths(n: nat)
    requires
        n < 0x10000,
    ensures
        n == (n / 4096) * 4096 + (n / 256 % 16) * 256 + (n / 16 % 16) * 16 + n % 16,
        n / 4096 < 16,
{
    let a = n / 16;
    let b = n / 256;
    assert(n == a * 16 + n % 16);
    assert(b == a / 16);
    assert(a == b * 16 + a % 16);
    assert(n / 4096 == b / 16);
    assert(b == (b / 16) * 16 + b % 16);
}

#[verifier::spinoff_prover]
proof fn lemma_digit(d: nat)
    requires
        d < 16,
    ensures
        digit_value(text::digit(d)) == d,
        '0' <= text::digit(d) <= '9' || 'A' <= text::digit(d) <= 'F',
{
}

/// The kinds of ids are numbered in order, and are written by their names.
pub proof fn kinds_are_written_by_their_names()
    ensures
        erased::kind_name(erased::kind_number(ErasedFileAstIdKind::Fixup)) == "Fixup"@,
        erased::kind_name(erased::kind_number(ErasedFileAstIdKind::Enum)) == "Enum"@,
        erased::kind_name(erased::kind_number(ErasedFileAstIdKind::Struct)) == "Struct"@,
        erased::kind_name(erased::kind_number(ErasedFileAstIdKind::Union)) == "Union"@,
        erased::kind_name(erased::kind_number(ErasedFileAstIdKind::ExternCrate))
            == "ExternCrate"@,
        erased::kind_name(erased::kind_number(ErasedFileAstIdKind::MacroDef)) == "MacroDef"@,
        erased::kind_name(erased::kind_number(ErasedFileAstIdKind::MacroRules)) == "MacroRules"@,
        erased::kind_name(erased::kind_number(ErasedFileAstIdKind::Module)) == "Module"@,
        erased::kind_name(erased::kind_number(ErasedFileAstIdKind::Static)) == "Static"@,
        erased::kind_name(erased::kind_number(ErasedFileAstIdKind::Trait)) == "Trait"@,
        erased::kind_name(erased::kind_number(ErasedFileAstIdKind::Variant)) == "Variant"@,
        erased::kind_name(erased::kind_number(ErasedFileAstIdKind::Const)) == "Const"@,
        erased::kind_name(erased::kind_number(ErasedFileAstIdKind::Fn)) == "Fn"@,
        erased::kind_name(erased::kind_number(ErasedFileAstIdKind::MacroCall)) == "MacroCall"@,
        erased::kind_name(erased::kind_number(ErasedFileAstIdKind::TypeAlias)) == "TypeAlias"@,
        erased::kind_name(erased::kind_number(ErasedFileAstIdKind::ExternBlock))
            == "ExternBlock"@,
        erased::kind_name(erased::kind_number(ErasedFileAstIdKind::Use)) == "Use"@,
        erased::kind_name(erased::kind_number(ErasedFileAstIdKind::Impl)) == "Impl"@,
        erased::kind_name(erased::kind_number(ErasedFileAstIdKind::BlockExpr)) == "BlockExpr"@,
        erased::kind_name(erased::kind_number(ErasedFileAstIdKind::AsmExpr)) == "AsmExpr"@,
        erased::kind_name(erased::kind_number(ErasedFileAstIdKind::NoDownmap)) == "NoDownmap"@,
        erased::kind_name(erased::kind_number(ErasedFileAstIdKind::Root)) == "Root"@,
        forall|a: ErasedFileAstIdKind, b: ErasedFileAstIdKind|
            #![trigger erased::kind_number(a), erased::kind_number(b)]
            erased::kind_number(a) == erased::kind_number(b) ==> a == b,
        erased::kind_number(ErasedFileAstIdKind::Fixup) == 0,
        forall|a: ErasedFileAstIdKind|
            #[trigger] erased::kind_number(a) <= erased::kind_number(ErasedFileAstIdKind::Root),
        erased::kind_number(ErasedFileAstIdKind::Root) == 21,
{
}

/// An id is written as its kind, its hash and its number.
pub proof fn ids_are_written_part_by_part(
    hash: u16,
    index: u32,
    kind: ErasedFileAstIdKind,
    name: Seq<char>,
)
    requires
        index < 2048,
        name == erased::kind_name(erased::kind_number(kind)),
    ensures
        ({
            let id = ErasedFileAstId(erased::packed(hash, index, erased::kind_number(kind)));
            let n = name.len() as int;
            let short = id.spec_fmt(true);
            &&& short.len() == n + 8 + text::decimal(index as nat).len()
            &&& short.take(n) == name
            &&& short[n] == '['
            &&& short.subrange(n + 1, n + 5) == text::hex4(hash as nat)
            &&& short[n + 5] == ',' && short[n + 6] == ' '
            &&& short.subrange(n + 7, short.len() - 1) == text::decimal(index as nat)
            &&& short.last() == ']'
            &&& id.spec_fmt(false) == "ErasedFileAstId { kind: "@ + name + ", index: "@
                + text::decimal(index as nat) + ", hash: "@ + text::hex4(hash as nat) + " }"@
        }),
{
    kinds_are_written_by_their_names();
    assert(erased::kind_number(kind) <= 21);
    erased::unpacking_undoes_packing(hash, index, erased::kind_number(kind));
    reveal_strlit("[");
    reveal_strlit("]");
    reveal_strlit(", ");
    let id = ErasedFileAstId(erased::packed(hash, index, erased::kind_number(kind)));
    let n = name.len() as int;
    let short = id.spec_fmt(true);
    let h = text::hex4(hash as nat);
    let d = text::decimal(index as nat);
    assert(short == name + "["@ + h + ", "@ + d + "]"@);
    assert(short.take(n) =~= name);
    assert(short.subrange(n + 1, n + 5) =~= h);
    assert(short.subrange(n + 7, short.len() - 1) =~= d);
}

// Memory.

/// The line of a query has its name, the sum of all its memory, and how many entries it has.
pub proof fn lines_hold_all_memory(q: QueryMemory)
    ensures
        memory_usage::line_of(q).0 == q.name@,
        memory_usage::line_of(q).2 == q.count,
        q.heap_size_of_fields is None && q.size_of_metadata + q.size_of_fields <= isize::MAX
            ==> memory_usage::line_of(q).1 == q.size_of_metadata + q.size_of_fields,
        q.heap_size_of_fields is Some && q.size_of_metadata + q.size_of_fields
            + q.heap_size_of_fields->0 <= isize::MAX ==> memory_usage::line_of(q).1
            == q.size_of_metadata + q.size_of_fields + q.heap_size_of_fields->0,
{
}

/// The lines of queries that use the same memory stay in the order in which the queries come.
pub proof fn equal_lines_stay_in_order(q: Seq<QueryMemory>, n: nat, bytes: int)
    requires
        n <= q.len(),
    ensures
        memory_usage::report(q, n).filter(|l: (Seq<char>, int, usize)| l.1 == bytes)
            == memory_usage::lines(q, n).filter(|l: (Seq<char>, int, usize)| l.1 == bytes),
    decreases n,
{
    let same = |l: (Seq<char>, int, usize)| l.1 == bytes;
    if n == 0 {
        assert(memory_usage::report(q, n) =~= memory_usage::lines(q, n));
    } else {
        let m = (n - 1) as nat;
        equal_lines_stay_in_order(q, m, bytes);
        let before = memory_usage::report(q, m);
        let line = memory_usage::line_of(q[n - 1]);
        let p = memory_usage::place_for(before, line.1) as int;
        memory_usage::lemma_place_for(before, line.1);
        let (front, back) = (before.take(p), before.skip(p));
        let one = seq![line];
        assert(before =~= front + back);
        assert(memory_usage::report(q, n) =~= front + one + back);
        assert(memory_usage::lines(q, n) =~= memory_usage::lines(q, m) + one);
        Seq::filter_distributes_over_add(front, back, same);
        Seq::filter_distributes_over_add(front + one, back, same);
        Seq::filter_distributes_over_add(front, one, same);
        Seq::filter_distributes_over_add(memory_usage::lines(q, m), one, same);
        if line.1 == bytes {
            assert forall|i: int| 0 <= i < back.len() implies !same(#[trigger] back[i]) by {
                assert(before[p + i].1 < line.1);
            }
            lemma_none_kept(back, same);
            assert(back.filter(same) =~= Seq::empty());
            assert(front.filter(same) + one.filter(same) + back.filter(same) =~= front.filter(same)
                + back.filter(same) + one.filter(same));
        } else {
            lemma_none_kept(one, same);
            assert(front.filter(same) + one.filter(same) + back.filter(same) =~= front.filter(same)
                + back.filter(same));
            assert(memory_usage::lines(q, m).filter(same) + one.filter(same) =~= memory_usage::lines(
                q,
                m,
            ).filter(same));
        }
    }
}

proof fn lemma_none_kept(
    s: Seq<(Seq<char>, int, usize)>,
    keep: spec_fn((Seq<char>, int, usize)) -> bool,
)
    requires
        forall|i: int| 0 <= i < s.len() ==> !keep(#[trigger] s[i]),
    ensures
        s.filter(keep).len() == 0,
    decreases s.len(),
{
    reveal(Seq::filter);
    if s.len() > 0 {
        lemma_none_kept(s.drop_last(), keep);
    }
}

} // verus!
