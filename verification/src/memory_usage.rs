//! How much memory queries use.

use vstd::prelude::*;

verus! {

/// What is known of the memory of a query.
pub struct QueryMemory {
    pub name: String,
    pub size_of_metadata: usize,
    pub size_of_fields: usize,
    /// The memory behind the fields, where it is known.
    pub heap_size_of_fields: Option<usize>,
    pub count: usize,
}

/// An amount of memory.
#[derive(Clone, Copy, PartialEq, Eq, Structural, Debug, Hash, PartialOrd, Ord)]
pub struct Bytes(pub isize);

impl QueryMemory {
    /// All the memory of the query.
    pub open spec fn total(self) -> int {
        self.size_of_metadata + self.size_of_fields + match self.heap_size_of_fields {
            Some(n) => n as int,
            None => 0int,
        }
    }
}

/// An unsigned number of bytes as a signed one of the same bits.
pub open spec fn signed(bytes: int) -> int {
    if bytes <= isize::MAX {
        bytes
    } else {
        bytes - usize::MAX - 1
    }
}

/// The line of a query: its name, its memory and its entries.
pub open spec fn line_of(q: QueryMemory) -> (Seq<char>, int, usize) {
    (q.name@, signed(q.total()), q.count)
}

fn to_signed(bytes: usize) -> (r: isize)
    ensures
        r == signed(bytes as int),
{
    if bytes <= isize::MAX as usize {
        bytes as isize
    } else {
        -((usize::MAX - bytes) as isize) - 1
    }
}

/// Where a line goes among lines that decrease: behind all that are no smaller.
pub open spec fn place_for(s: Seq<(Seq<char>, int, usize)>, bytes: int) -> nat
    decreases s.len(),
{
    if s.len() == 0 || s.last().1 >= bytes {
        s.len()
    } else {
        place_for(s.drop_last(), bytes)
    }
}

/// The lines of the first `n` queries, the largest first. Queries of the same size stay in order.
pub open spec fn report(q: Seq<QueryMemory>, n: nat) -> Seq<(Seq<char>, int, usize)>
    decreases n,
{
    if n == 0 {
        Seq::empty()
    } else {
        let before = report(q, (n - 1) as nat);
        let line = line_of(q[n - 1]);
        before.insert(place_for(before, line.1) as int, line)
    }
}

pub open spec fn lines_view(r: Seq<(String, Bytes, usize)>) -> Seq<(Seq<char>, int, usize)> {
    Seq::new(r.len(), |i: int| (r[i].0@, r[i].1.0 as int, r[i].2))
}

pub(crate) proof fn lemma_place_for(s: Seq<(Seq<char>, int, usize)>, bytes: int)
    ensures
        place_for(s, bytes) <= s.len(),
        place_for(s, bytes) > 0 ==> s[place_for(s, bytes) - 1].1 >= bytes,
        forall|i: int| place_for(s, bytes) <= i < s.len() ==> (#[trigger] s[i]).1 < bytes,
    decreases s.len(),
{
    if s.len() > 0 && s.last().1 < bytes {
        let shorter = s.drop_last();
        lemma_place_for(shorter, bytes);
        assert forall|i: int| place_for(s, bytes) <= i < s.len() implies (#[trigger] s[i]).1
            < bytes by {
            if i < shorter.len() {
                assert(shorter[i].1 < bytes);
            }
        }
    }
}

/// Reports the memory of queries, the largest first.
pub fn per_query_memory_usage(queries: Vec<QueryMemory>) -> (r: Vec<(String, Bytes, usize)>)
    requires
        forall|i: int| 0 <= i < queries@.len() ==> (#[trigger] queries@[i]).total() <= usize::MAX,
    ensures
        lines_view(r@) == report(queries@, queries@.len()),
{
    let mut acc: Vec<(String, Bytes, usize)> = Vec::new();
    let mut i: usize = 0;
    assert(lines_view(acc@) =~= Seq::empty());
    while i < queries.len()
        invariant
            i <= queries@.len(),
            forall|i: int|
                0 <= i < queries@.len() ==> (#[trigger] queries@[i]).total() <= usize::MAX,
            lines_view(acc@) == report(queries@, i as nat),
        decreases queries@.len() - i,
    {
        let ghost before = lines_view(acc@);
        let q = &queries[i];
        let heap: usize = match q.heap_size_of_fields {
            Some(n) => n,
            None => 0,
        };
        assert(queries@[i as int].total() <= usize::MAX);
        let bytes: usize = q.size_of_metadata + q.size_of_fields + heap;
        let total: isize = to_signed(bytes);
        let mut at: usize = acc.len();
        assert(before.take(at as int) =~= before);
        while at > 0 && acc[at - 1].1.0 < total
            invariant
                at <= acc@.len(),
                before == lines_view(acc@),
                place_for(before, total as int) == place_for(before.take(at as int), total as int),
            decreases at,
        {
            assert(before.take(at as int).last() == before[at - 1]);
            assert(before.take(at as int).drop_last() =~= before.take(at - 1));
            at = at - 1;
        }
        assert(place_for(before.take(at as int), total as int) == at) by {
            if at > 0 {
                assert(before.take(at as int).last() == before[at - 1]);
            }
        }
        let line = (q.name.clone(), Bytes(total), q.count);
        let ghost text = (q.name@, total as int, q.count);
        acc.insert(at, line);
        assert(lines_view(acc@) =~= before.insert(at as int, text));
        i = i + 1;
    }
    acc
}

/// The lines of the first `n` queries, as the queries come.
pub open spec fn lines(q: Seq<QueryMemory>, n: nat) -> Seq<(Seq<char>, int, usize)> {
    Seq::new(n, |i: int| line_of(q[i]))
}

/// The report is in order, and consists of the lines of the queries.
pub proof fn report_is_sorted(q: Seq<QueryMemory>, n: nat)
    requires
        n <= q.len(),
    ensures
        report(q, n).len() == n,
        report(q, n).to_multiset() == lines(q, n).to_multiset(),
        forall|i: int, j: int|
            0 <= i < j < n ==> (#[trigger] report(q, n)[i]).1 >= (#[trigger] report(q, n)[j]).1,
    decreases n,
{
    if n == 0 {
        assert(report(q, n) =~= lines(q, n));
    } else {
        let m = (n - 1) as nat;
        report_is_sorted(q, m);
        let before = report(q, m);
        let line = line_of(q[n - 1]);
        let p = place_for(before, line.1) as int;
        lemma_place_for(before, line.1);
        let after = report(q, n);
        assert(lines(q, n) =~= lines(q, m).push(line));
        lines(q, m).to_multiset_ensures();
        after.to_multiset_ensures();
        assert(after[p] == line);
        assert(after.remove(p) =~= before);
        assert(after.to_multiset().count(line) > 0);
        assert(after.to_multiset() =~= before.to_multiset().insert(line));
        assert forall|i: int, j: int| 0 <= i < j < n implies (#[trigger] after[i]).1 >= (
        #[trigger] after[j]).1 by {
            let i0 = if i < p {
                i
            } else {
                i - 1
            };
            let j0 = if j < p {
                j
            } else {
                j - 1
            };
            if i != p && j != p {
                assert(before[i0].1 >= before[j0].1);
            } else if j == p {
                if i < p - 1 {
                    assert(before[i].1 >= before[p - 1].1);
                }
            } else {
                assert(before[j0].1 < line.1);
            }
        }
    }
}

} // verus!
