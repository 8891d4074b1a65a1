//! Numbering of the ids that share a kind and a hash.

use super::erased;
use super::erased::{ErasedFileAstId, ErasedFileAstIdKind, INDEX_LIMIT};
use crate::fx;
use rustc_hash::FxHashMap;
use std::hash::Hash;
use vstd::prelude::*;

verus! {

/// How many hashes there are.
pub const HASHES: u32 = 0x10000;

/// How many ids of one kind there can be.
pub const IDS_PER_KIND: u32 = 0x800_0000;

/// Where the numbers of a kind and a hash are counted.
pub open spec fn slot(kind: ErasedFileAstIdKind, hash: int) -> u32 {
    (erased::kind_number(kind) * HASHES + hash) as u32
}

/// Whether another id of this kind can have this hash.
pub open spec fn slot_free(m: Map<u32, u32>, kind: ErasedFileAstIdKind, hash: int) -> bool {
    m.contains_key(slot(kind, hash)) ==> m[slot(kind, hash)] < INDEX_LIMIT - 1
}

/// How far behind `start` the first hash lies that can be used, if the first `d` cannot.
pub open spec fn probe(m: Map<u32, u32>, kind: ErasedFileAstIdKind, start: int, d: nat) -> nat
    decreases HASHES - d,
{
    if d >= HASHES || slot_free(m, kind, (start + d) % HASHES as int) {
        d
    } else {
        probe(m, kind, start, d + 1)
    }
}

/// The hash that a new id gets: the folded one, or the next that can be used.
pub open spec fn hash_of_next(m: Map<u32, u32>, kind: ErasedFileAstIdKind, hash: u64) -> int {
    let start = erased::folded_hash(hash);
    (start + probe(m, kind, start, 0)) % HASHES as int
}

/// The number that a new id gets among those of the same kind and hash.
pub open spec fn index_of_next(m: Map<u32, u32>, kind: ErasedFileAstIdKind, hash: u64) -> u32 {
    let s = slot(kind, hash_of_next(m, kind, hash));
    if m.contains_key(s) {
        (m[s] + 1) as u32
    } else {
        0
    }
}

pub open spec fn next_id(
    m: Map<u32, u32>,
    kind: ErasedFileAstIdKind,
    hash: u64,
) -> ErasedFileAstId {
    ErasedFileAstId(
        erased::packed(
            hash_of_next(m, kind, hash) as u16,
            index_of_next(m, kind, hash),
            erased::kind_number(kind),
        ),
    )
}

pub open spec fn after_next(m: Map<u32, u32>, kind: ErasedFileAstIdKind, hash: u64) -> Map<
    u32,
    u32,
> {
    m.insert(slot(kind, hash_of_next(m, kind, hash)), index_of_next(m, kind, hash))
}

/// How many ids of the kind have one of the first `n` hashes.
pub open spec fn used(m: Map<u32, u32>, kind: ErasedFileAstIdKind, n: nat) -> nat
    decreases n,
{
    if n == 0 {
        0
    } else {
        used(m, kind, (n - 1) as nat) + if m.contains_key(slot(kind, n - 1)) {
            (m[slot(kind, n - 1)] + 1) as nat
        } else {
            0
        }
    }
}

pub(crate) proof fn lemma_slot_injective(
    k1: ErasedFileAstIdKind,
    h1: int,
    k2: ErasedFileAstIdKind,
    h2: int,
)
    requires
        0 <= h1 < HASHES,
        0 <= h2 < HASHES,
        slot(k1, h1) == slot(k2, h2),
    ensures
        k1 == k2,
        h1 == h2,
{
    assert(erased::kind_number(k1) <= 21);
    assert(erased::kind_number(k2) <= 21);
    assert(erased::kind_number(k1) == erased::kind_number(k2));
}

proof fn lemma_all_used(m: Map<u32, u32>, kind: ErasedFileAstIdKind, n: nat)
    requires
        n <= HASHES,
        forall|h: int| 0 <= h < n ==> !#[trigger] slot_free(m, kind, h),
    ensures
        used(m, kind, n) >= n * INDEX_LIMIT,
    decreases n,
{
    if n > 0 {
        lemma_all_used(m, kind, (n - 1) as nat);
        assert(!slot_free(m, kind, n - 1));
    }
}

pub(crate) proof fn lemma_probe(m: Map<u32, u32>, kind: ErasedFileAstIdKind, start: int, d: nat)
    requires
        d <= HASHES,
    ensures
        d <= probe(m, kind, start, d) <= HASHES,
        probe(m, kind, start, d) < HASHES ==> slot_free(
            m,
            kind,
            (start + probe(m, kind, start, d)) % HASHES as int,
        ),
        forall|e: int|
            d <= e < probe(m, kind, start, d) ==> !#[trigger] slot_free(
                m,
                kind,
                (start + e) % HASHES as int,
            ),
    decreases HASHES - d,
{
    if d < HASHES && !slot_free(m, kind, (start + d) % HASHES as int) {
        lemma_probe(m, kind, start, d + 1);
    }
}

/// As long as there are ids left, there is a hash that can be used.
proof fn lemma_some_hash_is_free(m: Map<u32, u32>, kind: ErasedFileAstIdKind, start: int)
    requires
        used(m, kind, HASHES as nat) < IDS_PER_KIND,
        0 <= start < HASHES,
    ensures
        probe(m, kind, start, 0) < HASHES,
{
    lemma_probe(m, kind, start, 0);
    if probe(m, kind, start, 0) >= HASHES {
        assert forall|h: int| 0 <= h < HASHES implies !#[trigger] slot_free(m, kind, h) by {
            let e = (h - start) % HASHES as int;
            assert(!slot_free(m, kind, (start + e) % HASHES as int));
            assert((start + e) % HASHES as int == h);
        }
        lemma_all_used(m, kind, HASHES as nat);
    }
}

proof fn lemma_used_insert(m: Map<u32, u32>, kind: ErasedFileAstIdKind, h: int, v: u32, k: ErasedFileAstIdKind, n: nat)
    requires
        0 <= h < HASHES,
        n <= HASHES,
        v == (if m.contains_key(slot(kind, h)) {
            m[slot(kind, h)] + 1
        } else {
            0
        }),
    ensures
        used(m.insert(slot(kind, h), v), k, n) == used(m, k, n) + if k == kind && h < n {
            1int
        } else {
            0int
        },
    decreases n,
{
    if n > 0 {
        lemma_used_insert(m, kind, h, v, k, (n - 1) as nat);
        if slot(k, n - 1) == slot(kind, h) {
            lemma_slot_injective(k, n - 1, kind, h);
        }
    }
}

/// No number is too large for an id.
pub open spec fn counters_wf(m: Map<u32, u32>) -> bool {
    forall|s: u32| #[trigger] m.contains_key(s) ==> m[s] < INDEX_LIMIT
}

/// A new id has the parts that it was made from, its number is one that was not given out before,
/// and one more id counts as given out.
pub proof fn lemma_next(m: Map<u32, u32>, kind: ErasedFileAstIdKind, hash: u64)
    requires
        counters_wf(m),
        used(m, kind, HASHES as nat) < IDS_PER_KIND,
    ensures
        counters_wf(after_next(m, kind, hash)),
        next_id(m, kind, hash).spec_hash() == hash_of_next(m, kind, hash),
        next_id(m, kind, hash).spec_index() == index_of_next(m, kind, hash),
        next_id(m, kind, hash).spec_kind() == erased::kind_number(kind),
        ({
            let s = slot(kind, hash_of_next(m, kind, hash));
            m.contains_key(s) ==> m[s] < index_of_next(m, kind, hash)
        }),
        forall|k: ErasedFileAstIdKind|
            #![trigger used(after_next(m, kind, hash), k, HASHES as nat)]
            used(after_next(m, kind, hash), k, HASHES as nat) == used(m, k, HASHES as nat)
                + if k == kind {
                1int
            } else {
                0int
            },
{
    let start = erased::folded_hash(hash);
    lemma_some_hash_is_free(m, kind, start);
    lemma_probe(m, kind, start, 0);
    let h = hash_of_next(m, kind, hash);
    let index = index_of_next(m, kind, hash);
    erased::unpacking_undoes_packing(h as u16, index, erased::kind_number(kind));
    assert forall|k: ErasedFileAstIdKind|
        #![trigger used(after_next(m, kind, hash), k, HASHES as nat)]
        used(after_next(m, kind, hash), k, HASHES as nat) == used(m, k, HASHES as nat) + if k
            == kind {
            1int
        } else {
            0int
        } by {
        lemma_used_insert(m, kind, h, index, k, HASHES as nat);
    }
}

/// Whether `hash` is what `fx_hash_one` returned for the data.
pub closed spec fn is_hash<T: Hash>(data: &T, hash: u64) -> bool {
    call_ensures(fx::fx_hash_one::<T>, (data,), hash)
}

pub(crate) proof fn lemma_is_hash<T: Hash>(data: &T, hash: u64)
    requires
        call_ensures(fx::fx_hash_one::<T>, (data,), hash),
    ensures
        is_hash(data, hash),
{
}

/// Counts the ids that were given out.
pub struct ErasedAstIdNextIndexMap {
    /// For each kind and hash the last number that was given out.
    pub counters: FxHashMap<u32, u32>,
}

impl ErasedAstIdNextIndexMap {
    /// No number is too large for an id.
    pub open spec fn wf(self) -> bool {
        counters_wf(self.counters@)
    }

    /// How many ids of the kind were given out.
    pub open spec fn given(self, kind: ErasedFileAstIdKind) -> nat {
        used(self.counters@, kind, HASHES as nat)
    }

    pub fn new() -> (r: ErasedAstIdNextIndexMap)
        ensures
            r.wf(),
            r.counters@ == Map::<u32, u32>::empty(),
            forall|k: ErasedFileAstIdKind| #[trigger] r.given(k) == 0,
    {
        let r = ErasedAstIdNextIndexMap { counters: fx::fx_map_new() };
        proof {
            assert(r.counters@ =~= Map::<u32, u32>::empty());
            assert forall|k: ErasedFileAstIdKind| #[trigger] r.given(k) == 0 by {
                lemma_used_empty(k, HASHES as nat);
            }
        }
        r
    }

    /// The next id of the given kind for data with the given hash. The hash is folded into 16 bits;
    /// where all numbers for it have been used up, the next hash is taken.
    pub fn new_id_for_hash(&mut self, kind: ErasedFileAstIdKind, hash: u64) -> (r: ErasedFileAstId)
        requires
            old(self).wf(),
            old(self).given(kind) < IDS_PER_KIND,
        ensures
            final(self).wf(),
            r == next_id(old(self).counters@, kind, hash),
            final(self).counters@ == after_next(old(self).counters@, kind, hash),
            forall|k: ErasedFileAstIdKind|
                #![trigger final(self).given(k)]
                final(self).given(k) == old(self).given(k) + if k == kind {
                    1int
                } else {
                    0int
                },
    {
        let ghost m = self.counters@;
        let initial_hash: u16 = erased::u16_hash(hash);
        proof {
            lemma_some_hash_is_free(m, kind, initial_hash as int);
            lemma_probe(m, kind, initial_hash as int, 0);
        }
        let base: u32 = kind.as_u32() * HASHES;
        let mut hash16: u16 = initial_hash;
        let ghost mut d: nat = 0;
        let mut index: u32 = 0;
        loop
            invariant_except_break
                probe(m, kind, initial_hash as int, d) == probe(m, kind, initial_hash as int, 0),
            invariant
                self.counters@ == m,
                self.wf(),
                base == erased::kind_number(kind) * HASHES,
                base <= 21 * HASHES,
                initial_hash == erased::folded_hash(hash),
                d < HASHES,
                hash16 == (initial_hash + d) % HASHES as int,
                probe(m, kind, initial_hash as int, 0) < HASHES,
            ensures
                hash16 == hash_of_next(m, kind, hash),
                index == index_of_next(m, kind, hash),
                index < INDEX_LIMIT,
            decreases HASHES - d,
        {
            match fx::fx_map_get(&self.counters, &(base + hash16 as u32)) {
                Some(i) => {
                    if *i < INDEX_LIMIT - 1 {
                        index = *i + 1;
                        break;
                    }
                },
                None => {
                    index = 0;
                    break;
                },
            }
            proof {
                lemma_probe(m, kind, initial_hash as int, d + 1);
                d = d + 1;
            }
            hash16 = hash16.wrapping_add(1);
        }
        let _ = fx::fx_map_insert(&mut self.counters, base + hash16 as u32, index);
        proof {
            lemma_next(m, kind, hash);
        }
        ErasedFileAstId(erased::pack_hash_index_and_kind(hash16, index, kind.as_u32()))
    }

    /// The next id of the given kind for the given data: the one that [`Self::new_id_for_hash`] gives
    /// for the hash of the data.
    pub fn new_id<T: Hash>(&mut self, kind: ErasedFileAstIdKind, data: &T) -> (r: ErasedFileAstId)
        requires
            old(self).wf(),
            old(self).given(kind) < IDS_PER_KIND,
        ensures
            final(self).wf(),
            exists|hash: u64| {
                &&& r == #[trigger] next_id(old(self).counters@, kind, hash)
                &&& final(self).counters@ == after_next(old(self).counters@, kind, hash)
                &&& is_hash(data, hash)
            },
            forall|k: ErasedFileAstIdKind|
                #![trigger final(self).given(k)]
                final(self).given(k) == old(self).given(k) + if k == kind {
                    1int
                } else {
                    0int
                },
    {
        let hash: u64 = fx::fx_hash_one(data);
        self.new_id_for_hash(kind, hash)
    }
}

pub(crate) proof fn lemma_used_empty(kind: ErasedFileAstIdKind, n: nat)
    ensures
        used(Map::<u32, u32>::empty(), kind, n) == 0,
    decreases n,
{
    if n > 0 {
        lemma_used_empty(kind, (n - 1) as nat);
    }
}

} // verus!
