//! The calls of macros in a scope.

use super::derives;
use super::derives::{DeriveCall, DeriveMacroInvocation};
use super::keys::{AstId, NodeMap};
use super::scope::ItemScope;
use crate::ids::MacroCallId;
use crate::small;
use vstd::multiset::Multiset;
use vstd::prelude::*;

verus! {

proof fn lemma_contains_push<T>(s: Seq<T>, x: T, y: T)
    ensures
        s.push(x).contains(y) <==> s.contains(y) || x == y,
{
    if s.push(x).contains(y) {
        let k = choose|k: int| 0 <= k < s.push(x).len() && s.push(x)[k] == y;
        if k < s.len() {
            assert(s[k] == y);
        }
    }
    if s.contains(y) {
        let k = choose|k: int| 0 <= k < s.len() && s[k] == y;
        assert(s.push(x)[k] == y);
    }
    if x == y {
        assert(s.push(x)[s.len() as int] == y);
    }
}

/// Whether a call is recorded for some node.
pub open spec fn has_call(m: Map<AstId, MacroCallId>, call: MacroCallId) -> bool {
    exists|n: AstId| #[trigger] m.contains_key(n) && m[n] == call
}

/// Whether one of the derive attributes leads to a call.
pub open spec fn invocation_calls(s: Seq<DeriveMacroInvocation>, call: MacroCallId) -> bool {
    exists|i: int|
        0 <= i < s.len() && small::small((#[trigger] s[i]).derive_call_ids).contains(
            Some(DeriveCall::Macro(call)),
        )
}

/// Whether a derive on some item leads to a call.
pub open spec fn derive_calls(m: Map<AstId, derives::DeriveInvocations>, call: MacroCallId) -> bool {
    exists|n: AstId| #[trigger]
        m.contains_key(n) && invocation_calls(small::small(m[n].inner), call)
}

// How often a call comes.

/// What `f` makes of the values of a map, taken together.
pub open spec fn sum_over<V>(
    m: Map<AstId, V>,
    f: spec_fn(V) -> Multiset<MacroCallId>,
) -> Multiset<MacroCallId>
    decreases m.dom().len(),
{
    if !m.dom().finite() || m.dom().len() == 0 {
        Multiset::empty()
    } else {
        let n = m.dom().choose();
        sum_over(m.remove(n), f).add(f(m[n]))
    }
}

pub(crate) proof fn lemma_sum_remove<V>(m: Map<AstId, V>, f: spec_fn(V) -> Multiset<MacroCallId>, k: AstId)
    requires
        m.dom().finite(),
        m.contains_key(k),
    ensures
        sum_over(m, f) == sum_over(m.remove(k), f).add(f(m[k])),
    decreases m.dom().len(),
{
    let n = m.dom().choose();
    assert(m.dom().contains(k));
    if n != k {
        lemma_sum_remove(m.remove(n), f, k);
        lemma_sum_remove(m.remove(k), f, n);
        assert(m.remove(n).remove(k) =~= m.remove(k).remove(n));
        assert(sum_over(m, f) =~= sum_over(m.remove(k), f).add(f(m[k])));
    }
}

/// What `f` makes of the values of the first `i` entries, taken together.
spec fn sum_of<V>(
    e: Seq<&(AstId, V)>,
    f: spec_fn(V) -> Multiset<MacroCallId>,
    i: nat,
) -> Multiset<MacroCallId>
    decreases i,
{
    if i == 0 {
        Multiset::empty()
    } else {
        sum_of(e, f, (i - 1) as nat).add(f(e[i - 1].1))
    }
}

/// The first `i` entries are those of the map, each once.
spec fn lists<V>(e: Seq<&(AstId, V)>, m: Map<AstId, V>, i: int) -> bool {
    &&& forall|n: AstId| #[trigger]
        m.contains_key(n) ==> exists|k: int| 0 <= k < i && *(#[trigger] e[k]) == (n, m[n])
    &&& forall|k: int| 0 <= k < i ==> m.contains_key((#[trigger] e[k]).0) && m[e[k].0] == e[k].1
    &&& forall|j: int, k: int| 0 <= j < k < i ==> (#[trigger] e[j]).0 != (#[trigger] e[k]).0
}

proof fn lemma_sum_of<V>(
    e: Seq<&(AstId, V)>,
    m: Map<AstId, V>,
    f: spec_fn(V) -> Multiset<MacroCallId>,
    i: nat,
)
    requires
        i <= e.len(),
        lists(e, m, i as int),
    ensures
        m.dom().finite(),
        sum_over(m, f) == sum_of(e, f, i),
    decreases i,
{
    if i == 0 {
        assert(m.dom() =~= Set::empty());
    } else {
        let last = *e[i - 1];
        let rest = m.remove(last.0);
        assert(m.contains_key(e[i - 1].0));
        assert forall|n: AstId| #[trigger] rest.contains_key(n) implies exists|k: int|
            0 <= k < i - 1 && *(#[trigger] e[k]) == (n, rest[n]) by {
            assert(m.contains_key(n));
            let k = choose|k: int| 0 <= k < i && *(#[trigger] e[k]) == (n, m[n]);
            assert(*e[k] == (n, rest[n]));
        }
        lemma_sum_of(e, rest, f, (i - 1) as nat);
        assert(m.dom() =~= rest.dom().insert(last.0));
        lemma_sum_remove(m, f, last.0);
    }
}

/// The macros that the first `i` derives of an attribute lead to.
pub open spec fn call_id_calls(ids: Seq<Option<DeriveCall>>, i: nat) -> Multiset<MacroCallId>
    decreases i,
{
    if i == 0 {
        Multiset::empty()
    } else {
        match ids[i - 1] {
            Some(DeriveCall::Macro(call)) => call_id_calls(ids, (i - 1) as nat).insert(call),
            _ => call_id_calls(ids, (i - 1) as nat),
        }
    }
}

/// The macros that the first `i` derive attributes of an item lead to.
pub open spec fn attribute_calls(s: Seq<DeriveMacroInvocation>, i: nat) -> Multiset<MacroCallId>
    decreases i,
{
    if i == 0 {
        Multiset::empty()
    } else {
        let ids = small::small(s[i - 1].derive_call_ids);
        attribute_calls(s, (i - 1) as nat).add(call_id_calls(ids, ids.len()))
    }
}

/// The macros that the derives of an item lead to.
pub open spec fn item_calls(d: derives::DeriveInvocations) -> Multiset<MacroCallId> {
    attribute_calls(small::small(d.inner), small::small(d.inner).len())
}

/// The calls that are recorded for nodes.
pub open spec fn node_calls(m: Map<AstId, MacroCallId>) -> Multiset<MacroCallId> {
    sum_over(m, |call: MacroCallId| Multiset::singleton(call))
}

fn push_calls(map: &NodeMap<MacroCallId>, out: &mut Vec<MacroCallId>)
    requires
        map.wf(),
    ensures
        final(out)@.to_multiset() == old(out)@.to_multiset().add(node_calls(map@)),
        forall|c: MacroCallId| #[trigger]
            final(out)@.contains(c) <==> old(out)@.contains(c) || has_call(map@, c),
{
    let entries = map.entries();
    let ghost before = out@;
    let ghost f = |call: MacroCallId| Multiset::singleton(call);
    let mut i: usize = 0;
    assert(out@.to_multiset() =~= before.to_multiset().add(sum_of(entries@, f, 0)));
    while i < entries.len()
        invariant
            i <= entries@.len(),
            before == old(out)@,
            f == (|call: MacroCallId| Multiset::singleton(call)),
            out@.to_multiset() == before.to_multiset().add(sum_of(entries@, f, i as nat)),
            forall|c: MacroCallId| #[trigger]
                out@.contains(c) <==> before.contains(c) || exists|k: int|
                    0 <= k < i && (#[trigger] entries@[k]).1 == c,
        decreases entries@.len() - i,
    {
        let ghost so_far = out@;
        let call = entries[i].1;
        out.push(call);
        proof {
            so_far.to_multiset_ensures();
            assert(out@.to_multiset() =~= before.to_multiset().add(
                sum_of(entries@, f, (i + 1) as nat),
            ));
            assert forall|c: MacroCallId| #[trigger]
                out@.contains(c) <==> before.contains(c) || exists|k: int|
                    0 <= k < i + 1 && (#[trigger] entries@[k]).1 == c by {
                lemma_contains_push(so_far, call, c);
                assert(entries@[i as int].1 == call);
                if exists|k: int| 0 <= k < i + 1 && (#[trigger] entries@[k]).1 == c {
                    let k = choose|k: int| 0 <= k < i + 1 && (#[trigger] entries@[k]).1 == c;
                    if k < i {
                        assert(so_far.contains(c));
                    }
                }
                if so_far.contains(c) && !before.contains(c) {
                    let k = choose|k: int| 0 <= k < i && (#[trigger] entries@[k]).1 == c;
                    assert(entries@[k].1 == c);
                }
            }
        }
        i = i + 1;
    }
    proof {
        assert(lists(entries@, map@, entries@.len() as int));
        lemma_sum_of(entries@, map@, f, entries@.len());
        assert forall|c: MacroCallId| #[trigger]
            out@.contains(c) <==> before.contains(c) || has_call(map@, c) by {
            if has_call(map@, c) {
                let n = choose|n: AstId| #[trigger] map@.contains_key(n) && map@[n] == c;
                let k = choose|k: int|
                    0 <= k < entries@.len() && *(#[trigger] entries@[k]) == (n, map@[n]);
                assert(entries@[k].1 == c);
            }
            if exists|k: int| 0 <= k < i && (#[trigger] entries@[k]).1 == c {
                let k = choose|k: int| 0 <= k < i && (#[trigger] entries@[k]).1 == c;
                assert(map@.contains_key(entries@[k].0));
            }
        }
    }
}

fn push_call_ids(ids: &[Option<DeriveCall>], out: &mut Vec<MacroCallId>)
    ensures
        final(out)@.to_multiset() == old(out)@.to_multiset().add(
            call_id_calls(ids@, ids@.len()),
        ),
        forall|c: MacroCallId| #[trigger]
            final(out)@.contains(c) <==> old(out)@.contains(c) || ids@.contains(
                Some(DeriveCall::Macro(c)),
            ),
{
    let ghost before = out@;
    let mut i: usize = 0;
    assert(out@.to_multiset() =~= before.to_multiset().add(call_id_calls(ids@, 0)));
    while i < ids.len()
        invariant
            i <= ids@.len(),
            before == old(out)@,
            out@.to_multiset() == before.to_multiset().add(call_id_calls(ids@, i as nat)),
            forall|c: MacroCallId| #[trigger]
                out@.contains(c) <==> before.contains(c) || ids@.take(i as int).contains(
                    Some(DeriveCall::Macro(c)),
                ),
        decreases ids@.len() - i,
    {
        let ghost so_far = out@;
        let ghost id = ids@[i as int];
        if let Some(DeriveCall::Macro(call)) = ids[i] {
            out.push(call);
        }
        proof {
            so_far.to_multiset_ensures();
            assert(out@.to_multiset() =~= before.to_multiset().add(
                call_id_calls(ids@, (i + 1) as nat),
            ));
            assert(ids@.take(i + 1) =~= ids@.take(i as int).push(id));
            assert forall|c: MacroCallId| #[trigger]
                out@.contains(c) <==> before.contains(c) || ids@.take(i + 1).contains(
                    Some(DeriveCall::Macro(c)),
                ) by {
                lemma_contains_push(ids@.take(i as int), id, Some(DeriveCall::Macro(c)));
                assert(so_far.contains(c) <==> before.contains(c) || ids@.take(i as int).contains(
                    Some(DeriveCall::Macro(c)),
                ));
                if let Some(DeriveCall::Macro(call)) = id {
                    lemma_contains_push(so_far, call, c);
                }
            }
        }
        i = i + 1;
    }
    assert(ids@.take(ids@.len() as int) =~= ids@);
}

fn push_invocations(s: &[DeriveMacroInvocation], out: &mut Vec<MacroCallId>)
    ensures
        final(out)@.to_multiset() == old(out)@.to_multiset().add(attribute_calls(s@, s@.len())),
        forall|c: MacroCallId| #[trigger]
            final(out)@.contains(c) <==> old(out)@.contains(c) || invocation_calls(s@, c),
{
    let ghost before = out@;
    let mut i: usize = 0;
    assert(out@.to_multiset() =~= before.to_multiset().add(attribute_calls(s@, 0)));
    while i < s.len()
        invariant
            i <= s@.len(),
            before == old(out)@,
            out@.to_multiset() == before.to_multiset().add(attribute_calls(s@, i as nat)),
            forall|c: MacroCallId| #[trigger]
                out@.contains(c) <==> before.contains(c) || invocation_calls(s@.take(i as int), c),
        decreases s@.len() - i,
    {
        let ghost so_far = out@;
        push_call_ids(s[i].derive_call_ids.as_slice(), out);
        proof {
            assert(out@.to_multiset() =~= before.to_multiset().add(
                attribute_calls(s@, (i + 1) as nat),
            ));
            let (shorter, longer) = (s@.take(i as int), s@.take(i + 1));
            assert forall|c: MacroCallId| #[trigger]
                out@.contains(c) <==> before.contains(c) || invocation_calls(longer, c) by {
                assert(so_far.contains(c) <==> before.contains(c) || invocation_calls(shorter, c));
                if invocation_calls(shorter, c) {
                    let k = choose|k: int|
                        0 <= k < shorter.len() && small::small(
                            (#[trigger] shorter[k]).derive_call_ids,
                        ).contains(Some(DeriveCall::Macro(c)));
                    assert(longer[k] == shorter[k]);
                }
                if invocation_calls(longer, c) {
                    let k = choose|k: int|
                        0 <= k < longer.len() && small::small(
                            (#[trigger] longer[k]).derive_call_ids,
                        ).contains(Some(DeriveCall::Macro(c)));
                    if k < i {
                        assert(shorter[k] == longer[k]);
                    }
                }
                assert(longer[i as int] == s@[i as int]);
            }
        }
        i = i + 1;
    }
    assert(s@.take(s@.len() as int) =~= s@);
}

impl ItemScope {
    /// Whether a macro is called in the scope: by name, as an attribute or as a derive.
    pub open spec fn calls_macro(self, call: MacroCallId) -> bool {
        ||| has_call(self.macro_invocations@, call)
        ||| has_call(self.attr_macros@, call)
        ||| derive_calls(self.derive_macros@, call)
    }

    /// The calls of macros in the scope, as often as they are recorded.
    pub open spec fn macro_calls(self) -> Multiset<MacroCallId> {
        node_calls(self.macro_invocations@).add(node_calls(self.attr_macros@)).add(
            sum_over(self.derive_macros@, |d: derives::DeriveInvocations| item_calls(d)),
        )
    }

    /// The calls of macros in the scope, in no particular order.
    pub fn all_macro_calls(&self) -> (r: Vec<MacroCallId>)
        requires
            self.wf(),
        ensures
            r@.to_multiset() == self.macro_calls(),
            forall|c: MacroCallId| #[trigger] r@.contains(c) <==> self.calls_macro(c),
    {
        let mut out: Vec<MacroCallId> = Vec::new();
        proof {
            out@.to_multiset_ensures();
            assert(out@.to_multiset() =~= Multiset::empty());
        }
        push_calls(&self.macro_invocations, &mut out);
        push_calls(&self.attr_macros, &mut out);
        let ghost before = out@;
        let entries = self.derive_macros.entries();
        let ghost f = |d: derives::DeriveInvocations| item_calls(d);
        let mut i: usize = 0;
        assert(out@.to_multiset() =~= before.to_multiset().add(sum_of(entries@, f, 0)));
        while i < entries.len()
            invariant
                i <= entries@.len(),
                f == (|d: derives::DeriveInvocations| item_calls(d)),
                out@.to_multiset() == before.to_multiset().add(sum_of(entries@, f, i as nat)),
                forall|c: MacroCallId| #[trigger]
                    out@.contains(c) <==> before.contains(c) || exists|k: int|
                        0 <= k < i && invocation_calls(
                            small::small((#[trigger] entries@[k]).1.inner),
                            c,
                        ),
            decreases entries@.len() - i,
        {
            let ghost so_far = out@;
            push_invocations(small::small_as_slice(&entries[i].1.inner), &mut out);
            proof {
                assert(out@.to_multiset() =~= before.to_multiset().add(
                    sum_of(entries@, f, (i + 1) as nat),
                ));
                assert forall|c: MacroCallId| #[trigger]
                    out@.contains(c) <==> before.contains(c) || exists|k: int|
                        0 <= k < i + 1 && invocation_calls(
                            small::small((#[trigger] entries@[k]).1.inner),
                            c,
                        ) by {
                    let own = invocation_calls(small::small(entries@[i as int].1.inner), c);
                    assert(out@.contains(c) <==> so_far.contains(c) || own);
                    if so_far.contains(c) && !before.contains(c) {
                        let k = choose|k: int|
                            0 <= k < i && invocation_calls(
                                small::small((#[trigger] entries@[k]).1.inner),
                                c,
                            );
                        assert(0 <= k < i + 1 && invocation_calls(
                            small::small(entries@[k].1.inner),
                            c,
                        ));
                    }
                    if exists|k: int|
                        0 <= k < i + 1 && invocation_calls(
                            small::small((#[trigger] entries@[k]).1.inner),
                            c,
                        ) {
                        let k = choose|k: int|
                            0 <= k < i + 1 && invocation_calls(
                                small::small((#[trigger] entries@[k]).1.inner),
                                c,
                            );
                        if k < i {
                            assert(so_far.contains(c));
                        }
                    }
                }
            }
            i = i + 1;
        }
        proof {
            assert(lists(entries@, self.derive_macros@, entries@.len() as int));
            lemma_sum_of(entries@, self.derive_macros@, f, entries@.len());
            assert(out@.to_multiset() =~= self.macro_calls());
            assert forall|c: MacroCallId| #[trigger]
                out@.contains(c) <==> self.calls_macro(c) by {
                assert(before.contains(c) <==> has_call(self.macro_invocations@, c) || has_call(
                    self.attr_macros@,
                    c,
                ));
                if derive_calls(self.derive_macros@, c) {
                    let n = choose|n: AstId| #[trigger]
                        self.derive_macros@.contains_key(n) && invocation_calls(
                            small::small(self.derive_macros@[n].inner),
                            c,
                        );
                    let k = choose|k: int|
                        0 <= k < entries@.len() && *(#[trigger] entries@[k]) == (
                            n,
                            self.derive_macros@[n],
                        );
                    assert(invocation_calls(small::small(entries@[k].1.inner), c));
                }
                if exists|k: int|
                    0 <= k < i && invocation_calls(
                        small::small((#[trigger] entries@[k]).1.inner),
                        c,
                    ) {
                    let k = choose|k: int|
                        0 <= k < i && invocation_calls(
                            small::small((#[trigger] entries@[k]).1.inner),
                            c,
                        );
                    assert(self.derive_macros@.contains_key(entries@[k].0));
                }
            }
        }
        out
    }
}

} // verus!
