//! The derive macros that are called in a scope.

use crate::ids::{AttrId, BuiltinDeriveImplId, MacroCallId};
use crate::small;
use crate::small::Small;
use vstd::prelude::*;

verus! {

/// What a derive leads to: the call of a macro, or an impl that is built in.
#[derive(Clone, Copy, PartialEq, Eq, Structural, Debug)]
pub enum DeriveCall {
    Macro(MacroCallId),
    Builtin(BuiltinDeriveImplId),
}

/// The derives of one attribute, in the order in which they are written. Those that are not known
/// yet are empty.
pub type DeriveCallIds = Small<Option<DeriveCall>, 4>;

/// A derive attribute.
#[derive(Debug, PartialEq, Eq)]
pub struct DeriveMacroInvocation {
    pub attr_id: AttrId,
    /// The call of the attribute itself.
    pub attr_call_id: MacroCallId,
    pub derive_call_ids: DeriveCallIds,
}

pub ghost struct SpecInvocation {
    pub attr_id: AttrId,
    pub attr_call_id: MacroCallId,
    pub calls: Seq<Option<DeriveCall>>,
}

impl View for DeriveMacroInvocation {
    type V = SpecInvocation;

    open spec fn view(&self) -> SpecInvocation {
        SpecInvocation {
            attr_id: self.attr_id,
            attr_call_id: self.attr_call_id,
            calls: small::small(self.derive_call_ids),
        }
    }
}

/// The derive attributes of one item. Mostly there is one.
#[derive(Debug, PartialEq, Eq)]
pub struct DeriveInvocations {
    pub inner: Small<DeriveMacroInvocation, 1>,
}

impl View for DeriveInvocations {
    type V = Seq<SpecInvocation>;

    open spec fn view(&self) -> Seq<SpecInvocation> {
        Seq::new(small::small(self.inner).len(), |i: int| small::small(self.inner)[i]@)
    }
}

/// Where the attribute is among those from `i` on.
pub open spec fn find_attr(s: Seq<SpecInvocation>, id: AttrId, i: nat) -> Option<nat>
    decreases s.len() - i,
{
    if i >= s.len() {
        None
    } else if s[i as int].attr_id == id {
        Some(i)
    } else {
        find_attr(s, id, i + 1)
    }
}

impl DeriveInvocations {
    /// Where the attribute is.
    pub fn find(&self, id: AttrId) -> (r: Option<usize>)
        ensures
            r is Some <==> find_attr(self@, id, 0) is Some,
            r matches Some(i) ==> find_attr(self@, id, 0) == Some(i as nat) && i < self@.len()
                && self@[i as int].attr_id == id,
    {
        let s = small::small_as_slice(&self.inner);
        let mut i: usize = 0;
        while i < s.len()
            invariant
                s@ == small::small(self.inner),
                i <= s@.len(),
                find_attr(self@, id, 0) == find_attr(self@, id, i as nat),
            decreases s@.len() - i,
        {
            assert(self@[i as int] == s@[i as int]@);
            if s[i].attr_id == id {
                return Some(i);
            }
            i = i + 1;
        }
        None
    }

    /// Records what one of the derives of an attribute leads to.
    pub fn set_call(&mut self, at: usize, idx: usize, call: DeriveCall)
        requires
            at < old(self)@.len(),
            idx < old(self)@[at as int].calls.len(),
        ensures
            final(self)@ == old(self)@.update(
                at as int,
                (SpecInvocation {
                    calls: old(self)@[at as int].calls.update(idx as int, Some(call)),
                    ..old(self)@[at as int]
                }),
            ),
    {
        let ghost before = self@;
        let spare = DeriveMacroInvocation {
            attr_id: small::small_as_slice(&self.inner)[at].attr_id,
            attr_call_id: small::small_as_slice(&self.inner)[at].attr_call_id,
            derive_call_ids: small::small_new(),
        };
        let mut invocation = small::small_replace(&mut self.inner, at, spare);
        assert(before[at as int] == invocation@);
        let _ = small::small_replace(&mut invocation.derive_call_ids, idx, Some(call));
        let ghost after = invocation@;
        let _ = small::small_replace(&mut self.inner, at, invocation);
        assert(self@ =~= before.update(at as int, after));
    }
}

} // verus!
