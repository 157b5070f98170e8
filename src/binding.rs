//! Memo of the buffer handle that is bound on each target, so that a bind of
//! the handle already bound issues no driver call.
use vstd::prelude::*;

verus! {

/// The two buffer targets that hold vertex data and index data.
#[derive(Clone, Copy, Debug, PartialEq, Eq, Structural)]
pub enum Target {
    /// The vertex-attribute array target.
    Array,
    /// The index (element) array target.
    ElementArray,
}

/// One call of `bind(id, target)` took the cache from `before` to `after` and
/// answered `issued`: a driver bind is issued exactly when `target` did not
/// already hold `id`, `target` then holds `id`, and the other slot is untouched.
pub open spec fn bind_step(before: BindingCache, after: BindingCache, id: u32, target: Target, issued: bool) -> bool {
    &&& issued == (before.slot(target) != Some(id))
    &&& after.slot(target) == Some(id)
    &&& forall|t: Target| t != target ==> after.slot(t) == before.slot(t)
}

/// The handle last bound through this cache, one slot per target.
/// `None` means that nothing has been bound on that target yet.
#[derive(Clone, Copy, Debug)]
pub struct BindingCache {
    array: Option<u32>,
    element_array: Option<u32>,
}

impl BindingCache {
    /// What the cache records for `target`.
    pub closed spec fn slot(&self, target: Target) -> Option<u32> {
        match target {
            Target::Array => self.array,
            Target::ElementArray => self.element_array,
        }
    }

    /// A cache in which nothing is bound.
    pub fn new() -> (r: BindingCache)
        ensures
            r.slot(Target::Array) is None,
            r.slot(Target::ElementArray) is None,
    {
        BindingCache { array: None, element_array: None }
    }

    /// The handle recorded as bound on `target`, if any.
    pub fn bound(&self, target: Target) -> (r: Option<u32>)
        ensures
            r == self.slot(target),
    {
        match target {
            Target::Array => self.array,
            Target::ElementArray => self.element_array,
        }
    }

    /// Records `id` as bound on `target`. Returns whether a real bind has to be
    /// issued to the driver, which is the case exactly when `target` did not
    /// already hold `id`. The other target's slot is left as it was.
    pub fn bind(&mut self, id: u32, target: Target) -> (issued: bool)
        ensures
            bind_step(*old(self), *final(self), id, target, issued),
    {
        let current = self.bound(target);
        let issued = match current {
            Some(c) => c != id,
            None => true,
        };
        if issued {
            match target {
                Target::Array => self.array = Some(id),
                Target::ElementArray => self.element_array = Some(id),
            }
        }
        issued
    }
}

/// Binding a handle twice in a row issues a driver bind the second time
/// never: the first bind already recorded it.
pub proof fn lemma_bind_twice(c0: BindingCache, c1: BindingCache, c2: BindingCache, id: u32, target: Target, i1: bool, i2: bool)
    requires
        bind_step(c0, c1, id, target, i1),
        bind_step(c1, c2, id, target, i2),
    ensures
        !i2,
{
}

/// Binding one handle and then another on the same target issues a driver
/// bind for the second.
pub proof fn lemma_bind_other_handle(c0: BindingCache, c1: BindingCache, c2: BindingCache, a: u32, b: u32, target: Target, i1: bool, i2: bool)
    requires
        a != b,
        bind_step(c0, c1, a, target, i1),
        bind_step(c1, c2, b, target, i2),
    ensures
        i2,
{
}

/// A bind on one target leaves what the other target recorded in place:
/// binding `a` on one target and then `b` on the other keeps both.
pub proof fn lemma_bind_targets_independent(c0: BindingCache, c1: BindingCache, c2: BindingCache, a: u32, b: u32, t1: Target, t2: Target, i1: bool, i2: bool)
    requires
        t1 != t2,
        bind_step(c0, c1, a, t1, i1),
        bind_step(c1, c2, b, t2, i2),
    ensures
        c2.slot(t1) == Some(a),
        c2.slot(t2) == Some(b),
{
}

} // verus!
