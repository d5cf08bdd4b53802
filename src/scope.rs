//! The scope: the process-wide registry of a shared host capability, handed
//! by reference to every native function.
use vstd::prelude::*;

verus! {

/// Holds at most one instance of the capability type `T`. Inserting
/// replaces the instance held; lookups hand out the instance itself, so a
/// change made through one lookup is seen by the next.
pub struct Scope<T> {
    item: Option<T>,
}

impl<T> View for Scope<T> {
    type V = Option<T>;

    closed spec fn view(&self) -> Option<T> {
        self.item
    }
}

impl<T> Scope<T> {
    pub fn new() -> (r: Scope<T>)
        ensures
            r@ is None,
    {
        Scope { item: None }
    }

    /// Stores `item`, replacing any instance held before.
    pub fn insert(&mut self, item: T)
        ensures
            final(self)@ == Some(item),
    {
        self.item = Some(item);
    }

    /// The instance held, if any.
    pub fn get(&self) -> (r: Option<&T>)
        ensures
            r matches Some(x) ==> self@ == Some(*x),
            r is None <==> self@ is None,
    {
        match &self.item {
            Some(x) => Some(x),
            None => None,
        }
    }

    /// The instance held, for mutation in place, if any.
    pub fn get_mut(&mut self) -> (r: Option<&mut T>)
        ensures
            r is None <==> old(self)@ is None,
            r is None ==> final(self)@ is None,
            r matches Some(x) ==> lookup_step(old(self)@, *x, *final(x), final(self)@),
    {
        match &mut self.item {
            Some(x) => Some(x),
            None => None,
        }
    }
}

/// A lookup of a scope that held `before`: it handed out `seen`, the holder
/// left `left` behind it, and the scope then held `after`.
pub open spec fn lookup_step<T>(before: Option<T>, seen: T, left: T, after: Option<T>) -> bool {
    before == Some(seen) && after == Some(left)
}

/// Scope singleton: after `insert(x)`, the first lookup sees `x` itself, and
/// a second lookup sees the instance as the first one left it.
pub proof fn lemma_scope_singleton<T>(
    x: T,
    s1: Option<T>,
    seen1: T,
    left1: T,
    s2: Option<T>,
    seen2: T,
    left2: T,
    s3: Option<T>,
)
    requires
        s1 == Some(x),
        lookup_step(s1, seen1, left1, s2),
        lookup_step(s2, seen2, left2, s3),
    ensures
        seen1 == x,
        seen2 == left1,
{
}

} // verus!
