//! Handle registry for live game sessions: a session is stored in the first free slot
//! and addressed by that slot's index until it is destroyed.

use vstd::prelude::*;

verus! {

/// Slots holding values of type `T`; the index of a slot is the handle of its value.
pub struct SlotRegistry<T> {
    slots: Vec<Option<T>>,
}

impl<T> View for SlotRegistry<T> {
    type V = Seq<Option<T>>;

    closed spec fn view(&self) -> Seq<Option<T>> {
        self.slots@
    }
}

impl<T> SlotRegistry<T> {
    /// A registry with no slots.
    pub fn new() -> (res: Self)
        ensures
            res@ == Seq::<Option<T>>::empty(),
    {
        SlotRegistry { slots: Vec::new() }
    }

    /// Stores `value` in the first empty slot (appending a slot when none is empty) and
    /// returns that slot's handle.
    pub fn insert(&mut self, value: T) -> (handle: usize)
        requires
            old(self)@.len() < usize::MAX,
        ensures
            handle <= old(self)@.len(),
            forall|m: int| 0 <= m < handle ==> old(self)@[m] is Some,
            handle < old(self)@.len() ==> old(self)@[handle as int] is None
                && final(self)@ == old(self)@.update(handle as int, Some(value)),
            handle == old(self)@.len() ==> final(self)@ == old(self)@.push(Some(value)),
    {
        let n = self.slots.len();
        let mut i: usize = 0;
        while i < n
            invariant
                n == self.slots@.len(),
                self.slots@ == old(self)@,
                i <= n,
                forall|m: int| 0 <= m < i ==> self.slots@[m] is Some,
            decreases n - i,
        {
            if self.slots[i].is_none() {
                self.slots.set(i, Some(value));
                return i;
            }
            i = i + 1;
        }
        self.slots.push(Some(value));
        n
    }

    /// The value stored under `handle`, if that slot exists and is occupied.
    pub fn get(&self, handle: usize) -> (res: Option<&T>)
        ensures
            res is Some <==> (handle < self@.len() && self@[handle as int] is Some),
            res is Some ==> *res->0 == self@[handle as int]->0,
    {
        if handle < self.slots.len() {
            match &self.slots[handle] {
                Some(v) => Some(v),
                None => None,
            }
        } else {
            None
        }
    }

    /// Takes the value out of slot `handle`, leaving the slot empty (but reserved).
    pub fn take(&mut self, handle: usize) -> (res: Option<T>)
        ensures
            handle < old(self)@.len() ==> res == old(self)@[handle as int]
                && final(self)@ == old(self)@.update(handle as int, None),
            handle >= old(self)@.len() ==> res is None && final(self)@ == old(self)@,
    {
        if handle < self.slots.len() {
            let out = self.slots.remove(handle);
            self.slots.insert(handle, None);
            proof {
                assert(self.slots@ =~= old(self)@.update(handle as int, None));
            }
            out
        } else {
            None
        }
    }

    /// Puts `value` into slot `handle`.
    pub fn put(&mut self, handle: usize, value: T)
        requires
            handle < old(self)@.len(),
        ensures
            final(self)@ == old(self)@.update(handle as int, Some(value)),
    {
        self.slots.set(handle, Some(value));
    }

    /// Empties slot `handle` (if it exists); its handle may be reused by a later `insert`.
    pub fn remove(&mut self, handle: usize)
        ensures
            handle < old(self)@.len() ==> final(self)@ == old(self)@.update(handle as int, None),
            handle >= old(self)@.len() ==> final(self)@ == old(self)@,
    {
        if handle < self.slots.len() {
            self.slots.set(handle, None);
        }
    }
}

/// Read after write: the handle returned by `insert` gives back the stored value, and every
/// other slot is as before.
pub proof fn lemma_insert_then_get<T>(before: Seq<Option<T>>, after: Seq<Option<T>>, handle: usize, value: T)
    requires
        handle <= before.len(),
        handle < before.len() ==> after == before.update(handle as int, Some(value)),
        handle == before.len() ==> after == before.push(Some(value)),
    ensures
        handle < after.len(),
        after[handle as int] == Some(value),
        forall|k: int| 0 <= k < before.len() && k != handle ==> after[k] == before[k],
{
}

/// After `remove`, the handle no longer gives a value, and every other slot is as before.
pub proof fn lemma_remove_then_get<T>(before: Seq<Option<T>>, after: Seq<Option<T>>, handle: usize)
    requires
        handle < before.len() ==> after == before.update(handle as int, None),
        handle >= before.len() ==> after == before,
    ensures
        !(handle < after.len() && after[handle as int] is Some),
        after.len() == before.len(),
        forall|k: int| 0 <= k < before.len() && k != handle ==> after[k] == before[k],
{
}

/// Handle reuse: after removing handle `h` from a registry in which every lower slot
/// is occupied, the next `insert` returns `h` again (the facts about `next` and `mid`
/// are those `insert` ensures on the registry left by `remove`).
pub proof fn lemma_insert_reuses_removed<T>(before: Seq<Option<T>>, mid: Seq<Option<T>>, h: usize, next: usize)
    requires
        h < before.len(),
        forall|m: int| 0 <= m < h ==> (#[trigger] before[m]) is Some,
        mid == before.update(h as int, None),
        next <= mid.len(),
        forall|m: int| 0 <= m < next ==> (#[trigger] mid[m]) is Some,
        next < mid.len() ==> mid[next as int] is None,
    ensures
        next == h,
{
    if next < h {
        assert(mid[next as int] == before[next as int]);
    }
    if next > h {
        assert(mid[h as int] is Some);
    }
}

} // verus!
