//! Dense identity tables.
//!
//! Each resource kind keeps a table from opaque asset identity to a dense
//! integer slot: the identity stored at position `k` owns slot `k`. Slots
//! stay gap-free between diff passes: erasing a slot shifts every larger
//! slot down by one, which is why a removal invalidates raw offsets derived
//! from slots and forces a full re-flatten of the pools.

use vstd::prelude::*;

verus! {

/// Identities are distinct: no asset owns two slots.
pub open spec fn distinct_ids(s: Seq<u64>) -> bool {
    forall|i: int, j: int| 0 <= i < j < s.len() ==> s[i] != s[j]
}

/// A dense identity table: the reverse array slot -> identity. The forward
/// direction (identity -> slot) is a linear lookup; tables here hold at most
/// a few thousand live assets.
pub struct IdTable {
    ids: Vec<u64>,
}

impl View for IdTable {
    type V = Seq<u64>;

    closed spec fn view(&self) -> Seq<u64> {
        self.ids@
    }
}

impl IdTable {
    /// The table invariant: one slot per identity.
    pub open spec fn wf(&self) -> bool {
        distinct_ids(self@)
    }

    /// An empty table.
    pub fn new() -> (t: IdTable)
        ensures
            t@ =~= Seq::<u64>::empty(),
            t.wf(),
    {
        IdTable { ids: Vec::new() }
    }

    /// Number of live slots.
    pub fn len(&self) -> (n: usize)
        ensures
            n == self@.len(),
    {
        self.ids.len()
    }

    /// The identity owning a slot.
    pub fn id_at(&self, k: usize) -> (id: u64)
        requires
            k < self@.len(),
        ensures
            id == self@[k as int],
    {
        self.ids[k]
    }

    /// The slot owned by an identity, or `None` if the identity is not
    /// registered.
    pub fn slot_of(&self, id: u64) -> (r: Option<usize>)
        ensures
            match r {
                Some(k) => k < self@.len() && self@[k as int] == id,
                None => !self@.contains(id),
            },
    {
        let mut k: usize = 0;
        while k < self.ids.len()
            invariant
                k <= self.ids.len(),
                forall|i: int| 0 <= i < k ==> self.ids@[i] != id,
            decreases self.ids.len() - k,
        {
            if self.ids[k] == id {
                return Some(k);
            }
            k = k + 1;
        }
        assert(!self@.contains(id));
        None
    }

    /// Registers a new identity at the next slot.
    pub fn push_id(&mut self, id: u64)
        requires
            old(self).wf(),
            !old(self)@.contains(id),
        ensures
            final(self)@ == old(self)@.push(id),
            final(self).wf(),
    {
        self.ids.push(id);
        assert forall|i: int, j: int| 0 <= i < j < self@.len() implies self@[i] != self@[j] by {
            if j == self@.len() - 1 {
                assert(old(self)@[i] == self@[i]);
                assert(old(self)@.contains(self@[i])) by {
                    assert(old(self)@[i] == self@[i]);
                }
            }
        }
    }

    /// An independent copy of the table.
    pub fn copied(&self) -> (t: IdTable)
        ensures
            t@ == self@,
    {
        let mut ids: Vec<u64> = Vec::new();
        let mut i: usize = 0;
        while i < self.ids.len()
            invariant
                i <= self.ids@.len(),
                ids@ == self.ids@.take(i as int),
            decreases self.ids@.len() - i,
        {
            ids.push(self.ids[i]);
            proof {
                assert(ids@ =~= self.ids@.take(i + 1 as int));
            }
            i = i + 1;
        }
        proof {
            assert(self.ids@.take(self.ids@.len() as int) =~= self.ids@);
        }
        IdTable { ids }
    }

    /// Erases the slot owned by an identity and compacts: every slot above
    /// the erased one shifts down by one. Returns the erased slot, or `None`
    /// (leaving the table unchanged) if the identity is not registered.
    pub fn remove_id(&mut self, id: u64) -> (r: Option<usize>)
        requires
            old(self).wf(),
        ensures
            final(self).wf(),
            match r {
                Some(k) => {
                    &&& k < old(self)@.len()
                    &&& old(self)@[k as int] == id
                    &&& final(self)@ == old(self)@.remove(k as int)
                },
                None => {
                    &&& final(self)@ == old(self)@
                    &&& !old(self)@.contains(id)
                },
            },
    {
        let r = self.slot_of(id);
        match r {
            Some(k) => {
                self.ids.remove(k);
                assert forall|i: int, j: int| 0 <= i < j < self@.len() implies self@[i]
                    != self@[j] by {
                    assert(self@ == old(self)@.remove(k as int));
                }
                Some(k)
            },
            None => None,
        }
    }
}

/// Removal correctness law: erasing slot `k` from a table of `n` identities
/// leaves `n - 1` slots; every identity below the erased slot keeps its
/// slot, every identity above it moves down exactly one, and the erased
/// identity owns no slot afterwards.
pub proof fn lemma_remove_shifts_slots(s: Seq<u64>, k: int)
    requires
        distinct_ids(s),
        0 <= k < s.len(),
    ensures
        s.remove(k).len() == s.len() - 1,
        forall|j: int| 0 <= j < k ==> s.remove(k)[j] == s[j],
        forall|j: int| k < j < s.len() ==> s.remove(k)[j - 1] == s[j],
        !s.remove(k).contains(s[k]),
{
    let t = s.remove(k);
    assert forall|j: int| 0 <= j < t.len() implies t[j] != s[k] by {
        if j < k {
            assert(t[j] == s[j]);
        } else {
            assert(t[j] == s[j + 1]);
        }
    }
    if t.contains(s[k]) {
        let w = choose|w: int| 0 <= w < t.len() && t[w] == s[k];
        assert(t[w] != s[k]);
    }
}

} // verus!
