//! Fixed-capacity, index-addressable storage of per-connection state.
//!
//! Tokens are small integers starting at a base; everything below the base is
//! reserved for the listening socket and is never issued. A freed slot's
//! token is reused by later insertions. `remove` of an absent token is a
//! no-op, never a fault: duplicate removal requests occur naturally when a
//! hang-up and a read error are observed for the same connection in one poll
//! batch, and a readiness event may arrive for a token whose slot was already
//! freed (a stale token) — the lookup then simply misses.

use vstd::prelude::*;

verus! {

/// A fixed-capacity slot table addressed by token.
///
/// The abstract value (the view) is a map from token to stored value; its
/// domain is exactly the set of live tokens.
pub struct TokenTable<T> {
    base: usize,
    slots: Vec<Option<T>>,
    count: usize,
}

/// The number of occupied slots of `s`.
pub open spec fn occupied_count<T>(s: Seq<Option<T>>) -> nat
    decreases s.len(),
{
    if s.len() == 0 {
        0
    } else {
        occupied_count(s.drop_last()) + (if s.last() is Some {
            1nat
        } else {
            0nat
        })
    }
}

proof fn lemma_occupied_count_bound<T>(s: Seq<Option<T>>)
    ensures
        occupied_count(s) <= s.len(),
    decreases s.len(),
{
    if s.len() > 0 {
        lemma_occupied_count_bound(s.drop_last());
    }
}

/// Updating one slot changes the occupied count by whether it was and
/// becomes occupied.
proof fn lemma_occupied_count_update<T>(s: Seq<Option<T>>, i: int, v: Option<T>)
    requires
        0 <= i < s.len(),
    ensures
        occupied_count(s.update(i, v)) == occupied_count(s) + (if v is Some {
            1int
        } else {
            0int
        }) - (if s[i] is Some {
            1int
        } else {
            0int
        }),
    decreases s.len(),
{
    let t = s.update(i, v);
    if i == s.len() - 1 {
        assert(t.drop_last() =~= s.drop_last());
    } else {
        assert(t.drop_last() =~= s.drop_last().update(i, v));
        lemma_occupied_count_update(s.drop_last(), i, v);
    }
}

/// A fully occupied table has no free slot.
proof fn lemma_occupied_count_full<T>(s: Seq<Option<T>>, i: int)
    requires
        occupied_count(s) == s.len(),
        0 <= i < s.len(),
    ensures
        s[i] is Some,
    decreases s.len(),
{
    lemma_occupied_count_bound(s.drop_last());
    if i < s.len() - 1 {
        lemma_occupied_count_full(s.drop_last(), i);
    }
}

impl<T> TokenTable<T> {
    /// The fixed capacity chosen at construction.
    pub closed spec fn cap(&self) -> nat {
        self.slots@.len()
    }

    /// The first token this table will ever issue.
    pub closed spec fn base_spec(&self) -> int {
        self.base as int
    }

    /// The number of live slots.
    pub closed spec fn len(&self) -> nat {
        self.count as nat
    }

    /// Internal consistency: the live-slot count matches the slots, and
    /// base + capacity stays within token range.
    pub closed spec fn wf(&self) -> bool {
        &&& self.count == occupied_count(self.slots@)
        &&& self.count <= self.slots@.len()
        &&& self.base + self.slots@.len() <= usize::MAX
    }

    /// The abstract contents: token -> stored value, for live tokens only.
    pub closed spec fn view(&self) -> Map<int, T> {
        Map::new(
            |t: int|
                self.base <= t < self.base + self.slots@.len() && self.slots@[t - self.base]
                    is Some,
            |t: int| self.slots@[t - self.base]->Some_0,
        )
    }

    /// A token the table could ever issue.
    pub open spec fn in_range(&self, tok: int) -> bool {
        self.base_spec() <= tok < self.base_spec() + self.cap()
    }

    /// A well-formed table never holds more than its capacity.
    pub proof fn lemma_len_le_cap(&self)
        requires
            self.wf(),
        ensures
            self.len() <= self.cap(),
    {
    }

    /// Make a table of `cap` free slots whose tokens start at `base`.
    pub fn new(base: usize, cap: usize) -> (r: TokenTable<T>)
        requires
            base + cap <= usize::MAX,
        ensures
            r.wf(),
            r.cap() == cap,
            r.base_spec() == base,
            r.len() == 0,
            r@ == Map::<int, T>::empty(),
    {
        let mut slots: Vec<Option<T>> = Vec::new();
        let mut i: usize = 0;
        while i < cap
            invariant
                i <= cap,
                slots@.len() == i,
                forall|j: int| 0 <= j < i ==> slots@[j] is None,
                occupied_count(slots@) == 0,
            decreases cap - i,
        {
            let ghost old_slots = slots@;
            slots.push(None);
            proof {
                assert(slots@.drop_last() =~= old_slots);
            }
            i = i + 1;
        }
        let r = TokenTable { base, slots, count: 0 };
        proof {
            assert(r@ =~= Map::<int, T>::empty());
        }
        r
    }

    /// Store `v` in a free slot and return its token; on a full table return
    /// the value back, with no side effect. A returned token was free before
    /// the call, so no live connection is ever displaced.
    pub fn insert(&mut self, v: T) -> (r: Result<usize, T>)
        requires
            old(self).wf(),
        ensures
            final(self).wf(),
            final(self).cap() == old(self).cap(),
            final(self).base_spec() == old(self).base_spec(),
            old(self).len() == old(self).cap() ==> (r matches Err(w) && w == v && *final(self)
                == *old(self)),
            old(self).len() < old(self).cap() ==> (r matches Ok(tok)
                && old(self).in_range(tok as int) && !old(self)@.dom().contains(tok as int)
                && final(self)@ == old(self)@.insert(tok as int, v) && final(self).len() == old(
                self,
            ).len() + 1),
    {
        if self.count == self.slots.len() {
            proof {
                lemma_occupied_count_bound(self.slots@);
            }
            return Err(v);
        }
        proof {
            lemma_occupied_count_bound(self.slots@);
        }
        let mut i: usize = 0;
        while i < self.slots.len()
            invariant
                *self == *old(self),
                self.wf(),
                i <= self.slots@.len(),
                self.count < self.slots@.len(),
                forall|j: int| 0 <= j < i ==> self.slots@[j] is Some,
            decreases self.slots@.len() - i,
        {
            if self.slots[i].is_none() {
                let ghost old_slots = self.slots@;
                let ghost old_view = self.view();
                self.slots.set(i, Some(v));
                self.count = self.count + 1;
                let tok = self.base + i;
                proof {
                    lemma_occupied_count_update(old_slots, i as int, self.slots@[i as int]);
                    assert(self@ =~= old_view.insert(tok as int, v));
                }
                return Ok(tok);
            }
            i = i + 1;
        }
        proof {
            // every slot occupied contradicts count < len
            assert(forall|j: int|
                0 <= j < self.slots@.len() ==> self.slots@[j] is Some) by {
                assert(forall|j: int| 0 <= j < i ==> self.slots@[j] is Some);
            }
            lemma_occupied_all_some(self.slots@);
        }
        Err(v)
    }

    /// Borrow the slot of `tok`, or nothing when the token is absent — a
    /// stale token's event must simply miss.
    pub fn get(&self, tok: usize) -> (r: Option<&T>)
        requires
            self.wf(),
        ensures
            self@.dom().contains(tok as int) ==> (r matches Some(v) && *v == self@[tok as int]),
            !self@.dom().contains(tok as int) ==> r is None,
    {
        if tok < self.base {
            return None;
        }
        let i = tok - self.base;
        if i >= self.slots.len() {
            return None;
        }
        self.slots[i].as_ref()
    }

    /// Free the slot of `tok` and return what it held. Removing an absent
    /// token is a no-op returning nothing, so duplicate removals are
    /// harmless: there is no double free.
    pub fn remove(&mut self, tok: usize) -> (r: Option<T>)
        requires
            old(self).wf(),
        ensures
            final(self).wf(),
            final(self).cap() == old(self).cap(),
            final(self).base_spec() == old(self).base_spec(),
            old(self)@.dom().contains(tok as int) ==> (r matches Some(v) && v == old(self)@[tok
                as int] && final(self)@ == old(self)@.remove(tok as int) && final(self).len() + 1
                == old(self).len() && old(self).in_range(tok as int)),
            !old(self)@.dom().contains(tok as int) ==> r is None && *final(self) == *old(self),
    {
        if tok < self.base {
            return None;
        }
        let i = tok - self.base;
        if i >= self.slots.len() {
            return None;
        }
        if self.slots[i].is_none() {
            proof {
                assert(self.slots@.update(i as int, self.slots@[i as int]) =~= self.slots@);
            }
            return None;
        }
        let ghost old_slots = self.slots@;
        let ghost old_view = self.view();
        let mut taken: Option<T> = None;
        // swap the slot's contents out
        core::mem::swap(&mut self.slots[i], &mut taken);
        proof {
            lemma_occupied_count_update(old_slots, i as int, None);
            lemma_occupied_count_bound(old_slots);
        }
        self.count = self.count - 1;
        proof {
            assert(self@ =~= old_view.remove(tok as int));
        }
        taken
    }

    /// Refill the (currently free, in-range) slot of `tok` with `v`. The
    /// reactor takes a connection out to run one step of its state machine
    /// and puts it back under the same token when it stays open.
    pub fn put(&mut self, tok: usize, v: T) -> (r: ())
        requires
            old(self).wf(),
            old(self).in_range(tok as int),
            !old(self)@.dom().contains(tok as int),
        ensures
            final(self).wf(),
            final(self).cap() == old(self).cap(),
            final(self).base_spec() == old(self).base_spec(),
            final(self)@ == old(self)@.insert(tok as int, v),
            final(self).len() == old(self).len() + 1,
    {
        let i = tok - self.base;
        let ghost old_slots = self.slots@;
        let ghost old_view = self.view();
        proof {
            lemma_occupied_count_bound(old_slots);
            if occupied_count(old_slots) == old_slots.len() {
                lemma_occupied_count_full(old_slots, i as int);
            }
        }
        self.slots.set(i, Some(v));
        proof {
            lemma_occupied_count_update(old_slots, i as int, self.slots@[i as int]);
        }
        self.count = self.count + 1;
        proof {
            assert(self@ =~= old_view.insert(tok as int, v));
        }
    }

    /// How many more connections the table can admit.
    pub fn remaining(&self) -> (r: usize)
        requires
            self.wf(),
        ensures
            r == self.cap() - self.len(),
    {
        proof {
            lemma_occupied_count_bound(self.slots@);
        }
        self.slots.len() - self.count
    }

    /// The number of live connections.
    pub fn count(&self) -> (r: usize)
        requires
            self.wf(),
        ensures
            r == self.len(),
    {
        self.count
    }
}

/// A sequence of all-occupied slots has occupied count equal to its length.
proof fn lemma_occupied_all_some<T>(s: Seq<Option<T>>)
    requires
        forall|j: int| 0 <= j < s.len() ==> s[j] is Some,
    ensures
        occupied_count(s) == s.len(),
    decreases s.len(),
{
    if s.len() > 0 {
        lemma_occupied_all_some(s.drop_last());
    }
}

/// Freeing a token is idempotent: once a token is out of the table, freeing
/// it again changes nothing, and the token is no longer in the table's
/// domain. Together with `insert` issuing only tokens outside the domain,
/// the table never holds a slot for a token the reactor believes free, and
/// never double-frees one.
pub proof fn lemma_remove_idempotent<T>(m: Map<int, T>, tok: int)
    ensures
        !m.remove(tok).dom().contains(tok),
        m.remove(tok).remove(tok) == m.remove(tok),
{
    assert(m.remove(tok).remove(tok) =~= m.remove(tok));
}

} // verus!
