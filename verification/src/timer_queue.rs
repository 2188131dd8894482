//! Deadlines for stalled connections.
//!
//! Each entry pairs a connection token with an absolute deadline and carries
//! a handle unique over the queue's whole life. Cancellation is advisory:
//! `cancel` marks the entry dead, and a dead or already-fired handle may be
//! cancelled again freely. `poll_expired` drains exactly the live entries
//! whose deadline has passed; the reactor must still validate each fired
//! handle against the connection it finds, since the slot may have been
//! freed — or freed and refilled — before the firing was processed.

use vstd::prelude::*;

verus! {

/// One scheduled deadline.
pub struct TimerEntry {
    /// The handle `schedule` returned for this entry; unique per queue.
    pub id: u64,
    /// The token of the connection to reap.
    pub token: usize,
    /// Absolute time, in milliseconds, at which the entry is due.
    pub deadline: u64,
    /// Cleared by `cancel`; a dead entry never fires.
    pub live: bool,
}

/// One firing handed back by `poll_expired`.
pub struct TimerFired {
    /// The token whose deadline passed.
    pub token: usize,
    /// The handle of the entry that fired, for validation against the slot.
    pub id: u64,
}

/// The queue of scheduled deadlines.
pub struct TimerQueue {
    entries: Vec<TimerEntry>,
    next_id: u64,
}

/// The firings that draining `s` at time `now` produces, in order.
pub open spec fn due_fires(s: Seq<TimerEntry>, now: u64) -> Seq<TimerFired>
    decreases s.len(),
{
    if s.len() == 0 {
        Seq::empty()
    } else {
        let rest = due_fires(s.drop_last(), now);
        let e = s.last();
        if e.live && e.deadline <= now {
            rest.push(TimerFired { token: e.token, id: e.id })
        } else {
            rest
        }
    }
}

/// The entries draining `s` at time `now` keeps: live ones not yet due.
pub open spec fn kept_entries(s: Seq<TimerEntry>, now: u64) -> Seq<TimerEntry>
    decreases s.len(),
{
    if s.len() == 0 {
        Seq::empty()
    } else {
        let rest = kept_entries(s.drop_last(), now);
        let e = s.last();
        if e.live && e.deadline > now {
            rest.push(e)
        } else {
            rest
        }
    }
}

/// A live entry with handle `id` stands somewhere in `s`.
pub open spec fn has_live_entry(s: Seq<TimerEntry>, id: u64) -> bool {
    exists|i: int| 0 <= i < s.len() && s[i].live && s[i].id == id
}

/// `s` with every entry of handle `id` marked dead.
pub open spec fn cancelled(s: Seq<TimerEntry>, id: u64) -> Seq<TimerEntry> {
    Seq::new(
        s.len(),
        |i: int|
            if s[i].id == id {
                TimerEntry { live: false, ..s[i] }
            } else {
                s[i]
            },
    )
}

impl TimerQueue {
    /// The scheduled entries, dead ones included, in scheduling order.
    pub closed spec fn view(&self) -> Seq<TimerEntry> {
        self.entries@
    }

    /// The handle the next `schedule` will return.
    pub closed spec fn next_id_spec(&self) -> int {
        self.next_id as int
    }

    /// Handles are issued in order and never repeat.
    pub closed spec fn wf(&self) -> bool {
        forall|i: int| 0 <= i < self.entries@.len() ==> self.entries@[i].id < self.next_id
    }

    /// Handles are still available; every schedule uses one of finitely
    /// many, so a caller must check this machine limit.
    pub open spec fn can_schedule(&self) -> bool {
        self.next_id_spec() < u64::MAX
    }

    /// An empty queue.
    pub fn new() -> (r: TimerQueue)
        ensures
            r.wf(),
            r@ == Seq::<TimerEntry>::empty(),
            r.next_id_spec() == 0,
    {
        TimerQueue { entries: Vec::new(), next_id: 0 }
    }

    /// Whether `schedule` may still be called.
    pub fn ids_left(&self) -> (r: bool)
        ensures
            r == self.can_schedule(),
    {
        self.next_id < u64::MAX
    }

    /// Arm a deadline for `token` and return its handle. The entry is live;
    /// nothing else changes.
    pub fn schedule(&mut self, token: usize, deadline: u64) -> (r: u64)
        requires
            old(self).wf(),
            old(self).can_schedule(),
        ensures
            final(self).wf(),
            r == old(self).next_id_spec(),
            final(self)@ == old(self)@.push(
                TimerEntry { id: r, token, deadline, live: true },
            ),
            final(self).next_id_spec() == old(self).next_id_spec() + 1,
            has_live_entry(final(self)@, r),
    {
        let id = self.next_id;
        self.entries.push(TimerEntry { id, token, deadline, live: true });
        self.next_id = self.next_id + 1;
        proof {
            let s = self.entries@;
            assert(s[s.len() - 1].live && s[s.len() - 1].id == id);
        }
        id
    }

    /// Disarm the entry of handle `id`, wherever it stands. Cancelling a
    /// handle that is absent, already dead, or already fired changes
    /// nothing: cancellation is an idempotent, side-effect-free advisory.
    pub fn cancel(&mut self, id: u64) -> (r: ())
        requires
            old(self).wf(),
        ensures
            final(self).wf(),
            final(self).next_id_spec() == old(self).next_id_spec(),
            final(self)@ == cancelled(old(self)@, id),
            !has_live_entry(final(self)@, id),
    {
        let ghost orig = self.entries@;
        let n = self.entries.len();
        let mut i: usize = 0;
        while i < n
            invariant
                n == self.entries@.len(),
                n == orig.len(),
                i <= n,
                self.next_id == old(self).next_id,
                forall|k: int| 0 <= k < n ==> self.entries@[k].id == orig[k].id,
                forall|j: int|
                    0 <= j < i ==> self.entries@[j] == (if orig[j].id == id {
                        (TimerEntry { live: false, ..orig[j] })
                    } else {
                        orig[j]
                    }),
                forall|j: int| i <= j < n ==> self.entries@[j] == orig[j],
            decreases n - i,
        {
            if self.entries[i].id == id {
                let token = self.entries[i].token;
                let deadline = self.entries[i].deadline;
                self.entries.set(i, TimerEntry { id, token, deadline, live: false });
            }
            i = i + 1;
        }
        proof {
            assert(self.entries@ =~= cancelled(orig, id));
            assert(forall|k: int|
                0 <= k < self.entries@.len() && self.entries@[k].id == id ==> !self.entries@[k].live);
        }
    }

    /// The handle the next `schedule` will return.
    pub fn next_handle(&self) -> (r: u64)
        ensures
            r == self.next_id_spec(),
    {
        self.next_id
    }

    /// The earliest live deadline, if any timer is armed: how long a caller
    /// may block before a deadline could pass unnoticed.
    pub fn next_deadline(&self) -> (r: Option<u64>)
        ensures
            r is None ==> forall|i: int| 0 <= i < self@.len() ==> !(#[trigger] self@[i]).live,
            r matches Some(d) ==> {
                &&& exists|i: int|
                    0 <= i < self@.len() && (#[trigger] self@[i]).live && self@[i].deadline == d
                &&& forall|i: int|
                    0 <= i < self@.len() && (#[trigger] self@[i]).live ==> self@[i].deadline >= d
            },
    {
        let mut best: Option<u64> = None;
        let n = self.entries.len();
        let mut i: usize = 0;
        while i < n
            invariant
                n == self.entries@.len(),
                i <= n,
                best is None ==> forall|j: int|
                    0 <= j < i ==> !(#[trigger] self.entries@[j]).live,
                best matches Some(d) ==> {
                    &&& exists|j: int|
                        0 <= j < i && (#[trigger] self.entries@[j]).live && self.entries@[j].deadline
                            == d
                    &&& forall|j: int|
                        0 <= j < i && (#[trigger] self.entries@[j]).live ==> self.entries@[j].deadline
                            >= d
                },
            decreases n - i,
        {
            if self.entries[i].live {
                let d = self.entries[i].deadline;
                best = match best {
                    None => Some(d),
                    Some(b) => if d < b {
                        Some(d)
                    } else {
                        Some(b)
                    },
                };
            }
            i = i + 1;
        }
        proof {
            match best {
                Some(d) => {
                    let w = choose|j: int|
                        0 <= j < self.entries@.len() && (#[trigger] self.entries@[j]).live
                            && self.entries@[j].deadline == d;
                    assert(self@[w].live && self@[w].deadline == d);
                },
                None => {},
            }
        }
        best
    }

    /// Drain every live entry whose deadline has passed, in scheduling
    /// order, and keep the rest. Two entries with one deadline fire in the
    /// order they were scheduled — unspecified to callers, but total. Dead
    /// entries are dropped without firing: a cancelled timer never fires.
    pub fn poll_expired(&mut self, now: u64) -> (r: Vec<TimerFired>)
        requires
            old(self).wf(),
        ensures
            final(self).wf(),
            final(self).next_id_spec() == old(self).next_id_spec(),
            r@ == due_fires(old(self)@, now),
            final(self)@ == kept_entries(old(self)@, now),
    {
        let ghost orig = self.entries@;
        let mut fired: Vec<TimerFired> = Vec::new();
        let mut kept: Vec<TimerEntry> = Vec::new();
        let n = self.entries.len();
        let mut i: usize = 0;
        while i < n
            invariant
                n == self.entries@.len(),
                self.entries@ == orig,
                i <= n,
                fired@ == due_fires(orig.subrange(0, i as int), now),
                kept@ == kept_entries(orig.subrange(0, i as int), now),
            decreases n - i,
        {
            let ghost pre = orig.subrange(0, i as int);
            let e = &self.entries[i];
            if e.live && e.deadline <= now {
                fired.push(TimerFired { token: e.token, id: e.id });
            } else if e.live {
                kept.push(TimerEntry { id: e.id, token: e.token, deadline: e.deadline, live: true });
            }
            proof {
                let post = orig.subrange(0, i + 1);
                assert(post.drop_last() =~= pre);
                assert(post.last() == orig[i as int]);
                if orig[i as int].live && orig[i as int].deadline > now {
                    assert((TimerEntry {
                        id: orig[i as int].id,
                        token: orig[i as int].token,
                        deadline: orig[i as int].deadline,
                        live: true,
                    }) == orig[i as int]);
                }
            }
            i = i + 1;
        }
        proof {
            assert(orig.subrange(0, n as int) =~= orig);
        }
        self.entries = kept;
        proof {
            lemma_kept_ids_bounded(orig, now, self.next_id);
        }
        fired
    }
}

/// Draining keeps only entries whose handles were already issued.
proof fn lemma_kept_ids_bounded(s: Seq<TimerEntry>, now: u64, bound: u64)
    requires
        forall|i: int| 0 <= i < s.len() ==> s[i].id < bound,
    ensures
        forall|i: int| 0 <= i < kept_entries(s, now).len() ==> kept_entries(s, now)[i].id < bound,
    decreases s.len(),
{
    if s.len() > 0 {
        assert(forall|i: int| 0 <= i < s.len() - 1 ==> s.drop_last()[i] == s[i]);
        lemma_kept_ids_bounded(s.drop_last(), now, bound);
        let k = kept_entries(s, now);
        let kr = kept_entries(s.drop_last(), now);
        let e = s.last();
        if e.live && e.deadline > now {
            assert(k == kr.push(e));
            assert(e.id < bound);
            assert(forall|i: int| 0 <= i < k.len() - 1 ==> k[i] == kr[i]);
        }
    }
}

/// Every entry draining keeps already stood in the queue.
pub proof fn lemma_kept_entries_subset(s: Seq<TimerEntry>, now: u64)
    ensures
        forall|j: int|
            0 <= j < kept_entries(s, now).len() ==> exists|i: int|
                0 <= i < s.len() && #[trigger] kept_entries(s, now)[j] == s[i],
    decreases s.len(),
{
    if s.len() > 0 {
        lemma_kept_entries_subset(s.drop_last(), now);
        let k = kept_entries(s, now);
        let kr = kept_entries(s.drop_last(), now);
        let e = s.last();
        assert(forall|i: int| 0 <= i < s.len() - 1 ==> s.drop_last()[i] == s[i]);
        assert forall|j: int| 0 <= j < k.len() implies exists|i: int|
            0 <= i < s.len() && #[trigger] k[j] == s[i] by {
            if e.live && e.deadline > now {
                assert(k == kr.push(e));
                if j < k.len() - 1 {
                    assert(k[j] == kr[j]);
                    let i = choose|i: int| 0 <= i < s.drop_last().len() && kr[j] == s.drop_last()[i];
                    assert(k[j] == s[i]);
                } else {
                    assert(k[j] == s[s.len() - 1]);
                }
            } else {
                assert(k == kr);
                let i = choose|i: int| 0 <= i < s.drop_last().len() && kr[j] == s.drop_last()[i];
                assert(k[j] == s[i]);
            }
        }
    }
}

/// A handle fires at `now` if and only if its live entry is due: the drain
/// neither invents a firing nor holds one back past its deadline.
pub proof fn lemma_fires_iff_due(s: Seq<TimerEntry>, now: u64, id: u64)
    ensures
        (exists|k: int| 0 <= k < due_fires(s, now).len() && due_fires(s, now)[k].id == id)
            <==> (exists|i: int|
            0 <= i < s.len() && s[i].live && s[i].id == id && s[i].deadline <= now),
    decreases s.len(),
{
    if s.len() > 0 {
        lemma_fires_iff_due(s.drop_last(), now, id);
        let d = due_fires(s, now);
        let dr = due_fires(s.drop_last(), now);
        let e = s.last();
        if e.live && e.deadline <= now {
            assert(d == dr.push(TimerFired { token: e.token, id: e.id }));
            if exists|k: int| 0 <= k < dr.len() && dr[k].id == id {
                let k = choose|k: int| 0 <= k < dr.len() && dr[k].id == id;
                assert(d[k].id == id);
            }
            if e.id == id {
                assert(d[d.len() - 1].id == id);
            }
        }
        assert(forall|i: int|
            0 <= i < s.len() - 1 ==> s[i] == s.drop_last()[i]);
        if exists|i: int| 0 <= i < s.len() && s[i].live && s[i].id == id && s[i].deadline <= now {
            let i = choose|i: int|
                0 <= i < s.len() && s[i].live && s[i].id == id && s[i].deadline <= now;
            if i < s.len() - 1 {
                assert(s.drop_last()[i].live && s.drop_last()[i].id == id && s.drop_last()[i].deadline
                    <= now);
            }
        }
        if exists|k: int| 0 <= k < d.len() && d[k].id == id {
            let k = choose|k: int| 0 <= k < d.len() && d[k].id == id;
            if !(e.live && e.deadline <= now) {
                assert(dr[k].id == id);
            } else if k < d.len() - 1 {
                assert(dr[k].id == id);
            }
        }
    }
}

/// A cancelled handle never fires: once no live entry carries `id`, no
/// drain at any time produces a firing for `id`.
pub proof fn lemma_cancelled_never_fires(s: Seq<TimerEntry>, now: u64, id: u64)
    requires
        !has_live_entry(s, id),
    ensures
        forall|k: int| 0 <= k < due_fires(s, now).len() ==> due_fires(s, now)[k].id != id,
{
    lemma_fires_iff_due(s, now, id);
    assert(forall|k: int|
        0 <= k < due_fires(s, now).len() && due_fires(s, now)[k].id == id ==> has_live_entry(
            s,
            id,
        ));
}

} // verus!
