//! The reactor's state: the token table of connections, the timer queue,
//! and the dispatch rules of the event loop.
//!
//! The loop around this state lives with the caller: it blocks on the OS
//! readiness notifier, performs each single non-blocking I/O attempt, and
//! hands every outcome in as a plain value. This module decides everything
//! else — which handler a readiness event goes to, admission of new
//! connections against the fixed capacity, slot removal, timer arming,
//! sliding refresh and cancellation, and the validation of fired timers
//! against the slots they point at.

use crate::conn::action_of;
use crate::conn::cv_wf;
use crate::conn::read_interest;
use crate::conn::read_outcome_fault;
use crate::conn::read_outcome_step;
use crate::conn::write_outcome_bounded;
use crate::conn::write_outcome_step;
use crate::conn::ConnState;
use crate::conn::ConnView;
use crate::conn::Fault;
use crate::conn::Interest;
use crate::conn::MioConn;
use crate::conn::ReadOutcome;
use crate::conn::TimerAction;
use crate::conn::WriteOutcome;
use crate::protocol::response_spec;
use crate::protocol::RESPONSE_LEN;
use crate::timer_queue::cancelled;
use crate::timer_queue::due_fires;
use crate::timer_queue::kept_entries;
use crate::timer_queue::lemma_kept_entries_subset;
use crate::timer_queue::TimerEntry;
use crate::timer_queue::TimerFired;
use crate::timer_queue::TimerQueue;
use crate::token_table::TokenTable;
use crate::ServerConfig;
use crate::CONN_BASE;
use crate::SERVER_TOKEN;
use vstd::prelude::*;

verus! {

/// What the caller must do with a connection's socket after a dispatch.
#[derive(Clone, Copy, Debug, PartialEq, Eq, Structural)]
pub enum ConnDisposition {
    /// The token had no slot — a stale event — or a fired timer failed
    /// validation; nothing happened and nothing is to do.
    Ignored,
    /// The connection stays open: re-register its socket with this interest
    /// set, edge-triggered and one-shot, before the loop proceeds.
    Reregister(Interest),
    /// The connection's slot was freed: deregister and drop its socket.
    Remove,
}

/// One entry of a dispatch plan for a readiness event.
#[derive(Clone, Copy, Debug, PartialEq, Eq, Structural)]
pub enum DispatchStep {
    /// The listening socket is readable: accept until accepting would
    /// block, since an edge-triggered listener must be fully drained.
    AcceptAll,
    /// Attempt one non-blocking read and report its outcome.
    Readable,
    /// Attempt one non-blocking write of the pending tail and report its
    /// outcome.
    Writable,
    /// The peer hung up or the socket erred: close the connection without
    /// any further I/O attempt.
    CloseConn,
}

/// Admission failed: every slot of the fixed-capacity table is in use, and
/// the new connection must be dropped rather than grow the table.
#[derive(Clone, Copy, Debug, PartialEq, Eq, Structural)]
pub enum AcceptError {
    TableFull,
}

/// The dispatch plan of a readiness event for a connection token: hang-up
/// and error pre-empt any read or write outcome of the same batch; short of
/// those, readable is handled before writable.
pub open spec fn conn_plan(events: Interest) -> Seq<DispatchStep> {
    if events.hup || events.error {
        seq![DispatchStep::CloseConn]
    } else if events.readable && events.writable {
        seq![DispatchStep::Readable, DispatchStep::Writable]
    } else if events.readable {
        seq![DispatchStep::Readable]
    } else if events.writable {
        seq![DispatchStep::Writable]
    } else {
        Seq::empty()
    }
}

/// The state a connection is admitted in: reading, empty buffers, read
/// interest, with timer `id` armed.
pub open spec fn fresh_conn_view(config: ServerConfig, id: u64) -> ConnView {
    ConnView {
        state: ConnState::Reading,
        rbuf: Seq::empty(),
        wpos: 0,
        interest: read_interest(),
        timer: Some(id),
        timeout_ms: config.timeout_ms,
    }
}

/// The reactor's state: connections by token, their deadlines, and the one
/// uniform configuration.
pub struct MioServer {
    conns: TokenTable<MioConn>,
    timers: TimerQueue,
    config: ServerConfig,
}

impl MioServer {
    /// The live connections' abstract states, by token.
    pub closed spec fn conn_views(&self) -> Map<int, ConnView> {
        Map::new(|t: int| self.conns@.dom().contains(t), |t: int| self.conns@[t]@)
    }

    /// The scheduled timer entries, dead ones included, in order.
    pub closed spec fn timer_log(&self) -> Seq<TimerEntry> {
        self.timers@
    }

    /// The handle the next armed timer will get.
    pub closed spec fn next_timer_id(&self) -> int {
        self.timers.next_id_spec()
    }

    /// The fixed number of connection slots.
    pub closed spec fn cap(&self) -> nat {
        self.conns.cap()
    }

    /// The number of live connections.
    pub closed spec fn len(&self) -> nat {
        self.conns.len()
    }

    /// The uniform configuration.
    pub closed spec fn config_spec(&self) -> ServerConfig {
        self.config
    }

    /// Timer handles are still available: a machine limit the caller must
    /// check before work that may arm a timer.
    pub open spec fn can_schedule(&self) -> bool {
        self.next_timer_id() < u64::MAX
    }

    /// Internal consistency. Every live connection is well formed, still
    /// open (a closed one is removed in the same dispatch that closed it),
    /// carries the uniform configuration and an armed timer whose handle
    /// was issued by the queue; and every timer entry points at a token the
    /// table could have issued.
    pub closed spec fn wf(&self) -> bool {
        &&& self.conns.wf()
        &&& self.timers.wf()
        &&& self.conns.base_spec() == CONN_BASE
        &&& forall|t: int|
            self.conns@.dom().contains(t) ==> {
                let c = (#[trigger] self.conns@[t])@;
                &&& cv_wf(c)
                &&& c.state != ConnState::Closed
                &&& c.timer is Some
                &&& c.timer->Some_0 < self.timers.next_id_spec()
                &&& c.timeout_ms == self.config.timeout_ms
            }
        &&& forall|i: int|
            0 <= i < self.timers@.len() ==> CONN_BASE <= (#[trigger] self.timers@[i]).token
                < CONN_BASE + self.conns.cap()
    }

    /// A reactor with `capacity` free slots and no deadlines.
    pub fn new(capacity: usize, config: ServerConfig) -> (r: MioServer)
        requires
            CONN_BASE + capacity <= usize::MAX,
        ensures
            r.wf(),
            r.cap() == capacity,
            r.len() == 0,
            r.conn_views() == Map::<int, ConnView>::empty(),
            r.timer_log() == Seq::<TimerEntry>::empty(),
            r.next_timer_id() == 0,
            r.config_spec() == config,
    {
        let r = MioServer {
            conns: TokenTable::new(CONN_BASE, capacity),
            timers: TimerQueue::new(),
            config,
        };
        proof {
            assert(r.conn_views() =~= Map::<int, ConnView>::empty());
        }
        r
    }

    /// Whether a timer handle is still available.
    pub fn ids_left(&self) -> (r: bool)
        ensures
            r == self.can_schedule(),
    {
        self.timers.ids_left()
    }

    /// The number of live connections.
    pub fn count(&self) -> (r: usize)
        requires
            self.wf(),
        ensures
            r == self.len(),
    {
        self.conns.count()
    }

    /// How many more connections the table can admit.
    pub fn remaining(&self) -> (r: usize)
        requires
            self.wf(),
        ensures
            r == self.cap() - self.len(),
    {
        self.conns.remaining()
    }

    /// Plan the dispatch of one readiness event. For the listening socket,
    /// readable means connections are pending, and anything else reported
    /// of it is an unrecoverable process-level fault. For any other token
    /// the plan is `conn_plan`: hang-up and error first.
    pub fn ready(token: usize, events: Interest) -> (r: Result<Vec<DispatchStep>, Fault>)
        ensures
            token == SERVER_TOKEN && (events.writable || events.hup || events.error) ==> (r
                matches Err(f) && f == Fault::ListenerEvent),
            token == SERVER_TOKEN && !(events.writable || events.hup || events.error) ==> (r
                matches Ok(steps) && steps@ == if events.readable {
                seq![DispatchStep::AcceptAll]
            } else {
                Seq::<DispatchStep>::empty()
            }),
            token != SERVER_TOKEN ==> (r matches Ok(steps) && steps@ == conn_plan(events)),
    {
        let mut steps: Vec<DispatchStep> = Vec::new();
        if token == SERVER_TOKEN {
            if events.writable || events.hup || events.error {
                return Err(Fault::ListenerEvent);
            }
            if events.readable {
                steps.push(DispatchStep::AcceptAll);
                proof {
                    assert(steps@ =~= seq![DispatchStep::AcceptAll]);
                }
            }
            return Ok(steps);
        }
        if events.hup || events.error {
            steps.push(DispatchStep::CloseConn);
            proof {
                assert(steps@ =~= seq![DispatchStep::CloseConn]);
            }
            return Ok(steps);
        }
        if events.readable {
            steps.push(DispatchStep::Readable);
        }
        if events.writable {
            steps.push(DispatchStep::Writable);
        }
        proof {
            assert(steps@ =~= conn_plan(events));
        }
        Ok(steps)
    }

    /// Admit one accepted connection. On success the new slot is filled
    /// with a fresh reading connection, its deadline is armed, and the
    /// caller registers the socket under the returned token with the
    /// returned interest, edge-triggered and one-shot. On a full table the
    /// reactor is left exactly as it was — the caller drops the socket, and
    /// every existing connection is served on — which is the admission
    /// ceiling: the capacity-plus-first concurrent connection is rejected.
    pub fn accept(&mut self, now: u64) -> (r: Result<(usize, Interest), AcceptError>)
        requires
            old(self).wf(),
            old(self).can_schedule(),
            now + old(self).config_spec().timeout_ms <= u64::MAX,
        ensures
            final(self).wf(),
            final(self).cap() == old(self).cap(),
            final(self).config_spec() == old(self).config_spec(),
            old(self).len() == old(self).cap() ==> (r matches Err(e) && e
                == AcceptError::TableFull && final(self).conn_views() == old(self).conn_views()
                && final(self).timer_log() == old(self).timer_log() && final(self).next_timer_id()
                == old(self).next_timer_id() && final(self).len() == old(self).len()),
            old(self).len() < old(self).cap() ==> (r matches Ok(p) && {
                let (tok, i) = p;
                let id = old(self).next_timer_id() as u64;
                &&& CONN_BASE <= tok < CONN_BASE + old(self).cap()
                &&& !old(self).conn_views().dom().contains(tok as int)
                &&& i == read_interest()
                &&& final(self).conn_views() == old(self).conn_views().insert(
                    tok as int,
                    fresh_conn_view(old(self).config_spec(), id),
                )
                &&& final(self).timer_log() == old(self).timer_log().push(
                    TimerEntry {
                        id,
                        token: tok,
                        deadline: (now + old(self).config_spec().timeout_ms) as u64,
                        live: true,
                    },
                )
                &&& final(self).next_timer_id() == old(self).next_timer_id() + 1
                &&& final(self).len() == old(self).len() + 1
            }),
    {
        proof {
            self.conns.lemma_len_le_cap();
        }
        let mut conn = MioConn::new(self.config);
        let id = self.timers.next_handle();
        conn.set_timeout(id);
        match self.conns.insert(conn) {
            Err(_dropped) => {
                // no slot: the connection is dropped on the floor
                proof {
                    assert(self.conn_views() =~= old(self).conn_views());
                }
                Err(AcceptError::TableFull)
            },
            Ok(tok) => {
                let deadline = now + self.config.timeout_ms;
                let issued = self.timers.schedule(tok, deadline);
                proof {
                    assert(issued == id);
                    assert(self.conn_views() =~= old(self).conn_views().insert(
                        tok as int,
                        fresh_conn_view(old(self).config_spec(), id),
                    ));
                }
                Ok(
                    (
                        tok,
                        Interest { readable: true, writable: false, hup: true, error: true },
                    ),
                )
            },
        }
    }

    /// Handle a readable event for a connection token: the caller attempted
    /// one non-blocking read and reports its outcome. A stale token is
    /// ignored. Otherwise the connection steps by `read_outcome_step`; if
    /// it closed, its slot is freed and its timer cancelled, and if it made
    /// forward progress its deadline slides to `now` plus the configured
    /// timeout. The one `Err` is the fatal notifier-contract fault.
    pub fn conn_readable(&mut self, tok: usize, outcome: ReadOutcome, now: u64) -> (r: Result<
        ConnDisposition,
        Fault,
    >)
        requires
            old(self).wf(),
            old(self).can_schedule(),
            now + old(self).config_spec().timeout_ms <= u64::MAX,
        ensures
            final(self).wf(),
            final(self).cap() == old(self).cap(),
            final(self).config_spec() == old(self).config_spec(),
            !old(self).conn_views().dom().contains(tok as int) ==> (r matches Ok(d) && d
                == ConnDisposition::Ignored && final(self).conn_views() == old(self).conn_views()
                && final(self).timer_log() == old(self).timer_log() && final(self).next_timer_id()
                == old(self).next_timer_id()),
            old(self).conn_views().dom().contains(tok as int) ==> ({
                let c = old(self).conn_views()[tok as int];
                let c2 = read_outcome_step(c, outcome);
                let h = c.timer->Some_0;
                let id = old(self).next_timer_id() as u64;
                &&& read_outcome_fault(c, outcome) ==> (r matches Err(f) && f
                    == Fault::NotifierContract && final(self).conn_views() == old(self).conn_views() && final(self).timer_log() == old(self).timer_log() && final(self).next_timer_id() == old(self).next_timer_id())
                &&& !read_outcome_fault(c, outcome) ==> match action_of(c, c2) {
                    TimerAction::Keep => r matches Ok(d) && d == ConnDisposition::Reregister(
                        c.interest,
                    ) && final(self).conn_views() == old(self).conn_views() && final(self).timer_log() == old(self).timer_log() && final(self).next_timer_id() == old(self).next_timer_id(),
                    TimerAction::Cancel => r matches Ok(d) && d == ConnDisposition::Remove && final(self).conn_views() == old(self).conn_views().remove(tok as int) && final(self).timer_log() == cancelled(old(self).timer_log(), h) && final(self).next_timer_id() == old(self).next_timer_id(),
                    TimerAction::Refresh => r matches Ok(d) && d == ConnDisposition::Reregister(
                        c2.interest,
                    ) && final(self).conn_views() == old(self).conn_views().insert(
                        tok as int,
                        (ConnView { timer: Some(id), ..c2 }),
                    ) && final(self).timer_log() == cancelled(old(self).timer_log(), h).push(
                        TimerEntry {
                            id,
                            token: tok,
                            deadline: (now + old(self).config_spec().timeout_ms) as u64,
                            live: true,
                        },
                    ) && final(self).next_timer_id() == old(self).next_timer_id() + 1,
                }
            }),
    {
        let taken = self.conns.remove(tok);
        match taken {
            None => {
                proof {
                    assert(self.conn_views() =~= old(self).conn_views());
                }
                Ok(ConnDisposition::Ignored)
            },
            Some(mut conn) => {
                let res = conn.readable(outcome);
                match res {
                    Err(f) => {
                        self.conns.put(tok, conn);
                        proof {
                            assert(self.conn_views() =~= old(self).conn_views());
                        }
                        Err(f)
                    },
                    Ok(TimerAction::Keep) => {
                        let i = conn.interest;
                        self.conns.put(tok, conn);
                        proof {
                            assert(self.conn_views() =~= old(self).conn_views());
                        }
                        Ok(ConnDisposition::Reregister(i))
                    },
                    Ok(TimerAction::Cancel) => {
                        let h = match conn.timeout {
                            Some(h) => h,
                            None => 0,
                        };
                        self.timers.cancel(h);
                        proof {
                            assert(self.conn_views() =~= old(self).conn_views().remove(
                                tok as int,
                            ));
                        }
                        Ok(ConnDisposition::Remove)
                    },
                    Ok(TimerAction::Refresh) => {
                        let h = match conn.timeout {
                            Some(h) => h,
                            None => 0,
                        };
                        self.timers.cancel(h);
                        let deadline = now + self.config.timeout_ms;
                        let id = self.timers.schedule(tok, deadline);
                        conn.set_timeout(id);
                        let i = conn.interest;
                        self.conns.put(tok, conn);
                        proof {
                            let c = old(self).conn_views()[tok as int];
                            let c2 = read_outcome_step(c, outcome);
                            assert(self.conn_views() =~= old(self).conn_views().insert(
                                tok as int,
                                (ConnView { timer: Some(id), ..c2 }),
                            ));
                        }
                        Ok(ConnDisposition::Reregister(i))
                    },
                }
            },
        }
    }

    /// Handle a writable event for a connection token: the caller attempted
    /// one non-blocking write of the pending tail and reports how it went.
    /// A stale token is ignored. Otherwise the connection steps by
    /// `write_outcome_step`, with slot, timer and re-registration handled
    /// as for a readable event; a write that completes the response closes
    /// and frees the connection.
    pub fn conn_writable(&mut self, tok: usize, outcome: WriteOutcome, now: u64) -> (r:
        ConnDisposition)
        requires
            old(self).wf(),
            old(self).can_schedule(),
            now + old(self).config_spec().timeout_ms <= u64::MAX,
            old(self).conn_views().dom().contains(tok as int) ==> write_outcome_bounded(
                old(self).conn_views()[tok as int],
                outcome,
            ),
        ensures
            final(self).wf(),
            final(self).cap() == old(self).cap(),
            final(self).config_spec() == old(self).config_spec(),
            !old(self).conn_views().dom().contains(tok as int) ==> (r == ConnDisposition::Ignored
                && final(self).conn_views() == old(self).conn_views() && final(self).timer_log()
                == old(self).timer_log() && final(self).next_timer_id() == old(self).next_timer_id()),
            old(self).conn_views().dom().contains(tok as int) ==> ({
                let c = old(self).conn_views()[tok as int];
                let c2 = write_outcome_step(c, outcome);
                let h = c.timer->Some_0;
                let id = old(self).next_timer_id() as u64;
                match action_of(c, c2) {
                    TimerAction::Keep => r == ConnDisposition::Reregister(c.interest) && final(self).conn_views() == old(self).conn_views() && final(self).timer_log() == old(self).timer_log() && final(self).next_timer_id() == old(self).next_timer_id(),
                    TimerAction::Cancel => r == ConnDisposition::Remove && final(self).conn_views()
                        == old(self).conn_views().remove(tok as int) && final(self).timer_log()
                        == cancelled(old(self).timer_log(), h) && final(self).next_timer_id()
                        == old(self).next_timer_id(),
                    TimerAction::Refresh => r == ConnDisposition::Reregister(c2.interest) && final(self).conn_views() == old(self).conn_views().insert(
                        tok as int,
                        (ConnView { timer: Some(id), ..c2 }),
                    ) && final(self).timer_log() == cancelled(old(self).timer_log(), h).push(
                        TimerEntry {
                            id,
                            token: tok,
                            deadline: (now + old(self).config_spec().timeout_ms) as u64,
                            live: true,
                        },
                    ) && final(self).next_timer_id() == old(self).next_timer_id() + 1,
                }
            }),
    {
        let taken = self.conns.remove(tok);
        match taken {
            None => {
                proof {
                    assert(self.conn_views() =~= old(self).conn_views());
                }
                ConnDisposition::Ignored
            },
            Some(mut conn) => {
                let action = conn.writable(outcome);
                match action {
                    TimerAction::Keep => {
                        let i = conn.interest;
                        self.conns.put(tok, conn);
                        proof {
                            assert(self.conn_views() =~= old(self).conn_views());
                        }
                        ConnDisposition::Reregister(i)
                    },
                    TimerAction::Cancel => {
                        let h = match conn.timeout {
                            Some(h) => h,
                            None => 0,
                        };
                        self.timers.cancel(h);
                        proof {
                            assert(self.conn_views() =~= old(self).conn_views().remove(
                                tok as int,
                            ));
                        }
                        ConnDisposition::Remove
                    },
                    TimerAction::Refresh => {
                        let h = match conn.timeout {
                            Some(h) => h,
                            None => 0,
                        };
                        self.timers.cancel(h);
                        let deadline = now + self.config.timeout_ms;
                        let id = self.timers.schedule(tok, deadline);
                        conn.set_timeout(id);
                        let i = conn.interest;
                        self.conns.put(tok, conn);
                        proof {
                            let c = old(self).conn_views()[tok as int];
                            let c2 = write_outcome_step(c, outcome);
                            assert(self.conn_views() =~= old(self).conn_views().insert(
                                tok as int,
                                (ConnView { timer: Some(id), ..c2 }),
                            ));
                        }
                        ConnDisposition::Reregister(i)
                    },
                }
            },
        }
    }

    /// The still-unwritten tail of a connection's response, to hand to the
    /// next write attempt; nothing for a stale token or a connection that
    /// is not writing.
    pub fn pending_response(&self, tok: usize) -> (r: Option<Vec<u8>>)
        requires
            self.wf(),
        ensures
            (self.conn_views().dom().contains(tok as int) && self.conn_views()[tok as int].state
                == ConnState::Writing) ==> (r matches Some(v) && v@ == response_spec().subrange(
                self.conn_views()[tok as int].wpos,
                RESPONSE_LEN as int,
            )),
            !(self.conn_views().dom().contains(tok as int) && self.conn_views()[tok as int].state
                == ConnState::Writing) ==> r is None,
    {
        match self.conns.get(tok) {
            None => None,
            Some(conn) => {
                if conn.state == ConnState::Writing {
                    Some(conn.pending_bytes())
                } else {
                    None
                }
            },
        }
    }

    /// Handle a hang-up or error event for a connection token: cancel its
    /// timer and free its slot, whatever state it was in. A stale token is
    /// ignored; so is the duplicate removal when both hang-up and error are
    /// observed for one connection in one poll batch.
    pub fn conn_closed(&mut self, tok: usize) -> (r: ConnDisposition)
        requires
            old(self).wf(),
        ensures
            final(self).wf(),
            final(self).cap() == old(self).cap(),
            final(self).config_spec() == old(self).config_spec(),
            final(self).next_timer_id() == old(self).next_timer_id(),
            !old(self).conn_views().dom().contains(tok as int) ==> (r == ConnDisposition::Ignored
                && final(self).conn_views() == old(self).conn_views() && final(self).timer_log()
                == old(self).timer_log()),
            old(self).conn_views().dom().contains(tok as int) ==> (r == ConnDisposition::Remove
                && final(self).conn_views() == old(self).conn_views().remove(tok as int) && final(self).timer_log() == cancelled(
                old(self).timer_log(),
                old(self).conn_views()[tok as int].timer->Some_0,
            )),
    {
        let taken = self.conns.remove(tok);
        match taken {
            None => {
                proof {
                    assert(self.conn_views() =~= old(self).conn_views());
                }
                ConnDisposition::Ignored
            },
            Some(conn) => {
                let h = match conn.timeout {
                    Some(h) => h,
                    None => 0,
                };
                self.timers.cancel(h);
                proof {
                    assert(self.conn_views() =~= old(self).conn_views().remove(tok as int));
                }
                ConnDisposition::Remove
            },
        }
    }

    /// Drain every deadline that has passed. Each returned firing must
    /// still be validated by `conn_timeout`: by the time it is processed,
    /// its connection may be gone, or its slot reused.
    pub fn poll_expired(&mut self, now: u64) -> (r: Vec<TimerFired>)
        requires
            old(self).wf(),
        ensures
            final(self).wf(),
            final(self).cap() == old(self).cap(),
            final(self).config_spec() == old(self).config_spec(),
            final(self).next_timer_id() == old(self).next_timer_id(),
            final(self).conn_views() == old(self).conn_views(),
            r@ == due_fires(old(self).timer_log(), now),
            final(self).timer_log() == kept_entries(old(self).timer_log(), now),
    {
        let r = self.timers.poll_expired(now);
        proof {
            lemma_kept_entries_subset(old(self).timer_log(), now);
            assert(self.conn_views() =~= old(self).conn_views());
        }
        r
    }

    /// The earliest armed deadline, if any: how long the loop may block in
    /// its poll before a stalled connection could outlive its deadline.
    pub fn next_deadline(&self) -> (r: Option<u64>)
        ensures
            r is None ==> forall|i: int|
                0 <= i < self.timer_log().len() ==> !(#[trigger] self.timer_log()[i]).live,
            r matches Some(d) ==> {
                &&& exists|i: int|
                    0 <= i < self.timer_log().len() && (#[trigger] self.timer_log()[i]).live
                        && self.timer_log()[i].deadline == d
                &&& forall|i: int|
                    0 <= i < self.timer_log().len() && (#[trigger] self.timer_log()[i]).live
                        ==> self.timer_log()[i].deadline >= d
            },
    {
        let r = self.timers.next_deadline();
        proof {
            match r {
                Some(d) => {
                    let w = choose|i: int|
                        0 <= i < self.timers@.len() && (#[trigger] self.timers@[i]).live
                            && self.timers@[i].deadline == d;
                    assert(self.timer_log()[w].live && self.timer_log()[w].deadline == d);
                },
                None => {},
            }
        }
        r
    }

    /// Act on one fired timer: the connection timed out with no forward
    /// progress, so it is force-closed and its slot freed — the backstop
    /// against a peer that connects and never completes. The firing is
    /// validated first: if the token's slot is gone, or holds a connection
    /// whose armed timer is not this handle (the slot was reused, or the
    /// deadline was re-armed), nothing happens — a cancelled or stale
    /// firing never closes anything.
    pub fn conn_timeout(&mut self, fired: TimerFired) -> (r: ConnDisposition)
        requires
            old(self).wf(),
        ensures
            final(self).wf(),
            final(self).cap() == old(self).cap(),
            final(self).config_spec() == old(self).config_spec(),
            final(self).next_timer_id() == old(self).next_timer_id(),
            final(self).timer_log() == old(self).timer_log(),
            !(old(self).conn_views().dom().contains(fired.token as int) && old(self).conn_views()[fired.token as int].timer == Some(fired.id)) ==> (r
                == ConnDisposition::Ignored && final(self).conn_views() == old(self).conn_views()),
            (old(self).conn_views().dom().contains(fired.token as int) && old(self).conn_views()[fired.token as int].timer == Some(fired.id)) ==> (r
                == ConnDisposition::Remove && final(self).conn_views() == old(self).conn_views().remove(fired.token as int)),
    {
        let validated = match self.conns.get(fired.token) {
            None => false,
            Some(conn) => {
                match conn.timeout {
                    Some(h) => h == fired.id,
                    None => false,
                }
            },
        };
        if !validated {
            return ConnDisposition::Ignored;
        }
        let _ = self.conns.remove(fired.token);
        proof {
            assert(self.conn_views() =~= old(self).conn_views().remove(fired.token as int));
        }
        ConnDisposition::Remove
    }
}

} // verus!
