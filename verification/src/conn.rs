//! One connection's state machine.
//!
//! A connection starts `Reading`, accumulates request bytes until the
//! delimiter arrives, then turns `Writing` and sends the canned response;
//! a complete write, a hang-up, a timeout, or an unrecoverable I/O error
//! moves it to `Closed`, after which the reactor frees its slot. The
//! machine never performs I/O itself: the reactor's caller attempts exactly
//! one non-blocking read or write per readiness event and hands the outcome
//! in as a plain value; the machine decides the next state, the interest
//! set to re-register, and what to do with the connection's timer.

use crate::protocol::contains_delim;
use crate::protocol::is_done_reading;
use crate::protocol::response_bytes;
use crate::protocol::response_spec;
use crate::protocol::RESPONSE_LEN;
use crate::ServerConfig;
use crate::RBUF_CAP;
use vstd::prelude::*;

verus! {

/// Where a connection stands: reading the request, writing the response,
/// or done and awaiting removal.
#[derive(Clone, Copy, Debug, PartialEq, Eq, Structural)]
pub enum ConnState {
    Reading,
    Writing,
    Closed,
}

/// The subset of readiness events the notifier should currently report.
#[derive(Clone, Copy, Debug, PartialEq, Eq, Structural)]
pub struct Interest {
    pub readable: bool,
    pub writable: bool,
    pub hup: bool,
    pub error: bool,
}

/// The interest of a connection that is reading its request.
pub open spec fn read_interest() -> Interest {
    Interest { readable: true, writable: false, hup: true, error: true }
}

/// The interest of a connection that is writing its response.
pub open spec fn write_interest() -> Interest {
    Interest { readable: false, writable: true, hup: true, error: true }
}

/// What one non-blocking read attempt produced.
pub enum ReadOutcome {
    /// The bytes read; empty means the peer closed its half.
    Data(Vec<u8>),
    /// The read would block: a normal suspension, not an error.
    WouldBlock,
    /// Any other I/O error.
    Failed,
}

/// What one non-blocking write attempt produced.
pub enum WriteOutcome {
    /// How many of the handed bytes were written.
    Wrote(usize),
    /// The write would block: a normal suspension, not an error.
    WouldBlock,
    /// Any other I/O error.
    Failed,
}

/// What the reactor must do with the connection's timer after a step.
#[derive(Clone, Copy, Debug, PartialEq, Eq, Structural)]
pub enum TimerAction {
    /// No forward progress: leave the armed deadline as it is.
    Keep,
    /// Forward progress: cancel the old deadline and arm a fresh one.
    Refresh,
    /// The connection is closed: cancel the deadline.
    Cancel,
}

/// The one fatal fault class: a broken invariant, loud by design.
#[derive(Clone, Copy, Debug, PartialEq, Eq, Structural)]
pub enum Fault {
    /// The notifier reported readable, yet a first read returned no bytes:
    /// a notifier-contract bug that would otherwise busy-poll forever.
    NotifierContract,
    /// The listening socket itself reported writable, hang-up or error; the
    /// process cannot serve without it.
    ListenerEvent,
}

/// The abstract state of one connection.
pub ghost struct ConnView {
    pub state: ConnState,
    /// Request bytes received and not yet consumed.
    pub rbuf: Seq<u8>,
    /// How many bytes of the response have been written.
    pub wpos: int,
    pub interest: Interest,
    /// The handle of the outstanding timer, if one is armed.
    pub timer: Option<u64>,
    /// Milliseconds from each unit of forward progress to the deadline.
    pub timeout_ms: u64,
}

/// Well-formedness of the abstract state: buffers within their fixed
/// capacities, and the interest set matching the state.
pub open spec fn cv_wf(c: ConnView) -> bool {
    &&& c.rbuf.len() <= RBUF_CAP
    &&& 0 <= c.wpos <= RESPONSE_LEN
    &&& c.state == ConnState::Reading ==> c.interest == read_interest() && c.wpos == 0
    &&& c.state == ConnState::Writing ==> c.interest == write_interest()
}

/// `c`, closed; every other field is kept.
pub open spec fn close_view(c: ConnView) -> ConnView {
    ConnView { state: ConnState::Closed, ..c }
}

/// The step a read attempt that returned `chunk` makes from `c`.
///
/// An empty chunk after earlier data is a peer half-close; a chunk that
/// would overrun the fixed buffer, or that fills it without completing the
/// delimiter, is a protocol error; otherwise the bytes are appended in
/// order, and the machine turns `Writing` exactly when the accumulated
/// bytes contain the delimiter. A step from any state but `Reading` is a
/// stale event and changes nothing.
pub open spec fn read_step(c: ConnView, chunk: Seq<u8>) -> ConnView {
    if c.state != ConnState::Reading {
        c
    } else if chunk.len() == 0 {
        close_view(c)
    } else if c.rbuf.len() + chunk.len() > RBUF_CAP {
        close_view(c)
    } else {
        let nb = c.rbuf + chunk;
        if contains_delim(nb) {
            ConnView { state: ConnState::Writing, rbuf: nb, wpos: 0, interest: write_interest(), ..c }
        } else if nb.len() == RBUF_CAP {
            close_view(ConnView { rbuf: nb, ..c })
        } else {
            ConnView { rbuf: nb, ..c }
        }
    }
}

/// A read attempt whose outcome breaks the notifier's contract: a
/// zero-byte first read while the notifier reported readable.
pub open spec fn read_outcome_fault(c: ConnView, outcome: ReadOutcome) -> bool {
    &&& c.state == ConnState::Reading
    &&& outcome matches ReadOutcome::Data(b) && b@.len() == 0
    &&& c.rbuf.len() == 0
}

/// The step any read outcome makes from `c`.
pub open spec fn read_outcome_step(c: ConnView, outcome: ReadOutcome) -> ConnView {
    match outcome {
        ReadOutcome::Data(b) => read_step(c, b@),
        ReadOutcome::WouldBlock => c,
        ReadOutcome::Failed => if c.state == ConnState::Reading {
            close_view(c)
        } else {
            c
        },
    }
}

/// The step a write attempt that wrote `n` bytes makes from `c`: the write
/// position advances; completing the response closes the connection. A
/// zero-byte write is no forward progress, and a step from any state but
/// `Writing` is a stale event; neither changes anything.
pub open spec fn write_step(c: ConnView, n: int) -> ConnView {
    if c.state != ConnState::Writing {
        c
    } else if n == 0 {
        c
    } else if c.wpos + n == RESPONSE_LEN {
        ConnView { state: ConnState::Closed, wpos: RESPONSE_LEN as int, ..c }
    } else {
        ConnView { wpos: c.wpos + n, ..c }
    }
}

/// A write outcome a caller may report for `c`: one write attempt can
/// never write more bytes than the pending tail it was handed.
pub open spec fn write_outcome_bounded(c: ConnView, outcome: WriteOutcome) -> bool {
    match outcome {
        WriteOutcome::Wrote(n) => c.state == ConnState::Writing ==> c.wpos + n <= RESPONSE_LEN,
        _ => true,
    }
}

/// The step any write outcome makes from `c`.
pub open spec fn write_outcome_step(c: ConnView, outcome: WriteOutcome) -> ConnView {
    match outcome {
        WriteOutcome::Wrote(n) => write_step(c, n as int),
        WriteOutcome::WouldBlock => c,
        WriteOutcome::Failed => if c.state == ConnState::Writing {
            close_view(c)
        } else {
            c
        },
    }
}

/// What a step means for the connection's timer: closing cancels it, no
/// change keeps it, and any forward progress slides the deadline.
pub open spec fn action_of(before: ConnView, after: ConnView) -> TimerAction {
    if after == before {
        TimerAction::Keep
    } else if after.state == ConnState::Closed {
        TimerAction::Cancel
    } else {
        TimerAction::Refresh
    }
}

/// One connection's state: its buffers, interest set, outstanding timer
/// handle, and configuration. The socket itself lives with the caller.
pub struct MioConn {
    pub state: ConnState,
    pub rbuf: Vec<u8>,
    pub wpos: usize,
    pub interest: Interest,
    pub timeout: Option<u64>,
    pub config: ServerConfig,
}

impl View for MioConn {
    type V = ConnView;

    open spec fn view(&self) -> ConnView {
        ConnView {
            state: self.state,
            rbuf: self.rbuf@,
            wpos: self.wpos as int,
            interest: self.interest,
            timer: self.timeout,
            timeout_ms: self.config.timeout_ms,
        }
    }
}

impl MioConn {
    /// Well-formedness of the connection.
    pub open spec fn wf(&self) -> bool {
        cv_wf(self@)
    }

    /// A fresh connection: reading, empty buffers, read interest, no timer.
    pub fn new(config: ServerConfig) -> (r: MioConn)
        ensures
            r.wf(),
            r@ == (ConnView {
                state: ConnState::Reading,
                rbuf: Seq::<u8>::empty(),
                wpos: 0,
                interest: read_interest(),
                timer: None,
                timeout_ms: config.timeout_ms,
            }),
    {
        let r = MioConn {
            state: ConnState::Reading,
            rbuf: Vec::new(),
            wpos: 0,
            interest: Interest { readable: true, writable: false, hup: true, error: true },
            timeout: None,
            config,
        };
        proof {
            assert(r.rbuf@ =~= Seq::<u8>::empty());
        }
        r
    }

    /// Record the handle of a freshly armed timer.
    pub fn set_timeout(&mut self, id: u64)
        ensures
            final(self)@ == (ConnView { timer: Some(id), ..old(self)@ }),
    {
        self.timeout = Some(id);
    }

    /// Forget the outstanding timer handle.
    pub fn clear_timeout(&mut self)
        ensures
            final(self)@ == (ConnView { timer: None, ..old(self)@ }),
    {
        self.timeout = None;
    }

    /// Whether a read attempt that returned `bytes_read` bytes finished the
    /// request: some bytes arrived and the accumulated buffer holds the
    /// delimiter.
    pub fn is_done_reading(&self, bytes_read: usize) -> (r: bool)
        ensures
            r == (bytes_read > 0 && contains_delim(self.rbuf@)),
    {
        bytes_read > 0 && is_done_reading(&self.rbuf)
    }

    /// Advance the machine on one read attempt's outcome. Everything the
    /// step does is `read_outcome_step`; the returned action is what the
    /// reactor must do with this connection's timer. The one `Err` is the
    /// fatal notifier-contract fault, which changes nothing.
    pub fn readable(&mut self, outcome: ReadOutcome) -> (r: Result<TimerAction, Fault>)
        requires
            old(self).wf(),
        ensures
            final(self).wf(),
            read_outcome_fault(old(self)@, outcome) ==> (r matches Err(f) && f
                == Fault::NotifierContract && *final(self) == *old(self)),
            !read_outcome_fault(old(self)@, outcome) ==> (r matches Ok(a) && final(self)@
                == read_outcome_step(old(self)@, outcome) && a == action_of(
                old(self)@,
                final(self)@,
            )),
    {
        match outcome {
            ReadOutcome::WouldBlock => Ok(TimerAction::Keep),
            ReadOutcome::Failed => {
                if self.state == ConnState::Reading {
                    self.state = ConnState::Closed;
                    Ok(TimerAction::Cancel)
                } else {
                    Ok(TimerAction::Keep)
                }
            },
            ReadOutcome::Data(b) => {
                if self.state != ConnState::Reading {
                    return Ok(TimerAction::Keep);
                }
                if b.len() == 0 {
                    if self.rbuf.len() == 0 {
                        return Err(Fault::NotifierContract);
                    }
                    self.state = ConnState::Closed;
                    return Ok(TimerAction::Cancel);
                }
                if b.len() > RBUF_CAP - self.rbuf.len() {
                    self.state = ConnState::Closed;
                    return Ok(TimerAction::Cancel);
                }
                let ghost before = self@;
                let mut k: usize = 0;
                while k < b.len()
                    invariant
                        k <= b@.len(),
                        self.rbuf@ == before.rbuf + b@.subrange(0, k as int),
                        self.rbuf@.len() <= RBUF_CAP,
                        before.rbuf.len() + b@.len() <= RBUF_CAP,
                        self.state == before.state,
                        self.wpos == before.wpos,
                        self.interest == before.interest,
                        self.timeout == before.timer,
                        self.config.timeout_ms == before.timeout_ms,
                    decreases b@.len() - k,
                {
                    let ghost pre = self.rbuf@;
                    self.rbuf.push(b[k]);
                    proof {
                        assert(b@.subrange(0, k + 1) =~= b@.subrange(0, k as int).push(b@[k as int]));
                        assert(self.rbuf@ =~= before.rbuf + b@.subrange(0, k + 1));
                    }
                    k = k + 1;
                }
                proof {
                    assert(b@.subrange(0, b@.len() as int) =~= b@);
                    assert(self.rbuf@ =~= before.rbuf + b@);
                }
                if is_done_reading(&self.rbuf) {
                    self.state = ConnState::Writing;
                    self.wpos = 0;
                    self.interest = Interest {
                        readable: false,
                        writable: true,
                        hup: true,
                        error: true,
                    };
                    proof {
                        assert(self@ == read_step(before, b@));
                        assert(self@ != before);
                    }
                    return Ok(TimerAction::Refresh);
                }
                if self.rbuf.len() == RBUF_CAP {
                    self.state = ConnState::Closed;
                    return Ok(TimerAction::Cancel);
                }
                proof {
                    assert(self@.rbuf.len() > before.rbuf.len());
                    assert(self@ != before);
                }
                Ok(TimerAction::Refresh)
            },
        }
    }

    /// Advance the machine on one write attempt's outcome. Everything the
    /// step does is `write_outcome_step`. A write can never report more
    /// bytes than the pending tail it was handed.
    pub fn writable(&mut self, outcome: WriteOutcome) -> (r: TimerAction)
        requires
            old(self).wf(),
            write_outcome_bounded(old(self)@, outcome),
        ensures
            final(self).wf(),
            final(self)@ == write_outcome_step(old(self)@, outcome),
            r == action_of(old(self)@, final(self)@),
    {
        match outcome {
            WriteOutcome::WouldBlock => TimerAction::Keep,
            WriteOutcome::Failed => {
                if self.state == ConnState::Writing {
                    self.state = ConnState::Closed;
                    TimerAction::Cancel
                } else {
                    TimerAction::Keep
                }
            },
            WriteOutcome::Wrote(n) => {
                if self.state != ConnState::Writing {
                    return TimerAction::Keep;
                }
                if n == 0 {
                    return TimerAction::Keep;
                }
                self.wpos = self.wpos + n;
                if self.wpos == RESPONSE_LEN {
                    self.state = ConnState::Closed;
                    return TimerAction::Cancel;
                }
                proof {
                    assert(self@ != old(self)@);
                }
                TimerAction::Refresh
            },
        }
    }

    /// The still-unwritten tail of the response, to hand to the next write
    /// attempt.
    pub fn pending_bytes(&self) -> (r: Vec<u8>)
        requires
            self.wf(),
            self@.state == ConnState::Writing,
        ensures
            r@ == response_spec().subrange(self@.wpos, RESPONSE_LEN as int),
    {
        let resp = response_bytes();
        let mut r: Vec<u8> = Vec::new();
        let mut i: usize = self.wpos;
        while i < RESPONSE_LEN
            invariant
                self@.wpos <= i <= RESPONSE_LEN,
                resp@ == response_spec(),
                resp@.len() == RESPONSE_LEN,
                r@ == response_spec().subrange(self@.wpos, i as int),
            decreases RESPONSE_LEN - i,
        {
            r.push(resp[i]);
            proof {
                assert(response_spec().subrange(self@.wpos, i + 1) =~= response_spec().subrange(
                    self@.wpos,
                    i as int,
                ).push(response_spec()[i as int]));
            }
            i = i + 1;
        }
        r
    }
}

} // verus!
