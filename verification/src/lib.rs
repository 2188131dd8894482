//! A single-threaded, non-blocking TCP connection multiplexer core.
//!
//! One process serves many concurrent connections by polling an OS readiness
//! notifier. This crate holds the reactor's logic: the token table that
//! addresses per-connection state, the timer queue that reaps stalled
//! connections, the per-connection state machine, and the dispatch rules of
//! the reactor loop. All I/O itself (sockets, the notifier) lives outside;
//! the library is handed each I/O outcome as a plain value and decides what
//! happens next.

use vstd::prelude::*;

mod conn;
mod laws;
mod protocol;
mod server;
mod timer_queue;
mod token_table;

pub use server::conn_plan;
pub use server::fresh_conn_view;
pub use server::AcceptError;
pub use server::ConnDisposition;
pub use server::DispatchStep;
pub use server::MioServer;

pub use timer_queue::cancelled;
pub use timer_queue::due_fires;
pub use timer_queue::has_live_entry;
pub use timer_queue::kept_entries;
pub use timer_queue::lemma_cancelled_never_fires;
pub use timer_queue::lemma_fires_iff_due;
pub use timer_queue::TimerEntry;
pub use timer_queue::TimerFired;
pub use timer_queue::TimerQueue;

pub use token_table::lemma_remove_idempotent;
pub use token_table::TokenTable;

pub use conn::action_of;
pub use conn::close_view;
pub use conn::cv_wf;
pub use conn::read_interest;
pub use conn::read_outcome_fault;
pub use conn::read_outcome_step;
pub use conn::read_step;
pub use conn::write_interest;
pub use conn::write_outcome_bounded;
pub use conn::write_outcome_step;
pub use conn::write_step;
pub use conn::ConnState;
pub use conn::ConnView;
pub use conn::Fault;
pub use conn::Interest;
pub use conn::MioConn;
pub use conn::ReadOutcome;
pub use conn::TimerAction;
pub use conn::WriteOutcome;
pub use laws::concat_chunks;
pub use laws::count_sum;
pub use laws::lemma_contains_delim_extend;
pub use laws::lemma_partial_writes_round_trip;
pub use laws::lemma_reads_accumulate_in_order;
pub use laws::lemma_split_reads_reach_writing;
pub use laws::read_steps;
pub use laws::write_steps;
pub use laws::written_bytes;
pub use protocol::contains_delim;
pub use protocol::delim_at;
pub use protocol::delim;
pub use protocol::is_done_reading;
pub use protocol::response_bytes;
pub use protocol::response_spec;
pub use protocol::RESPONSE_LEN;

verus! {

/// The token reserved for the listening socket.
pub const SERVER_TOKEN: usize = 0;

/// The first token that may be issued to a connection; everything below it
/// is reserved for the listening socket.
pub const CONN_BASE: usize = 1;

/// The fixed capacity of each connection's request buffer, in bytes.
pub const RBUF_CAP: usize = 1024;

/// What is configured once and applied uniformly to every connection.
#[derive(Clone, Copy, Debug, PartialEq, Eq, Structural)]
pub struct ServerConfig {
    /// Milliseconds from each unit of forward progress to a connection's
    /// deadline: the sliding timeout.
    pub timeout_ms: u64,
}

impl ServerConfig {
    /// The stock configuration: a three-second sliding timeout.
    pub fn default() -> (r: ServerConfig)
        ensures
            r.timeout_ms == 3000,
    {
        ServerConfig { timeout_ms: 3000 }
    }
}

} // verus!
