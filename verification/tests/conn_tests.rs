use mioserver::ConnState;
use mioserver::Fault;
use mioserver::MioConn;
use mioserver::ReadOutcome;
use mioserver::ServerConfig;
use mioserver::TimerAction;
use mioserver::WriteOutcome;
use mioserver::RBUF_CAP;

fn fresh_conn() -> MioConn {
    MioConn::new(ServerConfig::default())
}

fn writing_conn() -> MioConn {
    let mut c = fresh_conn();
    let r = c.readable(ReadOutcome::Data(b"GET / HTTP/1.1\r\n\r\n".to_vec()));
    assert_eq!(r, Ok(TimerAction::Refresh));
    assert_eq!(c.state, ConnState::Writing);
    c
}

#[test]
fn a_new_connection_reads_first() {
    let c = fresh_conn();
    assert_eq!(c.state, ConnState::Reading);
    assert!(c.rbuf.is_empty());
    assert!(c.interest.readable);
    assert!(!c.interest.writable);
    assert!(c.interest.hup);
    assert!(c.interest.error);
    assert_eq!(c.timeout, None);
}

#[test]
fn a_whole_request_in_one_read_turns_writing() {
    let c = writing_conn();
    assert!(!c.interest.readable);
    assert!(c.interest.writable);
    assert_eq!(c.wpos, 0);
}

#[test]
fn a_request_split_byte_by_byte_still_turns_writing() {
    let mut c = fresh_conn();
    let request = b"GET / HTTP/1.1\r\n\r\n";
    for (k, byte) in request.iter().enumerate() {
        let r = c.readable(ReadOutcome::Data(vec![*byte]));
        assert_eq!(r, Ok(TimerAction::Refresh));
        if k + 1 < request.len() {
            assert_eq!(c.state, ConnState::Reading);
        }
    }
    assert_eq!(c.state, ConnState::Writing);
    assert_eq!(c.rbuf, request.to_vec());
}

#[test]
fn reads_accumulate_in_arrival_order() {
    let mut c = fresh_conn();
    c.readable(ReadOutcome::Data(b"abc".to_vec())).unwrap();
    c.readable(ReadOutcome::Data(b"def".to_vec())).unwrap();
    assert_eq!(c.rbuf, b"abcdef".to_vec());
    assert_eq!(c.state, ConnState::Reading);
}

#[test]
fn would_block_changes_nothing() {
    let mut c = fresh_conn();
    c.readable(ReadOutcome::Data(b"partial".to_vec())).unwrap();
    let before_state = c.state;
    let before_buf = c.rbuf.clone();
    let r = c.readable(ReadOutcome::WouldBlock);
    assert_eq!(r, Ok(TimerAction::Keep));
    assert_eq!(c.state, before_state);
    assert_eq!(c.rbuf, before_buf);
}

#[test]
fn a_zero_byte_first_read_is_the_fatal_fault() {
    let mut c = fresh_conn();
    let r = c.readable(ReadOutcome::Data(Vec::new()));
    assert_eq!(r, Err(Fault::NotifierContract));
    assert_eq!(c.state, ConnState::Reading);
    assert!(c.rbuf.is_empty());
}

#[test]
fn a_zero_byte_read_after_data_closes_gracefully() {
    let mut c = fresh_conn();
    c.readable(ReadOutcome::Data(b"GET".to_vec())).unwrap();
    let r = c.readable(ReadOutcome::Data(Vec::new()));
    assert_eq!(r, Ok(TimerAction::Cancel));
    assert_eq!(c.state, ConnState::Closed);
}

#[test]
fn a_read_error_closes_the_connection() {
    let mut c = fresh_conn();
    let r = c.readable(ReadOutcome::Failed);
    assert_eq!(r, Ok(TimerAction::Cancel));
    assert_eq!(c.state, ConnState::Closed);
}

#[test]
fn filling_the_buffer_without_a_delimiter_closes() {
    let mut c = fresh_conn();
    let r = c.readable(ReadOutcome::Data(vec![b'a'; RBUF_CAP]));
    assert_eq!(r, Ok(TimerAction::Cancel));
    assert_eq!(c.state, ConnState::Closed);
}

#[test]
fn overrunning_the_buffer_closes() {
    let mut c = fresh_conn();
    c.readable(ReadOutcome::Data(vec![b'a'; RBUF_CAP - 4])).unwrap();
    let r = c.readable(ReadOutcome::Data(vec![b'b'; 5]));
    assert_eq!(r, Ok(TimerAction::Cancel));
    assert_eq!(c.state, ConnState::Closed);
}

#[test]
fn a_delimiter_that_exactly_fills_the_buffer_turns_writing() {
    let mut c = fresh_conn();
    let mut bytes = vec![b'a'; RBUF_CAP - 4];
    bytes.extend_from_slice(b"\r\n\r\n");
    let r = c.readable(ReadOutcome::Data(bytes));
    assert_eq!(r, Ok(TimerAction::Refresh));
    assert_eq!(c.state, ConnState::Writing);
}

#[test]
fn a_complete_write_closes_the_connection() {
    let mut c = writing_conn();
    let pending = c.pending_bytes();
    assert_eq!(pending, b"HTTP/1.1 200 OK\r\n<h1>200 Ok</h1>".to_vec());
    let a = c.writable(WriteOutcome::Wrote(pending.len()));
    assert_eq!(a, TimerAction::Cancel);
    assert_eq!(c.state, ConnState::Closed);
}

#[test]
fn partial_writes_deliver_the_response_byte_exactly() {
    let mut c = writing_conn();
    let mut delivered: Vec<u8> = Vec::new();
    loop {
        let pending = c.pending_bytes();
        let n = 1.min(pending.len());
        delivered.extend_from_slice(&pending[..n]);
        let a = c.writable(WriteOutcome::Wrote(n));
        if a == TimerAction::Cancel {
            break;
        }
        assert_eq!(a, TimerAction::Refresh);
        assert_eq!(c.state, ConnState::Writing);
    }
    assert_eq!(c.state, ConnState::Closed);
    assert_eq!(delivered, b"HTTP/1.1 200 OK\r\n<h1>200 Ok</h1>".to_vec());
}

#[test]
fn a_blocked_write_changes_nothing() {
    let mut c = writing_conn();
    let a = c.writable(WriteOutcome::WouldBlock);
    assert_eq!(a, TimerAction::Keep);
    assert_eq!(c.state, ConnState::Writing);
    assert_eq!(c.wpos, 0);
}

#[test]
fn a_zero_byte_write_is_no_progress() {
    let mut c = writing_conn();
    let a = c.writable(WriteOutcome::Wrote(0));
    assert_eq!(a, TimerAction::Keep);
    assert_eq!(c.state, ConnState::Writing);
    assert_eq!(c.wpos, 0);
}

#[test]
fn a_write_error_closes_the_connection() {
    let mut c = writing_conn();
    let a = c.writable(WriteOutcome::Failed);
    assert_eq!(a, TimerAction::Cancel);
    assert_eq!(c.state, ConnState::Closed);
}

#[test]
fn stale_events_are_inert() {
    let mut c = fresh_conn();
    c.readable(ReadOutcome::Failed).unwrap();
    assert_eq!(c.state, ConnState::Closed);
    let r = c.readable(ReadOutcome::Data(b"late".to_vec()));
    assert_eq!(r, Ok(TimerAction::Keep));
    let a = c.writable(WriteOutcome::Wrote(4));
    assert_eq!(a, TimerAction::Keep);
    assert_eq!(c.state, ConnState::Closed);
}

#[test]
fn is_done_reading_needs_bytes_and_the_delimiter() {
    let mut c = fresh_conn();
    assert!(!c.is_done_reading(0));
    assert!(!c.is_done_reading(5));
    c.readable(ReadOutcome::Data(b"x\r\n\r\n".to_vec())).unwrap();
    assert!(c.is_done_reading(5));
    assert!(!c.is_done_reading(0));
}

#[test]
fn timer_handles_are_recorded_and_cleared() {
    let mut c = fresh_conn();
    c.set_timeout(7);
    assert_eq!(c.timeout, Some(7));
    c.clear_timeout();
    assert_eq!(c.timeout, None);
}
