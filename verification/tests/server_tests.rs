use mioserver::AcceptError;
use mioserver::ConnDisposition;
use mioserver::DispatchStep;
use mioserver::Fault;
use mioserver::Interest;
use mioserver::MioServer;
use mioserver::ReadOutcome;
use mioserver::ServerConfig;
use mioserver::WriteOutcome;
use mioserver::SERVER_TOKEN;

fn events(readable: bool, writable: bool, hup: bool, error: bool) -> Interest {
    Interest { readable, writable, hup, error }
}

fn server(capacity: usize) -> MioServer {
    MioServer::new(capacity, ServerConfig::default())
}

#[test]
fn accept_issues_tokens_above_the_listener() {
    let mut s = server(4);
    let (tok, interest) = s.accept(0).unwrap();
    assert!(tok > SERVER_TOKEN);
    assert_eq!(tok, 1);
    assert!(interest.readable && !interest.writable && interest.hup && interest.error);
    assert_eq!(s.count(), 1);
}

#[test]
fn the_capacity_plus_first_connection_is_rejected() {
    let mut s = server(2);
    let (a, _) = s.accept(0).unwrap();
    let (b, _) = s.accept(0).unwrap();
    let r = s.accept(0);
    assert_eq!(r, Err(AcceptError::TableFull));
    assert_eq!(s.count(), 2);
    // the existing connections are still served normally
    let d = s.conn_readable(a, ReadOutcome::Data(b"still".to_vec()), 1).unwrap();
    assert!(matches!(d, ConnDisposition::Reregister(_)));
    let d = s.conn_closed(b);
    assert_eq!(d, ConnDisposition::Remove);
    // and a freed slot admits again
    let (c, _) = s.accept(1).unwrap();
    assert_eq!(c, b);
}

#[test]
fn a_full_request_gets_the_response_and_a_close() {
    let mut s = server(4);
    let (tok, _) = s.accept(0).unwrap();
    let d = s.conn_readable(tok, ReadOutcome::Data(b"GET / HTTP/1.1\r\n\r\n".to_vec()), 1).unwrap();
    match d {
        ConnDisposition::Reregister(i) => {
            assert!(i.writable && !i.readable);
        },
        other => panic!("expected a re-registration, got {:?}", other),
    }
    let pending = s.pending_response(tok).unwrap();
    assert_eq!(pending, b"HTTP/1.1 200 OK\r\n<h1>200 Ok</h1>".to_vec());
    let d = s.conn_writable(tok, WriteOutcome::Wrote(pending.len()), 2);
    assert_eq!(d, ConnDisposition::Remove);
    assert_eq!(s.count(), 0);
    assert_eq!(s.pending_response(tok), None);
}

#[test]
fn a_request_split_across_reads_still_reaches_writing() {
    let mut s = server(4);
    let (tok, _) = s.accept(0).unwrap();
    let request = b"GET / HTTP/1.1\r\n\r\n";
    let mut now = 1;
    for byte in request.iter() {
        let d = s.conn_readable(tok, ReadOutcome::Data(vec![*byte]), now).unwrap();
        assert!(matches!(d, ConnDisposition::Reregister(_)));
        now += 1;
    }
    assert!(s.pending_response(tok).is_some());
}

#[test]
fn partial_writes_deliver_the_whole_response() {
    let mut s = server(4);
    let (tok, _) = s.accept(0).unwrap();
    s.conn_readable(tok, ReadOutcome::Data(b"\r\n\r\n".to_vec()), 1).unwrap();
    let mut delivered: Vec<u8> = Vec::new();
    let mut now = 2;
    loop {
        let pending = match s.pending_response(tok) {
            Some(p) => p,
            None => break,
        };
        let n = 7.min(pending.len());
        delivered.extend_from_slice(&pending[..n]);
        let d = s.conn_writable(tok, WriteOutcome::Wrote(n), now);
        now += 1;
        if d == ConnDisposition::Remove {
            break;
        }
    }
    assert_eq!(delivered, b"HTTP/1.1 200 OK\r\n<h1>200 Ok</h1>".to_vec());
    assert_eq!(s.count(), 0);
}

#[test]
fn stale_tokens_are_ignored() {
    let mut s = server(4);
    let (tok, _) = s.accept(0).unwrap();
    s.conn_closed(tok);
    let d = s.conn_readable(tok, ReadOutcome::Data(b"late".to_vec()), 1).unwrap();
    assert_eq!(d, ConnDisposition::Ignored);
    let d = s.conn_writable(tok, WriteOutcome::Wrote(1), 1);
    assert_eq!(d, ConnDisposition::Ignored);
    let d = s.conn_closed(tok);
    assert_eq!(d, ConnDisposition::Ignored);
}

#[test]
fn a_stalled_connection_is_reaped_at_its_deadline() {
    let mut s = server(4);
    let (tok, _) = s.accept(0).unwrap();
    assert!(s.poll_expired(2999).is_empty());
    let fired = s.poll_expired(3000);
    assert_eq!(fired.len(), 1);
    assert_eq!(fired[0].token, tok);
    let d = s.conn_timeout(fired.into_iter().next().unwrap());
    assert_eq!(d, ConnDisposition::Remove);
    assert_eq!(s.count(), 0);
}

#[test]
fn forward_progress_slides_the_deadline() {
    let mut s = server(4);
    let (tok, _) = s.accept(0).unwrap();
    s.conn_readable(tok, ReadOutcome::Data(b"partial".to_vec()), 1000).unwrap();
    // the original deadline has passed, but was re-armed at the read
    assert!(s.poll_expired(3000).is_empty());
    let fired = s.poll_expired(4000);
    assert_eq!(fired.len(), 1);
    assert_eq!(fired[0].token, tok);
}

#[test]
fn a_cancelled_timer_never_closes_a_reused_slot() {
    let mut s = server(4);
    let (tok, _) = s.accept(0).unwrap();
    // the connection completes well before its deadline; its timer is cancelled
    s.conn_readable(tok, ReadOutcome::Data(b"\r\n\r\n".to_vec()), 1).unwrap();
    let d = s.conn_writable(tok, WriteOutcome::Wrote(32), 1);
    assert_eq!(d, ConnDisposition::Remove);
    // the slot is reused by a new connection
    let (tok2, _) = s.accept(1).unwrap();
    assert_eq!(tok2, tok);
    // the first connection's deadline passes without any firing
    assert!(s.poll_expired(3000).is_empty());
    assert_eq!(s.count(), 1);
    // only the new connection's own deadline fires
    let fired = s.poll_expired(3001);
    assert_eq!(fired.len(), 1);
    let d = s.conn_timeout(fired.into_iter().next().unwrap());
    assert_eq!(d, ConnDisposition::Remove);
}

#[test]
fn a_stale_firing_fails_validation() {
    let mut s = server(4);
    let (tok, _) = s.accept(0).unwrap();
    let fired = s.poll_expired(3000);
    assert_eq!(fired.len(), 1);
    // the connection closes between the firing and its processing
    s.conn_closed(tok);
    // and the slot is reused
    let (tok2, _) = s.accept(3000).unwrap();
    assert_eq!(tok2, tok);
    // the stale firing must not close the new connection
    let d = s.conn_timeout(fired.into_iter().next().unwrap());
    assert_eq!(d, ConnDisposition::Ignored);
    assert_eq!(s.count(), 1);
}

#[test]
fn listener_readable_plans_an_accept_drain() {
    let steps = MioServer::ready(SERVER_TOKEN, events(true, false, false, false)).unwrap();
    assert_eq!(steps, vec![DispatchStep::AcceptAll]);
    let steps = MioServer::ready(SERVER_TOKEN, events(false, false, false, false)).unwrap();
    assert!(steps.is_empty());
}

#[test]
fn listener_trouble_is_fatal() {
    assert_eq!(
        MioServer::ready(SERVER_TOKEN, events(false, true, false, false)),
        Err(Fault::ListenerEvent)
    );
    assert_eq!(
        MioServer::ready(SERVER_TOKEN, events(true, false, true, false)),
        Err(Fault::ListenerEvent)
    );
    assert_eq!(
        MioServer::ready(SERVER_TOKEN, events(false, false, false, true)),
        Err(Fault::ListenerEvent)
    );
}

#[test]
fn hang_up_and_error_pre_empt_reads_and_writes() {
    let steps = MioServer::ready(7, events(true, true, true, false)).unwrap();
    assert_eq!(steps, vec![DispatchStep::CloseConn]);
    let steps = MioServer::ready(7, events(true, true, false, true)).unwrap();
    assert_eq!(steps, vec![DispatchStep::CloseConn]);
}

#[test]
fn reads_are_dispatched_before_writes() {
    let steps = MioServer::ready(7, events(true, true, false, false)).unwrap();
    assert_eq!(steps, vec![DispatchStep::Readable, DispatchStep::Writable]);
    let steps = MioServer::ready(7, events(false, true, false, false)).unwrap();
    assert_eq!(steps, vec![DispatchStep::Writable]);
    let steps = MioServer::ready(7, events(true, false, false, false)).unwrap();
    assert_eq!(steps, vec![DispatchStep::Readable]);
    let steps = MioServer::ready(7, events(false, false, false, false)).unwrap();
    assert!(steps.is_empty());
}

#[test]
fn the_fatal_notifier_fault_is_reported() {
    let mut s = server(4);
    let (tok, _) = s.accept(0).unwrap();
    let r = s.conn_readable(tok, ReadOutcome::Data(Vec::new()), 1);
    assert_eq!(r, Err(Fault::NotifierContract));
    // nothing was disturbed
    assert_eq!(s.count(), 1);
}

#[test]
fn a_read_error_frees_only_that_slot() {
    let mut s = server(4);
    let (a, _) = s.accept(0).unwrap();
    let (b, _) = s.accept(0).unwrap();
    let d = s.conn_readable(a, ReadOutcome::Failed, 1).unwrap();
    assert_eq!(d, ConnDisposition::Remove);
    assert_eq!(s.count(), 1);
    let d = s.conn_readable(b, ReadOutcome::Data(b"fine".to_vec()), 1).unwrap();
    assert!(matches!(d, ConnDisposition::Reregister(_)));
}

#[test]
fn the_poll_horizon_follows_the_earliest_deadline() {
    let mut s = server(4);
    assert_eq!(s.next_deadline(), None);
    let (a, _) = s.accept(0).unwrap();
    s.accept(500).unwrap();
    assert_eq!(s.next_deadline(), Some(3000));
    s.conn_closed(a);
    assert_eq!(s.next_deadline(), Some(3500));
}

#[test]
fn counts_track_admissions() {
    let mut s = server(3);
    assert_eq!(s.count(), 0);
    assert_eq!(s.remaining(), 3);
    assert!(s.ids_left());
    let (a, _) = s.accept(0).unwrap();
    s.accept(0).unwrap();
    assert_eq!(s.count(), 2);
    assert_eq!(s.remaining(), 1);
    s.conn_closed(a);
    assert_eq!(s.count(), 1);
    assert_eq!(s.remaining(), 2);
}
