use relay::relay::{CopyDirection, DirAction, RelaySession, SessionVerdict};

#[test]
fn bytes_pass_through_unchanged_and_in_order() {
    let mut d = CopyDirection::new();
    assert_eq!(d.next_action(), DirAction::Read);
    d.on_read(vec![1, 2, 3]);
    assert_eq!(d.next_action(), DirAction::Write);
    assert_eq!(d.unsent(), &[1, 2, 3]);
    d.on_write(3);
    assert_eq!(d.next_action(), DirAction::Read);
    d.on_read(vec![4, 5]);
    assert_eq!(d.unsent(), &[4, 5]);
    d.on_write(2);
    d.on_read_eof();
    assert!(d.is_complete());
    assert_eq!(d.next_action(), DirAction::Finish);
}

#[test]
fn partial_writes_keep_the_rest_queued() {
    let mut d = CopyDirection::new();
    d.on_read(vec![9, 8, 7, 6]);
    d.on_write(1);
    assert_eq!(d.unsent(), &[8, 7, 6]);
    assert_eq!(d.next_action(), DirAction::Write);
    d.on_write(2);
    assert_eq!(d.unsent(), &[6]);
    d.on_write(1);
    assert!(d.is_drained());
    assert_eq!(d.next_action(), DirAction::Read);
}

#[test]
fn an_error_aborts_the_whole_session() {
    let mut s = RelaySession::new();
    s.client_to_target.on_read(vec![1, 2]);
    assert_eq!(s.verdict(), SessionVerdict::Continue);
    s.target_to_client.on_error();
    assert_eq!(s.verdict(), SessionVerdict::Abort);
}

#[test]
fn echo_target_returns_every_byte_unchanged() {
    // The target echoes whatever it receives: each chunk the client-to-target
    // direction delivers is fed back into the target-to-client direction.
    // Everything the client wrote comes back unchanged and in order.
    let mut s = RelaySession::new();
    let client_writes: Vec<Vec<u8>> = vec![vec![10, 20], vec![30], vec![40, 50, 60]];
    let mut client_got: Vec<u8> = Vec::new();

    for chunk in &client_writes {
        s.client_to_target.on_read(chunk.clone());
        let echoed: Vec<u8> = s.client_to_target.unsent().to_vec();
        s.client_to_target.on_write(echoed.len());
        s.target_to_client.on_read(echoed);
        client_got.extend_from_slice(s.target_to_client.unsent());
        let n = s.target_to_client.unsent().len();
        s.target_to_client.on_write(n);
        assert_eq!(s.verdict(), SessionVerdict::Continue);
    }
    s.client_to_target.on_read_eof();
    s.target_to_client.on_read_eof();
    assert_eq!(s.verdict(), SessionVerdict::CloseClean);

    let sent: Vec<u8> = client_writes.concat();
    assert_eq!(client_got, sent);
}

#[test]
fn half_close_still_delivers_the_reply() {
    // The client sends a request and closes its write side, but keeps
    // reading. The reply the target sends back is delivered in full before
    // the session reaches its clean close.
    let mut s = RelaySession::new();
    s.client_to_target.on_read(vec![1, 1, 1]);
    s.client_to_target.on_write(3);
    s.client_to_target.on_read_eof();
    assert!(s.client_to_target.is_complete());

    // The reply arrives after the client's half-close.
    s.target_to_client.on_read(vec![2, 4, 6, 8]);
    // With reply bytes still queued the session must keep running.
    assert_eq!(s.verdict(), SessionVerdict::Continue);
    assert_eq!(s.target_to_client.unsent(), &[2, 4, 6, 8]);
    s.target_to_client.on_write(4);
    assert_eq!(s.verdict(), SessionVerdict::CloseClean);
}

#[test]
fn error_mid_transfer_keeps_partial_delivery() {
    // A failure on one direction aborts the session; whatever the other
    // direction had already delivered stays delivered, and only the bytes
    // after the failure point are lost.
    let mut s = RelaySession::new();
    s.target_to_client.on_read(vec![1, 2, 3]);
    s.target_to_client.on_write(2);
    s.client_to_target.on_error();
    assert_eq!(s.verdict(), SessionVerdict::Abort);
    assert_eq!(s.target_to_client.unsent(), &[3]);
}

#[test]
fn fresh_session_keeps_running() {
    let s = RelaySession::new();
    assert_eq!(s.verdict(), SessionVerdict::Continue);
}
