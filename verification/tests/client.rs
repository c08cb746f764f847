use chat_relay::client::{
    plan, would_block, Action, IoFailure, Phase, Plan, ReadOutcome, Readiness, SendBuffer,
    Session, SessionState, WriteOutcome, SERVER, STDIN,
};

fn line(s: &str) -> Vec<u8> {
    s.as_bytes().to_vec()
}

#[test]
fn would_block_tells_the_transient_failure() {
    assert!(would_block(&IoFailure::WouldBlock));
    assert!(!would_block(&IoFailure::Other));
}

#[test]
fn send_buffer_queues_lines_in_order() {
    let mut buf = SendBuffer::new();
    assert!(buf.is_empty());
    assert_eq!(buf.len(), 0);
    buf.enqueue_line(&line("one"));
    buf.enqueue_line(&line("two"));
    assert_eq!(buf.pending(), &line("one\ntwo\n"));
    assert_eq!(buf.len(), 8);
    buf.enqueue_line_first(&line("zero"));
    assert_eq!(buf.pending(), &line("zero\none\ntwo\n"));
}

#[test]
fn short_write_keeps_the_rest() {
    let mut buf = SendBuffer::new();
    buf.enqueue_line(&line("hello world"));
    let queued = buf.pending().clone();
    assert_eq!(queued.len(), 12);
    buf.consume(5);
    assert_eq!(buf.pending(), &line(" world\n"));
    assert_eq!(buf.len(), 12 - 5);
    let mut joined = queued[..5].to_vec();
    joined.extend_from_slice(buf.pending());
    assert_eq!(joined, queued);
    buf.consume(0);
    assert_eq!(buf.pending(), &line(" world\n"));
    buf.consume(7);
    assert!(buf.is_empty());
}

#[test]
fn consume_beyond_the_queue_empties_it() {
    let mut buf = SendBuffer::new();
    buf.enqueue_line(&line("ab"));
    buf.consume(100);
    assert!(buf.is_empty());
    buf.consume(1);
    assert!(buf.is_empty());
}

#[test]
fn session_sends_its_name_first() {
    let mut s = Session::new(line("alice"));
    assert_eq!(s.phase(), Phase::Connecting);
    assert_eq!(s.pending_len(), 0);
    assert_eq!(s.state(), SessionState::Connecting);
    assert_eq!(s.on_writable(), Action::WantWritable);
    assert_eq!(s.phase(), Phase::SendingUsername);
    assert_eq!(s.state(), SessionState::AwaitingUsernameSend);
    assert_eq!(s.pending_len(), 6);
    assert_eq!(s.on_writable(), Action::Write(line("alice\n")));
    assert_eq!(s.phase(), Phase::SendingUsername);
    assert_eq!(s.on_written(WriteOutcome::Accepted(6)), Action::Continue);
    assert_eq!(s.phase(), Phase::Idle);
    assert_eq!(s.on_writable(), Action::Continue);
}

#[test]
fn text_typed_before_the_first_write_goes_behind_the_name() {
    let mut s = Session::new(line("alice"));
    assert_eq!(s.on_terminal(&line("send early")), Action::WantWritable);
    assert_eq!(s.phase(), Phase::Connecting);
    assert_eq!(s.on_writable(), Action::WantWritable);
    assert_eq!(s.on_writable(), Action::Write(line("alice\nearly\n")));
}

#[test]
fn partial_write_resumes_where_it_stopped() {
    let mut s = Session::new(line("bob"));
    assert_eq!(s.on_writable(), Action::WantWritable);
    assert_eq!(s.on_writable(), Action::Write(line("bob\n")));
    assert_eq!(s.on_written(WriteOutcome::Accepted(4)), Action::Continue);
    assert_eq!(s.state(), SessionState::Active);
    assert_eq!(s.on_terminal(&line("send hello there")), Action::WantWritable);
    assert_eq!(s.phase(), Phase::Sending);
    assert_eq!(s.state(), SessionState::Active);
    assert_eq!(s.on_writable(), Action::Write(line("hello there\n")));
    assert_eq!(s.on_written(WriteOutcome::Accepted(4)), Action::Continue);
    assert_eq!(s.phase(), Phase::Sending);
    assert_eq!(s.pending_len(), 12 - 4);
    assert_eq!(s.on_writable(), Action::Write(line("o there\n")));
    assert_eq!(s.on_written(WriteOutcome::Failed(IoFailure::WouldBlock)), Action::Continue);
    assert_eq!(s.on_writable(), Action::Write(line("o there\n")));
    assert_eq!(s.on_terminal(&line("send more")), Action::WantWritable);
    assert_eq!(s.on_writable(), Action::Write(line("o there\nmore\n")));
    assert_eq!(s.on_written(WriteOutcome::Accepted(13)), Action::Continue);
    assert_eq!(s.phase(), Phase::Idle);
    assert_eq!(s.on_writable(), Action::Continue);
}

#[test]
fn write_failure_is_fatal() {
    let mut s = Session::new(line("bob"));
    assert_eq!(s.on_writable(), Action::WantWritable);
    assert_eq!(s.on_writable(), Action::Write(line("bob\n")));
    assert_eq!(s.on_written(WriteOutcome::Failed(IoFailure::Other)), Action::Fatal);
    assert_eq!(s.phase(), Phase::Disconnected);
    assert_eq!(s.on_writable(), Action::Continue);
    assert_eq!(s.on_written(WriteOutcome::Accepted(1)), Action::Continue);
    assert_eq!(s.pending_len(), 4);
}

#[test]
fn incoming_bytes_are_printed_trimmed() {
    let mut s = Session::new(line("bob"));
    assert_eq!(
        s.on_readable(&ReadOutcome::Read(line("[A]: hello\n"))),
        Action::Print(line("[A]: hello"))
    );
    assert_eq!(s.phase(), Phase::Connecting);
}

#[test]
fn read_of_no_bytes_means_the_peer_closed() {
    let mut s = Session::new(line("bob"));
    assert_eq!(s.on_readable(&ReadOutcome::Read(vec![])), Action::PeerClosed);
    assert_eq!(s.phase(), Phase::Disconnected);
    assert_eq!(s.state(), SessionState::Disconnected);
}

#[test]
fn read_that_would_block_is_no_event() {
    let mut s = Session::new(line("bob"));
    assert_eq!(s.on_writable(), Action::WantWritable);
    assert_eq!(s.on_writable(), Action::Write(line("bob\n")));
    assert_eq!(s.on_readable(&ReadOutcome::Failed(IoFailure::WouldBlock)), Action::Continue);
    assert_eq!(s.phase(), Phase::SendingUsername);
    assert_eq!(s.pending_len(), 4);
}

#[test]
fn read_failure_is_fatal() {
    let mut s = Session::new(line("bob"));
    assert_eq!(s.on_readable(&ReadOutcome::Failed(IoFailure::Other)), Action::Fatal);
    assert_eq!(s.phase(), Phase::Disconnected);
}

#[test]
fn leave_ends_the_session() {
    let mut s = Session::new(line("bob"));
    assert_eq!(s.on_terminal(&line("leave\n")), Action::Leave);
    assert_eq!(s.phase(), Phase::Disconnected);
    assert_eq!(s.on_terminal(&line("send late")), Action::Leave);
    assert_eq!(s.pending_len(), 0);
}

#[test]
fn unknown_terminal_line_gets_the_hint() {
    let mut s = Session::new(line("bob"));
    assert_eq!(s.on_terminal(&line("hello")), Action::Hint);
    assert_eq!(s.on_terminal(&line("")), Action::Hint);
    assert_eq!(s.phase(), Phase::Connecting);
    assert_eq!(s.pending_len(), 0);
}

#[test]
fn readiness_of_the_socket_and_of_the_terminal() {
    assert_eq!(SERVER, 0);
    assert_eq!(STDIN, 1);
    assert_eq!(
        plan(Readiness { token: SERVER, readable: true, writable: false }),
        Plan { read_socket: true, write_socket: false, read_terminal: false }
    );
    assert_eq!(
        plan(Readiness { token: SERVER, readable: true, writable: true }),
        Plan { read_socket: true, write_socket: true, read_terminal: false }
    );
    assert_eq!(
        plan(Readiness { token: SERVER, readable: false, writable: true }),
        Plan { read_socket: false, write_socket: true, read_terminal: false }
    );
    assert_eq!(
        plan(Readiness { token: STDIN, readable: true, writable: false }),
        Plan { read_socket: false, write_socket: false, read_terminal: true }
    );
}
