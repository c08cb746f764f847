//! The client's session: one state machine fed by three sources (the socket
//! became readable, the socket became writable, the terminal gave a line)
//! and the buffer of bytes that wait for the socket.
//!
//! The surrounding program waits for readiness, performs each read and
//! write, and hands the outcome in; the session decides what happens next.

use vstd::prelude::*;
use crate::wire::{
    append_bytes, command_of, copy_range, parse_command, trim, trimmed, Command, CommandView,
    NEWLINE,
};

verus! {

/// How a read or a write on a non-blocking socket failed.
#[derive(Debug, Clone, Copy, PartialEq, Eq, Structural)]
pub enum IoFailure {
    /// Nothing can be done right now; the next readiness event will tell.
    WouldBlock,
    /// Any other failure of the transport.
    Other,
}

/// Whether `err` only says that the operation has to wait.
pub fn would_block(err: &IoFailure) -> (r: bool)
    ensures
        r == (*err == IoFailure::WouldBlock),
{
    match err {
        IoFailure::WouldBlock => true,
        IoFailure::Other => false,
    }
}

/// The bytes that wait to be written to the socket, oldest first.
pub struct SendBuffer {
    data: Vec<u8>,
}

impl View for SendBuffer {
    type V = Seq<u8>;

    closed spec fn view(&self) -> Seq<u8> {
        self.data@
    }
}

/// What is left of `pending` after the transport accepted `accepted` bytes.
pub open spec fn after_write(pending: Seq<u8>, accepted: int) -> Seq<u8> {
    if accepted <= 0 {
        pending
    } else if accepted >= pending.len() {
        Seq::empty()
    } else {
        pending.skip(accepted)
    }
}

impl SendBuffer {
    /// An empty buffer.
    pub fn new() -> (b: SendBuffer)
        ensures
            b@ == Seq::<u8>::empty(),
    {
        SendBuffer { data: Vec::new() }
    }

    /// The number of bytes that wait.
    pub fn len(&self) -> (n: usize)
        ensures
            n == self@.len(),
    {
        self.data.len()
    }

    /// Whether nothing waits.
    pub fn is_empty(&self) -> (r: bool)
        ensures
            r == (self@.len() == 0),
    {
        self.data.len() == 0
    }

    /// The bytes to offer to the next write: all that wait, in order.
    pub fn pending(&self) -> (out: &Vec<u8>)
        ensures
            out@ == self@,
    {
        &self.data
    }

    /// Queues `text` and a newline behind what already waits.
    pub fn enqueue_line(&mut self, text: &Vec<u8>)
        ensures
            final(self)@ == old(self)@ + text@ + seq![NEWLINE],
    {
        append_bytes(&mut self.data, text);
        self.data.push(NEWLINE);
        assert(self@ =~= old(self)@ + text@ + seq![NEWLINE]);
    }

    /// Puts `text` and a newline in front of what already waits.
    pub fn enqueue_line_first(&mut self, text: &Vec<u8>)
        ensures
            final(self)@ == text@ + seq![NEWLINE] + old(self)@,
    {
        let mut fresh: Vec<u8> = Vec::new();
        append_bytes(&mut fresh, text);
        fresh.push(NEWLINE);
        append_bytes(&mut fresh, &self.data);
        assert(fresh@ =~= text@ + seq![NEWLINE] + old(self)@);
        self.data = fresh;
    }

    /// Drops the first `accepted` bytes, which the transport took; the rest
    /// stays, in order, for the next write. A count beyond what waits empties
    /// the buffer.
    pub fn consume(&mut self, accepted: usize)
        ensures
            final(self)@ == after_write(old(self)@, accepted as int),
            accepted <= old(self)@.len() ==> final(self)@ == old(self)@.skip(accepted as int),
    {
        let n: usize = self.data.len();
        if accepted >= n {
            self.data = Vec::new();
            assert(self@ =~= old(self)@.skip(n as int));
        } else if accepted > 0 {
            let rest = copy_range(&self.data, accepted, n);
            assert(rest@ =~= old(self)@.skip(accepted as int));
            self.data = rest;
        } else {
            assert(self@ =~= old(self)@.skip(0));
        }
    }
}

/// Where the client's session stands.
#[derive(Debug, Clone, Copy, PartialEq, Eq, Structural)]
pub enum Phase {
    /// The connection is being made; the name was not queued yet.
    Connecting,
    /// The name is queued and has not left completely.
    SendingUsername,
    /// Nothing waits to be written.
    Idle,
    /// Bytes wait to be written.
    Sending,
    /// The session is over.
    Disconnected,
}

/// The stage of a session, without regard to what is queued.
#[derive(Debug, Clone, Copy, PartialEq, Eq, Structural)]
pub enum SessionState {
    Connecting,
    AwaitingUsernameSend,
    Active,
    Disconnected,
}

/// The stage that a phase belongs to.
pub open spec fn state_of(phase: Phase) -> SessionState {
    match phase {
        Phase::Connecting => SessionState::Connecting,
        Phase::SendingUsername => SessionState::AwaitingUsernameSend,
        Phase::Idle | Phase::Sending => SessionState::Active,
        Phase::Disconnected => SessionState::Disconnected,
    }
}

/// A session, as a value of the model.
pub struct SessionView {
    pub phase: Phase,
    pub username: Seq<u8>,
    pub pending: Seq<u8>,
}

/// What the surrounding program does after an event, as a value of the model.
pub enum ActionView {
    Continue,
    Write(Seq<u8>),
    Print(Seq<u8>),
    WantWritable,
    Hint,
    PeerClosed,
    Leave,
    Fatal,
}

/// What the surrounding program does after an event.
#[derive(Debug, PartialEq, Eq)]
pub enum Action {
    /// Wait for the next readiness event.
    Continue,
    /// Offer these bytes to one write on the socket and hand in its outcome.
    Write(Vec<u8>),
    /// Print these bytes as a line, then wait again.
    Print(Vec<u8>),
    /// Make sure the socket is watched for write readiness, then wait again.
    WantWritable,
    /// Print the usage hint, then wait again.
    Hint,
    /// Say that the server closed the connection and end with success.
    PeerClosed,
    /// End with success, at the operator's wish.
    Leave,
    /// Report the transport's failure and end with failure.
    Fatal,
}

impl View for Action {
    type V = ActionView;

    open spec fn view(&self) -> ActionView {
        match self {
            Action::Continue => ActionView::Continue,
            Action::Write(bytes) => ActionView::Write(bytes@),
            Action::Print(text) => ActionView::Print(text@),
            Action::WantWritable => ActionView::WantWritable,
            Action::Hint => ActionView::Hint,
            Action::PeerClosed => ActionView::PeerClosed,
            Action::Leave => ActionView::Leave,
            Action::Fatal => ActionView::Fatal,
        }
    }
}

/// What one read on the socket brought, as a value of the model.
pub enum ReadOutcomeView {
    Read(Seq<u8>),
    Failed(IoFailure),
}

/// What one read on the socket brought.
#[derive(Debug, PartialEq, Eq)]
pub enum ReadOutcome {
    /// The bytes read; none means that the peer closed.
    Read(Vec<u8>),
    /// The read failed.
    Failed(IoFailure),
}

impl View for ReadOutcome {
    type V = ReadOutcomeView;

    open spec fn view(&self) -> ReadOutcomeView {
        match self {
            ReadOutcome::Read(bytes) => ReadOutcomeView::Read(bytes@),
            ReadOutcome::Failed(e) => ReadOutcomeView::Failed(*e),
        }
    }
}

/// What one write on the socket brought.
#[derive(Debug, Clone, Copy, PartialEq, Eq, Structural)]
pub enum WriteOutcome {
    /// The transport took this many of the offered bytes.
    Accepted(usize),
    /// The write failed.
    Failed(IoFailure),
}

/// The token under which the socket to the server is watched.
pub const SERVER: usize = 0;

/// The token under which the terminal is watched.
pub const STDIN: usize = 1;

/// One readiness event: the token of its source and what the source is ready for.
#[derive(Debug, Clone, Copy, PartialEq, Eq, Structural)]
pub struct Readiness {
    pub token: usize,
    pub readable: bool,
    pub writable: bool,
}

/// What to do on one readiness event. The read on the socket, if any, comes
/// before the write.
#[derive(Debug, Clone, Copy, PartialEq, Eq, Structural)]
pub struct Plan {
    /// Read once from the socket and hand the outcome to the session.
    pub read_socket: bool,
    /// Tell the session that the socket is writable, and write what it offers.
    pub write_socket: bool,
    /// Read one line from the terminal and hand it to the session.
    pub read_terminal: bool,
}

/// The plan for the event `ready`: an event of the socket asks for a read
/// where it is readable and for a write where it is writable; an event of the
/// terminal asks for one line.
pub open spec fn plan_of(ready: Readiness) -> Plan {
    if ready.token == SERVER {
        Plan { read_socket: ready.readable, write_socket: ready.writable, read_terminal: false }
    } else {
        Plan { read_socket: false, write_socket: false, read_terminal: true }
    }
}

/// Plans the work for one readiness event. Only the two watched sources
/// give events.
pub fn plan(ready: Readiness) -> (p: Plan)
    requires
        ready.token == SERVER || ready.token == STDIN,
    ensures
        p == plan_of(ready),
{
    if ready.token == SERVER {
        Plan { read_socket: ready.readable, write_socket: ready.writable, read_terminal: false }
    } else {
        Plan { read_socket: false, write_socket: false, read_terminal: true }
    }
}

/// The session's invariant: an idle session has nothing queued, a sending one has.
pub open spec fn session_wf(s: SessionView) -> bool {
    &&& s.phase == Phase::Idle ==> s.pending.len() == 0
    &&& (s.phase == Phase::Sending || s.phase == Phase::SendingUsername) ==> s.pending.len() > 0
}

/// The session after the socket became writable: a connecting session queues
/// its name, with a newline, in front of everything else.
pub open spec fn writable_of(s: SessionView) -> SessionView {
    if s.phase == Phase::Connecting {
        SessionView {
            phase: Phase::SendingUsername,
            username: s.username,
            pending: s.username + seq![NEWLINE] + s.pending,
        }
    } else {
        s
    }
}

/// What follows a writable socket. A connecting session has just queued its
/// name and asks to be told again when the socket can take it; a session
/// with bytes queued offers all of them, in order, to one write; otherwise
/// there is nothing to do.
pub open spec fn writable_action(s: SessionView) -> ActionView {
    if s.phase == Phase::Connecting {
        ActionView::WantWritable
    } else if s.phase == Phase::Disconnected || s.pending.len() == 0 {
        ActionView::Continue
    } else {
        ActionView::Write(s.pending)
    }
}

/// The session after a write: accepted bytes leave the front of the queue,
/// a write that would block changes nothing, any other failure ends the
/// session.
pub open spec fn written_of(s: SessionView, outcome: WriteOutcome) -> SessionView {
    if s.phase == Phase::Disconnected {
        s
    } else {
        match outcome {
            WriteOutcome::Accepted(n) => {
                let rest = after_write(s.pending, n as int);
                SessionView {
                    phase: if rest.len() == 0 && (s.phase == Phase::Sending || s.phase
                        == Phase::SendingUsername) {
                        Phase::Idle
                    } else {
                        s.phase
                    },
                    username: s.username,
                    pending: rest,
                }
            },
            WriteOutcome::Failed(IoFailure::WouldBlock) => s,
            WriteOutcome::Failed(IoFailure::Other) => SessionView {
                phase: Phase::Disconnected,
                username: s.username,
                pending: s.pending,
            },
        }
    }
}

/// What follows a write.
pub open spec fn written_action(s: SessionView, outcome: WriteOutcome) -> ActionView {
    if s.phase != Phase::Disconnected && outcome == WriteOutcome::Failed(IoFailure::Other) {
        ActionView::Fatal
    } else {
        ActionView::Continue
    }
}

/// The session after a read: bytes and a read that would block change
/// nothing, a read of no bytes and any other failure end the session.
pub open spec fn read_of(s: SessionView, outcome: ReadOutcomeView) -> SessionView {
    match outcome {
        ReadOutcomeView::Read(bytes) => if bytes.len() == 0 {
            SessionView { phase: Phase::Disconnected, username: s.username, pending: s.pending }
        } else {
            s
        },
        ReadOutcomeView::Failed(IoFailure::WouldBlock) => s,
        ReadOutcomeView::Failed(IoFailure::Other) => SessionView {
            phase: Phase::Disconnected,
            username: s.username,
            pending: s.pending,
        },
    }
}

/// What follows a read: the bytes are printed without surrounding white
/// space, a read of no bytes means that the peer closed, a read that would
/// block is no event, any other failure is fatal.
pub open spec fn read_action(outcome: ReadOutcomeView) -> ActionView {
    match outcome {
        ReadOutcomeView::Read(bytes) => if bytes.len() == 0 {
            ActionView::PeerClosed
        } else {
            ActionView::Print(trimmed(bytes))
        },
        ReadOutcomeView::Failed(IoFailure::WouldBlock) => ActionView::Continue,
        ReadOutcomeView::Failed(IoFailure::Other) => ActionView::Fatal,
    }
}

/// The session after a terminal line: `send <text>` queues the text with a
/// newline behind what waits, `leave` ends the session, anything else
/// changes nothing.
pub open spec fn terminal_of(s: SessionView, line: Seq<u8>) -> SessionView {
    if s.phase == Phase::Disconnected {
        s
    } else {
        match command_of(line) {
            CommandView::Send(text) => SessionView {
                phase: if s.phase == Phase::Idle {
                    Phase::Sending
                } else {
                    s.phase
                },
                username: s.username,
                pending: s.pending + text + seq![NEWLINE],
            },
            CommandView::Leave => SessionView {
                phase: Phase::Disconnected,
                username: s.username,
                pending: s.pending,
            },
            CommandView::Invalid => s,
        }
    }
}

/// What follows a terminal line.
pub open spec fn terminal_action(s: SessionView, line: Seq<u8>) -> ActionView {
    if s.phase == Phase::Disconnected {
        ActionView::Leave
    } else {
        match command_of(line) {
            CommandView::Send(_) => ActionView::WantWritable,
            CommandView::Leave => ActionView::Leave,
            CommandView::Invalid => ActionView::Hint,
        }
    }
}

/// One client's session.
pub struct Session {
    phase: Phase,
    username: Vec<u8>,
    outbound: SendBuffer,
}

impl View for Session {
    type V = SessionView;

    closed spec fn view(&self) -> SessionView {
        SessionView { phase: self.phase, username: self.username@, pending: self.outbound@ }
    }
}

impl Session {
    /// A session that connects under `username`; nothing is queued.
    pub fn new(username: Vec<u8>) -> (s: Session)
        ensures
            s@ == (SessionView {
                phase: Phase::Connecting,
                username: username@,
                pending: Seq::empty(),
            }),
            session_wf(s@),
    {
        Session { phase: Phase::Connecting, username, outbound: SendBuffer::new() }
    }

    /// Where the session stands.
    pub fn phase(&self) -> (p: Phase)
        ensures
            p == self@.phase,
    {
        self.phase
    }

    /// The number of bytes that wait for the socket.
    pub fn pending_len(&self) -> (n: usize)
        ensures
            n == self@.pending.len(),
    {
        self.outbound.len()
    }

    /// The stage of the session.
    pub fn state(&self) -> (st: SessionState)
        ensures
            st == state_of(self@.phase),
    {
        match self.phase {
            Phase::Connecting => SessionState::Connecting,
            Phase::SendingUsername => SessionState::AwaitingUsernameSend,
            Phase::Idle | Phase::Sending => SessionState::Active,
            Phase::Disconnected => SessionState::Disconnected,
        }
    }

    /// The socket became writable. A connecting session queues its name in
    /// front of all else; any other offers what waits.
    pub fn on_writable(&mut self) -> (action: Action)
        requires
            session_wf(old(self)@),
        ensures
            session_wf(final(self)@),
            final(self)@ == writable_of(old(self)@),
            action@ == writable_action(old(self)@),
    {
        match self.phase {
            Phase::Connecting => {
                self.outbound.enqueue_line_first(&self.username);
                self.phase = Phase::SendingUsername;
                Action::WantWritable
            },
            Phase::Disconnected => Action::Continue,
            _ => {
                if self.outbound.is_empty() {
                    Action::Continue
                } else {
                    let n: usize = self.outbound.len();
                    let bytes = copy_range(self.outbound.pending(), 0, n);
                    assert(bytes@ =~= self@.pending);
                    Action::Write(bytes)
                }
            },
        }
    }

    /// A write on the socket ended with `outcome`.
    pub fn on_written(&mut self, outcome: WriteOutcome) -> (action: Action)
        requires
            session_wf(old(self)@),
        ensures
            session_wf(final(self)@),
            final(self)@ == written_of(old(self)@, outcome),
            action@ == written_action(old(self)@, outcome),
    {
        match self.phase {
            Phase::Disconnected => {
                return Action::Continue;
            },
            _ => {},
        }
        match outcome {
            WriteOutcome::Accepted(n) => {
                self.outbound.consume(n);
                if self.outbound.is_empty() {
                    match self.phase {
                        Phase::Sending | Phase::SendingUsername => {
                            self.phase = Phase::Idle;
                        },
                        _ => {},
                    }
                }
                Action::Continue
            },
            WriteOutcome::Failed(err) => {
                if would_block(&err) {
                    Action::Continue
                } else {
                    self.phase = Phase::Disconnected;
                    Action::Fatal
                }
            },
        }
    }

    /// A read on the socket ended with `outcome`.
    pub fn on_readable(&mut self, outcome: &ReadOutcome) -> (action: Action)
        requires
            session_wf(old(self)@),
        ensures
            session_wf(final(self)@),
            final(self)@ == read_of(old(self)@, outcome@),
            action@ == read_action(outcome@),
    {
        match outcome {
            ReadOutcome::Read(bytes) => {
                if bytes.len() == 0 {
                    self.phase = Phase::Disconnected;
                    Action::PeerClosed
                } else {
                    Action::Print(trim(bytes))
                }
            },
            ReadOutcome::Failed(err) => {
                if would_block(err) {
                    Action::Continue
                } else {
                    self.phase = Phase::Disconnected;
                    Action::Fatal
                }
            },
        }
    }

    /// The terminal gave `line`.
    pub fn on_terminal(&mut self, line: &Vec<u8>) -> (action: Action)
        requires
            session_wf(old(self)@),
        ensures
            session_wf(final(self)@),
            final(self)@ == terminal_of(old(self)@, line@),
            action@ == terminal_action(old(self)@, line@),
    {
        match self.phase {
            Phase::Disconnected => {
                return Action::Leave;
            },
            _ => {},
        }
        match parse_command(line) {
            Command::Send(text) => {
                self.outbound.enqueue_line(&text);
                match self.phase {
                    Phase::Idle => {
                        self.phase = Phase::Sending;
                    },
                    _ => {},
                }
                Action::WantWritable
            },
            Command::Leave => {
                self.phase = Phase::Disconnected;
                Action::Leave
            },
            Command::Invalid => Action::Hint,
        }
    }
}

/// A short write loses and repeats nothing: the accepted bytes followed by
/// what stays queued are the bytes that were queued, and what stays queued
/// is exactly what the next writable event offers, which itself changes
/// nothing.
pub proof fn lemma_partial_write_resumes(s: SessionView, accepted: usize)
    requires
        session_wf(s),
        s.phase == Phase::Sending || s.phase == Phase::SendingUsername,
        0 <= accepted < s.pending.len(),
    ensures
        written_of(s, WriteOutcome::Accepted(accepted)).pending == s.pending.skip(accepted as int),
        s.pending.take(accepted as int) + written_of(s, WriteOutcome::Accepted(accepted)).pending
            == s.pending,
        written_of(s, WriteOutcome::Accepted(accepted)).pending.len() == s.pending.len()
            - accepted,
        writable_of(written_of(s, WriteOutcome::Accepted(accepted))) == written_of(
            s,
            WriteOutcome::Accepted(accepted),
        ),
        writable_action(written_of(s, WriteOutcome::Accepted(accepted))) == ActionView::Write(
            s.pending.skip(accepted as int),
        ),
{
    assert(s.pending.skip(0) =~= s.pending);
    assert(s.pending.take(accepted as int) + s.pending.skip(accepted as int) =~= s.pending);
}

/// Every event keeps the session's invariant.
pub proof fn lemma_session_wf_kept(
    s: SessionView,
    write: WriteOutcome,
    read: ReadOutcomeView,
    line: Seq<u8>,
)
    requires
        session_wf(s),
    ensures
        session_wf(writable_of(s)),
        session_wf(written_of(s, write)),
        session_wf(read_of(s, read)),
        session_wf(terminal_of(s, line)),
{
}

/// The name is the first thing a session ever offers: whatever was typed
/// before the socket became writable goes out behind it.
pub proof fn lemma_username_goes_first(s: SessionView)
    requires
        s.phase == Phase::Connecting,
    ensures
        writable_action(s) == ActionView::WantWritable,
        writable_action(writable_of(s)) == ActionView::Write(
            s.username + seq![NEWLINE] + s.pending,
        ),
{
}

} // verus!
