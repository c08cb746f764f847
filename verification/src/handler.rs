//! The server's side of one connection, as a state machine.
//!
//! The surrounding program reads from the socket and hands each outcome in
//! as an event; the machine answers with the next state, a reply for the
//! connection itself, and the deliveries for the others.

use vstd::prelude::*;
use crate::registry::{
    deliveries, delivery_views, has_name, lemma_register_keeps_unique, lemma_without_absent,
    lemma_without_keeps_unique, lemma_without_removes, unique_names, without, Delivery,
    DeliveryView, Registry,
};
use crate::wire::{
    copy_range, is_leave, leave_token, name_of, parse_name, rejection, rejection_line,
};

verus! {

/// Where a connection stands, as a value of the model.
pub enum ConnStateView {
    Accepted,
    Registering,
    Active(Seq<u8>),
    Closed,
}

/// Where a connection stands.
#[derive(Debug, PartialEq, Eq)]
pub enum ConnState {
    /// The socket was accepted; nothing was read yet.
    Accepted,
    /// A name was refused; the handshake goes on.
    Registering,
    /// The connection is registered under this name.
    Active(Vec<u8>),
    /// The connection is over and its name is free again.
    Closed,
}

impl View for ConnState {
    type V = ConnStateView;

    open spec fn view(&self) -> ConnStateView {
        match self {
            ConnState::Accepted => ConnStateView::Accepted,
            ConnState::Registering => ConnStateView::Registering,
            ConnState::Active(name) => ConnStateView::Active(name@),
            ConnState::Closed => ConnStateView::Closed,
        }
    }
}

/// What a read on the connection brought, as a value of the model.
pub enum ConnEventView {
    Line(Seq<u8>),
    PeerClosed,
    Failed,
}

/// What a read on the connection brought.
#[derive(Debug, PartialEq, Eq)]
pub enum ConnEvent {
    /// Bytes: the raw registration input during the handshake, afterwards one
    /// line without its newline.
    Line(Vec<u8>),
    /// A read of length zero: the peer closed.
    PeerClosed,
    /// Any other failure of the transport.
    Failed,
}

impl View for ConnEvent {
    type V = ConnEventView;

    open spec fn view(&self) -> ConnEventView {
        match self {
            ConnEvent::Line(bytes) => ConnEventView::Line(bytes@),
            ConnEvent::PeerClosed => ConnEventView::PeerClosed,
            ConnEvent::Failed => ConnEventView::Failed,
        }
    }
}

/// The answer to one event, as a value of the model, together with the
/// registry's entries after it.
pub struct StepView {
    pub next: ConnStateView,
    pub reply: Option<Seq<u8>>,
    pub deliveries: Seq<DeliveryView>,
    pub entries: Seq<(Seq<u8>, u64)>,
}

/// The answer to one event.
#[derive(Debug, PartialEq, Eq)]
pub struct Step {
    /// The state after the event.
    pub next: ConnState,
    /// A line to write back to this connection, if any.
    pub reply: Option<Vec<u8>>,
    /// The lines to write to the other connections.
    pub deliveries: Vec<Delivery>,
}

/// The model of an optional byte string.
pub open spec fn reply_view(reply: Option<Vec<u8>>) -> Option<Seq<u8>> {
    match reply {
        Some(bytes) => Some(bytes@),
        None => None,
    }
}

/// A step that ends the connection and frees `name`.
pub open spec fn closing(e: Seq<(Seq<u8>, u64)>, name: Seq<u8>) -> StepView {
    StepView {
        next: ConnStateView::Closed,
        reply: None,
        deliveries: Seq::empty(),
        entries: without(e, name),
    }
}

/// A step that touches nothing but the state.
pub open spec fn quiet(e: Seq<(Seq<u8>, u64)>, next: ConnStateView) -> StepView {
    StepView { next, reply: None, deliveries: Seq::empty(), entries: e }
}

/// A step that refuses a name: the rejection line goes back and the
/// handshake goes on.
pub open spec fn refusing(e: Seq<(Seq<u8>, u64)>) -> StepView {
    StepView {
        next: ConnStateView::Registering,
        reply: Some(rejection_line()),
        deliveries: Seq::empty(),
        entries: e,
    }
}

/// The transition rule of a connection.
///
/// During the handshake an input that names a valid, free name registers
/// `handle` under it and makes the connection active; any other input is
/// refused. An active connection relays each line to the others, except the
/// leave command, which closes it. The peer's close and a transport failure
/// close it too. Closing frees the name. A closed connection stays closed.
pub open spec fn step_of(
    state: ConnStateView,
    handle: u64,
    event: ConnEventView,
    e: Seq<(Seq<u8>, u64)>,
) -> StepView {
    match state {
        ConnStateView::Accepted | ConnStateView::Registering => match event {
            ConnEventView::Line(raw) => match name_of(raw) {
                Ok(name) => if has_name(e, name) {
                    refusing(e)
                } else {
                    StepView {
                        next: ConnStateView::Active(name),
                        reply: None,
                        deliveries: Seq::empty(),
                        entries: e.push((name, handle)),
                    }
                },
                Err(_) => refusing(e),
            },
            _ => quiet(e, ConnStateView::Closed),
        },
        ConnStateView::Active(name) => match event {
            ConnEventView::Line(line) => if line == leave_token() {
                closing(e, name)
            } else {
                StepView {
                    next: ConnStateView::Active(name),
                    reply: None,
                    deliveries: deliveries(e, name, line),
                    entries: e,
                }
            },
            _ => closing(e, name),
        },
        ConnStateView::Closed => quiet(e, ConnStateView::Closed),
    }
}

/// A connection that was just accepted.
pub fn accept() -> (state: ConnState)
    ensures
        state@ == ConnStateView::Accepted,
{
    ConnState::Accepted
}

/// Whether the connection is over.
pub fn is_closed(state: &ConnState) -> (r: bool)
    ensures
        r == (state@ == ConnStateView::Closed),
{
    match state {
        ConnState::Closed => true,
        _ => false,
    }
}

/// A step to `next` that relays nothing.
fn quiet_step(next: ConnState, reply: Option<Vec<u8>>) -> (out: Step)
    ensures
        out.next == next,
        out.reply == reply,
        delivery_views(out.deliveries@) == Seq::<DeliveryView>::empty(),
{
    let out = Step { next, reply, deliveries: Vec::new() };
    assert(delivery_views(out.deliveries@) =~= Seq::<DeliveryView>::empty());
    out
}

/// Handles the registration input `raw` for the connection with `handle`.
fn register_step(raw: &Vec<u8>, handle: u64, registry: &mut Registry) -> (out: Step)
    requires
        old(registry).wf(),
    ensures
        final(registry).wf(),
        step_view(out, final(registry)@) == step_of(
            ConnStateView::Registering,
            handle,
            ConnEventView::Line(raw@),
            old(registry)@,
        ),
{
    match parse_name(raw) {
        Ok(name) => {
            let n: usize = name.len();
            let kept = copy_range(&name, 0, n);
            assert(kept@ =~= name@);
            match registry.register(name, handle) {
                Ok(()) => quiet_step(ConnState::Active(kept), None),
                Err(_) => quiet_step(ConnState::Registering, Some(rejection())),
            }
        },
        Err(_) => quiet_step(ConnState::Registering, Some(rejection())),
    }
}

/// Ends the connection registered under `name`.
fn close_step(name: &Vec<u8>, registry: &mut Registry) -> (out: Step)
    requires
        old(registry).wf(),
    ensures
        final(registry).wf(),
        step_view(out, final(registry)@) == closing(old(registry)@, name@),
{
    registry.remove(name);
    quiet_step(ConnState::Closed, None)
}

/// The model of a step, given the entries that the registry holds after it.
pub open spec fn step_view(step: Step, entries: Seq<(Seq<u8>, u64)>) -> StepView {
    StepView {
        next: step.next@,
        reply: reply_view(step.reply),
        deliveries: delivery_views(step.deliveries@),
        entries,
    }
}

/// Takes the connection with `handle` from `state` through `event`: updates
/// the registry and returns the next state, the reply and the deliveries
/// that the transition rule gives.
pub fn step(state: ConnState, handle: u64, event: ConnEvent, registry: &mut Registry) -> (out:
    Step)
    requires
        old(registry).wf(),
    ensures
        final(registry).wf(),
        step_view(out, final(registry)@) == step_of(state@, handle, event@, old(registry)@),
{
    match state {
        ConnState::Accepted | ConnState::Registering => match event {
            ConnEvent::Line(raw) => register_step(&raw, handle, registry),
            _ => quiet_step(ConnState::Closed, None),
        },
        ConnState::Active(name) => match event {
            ConnEvent::Line(line) => {
                if is_leave(&line) {
                    close_step(&name, registry)
                } else {
                    let sends = registry.broadcast(&name, &line);
                    Step { next: ConnState::Active(name), reply: None, deliveries: sends }
                }
            },
            _ => close_step(&name, registry),
        },
        ConnState::Closed => quiet_step(ConnState::Closed, None),
    }
}

/// Every transition keeps the names in the registry unique.
pub proof fn lemma_step_keeps_unique(
    state: ConnStateView,
    handle: u64,
    event: ConnEventView,
    e: Seq<(Seq<u8>, u64)>,
)
    requires
        unique_names(e),
    ensures
        unique_names(step_of(state, handle, event, e).entries),
{
    match state {
        ConnStateView::Accepted | ConnStateView::Registering => match event {
            ConnEventView::Line(raw) => match name_of(raw) {
                Ok(name) => {
                    lemma_register_keeps_unique(e, name, handle);
                },
                Err(_) => {},
            },
            _ => {},
        },
        ConnStateView::Active(name) => {
            lemma_without_keeps_unique(e, name);
        },
        ConnStateView::Closed => {},
    }
}

/// However an active connection ends (the leave command, the peer's close, a
/// transport failure), it is closed, nothing is relayed, and its name is no
/// longer registered.
pub proof fn lemma_close_frees_name(
    name: Seq<u8>,
    handle: u64,
    event: ConnEventView,
    e: Seq<(Seq<u8>, u64)>,
)
    requires
        event is Line ==> event == ConnEventView::Line(leave_token()),
    ensures
        step_of(ConnStateView::Active(name), handle, event, e).next == ConnStateView::Closed,
        step_of(ConnStateView::Active(name), handle, event, e).deliveries.len() == 0,
        !has_name(step_of(ConnStateView::Active(name), handle, event, e).entries, name),
{
    lemma_without_removes(e, name);
}

/// A closed connection stays closed and no event on it touches the registry;
/// freeing its name once more would change nothing either.
pub proof fn lemma_closed_is_final(
    name: Seq<u8>,
    handle: u64,
    event: ConnEventView,
    e: Seq<(Seq<u8>, u64)>,
)
    ensures
        step_of(ConnStateView::Closed, handle, event, e) == quiet(e, ConnStateView::Closed),
        without(closing(e, name).entries, name) == closing(e, name).entries,
{
    lemma_without_removes(e, name);
    lemma_without_absent(without(e, name), name);
}

} // verus!
