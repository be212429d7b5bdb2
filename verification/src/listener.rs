//! The life of one listener, as a state machine: it binds its port, accepts
//! connections until it is cancelled or accepting fails, and then stays ended.
//!
//! The machine decides; binding, accepting and handling are the caller's work,
//! which reports each result as an event and carries out the action it gets.

use vstd::prelude::*;

verus! {

/// Where a listener stands.
#[derive(Clone, Copy, Debug, PartialEq, Eq, Structural)]
pub enum ListenerState {
    /// The port is being bound.
    Binding,
    /// The port is bound and connections are accepted.
    Accepting,
    /// The listener was cancelled. It accepts no more.
    Cancelled,
    /// Binding or accepting failed. It accepts no more.
    Fatal,
}

/// What happened to a listener.
#[derive(Clone, Copy, Debug, PartialEq, Eq, Structural)]
pub enum ListenerEvent {
    /// The port was bound.
    Bound,
    /// The port could not be bound.
    BindFailed,
    /// A connection was accepted.
    Connected,
    /// Accepting failed.
    AcceptFailed,
    /// The registry asked the listener to stop.
    CancelRequested,
}

/// What the caller does next.
#[derive(Clone, Copy, Debug, PartialEq, Eq, Structural)]
pub enum ListenerAction {
    /// Wait for the next connection.
    Accept,
    /// Hand the accepted connection to a handler of its own, without waiting
    /// for it, and wait for the next connection.
    Dispatch,
    /// Report the bind failure to the caller of start, and end.
    ReportBindFailure,
    /// Log the failure and end. The listener is not started again.
    LogAndExit,
    /// End.
    Exit,
    /// Nothing: the event does not concern a listener in this state.
    Ignore,
}

/// Whether a listener in `state` has ended.
pub open spec fn is_ended(state: ListenerState) -> bool {
    state == ListenerState::Cancelled || state == ListenerState::Fatal
}

/// The state after `event` in `state`, and the action that the event calls for.
pub open spec fn next(state: ListenerState, event: ListenerEvent) -> (
    ListenerState,
    ListenerAction,
) {
    match (state, event) {
        (ListenerState::Binding, ListenerEvent::Bound) => (
            ListenerState::Accepting,
            ListenerAction::Accept,
        ),
        (ListenerState::Binding, ListenerEvent::BindFailed) => (
            ListenerState::Fatal,
            ListenerAction::ReportBindFailure,
        ),
        (ListenerState::Accepting, ListenerEvent::Connected) => (
            ListenerState::Accepting,
            ListenerAction::Dispatch,
        ),
        (ListenerState::Accepting, ListenerEvent::AcceptFailed) => (
            ListenerState::Fatal,
            ListenerAction::LogAndExit,
        ),
        (ListenerState::Accepting, ListenerEvent::CancelRequested) => (
            ListenerState::Cancelled,
            ListenerAction::Exit,
        ),
        _ => (state, ListenerAction::Ignore),
    }
}

/// The state after the events of `events`, taken in order.
pub open spec fn after(state: ListenerState, events: Seq<ListenerEvent>) -> ListenerState
    decreases events.len(),
{
    if events.len() == 0 {
        state
    } else {
        after(next(state, events[0]).0, events.drop_first())
    }
}

/// Takes one event: gives the next state and the action to carry out.
pub fn step(state: ListenerState, event: ListenerEvent) -> (moved: (ListenerState, ListenerAction))
    ensures
        moved == next(state, event),
{
    match state {
        ListenerState::Binding => match event {
            ListenerEvent::Bound => (ListenerState::Accepting, ListenerAction::Accept),
            ListenerEvent::BindFailed => (ListenerState::Fatal, ListenerAction::ReportBindFailure),
            _ => (state, ListenerAction::Ignore),
        },
        ListenerState::Accepting => match event {
            ListenerEvent::Connected => (ListenerState::Accepting, ListenerAction::Dispatch),
            ListenerEvent::AcceptFailed => (ListenerState::Fatal, ListenerAction::LogAndExit),
            ListenerEvent::CancelRequested => (ListenerState::Cancelled, ListenerAction::Exit),
            _ => (state, ListenerAction::Ignore),
        },
        _ => (state, ListenerAction::Ignore),
    }
}

/// Whether a listener in `state` has ended.
pub fn has_ended(state: ListenerState) -> (ended: bool)
    ensures
        ended == is_ended(state),
{
    match state {
        ListenerState::Cancelled => true,
        ListenerState::Fatal => true,
        _ => false,
    }
}

/// A handler is dispatched for an accepted connection of an accepting
/// listener, and for nothing else; and dispatching leaves the listener
/// accepting.
pub proof fn lemma_dispatch_per_connection(state: ListenerState, event: ListenerEvent)
    ensures
        next(state, event).1 == ListenerAction::Dispatch <==> state == ListenerState::Accepting
            && event == ListenerEvent::Connected,
        next(state, event).1 == ListenerAction::Dispatch ==> next(state, event).0
            == ListenerState::Accepting,
{
}

/// An accepting listener ends on a failed accept or on cancellation, and on
/// nothing else: a failed accept is not tried again.
pub proof fn lemma_accepting_ends(event: ListenerEvent)
    ensures
        is_ended(next(ListenerState::Accepting, event).0) <==> event == ListenerEvent::AcceptFailed
            || event == ListenerEvent::CancelRequested,
        next(ListenerState::Accepting, ListenerEvent::AcceptFailed) == (
            ListenerState::Fatal,
            ListenerAction::LogAndExit,
        ),
{
}

/// A listener that has ended stays as it is, whatever happens: it never
/// accepts again.
pub proof fn lemma_ended_stays(state: ListenerState, events: Seq<ListenerEvent>)
    requires
        is_ended(state),
    ensures
        after(state, events) == state,
    decreases events.len(),
{
    if events.len() > 0 {
        lemma_ended_stays(state, events.drop_first());
    }
}

} // verus!
