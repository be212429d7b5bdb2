use oauth_callback::listener::{has_ended, step, ListenerAction, ListenerEvent, ListenerState};

const EVENTS: [ListenerEvent; 5] = [
    ListenerEvent::Bound,
    ListenerEvent::BindFailed,
    ListenerEvent::Connected,
    ListenerEvent::AcceptFailed,
    ListenerEvent::CancelRequested,
];

#[test]
fn binding_goes_on_to_accepting() {
    assert_eq!(
        step(ListenerState::Binding, ListenerEvent::Bound),
        (ListenerState::Accepting, ListenerAction::Accept)
    );
}

#[test]
fn failed_bind_is_fatal_and_reported() {
    assert_eq!(
        step(ListenerState::Binding, ListenerEvent::BindFailed),
        (ListenerState::Fatal, ListenerAction::ReportBindFailure)
    );
}

#[test]
fn each_connection_is_dispatched() {
    let mut state = ListenerState::Accepting;
    for _ in 0..3 {
        let (next, action) = step(state, ListenerEvent::Connected);
        assert_eq!(action, ListenerAction::Dispatch);
        assert_eq!(next, ListenerState::Accepting);
        state = next;
    }
}

#[test]
fn failed_accept_ends_the_listener() {
    assert_eq!(
        step(ListenerState::Accepting, ListenerEvent::AcceptFailed),
        (ListenerState::Fatal, ListenerAction::LogAndExit)
    );
}

#[test]
fn cancellation_ends_the_listener() {
    assert_eq!(
        step(ListenerState::Accepting, ListenerEvent::CancelRequested),
        (ListenerState::Cancelled, ListenerAction::Exit)
    );
}

#[test]
fn ended_listener_ignores_everything() {
    for state in [ListenerState::Cancelled, ListenerState::Fatal] {
        assert!(has_ended(state));
        for event in EVENTS {
            assert_eq!(step(state, event), (state, ListenerAction::Ignore));
        }
    }
}

#[test]
fn events_of_another_state_are_ignored() {
    for event in [ListenerEvent::Connected, ListenerEvent::AcceptFailed, ListenerEvent::CancelRequested]
    {
        assert_eq!(
            step(ListenerState::Binding, event),
            (ListenerState::Binding, ListenerAction::Ignore)
        );
    }
    for event in [ListenerEvent::Bound, ListenerEvent::BindFailed] {
        assert_eq!(
            step(ListenerState::Accepting, event),
            (ListenerState::Accepting, ListenerAction::Ignore)
        );
    }
}

#[test]
fn running_states_have_not_ended() {
    assert!(!has_ended(ListenerState::Binding));
    assert!(!has_ended(ListenerState::Accepting));
}

#[test]
fn a_whole_life() {
    let events = [
        ListenerEvent::Bound,
        ListenerEvent::Connected,
        ListenerEvent::Connected,
        ListenerEvent::CancelRequested,
        ListenerEvent::Connected,
    ];
    let mut state = ListenerState::Binding;
    let mut dispatched = 0;
    for event in events {
        let (next, action) = step(state, event);
        if action == ListenerAction::Dispatch {
            dispatched += 1;
        }
        state = next;
    }
    assert_eq!(state, ListenerState::Cancelled);
    assert_eq!(dispatched, 2);
}
