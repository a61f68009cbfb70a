use hotkey_bridge::transition::{
    event_name, handle_transition, process_transitions, TransitionState,
};

#[test]
fn pressed_emits_released_does_not() {
    assert!(handle_transition(TransitionState::Pressed).is_some());
    assert!(handle_transition(TransitionState::Released).is_none());
}

#[test]
fn transition_filtering() {
    let stream = vec![
        TransitionState::Pressed,
        TransitionState::Released,
        TransitionState::Pressed,
        TransitionState::Pressed,
        TransitionState::Released,
    ];
    let emit_ok = vec![true, true, true, true, true];
    let emitted = process_transitions(&stream, &emit_ok);
    assert_eq!(emitted, vec![0, 2, 3]);
}

#[test]
fn failed_emission_does_not_disturb_later_ones() {
    let stream = vec![
        TransitionState::Pressed,
        TransitionState::Released,
        TransitionState::Pressed,
        TransitionState::Pressed,
        TransitionState::Released,
    ];
    let all_delivered = vec![true, true, true, true, true];
    let first_dropped = vec![false, true, true, true, true];
    let none_delivered = vec![false, false, false, false, false];
    let reference = process_transitions(&stream, &all_delivered);
    assert_eq!(process_transitions(&stream, &first_dropped), reference);
    assert_eq!(process_transitions(&stream, &none_delivered), reference);
    assert_eq!(reference, vec![0, 2, 3]);
}

#[test]
fn empty_stream_emits_nothing() {
    let stream: Vec<TransitionState> = Vec::new();
    let emit_ok: Vec<bool> = Vec::new();
    assert_eq!(process_transitions(&stream, &emit_ok), Vec::<usize>::new());
}

#[test]
fn activation_event_has_the_fixed_name() {
    assert_eq!(event_name(), "global-shortcut-triggered");
}
