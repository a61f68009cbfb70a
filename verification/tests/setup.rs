use hotkey_bridge::bridge::{
    default_descriptor, plan_setup, register_reply, RegistrationOutcome, SetupError,
};
use hotkey_bridge::descriptor::ShortcutDescriptor;

#[test]
fn register_reply_maps_the_host_answer() {
    assert_eq!(register_reply(RegistrationOutcome::Granted), Ok(()));
    assert_eq!(
        register_reply(RegistrationOutcome::Denied),
        Err(SetupError::RegistrationFailure)
    );
}

#[test]
fn second_registration_is_denied() {
    // the host's table of claimed combinations, played by a vector
    let mut claimed: Vec<ShortcutDescriptor> = Vec::new();

    let first = plan_setup(default_descriptor()).unwrap();
    let first_outcome = if claimed.contains(&first) {
        RegistrationOutcome::Denied
    } else {
        claimed.push(first);
        RegistrationOutcome::Granted
    };
    assert_eq!(register_reply(first_outcome), Ok(()));
    assert_eq!(claimed.len(), 1);

    let second = plan_setup(default_descriptor()).unwrap();
    let second_outcome = if claimed.contains(&second) {
        RegistrationOutcome::Denied
    } else {
        claimed.push(second);
        RegistrationOutcome::Granted
    };
    assert_eq!(
        register_reply(second_outcome),
        Err(SetupError::RegistrationFailure)
    );
    assert_eq!(claimed.len(), 1);
}

#[test]
fn fresh_runs_succeed_identically() {
    // two separate process runs: nothing persists from one to the other
    let mut outcomes: Vec<Result<(), SetupError>> = Vec::new();
    for _run in 0..2 {
        let mut claimed: Vec<ShortcutDescriptor> = Vec::new();
        let combination = plan_setup(default_descriptor()).unwrap();
        let outcome = if claimed.contains(&combination) {
            RegistrationOutcome::Denied
        } else {
            claimed.push(combination);
            RegistrationOutcome::Granted
        };
        outcomes.push(register_reply(outcome));
    }
    assert_eq!(outcomes[0], Ok(()));
    assert_eq!(outcomes[1], Ok(()));
    assert_eq!(outcomes[0], outcomes[1]);
}

#[test]
fn malformed_descriptor_never_reaches_the_host() {
    let mut claimed: Vec<ShortcutDescriptor> = Vec::new();
    let plan = plan_setup("Ctrl+Alt+");
    assert_eq!(plan, Err(SetupError::ParseFailure));
    // no combination to register: the host table stays untouched
    if let Ok(combination) = plan {
        claimed.push(combination);
    }
    assert!(claimed.is_empty());
}
