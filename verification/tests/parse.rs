use hotkey_bridge::bridge::{default_descriptor, plan_setup, SetupError};
use hotkey_bridge::descriptor::{parse_descriptor, NamedKey, ShortcutDescriptor, TriggerKey};

#[test]
fn fixed_descriptor_parses() {
    assert_eq!(default_descriptor(), "Ctrl+Alt+R");
    let parsed = parse_descriptor(default_descriptor());
    assert_eq!(
        parsed,
        Some(ShortcutDescriptor {
            ctrl: true,
            alt: true,
            shift: false,
            meta: false,
            key: TriggerKey::Letter(82),
        })
    );
}

#[test]
fn modifier_order_is_irrelevant() {
    let a = parse_descriptor("Ctrl+Alt+R");
    let b = parse_descriptor("Alt+Ctrl+R");
    assert!(a.is_some());
    assert_eq!(a, b);
}

#[test]
fn case_is_ignored() {
    assert_eq!(parse_descriptor("ctrl+alt+r"), parse_descriptor("CTRL+ALT+R"));
    assert_eq!(parse_descriptor("ctrl+alt+r"), parse_descriptor("Ctrl+Alt+R"));
}

#[test]
fn modifier_vocabulary() {
    let control = parse_descriptor("Control+X").unwrap();
    assert!(control.ctrl && !control.alt && !control.shift && !control.meta);
    let option = parse_descriptor("Option+X").unwrap();
    assert!(option.alt && !option.ctrl);
    let shift = parse_descriptor("Shift+X").unwrap();
    assert!(shift.shift);
    let meta = parse_descriptor("Super+X").unwrap();
    assert!(meta.meta);
    assert_eq!(parse_descriptor("Cmd+X"), parse_descriptor("Command+X"));
    assert_eq!(parse_descriptor("Cmd+X"), parse_descriptor("Super+X"));
}

#[test]
fn key_vocabulary() {
    assert_eq!(
        parse_descriptor("Shift+F5").unwrap().key,
        TriggerKey::Function(5)
    );
    assert_eq!(parse_descriptor("F12").unwrap().key, TriggerKey::Function(12));
    assert_eq!(parse_descriptor("F1").unwrap().key, TriggerKey::Function(1));
    assert_eq!(parse_descriptor("F13").unwrap().key, TriggerKey::Function(13));
    assert_eq!(parse_descriptor("F24").unwrap().key, TriggerKey::Function(24));
    assert_eq!(parse_descriptor("7").unwrap().key, TriggerKey::Digit(55));
    assert_eq!(parse_descriptor("Digit3").unwrap().key, TriggerKey::Digit(51));
    assert_eq!(parse_descriptor("KeyQ").unwrap().key, TriggerKey::Letter(81));
    assert_eq!(parse_descriptor("q").unwrap().key, TriggerKey::Letter(81));
}

#[test]
fn named_key_vocabulary() {
    assert_eq!(
        parse_descriptor("Ctrl+Space").unwrap().key,
        TriggerKey::Named(NamedKey::Space)
    );
    assert_eq!(
        parse_descriptor("Enter").unwrap().key,
        TriggerKey::Named(NamedKey::Enter)
    );
    assert_eq!(
        parse_descriptor("Shift+Escape"),
        parse_descriptor("Shift+Esc")
    );
    assert_eq!(
        parse_descriptor("Ctrl+Comma").unwrap().key,
        TriggerKey::Named(NamedKey::Comma)
    );
    assert_eq!(parse_descriptor("Ctrl+,"), parse_descriptor("Ctrl+Comma"));
    assert_eq!(
        parse_descriptor("Alt+ArrowUp"),
        parse_descriptor("Alt+Up")
    );
    assert_eq!(
        parse_descriptor("PageDown").unwrap().key,
        TriggerKey::Named(NamedKey::PageDown)
    );
    assert_eq!(
        parse_descriptor("Numpad7"),
        parse_descriptor("Num7")
    );
    assert_eq!(
        parse_descriptor("NumpadAdd").unwrap().key,
        TriggerKey::Named(NamedKey::NumpadAdd)
    );
    assert_eq!(
        parse_descriptor("VolumeUp").unwrap().key,
        TriggerKey::Named(NamedKey::AudioVolumeUp)
    );
    assert_eq!(
        parse_descriptor("MediaPlayPause").unwrap().key,
        TriggerKey::Named(NamedKey::MediaPlayPause)
    );
    assert_eq!(
        parse_descriptor("PrintScreen").unwrap().key,
        TriggerKey::Named(NamedKey::PrintScreen)
    );
}

#[test]
fn command_or_control_means_control() {
    let a = parse_descriptor("CmdOrCtrl+R").unwrap();
    assert!(a.ctrl && !a.meta);
    assert_eq!(
        parse_descriptor("CommandOrControl+R"),
        parse_descriptor("Ctrl+R")
    );
}

#[test]
fn tokens_are_trimmed_between_pluses() {
    assert_eq!(
        parse_descriptor("Ctrl + Alt + R"),
        parse_descriptor("Ctrl+Alt+R")
    );
    assert_eq!(
        parse_descriptor(" Ctrl+Alt+R "),
        parse_descriptor("Ctrl+Alt+R")
    );
    assert_eq!(parse_descriptor("Ctrl+\tSpace"), parse_descriptor("Ctrl+Space"));
    // a descriptor of one token stands as written: no trimming
    assert_eq!(parse_descriptor(" R "), None);
    assert_eq!(parse_descriptor("R "), None);
}

#[test]
fn repeated_modifiers_collapse() {
    assert_eq!(parse_descriptor("Ctrl+Ctrl+R"), parse_descriptor("Ctrl+R"));
}

#[test]
fn unrecognized_token_is_rejected() {
    assert_eq!(parse_descriptor("Ctrl+Alt+Frog"), None);
    assert_eq!(parse_descriptor("Bogus+R"), None);
    assert_eq!(parse_descriptor("F25"), None);
    assert_eq!(parse_descriptor("F0"), None);
}

#[test]
fn empty_trigger_is_rejected() {
    assert_eq!(parse_descriptor(""), None);
    assert_eq!(parse_descriptor("Ctrl+Alt+"), None);
    assert_eq!(parse_descriptor("Ctrl++R"), None);
    assert_eq!(parse_descriptor("+R"), None);
    assert_eq!(parse_descriptor("Ctrl+Alt"), None);
}

#[test]
fn key_must_come_last() {
    assert_eq!(parse_descriptor("R+Ctrl"), None);
    assert_eq!(parse_descriptor("Ctrl+R+S"), None);
}

#[test]
fn plan_setup_accepts_the_fixed_descriptor() {
    let plan = plan_setup("Ctrl+Alt+R");
    assert_eq!(
        plan,
        Ok(ShortcutDescriptor {
            ctrl: true,
            alt: true,
            shift: false,
            meta: false,
            key: TriggerKey::Letter(82),
        })
    );
}

#[test]
fn plan_setup_reports_parse_failure() {
    assert_eq!(plan_setup("Ctrl+Alt+"), Err(SetupError::ParseFailure));
    assert_eq!(plan_setup("Nope+R"), Err(SetupError::ParseFailure));
}
