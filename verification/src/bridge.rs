//! The setup half of the bridge: its error taxonomy, the decisions made
//! while installing the listener, and a model of the host's shortcut table.

use vstd::prelude::*;

use crate::descriptor::{
    acc_finish, acc_init, acc_step, descriptor_wf, lemma_first_plus_at, parse_descriptor,
    parse_spec, parse_tokens, split_plus, trim_all, trim_spec, ParseAcc, ShortcutDescriptor,
    TriggerKey,
};

verus! {

/// The two ways setup can fail: the descriptor did not parse, or the host
/// rejected the registration (for instance, the combination is already
/// claimed). Both are terminal: no retry, no fallback combination.
#[derive(Clone, Copy, Debug, PartialEq, Eq, Structural)]
pub enum SetupError {
    ParseFailure,
    RegistrationFailure,
}

/// The host's reply to a registration request.
#[derive(Clone, Copy, Debug, PartialEq, Eq, Structural)]
pub enum RegistrationOutcome {
    Granted,
    Denied,
}

/// The descriptor this application registers.
pub open spec fn default_descriptor_spec() -> Seq<char> {
    "Ctrl+Alt+R"@
}

/// The fixed descriptor text, `"Ctrl+Alt+R"`. No environment variable, file
/// or flag configures it.
pub fn default_descriptor() -> (r: &'static str)
    ensures
        r@ == default_descriptor_spec(),
{
    "Ctrl+Alt+R"
}

/// The combination the fixed descriptor denotes: Control and Alt, with the
/// letter R.
pub open spec fn default_combination() -> ShortcutDescriptor {
    ShortcutDescriptor {
        ctrl: true,
        alt: true,
        shift: false,
        meta: false,
        key: TriggerKey::Letter(82),
    }
}

/// The first setup decision: parse the descriptor. `Ok` exactly on a
/// well-formed descriptor; only then does the caller ask the host to
/// register the combination.
pub fn plan_setup(s: &str) -> (r: Result<ShortcutDescriptor, SetupError>)
    ensures
        match parse_spec(s@) {
            Option::Some(d) => r == Ok::<ShortcutDescriptor, SetupError>(d),
            Option::None => r == Err::<ShortcutDescriptor, SetupError>(SetupError::ParseFailure),
        },
        r matches Ok(d) ==> descriptor_wf(d),
{
    match parse_descriptor(s) {
        Option::Some(d) => Ok(d),
        Option::None => Err(SetupError::ParseFailure),
    }
}

/// The second setup decision: read the host's reply. Success exactly when
/// the host granted the registration; a denial is a `RegistrationFailure`.
pub fn register_reply(outcome: RegistrationOutcome) -> (r: Result<(), SetupError>)
    ensures
        outcome is Granted ==> r == Ok::<(), SetupError>(()),
        outcome is Denied ==> r == Err::<(), SetupError>(SetupError::RegistrationFailure),
{
    match outcome {
        RegistrationOutcome::Granted => Ok(()),
        RegistrationOutcome::Denied => Err(SetupError::RegistrationFailure),
    }
}

/// The host grants a registration exactly when no listener claims the
/// combination yet. The table of claimed combinations is the host's own;
/// the bridge never caches it — this model only states the collaboration.
pub open spec fn host_grants(claimed: Set<ShortcutDescriptor>, d: ShortcutDescriptor) -> bool {
    !claimed.contains(d)
}

/// The host's table after a registration request: one listener added on a
/// grant, nothing on a denial.
pub open spec fn host_after(claimed: Set<ShortcutDescriptor>, d: ShortcutDescriptor) -> Set<
    ShortcutDescriptor,
> {
    if host_grants(claimed, d) {
        claimed.insert(d)
    } else {
        claimed
    }
}

/// What one setup call returns against a given host table.
pub open spec fn setup_outcome(s: Seq<char>, claimed: Set<ShortcutDescriptor>) -> Result<
    (),
    SetupError,
> {
    match parse_spec(s) {
        Option::None => Err(SetupError::ParseFailure),
        Option::Some(d) => if host_grants(claimed, d) {
            Ok(())
        } else {
            Err(SetupError::RegistrationFailure)
        },
    }
}

/// The host table after one setup call.
pub open spec fn setup_table(s: Seq<char>, claimed: Set<ShortcutDescriptor>) -> Set<
    ShortcutDescriptor,
> {
    match parse_spec(s) {
        Option::None => claimed,
        Option::Some(d) => host_after(claimed, d),
    }
}

/// A malformed descriptor is rejected outright: setup reports
/// `ParseFailure`, and no registration is attempted — whatever the host's
/// table held, it is untouched.
pub proof fn lemma_malformed_descriptor_rejected(s: Seq<char>, claimed: Set<ShortcutDescriptor>)
    requires
        parse_spec(s) is None,
    ensures
        setup_outcome(s, claimed) == Err::<(), SetupError>(SetupError::ParseFailure),
        setup_table(s, claimed) == claimed,
{
}

/// One setup installs exactly one listener, and holds it: the first call on
/// an unclaimed combination succeeds and adds that one combination to the
/// host's table; a second call for the same combination, while the first
/// listener is live, is denied — no silent no-op, no duplicate listener.
pub proof fn lemma_second_setup_denied(
    s: Seq<char>,
    d: ShortcutDescriptor,
    claimed: Set<ShortcutDescriptor>,
)
    requires
        parse_spec(s) == Option::Some(d),
        !claimed.contains(d),
    ensures
        setup_outcome(s, claimed) == Ok::<(), SetupError>(()),
        setup_table(s, claimed) == claimed.insert(d),
        setup_outcome(s, setup_table(s, claimed)) == Err::<(), SetupError>(
            SetupError::RegistrationFailure,
        ),
        setup_table(s, setup_table(s, claimed)) == setup_table(s, claimed),
{
}

/// The fixed descriptor parses, to Control+Alt+R.
pub proof fn lemma_default_descriptor_parses()
    ensures
        parse_spec(default_descriptor_spec()) == Option::Some(default_combination()),
{
    reveal_strlit("Ctrl+Alt+R");
    reveal_strlit("ctrl");
    reveal_strlit("control");
    reveal_strlit("commandorcontrol");
    reveal_strlit("commandorctrl");
    reveal_strlit("cmdorctrl");
    reveal_strlit("cmdorcontrol");
    reveal_strlit("alt");
    reveal_strlit("option");
    reveal_strlit("shift");
    reveal_strlit("super");
    reveal_strlit("cmd");
    reveal_strlit("command");
    reveal_strlit("key");
    reveal_strlit("digit");
    let s = default_descriptor_spec();
    assert(s.len() == 10);
    let t0 = s.subrange(0, 4);
    let r1 = s.subrange(5, 10);
    let t1 = r1.subrange(0, 3);
    let r2 = r1.subrange(4, 5);
    // the splits: '+' stands at 4 and at 8, nowhere else
    assert forall|j: int| 0 <= j < 4 implies s[j] != '+' by {
        assert(s[0] == 'C' && s[1] == 't' && s[2] == 'r' && s[3] == 'l');
    }
    lemma_first_plus_at(s, 4);
    assert(split_plus(s) == seq![t0] + split_plus(r1));
    assert forall|j: int| 0 <= j < 3 implies r1[j] != '+' by {
        assert(r1[0] == 'A' && r1[1] == 'l' && r1[2] == 't');
    }
    assert(r1[3] == '+');
    lemma_first_plus_at(r1, 3);
    assert(r1.subrange(4, 5) == r2);
    assert(split_plus(r1) == seq![t1] + split_plus(r2));
    assert(r2.len() == 1 && r2[0] == 'R');
    lemma_first_plus_at(r2, 1);
    assert(split_plus(r2) == seq![r2]);
    let toks = split_plus(s);
    assert(toks == seq![t0] + (seq![t1] + seq![r2]));
    assert(toks.len() == 3);
    assert(toks[0] == t0 && toks[1] == t1 && toks[2] == r2);
    // no token carries whitespace, so trimming moves nothing
    assert(trim_spec(t0) == t0) by {
        assert(t0[0] == 'C' && t0[3] == 'l');
    }
    assert(trim_spec(t1) == t1) by {
        assert(t1[0] == 'A' && t1[2] == 't');
    }
    assert(trim_spec(r2) == r2) by {
        assert(r2[0] == 'R');
    }
    assert(trim_all(toks) =~= toks) by {
        assert(trim_all(toks)[0] == trim_spec(toks[0]));
        assert(trim_all(toks)[1] == trim_spec(toks[1]));
        assert(trim_all(toks)[2] == trim_spec(toks[2]));
    }
    // token one names Control
    assert(crate::descriptor::matches_ci(t0, "ctrl"@)) by {
        assert(t0.len() == 4 && "ctrl"@.len() == 4);
        assert(t0[0] == 'C' && t0[1] == 't' && t0[2] == 'r' && t0[3] == 'l');
        assert("ctrl"@[0] == 'c' && "ctrl"@[1] == 't' && "ctrl"@[2] == 'r' && "ctrl"@[3] == 'l');
    }
    // token two names Alt and no other modifier
    assert(crate::descriptor::matches_ci(t1, "alt"@)) by {
        assert(t1.len() == 3 && "alt"@.len() == 3);
        assert(t1[0] == 'A' && t1[1] == 'l' && t1[2] == 't');
        assert("alt"@[0] == 'a' && "alt"@[1] == 'l' && "alt"@[2] == 't');
    }
    assert(!crate::descriptor::is_ctrl_token(t1)) by {
        assert(t1.len() == 3);
        assert("ctrl"@.len() == 4 && "control"@.len() == 7);
        assert("commandorcontrol"@.len() == 16 && "commandorctrl"@.len() == 13);
        assert("cmdorctrl"@.len() == 9 && "cmdorcontrol"@.len() == 12);
    }
    // token three is the letter R, no modifier
    assert(!crate::descriptor::is_modifier_token(r2)) by {
        assert(r2.len() == 1);
        assert("ctrl"@.len() == 4 && "control"@.len() == 7 && "alt"@.len() == 3 && "option"@.len()
            == 6 && "shift"@.len() == 5 && "super"@.len() == 5 && "cmd"@.len() == 3
            && "command"@.len() == 7);
        assert("commandorcontrol"@.len() == 16 && "commandorctrl"@.len() == 13);
        assert("cmdorctrl"@.len() == 9 && "cmdorcontrol"@.len() == 12);
    }
    assert(crate::descriptor::key_of_token(r2) == Option::Some(TriggerKey::Letter(82))) by {
        assert(r2[0] == 'R');
        assert(crate::descriptor::lower_code('R') == 114);
        assert(crate::descriptor::upper_code('R') == 82);
    }
    // fold the three tokens
    let a0 = acc_init();
    let a1 = ParseAcc { ctrl: true, alt: false, shift: false, meta: false, key: Option::None };
    let a2 = ParseAcc { ctrl: true, alt: true, shift: false, meta: false, key: Option::None };
    let a3 = ParseAcc {
        ctrl: true,
        alt: true,
        shift: false,
        meta: false,
        key: Option::Some(TriggerKey::Letter(82)),
    };
    assert(toks[0] == t0);
    assert(acc_step(a0, t0) == Option::Some(a1));
    assert(toks.drop_first() =~= seq![t1] + seq![r2]);
    assert(parse_tokens(toks, a0) == parse_tokens(seq![t1] + seq![r2], a1));
    assert((seq![t1] + seq![r2])[0] == t1);
    assert(acc_step(a1, t1) == Option::Some(a2));
    assert((seq![t1] + seq![r2]).drop_first() =~= seq![r2]);
    assert(parse_tokens(seq![t1] + seq![r2], a1) == parse_tokens(seq![r2], a2));
    assert(acc_step(a2, r2) == Option::Some(a3));
    assert(seq![r2].drop_first() =~= Seq::<Seq<char>>::empty());
    assert(parse_tokens(seq![r2], a2) == parse_tokens(Seq::<Seq<char>>::empty(), a3));
    assert(parse_tokens(Seq::<Seq<char>>::empty(), a3) == acc_finish(a3));
    assert(acc_finish(a3) == Option::Some(default_combination()));
}

/// Separate process runs behave identically: no state persists between
/// them, so setup of the fixed descriptor succeeds in every run whose host
/// table does not already claim the combination — and returns the same
/// result in any two such runs.
pub proof fn lemma_fresh_runs_agree(
    run_a: Set<ShortcutDescriptor>,
    run_b: Set<ShortcutDescriptor>,
)
    requires
        !run_a.contains(default_combination()),
        !run_b.contains(default_combination()),
    ensures
        setup_outcome(default_descriptor_spec(), run_a) == Ok::<(), SetupError>(()),
        setup_outcome(default_descriptor_spec(), run_a) == setup_outcome(
            default_descriptor_spec(),
            run_b,
        ),
{
    lemma_default_descriptor_parses();
}

} // verus!
