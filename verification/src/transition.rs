//! The runtime half of the bridge: filtering key transitions into emissions.

use vstd::prelude::*;

verus! {

/// The direction of a key event as the host reports it: key-down or key-up.
#[derive(Clone, Copy, Debug, PartialEq, Eq, Structural)]
pub enum TransitionState {
    Pressed,
    Released,
}

/// The zero-payload notification the bridge publishes when the shortcut
/// fires. It carries nothing; its fixed name is `event_name`.
#[derive(Clone, Copy, Debug, PartialEq, Eq, Structural)]
pub struct ActivationEvent {}

/// Only the key-down transition triggers an emission; key-up is ignored, so
/// a press-and-release pair fires exactly once.
pub open spec fn emit_decision(t: TransitionState) -> bool {
    t is Pressed
}

/// Decide, for one reported transition, whether to publish the activation
/// event. The caller performs the actual emission and ignores its outcome.
pub fn handle_transition(t: TransitionState) -> (r: Option<ActivationEvent>)
    ensures
        r is Some <==> emit_decision(t),
{
    match t {
        TransitionState::Pressed => Some(ActivationEvent {  }),
        TransitionState::Released => None,
    }
}

/// How many transitions of a stream are key-down.
pub open spec fn pressed_count(s: Seq<TransitionState>) -> nat
    decreases s.len(),
{
    if s.len() == 0 {
        0
    } else {
        pressed_count(s.drop_last()) + if s.last() is Pressed {
            1nat
        } else {
            0nat
        }
    }
}

/// The positions at which the listener emits, in stream order: exactly the
/// key-down transitions.
pub open spec fn pressed_indices(s: Seq<TransitionState>) -> Seq<int>
    decreases s.len(),
{
    if s.len() == 0 {
        Seq::empty()
    } else if s.last() is Pressed {
        pressed_indices(s.drop_last()).push(s.len() - 1)
    } else {
        pressed_indices(s.drop_last())
    }
}

/// One emission per key-down, in the same relative order as the stream, and
/// none for key-up: the emitted positions are exactly the `Pressed` ones,
/// strictly increasing, one each.
pub proof fn lemma_pressed_indices(s: Seq<TransitionState>)
    ensures
        pressed_indices(s).len() == pressed_count(s),
        forall|k: int|
            0 <= k < pressed_indices(s).len() ==> 0 <= #[trigger] pressed_indices(s)[k]
                < s.len() && s[pressed_indices(s)[k]] is Pressed,
        forall|k1: int, k2: int|
            0 <= k1 < k2 < pressed_indices(s).len() ==> pressed_indices(s)[k1]
                < pressed_indices(s)[k2],
        forall|i: int| 0 <= i < s.len() && s[i] is Pressed ==> pressed_indices(s).contains(i),
    decreases s.len(),
{
    if s.len() > 0 {
        let q = pressed_indices(s.drop_last());
        let p = pressed_indices(s);
        lemma_pressed_indices(s.drop_last());
        assert(forall|j: int| 0 <= j < s.len() - 1 ==> s.drop_last()[j] == #[trigger] s[j]);
        assert forall|i: int| 0 <= i < s.len() && s[i] is Pressed implies p.contains(i) by {
            if i < s.len() - 1 {
                assert(q.contains(i));
                let k = choose|k: int| 0 <= k < q.len() && q[k] == i;
                assert(p[k] == i);
            } else {
                assert(s.last() is Pressed);
                assert(p[p.len() - 1] == i);
            }
        }
    }
}

/// An emission that the bus dropped leaves no trace: what a longer stream
/// emits extends what the shorter one emitted, and the next key-down still
/// emits, whatever became of the earlier emissions.
pub proof fn lemma_next_pressed_still_emits(s: Seq<TransitionState>, t: TransitionState)
    ensures
        pressed_indices(s.push(t)) == if emit_decision(t) {
            pressed_indices(s).push(s.len() as int)
        } else {
            pressed_indices(s)
        },
{
    assert(s.push(t).drop_last() =~= s);
    assert(s.push(t).last() == t);
}

/// Run the listener over a synthetic stream of transitions, attempting one
/// emission per key-down. `emit_ok[i]` plays the event bus: whether the
/// emission attempted at transition `i` would be delivered. Emission is
/// fire-and-forget — the result says nothing of `emit_ok`: which transitions
/// fire, and in what order, depends on the stream alone.
pub fn process_transitions(stream: &Vec<TransitionState>, emit_ok: &Vec<bool>) -> (emitted: Vec<
    usize,
>)
    requires
        stream@.len() == emit_ok@.len(),
    ensures
        emitted@.map_values(|u: usize| u as int) == pressed_indices(stream@),
{
    let mut emitted: Vec<usize> = Vec::new();
    let mut i: usize = 0;
    while i < stream.len()
        invariant
            i <= stream@.len(),
            stream@.len() == emit_ok@.len(),
            emitted@.map_values(|u: usize| u as int) =~= pressed_indices(
                stream@.subrange(0, i as int),
            ),
        decreases stream@.len() - i,
    {
        let ghost prev = emitted@;
        match handle_transition(stream[i]) {
            Option::Some(_ev) => {
                // fire and forget: the bus's outcome is read and dropped
                let _delivered = emit_ok[i];
                emitted.push(i);
            },
            Option::None => {},
        }
        proof {
            assert(stream@.subrange(0, i as int + 1).drop_last() =~= stream@.subrange(
                0,
                i as int,
            ));
            assert(stream@.subrange(0, i as int + 1).last() == stream@[i as int]);
            if stream@[i as int] is Pressed {
                assert(emitted@ == prev.push(i));
                assert(emitted@.map_values(|u: usize| u as int) =~= prev.map_values(
                    |u: usize| u as int,
                ).push(i as int));
            }
        }
        i += 1;
    }
    proof {
        assert(stream@.subrange(0, stream@.len() as int) =~= stream@);
    }
    emitted
}

/// The fixed name under which every activation event is published.
pub open spec fn event_name_spec() -> Seq<char> {
    "global-shortcut-triggered"@
}

/// The fixed event name, as a string the event bus accepts.
pub fn event_name() -> (r: &'static str)
    ensures
        r@ == event_name_spec(),
{
    "global-shortcut-triggered"
}

} // verus!
