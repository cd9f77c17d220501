//! The process of one service: the environment it starts in and the way it
//! is ended.
//!
//! Spawning and signalling is the caller's part; this module says what goes
//! into the environment and when a signal is due.

use crate::config::{no_variable_twice, pairs};
use crate::text::{decimal_text, number_text};
use vstd::prelude::*;

verus! {

/// The variable that tells a service its port.
pub open spec fn port_variable() -> Seq<char> {
    "PORT"@
}

/// The variables of `env` but the one called `key`, in order.
pub open spec fn without(env: Seq<(Seq<char>, Seq<char>)>, key: Seq<char>) -> Seq<
    (Seq<char>, Seq<char>),
>
    decreases env.len(),
{
    if env.len() == 0 {
        Seq::empty()
    } else if env.last().0 == key {
        without(env.drop_last(), key)
    } else {
        without(env.drop_last(), key).push(env.last())
    }
}

/// The environment that a service starts in: what the configuration sets,
/// and the port it is to bind, which replaces a port set there.
pub open spec fn start_env(env: Seq<(Seq<char>, Seq<char>)>, port: u16) -> Seq<
    (Seq<char>, Seq<char>),
> {
    without(env, port_variable()).push((port_variable(), decimal_text(port as nat)))
}

/// What is left without a variable are variables of the environment, none
/// of them the one left out, and none twice where none was twice.
pub proof fn lemma_without(env: Seq<(Seq<char>, Seq<char>)>, key: Seq<char>)
    ensures
        forall|i: int|
            0 <= i < without(env, key).len() ==> (#[trigger] without(env, key)[i]).0 != key
                && env.contains(without(env, key)[i]),
        no_variable_twice(env) ==> no_variable_twice(without(env, key)),
    decreases env.len(),
{
    if env.len() > 0 {
        let front = env.drop_last();
        lemma_without(front, key);
        let kept = without(front, key);
        let out = without(env, key);
        assert forall|i: int| 0 <= i < out.len() implies (#[trigger] out[i]).0 != key
            && env.contains(out[i]) by {
            if i < kept.len() {
                let at = choose|at: int| 0 <= at < front.len() && front[at] == kept[i];
                assert(env[at] == out[i]);
            } else {
                assert(env[env.len() - 1] == out[i]);
            }
        }
        if no_variable_twice(env) {
            assert(no_variable_twice(front)) by {
                assert forall|i: int, j: int|
                    0 <= i < front.len() && 0 <= j < front.len() && i != j implies (
                #[trigger] front[i]).0 != (#[trigger] front[j]).0 by {
                    assert(env[i].0 != env[j].0);
                }
            }
            if env.last().0 != key {
                assert forall|i: int, j: int|
                    0 <= i < out.len() && 0 <= j < out.len() && i != j implies (#[trigger] out[i]).0
                    != (#[trigger] out[j]).0 by {
                    if i < kept.len() && j < kept.len() {
                        assert(kept[i].0 != kept[j].0);
                    } else if i < kept.len() {
                        let at = choose|at: int| 0 <= at < front.len() && front[at] == kept[i];
                        assert(env[at].0 != env[env.len() - 1].0);
                    } else {
                        let at = choose|at: int| 0 <= at < front.len() && front[at] == kept[j];
                        assert(env[at].0 != env[env.len() - 1].0);
                    }
                }
            }
        }
    }
}

/// The environment that a service starts in sets the port once, and no
/// other variable twice where the configuration sets none twice.
pub proof fn law_start_env_sets_nothing_twice(env: Seq<(Seq<char>, Seq<char>)>, port: u16)
    requires
        no_variable_twice(env),
    ensures
        no_variable_twice(start_env(env, port)),
{
    lemma_without(env, port_variable());
    let kept = without(env, port_variable());
    let out = start_env(env, port);
    assert forall|i: int, j: int|
        0 <= i < out.len() && 0 <= j < out.len() && i != j implies (#[trigger] out[i]).0 != (
    #[trigger] out[j]).0 by {
        if i < kept.len() && j < kept.len() {
            assert(kept[i].0 != kept[j].0);
        } else if i < kept.len() {
            assert(kept[i].0 != port_variable());
        } else {
            assert(kept[j].0 != port_variable());
        }
    }
}

/// The environment that a service starts in.
pub fn spawn_env(env: &Vec<(String, String)>, port: u16) -> (out: Vec<(String, String)>)
    ensures
        pairs(out@) == start_env(pairs(env@), port),
        no_variable_twice(pairs(env@)) ==> no_variable_twice(pairs(out@)),
{
    proof {
        if no_variable_twice(pairs(env@)) {
            law_start_env_sets_nothing_twice(pairs(env@), port);
        }
    }
    let key = "PORT".to_owned();
    let ghost given = pairs(env@);
    let mut out: Vec<(String, String)> = Vec::new();
    let mut i: usize = 0;
    while i < env.len()
        invariant
            given == pairs(env@),
            key@ == port_variable(),
            i <= env@.len(),
            pairs(out@) == without(given.take(i as int), port_variable()),
        decreases env@.len() - i,
    {
        let ghost before = pairs(out@);
        proof {
            assert(given.take(i + 1).drop_last() =~= given.take(i as int));
            assert(given.take(i + 1).last() == given[i as int]);
        }
        if env[i].0 != key {
            out.push((env[i].0.clone(), env[i].1.clone()));
            assert(pairs(out@) =~= before.push(given[i as int]));
        }
        i += 1;
    }
    assert(given.take(env@.len() as int) =~= given);
    let ghost kept = pairs(out@);
    out.push((key, number_text(port as u64)));
    assert(pairs(out@) =~= kept.push((port_variable(), decimal_text(port as nat))));
    out
}

/// How far the ending of a process has got. Times are in milliseconds on a
/// clock that does not go back.
#[derive(Clone, Copy, Debug, PartialEq, Eq, Structural)]
pub enum Termination {
    /// Nobody asked the process to end.
    Idle,
    /// The process was asked to end at this time.
    Asked { since: u64 },
    /// The process did not end in time and was killed.
    Forced,
    /// The process has exited.
    Gone,
}

/// What is to be done to the process.
#[derive(Clone, Copy, Debug, PartialEq, Eq, Structural)]
pub enum TerminateAction {
    /// Ask the process to end.
    Signal,
    /// Kill the process.
    Kill,
    /// Wait for the process to exit.
    Wait,
    /// There is nothing to do.
    Nothing,
}

/// Whether the time that a process is given to end is over.
pub open spec fn grace_over(since: u64, now: u64, grace: u64) -> bool {
    now >= since && now - since >= grace
}

/// The state after the process was asked to end: only a process that nobody
/// had asked yet is asked.
pub open spec fn after_request(t: Termination, now: u64) -> Termination {
    match t {
        Termination::Idle => Termination::Asked { since: now },
        _ => t,
    }
}

/// What is to be done when the process is asked to end.
pub open spec fn request_action(t: Termination) -> TerminateAction {
    match t {
        Termination::Idle => TerminateAction::Signal,
        Termination::Gone => TerminateAction::Nothing,
        _ => TerminateAction::Wait,
    }
}

/// The state after time has passed: a process that was asked to end and has
/// used up its time is killed.
pub open spec fn after_tick(t: Termination, now: u64, grace: u64) -> Termination {
    match t {
        Termination::Asked { since } if grace_over(since, now, grace) => Termination::Forced,
        _ => t,
    }
}

/// What is to be done when time has passed.
pub open spec fn tick_action(t: Termination, now: u64, grace: u64) -> TerminateAction {
    match t {
        Termination::Asked { since } => if grace_over(since, now, grace) {
            TerminateAction::Kill
        } else {
            TerminateAction::Wait
        },
        Termination::Forced => TerminateAction::Wait,
        _ => TerminateAction::Nothing,
    }
}

impl Termination {
    /// The state of a process that nobody asked to end.
    pub fn new() -> (t: Termination)
        ensures
            t == Termination::Idle,
    {
        Termination::Idle
    }

    /// The process is asked to end.
    pub fn request(&mut self, now: u64) -> (action: TerminateAction)
        ensures
            *final(self) == after_request(*old(self), now),
            action == request_action(*old(self)),
    {
        match *self {
            Termination::Idle => {
                *self = Termination::Asked { since: now };
                TerminateAction::Signal
            },
            Termination::Gone => TerminateAction::Nothing,
            _ => TerminateAction::Wait,
        }
    }

    /// Time has passed; `grace` is the time a process is given to end.
    pub fn tick(&mut self, now: u64, grace: u64) -> (action: TerminateAction)
        ensures
            *final(self) == after_tick(*old(self), now, grace),
            action == tick_action(*old(self), now, grace),
    {
        match *self {
            Termination::Asked { since } => {
                if now >= since && now - since >= grace {
                    *self = Termination::Forced;
                    TerminateAction::Kill
                } else {
                    TerminateAction::Wait
                }
            },
            Termination::Forced => TerminateAction::Wait,
            _ => TerminateAction::Nothing,
        }
    }

    /// The process has exited.
    pub fn exited(&mut self)
        ensures
            *final(self) == Termination::Gone,
    {
        *self = Termination::Gone;
    }
}

/// Something that happens while a process is ended.
pub enum TerminationEvent {
    Request { now: u64 },
    Tick { now: u64 },
    Exited,
}

/// The state after an event.
pub open spec fn after_event(t: Termination, e: TerminationEvent, grace: u64) -> Termination {
    match e {
        TerminationEvent::Request { now } => after_request(t, now),
        TerminationEvent::Tick { now } => after_tick(t, now, grace),
        TerminationEvent::Exited => Termination::Gone,
    }
}

/// What is to be done at an event.
pub open spec fn action_at(t: Termination, e: TerminationEvent, grace: u64) -> TerminateAction {
    match e {
        TerminationEvent::Request { now } => request_action(t),
        TerminationEvent::Tick { now } => tick_action(t, now, grace),
        TerminationEvent::Exited => TerminateAction::Nothing,
    }
}

/// The state after the events, first to last.
pub open spec fn after_events(t: Termination, events: Seq<TerminationEvent>, grace: u64) -> Termination
    decreases events.len(),
{
    if events.len() == 0 {
        t
    } else {
        after_event(after_events(t, events.drop_last(), grace), events.last(), grace)
    }
}

/// How often the events lead to the given action.
pub open spec fn times(
    t: Termination,
    events: Seq<TerminationEvent>,
    grace: u64,
    action: TerminateAction,
) -> nat
    decreases events.len(),
{
    if events.len() == 0 {
        0
    } else {
        let before = times(t, events.drop_last(), grace, action);
        if action_at(after_events(t, events.drop_last(), grace), events.last(), grace) == action {
            before + 1
        } else {
            before
        }
    }
}

/// A process is killed only when it was asked to end and the time it was
/// given is over.
pub proof fn law_kill_only_after_grace(t: Termination, now: u64, grace: u64)
    ensures
        tick_action(t, now, grace) == TerminateAction::Kill ==> (t matches Termination::Asked {
            since,
        } && now - since >= grace),
{
}

/// Whatever happens, a process is asked to end at most once and killed at
/// most once, and it is never killed unless it was asked before.
pub proof fn law_signals_at_most_once(events: Seq<TerminationEvent>, grace: u64)
    ensures
        times(Termination::Idle, events, grace, TerminateAction::Signal) <= 1,
        times(Termination::Idle, events, grace, TerminateAction::Kill) <= 1,
        times(Termination::Idle, events, grace, TerminateAction::Kill) <= times(
            Termination::Idle,
            events,
            grace,
            TerminateAction::Signal,
        ),
        after_events(Termination::Idle, events, grace) == Termination::Idle ==> times(
            Termination::Idle,
            events,
            grace,
            TerminateAction::Signal,
        ) == 0,
        after_events(Termination::Idle, events, grace) is Asked ==> times(
            Termination::Idle,
            events,
            grace,
            TerminateAction::Kill,
        ) == 0 && times(Termination::Idle, events, grace, TerminateAction::Signal) == 1,
        after_events(Termination::Idle, events, grace) == Termination::Forced ==> times(
            Termination::Idle,
            events,
            grace,
            TerminateAction::Signal,
        ) == 1,
    decreases events.len(),
{
    if events.len() > 0 {
        law_signals_at_most_once(events.drop_last(), grace);
    }
}

} // verus!
