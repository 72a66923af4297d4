//! Reconciliation: what a pass reads and writes, and how the event loop moves.
//!
//! A pass reads the channel count and each channel level and writes what has
//! drifted: `reconcile`. The event loop is a small state machine: `advance`
//! makes one move, and `enforce` subscribes and repeats `advance` until the
//! phase is `Stopped`. All of them work on a `Watched` controller, and their
//! contracts say exactly which calls they add to its record.
//! `BalanceEnforcer` owns a controller and offers the same without a record.

use crate::audio::{AudioController, AudioError, AudioEvent, AudioResult, BalancePolicy};
use crate::laws::{lemma_pass_calls, lemma_pass_parts};
use crate::level::{is_within, Level};
use crate::watched::{
    are_possible, are_told, law_record_is_true, lemma_adds_up, lemma_told_add, Call, Operator, Watched,
};
use crossbeam_channel::Receiver;
use std::sync::atomic::AtomicBool;
use std::sync::Arc;
use std::time::Instant;
use vstd::prelude::*;

verus! {

/// A burst of events within this many nanoseconds leads to a single pass.
pub const DEBOUNCE_NANOS: u64 = 50_000_000;

/// After this many nanoseconds without an event the device is checked anyway.
pub const QUIET_NANOS: u64 = 5_000_000_000;

/// A run counts its moves up to this number. A move reads the clock, waits or
/// makes a pass, so that no machine gets there.
pub const MOST_MOVES: u128 = 0xffff_ffff_ffff_ffff_ffff_ffff_ffff_ffff;

/// Where the event loop stands.
#[derive(Debug, Clone, Copy, PartialEq, Eq, Structural)]
pub enum Phase {
    /// Nothing has been done yet; a first pass is due.
    Startup,
    /// Looking at the stop flag, then waiting for an event.
    Idle,
    /// An event came; swallowing the rest of its burst.
    Draining,
    /// The burst is over; a pass is due.
    Settling,
    /// No event came for a while; a pass is due.
    Watchdog,
    /// The loop is over.
    Stopped,
}

/// What waiting on the event channel ended with.
#[derive(Debug, Clone, Copy, PartialEq, Eq, Structural)]
pub enum Reply {
    Event(AudioEvent),
    Quiet,
    Closed,
}

/// What the loop saw in one move.
#[derive(Debug, Clone, Copy, PartialEq, Eq, Structural)]
pub enum Observation {
    /// The stop flag was set.
    StopRequested,
    /// The event channel gave this.
    Heard(Reply),
    /// The time for swallowing a burst had run out.
    WindowOver,
    /// A pass was made, with or without an error.
    PassMade,
}

/// The phase in which the loop makes a pass.
pub open spec fn pass_is_due(phase: Phase) -> bool {
    phase == Phase::Startup || phase == Phase::Settling || phase == Phase::Watchdog
}

/// What can be seen in a phase.
pub open spec fn can_see(phase: Phase, seen: Observation) -> bool {
    match phase {
        Phase::Idle => seen == Observation::StopRequested || seen is Heard,
        Phase::Draining => seen == Observation::WindowOver || seen is Heard,
        Phase::Stopped => false,
        _ => seen == Observation::PassMade,
    }
}

/// The phase after `phase`, given what was seen in it.
pub open spec fn phase_after(phase: Phase, seen: Observation) -> Phase {
    if !can_see(phase, seen) {
        phase
    } else {
        match (phase, seen) {
            (Phase::Idle, Observation::Heard(Reply::Event(_))) => Phase::Draining,
            (Phase::Idle, Observation::Heard(Reply::Quiet)) => Phase::Watchdog,
            (Phase::Idle, _) => Phase::Stopped,
            (Phase::Draining, Observation::Heard(Reply::Event(_))) => Phase::Draining,
            (Phase::Draining, _) => Phase::Settling,
            _ => Phase::Idle,
        }
    }
}

/// The phase after `phase`, given what was seen in it. A burst goes on while
/// events come; the loop ends on the stop flag or on a closed channel, and
/// both are looked at between passes only.
pub fn next_phase(phase: Phase, seen: Observation) -> (next: Phase)
    ensures
        next == phase_after(phase, seen),
{
    match (phase, seen) {
        (Phase::Idle, Observation::StopRequested) => Phase::Stopped,
        (Phase::Idle, Observation::Heard(Reply::Event(_))) => Phase::Draining,
        (Phase::Idle, Observation::Heard(Reply::Quiet)) => Phase::Watchdog,
        (Phase::Idle, Observation::Heard(Reply::Closed)) => Phase::Stopped,
        (Phase::Draining, Observation::Heard(Reply::Event(_))) => Phase::Draining,
        (Phase::Draining, Observation::Heard(_)) => Phase::Settling,
        (Phase::Draining, Observation::WindowOver) => Phase::Settling,
        (Phase::Startup, Observation::PassMade) => Phase::Idle,
        (Phase::Settling, Observation::PassMade) => Phase::Idle,
        (Phase::Watchdog, Observation::PassMade) => Phase::Idle,
        _ => phase,
    }
}

/// How long to go on swallowing a burst that began `elapsed` nanoseconds ago;
/// nothing once the time has run out.
pub open spec fn window_left(elapsed: u128) -> Option<u64> {
    if elapsed <= DEBOUNCE_NANOS {
        Some((DEBOUNCE_NANOS - elapsed) as u64)
    } else {
        None
    }
}

pub fn remaining_window(elapsed: u128) -> (left: Option<u64>)
    ensures
        left == window_left(elapsed),
{
    if elapsed <= DEBOUNCE_NANOS as u128 {
        Some(DEBOUNCE_NANOS - elapsed as u64)
    } else {
        None
    }
}

/// The event loop between two moves.
pub struct RunState {
    pub phase: Phase,
    /// When the current burst began: the time at which its first event came.
    /// Read in phase `Draining` only.
    pub opened: Instant,
}

/// Bringing one channel to its target makes these calls: its level is read;
/// the target is written, once, exactly if the level is not close enough.
pub open spec fn is_correction(
    policy: BalancePolicy,
    channel: u32,
    target: Level,
    calls: Seq<Call>,
    outcome: AudioResult<()>,
) -> bool {
    calls.len() > 0 && match calls[0] {
        Call::Read { channel: read, reply: Err(error) } => {
            &&& read == channel
            &&& calls.len() == 1
            &&& outcome == Err::<(), AudioError>(error)
        },
        Call::Read { channel: read, reply: Ok(current) } => {
            &&& read == channel
            &&& if is_within(current, target, policy.tolerance) {
                calls.len() == 1 && outcome == Ok::<(), AudioError>(())
            } else {
                calls.len() == 2 && calls[1] == (Call::Write { channel, level: target, reply: outcome })
            }
        },
        _ => false,
    }
}

/// A pass makes these calls: the channels are counted; without two of them
/// nothing more is done. Else the left channel is brought to its target, and
/// then, unless that failed, the right channel.
pub open spec fn is_pass(policy: BalancePolicy, calls: Seq<Call>, outcome: AudioResult<()>) -> bool {
    calls.len() > 0 && match calls[0] {
        Call::Count(Err(error)) => calls.len() == 1 && outcome == Err::<(), AudioError>(error),
        Call::Count(Ok(channels)) => if channels != 2 {
            calls.len() == 1 && outcome == Ok::<(), AudioError>(())
        } else {
            exists|left: Seq<Call>, so_far: AudioResult<()>| #[trigger]
                is_correction(policy, 0, policy.left, left, so_far) && match so_far {
                    Err(error) => calls == seq![calls[0]] + left && outcome == Err::<(), AudioError>(error),
                    Ok(_) => exists|right: Seq<Call>| #[trigger]
                        is_correction(policy, 1, policy.right, right, outcome) && calls == seq![calls[0]] + left + right,
                }
        },
        _ => false,
    }
}

/// Brings one channel to its target.
fn correct<C: AudioController>(device: &mut Watched<C>, policy: &BalancePolicy, channel: u32, target: Level) -> (outcome:
    AudioResult<()>)
    ensures
        exists|calls: Seq<Call>|
            final(device).adds(&*old(device), calls) && #[trigger] is_correction(
                *policy,
                channel,
                target,
                calls,
                outcome,
            ),
{
    let ghost start = *device;
    let level = device.get_channel(channel);
    let ghost read = seq![Call::Read { channel, reply: level }];
    match level {
        Err(error) => {
            let outcome: AudioResult<()> = Err(error);
            assert(is_correction(*policy, channel, target, read, outcome));
            outcome
        },
        Ok(current) => match policy.correction(current, target) {
            None => {
                assert(is_correction(*policy, channel, target, read, Ok(())));
                Ok(())
            },
            Some(wanted) => {
                let ghost between = *device;
                let outcome = device.set_channel(channel, wanted);
                proof {
                    let write = seq![Call::Write { channel, level: wanted, reply: outcome }];
                    lemma_adds_up(&start, read, &between, write, device);
                    assert(is_correction(*policy, channel, target, read + write, outcome));
                }
                outcome
            },
        },
    }
}

/// Makes one reconcile pass.
pub fn reconcile<C: AudioController>(device: &mut Watched<C>, policy: &BalancePolicy) -> (outcome: AudioResult<()>)
    ensures
        exists|calls: Seq<Call>|
            final(device).adds(&*old(device), calls) && #[trigger] is_pass(*policy, calls, outcome),
{
    let ghost start = *device;
    let count = device.channel_count();
    let ghost counted = *device;
    let ghost head = seq![Call::Count(count)];
    match count {
        Err(error) => {
            let outcome: AudioResult<()> = Err(error);
            assert(is_pass(*policy, head, outcome));
            outcome
        },
        Ok(channels) => {
            if channels != 2 {
                assert(is_pass(*policy, head, Ok(())));
                return Ok(());
            }
            let so_far = correct(device, policy, 0, policy.left);
            let ghost halfway = *device;
            let ghost left = choose|calls: Seq<Call>|
                halfway.adds(&counted, calls) && #[trigger] is_correction(*policy, 0, policy.left, calls, so_far);
            proof {
                lemma_adds_up(&start, head, &counted, left, &halfway);
            }
            match so_far {
                Err(error) => {
                    let outcome: AudioResult<()> = Err(error);
                    proof {
                        assert(is_correction(*policy, 0, policy.left, left, so_far));
                        assert(is_pass(*policy, head + left, outcome));
                    }
                    outcome
                },
                Ok(_) => {
                    let outcome = correct(device, policy, 1, policy.right);
                    proof {
                        let right = choose|calls: Seq<Call>|
                            device.adds(&halfway, calls) && #[trigger] is_correction(
                                *policy,
                                1,
                                policy.right,
                                calls,
                                outcome,
                            );
                        lemma_adds_up(&start, head + left, &halfway, right, device);
                        assert(is_pass(*policy, head + left + right, outcome));
                    }
                    outcome
                },
            }
        },
    }
}

/// The calls of a move in a phase in which a pass is due: the pass, and if it
/// failed, the report of its error.
pub open spec fn is_reported_pass(policy: BalancePolicy, phase: Phase, calls: Seq<Call>) -> bool {
    exists|pass: Seq<Call>, outcome: AudioResult<()>| #[trigger]
        is_pass(policy, pass, outcome) && calls == pass + report_of(phase, outcome)
}

/// What is reported of the outcome of a pass.
pub open spec fn report_of(phase: Phase, outcome: AudioResult<()>) -> Seq<Call> {
    match outcome {
        Err(failure) => seq![Call::Report { phase, failure }],
        Ok(_) => Seq::empty(),
    }
}

/// The event loop as it stands to the outside: the policy, the stop flag and
/// the events that it was given.
pub ghost struct Terms {
    pub policy: BalancePolicy,
    pub flag: AtomicBool,
    pub events: Receiver<AudioEvent>,
}

/// One move from `from` makes these calls and sees this, and afterwards the
/// current burst began at `opened`. Every wait of the idle loop comes after a
/// look of its own at the stop flag; a burst is swallowed for as long as is
/// left of its time; nothing but a pass calls the controller.
pub open spec fn is_seen_by(terms: Terms, from: RunState, calls: Seq<Call>, opened: Instant, seen: Observation) -> bool {
    match from.phase {
        Phase::Idle => match seen {
            Observation::StopRequested => {
                &&& calls == seq![Call::Look { flag: terms.flag, set: true }]
                &&& opened == from.opened
            },
            Observation::Heard(reply) => {
                let waited = seq![
                    Call::Look { flag: terms.flag, set: false },
                    Call::Wait { events: terms.events, nanos: QUIET_NANOS, reply },
                ];
                if reply is Event {
                    calls == waited.push(Call::Clock(opened))
                } else {
                    calls == waited && opened == from.opened
                }
            },
            _ => false,
        },
        Phase::Draining => {
            &&& opened == from.opened
            &&& calls.len() > 0
            &&& calls[0] matches Call::Elapsed { since, nanos } && since == opened && match (window_left(nanos), seen) {
                (Some(left), Observation::Heard(reply)) => calls == seq![
                    calls[0],
                    Call::Wait { events: terms.events, nanos: left, reply },
                ],
                (None, Observation::WindowOver) => calls.len() == 1,
                _ => false,
            }
        },
        Phase::Stopped => false,
        _ => {
            &&& seen == Observation::PassMade
            &&& opened == from.opened
            &&& is_reported_pass(terms.policy, from.phase, calls)
        },
    }
}

/// One move from `from` makes these calls and leads to `to`.
pub open spec fn is_move(terms: Terms, from: RunState, calls: Seq<Call>, to: RunState) -> bool {
    exists|seen: Observation| #[trigger]
        is_seen_by(terms, from, calls, to.opened, seen) && to.phase == phase_after(from.phase, seen)
}

/// Makes one move of the event loop. An ended loop makes no call.
pub fn advance<C: AudioController, F: Fn(Phase, &AudioError)>(
    device: &mut Watched<C>,
    operator: &Operator<F>,
    events: &Receiver<AudioEvent>,
    policy: &BalancePolicy,
    state: RunState,
) -> (next: RunState)
    ensures
        state.phase == Phase::Stopped ==> next == state && *final(device) == *old(device),
        state.phase != Phase::Stopped ==> exists|calls: Seq<Call>|
            final(device).adds(&*old(device), calls) && are_told(operator.reporter(), calls) && #[trigger] is_move(
                Terms { policy: *policy, flag: operator.flag(), events: *events },
                state,
                calls,
                next,
            ),
{
    let ghost terms = Terms { policy: *policy, flag: operator.flag(), events: *events };
    let ghost start = *device;
    match state.phase {
        Phase::Stopped => state,
        Phase::Idle => {
            let stop: bool = operator.asks_to_stop(device);
            let ghost look = seq![Call::Look { flag: operator.flag(), set: stop }];
            if stop {
                let seen = Observation::StopRequested;
                let next = RunState { phase: next_phase(state.phase, seen), opened: state.opened };
                assert(is_seen_by(terms, state, look, next.opened, seen));
                assert(is_move(terms, state, look, next));
                return next;
            }
            let ghost looked = *device;
            let reply = device.wait(events, QUIET_NANOS);
            let ghost wait = seq![Call::Wait { events: *events, nanos: QUIET_NANOS, reply }];
            let ghost waited = *device;
            proof {
                lemma_adds_up(&start, look, &looked, wait, &waited);
            }
            let seen = Observation::Heard(reply);
            let phase = next_phase(state.phase, seen);
            if let Phase::Draining = phase {
                let opened = device.clock();
                let next = RunState { phase, opened };
                proof {
                    let clock = seq![Call::Clock(opened)];
                    lemma_adds_up(&start, look + wait, &waited, clock, device);
                    assert(look + wait + clock =~= seq![look[0], wait[0]].push(clock[0]));
                    assert(is_seen_by(terms, state, look + wait + clock, next.opened, seen));
                    assert(is_move(terms, state, look + wait + clock, next));
                }
                next
            } else {
                let next = RunState { phase, opened: state.opened };
                assert(look + wait =~= seq![look[0], wait[0]]);
                assert(is_seen_by(terms, state, look + wait, next.opened, seen));
                assert(is_move(terms, state, look + wait, next));
                next
            }
        },
        Phase::Draining => {
            let elapsed: u128 = device.elapsed(&state.opened);
            let ghost clock = seq![Call::Elapsed { since: state.opened, nanos: elapsed }];
            let ghost timed = *device;
            match remaining_window(elapsed) {
                Some(left) => {
                    let reply = device.wait(events, left);
                    let seen = Observation::Heard(reply);
                    let next = RunState { phase: next_phase(state.phase, seen), opened: state.opened };
                    proof {
                        let wait = seq![Call::Wait { events: *events, nanos: left, reply }];
                        lemma_adds_up(&start, clock, &timed, wait, device);
                        assert(clock + wait =~= seq![clock[0], wait[0]]);
                        assert(is_seen_by(terms, state, clock + wait, next.opened, seen));
                        assert(is_move(terms, state, clock + wait, next));
                    }
                    next
                },
                None => {
                    let seen = Observation::WindowOver;
                    let next = RunState { phase: next_phase(state.phase, seen), opened: state.opened };
                    assert(is_seen_by(terms, state, clock, next.opened, seen));
                    assert(is_move(terms, state, clock, next));
                    next
                },
            }
        },
        _ => {
            let outcome = reconcile(device, policy);
            let ghost passed = *device;
            let ghost pass = choose|calls: Seq<Call>|
                passed.adds(&start, calls) && #[trigger] is_pass(*policy, calls, outcome);
            let ghost report = report_of(state.phase, outcome);
            let seen = Observation::PassMade;
            let next = RunState { phase: next_phase(state.phase, seen), opened: state.opened };
            if let Err(failure) = &outcome {
                operator.tell(device, state.phase, failure);
                proof {
                    lemma_adds_up(&start, pass, &passed, report, device);
                }
            } else {
                assert(pass + report =~= pass);
            }
            assert(is_pass(*policy, pass, outcome));
            proof {
                lemma_pass_calls(*policy, pass, outcome);
                lemma_told_add(operator.reporter(), pass, report);
            }
            assert(is_reported_pass(*policy, state.phase, pass + report));
            assert(is_seen_by(terms, state, pass + report, next.opened, seen));
            assert(is_move(terms, state, pass + report, next));
            next
        },
    }
}

/// The moves of the event loop between two moments: each leads from one state
/// to the next and makes the calls of its part.
pub open spec fn is_course(terms: Terms, states: Seq<RunState>, parts: Seq<Seq<Call>>) -> bool {
    &&& states.len() == parts.len() + 1
    &&& forall|i: int|
        0 <= i < parts.len() ==> states[i].phase != Phase::Stopped && is_move(
            terms,
            states[i],
            #[trigger] parts[i],
            states[i + 1],
        )
}

/// A run on the events that subscribing gave: from the first pass on, the
/// calls are those of its moves, one after the other, up to the end.
pub open spec fn is_whole_course(terms: Terms, states: Seq<RunState>, parts: Seq<Seq<Call>>) -> bool {
    &&& is_course(terms, states, parts)
    &&& states[0].phase == Phase::Startup
    &&& states.last().phase == Phase::Stopped || parts.len() == MOST_MOVES
}

/// A run makes these calls: it subscribes, once and before all else; an error
/// of that is its error. Else it reads the clock and takes its course, which
/// no error of a pass ends.
pub open spec fn is_run(policy: BalancePolicy, flag: AtomicBool, calls: Seq<Call>, outcome: AudioResult<()>) -> bool {
    calls.len() > 0 && match calls[0] {
        Call::Subscribe(Err(error)) => calls.len() == 1 && outcome == Err::<(), AudioError>(error),
        Call::Subscribe(Ok(events)) => {
            &&& outcome == Ok::<(), AudioError>(())
            &&& exists|states: Seq<RunState>, parts: Seq<Seq<Call>>|
                #![trigger is_whole_course(Terms { policy, flag, events }, states, parts)]
                is_whole_course(Terms { policy, flag, events }, states, parts) && calls == seq![
                    calls[0],
                    Call::Clock(states[0].opened),
                ] + parts.flatten()
        },
        _ => false,
    }
}

/// Drives reconciliation until the stop flag is set or the event channel is
/// closed.
pub fn enforce<C: AudioController, F: Fn(Phase, &AudioError)>(
    device: &mut Watched<C>,
    operator: &Operator<F>,
    policy: &BalancePolicy,
) -> (outcome: AudioResult<()>)
    ensures
        exists|calls: Seq<Call>|
            final(device).adds(&*old(device), calls) && are_told(operator.reporter(), calls) && #[trigger] is_run(
                *policy,
                operator.flag(),
                calls,
                outcome,
            ),
{
    let ghost start = *device;
    let subscription = device.subscribe();
    let ghost subscribe = seq![Call::Subscribe(subscription)];
    let ghost subscribed = *device;
    let events = match subscription {
        Ok(events) => events,
        Err(error) => {
            let outcome: AudioResult<()> = Err(error);
            assert(is_run(*policy, operator.flag(), subscribe, outcome));
            return outcome;
        },
    };
    let opened = device.clock();
    let mut state = RunState { phase: Phase::Startup, opened };
    let mut moves: u128 = 0;
    let ghost terms = Terms { policy: *policy, flag: operator.flag(), events };
    let ghost head = subscribe + seq![Call::Clock(opened)];
    let ghost mut states = seq![state];
    let ghost mut parts = Seq::<Seq<Call>>::empty();
    proof {
        lemma_adds_up(&start, subscribe, &subscribed, seq![Call::Clock(opened)], device);
        assert(parts.flatten() =~= Seq::empty());
        assert(head + parts.flatten() =~= head);
    }
    while state.phase != Phase::Stopped && moves < MOST_MOVES
        invariant
            moves <= MOST_MOVES,
            parts.len() == moves,
            terms == (Terms { policy: *policy, flag: operator.flag(), events }),
            is_course(terms, states, parts),
            states[0].phase == Phase::Startup,
            states[0].opened == opened,
            states.last() == state,
            device.adds(&start, head + parts.flatten()),
            are_told(operator.reporter(), head + parts.flatten()),
        decreases MOST_MOVES - moves,
    {
        let ghost before = *device;
        let ghost from = state;
        state = advance(device, operator, &events, policy, state);
        moves = moves + 1;
        proof {
            let part = choose|calls: Seq<Call>|
                device.adds(&before, calls) && are_told(operator.reporter(), calls) && #[trigger] is_move(
                    terms,
                    from,
                    calls,
                    state,
                );
            lemma_told_add(operator.reporter(), head + parts.flatten(), part);
            lemma_adds_up(&start, head + parts.flatten(), &before, part, device);
            parts.lemma_flatten_push(part);
            assert(head + parts.flatten() + part =~= head + (parts.flatten() + part));
            lemma_course_push(terms, states, parts, part, state);
            states = states.push(state);
            parts = parts.push(part);
        }
    }
    proof {
        let calls = head + parts.flatten();
        assert(is_whole_course(terms, states, parts));
        assert(head =~= seq![calls[0], Call::Clock(states[0].opened)]);
        assert(is_run(*policy, operator.flag(), calls, Ok(())));
    }
    Ok(())
}

proof fn lemma_course_push(
    terms: Terms,
    states: Seq<RunState>,
    parts: Seq<Seq<Call>>,
    part: Seq<Call>,
    next: RunState,
)
    requires
        is_course(terms, states, parts),
        states.last().phase != Phase::Stopped,
        is_move(terms, states.last(), part, next),
    ensures
        is_course(terms, states.push(next), parts.push(part)),
{
    let longer = states.push(next);
    let more = parts.push(part);
    assert(longer.len() == more.len() + 1);
    assert forall|i: int| 0 <= i < more.len() implies longer[i].phase != Phase::Stopped && is_move(
        terms,
        longer[i],
        #[trigger] more[i],
        longer[i + 1],
    ) by {
        if i < parts.len() {
            assert(more[i] == parts[i]);
        }
    }
}

pub struct BalanceEnforcer<C: AudioController> {
    controller: C,
    policy: BalancePolicy,
    stop: Arc<AtomicBool>,
}

impl<C: AudioController> BalanceEnforcer<C> {
    pub closed spec fn controller(&self) -> C {
        self.controller
    }

    pub closed spec fn policy(&self) -> BalancePolicy {
        self.policy
    }

    pub closed spec fn stop(&self) -> Arc<AtomicBool> {
        self.stop
    }

    /// The stop flag is a flag that was made with this value.
    pub closed spec fn stop_begins_as(&self, set: bool) -> bool {
        call_ensures(AtomicBool::new, (set,), *self.stop)
    }

    pub fn new(controller: C, policy: BalancePolicy) -> (enforcer: Self)
        ensures
            enforcer.controller() == controller,
            enforcer.policy() == policy,
            enforcer.stop_begins_as(false),
    {
        BalanceEnforcer { controller, policy, stop: Arc::new(AtomicBool::new(false)) }
    }

    /// Returns a flag that, when set to true, causes `run` to exit at the next
    /// event.
    pub fn stop_flag(&self) -> (flag: Arc<AtomicBool>)
        ensures
            flag == self.stop(),
    {
        Arc::clone(&self.stop)
    }

    /// Consume the enforcer and return the inner controller.
    pub fn into_controller(self) -> (controller: C)
        ensures
            controller == self.controller(),
    {
        self.controller
    }

    /// Makes one reconcile pass, returning errors instead of looping: one call
    /// of `reconcile`, on a record of its own.
    pub fn reconcile_once(&self) -> (outcome: AudioResult<()>)
        ensures
            exists|calls: Seq<Call>|
                are_possible(self.controller(), calls) && #[trigger] is_pass(self.policy(), calls, outcome),
    {
        let mut device = Watched::new(&self.controller);
        let outcome = reconcile(&mut device, &self.policy);
        assert(is_pass(self.policy(), device.calls(), outcome)) by {
            assert(forall|calls: Seq<Call>| Seq::<Call>::empty() + calls =~= calls);
        }
        outcome
    }

    /// Block the current thread driving reconciliation until the stop flag is
    /// set or the event channel is closed: one call of `enforce`, on a record
    /// of its own.
    pub fn run(&self) -> (outcome: AudioResult<()>)
        ensures
            exists|calls: Seq<Call>|
                are_possible(self.controller(), calls) && #[trigger] is_run(
                    self.policy(),
                    *self.stop(),
                    calls,
                    outcome,
                ),
    {
        self.run_reporting(|_phase: Phase, _failure: &AudioError| {})
    }

    /// As `run`, handing each error of a pass to `report`, with the phase that
    /// asked for the pass.
    pub fn run_reporting<F: Fn(Phase, &AudioError)>(&self, report: F) -> (outcome: AudioResult<()>)
        requires
            forall|phase: Phase, failure: &AudioError| #[trigger] call_requires(report, (phase, failure)),
        ensures
            exists|calls: Seq<Call>|
                are_possible(self.controller(), calls) && are_told(report, calls) && #[trigger] is_run(
                    self.policy(),
                    *self.stop(),
                    calls,
                    outcome,
                ),
    {
        let mut device = Watched::new(&self.controller);
        let operator = Operator::new(&self.stop, report);
        let outcome = enforce(&mut device, &operator, &self.policy);
        assert(is_run(self.policy(), *self.stop(), device.calls(), outcome) && are_told(report, device.calls())) by {
            assert(forall|calls: Seq<Call>| Seq::<Call>::empty() + calls =~= calls);
        }
        outcome
    }
}

/// The times of the event loop: fifty milliseconds for a burst, five seconds
/// of silence before the device is checked anyway.
pub proof fn law_times_of_the_loop(elapsed: u128, left: Option<u64>)
    requires
        call_ensures(remaining_window, (elapsed,), left),
    ensures
        DEBOUNCE_NANOS == 50_000_000,
        QUIET_NANOS == 5_000_000_000,
        left is Some <==> elapsed <= 50_000_000,
        left matches Some(nanos) ==> nanos + elapsed == 50_000_000,
{
}

/// Where the loop goes from each phase. A phase in which a pass is due leads
/// back to waiting; an event opens a burst, which only the end of the events
/// or of its time closes; silence asks for a pass; the stop flag and a closed
/// channel end the loop, and only while it waits.
pub proof fn law_phases_follow(phase: Phase, seen: Observation, next: Phase)
    requires
        call_ensures(next_phase, (phase, seen), next),
    ensures
        phase is Stopped ==> next is Stopped,
        (phase is Startup || phase is Settling || phase is Watchdog) && seen is PassMade ==> next is Idle,
        phase is Idle && seen is StopRequested ==> next is Stopped,
        phase is Idle && seen == Observation::Heard(Reply::Closed) ==> next is Stopped,
        phase is Idle && seen == Observation::Heard(Reply::Quiet) ==> next is Watchdog,
        phase is Idle ==> (seen matches Observation::Heard(Reply::Event(_)) ==> next is Draining),
        phase is Draining ==> (seen matches Observation::Heard(Reply::Event(_)) ==> next is Draining),
        phase is Draining && (seen is WindowOver || seen == Observation::Heard(Reply::Quiet) || seen
            == Observation::Heard(Reply::Closed)) ==> next is Settling,
        next is Stopped && !(phase is Stopped) ==> phase is Idle,
{
}

/// `reconcile` adds exactly one pass to the record, and its outcome is that
/// of the pass.
pub proof fn law_reconcile_makes_one_pass<C: AudioController>(policy: BalancePolicy)
    ensures
        forall|device: &mut Watched<C>, outcome: AudioResult<()>| #[trigger]
            call_ensures(reconcile::<C>, (device, &policy), outcome) ==> exists|calls: Seq<Call>|
                final(device).controller() == device.controller() && final(device).calls() == device.calls() + calls
                    && are_possible(device.controller(), calls) && #[trigger] is_pass(policy, calls, outcome),
{
    assert forall|device: &mut Watched<C>, outcome: AudioResult<()>| #[trigger]
        call_ensures(reconcile::<C>, (device, &policy), outcome) implies exists|calls: Seq<Call>|
        final(device).controller() == device.controller() && final(device).calls() == device.calls() + calls
            && are_possible(device.controller(), calls) && #[trigger] is_pass(policy, calls, outcome) by {
        let calls = choose|calls: Seq<Call>|
            final(device).adds(&*device, calls) && #[trigger] is_pass(policy, calls, outcome);
        assert(is_pass(policy, calls, outcome));
    }
}

/// `enforce` adds exactly one run to the record, and its outcome is that of
/// the run.
pub proof fn law_enforce_makes_one_run<C: AudioController, F: Fn(Phase, &AudioError)>(
    operator: Operator<F>,
    policy: BalancePolicy,
)
    ensures
        forall|device: &mut Watched<C>, outcome: AudioResult<()>| #[trigger]
            call_ensures(enforce::<C, F>, (device, &operator, &policy), outcome) ==> exists|calls: Seq<Call>|
                final(device).controller() == device.controller() && final(device).calls() == device.calls() + calls
                    && are_possible(device.controller(), calls) && are_told(operator.reporter(), calls)
                    && #[trigger] is_run(policy, operator.flag(), calls, outcome),
{
    assert forall|device: &mut Watched<C>, outcome: AudioResult<()>| #[trigger]
        call_ensures(enforce::<C, F>, (device, &operator, &policy), outcome) implies exists|calls: Seq<Call>|
        final(device).controller() == device.controller() && final(device).calls() == device.calls() + calls
            && are_possible(device.controller(), calls) && are_told(operator.reporter(), calls) && #[trigger] is_run(
            policy,
            operator.flag(),
            calls,
            outcome,
        ) by {
        let calls = choose|calls: Seq<Call>|
            final(device).adds(&*device, calls) && are_told(operator.reporter(), calls) && #[trigger] is_run(
                policy,
                operator.flag(),
                calls,
                outcome,
            );
        assert(is_run(policy, operator.flag(), calls, outcome));
    }
}

/// `advance` adds the calls of one move to the record; an ended loop adds
/// none and stays ended.
pub proof fn law_advance_makes_one_move<C: AudioController, F: Fn(Phase, &AudioError)>(
    operator: Operator<F>,
    events: Receiver<AudioEvent>,
    policy: BalancePolicy,
    state: RunState,
)
    ensures
        forall|device: &mut Watched<C>, next: RunState| #[trigger]
            call_ensures(advance::<C, F>, (device, &operator, &events, &policy, state), next) ==> {
                &&& state.phase is Stopped ==> next.phase is Stopped && final(device).calls() == device.calls()
                &&& !(state.phase is Stopped) ==> exists|calls: Seq<Call>|
                    final(device).controller() == device.controller() && final(device).calls() == device.calls() + calls
                        && are_possible(device.controller(), calls) && are_told(operator.reporter(), calls)
                        && #[trigger] is_move(Terms { policy, flag: operator.flag(), events }, state, calls, next)
            },
{
    assert forall|device: &mut Watched<C>, next: RunState| #[trigger]
        call_ensures(advance::<C, F>, (device, &operator, &events, &policy, state), next) && !(state.phase is Stopped) implies exists|
        calls: Seq<Call>,
    |
        final(device).controller() == device.controller() && final(device).calls() == device.calls() + calls
            && are_possible(device.controller(), calls) && are_told(operator.reporter(), calls) && #[trigger] is_move(
            Terms { policy, flag: operator.flag(), events },
            state,
            calls,
            next,
        ) by {
        let terms = Terms { policy, flag: operator.flag(), events };
        let calls = choose|calls: Seq<Call>|
            final(device).adds(&*device, calls) && are_told(operator.reporter(), calls) && #[trigger] is_move(
                terms,
                state,
                calls,
                next,
            );
        assert(is_move(terms, state, calls, next));
    }
}

/// The outcome of a pass follows from the replies of the controller: the error
/// of counting; success without two channels; else the first error of the left
/// channel and then of the right one, where only a drifted channel is written.
pub proof fn law_outcome_follows_from_the_replies<C: AudioController>(
    enforcer: BalanceEnforcer<C>,
    outcome: AudioResult<()>,
    count: AudioResult<u32>,
    left: AudioResult<Level>,
    right: AudioResult<Level>,
    left_write: AudioResult<()>,
    right_write: AudioResult<()>,
)
    requires
        call_ensures(BalanceEnforcer::<C>::reconcile_once, (&enforcer,), outcome),
        forall|reply: AudioResult<u32>| #[trigger]
            call_ensures(C::channel_count, (&enforcer.controller(),), reply) ==> reply == count,
        forall|reply: AudioResult<Level>| #[trigger]
            call_ensures(C::get_channel, (&enforcer.controller(), 0u32), reply) ==> reply == left,
        forall|reply: AudioResult<Level>| #[trigger]
            call_ensures(C::get_channel, (&enforcer.controller(), 1u32), reply) ==> reply == right,
        forall|reply: AudioResult<()>| #[trigger]
            call_ensures(C::set_channel, (&enforcer.controller(), 0u32, enforcer.policy().left), reply) ==> reply
                == left_write,
        forall|reply: AudioResult<()>| #[trigger]
            call_ensures(C::set_channel, (&enforcer.controller(), 1u32, enforcer.policy().right), reply) ==> reply
                == right_write,
    ensures
        count matches Err(error) ==> outcome == Err::<(), AudioError>(error),
        count matches Ok(channels) ==> (channels != 2 ==> outcome is Ok),
        count == Ok::<u32, AudioError>(2) ==> {
            &&& left matches Err(error) ==> outcome == Err::<(), AudioError>(error)
            &&& left matches Ok(current) ==> {
                &&& !is_within(current, enforcer.policy().left, enforcer.policy().tolerance) && left_write is Err
                    ==> outcome == left_write
                &&& is_within(current, enforcer.policy().left, enforcer.policy().tolerance) || left_write is Ok ==> {
                    &&& right matches Err(error) ==> outcome == Err::<(), AudioError>(error)
                    &&& right matches Ok(level) ==> {
                        &&& is_within(level, enforcer.policy().right, enforcer.policy().tolerance) ==> outcome is Ok
                        &&& !is_within(level, enforcer.policy().right, enforcer.policy().tolerance) ==> outcome
                            == right_write
                    }
                }
            }
        },
{
    let policy = enforcer.policy();
    let controller = enforcer.controller();
    let calls = choose|calls: Seq<Call>| are_possible(controller, calls) && #[trigger] is_pass(policy, calls, outcome);
    law_record_is_true(controller, calls, 0);
    if count == Ok::<u32, AudioError>(2) {
        let (first, so_far, second) = lemma_pass_parts(policy, calls, outcome);
        assert(calls[1] == first[0]);
        law_record_is_true(controller, calls, 1);
        if first.len() == 2 {
            assert(calls[2] == first[1]);
            law_record_is_true(controller, calls, 2);
        }
        if so_far is Ok {
            let n = first.len() + 1int;
            assert(calls[n] == second[0]);
            law_record_is_true(controller, calls, n);
            if second.len() == 2 {
                assert(calls[n + 1] == second[1]);
                law_record_is_true(controller, calls, n + 1);
            }
        }
    }
}

/// A run fails exactly as subscribing does: its error is one that subscribing
/// gave, and after a subscription it does not fail.
pub proof fn law_run_fails_only_to_subscribe<C: AudioController>(
    enforcer: BalanceEnforcer<C>,
    outcome: AudioResult<()>,
)
    requires
        call_ensures(BalanceEnforcer::<C>::run, (&enforcer,), outcome),
    ensures
        outcome matches Err(error) ==> call_ensures(C::subscribe, (&enforcer.controller(),), Err(error)),
        outcome is Ok ==> exists|events: Receiver<AudioEvent>| #[trigger]
            call_ensures(C::subscribe, (&enforcer.controller(),), Ok::<Receiver<AudioEvent>, AudioError>(events)),
{
    let calls = choose|calls: Seq<Call>|
        are_possible(enforcer.controller(), calls) && #[trigger] is_run(
            enforcer.policy(),
            *enforcer.stop(),
            calls,
            outcome,
        );
    law_record_is_true(enforcer.controller(), calls, 0);
    if let Call::Subscribe(Ok(events)) = calls[0] {
        assert(call_ensures(
            C::subscribe,
            (&enforcer.controller(),),
            Ok::<Receiver<AudioEvent>, AudioError>(events),
        ));
    }
}

/// An enforcer keeps the controller and the policy that it was made with, its
/// stop flag begins unset, and every holder of the flag holds the same one.
pub proof fn law_enforcer_keeps_what_it_was_given<C: AudioController>(
    controller: C,
    policy: BalancePolicy,
    enforcer: BalanceEnforcer<C>,
    again: C,
    one: Arc<AtomicBool>,
    other: Arc<AtomicBool>,
)
    requires
        call_ensures(BalanceEnforcer::<C>::new, (controller, policy), enforcer),
        call_ensures(BalanceEnforcer::<C>::into_controller, (enforcer,), again),
        call_ensures(BalanceEnforcer::<C>::stop_flag, (&enforcer,), one),
        call_ensures(BalanceEnforcer::<C>::stop_flag, (&enforcer,), other),
    ensures
        again == controller,
        enforcer.policy() == policy,
        one == other,
        call_ensures(AtomicBool::new, (false,), *one),
{
}

/// A run is a run of the enforcer's own policy, with its own stop flag, and
/// every failed pass of it reaches the function that is told.
pub proof fn law_run_follows_the_policy<C: AudioController, F: Fn(Phase, &AudioError)>(
    enforcer: BalanceEnforcer<C>,
    report: F,
    quiet: AudioResult<()>,
    told: AudioResult<()>,
)
    requires
        call_ensures(BalanceEnforcer::<C>::run, (&enforcer,), quiet),
        call_ensures(BalanceEnforcer::<C>::run_reporting::<F>, (&enforcer, report), told),
    ensures
        exists|calls: Seq<Call>|
            are_possible(enforcer.controller(), calls) && #[trigger] is_run(
                enforcer.policy(),
                *enforcer.stop(),
                calls,
                quiet,
            ),
        exists|calls: Seq<Call>|
            are_possible(enforcer.controller(), calls) && are_told(report, calls) && #[trigger] is_run(
                enforcer.policy(),
                *enforcer.stop(),
                calls,
                told,
            ),
{
}

} // verus!
