//! Calls on record.
//!
//! What the enforcer does to the world it does through this module: it calls
//! the controller, waits for events, reads the clock, looks at the stop flag
//! and reports failures. `Watched` keeps a ghost record of those calls, in
//! order, each with its reply. Code outside this module cannot get at the
//! controller behind a `Watched`, nor at the flag behind an `Operator`, so
//! that what the record holds is all that was done.

use crate::audio::{AudioController, AudioError, AudioEvent, AudioResult};
use crate::enforcer::{Phase, Reply};
use crate::level::Level;
use crossbeam_channel::{Receiver, RecvTimeoutError};
use std::sync::atomic::{AtomicBool, Ordering};
use std::time::{Duration, Instant};
use vstd::prelude::*;

verus! {

/// A point in time of the monotonic clock, `std::time::Instant`. Nothing is
/// assumed of it.
#[verifier::external_type_specification]
#[verifier::external_body]
pub struct ExInstant(std::time::Instant);

/// Calls `std::time::Instant::now`. Nothing is assumed of the result, which
/// depends on the clock.
#[verifier::external_body]
fn now() -> Instant {
    Instant::now()
}

/// Calls `std::time::Instant::elapsed` and counts in nanoseconds. Nothing is
/// assumed of the result, which depends on the clock.
#[verifier::external_body]
fn nanos_since(opened: &Instant) -> u128 {
    opened.elapsed().as_nanos()
}

/// Calls `crossbeam_channel::Receiver::recv_timeout`, waiting at most `nanos`
/// nanoseconds. Nothing is assumed of the result, which depends on the senders
/// and on the clock.
#[verifier::external_body]
fn receive(events: &Receiver<AudioEvent>, nanos: u64) -> Reply {
    match events.recv_timeout(Duration::from_nanos(nanos)) {
        Ok(event) => Reply::Event(event),
        Err(RecvTimeoutError::Timeout) => Reply::Quiet,
        Err(RecvTimeoutError::Disconnected) => Reply::Closed,
    }
}

/// `reply` is what a wait of at most `nanos` nanoseconds on `events` can give.
pub closed spec fn can_reply(events: Receiver<AudioEvent>, nanos: u64, reply: Reply) -> bool {
    call_ensures(receive, (&events, nanos), reply)
}

/// `nanos` is what the clock can give for the nanoseconds since `opened`.
pub closed spec fn can_elapse(opened: Instant, nanos: u128) -> bool {
    call_ensures(nanos_since, (&opened,), nanos)
}

/// `at` is what the clock can give for the current time.
pub closed spec fn can_be_now(at: Instant) -> bool {
    call_ensures(now, (), at)
}

/// A call that was made, with its reply.
pub ghost enum Call {
    /// The controller's `subscribe`.
    Subscribe(AudioResult<Receiver<AudioEvent>>),
    /// The controller's `channel_count`.
    Count(AudioResult<u32>),
    /// The controller's `get_channel`.
    Read { channel: u32, reply: AudioResult<Level> },
    /// The controller's `set_channel`.
    Write { channel: u32, level: Level, reply: AudioResult<()> },
    /// A look at the stop flag.
    Look { flag: AtomicBool, set: bool },
    /// A wait for an event.
    Wait { events: Receiver<AudioEvent>, nanos: u64, reply: Reply },
    /// Reading the clock.
    Clock(Instant),
    /// Reading the clock for the time since a moment.
    Elapsed { since: Instant, nanos: u128 },
    /// Handing on the error of a pass.
    Report { phase: Phase, failure: AudioError },
}

/// The call can have had its reply, with this controller.
pub open spec fn is_possible<C: AudioController>(controller: C, call: Call) -> bool {
    match call {
        Call::Subscribe(reply) => call_ensures(C::subscribe, (&controller,), reply),
        Call::Count(reply) => call_ensures(C::channel_count, (&controller,), reply),
        Call::Read { channel, reply } => call_ensures(C::get_channel, (&controller, channel), reply),
        Call::Write { channel, level, reply } => call_ensures(C::set_channel, (&controller, channel, level), reply),
        Call::Look { flag, set } => call_ensures(AtomicBool::load, (&flag, Ordering::Relaxed), set),
        Call::Wait { events, nanos, reply } => can_reply(events, nanos, reply),
        Call::Clock(at) => can_be_now(at),
        Call::Elapsed { since, nanos } => can_elapse(since, nanos),
        Call::Report { .. } => true,
    }
}

/// Every one of the calls can have had its reply, with this controller.
pub open spec fn are_possible<C: AudioController>(controller: C, calls: Seq<Call>) -> bool {
    forall|i: int| 0 <= i < calls.len() ==> is_possible(controller, #[trigger] calls[i])
}

/// Every report among the calls was made by a call of `report`.
pub open spec fn are_told<F: Fn(Phase, &AudioError)>(report: F, calls: Seq<Call>) -> bool {
    forall|i: int|
        0 <= i < calls.len() ==> (#[trigger] calls[i] matches Call::Report { phase, failure } ==> call_ensures(
            report,
            (phase, &failure),
            (),
        ))
}

/// A controller, with a record of the calls made so far.
pub struct Watched<'a, C: AudioController> {
    controller: &'a C,
    calls: Ghost<Seq<Call>>,
}

impl<'a, C: AudioController> Watched<'a, C> {
    pub closed spec fn controller(&self) -> C {
        *self.controller
    }

    /// The calls made so far, in order.
    pub closed spec fn calls(&self) -> Seq<Call> {
        self.calls@
    }

    /// Since it was `before`, exactly these calls have been made.
    pub open spec fn adds(&self, before: &Self, calls: Seq<Call>) -> bool {
        &&& self.controller() == before.controller()
        &&& self.calls() == before.calls() + calls
        &&& are_possible(self.controller(), calls)
    }

    /// Begins a record.
    pub fn new(controller: &'a C) -> (device: Self)
        ensures
            device.controller() == *controller,
            device.calls() == Seq::<Call>::empty(),
    {
        Watched { controller, calls: Ghost(Seq::empty()) }
    }

    /// Calls the controller's `subscribe`.
    pub fn subscribe(&mut self) -> (reply: AudioResult<Receiver<AudioEvent>>)
        ensures
            final(self).adds(&*old(self), seq![Call::Subscribe(reply)]),
    {
        let reply = self.controller.subscribe();
        self.calls = Ghost(self.calls@ + seq![Call::Subscribe(reply)]);
        reply
    }

    /// Calls the controller's `channel_count`.
    pub fn channel_count(&mut self) -> (reply: AudioResult<u32>)
        ensures
            final(self).adds(&*old(self), seq![Call::Count(reply)]),
    {
        let reply = self.controller.channel_count();
        self.calls = Ghost(self.calls@ + seq![Call::Count(reply)]);
        reply
    }

    /// Calls the controller's `get_channel`.
    pub fn get_channel(&mut self, channel: u32) -> (reply: AudioResult<Level>)
        ensures
            final(self).adds(&*old(self), seq![Call::Read { channel, reply }]),
    {
        let reply = self.controller.get_channel(channel);
        self.calls = Ghost(self.calls@ + seq![Call::Read { channel, reply }]);
        reply
    }

    /// Calls the controller's `set_channel`.
    pub fn set_channel(&mut self, channel: u32, level: Level) -> (reply: AudioResult<()>)
        ensures
            final(self).adds(&*old(self), seq![Call::Write { channel, level, reply }]),
    {
        let reply = self.controller.set_channel(channel, level);
        self.calls = Ghost(self.calls@ + seq![Call::Write { channel, level, reply }]);
        reply
    }

    /// Waits for an event for at most `nanos` nanoseconds.
    pub fn wait(&mut self, events: &Receiver<AudioEvent>, nanos: u64) -> (reply: Reply)
        ensures
            final(self).adds(&*old(self), seq![Call::Wait { events: *events, nanos, reply }]),
    {
        let reply = receive(events, nanos);
        self.calls = Ghost(self.calls@ + seq![Call::Wait { events: *events, nanos, reply }]);
        reply
    }

    /// Reads the clock.
    pub fn clock(&mut self) -> (at: Instant)
        ensures
            final(self).adds(&*old(self), seq![Call::Clock(at)]),
    {
        let at = now();
        self.calls = Ghost(self.calls@ + seq![Call::Clock(at)]);
        at
    }

    /// Reads how many nanoseconds have gone by since a moment.
    pub fn elapsed(&mut self, since: &Instant) -> (nanos: u128)
        ensures
            final(self).adds(&*old(self), seq![Call::Elapsed { since: *since, nanos }]),
    {
        let nanos: u128 = nanos_since(since);
        self.calls = Ghost(self.calls@ + seq![Call::Elapsed { since: *since, nanos }]);
        nanos
    }
}

/// Who may ask the event loop to stop and is told of failed passes.
pub struct Operator<'a, F: Fn(Phase, &AudioError)> {
    stop: &'a AtomicBool,
    report: F,
}

impl<'a, F: Fn(Phase, &AudioError)> Operator<'a, F> {
    #[verifier::type_invariant]
    spec fn can_be_told(self) -> bool {
        forall|phase: Phase, failure: &AudioError| #[trigger] call_requires(self.report, (phase, failure))
    }

    /// The stop flag.
    pub closed spec fn flag(&self) -> AtomicBool {
        *self.stop
    }

    /// The function that is told.
    pub closed spec fn reporter(&self) -> F {
        self.report
    }

    pub fn new(stop: &'a AtomicBool, report: F) -> (operator: Self)
        requires
            forall|phase: Phase, failure: &AudioError| #[trigger] call_requires(report, (phase, failure)),
        ensures
            operator.flag() == *stop,
            operator.reporter() == report,
    {
        Operator { stop, report }
    }

    /// Looks at the stop flag, on the record of `device`.
    pub fn asks_to_stop<C: AudioController>(&self, device: &mut Watched<C>) -> (set: bool)
        ensures
            final(device).adds(&*old(device), seq![Call::Look { flag: self.flag(), set }]),
    {
        let set: bool = self.stop.load(Ordering::Relaxed);
        device.calls = Ghost(device.calls@ + seq![Call::Look { flag: *self.stop, set }]);
        set
    }

    /// Hands the error of a pass that was made in `phase` to the function that
    /// is told, on the record of `device`.
    pub fn tell<C: AudioController>(&self, device: &mut Watched<C>, phase: Phase, failure: &AudioError)
        ensures
            final(device).adds(&*old(device), seq![Call::Report { phase, failure: *failure }]),
            call_ensures(self.reporter(), (phase, failure), ()),
    {
        proof {
            use_type_invariant(self);
        }
        (self.report)(phase, failure);
        device.calls = Ghost(device.calls@ + seq![Call::Report { phase, failure: *failure }]);
    }
}

/// Records add up: what was added in two goes was added in one.
pub proof fn lemma_adds_up<C: AudioController>(
    first: &Watched<C>,
    a: Seq<Call>,
    second: &Watched<C>,
    b: Seq<Call>,
    third: &Watched<C>,
)
    requires
        second.adds(first, a),
        third.adds(second, b),
    ensures
        third.adds(first, a + b),
{
    assert(first.calls() + a + b =~= first.calls() + (a + b));
    assert forall|i: int| 0 <= i < (a + b).len() implies is_possible(third.controller(), #[trigger] (a + b)[i]) by {
        if i < a.len() {
            assert(is_possible(second.controller(), a[i]));
        } else {
            assert(is_possible(third.controller(), b[i - a.len()]));
        }
    }
}

pub proof fn lemma_told_add<F: Fn(Phase, &AudioError)>(report: F, a: Seq<Call>, b: Seq<Call>)
    requires
        are_told(report, a),
        are_told(report, b),
    ensures
        are_told(report, a + b),
{
    assert forall|i: int| 0 <= i < (a + b).len() implies (#[trigger] (a + b)[i] matches Call::Report {
        phase,
        failure,
    } ==> call_ensures(report, (phase, &failure), ())) by {
        if i < a.len() {
            assert((a + b)[i] == a[i]);
        } else {
            assert((a + b)[i] == b[i - a.len()]);
        }
    }
}

/// What the record says of the controller is what the controller was asked,
/// with the very channel and level, and what it replied.
pub proof fn law_record_is_true<C: AudioController>(controller: C, calls: Seq<Call>, at: int)
    requires
        are_possible(controller, calls),
        0 <= at < calls.len(),
    ensures
        calls[at] matches Call::Subscribe(reply) ==> call_ensures(C::subscribe, (&controller,), reply),
        calls[at] matches Call::Count(reply) ==> call_ensures(C::channel_count, (&controller,), reply),
        calls[at] matches Call::Read { channel, reply } ==> call_ensures(
            C::get_channel,
            (&controller, channel),
            reply,
        ),
        calls[at] matches Call::Write { channel, level, reply } ==> call_ensures(
            C::set_channel,
            (&controller, channel, level),
            reply,
        ),
        calls[at] matches Call::Look { flag, set } ==> call_ensures(
            AtomicBool::load,
            (&flag, Ordering::Relaxed),
            set,
        ),
{
    assert(is_possible(controller, calls[at]));
}

/// A record begins empty.
pub proof fn law_record_begins_empty<C: AudioController>(controller: C, device: Watched<C>)
    requires
        call_ensures(Watched::<C>::new, (&controller,), device),
    ensures
        device.controller() == controller,
        device.calls().len() == 0,
{
}

/// Each call of the controller goes on record once, with its arguments and its
/// reply, behind what was there; and the controller gave that reply to those
/// arguments.
pub proof fn law_calls_go_on_record<C: AudioController>(channel: u32, level: Level)
    ensures
        forall|device: &mut Watched<C>, reply: AudioResult<u32>| #[trigger]
            call_ensures(Watched::<C>::channel_count, (device,), reply) ==> {
                &&& final(device).calls() == device.calls().push(Call::Count(reply))
                &&& final(device).controller() == device.controller()
                &&& call_ensures(C::channel_count, (&device.controller(),), reply)
            },
        forall|device: &mut Watched<C>, reply: AudioResult<Level>| #[trigger]
            call_ensures(Watched::<C>::get_channel, (device, channel), reply) ==> {
                &&& final(device).calls() == device.calls().push(Call::Read { channel, reply })
                &&& final(device).controller() == device.controller()
                &&& call_ensures(C::get_channel, (&device.controller(), channel), reply)
            },
        forall|device: &mut Watched<C>, reply: AudioResult<()>| #[trigger]
            call_ensures(Watched::<C>::set_channel, (device, channel, level), reply) ==> {
                &&& final(device).calls() == device.calls().push(Call::Write { channel, level, reply })
                &&& final(device).controller() == device.controller()
                &&& call_ensures(C::set_channel, (&device.controller(), channel, level), reply)
            },
        forall|device: &mut Watched<C>, reply: AudioResult<Receiver<AudioEvent>>| #[trigger]
            call_ensures(Watched::<C>::subscribe, (device,), reply) ==> {
                &&& final(device).calls() == device.calls().push(Call::Subscribe(reply))
                &&& final(device).controller() == device.controller()
                &&& call_ensures(C::subscribe, (&device.controller(),), reply)
            },
{
    assert forall|device: &mut Watched<C>, reply: AudioResult<u32>| #[trigger]
        call_ensures(Watched::<C>::channel_count, (device,), reply) implies {
        &&& final(device).calls() == device.calls().push(Call::Count(reply))
        &&& final(device).controller() == device.controller()
        &&& call_ensures(C::channel_count, (&device.controller(),), reply)
    } by {
        assert(is_possible(device.controller(), seq![Call::Count(reply)][0]));
        assert(device.calls() + seq![Call::Count(reply)] =~= device.calls().push(Call::Count(reply)));
    }
    assert forall|device: &mut Watched<C>, reply: AudioResult<Level>| #[trigger]
        call_ensures(Watched::<C>::get_channel, (device, channel), reply) implies {
        &&& final(device).calls() == device.calls().push(Call::Read { channel, reply })
        &&& final(device).controller() == device.controller()
        &&& call_ensures(C::get_channel, (&device.controller(), channel), reply)
    } by {
        let call = Call::Read { channel, reply };
        assert(is_possible(device.controller(), seq![call][0]));
        assert(device.calls() + seq![call] =~= device.calls().push(call));
    }
    assert forall|device: &mut Watched<C>, reply: AudioResult<()>| #[trigger]
        call_ensures(Watched::<C>::set_channel, (device, channel, level), reply) implies {
        &&& final(device).calls() == device.calls().push(Call::Write { channel, level, reply })
        &&& final(device).controller() == device.controller()
        &&& call_ensures(C::set_channel, (&device.controller(), channel, level), reply)
    } by {
        let call = Call::Write { channel, level, reply };
        assert(is_possible(device.controller(), seq![call][0]));
        assert(device.calls() + seq![call] =~= device.calls().push(call));
    }
    assert forall|device: &mut Watched<C>, reply: AudioResult<Receiver<AudioEvent>>| #[trigger]
        call_ensures(Watched::<C>::subscribe, (device,), reply) implies {
        &&& final(device).calls() == device.calls().push(Call::Subscribe(reply))
        &&& final(device).controller() == device.controller()
        &&& call_ensures(C::subscribe, (&device.controller(),), reply)
    } by {
        let call = Call::Subscribe(reply);
        assert(is_possible(device.controller(), seq![call][0]));
        assert(device.calls() + seq![call] =~= device.calls().push(call));
    }
}

/// A wait goes on record with the channel that it was on and the time that it
/// was given, and so does each reading of the clock.
pub proof fn law_waits_go_on_record<C: AudioController>(events: Receiver<AudioEvent>, nanos: u64, moment: Instant)
    ensures
        forall|device: &mut Watched<C>, reply: Reply| #[trigger]
            call_ensures(Watched::<C>::wait, (device, &events, nanos), reply) ==> final(device).calls()
                == device.calls().push(Call::Wait { events, nanos, reply }) && final(device).controller()
                == device.controller() && can_reply(events, nanos, reply),
        forall|device: &mut Watched<C>, at: Instant| #[trigger]
            call_ensures(Watched::<C>::clock, (device,), at) ==> final(device).calls() == device.calls().push(
                Call::Clock(at),
            ) && final(device).controller() == device.controller(),
        forall|device: &mut Watched<C>, gone: u128| #[trigger]
            call_ensures(Watched::<C>::elapsed, (device, &moment), gone) ==> final(device).calls()
                == device.calls().push(Call::Elapsed { since: moment, nanos: gone }) && final(device).controller()
                == device.controller(),
{
    assert forall|device: &mut Watched<C>, reply: Reply| #[trigger]
        call_ensures(Watched::<C>::wait, (device, &events, nanos), reply) implies final(device).calls()
        == device.calls().push(Call::Wait { events, nanos, reply }) && final(device).controller() == device.controller()
        && can_reply(events, nanos, reply) by {
        let call = Call::Wait { events, nanos, reply };
        assert(is_possible(device.controller(), seq![call][0]));
        assert(device.calls() + seq![call] =~= device.calls().push(call));
    }
    assert forall|device: &mut Watched<C>, at: Instant| #[trigger]
        call_ensures(Watched::<C>::clock, (device,), at) implies final(device).calls() == device.calls().push(
        Call::Clock(at),
    ) && final(device).controller() == device.controller() by {
        assert(device.calls() + seq![Call::Clock(at)] =~= device.calls().push(Call::Clock(at)));
    }
    assert forall|device: &mut Watched<C>, gone: u128| #[trigger]
        call_ensures(Watched::<C>::elapsed, (device, &moment), gone) implies final(device).calls()
        == device.calls().push(Call::Elapsed { since: moment, nanos: gone }) && final(device).controller()
        == device.controller() by {
        let call = Call::Elapsed { since: moment, nanos: gone };
        assert(device.calls() + seq![call] =~= device.calls().push(call));
    }
}

/// A look at the stop flag goes on record with the flag that it was of and
/// what it read; a report goes on record and reaches the function that is
/// told, with the phase and the error.
pub proof fn law_operator_is_asked_and_told<C: AudioController, F: Fn(Phase, &AudioError)>(
    stop: AtomicBool,
    report: F,
    operator: Operator<F>,
    phase: Phase,
    failure: AudioError,
)
    requires
        call_ensures(Operator::<F>::new, (&stop, report), operator),
    ensures
        forall|device: &mut Watched<C>, set: bool| #[trigger]
            call_ensures(Operator::<F>::asks_to_stop::<C>, (&operator, device), set) ==> final(device).calls()
                == device.calls().push(Call::Look { flag: stop, set }) && call_ensures(
                AtomicBool::load,
                (&stop, Ordering::Relaxed),
                set,
            ),
        forall|device: &mut Watched<C>| #[trigger]
            call_ensures(Operator::<F>::tell::<C>, (&operator, device, phase, &failure), ()) ==> final(device).calls()
                == device.calls().push(Call::Report { phase, failure }) && call_ensures(
                report,
                (phase, &failure),
                (),
            ),
{
    assert forall|device: &mut Watched<C>, set: bool| #[trigger]
        call_ensures(Operator::<F>::asks_to_stop::<C>, (&operator, device), set) implies final(device).calls()
        == device.calls().push(Call::Look { flag: stop, set }) && call_ensures(
        AtomicBool::load,
        (&stop, Ordering::Relaxed),
        set,
    ) by {
        let call = Call::Look { flag: stop, set };
        assert(is_possible(device.controller(), seq![call][0]));
        assert(device.calls() + seq![call] =~= device.calls().push(call));
    }
    assert forall|device: &mut Watched<C>| #[trigger]
        call_ensures(Operator::<F>::tell::<C>, (&operator, device, phase, &failure), ()) implies final(device).calls()
        == device.calls().push(Call::Report { phase, failure }) && call_ensures(report, (phase, &failure), ()) by {
        let call = Call::Report { phase, failure };
        assert(device.calls() + seq![call] =~= device.calls().push(call));
    }
}

} // verus!
