//! What holds of every pass and of every run, over the record of their calls.

use crate::audio::{AudioController, AudioError, AudioResult, BalancePolicy};
use crate::enforcer::{
    is_correction, is_course, is_move, is_pass, is_reported_pass, is_run, is_seen_by, is_whole_course, pass_is_due,
    phase_after, report_of, Observation, Phase, Reply, RunState, Terms, QUIET_NANOS,
};
use crate::level::{is_within, law_within_itself, Level};
use crate::watched::{are_possible, are_told, is_possible, Call};
use std::sync::atomic::AtomicBool;
use std::time::Instant;
use vstd::prelude::*;

verus! {

/// The writes among the calls, in order: the channel and the level.
pub open spec fn writes(calls: Seq<Call>) -> Seq<(u32, Level)>
    decreases calls.len(),
{
    if calls.len() == 0 {
        Seq::empty()
    } else {
        match calls.last() {
            Call::Write { channel, level, .. } => writes(calls.drop_last()).push((channel, level)),
            _ => writes(calls.drop_last()),
        }
    }
}

/// How many passes the calls hold: each pass counts the channels, once.
pub open spec fn passes(calls: Seq<Call>) -> nat
    decreases calls.len(),
{
    if calls.len() == 0 {
        0
    } else {
        passes(calls.drop_last()) + (if calls.last() is Count {
            1nat
        } else {
            0nat
        })
    }
}

/// The call is one of the controller's four.
pub open spec fn is_to_controller(call: Call) -> bool {
    call is Subscribe || call is Count || call is Read || call is Write
}

/// The call reads or writes this channel.
pub open spec fn touches(call: Call, channel: u32) -> bool {
    match call {
        Call::Read { channel: touched, .. } => touched == channel,
        Call::Write { channel: touched, .. } => touched == channel,
        _ => false,
    }
}

/// The error with which a call of a pass failed, if it did.
pub open spec fn error_of(call: Call) -> Option<AudioError> {
    match call {
        Call::Count(Err(error)) => Some(error),
        Call::Read { reply: Err(error), .. } => Some(error),
        Call::Write { reply: Err(error), .. } => Some(error),
        _ => None,
    }
}

/// The writes that a device at these levels, left and right, is due.
pub open spec fn due_writes(policy: BalancePolicy, levels: (Level, Level)) -> Seq<(u32, Level)> {
    due_write(policy, 0, levels.0, policy.left) + due_write(policy, 1, levels.1, policy.right)
}

/// The write that a channel at this level is due: its target, if it has
/// drifted.
pub open spec fn due_write(policy: BalancePolicy, channel: u32, current: Level, target: Level) -> Seq<(u32, Level)> {
    if is_within(current, target, policy.tolerance) {
        Seq::empty()
    } else {
        seq![(channel, target)]
    }
}

/// The level of a channel, 0 for left and 1 for right.
pub open spec fn level_of(levels: (Level, Level), channel: u32) -> Level {
    if channel == 0 {
        levels.0
    } else {
        levels.1
    }
}

/// The levels once a channel is at `level`.
pub open spec fn with_level(levels: (Level, Level), channel: u32, level: Level) -> (Level, Level) {
    if channel == 0 {
        (level, levels.1)
    } else {
        (levels.0, level)
    }
}

/// The levels of a stereo device after the calls, if only they change it: a
/// write that succeeds sets its channel.
pub open spec fn levels_after(levels: (Level, Level), calls: Seq<Call>) -> (Level, Level)
    decreases calls.len(),
{
    if calls.len() == 0 {
        levels
    } else {
        match calls.last() {
            Call::Write { channel, level, reply: Ok(_) } => with_level(
                levels_after(levels, calls.drop_last()),
                channel,
                level,
            ),
            _ => levels_after(levels, calls.drop_last()),
        }
    }
}

/// Reading a channel gives the level last set on it, of a device that began at
/// `levels`.
pub open spec fn remembers(levels: (Level, Level), calls: Seq<Call>) -> bool
    decreases calls.len(),
{
    calls.len() > 0 ==> remembers(levels, calls.drop_last()) && match calls.last() {
        Call::Read { channel, reply } => reply == Ok::<Level, AudioError>(
            level_of(levels_after(levels, calls.drop_last()), channel),
        ),
        _ => true,
    }
}

/// Every count is two and every write succeeds.
pub open spec fn is_obliging(calls: Seq<Call>) -> bool {
    forall|i: int|
        0 <= i < calls.len() ==> match #[trigger] calls[i] {
            Call::Count(reply) => reply == Ok::<u32, AudioError>(2),
            Call::Write { reply, .. } => reply is Ok,
            _ => true,
        }
}

proof fn lemma_add_last(a: Seq<Call>, b: Seq<Call>)
    requires
        b.len() > 0,
    ensures
        (a + b).drop_last() == a + b.drop_last(),
        (a + b).last() == b.last(),
{
    assert((a + b).drop_last() =~= a + b.drop_last());
}

proof fn lemma_writes_add(a: Seq<Call>, b: Seq<Call>)
    ensures
        writes(a + b) == writes(a) + writes(b),
    decreases b.len(),
{
    if b.len() == 0 {
        assert(a + b =~= a);
        assert(writes(a) + writes(b) =~= writes(a));
    } else {
        lemma_add_last(a, b);
        lemma_writes_add(a, b.drop_last());
        assert(writes(a + b) =~= writes(a) + writes(b));
    }
}

proof fn lemma_passes_add(a: Seq<Call>, b: Seq<Call>)
    ensures
        passes(a + b) == passes(a) + passes(b),
    decreases b.len(),
{
    if b.len() == 0 {
        assert(a + b =~= a);
    } else {
        lemma_add_last(a, b);
        lemma_passes_add(a, b.drop_last());
    }
}

proof fn lemma_levels_add(levels: (Level, Level), a: Seq<Call>, b: Seq<Call>)
    ensures
        levels_after(levels, a + b) == levels_after(levels_after(levels, a), b),
        remembers(levels, a + b) ==> remembers(levels, a) && remembers(levels_after(levels, a), b),
    decreases b.len(),
{
    if b.len() == 0 {
        assert(a + b =~= a);
    } else {
        lemma_add_last(a, b);
        lemma_levels_add(levels, a, b.drop_last());
    }
}

proof fn lemma_obliging_add(a: Seq<Call>, b: Seq<Call>)
    requires
        is_obliging(a + b),
    ensures
        is_obliging(a),
        is_obliging(b),
{
    assert forall|i: int| 0 <= i < a.len() implies match #[trigger] a[i] {
        Call::Count(reply) => reply == Ok::<u32, AudioError>(2),
        Call::Write { reply, .. } => reply is Ok,
        _ => true,
    } by {
        assert((a + b)[i] == a[i]);
    }
    assert forall|i: int| 0 <= i < b.len() implies match #[trigger] b[i] {
        Call::Count(reply) => reply == Ok::<u32, AudioError>(2),
        Call::Write { reply, .. } => reply is Ok,
        _ => true,
    } by {
        assert((a + b)[a.len() + i] == b[i]);
    }
}

/// Calls that are not to the controller hold no pass and no write, and change
/// nothing.
proof fn lemma_bystanders(calls: Seq<Call>, levels: (Level, Level))
    requires
        forall|i: int| 0 <= i < calls.len() ==> !is_to_controller(#[trigger] calls[i]),
    ensures
        passes(calls) == 0,
        writes(calls) == Seq::<(u32, Level)>::empty(),
        levels_after(levels, calls) == levels,
    decreases calls.len(),
{
    if calls.len() > 0 {
        lemma_bystanders(calls.drop_last(), levels);
        assert(!is_to_controller(calls[calls.len() - 1]));
    }
}

proof fn lemma_single(call: Call, levels: (Level, Level))
    ensures
        passes(seq![call]) == (if call is Count {
            1nat
        } else {
            0nat
        }),
        writes(seq![call]) == (match call {
            Call::Write { channel, level, .. } => seq![(channel, level)],
            _ => Seq::empty(),
        }),
        levels_after(levels, seq![call]) == (match call {
            Call::Write { channel, level, reply: Ok(_) } => with_level(levels, channel, level),
            _ => levels,
        }),
        remembers(levels, seq![call]) ==> (call matches Call::Read { channel, reply } ==> reply == Ok::<
            Level,
            AudioError,
        >(level_of(levels, channel))),
{
    let none = Seq::<Call>::empty();
    assert(seq![call].drop_last() =~= none);
    assert(seq![call].last() == call);
    assert(passes(none) == 0);
    assert(writes(none) =~= Seq::empty());
    assert(levels_after(levels, none) == levels);
    assert(writes(seq![call]) =~= match call {
        Call::Write { channel, level, .. } => seq![(channel, level)],
        _ => Seq::empty(),
    });
}

/// What a correction does to a device, one channel at a time.
proof fn lemma_correction(
    policy: BalancePolicy,
    channel: u32,
    target: Level,
    calls: Seq<Call>,
    outcome: AudioResult<()>,
    levels: (Level, Level),
)
    requires
        is_correction(policy, channel, target, calls, outcome),
    ensures
        passes(calls) == 0,
        writes(calls).len() <= 1,
        writes(calls).len() == 1 ==> writes(calls)[0] == (channel, target),
        calls[0] matches Call::Read { reply: Ok(current), .. } ==> writes(calls) == due_write(
            policy,
            channel,
            current,
            target,
        ),
        outcome is Ok && remembers(levels, calls) ==> {
            &&& writes(calls) == due_write(policy, channel, level_of(levels, channel), target)
            &&& levels_after(levels, calls) == with_level(
                levels,
                channel,
                policy.corrected(level_of(levels, channel), target),
            )
        },
{
    lemma_single(calls[0], levels);
    let read = seq![calls[0]];
    if calls.len() == 1 {
        assert(calls =~= read);
    } else {
        let write = seq![calls[1]];
        assert(calls =~= read + write);
        lemma_single(calls[1], levels);
        lemma_passes_add(read, write);
        lemma_writes_add(read, write);
        lemma_levels_add(levels, read, write);
        assert(writes(calls) =~= seq![(channel, target)]);
    }
}

/// The parts of a pass over a stereo device.
pub proof fn lemma_pass_parts(policy: BalancePolicy, calls: Seq<Call>, outcome: AudioResult<()>) -> (parts: (
    Seq<Call>,
    AudioResult<()>,
    Seq<Call>,
))
    requires
        is_pass(policy, calls, outcome),
        calls[0] == Call::Count(Ok(2)),
    ensures
        is_correction(policy, 0, policy.left, parts.0, parts.1),
        calls == seq![calls[0]] + parts.0 + parts.2,
        match parts.1 {
            Err(error) => parts.2.len() == 0 && outcome == Err::<(), AudioError>(error),
            Ok(_) => is_correction(policy, 1, policy.right, parts.2, outcome),
        },
{
    let head = seq![calls[0]];
    let (left, so_far) = choose|left: Seq<Call>, so_far: AudioResult<()>| #[trigger]
        is_correction(policy, 0, policy.left, left, so_far) && match so_far {
            Err(error) => calls == head + left && outcome == Err::<(), AudioError>(error),
            Ok(_) => exists|right: Seq<Call>| #[trigger]
                is_correction(policy, 1, policy.right, right, outcome) && calls == head + left + right,
        };
    if so_far is Ok {
        let right = choose|right: Seq<Call>| #[trigger]
            is_correction(policy, 1, policy.right, right, outcome) && calls == head + left + right;
        (left, so_far, right)
    } else {
        let none = Seq::<Call>::empty();
        assert(head + left =~= head + left + none);
        (left, so_far, none)
    }
}

/// What a pass does to a device.
proof fn lemma_pass(policy: BalancePolicy, calls: Seq<Call>, outcome: AudioResult<()>, levels: (Level, Level))
    requires
        is_pass(policy, calls, outcome),
    ensures
        passes(calls) == 1,
        outcome is Ok && remembers(levels, calls) && calls[0] == Call::Count(Ok(2)) ==> {
            &&& writes(calls) == due_writes(policy, levels)
            &&& levels_after(levels, calls) == (
                policy.corrected(levels.0, policy.left),
                policy.corrected(levels.1, policy.right),
            )
        },
        calls[0] != Call::Count(Ok(2)) ==> calls.len() == 1 && writes(calls) == Seq::<(u32, Level)>::empty()
            && levels_after(levels, calls) == levels,
{
    let head = seq![calls[0]];
    lemma_single(calls[0], levels);
    if calls[0] != Call::Count(Ok(2)) {
        assert(calls =~= head);
    } else {
        let (left, so_far, right) = lemma_pass_parts(policy, calls, outcome);
        lemma_correction(policy, 0, policy.left, left, so_far, levels);
        lemma_passes_add(head, left);
        lemma_passes_add(head + left, right);
        if so_far is Ok {
            lemma_writes_add(head, left);
            lemma_writes_add(head + left, right);
            lemma_levels_add(levels, head, left);
            lemma_levels_add(levels, head + left, right);
            lemma_correction(policy, 1, policy.right, right, outcome, levels_after(levels, head + left));
            assert(Seq::<(u32, Level)>::empty() + writes(left) + writes(right) =~= writes(left) + writes(right));
        }
    }
}

/// Exactly the drifted channels are written: over a stereo device whose reads
/// and writes all succeed, a pass counts, reads left and right once each,
/// writes to each drifted channel its target, left before right, and does
/// nothing else.
pub proof fn law_drifted_channels_are_written(
    policy: BalancePolicy,
    calls: Seq<Call>,
    outcome: AudioResult<()>,
    levels: (Level, Level),
)
    requires
        is_pass(policy, calls, outcome),
        is_obliging(calls),
        forall|i: int|
            0 <= i < calls.len() ==> (#[trigger] calls[i] matches Call::Read { channel, reply } ==> reply == Ok::<
                Level,
                AudioError,
            >(level_of(levels, channel))),
    ensures
        outcome == Ok::<(), AudioError>(()),
        writes(calls) == due_writes(policy, levels),
        calls == seq![Call::Count(Ok(2)), Call::Read { channel: 0, reply: Ok(levels.0) }] + written(
            due_write(policy, 0, levels.0, policy.left),
        ) + seq![Call::Read { channel: 1, reply: Ok(levels.1) }] + written(
            due_write(policy, 1, levels.1, policy.right),
        ),
{
    assert(calls[0] == Call::Count(Ok(2)));
    let head = seq![calls[0]];
    let (left, so_far, right) = lemma_pass_parts(policy, calls, outcome);
    assert(calls[1] == left[0]);
    assert(left[0] == (Call::Read { channel: 0, reply: Ok(levels.0) }));
    if left.len() == 2 {
        assert(calls[2] == left[1]);
        assert(so_far is Ok);
        assert(so_far->Ok_0 == ());
    }
    assert(so_far == Ok::<(), AudioError>(()));
    assert(calls[left.len() + 1int] == right[0]);
    assert(right[0] == (Call::Read { channel: 1, reply: Ok(levels.1) }));
    if right.len() == 2 {
        assert(calls[left.len() + 2int] == right[1]);
        assert(outcome is Ok);
        assert(outcome->Ok_0 == ());
    }
    lemma_correction(policy, 0, policy.left, left, so_far, levels);
    lemma_correction(policy, 1, policy.right, right, outcome, levels);
    lemma_single(calls[0], levels);
    lemma_writes_add(head, left);
    lemma_writes_add(head + left, right);
    assert(writes(calls) =~= writes(left) + writes(right));
    assert(left =~= seq![left[0]] + written(due_write(policy, 0, levels.0, policy.left)));
    assert(right =~= seq![right[0]] + written(due_write(policy, 1, levels.1, policy.right)));
    assert(calls =~= seq![Call::Count(Ok(2)), Call::Read { channel: 0, reply: Ok(levels.0) }] + written(
        due_write(policy, 0, levels.0, policy.left),
    ) + seq![Call::Read { channel: 1, reply: Ok(levels.1) }] + written(due_write(policy, 1, levels.1, policy.right)));
}

/// What a stereo controller gives fixes what a pass over it does: with these
/// levels and writes that succeed, the pass succeeds and writes exactly what
/// the device is due.
pub proof fn law_stereo_controller_gets_its_due<C: AudioController>(
    controller: C,
    policy: BalancePolicy,
    calls: Seq<Call>,
    outcome: AudioResult<()>,
    levels: (Level, Level),
)
    requires
        is_pass(policy, calls, outcome),
        are_possible(controller, calls),
        forall|reply: AudioResult<u32>| #[trigger]
            call_ensures(C::channel_count, (&controller,), reply) ==> reply == Ok::<u32, AudioError>(2),
        forall|channel: u32, reply: AudioResult<Level>| #[trigger]
            call_ensures(C::get_channel, (&controller, channel), reply) ==> reply == Ok::<Level, AudioError>(
                level_of(levels, channel),
            ),
        forall|channel: u32, level: Level, reply: AudioResult<()>| #[trigger]
            call_ensures(C::set_channel, (&controller, channel, level), reply) ==> reply is Ok,
    ensures
        outcome == Ok::<(), AudioError>(()),
        writes(calls) == due_writes(policy, levels),
{
    assert forall|i: int| 0 <= i < calls.len() implies match #[trigger] calls[i] {
        Call::Count(reply) => reply == Ok::<u32, AudioError>(2),
        Call::Write { reply, .. } => reply is Ok,
        _ => true,
    } by {
        assert(is_possible(controller, calls[i]));
    }
    assert forall|i: int| 0 <= i < calls.len() implies (#[trigger] calls[i] matches Call::Read { channel, reply }
        ==> reply == Ok::<Level, AudioError>(level_of(levels, channel))) by {
        assert(is_possible(controller, calls[i]));
    }
    law_drifted_channels_are_written(policy, calls, outcome, levels);
}

/// These writes, as calls that succeeded.
pub open spec fn written(writes: Seq<(u32, Level)>) -> Seq<Call> {
    writes.map_values(|write: (u32, Level)| Call::Write { channel: write.0, level: write.1, reply: Ok(()) })
}

/// A stereo device whose channels read as close enough to their targets is
/// left alone: a pass succeeds and writes nothing.
pub proof fn law_compliant_device_is_left_alone(policy: BalancePolicy, calls: Seq<Call>, outcome: AudioResult<()>)
    requires
        is_pass(policy, calls, outcome),
        calls[0] == Call::Count(Ok(2)),
        forall|i: int|
            0 <= i < calls.len() ==> (#[trigger] calls[i] matches Call::Read { channel, reply } ==> (reply matches Ok(
                current,
            ) && is_within(
                current,
                if channel == 0 {
                    policy.left
                } else {
                    policy.right
                },
                policy.tolerance,
            ))),
    ensures
        outcome == Ok::<(), AudioError>(()),
        writes(calls) == Seq::<(u32, Level)>::empty(),
        calls.len() == 3,
{
    let (left, so_far, right) = lemma_pass_parts(policy, calls, outcome);
    assert(calls[1] == left[0]);
    assert(calls[left.len() + 1int] == right[0]);
    let head = seq![calls[0]];
    let levels = (policy.left, policy.right);
    lemma_correction(policy, 0, policy.left, left, so_far, levels);
    lemma_correction(policy, 1, policy.right, right, outcome, levels);
    lemma_single(calls[0], levels);
    lemma_writes_add(head, left);
    lemma_writes_add(head + left, right);
    assert(writes(calls) =~= Seq::empty());
}

/// A device without exactly two channels is neither read nor written, and
/// neither is one whose channels cannot be counted: the count is the only
/// call. The pass succeeds, or gives the error of counting.
pub proof fn law_only_stereo_is_handled(policy: BalancePolicy, calls: Seq<Call>, outcome: AudioResult<()>)
    requires
        is_pass(policy, calls, outcome),
        calls[0] != Call::Count(Ok(2)),
    ensures
        calls.len() == 1,
        calls[0] matches Call::Count(reply) && match reply {
            Ok(channels) => channels != 2 && outcome == Ok::<(), AudioError>(()),
            Err(error) => outcome == Err::<(), AudioError>(error),
        },
{
}

/// A call that fails is the last one of its pass, and its error is the pass's
/// error: after a failure on the left the right channel is neither read nor
/// written, and what was written before stays.
pub proof fn law_first_error_ends_the_pass(policy: BalancePolicy, calls: Seq<Call>, outcome: AudioResult<()>, at: int)
    requires
        is_pass(policy, calls, outcome),
        0 <= at < calls.len(),
        error_of(calls[at]) is Some,
    ensures
        at == calls.len() - 1,
        outcome == Err::<(), AudioError>(error_of(calls[at])->0),
{
    if calls[0] == Call::Count(Ok(2)) {
        let (left, so_far, right) = lemma_pass_parts(policy, calls, outcome);
        if 1 <= at <= left.len() {
            assert(calls[at] == left[at - 1]);
        } else if at > 0 {
            assert(calls[at] == right[at - 1 - left.len()]);
        }
    }
}

/// A pass fails only with the error of its last call.
pub proof fn law_error_is_that_of_the_last_call(
    policy: BalancePolicy,
    calls: Seq<Call>,
    outcome: AudioResult<()>,
    error: AudioError,
)
    requires
        is_pass(policy, calls, outcome),
        outcome == Err::<(), AudioError>(error),
    ensures
        error_of(calls.last()) == Some(error),
{
    if calls[0] == Call::Count(Ok(2)) {
        let (left, so_far, right) = lemma_pass_parts(policy, calls, outcome);
        if so_far is Ok {
            assert(calls.last() == right.last());
        } else {
            assert(calls.last() == left.last());
        }
    }
}

/// The call is a write of its channel's target, left to 0 or right to 1, right
/// after that channel was read as drifted.
pub open spec fn is_wanted_write(policy: BalancePolicy, calls: Seq<Call>, at: int) -> bool {
    &&& at > 0
    &&& calls[at] matches Call::Write { channel, level, .. } && {
        &&& channel == 0 && level == policy.left || channel == 1 && level == policy.right
        &&& calls[at - 1] matches Call::Read { channel: read, reply: Ok(current) } && read == channel && !is_within(
            current,
            level,
            policy.tolerance,
        )
    }
}

/// Every write of a pass follows the read that asked for it.
pub proof fn law_write_follows_a_drifted_read(
    policy: BalancePolicy,
    calls: Seq<Call>,
    outcome: AudioResult<()>,
    at: int,
)
    requires
        is_pass(policy, calls, outcome),
        0 <= at < calls.len(),
        calls[at] is Write,
    ensures
        is_wanted_write(policy, calls, at),
{
    if calls[0] == Call::Count(Ok(2)) {
        let (left, so_far, right) = lemma_pass_parts(policy, calls, outcome);
        if 1 <= at <= left.len() {
            assert(calls[at] == left[at - 1]);
            assert(calls[1] == left[0]);
        } else if at > 0 {
            assert(calls[at] == right[at - 1 - left.len()]);
            assert(calls[left.len() + 1int] == right[0]);
        }
    }
}

/// A pass is through with the left channel before it turns to the right one,
/// and touches no other.
pub proof fn law_left_comes_first(
    policy: BalancePolicy,
    calls: Seq<Call>,
    outcome: AudioResult<()>,
    first: int,
    second: int,
)
    requires
        is_pass(policy, calls, outcome),
        0 <= first < second < calls.len(),
        touches(calls[first], 1),
    ensures
        touches(calls[second], 1),
{
    let (left, so_far, right) = lemma_pass_parts(policy, calls, outcome);
    if first <= left.len() {
        assert(calls[first] == left[first - 1]);
    } else {
        assert(calls[second] == right[second - 1 - left.len()]);
    }
}

/// After a pass that succeeds on a stereo device that remembers what is set,
/// each channel is at its corrected level.
pub proof fn law_pass_corrects_the_levels(
    policy: BalancePolicy,
    calls: Seq<Call>,
    levels: (Level, Level),
)
    requires
        is_pass(policy, calls, Ok(())),
        calls[0] == Call::Count(Ok(2)),
        remembers(levels, calls),
    ensures
        levels_after(levels, calls) == (
            policy.corrected(levels.0, policy.left),
            policy.corrected(levels.1, policy.right),
        ),
        writes(calls) == due_writes(policy, levels),
{
    lemma_pass(policy, calls, Ok(()), levels);
}

proof fn lemma_corrected_is_settled(policy: BalancePolicy, levels: (Level, Level))
    requires
        policy.can_settle(),
    ensures
        is_within(policy.corrected(levels.0, policy.left), policy.left, policy.tolerance),
        is_within(policy.corrected(levels.1, policy.right), policy.right, policy.tolerance),
{
    law_within_itself(policy.left, policy.tolerance);
    law_within_itself(policy.right, policy.tolerance);
}

/// There is no storm of writes: if nothing but the first of two passes changes
/// the device, which remembers what is set, and that pass succeeds, then the
/// second one succeeds too and writes nothing.
pub proof fn law_second_pass_writes_nothing(
    policy: BalancePolicy,
    first: Seq<Call>,
    second: Seq<Call>,
    outcome: AudioResult<()>,
    levels: (Level, Level),
)
    requires
        policy.can_settle(),
        is_pass(policy, first, Ok(())),
        is_pass(policy, second, outcome),
        second[0] == first[0],
        remembers(levels, first + second),
    ensures
        outcome == Ok::<(), AudioError>(()),
        writes(second) == Seq::<(u32, Level)>::empty(),
{
    lemma_pass(policy, first, Ok(()), levels);
    lemma_levels_add(levels, first, second);
    let then = levels_after(levels, first);
    lemma_pass(policy, second, outcome, then);
    if first[0] == Call::Count(Ok(2)) {
        lemma_corrected_is_settled(policy, levels);
        let (left, so_far, right) = lemma_pass_parts(policy, second, outcome);
        let head = seq![second[0]];
        lemma_levels_add(then, head, left);
        lemma_levels_add(then, head + left, right);
        lemma_single(second[0], then);
        lemma_read_first(then, left);
        lemma_correction(policy, 0, policy.left, left, so_far, then);
        lemma_read_first(levels_after(then, head + left), right);
        assert(due_writes(policy, then) =~= Seq::empty());
    }
}

/// The first call of a part is answered from the levels that the part began
/// at.
proof fn lemma_read_first(levels: (Level, Level), calls: Seq<Call>)
    requires
        calls.len() > 0,
        remembers(levels, calls),
    ensures
        calls[0] matches Call::Read { channel, reply } ==> reply == Ok::<Level, AudioError>(level_of(levels, channel)),
{
    let head = seq![calls[0]];
    assert(calls =~= head + calls.skip(1));
    lemma_levels_add(levels, head, calls.skip(1));
    lemma_single(calls[0], levels);
}

/// Bringing a channel to its target is settled by one write.
pub proof fn law_correction_settles(policy: BalancePolicy, current: Level, target: Level)
    requires
        policy.can_settle(),
        target == policy.left || target == policy.right,
    ensures
        is_within(policy.corrected(current, target), target, policy.tolerance),
{
    law_within_itself(target, policy.tolerance);
}

/// Whatever the policy, correcting a level twice gives the same level as
/// correcting it once.
pub proof fn law_correction_is_idempotent(policy: BalancePolicy, current: Level, target: Level)
    ensures
        policy.corrected(policy.corrected(current, target), target) == policy.corrected(current, target),
{
}

proof fn lemma_reported_pass(policy: BalancePolicy, phase: Phase, calls: Seq<Call>, levels: (Level, Level)) -> (parts: (
    Seq<Call>,
    AudioResult<()>,
))
    requires
        is_reported_pass(policy, phase, calls),
    ensures
        is_pass(policy, parts.0, parts.1),
        calls == parts.0 + report_of(phase, parts.1),
        passes(calls) == 1,
        writes(calls) == writes(parts.0),
        levels_after(levels, calls) == levels_after(levels, parts.0),
        remembers(levels, calls) ==> remembers(levels, parts.0),
{
    let (pass, outcome) = choose|pass: Seq<Call>, outcome: AudioResult<()>| #[trigger]
        is_pass(policy, pass, outcome) && calls == pass + report_of(phase, outcome);
    let report = report_of(phase, outcome);
    lemma_pass(policy, pass, outcome, levels);
    lemma_bystanders(report, levels_after(levels, pass));
    lemma_passes_add(pass, report);
    lemma_writes_add(pass, report);
    lemma_levels_add(levels, pass, report);
    assert(writes(pass) + Seq::<(u32, Level)>::empty() =~= writes(pass));
    (pass, outcome)
}

/// A move makes exactly one pass, reported if it failed, where one is due; any
/// other move makes no call to the controller: nothing is read or written
/// while the loop waits or swallows a burst.
pub proof fn law_move_makes_the_pass_that_is_due(terms: Terms, from: RunState, calls: Seq<Call>, to: RunState)
    requires
        is_move(terms, from, calls, to),
    ensures
        pass_is_due(from.phase) ==> is_reported_pass(terms.policy, from.phase, calls) && to.phase == Phase::Idle
            && passes(calls) == 1,
        !pass_is_due(from.phase) ==> passes(calls) == 0 && writes(calls) == Seq::<(u32, Level)>::empty() && forall|
            i: int,
        |
            0 <= i < calls.len() ==> !is_to_controller(#[trigger] calls[i]),
{
    let levels = (terms.policy.left, terms.policy.right);
    let seen = choose|seen: Observation| #[trigger]
        is_seen_by(terms, from, calls, to.opened, seen) && to.phase == phase_after(from.phase, seen);
    if pass_is_due(from.phase) {
        let parts = lemma_reported_pass(terms.policy, from.phase, calls, levels);
    } else {
        lemma_bystanders(calls, levels);
    }
}

/// Where a move that makes no pass can lead.
proof fn lemma_waiting_move(terms: Terms, from: RunState, calls: Seq<Call>, to: RunState)
    requires
        is_move(terms, from, calls, to),
    ensures
        from.phase == Phase::Draining ==> to.phase == Phase::Draining || to.phase == Phase::Settling,
        from.phase == Phase::Idle ==> to.phase == Phase::Draining || to.phase == Phase::Watchdog || to.phase
            == Phase::Stopped,
        from.phase != Phase::Stopped,
{
}

proof fn lemma_course_drop_last(terms: Terms, states: Seq<RunState>, parts: Seq<Seq<Call>>)
    requires
        is_course(terms, states, parts),
        parts.len() > 0,
    ensures
        is_course(terms, states.drop_last(), parts.drop_last()),
        is_move(terms, states.drop_last().last(), parts.last(), states.last()),
        parts.flatten() == parts.drop_last().flatten() + parts.last(),
{
    let shorter = states.drop_last();
    let fewer = parts.drop_last();
    assert forall|i: int| 0 <= i < fewer.len() implies shorter[i].phase != Phase::Stopped && is_move(
        terms,
        shorter[i],
        #[trigger] fewer[i],
        shorter[i + 1],
    ) by {
        assert(fewer[i] == parts[i]);
    }
    assert(parts[parts.len() - 1] == parts.last());
    fewer.lemma_flatten_push(parts.last());
    assert(parts =~= fewer.push(parts.last()));
}

proof fn lemma_course_drop_first(terms: Terms, states: Seq<RunState>, parts: Seq<Seq<Call>>)
    requires
        is_course(terms, states, parts),
        parts.len() > 0,
    ensures
        is_course(terms, states.drop_first(), parts.drop_first()),
        is_move(terms, states[0], parts[0], states[1]),
        parts.flatten() == parts[0] + parts.drop_first().flatten(),
{
    let shorter = states.drop_first();
    let fewer = parts.drop_first();
    assert forall|i: int| 0 <= i < fewer.len() implies shorter[i].phase != Phase::Stopped && is_move(
        terms,
        shorter[i],
        #[trigger] fewer[i],
        shorter[i + 1],
    ) by {
        assert(fewer[i] == parts[i + 1]);
    }
    assert(is_move(terms, states[0], parts[0], states[1]));
}

/// A run makes its first pass before it waits for anything, whatever that pass
/// gives.
pub proof fn law_run_begins_with_a_pass(terms: Terms, states: Seq<RunState>, parts: Seq<Seq<Call>>)
    requires
        is_whole_course(terms, states, parts),
    ensures
        parts.len() > 1,
        is_reported_pass(terms.policy, Phase::Startup, parts[0]),
        states[1].phase == Phase::Idle,
{
    if parts.len() > 0 {
        lemma_course_drop_first(terms, states, parts);
        law_move_makes_the_pass_that_is_due(terms, states[0], parts[0], states[1]);
    }
}

/// From one wait of the idle loop to the next there is exactly one pass. So a
/// burst of events, however long, leads to a single pass, and so does a time
/// without events.
pub proof fn law_one_pass_between_waits(terms: Terms, states: Seq<RunState>, parts: Seq<Seq<Call>>)
    requires
        is_course(terms, states, parts),
        parts.len() > 0,
        states[0].phase == Phase::Idle,
        states.last().phase == Phase::Idle,
        forall|i: int| 0 < i < parts.len() ==> (#[trigger] states[i]).phase != Phase::Idle,
    ensures
        passes(parts.flatten()) == 1,
{
    lemma_passes_since_idle(terms, states, parts);
}

proof fn lemma_passes_since_idle(terms: Terms, states: Seq<RunState>, parts: Seq<Seq<Call>>)
    requires
        is_course(terms, states, parts),
        states[0].phase == Phase::Idle,
        forall|i: int| 0 < i < parts.len() ==> (#[trigger] states[i]).phase != Phase::Idle,
    ensures
        passes(parts.flatten()) == (if parts.len() > 0 && states.last().phase == Phase::Idle {
            1nat
        } else {
            0nat
        }),
        states.last().phase != Phase::Startup,
    decreases parts.len(),
{
    if parts.len() == 0 {
        assert(parts.flatten() =~= Seq::empty());
    } else {
        lemma_course_drop_last(terms, states, parts);
        let shorter = states.drop_last();
        assert forall|i: int| 0 < i < parts.drop_last().len() implies (#[trigger] shorter[i]).phase != Phase::Idle by {
            assert(states[i].phase != Phase::Idle);
        }
        lemma_passes_since_idle(terms, shorter, parts.drop_last());
        let from = shorter.last();
        assert(from == states[parts.len() - 1]);
        law_move_makes_the_pass_that_is_due(terms, from, parts.last(), states.last());
        lemma_waiting_move(terms, from, parts.last(), states.last());
        lemma_passes_add(parts.drop_last().flatten(), parts.last());
    }
}

/// An event is never lost: once one came, the loop does not become idle again,
/// nor stop, without a pass after it.
pub proof fn law_event_leads_to_a_pass(terms: Terms, states: Seq<RunState>, parts: Seq<Seq<Call>>)
    requires
        is_course(terms, states, parts),
        states[0].phase == Phase::Draining,
    ensures
        states.last().phase == Phase::Draining || states.last().phase == Phase::Settling || passes(parts.flatten()) >= 1,
    decreases parts.len(),
{
    if parts.len() > 0 {
        lemma_course_drop_last(terms, states, parts);
        law_event_leads_to_a_pass(terms, states.drop_last(), parts.drop_last());
        let from = states.drop_last().last();
        law_move_makes_the_pass_that_is_due(terms, from, parts.last(), states.last());
        lemma_waiting_move(terms, from, parts.last(), states.last());
        lemma_passes_add(parts.drop_last().flatten(), parts.last());
    }
}

/// When no event comes for a while, the device is checked anyway: a wait that
/// ends quiet leads to a pass.
pub proof fn law_quiet_leads_to_a_pass(terms: Terms, states: Seq<RunState>, parts: Seq<Seq<Call>>)
    requires
        is_course(terms, states, parts),
        parts.len() > 1,
        states[0].phase == Phase::Idle,
        parts[0].last() == (Call::Wait { events: terms.events, nanos: QUIET_NANOS, reply: Reply::Quiet }),
    ensures
        is_reported_pass(terms.policy, Phase::Watchdog, parts[1]),
        states[2].phase == Phase::Idle,
{
    assert(is_move(terms, states[0], parts[0], states[1]));
    assert(is_move(terms, states[1], parts[1], states[2]));
    let seen = choose|seen: Observation| #[trigger]
        is_seen_by(terms, states[0], parts[0], states[1].opened, seen) && states[1].phase == phase_after(
            states[0].phase,
            seen,
        );
    law_move_makes_the_pass_that_is_due(terms, states[1], parts[1], states[2]);
}

/// Every look at the stop flag finds it set.
pub open spec fn looks_find_stop(calls: Seq<Call>) -> bool {
    forall|i: int| 0 <= i < calls.len() ==> (#[trigger] calls[i] matches Call::Look { set, .. } ==> set)
}

/// Every wait finds the event channel closed.
pub open spec fn waits_find_closed(calls: Seq<Call>) -> bool {
    forall|i: int|
        0 <= i < calls.len() ==> (#[trigger] calls[i] matches Call::Wait { reply, .. } ==> reply == Reply::Closed)
}

/// Once the stop flag is set, at most one more pass is made, and the next look
/// at the flag ends the loop.
pub proof fn law_stop_is_honoured(terms: Terms, states: Seq<RunState>, parts: Seq<Seq<Call>>)
    requires
        is_course(terms, states, parts),
        looks_find_stop(parts.flatten()),
    ensures
        passes(parts.flatten()) <= 1,
        forall|i: int|
            0 <= i < parts.len() && (#[trigger] states[i]).phase == Phase::Idle ==> i == parts.len() - 1
                && states.last().phase == Phase::Stopped,
{
    lemma_stop(terms, states, parts);
    assert forall|i: int| 0 <= i < parts.len() && (#[trigger] states[i]).phase == Phase::Idle implies i == parts.len() - 1
        && states.last().phase == Phase::Stopped by {
        assert(ends_if_idle(states, i));
        if i + 1 < parts.len() {
            assert(is_move(terms, states[i + 1], parts[i + 1], states[i + 2]));
        }
    }
}

/// If the loop is idle in this state, the next move ends it.
spec fn ends_if_idle(states: Seq<RunState>, at: int) -> bool {
    states[at].phase == Phase::Idle ==> states[at + 1].phase == Phase::Stopped
}

proof fn lemma_stop(terms: Terms, states: Seq<RunState>, parts: Seq<Seq<Call>>)
    requires
        is_course(terms, states, parts),
        looks_find_stop(parts.flatten()),
    ensures
        passes(parts.flatten()) <= 1,
        passes(parts.flatten()) == 1 ==> states.last().phase == Phase::Idle || states.last().phase == Phase::Stopped,
        forall|i: int| 0 <= i < parts.len() ==> #[trigger] ends_if_idle(states, i),
    decreases parts.len(),
{
    if parts.len() == 0 {
        assert(parts.flatten() =~= Seq::empty());
    } else {
        lemma_course_drop_last(terms, states, parts);
        let before = parts.drop_last().flatten();
        let part = parts.last();
        assert forall|i: int| 0 <= i < before.len() implies (#[trigger] before[i] matches Call::Look { set, .. }
            ==> set) by {
            assert(parts.flatten()[i] == before[i]);
        }
        assert forall|i: int| 0 <= i < part.len() implies (#[trigger] part[i] matches Call::Look { set, .. } ==> set) by {
            assert(parts.flatten()[before.len() + i] == part[i]);
        }
        let shorter = states.drop_last();
        lemma_stop(terms, shorter, parts.drop_last());
        let from = shorter.last();
        law_move_makes_the_pass_that_is_due(terms, from, part, states.last());
        lemma_waiting_move(terms, from, part, states.last());
        lemma_passes_add(before, part);
        let seen = choose|seen: Observation| #[trigger]
            is_seen_by(terms, from, part, states.last().opened, seen) && states.last().phase == phase_after(
                from.phase,
                seen,
            );
        if from.phase == Phase::Idle {
            assert(part[0] is Look);
            assert(seen == Observation::StopRequested);
        }
        assert forall|i: int| 0 <= i < parts.len() implies #[trigger] ends_if_idle(states, i) by {
            if i < parts.len() - 1 {
                assert(ends_if_idle(shorter, i));
                assert(shorter[i] == states[i]);
                assert(shorter[i + 1] == states[i + 1]);
            } else {
                assert(states[i] == from);
            }
        }
    }
}

/// A run that finds the stop flag set makes its first pass and no other.
pub proof fn law_stopped_run_makes_one_pass(terms: Terms, states: Seq<RunState>, parts: Seq<Seq<Call>>)
    requires
        is_whole_course(terms, states, parts),
        looks_find_stop(parts.flatten()),
    ensures
        parts.len() == 2,
        passes(parts.flatten()) == 1,
{
    law_run_begins_with_a_pass(terms, states, parts);
    law_stop_is_honoured(terms, states, parts);
    lemma_course_drop_first(terms, states, parts);
    law_move_makes_the_pass_that_is_due(terms, states[0], parts[0], states[1]);
    lemma_passes_add(parts[0], parts.drop_first().flatten());
    assert(states[1].phase == Phase::Idle);
}

/// How many more moves a loop with a closed channel can make.
spec fn moves_left(phase: Phase) -> nat {
    match phase {
        Phase::Draining => 3,
        Phase::Idle => 1,
        Phase::Stopped => 0,
        _ => 2,
    }
}

proof fn lemma_closed(terms: Terms, states: Seq<RunState>, parts: Seq<Seq<Call>>)
    requires
        is_course(terms, states, parts),
        waits_find_closed(parts.flatten()),
    ensures
        parts.len() + moves_left(states.last().phase) <= moves_left(states[0].phase),
        passes(parts.flatten()) <= 1,
        passes(parts.flatten()) == 1 ==> states.last().phase == Phase::Idle || states.last().phase == Phase::Stopped,
    decreases parts.len(),
{
    if parts.len() == 0 {
        assert(parts.flatten() =~= Seq::empty());
    } else {
        lemma_course_drop_last(terms, states, parts);
        let before = parts.drop_last().flatten();
        let part = parts.last();
        assert forall|i: int| 0 <= i < before.len() implies (#[trigger] before[i] matches Call::Wait { reply, .. }
            ==> reply == Reply::Closed) by {
            assert(parts.flatten()[i] == before[i]);
        }
        assert forall|i: int| 0 <= i < part.len() implies (#[trigger] part[i] matches Call::Wait { reply, .. } ==> reply
            == Reply::Closed) by {
            assert(parts.flatten()[before.len() + i] == part[i]);
        }
        lemma_closed(terms, states.drop_last(), parts.drop_last());
        let from = states.drop_last().last();
        law_move_makes_the_pass_that_is_due(terms, from, part, states.last());
        lemma_waiting_move(terms, from, part, states.last());
        lemma_passes_add(before, part);
        let seen = choose|seen: Observation| #[trigger]
            is_seen_by(terms, from, part, states.last().opened, seen) && states.last().phase == phase_after(
                from.phase,
                seen,
            );
        if seen is Heard {
            assert(part[1] is Wait);
        }
    }
}

/// A closed event channel ends the loop: whatever it was doing, it makes at
/// most three more moves, with at most one pass among them.
pub proof fn law_closed_channel_ends_the_loop(terms: Terms, states: Seq<RunState>, parts: Seq<Seq<Call>>)
    requires
        is_course(terms, states, parts),
        waits_find_closed(parts.flatten()),
    ensures
        parts.len() <= 3,
        passes(parts.flatten()) <= 1,
{
    lemma_closed(terms, states, parts);
}

/// A run whose event channel is closed from the start makes its first pass and
/// no other.
pub proof fn law_run_on_closed_channel_makes_one_pass(terms: Terms, states: Seq<RunState>, parts: Seq<Seq<Call>>)
    requires
        is_whole_course(terms, states, parts),
        waits_find_closed(parts.flatten()),
    ensures
        parts.len() == 2,
        passes(parts.flatten()) == 1,
        states.last().phase == Phase::Stopped,
{
    law_run_begins_with_a_pass(terms, states, parts);
    lemma_closed(terms, states, parts);
    lemma_course_drop_first(terms, states, parts);
    law_move_makes_the_pass_that_is_due(terms, states[0], parts[0], states[1]);
    lemma_passes_add(parts[0], parts.drop_first().flatten());
}

/// A run comes to its end only on a look that finds the stop flag set, or on a
/// wait, after a look that did not, that finds the event channel closed.
pub proof fn law_run_ends_on_stop_or_closed_channel(terms: Terms, states: Seq<RunState>, parts: Seq<Seq<Call>>)
    requires
        is_whole_course(terms, states, parts),
        states.last().phase == Phase::Stopped,
    ensures
        parts.last() == seq![Call::Look { flag: terms.flag, set: true }] || parts.last() == seq![
            Call::Look { flag: terms.flag, set: false },
            Call::Wait { events: terms.events, nanos: QUIET_NANOS, reply: Reply::Closed },
        ],
{
    law_run_begins_with_a_pass(terms, states, parts);
    lemma_course_drop_last(terms, states, parts);
    let from = states.drop_last().last();
    let seen = choose|seen: Observation| #[trigger]
        is_seen_by(terms, from, parts.last(), states.last().opened, seen) && states.last().phase == phase_after(
            from.phase,
            seen,
        );
}

/// The error of a pass is handed to the function that is told of failures, and
/// the loop goes on: it becomes idle, and the next event or the next quiet time
/// leads to a new pass.
pub proof fn law_failed_pass_is_reported<F: Fn(Phase, &AudioError)>(
    report: F,
    terms: Terms,
    from: RunState,
    calls: Seq<Call>,
    to: RunState,
    at: int,
)
    requires
        is_move(terms, from, calls, to),
        are_told(report, calls),
        0 <= at < calls.len(),
        error_of(calls[at]) is Some,
    ensures
        at == calls.len() - 2,
        calls.last() == (Call::Report { phase: from.phase, failure: error_of(calls[at])->0 }),
        call_ensures(report, (from.phase, &error_of(calls[at])->0), ()),
        to.phase == Phase::Idle,
{
    law_move_makes_the_pass_that_is_due(terms, from, calls, to);
    if !pass_is_due(from.phase) {
        assert(!is_to_controller(calls[at]));
    } else {
        let (pass, outcome) = lemma_reported_pass(
            terms.policy,
            from.phase,
            calls,
            (terms.policy.left, terms.policy.right),
        );
        if at < pass.len() {
            assert(pass[at] == calls[at]);
            law_first_error_ends_the_pass(terms.policy, pass, outcome, at);
        }
    }
}

/// A run subscribes once, before any other call.
pub proof fn law_run_subscribes_once(
    policy: BalancePolicy,
    flag: AtomicBool,
    calls: Seq<Call>,
    outcome: AudioResult<()>,
    at: int,
)
    requires
        is_run(policy, flag, calls, outcome),
        0 <= at < calls.len(),
    ensures
        calls[at] is Subscribe <==> at == 0,
{
    if let Call::Subscribe(Ok(events)) = calls[0] {
        let terms = Terms { policy, flag, events };
        let (states, parts) = choose|states: Seq<RunState>, parts: Seq<Seq<Call>>|
            #![trigger is_whole_course(terms, states, parts)]
            is_whole_course(terms, states, parts) && calls == seq![calls[0], Call::Clock(states[0].opened)]
                + parts.flatten();
        if at >= 2 {
            assert(calls[at] == parts.flatten()[at - 2]);
            lemma_course_calls(terms, states, parts, at - 2);
        }
    }
}

/// Every write of a run is the target of its channel, left to 0 or right to 1,
/// written right after that channel was read as drifted.
pub proof fn law_write_of_a_run_follows_a_drifted_read(
    policy: BalancePolicy,
    flag: AtomicBool,
    calls: Seq<Call>,
    outcome: AudioResult<()>,
    at: int,
)
    requires
        is_run(policy, flag, calls, outcome),
        0 <= at < calls.len(),
        calls[at] is Write,
    ensures
        is_wanted_write(policy, calls, at),
{
    if let Call::Subscribe(Ok(events)) = calls[0] {
        let terms = Terms { policy, flag, events };
        let (states, parts) = choose|states: Seq<RunState>, parts: Seq<Seq<Call>>|
            #![trigger is_whole_course(terms, states, parts)]
            is_whole_course(terms, states, parts) && calls == seq![calls[0], Call::Clock(states[0].opened)]
                + parts.flatten();
        assert(calls[at] == parts.flatten()[at - 2]);
        lemma_course_calls(terms, states, parts, at - 2);
        assert(calls[at - 1] == parts.flatten()[at - 3]);
    }
}

/// No call of a course subscribes, and each of its writes is wanted.
proof fn lemma_course_calls(terms: Terms, states: Seq<RunState>, parts: Seq<Seq<Call>>, at: int)
    requires
        is_course(terms, states, parts),
        0 <= at < parts.flatten().len(),
    ensures
        !(parts.flatten()[at] is Subscribe),
        parts.flatten()[at] is Write ==> is_wanted_write(terms.policy, parts.flatten(), at),
    decreases parts.len(),
{
    if parts.len() > 0 {
        lemma_course_drop_last(terms, states, parts);
        let before = parts.drop_last().flatten();
        let part = parts.last();
        if at < before.len() {
            lemma_course_calls(terms, states.drop_last(), parts.drop_last(), at);
            assert(parts.flatten()[at] == before[at]);
            if at > 0 {
                assert(parts.flatten()[at - 1] == before[at - 1]);
            }
        } else {
            let i = at - before.len();
            assert(parts.flatten()[at] == part[i]);
            let from = states.drop_last().last();
            law_move_makes_the_pass_that_is_due(terms, from, part, states.last());
            if pass_is_due(from.phase) {
                let (pass, outcome) = lemma_reported_pass(
                    terms.policy,
                    from.phase,
                    part,
                    (terms.policy.left, terms.policy.right),
                );
                if i < pass.len() {
                    assert(part[i] == pass[i]);
                    lemma_pass_calls(terms.policy, pass, outcome);
                    if part[i] is Write {
                        law_write_follows_a_drifted_read(terms.policy, pass, outcome, i);
                        assert(part[i - 1] == pass[i - 1]);
                        assert(parts.flatten()[at - 1] == part[i - 1]);
                    }
                }
            } else {
                assert(!is_to_controller(part[i]));
            }
        }
    }
}

/// A pass neither subscribes nor reports.
pub proof fn lemma_pass_calls(policy: BalancePolicy, calls: Seq<Call>, outcome: AudioResult<()>)
    requires
        is_pass(policy, calls, outcome),
    ensures
        forall|i: int| 0 <= i < calls.len() ==> !(#[trigger] calls[i] is Subscribe) && !(calls[i] is Report),
{
    if calls[0] == Call::Count(Ok(2)) {
        let (left, so_far, right) = lemma_pass_parts(policy, calls, outcome);
        assert forall|i: int| 0 <= i < calls.len() implies !(#[trigger] calls[i] is Subscribe) && !(calls[i] is Report) by {
            if 1 <= i <= left.len() {
                assert(calls[i] == left[i - 1]);
            } else if i > 0 {
                assert(calls[i] == right[i - 1 - left.len()]);
            }
        }
    }
}

/// A device at rest is not written by any pass.
proof fn lemma_settled_course(terms: Terms, states: Seq<RunState>, parts: Seq<Seq<Call>>, levels: (Level, Level))
    requires
        is_course(terms, states, parts),
        is_obliging(parts.flatten()),
        remembers(levels, parts.flatten()),
        is_within(levels.0, terms.policy.left, terms.policy.tolerance),
        is_within(levels.1, terms.policy.right, terms.policy.tolerance),
    ensures
        writes(parts.flatten()) == Seq::<(u32, Level)>::empty(),
        levels_after(levels, parts.flatten()) == levels,
    decreases parts.len(),
{
    if parts.len() == 0 {
        assert(parts.flatten() =~= Seq::empty());
        lemma_bystanders(parts.flatten(), levels);
    } else {
        lemma_course_drop_last(terms, states, parts);
        let before = parts.drop_last().flatten();
        let part = parts.last();
        lemma_obliging_add(before, part);
        lemma_levels_add(levels, before, part);
        lemma_settled_course(terms, states.drop_last(), parts.drop_last(), levels);
        lemma_writes_add(before, part);
        let from = states.drop_last().last();
        law_move_makes_the_pass_that_is_due(terms, from, part, states.last());
        if pass_is_due(from.phase) {
            lemma_obliging_pass(terms.policy, from.phase, part, levels);
            assert(due_writes(terms.policy, levels) =~= Seq::empty());
        } else {
            lemma_bystanders(part, levels);
        }
        assert(writes(parts.flatten()) =~= Seq::empty());
    }
}

/// What a pass does to a device that obliges and remembers.
proof fn lemma_obliging_pass(policy: BalancePolicy, phase: Phase, calls: Seq<Call>, levels: (Level, Level))
    requires
        is_reported_pass(policy, phase, calls),
        is_obliging(calls),
        remembers(levels, calls),
    ensures
        writes(calls) == due_writes(policy, levels),
        levels_after(levels, calls) == (
            policy.corrected(levels.0, policy.left),
            policy.corrected(levels.1, policy.right),
        ),
{
    let (pass, outcome) = lemma_reported_pass(policy, phase, calls, levels);
    lemma_obliging_add(pass, report_of(phase, outcome));
    assert(pass[0] == Call::Count(Ok(2)));
    if let Err(error) = outcome {
        law_error_is_that_of_the_last_call(policy, pass, outcome, error);
        assert(pass[pass.len() - 1] == pass.last());
        lemma_last_read(levels, pass);
    }
    lemma_pass(policy, pass, outcome, levels);
}

proof fn lemma_last_read(levels: (Level, Level), calls: Seq<Call>)
    requires
        calls.len() > 0,
        remembers(levels, calls),
    ensures
        calls.last() matches Call::Read { reply, .. } ==> reply is Ok,
{
}

/// A run does not write to a device that stays at its levels: on a stereo
/// device whose writes succeed and that remembers what is set, the first pass
/// writes what the device is due, and no later pass, in no storm of events,
/// writes anything.
pub proof fn law_only_the_first_pass_writes(
    terms: Terms,
    states: Seq<RunState>,
    parts: Seq<Seq<Call>>,
    levels: (Level, Level),
)
    requires
        terms.policy.can_settle(),
        is_whole_course(terms, states, parts),
        is_obliging(parts.flatten()),
        remembers(levels, parts.flatten()),
    ensures
        writes(parts.flatten()) == due_writes(terms.policy, levels),
        writes(parts[0]) == due_writes(terms.policy, levels),
        levels_after(levels, parts.flatten()) == (
            terms.policy.corrected(levels.0, terms.policy.left),
            terms.policy.corrected(levels.1, terms.policy.right),
        ),
{
    law_run_begins_with_a_pass(terms, states, parts);
    lemma_course_drop_first(terms, states, parts);
    let rest = parts.drop_first().flatten();
    lemma_obliging_add(parts[0], rest);
    lemma_levels_add(levels, parts[0], rest);
    lemma_writes_add(parts[0], rest);
    lemma_obliging_pass(terms.policy, Phase::Startup, parts[0], levels);
    lemma_corrected_is_settled(terms.policy, levels);
    lemma_settled_course(terms, states.drop_first(), parts.drop_first(), levels_after(levels, parts[0]));
    assert(writes(parts.flatten()) =~= due_writes(terms.policy, levels));
}

/// A pass begins with its one count and makes no other calls than counting,
/// reading and writing.
pub proof fn law_pass_counts_once(policy: BalancePolicy, calls: Seq<Call>, outcome: AudioResult<()>, at: int)
    requires
        is_pass(policy, calls, outcome),
        0 <= at < calls.len(),
    ensures
        calls[at] is Count <==> at == 0,
        at > 0 ==> calls[at] is Read || calls[at] is Write,
{
    if calls[0] == Call::Count(Ok(2)) {
        let (left, so_far, right) = lemma_pass_parts(policy, calls, outcome);
        if 1 <= at <= left.len() {
            assert(calls[at] == left[at - 1]);
        } else if at > 0 {
            assert(calls[at] == right[at - 1 - left.len()]);
        }
    }
}

/// What is read decides what is written: after a drifted level the very next
/// call writes the policy's level to that channel, and after one that is close
/// enough the channel is not written at all.
pub proof fn law_drift_is_written_back(
    policy: BalancePolicy,
    calls: Seq<Call>,
    outcome: AudioResult<()>,
    at: int,
    channel: u32,
    current: Level,
)
    requires
        is_pass(policy, calls, outcome),
        0 <= at < calls.len(),
        calls[at] == (Call::Read { channel, reply: Ok(current) }),
    ensures
        channel == 0 || channel == 1,
        channel == 0 && !is_within(current, policy.left, policy.tolerance) ==> at + 1 < calls.len() && (calls[at
            + 1] matches Call::Write { channel: written, level, .. } && written == 0 && level == policy.left),
        channel == 1 && !is_within(current, policy.right, policy.tolerance) ==> at + 1 < calls.len() && (calls[at
            + 1] matches Call::Write { channel: written, level, .. } && written == 1 && level == policy.right),
        channel == 0 && is_within(current, policy.left, policy.tolerance) ==> forall|i: int|
            0 <= i < calls.len() ==> (#[trigger] calls[i] matches Call::Write { channel: written, .. } ==> written != 0),
        channel == 1 && is_within(current, policy.right, policy.tolerance) ==> forall|i: int|
            0 <= i < calls.len() ==> (#[trigger] calls[i] matches Call::Write { channel: written, .. } ==> written != 1),
{
    law_pass_counts_once(policy, calls, outcome, at);
    let (left, so_far, right) = lemma_pass_parts(policy, calls, outcome);
    assert forall|i: int| 0 < i < calls.len() implies (#[trigger] calls[i]) == (if i <= left.len() {
        left[i - 1]
    } else {
        right[i - 1 - left.len()]
    }) by {}
    if at <= left.len() {
        assert(calls[at] == left[at - 1]);
        assert(at == 1);
        if left.len() == 2 {
            assert(calls[2] == left[1]);
        }
    } else {
        assert(calls[at] == right[at - 1 - left.len()]);
        assert(at == left.len() + 1);
        if right.len() == 2 {
            assert(calls[at + 1] == right[1]);
        }
    }
}

/// A pass that succeeds on a stereo device has read both channels.
pub proof fn law_successful_pass_reads_both_channels(policy: BalancePolicy, calls: Seq<Call>)
    requires
        is_pass(policy, calls, Ok(())),
        calls[0] == Call::Count(Ok(2)),
    ensures
        calls[1] matches Call::Read { channel, .. } && channel == 0,
        exists|i: int|
            1 < i < calls.len() && (#[trigger] calls[i] matches Call::Read { channel, .. } && channel == 1),
{
    let (left, so_far, right) = lemma_pass_parts(policy, calls, Ok(()));
    assert(calls[1] == left[0]);
    let i = left.len() + 1int;
    assert(calls[i] == right[0]);
}

/// Call `b` may come right after call `a` in a course.
spec fn may_follow(terms: Terms, a: Call, b: Call) -> bool {
    match a {
        Call::Look { flag, set } => flag == terms.flag && !set && (b matches Call::Wait { events, nanos, .. } && events
            == terms.events && nanos == 5_000_000_000),
        Call::Wait { nanos, reply, .. } => if nanos > 50_000_000 {
            match reply {
                Reply::Quiet => b is Count,
                Reply::Event(_) => b is Clock,
                Reply::Closed => false,
            }
        } else {
            match reply {
                Reply::Event(_) => b is Elapsed,
                _ => b is Count,
            }
        },
        Call::Clock(at) => b matches Call::Elapsed { since, .. } && since == at,
        Call::Elapsed { nanos: gone, .. } => if gone <= 50_000_000 {
            b matches Call::Wait { events, nanos, .. } && events == terms.events && nanos + gone == 50_000_000
        } else {
            b is Count
        },
        Call::Report { .. } => b is Look,
        Call::Count(Err(error)) => b matches Call::Report { failure, .. } && failure == error,
        Call::Count(Ok(channels)) => if channels == 2 {
            b matches Call::Read { channel, .. } && channel == 0
        } else {
            b is Look
        },
        Call::Read { reply: Err(error), .. } => b matches Call::Report { failure, .. } && failure == error,
        Call::Read { channel, reply: Ok(current) } => {
            let target = if channel == 0 {
                terms.policy.left
            } else {
                terms.policy.right
            };
            &&& channel == 0 || channel == 1
            &&& if !is_within(current, target, terms.policy.tolerance) {
                b matches Call::Write { channel: written, level, .. } && written == channel && level == target
            } else if channel == 0 {
                b matches Call::Read { channel: read, .. } && read == 1
            } else {
                b is Look
            }
        },
        Call::Write { reply: Err(error), .. } => b matches Call::Report { failure, .. } && failure == error,
        Call::Write { channel, .. } => if channel == 0 {
            b matches Call::Read { channel: read, .. } && read == 1
        } else {
            b is Look
        },
        Call::Subscribe(_) => false,
    }
}

/// How a pass goes on, and what comes after it.
proof fn lemma_pass_follows(terms: Terms, calls: Seq<Call>, outcome: AudioResult<()>, phase: Phase, at: int, look: Call)
    requires
        is_pass(terms.policy, calls, outcome),
        0 <= at < calls.len(),
        look is Look,
    ensures
        at + 1 < calls.len() ==> may_follow(terms, calls[at], calls[at + 1]),
        at + 1 == calls.len() && outcome is Ok ==> may_follow(terms, calls[at], look),
        at + 1 == calls.len() ==> (outcome matches Err(failure) ==> may_follow(
            terms,
            calls[at],
            Call::Report { phase, failure },
        )),
{
    if let Err(error) = outcome {
        law_error_is_that_of_the_last_call(terms.policy, calls, outcome, error);
    }
    if calls[0] == Call::Count(Ok(2)) {
        let (left, so_far, right) = lemma_pass_parts(terms.policy, calls, outcome);
        assert(calls[1] == left[0]);
        if left.len() == 2 {
            assert(calls[2] == left[1]);
        }
        if so_far is Ok {
            assert(calls[left.len() + 1int] == right[0]);
            if right.len() == 2 {
                assert(calls[left.len() + 2int] == right[1]);
            }
        }
    }
}

/// How a move begins.
proof fn lemma_part_begins(terms: Terms, from: RunState, calls: Seq<Call>, to: RunState)
    requires
        is_move(terms, from, calls, to),
    ensures
        calls.len() > 0,
        from.phase == Phase::Idle ==> calls[0] is Look,
        from.phase == Phase::Draining ==> (calls[0] matches Call::Elapsed { since, .. } && since == from.opened),
        pass_is_due(from.phase) ==> calls[0] is Count,
{
    if pass_is_due(from.phase) {
        law_move_makes_the_pass_that_is_due(terms, from, calls, to);
        let (pass, outcome) = lemma_reported_pass(
            terms.policy,
            from.phase,
            calls,
            (terms.policy.left, terms.policy.right),
        );
        assert(calls[0] == pass[0]);
    }
}

/// How a move goes on, and what comes after it.
proof fn lemma_part_follows(terms: Terms, from: RunState, calls: Seq<Call>, to: RunState, at: int, next: Call)
    requires
        is_move(terms, from, calls, to),
        0 <= at < calls.len(),
        to.phase == Phase::Idle ==> next is Look,
        to.phase == Phase::Draining ==> (next matches Call::Elapsed { since, .. } && since == to.opened),
        pass_is_due(to.phase) ==> next is Count,
        to.phase != Phase::Stopped,
    ensures
        at + 1 < calls.len() ==> may_follow(terms, calls[at], calls[at + 1]),
        at + 1 == calls.len() ==> may_follow(terms, calls[at], next),
{
    let seen = choose|seen: Observation| #[trigger]
        is_seen_by(terms, from, calls, to.opened, seen) && to.phase == phase_after(from.phase, seen);
    if pass_is_due(from.phase) {
        law_move_makes_the_pass_that_is_due(terms, from, calls, to);
        let (pass, outcome) = lemma_reported_pass(
            terms.policy,
            from.phase,
            calls,
            (terms.policy.left, terms.policy.right),
        );
        if at < pass.len() {
            lemma_pass_follows(terms, pass, outcome, from.phase, at, next);
            assert(calls[at] == pass[at]);
            if at + 1 < pass.len() {
                assert(calls[at + 1] == pass[at + 1]);
            } else if outcome is Err {
                assert(calls[at + 1] == report_of(from.phase, outcome)[0]);
            }
        } else {
            assert(calls[at] == report_of(from.phase, outcome)[at - pass.len()]);
        }
    }
}

proof fn lemma_part_follows_inside(terms: Terms, from: RunState, calls: Seq<Call>, to: RunState, at: int)
    requires
        is_move(terms, from, calls, to),
        0 <= at,
        at + 1 < calls.len(),
    ensures
        may_follow(terms, calls[at], calls[at + 1]),
{
    let next = match to.phase {
        Phase::Idle => Call::Look { flag: terms.flag, set: false },
        Phase::Draining => Call::Elapsed { since: to.opened, nanos: 0 },
        _ => Call::Count(Ok(2)),
    };
    if to.phase != Phase::Stopped {
        lemma_part_follows(terms, from, calls, to, at, next);
    }
}

proof fn lemma_course_follows(terms: Terms, states: Seq<RunState>, parts: Seq<Seq<Call>>, at: int)
    requires
        is_course(terms, states, parts),
        0 <= at,
        at + 1 < parts.flatten().len(),
    ensures
        may_follow(terms, parts.flatten()[at], parts.flatten()[at + 1]),
    decreases parts.len(),
{
    let all = parts.flatten();
    if parts.len() == 0 {
        assert(all =~= Seq::empty());
    } else {
        lemma_course_drop_first(terms, states, parts);
        let first = parts[0];
        let rest = parts.drop_first().flatten();
        if at + 1 < first.len() {
            assert(all[at] == first[at] && all[at + 1] == first[at + 1]);
            lemma_part_follows_inside(terms, states[0], first, states[1], at);
        } else if at + 1 == first.len() {
            assert(all[at] == first[at] && all[at + 1] == rest[0]);
            if parts.len() == 1 {
                assert(parts.drop_first().flatten() =~= Seq::empty());
            } else {
                lemma_course_drop_first(terms, states.drop_first(), parts.drop_first());
                assert(parts.drop_first()[0] == parts[1]);
                assert(states.drop_first()[0] == states[1] && states.drop_first()[1] == states[2]);
                lemma_part_begins(terms, states[1], parts[1], states[2]);
                assert(rest[0] == parts[1][0]);
                lemma_waiting_move(terms, states[1], parts[1], states[2]);
                lemma_part_follows(terms, states[0], first, states[1], at, rest[0]);
            }
        } else {
            let i = at - first.len();
            assert(all[at] == rest[i] && all[at + 1] == rest[i + 1]);
            lemma_course_follows(terms, states.drop_first(), parts.drop_first(), i);
        }
    }
}

proof fn lemma_run_course(policy: BalancePolicy, flag: AtomicBool, calls: Seq<Call>) -> (course: (
    Terms,
    Seq<RunState>,
    Seq<Seq<Call>>,
))
    requires
        is_run(policy, flag, calls, Ok(())),
    ensures
        is_whole_course(course.0, course.1, course.2),
        course.0.policy == policy,
        course.0.flag == flag,
        calls[0] == Call::Subscribe(Ok(course.0.events)),
        calls == seq![calls[0], Call::Clock(course.1[0].opened)] + course.2.flatten(),
{
    let events = calls[0]->Subscribe_0->Ok_0;
    let terms = Terms { policy, flag, events };
    let (states, parts) = choose|states: Seq<RunState>, parts: Seq<Seq<Call>>|
        #![trigger is_whole_course(terms, states, parts)]
        is_whole_course(terms, states, parts) && calls == seq![calls[0], Call::Clock(states[0].opened)]
            + parts.flatten();
    (terms, states, parts)
}

/// How a run goes on, from each call to the next. It subscribes, reads the
/// clock and makes a pass. Idle, it looks at the stop flag, and unless that is
/// set waits for five seconds, once; silence leads straight to a pass, an
/// event to a burst. A burst begins at a moment read from the clock and is
/// swallowed for what is left of its fifty milliseconds, and then a pass
/// follows. A pass counts, reads, and writes what has drifted, left before
/// right; what fails is reported, and the loop is idle again.
pub proof fn law_run_goes_on(policy: BalancePolicy, flag: AtomicBool, calls: Seq<Call>, at: int)
    requires
        is_run(policy, flag, calls, Ok(())),
        0 <= at,
        at + 1 < calls.len(),
    ensures
        at == 0 <==> calls[at] is Subscribe,
        at == 0 ==> calls[1] is Clock,
        at == 1 ==> calls[2] is Count,
        at > 1 ==> match calls[at] {
            Call::Subscribe(_) => false,
            Call::Look { flag: seen, set } => {
                &&& seen == flag
                &&& !set
                &&& calls[at + 1] matches Call::Wait { events, nanos, .. } && nanos == 5_000_000_000 && calls[0]
                    == Call::Subscribe(Ok(events))
            },
            Call::Wait { nanos, reply, .. } => if nanos > 50_000_000 {
                match reply {
                    Reply::Quiet => calls[at + 1] is Count,
                    Reply::Event(_) => calls[at + 1] is Clock,
                    Reply::Closed => false,
                }
            } else {
                match reply {
                    Reply::Event(_) => calls[at + 1] is Elapsed,
                    _ => calls[at + 1] is Count,
                }
            },
            Call::Clock(moment) => calls[at + 1] matches Call::Elapsed { since, .. } && since == moment,
            Call::Elapsed { nanos: gone, .. } => if gone <= 50_000_000 {
                calls[at + 1] matches Call::Wait { events, nanos, .. } && nanos + gone == 50_000_000 && calls[0]
                    == Call::Subscribe(Ok(events))
            } else {
                calls[at + 1] is Count
            },
            Call::Report { .. } => calls[at + 1] is Look,
            Call::Count(reply) => match reply {
                Err(error) => calls[at + 1] matches Call::Report { failure, .. } && failure == error,
                Ok(channels) => if channels == 2 {
                    calls[at + 1] matches Call::Read { channel, .. } && channel == 0
                } else {
                    calls[at + 1] is Look
                },
            },
            Call::Read { channel, reply } => match reply {
                Err(error) => calls[at + 1] matches Call::Report { failure, .. } && failure == error,
                Ok(current) => if channel == 0 {
                    if is_within(current, policy.left, policy.tolerance) {
                        calls[at + 1] matches Call::Read { channel: read, .. } && read == 1
                    } else {
                        calls[at + 1] matches Call::Write { channel: written, level, .. } && written == 0 && level
                            == policy.left
                    }
                } else {
                    channel == 1 && if is_within(current, policy.right, policy.tolerance) {
                        calls[at + 1] is Look
                    } else {
                        calls[at + 1] matches Call::Write { channel: written, level, .. } && written == 1 && level
                            == policy.right
                    }
                },
            },
            Call::Write { channel, reply, .. } => match reply {
                Err(error) => calls[at + 1] matches Call::Report { failure, .. } && failure == error,
                Ok(_) => if channel == 0 {
                    calls[at + 1] matches Call::Read { channel: read, .. } && read == 1
                } else {
                    calls[at + 1] is Look
                },
            },
        },
{
    let (terms, states, parts) = lemma_run_course(policy, flag, calls);
    let all = parts.flatten();
    law_run_subscribes_once(policy, flag, calls, Ok(()), at);
    law_run_begins_with_a_pass(terms, states, parts);
    lemma_course_drop_first(terms, states, parts);
    lemma_part_begins(terms, states[0], parts[0], states[1]);
    assert(all[0] == parts[0][0]);
    if at == 1 {
        assert(calls[2] == all[0]);
    }
    if at > 1 {
        assert(calls[at] == all[at - 2] && calls[at + 1] == all[at - 1]);
        lemma_course_follows(terms, states, parts, at - 2);
        assert(may_follow(terms, calls[at], calls[at + 1]));
    }
}

/// A run that succeeds has seen the stop flag set, or has waited five seconds
/// at most on a channel that was closed. (Short of that it would have made
/// more calls than can be counted in a hundred and twenty-eight bits.)
pub proof fn law_run_ends_for_a_reason(policy: BalancePolicy, flag: AtomicBool, calls: Seq<Call>)
    requires
        is_run(policy, flag, calls, Ok(())),
    ensures
        calls.last() == (Call::Look { flag, set: true }) || (calls.last() matches Call::Wait { nanos, reply, .. }
            && nanos == 5_000_000_000 && reply == Reply::Closed) || calls.len()
            > 0xffff_ffff_ffff_ffff_ffff_ffff_ffff_ffff,
{
    let (terms, states, parts) = lemma_run_course(policy, flag, calls);
    let all = parts.flatten();
    lemma_parts_are_counted(terms, states, parts);
    if states.last().phase == Phase::Stopped {
        law_run_ends_on_stop_or_closed_channel(terms, states, parts);
        lemma_course_drop_last(terms, states, parts);
        assert(all.last() == parts.last().last());
        assert(calls.last() == all.last());
    }
}

proof fn lemma_parts_are_counted(terms: Terms, states: Seq<RunState>, parts: Seq<Seq<Call>>)
    requires
        is_course(terms, states, parts),
    ensures
        parts.flatten().len() >= parts.len(),
    decreases parts.len(),
{
    if parts.len() > 0 {
        lemma_course_drop_last(terms, states, parts);
        lemma_parts_are_counted(terms, states.drop_last(), parts.drop_last());
        lemma_part_begins(terms, states.drop_last().last(), parts.last(), states.last());
    }
}

/// The moment that was last read from the clock before call `at`.
pub open spec fn latest_clock(calls: Seq<Call>, at: int) -> Option<Instant>
    decreases at,
{
    if at <= 0 {
        None
    } else if let Call::Clock(moment) = calls[at - 1] {
        Some(moment)
    } else {
        latest_clock(calls, at - 1)
    }
}

proof fn lemma_latest_clock_prefix(a: Seq<Call>, b: Seq<Call>, at: int)
    requires
        0 <= at <= a.len(),
    ensures
        latest_clock(a + b, at) == latest_clock(a, at),
    decreases at,
{
    if at > 0 {
        assert((a + b)[at - 1] == a[at - 1]);
        lemma_latest_clock_prefix(a, b, at - 1);
    }
}

proof fn lemma_latest_clock_unread(calls: Seq<Call>, from: int, at: int)
    requires
        0 <= from <= at <= calls.len(),
        forall|i: int| from <= i < at ==> !(#[trigger] calls[i] is Clock),
    ensures
        latest_clock(calls, at) == latest_clock(calls, from),
    decreases at - from,
{
    if from < at {
        assert(!(calls[at - 1] is Clock));
        lemma_latest_clock_unread(calls, from, at - 1);
    }
}

proof fn lemma_latest_clock(
    terms: Terms,
    states: Seq<RunState>,
    parts: Seq<Seq<Call>>,
    head: Seq<Call>,
    at: int,
)
    requires
        is_course(terms, states, parts),
        head.len() > 0,
        latest_clock(head, head.len() as int) == Some(states[0].opened),
        forall|i: int| 0 <= i < head.len() ==> !(#[trigger] head[i] is Elapsed),
        0 <= at < (head + parts.flatten()).len(),
    ensures
        latest_clock(head + parts.flatten(), (head + parts.flatten()).len() as int) == Some(states.last().opened),
        (head + parts.flatten())[at] matches Call::Elapsed { since, .. } ==> latest_clock(head + parts.flatten(), at)
            == Some(since),
    decreases parts.len(),
{
    let all = head + parts.flatten();
    if parts.len() == 0 {
        assert(parts.flatten() =~= Seq::empty());
        assert(all =~= head);
    } else {
        lemma_course_drop_last(terms, states, parts);
        let shorter = head + parts.drop_last().flatten();
        let part = parts.last();
        assert(all =~= shorter + part);
        assert(states.drop_last()[0] == states[0]);
        let from = states.drop_last().last();
        let n = shorter.len() as int;
        lemma_latest_clock(terms, states.drop_last(), parts.drop_last(), head, if at < n {
            at
        } else {
            0
        });
        lemma_latest_clock_prefix(shorter, part, n);
        if at < n {
            lemma_latest_clock_prefix(shorter, part, at);
            assert(all[at] == shorter[at]);
        }
        assert forall|i: int| n <= i < all.len() implies #[trigger] all[i] == part[i - n] by {}
        lemma_part_begins(terms, from, part, states.last());
        let seen = choose|seen: Observation| #[trigger]
            is_seen_by(terms, from, part, states.last().opened, seen) && states.last().phase == phase_after(
                from.phase,
                seen,
            );
        if from.phase == Phase::Idle {
            if states.last().phase == Phase::Draining {
                assert(part.len() == 3 && part[2] == Call::Clock(states.last().opened));
                assert(all[n + 2] == part[2]);
                assert(all.len() == n + 3);
            } else {
                assert forall|i: int| n <= i < all.len() implies !(#[trigger] all[i] is Clock) by {
                    assert(all[i] == part[i - n]);
                }
                lemma_latest_clock_unread(all, n, all.len() as int);
            }
        } else {
            if pass_is_due(from.phase) {
                law_move_makes_the_pass_that_is_due(terms, from, part, states.last());
                let (pass, outcome) = lemma_reported_pass(
                    terms.policy,
                    from.phase,
                    part,
                    (terms.policy.left, terms.policy.right),
                );
                assert forall|i: int| 0 <= i < part.len() implies !(#[trigger] part[i] is Clock) && !(part[i] is Elapsed) by {
                    if i < pass.len() {
                        assert(part[i] == pass[i]);
                        law_pass_counts_once(terms.policy, pass, outcome, i);
                    }
                }
            }
            assert forall|i: int| n <= i < all.len() implies !(#[trigger] all[i] is Clock) by {
                assert(all[i] == part[i - n]);
            }
            lemma_latest_clock_unread(all, n, all.len() as int);
        }
        if at >= n {
            assert(all[at] == part[at - n]);
            if all[at] is Elapsed {
                assert(at == n);
            }
        }
    }
}

/// A burst is timed from its first event: the time that has gone by is always
/// counted from the latest moment read from the clock, which is read once for
/// each burst.
pub proof fn law_burst_is_timed_from_its_first_event(policy: BalancePolicy, flag: AtomicBool, calls: Seq<Call>, at: int)
    requires
        is_run(policy, flag, calls, Ok(())),
        0 <= at < calls.len(),
        calls[at] is Elapsed,
    ensures
        calls[at] matches Call::Elapsed { since, .. } && latest_clock(calls, at) == Some(since),
{
    let (terms, states, parts) = lemma_run_course(policy, flag, calls);
    let head = seq![calls[0], Call::Clock(states[0].opened)];
    reveal_with_fuel(latest_clock, 3);
    lemma_latest_clock(terms, states, parts, head, at);
}

/// No wait of a run is longer than five seconds; one longer than fifty
/// milliseconds lasts exactly five seconds and comes right after a look that
/// found the stop flag unset. So two such waits never go without a look
/// between them.
pub proof fn law_waits_are_bounded(policy: BalancePolicy, flag: AtomicBool, calls: Seq<Call>, at: int)
    requires
        is_run(policy, flag, calls, Ok(())),
        0 <= at < calls.len(),
        calls[at] is Wait,
    ensures
        at > 2,
        calls[at] matches Call::Wait { nanos, .. } && (nanos <= 50_000_000 || nanos == 5_000_000_000 && calls[at - 1] == (
        Call::Look { flag, set: false })),
{
    law_run_subscribes_once(policy, flag, calls, Ok(()), at);
    if at == 1 {
        law_run_goes_on(policy, flag, calls, 0);
    } else if at == 2 {
        law_run_goes_on(policy, flag, calls, 1);
    } else {
        law_run_goes_on(policy, flag, calls, at - 1);
    }
}

} // verus!
