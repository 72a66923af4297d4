//! What the enforcer needs of an audio backend, and the policy it enforces.

use crate::failure::IoFailure;
use crate::level::{distance, is_within, Level};
use crate::text::{decimal, show_decimal};
use crossbeam_channel::Receiver;
use vstd::arithmetic::power2::{lemma2_to64, lemma_pow2_adds, lemma_pow2_pos, pow2};
use vstd::prelude::*;
use vstd::string::*;

verus! {

pub type AudioResult<T> = Result<T, AudioError>;

#[derive(Debug)]
pub enum AudioError {
    ComInit(String),
    Activate(String),
    GetLevel { channel: u32, message: String },
    SetLevel { channel: u32, message: String },
    UnsupportedChannelCount(u32),
    DeviceDisappeared,
    TargetNotConfigured,
    Unsupported,
    Io(IoFailure),
    CallbackRegistration(String),
}

impl AudioError {
    /// The error in words.
    pub open spec fn text(&self) -> Seq<char> {
        match self {
            AudioError::ComInit(message) => "COM initialization failed: "@ + message@,
            AudioError::Activate(message) => "failed to activate audio endpoint: "@ + message@,
            AudioError::GetLevel { channel, message } => "failed to read channel "@ + decimal(*channel as nat)
                + " level: "@ + message@,
            AudioError::SetLevel { channel, message } => "failed to write channel "@ + decimal(*channel as nat)
                + " level: "@ + message@,
            AudioError::UnsupportedChannelCount(count) => "unsupported channel count: "@ + decimal(*count as nat)
                + " (only stereo is handled)"@,
            AudioError::DeviceDisappeared => "target device is not present"@,
            AudioError::TargetNotConfigured => "no target device configured; run `--install` first"@,
            AudioError::Unsupported => "audio backend is not supported on this platform"@,
            AudioError::Io(failure) => failure.message@,
            AudioError::CallbackRegistration(message) => "registration of audio callback failed: "@ + message@,
        }
    }

    pub fn message(&self) -> (message: String)
        ensures
            message@ == self.text(),
    {
        match self {
            AudioError::ComInit(message) => "COM initialization failed: ".to_owned().concat(message.as_str()),
            AudioError::Activate(message) => "failed to activate audio endpoint: ".to_owned().concat(
                message.as_str(),
            ),
            AudioError::GetLevel { channel, message } => "failed to read channel ".to_owned().concat(
                show_decimal(*channel as u64).as_str(),
            ).concat(" level: ").concat(message.as_str()),
            AudioError::SetLevel { channel, message } => "failed to write channel ".to_owned().concat(
                show_decimal(*channel as u64).as_str(),
            ).concat(" level: ").concat(message.as_str()),
            AudioError::UnsupportedChannelCount(count) => "unsupported channel count: ".to_owned().concat(
                show_decimal(*count as u64).as_str(),
            ).concat(" (only stereo is handled)"),
            AudioError::DeviceDisappeared => "target device is not present".to_owned(),
            AudioError::TargetNotConfigured => "no target device configured; run `--install` first".to_owned(),
            AudioError::Unsupported => "audio backend is not supported on this platform".to_owned(),
            AudioError::Io(failure) => failure.message.clone(),
            AudioError::CallbackRegistration(message) => "registration of audio callback failed: ".to_owned().concat(
                message.as_str(),
            ),
        }
    }
}

/// Events delivered to the enforcer's loop.
#[derive(Debug, Clone, Copy, PartialEq, Eq, Structural)]
pub enum AudioEvent {
    /// The endpoint fired a volume-change notification.
    VolumeChanged,
    /// The target device was removed and has just reappeared.
    DeviceReappeared,
    /// Periodic watchdog tick (fallback in case callbacks stop firing).
    Tick,
}

/// Policy that defines the per-channel levels to enforce.
///
/// `tolerance` is the minimum absolute deviation that triggers a write; any
/// drift smaller than this is ignored to prevent write-loop storms between the
/// daemon and the audio engine's own re-equalization.
#[derive(Debug, Clone, Copy, PartialEq, Eq, Structural)]
pub struct BalancePolicy {
    pub left: Level,
    pub right: Level,
    pub tolerance: Level,
}

impl BalancePolicy {
    /// Both targets are ordinary numbers and the tolerance is above zero, so
    /// that a channel at its target needs no write.
    pub open spec fn can_settle(self) -> bool {
        &&& self.left.is_finite()
        &&& self.right.is_finite()
        &&& !self.tolerance.is_nan()
        &&& !self.tolerance.negative()
        &&& self.tolerance.magnitude() > 0
    }

    /// The level that a channel at `current` has after a pass that meets no
    /// error.
    pub open spec fn corrected(self, current: Level, target: Level) -> Level {
        if is_within(current, target, self.tolerance) {
            current
        } else {
            target
        }
    }

    /// Left at 0.0, right at 1.0, drift below 0.02 ignored. In units of the
    /// smallest positive level 1.0 is `2^149`, and the tolerance is the level
    /// nearest to the fiftieth part of it, where levels lie `2^120` apart.
    pub fn mute_left() -> (policy: Self)
        ensures
            policy.left.bits == 0,
            policy.right.bits == 0x3f80_0000,
            policy.tolerance.bits == 0x3ca3_d70a,
            policy.left.value() == 0,
            policy.right.value() == pow2(149),
            2 * distance(50 * policy.tolerance.value(), pow2(149) as int) <= 50 * pow2(120),
            policy.can_settle(),
    {
        let policy = BalancePolicy {
            left: Level::from_bits(0),
            right: Level::from_bits(0x3f80_0000),
            tolerance: Level::from_bits(0x3ca3_d70a),
        };
        proof {
            lemma2_to64();
            lemma_pow2_adds(23, 126);
            lemma_pow2_adds(29, 120);
            lemma_pow2_pos(120);
            assert(policy.left.significand() == 0);
            assert(policy.left.magnitude() == 0) by (nonlinear_arith)
                requires
                    policy.left.magnitude() == policy.left.significand() * pow2(policy.left.scale()),
                    policy.left.significand() == 0,
            ;
            assert(policy.tolerance.scale() == 120);
            assert(policy.tolerance.significand() == 10_737_418);
            assert(pow2(149) == 0x2000_0000 * pow2(120));
        }
        policy
    }

    /// What has to be written to a channel at `current`, if anything.
    pub fn correction(&self, current: Level, target: Level) -> (write: Option<Level>)
        ensures
            write == (if is_within(current, target, self.tolerance) {
                None
            } else {
                Some(target)
            }),
    {
        if current.is_within(target, self.tolerance) {
            None
        } else {
            Some(target)
        }
    }
}

/// The receiving end of a channel of `crossbeam-channel`, which the backend
/// hands out and the event loop waits on. Nothing is assumed of its contents.
#[verifier::external_type_specification]
#[verifier::external_body]
#[verifier::reject_recursive_types(T)]
pub struct ExReceiver<T>(crossbeam_channel::Receiver<T>);

/// Trait exposing the bits of the OS audio API that the enforcer depends on.
///
/// Implementations must be thread-safe because the enforcer spins up a worker
/// thread that reads and writes through this trait.
pub trait AudioController: Send + Sync {
    /// Number of channels on the underlying endpoint (typically 2 for stereo).
    fn channel_count(&self) -> AudioResult<u32>;

    /// Read the current scalar level (0.0 to 1.0) of a specific channel.
    fn get_channel(&self, channel: u32) -> AudioResult<Level>;

    /// Write the scalar level (0.0 to 1.0) of a specific channel.
    fn set_channel(&self, channel: u32, level: Level) -> AudioResult<()>;

    /// Returns a receiver that yields `AudioEvent`s from the OS.
    ///
    /// Implementations typically wire this up to platform callbacks plus a
    /// watchdog timer. Events must not be dispatched from the same thread that
    /// the enforcer uses for writes.
    fn subscribe(&self) -> AudioResult<Receiver<AudioEvent>>;
}

/// The policy says what is written: nothing for a level that is close enough,
/// and else the target itself.
pub proof fn law_correction_is_the_target(policy: BalancePolicy, current: Level, target: Level, write: Option<Level>)
    requires
        call_ensures(BalancePolicy::correction, (&policy, current, target), write),
    ensures
        write is None <==> is_within(current, target, policy.tolerance),
        write matches Some(level) ==> level == target,
{
}

/// The policy of the broken left speaker: left 0.0, right 1.0, and 0.02 as the
/// least drift that counts.
pub proof fn law_left_is_muted(policy: BalancePolicy)
    requires
        call_ensures(BalancePolicy::mute_left, (), policy),
    ensures
        policy.left == (Level { bits: 0 }),
        policy.right == (Level { bits: 0x3f80_0000 }),
        policy.tolerance == (Level { bits: 0x3ca3_d70a }),
{
}

/// Each error has its own words, which end in the words of the call that
/// failed and name its channel.
pub proof fn law_audio_errors_speak(error: AudioError, message: String)
    requires
        call_ensures(AudioError::message, (&error,), message),
    ensures
        match error {
            AudioError::ComInit(words) => message@ == "COM initialization failed: "@ + words@,
            AudioError::Activate(words) => message@ == "failed to activate audio endpoint: "@ + words@,
            AudioError::GetLevel { channel, message: words } => message@ == "failed to read channel "@ + decimal(
                channel as nat,
            ) + " level: "@ + words@,
            AudioError::SetLevel { channel, message: words } => message@ == "failed to write channel "@ + decimal(
                channel as nat,
            ) + " level: "@ + words@,
            AudioError::UnsupportedChannelCount(count) => message@ == "unsupported channel count: "@ + decimal(
                count as nat,
            ) + " (only stereo is handled)"@,
            AudioError::DeviceDisappeared => message@ == "target device is not present"@,
            AudioError::TargetNotConfigured => message@ == "no target device configured; run `--install` first"@,
            AudioError::Unsupported => message@ == "audio backend is not supported on this platform"@,
            AudioError::Io(failure) => message@ == failure.message@,
            AudioError::CallbackRegistration(words) => message@ == "registration of audio callback failed: "@ + words@,
        },
{
}

} // verus!
