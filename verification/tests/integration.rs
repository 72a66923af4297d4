//! The enforcer and the config, driven through a mock controller.

use std::path::PathBuf;
use std::sync::atomic::{AtomicBool, AtomicUsize, Ordering};
use std::sync::{Arc, Mutex};
use std::time::{Duration, Instant};

use crossbeam_channel::{bounded, Receiver, Sender};

use balance_enforcer::audio::{AudioController, AudioError, AudioEvent, AudioResult, BalancePolicy};
use balance_enforcer::config::Config;
use balance_enforcer::enforcer::{advance, enforce, reconcile, BalanceEnforcer, Phase, RunState};
use balance_enforcer::level::Level;
use balance_enforcer::watched::{Operator, Watched};

const TOL: f32 = 0.02;

fn level(value: f32) -> Level {
    Level::from_bits(value.to_bits())
}

fn mute_left() -> BalancePolicy {
    BalancePolicy { left: level(0.0), right: level(1.0), tolerance: level(TOL) }
}

struct MockAudio {
    channels: Mutex<Vec<f32>>,
    writes: Mutex<Vec<(u32, f32)>>,
    tx: Sender<AudioEvent>,
    rx: Mutex<Option<Receiver<AudioEvent>>>,
    fail_next_get: AtomicBool,
    fail_count: AtomicBool,
    fail_sets: AtomicBool,
    passes: AtomicUsize,
    /// How many events the first pass sets off.
    storm: AtomicUsize,
    /// The pass that sets this flag and nudges the loop.
    last_pass: Arc<Mutex<Option<(usize, Arc<AtomicBool>)>>>,
}

impl MockAudio {
    fn with(channels: Vec<f32>) -> Self {
        let (tx, rx) = bounded(256);
        Self {
            channels: Mutex::new(channels),
            writes: Mutex::new(Vec::new()),
            tx,
            rx: Mutex::new(Some(rx)),
            fail_next_get: AtomicBool::new(false),
            fail_count: AtomicBool::new(false),
            fail_sets: AtomicBool::new(false),
            passes: AtomicUsize::new(0),
            storm: AtomicUsize::new(0),
            last_pass: Arc::new(Mutex::new(None)),
        }
    }

    fn stereo(left: f32, right: f32) -> Self {
        Self::with(vec![left, right])
    }

    fn with_channel_count(count: u32) -> Self {
        Self::with(vec![0.5; count as usize])
    }

    fn writes(&self) -> Vec<(u32, f32)> {
        self.writes.lock().unwrap().clone()
    }

    fn channels(&self) -> Vec<f32> {
        self.channels.lock().unwrap().clone()
    }

    fn fail_next_get(&self) {
        self.fail_next_get.store(true, Ordering::SeqCst);
    }

    fn passes(&self) -> usize {
        self.passes.load(Ordering::SeqCst)
    }

    fn sender(&self) -> Sender<AudioEvent> {
        self.tx.clone()
    }
}

impl AudioController for MockAudio {
    fn channel_count(&self) -> AudioResult<u32> {
        let pass = self.passes.fetch_add(1, Ordering::SeqCst) + 1;
        for _ in 0..self.storm.swap(0, Ordering::SeqCst) {
            self.tx.send(AudioEvent::VolumeChanged).unwrap();
        }
        if let Some((last, stop)) = &*self.last_pass.lock().unwrap() {
            if pass == *last {
                stop.store(true, Ordering::Relaxed);
                let _ = self.tx.send(AudioEvent::Tick);
            }
        }
        if self.fail_count.load(Ordering::SeqCst) {
            return Err(AudioError::DeviceDisappeared);
        }
        Ok(self.channels.lock().unwrap().len() as u32)
    }

    fn get_channel(&self, channel: u32) -> AudioResult<Level> {
        if self.fail_next_get.swap(false, Ordering::SeqCst) {
            return Err(AudioError::GetLevel { channel, message: "injected fault".into() });
        }
        let guard = self.channels.lock().unwrap();
        guard
            .get(channel as usize)
            .copied()
            .map(level)
            .ok_or(AudioError::UnsupportedChannelCount(guard.len() as u32))
    }

    fn set_channel(&self, channel: u32, level: Level) -> AudioResult<()> {
        if self.fail_sets.load(Ordering::SeqCst) {
            return Err(AudioError::SetLevel { channel, message: "read-only".into() });
        }
        let value = f32::from_bits(level.bits);
        self.writes.lock().unwrap().push((channel, value));
        let mut guard = self.channels.lock().unwrap();
        if let Some(slot) = guard.get_mut(channel as usize) {
            *slot = value;
        }
        Ok(())
    }

    fn subscribe(&self) -> AudioResult<Receiver<AudioEvent>> {
        self.rx
            .lock()
            .unwrap()
            .take()
            .ok_or_else(|| AudioError::CallbackRegistration("subscribe already called".into()))
    }
}

#[test]
fn reconciles_when_drifted_to_equal_volumes() {
    let mock = MockAudio::stereo(0.8, 0.8);
    let enforcer = BalanceEnforcer::new(mock, mute_left());
    enforcer.reconcile_once().expect("reconcile failed");

    let mock = enforcer.into_controller();
    let writes = mock.writes();
    assert_eq!(writes.len(), 2, "expected exactly two set_channel calls, got {writes:?}");
    assert_eq!(writes[0], (0, 0.0));
    assert_eq!(writes[1], (1, 1.0));
    assert_eq!(mock.channels(), vec![0.0, 1.0]);
}

#[test]
fn no_op_when_already_compliant() {
    let mock = MockAudio::stereo(0.0, 1.0);
    let enforcer = BalanceEnforcer::new(mock, mute_left());
    enforcer.reconcile_once().expect("reconcile failed");
    let mock = enforcer.into_controller();
    assert!(mock.writes().is_empty(), "expected no writes, got {:?}", mock.writes());
}

#[test]
fn tolerance_suppresses_micro_drift() {
    // Left is 0.005 away from target 0.0, well under the 0.02 tolerance.
    let mock = MockAudio::stereo(0.005, 0.995);
    let enforcer = BalanceEnforcer::new(mock, mute_left());
    enforcer.reconcile_once().expect("reconcile failed");
    let mock = enforcer.into_controller();
    assert!(mock.writes().is_empty(), "tolerance breach: {:?}", mock.writes());
}

#[test]
fn mono_device_logs_warning_and_does_not_write() {
    let mock = MockAudio::with_channel_count(1);
    let enforcer = BalanceEnforcer::new(mock, mute_left());
    enforcer.reconcile_once().expect("reconcile failed");
    let mock = enforcer.into_controller();
    assert!(mock.writes().is_empty());
}

#[test]
fn six_channel_device_logs_warning_and_does_not_write() {
    let mock = MockAudio::with_channel_count(6);
    let enforcer = BalanceEnforcer::new(mock, mute_left());
    enforcer.reconcile_once().expect("reconcile failed");
    let mock = enforcer.into_controller();
    assert!(mock.writes().is_empty());
}

#[test]
fn get_level_error_is_propagated_not_swallowed() {
    let mock = MockAudio::stereo(0.8, 0.8);
    mock.fail_next_get();
    let enforcer = BalanceEnforcer::new(mock, mute_left());
    let result = enforcer.reconcile_once();
    assert!(result.is_err(), "expected error, got {result:?}");
    let mock = enforcer.into_controller();
    // No write should have happened since the get failed first.
    assert!(mock.writes().is_empty());
}

#[test]
fn inverted_policy_mutes_right_instead() {
    let mock = MockAudio::stereo(0.5, 0.5);
    let policy = BalancePolicy { left: level(1.0), right: level(0.0), tolerance: level(TOL) };
    let enforcer = BalanceEnforcer::new(mock, policy);
    enforcer.reconcile_once().expect("reconcile failed");
    let mock = enforcer.into_controller();
    assert_eq!(mock.channels(), vec![1.0, 0.0]);
}

#[test]
fn event_storm_is_coalesced_into_single_reconcile_pass() {
    // The full `run` loop. The mock starts at drifted values; 50 events come
    // in rapid succession, and the pass that they lead to asks for the end.
    let mock = MockAudio::stereo(0.8, 0.8);
    mock.storm.store(50, Ordering::SeqCst);
    let last_pass = Arc::clone(&mock.last_pass);
    let enforcer = BalanceEnforcer::new(mock, mute_left());
    *last_pass.lock().unwrap() = Some((2, enforcer.stop_flag()));

    let began = Instant::now();
    assert!(enforcer.run().is_ok());
    assert!(began.elapsed() >= Duration::from_millis(50), "the burst's window was cut short");

    // Startup reconciles the drifted state and writes twice. The storm's one
    // pass finds the state compliant, so the total is exactly 2.
    let mock = enforcer.into_controller();
    assert_eq!(mock.passes(), 2);
    let writes = mock.writes();
    assert_eq!(writes.len(), 2, "expected exactly 2 writes, got {writes:?}");
}

/// A state of the loop that the clock's present time goes with.
fn at(phase: Phase) -> RunState {
    RunState { phase, opened: Instant::now() }
}

#[test]
fn event_storm_moves_through_one_settling_phase() {
    let mock = MockAudio::stereo(0.8, 0.8);
    let tx = mock.sender();
    let stop = AtomicBool::new(false);
    let operator = Operator::new(&stop, |_: Phase, _: &AudioError| panic!("no pass fails"));
    let mut device = Watched::new(&mock);
    let events = device.subscribe().expect("subscribe failed");
    let policy = mute_left();

    // The startup pass.
    let mut state = advance(&mut device, &operator, &events, &policy, at(Phase::Startup));
    assert_eq!(state.phase, Phase::Idle);

    for _ in 0..50 {
        tx.send(AudioEvent::VolumeChanged).unwrap();
    }
    let mut seen = Vec::new();
    loop {
        state = advance(&mut device, &operator, &events, &policy, state);
        seen.push(state.phase);
        assert!(seen.len() < 1000);
        if state.phase == Phase::Idle {
            break;
        }
    }
    // 50 events, the quiet rest of the window, one pass.
    assert_eq!(seen.len(), 52);
    assert!(seen[..50].iter().all(|phase| *phase == Phase::Draining));
    assert_eq!(seen[50], Phase::Settling);
    assert_eq!(mock.passes(), 2);

    stop.store(true, Ordering::Relaxed);
    let _ = tx.send(AudioEvent::Tick);
    state = advance(&mut device, &operator, &events, &policy, state);
    assert_eq!(state.phase, Phase::Stopped);
    state = advance(&mut device, &operator, &events, &policy, state);
    assert_eq!(state.phase, Phase::Stopped);
    assert_eq!(mock.writes().len(), 2);
}

#[test]
fn config_roundtrip_serializes_and_deserializes() {
    let path = PathBuf::from("config.toml");
    let cfg = Config {
        target_device_id: "{0.0.0.00000000}.{abc-def}".into(),
        target_device_name: "Speakers (Test Audio)".into(),
    };
    let write = cfg.save_to(path.clone()).expect("save failed");
    assert_eq!(write.path, path);
    let loaded = Config::load_from(path, Ok(write.text)).expect("load failed");
    assert_eq!(cfg, loaded);
}

#[test]
fn one_drifted_channel_is_one_write() {
    let enforcer = BalanceEnforcer::new(MockAudio::stereo(0.0, 0.5), mute_left());
    enforcer.reconcile_once().expect("reconcile failed");
    assert_eq!(enforcer.into_controller().writes(), vec![(1, 1.0)]);
}

#[test]
fn a_second_pass_writes_nothing() {
    let enforcer = BalanceEnforcer::new(MockAudio::stereo(0.3, 0.3), BalancePolicy::mute_left());
    enforcer.reconcile_once().expect("reconcile failed");
    enforcer.reconcile_once().expect("reconcile failed");
    assert_eq!(enforcer.into_controller().writes(), vec![(0, 0.0), (1, 1.0)]);
}

#[test]
fn without_tolerance_every_pass_writes() {
    let policy = BalancePolicy { left: level(0.0), right: level(1.0), tolerance: level(0.0) };
    let enforcer = BalanceEnforcer::new(MockAudio::stereo(0.0, 1.0), policy);
    enforcer.reconcile_once().expect("reconcile failed");
    enforcer.reconcile_once().expect("reconcile failed");
    assert_eq!(enforcer.into_controller().writes().len(), 4);
}

#[test]
fn count_and_write_errors_are_propagated() {
    let mock = MockAudio::stereo(0.8, 0.8);
    mock.fail_count.store(true, Ordering::SeqCst);
    let enforcer = BalanceEnforcer::new(mock, mute_left());
    assert!(matches!(enforcer.reconcile_once(), Err(AudioError::DeviceDisappeared)));

    let mock = MockAudio::stereo(0.8, 0.8);
    mock.fail_sets.store(true, Ordering::SeqCst);
    let enforcer = BalanceEnforcer::new(mock, mute_left());
    assert!(matches!(enforcer.reconcile_once(), Err(AudioError::SetLevel { channel: 0, .. })));

    // The left channel is fine, so the failing write is the right one's.
    let mock = MockAudio::stereo(0.0, 0.8);
    mock.fail_sets.store(true, Ordering::SeqCst);
    let enforcer = BalanceEnforcer::new(mock, mute_left());
    assert!(matches!(enforcer.reconcile_once(), Err(AudioError::SetLevel { channel: 1, .. })));
}

#[test]
fn mute_left_holds_the_documented_levels() {
    let policy = BalancePolicy::mute_left();
    assert_eq!(f32::from_bits(policy.left.bits), 0.0);
    assert_eq!(f32::from_bits(policy.right.bits), 1.0);
    assert_eq!(f32::from_bits(policy.tolerance.bits), 0.02);
}

#[test]
fn correction_names_the_target_or_nothing() {
    let policy = BalancePolicy::mute_left();
    assert_eq!(policy.correction(level(0.01), level(0.0)), None);
    assert_eq!(policy.correction(level(0.02), level(0.0)), Some(level(0.0)));
    assert_eq!(policy.correction(level(0.5), level(1.0)), Some(level(1.0)));
    assert_eq!(policy.correction(level(f32::NAN), level(1.0)), Some(level(1.0)));
}

#[test]
fn a_failed_pass_is_reported_and_the_loop_goes_on() {
    let mock = MockAudio::stereo(0.8, 0.8);
    mock.fail_next_get();
    let stop = AtomicBool::new(false);
    let reports = Mutex::new(Vec::new());
    let operator = Operator::new(&stop, |phase: Phase, failure: &AudioError| {
        reports.lock().unwrap().push((phase, matches!(failure, AudioError::GetLevel { channel: 0, .. })))
    });
    let mut device = Watched::new(&mock);
    let events = device.subscribe().expect("subscribe failed");
    let state = advance(&mut device, &operator, &events, &mute_left(), at(Phase::Startup));
    assert_eq!(state.phase, Phase::Idle);
    assert_eq!(*reports.lock().unwrap(), vec![(Phase::Startup, true)]);
    assert!(mock.writes().is_empty());
}

#[test]
fn a_closed_channel_ends_the_loop() {
    let mock = MockAudio::stereo(0.0, 1.0);
    let (tx, rx) = bounded::<AudioEvent>(1);
    tx.send(AudioEvent::Tick).unwrap();
    drop(tx);
    let stop = AtomicBool::new(false);
    let operator = Operator::new(&stop, |_: Phase, _: &AudioError| {});
    let mut device = Watched::new(&mock);
    let mut state = at(Phase::Startup);
    let mut seen = Vec::new();
    while state.phase != Phase::Stopped {
        state = advance(&mut device, &operator, &rx, &mute_left(), state);
        seen.push(state.phase);
    }
    assert_eq!(seen, vec![Phase::Idle, Phase::Draining, Phase::Settling, Phase::Idle, Phase::Stopped]);
    assert_eq!(mock.passes(), 2);
}

#[test]
fn a_burst_is_over_when_its_time_is() {
    let mock = MockAudio::stereo(0.0, 1.0);
    let (tx, rx) = bounded::<AudioEvent>(4);
    let stop = AtomicBool::new(false);
    let operator = Operator::new(&stop, |_: Phase, _: &AudioError| {});
    let mut device = Watched::new(&mock);
    tx.send(AudioEvent::Tick).unwrap();
    let long_ago = Instant::now() - Duration::from_millis(60);
    let state = RunState { phase: Phase::Draining, opened: long_ago };
    let state = advance(&mut device, &operator, &rx, &mute_left(), state);
    assert_eq!(state.phase, Phase::Settling);
    assert_eq!(rx.len(), 1, "the event belongs to the next burst");
    assert_eq!(mock.passes(), 0);
}

#[test]
fn a_second_run_has_no_subscription() {
    let mock = MockAudio::stereo(0.0, 1.0);
    let stop = AtomicBool::new(true);
    let operator = Operator::new(&stop, |_: Phase, _: &AudioError| {});
    let mut device = Watched::new(&mock);
    assert!(enforce(&mut device, &operator, &mute_left()).is_ok());
    assert!(matches!(
        enforce(&mut device, &operator, &mute_left()),
        Err(AudioError::CallbackRegistration(_))
    ));
    assert_eq!(mock.passes(), 1);
}

#[test]
fn the_stop_flag_begins_unset_and_is_shared() {
    let enforcer = BalanceEnforcer::new(MockAudio::stereo(0.0, 1.0), mute_left());
    assert!(!enforcer.stop_flag().load(Ordering::Relaxed));
    enforcer.stop_flag().store(true, Ordering::Relaxed);
    assert!(enforcer.stop_flag().load(Ordering::Relaxed));
}

#[test]
fn passes_on_one_record_write_drift_once() {
    let mock = MockAudio::stereo(0.5, 1.0);
    let policy = BalancePolicy { left: level(0.0), right: level(1.0), tolerance: level(0.5) };
    let mut device = Watched::new(&mock);
    assert!(reconcile(&mut device, &policy).is_ok());
    assert_eq!(mock.writes(), vec![(0, 0.0)], "drift that reaches the tolerance is written");
    assert!(reconcile(&mut device, &policy).is_ok());
    assert_eq!(mock.writes(), vec![(0, 0.0)]);
}

#[test]
fn a_failed_left_write_leaves_the_right_channel_alone() {
    let mock = MockAudio::stereo(0.8, 0.8);
    mock.fail_sets.store(true, Ordering::SeqCst);
    let mut device = Watched::new(&mock);
    let outcome = reconcile(&mut device, &mute_left());
    assert!(matches!(outcome, Err(AudioError::SetLevel { channel: 0, .. })));
    assert!(mock.writes().is_empty());
    assert_eq!(mock.channels(), vec![0.8, 0.8]);
}

#[test]
fn a_run_that_finds_the_flag_set_makes_the_startup_pass_only() {
    let enforcer = BalanceEnforcer::new(MockAudio::stereo(0.8, 0.8), mute_left());
    enforcer.stop_flag().store(true, Ordering::Relaxed);
    assert!(enforcer.run().is_ok());
    let mock = enforcer.into_controller();
    assert_eq!(mock.passes(), 1);
    assert_eq!(mock.writes(), vec![(0, 0.0), (1, 1.0)]);
}

#[test]
fn a_run_ends_with_its_event_channel() {
    let mock = MockAudio::stereo(0.8, 0.8);
    let (tx, rx) = bounded::<AudioEvent>(4);
    *mock.rx.lock().unwrap() = Some(rx);
    tx.send(AudioEvent::Tick).unwrap();
    drop(tx);
    let enforcer = BalanceEnforcer::new(mock, mute_left());
    assert!(enforcer.run().is_ok());
    assert!(!enforcer.stop_flag().load(Ordering::Relaxed));
    assert_eq!(enforcer.into_controller().passes(), 2);
}

#[test]
fn a_run_without_a_subscription_is_its_error() {
    let mock = MockAudio::stereo(0.8, 0.8);
    *mock.rx.lock().unwrap() = None;
    let enforcer = BalanceEnforcer::new(mock, mute_left());
    assert!(matches!(enforcer.run(), Err(AudioError::CallbackRegistration(_))));
    assert_eq!(enforcer.into_controller().passes(), 0);
}

#[test]
fn a_run_outlives_failed_passes_and_reports_them() {
    let mock = MockAudio::stereo(0.8, 0.8);
    mock.fail_count.store(true, Ordering::SeqCst);
    mock.storm.store(3, Ordering::SeqCst);
    let last_pass = Arc::clone(&mock.last_pass);
    let enforcer = BalanceEnforcer::new(mock, mute_left());
    *last_pass.lock().unwrap() = Some((2, enforcer.stop_flag()));
    let reports = Mutex::new(Vec::new());
    let outcome = enforcer.run_reporting(|phase, failure| reports.lock().unwrap().push((phase, failure.message())));
    assert!(outcome.is_ok());
    let gone = "target device is not present".to_string();
    assert_eq!(*reports.lock().unwrap(), vec![(Phase::Startup, gone.clone()), (Phase::Settling, gone)]);
}
