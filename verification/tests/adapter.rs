//! The rules of the audio adapter.

use crossbeam_channel::bounded;

use balance_enforcer::audio::{AudioController, AudioError, AudioEvent};
use balance_enforcer::failure::IoFailure;
use balance_enforcer::level::Level;
use balance_enforcer::utf16::{id_matches, pwstr_to_string, wide};
use balance_enforcer::windows_impl::{
    bind_with_retry, ensure_com_initialized, enumerate_render_endpoints, first_bind_step, on_notification, read_level,
    take_subscription, to_com_err, try_bind, with_endpoint, write_level, BindMove, ComStep, DeviceState, EndpointScan,
    ListedEndpoint, Notification, RealAudio, Retry, EVENT_CAPACITY, FIRST_BACKOFF_MILLIS, WATCHDOG_MILLIS,
};

fn listed(id: &str, name: Option<&str>) -> ListedEndpoint {
    ListedEndpoint { id: id.into(), friendly_name: name.map(|name| name.into()) }
}

#[test]
fn endpoints_keep_their_order_and_the_default_is_marked() {
    let scan = EndpointScan {
        default_id: Some("b".into()),
        listed: vec![listed("a", Some("Speakers")), listed("b", None), listed("c", Some("Headphones"))],
    };
    let found = enumerate_render_endpoints(Ok(scan)).unwrap();
    let shown: Vec<(&str, &str, bool)> =
        found.iter().map(|info| (info.id.as_str(), info.friendly_name.as_str(), info.is_default)).collect();
    assert_eq!(shown, vec![("a", "Speakers", false), ("b", "<unnamed>", true), ("c", "Headphones", false)]);
}

#[test]
fn without_a_default_none_is_marked() {
    let scan = EndpointScan { default_id: None, listed: vec![listed("a", None), listed("b", None)] };
    let found = enumerate_render_endpoints(Ok(scan)).unwrap();
    assert!(found.iter().all(|info| !info.is_default));
    let scan = EndpointScan { default_id: None, listed: vec![listed("", None)] };
    assert!(enumerate_render_endpoints(Ok(scan)).unwrap()[0].is_default);
}

#[test]
fn an_error_of_listing_is_passed_on() {
    assert!(matches!(enumerate_render_endpoints(Err(AudioError::Unsupported)), Err(AudioError::Unsupported)));
}

#[test]
fn wide_is_utf16_with_a_terminating_zero() {
    for text in ["", "abc", "{0.0.0.00000000}.{abc-def}", "Gerät", "\u{1d11e}x\u{10ffff}\u{ffff}"] {
        let mut expected: Vec<u16> = text.encode_utf16().collect();
        expected.push(0);
        assert_eq!(wide(text), expected);
        assert_eq!(pwstr_to_string(Some(wide(text))), text);
    }
}

#[test]
fn pwstr_stops_at_the_first_zero() {
    assert_eq!(pwstr_to_string(None), "");
    assert_eq!(pwstr_to_string(Some(vec![])), "");
    assert_eq!(pwstr_to_string(Some(vec![0, 65])), "");
    assert_eq!(pwstr_to_string(Some(vec![65, 66, 0, 67, 0])), "AB");
    assert_eq!(pwstr_to_string(Some(vec![65, 66])), "AB");
}

#[test]
fn lone_surrogates_become_replacement_characters() {
    let units = vec![0xd834, 0xdd1e, 0x6d, 0x75, 0x73, 0xdd1e, 0x69, 0x63, 0xd834];
    assert_eq!(pwstr_to_string(Some(units)), "\u{1d11e}mus\u{fffd}ic\u{fffd}");
    assert_eq!(pwstr_to_string(Some(vec![0xd800, 0xd800, 0xdc00])), "\u{fffd}\u{10000}");
}

#[test]
fn ids_match_as_zero_terminated_text() {
    let target = wide("{dev-1}");
    assert!(id_matches(&target, Some(&wide("{dev-1}"))));
    assert!(!id_matches(&target, Some(&wide("{dev-12}"))));
    assert!(!id_matches(&target, Some(&wide("{dev-"))));
    assert!(!id_matches(&target, Some(&wide(""))));
    assert!(!id_matches(&target, None));
    let mut unterminated = wide("{dev-1}");
    unterminated.pop();
    assert!(id_matches(&target, Some(&unterminated)));
    assert!(id_matches(&unterminated, Some(&wide("{dev-1} and more"))));
    assert!(!id_matches(&unterminated, Some(&wide("{dev-"))));
    assert!(id_matches(&vec![], Some(&vec![])));
}

#[test]
fn notifications_become_events_of_the_pinned_device() {
    let target = wide("mine");
    let mine = wide("mine");
    let other = wide("other");
    let ask = |notification, id| on_notification(&target, notification, id);
    assert_eq!(ask(Notification::Volume, None), Some(AudioEvent::VolumeChanged));
    assert_eq!(
        ask(Notification::DeviceState { active: true }, Some(&mine)),
        Some(AudioEvent::DeviceReappeared)
    );
    assert_eq!(ask(Notification::DeviceState { active: false }, Some(&mine)), None);
    assert_eq!(ask(Notification::DeviceState { active: true }, Some(&other)), None);
    assert_eq!(ask(Notification::DeviceAdded, Some(&mine)), Some(AudioEvent::DeviceReappeared));
    assert_eq!(ask(Notification::DeviceAdded, Some(&other)), None);
    assert_eq!(ask(Notification::DeviceAdded, None), None);
    assert_eq!(ask(Notification::DeviceRemoved, Some(&mine)), None);
    assert_eq!(ask(Notification::DefaultDevice, Some(&mine)), None);
    assert_eq!(ask(Notification::Property, Some(&mine)), None);
}

#[test]
fn binding_makes_its_calls_in_order() {
    let mut step = first_bind_step();
    let mut made = vec![step];
    loop {
        match try_bind(step, Ok(())) {
            BindMove::Call(next) => {
                made.push(next);
                step = next;
            }
            BindMove::Bound => break,
            BindMove::Failed(error) => panic!("{error:?}"),
        }
    }
    assert_eq!(
        made,
        vec![
            ComStep::CreateEnumerator,
            ComStep::FindDevice,
            ComStep::ActivateEndpoint,
            ComStep::WatchVolume,
            ComStep::WatchDevices
        ]
    );
}

#[test]
fn a_failed_call_names_itself() {
    match try_bind(ComStep::FindDevice, Err("gone".into())) {
        BindMove::Failed(AudioError::Activate(message)) => assert_eq!(message, "GetDevice(target_id): gone"),
        other => panic!("{other:?}"),
    }
    match try_bind(ComStep::WatchVolume, Err("busy".into())) {
        BindMove::Failed(AudioError::CallbackRegistration(message)) => {
            assert_eq!(message, "RegisterControlChangeNotify: busy")
        }
        other => panic!("{other:?}"),
    }
    assert_eq!(
        to_com_err(ComStep::CreateEnumerator, "e").message(),
        "failed to activate audio endpoint: CoCreateInstance(MMDeviceEnumerator): e"
    );
    assert_eq!(
        to_com_err(ComStep::WatchDevices, "e").message(),
        "registration of audio callback failed: RegisterEndpointNotificationCallback: e"
    );
    for (step, name) in [
        (ComStep::ListEndpoints, "EnumAudioEndpoints"),
        (ComStep::CountEndpoints, "GetCount"),
        (ComStep::EndpointItem, "Item"),
        (ComStep::EndpointId, "GetId"),
        (ComStep::OpenPropertyStore, "OpenPropertyStore"),
        (ComStep::ReadFriendlyName, "GetValue(FriendlyName)"),
        (ComStep::ActivateEndpoint, "Activate(IAudioEndpointVolume)"),
        (ComStep::UseEndpoint, "endpoint op"),
    ] {
        match to_com_err(step, "e") {
            AudioError::Activate(message) => assert_eq!(message, format!("{name}: e")),
            other => panic!("{other:?}"),
        }
    }
}

#[test]
fn the_wait_doubles_up_to_five_seconds() {
    let mut backoff = FIRST_BACKOFF_MILLIS;
    let mut waits = Vec::new();
    for _ in 0..8 {
        match bind_with_retry(backoff, Err(AudioError::DeviceDisappeared)) {
            Retry::Wait { millis, next, error } => {
                assert!(matches!(error, AudioError::DeviceDisappeared));
                waits.push(millis);
                backoff = next;
            }
            Retry::Bound => panic!("bound"),
        }
    }
    assert_eq!(waits, vec![100, 200, 400, 800, 1600, 3200, 5000, 5000]);
    assert!(matches!(bind_with_retry(backoff, Ok(())), Retry::Bound));
}

#[test]
fn rebinding_releases_what_was_bound() {
    let mut state: DeviceState<u8, u16, u32, u64> = DeviceState::unbound();
    let released = state.rebind(1, 2, 3, 4);
    assert_eq!((released.volume, released.devices), (None, None));
    let released = state.rebind(5, 6, 7, 8);
    assert_eq!((released.volume, released.devices), (Some((1, 2)), Some((3, 4))));
    assert_eq!(state.endpoint, Some(5));
    let released = state.release();
    assert_eq!((released.volume, released.devices), (Some((5, 6)), Some((7, 8))));
    let released = state.release();
    assert_eq!((released.volume, released.devices), (None, None));

    let mut half: DeviceState<u8, u16, u32, u64> =
        DeviceState { endpoint: Some(1), volume_cb: None, enumerator: None, notif_client: Some(4) };
    let released = half.release();
    assert_eq!((released.volume, released.devices), (None, None));
    assert!(half.endpoint.is_none() && half.notif_client.is_none());
}

#[test]
fn replies_become_outcomes() {
    assert!(matches!(with_endpoint::<u32>(None), Err(AudioError::DeviceDisappeared)));
    assert!(matches!(with_endpoint(Some(Ok(2u32))), Ok(2)));
    match with_endpoint::<u32>(Some(Err("e".into()))) {
        Err(AudioError::Activate(message)) => assert_eq!(message, "endpoint op: e"),
        other => panic!("{other:?}"),
    }
    let level = Level::from_bits(0x3f00_0000);
    assert!(matches!(read_level(1, None), Err(AudioError::DeviceDisappeared)));
    assert_eq!(read_level(1, Some(Ok(level))).unwrap(), level);
    assert_eq!(
        read_level(1, Some(Err("e".into()))).unwrap_err().message(),
        "failed to read channel 1 level: e"
    );
    assert!(matches!(write_level(0, None), Err(AudioError::DeviceDisappeared)));
    assert!(write_level(0, Some(Ok(()))).is_ok());
    assert_eq!(
        write_level(0, Some(Err("e".into()))).unwrap_err().message(),
        "failed to write channel 0 level: e"
    );
}

#[test]
fn com_is_initialized_once() {
    assert!(ensure_com_initialized(None).is_ok());
    assert!(ensure_com_initialized(Some(Ok(()))).is_ok());
    assert_eq!(
        ensure_com_initialized(Some(Err("HRESULT(0x80010106)".into()))).unwrap_err().message(),
        "COM initialization failed: CoInitializeEx returned HRESULT(0x80010106)"
    );
}

#[test]
fn the_event_channel_is_handed_out_once() {
    let (_tx, rx) = bounded::<AudioEvent>(EVENT_CAPACITY);
    let mut slot = Some(rx);
    assert!(take_subscription(&mut slot).is_ok());
    assert!(slot.is_none());
    match take_subscription(&mut slot) {
        Err(AudioError::CallbackRegistration(message)) => assert_eq!(message, "subscribe() already called"),
        other => panic!("{other:?}"),
    }
    assert_eq!(WATCHDOG_MILLIS, 500);
}

#[test]
fn the_stand_in_supports_nothing() {
    assert!(matches!(RealAudio::for_device("x"), Err(AudioError::Unsupported)));
    assert!(matches!(RealAudio.channel_count(), Err(AudioError::Unsupported)));
    assert!(matches!(RealAudio.get_channel(0), Err(AudioError::Unsupported)));
    assert!(matches!(RealAudio.set_channel(0, Level::from_bits(0)), Err(AudioError::Unsupported)));
    assert!(matches!(RealAudio.subscribe(), Err(AudioError::Unsupported)));
}

#[test]
fn audio_errors_speak() {
    let failure = IoFailure { not_found: false, message: "out of threads".into() };
    for (error, words) in [
        (AudioError::ComInit("x".into()), "COM initialization failed: x"),
        (AudioError::Activate("x".into()), "failed to activate audio endpoint: x"),
        (AudioError::GetLevel { channel: 10, message: "x".into() }, "failed to read channel 10 level: x"),
        (
            AudioError::SetLevel { channel: u32::MAX, message: "x".into() },
            "failed to write channel 4294967295 level: x",
        ),
        (AudioError::UnsupportedChannelCount(6), "unsupported channel count: 6 (only stereo is handled)"),
        (AudioError::DeviceDisappeared, "target device is not present"),
        (AudioError::TargetNotConfigured, "no target device configured; run `--install` first"),
        (AudioError::Unsupported, "audio backend is not supported on this platform"),
        (AudioError::Io(failure), "out of threads"),
        (AudioError::CallbackRegistration("x".into()), "registration of audio callback failed: x"),
    ] {
        assert_eq!(error.message(), words);
    }
}
