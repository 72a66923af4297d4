//! The rules of the audio adapter: what it makes of the replies of the audio
//! interface, how it binds to the pinned device and which notifications it
//! passes on. `RealAudio` stands in where there is no such interface.

use crate::audio::{AudioController, AudioError, AudioEvent, AudioResult};
use crate::level::Level;
use crate::utf16::{id_matches, is_match, law_device_is_known_however_its_id_ends, law_ids_match_when_equal, wide};
use crossbeam_channel::Receiver;
use vstd::prelude::*;
use vstd::string::*;

verus! {

/// How many events may wait for the enforcer.
pub const EVENT_CAPACITY: usize = 256;

/// The watchdog sends a tick this often, in milliseconds.
pub const WATCHDOG_MILLIS: u64 = 500;

/// The first wait between two attempts to bind, in milliseconds.
pub const FIRST_BACKOFF_MILLIS: u64 = 100;

/// The longest wait between two attempts to bind, in milliseconds.
pub const LONGEST_BACKOFF_MILLIS: u64 = 5_000;

/// An active output device.
#[derive(Debug, Clone)]
pub struct EndpointInfo {
    pub id: String,
    pub friendly_name: String,
    pub is_default: bool,
}

/// An output device as the audio interface lists it.
#[derive(Debug)]
pub struct ListedEndpoint {
    pub id: String,
    /// Nothing where the name could not be read.
    pub friendly_name: Option<String>,
}

/// The output devices as the audio interface lists them.
#[derive(Debug)]
pub struct EndpointScan {
    /// Nothing where the default device could not be determined.
    pub default_id: Option<String>,
    pub listed: Vec<ListedEndpoint>,
}

/// `info` describes the device that was listed, given the default device.
pub open spec fn describes(info: EndpointInfo, listed: ListedEndpoint, default_id: Option<String>) -> bool {
    &&& info.id@ == listed.id@
    &&& info.friendly_name@ == (match listed.friendly_name {
        Some(name) => name@,
        None => "<unnamed>"@,
    })
    &&& info.is_default == (match default_id {
        Some(id) => listed.id@ == id@,
        None => listed.id@.len() == 0,
    })
}

/// The active output devices, in the order in which they were listed; an error
/// of listing them is passed on.
pub fn enumerate_render_endpoints(scan: AudioResult<EndpointScan>) -> (endpoints: AudioResult<Vec<EndpointInfo>>)
    ensures
        match scan {
            Ok(found) => endpoints matches Ok(infos) && infos@.len() == found.listed@.len() && forall|i: int|
                0 <= i < infos@.len() ==> describes(#[trigger] infos@[i], found.listed@[i], found.default_id),
            Err(error) => endpoints == Err::<Vec<EndpointInfo>, AudioError>(error),
        },
{
    let found = match scan {
        Ok(found) => found,
        Err(error) => return Err(error),
    };
    let default_id = match &found.default_id {
        Some(id) => id.clone(),
        None => String::new(),
    };
    let mut infos: Vec<EndpointInfo> = Vec::new();
    let mut at: usize = 0;
    while at < found.listed.len()
        invariant
            at <= found.listed@.len(),
            infos@.len() == at,
            default_id@ == (match found.default_id {
                Some(id) => id@,
                None => seq![],
            }),
            forall|i: int| 0 <= i < at ==> describes(#[trigger] infos@[i], found.listed@[i], found.default_id),
        decreases found.listed@.len() - at,
    {
        let listed = &found.listed[at];
        let friendly_name = match &listed.friendly_name {
            Some(name) => name.clone(),
            None => "<unnamed>".to_owned(),
        };
        let is_default = listed.id == default_id;
        let info = EndpointInfo { id: listed.id.clone(), friendly_name, is_default };
        assert(listed.id@.len() == 0 <==> listed.id@ =~= seq![]);
        assert(describes(info, *listed, found.default_id));
        infos.push(info);
        at = at + 1;
    }
    Ok(infos)
}

/// Where the devices have distinct IDs, at most one of them is the default.
pub proof fn law_at_most_one_default(found: EndpointScan, infos: Seq<EndpointInfo>, i: int, j: int)
    requires
        infos.len() == found.listed@.len(),
        forall|k: int|
            0 <= k < infos.len() ==> describes(#[trigger] infos[k], found.listed@[k], found.default_id),
        forall|a: int, b: int|
            0 <= a < b < found.listed@.len() ==> (#[trigger] found.listed@[a]).id@ != (#[trigger] found.listed@[b]).id@,
        0 <= i < infos.len(),
        0 <= j < infos.len(),
        infos[i].is_default,
        infos[j].is_default,
    ensures
        i == j,
{
    assert(describes(infos[i], found.listed@[i], found.default_id));
    assert(describes(infos[j], found.listed@[j], found.default_id));
    assert(found.listed@[i].id@ =~= found.listed@[j].id@);
    if i < j {
        assert(found.listed@[i].id@ != found.listed@[j].id@);
    } else if j < i {
        assert(found.listed@[j].id@ != found.listed@[i].id@);
    }
}

/// A call of the audio interface that can fail.
#[derive(Debug, Clone, Copy, PartialEq, Eq, Structural)]
pub enum ComStep {
    CreateEnumerator,
    ListEndpoints,
    CountEndpoints,
    EndpointItem,
    EndpointId,
    OpenPropertyStore,
    ReadFriendlyName,
    FindDevice,
    ActivateEndpoint,
    WatchVolume,
    WatchDevices,
    UseEndpoint,
}

impl ComStep {
    /// The call's name in error messages.
    pub open spec fn name(self) -> Seq<char> {
        match self {
            ComStep::CreateEnumerator => "CoCreateInstance(MMDeviceEnumerator)"@,
            ComStep::ListEndpoints => "EnumAudioEndpoints"@,
            ComStep::CountEndpoints => "GetCount"@,
            ComStep::EndpointItem => "Item"@,
            ComStep::EndpointId => "GetId"@,
            ComStep::OpenPropertyStore => "OpenPropertyStore"@,
            ComStep::ReadFriendlyName => "GetValue(FriendlyName)"@,
            ComStep::FindDevice => "GetDevice(target_id)"@,
            ComStep::ActivateEndpoint => "Activate(IAudioEndpointVolume)"@,
            ComStep::WatchVolume => "RegisterControlChangeNotify"@,
            ComStep::WatchDevices => "RegisterEndpointNotificationCallback"@,
            ComStep::UseEndpoint => "endpoint op"@,
        }
    }

    fn show(self) -> (name: &'static str)
        ensures
            name@ == self.name(),
    {
        match self {
            ComStep::CreateEnumerator => "CoCreateInstance(MMDeviceEnumerator)",
            ComStep::ListEndpoints => "EnumAudioEndpoints",
            ComStep::CountEndpoints => "GetCount",
            ComStep::EndpointItem => "Item",
            ComStep::EndpointId => "GetId",
            ComStep::OpenPropertyStore => "OpenPropertyStore",
            ComStep::ReadFriendlyName => "GetValue(FriendlyName)",
            ComStep::FindDevice => "GetDevice(target_id)",
            ComStep::ActivateEndpoint => "Activate(IAudioEndpointVolume)",
            ComStep::WatchVolume => "RegisterControlChangeNotify",
            ComStep::WatchDevices => "RegisterEndpointNotificationCallback",
            ComStep::UseEndpoint => "endpoint op",
        }
    }

    /// `error` is what a failure of this call, given in words, becomes.
    pub open spec fn fails_as(self, words: Seq<char>, error: AudioError) -> bool {
        if self == ComStep::WatchVolume || self == ComStep::WatchDevices {
            error matches AudioError::CallbackRegistration(message) && message@ == self.name() + ": "@ + words
        } else {
            error matches AudioError::Activate(message) && message@ == self.name() + ": "@ + words
        }
    }
}

/// The error for a failed call of the audio interface.
pub fn to_com_err(step: ComStep, words: &str) -> (error: AudioError)
    ensures
        step.fails_as(words@, error),
{
    let message = step.show().to_owned().concat(": ").concat(words);
    match step {
        ComStep::WatchVolume | ComStep::WatchDevices => AudioError::CallbackRegistration(message),
        _ => AudioError::Activate(message),
    }
}

/// The result of making sure that COM is initialized. `attempt` is the
/// outcome of the one initialization of the process, with the code in words
/// where it failed, or nothing where it was made earlier.
pub fn ensure_com_initialized(attempt: Option<Result<(), String>>) -> (outcome: AudioResult<()>)
    ensures
        match attempt {
            Some(Err(code)) => outcome matches Err(AudioError::ComInit(message)) && message@
                == "CoInitializeEx returned "@ + code@,
            _ => outcome == Ok::<(), AudioError>(()),
        },
{
    match attempt {
        Some(Err(code)) => Err(AudioError::ComInit("CoInitializeEx returned ".to_owned().concat(code.as_str()))),
        _ => Ok(()),
    }
}

/// What comes next while binding to the pinned device.
#[derive(Debug)]
pub enum BindMove {
    Call(ComStep),
    Bound,
    Failed(AudioError),
}

/// The calls that bind to the pinned device, in order.
pub open spec fn bind_order() -> Seq<ComStep> {
    seq![
        ComStep::CreateEnumerator,
        ComStep::FindDevice,
        ComStep::ActivateEndpoint,
        ComStep::WatchVolume,
        ComStep::WatchDevices,
    ]
}

/// What comes after the call at position `at` of the order.
pub open spec fn is_bind_move(at: int, outcome: Result<(), String>, next: BindMove) -> bool {
    match outcome {
        Err(words) => next matches BindMove::Failed(error) && bind_order()[at].fails_as(words@, error),
        Ok(_) => if at + 1 < bind_order().len() {
            next == BindMove::Call(bind_order()[at + 1])
        } else {
            next == BindMove::Bound
        },
    }
}

/// The first call of binding to the pinned device.
pub fn first_bind_step() -> (step: ComStep)
    ensures
        step == bind_order()[0],
{
    ComStep::CreateEnumerator
}

/// What to do after `step` of binding had this outcome. The first failure ends
/// the attempt; with the last call made the device is bound.
pub fn try_bind(step: ComStep, outcome: Result<(), String>) -> (next: BindMove)
    requires
        bind_order().contains(step),
    ensures
        forall|at: int| 0 <= at < bind_order().len() && bind_order()[at] == step ==> is_bind_move(at, outcome, next),
{
    match outcome {
        Err(words) => BindMove::Failed(to_com_err(step, words.as_str())),
        Ok(_) => match step {
            ComStep::CreateEnumerator => BindMove::Call(ComStep::FindDevice),
            ComStep::FindDevice => BindMove::Call(ComStep::ActivateEndpoint),
            ComStep::ActivateEndpoint => BindMove::Call(ComStep::WatchVolume),
            ComStep::WatchVolume => BindMove::Call(ComStep::WatchDevices),
            _ => BindMove::Bound,
        },
    }
}

/// What to do after an attempt to bind.
#[derive(Debug)]
pub enum Retry {
    Bound,
    /// Wait for `millis`, then try again with `next` as the wait.
    Wait { millis: u64, next: u64, error: AudioError },
}

/// Twice the wait, up to the longest.
pub open spec fn doubled_backoff(millis: u64) -> u64 {
    if 2 * millis <= LONGEST_BACKOFF_MILLIS {
        (2 * millis) as u64
    } else {
        LONGEST_BACKOFF_MILLIS
    }
}

/// Binding is tried until it succeeds, because the device might not be ready
/// yet at logon. The wait doubles from attempt to attempt.
pub fn bind_with_retry(backoff_millis: u64, attempt: AudioResult<()>) -> (retry: Retry)
    requires
        2 * backoff_millis <= u64::MAX,
    ensures
        match attempt {
            Ok(_) => retry == Retry::Bound,
            Err(error) => retry == (Retry::Wait {
                millis: backoff_millis,
                next: doubled_backoff(backoff_millis),
                error,
            }),
        },
{
    match attempt {
        Ok(_) => Retry::Bound,
        Err(error) => {
            let doubled: u64 = backoff_millis * 2;
            let next: u64 = if doubled <= LONGEST_BACKOFF_MILLIS {
                doubled
            } else {
                LONGEST_BACKOFF_MILLIS
            };
            Retry::Wait { millis: backoff_millis, next, error }
        },
    }
}

/// The wait after `failures` failed attempts.
pub open spec fn backoff_after(failures: nat) -> u64
    decreases failures,
{
    if failures == 0 {
        FIRST_BACKOFF_MILLIS
    } else {
        doubled_backoff(backoff_after((failures - 1) as nat))
    }
}

/// The waits start at the first wait, never shrink, and never pass the longest
/// wait, which they reach after six failures.
pub proof fn law_backoff_grows_to_the_limit(failures: nat)
    ensures
        FIRST_BACKOFF_MILLIS <= backoff_after(failures) <= LONGEST_BACKOFF_MILLIS,
        backoff_after(failures) <= backoff_after(failures + 1),
        failures >= 6 ==> backoff_after(failures) == LONGEST_BACKOFF_MILLIS,
    decreases failures,
{
    reveal_with_fuel(backoff_after, 8);
    if failures > 0 {
        law_backoff_grows_to_the_limit((failures - 1) as nat);
    }
}

/// The live parts of a binding: the endpoint with its volume callback, and the
/// device list with its notification callback.
pub struct DeviceState<E, V, L, N> {
    pub endpoint: Option<E>,
    pub volume_cb: Option<V>,
    pub enumerator: Option<L>,
    pub notif_client: Option<N>,
}

/// Callbacks that have to be unregistered, each where it was registered.
pub struct Released<E, V, L, N> {
    pub volume: Option<(E, V)>,
    pub devices: Option<(L, N)>,
}

pub open spec fn paired<A, B>(a: Option<A>, b: Option<B>) -> Option<(A, B)> {
    match (a, b) {
        (Some(first), Some(second)) => Some((first, second)),
        _ => None,
    }
}

impl<E, V, L, N> DeviceState<E, V, L, N> {
    pub open spec fn is_unbound(&self) -> bool {
        self.endpoint is None && self.volume_cb is None && self.enumerator is None && self.notif_client is None
    }

    /// What has to be unregistered when this binding is given up.
    pub open spec fn to_release(&self) -> Released<E, V, L, N> {
        Released {
            volume: paired(self.endpoint, self.volume_cb),
            devices: paired(self.enumerator, self.notif_client),
        }
    }

    pub fn unbound() -> (state: Self)
        ensures
            state.is_unbound(),
    {
        DeviceState { endpoint: None, volume_cb: None, enumerator: None, notif_client: None }
    }

    /// Gives the binding up.
    pub fn release(&mut self) -> (released: Released<E, V, L, N>)
        ensures
            released == old(self).to_release(),
            final(self).is_unbound(),
    {
        let volume = match (self.endpoint.take(), self.volume_cb.take()) {
            (Some(endpoint), Some(callback)) => Some((endpoint, callback)),
            _ => None,
        };
        let devices = match (self.enumerator.take(), self.notif_client.take()) {
            (Some(enumerator), Some(client)) => Some((enumerator, client)),
            _ => None,
        };
        Released { volume, devices }
    }

    /// Replaces the binding by a new one.
    pub fn rebind(&mut self, endpoint: E, volume_cb: V, enumerator: L, notif_client: N) -> (released: Released<
        E,
        V,
        L,
        N,
    >)
        ensures
            released == old(self).to_release(),
            final(self).endpoint == Some(endpoint),
            final(self).volume_cb == Some(volume_cb),
            final(self).enumerator == Some(enumerator),
            final(self).notif_client == Some(notif_client),
    {
        let released = self.release();
        self.endpoint = Some(endpoint);
        self.volume_cb = Some(volume_cb);
        self.enumerator = Some(enumerator);
        self.notif_client = Some(notif_client);
        released
    }
}

/// Whatever was bound before, giving up a fresh binding releases both of its
/// callbacks: none stays registered.
pub proof fn law_binding_is_released<E, V, L, N>(
    state: DeviceState<E, V, L, N>,
    endpoint: E,
    volume_cb: V,
    enumerator: L,
    notif_client: N,
)
    requires
        state.endpoint == Some(endpoint),
        state.volume_cb == Some(volume_cb),
        state.enumerator == Some(enumerator),
        state.notif_client == Some(notif_client),
    ensures
        state.to_release().volume == Some((endpoint, volume_cb)),
        state.to_release().devices == Some((enumerator, notif_client)),
{
}

/// What using the bound endpoint gives. `reply` is the interface's reply, with
/// a failure in words, or nothing where no endpoint is bound.
pub fn with_endpoint<T>(reply: Option<Result<T, String>>) -> (outcome: AudioResult<T>)
    ensures
        match reply {
            None => outcome == Err::<T, AudioError>(AudioError::DeviceDisappeared),
            Some(Ok(value)) => outcome == Ok::<T, AudioError>(value),
            Some(Err(words)) => outcome matches Err(error) && ComStep::UseEndpoint.fails_as(words@, error),
        },
{
    match reply {
        None => Err(AudioError::DeviceDisappeared),
        Some(Ok(value)) => Ok(value),
        Some(Err(words)) => Err(to_com_err(ComStep::UseEndpoint, words.as_str())),
    }
}

/// What reading a channel level gives.
pub fn read_level(channel: u32, reply: Option<Result<Level, String>>) -> (outcome: AudioResult<Level>)
    ensures
        outcome == (match reply {
            None => Err(AudioError::DeviceDisappeared),
            Some(Ok(level)) => Ok(level),
            Some(Err(message)) => Err(AudioError::GetLevel { channel, message }),
        }),
{
    match reply {
        None => Err(AudioError::DeviceDisappeared),
        Some(Ok(level)) => Ok(level),
        Some(Err(message)) => Err(AudioError::GetLevel { channel, message }),
    }
}

/// What writing a channel level gives.
pub fn write_level(channel: u32, reply: Option<Result<(), String>>) -> (outcome: AudioResult<()>)
    ensures
        outcome == (match reply {
            None => Err(AudioError::DeviceDisappeared),
            Some(Ok(done)) => Ok(done),
            Some(Err(message)) => Err(AudioError::SetLevel { channel, message }),
        }),
{
    match reply {
        None => Err(AudioError::DeviceDisappeared),
        Some(Ok(done)) => Ok(done),
        Some(Err(message)) => Err(AudioError::SetLevel { channel, message }),
    }
}

/// Hands out the receiving end of the event channel, once.
pub fn take_subscription<R>(slot: &mut Option<R>) -> (taken: AudioResult<R>)
    ensures
        *final(slot) == None::<R>,
        match *old(slot) {
            Some(receiver) => taken == Ok::<R, AudioError>(receiver),
            None => taken matches Err(AudioError::CallbackRegistration(message)) && message@
                == "subscribe() already called"@,
        },
{
    match slot.take() {
        Some(receiver) => Ok(receiver),
        None => Err(AudioError::CallbackRegistration("subscribe() already called".to_owned())),
    }
}

/// A notification of the audio interface.
#[derive(Debug, Clone, Copy, PartialEq, Eq, Structural)]
pub enum Notification {
    /// The volume of the bound endpoint changed.
    Volume,
    /// The state of a device changed, to active or to another state.
    DeviceState { active: bool },
    DeviceAdded,
    DeviceRemoved,
    DefaultDevice,
    Property,
}

/// The event that a notification about `id` leads to, if any.
pub open spec fn event_of(target: Seq<u16>, notification: Notification, id: Option<Seq<u16>>) -> Option<AudioEvent> {
    match notification {
        Notification::Volume => Some(AudioEvent::VolumeChanged),
        Notification::DeviceState { active } => if active && is_match(target, id) {
            Some(AudioEvent::DeviceReappeared)
        } else {
            None
        },
        Notification::DeviceAdded => if is_match(target, id) {
            Some(AudioEvent::DeviceReappeared)
        } else {
            None
        },
        _ => None,
    }
}

/// The event to pass on for a notification about the device `id`, where
/// `target` is the pinned device.
pub fn on_notification(target: &Vec<u16>, notification: Notification, id: Option<&Vec<u16>>) -> (event: Option<
    AudioEvent,
>)
    ensures
        event == event_of(
            target@,
            notification,
            match id {
                Some(units) => Some(units@),
                None => None,
            },
        ),
{
    match notification {
        Notification::Volume => Some(AudioEvent::VolumeChanged),
        Notification::DeviceState { active } => {
            if id_matches(target, id) && active {
                Some(AudioEvent::DeviceReappeared)
            } else {
                None
            }
        },
        Notification::DeviceAdded => {
            if id_matches(target, id) {
                Some(AudioEvent::DeviceReappeared)
            } else {
                None
            }
        },
        _ => None,
    }
}

/// Other devices never wake the enforcer: a device notification about an ID
/// that is not the pinned one leads to no event.
pub proof fn law_other_devices_are_ignored(target: Seq<u16>, notification: Notification, id: Option<Seq<u16>>)
    requires
        notification != Notification::Volume,
        !is_match(target, id),
    ensures
        event_of(target, notification, id) is None,
{
}

/// The backend of platforms without the audio interface: everything is
/// unsupported.
pub struct RealAudio;

impl RealAudio {
    pub fn for_device(device_id: &str) -> (bound: AudioResult<Self>)
        ensures
            bound == Err::<Self, AudioError>(AudioError::Unsupported),
    {
        Err(AudioError::Unsupported)
    }
}

impl AudioController for RealAudio {
    fn channel_count(&self) -> (outcome: AudioResult<u32>)
        ensures
            outcome == Err::<u32, AudioError>(AudioError::Unsupported),
    {
        Err(AudioError::Unsupported)
    }

    fn get_channel(&self, channel: u32) -> (outcome: AudioResult<Level>)
        ensures
            outcome == Err::<Level, AudioError>(AudioError::Unsupported),
    {
        Err(AudioError::Unsupported)
    }

    fn set_channel(&self, channel: u32, level: Level) -> (outcome: AudioResult<()>)
        ensures
            outcome == Err::<(), AudioError>(AudioError::Unsupported),
    {
        Err(AudioError::Unsupported)
    }

    fn subscribe(&self) -> (outcome: AudioResult<Receiver<AudioEvent>>)
        ensures
            outcome == Err::<Receiver<AudioEvent>, AudioError>(AudioError::Unsupported),
    {
        Err(AudioError::Unsupported)
    }
}

/// The devices come as they were listed, each with its own ID and name, and
/// exactly those with the ID of the default device are marked, whatever they
/// are called. Without a default device none that has an ID is marked.
pub proof fn law_default_device_is_marked(found: EndpointScan, infos: Vec<EndpointInfo>, at: int)
    requires
        call_ensures(
            enumerate_render_endpoints,
            (Ok::<EndpointScan, AudioError>(found),),
            Ok::<Vec<EndpointInfo>, AudioError>(infos),
        ),
        0 <= at < found.listed@.len(),
    ensures
        infos@.len() == found.listed@.len(),
        infos@[at].id@ == found.listed@[at].id@,
        found.listed@[at].friendly_name matches Some(name) ==> infos@[at].friendly_name@ == name@,
        found.listed@[at].friendly_name is None ==> infos@[at].friendly_name@ == "<unnamed>"@,
        found.default_id matches Some(id) ==> (infos@[at].is_default <==> found.listed@[at].id@ == id@),
        found.default_id is None && found.listed@[at].id@.len() > 0 ==> !infos@[at].is_default,
{
    assert(describes(infos@[at], found.listed@[at], found.default_id));
}

/// Listing succeeds exactly where the audio interface did, and else gives its
/// error.
pub proof fn law_listing_fails_as_the_interface_does(
    scan: AudioResult<EndpointScan>,
    endpoints: AudioResult<Vec<EndpointInfo>>,
)
    requires
        call_ensures(enumerate_render_endpoints, (scan,), endpoints),
    ensures
        scan is Ok <==> endpoints is Ok,
        scan matches Err(error) ==> endpoints == Err::<Vec<EndpointInfo>, AudioError>(error),
{
}

/// An error of the audio interface says which call failed and ends in the
/// interface's own words. It is an error of registration exactly for the two
/// calls that register a callback.
pub proof fn law_interface_error_names_the_call(step: ComStep, words: &str, error: AudioError)
    requires
        call_ensures(to_com_err, (step, words), error),
    ensures
        step == ComStep::WatchVolume ==> (error matches AudioError::CallbackRegistration(message) && message@
            == "RegisterControlChangeNotify"@ + ": "@ + words@),
        step == ComStep::WatchDevices ==> (error matches AudioError::CallbackRegistration(message) && message@
            == "RegisterEndpointNotificationCallback"@ + ": "@ + words@),
        step != ComStep::WatchVolume && step != ComStep::WatchDevices ==> (error matches AudioError::Activate(message)
            && match step {
            ComStep::CreateEnumerator => message@ == "CoCreateInstance(MMDeviceEnumerator)"@ + ": "@ + words@,
            ComStep::ListEndpoints => message@ == "EnumAudioEndpoints"@ + ": "@ + words@,
            ComStep::CountEndpoints => message@ == "GetCount"@ + ": "@ + words@,
            ComStep::EndpointItem => message@ == "Item"@ + ": "@ + words@,
            ComStep::EndpointId => message@ == "GetId"@ + ": "@ + words@,
            ComStep::OpenPropertyStore => message@ == "OpenPropertyStore"@ + ": "@ + words@,
            ComStep::ReadFriendlyName => message@ == "GetValue(FriendlyName)"@ + ": "@ + words@,
            ComStep::FindDevice => message@ == "GetDevice(target_id)"@ + ": "@ + words@,
            ComStep::ActivateEndpoint => message@ == "Activate(IAudioEndpointVolume)"@ + ": "@ + words@,
            ComStep::UseEndpoint => message@ == "endpoint op"@ + ": "@ + words@,
            _ => false,
        }),
{
}

/// Only an initialization that failed is an error, and it gives the code.
pub proof fn law_failed_initialization_is_an_error(attempt: Option<Result<(), String>>, outcome: AudioResult<()>)
    requires
        call_ensures(ensure_com_initialized, (attempt,), outcome),
    ensures
        outcome is Err <==> attempt is Some && attempt->0 is Err,
        attempt matches Some(Err(code)) ==> (outcome matches Err(AudioError::ComInit(message)) && message@
            == "CoInitializeEx returned "@ + code@),
{
}

proof fn lemma_bind_move(step: ComStep, outcome: Result<(), String>, next: BindMove, at: int)
    requires
        call_ensures(try_bind, (step, outcome), next),
        0 <= at < 5,
        bind_order()[at] == step,
    ensures
        is_bind_move(at, outcome, next),
{
}

proof fn lemma_bind_position(step: ComStep) -> (at: int)
    requires
        step == ComStep::CreateEnumerator || step == ComStep::FindDevice || step == ComStep::ActivateEndpoint || step
            == ComStep::WatchVolume || step == ComStep::WatchDevices,
    ensures
        0 <= at < 5,
        bind_order()[at] == step,
{
    match step {
        ComStep::CreateEnumerator => 0,
        ComStep::FindDevice => 1,
        ComStep::ActivateEndpoint => 2,
        ComStep::WatchVolume => 3,
        _ => 4,
    }
}

/// A call of binding that fails is the end of the attempt: the attempt fails,
/// with an error that ends in the words of that call, and nothing counts as
/// bound.
pub proof fn law_failed_call_ends_the_attempt(step: ComStep, words: String, next: BindMove)
    requires
        step == ComStep::CreateEnumerator || step == ComStep::FindDevice || step == ComStep::ActivateEndpoint || step
            == ComStep::WatchVolume || step == ComStep::WatchDevices,
        call_ensures(try_bind, (step, Err::<(), String>(words)), next),
    ensures
        next matches BindMove::Failed(error) && match step {
            ComStep::CreateEnumerator => error matches AudioError::Activate(message) && message@
                == "CoCreateInstance(MMDeviceEnumerator)"@ + ": "@ + words@,
            ComStep::FindDevice => error matches AudioError::Activate(message) && message@ == "GetDevice(target_id)"@
                + ": "@ + words@,
            ComStep::ActivateEndpoint => error matches AudioError::Activate(message) && message@
                == "Activate(IAudioEndpointVolume)"@ + ": "@ + words@,
            ComStep::WatchVolume => error matches AudioError::CallbackRegistration(message) && message@
                == "RegisterControlChangeNotify"@ + ": "@ + words@,
            _ => error matches AudioError::CallbackRegistration(message) && message@
                == "RegisterEndpointNotificationCallback"@ + ": "@ + words@,
        },
{
    let at = lemma_bind_position(step);
    lemma_bind_move(step, Err::<(), String>(words), next, at);
}

/// A call of binding that succeeds leads to the next one: enumerator, device,
/// endpoint, volume callback, device callback; and only the last one binds.
pub proof fn law_binding_goes_on_in_order(step: ComStep, next: BindMove)
    requires
        step == ComStep::CreateEnumerator || step == ComStep::FindDevice || step == ComStep::ActivateEndpoint || step
            == ComStep::WatchVolume || step == ComStep::WatchDevices,
        call_ensures(try_bind, (step, Ok::<(), String>(())), next),
    ensures
        step == ComStep::CreateEnumerator ==> next == BindMove::Call(ComStep::FindDevice),
        step == ComStep::FindDevice ==> next == BindMove::Call(ComStep::ActivateEndpoint),
        step == ComStep::ActivateEndpoint ==> next == BindMove::Call(ComStep::WatchVolume),
        step == ComStep::WatchVolume ==> next == BindMove::Call(ComStep::WatchDevices),
        step == ComStep::WatchDevices ==> next == BindMove::Bound,
{
    let at = lemma_bind_position(step);
    lemma_bind_move(step, Ok::<(), String>(()), next, at);
}

/// The device is bound only after all five calls were made in order and every
/// one succeeded.
pub proof fn law_bound_means_every_call_succeeded(
    steps: Seq<ComStep>,
    outcomes: Seq<Result<(), String>>,
    moves: Seq<BindMove>,
)
    requires
        steps.len() > 0,
        outcomes.len() == steps.len(),
        moves.len() == steps.len(),
        call_ensures(first_bind_step, (), steps[0]),
        forall|i: int| 0 <= i < steps.len() ==> call_ensures(try_bind, (steps[i], outcomes[i]), #[trigger] moves[i]),
        forall|i: int| 0 < i < steps.len() ==> moves[i - 1] == BindMove::Call(#[trigger] steps[i]),
        moves.last() is Bound,
    ensures
        steps == seq![
            ComStep::CreateEnumerator,
            ComStep::FindDevice,
            ComStep::ActivateEndpoint,
            ComStep::WatchVolume,
            ComStep::WatchDevices,
        ],
        forall|i: int| 0 <= i < outcomes.len() ==> #[trigger] outcomes[i] is Ok,
{
    assert(steps[0] == ComStep::CreateEnumerator);
    lemma_bind_chain(steps, outcomes, moves, 0);
    lemma_bind_chain(steps, outcomes, moves, 1);
    lemma_bind_chain(steps, outcomes, moves, 2);
    lemma_bind_chain(steps, outcomes, moves, 3);
    lemma_bind_chain(steps, outcomes, moves, 4);
    assert(steps =~= seq![
        ComStep::CreateEnumerator,
        ComStep::FindDevice,
        ComStep::ActivateEndpoint,
        ComStep::WatchVolume,
        ComStep::WatchDevices,
    ]);
}

proof fn lemma_bind_chain(steps: Seq<ComStep>, outcomes: Seq<Result<(), String>>, moves: Seq<BindMove>, at: int)
    requires
        0 <= at < 5,
        at < steps.len(),
        outcomes.len() == steps.len(),
        moves.len() == steps.len(),
        bind_order()[at] == steps[at],
        forall|i: int| 0 <= i < steps.len() ==> call_ensures(try_bind, (steps[i], outcomes[i]), #[trigger] moves[i]),
        forall|i: int| 0 < i < steps.len() ==> moves[i - 1] == BindMove::Call(#[trigger] steps[i]),
        moves.last() is Bound,
    ensures
        outcomes[at] is Ok,
        at < 4 ==> at + 1 < steps.len() && bind_order()[at + 1] == steps[at + 1],
        at == 4 ==> steps.len() == 5,
{
    assert(call_ensures(try_bind, (steps[at], outcomes[at]), moves[at]));
    lemma_bind_move(steps[at], outcomes[at], moves[at], at);
    if at + 1 < steps.len() {
        assert(moves[at] == BindMove::Call(steps[at + 1]));
    } else {
        assert(moves.last() == moves[at]);
    }
}

/// Binding is tried again exactly after a failure, with its error, once the
/// wait is over; the next wait is twice as long, but five seconds at most.
pub proof fn law_binding_is_retried(backoff: u64, attempt: AudioResult<()>, retry: Retry)
    requires
        2 * backoff <= u64::MAX,
        call_ensures(bind_with_retry, (backoff, attempt), retry),
    ensures
        retry is Bound <==> attempt is Ok,
        attempt matches Err(error) ==> (retry matches Retry::Wait { millis, next, error: told } && told == error && millis
            == backoff && (2 * backoff <= 5_000 ==> next == 2 * backoff) && (2 * backoff > 5_000 ==> next == 5_000)),
{
}

/// The first waits are 100, 200, 400, 800, 1600 and 3200 milliseconds; every
/// later one is 5000.
pub proof fn law_backoff_in_milliseconds(failures: nat)
    ensures
        FIRST_BACKOFF_MILLIS == 100,
        backoff_after(0) == 100,
        backoff_after(1) == 200,
        backoff_after(2) == 400,
        backoff_after(3) == 800,
        backoff_after(4) == 1_600,
        backoff_after(5) == 3_200,
        failures >= 6 ==> backoff_after(failures) == 5_000,
{
    reveal_with_fuel(backoff_after, 8);
    law_backoff_grows_to_the_limit(failures);
}

/// The watchdog ticks twice a second, and 256 events may wait.
pub proof fn law_watchdog_ticks_twice_a_second()
    ensures
        2 * WATCHDOG_MILLIS == 1_000,
        EVENT_CAPACITY == 256,
{
}

/// Giving a binding up hands back each callback with the thing it was
/// registered with, where both are there, and keeps nothing.
pub proof fn law_release_hands_back_what_was_bound<E, V, L, N>()
    ensures
        forall|state: &mut DeviceState<E, V, L, N>, released: Released<E, V, L, N>| #[trigger]
            call_ensures(DeviceState::<E, V, L, N>::release, (state,), released) ==> {
                &&& final(state).endpoint is None
                &&& final(state).volume_cb is None
                &&& final(state).enumerator is None
                &&& final(state).notif_client is None
                &&& state.endpoint is Some && state.volume_cb is Some ==> released.volume == Some(
                    (state.endpoint->0, state.volume_cb->0),
                )
                &&& state.enumerator is Some && state.notif_client is Some ==> released.devices == Some(
                    (state.enumerator->0, state.notif_client->0),
                )
                &&& state.endpoint is None || state.volume_cb is None ==> released.volume is None
                &&& state.enumerator is None || state.notif_client is None ==> released.devices is None
            },
{
}

/// A new binding takes the place of the old one, whose callbacks are handed
/// back.
pub proof fn law_rebind_replaces_the_binding<E, V, L, N>(endpoint: E, volume_cb: V, enumerator: L, notif_client: N)
    ensures
        forall|state: &mut DeviceState<E, V, L, N>, released: Released<E, V, L, N>| #[trigger]
            call_ensures(
                DeviceState::<E, V, L, N>::rebind,
                (state, endpoint, volume_cb, enumerator, notif_client),
                released,
            ) ==> {
                &&& final(state).endpoint == Some(endpoint)
                &&& final(state).volume_cb == Some(volume_cb)
                &&& final(state).enumerator == Some(enumerator)
                &&& final(state).notif_client == Some(notif_client)
                &&& state.endpoint is Some && state.volume_cb is Some ==> released.volume == Some(
                    (state.endpoint->0, state.volume_cb->0),
                )
                &&& state.enumerator is Some && state.notif_client is Some ==> released.devices == Some(
                    (state.enumerator->0, state.notif_client->0),
                )
            },
{
}

/// What the endpoint gives is passed on as it is; without an endpoint the
/// device is gone; a failure keeps its words and, for a level, its channel.
pub proof fn law_endpoint_replies_are_passed_on<T>(
    reply: Option<Result<T, String>>,
    outcome: AudioResult<T>,
    channel: u32,
    level: Option<Result<Level, String>>,
    read: AudioResult<Level>,
    done: Option<Result<(), String>>,
    written: AudioResult<()>,
)
    requires
        call_ensures(with_endpoint::<T>, (reply,), outcome),
        call_ensures(read_level, (channel, level), read),
        call_ensures(write_level, (channel, done), written),
    ensures
        reply is None ==> outcome == Err::<T, AudioError>(AudioError::DeviceDisappeared),
        reply matches Some(Ok(value)) ==> outcome == Ok::<T, AudioError>(value),
        reply matches Some(Err(words)) ==> (outcome matches Err(AudioError::Activate(message)) && message@
            == "endpoint op"@ + ": "@ + words@),
        level is None ==> read == Err::<Level, AudioError>(AudioError::DeviceDisappeared),
        level matches Some(Ok(value)) ==> read == Ok::<Level, AudioError>(value),
        level matches Some(Err(words)) ==> (read matches Err(AudioError::GetLevel { channel: told, message }) && told
            == channel && message@ == words@),
        done is None ==> written == Err::<(), AudioError>(AudioError::DeviceDisappeared),
        done matches Some(Ok(_)) ==> written is Ok,
        done matches Some(Err(words)) ==> (written matches Err(AudioError::SetLevel { channel: told, message }) && told
            == channel && message@ == words@),
{
}

/// The receiving end of the event channel is handed out once: the first taker
/// gets it, and after that there is none.
pub proof fn law_subscription_is_taken_once<R>()
    ensures
        forall|slot: &mut Option<R>, taken: AudioResult<R>| #[trigger]
            call_ensures(take_subscription::<R>, (slot,), taken) ==> {
                &&& *final(slot) is None
                &&& *slot matches Some(receiver) ==> taken == Ok::<R, AudioError>(receiver)
                &&& *slot is None ==> (taken matches Err(AudioError::CallbackRegistration(message)) && message@
                    == "subscribe() already called"@)
            },
{
}

/// Every change of the volume is an event. Of the notifications about devices
/// only two are: that the pinned device was added or has become active. It is
/// the pinned device exactly if its ID is the pinned ID.
pub proof fn law_notifications_wake_the_enforcer(
    target: &str,
    id: &str,
    target_units: Vec<u16>,
    id_units: Vec<u16>,
    notification: Notification,
    event: Option<AudioEvent>,
    without_id: Option<AudioEvent>,
)
    requires
        forall|i: int| 0 <= i < target@.len() ==> #[trigger] target@[i] != '\0',
        forall|i: int| 0 <= i < id@.len() ==> #[trigger] id@[i] != '\0',
        call_ensures(wide, (target,), target_units),
        call_ensures(wide, (id,), id_units),
        call_ensures(on_notification, (&target_units, notification, Some(&id_units)), event),
        call_ensures(on_notification, (&target_units, notification, None::<&Vec<u16>>), without_id),
    ensures
        notification is Volume ==> event == Some(AudioEvent::VolumeChanged) && without_id == Some(
            AudioEvent::VolumeChanged,
        ),
        !(notification is Volume) ==> without_id is None,
        notification is DeviceAdded || notification == (Notification::DeviceState { active: true }) ==> event == (
        if target@ == id@ {
            Some(AudioEvent::DeviceReappeared)
        } else {
            None
        }),
        notification is DeviceRemoved || notification is DefaultDevice || notification is Property || notification == (
        Notification::DeviceState { active: false }) ==> event is None,
{
    law_ids_match_when_equal(target@, id@);
}

/// Where there is no audio interface, nothing is supported.
pub proof fn law_stand_in_supports_nothing(
    device_id: &str,
    bound: AudioResult<RealAudio>,
    audio: RealAudio,
    count: AudioResult<u32>,
)
    requires
        call_ensures(RealAudio::for_device, (device_id,), bound),
        call_ensures(<RealAudio as AudioController>::channel_count, (&audio,), count),
    ensures
        bound == Err::<RealAudio, AudioError>(AudioError::Unsupported),
        count == Err::<u32, AudioError>(AudioError::Unsupported),
{
}

/// A notification about the pinned device is known by the ID alone, however
/// the units of that ID end.
pub proof fn law_pinned_device_wakes_the_enforcer(
    target: &str,
    id: &str,
    target_units: Vec<u16>,
    id_units: Vec<u16>,
    given: Vec<u16>,
    known: bool,
    notification: Notification,
    event: Option<AudioEvent>,
)
    requires
        forall|i: int| 0 <= i < target@.len() ==> #[trigger] target@[i] != '\0',
        forall|i: int| 0 <= i < id@.len() ==> #[trigger] id@[i] != '\0',
        call_ensures(wide, (target,), target_units),
        call_ensures(wide, (id,), id_units),
        given@.len() >= id_units@.len() - 1,
        given@.take(id_units@.len() - 1) == id_units@.drop_last(),
        given@.len() >= id_units@.len() ==> given@[id_units@.len() - 1] == 0,
        call_ensures(id_matches, (&target_units, Some(&given)), known),
        call_ensures(on_notification, (&target_units, notification, Some(&given)), event),
    ensures
        notification is DeviceAdded || notification == (Notification::DeviceState { active: true }) ==> event == (
        if target@ == id@ {
            Some(AudioEvent::DeviceReappeared)
        } else {
            None
        }),
        notification is DeviceRemoved || notification is DefaultDevice || notification is Property || notification == (
        Notification::DeviceState { active: false }) ==> event is None,
{
    law_device_is_known_however_its_id_ends(target, id, target_units, id_units, given, known);
}

/// Before anything is bound there is nothing to release.
pub proof fn law_nothing_is_bound_at_first<E, V, L, N>(state: DeviceState<E, V, L, N>)
    requires
        call_ensures(DeviceState::<E, V, L, N>::unbound, (), state),
    ensures
        state.endpoint is None,
        state.volume_cb is None,
        state.enumerator is None,
        state.notif_client is None,
{
}

/// The stand-in neither reads nor writes a level, and sends no events.
pub proof fn law_stand_in_does_nothing(
    audio: RealAudio,
    channel: u32,
    level: Level,
    read: AudioResult<Level>,
    written: AudioResult<()>,
    events: AudioResult<Receiver<AudioEvent>>,
)
    requires
        call_ensures(<RealAudio as AudioController>::get_channel, (&audio, channel), read),
        call_ensures(<RealAudio as AudioController>::set_channel, (&audio, channel, level), written),
        call_ensures(<RealAudio as AudioController>::subscribe, (&audio,), events),
    ensures
        read == Err::<Level, AudioError>(AudioError::Unsupported),
        written == Err::<(), AudioError>(AudioError::Unsupported),
        events == Err::<Receiver<AudioEvent>, AudioError>(AudioError::Unsupported),
{
}

} // verus!
