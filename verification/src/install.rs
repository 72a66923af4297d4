//! Install, uninstall, retarget and status: picking the target device, the
//! autostart entry, and what is printed.

use crate::audio::{AudioError, AudioResult};
use crate::config::{Config, ConfigError};
use crate::failure::IoFailure;
use crate::text::{
    decimal, is_number, is_white_space, law_decimal_reads_back, number_value, parse_number, show_decimal, trim,
    trimmed, without_leading_space, without_trailing_space,
};
use crate::windows_impl::EndpointInfo;
use std::path::PathBuf;
use vstd::prelude::*;
use vstd::string::*;

verus! {

/// The autostart entry's name under the Run key.
pub const RUN_VALUE_NAME: &'static str = "BalanceEnforcer";

/// The per-user Run key.
pub const RUN_KEY_PATH: &'static str = "Software\\Microsoft\\Windows\\CurrentVersion\\Run";

#[derive(Debug)]
pub enum InstallError {
    Config(ConfigError),
    Audio(AudioError),
    Io(IoFailure),
    NoEndpoints,
    RegistryUnsupported,
}

pub type InstallResult<T> = Result<T, InstallError>;

impl InstallError {
    /// `text` is how the error can be put into words.
    pub open spec fn reads(&self, text: Seq<char>) -> bool {
        match self {
            InstallError::Config(error) => error.reads(text),
            InstallError::Audio(error) => text == error.text(),
            InstallError::Io(failure) => text == failure.message@,
            InstallError::NoEndpoints => text == "no audio endpoints found"@,
            InstallError::RegistryUnsupported => text == "registry operation not supported on this platform"@,
        }
    }

    pub fn message(&self) -> (message: String)
        ensures
            self.reads(message@),
    {
        match self {
            InstallError::Config(error) => error.message(),
            InstallError::Audio(error) => error.message(),
            InstallError::Io(failure) => failure.message.clone(),
            InstallError::NoEndpoints => "no audio endpoints found".to_owned(),
            InstallError::RegistryUnsupported => "registry operation not supported on this platform".to_owned(),
        }
    }
}

/// The first default device from `from` on; the first device if there is none.
pub open spec fn default_from(endpoints: Seq<EndpointInfo>, from: int) -> int
    decreases endpoints.len() - from,
{
    if from >= endpoints.len() {
        0
    } else if endpoints[from].is_default {
        from
    } else {
        default_from(endpoints, from + 1)
    }
}

/// The device that is offered: the first default device, or else the first.
pub open spec fn default_of(endpoints: Seq<EndpointInfo>) -> int {
    default_from(endpoints, 0)
}

/// The position of the device that is offered.
pub fn default_index(endpoints: &Vec<EndpointInfo>) -> (index: usize)
    ensures
        index == default_of(endpoints@),
        endpoints@.len() > 0 ==> index < endpoints@.len(),
{
    let mut at: usize = 0;
    while at < endpoints.len()
        invariant
            at <= endpoints@.len(),
            default_of(endpoints@) == default_from(endpoints@, at as int),
        decreases endpoints@.len() - at,
    {
        if endpoints[at].is_default {
            return at;
        }
        at = at + 1;
    }
    0
}

proof fn lemma_default_from(endpoints: Seq<EndpointInfo>, from: int, at: int)
    requires
        0 <= from <= at < endpoints.len(),
        endpoints[at].is_default,
    ensures
        from <= default_from(endpoints, from) <= at,
        endpoints[default_from(endpoints, from)].is_default,
        forall|i: int| from <= i < default_from(endpoints, from) ==> !(#[trigger] endpoints[i]).is_default,
    decreases at - from,
{
    if !endpoints[from].is_default {
        lemma_default_from(endpoints, from + 1, at);
    }
}

/// Where any device is the default, the offered device is one, and none before
/// it is.
pub proof fn law_offered_device_is_the_first_default(endpoints: Seq<EndpointInfo>, at: int)
    requires
        0 <= at < endpoints.len(),
        endpoints[at].is_default,
    ensures
        0 <= default_of(endpoints) <= at,
        endpoints[default_of(endpoints)].is_default,
        forall|i: int| 0 <= i < default_of(endpoints) ==> !(#[trigger] endpoints[i]).is_default,
{
    lemma_default_from(endpoints, 0, at);
}

/// The texts of a list of lines.
pub open spec fn texts(lines: Seq<String>) -> Seq<Seq<char>> {
    lines.map_values(|line: String| line@)
}

/// One device as the menu shows it.
pub open spec fn menu_line(index: int, endpoint: EndpointInfo) -> Seq<char> {
    "  ["@ + decimal(index as nat) + "] "@ + endpoint.friendly_name@ + (if endpoint.is_default {
        " [default]"@
    } else {
        seq![]
    })
}

/// The menu: a heading and one line for each device.
pub open spec fn menu_of(endpoints: Seq<EndpointInfo>) -> Seq<Seq<char>> {
    seq!["Available audio output devices:"@] + endpoints.map(|index: int, endpoint: EndpointInfo| menu_line(index, endpoint))
}

fn device_menu(endpoints: &Vec<EndpointInfo>) -> (menu: Vec<String>)
    ensures
        texts(menu@) == menu_of(endpoints@),
{
    let mut menu: Vec<String> = Vec::new();
    menu.push("Available audio output devices:".to_owned());
    let mut at: usize = 0;
    while at < endpoints.len()
        invariant
            at <= endpoints@.len(),
            menu@.len() == at + 1,
            menu@[0]@ == "Available audio output devices:"@,
            forall|i: int| 0 <= i < at ==> (#[trigger] menu@[i + 1])@ == menu_line(i, endpoints@[i]),
        decreases endpoints@.len() - at,
    {
        let endpoint = &endpoints[at];
        let mut line = "  [".to_owned().concat(show_decimal(at as u64).as_str()).concat("] ").concat(
            endpoint.friendly_name.as_str(),
        );
        if endpoint.is_default {
            line = line.concat(" [default]");
        }
        assert(line@ =~= menu_line(at as int, *endpoint));
        menu.push(line);
        at = at + 1;
    }
    assert(texts(menu@) =~= menu_of(endpoints@)) by {
        assert forall|i: int| 0 <= i < menu@.len() implies texts(menu@)[i] == menu_of(endpoints@)[i] by {
            if i > 0 {
                let at = i - 1;
                assert(menu@[at + 1]@ == menu_line(at, endpoints@[at]));
            }
        }
    }
    menu
}

/// The device that a typed number picks, if it picks one.
pub open spec fn picked(count: nat, line: Seq<char>) -> Option<int> {
    if is_number(trimmed(line)) && number_value(trimmed(line)) < count {
        Some(number_value(trimmed(line)) as int)
    } else {
        None
    }
}

/// `config` names this device.
pub open spec fn is_target(config: Config, endpoint: EndpointInfo) -> bool {
    config.target_device_id@ == endpoint.id@ && config.target_device_name@ == endpoint.friendly_name@
}

/// How picking the target device goes on.
#[derive(Debug)]
pub enum Choice {
    /// Show the menu and the prompt, read a line and hand it in.
    Ask { endpoints: Vec<EndpointInfo>, menu: Vec<String>, prompt: String },
    /// This device is the target.
    Target(Config),
    /// The line picked no device. Nothing is changed.
    Aborted,
}

/// `choice` is the device at this position, or none.
pub open spec fn is_choice(endpoints: Seq<EndpointInfo>, at: Option<int>, choice: Choice) -> bool {
    match at {
        Some(index) => choice matches Choice::Target(config) && is_target(config, endpoints[index]),
        None => choice == Choice::Aborted,
    }
}

fn target(endpoint: &EndpointInfo) -> (config: Config)
    ensures
        is_target(config, *endpoint),
{
    Config { target_device_id: endpoint.id.clone(), target_device_name: endpoint.friendly_name.clone() }
}

fn select(endpoints: AudioResult<Vec<EndpointInfo>>, auto: bool, offer: bool) -> (choice: InstallResult<Choice>)
    ensures
        match endpoints {
            Err(error) => choice == Err::<Choice, InstallError>(InstallError::Audio(error)),
            Ok(found) => if found@.len() == 0 {
                choice == Err::<Choice, InstallError>(InstallError::NoEndpoints)
            } else if auto {
                choice matches Ok(made) && is_choice(found@, Some(default_of(found@)), made)
            } else {
                choice matches Ok(Choice::Ask { endpoints: kept, menu, prompt }) && kept == found && texts(menu@)
                    == menu_of(found@) && prompt@ == (if offer {
                    "Which device has the broken speaker? ["@ + decimal(default_of(found@) as nat) + "]: "@
                } else {
                    "Pick the target device: "@
                })
            },
        },
{
    let found = match endpoints {
        Ok(found) => found,
        Err(error) => return Err(InstallError::Audio(error)),
    };
    if found.len() == 0 {
        return Err(InstallError::NoEndpoints);
    }
    let offered: usize = default_index(&found);
    if auto {
        return Ok(Choice::Target(target(&found[offered])));
    }
    let menu = device_menu(&found);
    let prompt = if offer {
        "Which device has the broken speaker? [".to_owned().concat(show_decimal(offered as u64).as_str()).concat("]: ")
    } else {
        "Pick the target device: ".to_owned()
    };
    Ok(Choice::Ask { endpoints: found, menu, prompt })
}

/// Begins picking the target device for an installation. With `auto` the
/// offered device is taken without asking.
pub fn install_interactive(endpoints: AudioResult<Vec<EndpointInfo>>, auto: bool) -> (choice: InstallResult<Choice>)
    ensures
        match endpoints {
            Err(error) => choice == Err::<Choice, InstallError>(InstallError::Audio(error)),
            Ok(found) => if found@.len() == 0 {
                choice == Err::<Choice, InstallError>(InstallError::NoEndpoints)
            } else if auto {
                choice matches Ok(made) && is_choice(found@, Some(default_of(found@)), made)
            } else {
                choice matches Ok(Choice::Ask { endpoints: kept, menu, prompt }) && kept == found && texts(menu@)
                    == menu_of(found@) && prompt@ == "Which device has the broken speaker? ["@ + decimal(
                    default_of(found@) as nat,
                ) + "]: "@
            },
        },
{
    select(endpoints, auto, true)
}

/// Ends picking the target device for an installation: an empty line takes the
/// offered device, a number takes the device it stands for.
pub fn answer_install(endpoints: &Vec<EndpointInfo>, line: &str) -> (choice: Choice)
    requires
        endpoints@.len() > 0,
    ensures
        is_choice(
            endpoints@,
            if trimmed(line@).len() == 0 {
                Some(default_of(endpoints@))
            } else {
                picked(endpoints@.len(), line@)
            },
            choice,
        ),
{
    if trim(line).is_empty() {
        Choice::Target(target(&endpoints[default_index(endpoints)]))
    } else {
        answer_retarget(endpoints, line)
    }
}

/// Begins picking another target device, without touching the autostart entry.
pub fn retarget(endpoints: AudioResult<Vec<EndpointInfo>>, auto: bool) -> (choice: InstallResult<Choice>)
    ensures
        match endpoints {
            Err(error) => choice == Err::<Choice, InstallError>(InstallError::Audio(error)),
            Ok(found) => if found@.len() == 0 {
                choice == Err::<Choice, InstallError>(InstallError::NoEndpoints)
            } else if auto {
                choice matches Ok(made) && is_choice(found@, Some(default_of(found@)), made)
            } else {
                choice matches Ok(Choice::Ask { endpoints: kept, menu, prompt }) && kept == found && texts(menu@)
                    == menu_of(found@) && prompt@ == "Pick the target device: "@
            },
        },
{
    select(endpoints, auto, false)
}

/// Ends picking another target device: a number takes the device it stands
/// for.
pub fn answer_retarget(endpoints: &Vec<EndpointInfo>, line: &str) -> (choice: Choice)
    ensures
        is_choice(endpoints@, picked(endpoints@.len(), line@), choice),
{
    let count: usize = endpoints.len();
    match parse_number(trim(line)) {
        Some(index) => {
            if index < count {
                Choice::Target(target(&endpoints[index]))
            } else {
                Choice::Aborted
            }
        },
        None => Choice::Aborted,
    }
}

/// Every device of the menu can be picked: typing the number that the menu
/// shows for it, whatever white space follows or precedes it, takes it.
pub proof fn law_menu_numbers_pick(count: nat, index: int, before: Seq<char>, after: Seq<char>)
    requires
        0 <= index < count,
        forall|i: int| 0 <= i < before.len() ==> is_white_space(#[trigger] before[i]),
        forall|i: int| 0 <= i < after.len() ==> is_white_space(#[trigger] after[i]),
    ensures
        picked(count, before + decimal(index as nat) + after) == Some(index),
{
    let shown = decimal(index as nat);
    lemma_decimal_has_no_space(index as nat);
    lemma_trim_takes_spaces(before, shown, after);
    law_decimal_reads_back(index as nat);
}

proof fn lemma_decimal_has_no_space(n: nat)
    ensures
        decimal(n).len() > 0,
        forall|i: int| 0 <= i < decimal(n).len() ==> !is_white_space(#[trigger] decimal(n)[i]),
    decreases n,
{
    if n >= 10 {
        lemma_decimal_has_no_space(n / 10);
    }
}

proof fn lemma_trim_takes_spaces(before: Seq<char>, shown: Seq<char>, after: Seq<char>)
    requires
        shown.len() > 0,
        !is_white_space(shown[0]),
        !is_white_space(shown.last()),
        forall|i: int| 0 <= i < before.len() ==> is_white_space(#[trigger] before[i]),
        forall|i: int| 0 <= i < after.len() ==> is_white_space(#[trigger] after[i]),
    ensures
        trimmed(before + shown + after) == shown,
    decreases before.len() + after.len(),
{
    if before.len() > 0 {
        let line = before + shown + after;
        assert(line[0] == before[0]);
        assert(line.skip(1) =~= before.skip(1) + shown + after);
        assert forall|i: int| 0 <= i < before.skip(1).len() implies is_white_space(#[trigger] before.skip(1)[i]) by {
            assert(before.skip(1)[i] == before[i + 1]);
        }
        lemma_trim_takes_spaces(before.skip(1), shown, after);
    } else {
        let line = before + shown + after;
        assert(line =~= shown + after);
        assert(line[0] == shown[0]);
        assert(without_leading_space(line) == line);
        lemma_trailing_spaces(shown, after);
    }
}

proof fn lemma_trailing_spaces(shown: Seq<char>, after: Seq<char>)
    requires
        shown.len() > 0,
        !is_white_space(shown.last()),
        forall|i: int| 0 <= i < after.len() ==> is_white_space(#[trigger] after[i]),
    ensures
        without_trailing_space(shown + after) == shown,
    decreases after.len(),
{
    if after.len() > 0 {
        assert((shown + after).last() == after[after.len() - 1]);
        assert((shown + after).drop_last() =~= shown + after.drop_last());
        lemma_trailing_spaces(shown, after.drop_last());
    } else {
        assert(shown + after =~= shown);
    }
}

/// What is printed once the target of an installation is stored.
pub fn saved_message(config: &Config) -> (message: String)
    ensures
        message@ == "Saved target: "@ + config.target_device_name@,
{
    "Saved target: ".to_owned().concat(config.target_device_name.as_str())
}

/// What is printed once another target is stored.
pub fn retargeted_message(config: &Config) -> (message: String)
    ensures
        message@ == "Retargeted to: "@ + config.target_device_name@,
{
    "Retargeted to: ".to_owned().concat(config.target_device_name.as_str())
}

/// An ASCII letter in lower case; any other character as it is.
pub open spec fn lower(c: char) -> char {
    if 'A' <= c <= 'Z' {
        (c as u32 + 32) as char
    } else {
        c
    }
}

/// Two names of files or directories mean the same, ASCII case aside.
pub open spec fn same_name(a: Seq<char>, b: Seq<char>) -> bool {
    a.len() == b.len() && forall|i: int| 0 <= i < a.len() ==> lower(#[trigger] a[i]) == lower(b[i])
}

/// `exe` lies in the directory of the installer package, `Programs` and
/// `BalanceEnforcer` under the user's local application data. Both paths are
/// given by their components.
pub open spec fn is_packaged(exe: Seq<Seq<char>>, local_app_data: Option<Seq<Seq<char>>>) -> bool {
    match local_app_data {
        None => false,
        Some(base) => {
            &&& exe.len() > base.len() + 2
            &&& forall|i: int| 0 <= i < base.len() ==> same_name(#[trigger] exe[i], base[i])
            &&& same_name(exe[base.len() as int], "Programs"@)
            &&& same_name(exe[base.len() as int + 1], "BalanceEnforcer"@)
        },
    }
}

fn names_agree(a: &str, b: &str) -> (agree: bool)
    ensures
        agree == same_name(a@, b@),
{
    let len = a.unicode_len();
    if len != b.unicode_len() {
        return false;
    }
    let mut at: usize = 0;
    while at < len
        invariant
            at <= len,
            len == a@.len(),
            len == b@.len(),
            forall|i: int| 0 <= i < at ==> lower(#[trigger] a@[i]) == lower(b@[i]),
        decreases len - at,
    {
        let first = a.get_char(at);
        let second = b.get_char(at);
        let folded: u32 = if 'A' <= first && first <= 'Z' {
            first as u32 + 32
        } else {
            first as u32
        };
        let other: u32 = if 'A' <= second && second <= 'Z' {
            second as u32 + 32
        } else {
            second as u32
        };
        assert(folded == lower(first) as u32);
        assert(other == lower(second) as u32);
        if folded != other {
            assert(lower(a@[at as int]) != lower(b@[at as int]));
            return false;
        }
        at = at + 1;
    }
    true
}

/// Whether the program looks after its own autostart entry. The installer
/// package declares the entry of the executable that it installed.
pub fn manages_autostart(exe: &Vec<String>, local_app_data: Option<&Vec<String>>) -> (manages: bool)
    ensures
        manages == !is_packaged(
            texts(exe@),
            match local_app_data {
                Some(base) => Some(texts(base@)),
                None => None,
            },
        ),
{
    let base = match local_app_data {
        None => return true,
        Some(base) => base,
    };
    let ghost exe_texts = texts(exe@);
    let ghost base_texts = texts(base@);
    let depth: usize = base.len();
    if exe.len() < depth || exe.len() - depth <= 2 {
        return true;
    }
    let mut at: usize = 0;
    while at < depth
        invariant
            at <= depth,
            depth == base@.len(),
            depth + 2 < exe@.len(),
            exe_texts == texts(exe@),
            base_texts == texts(base@),
            local_app_data matches Some(given) && given@ == base@,
            forall|i: int| 0 <= i < at ==> same_name(#[trigger] exe_texts[i], base_texts[i]),
        decreases depth - at,
    {
        if !names_agree(exe[at].as_str(), base[at].as_str()) {
            assert(!same_name(exe_texts[at as int], base_texts[at as int]));
            return true;
        }
        at = at + 1;
    }
    !(names_agree(exe[depth].as_str(), "Programs") && names_agree(exe[depth + 1].as_str(), "BalanceEnforcer"))
}

/// The command that the autostart entry holds: the path in quotation marks.
pub fn autostart_command(exe: &str) -> (command: String)
    ensures
        command@ == "\""@ + exe@ + "\""@,
{
    "\"".to_owned().concat(exe).concat("\"")
}

/// The result of writing the autostart entry. `reply` is the registry's reply,
/// or nothing where there is no registry.
pub fn install_autostart(reply: Option<Result<(), IoFailure>>) -> (outcome: InstallResult<()>)
    ensures
        outcome == (match reply {
            None => Err(InstallError::RegistryUnsupported),
            Some(Ok(done)) => Ok(done),
            Some(Err(failure)) => Err(InstallError::Io(failure)),
        }),
{
    match reply {
        None => Err(InstallError::RegistryUnsupported),
        Some(Ok(done)) => Ok(done),
        Some(Err(failure)) => Err(InstallError::Io(failure)),
    }
}

/// What comes after a step of an installation.
#[derive(Debug)]
pub enum InstallMove {
    /// Say this, then write the autostart entry.
    WriteAutostart { say: String },
    /// Say this; the installation is complete.
    Done { say: String },
    /// The installation ends with this error.
    Fail(InstallError),
}

/// What follows once the target was stored, or was not. The autostart entry
/// comes after the config, and only if the program manages it.
pub fn after_storing(config: &Config, stored: Result<(), ConfigError>, manages: bool) -> (next: InstallMove)
    ensures
        match stored {
            Err(error) => next == InstallMove::Fail(InstallError::Config(error)),
            Ok(_) => if manages {
                next matches InstallMove::WriteAutostart { say } && say@ == "Saved target: "@
                    + config.target_device_name@
            } else {
                next matches InstallMove::Done { say } && say@ == "Saved target: "@ + config.target_device_name@
            },
        },
{
    match stored {
        Err(error) => InstallMove::Fail(InstallError::Config(error)),
        Ok(_) => {
            let say = saved_message(config);
            if manages {
                InstallMove::WriteAutostart { say }
            } else {
                InstallMove::Done { say }
            }
        },
    }
}

/// What follows once the autostart entry was written, or was not. `reply` is
/// the registry's reply, or nothing where there is no registry.
pub fn after_autostart(reply: Option<Result<(), IoFailure>>) -> (next: InstallMove)
    ensures
        match reply {
            None => next == InstallMove::Fail(InstallError::RegistryUnsupported),
            Some(Err(failure)) => next == InstallMove::Fail(InstallError::Io(failure)),
            Some(Ok(_)) => next matches InstallMove::Done { say } && say@
                == "Installed autostart entry; balance-enforcer will run at next logon."@,
        },
{
    match install_autostart(reply) {
        Err(error) => InstallMove::Fail(error),
        Ok(_) => InstallMove::Done {
            say: "Installed autostart entry; balance-enforcer will run at next logon.".to_owned(),
        },
    }
}

/// What follows once the new target was stored, or was not. The autostart
/// entry is not touched.
pub fn after_retargeting(config: &Config, stored: Result<(), ConfigError>) -> (next: InstallMove)
    ensures
        match stored {
            Err(error) => next == InstallMove::Fail(InstallError::Config(error)),
            Ok(_) => next matches InstallMove::Done { say } && say@ == "Retargeted to: "@ + config.target_device_name@,
        },
{
    match stored {
        Err(error) => InstallMove::Fail(InstallError::Config(error)),
        Ok(_) => InstallMove::Done { say: retargeted_message(config) },
    }
}

/// The result of removing the autostart entry: an entry or a key that does not
/// exist counts as removed.
pub fn uninstall_autostart(reply: Option<Result<(), IoFailure>>) -> (outcome: InstallResult<()>)
    ensures
        outcome == (match reply {
            None => Err(InstallError::RegistryUnsupported),
            Some(Ok(done)) => Ok(done),
            Some(Err(failure)) => if failure.not_found {
                Ok(())
            } else {
                Err(InstallError::Io(failure))
            },
        }),
{
    match reply {
        None => Err(InstallError::RegistryUnsupported),
        Some(Ok(done)) => Ok(done),
        Some(Err(failure)) => {
            if failure.not_found {
                Ok(())
            } else {
                Err(InstallError::Io(failure))
            }
        },
    }
}

/// The command of the autostart entry: none where the entry, the key or the
/// registry does not exist.
pub fn autostart_path(reply: Option<Result<String, IoFailure>>) -> (outcome: InstallResult<Option<String>>)
    ensures
        outcome == (match reply {
            None => Ok(None),
            Some(Ok(command)) => Ok(Some(command)),
            Some(Err(failure)) => if failure.not_found {
                Ok(None)
            } else {
                Err(InstallError::Io(failure))
            },
        }),
{
    match reply {
        None => Ok(None),
        Some(Ok(command)) => Ok(Some(command)),
        Some(Err(failure)) => {
            if failure.not_found {
                Ok(None)
            } else {
                Err(InstallError::Io(failure))
            }
        },
    }
}

/// Calls `std::path::Path::display`. Nothing is assumed of the words.
#[verifier::external_body]
fn shown_path(path: &PathBuf) -> String {
    path.display().to_string()
}

/// `words` is how the path can be shown.
pub closed spec fn path_shows_as(path: &PathBuf, words: String) -> bool {
    call_ensures(shown_path, (path,), words)
}

/// What the status command prints, and how it ends.
#[derive(Debug)]
pub struct StatusReport {
    pub lines: Vec<String>,
    pub outcome: InstallResult<()>,
}

/// `lines` is what the status command can print about the config. A missing
/// config file is not an error.
pub open spec fn config_shows(config: Result<Config, ConfigError>, lines: Seq<Seq<char>>) -> bool {
    match config {
        Ok(found) => lines == seq![
            "config.target_device_name = "@ + found.target_device_name@,
            "config.target_device_id   = "@ + found.target_device_id@,
        ],
        Err(ConfigError::NotFound(path)) => exists|words: String| #[trigger]
            path_shows_as(&path, words) && lines == seq!["config: NOT FOUND at "@ + words@],
        Err(_) => false,
    }
}

pub open spec fn autostart_line(command: Option<String>) -> Seq<char> {
    match command {
        Some(path) => "autostart: ENABLED -> "@ + path@,
        None => "autostart: NOT REGISTERED"@,
    }
}

pub open spec fn endpoints_line(visible: AudioResult<usize>) -> Seq<char> {
    match visible {
        Ok(count) => "audio endpoints visible: "@ + decimal(count as nat),
        Err(error) => "audio enumeration unavailable: "@ + error.text(),
    }
}

/// What the status command says about the config, first of all. An error other
/// than a missing file ends the report.
pub fn status_of_config(config: Result<Config, ConfigError>) -> (said: InstallResult<Vec<String>>)
    ensures
        match said {
            Ok(lines) => config_shows(config, texts(lines@)),
            Err(error) => config matches Err(reason) && !(reason is NotFound) && error == InstallError::Config(reason),
        },
{
    let mut lines: Vec<String> = Vec::new();
    match config {
        Ok(found) => {
            lines.push("config.target_device_name = ".to_owned().concat(found.target_device_name.as_str()));
            lines.push("config.target_device_id   = ".to_owned().concat(found.target_device_id.as_str()));
            assert(texts(lines@) =~= seq![
                "config.target_device_name = "@ + found.target_device_name@,
                "config.target_device_id   = "@ + found.target_device_id@,
            ]);
        },
        Err(ConfigError::NotFound(path)) => {
            let words = shown_path(&path);
            assert(path_shows_as(&path, words));
            lines.push("config: NOT FOUND at ".to_owned().concat(words.as_str()));
            assert(texts(lines@) =~= seq!["config: NOT FOUND at "@ + words@]);
        },
        Err(error) => return Err(InstallError::Config(error)),
    }
    assert(config_shows(config, texts(lines@)));
    Ok(lines)
}

/// What the status command says about the autostart entry, once the config is
/// reported. An error ends the report.
pub fn status_of_autostart(autostart: InstallResult<Option<String>>) -> (said: InstallResult<String>)
    ensures
        match autostart {
            Ok(command) => said matches Ok(line) && line@ == autostart_line(command),
            Err(error) => said == Err::<String, InstallError>(error),
        },
{
    match autostart {
        Err(error) => Err(error),
        Ok(Some(path)) => Ok("autostart: ENABLED -> ".to_owned().concat(path.as_str())),
        Ok(None) => Ok("autostart: NOT REGISTERED".to_owned()),
    }
}

/// What the status command says about the output devices, last of all.
pub fn status_of_endpoints(visible: AudioResult<usize>) -> (line: String)
    ensures
        line@ == endpoints_line(visible),
{
    match visible {
        Ok(count) => "audio endpoints visible: ".to_owned().concat(show_decimal(count as u64).as_str()),
        Err(error) => "audio enumeration unavailable: ".to_owned().concat(error.message().as_str()),
    }
}

/// Reports the config, the autostart entry and how many output devices are
/// visible. The first error of the config or of the autostart entry ends the
/// report; that the devices cannot be listed is part of it.
pub fn status(
    config: Result<Config, ConfigError>,
    autostart: InstallResult<Option<String>>,
    visible: AudioResult<usize>,
) -> (report: StatusReport)
    ensures
        match config {
            Err(error) => !(error is NotFound) ==> report.lines@.len() == 0 && report.outcome == Err::<
                (),
                InstallError,
            >(InstallError::Config(error)),
            Ok(_) => true,
        },
        config is Ok || config->Err_0 is NotFound ==> exists|first: Seq<Seq<char>>| #[trigger]
            config_shows(config, first) && match autostart {
                Err(error) => texts(report.lines@) == first && report.outcome == Err::<(), InstallError>(error),
                Ok(command) => texts(report.lines@) == first + seq![
                    autostart_line(command),
                    endpoints_line(visible),
                ] && report.outcome == Ok::<(), InstallError>(()),
            },
{
    let mut lines = match status_of_config(config) {
        Ok(lines) => lines,
        Err(error) => return StatusReport { lines: Vec::new(), outcome: Err(error) },
    };
    let ghost first = texts(lines@);
    assert(config_shows(config, first));
    match status_of_autostart(autostart) {
        Ok(line) => lines.push(line),
        Err(error) => return StatusReport { lines, outcome: Err(error) },
    }
    lines.push(status_of_endpoints(visible));
    assert(texts(lines@) =~= first + seq![autostart_line(autostart->Ok_0), endpoints_line(visible)]);
    StatusReport { lines, outcome: Ok(()) }
}

proof fn lemma_offered(endpoints: Seq<EndpointInfo>, at: int)
    requires
        0 <= at < endpoints.len(),
        endpoints[at].is_default || at == 0 && forall|i: int|
            0 <= i < endpoints.len() ==> !(#[trigger] endpoints[i]).is_default,
        forall|i: int| 0 <= i < at ==> !(#[trigger] endpoints[i]).is_default,
    ensures
        default_of(endpoints) == at,
{
    if endpoints[at].is_default {
        law_offered_device_is_the_first_default(endpoints, at);
    } else {
        lemma_no_default(endpoints, 0);
    }
}

proof fn lemma_no_default(endpoints: Seq<EndpointInfo>, from: int)
    requires
        0 <= from,
        forall|i: int| 0 <= i < endpoints.len() ==> !(#[trigger] endpoints[i]).is_default,
    ensures
        default_from(endpoints, from) == 0,
    decreases endpoints.len() - from,
{
    if from < endpoints.len() {
        lemma_no_default(endpoints, from + 1);
    }
}

/// The offered device is the first default device, or the first of all where
/// none is the default.
pub proof fn law_first_default_is_offered(endpoints: Vec<EndpointInfo>, at: int, index: usize)
    requires
        0 <= at < endpoints@.len(),
        endpoints@[at].is_default || at == 0 && forall|i: int|
            0 <= i < endpoints@.len() ==> !(#[trigger] endpoints@[i]).is_default,
        forall|i: int| 0 <= i < at ==> !(#[trigger] endpoints@[i]).is_default,
        call_ensures(default_index, (&endpoints,), index),
    ensures
        index == at,
{
    lemma_offered(endpoints@, at);
}

/// An installation with `--auto` stores the ID and the name of the offered
/// device, character for character. Without it the user is asked: the menu has
/// a heading and one line for each device, with its number, its name and a
/// mark for a default device, and the prompt names the offered device.
pub proof fn law_install_takes_or_offers_the_default(
    found: Vec<EndpointInfo>,
    auto: bool,
    choice: InstallResult<Choice>,
    at: int,
)
    requires
        0 <= at < found@.len(),
        found@[at].is_default || at == 0 && forall|i: int|
            0 <= i < found@.len() ==> !(#[trigger] found@[i]).is_default,
        forall|i: int| 0 <= i < at ==> !(#[trigger] found@[i]).is_default,
        call_ensures(install_interactive, (Ok::<Vec<EndpointInfo>, AudioError>(found), auto), choice),
    ensures
        auto ==> (choice matches Ok(Choice::Target(config)) && config.target_device_id@ == found@[at].id@
            && config.target_device_name@ == found@[at].friendly_name@),
        !auto ==> (choice matches Ok(Choice::Ask { endpoints, menu, prompt }) && {
            &&& endpoints == found
            &&& prompt@ == "Which device has the broken speaker? ["@ + decimal(at as nat) + "]: "@
            &&& menu@.len() == found@.len() + 1
            &&& menu@[0]@ == "Available audio output devices:"@
            &&& forall|i: int|
                0 <= i < found@.len() ==> (#[trigger] menu@[i + 1])@ == "  ["@ + decimal(i as nat) + "] "@
                    + found@[i].friendly_name@ + (if found@[i].is_default {
                    " [default]"@
                } else {
                    Seq::empty()
                })
        }),
{
    lemma_offered(found@, at);
    if !auto {
        lemma_menu(found@, choice->Ok_0->menu);
    }
}

proof fn lemma_menu(found: Seq<EndpointInfo>, menu: Vec<String>)
    requires
        texts(menu@) == menu_of(found),
    ensures
        menu@.len() == found.len() + 1,
        menu@[0]@ == "Available audio output devices:"@,
        forall|i: int|
            0 <= i < found.len() ==> (#[trigger] menu@[i + 1])@ == "  ["@ + decimal(i as nat) + "] "@
                + found[i].friendly_name@ + (if found[i].is_default {
                " [default]"@
            } else {
                Seq::empty()
            }),
{
    assert(texts(menu@).len() == menu@.len());
    assert(menu_of(found).len() == found.len() + 1);
    assert(texts(menu@)[0] == menu@[0]@);
    assert(menu_of(found)[0] == "Available audio output devices:"@);
    assert forall|i: int| 0 <= i < found.len() implies (#[trigger] menu@[i + 1])@ == "  ["@ + decimal(i as nat) + "] "@
        + found[i].friendly_name@ + (if found[i].is_default {
        " [default]"@
    } else {
        Seq::empty()
    }) by {
        assert(texts(menu@)[i + 1] == menu@[i + 1]@);
        assert(menu_of(found)[i + 1] == menu_line(i, found[i]));
    }
}

/// Retargeting with `--auto` takes the offered device as an installation does;
/// without it the same menu is shown, and the prompt offers no device.
pub proof fn law_retarget_takes_or_asks(
    found: Vec<EndpointInfo>,
    auto: bool,
    choice: InstallResult<Choice>,
    at: int,
)
    requires
        0 <= at < found@.len(),
        found@[at].is_default || at == 0 && forall|i: int|
            0 <= i < found@.len() ==> !(#[trigger] found@[i]).is_default,
        forall|i: int| 0 <= i < at ==> !(#[trigger] found@[i]).is_default,
        call_ensures(retarget, (Ok::<Vec<EndpointInfo>, AudioError>(found), auto), choice),
    ensures
        auto ==> (choice matches Ok(Choice::Target(config)) && config.target_device_id@ == found@[at].id@
            && config.target_device_name@ == found@[at].friendly_name@),
        !auto ==> (choice matches Ok(Choice::Ask { endpoints, menu, prompt }) && {
            &&& endpoints == found
            &&& prompt@ == "Pick the target device: "@
            &&& menu@.len() == found@.len() + 1
            &&& menu@[0]@ == "Available audio output devices:"@
            &&& forall|i: int|
                0 <= i < found@.len() ==> (#[trigger] menu@[i + 1])@ == "  ["@ + decimal(i as nat) + "] "@
                    + found@[i].friendly_name@ + (if found@[i].is_default {
                    " [default]"@
                } else {
                    Seq::empty()
                })
        }),
{
    lemma_offered(found@, at);
    if !auto {
        lemma_menu(found@, choice->Ok_0->menu);
    }
}

/// Without devices, or without a list of them, nothing is picked: the error
/// says which.
pub proof fn law_no_devices_is_an_error(
    endpoints: AudioResult<Vec<EndpointInfo>>,
    auto: bool,
    installed: InstallResult<Choice>,
    retargeted: InstallResult<Choice>,
)
    requires
        call_ensures(install_interactive, (endpoints, auto), installed),
        call_ensures(retarget, (endpoints, auto), retargeted),
    ensures
        endpoints matches Err(error) ==> installed == Err::<Choice, InstallError>(InstallError::Audio(error))
            && retargeted == Err::<Choice, InstallError>(InstallError::Audio(error)),
        endpoints matches Ok(found) ==> (found@.len() == 0 ==> installed == Err::<Choice, InstallError>(
            InstallError::NoEndpoints,
        ) && retargeted == Err::<Choice, InstallError>(InstallError::NoEndpoints)),
        endpoints matches Ok(found) ==> (found@.len() > 0 ==> installed is Ok && retargeted is Ok),
{
}

/// Typing the number that the menu shows for a device, with any white space
/// round it, takes that device: its ID and its name are stored, character for
/// character. So two devices with distinct IDs are never confused.
pub proof fn law_typed_number_takes_its_device(
    endpoints: Vec<EndpointInfo>,
    at: int,
    before: Seq<char>,
    after: Seq<char>,
    line: &str,
    installed: Choice,
    retargeted: Choice,
)
    requires
        0 <= at < endpoints@.len(),
        forall|i: int| 0 <= i < before.len() ==> is_white_space(#[trigger] before[i]),
        forall|i: int| 0 <= i < after.len() ==> is_white_space(#[trigger] after[i]),
        line@ == before + decimal(at as nat) + after,
        call_ensures(answer_install, (&endpoints, line), installed),
        call_ensures(answer_retarget, (&endpoints, line), retargeted),
    ensures
        installed matches Choice::Target(config) && config.target_device_id@ == endpoints@[at].id@
            && config.target_device_name@ == endpoints@[at].friendly_name@,
        retargeted matches Choice::Target(config) && config.target_device_id@ == endpoints@[at].id@
            && config.target_device_name@ == endpoints@[at].friendly_name@,
{
    law_menu_numbers_pick(endpoints@.len(), at, before, after);
    lemma_decimal_has_no_space(at as nat);
    lemma_trim_takes_spaces(before, decimal(at as nat), after);
}

/// A number that the menu does not show picks nothing.
pub proof fn law_number_past_the_menu_aborts(
    endpoints: Vec<EndpointInfo>,
    number: nat,
    line: &str,
    installed: Choice,
    retargeted: Choice,
)
    requires
        endpoints@.len() > 0,
        number >= endpoints@.len(),
        line@ == decimal(number),
        call_ensures(answer_install, (&endpoints, line), installed),
        call_ensures(answer_retarget, (&endpoints, line), retargeted),
    ensures
        installed is Aborted,
        retargeted is Aborted,
{
    let none = Seq::<char>::empty();
    lemma_decimal_has_no_space(number);
    assert(none + decimal(number) + none =~= decimal(number));
    lemma_trim_takes_spaces(none, decimal(number), none);
    law_decimal_reads_back(number);
}

proof fn lemma_blank(line: Seq<char>)
    requires
        forall|i: int| 0 <= i < line.len() ==> is_white_space(#[trigger] line[i]),
    ensures
        trimmed(line).len() == 0,
    decreases line.len(),
{
    if line.len() > 0 {
        assert(is_white_space(line[0]));
        assert forall|i: int| 0 <= i < line.skip(1).len() implies is_white_space(#[trigger] line.skip(1)[i]) by {
            assert(line.skip(1)[i] == line[i + 1]);
        }
        lemma_blank(line.skip(1));
    }
}

/// An empty line, or one of white space alone, takes the offered device in an
/// installation and picks nothing when retargeting.
pub proof fn law_empty_line_takes_the_offered_device(
    endpoints: Vec<EndpointInfo>,
    at: int,
    line: &str,
    installed: Choice,
    retargeted: Choice,
)
    requires
        0 <= at < endpoints@.len(),
        endpoints@[at].is_default || at == 0 && forall|i: int|
            0 <= i < endpoints@.len() ==> !(#[trigger] endpoints@[i]).is_default,
        forall|i: int| 0 <= i < at ==> !(#[trigger] endpoints@[i]).is_default,
        forall|i: int| 0 <= i < line@.len() ==> is_white_space(#[trigger] line@[i]),
        call_ensures(answer_install, (&endpoints, line), installed),
        call_ensures(answer_retarget, (&endpoints, line), retargeted),
    ensures
        installed matches Choice::Target(config) && config.target_device_id@ == endpoints@[at].id@
            && config.target_device_name@ == endpoints@[at].friendly_name@,
        retargeted is Aborted,
{
    lemma_offered(endpoints@, at);
    lemma_blank(line@);
}

proof fn lemma_leading_keeps(line: Seq<char>, at: int) -> (kept: int)
    requires
        0 <= at < line.len(),
        !is_white_space(line[at]),
    ensures
        0 <= kept < without_leading_space(line).len(),
        without_leading_space(line)[kept] == line[at],
    decreases line.len(),
{
    if is_white_space(line[0]) {
        assert(line.skip(1)[at - 1] == line[at]);
        lemma_leading_keeps(line.skip(1), at - 1)
    } else {
        at
    }
}

proof fn lemma_trailing_keeps(line: Seq<char>, at: int)
    requires
        0 <= at < line.len(),
        !is_white_space(line[at]),
    ensures
        at < without_trailing_space(line).len(),
        without_trailing_space(line)[at] == line[at],
    decreases line.len(),
{
    if is_white_space(line.last()) {
        assert(line.drop_last()[at] == line[at]);
        lemma_trailing_keeps(line.drop_last(), at);
    }
}

/// A line with anything but white space, digits and a plus sign in it picks
/// nothing.
pub proof fn law_other_text_aborts(
    endpoints: Vec<EndpointInfo>,
    line: &str,
    at: int,
    installed: Choice,
    retargeted: Choice,
)
    requires
        endpoints@.len() > 0,
        0 <= at < line@.len(),
        !is_white_space(line@[at]),
        !('0' <= line@[at] <= '9'),
        line@[at] != '+',
        call_ensures(answer_install, (&endpoints, line), installed),
        call_ensures(answer_retarget, (&endpoints, line), retargeted),
    ensures
        installed is Aborted,
        retargeted is Aborted,
{
    let kept = lemma_leading_keeps(line@, at);
    lemma_trailing_keeps(without_leading_space(line@), kept);
    let rest = trimmed(line@);
    assert(rest[kept] == line@[at]);
    if is_number(rest) {
        if rest[0] == '+' {
            assert(crate::text::without_sign(rest)[kept - 1] == rest[kept]);
        } else {
            assert(crate::text::without_sign(rest)[kept] == rest[kept]);
        }
    }
}

/// Whatever was typed, only a device of the list can become the target.
pub proof fn law_target_is_a_listed_device(
    endpoints: Vec<EndpointInfo>,
    line: &str,
    installed: Choice,
    retargeted: Choice,
)
    requires
        endpoints@.len() > 0,
        call_ensures(answer_install, (&endpoints, line), installed),
        call_ensures(answer_retarget, (&endpoints, line), retargeted),
    ensures
        installed matches Choice::Target(config) ==> exists|i: int|
            0 <= i < endpoints@.len() && (#[trigger] endpoints@[i]).id@ == config.target_device_id@
                && endpoints@[i].friendly_name@ == config.target_device_name@,
        retargeted matches Choice::Target(config) ==> exists|i: int|
            0 <= i < endpoints@.len() && (#[trigger] endpoints@[i]).id@ == config.target_device_id@
                && endpoints@[i].friendly_name@ == config.target_device_name@,
        !(installed is Ask),
        !(retargeted is Ask),
{
    lemma_default_in_range(endpoints@, 0);
    let at = default_of(endpoints@);
    assert(endpoints@[at].id@ == endpoints@[at].id@);
    if let Some(index) = picked(endpoints@.len(), line@) {
        assert(endpoints@[index].id@ == endpoints@[index].id@);
    }
}

proof fn lemma_default_in_range(endpoints: Seq<EndpointInfo>, from: int)
    requires
        endpoints.len() > 0,
        0 <= from,
    ensures
        0 <= default_from(endpoints, from) < endpoints.len(),
    decreases endpoints.len() - from,
{
    if from < endpoints.len() && !endpoints[from].is_default {
        lemma_default_in_range(endpoints, from + 1);
    }
}

/// The config is stored first. If that fails the installation ends with its
/// error and no autostart entry is written; else the stored name is announced,
/// and the entry is written next if the program manages it.
pub proof fn law_autostart_comes_after_the_config(
    config: Config,
    stored: Result<(), ConfigError>,
    manages: bool,
    next: InstallMove,
    retargeted: InstallMove,
)
    requires
        call_ensures(after_storing, (&config, stored, manages), next),
        call_ensures(after_retargeting, (&config, stored), retargeted),
    ensures
        stored matches Err(error) ==> next == InstallMove::Fail(InstallError::Config(error)) && retargeted
            == InstallMove::Fail(InstallError::Config(error)),
        stored is Ok && manages ==> (next matches InstallMove::WriteAutostart { say } && say@ == "Saved target: "@
            + config.target_device_name@),
        stored is Ok && !manages ==> (next matches InstallMove::Done { say } && say@ == "Saved target: "@
            + config.target_device_name@),
        stored is Ok ==> (retargeted matches InstallMove::Done { say } && say@ == "Retargeted to: "@
            + config.target_device_name@),
{
}

/// The replies of the registry: a failure is never taken for success, but what
/// does not exist counts as removed and as not registered. Without a registry
/// an entry can be neither written nor removed, and none is there.
pub proof fn law_registry_replies(
    reply: Option<Result<(), IoFailure>>,
    value: Option<Result<String, IoFailure>>,
    written: InstallResult<()>,
    next: InstallMove,
    removed: InstallResult<()>,
    command: InstallResult<Option<String>>,
)
    requires
        call_ensures(install_autostart, (reply,), written),
        call_ensures(after_autostart, (reply,), next),
        call_ensures(uninstall_autostart, (reply,), removed),
        call_ensures(autostart_path, (value,), command),
    ensures
        reply is None ==> written == Err::<(), InstallError>(InstallError::RegistryUnsupported) && removed == Err::<
            (),
            InstallError,
        >(InstallError::RegistryUnsupported) && next == InstallMove::Fail(InstallError::RegistryUnsupported),
        reply matches Some(Ok(_)) ==> written is Ok && removed is Ok && (next matches InstallMove::Done { say } && say@
            == "Installed autostart entry; balance-enforcer will run at next logon."@),
        reply matches Some(Err(failure)) ==> written == Err::<(), InstallError>(InstallError::Io(failure)) && next
            == InstallMove::Fail(InstallError::Io(failure)) && (failure.not_found ==> removed is Ok) && (
        !failure.not_found ==> removed == Err::<(), InstallError>(InstallError::Io(failure))),
        value is None ==> command == Ok::<Option<String>, InstallError>(None),
        value matches Some(Ok(text)) ==> command == Ok::<Option<String>, InstallError>(Some(text)),
        value matches Some(Err(failure)) ==> (failure.not_found ==> command == Ok::<Option<String>, InstallError>(None))
            && (!failure.not_found ==> command == Err::<Option<String>, InstallError>(InstallError::Io(failure))),
{
}

/// The entry holds the path between two quotation marks, and nothing else, and
/// stands under the program's name in the user's Run key.
pub proof fn law_autostart_quotes_the_path(exe: &str, command: String)
    requires
        call_ensures(autostart_command, (exe,), command),
    ensures
        command@.len() == exe@.len() + 2,
        command@[0] == '"',
        command@.last() == '"',
        command@.subrange(1, command@.len() - 1) == exe@,
        RUN_VALUE_NAME@ == "BalanceEnforcer"@,
        RUN_KEY_PATH@ == "Software\\Microsoft\\Windows\\CurrentVersion\\Run"@,
{
    reveal_strlit("\"");
    assert(command@.subrange(1, command@.len() - 1) =~= exe@);
}

proof fn lemma_same_name_reflexive(a: Seq<char>)
    ensures
        same_name(a, a),
{
}

/// The package manages the entry of every executable that lies in its
/// directory, at any depth, and of no other: not where there is no local data
/// directory, not of one that is not deeper, and not of one in another
/// directory.
pub proof fn law_package_manages_its_own_entry(
    exe: Vec<String>,
    base: Vec<String>,
    manages: bool,
    without_base: bool,
)
    requires
        call_ensures(manages_autostart, (&exe, Some(&base)), manages),
        call_ensures(manages_autostart, (&exe, None::<&Vec<String>>), without_base),
    ensures
        without_base,
        exe@.len() <= base@.len() + 2 ==> manages,
        exe@.len() > base@.len() + 2 && exe@[base@.len() as int]@ == "Programs"@ && exe@[base@.len() as int + 1]@
            == "BalanceEnforcer"@ && (forall|i: int| 0 <= i < base@.len() ==> (#[trigger] exe@[i])@ == base@[i]@)
            ==> !manages,
        forall|i: int|
            0 <= i < base@.len() && i < exe@.len() && (#[trigger] exe@[i])@.len() != base@[i]@.len() ==> manages,
        exe@.len() > base@.len() && exe@[base@.len() as int]@.len() != "Programs"@.len() ==> manages,
        exe@.len() > base@.len() + 1 && exe@[base@.len() as int + 1]@.len() != "BalanceEnforcer"@.len() ==> manages,
{
    let names = texts(exe@);
    let roots = texts(base@);
    if exe@.len() > base@.len() + 2 {
        assert(names[base@.len() as int] == exe@[base@.len() as int]@);
        assert(names[base@.len() as int + 1] == exe@[base@.len() as int + 1]@);
        lemma_same_name_reflexive("Programs"@);
        lemma_same_name_reflexive("BalanceEnforcer"@);
        if forall|i: int| 0 <= i < base@.len() ==> (#[trigger] exe@[i])@ == base@[i]@ {
            assert forall|i: int| 0 <= i < roots.len() implies same_name(#[trigger] names[i], roots[i]) by {
                assert(exe@[i]@ == base@[i]@);
                lemma_same_name_reflexive(names[i]);
            }
        }
        assert forall|i: int|
            0 <= i < base@.len() && i < exe@.len() && (#[trigger] exe@[i])@.len() != base@[i]@.len() implies manages by {
            assert(names[i] == exe@[i]@ && roots[i] == base@[i]@);
            assert(!same_name(names[i], roots[i]));
        }
    }
}

/// Names differ where a character differs, but for the case of the letters A
/// to Z.
pub proof fn law_names_agree_but_for_case(a: Seq<char>, b: Seq<char>, at: int)
    requires
        0 <= at < a.len(),
        at < b.len(),
    ensures
        same_name(a, a),
        same_name(a, b) == same_name(b, a),
        a.len() != b.len() ==> !same_name(a, b),
        same_name(a, b) ==> a[at] == b[at] || a[at] as int == b[at] as int + 32 && 'A' <= b[at] <= 'Z' || b[at] as int
            == a[at] as int + 32 && 'A' <= a[at] <= 'Z',
{
    lemma_lower(a[at], b[at]);
    if same_name(a, b) {
        assert(lower(a[at]) == lower(b[at]));
        assert forall|i: int| 0 <= i < b.len() implies lower(#[trigger] b[i]) == lower(a[i]) by {
            assert(lower(a[i]) == lower(b[i]));
        }
    }
    if same_name(b, a) {
        assert forall|i: int| 0 <= i < a.len() implies lower(#[trigger] a[i]) == lower(b[i]) by {
            assert(lower(b[i]) == lower(a[i]));
        }
    }
}

proof fn lemma_lower(a: char, b: char)
    ensures
        lower(a) == lower(b) ==> a == b || a as int == b as int + 32 && 'A' <= b <= 'Z' || b as int == a as int + 32
            && 'A' <= a <= 'Z',
{
}

/// The status command shows the name and the ID of the stored target, or that
/// there is none; then the autostart entry; then how many devices there are.
/// It ends at the first error, but that the devices cannot be listed is part
/// of the report.
pub proof fn law_status_shows_what_is_stored(
    config: Result<Config, ConfigError>,
    autostart: InstallResult<Option<String>>,
    visible: AudioResult<usize>,
    report: StatusReport,
)
    requires
        call_ensures(status, (config, autostart, visible), report),
    ensures
        config matches Ok(found) ==> report.lines@.len() >= 2 && report.lines@[0]@ == "config.target_device_name = "@
            + found.target_device_name@ && report.lines@[1]@ == "config.target_device_id   = "@
            + found.target_device_id@,
        config matches Ok(_) && autostart is Ok ==> report.lines@.len() == 4,
        config matches Err(ConfigError::NotFound(_)) && autostart is Ok ==> report.lines@.len() == 3,
        config matches Err(error) ==> (!(error is NotFound) ==> report.lines@.len() == 0 && report.outcome == Err::<
            (),
            InstallError,
        >(InstallError::Config(error))),
        (config is Ok || config->Err_0 is NotFound) && autostart is Err ==> report.outcome == Err::<(), InstallError>(
            autostart->Err_0,
        ),
        (config is Ok || config->Err_0 is NotFound) && autostart is Ok ==> {
            &&& report.outcome is Ok
            &&& autostart->Ok_0 matches Some(command) ==> report.lines@[report.lines@.len() - 2]@
                == "autostart: ENABLED -> "@ + command@
            &&& autostart->Ok_0 is None ==> report.lines@[report.lines@.len() - 2]@ == "autostart: NOT REGISTERED"@
            &&& visible matches Ok(count) ==> report.lines@.last()@ == "audio endpoints visible: "@ + decimal(
                count as nat,
            )
            &&& visible matches Err(error) ==> report.lines@.last()@ == "audio enumeration unavailable: "@
                + error.text()
        },
{
    if config is Ok || config->Err_0 is NotFound {
        let first = choose|first: Seq<Seq<char>>| #[trigger]
            config_shows(config, first) && match autostart {
                Err(error) => texts(report.lines@) == first && report.outcome == Err::<(), InstallError>(error),
                Ok(command) => texts(report.lines@) == first + seq![
                    autostart_line(command),
                    endpoints_line(visible),
                ] && report.outcome == Ok::<(), InstallError>(()),
            };
        let lines = texts(report.lines@);
        assert(lines.len() == report.lines@.len());
        assert forall|i: int| 0 <= i < lines.len() implies #[trigger] report.lines@[i]@ == lines[i] by {}
        if config is Ok {
            assert(first.len() == 2);
            assert(report.lines@[0]@ == lines[0]);
            assert(report.lines@[1]@ == lines[1]);
        } else {
            assert(first.len() == 1);
        }
        if autostart is Ok {
            assert(report.lines@[report.lines@.len() - 2]@ == lines[lines.len() - 2]);
            assert(report.lines@[report.lines@.len() - 1]@ == lines[lines.len() - 1]);
        }
    }
}

/// The three parts of the status report, one by one.
pub proof fn law_status_parts(
    config: Result<Config, ConfigError>,
    said: InstallResult<Vec<String>>,
    autostart: InstallResult<Option<String>>,
    line: InstallResult<String>,
    visible: AudioResult<usize>,
    last: String,
)
    requires
        call_ensures(status_of_config, (config,), said),
        call_ensures(status_of_autostart, (autostart,), line),
        call_ensures(status_of_endpoints, (visible,), last),
    ensures
        config matches Ok(found) ==> (said matches Ok(lines) && lines@.len() == 2 && lines@[0]@
            == "config.target_device_name = "@ + found.target_device_name@ && lines@[1]@
            == "config.target_device_id   = "@ + found.target_device_id@),
        config matches Err(error) ==> (error is NotFound <==> said is Ok),
        config matches Err(error) ==> (!(error is NotFound) ==> said == Err::<Vec<String>, InstallError>(
            InstallError::Config(error),
        )),
        autostart matches Ok(Some(command)) ==> (line matches Ok(shown) && shown@ == "autostart: ENABLED -> "@
            + command@),
        autostart matches Ok(None) ==> (line matches Ok(shown) && shown@ == "autostart: NOT REGISTERED"@),
        autostart matches Err(error) ==> line == Err::<String, InstallError>(error),
        visible matches Ok(count) ==> last@ == "audio endpoints visible: "@ + decimal(count as nat),
        visible matches Err(error) ==> last@ == "audio enumeration unavailable: "@ + error.text(),
{
    if let Ok(lines) = said {
        let shown = texts(lines@);
        assert(shown.len() == lines@.len());
        if config is Ok {
            assert(shown[0] == lines@[0]@ && shown[1] == lines@[1]@);
        }
    }
}

/// The errors of an installation that have words of their own.
pub proof fn law_install_errors_speak(error: InstallError, message: String)
    requires
        call_ensures(InstallError::message, (&error,), message),
    ensures
        match error {
            InstallError::NoEndpoints => message@ == "no audio endpoints found"@,
            InstallError::RegistryUnsupported => message@ == "registry operation not supported on this platform"@,
            InstallError::Io(failure) => message@ == failure.message@,
            InstallError::Audio(reason) => message@ == reason.text(),
            InstallError::Config(reason) => reason.reads(message@),
        },
{
}

/// Two names that differ in nothing but the case of the letters A to Z mean
/// the same.
pub proof fn law_case_does_not_matter(a: Seq<char>, b: Seq<char>)
    requires
        a.len() == b.len(),
        forall|i: int|
            0 <= i < a.len() ==> (#[trigger] a[i] == b[i] || a[i] as int == b[i] as int + 32 && 'A' <= b[i] <= 'Z'
                || b[i] as int == a[i] as int + 32 && 'A' <= a[i] <= 'Z'),
    ensures
        same_name(a, b),
{
    assert forall|i: int| 0 <= i < a.len() implies lower(#[trigger] a[i]) == lower(b[i]) by {
        lemma_lower_pairs(a[i], b[i]);
    }
}

proof fn lemma_lower_pairs(a: char, b: char)
    requires
        a == b || a as int == b as int + 32 && 'A' <= b <= 'Z' || b as int == a as int + 32 && 'A' <= a <= 'Z',
    ensures
        lower(a) == lower(b),
{
}

/// The entry is left to the package exactly for an executable that lies
/// somewhere inside `Programs` and `BalanceEnforcer` under the local data
/// directory, where names are compared as file names are.
pub proof fn law_entry_is_left_to_the_package(exe: Vec<String>, base: Vec<String>, manages: bool)
    requires
        call_ensures(manages_autostart, (&exe, Some(&base)), manages),
    ensures
        !manages <==> exe@.len() > base@.len() + 2 && (forall|i: int|
            0 <= i < base@.len() ==> same_name((#[trigger] exe@[i])@, base@[i]@)) && same_name(
            exe@[base@.len() as int]@,
            "Programs"@,
        ) && same_name(exe@[base@.len() as int + 1]@, "BalanceEnforcer"@),
{
    let names = texts(exe@);
    let roots = texts(base@);
    assert(names.len() == exe@.len() && roots.len() == base@.len());
    if exe@.len() > base@.len() + 2 {
        assert(names[base@.len() as int] == exe@[base@.len() as int]@);
        assert(names[base@.len() as int + 1] == exe@[base@.len() as int + 1]@);
        if !manages {
            assert forall|i: int| 0 <= i < base@.len() implies same_name((#[trigger] exe@[i])@, base@[i]@) by {
                assert(same_name(names[i], roots[i]));
            }
        }
        if forall|i: int| 0 <= i < base@.len() ==> same_name((#[trigger] exe@[i])@, base@[i]@) {
            assert forall|i: int| 0 <= i < roots.len() implies same_name(#[trigger] names[i], roots[i]) by {
                assert(same_name(exe@[i]@, base@[i]@));
            }
        }
    }
}

/// A config file that is missing is reported with its path, and the report
/// goes on.
pub proof fn law_missing_config_is_reported(path: PathBuf, said: InstallResult<Vec<String>>)
    requires
        call_ensures(
            status_of_config,
            (Err::<Config, ConfigError>(ConfigError::NotFound(path)),),
            said,
        ),
    ensures
        said matches Ok(lines) && lines@.len() == 1 && exists|words: String| #[trigger]
            path_shows_as(&path, words) && lines@[0]@ == "config: NOT FOUND at "@ + words@,
{
    let lines = said->Ok_0;
    let shown = texts(lines@);
    assert(shown.len() == lines@.len());
    assert(shown.len() == 1);
    assert(shown[0] == lines@[0]@);
}

/// A stored target is announced by its name.
pub proof fn law_target_is_announced_by_name(config: Config, saved: String, retargeted: String)
    requires
        call_ensures(saved_message, (&config,), saved),
        call_ensures(retargeted_message, (&config,), retargeted),
    ensures
        saved@ == "Saved target: "@ + config.target_device_name@,
        retargeted@ == "Retargeted to: "@ + config.target_device_name@,
{
}

/// An answer is the number that it reads as: with white space taken off both
/// ends, a text that reads as the number of a device takes that device, and
/// any other text picks nothing.
pub proof fn law_answer_is_the_number_it_reads_as(
    endpoints: Vec<EndpointInfo>,
    before: Seq<char>,
    typed: &str,
    after: Seq<char>,
    line: &str,
    read: Option<usize>,
    installed: Choice,
    retargeted: Choice,
)
    requires
        endpoints@.len() > 0,
        typed@.len() > 0,
        !is_white_space(typed@[0]),
        !is_white_space(typed@.last()),
        forall|i: int| 0 <= i < before.len() ==> is_white_space(#[trigger] before[i]),
        forall|i: int| 0 <= i < after.len() ==> is_white_space(#[trigger] after[i]),
        line@ == before + typed@ + after,
        call_ensures(parse_number, (typed,), read),
        call_ensures(answer_install, (&endpoints, line), installed),
        call_ensures(answer_retarget, (&endpoints, line), retargeted),
    ensures
        read matches Some(index) ==> (index < endpoints@.len() ==> {
            &&& installed matches Choice::Target(config) && config.target_device_id@ == endpoints@[index as int].id@
                && config.target_device_name@ == endpoints@[index as int].friendly_name@
            &&& retargeted matches Choice::Target(config) && config.target_device_id@ == endpoints@[index as int].id@
                && config.target_device_name@ == endpoints@[index as int].friendly_name@
        }),
        read is None || read->0 >= endpoints@.len() ==> installed is Aborted && retargeted is Aborted,
{
    lemma_trim_takes_spaces(before, typed@, after);
    assert(endpoints@.len() == endpoints.len());
    assert(endpoints@.len() <= usize::MAX);
}

/// The report of a missing config file and of an autostart entry that cannot
/// be read.
pub proof fn law_status_without_config(
    path: PathBuf,
    config: Config,
    command: Option<String>,
    error: InstallError,
    visible: AudioResult<usize>,
    missing: StatusReport,
    broken: StatusReport,
)
    requires
        call_ensures(
            status,
            (Err::<Config, ConfigError>(ConfigError::NotFound(path)), Ok::<Option<String>, InstallError>(command), visible),
            missing,
        ),
        call_ensures(
            status,
            (Ok::<Config, ConfigError>(config), Err::<Option<String>, InstallError>(error), visible),
            broken,
        ),
    ensures
        missing.lines@.len() == 3,
        missing.outcome is Ok,
        exists|words: String| #[trigger]
            path_shows_as(&path, words) && missing.lines@[0]@ == "config: NOT FOUND at "@ + words@,
        broken.lines@.len() == 2,
        broken.outcome == Err::<(), InstallError>(error),
{
    let lines = texts(missing.lines@);
    assert(lines.len() == missing.lines@.len());
    let first = choose|first: Seq<Seq<char>>| #[trigger]
        config_shows(Err::<Config, ConfigError>(ConfigError::NotFound(path)), first) && lines == first + seq![
            autostart_line(command),
            endpoints_line(visible),
        ];
    assert(first.len() == 1);
    assert(lines[0] == missing.lines@[0]@);
    assert(texts(broken.lines@).len() == broken.lines@.len());
}

} // verus!
