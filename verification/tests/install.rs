//! Picking the target device, the autostart entry, the status report, the
//! command line and the panic report.

use std::path::PathBuf;

use balance_enforcer::audio::AudioError;
use balance_enforcer::cli::{
    command, failure, first_daemon_stage, run_daemon, Command, DaemonMove, Failure, Flags, Stage,
};
use balance_enforcer::config::{Config, ConfigError};
use balance_enforcer::failure::IoFailure;
use balance_enforcer::install::{
    after_autostart, after_retargeting, after_storing, answer_install, answer_retarget, autostart_command,
    autostart_path, default_index, install_autostart, install_interactive, manages_autostart, retarget,
    retargeted_message, saved_message, status, status_of_autostart, status_of_config, status_of_endpoints,
    uninstall_autostart, Choice, InstallError, InstallMove,
};
use balance_enforcer::logging::{panic_report, PanicPlace};
use balance_enforcer::text::{parse_number, show_decimal};
use balance_enforcer::windows_impl::EndpointInfo;

fn endpoint(id: &str, name: &str, is_default: bool) -> EndpointInfo {
    EndpointInfo { id: id.into(), friendly_name: name.into(), is_default }
}

fn three() -> Vec<EndpointInfo> {
    vec![endpoint("a", "Monitor", false), endpoint("b", "Speakers", true), endpoint("c", "Headphones", false)]
}

fn chosen(choice: Choice) -> Option<String> {
    match choice {
        Choice::Target(config) => Some(config.target_device_id),
        Choice::Aborted => None,
        Choice::Ask { .. } => panic!("asked"),
    }
}

fn missing() -> IoFailure {
    IoFailure { not_found: true, message: "not there".into() }
}

fn denied() -> IoFailure {
    IoFailure { not_found: false, message: "access denied".into() }
}

fn words(list: &[&str]) -> Vec<String> {
    list.iter().map(|word| (*word).into()).collect()
}

#[test]
fn the_offered_device_is_the_first_default_or_the_first() {
    assert_eq!(default_index(&three()), 1);
    assert_eq!(default_index(&vec![endpoint("a", "A", false), endpoint("b", "B", false)]), 0);
    assert_eq!(default_index(&vec![endpoint("a", "A", true), endpoint("b", "B", true)]), 0);
    assert_eq!(default_index(&vec![]), 0);
}

#[test]
fn auto_takes_the_offered_device() {
    let choice = install_interactive(Ok(three()), true).unwrap();
    match choice {
        Choice::Target(config) => {
            assert_eq!(
                config,
                Config { target_device_id: "b".into(), target_device_name: "Speakers".into() }
            );
        }
        other => panic!("{other:?}"),
    }
    assert_eq!(chosen(retarget(Ok(three()), true).unwrap()), Some("b".into()));
}

#[test]
fn the_menu_lists_every_device() {
    let expected =
        vec!["Available audio output devices:", "  [0] Monitor", "  [1] Speakers [default]", "  [2] Headphones"];
    match install_interactive(Ok(three()), false).unwrap() {
        Choice::Ask { endpoints, menu, prompt } => {
            assert_eq!(endpoints.len(), 3);
            assert_eq!(menu, expected);
            assert_eq!(prompt, "Which device has the broken speaker? [1]: ");
        }
        other => panic!("{other:?}"),
    }
    match retarget(Ok(three()), false).unwrap() {
        Choice::Ask { menu, prompt, .. } => {
            assert_eq!(menu, expected);
            assert_eq!(prompt, "Pick the target device: ");
        }
        other => panic!("{other:?}"),
    }
}

#[test]
fn no_devices_or_no_list_is_an_error() {
    assert!(matches!(install_interactive(Ok(vec![]), true), Err(InstallError::NoEndpoints)));
    assert!(matches!(install_interactive(Ok(vec![]), false), Err(InstallError::NoEndpoints)));
    assert!(matches!(retarget(Ok(vec![]), false), Err(InstallError::NoEndpoints)));
    assert!(matches!(
        install_interactive(Err(AudioError::Unsupported), true),
        Err(InstallError::Audio(AudioError::Unsupported))
    ));
    assert!(matches!(
        retarget(Err(AudioError::Unsupported), false),
        Err(InstallError::Audio(AudioError::Unsupported))
    ));
}

#[test]
fn a_line_picks_a_device() {
    let devices = three();
    assert_eq!(chosen(answer_install(&devices, "2\n")), Some("c".into()));
    assert_eq!(chosen(answer_install(&devices, " +0 \r\n")), Some("a".into()));
    assert_eq!(chosen(answer_install(&devices, "\u{2003}002\u{3000}")), Some("c".into()));
    assert_eq!(chosen(answer_install(&devices, "\n")), Some("b".into()));
    assert_eq!(chosen(answer_install(&devices, "")), Some("b".into()));
    assert_eq!(chosen(answer_install(&devices, "3")), None);
    assert_eq!(chosen(answer_install(&devices, "-1")), None);
    assert_eq!(chosen(answer_install(&devices, "one")), None);
    assert_eq!(chosen(answer_install(&devices, "+")), None);
    assert_eq!(chosen(answer_install(&devices, "1 2")), None);
    assert_eq!(chosen(answer_install(&devices, "18446744073709551616")), None);

    assert_eq!(chosen(answer_retarget(&devices, "0\n")), Some("a".into()));
    assert_eq!(chosen(answer_retarget(&devices, "\n")), None);
    assert_eq!(chosen(answer_retarget(&devices, "9")), None);
}

#[test]
fn every_shown_number_picks_its_device() {
    let devices: Vec<EndpointInfo> = (0..120).map(|i| endpoint(&format!("id{i}"), "D", false)).collect();
    for i in 0..120u64 {
        let line = format!("{}\n", show_decimal(i));
        assert_eq!(chosen(answer_retarget(&devices, &line)), Some(format!("id{i}")));
    }
}

#[test]
fn numbers_read_and_show_as_the_standard_library_does() {
    for n in [0, 9, 10, 99, 100, 12345, u64::MAX] {
        assert_eq!(show_decimal(n), n.to_string());
    }
    for text in [
        "", "+", "-", "0", "007", "+5", "++5", "-5", "5 ", "5a", "\u{0665}", "4294967296", "18446744073709551615",
        "18446744073709551616", "99999999999999999999", "1_000",
    ] {
        assert_eq!(parse_number(text), text.parse::<usize>().ok(), "{text}");
    }
}

#[test]
fn white_space_is_what_the_standard_library_trims() {
    let devices = three();
    for code in 0..0x11_0000u32 {
        if let Some(c) = char::from_u32(code) {
            let listed = matches!(
                code,
                9..=13 | 32 | 0x85 | 0xa0 | 0x1680 | 0x2000..=0x200a | 0x2028 | 0x2029 | 0x202f | 0x205f | 0x3000
            );
            assert_eq!(c.is_whitespace(), listed, "{code:#x}");
            if listed {
                assert_eq!(chosen(answer_retarget(&devices, &format!("{c}1{c}"))), Some("b".into()));
            }
        }
    }
}

#[test]
fn stored_targets_are_announced() {
    let config = Config { target_device_id: "b".into(), target_device_name: "Speakers".into() };
    assert_eq!(saved_message(&config), "Saved target: Speakers");
    assert_eq!(retargeted_message(&config), "Retargeted to: Speakers");
}

#[test]
fn the_installer_package_looks_after_its_own_entry() {
    let base = words(&["C:", "\\", "Users", "u", "AppData", "Local"]);
    let at = |tail: &[&str]| {
        let mut all = base.clone();
        all.extend(words(tail));
        all
    };
    let packaged = at(&["Programs", "BalanceEnforcer", "balance-enforcer.exe"]);
    assert!(!manages_autostart(&packaged, Some(&base)));
    assert!(!manages_autostart(&at(&["programs", "BALANCEENFORCER", "bin", "x.exe"]), Some(&base)));
    assert!(manages_autostart(&packaged, None));
    let portable = at(&["Programs", "BalanceEnforcer-portable", "balance-enforcer.exe"]);
    assert!(manages_autostart(&portable, Some(&base)));
    assert!(manages_autostart(&at(&["Programs", "BalanceEnforcer"]), Some(&base)));
    assert!(manages_autostart(&words(&["D:", "\\", "balance-enforcer.exe"]), Some(&base)));
    let mut elsewhere = packaged.clone();
    elsewhere[3] = "v".into();
    assert!(manages_autostart(&elsewhere, Some(&base)));
}

#[test]
fn the_autostart_entry_quotes_the_path() {
    assert_eq!(autostart_command("C:\\a b\\x.exe"), "\"C:\\a b\\x.exe\"");
}

#[test]
fn registry_replies_become_outcomes() {
    assert!(matches!(install_autostart(None), Err(InstallError::RegistryUnsupported)));
    assert!(install_autostart(Some(Ok(()))).is_ok());
    assert!(matches!(install_autostart(Some(Err(missing()))), Err(InstallError::Io(_))));

    assert!(matches!(uninstall_autostart(None), Err(InstallError::RegistryUnsupported)));
    assert!(uninstall_autostart(Some(Ok(()))).is_ok());
    assert!(uninstall_autostart(Some(Err(missing()))).is_ok());
    assert!(matches!(uninstall_autostart(Some(Err(denied()))), Err(InstallError::Io(_))));

    assert!(matches!(autostart_path(None), Ok(None)));
    assert_eq!(autostart_path(Some(Ok("x".into()))).unwrap(), Some("x".into()));
    assert!(matches!(autostart_path(Some(Err(missing()))), Ok(None)));
    assert!(matches!(autostart_path(Some(Err(denied()))), Err(InstallError::Io(_))));
}

#[test]
fn status_reports_everything() {
    let config = Config { target_device_id: "{id}".into(), target_device_name: "Speakers".into() };
    let report = status(Ok(config), Ok(Some("\"x.exe\"".into())), Ok(12));
    assert_eq!(
        report.lines,
        vec![
            "config.target_device_name = Speakers",
            "config.target_device_id   = {id}",
            "autostart: ENABLED -> \"x.exe\"",
            "audio endpoints visible: 12"
        ]
    );
    assert!(report.outcome.is_ok());
}

#[test]
fn status_without_config_and_devices() {
    let report =
        status(Err(ConfigError::NotFound(PathBuf::from("a/config.toml"))), Ok(None), Err(AudioError::Unsupported));
    assert_eq!(
        report.lines,
        vec![
            "config: NOT FOUND at a/config.toml",
            "autostart: NOT REGISTERED",
            "audio enumeration unavailable: audio backend is not supported on this platform"
        ]
    );
    assert!(report.outcome.is_ok());
}

#[test]
fn status_ends_at_the_first_error() {
    let report = status(Err(ConfigError::NoDataDir), Ok(None), Ok(1));
    assert!(report.lines.is_empty());
    assert!(matches!(report.outcome, Err(InstallError::Config(ConfigError::NoDataDir))));

    let config = Config { target_device_id: "i".into(), target_device_name: "n".into() };
    let report = status(Ok(config), Err(InstallError::Io(denied())), Ok(1));
    assert_eq!(report.lines.len(), 2);
    assert!(matches!(report.outcome, Err(InstallError::Io(_))));
}

#[test]
fn install_errors_speak() {
    assert_eq!(InstallError::NoEndpoints.message(), "no audio endpoints found");
    assert_eq!(
        InstallError::RegistryUnsupported.message(),
        "registry operation not supported on this platform"
    );
    assert_eq!(InstallError::Io(denied()).message(), "access denied");
    assert_eq!(
        InstallError::Audio(AudioError::DeviceDisappeared).message(),
        "target device is not present"
    );
    assert_eq!(
        InstallError::Config(ConfigError::NoDataDir).message(),
        "unable to determine application data directory"
    );
}

#[test]
fn flags_select_one_command() {
    let none = Flags { install: false, auto: false, uninstall: false, retarget: false, status: false };
    assert_eq!(command(none), Command::Daemon);
    assert_eq!(command(Flags { auto: true, ..none }), Command::Daemon);
    assert_eq!(command(Flags { install: true, auto: true, ..none }), Command::Install { auto: true });
    assert_eq!(command(Flags { uninstall: true, ..none }), Command::Uninstall);
    assert_eq!(command(Flags { retarget: true, ..none }), Command::Retarget { auto: false });
    assert_eq!(command(Flags { status: true, ..none }), Command::Status);
    assert_eq!(command(Flags { install: true, status: true, ..none }), Command::Install { auto: false });
}

#[test]
fn failures_print_and_exit() {
    for (stage, line, code) in [
        (Stage::ResolveExecutable, "failed to resolve current executable: e", 2),
        (Stage::Install, "install failed: e", 1),
        (Stage::Uninstall, "uninstall failed: e", 1),
        (Stage::Retarget, "retarget failed: e", 1),
        (Stage::Status, "status failed: e", 1),
        (Stage::ResolveLogDirectory, "failed to resolve log directory: e", 2),
        (Stage::InitLogging, "failed to init logging: e", 2),
    ] {
        match failure(stage, "e") {
            Failure::Printed { line: shown, code: exit } => assert_eq!((shown.as_str(), exit), (line, code)),
            other => panic!("{other:?}"),
        }
    }
    for (stage, message, code) in [
        (Stage::LoadConfig, "no config loaded; install has not been run", 2),
        (Stage::BindEndpoint, "failed to bind audio endpoint", 3),
        (Stage::Enforce, "enforcer exited with error", 4),
    ] {
        match failure(stage, "e") {
            Failure::Logged { message: shown, code: exit } => assert_eq!((shown.as_str(), exit), (message, code)),
            other => panic!("{other:?}"),
        }
    }
}

#[test]
fn the_daemon_goes_through_its_stages() {
    let mut stage = first_daemon_stage();
    let mut stages = vec![stage];
    loop {
        match run_daemon(stage, Ok(())) {
            DaemonMove::Go(next) => {
                stages.push(next);
                stage = next;
            }
            DaemonMove::Done => break,
            DaemonMove::Fail(end) => panic!("{end:?}"),
        }
    }
    assert_eq!(
        stages,
        vec![
            Stage::ResolveLogDirectory,
            Stage::InitLogging,
            Stage::LoadConfig,
            Stage::BindEndpoint,
            Stage::Enforce
        ]
    );
    match run_daemon(Stage::BindEndpoint, Err("gone".into())) {
        DaemonMove::Fail(Failure::Logged { code, .. }) => assert_eq!(code, 3),
        other => panic!("{other:?}"),
    }
}

#[test]
fn panics_are_described() {
    let place = PanicPlace { file: "src/x.rs".into(), line: 12, column: 5 };
    let report = panic_report(Some(place), Some("boom".into()), None);
    assert_eq!((report.location.as_str(), report.payload.as_str()), ("src/x.rs:12:5", "boom"));
    let report = panic_report(None, None, Some("owned".into()));
    assert_eq!((report.location.as_str(), report.payload.as_str()), ("<unknown>", "owned"));
    let report = panic_report(None, None, None);
    assert_eq!(report.payload, "<non-string payload>");
}

#[test]
fn the_config_is_stored_before_the_autostart_entry() {
    let config = Config { target_device_id: "b".into(), target_device_name: "Speakers".into() };
    let next = after_storing(&config, Ok(()), true);
    assert!(matches!(next, InstallMove::WriteAutostart { say } if say == "Saved target: Speakers"));
    let next = after_storing(&config, Ok(()), false);
    assert!(matches!(next, InstallMove::Done { say } if say == "Saved target: Speakers"));
    let next = after_storing(&config, Err(ConfigError::Io(denied())), true);
    assert!(matches!(next, InstallMove::Fail(InstallError::Config(ConfigError::Io(_)))));

    let next = after_autostart(Some(Ok(())));
    let installed = "Installed autostart entry; balance-enforcer will run at next logon.";
    assert!(matches!(next, InstallMove::Done { say } if say == installed));
    assert!(matches!(after_autostart(Some(Err(denied()))), InstallMove::Fail(InstallError::Io(_))));
    assert!(matches!(after_autostart(None), InstallMove::Fail(InstallError::RegistryUnsupported)));

    let next = after_retargeting(&config, Ok(()));
    assert!(matches!(next, InstallMove::Done { say } if say == "Retargeted to: Speakers"));
    let next = after_retargeting(&config, Err(ConfigError::NoDataDir));
    assert!(matches!(next, InstallMove::Fail(InstallError::Config(ConfigError::NoDataDir))));
}

#[test]
fn the_status_report_comes_in_three_parts() {
    let config = Config { target_device_id: "b".into(), target_device_name: "Speakers".into() };
    assert_eq!(
        status_of_config(Ok(config)).unwrap(),
        words(&["config.target_device_name = Speakers", "config.target_device_id   = b"])
    );
    let path = PathBuf::from("some").join("config.toml");
    let line = format!("config: NOT FOUND at {}", path.display());
    assert_eq!(status_of_config(Err(ConfigError::NotFound(path))).unwrap(), vec![line]);
    assert!(matches!(status_of_config(Err(ConfigError::NoDataDir)), Err(InstallError::Config(_))));
    assert_eq!(status_of_autostart(Ok(Some("\"x\"".into()))).unwrap(), "autostart: ENABLED -> \"x\"");
    assert_eq!(status_of_autostart(Ok(None)).unwrap(), "autostart: NOT REGISTERED");
    assert!(matches!(status_of_autostart(Err(InstallError::Io(denied()))), Err(InstallError::Io(_))));
    assert_eq!(status_of_endpoints(Ok(3)), "audio endpoints visible: 3");
    assert_eq!(
        status_of_endpoints(Err(AudioError::Unsupported)),
        "audio enumeration unavailable: audio backend is not supported on this platform"
    );
}
