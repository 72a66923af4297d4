//! The config file: its text, its place and its errors.

use std::path::PathBuf;

use balance_enforcer::config::{
    app_dir, app_dir_under, config_path, config_path_under, log_dir, log_dir_under, performed, Config,
    ConfigError, ConfigFile, ParseError,
};
use balance_enforcer::document::writable;
use balance_enforcer::failure::IoFailure;

fn config(id: &str, name: &str) -> Config {
    Config { target_device_id: id.into(), target_device_name: name.into() }
}

fn path() -> PathBuf {
    PathBuf::from("somewhere/config.toml")
}

fn names(names: &[String]) -> Vec<&str> {
    names.iter().map(|name| name.as_str()).collect()
}

#[test]
fn config_is_written_as_toml() {
    let write = config("{0.0.0}.{abc}", "Speakers").save_to(path()).unwrap();
    assert_eq!(write.text, "target_device_id = \"{0.0.0}.{abc}\"\ntarget_device_name = \"Speakers\"\n");
    assert_eq!(write.path, path());
}

#[test]
fn awkward_text_survives_the_config_file() {
    let awkward = [
        "",
        " ",
        "'",
        "\"",
        "''",
        "\"\"",
        "'''",
        "\"\"\"",
        "'\"",
        "'''\"\"\"",
        "\\",
        "\\\\",
        "a\\",
        "back\\slash 'and' \"quotes\"",
        "\\'",
        "'\\",
        "\n",
        "\n\n",
        "a\nb",
        "\na",
        "a\n",
        "a\n\"\"",
        "a\n''",
        "a\n'''\"\"\"",
        "a\\\n  b",
        "\r",
        "\r\n",
        "a\r\nb",
        "\t",
        "tab\there",
        "\u{0}",
        "\u{7f}",
        "\u{8}\u{c}\u{1b}",
        "\u{85}\u{a0}\u{feff}",
        "Lautsprecher (Gerät)",
        "\u{10ffff}\u{1f50a}",
        "# not a comment",
        "[table]",
        "a = 1",
    ];
    for id in awkward {
        for name in awkward {
            let stored = config(id, name);
            assert!(stored.storable());
            let text = stored.save_to(path()).unwrap().text;
            let loaded = Config::load_from(path(), Ok(text)).expect("load failed");
            assert_eq!(loaded, stored);
        }
    }
}

#[test]
fn long_runs_of_quotes_are_not_storable() {
    assert!(writable(&"'".repeat(255)));
    assert!(writable(&"\"".repeat(255)));
    assert!(!writable(&"'".repeat(256)));
    assert!(!writable(&format!("ab{}cd", "\"".repeat(256))));
    assert!(!writable(&format!("'x{}", "'".repeat(300))));
    assert!(writable(&"'\"".repeat(300)));
    assert!(!config("id", &"'".repeat(256)).storable());

    let stored = config(&"'".repeat(255), &"\"".repeat(255));
    let text = stored.save_to(path()).unwrap().text;
    assert_eq!(Config::parse(&text).unwrap(), stored);
}

#[test]
fn other_entries_are_passed_over() {
    let text = "other = 1\ntarget_device_name = 'N'\n[more]\nx = 2\n";
    assert!(matches!(Config::parse(text), Err(ConfigError::Parse(ParseError::MissingField(_)))));
    let text = "other = 1\ntarget_device_name = 'N'\ntarget_device_id = 'I'\n[more]\nx = 2\n";
    assert_eq!(Config::parse(text).unwrap(), config("I", "N"));
}

#[test]
fn bad_documents_are_parse_errors() {
    match Config::parse("target_device_id = ") {
        Err(ConfigError::Parse(ParseError::Syntax(_))) => {}
        other => panic!("{other:?}"),
    }
    match Config::parse("target_device_name = 'N'") {
        Err(ConfigError::Parse(ParseError::MissingField(field))) => assert_eq!(field, "target_device_id"),
        other => panic!("{other:?}"),
    }
    match Config::parse("target_device_id = 'I'") {
        Err(ConfigError::Parse(ParseError::MissingField(field))) => assert_eq!(field, "target_device_name"),
        other => panic!("{other:?}"),
    }
    match Config::parse("target_device_id = 5\ntarget_device_name = 'N'") {
        Err(ConfigError::Parse(ParseError::NotText(field))) => assert_eq!(field, "target_device_id"),
        other => panic!("{other:?}"),
    }
    match Config::parse("target_device_name = ['N']") {
        Err(ConfigError::Parse(ParseError::NotText(field))) => assert_eq!(field, "target_device_name"),
        other => panic!("{other:?}"),
    }
}

#[test]
fn a_missing_file_is_not_found() {
    let missing = IoFailure { not_found: true, message: "no such file".into() };
    match Config::load_from(path(), Err(missing)) {
        Err(ConfigError::NotFound(at)) => assert_eq!(at, path()),
        other => panic!("{other:?}"),
    }
    let denied = IoFailure { not_found: false, message: "access denied".into() };
    match Config::load_from(path(), Err(denied)) {
        Err(ConfigError::Io(failure)) => assert_eq!(failure.message, "access denied"),
        other => panic!("{other:?}"),
    }
}

#[test]
fn load_and_save_pass_on_a_missing_directory() {
    assert!(matches!(Config::load(Err(ConfigError::NoDataDir)), Err(ConfigError::NoDataDir)));
    let stored = config("I", "N");
    assert!(matches!(stored.save(Err(ConfigError::NoDataDir)), Err(ConfigError::NoDataDir)));
    let write = stored.save(Ok(path())).unwrap();
    let file = ConfigFile { path: path(), contents: Ok(write.text) };
    assert_eq!(Config::load(Ok(file)).unwrap(), stored);
}

#[test]
fn places_lie_under_the_config_directory() {
    let base = PathBuf::from("base");
    let place = app_dir_under(Some(base.clone())).unwrap();
    assert_eq!((&place.base, names(&place.names)), (&base, vec!["balance-enforcer"]));
    let place = config_path_under(Some(base.clone())).unwrap();
    assert_eq!((&place.base, names(&place.names)), (&base, vec!["balance-enforcer", "config.toml"]));
    let place = log_dir_under(Some(base.clone())).unwrap();
    assert_eq!((&place.base, names(&place.names)), (&base, vec!["balance-enforcer", "logs"]));
    assert!(matches!(app_dir_under(None), Err(ConfigError::NoDataDir)));
    assert!(matches!(config_path_under(None), Err(ConfigError::NoDataDir)));
    assert!(matches!(log_dir_under(None), Err(ConfigError::NoDataDir)));
}

#[test]
fn places_follow_the_platform() {
    match dirs::config_dir() {
        Some(base) => {
            assert_eq!(app_dir().unwrap().base, base);
            assert_eq!(names(&config_path().unwrap().names), vec!["balance-enforcer", "config.toml"]);
            assert_eq!(log_dir().unwrap().base, base);
        }
        None => {
            assert!(matches!(app_dir(), Err(ConfigError::NoDataDir)));
            assert!(matches!(config_path(), Err(ConfigError::NoDataDir)));
            assert!(matches!(log_dir(), Err(ConfigError::NoDataDir)));
        }
    }
}

#[test]
fn config_errors_speak() {
    assert_eq!(ConfigError::NoDataDir.message(), "unable to determine application data directory");
    assert_eq!(
        ConfigError::NotFound(PathBuf::from("a/b.toml")).message(),
        "config file not found at \"a/b.toml\"; run `--install` first"
    );
    let failure = IoFailure { not_found: false, message: "access denied".into() };
    assert_eq!(ConfigError::Io(failure).message(), "access denied");
    assert_eq!(
        ConfigError::Parse(ParseError::MissingField("x".into())).message(),
        "failed to parse config: missing field `x`"
    );
    assert_eq!(
        ConfigError::Parse(ParseError::NotText("x".into())).message(),
        "failed to parse config: invalid type: `x` is not a string"
    );
    let error = Config::parse("=").unwrap_err();
    let message = error.message();
    assert!(message.starts_with("failed to parse config: TOML parse error"), "{message}");
    let error = toml::to_string_pretty(&1u8).unwrap_err();
    let words = error.to_string();
    assert_eq!(ConfigError::Serialize(error).message(), format!("failed to serialize config: {words}"));
}

#[test]
fn a_syntax_error_is_that_of_its_text() {
    let text = "target_device_id = \"a\"\n=";
    let ours = match Config::parse(text) {
        Err(ConfigError::Parse(error)) => error.message(),
        other => panic!("{other:?}"),
    };
    assert_eq!(ours, toml::from_str::<toml::Table>(text).unwrap_err().to_string());
    assert_ne!(ours, toml::from_str::<toml::Table>("=").unwrap_err().to_string());
}

#[test]
fn a_failed_file_operation_is_its_failure() {
    assert!(performed(Ok(())).is_ok());
    let failure = IoFailure { not_found: true, message: "no such disk".into() };
    match performed(Err(failure)) {
        Err(ConfigError::Io(failure)) => assert!(failure.not_found && failure.message == "no such disk"),
        other => panic!("{other:?}"),
    }
}
