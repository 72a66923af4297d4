//! The config file: remembers which audio endpoint to pin to, and where.

use crate::document::{
    can_fail_with, document_entries, document_text, get_text, insert_text, is_bare_key, is_writable, law_ordinary_text_is_writable, new_table,
    read_error_reads, read_error_words, read_table, writable, write_document, write_error_reads, write_error_words,
};
use crate::failure::IoFailure;
use std::path::PathBuf;
use vstd::prelude::*;
use vstd::string::*;

verus! {

/// `std::path::PathBuf`, carried through as it is.
#[verifier::external_type_specification]
#[verifier::external_body]
pub struct ExPathBuf(std::path::PathBuf);

/// Why a document is not a config.
#[derive(Debug)]
pub enum ParseError {
    /// The text is not a TOML document.
    Syntax(toml::de::Error),
    /// This entry is not a string.
    NotText(String),
    /// This entry is missing.
    MissingField(String),
}

#[derive(Debug)]
pub enum ConfigError {
    NoDataDir,
    NotFound(PathBuf),
    Io(IoFailure),
    Parse(ParseError),
    Serialize(toml::ser::Error),
}

/// Calls `format!` with the `Debug` form of `std::path::PathBuf`. Nothing is
/// assumed of the words.
#[verifier::external_body]
fn quoted_path(path: &PathBuf) -> String {
    format!("{:?}", path)
}

/// `words` is how the path can be shown in quotation marks.
pub closed spec fn path_quotes_as(path: &PathBuf, words: String) -> bool {
    call_ensures(quoted_path, (path,), words)
}

impl ParseError {
    /// `text` is how the error can be put into words.
    pub open spec fn reads(&self, text: Seq<char>) -> bool {
        match self {
            ParseError::Syntax(error) => exists|words: String| #[trigger]
                read_error_reads(error, words) && text == words@,
            ParseError::NotText(field) => text == "invalid type: `"@ + field@ + "` is not a string"@,
            ParseError::MissingField(field) => text == "missing field `"@ + field@ + "`"@,
        }
    }

    pub fn message(&self) -> (message: String)
        ensures
            self.reads(message@),
    {
        match self {
            ParseError::Syntax(error) => read_error_words(error),
            ParseError::NotText(field) => "invalid type: `".to_owned().concat(field.as_str()).concat(
                "` is not a string",
            ),
            ParseError::MissingField(field) => "missing field `".to_owned().concat(field.as_str()).concat("`"),
        }
    }
}

impl ConfigError {
    /// `text` is how the error can be put into words.
    pub open spec fn reads(&self, text: Seq<char>) -> bool {
        match self {
            ConfigError::NoDataDir => text == "unable to determine application data directory"@,
            ConfigError::NotFound(path) => exists|words: String| #[trigger]
                path_quotes_as(path, words) && text == "config file not found at "@ + words@
                    + "; run `--install` first"@,
            ConfigError::Io(failure) => text == failure.message@,
            ConfigError::Parse(error) => exists|words: Seq<char>| #[trigger]
                error.reads(words) && text == "failed to parse config: "@ + words,
            ConfigError::Serialize(error) => exists|words: String| #[trigger]
                write_error_reads(error, words) && text == "failed to serialize config: "@ + words@,
        }
    }

    pub fn message(&self) -> (message: String)
        ensures
            self.reads(message@),
    {
        match self {
            ConfigError::NoDataDir => "unable to determine application data directory".to_owned(),
            ConfigError::NotFound(path) => {
                let words = quoted_path(path);
                assert(path_quotes_as(path, words));
                "config file not found at ".to_owned().concat(words.as_str()).concat("; run `--install` first")
            },
            ConfigError::Io(failure) => failure.message.clone(),
            ConfigError::Parse(error) => {
                let words = error.message();
                assert(error.reads(words@));
                "failed to parse config: ".to_owned().concat(words.as_str())
            },
            ConfigError::Serialize(error) => {
                let words = write_error_words(error);
                "failed to serialize config: ".to_owned().concat(words.as_str())
            },
        }
    }
}

/// A place under the user's configuration directory: the names to go down by.
#[derive(Debug)]
pub struct Location {
    pub base: PathBuf,
    pub names: Vec<String>,
}

impl Location {
    /// The names, as text.
    pub open spec fn steps(&self) -> Seq<Seq<char>> {
        self.names@.map_values(|name: String| name@)
    }
}

/// Calls `dirs::config_dir`. Nothing is assumed of the result, which depends
/// on the environment.
#[verifier::external_body]
fn config_dir() -> Option<PathBuf> {
    dirs::config_dir()
}

/// `base` is what the platform can give as the configuration directory.
pub closed spec fn can_be_config_dir(base: Option<PathBuf>) -> bool {
    call_ensures(config_dir, (), base)
}

/// `place` is reached from `base` by `steps`; without a base there is none.
pub open spec fn is_placed(base: Option<PathBuf>, steps: Seq<Seq<char>>, place: Result<Location, ConfigError>) -> bool {
    match base {
        None => place == Err::<Location, ConfigError>(ConfigError::NoDataDir),
        Some(directory) => place matches Ok(location) && location.base == directory && location.steps() == steps,
    }
}

fn place_under(base: Option<PathBuf>, file: Option<&str>) -> (place: Result<Location, ConfigError>)
    ensures
        is_placed(
            base,
            match file {
                Some(name) => seq!["balance-enforcer"@, name@],
                None => seq!["balance-enforcer"@],
            },
            place,
        ),
{
    match base {
        None => Err(ConfigError::NoDataDir),
        Some(directory) => {
            let mut names: Vec<String> = Vec::new();
            names.push("balance-enforcer".to_owned());
            if let Some(name) = file {
                names.push(name.to_owned());
            }
            let location = Location { base: directory, names };
            proof {
                match file {
                    Some(name) => assert(location.steps() =~= seq!["balance-enforcer"@, name@]),
                    None => assert(location.steps() =~= seq!["balance-enforcer"@]),
                }
            }
            Ok(location)
        },
    }
}

/// The application's data directory under `base`.
pub fn app_dir_under(base: Option<PathBuf>) -> (place: Result<Location, ConfigError>)
    ensures
        is_placed(base, seq!["balance-enforcer"@], place),
{
    place_under(base, None)
}

/// The config file under `base`.
pub fn config_path_under(base: Option<PathBuf>) -> (place: Result<Location, ConfigError>)
    ensures
        is_placed(base, seq!["balance-enforcer"@, "config.toml"@], place),
{
    place_under(base, Some("config.toml"))
}

/// The log directory under `base`.
pub fn log_dir_under(base: Option<PathBuf>) -> (place: Result<Location, ConfigError>)
    ensures
        is_placed(base, seq!["balance-enforcer"@, "logs"@], place),
{
    place_under(base, Some("logs"))
}

/// Returns the application's data directory, which the caller creates if
/// necessary.
pub fn app_dir() -> (place: Result<Location, ConfigError>)
    ensures
        exists|base: Option<PathBuf>| #[trigger]
            can_be_config_dir(base) && is_placed(base, seq!["balance-enforcer"@], place),
{
    let base = config_dir();
    assert(can_be_config_dir(base));
    app_dir_under(base)
}

/// Returns the path of the config file, in the application's data directory.
pub fn config_path() -> (place: Result<Location, ConfigError>)
    ensures
        exists|base: Option<PathBuf>| #[trigger]
            can_be_config_dir(base) && is_placed(base, seq!["balance-enforcer"@, "config.toml"@], place),
{
    let base = config_dir();
    assert(can_be_config_dir(base));
    config_path_under(base)
}

/// Returns the log directory, which the caller creates if necessary.
pub fn log_dir() -> (place: Result<Location, ConfigError>)
    ensures
        exists|base: Option<PathBuf>| #[trigger]
            can_be_config_dir(base) && is_placed(base, seq!["balance-enforcer"@, "logs"@], place),
{
    let base = config_dir();
    assert(can_be_config_dir(base));
    log_dir_under(base)
}

/// The result of creating a directory or of writing a file. `reply` is what
/// the operating system said.
pub fn performed(reply: Result<(), IoFailure>) -> (outcome: Result<(), ConfigError>)
    ensures
        outcome == (match reply {
            Ok(done) => Ok(done),
            Err(failure) => Err(ConfigError::Io(failure)),
        }),
{
    match reply {
        Ok(done) => Ok(done),
        Err(failure) => Err(ConfigError::Io(failure)),
    }
}

#[derive(Debug, Clone, PartialEq, Eq)]
pub struct Config {
    /// Endpoint ID of the device we are enforcing balance on.
    pub target_device_id: String,
    /// Friendly device name (informational; used only in logs and `--status`).
    pub target_device_name: String,
}

/// A config file as it was found.
pub struct ConfigFile {
    pub path: PathBuf,
    /// The text of the file, or why it could not be read.
    pub contents: Result<String, IoFailure>,
}

/// A file that is to be written. Its parent directories are created first.
pub struct FileWrite {
    pub path: PathBuf,
    pub text: String,
}

/// The entries that a config is stored as.
pub open spec fn config_entries(id: Seq<char>, name: Seq<char>) -> Map<Seq<char>, Option<Seq<char>>> {
    Map::empty().insert("target_device_id"@, Some(id)).insert("target_device_name"@, Some(name))
}

/// What a document says about a config. Entries of other names are passed
/// over.
pub open spec fn config_in(text: Seq<char>) -> Result<(Seq<char>, Seq<char>), ConfigFault> {
    match document_entries(text) {
        None => Err(ConfigFault::Syntax),
        Some(entries) => {
            let id = "target_device_id"@;
            let name = "target_device_name"@;
            if entries.contains_key(id) && entries[id] is None {
                Err(ConfigFault::NotText(id))
            } else if entries.contains_key(name) && entries[name] is None {
                Err(ConfigFault::NotText(name))
            } else if !entries.contains_key(id) {
                Err(ConfigFault::MissingField(id))
            } else if !entries.contains_key(name) {
                Err(ConfigFault::MissingField(name))
            } else {
                Ok((entries[id]->0, entries[name]->0))
            }
        },
    }
}

/// Why a document is not a config, with field names as text.
pub ghost enum ConfigFault {
    Syntax,
    NotText(Seq<char>),
    MissingField(Seq<char>),
}

impl ParseError {
    /// The error says that `text` has this fault. One of the syntax is what
    /// reading this text can fail with.
    pub open spec fn is_fault(&self, text: Seq<char>, fault: ConfigFault) -> bool {
        match (self, fault) {
            (ParseError::Syntax(error), ConfigFault::Syntax) => can_fail_with(text, *error),
            (ParseError::NotText(field), ConfigFault::NotText(wanted)) => field@ == wanted,
            (ParseError::MissingField(field), ConfigFault::MissingField(wanted)) => field@ == wanted,
            _ => false,
        }
    }
}

impl Config {
    /// Both fields are text that the config file can hold.
    pub open spec fn is_storable(&self) -> bool {
        is_writable(self.target_device_id@) && is_writable(self.target_device_name@)
    }

    /// `outcome` is what reading `text` gives.
    pub open spec fn is_read_from(text: Seq<char>, outcome: Result<Config, ConfigError>) -> bool {
        match config_in(text) {
            Ok((id, name)) => outcome matches Ok(config) && config.target_device_id@ == id
                && config.target_device_name@ == name,
            Err(fault) => outcome matches Err(ConfigError::Parse(error)) && error.is_fault(text, fault),
        }
    }

    /// `outcome` is what loading the file at `path` gives.
    pub open spec fn is_loaded_from(
        path: PathBuf,
        contents: Result<String, IoFailure>,
        outcome: Result<Config, ConfigError>,
    ) -> bool {
        match contents {
            Ok(text) => Config::is_read_from(text@, outcome),
            Err(failure) => if failure.not_found {
                outcome == Err::<Config, ConfigError>(ConfigError::NotFound(path))
            } else {
                outcome == Err::<Config, ConfigError>(ConfigError::Io(failure))
            },
        }
    }

    /// `outcome` is what storing this config at `path` asks for: a text that
    /// reads back as this config.
    pub open spec fn is_stored_at(&self, path: PathBuf, outcome: Result<FileWrite, ConfigError>) -> bool {
        outcome matches Ok(write) && {
            &&& write.path == path
            &&& write.text@ == document_text(config_entries(self.target_device_id@, self.target_device_name@))
            &&& config_in(write.text@) == Ok::<(Seq<char>, Seq<char>), ConfigFault>(
                (self.target_device_id@, self.target_device_name@),
            )
        }
    }

    /// Whether both fields are text that the config file can hold.
    pub fn storable(&self) -> (accepted: bool)
        ensures
            accepted == self.is_storable(),
    {
        writable(self.target_device_id.as_str()) && writable(self.target_device_name.as_str())
    }

    /// Reads a config from the text of its file.
    pub fn parse(text: &str) -> (outcome: Result<Config, ConfigError>)
        ensures
            Config::is_read_from(text@, outcome),
    {
        let table = match read_table(text) {
            Ok(table) => table,
            Err(error) => return Err(ConfigError::Parse(ParseError::Syntax(error))),
        };
        let id = get_text(&table, "target_device_id");
        let name = get_text(&table, "target_device_name");
        match (id, name) {
            (Some(None), _) => Err(ConfigError::Parse(ParseError::NotText("target_device_id".to_owned()))),
            (_, Some(None)) => Err(ConfigError::Parse(ParseError::NotText("target_device_name".to_owned()))),
            (None, _) => Err(ConfigError::Parse(ParseError::MissingField("target_device_id".to_owned()))),
            (_, None) => Err(ConfigError::Parse(ParseError::MissingField("target_device_name".to_owned()))),
            (Some(Some(target_device_id)), Some(Some(target_device_name))) => Ok(
                Config { target_device_id, target_device_name },
            ),
        }
    }

    /// Loads the config from the file at its usual path. `file` is the file as
    /// it was found, or why the path could not be determined.
    pub fn load(file: Result<ConfigFile, ConfigError>) -> (outcome: Result<Config, ConfigError>)
        ensures
            match file {
                Ok(found) => Config::is_loaded_from(found.path, found.contents, outcome),
                Err(error) => outcome == Err::<Config, ConfigError>(error),
            },
    {
        match file {
            Ok(found) => Config::load_from(found.path, found.contents),
            Err(error) => Err(error),
        }
    }

    /// Loads the config from the file at `path`, of which reading gave
    /// `contents`.
    pub fn load_from(path: PathBuf, contents: Result<String, IoFailure>) -> (outcome: Result<Config, ConfigError>)
        ensures
            Config::is_loaded_from(path, contents, outcome),
    {
        match contents {
            Ok(text) => Config::parse(text.as_str()),
            Err(failure) => {
                if failure.not_found {
                    Err(ConfigError::NotFound(path))
                } else {
                    Err(ConfigError::Io(failure))
                }
            },
        }
    }

    /// Stores the config at its usual path, or passes on why the path could
    /// not be determined.
    pub fn save(&self, path: Result<PathBuf, ConfigError>) -> (outcome: Result<FileWrite, ConfigError>)
        requires
            self.is_storable(),
        ensures
            match path {
                Ok(found) => self.is_stored_at(found, outcome),
                Err(error) => outcome == Err::<FileWrite, ConfigError>(error),
            },
    {
        match path {
            Ok(found) => self.save_to(found),
            Err(error) => Err(error),
        }
    }

    /// Stores the config at `path`.
    pub fn save_to(&self, path: PathBuf) -> (outcome: Result<FileWrite, ConfigError>)
        requires
            self.is_storable(),
        ensures
            self.is_stored_at(path, outcome),
    {
        proof {
            reveal_strlit("target_device_id");
            reveal_strlit("target_device_name");
            assert("target_device_id"@ != "target_device_name"@) by {
                assert("target_device_id"@.len() != "target_device_name"@.len());
            }
        }
        let mut table = new_table();
        assert(crate::document::entries(table) =~= Map::empty());
        insert_text(&mut table, "target_device_id".to_owned(), self.target_device_id.clone());
        insert_text(&mut table, "target_device_name".to_owned(), self.target_device_name.clone());
        assert(crate::document::entries(table) == config_entries(self.target_device_id@, self.target_device_name@));
        assert(is_bare_key("target_device_id"@));
        assert(is_bare_key("target_device_name"@));
        match write_document(&table) {
            Ok(text) => Ok(FileWrite { path, text }),
            Err(error) => Err(ConfigError::Serialize(error)),
        }
    }
}

/// The program's files lie in its own directory under the configuration
/// directory: the config file and the log directory are inside the data
/// directory. Without a configuration directory there is no place for them.
pub proof fn law_files_lie_in_the_data_directory(
    base: Option<PathBuf>,
    data: Result<Location, ConfigError>,
    file: Result<Location, ConfigError>,
    logs: Result<Location, ConfigError>,
)
    requires
        call_ensures(app_dir_under, (base,), data),
        call_ensures(config_path_under, (base,), file),
        call_ensures(log_dir_under, (base,), logs),
    ensures
        base is None ==> data == Err::<Location, ConfigError>(ConfigError::NoDataDir) && file == Err::<
            Location,
            ConfigError,
        >(ConfigError::NoDataDir) && logs == Err::<Location, ConfigError>(ConfigError::NoDataDir),
        base matches Some(directory) ==> {
            &&& data matches Ok(place) && place.base == directory && place.names@.len() == 1 && place.names@[0]@
                == "balance-enforcer"@
            &&& file matches Ok(place) && place.base == directory && place.names@.len() == 2 && place.names@[0]@
                == "balance-enforcer"@ && place.names@[1]@ == "config.toml"@
            &&& logs matches Ok(place) && place.base == directory && place.names@.len() == 2 && place.names@[0]@
                == "balance-enforcer"@ && place.names@[1]@ == "logs"@
        },
{
    if base is Some {
        lemma_steps(data->Ok_0);
        lemma_steps(file->Ok_0);
        lemma_steps(logs->Ok_0);
    }
}

proof fn lemma_steps(place: Location)
    ensures
        place.steps().len() == place.names@.len(),
        forall|i: int| 0 <= i < place.names@.len() ==> place.steps()[i] == (#[trigger] place.names@[i])@,
{
}

/// The places that the program asks for are those under the platform's
/// configuration directory.
pub proof fn law_places_are_under_the_config_directory(
    data: Result<Location, ConfigError>,
    file: Result<Location, ConfigError>,
    logs: Result<Location, ConfigError>,
)
    requires
        call_ensures(app_dir, (), data),
        call_ensures(config_path, (), file),
        call_ensures(log_dir, (), logs),
    ensures
        data matches Ok(place) ==> can_be_config_dir(Some(place.base)) && place.names@.len() == 1 && place.names@[0]@
            == "balance-enforcer"@,
        file matches Ok(place) ==> can_be_config_dir(Some(place.base)) && place.names@.len() == 2 && place.names@[0]@
            == "balance-enforcer"@ && place.names@[1]@ == "config.toml"@,
        logs matches Ok(place) ==> can_be_config_dir(Some(place.base)) && place.names@.len() == 2 && place.names@[0]@
            == "balance-enforcer"@ && place.names@[1]@ == "logs"@,
        data matches Err(error) ==> error is NoDataDir && can_be_config_dir(None),
        file matches Err(error) ==> error is NoDataDir && can_be_config_dir(None),
        logs matches Err(error) ==> error is NoDataDir && can_be_config_dir(None),
{
    if let Ok(place) = data {
        lemma_steps(place);
    }
    if let Ok(place) = file {
        lemma_steps(place);
    }
    if let Ok(place) = logs {
        lemma_steps(place);
    }
}

/// A file operation that failed is an error, with the failure as it was.
pub proof fn law_failed_file_operation_is_an_error(reply: Result<(), IoFailure>, outcome: Result<(), ConfigError>)
    requires
        call_ensures(performed, (reply,), outcome),
    ensures
        reply is Ok <==> outcome is Ok,
        reply matches Err(failure) ==> outcome == Err::<(), ConfigError>(ConfigError::Io(failure)),
{
}

/// What is stored is what is loaded: the file that storing a config asks for,
/// read again from anywhere, gives the same ID and the same name, character
/// for character. It is written where it was to be stored.
pub proof fn law_stored_config_loads_back(
    config: Config,
    path: PathBuf,
    elsewhere: PathBuf,
    write: FileWrite,
    found: Result<Config, ConfigError>,
)
    requires
        config.is_storable(),
        call_ensures(Config::save_to, (&config, path), Ok::<FileWrite, ConfigError>(write)),
        call_ensures(Config::load_from, (elsewhere, Ok::<String, IoFailure>(write.text)), found),
    ensures
        write.path == path,
        found matches Ok(again) && again.target_device_id@ == config.target_device_id@ && again.target_device_name@
            == config.target_device_name@,
{
}

/// Storing a config succeeds. By way of its usual path it does the same, or
/// gives the error of finding that path.
pub proof fn law_storing_succeeds(
    config: Config,
    path: PathBuf,
    usual: Result<PathBuf, ConfigError>,
    outcome: Result<FileWrite, ConfigError>,
    usually: Result<FileWrite, ConfigError>,
)
    requires
        config.is_storable(),
        call_ensures(Config::save_to, (&config, path), outcome),
        call_ensures(Config::save, (&config, usual), usually),
    ensures
        outcome is Ok,
        usual matches Err(error) ==> usually == Err::<FileWrite, ConfigError>(error),
        usual matches Ok(place) ==> (usually matches Ok(write) && write.path == place && write.text@
            == outcome->Ok_0.text@),
{
}

/// Two entries of a document make the config, and no other entry matters. It
/// is read from any document in which both are text, and is an error of
/// parsing wherever one is missing or is not text, or the text is no document.
pub proof fn law_config_is_two_text_entries(text: &str, outcome: Result<Config, ConfigError>)
    requires
        call_ensures(Config::parse, (text,), outcome),
    ensures
        document_entries(text@) is None ==> (outcome matches Err(ConfigError::Parse(error)) && error is Syntax),
        document_entries(text@) matches Some(entries) ==> {
            let id = "target_device_id"@;
            let name = "target_device_name"@;
            &&& entries.contains_key(id) && entries.contains_key(name) && entries[id] is Some && entries[name] is Some
                ==> (outcome matches Ok(config) && entries[id] == Some(config.target_device_id@) && entries[name]
                == Some(config.target_device_name@))
            &&& !entries.contains_key(id) || !entries.contains_key(name) || entries[id] is None || entries[name] is None
                ==> (outcome matches Err(ConfigError::Parse(error)) && !(error is Syntax))
            &&& entries.contains_key(id) && entries.contains_key(name) && entries[id] is None && entries[name] is Some
                ==> (outcome matches Err(ConfigError::Parse(ParseError::NotText(field))) && field@ == id)
            &&& entries.contains_key(id) && entries.contains_key(name) && entries[id] is Some && entries[name] is None
                ==> (outcome matches Err(ConfigError::Parse(ParseError::NotText(field))) && field@ == name)
            &&& !entries.contains_key(id) && entries.contains_key(name) && entries[name] is Some ==> (
            outcome matches Err(ConfigError::Parse(ParseError::MissingField(field))) && field@ == id)
            &&& entries.contains_key(id) && !entries.contains_key(name) && entries[id] is Some ==> (
            outcome matches Err(ConfigError::Parse(ParseError::MissingField(field))) && field@ == name)
        },
{
}

/// A file that is not there is told apart from one that cannot be read, and
/// both from one that is no config.
pub proof fn law_missing_file_is_told_apart(
    path: PathBuf,
    failure: IoFailure,
    unread: Result<Config, ConfigError>,
    contents: String,
    read: Result<Config, ConfigError>,
)
    requires
        call_ensures(Config::load_from, (path, Err::<String, IoFailure>(failure)), unread),
        call_ensures(Config::load_from, (path, Ok::<String, IoFailure>(contents)), read),
    ensures
        failure.not_found ==> unread == Err::<Config, ConfigError>(ConfigError::NotFound(path)),
        !failure.not_found ==> unread == Err::<Config, ConfigError>(ConfigError::Io(failure)),
        read matches Err(error) ==> error is Parse,
{
}

/// Loading from the usual path is loading from that path, or the error of
/// finding it.
pub proof fn law_usual_config_is_that_of_its_path(
    path: PathBuf,
    contents: String,
    error: ConfigError,
    usual: Result<Config, ConfigError>,
    direct: Result<Config, ConfigError>,
    lost: Result<Config, ConfigError>,
)
    requires
        call_ensures(
            Config::load,
            (Ok::<ConfigFile, ConfigError>(ConfigFile { path, contents: Ok(contents) }),),
            usual,
        ),
        call_ensures(Config::load_from, (path, Ok::<String, IoFailure>(contents)), direct),
        call_ensures(Config::load, (Err::<ConfigFile, ConfigError>(error),), lost),
    ensures
        usual is Ok <==> direct is Ok,
        usual is Ok ==> usual->Ok_0.target_device_id@ == direct->Ok_0.target_device_id@
            && usual->Ok_0.target_device_name@ == direct->Ok_0.target_device_name@,
        lost == Err::<Config, ConfigError>(error),
{
}

/// Every config of fewer than 256 characters to a field can be stored, and so
/// can every one without quotation marks.
pub proof fn law_ordinary_config_is_storable(config: Config, accepted: bool)
    requires
        config.target_device_id@.len() < 256 || (forall|i: int|
            0 <= i < config.target_device_id@.len() ==> #[trigger] config.target_device_id@[i] != '"'
                && config.target_device_id@[i] != '\''),
        config.target_device_name@.len() < 256 || (forall|i: int|
            0 <= i < config.target_device_name@.len() ==> #[trigger] config.target_device_name@[i] != '"'
                && config.target_device_name@[i] != '\''),
        call_ensures(Config::storable, (&config,), accepted),
    ensures
        accepted,
{
    law_ordinary_text_is_writable(config.target_device_id@);
    law_ordinary_text_is_writable(config.target_device_name@);
}

/// The errors that have words of their own.
pub proof fn law_config_errors_speak(error: ConfigError, message: String, fault: ParseError, words: String)
    requires
        call_ensures(ConfigError::message, (&error,), message),
        call_ensures(ParseError::message, (&fault,), words),
    ensures
        error is NoDataDir ==> message@ == "unable to determine application data directory"@,
        error matches ConfigError::Io(failure) ==> message@ == failure.message@,
        error matches ConfigError::NotFound(path) ==> exists|shown: String| #[trigger]
            path_quotes_as(&path, shown) && message@ == "config file not found at "@ + shown@
                + "; run `--install` first"@,
        error matches ConfigError::Parse(ParseError::MissingField(field)) ==> message@ == "failed to parse config: "@ + (
        "missing field `"@ + field@ + "`"@),
        fault matches ParseError::MissingField(field) ==> words@ == "missing field `"@ + field@ + "`"@,
        fault matches ParseError::NotText(field) ==> words@ == "invalid type: `"@ + field@ + "` is not a string"@,
{
}

/// Of two faults the one of the ID is named, and an entry that is not text
/// before one that is missing. An error of the syntax is one that reading this
/// very text can give.
pub proof fn law_first_fault_is_named(text: &str, outcome: Result<Config, ConfigError>)
    requires
        call_ensures(Config::parse, (text,), outcome),
    ensures
        outcome matches Err(ConfigError::Parse(ParseError::Syntax(error))) ==> can_fail_with(text@, error),
        document_entries(text@) matches Some(entries) ==> {
            let id = "target_device_id"@;
            let name = "target_device_name"@;
            &&& !entries.contains_key(id) && !entries.contains_key(name) ==> (
            outcome matches Err(ConfigError::Parse(ParseError::MissingField(field))) && field@ == id)
            &&& entries.contains_key(id) && entries[id] is None ==> (
            outcome matches Err(ConfigError::Parse(ParseError::NotText(field))) && field@ == id)
            &&& !entries.contains_key(id) && entries.contains_key(name) && entries[name] is None ==> (
            outcome matches Err(ConfigError::Parse(ParseError::NotText(field))) && field@ == name)
        },
{
}

/// An error of parsing or of writing is told in its own words, after a word on
/// what was attempted.
pub proof fn law_config_error_tells_what_was_attempted(error: ConfigError, message: String)
    requires
        call_ensures(ConfigError::message, (&error,), message),
    ensures
        error matches ConfigError::Parse(fault) ==> exists|words: Seq<char>| #[trigger]
            fault.reads(words) && message@ == "failed to parse config: "@ + words,
        error matches ConfigError::Serialize(fault) ==> exists|words: String| #[trigger]
            write_error_reads(&fault, words) && message@ == "failed to serialize config: "@ + words@,
{
}

} // verus!
