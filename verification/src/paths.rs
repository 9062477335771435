//! Where the files of the application lie under the user's home directory.

use vstd::prelude::*;
use vstd::string::StringExecFns;

verus! {

/// No home directory could be found for the user.
#[derive(Clone, Copy, Debug, PartialEq, Eq, Structural)]
pub enum ConfigurationError {
    NoHomeDirectory,
}

/// `base`, a separator and `part`.
pub open spec fn joined(base: Seq<char>, part: Seq<char>) -> Seq<char> {
    base + "/"@ + part
}

/// The path of the log file `name` under `home`.
pub open spec fn log_path_of(home: Seq<char>, name: Seq<char>) -> Seq<char> {
    joined(joined(joined(home, ".appdata"@), "logs"@), name + ".log"@)
}

/// The path of the configuration file under `home`.
pub open spec fn config_path_of(home: Seq<char>) -> Seq<char> {
    joined(joined(home, ".nanobot"@), "config.json"@)
}

/// The path of the directory of configuration backups under `home`.
pub open spec fn config_history_dir_of(home: Seq<char>) -> Seq<char> {
    joined(joined(home, ".nanobot"@), "config_history"@)
}

/// The path of the workspace under `home`.
pub open spec fn workspace_path_of(home: Seq<char>) -> Seq<char> {
    joined(joined(home, ".nanobot"@), "workspace"@)
}

/// The path of the theme file under `home`.
pub open spec fn theme_path_of(home: Seq<char>) -> Seq<char> {
    joined(joined(home, ".nanobot"@), "theme.json"@)
}

/// Asks `dirs::home_dir` for the user's home directory and gives its path as
/// text. Nothing is claimed of the answer: it depends on the user and the
/// machine.
#[verifier::external_body]
fn home_directory() -> (home: Option<String>) {
    dirs::home_dir().map(|p| p.to_string_lossy().into_owned())
}

/// `base`, a separator and `part`.
pub fn join(base: String, part: &str) -> (path: String)
    ensures
        path@ == joined(base@, part@),
{
    base.concat("/").concat(part)
}

/// The path of the log file `name` under the home directory `home`; an error
/// where there is no home directory.
pub fn log_path_in(home: Option<String>, name: &str) -> (res: Result<String, ConfigurationError>)
    ensures
        home is None <==> res is Err,
        home is Some ==> res->Ok_0@ == log_path_of(home->Some_0@, name@),
{
    match home {
        None => Err(ConfigurationError::NoHomeDirectory),
        Some(h) => {
            let file = String::from_str(name).concat(".log");
            Ok(join(join(join(h, ".appdata"), "logs"), file.as_str()))
        },
    }
}

/// The path of the configuration file under the home directory `home`; an
/// error where there is no home directory.
pub fn config_path_in(home: Option<String>) -> (res: Result<String, ConfigurationError>)
    ensures
        home is None <==> res is Err,
        home is Some ==> res->Ok_0@ == config_path_of(home->Some_0@),
{
    match home {
        None => Err(ConfigurationError::NoHomeDirectory),
        Some(h) => Ok(join(join(h, ".nanobot"), "config.json")),
    }
}

/// The path of the directory of configuration backups under the home
/// directory `home`; an error where there is no home directory.
pub fn config_history_dir_in(home: Option<String>) -> (res: Result<String, ConfigurationError>)
    ensures
        home is None <==> res is Err,
        home is Some ==> res->Ok_0@ == config_history_dir_of(home->Some_0@),
{
    match home {
        None => Err(ConfigurationError::NoHomeDirectory),
        Some(h) => Ok(join(join(h, ".nanobot"), "config_history")),
    }
}

/// The path of the workspace under the home directory `home`; an error where
/// there is no home directory.
pub fn workspace_path_in(home: Option<String>) -> (res: Result<String, ConfigurationError>)
    ensures
        home is None <==> res is Err,
        home is Some ==> res->Ok_0@ == workspace_path_of(home->Some_0@),
{
    match home {
        None => Err(ConfigurationError::NoHomeDirectory),
        Some(h) => Ok(join(join(h, ".nanobot"), "workspace")),
    }
}

/// The path of the theme file under the home directory `home`, or under the
/// current directory where there is no home directory.
pub fn theme_path_in(home: Option<String>) -> (path: String)
    ensures
        path@ == theme_path_of(
            match home {
                Some(h) => h@,
                None => "."@,
            },
        ),
{
    let base = match home {
        Some(h) => h,
        None => String::from_str("."),
    };
    join(join(base, ".nanobot"), "theme.json")
}

/// Whether `path` is the path of the log file `name` under some home
/// directory.
pub open spec fn is_log_path(path: Seq<char>, name: Seq<char>) -> bool {
    exists|home: Seq<char>| path == log_path_of(home, name)
}

/// The path of the log file `name` of the user: under the home directory,
/// whichever that is; an error where there is none.
pub fn get_log_path(name: &str) -> (res: Result<String, ConfigurationError>)
    ensures
        res is Ok ==> is_log_path(res->Ok_0@, name@),
{
    log_path_in(home_directory(), name)
}

/// The path of the configuration file of the user.
pub fn get_config_path_internal() -> (res: Result<String, ConfigurationError>)
    ensures
        res is Ok ==> exists|home: Seq<char>| res->Ok_0@ == config_path_of(home),
{
    config_path_in(home_directory())
}

/// The path of the directory of configuration backups of the user.
pub fn get_config_history_dir() -> (res: Result<String, ConfigurationError>)
    ensures
        res is Ok ==> exists|home: Seq<char>| res->Ok_0@ == config_history_dir_of(home),
{
    config_history_dir_in(home_directory())
}

/// The path of the workspace of the user.
pub fn get_workspace_path() -> (res: Result<String, ConfigurationError>)
    ensures
        res is Ok ==> exists|home: Seq<char>| res->Ok_0@ == workspace_path_of(home),
{
    workspace_path_in(home_directory())
}

/// The path of the theme file of the user.
pub fn get_theme_config_path() -> (path: String)
    ensures
        exists|home: Seq<char>| path@ == theme_path_of(home),
{
    theme_path_in(home_directory())
}

} // verus!
