//! The ways in which loading an environment can fail.
use vstd::prelude::*;
use vstd::string::*;

verus! {

/// Every failure is terminal for the current invocation.
#[derive(Debug)]
pub enum Error {
    /// The `SHELL` variable is missing or not valid unicode.
    EnvError,
    /// A filesystem operation failed, with the system's description.
    IOError(String),
    /// The configuration text is not a flat mapping of strings, with the parser's diagnostic.
    SerdeYamlError(String),
    /// The shell could not be started, with the system's description.
    BadShellVar(String),
    /// No known subcommand was given.
    NoSubcommandMatch,
    /// Neither an explicit nor a discovered configuration file was found.
    DingusFileNotFound,
    /// The default configuration directory does not exist.
    ConfigPathNotFound,
    /// An explicit filename carries an extension other than `yaml` or `yml`.
    UnrecognizedConfigExtension,
    /// An explicit filename without extension matches both variants.
    ConflictingConfigPaths { one: String, two: String },
}

impl Error {
    /// A one-line description for the user.
    pub fn message(&self) -> (r: String) {
        match self {
            Error::EnvError => String::from_str(
                "Looks like your $SHELL environment variable isn't set properly",
            ),
            Error::IOError(why) => String::from_str(
                "The config file you specified doesn't exist or isn't valid unicode: ",
            ).concat(why.as_str()),
            Error::SerdeYamlError(why) => String::from_str(
                "The config file you specified isn't valid YAML: ",
            ).concat(why.as_str()),
            Error::BadShellVar(why) => String::from_str(
                "The <SHELL> argument provided to --shell is invalid: ",
            ).concat(why.as_str()),
            Error::NoSubcommandMatch => String::from_str("Invalid [SUBCOMMAND] specified"),
            Error::DingusFileNotFound => String::from_str("Couldn't find a YAML file to load"),
            Error::ConfigPathNotFound => String::from_str(
                "The default config path of `$HOME/.config/dingus` doesn't exist",
            ),
            Error::UnrecognizedConfigExtension => String::from_str(
                "The config file you specified has an extension other than yaml or yml",
            ),
            Error::ConflictingConfigPaths { one, two } => String::from_str(
                "Found two conflicting config files, specify the file extension or consider renaming them:\n",
            ).concat(one.as_str()).concat("\n").concat(two.as_str()),
        }
    }
}

} // verus!
