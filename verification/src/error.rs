//! What can be wrong with a configuration.
use vstd::prelude::*;
use vstd::string::*;

verus! {

/// Why a configuration could not be read, written or accepted.
#[derive(Debug)]
pub enum ConfigError {
    /// The file at `path` could not be read or written.
    Io { path: String, source: String },
    /// The file does not hold a configuration.
    Parse(String),
    /// The configuration could not be turned into text.
    Serialize(String),
    /// The configuration contradicts itself.
    Invalid(String),
}

impl ConfigError {
    /// The text shown to the user.
    pub open spec fn message(self) -> Seq<char> {
        match self {
            ConfigError::Io { path, source } => "I/O error at "@ + path@ + ": "@ + source@,
            ConfigError::Parse(source) => "Invalid config.toml: "@ + source@,
            ConfigError::Serialize(source) => "Failed to serialize the configuration: "@ + source@,
            ConfigError::Invalid(reason) => reason@,
        }
    }

    /// The text shown to the user.
    pub fn to_text(&self) -> (res: String)
        ensures
            res@ == self.message(),
    {
        match self {
            ConfigError::Io { path, source } => {
                let mut out = "I/O error at ".to_owned();
                out.append(path.as_str());
                out.append(": ");
                out.append(source.as_str());
                out
            },
            ConfigError::Parse(source) => "Invalid config.toml: ".to_owned().concat(source.as_str()),
            ConfigError::Serialize(source) => {
                "Failed to serialize the configuration: ".to_owned().concat(source.as_str())
            },
            ConfigError::Invalid(reason) => reason.clone(),
        }
    }
}

}
