//! The errors the loading process can report. Every error carries enough
//! structured context (field path, environment key, load location) to locate
//! the offending source.

use vstd::prelude::*;

verus! {

/// Where a piece of configuration text came from, for diagnostics.
#[derive(Debug, PartialEq, Eq)]
pub enum LoadLocation {
    Memory,
    File(String),
    Url(String),
}

/// A merge policy failed for one field.
#[derive(Debug, PartialEq, Eq)]
pub struct MergeError {
    /// The full dotted path to the field, e.g. `database.port`.
    pub field: String,
    /// What went wrong.
    pub message: String,
}

/// A value read from the environment could not be used for its field, or the
/// provider itself failed.
#[derive(Debug, PartialEq, Eq)]
pub struct FromEnvError {
    /// The environment key that was read, e.g. `MY_APP_PORT`.
    pub key: String,
    /// The full dotted path to the field, e.g. `database.port`.
    pub field: String,
    /// What went wrong.
    pub message: String,
}

/// Required fields were still absent when the final configuration was built.
#[derive(Debug, PartialEq, Eq)]
pub struct FromPartialError {
    /// The full dotted paths of every required field that is missing, in
    /// discovery order.
    pub missing_properties: Vec<String>,
}

/// Any error of the configuration loading process.
#[derive(Debug, PartialEq, Eq)]
pub enum Error {
    /// A network failure loading configuration text from a URL.
    Network { url: String, message: String },
    /// An I/O failure loading configuration text from a file.
    Io { path: String, message: String },
    /// Text failed to read as JSON (with or without comments), or did not
    /// fit the shape.
    Json { message: String, location: LoadLocation },
    /// Text failed to read as TOML, or did not fit the shape.
    Toml { message: String, location: LoadLocation },
    /// Text failed to read as YAML, or did not fit the shape.
    Yaml { message: String, location: LoadLocation },
    /// The shape declaration itself is invalid (an explicit environment key
    /// together with environment exclusion).
    Shape,
    /// See [`FromEnvError`].
    FromEnv(FromEnvError),
    /// See [`MergeError`].
    Merge(MergeError),
    /// See [`FromPartialError`].
    FromPartial(FromPartialError),
}

} // verus!
