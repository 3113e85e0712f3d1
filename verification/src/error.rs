use vstd::prelude::*;

verus! {

/// `std::path::PathBuf`, carried opaquely in errors.
#[verifier::external_type_specification]
#[verifier::external_body]
pub struct ExPathBuf(std::path::PathBuf);

/// `std::io::Error`, carried opaquely in errors.
#[verifier::external_type_specification]
#[verifier::external_body]
pub struct ExIoError(std::io::Error);

/// `toml::de::Error`, carried opaquely in errors.
#[verifier::external_type_specification]
#[verifier::external_body]
pub struct ExTomlDeError(toml::de::Error);

/// Shared error type for guild tools.
#[derive(Debug)]
pub enum GuildError {
    /// The configuration file could not be read.
    ConfigNotFound { path: std::path::PathBuf },
    /// The configuration or a data file is not valid TOML for its schema.
    ConfigParse(toml::de::Error),
    /// Reading or writing a file failed.
    Io(std::io::Error),
    /// A data file exists but could not be read.
    DataError { path: std::path::PathBuf },
    /// The crosslink command failed.
    Crosslink(String),
    /// A data structure could not be serialised.
    SerializeError(String),
    /// No checkpoint has the given ID.
    CheckpointNotFound(String),
    /// A project's name or path is not acceptable.
    InvalidProjectProperties(String),
    /// A project with the same name (ignoring case) is registered already.
    DuplicateProject(String),
    /// A review round's project or number is not acceptable.
    InvalidReviewRound(String),
    /// The project already has a review round with this number.
    DuplicateReviewRound(String, u32),
}

} // verus!
