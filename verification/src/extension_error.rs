//! The error taxonomy of the engine, with the human-readable text each error
//! contributes to the `error` notification that answers a failed command.

use vstd::prelude::*;
use vstd::string::StringExecFns;

verus! {

/// Why a native library could not provide an instance.
#[derive(Debug, PartialEq, Eq, Structural)]
pub enum LoadError {
    /// The well-known factory export is absent.
    SymbolNotFound,
    /// The file could not be mapped as a library at all.
    OsLoadFailure,
}

/// Why an install command failed.
#[derive(Debug, PartialEq, Eq, Structural)]
pub enum InstallError {
    /// The source path did not resolve to a regular file.
    NotAFile,
    /// The copied library could not be loaded.
    LoadFailed,
    /// The plugin's self-reported metadata is not a JSON object.
    MetadataParseError,
    /// An instance with the same id is already live; it is never replaced
    /// silently.
    AlreadyInstalled,
}

/// Why a remove command failed.
#[derive(Debug, PartialEq, Eq)]
pub enum RemoveError {
    /// No descriptor is persisted under this id: a reported condition, not a
    /// crash.
    NotInstalled(String),
}

pub open spec fn load_error_text(e: LoadError) -> Seq<char> {
    match e {
        LoadError::SymbolNotFound => "the library exports no factory symbol"@,
        LoadError::OsLoadFailure => "the file could not be loaded as a library"@,
    }
}

pub open spec fn install_error_text(e: InstallError) -> Seq<char> {
    match e {
        InstallError::NotAFile => "the source path is not a file"@,
        InstallError::LoadFailed => "the extension library failed to load"@,
        InstallError::MetadataParseError => "the extension metadata is not a JSON object"@,
        InstallError::AlreadyInstalled => "an extension with this id is already running"@,
    }
}

pub open spec fn remove_error_text(e: RemoveError) -> Seq<char> {
    match e {
        RemoveError::NotInstalled(id) => "no extension is installed under id "@ + id@,
    }
}

impl LoadError {
    /// The human-readable account of this error.
    pub fn message(&self) -> (r: String)
        ensures
            r@ == load_error_text(*self),
    {
        match self {
            LoadError::SymbolNotFound => String::from_str("the library exports no factory symbol"),
            LoadError::OsLoadFailure => String::from_str(
                "the file could not be loaded as a library",
            ),
        }
    }
}

impl InstallError {
    /// The human-readable account of this error.
    pub fn message(&self) -> (r: String)
        ensures
            r@ == install_error_text(*self),
    {
        match self {
            InstallError::NotAFile => String::from_str("the source path is not a file"),
            InstallError::LoadFailed => String::from_str("the extension library failed to load"),
            InstallError::MetadataParseError => String::from_str(
                "the extension metadata is not a JSON object",
            ),
            InstallError::AlreadyInstalled => String::from_str(
                "an extension with this id is already running",
            ),
        }
    }
}

impl RemoveError {
    /// The human-readable account of this error.
    pub fn message(&self) -> (r: String)
        ensures
            r@ == remove_error_text(*self),
    {
        match self {
            RemoveError::NotInstalled(id) => {
                let mut s = String::from_str("no extension is installed under id ");
                s.append(id.as_str());
                s
            },
        }
    }
}

} // verus!
