//! The failures of each stage of the plugin lifecycle. A composite operation
//! keeps the failure of its sub-step as a nested value.

use vstd::prelude::*;
use crate::bundle::Bundle;
use crate::info::Depend;
use crate::version::Version;

verus! {

/// Why a file name is no bundle, as a plain value.
pub enum BundleFault {
    OsStrToStr,
    Id,
    Version,
    Format,
    ParseVersion,
}

/// A file name could not be read as a bundle.
#[derive(Debug)]
pub enum BundleFromError {
    /// The name is not valid Unicode.
    OsStrToStrFailed,
    /// The id is missing.
    IDFailed,
    /// The version is missing.
    VersionFailed,
    /// The format is missing.
    FormatFailed,
    /// The version is no semantic version.
    ParseVersion(semver::Error),
}

impl BundleFromError {
    /// The kind of the error, without what it carries.
    pub open spec fn fault(&self) -> BundleFault {
        match self {
            BundleFromError::OsStrToStrFailed => BundleFault::OsStrToStr,
            BundleFromError::IDFailed => BundleFault::Id,
            BundleFromError::VersionFailed => BundleFault::Version,
            BundleFromError::FormatFailed => BundleFault::Format,
            BundleFromError::ParseVersion(_) => BundleFault::ParseVersion,
        }
    }
}

/// What a manager reports when one of its hooks fails.
#[derive(Debug, PartialEq, Eq)]
pub struct ManagerError {
    pub message: String,
}

impl ManagerError {
    pub fn new(message: String) -> (r: ManagerError)
        ensures
            r.message@ == message@,
    {
        ManagerError { message }
    }
}

/// The result of a manager hook.
pub type ManagerResult<T> = Result<T, ManagerError>;

/// What a function reports when a call fails.
#[derive(Debug, PartialEq, Eq)]
pub struct FunctionError {
    pub message: String,
}

impl FunctionError {
    pub fn new(message: String) -> (r: FunctionError)
        ensures
            r.message@ == message@,
    {
        FunctionError { message }
    }
}

/// Stopping the loader left plugins or managers behind.
#[derive(Debug)]
pub enum StopLoaderError {
    UnregisterPluginFailed(Vec<UnregisterPluginError>),
    UnregisterManagerFailed(Vec<UnregisterManagerError>),
}

#[derive(Debug)]
pub enum RegisterManagerError {
    /// A manager of this format is registered already.
    AlreadyOccupiedFormat(String),
    RegisterManagerByManager(ManagerError),
}

#[derive(Debug)]
pub enum UnregisterManagerError {
    NotFound,
    UnregisterPlugin(UnregisterPluginError),
    UnregisterManagerByManager(ManagerError),
}

#[derive(Debug)]
pub enum RegisterPluginError {
    /// The path is no directory.
    NotFound,
    BundleFromFailed(BundleFromError),
    /// No manager handles this format; the format is empty where the path
    /// has no extension.
    UnknownManagerFormat(String),
    RegisterPluginByManager(ManagerError),
    /// A plugin with this id and version is registered already.
    AlreadyExistsIDAndVersion(String, Version),
}

#[derive(Debug)]
pub enum UnregisterPluginError {
    NotFound,
    UnloadError(UnloadPluginError),
    HasUnregisteredManager,
    UnregisterPluginByManager(ManagerError),
}

#[derive(Debug)]
pub enum LoadPluginError {
    NotFound,
    /// The required dependencies that no registered plugin satisfies.
    NotFoundDependencies(Vec<Depend>),
    /// Loading the plugin that satisfies `depend` failed with `error`.
    LoadDependency { depend: Depend, error: Box<LoadPluginError> },
    LoadPluginByManager(ManagerError),
    /// The names of the requests that the plugin did not provide.
    RequestsNotFound(Vec<String>),
}

#[derive(Debug)]
pub enum UnloadPluginError {
    NotFound,
    /// The loaded plugin `plugin` depends on `depend`, which was to be
    /// unloaded.
    CurrentlyUsesDepend { plugin: Bundle, depend: Bundle },
    UnloadPluginByManager(ManagerError),
}

#[derive(Debug, PartialEq, Eq)]
pub enum RegisterRequestError {
    /// The host has declared no request of this name.
    NotFound,
    /// The function's signature does not fit the request.
    ArgumentsIncorrectly,
}

#[derive(Debug, PartialEq, Eq)]
pub enum PluginCallRequestError {
    NotFound,
}

#[derive(Debug, PartialEq, Eq)]
pub enum PluginRegisterFunctionError {
    AlreadyExists(String),
}

#[derive(Debug, PartialEq, Eq)]
pub enum PluginCallFunctionError {
    NotFound,
}

#[derive(Debug, PartialEq, Eq)]
pub enum CallFunctionDependError {
    DependNotFound,
    FailedCallFunction(PluginCallFunctionError),
}

/// A variable does not hold the type that was asked for.
#[derive(Debug, PartialEq, Eq)]
pub struct ParseVariableError {
    ty: &'static str,
}

impl ParseVariableError {
    /// The error for a variable that is not of type `ty`.
    pub fn new(ty: &'static str) -> (r: ParseVariableError)
        ensures
            r.expected() == ty@,
    {
        ParseVariableError { ty }
    }

    /// The name of the type that was expected.
    pub closed spec fn expected(&self) -> Seq<char> {
        self.ty@
    }

    /// The name of the type that was expected.
    pub fn ty(&self) -> (r: &'static str)
        ensures
            r@ == self.expected(),
    {
        self.ty
    }
}

} // verus!
