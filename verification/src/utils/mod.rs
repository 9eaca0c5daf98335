//! Error types and small helpers shared by the other modules.

pub mod error;
pub mod text;

pub use error::{
    BundleFault, BundleFromError, CallFunctionDependError, FunctionError, LoadPluginError,
    ManagerError, ManagerResult, ParseVariableError, PluginCallFunctionError,
    PluginCallRequestError, PluginRegisterFunctionError, RegisterManagerError,
    RegisterPluginError, RegisterRequestError, StopLoaderError, UnloadPluginError,
    UnregisterManagerError, UnregisterPluginError,
};
