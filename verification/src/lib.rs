//! An embeddable plugin runtime: bundles, dependencies between plugins with
//! semantic-version requirements, and the engine that registers, loads,
//! unloads and unregisters plugins through format-specific managers.

pub mod api;
pub mod batch;
pub mod bundle;
pub mod context;
pub mod facade;
pub mod function;
pub mod info;
pub mod laws;
pub mod load;
pub mod loader;
pub mod manager;
pub mod parallel;
pub mod path;
pub mod plugin;
pub mod solver;
pub mod sort;
pub mod teardown;
pub mod utils;
pub mod variable;
pub mod version;

pub use api::Api;
pub use bundle::{Bundle, BundleView};
pub use context::{LoadPluginContext, LoaderContext, RegisterPluginContext};
pub use info::{Depend, DependView, Info, PluginInfo, StdInfo};
pub use loader::Loader;
pub use manager::{Manager, ManagerBox, ManagerSlot};
pub use path::PluginPath;
pub use plugin::{Plugin, PluginView, Registry, Requests};
pub use version::{Version, VersionReq, VersionView};
