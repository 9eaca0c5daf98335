//! The handles that the engine passes to the host and to managers.

pub mod load_plugin_context;
pub mod loader_context;
pub mod register_plugin_context;

pub use load_plugin_context::LoadPluginContext;
pub use loader_context::LoaderContext;
pub use register_plugin_context::RegisterPluginContext;
