//! The contract between the engine and the adapter of a plugin format.

use vstd::prelude::*;
use crate::api::Api;
use crate::context::load_plugin_context::LoadPluginContext;
use crate::context::register_plugin_context::RegisterPluginContext;
use crate::info::Info;
use crate::plugin::Plugin;
use crate::utils::error::ManagerResult;

verus! {

/// The adapter of one plugin format. The engine calls its hooks in this
/// order for each plugin: `register_plugin` once, then `load_plugin` and
/// `unload_plugin` in turn any number of times, then `unregister_plugin`
/// once, never while the plugin is loaded.
pub trait Manager<O: Send + Sync, I: Info>: Send + Sync {
    /// The format of the manager as a value of the model. A manager that is
    /// written in Verus says here what `format` returns; of any other manager
    /// the engine takes it on trust that `format` returns one value, this one,
    /// whenever it is asked.
    open spec fn spec_format(&self) -> Seq<char> {
        arbitrary()
    }

    /// The file extension of the plugins that this manager handles. The
    /// engine asks for it once, when the manager is added.
    fn format(&self) -> (r: &'static str)
        ensures
            r@ == self.spec_format(),
    ;

    /// Called once when the manager is added to the engine.
    fn register_manager(&mut self) -> ManagerResult<()>;

    /// Called once when the manager is removed from the engine.
    fn unregister_manager(&mut self) -> ManagerResult<()>;

    /// Inspects a plugin on disk and reports its metadata, without running
    /// any of its code.
    fn register_plugin(&mut self, context: RegisterPluginContext<'_>) -> ManagerResult<I>;

    /// Releases what `register_plugin` set up for the plugin.
    fn unregister_plugin(&mut self, plugin: &Plugin<O, I>) -> ManagerResult<()>;

    /// Sets up the plugin for execution and registers its functions through
    /// the context.
    fn load_plugin(
        &mut self,
        context: LoadPluginContext<'_, O, I>,
        api: Api<'_, O, I>,
    ) -> ManagerResult<()>;

    /// Tears the execution environment of the plugin down. The plugin can be
    /// loaded again afterwards.
    fn unload_plugin(&mut self, plugin: &Plugin<O, I>) -> ManagerResult<()>;
}

/// A manager of any implementation, as a list of managers holds it.
#[verifier::reject_recursive_types(O)]
#[verifier::reject_recursive_types(I)]
pub struct ManagerBox<O: Send + Sync, I: Info> {
    pub manager: Box<dyn Manager<O, I>>,
}

/// A manager together with the format under which the engine keeps it.
#[verifier::reject_recursive_types(O)]
#[verifier::reject_recursive_types(I)]
pub struct ManagerSlot<O: Send + Sync, I: Info> {
    pub(crate) format: String,
    pub(crate) manager: Box<dyn Manager<O, I>>,
}

impl<O: Send + Sync, I: Info> ManagerSlot<O, I> {
    /// The slot of a manager under a format.
    pub(crate) fn new(format: String, manager: Box<dyn Manager<O, I>>) -> (r: Self)
        ensures
            r.spec_format() == format@,
    {
        ManagerSlot { format, manager }
    }

    /// The format that the slot is kept under.
    pub open(crate) spec fn spec_format(&self) -> Seq<char> {
        self.format@
    }

    /// The format that the slot is kept under.
    pub fn format(&self) -> (r: &str)
        ensures
            r@ == self.spec_format(),
    {
        self.format.as_str()
    }

    /// Whether the slot is kept under the given format.
    pub fn is_format(&self, format: &str) -> (r: bool)
        ensures
            r == (self.spec_format() == format@),
    {
        crate::utils::text::same_text(self.format.as_str(), format)
    }

    /// The manager that the slot holds.
    pub open(crate) spec fn spec_manager(&self) -> &Box<dyn Manager<O, I>> {
        &self.manager
    }

    /// The manager itself.
    pub fn manager(&self) -> (r: &Box<dyn Manager<O, I>>)
        ensures
            r == self.spec_manager(),
    {
        &self.manager
    }

    /// The manager itself, for calls that change it. What the caller leaves
    /// behind the borrow is the manager that the slot holds afterwards; the
    /// format under which the slot is kept stays the same.
    pub fn manager_mut(&mut self) -> (r: &mut Box<dyn Manager<O, I>>)
        ensures
            *r == *old(self).spec_manager(),
            *final(self).spec_manager() == *final(r),
            final(self).spec_format() == old(self).spec_format(),
    {
        &mut self.manager
    }
}

} // verus!
