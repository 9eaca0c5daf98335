//! The handle through which the host sets the engine up.

use vstd::prelude::*;
use crate::context::load_plugin_context::requests_answered;
use crate::function::function::FunctionBox;
use crate::function::request::Request;
use crate::info::Info;
use crate::loader::Loader;
use crate::facade::{managers_added, reported};
use crate::loader::manager_added;
use crate::manager::{Manager, ManagerBox};
use crate::utils::error::RegisterManagerError;

verus! {

/// A borrowed engine, for registering managers, requests and functions.
#[verifier::reject_recursive_types(O)]
#[verifier::reject_recursive_types(I)]
pub struct LoaderContext<'b, O: Send + Sync, I: Info> {
    pub loader: &'b mut Loader<O, I>,
}

impl<'b, O: Send + Sync, I: Info> LoaderContext<'b, O, I> {
    /// The context of an engine.
    pub fn new(loader: &'b mut Loader<O, I>) -> (r: Self)
        ensures
            *r.loader == *old(loader),
            *final(r.loader) == *final(loader),
    {
        LoaderContext { loader }
    }

    /// Adds a manager, unless one of its format is registered already.
    pub fn register_manager<M>(&mut self, manager: M) -> (r: Result<(), RegisterManagerError>) where
        M: Manager<O, I> + 'static,

        requires
            old(self).loader.wf(),
        ensures
            manager_added(old(self).loader, final(self).loader, manager.spec_format(), r),
    {
        self.loader.register_manager(manager)
    }

    /// Adds the managers one after the other, up to the first that cannot
    /// be added.
    pub fn register_managers(&mut self, managers: Vec<ManagerBox<O, I>>) -> (r: Result<
        (),
        RegisterManagerError,
    >)
        requires
            old(self).loader.wf(),
        ensures
            managers_added(old(self).loader, final(self).loader, reported(managers@), r),
    {
        self.loader.register_managers(managers)
    }

    /// Declares a request that every plugin loaded from now on has to
    /// answer.
    pub fn register_request(&mut self, request: Request)
        ensures
            final(self).loader.spec_requests() == old(self).loader.spec_requests().push(request),
            final(self).loader.spec_plugins() == old(self).loader.spec_plugins(),
            final(self).loader.spec_managers() == old(self).loader.spec_managers(),
            final(self).loader.spec_registry() == old(self).loader.spec_registry(),
    {
        self.loader.requests.push(request);
    }

    /// Declares the requests, in order.
    pub fn register_requests(&mut self, requests: Vec<Request>)
        ensures
            final(self).loader.spec_requests() == old(self).loader.spec_requests() + requests@,
            final(self).loader.spec_plugins() == old(self).loader.spec_plugins(),
            final(self).loader.spec_managers() == old(self).loader.spec_managers(),
            final(self).loader.spec_registry() == old(self).loader.spec_registry(),
    {
        let mut requests = requests;
        self.loader.requests.append(&mut requests);
    }

    /// Adds a function to those that the host offers to plugins.
    pub fn register_function(&mut self, function: FunctionBox<O>)
        ensures
            final(self).loader.spec_registry() == old(self).loader.spec_registry().push(function),
            final(self).loader.spec_plugins() == old(self).loader.spec_plugins(),
            final(self).loader.spec_managers() == old(self).loader.spec_managers(),
            final(self).loader.spec_requests() == old(self).loader.spec_requests(),
    {
        self.loader.registry.push(function);
    }

    /// Adds the functions, in order, to those that the host offers to
    /// plugins.
    pub fn register_functions(&mut self, functions: Vec<FunctionBox<O>>)
        ensures
            final(self).loader.spec_registry() == old(self).loader.spec_registry() + functions@,
            final(self).loader.spec_plugins() == old(self).loader.spec_plugins(),
            final(self).loader.spec_managers() == old(self).loader.spec_managers(),
            final(self).loader.spec_requests() == old(self).loader.spec_requests(),
    {
        let mut functions = functions;
        self.loader.registry.append(&mut functions);
    }
}

} // verus!
