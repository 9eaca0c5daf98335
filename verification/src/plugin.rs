//! The record that the engine keeps of each registered plugin.

use vstd::prelude::*;
use crate::bundle::{Bundle, BundleView};
use crate::function::function::{function_names, FunctionBox};
use crate::function::request::Request;
use crate::info::{admits, Depend, DependView, Info, PluginInfo};
use crate::utils::error::{
    PluginCallFunctionError, PluginCallRequestError, PluginRegisterFunctionError,
};
use crate::utils::text::same_text;
use crate::variable::var::Variable;
use crate::version::{version_order, Version};

verus! {

/// The functions that a host or a plugin offers, in the order in which they
/// were registered.
pub type Registry<O> = Vec<FunctionBox<O>>;

/// The requests that the host has declared.
pub type Requests = Vec<Request>;

/// What the dependency rules read of a plugin record.
pub struct PluginView {
    pub bundle: BundleView,
    pub depends: Seq<DependView>,
    pub optional_depends: Seq<DependView>,
    pub is_loaded: bool,
}

/// A registered plugin: its metadata, whether it is loaded, the functions by
/// which it answers the host's requests, and the functions that it offers to
/// other plugins.
#[verifier::reject_recursive_types(O)]
pub struct Plugin<O: Send + Sync, I: Info> {
    pub(crate) info: PluginInfo<I>,
    /// The required dependencies, as the metadata gave them when the plugin
    /// was registered.
    pub(crate) depends: Vec<Depend>,
    /// The optional dependencies, likewise.
    pub(crate) optional_depends: Vec<Depend>,
    pub(crate) is_load: bool,
    pub(crate) requests: Vec<FunctionBox<O>>,
    pub(crate) registry: Registry<O>,
}

impl<O: Send + Sync, I: Info> View for Plugin<O, I> {
    type V = PluginView;

    open(crate) spec fn view(&self) -> PluginView {
        PluginView {
            bundle: self.info.bundle@,
            depends: crate::info::depend_views(self.depends@),
            optional_depends: crate::info::depend_views(self.optional_depends@),
            is_loaded: self.is_load,
        }
    }
}

/// `k` is the position of the first entry of `names` equal to `name`.
pub open spec fn is_first_named(names: Seq<Seq<char>>, name: Seq<char>, k: int) -> bool {
    &&& 0 <= k < names.len()
    &&& names[k] == name
    &&& forall|j: int| 0 <= j < k ==> names[j] != name
}


impl<O: Send + Sync, I: Info> Plugin<O, I> {
    /// The metadata of the plugin.
    pub open(crate) spec fn spec_info(&self) -> PluginInfo<I> {
        self.info
    }

    /// What never changes of a registered plugin: its metadata and its
    /// dependencies.
    pub open(crate) spec fn identity(&self) -> (PluginInfo<I>, Vec<Depend>, Vec<Depend>) {
        (self.info, self.depends, self.optional_depends)
    }

    /// The request table of the plugin.
    pub open(crate) spec fn spec_requests(&self) -> Seq<FunctionBox<O>> {
        self.requests@
    }

    /// The functions that the plugin offers to other plugins.
    pub open(crate) spec fn spec_registry(&self) -> Seq<FunctionBox<O>> {
        self.registry@
    }

    /// The dependencies of the record are those that its metadata reports.
    pub open spec fn tied(&self) -> bool {
        &&& self@.depends == self.spec_info().info.spec_depends()
        &&& self@.optional_depends == self.spec_info().info.spec_optional_depends()
    }

    /// The record of a plugin that has just been registered: not loaded,
    /// without functions, with the dependencies that its metadata reports.
    pub(crate) fn new(info: PluginInfo<I>) -> (r: Self)
        ensures
            r.spec_info() == info,
            r@.bundle == info.bundle@,
            r.tied(),
            !r@.is_loaded,
            r.spec_requests().len() == 0,
            r.spec_registry().len() == 0,
    {
        let depends = crate::info::clone_depends(info.info.depends());
        let optional_depends = crate::info::clone_depends(info.info.optional_depends());
        Plugin {
            info,
            depends,
            optional_depends,
            is_load: false,
            requests: Vec::new(),
            registry: Vec::new(),
        }
    }

    /// The metadata of the plugin.
    pub fn info(&self) -> (r: &PluginInfo<I>)
        ensures
            *r == self.spec_info(),
    {
        &self.info
    }

    /// The required dependencies of the plugin.
    pub fn depends(&self) -> (r: &Vec<Depend>)
        ensures
            crate::info::depend_views(r@) == self@.depends,
    {
        &self.depends
    }

    /// The optional dependencies of the plugin.
    pub fn optional_depends(&self) -> (r: &Vec<Depend>)
        ensures
            crate::info::depend_views(r@) == self@.optional_depends,
    {
        &self.optional_depends
    }

    /// Whether the plugin is loaded.
    pub fn is_load(&self) -> (r: bool)
        ensures
            r == self@.is_loaded,
    {
        self.is_load
    }

    /// The functions by which the plugin answers the host's requests.
    pub fn get_requests(&self) -> (r: &Vec<FunctionBox<O>>)
        ensures
            r@ == self.spec_requests(),
    {
        &self.requests
    }

    /// The functions that the plugin offers to other plugins.
    pub fn get_registry(&self) -> (r: &Registry<O>)
        ensures
            r@ == self.spec_registry(),
    {
        &self.registry
    }

    /// Calls the plugin's function for the request `name`: the first one of
    /// that name in its request table.
    pub fn call_request(&self, name: &str, args: &[Variable]) -> (r: Result<
        O,
        PluginCallRequestError,
    >)
        ensures
            match r {
                Ok(out) => exists|k: int|
                    #[trigger] is_first_named(function_names(self.spec_requests()), name@, k)
                        && self.spec_requests()[k].may_return(args, out),
                Err(_) => !function_names(self.spec_requests()).contains(name@),
            },
    {
        let mut k: usize = 0;
        while k < self.requests.len()
            invariant
                k <= self.requests.len(),
                forall|j: int| 0 <= j < k ==> function_names(self.requests@)[j] != name@,
            decreases self.requests.len() - k,
        {
            let found = self.requests[k].name();
            if same_text(found.as_str(), name) {
                let out = self.requests[k].call(args);
                assert(is_first_named(function_names(self.spec_requests()), name@, k as int)
                    && self.spec_requests()[k as int].may_return(args, out));
                return Ok(out);
            }
            k = k + 1;
        }
        Err(PluginCallRequestError::NotFound)
    }

    /// Adds a function to those that the plugin offers to other plugins,
    /// unless one of that name is there already.
    pub fn register_function(&mut self, function: FunctionBox<O>) -> (r: Result<
        (),
        PluginRegisterFunctionError,
    >)
        ensures
            final(self)@ == old(self)@,
            final(self).spec_info() == old(self).spec_info(),
            final(self).spec_requests() == old(self).spec_requests(),
            match r {
                Ok(_) => {
                    &&& !function_names(old(self).spec_registry()).contains(function.spec_name())
                    &&& final(self).spec_registry() == old(self).spec_registry().push(function)
                    &&& function_names(final(self).spec_registry()) == function_names(
                        old(self).spec_registry(),
                    ).push(function.spec_name())
                },
                Err(PluginRegisterFunctionError::AlreadyExists(name)) => {
                    &&& name@ == function.spec_name()
                    &&& function_names(old(self).spec_registry()).contains(name@)
                    &&& final(self).spec_registry() == old(self).spec_registry()
                },
            },
    {
        let name = function.name();
        let mut k: usize = 0;
        while k < self.registry.len()
            invariant
                k <= self.registry.len(),
                *self == *old(self),
                name@ == function.spec_name(),
                forall|j: int| 0 <= j < k ==> function_names(self.registry@)[j] != name@,
            decreases self.registry.len() - k,
        {
            let found = self.registry[k].name();
            if found == name {
                assert(function_names(self.registry@)[k as int] == name@);
                return Err(PluginRegisterFunctionError::AlreadyExists(name));
            }
            k = k + 1;
        }
        self.registry.push(function);
        assert(function_names(self.registry@) =~= function_names(old(self).registry@).push(
            function.spec_name(),
        ));
        Ok(())
    }

    /// Calls the function `name` that the plugin offers to other plugins:
    /// the first one of that name in its registry.
    pub fn call_function(&self, name: &str, args: &[Variable]) -> (r: Result<
        O,
        PluginCallFunctionError,
    >)
        ensures
            match r {
                Ok(out) => exists|k: int|
                    #[trigger] is_first_named(function_names(self.spec_registry()), name@, k)
                        && self.spec_registry()[k].may_return(args, out),
                Err(_) => !function_names(self.spec_registry()).contains(name@),
            },
    {
        let mut k: usize = 0;
        while k < self.registry.len()
            invariant
                k <= self.registry.len(),
                forall|j: int| 0 <= j < k ==> function_names(self.registry@)[j] != name@,
            decreases self.registry.len() - k,
        {
            let found = self.registry[k].name();
            if same_text(found.as_str(), name) {
                let out = self.registry[k].call(args);
                assert(is_first_named(function_names(self.spec_registry()), name@, k as int)
                    && self.spec_registry()[k as int].may_return(args, out));
                return Ok(out);
            }
            k = k + 1;
        }
        Err(PluginCallFunctionError::NotFound)
    }

    /// Whether this is the plugin with the given id and version.
    pub fn is(&self, id: &str, version: &Version) -> (r: bool)
        ensures
            r == (self@.bundle.id == id@ && self@.bundle.version == version@),
    {
        self.info.bundle.is(id, version)
    }

    /// Whether the plugin has this id.
    pub fn has_id(&self, id: &str) -> (r: bool)
        ensures
            r == (self@.bundle.id == id@),
    {
        same_text(self.info.bundle.id.as_str(), id)
    }

    /// Whether this is the plugin that the bundle names: same id and same
    /// version.
    pub fn is_bundle(&self, bundle: &Bundle) -> (r: bool)
        ensures
            r == crate::bundle::same_plugin(self@.bundle, bundle@),
    {
        self.info.bundle.same_plugin(bundle)
    }

    /// Whether the dependency admits this plugin.
    pub fn satisfies(&self, depend: &Depend) -> (r: bool)
        ensures
            r == admits(depend@, self@.bundle),
    {
        depend.admits_bundle(&self.info.bundle)
    }

    /// Compares the versions of two plugins of the same id: -1, 0 or 1 for
    /// a lower, equal or higher version. Plugins of different ids are not
    /// ordered.
    pub fn compare(&self, other: &Plugin<O, I>) -> (r: Option<i8>)
        ensures
            r is Some == (self@.bundle.id == other@.bundle.id),
            r matches Some(sign) ==> sign == version_order(self@.bundle.version, other@.bundle.version),
    {
        self.info.bundle.compare(&other.info.bundle)
    }
}

/// The position of the first function called `name`.
pub fn find_function<O: Send + Sync>(functions: &Vec<FunctionBox<O>>, name: &str) -> (r: Option<usize>)
    ensures
        match r {
            Some(k) => is_first_named(function_names(functions@), name@, k as int),
            None => !function_names(functions@).contains(name@),
        },
{
    let mut k: usize = 0;
    while k < functions.len()
        invariant
            k <= functions.len(),
            forall|j: int| 0 <= j < k ==> function_names(functions@)[j] != name@,
        decreases functions.len() - k,
    {
        let found = functions[k].name();
        if same_text(found.as_str(), name) {
            return Some(k);
        }
        k = k + 1;
    }
    None
}

} // verus!
