//! The view of the engine that a manager is given while it loads a plugin.

use vstd::prelude::*;
use crate::bundle::{Bundle, BundleView};
use crate::facade::{
    call_request_on, lemma_position, plugins_with_id, pointed, position, request_called, with_id,
};
use crate::function::function::{function_names, FunctionBox};
use crate::function::request::Request;
use crate::info::Info;
use crate::loader::find_plugin;
use crate::plugin::{is_first_named, Plugin, Registry, Requests};
use crate::solver::plugin_views;
use crate::teardown::bundle_views;
use crate::utils::error::{
    CallFunctionDependError, PluginCallFunctionError, PluginCallRequestError,
};
use crate::variable::var::Variable;
use crate::version::{Version, VersionView};

verus! {

/// A read-only handle on the engine, valid for the duration of one load
/// hook: the plugins, the host's functions and requests, and the identity of
/// the plugin that is being loaded with the bundles that its dependencies
/// were resolved to.
///
/// The engine is borrowed while a hook runs, so the handle offers the
/// queries and calls of the engine and none of the operations that change
/// it.
#[verifier::reject_recursive_types(O)]
pub struct Api<'a, O: Send + Sync, I: Info> {
    pub(crate) plugins: &'a Vec<Plugin<O, I>>,
    pub(crate) registry: &'a Registry<O>,
    pub(crate) requests: &'a Requests,
    pub(crate) plugin: Bundle,
    pub(crate) depends: Vec<Bundle>,
    pub(crate) optional_depends: Vec<Bundle>,
}

/// The values of a list of bundles with their marks.
pub open spec fn marked_views(found: Seq<(Bundle, bool)>) -> Seq<(BundleView, bool)> {
    found.map_values(|e: (Bundle, bool)| (e.0@, e.1))
}

/// The bundles of those among the first `n` entries that carry the mark
/// `required`, in order.
pub open spec fn marked(found: Seq<(BundleView, bool)>, required: bool, n: int) -> Seq<BundleView>
    decreases n,
{
    if n <= 0 {
        Seq::empty()
    } else if found[n - 1].1 == required {
        marked(found, required, n - 1).push(found[n - 1].0)
    } else {
        marked(found, required, n - 1)
    }
}

/// One of the bundles has the given id and version.
pub open spec fn lists(bundles: Seq<BundleView>, id: Seq<char>, version: VersionView) -> bool {
    exists|k: int| 0 <= k < bundles.len() && (#[trigger] bundles[k]).id == id && bundles[k].version == version
}

/// A call of the function `name` that the plugin offers to other plugins
/// may return `out`: the first function of that name in its registry may.
pub open spec fn function_returns<O: Send + Sync, I: Info>(
    p: Plugin<O, I>,
    name: Seq<char>,
    args: &[Variable],
    out: O,
) -> bool {
    exists|k: int|
        #[trigger] is_first_named(function_names(p.spec_registry()), name, k)
            && p.spec_registry()[k].may_return(args, out)
}

/// Whether one of the bundles has the given id and version.
fn is_listed(bundles: &Vec<Bundle>, id: &str, version: &Version) -> (r: bool)
    ensures
        r == lists(bundle_views(bundles@), id@, version@),
{
    let mut k: usize = 0;
    while k < bundles.len()
        invariant
            k <= bundles.len(),
            forall|j: int|
                0 <= j < k ==> !((#[trigger] bundle_views(bundles@)[j]).id == id@ && bundle_views(
                    bundles@,
                )[j].version == version@),
        decreases bundles.len() - k,
    {
        if bundles[k].is(id, version) {
            assert(bundle_views(bundles@)[k as int].id == id@);
            return true;
        }
        k = k + 1;
    }
    false
}

impl<'a, O: Send + Sync, I: Info> Api<'a, O, I> {
    /// The handle for the load hook of the plugin `plugin`.
    ///
    /// `found` holds the bundles that the dependencies of the plugin were
    /// resolved to, in the order of the dependencies, each marked `true` for
    /// a required and `false` for an optional dependency. The handle lists
    /// the bundles marked `true` as the required and those marked `false` as
    /// the optional dependencies, in that order.
    pub fn new(
        plugins: &'a Vec<Plugin<O, I>>,
        registry: &'a Registry<O>,
        requests: &'a Requests,
        plugin: Bundle,
        found: &Vec<(Bundle, bool)>,
    ) -> (r: Self)
        ensures
            r.spec_plugins() == plugins@,
            r.spec_registry() == registry@,
            r.spec_requests() == requests@,
            r.spec_plugin() == plugin@,
            r.spec_depends() == marked(marked_views(found@), true, found@.len() as int),
            r.spec_optional_depends() == marked(marked_views(found@), false, found@.len() as int),
    {
        let ghost fs = marked_views(found@);
        let mut required: Vec<Bundle> = Vec::new();
        let mut optional: Vec<Bundle> = Vec::new();
        let mut d: usize = 0;
        while d < found.len()
            invariant
                d <= found.len(),
                fs == marked_views(found@),
                bundle_views(required@) == marked(fs, true, d as int),
                bundle_views(optional@) == marked(fs, false, d as int),
            decreases found.len() - d,
        {
            let ghost r0 = required@;
            let ghost o0 = optional@;
            assert(fs[d as int] == (found@[d as int].0@, found@[d as int].1));
            if found[d].1 {
                required.push(found[d].0.clone());
                assert(bundle_views(required@) =~= bundle_views(r0).push(fs[d as int].0));
            } else {
                optional.push(found[d].0.clone());
                assert(bundle_views(optional@) =~= bundle_views(o0).push(fs[d as int].0));
            }
            d = d + 1;
        }
        Api { plugins, registry, requests, plugin, depends: required, optional_depends: optional }
    }

    /// The plugins of the engine.
    pub open(crate) spec fn spec_plugins(&self) -> Seq<Plugin<O, I>> {
        self.plugins@
    }

    /// The functions that the host offers.
    pub open(crate) spec fn spec_registry(&self) -> Seq<FunctionBox<O>> {
        self.registry@
    }

    /// The requests that the host has declared.
    pub open(crate) spec fn spec_requests(&self) -> Seq<Request> {
        self.requests@
    }

    /// The bundle of the plugin that is being loaded.
    pub open(crate) spec fn spec_plugin(&self) -> BundleView {
        self.plugin@
    }

    /// The bundles that the required dependencies were resolved to.
    pub open(crate) spec fn spec_depends(&self) -> Seq<BundleView> {
        bundle_views(self.depends@)
    }

    /// The bundles that the optional dependencies were resolved to.
    pub open(crate) spec fn spec_optional_depends(&self) -> Seq<BundleView> {
        bundle_views(self.optional_depends@)
    }

    /// The functions that the host offers.
    pub fn registry(&self) -> (r: &Registry<O>)
        ensures
            r@ == self.spec_registry(),
    {
        self.registry
    }

    /// The bundle of the plugin that is being loaded.
    pub fn plugin(&self) -> (r: &Bundle)
        ensures
            r@ == self.spec_plugin(),
    {
        &self.plugin
    }

    /// The bundles that the required dependencies of the plugin were
    /// resolved to.
    pub fn depends(&self) -> (r: &Vec<Bundle>)
        ensures
            bundle_views(r@) == self.spec_depends(),
    {
        &self.depends
    }

    /// The bundles that the optional dependencies of the plugin were
    /// resolved to; a dependency without a match has none.
    pub fn optional_depends(&self) -> (r: &Vec<Bundle>)
        ensures
            bundle_views(r@) == self.spec_optional_depends(),
    {
        &self.optional_depends
    }

    /// The plugin with the given id and version.
    pub fn get_plugin(&self, id: &str, version: &Version) -> (r: Option<&Plugin<O, I>>)
        ensures
            match position(plugin_views(self.spec_plugins()), id@, version@) {
                None => r is None,
                Some(i) => r matches Some(p) && *p == self.spec_plugins()[i],
            },
    {
        let found = find_plugin(self.plugins, id, version);
        proof {
            lemma_position(
                plugin_views(self.spec_plugins()),
                id@,
                version@,
                match found {
                    Some(i) => Some(i as int),
                    None => None,
                },
            );
        }
        match found {
            None => None,
            Some(i) => Some(&self.plugins[i]),
        }
    }

    /// The plugin that the bundle names.
    pub fn get_plugin_by_bundle(&self, bundle: &Bundle) -> (r: Option<&Plugin<O, I>>)
        ensures
            match position(plugin_views(self.spec_plugins()), bundle@.id, bundle@.version) {
                None => r is None,
                Some(i) => r matches Some(p) && *p == self.spec_plugins()[i],
            },
    {
        self.get_plugin(bundle.id.as_str(), &bundle.version)
    }

    /// The plugins with the given id, whatever their version.
    pub fn get_plugins_by_id(&self, id: &str) -> (r: Vec<&Plugin<O, I>>)
        ensures
            pointed(r@) == with_id(self.spec_plugins(), id@),
    {
        plugins_with_id(self.plugins, id)
    }

    /// All plugins of the engine.
    pub fn get_plugins(&self) -> (r: &Vec<Plugin<O, I>>)
        ensures
            r@ == self.spec_plugins(),
    {
        self.plugins
    }

    /// The functions that the host offers.
    pub fn get_registry(&self) -> (r: &Registry<O>)
        ensures
            r@ == self.spec_registry(),
    {
        self.registry
    }

    /// The requests that the host has declared.
    pub fn get_requests(&self) -> (r: &Requests)
        ensures
            r@ == self.spec_requests(),
    {
        self.requests
    }

    /// Calls the request `name` on every plugin that has the highest
    /// version of its id.
    pub fn call_request(&self, name: &str, args: &[Variable]) -> (r: Result<
        Vec<O>,
        PluginCallRequestError,
    >)
        ensures
            request_called(self.spec_plugins(), name@, args, r),
    {
        call_request_on(self.plugins, name, args)
    }

    /// Calls the function `name` of a required dependency of the plugin
    /// that is being loaded.
    ///
    /// The dependency must be among the bundles that the required
    /// dependencies were resolved to, and registered; else the result is
    /// `DependNotFound`. A dependency without a function of that name gives
    /// `FailedCallFunction`.
    pub fn call_function_depend(
        &self,
        id: &str,
        version: &Version,
        name: &str,
        args: &[Variable],
    ) -> (r: Result<O, CallFunctionDependError>)
        ensures
            match position(plugin_views(self.spec_plugins()), id@, version@) {
                Some(i) if lists(self.spec_depends(), id@, version@) => match r {
                    Ok(out) => function_returns(self.spec_plugins()[i], name@, args, out),
                    Err(CallFunctionDependError::FailedCallFunction(_)) => !function_names(
                        self.spec_plugins()[i].spec_registry(),
                    ).contains(name@),
                    Err(CallFunctionDependError::DependNotFound) => false,
                },
                _ => r matches Err(CallFunctionDependError::DependNotFound),
            },
    {
        if !is_listed(&self.depends, id, version) {
            return Err(CallFunctionDependError::DependNotFound);
        }
        match self.get_plugin(id, version) {
            None => Err(CallFunctionDependError::DependNotFound),
            Some(plugin) => match plugin.call_function(name, args) {
                Ok(out) => Ok(out),
                Err(e) => Err(CallFunctionDependError::FailedCallFunction(e)),
            },
        }
    }

    /// Calls the function `name` of an optional dependency of the plugin
    /// that is being loaded, if the dependency is there.
    ///
    /// The result is `None` where the dependency is not among the bundles
    /// that the optional dependencies were resolved to, or not registered.
    pub fn call_function_optional_depend(
        &self,
        id: &str,
        version: &Version,
        name: &str,
        args: &[Variable],
    ) -> (r: Result<Option<O>, PluginCallFunctionError>)
        ensures
            match position(plugin_views(self.spec_plugins()), id@, version@) {
                Some(i) if lists(self.spec_optional_depends(), id@, version@) => match r {
                    Ok(Some(out)) => function_returns(self.spec_plugins()[i], name@, args, out),
                    Ok(None) => false,
                    Err(_) => !function_names(self.spec_plugins()[i].spec_registry()).contains(name@),
                },
                _ => r matches Ok(None),
            },
    {
        if !is_listed(&self.optional_depends, id, version) {
            return Ok(None);
        }
        match self.get_plugin(id, version) {
            None => Ok(None),
            Some(plugin) => match plugin.call_function(name, args) {
                Ok(out) => Ok(Some(out)),
                Err(e) => Err(e),
            },
        }
    }

    /// The plugin with the given id and version, searched for on several
    /// threads.
    pub fn par_get_plugin(&self, id: &str, version: &Version) -> (r: Option<&Plugin<O, I>>)
        ensures
            match position(plugin_views(self.spec_plugins()), id@, version@) {
                None => r is None,
                Some(i) => r matches Some(p) && *p == self.spec_plugins()[i],
            },
    {
        let found = crate::parallel::par_find_plugin(self.plugins, id, version);
        proof {
            lemma_position(
                plugin_views(self.spec_plugins()),
                id@,
                version@,
                match found {
                    Some(i) => Some(i as int),
                    None => None,
                },
            );
        }
        match found {
            None => None,
            Some(i) => Some(&self.plugins[i]),
        }
    }

    /// The plugin that the bundle names, searched for on several threads.
    pub fn par_get_plugin_by_bundle(&self, bundle: &Bundle) -> (r: Option<&Plugin<O, I>>)
        ensures
            match position(plugin_views(self.spec_plugins()), bundle@.id, bundle@.version) {
                None => r is None,
                Some(i) => r matches Some(p) && *p == self.spec_plugins()[i],
            },
    {
        self.par_get_plugin(bundle.id.as_str(), &bundle.version)
    }

    /// The plugins with the given id, gathered on several threads.
    pub fn par_get_plugins_by_id(&self, id: &str) -> (r: Vec<&Plugin<O, I>>)
        ensures
            pointed(r@) == with_id(self.spec_plugins(), id@),
    {
        crate::parallel::par_plugins_with_id(self.plugins, id)
    }

    /// Calls the request `name` as [`Api::call_request`] does, with the
    /// calls spread over several threads.
    pub fn par_call_request(&self, name: &str, args: &[Variable]) -> (r: Result<
        Vec<O>,
        PluginCallRequestError,
    >)
        ensures
            request_called(self.spec_plugins(), name@, args, r),
    {
        crate::facade::par_call_request_on(self.plugins, name, args)
    }
}

} // verus!
