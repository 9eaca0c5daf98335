//! The methods of the engine: each finds its plugin or manager by id and
//! version, by bundle or by format, and hands on to the operation by
//! position.

use vstd::prelude::*;
use crate::batch;
use crate::batch::{loaded_all, pruned_all, registered_all};
use crate::bundle::{same_plugin, Bundle, BundleView};
use crate::function::function::{function_names, FunctionBox};
use crate::function::request::Request;
use crate::info::{Info, PluginInfo};
use crate::load;
use crate::load::{load_frame, loading, none_busy};
use crate::loader;
use crate::loader::{
    find_manager, find_plugin, formats_of, is_plugin, manager_added, registered, registration,
    same_host, unloading, unregistering, Loader,
};
use crate::context::loader_context::LoaderContext;
use crate::manager::{Manager, ManagerBox, ManagerSlot};
use crate::path::PluginPath;
use crate::plugin::{is_first_named, Plugin, PluginView, Registry, Requests};
use crate::solver::{bundles_of, is_newest, is_newest_version, plugin_views};
use crate::teardown;
use crate::teardown::{bundle_views, find_bundle, of_other_formats, without};
use crate::utils::error::{
    LoadPluginError, PluginCallRequestError, RegisterManagerError, RegisterPluginError,
    StopLoaderError, UnloadPluginError, UnregisterManagerError, UnregisterPluginError,
};
use crate::variable::var::Variable;
use crate::version::{Version, VersionView};

verus! {

/// The position of the first plugin with the given id and version, if there
/// is one.
pub open spec fn position(ps: Seq<PluginView>, id: Seq<char>, version: VersionView) -> Option<int> {
    if exists|i: int| first_plugin(ps, id, version, i) {
        Some(choose|i: int| first_plugin(ps, id, version, i))
    } else {
        None
    }
}

/// Plugin `i` is the first one with the given id and version.
pub open spec fn first_plugin(ps: Seq<PluginView>, id: Seq<char>, version: VersionView, i: int) -> bool {
    &&& 0 <= i < ps.len()
    &&& is_plugin(ps[i], id, version)
    &&& forall|j: int| 0 <= j < i ==> !is_plugin(ps[j], id, version)
}

/// What the search for a plugin found is its position.
pub proof fn lemma_position(ps: Seq<PluginView>, id: Seq<char>, version: VersionView, found: Option<int>)
    requires
        match found {
            Some(i) => first_plugin(ps, id, version, i),
            None => forall|j: int| 0 <= j < ps.len() ==> !is_plugin(ps[j], id, version),
        },
    ensures
        position(ps, id, version) == found,
{
    match found {
        Some(i) => {
            let j = choose|j: int| first_plugin(ps, id, version, j);
            assert(j == i) by {
                if j < i {
                    assert(!is_plugin(ps[j], id, version));
                } else if i < j {
                    assert(!is_plugin(ps[i], id, version));
                }
            }
        },
        None => {},
    }
}

/// A call of the request `name` on the plugin may return `out`: the first
/// function of that name in its request table may.
pub open spec fn request_returns<O: Send + Sync, I: Info>(
    p: Plugin<O, I>,
    name: Seq<char>,
    args: &[Variable],
    out: O,
) -> bool {
    exists|k: int|
        #[trigger] is_first_named(function_names(p.spec_requests()), name, k)
            && p.spec_requests()[k].may_return(args, out)
}

/// The positions below `n` of the plugins that have the highest version of
/// their id, in order.
pub open spec fn newest(bs: Seq<BundleView>, n: int) -> Seq<int>
    decreases n,
{
    if n <= 0 {
        Seq::empty()
    } else if is_newest(bs, n - 1) {
        newest(bs, n - 1).push(n - 1)
    } else {
        newest(bs, n - 1)
    }
}

/// Every position in `newest(bs, n)` lies below `n` and is that of a
/// plugin with the highest version of its id.
pub proof fn lemma_newest(bs: Seq<BundleView>, n: int)
    requires
        0 <= n,
    ensures
        forall|k: int|
            0 <= k < newest(bs, n).len() ==> 0 <= #[trigger] newest(bs, n)[k] < n && is_newest(
                bs,
                newest(bs, n)[k],
            ),
    decreases n,
{
    if n > 0 {
        lemma_newest(bs, n - 1);
        let before = newest(bs, n - 1);
        assert forall|k: int| 0 <= k < newest(bs, n).len() implies 0 <= #[trigger] newest(bs, n)[k]
            < n && is_newest(bs, newest(bs, n)[k]) by {
            if k < before.len() {
                assert(newest(bs, n)[k] == before[k]);
            }
        }
    }
}

/// What a call of the request `name` on all plugins comes to: one result
/// from each plugin that has the highest version of its id, in the order of
/// the plugins, or a failure because one of these plugins has no function
/// of that name.
pub open spec fn request_called<O: Send + Sync, I: Info>(
    plugins: Seq<Plugin<O, I>>,
    name: Seq<char>,
    args: &[Variable],
    r: Result<Vec<O>, PluginCallRequestError>,
) -> bool {
    match r {
        Ok(outs) => {
            let order = newest(bundles_of(plugin_views(plugins)), plugins.len() as int);
            &&& outs@.len() == order.len()
            &&& forall|k: int|
                0 <= k < order.len() ==> request_returns(
                    plugins[order[k]],
                    name,
                    args,
                    #[trigger] outs@[k],
                )
        },
        Err(_) => exists|i: int|
            0 <= i < plugins.len() && is_newest(bundles_of(plugin_views(plugins)), i)
                && !function_names((#[trigger] plugins[i]).spec_requests()).contains(name),
    }
}

/// Calls the request `name` on each plugin that has the highest version of
/// its id, in the order of the list, and collects what the calls return.
/// The first such plugin without a function of that name ends the walk.
pub fn call_request_on<O: Send + Sync, I: Info>(
    plugins: &Vec<Plugin<O, I>>,
    name: &str,
    args: &[Variable],
) -> (r: Result<Vec<O>, PluginCallRequestError>)
    ensures
        request_called(plugins@, name@, args, r),
{
    let ghost bs = bundles_of(plugin_views(plugins@));
    let mut outs: Vec<O> = Vec::new();
    let mut i: usize = 0;
    while i < plugins.len()
        invariant
            i <= plugins.len(),
            bs == bundles_of(plugin_views(plugins@)),
            outs@.len() == newest(bs, i as int).len(),
            forall|k: int|
                0 <= k < newest(bs, i as int).len() ==> request_returns(
                    plugins@[newest(bs, i as int)[k]],
                    name@,
                    args,
                    #[trigger] outs@[k],
                ),
        decreases plugins.len() - i,
    {
        if is_newest_version(plugins, i) {
            let ghost before = outs@;
            match plugins[i].call_request(name, args) {
                Err(e) => {
                    return Err(e);
                },
                Ok(out) => {
                    outs.push(out);
                    proof {
                        let order = newest(bs, i + 1);
                        assert forall|k: int| 0 <= k < order.len() implies request_returns(
                            plugins@[order[k]],
                            name@,
                            args,
                            #[trigger] outs@[k],
                        ) by {
                            if k < before.len() {
                                assert(outs@[k] == before[k]);
                            }
                        }
                    }
                },
            }
        }
        i = i + 1;
    }
    Ok(outs)
}

/// The plugins with the given id, in order.
pub open spec fn with_id<O: Send + Sync, I: Info>(plugins: Seq<Plugin<O, I>>, id: Seq<char>) -> Seq<
    Plugin<O, I>,
> {
    plugins.filter(|p: Plugin<O, I>| p@.bundle.id == id)
}

/// The values behind a list of references.
pub open spec fn pointed<T>(refs: Seq<&T>) -> Seq<T> {
    refs.map_values(|r: &T| *r)
}

/// The plugins of the list with the given id, in order.
pub fn plugins_with_id<'a, O: Send + Sync, I: Info>(plugins: &'a Vec<Plugin<O, I>>, id: &str) -> (r:
    Vec<&'a Plugin<O, I>>)
    ensures
        pointed(r@) == with_id(plugins@, id@),
{
    let ghost pred = |p: Plugin<O, I>| p@.bundle.id == id@;
    let mut out: Vec<&'a Plugin<O, I>> = Vec::new();
    let mut i: usize = 0;
    assert(plugins@.take(0).filter(pred) =~= Seq::<Plugin<O, I>>::empty()) by {
        reveal_with_fuel(Seq::filter, 1);
        assert(plugins@.take(0) =~= Seq::<Plugin<O, I>>::empty());
    }
    while i < plugins.len()
        invariant
            i <= plugins.len(),
            pred == (|p: Plugin<O, I>| p@.bundle.id == id@),
            pointed(out@) == plugins@.take(i as int).filter(pred),
        decreases plugins.len() - i,
    {
        let ghost before = out@;
        proof {
            teardown::lemma_filter_push(plugins@.take(i as int), plugins@[i as int], pred);
            assert(plugins@.take(i + 1) =~= plugins@.take(i as int).push(plugins@[i as int]));
        }
        if crate::utils::text::same_text(plugins[i].info.bundle.id.as_str(), id) {
            out.push(&plugins[i]);
            assert(pointed(out@) =~= pointed(before).push(plugins@[i as int]));
        }
        i = i + 1;
    }
    assert(plugins@.take(plugins@.len() as int) =~= plugins@);
    out
}

/// The plugins that have the highest version of their id, in order.
pub fn newest_plugins<'a, O: Send + Sync, I: Info>(plugins: &'a Vec<Plugin<O, I>>) -> (r: Vec<
    &'a Plugin<O, I>,
>)
    ensures
        r@.len() == newest(bundles_of(plugin_views(plugins@)), plugins@.len() as int).len(),
        forall|k: int|
            0 <= k < r@.len() ==> *(#[trigger] r@[k]) == plugins@[newest(
                bundles_of(plugin_views(plugins@)),
                plugins@.len() as int,
            )[k]],
{
    let ghost bs = bundles_of(plugin_views(plugins@));
    let mut out: Vec<&'a Plugin<O, I>> = Vec::new();
    let mut i: usize = 0;
    while i < plugins.len()
        invariant
            i <= plugins.len(),
            bs == bundles_of(plugin_views(plugins@)),
            out@.len() == newest(bs, i as int).len(),
            forall|k: int| 0 <= k < out@.len() ==> *(#[trigger] out@[k]) == plugins@[newest(bs, i as int)[k]],
        decreases plugins.len() - i,
    {
        if is_newest_version(plugins, i) {
            let ghost before = out@;
            out.push(&plugins[i]);
            assert forall|k: int| 0 <= k < out@.len() implies *(#[trigger] out@[k]) == plugins@[newest(
                bs,
                i + 1,
            )[k]] by {
                if k < before.len() {
                    assert(out@[k] == before[k]);
                }
            }
        }
        i = i + 1;
    }
    out
}

/// Calls the request `name` on each plugin that has the highest version of
/// its id, on several threads, and collects what the calls return in the
/// order of the plugins.
pub fn par_call_request_on<O: Send + Sync, I: Info>(
    plugins: &Vec<Plugin<O, I>>,
    name: &str,
    args: &[Variable],
) -> (r: Result<Vec<O>, PluginCallRequestError>)
    ensures
        request_called(plugins@, name@, args, r),
{
    let eligible = newest_plugins(plugins);
    let r = crate::parallel::par_call_requests(&eligible, name, args);
    proof {
        let bs = bundles_of(plugin_views(plugins@));
        let order = newest(bs, plugins@.len() as int);
        lemma_newest(bs, plugins@.len() as int);
        if r is Ok {
            let outs = r->Ok_0;
            assert forall|k: int| 0 <= k < order.len() implies request_returns(
                plugins@[order[k]],
                name@,
                args,
                #[trigger] outs@[k],
            ) by {
                assert(*eligible@[k] == plugins@[order[k]]);
            }
        } else {
            {
                let k = choose|k: int|
                    0 <= k < eligible@.len() && !function_names(
                        (#[trigger] eligible@[k]).spec_requests(),
                    ).contains(name@);
                assert(*eligible@[k] == plugins@[order[k]]);
                let i = order[k];
                assert(is_newest(bs, i) && !function_names(plugins@[i].spec_requests()).contains(name@));
            }
        }
    }
    r
}

/// The formats that the managers of a list report, in order.
pub open spec fn reported<O: Send + Sync, I: Info>(managers: Seq<ManagerBox<O, I>>) -> Seq<Seq<char>> {
    managers.map_values(|m: ManagerBox<O, I>| m.manager.spec_format())
}

/// What adding managers that report the formats `wanted` comes to, one
/// after the other: the engine keeps what it had, and the formats of the
/// first `n` managers follow the formats that were there. After a success
/// these are all of them. After a failure the manager after them was
/// refused: under `AlreadyOccupiedFormat` because its format was taken by
/// then, else by its own `register_manager` hook.
pub open spec fn managers_added<O: Send + Sync, I: Info>(
    before: &Loader<O, I>,
    after: &Loader<O, I>,
    wanted: Seq<Seq<char>>,
    r: Result<(), RegisterManagerError>,
) -> bool {
    &&& after.wf()
    &&& after.spec_plugins() == before.spec_plugins()
    &&& after.spec_requests() == before.spec_requests()
    &&& after.spec_registry() == before.spec_registry()
    &&& exists|n: int|
        0 <= n <= wanted.len() && #[trigger] (before.formats() + wanted.take(n)) == after.formats()
            && match r {
            Ok(_) => n == wanted.len(),
            Err(RegisterManagerError::AlreadyOccupiedFormat(taken)) => n < wanted.len() && taken@
                == wanted[n] && after.formats().contains(wanted[n]),
            Err(RegisterManagerError::RegisterManagerByManager(_)) => n < wanted.len()
                && !after.formats().contains(wanted[n]),
        }
}

/// The position as a mathematical integer.
pub open spec fn as_position(found: Option<usize>) -> Option<int> {
    match found {
        Some(i) => Some(i as int),
        None => None,
    }
}

impl<O: Send + Sync, I: Info> Loader<O, I> {
    /// The position of the plugin with the given id and version.
    fn locate(&self, id: &str, version: &Version) -> (r: Option<usize>)
        ensures
            as_position(r) == position(self.views(), id@, version@),
            r matches Some(i) ==> i < self.spec_plugins().len(),
    {
        let found = find_plugin(&self.plugins, id, version);
        proof {
            lemma_position(self.views(), id@, version@, as_position(found));
        }
        found
    }

    /// The position of the plugin with the given id and version, searched
    /// for on several threads.
    fn par_locate(&self, id: &str, version: &Version) -> (r: Option<usize>)
        ensures
            as_position(r) == position(self.views(), id@, version@),
            r matches Some(i) ==> i < self.spec_plugins().len(),
    {
        let found = crate::parallel::par_find_plugin(&self.plugins, id, version);
        proof {
            lemma_position(self.views(), id@, version@, as_position(found));
        }
        found
    }

    /// Stops the engine: unloads every plugin, removes the record of every
    /// plugin that is not loaded any more, then removes every manager.
    ///
    /// A plugin that its manager could not unload stays as it was, and the
    /// managers stay with it. Otherwise no plugin and no manager is left,
    /// whatever the hooks report. Every hook is called whether or not an
    /// earlier one failed. The failures of the plugins' hooks come back as
    /// `UnregisterPluginFailed`: first one failure to unload for each plugin
    /// that is left, then the failures to unregister. Where there are none,
    /// those of the managers' hooks come back as `UnregisterManagerFailed`. An
    /// engine without plugins and managers is stopped with success.
    pub fn stop(&mut self) -> (r: Result<(), StopLoaderError>)
        requires
            old(self).wf(),
        ensures
            final(self).wf(),
            final(self).spec_requests() == old(self).spec_requests(),
            final(self).spec_registry() == old(self).spec_registry(),
            teardown::left_loaded(old(self).spec_plugins(), final(self).spec_plugins()),
            final(self).spec_plugins().len() == 0 ==> final(self).spec_managers().len() == 0,
            final(self).spec_plugins().len() > 0 ==> final(self).formats() == old(self).formats(),
            old(self).spec_plugins().len() == 0 && old(self).spec_managers().len() == 0 ==> r is Ok,
            match r {
                Ok(_) => final(self).spec_plugins().len() == 0,
                Err(StopLoaderError::UnregisterPluginFailed(errors)) => {
                    &&& errors@.len() > 0
                    &&& teardown::collected(errors@, final(self).spec_plugins().len() as int)
                },
                Err(StopLoaderError::UnregisterManagerFailed(errors)) => {
                    &&& errors@.len() > 0
                    &&& forall|k: int|
                        0 <= k < errors@.len() ==> #[trigger] errors@[k] is UnregisterManagerByManager
                    &&& final(self).spec_plugins().len() == 0
                },
            },
    {
        let first = teardown::stop_plugins(self);
        if self.plugins.len() > 0 {
            return first;
        }
        let ghost emptied = *self;
        let second = teardown::stop_managers(self);
        proof {
            assert(emptied.spec_managers().len() == emptied.formats().len());
            assert(old(self).spec_managers().len() == old(self).formats().len());
        }
        match first {
            Err(e) => Err(e),
            Ok(_) => second,
        }
    }

    /// Adds a manager, unless one of its format is registered already.
    pub fn register_manager<M>(&mut self, manager: M) -> (r: Result<(), RegisterManagerError>) where
        M: Manager<O, I> + 'static,

        requires
            old(self).wf(),
        ensures
            manager_added(old(self), final(self), manager.spec_format(), r),
    {
        let format = manager.format();
        let boxed: Box<dyn Manager<O, I>> = Box::new(manager);
        loader::register_manager_as(self, format, boxed)
    }

    /// Removes the manager of a format with every plugin of that format.
    ///
    /// The plugins of the format are unloaded, dependents first; the first
    /// that cannot be unloaded ends the operation, and the error tells why.
    /// Then their records are removed, then the manager. Where no plugin of
    /// the format is registered the manager is removed in any case.
    ///
    /// Where a loaded plugin of another format uses a loaded plugin of the
    /// format, the operation is refused and that plugin stays loaded. Where
    /// no loaded plugin of another format has a dependency that admits a
    /// loaded plugin of the format, and the plugins of the format are in
    /// order among themselves, no plugin refuses: only a manager's hook can
    /// then fail.
    pub fn unregister_manager(&mut self, format: &str) -> (r: Result<(), UnregisterManagerError>)
        requires
            old(self).wf(),
        ensures
            final(self).wf(),
            final(self).spec_requests() == old(self).spec_requests(),
            final(self).spec_registry() == old(self).spec_registry(),
            !old(self).formats().contains(format@) ==> (r matches Err(
                UnregisterManagerError::NotFound,
            ) && final(self).spec_plugins() == old(self).spec_plugins() && final(self).formats()
                == old(self).formats()),
            old(self).formats().contains(format@) ==> match r {
                Ok(_) => {
                    &&& !final(self).formats().contains(format@)
                    &&& final(self).spec_plugins() == of_other_formats(
                        old(self).spec_plugins(),
                        format@,
                    )
                },
                Err(UnregisterManagerError::UnregisterManagerByManager(_)) => {
                    &&& !final(self).formats().contains(format@)
                    &&& final(self).spec_plugins() == of_other_formats(
                        old(self).spec_plugins(),
                        format@,
                    )
                },
                Err(UnregisterManagerError::UnregisterPlugin(inner)) => {
                    &&& final(self).formats() == old(self).formats()
                    &&& of_other_formats(final(self).spec_plugins(), format@) == of_other_formats(
                        old(self).spec_plugins(),
                        format@,
                    )
                    &&& match inner {
                        UnregisterPluginError::UnloadError(u) => teardown::stuck(
                            old(self),
                            final(self),
                            format@,
                            u,
                        ),
                        UnregisterPluginError::UnregisterPluginByManager(_) => {
                            &&& teardown::unloaded_of(final(self).views(), format@)
                            &&& final(self).spec_plugins().len() < old(self).spec_plugins().len()
                        },
                        _ => false,
                    }
                },
                Err(UnregisterManagerError::NotFound) => false,
            },
            teardown::unloaded_of(old(self).views(), format@) ==> !(r matches Err(
                UnregisterManagerError::UnregisterPlugin(UnregisterPluginError::UnloadError(_)),
            )),
            teardown::none_of(old(self).bundles(), format@) ==> !(r matches Err(
                UnregisterManagerError::UnregisterPlugin(_),
            )),
            old(self).formats().contains(format@) && teardown::held(old(self).views(), format@)
                ==> r matches Err(
                UnregisterManagerError::UnregisterPlugin(UnregisterPluginError::UnloadError(_)),
            ),
            r matches Err(
                UnregisterManagerError::UnregisterPlugin(UnregisterPluginError::UnloadError(_)),
            ) ==> teardown::held_stay(old(self).views(), final(self).views(), format@),
            teardown::tidy(old(self).views(), format@) && !teardown::touched(
                old(self).views(),
                format@,
            ) ==> !(r matches Err(
                UnregisterManagerError::UnregisterPlugin(
                    UnregisterPluginError::UnloadError(UnloadPluginError::CurrentlyUsesDepend { .. }),
                ),
            )),
            teardown::tidy(old(self).views(), format@) ==> (r matches Err(
                UnregisterManagerError::UnregisterPlugin(
                    UnregisterPluginError::UnloadError(
                        UnloadPluginError::CurrentlyUsesDepend { plugin, depend },
                    ),
                ),
            ) ==> plugin@.format != format@ && depend@.format == format@),
    {
        match find_manager(&self.managers, format) {
            None => Err(UnregisterManagerError::NotFound),
            Some(index) => {
                let r = teardown::unregister_manager(self, index);
                proof {
                    let before = old(self).formats();
                    let after = before.remove(index as int);
                    if self.formats() == after {
                        assert forall|k: int| 0 <= k < after.len() implies after[k] != format@ by {
                            let k0 = if k < index {
                                k
                            } else {
                                k + 1
                            };
                            assert(after[k] == before[k0]);
                        }
                    }
                }
                r
            },
        }
    }

    /// The manager of a format.
    pub fn get_manager_ref(&self, format: &str) -> (r: Option<&ManagerSlot<O, I>>)
        ensures
            r is Some == self.formats().contains(format@),
            r matches Some(slot) ==> slot.spec_format() == format@ && exists|k: int|
                0 <= k < self.spec_managers().len() && #[trigger] self.spec_managers()[k] == *slot,
    {
        match find_manager(&self.managers, format) {
            None => None,
            Some(k) => {
                assert(self.formats()[k as int] == format@);
                assert(self.spec_managers()[k as int] == self.managers[k as int]);
                Some(&self.managers[k])
            },
        }
    }

    /// Registers the plugin at a path.
    pub fn register_plugin(&mut self, path: &PluginPath) -> (r: Result<Bundle, RegisterPluginError>)
        requires
            old(self).wf(),
        ensures
            same_host(old(self), final(self)),
            registration(old(self), final(self), *path, r),
    {
        loader::register_plugin(self, path)
    }

    /// Registers the plugins at the paths, in order, up to the first that
    /// cannot be registered.
    pub fn register_plugins(&mut self, paths: &Vec<PluginPath>) -> (r: Result<
        Vec<Bundle>,
        RegisterPluginError,
    >)
        requires
            old(self).wf(),
        ensures
            same_host(old(self), final(self)),
            registered_all(old(self), final(self), paths@, r),
    {
        batch::register_plugins(self, paths)
    }

    /// Unregisters the plugin with the given id and version.
    pub fn unregister_plugin(&mut self, id: &str, version: &Version) -> (r: Result<
        (),
        UnregisterPluginError,
    >)
        requires
            old(self).wf(),
        ensures
            same_host(old(self), final(self)),
            match position(old(self).views(), id@, version@) {
                None => r matches Err(UnregisterPluginError::NotFound) && final(self).spec_plugins()
                    == old(self).spec_plugins(),
                Some(i) => unregistering(old(self), final(self), i, r),
            },
    {
        match self.locate(id, version) {
            None => Err(UnregisterPluginError::NotFound),
            Some(i) => loader::unregister_plugin(self, i),
        }
    }

    /// Unregisters the plugin that the bundle names.
    pub fn unregister_plugin_by_bundle(&mut self, bundle: &Bundle) -> (r: Result<
        (),
        UnregisterPluginError,
    >)
        requires
            old(self).wf(),
        ensures
            same_host(old(self), final(self)),
            match position(old(self).views(), bundle@.id, bundle@.version) {
                None => r matches Err(UnregisterPluginError::NotFound) && final(self).spec_plugins()
                    == old(self).spec_plugins(),
                Some(i) => unregistering(old(self), final(self), i, r),
            },
    {
        self.unregister_plugin(bundle.id.as_str(), &bundle.version)
    }

    /// Unloads the plugin with the given id and version.
    pub fn unload_plugin(&mut self, id: &str, version: &Version) -> (r: Result<
        (),
        UnloadPluginError,
    >)
        requires
            old(self).wf(),
        ensures
            same_host(old(self), final(self)),
            match position(old(self).views(), id@, version@) {
                None => r matches Err(UnloadPluginError::NotFound) && final(self).spec_plugins()
                    == old(self).spec_plugins(),
                Some(i) => unloading(old(self), final(self), i, r),
            },
    {
        match self.locate(id, version) {
            None => Err(UnloadPluginError::NotFound),
            Some(i) => loader::unload_plugin(self, i),
        }
    }

    /// Unloads the plugin that the bundle names.
    pub fn unload_plugin_by_bundle(&mut self, bundle: &Bundle) -> (r: Result<
        (),
        UnloadPluginError,
    >)
        requires
            old(self).wf(),
        ensures
            same_host(old(self), final(self)),
            match position(old(self).views(), bundle@.id, bundle@.version) {
                None => r matches Err(UnloadPluginError::NotFound) && final(self).spec_plugins()
                    == old(self).spec_plugins(),
                Some(i) => unloading(old(self), final(self), i, r),
            },
    {
        self.unload_plugin(bundle.id.as_str(), &bundle.version)
    }

    /// Loads the plugin with the given id and version, with everything that
    /// it depends on.
    pub fn load_plugin(&mut self, id: &str, version: &Version) -> (r: Result<(), LoadPluginError>)
        requires
            old(self).wf(),
        ensures
            load_frame(old(self), final(self)),
            match position(old(self).views(), id@, version@) {
                None => r matches Err(LoadPluginError::NotFound) && final(self).spec_plugins()
                    == old(self).spec_plugins(),
                Some(i) => loading(
                    old(self),
                    final(self),
                    i,
                    none_busy(old(self).spec_plugins().len()).update(i, true),
                    r,
                ),
            },
    {
        proof {
            batch::lemma_frame_same(self);
        }
        match self.locate(id, version) {
            None => Err(LoadPluginError::NotFound),
            Some(i) => load::load_plugin(self, i),
        }
    }

    /// Loads the plugin that the bundle names, with everything that it
    /// depends on.
    pub fn load_plugin_by_bundle(&mut self, bundle: &Bundle) -> (r: Result<(), LoadPluginError>)
        requires
            old(self).wf(),
        ensures
            load_frame(old(self), final(self)),
            match position(old(self).views(), bundle@.id, bundle@.version) {
                None => r matches Err(LoadPluginError::NotFound) && final(self).spec_plugins()
                    == old(self).spec_plugins(),
                Some(i) => loading(
                    old(self),
                    final(self),
                    i,
                    none_busy(old(self).spec_plugins().len()).update(i, true),
                    r,
                ),
            },
    {
        self.load_plugin(bundle.id.as_str(), &bundle.version)
    }

    /// The plugin with the given id and version.
    pub fn get_plugin(&self, id: &str, version: &Version) -> (r: Option<&Plugin<O, I>>)
        ensures
            match position(self.views(), id@, version@) {
                None => r is None,
                Some(i) => r matches Some(p) && *p == self.spec_plugins()[i],
            },
    {
        match self.locate(id, version) {
            None => None,
            Some(i) => Some(&self.plugins[i]),
        }
    }

    /// The plugin that the bundle names.
    pub fn get_plugin_by_bundle(&self, bundle: &Bundle) -> (r: Option<&Plugin<O, I>>)
        ensures
            match position(self.views(), bundle@.id, bundle@.version) {
                None => r is None,
                Some(i) => r matches Some(p) && *p == self.spec_plugins()[i],
            },
    {
        self.get_plugin(bundle.id.as_str(), &bundle.version)
    }

    /// The plugins with the given id, whatever their version, in the order
    /// of their registration.
    pub fn get_plugins_by_id(&self, id: &str) -> (r: Vec<&Plugin<O, I>>)
        ensures
            pointed(r@) == with_id(self.spec_plugins(), id@),
    {
        plugins_with_id(&self.plugins, id)
    }

    /// All plugins, in the order of their registration.
    pub fn get_plugins(&self) -> (r: &Vec<Plugin<O, I>>)
        ensures
            r@ == self.spec_plugins(),
    {
        &self.plugins
    }

    /// The functions that the host offers to plugins.
    pub fn get_registry(&self) -> (r: &Registry<O>)
        ensures
            r@ == self.spec_registry(),
    {
        &self.registry
    }

    /// The requests that the host has declared.
    pub fn get_requests(&self) -> (r: &Requests)
        ensures
            r@ == self.spec_requests(),
    {
        &self.requests
    }

    /// Calls the request `name` on every plugin that has the highest
    /// version of its id and returns the results in the order of the
    /// plugins. A plugin among them without a function of that name makes
    /// the call fail.
    pub fn call_request(&self, name: &str, args: &[Variable]) -> (r: Result<
        Vec<O>,
        PluginCallRequestError,
    >)
        ensures
            request_called(self.spec_plugins(), name@, args, r),
    {
        call_request_on(&self.plugins, name, args)
    }

    /// Registers the plugin at a path and loads it.
    pub fn load_plugin_now(&mut self, path: &PluginPath) -> (r: Result<
        Bundle,
        (Option<RegisterPluginError>, Option<LoadPluginError>),
    >)
        requires
            old(self).wf(),
        ensures
            same_host(old(self), final(self)),
            r matches Ok(bundle) ==> exists|mid: Loader<O, I>|
                #[trigger] registration(old(self), &mid, *path, Ok(bundle)) && loading(
                    &mid,
                    final(self),
                    mid.spec_plugins().len() - 1,
                    none_busy(mid.spec_plugins().len()).update(mid.spec_plugins().len() - 1, true),
                    Ok(()),
                ) && load_frame(&mid, final(self)),
            r matches Err((Some(e), second)) ==> second is None && registration(
                old(self),
                final(self),
                *path,
                Err(e),
            ),
            r matches Err((None, second)) ==> (second matches Some(e) && exists|
                mid: Loader<O, I>,
                bundle: Bundle,
            |
                #[trigger] registration(old(self), &mid, *path, Ok(bundle)) && loading(
                    &mid,
                    final(self),
                    mid.spec_plugins().len() - 1,
                    none_busy(mid.spec_plugins().len()).update(mid.spec_plugins().len() - 1, true),
                    Err(e),
                ) && load_frame(&mid, final(self))),
    {
        let bundle = match loader::register_plugin(self, path) {
            Err(e) => {
                let failure: Result<Bundle, (Option<RegisterPluginError>, Option<LoadPluginError>)> =
                    Err((Some(e), None));
                assert(failure matches Err((Some(x), None)) && x == e);
                return failure;
            },
            Ok(bundle) => bundle,
        };
        let ghost mid = *self;
        let last = self.plugins.len() - 1;
        match load::load_plugin(self, last) {
            Err(e) => {
                let failure: Result<Bundle, (Option<RegisterPluginError>, Option<LoadPluginError>)> =
                    Err((None, Some(e)));
                assert(failure matches Err((None, Some(x))) && x == e);
                assert(registration(old(self), &mid, *path, Ok(bundle)) && load_frame(&mid, self));
                failure
            },
            Ok(_) => {
                assert(registration(old(self), &mid, *path, Ok(bundle)) && load_frame(&mid, self));
                let done: Result<Bundle, (Option<RegisterPluginError>, Option<LoadPluginError>)> = Ok(
                    bundle,
                );
                assert(done matches Ok(b) && b == bundle);
                done
            },
        }
    }

    /// Registers the plugins at the paths, then loads every plugin that no
    /// other plugin depends on.
    pub fn load_plugins(&mut self, paths: &Vec<PluginPath>) -> (r: Result<
        Vec<Bundle>,
        (Option<RegisterPluginError>, Option<LoadPluginError>),
    >)
        requires
            old(self).wf(),
        ensures
            same_host(old(self), final(self)),
            loaded_all(old(self), final(self), paths@, r),
    {
        batch::load_plugins(self, paths)
    }

    /// Unloads the plugin with the given id and version, which is searched
    /// for on several threads.
    pub fn par_unload_plugin(&mut self, id: &str, version: &Version) -> (r: Result<
        (),
        UnloadPluginError,
    >)
        requires
            old(self).wf(),
        ensures
            same_host(old(self), final(self)),
            match position(old(self).views(), id@, version@) {
                None => r matches Err(UnloadPluginError::NotFound) && final(self).spec_plugins()
                    == old(self).spec_plugins(),
                Some(i) => unloading(old(self), final(self), i, r),
            },
    {
        match self.par_locate(id, version) {
            None => Err(UnloadPluginError::NotFound),
            Some(i) => loader::unload_plugin(self, i),
        }
    }

    /// Unloads the plugin that the bundle names, which is searched for on
    /// several threads.
    pub fn par_unload_plugin_by_bundle(&mut self, bundle: &Bundle) -> (r: Result<
        (),
        UnloadPluginError,
    >)
        requires
            old(self).wf(),
        ensures
            same_host(old(self), final(self)),
            match position(old(self).views(), bundle@.id, bundle@.version) {
                None => r matches Err(UnloadPluginError::NotFound) && final(self).spec_plugins()
                    == old(self).spec_plugins(),
                Some(i) => unloading(old(self), final(self), i, r),
            },
    {
        self.par_unload_plugin(bundle.id.as_str(), &bundle.version)
    }

    /// Loads the plugin with the given id and version, which is searched for
    /// on several threads, with everything that it depends on.
    pub fn par_load_plugin(&mut self, id: &str, version: &Version) -> (r: Result<(), LoadPluginError>)
        requires
            old(self).wf(),
        ensures
            load_frame(old(self), final(self)),
            match position(old(self).views(), id@, version@) {
                None => r matches Err(LoadPluginError::NotFound) && final(self).spec_plugins()
                    == old(self).spec_plugins(),
                Some(i) => loading(
                    old(self),
                    final(self),
                    i,
                    none_busy(old(self).spec_plugins().len()).update(i, true),
                    r,
                ),
            },
    {
        proof {
            batch::lemma_frame_same(self);
        }
        match self.par_locate(id, version) {
            None => Err(LoadPluginError::NotFound),
            Some(i) => load::load_plugin(self, i),
        }
    }

    /// Loads the plugin that the bundle names, which is searched for on
    /// several threads, with everything that it depends on.
    pub fn par_load_plugin_by_bundle(&mut self, bundle: &Bundle) -> (r: Result<(), LoadPluginError>)
        requires
            old(self).wf(),
        ensures
            load_frame(old(self), final(self)),
            match position(old(self).views(), bundle@.id, bundle@.version) {
                None => r matches Err(LoadPluginError::NotFound) && final(self).spec_plugins()
                    == old(self).spec_plugins(),
                Some(i) => loading(
                    old(self),
                    final(self),
                    i,
                    none_busy(old(self).spec_plugins().len()).update(i, true),
                    r,
                ),
            },
    {
        self.par_load_plugin(bundle.id.as_str(), &bundle.version)
    }

    /// The plugin with the given id and version, searched for on several
    /// threads.
    pub fn par_get_plugin(&self, id: &str, version: &Version) -> (r: Option<&Plugin<O, I>>)
        ensures
            match position(self.views(), id@, version@) {
                None => r is None,
                Some(i) => r matches Some(p) && *p == self.spec_plugins()[i],
            },
    {
        match self.par_locate(id, version) {
            None => None,
            Some(i) => Some(&self.plugins[i]),
        }
    }

    /// The plugin that the bundle names, searched for on several threads.
    pub fn par_get_plugin_by_bundle(&self, bundle: &Bundle) -> (r: Option<&Plugin<O, I>>)
        ensures
            match position(self.views(), bundle@.id, bundle@.version) {
                None => r is None,
                Some(i) => r matches Some(p) && *p == self.spec_plugins()[i],
            },
    {
        self.par_get_plugin(bundle.id.as_str(), &bundle.version)
    }

    /// Unregisters the plugin that the bundle names, which is searched for
    /// on several threads.
    pub fn par_unregister_plugin_by_bundle(&mut self, bundle: &Bundle) -> (r: Result<
        (),
        UnregisterPluginError,
    >)
        requires
            old(self).wf(),
        ensures
            same_host(old(self), final(self)),
            match position(old(self).views(), bundle@.id, bundle@.version) {
                None => r matches Err(UnregisterPluginError::NotFound) && final(self).spec_plugins()
                    == old(self).spec_plugins(),
                Some(i) => unregistering(old(self), final(self), i, r),
            },
    {
        self.par_unregister_plugin(bundle.id.as_str(), &bundle.version)
    }

    /// Unregisters the plugin with the given id and version, which is
    /// searched for on several threads.
    fn par_unregister_plugin(&mut self, id: &str, version: &Version) -> (r: Result<
        (),
        UnregisterPluginError,
    >)
        requires
            old(self).wf(),
        ensures
            same_host(old(self), final(self)),
            match position(old(self).views(), id@, version@) {
                None => r matches Err(UnregisterPluginError::NotFound) && final(self).spec_plugins()
                    == old(self).spec_plugins(),
                Some(i) => unregistering(old(self), final(self), i, r),
            },
    {
        match self.par_locate(id, version) {
            None => Err(UnregisterPluginError::NotFound),
            Some(i) => loader::unregister_plugin(self, i),
        }
    }

    /// The manager of a format, searched for on several threads.
    pub fn par_get_manager_ref(&self, format: &str) -> (r: Option<&ManagerSlot<O, I>>)
        ensures
            r is Some == self.formats().contains(format@),
            r matches Some(slot) ==> slot.spec_format() == format@,
    {
        match crate::parallel::par_find_manager(&self.managers, format) {
            None => None,
            Some(k) => {
                assert(self.formats()[k as int] == format@);
                Some(&self.managers[k])
            },
        }
    }

    /// The plugins with the given id, gathered on several threads.
    pub fn par_get_plugins_by_id(&self, id: &str) -> (r: Vec<&Plugin<O, I>>)
        ensures
            pointed(r@) == with_id(self.spec_plugins(), id@),
    {
        crate::parallel::par_plugins_with_id(&self.plugins, id)
    }

    /// Calls the request `name` as [`Loader::call_request`] does, with the
    /// calls spread over several threads. The results stand in the order of
    /// the plugins all the same.
    pub fn par_call_request(&self, name: &str, args: &[Variable]) -> (r: Result<
        Vec<O>,
        PluginCallRequestError,
    >)
        ensures
            request_called(self.spec_plugins(), name@, args, r),
    {
        par_call_request_on(&self.plugins, name, args)
    }

    /// Registers the plugins at the paths as [`Loader::register_plugins`]
    /// does, with the bundles read on several threads.
    pub fn par_register_plugins(&mut self, paths: &Vec<PluginPath>) -> (r: Result<
        Vec<Bundle>,
        RegisterPluginError,
    >)
        requires
            old(self).wf(),
        ensures
            same_host(old(self), final(self)),
            registered_all(old(self), final(self), paths@, r),
    {
        batch::par_register_plugins(self, paths)
    }

    /// Registers and loads the plugins at the paths as
    /// [`Loader::load_plugins`] does, with the help of several threads.
    pub fn par_load_plugins(&mut self, paths: &Vec<PluginPath>) -> (r: Result<
        Vec<Bundle>,
        (Option<RegisterPluginError>, Option<LoadPluginError>),
    >)
        requires
            old(self).wf(),
        ensures
            same_host(old(self), final(self)),
            loaded_all(old(self), final(self), paths@, r),
    {
        batch::par_load_plugins(self, paths)
    }

    /// Registers the plugins at the paths, loads those in use and
    /// unregisters the superseded ones.
    pub fn load_only_used_plugins(&mut self, paths: &Vec<PluginPath>) -> (r: Result<
        Vec<Bundle>,
        (Option<RegisterPluginError>, Option<UnregisterPluginError>, Option<LoadPluginError>),
    >)
        requires
            old(self).wf(),
        ensures
            same_host(old(self), final(self)),
            pruned_all(old(self), final(self), paths@, r),
    {
        batch::load_only_used_plugins(self, paths)
    }

    /// Registers, loads and prunes as [`Loader::load_only_used_plugins`]
    /// does, with the bundles read on several threads.
    pub fn par_load_only_used_plugins(&mut self, paths: &Vec<PluginPath>) -> (r: Result<
        Vec<Bundle>,
        (Option<RegisterPluginError>, Option<UnregisterPluginError>, Option<LoadPluginError>),
    >)
        requires
            old(self).wf(),
        ensures
            same_host(old(self), final(self)),
            pruned_all(old(self), final(self), paths@, r),
    {
        batch::par_load_only_used_plugins(self, paths)
    }

    /// Adds the managers one after the other, up to the first that cannot
    /// be added. The formats of the managers that were added follow, in
    /// order, the formats that were there.
    pub fn register_managers(&mut self, managers: Vec<ManagerBox<O, I>>) -> (r: Result<
        (),
        RegisterManagerError,
    >)
        requires
            old(self).wf(),
        ensures
            managers_added(old(self), final(self), reported(managers@), r),
    {
        let ghost wanted = reported(managers@);
        let mut rest = managers;
        let count = rest.len();
        let ghost mut n: int = 0;
        assert(old(self).formats() + wanted.take(0) =~= old(self).formats());
        while rest.len() > 0
            invariant
                self.wf(),
                self.spec_plugins() == old(self).spec_plugins(),
                self.spec_requests() == old(self).spec_requests(),
                self.spec_registry() == old(self).spec_registry(),
                wanted == reported(managers@),
                count == managers@.len(),
                0 <= n <= count,
                n + rest@.len() == count,
                reported(rest@) == wanted.skip(n),
                self.formats() == old(self).formats() + wanted.take(n),
            decreases rest.len(),
        {
            let ghost before = self.formats();
            let ghost left = rest@;
            let next = rest.remove(0);
            let format = next.manager.format();
            proof {
                assert(next == left[0]);
                assert(reported(left)[0] == next.manager.spec_format());
                assert(wanted.skip(n)[0] == wanted[n]);
                assert(format@ == wanted[n]);
                assert(reported(rest@) =~= wanted.skip(n + 1)) by {
                    assert forall|k: int| 0 <= k < rest@.len() implies reported(rest@)[k]
                        == wanted.skip(n + 1)[k] by {
                        assert(rest@[k] == left[k + 1]);
                        assert(reported(left)[k + 1] == wanted.skip(n)[k + 1]);
                    }
                }
            }
            let done = loader::register_manager_as(self, format, next.manager);
            if let Err(e) = done {
                proof {
                    assert(self.formats() =~= before) by {
                        assert(self.formats() =~= formats_of(self.spec_managers()));
                    }
                }
                return Err(e);
            }
            proof {
                assert(wanted.take(n + 1) =~= wanted.take(n).push(wanted[n]));
                assert(self.formats() =~= old(self).formats() + wanted.take(n + 1));
                n = n + 1;
            }
        }
        proof {
            assert(n == wanted.len());
        }
        Ok(())
    }

    /// Adds the managers as [`Loader::register_managers`] does. The hooks of
    /// the managers change the engine, so they are called one after the
    /// other.
    pub fn par_register_managers(&mut self, managers: Vec<ManagerBox<O, I>>) -> (r: Result<
        (),
        RegisterManagerError,
    >)
        requires
            old(self).wf(),
        ensures
            managers_added(old(self), final(self), reported(managers@), r),
    {
        self.register_managers(managers)
    }

    /// The handle through which the host registers managers, requests and
    /// functions.
    pub fn context(&mut self) -> (r: LoaderContext<'_, O, I>)
        ensures
            *r.loader == *old(self),
            *final(r.loader) == *final(self),
    {
        LoaderContext { loader: self }
    }

    /// The plugin with the given id and version, for registering functions
    /// that it offers to other plugins.
    pub fn get_plugin_mut(&mut self, id: &str, version: &Version) -> (r: Option<&mut Plugin<O, I>>)
        ensures
            match position(old(self).views(), id@, version@) {
                None => r is None && *final(self) == *old(self),
                Some(i) => {
                    &&& r matches Some(p) && *p == old(self).spec_plugins()[i]
                        && final(self).spec_plugins() == old(self).spec_plugins().update(i, *final(p))
                    &&& final(self).spec_managers() == old(self).spec_managers()
                    &&& final(self).spec_requests() == old(self).spec_requests()
                    &&& final(self).spec_registry() == old(self).spec_registry()
                },
            },
    {
        match self.locate(id, version) {
            None => None,
            Some(i) => Some(&mut self.plugins[i]),
        }
    }

    /// The plugin that the bundle names, for registering functions that it
    /// offers to other plugins.
    pub fn get_plugin_mut_by_bundle(&mut self, bundle: &Bundle) -> (r: Option<&mut Plugin<O, I>>)
        ensures
            match position(old(self).views(), bundle@.id, bundle@.version) {
                None => r is None && *final(self) == *old(self),
                Some(i) => {
                    &&& r matches Some(p) && *p == old(self).spec_plugins()[i]
                        && final(self).spec_plugins() == old(self).spec_plugins().update(i, *final(p))
                    &&& final(self).spec_managers() == old(self).spec_managers()
                    &&& final(self).spec_requests() == old(self).spec_requests()
                    &&& final(self).spec_registry() == old(self).spec_registry()
                },
            },
    {
        match self.locate(bundle.id.as_str(), &bundle.version) {
            None => None,
            Some(i) => Some(&mut self.plugins[i]),
        }
    }

    /// The plugin with the given id and version, searched for on several
    /// threads, for registering functions that it offers to other plugins.
    pub fn par_get_plugin_mut(&mut self, id: &str, version: &Version) -> (r: Option<
        &mut Plugin<O, I>,
    >)
        ensures
            match position(old(self).views(), id@, version@) {
                None => r is None && *final(self) == *old(self),
                Some(i) => {
                    &&& r matches Some(p) && *p == old(self).spec_plugins()[i]
                        && final(self).spec_plugins() == old(self).spec_plugins().update(i, *final(p))
                    &&& final(self).spec_managers() == old(self).spec_managers()
                    &&& final(self).spec_requests() == old(self).spec_requests()
                    &&& final(self).spec_registry() == old(self).spec_registry()
                },
            },
    {
        match self.par_locate(id, version) {
            None => None,
            Some(i) => Some(&mut self.plugins[i]),
        }
    }

    /// The plugin that the bundle names, searched for on several threads,
    /// for registering functions that it offers to other plugins.
    pub fn par_get_plugin_mut_by_bundle(&mut self, bundle: &Bundle) -> (r: Option<
        &mut Plugin<O, I>,
    >)
        ensures
            match position(old(self).views(), bundle@.id, bundle@.version) {
                None => r is None && *final(self) == *old(self),
                Some(i) => {
                    &&& r matches Some(p) && *p == old(self).spec_plugins()[i]
                        && final(self).spec_plugins() == old(self).spec_plugins().update(i, *final(p))
                    &&& final(self).spec_managers() == old(self).spec_managers()
                    &&& final(self).spec_requests() == old(self).spec_requests()
                    &&& final(self).spec_registry() == old(self).spec_registry()
                },
            },
    {
        match self.par_locate(bundle.id.as_str(), &bundle.version) {
            None => None,
            Some(i) => Some(&mut self.plugins[i]),
        }
    }

    /// The slot of the manager of a format, for calls on the manager.
    pub fn get_manager_mut(&mut self, format: &str) -> (r: Option<&mut ManagerSlot<O, I>>)
        ensures
            r is Some == old(self).formats().contains(format@),
            r is None ==> *final(self) == *old(self),
            r matches Some(slot) ==> slot.spec_format() == format@ && exists|k: int|
                0 <= k < old(self).spec_managers().len() && #[trigger] old(self).spec_managers()[k]
                    == *slot && final(self).spec_managers() == old(self).spec_managers().update(
                    k,
                    *final(slot),
                ),
            final(self).spec_plugins() == old(self).spec_plugins(),
            final(self).spec_requests() == old(self).spec_requests(),
            final(self).spec_registry() == old(self).spec_registry(),
    {
        match find_manager(&self.managers, format) {
            None => None,
            Some(k) => {
                assert(self.formats()[k as int] == format@);
                Some(&mut self.managers[k])
            },
        }
    }

    /// The slot of the manager of a format, searched for on several
    /// threads, for calls on the manager.
    pub fn par_get_manager_mut(&mut self, format: &str) -> (r: Option<&mut ManagerSlot<O, I>>)
        ensures
            r is Some == old(self).formats().contains(format@),
            r is None ==> *final(self) == *old(self),
            r matches Some(slot) ==> slot.spec_format() == format@ && exists|k: int|
                0 <= k < old(self).spec_managers().len() && #[trigger] old(self).spec_managers()[k]
                    == *slot && final(self).spec_managers() == old(self).spec_managers().update(
                    k,
                    *final(slot),
                ),
            final(self).spec_plugins() == old(self).spec_plugins(),
            final(self).spec_requests() == old(self).spec_requests(),
            final(self).spec_registry() == old(self).spec_registry(),
    {
        match crate::parallel::par_find_manager(&self.managers, format) {
            None => None,
            Some(k) => {
                assert(self.formats()[k as int] == format@);
                Some(&mut self.managers[k])
            },
        }
    }

    /// Adds a manager without looking for one of the same format; see
    /// [`loader::forced_register_manager`].
    pub fn forced_register_manager(&mut self, manager: ManagerBox<O, I>) -> (r: Result<
        (),
        RegisterManagerError,
    >)
        requires
            old(self).wf(),
        ensures
            final(self).spec_plugins() == old(self).spec_plugins(),
            final(self).spec_requests() == old(self).spec_requests(),
            final(self).spec_registry() == old(self).spec_registry(),
            match r {
                Ok(_) => {
                    &&& final(self).formats() == old(self).formats().push(
                        manager.manager.spec_format(),
                    )
                    &&& final(self).wf() == !old(self).formats().contains(
                        manager.manager.spec_format(),
                    )
                },
                Err(e) => e is RegisterManagerByManager && final(self).wf()
                    && final(self).spec_managers() == old(self).spec_managers(),
            },
    {
        loader::forced_register_manager(self, manager)
    }

    /// Removes the manager at `index`, which no plugin is bound to any
    /// more; see [`loader::forced_unregister_manager`].
    pub fn forced_unregister_manager(&mut self, index: usize) -> (r: Result<
        (),
        UnregisterManagerError,
    >)
        requires
            old(self).wf(),
            index < old(self).spec_managers().len(),
            forall|i: int|
                0 <= i < old(self).bundles().len() ==> (#[trigger] old(self).bundles()[i]).format
                    != old(self).formats()[index as int],
        ensures
            final(self).wf(),
            final(self).spec_plugins() == old(self).spec_plugins(),
            final(self).spec_requests() == old(self).spec_requests(),
            final(self).spec_registry() == old(self).spec_registry(),
            final(self).formats() == old(self).formats().remove(index as int),
            r matches Err(e) ==> e is UnregisterManagerByManager,
    {
        loader::forced_unregister_manager(self, index)
    }

    /// Appends the record of a plugin without any check; see
    /// [`loader::forced_register_plugin`].
    pub fn forced_register_plugin(&mut self, plugin_info: PluginInfo<I>) -> (r: Result<
        Bundle,
        RegisterPluginError,
    >)
        requires
            old(self).wf(),
            !registered(old(self).bundles(), plugin_info.bundle@),
            old(self).formats().contains(plugin_info.bundle@.format),
        ensures
            final(self).wf(),
            final(self).spec_managers() == old(self).spec_managers(),
            final(self).spec_requests() == old(self).spec_requests(),
            final(self).spec_registry() == old(self).spec_registry(),
            r matches Ok(b) && b@ == plugin_info.bundle@,
            final(self).spec_plugins().len() == old(self).spec_plugins().len() + 1,
            final(self).spec_plugins().drop_last() == old(self).spec_plugins(),
            final(self).spec_plugins().last().spec_info() == plugin_info,
            final(self).spec_plugins().last().tied(),
            !final(self).spec_plugins().last()@.is_loaded,
            final(self).spec_plugins().last().spec_requests().len() == 0,
            final(self).spec_plugins().last().spec_registry().len() == 0,
    {
        loader::forced_register_plugin(self, plugin_info)
    }

    /// Removes the record of the plugin at `index`, which is not loaded;
    /// see [`loader::forced_unregister_plugin`].
    pub fn forced_unregister_plugin(&mut self, index: usize) -> (r: Result<
        (),
        UnregisterPluginError,
    >)
        requires
            old(self).wf(),
            index < old(self).spec_plugins().len(),
            !old(self).views()[index as int].is_loaded,
        ensures
            same_host(old(self), final(self)),
            final(self).spec_plugins() == old(self).spec_plugins().remove(index as int),
            r matches Err(e) ==> e is UnregisterPluginByManager,
    {
        loader::forced_unregister_plugin(self, index)
    }

    /// Unloads the plugin at `index` without asking whether a loaded plugin
    /// uses it; see [`loader::forced_unload_plugin`].
    pub fn forced_unload_plugin(&mut self, index: usize) -> (r: Result<(), UnloadPluginError>)
        requires
            old(self).wf(),
            index < old(self).spec_plugins().len(),
        ensures
            final(self).wf(),
            final(self).formats() == old(self).formats(),
            final(self).spec_requests() == old(self).spec_requests(),
            final(self).spec_registry() == old(self).spec_registry(),
            !old(self).views()[index as int].is_loaded ==> r is Ok,
            match r {
                Ok(_) => final(self).spec_plugins() == old(self).spec_plugins().update(
                    index as int,
                    loader::with_loaded(old(self).spec_plugins()[index as int], false),
                ),
                Err(e) => e is UnloadPluginByManager && final(self).spec_plugins() == old(
                    self,
                ).spec_plugins(),
            },
    {
        loader::forced_unload_plugin(self, index)
    }

    /// Calls the load hook for the plugin at `index` and marks the plugin
    /// as loaded, without resolving dependencies and without checking
    /// requests; see [`load::forced_load_plugin`].
    pub fn forced_load_plugin(&mut self, index: usize, depends: Vec<(Bundle, bool)>) -> (r: Result<
        (),
        LoadPluginError,
    >)
        requires
            old(self).wf(),
            index < old(self).spec_plugins().len(),
        ensures
            final(self).wf(),
            final(self).formats() == old(self).formats(),
            final(self).spec_requests() == old(self).spec_requests(),
            final(self).spec_registry() == old(self).spec_registry(),
            final(self).spec_plugins().len() == old(self).spec_plugins().len(),
            forall|i: int|
                0 <= i < old(self).spec_plugins().len() && i != index
                    ==> #[trigger] final(self).spec_plugins()[i] == old(self).spec_plugins()[i],
            final(self).spec_plugins()[index as int].identity() == old(self).spec_plugins()[index as int].identity(),
            match r {
                Ok(_) => final(self).spec_plugins()[index as int]@.is_loaded,
                Err(e) => e is LoadPluginByManager && final(self).spec_plugins()[index as int]@.is_loaded
                    == old(self).spec_plugins()[index as int]@.is_loaded,
            },
    {
        load::forced_load_plugin(self, index, depends)
    }
}

} // verus!
