//! What holds of every engine whatever happens to it, and how the
//! operations relate to each other.

use vstd::prelude::*;
use crate::bundle::{same_plugin, Bundle};
use crate::context::load_plugin_context::{answers, requests_answered};
use crate::facade::{first_plugin, position};
use crate::info::{admits, Info};
use crate::load::{
    complete, first_match_of, load_frame, loading, met, newly_loaded, none_busy, only_asked,
    provided, resolved_loaded,
};
use crate::loader::{
    admission, registered, registration, same_host, unloading, unregistering, Admission, Loader,
};
use crate::path::PluginPath;
use crate::plugin::PluginView;
use crate::solver::{all_depends, bundles_of, dependencies_loaded, first_resolving, resolves};
use crate::utils::error::{LoadPluginError, UnloadPluginError};

verus! {

/// In an engine whose loaded plugins have their dependencies loaded, every
/// required dependency of a loaded plugin is met by a loaded plugin: one
/// with the id that the dependency names and a version that it admits.
///
/// A new engine is such an engine, and registering, loading, unloading and
/// unregistering a plugin, and removing a manager, keep it one. The plugin
/// of highest version that the dependency admits is the one that loading
/// brings in; a higher version that is registered later is used from the
/// next load on.
pub proof fn law_dependencies_of_loaded<O: Send + Sync, I: Info>(loader: &Loader<O, I>, p: int, k: int)
    requires
        dependencies_loaded(loader.views()),
        0 <= p < loader.views().len(),
        loader.views()[p].is_loaded,
        0 <= k < loader.views()[p].depends.len(),
    ensures
        exists|q: int|
            0 <= q < loader.views().len() && (#[trigger] loader.views()[q]).is_loaded && admits(
                loader.views()[p].depends[k],
                loader.views()[q].bundle,
            ),
{
    assert(crate::solver::satisfied(loader.views(), loader.views()[p].depends[k]));
}

/// A successful load brings in the best match of every dependency: each
/// plugin that it has loaded has, for each of its dependencies, required or
/// optional, the first of the plugins of highest version that the
/// dependency admits loaded too.
pub proof fn law_best_match_at_load(
    before: Seq<PluginView>,
    after: Seq<PluginView>,
    index: int,
    p: int,
    k: int,
    j: int,
)
    requires
        0 <= index < after.len(),
        after[index].is_loaded,
        complete(before, after, none_busy(after.len()).update(index, true)),
        newly_loaded(before, after, p),
        0 <= k < all_depends(after[p]).len(),
        first_resolving(bundles_of(after), all_depends(after[p])[k], j),
    ensures
        after[j].is_loaded,
        resolves(bundles_of(after), all_depends(after[p])[k], j),
{
    assert(resolved_loaded(
        after,
        all_depends(after[p]),
        none_busy(after.len()).update(index, true),
        all_depends(after[p]).len() as int,
    ));
}

/// After a successful load of the plugin at `index`, every plugin that it
/// has loaded has, for each of its required dependencies, the best match
/// loaded: a loaded plugin with the id that the dependency names and a
/// version that it admits, such that no registered plugin of that id has a
/// higher version that it admits too.
pub proof fn law_required_best_match_at_load(
    before: Seq<PluginView>,
    after: Seq<PluginView>,
    index: int,
    p: int,
    k: int,
)
    requires
        0 <= index < after.len(),
        after[index].is_loaded,
        complete(before, after, none_busy(after.len()).update(index, true)),
        provided(before, after),
        newly_loaded(before, after, p),
        0 <= k < after[p].depends.len(),
    ensures
        exists|j: int|
            #[trigger] resolves(bundles_of(after), after[p].depends[k], j) && after[j].is_loaded,
{
    let d = after[p].depends[k];
    assert(met(bundles_of(after), d));
    let j = choose|j: int| #[trigger] first_resolving(bundles_of(after), d, j);
    assert(all_depends(after[p])[k] == d);
    law_best_match_at_load(before, after, index, p, k, j);
}

/// A successful load of the plugin at `index` leaves every plugin unloaded
/// that was unloaded, is not that plugin, and is the first match of no
/// dependency: a lower version that a higher one supersedes stays as it is.
pub proof fn law_load_leaves_the_rest(
    before: Seq<PluginView>,
    after: Seq<PluginView>,
    index: int,
    j: int,
)
    requires
        only_asked(before, after, index),
        0 <= j < after.len(),
        j != index,
        !before[j].is_loaded,
        forall|p: int| !first_match_of(after, p, j),
    ensures
        !after[j].is_loaded,
{
    if after[j].is_loaded {
        assert(newly_loaded(before, after, j));
    }
}

/// No two plugins of a well-formed engine have the same id and version.
pub proof fn law_unique_plugins<O: Send + Sync, I: Info>(loader: &Loader<O, I>, i: int, j: int)
    requires
        loader.wf(),
        0 <= i < loader.bundles().len(),
        0 <= j < loader.bundles().len(),
        same_plugin(loader.bundles()[i], loader.bundles()[j]),
    ensures
        i == j,
{
}

/// No two managers of a well-formed engine have the same format.
pub proof fn law_unique_formats<O: Send + Sync, I: Info>(loader: &Loader<O, I>, i: int, j: int)
    requires
        loader.wf(),
        0 <= i < loader.formats().len(),
        0 <= j < loader.formats().len(),
        loader.formats()[i] == loader.formats()[j],
    ensures
        i == j,
{
}

/// In an engine whose loaded plugins answer the host's requests, every
/// loaded plugin has, for every request, a function of the request's name
/// whose signature fits the request.
///
/// Loading establishes this of the plugin that it loads, and every
/// operation on plugins and managers keeps it. Declaring a further request
/// while plugins are loaded does not.
pub proof fn law_requests_of_loaded<O: Send + Sync, I: Info>(loader: &Loader<O, I>, p: int, q: int)
    requires
        requests_answered(loader.spec_plugins(), loader.spec_requests()),
        0 <= p < loader.spec_plugins().len(),
        loader.spec_plugins()[p]@.is_loaded,
        0 <= q < loader.spec_requests().len(),
    ensures
        exists|k: int|
            0 <= k < loader.spec_plugins()[p].spec_requests().len() && answers(
                #[trigger] loader.spec_plugins()[p].spec_requests()[k],
                loader.spec_requests()[q],
            ),
{
    assert(crate::context::load_plugin_context::covered(
        loader.spec_plugins()[p].spec_requests(),
        loader.spec_requests(),
    ));
    assert(crate::context::load_plugin_context::answered(
        loader.spec_plugins()[p].spec_requests(),
        loader.spec_requests()[q],
    ));
}

/// Loading a plugin that is loaded already succeeds and changes nothing.
pub proof fn law_load_idempotent<O: Send + Sync, I: Info>(
    before: &Loader<O, I>,
    after: &Loader<O, I>,
    index: int,
    busy: Seq<bool>,
    r: Result<(), LoadPluginError>,
)
    requires
        0 <= index < before.views().len(),
        before.views()[index].is_loaded,
        load_frame(before, after),
        loading(before, after, index, busy, r),
    ensures
        r is Ok,
        after.spec_plugins() == before.spec_plugins(),
        after.formats() == before.formats(),
        after.spec_requests() == before.spec_requests(),
        after.spec_registry() == before.spec_registry(),
{
}

/// Unloading a plugin that is not loaded succeeds and changes nothing.
pub proof fn law_unload_idempotent<O: Send + Sync, I: Info>(
    before: &Loader<O, I>,
    after: &Loader<O, I>,
    index: int,
    r: Result<(), UnloadPluginError>,
)
    requires
        0 <= index < before.views().len(),
        !before.views()[index].is_loaded,
        same_host(before, after),
        unloading(before, after, index, r),
    ensures
        r is Ok,
        after.spec_plugins() == before.spec_plugins(),
        after.formats() == before.formats(),
        after.spec_requests() == before.spec_requests(),
        after.spec_registry() == before.spec_registry(),
{
}

/// Registering a plugin and unregistering it again leaves the engine with
/// the plugins, managers, requests and functions that it had.
///
/// `middle` is the engine after the plugin at `path` was registered as
/// `bundle`, `after` the engine after the plugin named by `bundle` was
/// unregistered, which is the plugin at `index`.
pub proof fn law_register_unregister<O: Send + Sync, I: Info>(
    before: &Loader<O, I>,
    middle: &Loader<O, I>,
    after: &Loader<O, I>,
    path: PluginPath,
    bundle: Bundle,
    index: int,
)
    requires
        before.wf(),
        same_host(before, middle),
        registration(before, middle, path, Ok(bundle)),
        position(middle.views(), bundle@.id, bundle@.version) == Some(index),
        same_host(middle, after),
        unregistering(middle, after, index, Ok(())),
    ensures
        index == before.spec_plugins().len(),
        after.spec_plugins() == before.spec_plugins(),
        after.formats() == before.formats(),
        after.spec_requests() == before.spec_requests(),
        after.spec_registry() == before.spec_registry(),
{
    let added = middle.spec_plugins();
    let last = before.spec_plugins().len() as int;
    assert(admission(before.bundles(), before.formats(), path) is Admitted);
    let b = bundle@;
    assert(!registered(before.bundles(), b));
    assert(added.drop_last() == before.spec_plugins());
    assert(first_plugin(middle.views(), b.id, b.version, index));
    if index < last {
        assert(added[index] == added.drop_last()[index]);
        assert(before.bundles()[index] == middle.views()[index].bundle);
        assert(same_plugin(before.bundles()[index], b));
        assert(false);
    }
    assert(added.remove(last) =~= added.drop_last());
}

} // verus!
