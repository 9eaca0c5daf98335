//! Loading: the dependencies of a plugin are resolved and loaded first, then
//! its manager sets the plugin up, then the engine checks that the plugin
//! answers every request of the host.

use vstd::prelude::*;
use crate::api::{marked_views, Api};
use crate::bundle::{Bundle, BundleView};
use crate::context::load_plugin_context::{
    answered, answers, covered, function_answers, requests_answered, LoadPluginContext,
};
use crate::function::function::FunctionBox;
use crate::function::request::Request;
use crate::info::{admits, depend_views, Depend, DependView, Info};
use crate::loader::{find_manager, flagged, with_loaded, Loader};
use crate::plugin::{Plugin, PluginView, Requests};
use crate::solver::{
    all_depends, bundles_of, dependencies_loaded, depends_of, find_match, first_resolving,
    plugin_views, resolves, satisfied, unresolved,
};
use crate::utils::error::{LoadPluginError, ManagerResult};

verus! {

/// The names of those among the first `n` requests that the table does not
/// answer, in order.
pub open spec fn unanswered<O: Send + Sync>(
    table: Seq<FunctionBox<O>>,
    requests: Seq<Request>,
    n: int,
) -> Seq<Seq<char>>
    decreases n,
{
    if n <= 0 {
        Seq::empty()
    } else if answered(table, requests[n - 1]) {
        unanswered(table, requests, n - 1)
    } else {
        unanswered(table, requests, n - 1).push(requests[n - 1].name@)
    }
}

/// The texts of a list of strings.
pub open spec fn texts(names: Seq<String>) -> Seq<Seq<char>> {
    names.map_values(|s: String| s@)
}

proof fn lemma_unanswered_empty<O: Send + Sync>(
    table: Seq<FunctionBox<O>>,
    requests: Seq<Request>,
    n: int,
)
    requires
        0 <= n <= requests.len(),
        unanswered(table, requests, n).len() == 0,
    ensures
        forall|q: int| 0 <= q < n ==> answered(table, #[trigger] requests[q]),
    decreases n,
{
    if n > 0 {
        if answered(table, requests[n - 1]) {
            lemma_unanswered_empty(table, requests, n - 1);
        }
    }
}

/// Whether some function of the table may answer the request.
fn is_answered<O: Send + Sync>(table: &Vec<FunctionBox<O>>, request: &Request) -> (r: bool)
    ensures
        r == answered(table@, *request),
{
    let mut k: usize = 0;
    while k < table.len()
        invariant
            k <= table.len(),
            forall|j: int| 0 <= j < k ==> !answers(#[trigger] table@[j], *request),
        decreases table.len() - k,
    {
        if function_answers(&table[k], request) {
            return true;
        }
        k = k + 1;
    }
    false
}

/// The names of the requests that the plugin at `index` does not answer, in
/// the order in which the host declared them.
pub fn check_requests<O: Send + Sync, I: Info>(loader: &Loader<O, I>, index: usize) -> (r: Vec<
    String,
>)
    requires
        index < loader.spec_plugins().len(),
    ensures
        texts(r@) == unanswered(
            loader.spec_plugins()[index as int].spec_requests(),
            loader.spec_requests(),
            loader.spec_requests().len() as int,
        ),
{
    let mut missing: Vec<String> = Vec::new();
    let mut q: usize = 0;
    let ghost table = loader.spec_plugins()[index as int].spec_requests();
    while q < loader.requests.len()
        invariant
            q <= loader.requests.len(),
            index < loader.plugins@.len(),
            table == loader.plugins@[index as int].requests@,
            texts(missing@) == unanswered(table, loader.requests@, q as int),
        decreases loader.requests.len() - q,
    {
        if !is_answered(&loader.plugins[index].requests, &loader.requests[q]) {
            let ghost before = missing@;
            let name = loader.requests[q].name.clone();
            missing.push(name);
            assert(texts(missing@) =~= texts(before).push(loader.requests@[q as int].name@));
        }
        q = q + 1;
    }
    missing
}

/// The dependencies of a plugin, the required ones marked `true`, then the
/// optional ones marked `false`.
fn collect_depends<O: Send + Sync, I: Info>(plugin: &Plugin<O, I>) -> (r: Vec<(bool, Depend)>)
    ensures
        r@.len() == all_depends(plugin@).len(),
        forall|k: int|
            0 <= k < r@.len() ==> (#[trigger] r@[k]).1@ == all_depends(plugin@)[k] && r@[k].0 == (k
                < plugin@.depends.len()),
{
    let required = plugin.depends();
    let optional = plugin.optional_depends();
    let mut out: Vec<(bool, Depend)> = Vec::new();
    let mut k: usize = 0;
    while k < required.len()
        invariant
            k <= required.len(),
            out@.len() == k,
            depend_views(required@) == plugin@.depends,
            forall|j: int| 0 <= j < k ==> (#[trigger] out@[j]).1@ == required@[j]@ && out@[j].0,
        decreases required.len() - k,
    {
        out.push((true, required[k].clone()));
        k = k + 1;
    }
    let mut m: usize = 0;
    while m < optional.len()
        invariant
            m <= optional.len(),
            out@.len() == required@.len() + m,
            depend_views(required@) == plugin@.depends,
            depend_views(optional@) == plugin@.optional_depends,
            forall|j: int|
                0 <= j < required@.len() ==> (#[trigger] out@[j]).1@ == required@[j]@ && out@[j].0,
            forall|j: int|
                required@.len() <= j < required@.len() + m ==> (#[trigger] out@[j]).1@
                    == optional@[j - required@.len()]@ && !out@[j].0,
        decreases optional.len() - m,
    {
        out.push((false, optional[m].clone()));
        m = m + 1;
    }
    out
}

/// What loading never changes: the managers, the host's requests and
/// functions, the number of plugins and the metadata of each, and every
/// record of a plugin that is loaded already. What holds of the loaded
/// plugins keeps holding.
pub open spec fn load_frame<O: Send + Sync, I: Info>(
    before: &Loader<O, I>,
    after: &Loader<O, I>,
) -> bool {
    &&& after.wf()
    &&& after.formats() == before.formats()
    &&& after.spec_requests() == before.spec_requests()
    &&& after.spec_registry() == before.spec_registry()
    &&& after.spec_plugins().len() == before.spec_plugins().len()
    &&& forall|i: int|
        0 <= i < before.spec_plugins().len() ==> (#[trigger] after.spec_plugins()[i]).identity()
            == before.spec_plugins()[i].identity()
    &&& forall|i: int|
        0 <= i < before.spec_plugins().len() && before.spec_plugins()[i]@.is_loaded
            ==> #[trigger] after.spec_plugins()[i] == before.spec_plugins()[i]
    &&& dependencies_loaded(before.views()) ==> dependencies_loaded(after.views())
    &&& requests_answered(before.spec_plugins(), before.spec_requests()) ==> requests_answered(
        after.spec_plugins(),
        after.spec_requests(),
    )
}

/// The bundles and the dependencies are the same in two states with the
/// same metadata.
pub proof fn lemma_frame_keeps_graph<O: Send + Sync, I: Info>(
    before: &Loader<O, I>,
    after: &Loader<O, I>,
)
    requires
        after.spec_plugins().len() == before.spec_plugins().len(),
        forall|i: int|
            0 <= i < before.spec_plugins().len() ==> (#[trigger] after.spec_plugins()[i]).identity()
                == before.spec_plugins()[i].identity(),
    ensures
        after.bundles() == before.bundles(),
        depends_of(after.views()) == depends_of(before.views()),
{
    assert(after.bundles() =~= before.bundles());
    assert(depends_of(after.views()) =~= depends_of(before.views()));
}

/// What a load hook may change: the two function tables of the plugin at
/// `index`, and nothing else of the engine.
pub open spec fn hooked<O: Send + Sync, I: Info>(
    before: &Loader<O, I>,
    after: &Loader<O, I>,
    index: int,
) -> bool {
    &&& after.wf()
    &&& after.formats() == before.formats()
    &&& after.spec_requests() == before.spec_requests()
    &&& after.spec_registry() == before.spec_registry()
    &&& after.spec_plugins().len() == before.spec_plugins().len()
    &&& forall|i: int|
        0 <= i < before.spec_plugins().len() && i != index ==> #[trigger] after.spec_plugins()[i]
            == before.spec_plugins()[i]
    &&& after.spec_plugins()[index].identity() == before.spec_plugins()[index].identity()
    &&& after.spec_plugins()[index]@.is_loaded == before.spec_plugins()[index]@.is_loaded
}

/// Calls the manager's `load_plugin` hook for the plugin at `index` and
/// returns what the hook returned.
///
/// The hook is handed the plugin with its two function tables, which it may
/// change, and the [`Api`] that [`Api::new`] makes of the engine, the
/// plugin's bundle and `found`.
fn call_load_hook<O: Send + Sync, I: Info>(
    loader: &mut Loader<O, I>,
    index: usize,
    found: &Vec<(Bundle, bool)>,
) -> (r: ManagerResult<()>)
    requires
        old(loader).wf(),
        index < old(loader).spec_plugins().len(),
    ensures
        hooked(old(loader), final(loader), index as int),
{
    let k = match find_manager(&loader.managers, loader.plugins[index].info.bundle.format.as_str()) {
        Some(k) => k,
        None => {
            assert(loader.formats().contains(loader.bundles()[index as int].format));
            vstd::pervasive::unreached()
        },
    };
    let bundle = loader.plugins[index].info.bundle.clone();
    let mut table: Vec<FunctionBox<O>> = Vec::new();
    let mut registry: Vec<FunctionBox<O>> = Vec::new();
    std::mem::swap(&mut table, &mut loader.plugins[index].requests);
    std::mem::swap(&mut registry, &mut loader.plugins[index].registry);
    let context = LoadPluginContext {
        plugin: &loader.plugins[index],
        requests: &loader.requests,
        table: &mut table,
        registry: &mut registry,
    };
    let api = Api::new(&loader.plugins, &loader.registry, &loader.requests, bundle, found);
    let outcome = loader.managers[k].manager.load_plugin(context, api);
    assert(loader.formats() =~= old(loader).formats());
    loader.plugins[index].requests = table;
    loader.plugins[index].registry = registry;
    assert(loader.bundles() =~= old(loader).bundles());
    outcome
}

/// Calls the manager's `load_plugin` hook for the plugin at `index` and
/// marks the plugin as loaded where the hook succeeds, without resolving
/// dependencies and without checking requests.
///
/// `depends` holds the bundles that the plugin's dependencies were resolved
/// to, each marked `true` for a required and `false` for an optional
/// dependency; the hook sees them through its [`Api`]. The hook may change
/// the two function tables of the plugin and nothing else.
pub fn forced_load_plugin<O: Send + Sync, I: Info>(
    loader: &mut Loader<O, I>,
    index: usize,
    depends: Vec<(Bundle, bool)>,
) -> (r: Result<(), LoadPluginError>)
    requires
        old(loader).wf(),
        index < old(loader).spec_plugins().len(),
    ensures
        final(loader).wf(),
        final(loader).formats() == old(loader).formats(),
        final(loader).spec_requests() == old(loader).spec_requests(),
        final(loader).spec_registry() == old(loader).spec_registry(),
        final(loader).spec_plugins().len() == old(loader).spec_plugins().len(),
        forall|i: int|
            0 <= i < old(loader).spec_plugins().len() && i != index
                ==> #[trigger] final(loader).spec_plugins()[i] == old(loader).spec_plugins()[i],
        final(loader).spec_plugins()[index as int].identity() == old(loader).spec_plugins()[index as int].identity(),
        match r {
            Ok(_) => final(loader).spec_plugins()[index as int]@.is_loaded,
            Err(e) => e is LoadPluginByManager && final(loader).spec_plugins()[index as int]@.is_loaded
                == old(loader).spec_plugins()[index as int]@.is_loaded,
        },
{
    match call_load_hook(loader, index, &depends) {
        Err(e) => Err(LoadPluginError::LoadPluginByManager(e)),
        Ok(_) => {
            loader.plugins[index].is_load = true;
            assert(loader.bundles() =~= old(loader).bundles());
            Ok(())
        },
    }
}

/// What the engine makes of the result `outcome` of the load hook of the
/// plugin at `index`.
///
/// A failure of the hook is handed on as `LoadPluginByManager` and the
/// plugin stays as it is. After a success the plugin must answer every
/// request of the host: if it does it is marked as loaded, if not it stays
/// as it is and the result is `RequestsNotFound` with the names of the
/// requests that it does not answer, in the order of their declaration.
pub open spec fn settled<O: Send + Sync, I: Info>(
    before: &Loader<O, I>,
    after: &Loader<O, I>,
    index: int,
    outcome: ManagerResult<()>,
    r: Result<(), LoadPluginError>,
) -> bool {
    let open = unanswered(
        before.spec_plugins()[index].spec_requests(),
        before.spec_requests(),
        before.spec_requests().len() as int,
    );
    &&& after.formats() == before.formats()
    &&& after.spec_requests() == before.spec_requests()
    &&& after.spec_registry() == before.spec_registry()
    &&& match outcome {
        Err(e) => {
            &&& r == Err::<(), LoadPluginError>(LoadPluginError::LoadPluginByManager(e))
            &&& after.spec_plugins() == before.spec_plugins()
        },
        Ok(_) => if open.len() == 0 {
            &&& r is Ok
            &&& covered(before.spec_plugins()[index].spec_requests(), before.spec_requests())
            &&& after.spec_plugins() == before.spec_plugins().update(
                index,
                with_loaded(before.spec_plugins()[index], true),
            )
        } else {
            &&& r matches Err(LoadPluginError::RequestsNotFound(names)) && texts(names@) == open
            &&& after.spec_plugins() == before.spec_plugins()
        },
    }
}

/// Ends the loading of the plugin at `index` after its load hook returned
/// `outcome`: see [`settled`].
pub fn settle_load<O: Send + Sync, I: Info>(
    loader: &mut Loader<O, I>,
    index: usize,
    outcome: ManagerResult<()>,
) -> (r: Result<(), LoadPluginError>)
    requires
        old(loader).wf(),
        index < old(loader).spec_plugins().len(),
    ensures
        final(loader).wf(),
        settled(old(loader), final(loader), index as int, outcome, r),
{
    match outcome {
        Err(e) => Err(LoadPluginError::LoadPluginByManager(e)),
        Ok(_) => {
            let names = check_requests(loader, index);
            if names.len() > 0 {
                let failure = Err(LoadPluginError::RequestsNotFound(names));
                assert(failure matches Err(LoadPluginError::RequestsNotFound(ns)) && ns == names);
                failure
            } else {
                proof {
                    lemma_unanswered_empty(
                        loader.spec_plugins()[index as int].spec_requests(),
                        loader.spec_requests(),
                        loader.spec_requests().len() as int,
                    );
                }
                loader.plugins[index].is_load = true;
                assert(loader.bundles() =~= old(loader).bundles());
                assert(loader.formats() =~= old(loader).formats());
                assert(loader.spec_plugins() =~= old(loader).spec_plugins().update(
                    index as int,
                    with_loaded(old(loader).spec_plugins()[index as int], true),
                ));
                Ok(())
            }
        },
    }
}

/// The number of plugins that are not being loaded.
pub open spec fn idle(busy: Seq<bool>) -> nat
    decreases busy.len(),
{
    if busy.len() == 0 {
        0
    } else if busy.last() {
        idle(busy.drop_last())
    } else {
        idle(busy.drop_last()) + 1
    }
}

/// Marking an idle plugin as being loaded leaves one idle plugin less.
pub proof fn lemma_idle_marked(busy: Seq<bool>, i: int)
    requires
        0 <= i < busy.len(),
        !busy[i],
    ensures
        idle(busy.update(i, true)) + 1 == idle(busy),
    decreases busy.len(),
{
    let after = busy.update(i, true);
    if i == busy.len() - 1 {
        assert(after.drop_last() =~= busy.drop_last());
    } else {
        assert(after.drop_last() =~= busy.drop_last().update(i, true));
        lemma_idle_marked(busy.drop_last(), i);
    }
}

/// The dependency cannot be met now: no plugin matches it, or its first
/// match is itself being loaded.
pub open spec fn blocked(bs: Seq<BundleView>, d: DependView, busy: Seq<bool>) -> bool {
    forall|j: int| #[trigger] first_resolving(bs, d, j) ==> busy[j]
}

/// Those among the first `n` dependencies that cannot be met, in order.
pub open spec fn blocked_among(
    bs: Seq<BundleView>,
    ds: Seq<DependView>,
    busy: Seq<bool>,
    n: int,
) -> Seq<DependView>
    decreases n,
{
    if n <= 0 {
        Seq::empty()
    } else if blocked(bs, ds[n - 1], busy) {
        blocked_among(bs, ds, busy, n - 1).push(ds[n - 1])
    } else {
        blocked_among(bs, ds, busy, n - 1)
    }
}

proof fn lemma_blocked_among_empty(bs: Seq<BundleView>, ds: Seq<DependView>, busy: Seq<bool>, n: int)
    requires
        0 <= n <= ds.len(),
        blocked_among(bs, ds, busy, n).len() == 0,
    ensures
        forall|k: int| 0 <= k < n ==> !blocked(bs, #[trigger] ds[k], busy),
    decreases n,
{
    if n > 0 {
        if !blocked(bs, ds[n - 1], busy) {
            lemma_blocked_among_empty(bs, ds, busy, n - 1);
        }
    }
}

/// The position of the first match of the dependency `d`, where it has
/// one.
pub open spec fn first_match(bs: Seq<BundleView>, d: DependView) -> int {
    choose|j: int| first_resolving(bs, d, j)
}

/// For each of the first `n` dependencies that can be met, in order: the
/// bundle of its first match, marked `true` where the dependency is one of
/// the first `required` ones.
pub open spec fn resolved_among(
    bs: Seq<BundleView>,
    ds: Seq<DependView>,
    required: int,
    busy: Seq<bool>,
    n: int,
) -> Seq<(BundleView, bool)>
    decreases n,
{
    if n <= 0 {
        Seq::empty()
    } else if blocked(bs, ds[n - 1], busy) {
        resolved_among(bs, ds, required, busy, n - 1)
    } else {
        resolved_among(bs, ds, required, busy, n - 1).push(
            (bs[first_match(bs, ds[n - 1])], n - 1 < required),
        )
    }
}

/// Each of the first `n` dependencies whose first match is not being loaded
/// has that match loaded.
pub open spec fn resolved_loaded(
    ps: Seq<PluginView>,
    ds: Seq<DependView>,
    busy: Seq<bool>,
    n: int,
) -> bool {
    forall|k: int, j: int|
        0 <= k < n && #[trigger] first_resolving(bundles_of(ps), ds[k], j) && !busy[j]
            ==> ps[j].is_loaded
}

/// Plugin `j` is loaded in `after` and was not loaded in `before`.
pub open spec fn newly_loaded(before: Seq<PluginView>, after: Seq<PluginView>, j: int) -> bool {
    0 <= j < after.len() && after[j].is_loaded && !before[j].is_loaded
}

/// Plugin `j` is the first match of a dependency, required or optional, of
/// plugin `p`.
pub open spec fn first_match_of(ps: Seq<PluginView>, p: int, j: int) -> bool {
    &&& 0 <= p < ps.len()
    &&& exists|k: int|
        0 <= k < all_depends(ps[p]).len() && first_resolving(
            bundles_of(ps),
            #[trigger] all_depends(ps[p])[k],
            j,
        )
}

/// Every plugin that was loaded between the two states was asked for: it is
/// the plugin `index`, or the first match of a dependency of `index` or of
/// a plugin that was loaded between the two states.
pub open spec fn only_asked(before: Seq<PluginView>, after: Seq<PluginView>, index: int) -> bool {
    forall|j: int| #[trigger]
        newly_loaded(before, after, j) ==> j == index || exists|p: int|
            (p == index || newly_loaded(before, after, p)) && #[trigger] first_match_of(after, p, j)
}

/// Every plugin that was loaded between the two states has the first match
/// of each of its dependencies loaded, unless that match is being loaded.
pub open spec fn complete(before: Seq<PluginView>, after: Seq<PluginView>, busy: Seq<bool>) -> bool {
    forall|p: int| #[trigger]
        newly_loaded(before, after, p) ==> resolved_loaded(
            after,
            all_depends(after[p]),
            busy,
            all_depends(after[p]).len() as int,
        )
}

/// The dependency `d` has a match among the bundles.
pub open spec fn met(bs: Seq<BundleView>, d: DependView) -> bool {
    exists|j: int| #[trigger] first_resolving(bs, d, j)
}

/// Every plugin that was loaded between the two states has a match for
/// each of its required dependencies.
pub open spec fn provided(before: Seq<PluginView>, after: Seq<PluginView>) -> bool {
    forall|p: int, k: int|
        newly_loaded(before, after, p) && 0 <= k < after[p].depends.len() ==> met(
            bundles_of(after),
            #[trigger] after[p].depends[k],
        )
}

/// The two lists hold the same plugins with the same required
/// dependencies.
pub open spec fn same_required(a: Seq<PluginView>, b: Seq<PluginView>) -> bool {
    &&& a.len() == b.len()
    &&& bundles_of(a) == bundles_of(b)
    &&& forall|i: int| 0 <= i < a.len() ==> (#[trigger] a[i]).depends == b[i].depends
}

/// Loading keeps the plugins and their required dependencies.
pub proof fn lemma_frame_keeps_required<O: Send + Sync, I: Info>(
    before: &Loader<O, I>,
    after: &Loader<O, I>,
)
    requires
        load_frame(before, after),
    ensures
        same_required(before.views(), after.views()),
{
    lemma_frame_keeps_graph(before, after);
    assert forall|i: int| 0 <= i < before.views().len() implies (#[trigger] before.views()[i]).depends
        == after.views()[i].depends by {
        assert(after.spec_plugins()[i].identity() == before.spec_plugins()[i].identity());
    }
}

/// What was provided in two steps is provided over both.
pub proof fn lemma_provided_step(a: Seq<PluginView>, b: Seq<PluginView>, c: Seq<PluginView>)
    requires
        same_required(a, b),
        same_required(b, c),
        forall|i: int| 0 <= i < a.len() && a[i].is_loaded ==> b[i].is_loaded,
        provided(a, b),
        provided(b, c),
    ensures
        provided(a, c),
{
    assert forall|p: int, k: int|
        newly_loaded(a, c, p) && 0 <= k < c[p].depends.len() implies met(
        bundles_of(c),
        #[trigger] c[p].depends[k],
    ) by {
        assert(b[p].depends == c[p].depends);
        if b[p].is_loaded {
            assert(newly_loaded(a, b, p));
            assert(met(bundles_of(b), b[p].depends[k]));
        } else {
            assert(newly_loaded(b, c, p));
        }
    }
}

/// What was provided stays provided when the plugin `index`, whose required
/// dependencies have their matches, is marked as loaded.
proof fn lemma_provided_done(a: Seq<PluginView>, m: Seq<PluginView>, c: Seq<PluginView>, index: int)
    requires
        same_required(a, m),
        0 <= index < a.len(),
        c == flagged(m, index, true),
        provided(a, m),
        forall|k: int| 0 <= k < a[index].depends.len() ==> met(bundles_of(a), #[trigger] a[index].depends[k]),
    ensures
        provided(a, c),
{
    assert(bundles_of(c) =~= bundles_of(m));
    assert forall|p: int, k: int|
        newly_loaded(a, c, p) && 0 <= k < c[p].depends.len() implies met(
        bundles_of(c),
        #[trigger] c[p].depends[k],
    ) by {
        if p != index {
            assert(c[p] == m[p]);
            assert(newly_loaded(a, m, p));
            assert(met(bundles_of(m), m[p].depends[k]));
        } else {
            assert(c[p].depends == m[p].depends);
            assert(m[p].depends == a[p].depends);
            assert(met(bundles_of(a), a[index].depends[k]));
        }
    }
}

/// The two lists hold the same plugins with the same dependencies, and
/// every plugin that is loaded in the first is loaded in the second.
pub open spec fn grows(a: Seq<PluginView>, b: Seq<PluginView>) -> bool {
    &&& a.len() == b.len()
    &&& bundles_of(a) == bundles_of(b)
    &&& depends_of(a) == depends_of(b)
    &&& forall|i: int| 0 <= i < a.len() && a[i].is_loaded ==> b[i].is_loaded
}

/// Loading keeps the plugins and their dependencies, and what is loaded.
pub proof fn lemma_frame_grows<O: Send + Sync, I: Info>(before: &Loader<O, I>, after: &Loader<O, I>)
    requires
        load_frame(before, after),
    ensures
        grows(before.views(), after.views()),
{
    lemma_frame_keeps_graph(before, after);
    assert forall|i: int| 0 <= i < before.views().len() && before.views()[i].is_loaded implies after.views()[i].is_loaded by {
        assert(after.spec_plugins()[i] == before.spec_plugins()[i]);
    }
}

/// The dependencies of a plugin are the same in two lists of the same
/// plugins.
pub proof fn lemma_depends_static(a: Seq<PluginView>, b: Seq<PluginView>, p: int)
    requires
        a.len() == b.len(),
        depends_of(a) == depends_of(b),
        0 <= p < a.len(),
    ensures
        all_depends(a[p]) == all_depends(b[p]),
{
    assert(depends_of(a)[p] == all_depends(a[p]));
    assert(depends_of(b)[p] == all_depends(b[p]));
}

/// A first match stays one in a list of the same plugins.
pub proof fn lemma_first_match_static(a: Seq<PluginView>, b: Seq<PluginView>, p: int, j: int)
    requires
        a.len() == b.len(),
        bundles_of(a) == bundles_of(b),
        depends_of(a) == depends_of(b),
        first_match_of(a, p, j),
    ensures
        first_match_of(b, p, j),
{
    lemma_depends_static(a, b, p);
    let k = choose|k: int|
        0 <= k < all_depends(a[p]).len() && first_resolving(
            bundles_of(a),
            #[trigger] all_depends(a[p])[k],
            j,
        );
    assert(first_resolving(bundles_of(b), all_depends(b[p])[k], j));
}

/// After the plugins asked for by `index` were loaded up to the state `b`,
/// loading its dependency `j` with what that asks for gives a state `c` in
/// which, again, only what `index` asks for was loaded.
proof fn lemma_pull_step(
    a: Seq<PluginView>,
    b: Seq<PluginView>,
    c: Seq<PluginView>,
    index: int,
    j: int,
    busy: Seq<bool>,
)
    requires
        grows(a, b),
        grows(b, c),
        0 <= index < a.len(),
        0 <= j < a.len(),
        first_match_of(a, index, j),
        only_asked(a, b, index),
        complete(a, b, busy),
        only_asked(b, c, j),
        complete(b, c, busy.update(j, true)),
        busy.len() == a.len(),
        c[j].is_loaded,
        b[j].is_loaded ==> c == b,
    ensures
        only_asked(a, c, index),
        complete(a, c, busy),
{
    assert forall|x: int| #[trigger] newly_loaded(a, c, x) implies x == index || exists|p: int|
        (p == index || newly_loaded(a, c, p)) && #[trigger] first_match_of(c, p, x) by {
        if b[x].is_loaded {
            assert(newly_loaded(a, b, x));
            if x != index {
                let p = choose|p: int|
                    (p == index || newly_loaded(a, b, p)) && #[trigger] first_match_of(b, p, x);
                lemma_first_match_static(b, c, p, x);
                assert((p == index || newly_loaded(a, c, p)) && first_match_of(c, p, x));
            }
        } else {
            assert(newly_loaded(b, c, x));
            assert(!b[j].is_loaded);
            assert(newly_loaded(a, c, j));
            if x == j {
                lemma_first_match_static(a, c, index, j);
                assert(first_match_of(c, index, x));
            } else {
                let p = choose|p: int|
                    (p == j || newly_loaded(b, c, p)) && #[trigger] first_match_of(c, p, x);
                assert(newly_loaded(a, c, p));
            }
        }
    }
    assert forall|p: int| #[trigger] newly_loaded(a, c, p) implies resolved_loaded(
        c,
        all_depends(c[p]),
        busy,
        all_depends(c[p]).len() as int,
    ) by {
        lemma_depends_static(b, c, p);
        if b[p].is_loaded {
            assert(newly_loaded(a, b, p));
            assert(resolved_loaded(b, all_depends(b[p]), busy, all_depends(b[p]).len() as int));
        } else {
            assert(newly_loaded(b, c, p));
            assert(resolved_loaded(
                c,
                all_depends(c[p]),
                busy.update(j, true),
                all_depends(c[p]).len() as int,
            ));
        }
    }
}

/// After the plugins asked for by `index` were loaded up to the state `m`,
/// marking `index` itself as loaded gives a state in which only what `index`
/// asks for was loaded, `index` included.
proof fn lemma_pull_done(
    a: Seq<PluginView>,
    m: Seq<PluginView>,
    c: Seq<PluginView>,
    index: int,
    busy: Seq<bool>,
)
    requires
        grows(a, m),
        0 <= index < a.len(),
        c == flagged(m, index, true),
        only_asked(a, m, index),
        complete(a, m, busy),
        resolved_loaded(c, all_depends(a[index]), busy, all_depends(a[index]).len() as int),
    ensures
        only_asked(a, c, index),
        complete(a, c, busy),
{
    assert(bundles_of(c) =~= bundles_of(m));
    assert(depends_of(c) =~= depends_of(m));
    assert forall|x: int| #[trigger] newly_loaded(a, c, x) implies x == index || exists|p: int|
        (p == index || newly_loaded(a, c, p)) && #[trigger] first_match_of(c, p, x) by {
        if x != index {
            assert(c[x] == m[x]);
            assert(newly_loaded(a, m, x));
            let p = choose|p: int|
                (p == index || newly_loaded(a, m, p)) && #[trigger] first_match_of(m, p, x);
            lemma_first_match_static(m, c, p, x);
            if p != index {
                assert(c[p] == m[p]);
            }
            assert((p == index || newly_loaded(a, c, p)) && first_match_of(c, p, x));
        }
    }
    assert forall|p: int| #[trigger] newly_loaded(a, c, p) implies resolved_loaded(
        c,
        all_depends(c[p]),
        busy,
        all_depends(c[p]).len() as int,
    ) by {
        lemma_depends_static(m, c, p);
        lemma_depends_static(a, m, p);
        if p != index {
            assert(c[p] == m[p]);
            assert(newly_loaded(a, m, p));
            assert(resolved_loaded(m, all_depends(m[p]), busy, all_depends(m[p]).len() as int));
            assert forall|k: int, i: int|
                0 <= k < all_depends(c[p]).len() && #[trigger] first_resolving(
                    bundles_of(c),
                    all_depends(c[p])[k],
                    i,
                ) && !busy[i] implies c[i].is_loaded by {
                assert(first_resolving(bundles_of(m), all_depends(m[p])[k], i));
                assert(m[i].is_loaded);
                if i != index {
                    assert(c[i] == m[i]);
                }
            }
        }
    }
}

/// The plugins that are being loaded are the same in both states.
pub open spec fn busy_untouched<O: Send + Sync, I: Info>(
    before: &Loader<O, I>,
    after: &Loader<O, I>,
    busy: Seq<bool>,
) -> bool {
    forall|i: int|
        0 <= i < before.spec_plugins().len() && busy[i] ==> #[trigger] after.spec_plugins()[i]
            == before.spec_plugins()[i]
}

/// Loads the plugins that the dependencies in `wanted`, those of the plugin
/// at `index`, resolve to, in order.
///
/// Each dependency is resolved to its first match among all plugins, loaded
/// or not, and that plugin is loaded, unless it is marked in `visiting` as
/// being loaded: such a dependency counts as one without a match. The
/// result holds the bundles of the matches that were loaded, each with the
/// mark of its dependency, and the required dependencies that could not be
/// met. The first plugin that fails to load ends the walk with
/// `LoadDependency`.
pub fn load_depends<O: Send + Sync, I: Info>(
    loader: &mut Loader<O, I>,
    index: usize,
    wanted: Vec<(bool, Depend)>,
    visiting: &mut Vec<bool>,
) -> (r: Result<(Vec<(Bundle, bool)>, Vec<Depend>), LoadPluginError>)
    requires
        old(loader).wf(),
        index < old(loader).spec_plugins().len(),
        old(visiting)@.len() == old(loader).spec_plugins().len(),
        old(visiting)@[index as int],
        wanted@.len() == all_depends(old(loader).views()[index as int]).len(),
        forall|k: int|
            0 <= k < wanted@.len() ==> (#[trigger] wanted@[k]).1@ == all_depends(
                old(loader).views()[index as int],
            )[k] && wanted@[k].0 == (k < old(loader).views()[index as int].depends.len()),
    ensures
        final(visiting)@ == old(visiting)@,
        load_frame(old(loader), final(loader)),
        busy_untouched(old(loader), final(loader), old(visiting)@),
        match r {
            Ok((found, missing)) => {
                &&& only_asked(old(loader).views(), final(loader).views(), index as int)
                &&& complete(old(loader).views(), final(loader).views(), old(visiting)@)
                &&& provided(old(loader).views(), final(loader).views())
                &&& marked_views(found@) == resolved_among(
                    old(loader).bundles(),
                    all_depends(old(loader).views()[index as int]),
                    old(loader).views()[index as int].depends.len() as int,
                    old(visiting)@,
                    wanted@.len() as int,
                )
                &&& resolved_loaded(
                    final(loader).views(),
                    all_depends(old(loader).views()[index as int]),
                    old(visiting)@,
                    wanted@.len() as int,
                )
                &&& depend_views(missing@) == blocked_among(
                    old(loader).bundles(),
                    old(loader).views()[index as int].depends,
                    old(visiting)@,
                    old(loader).views()[index as int].depends.len() as int,
                )
            },
            Err(LoadPluginError::LoadDependency { depend, error }) => exists|k: int, j: int|
                0 <= k < wanted@.len() && depend@ == #[trigger] all_depends(
                    old(loader).views()[index as int],
                )[k] && #[trigger] first_resolving(old(loader).bundles(), depend@, j)
                    && !final(loader).views()[j].is_loaded,
            Err(_) => false,
        },
    decreases idle(old(visiting)@), 1nat,
{
    let ghost bs = old(loader).bundles();
    let ghost ds = all_depends(old(loader).views()[index as int]);
    let ghost required = old(loader).views()[index as int].depends;
    let ghost busy = old(visiting)@;
    proof {
        lemma_frame_keeps_graph(old(loader), loader);
    }
    let mut found: Vec<(Bundle, bool)> = Vec::new();
    let mut missing: Vec<Depend> = Vec::new();
    let mut k: usize = 0;
    while k < wanted.len()
        invariant
            k <= wanted.len(),
            index < old(loader).spec_plugins().len(),
            bs == old(loader).bundles(),
            ds == all_depends(old(loader).views()[index as int]),
            required == old(loader).views()[index as int].depends,
            busy == old(visiting)@,
            visiting@ == busy,
            busy.len() == old(loader).spec_plugins().len(),
            wanted@.len() == ds.len(),
            forall|q: int|
                0 <= q < wanted@.len() ==> (#[trigger] wanted@[q]).1@ == ds[q] && wanted@[q].0 == (q
                    < required.len()),
            load_frame(old(loader), loader),
            busy_untouched(old(loader), loader, busy),
            resolved_loaded(loader.views(), ds, busy, k as int),
            only_asked(old(loader).views(), loader.views(), index as int),
            complete(old(loader).views(), loader.views(), busy),
            provided(old(loader).views(), loader.views()),
            marked_views(found@) == resolved_among(bs, ds, required.len() as int, busy, k as int),
            depend_views(missing@) == blocked_among(
                bs,
                required,
                busy,
                if k <= required.len() {
                    k as int
                } else {
                    required.len() as int
                },
            ),
        decreases wanted.len() - k,
    {
        let ghost before = *loader;
        proof {
            lemma_frame_keeps_graph(old(loader), loader);
        }
        let target = match find_match(&loader.plugins, &wanted[k].1) {
            Some(j) => if visiting[j] {
                None
            } else {
                Some(j)
            },
            None => None,
        };
        match target {
            Some(j) => {
                let entry = (loader.plugins[j].info.bundle.clone(), wanted[k].0);
                let ghost earlier = found@;
                found.push(entry);
                assert(first_resolving(bs, ds[k as int], j as int));
                proof {
                    assert(!blocked(bs, ds[k as int], busy));
                    let m = first_match(bs, ds[k as int]);
                    assert(first_resolving(bs, ds[k as int], m));
                    assert(resolves(bs, ds[k as int], m) && resolves(bs, ds[k as int], j as int));
                    assert(m == j);
                    assert(entry.0@ == bs[j as int]);
                    assert(marked_views(found@) =~= marked_views(earlier).push((bs[j as int], entry.1)));
                }
                let loaded = load_plugin_in(loader, j, visiting);
                proof {
                    lemma_frame_keeps_graph(&before, loader);
                    lemma_frame_composes(old(loader), &before, loader);
                    assert forall|q: int, i: int|
                        0 <= q < k + 1 && #[trigger] first_resolving(
                            bundles_of(loader.views()),
                            ds[q],
                            i,
                        ) && !busy[i] && loaded is Ok implies loader.views()[i].is_loaded by {
                        if q < k {
                            assert(first_resolving(bundles_of(before.views()), ds[q], i));
                            assert(before.views()[i].is_loaded);
                            assert(loader.spec_plugins()[i] == before.spec_plugins()[i]);
                        } else {
                            assert(i == j);
                        }
                    }
                    assert(!blocked(bs, ds[k as int], busy));
                    if loaded is Ok {
                        lemma_frame_grows(old(loader), &before);
                        lemma_frame_grows(&before, loader);
                        assert(first_match_of(old(loader).views(), index as int, j as int)) by {
                            assert(bundles_of(old(loader).views()) == bs);
                            assert(all_depends(old(loader).views()[index as int])[k as int]
                                == ds[k as int]);
                        }
                        if before.views()[j as int].is_loaded {
                            assert(loader.spec_plugins() == before.spec_plugins());
                            assert(loader.views() =~= before.views());
                        }
                        lemma_pull_step(
                            old(loader).views(),
                            before.views(),
                            loader.views(),
                            index as int,
                            j as int,
                            busy,
                        );
                        lemma_frame_keeps_required(old(loader), &before);
                        lemma_frame_keeps_required(&before, loader);
                        lemma_provided_step(old(loader).views(), before.views(), loader.views());
                    }
                }
                if let Err(e) = loaded {
                    let depend = wanted[k].1.clone();
                    assert(first_resolving(old(loader).bundles(), depend@, j as int));
                    assert(exists|k: int, j: int|
                        0 <= k < wanted@.len() && depend@ == #[trigger] all_depends(
                            old(loader).views()[index as int],
                        )[k] && #[trigger] first_resolving(old(loader).bundles(), depend@, j)
                            && !loader.views()[j].is_loaded);
                    let failure = LoadPluginError::LoadDependency { depend, error: Box::new(e) };
                    assert(failure matches LoadPluginError::LoadDependency { depend: d, .. } && d
                        == depend);
                    return Err(failure);
                }
            },
            None => {
                assert(blocked(bs, ds[k as int], busy)) by {
                    assert forall|i: int| #[trigger] first_resolving(bs, ds[k as int], i) implies busy[i] by {
                        assert(resolves(bs, ds[k as int], i));
                    }
                }
                if wanted[k].0 {
                    let ghost earlier = missing@;
                    missing.push(wanted[k].1.clone());
                    assert(depend_views(missing@) =~= depend_views(earlier).push(ds[k as int]));
                    assert(required[k as int] == ds[k as int]);
                }
            },
        }
        k = k + 1;
    }
    Ok((found, missing))
}

/// Loads the plugin at `index`, which is not marked in `visiting`, with
/// everything that it depends on. While its dependencies are loaded the
/// plugin itself is marked.
pub fn load_plugin_in<O: Send + Sync, I: Info>(
    loader: &mut Loader<O, I>,
    index: usize,
    visiting: &mut Vec<bool>,
) -> (r: Result<(), LoadPluginError>)
    requires
        old(loader).wf(),
        index < old(loader).spec_plugins().len(),
        old(visiting)@.len() == old(loader).spec_plugins().len(),
        !old(visiting)@[index as int],
    ensures
        final(visiting)@ == old(visiting)@,
        load_frame(old(loader), final(loader)),
        busy_untouched(old(loader), final(loader), old(visiting)@),
        loading(old(loader), final(loader), index as int, old(visiting)@.update(index as int, true), r),
        r is Ok ==> final(loader).views()[index as int].is_loaded && only_asked(
            old(loader).views(),
            final(loader).views(),
            index as int,
        ) && complete(
            old(loader).views(),
            final(loader).views(),
            old(visiting)@.update(index as int, true),
        ) && provided(old(loader).views(), final(loader).views()),
    decreases idle(old(visiting)@), 0nat,
{
    if loader.plugins[index].is_load {
        return Ok(());
    }
    let ghost busy = old(visiting)@.update(index as int, true);
    proof {
        lemma_idle_marked(old(visiting)@, index as int);
    }
    visiting[index] = true;
    let wanted = collect_depends(&loader.plugins[index]);
    let walked = load_depends(loader, index, wanted, visiting);
    visiting[index] = false;
    assert(visiting@ =~= old(visiting)@);
    let (found, missing) = match walked {
        Err(e) => {
            return Err(e);
        },
        Ok(pair) => pair,
    };
    let ghost middle = *loader;
    proof {
        lemma_frame_keeps_graph(old(loader), loader);
    }
    if missing.len() > 0 {
        return Err(LoadPluginError::NotFoundDependencies(missing));
    }
    proof {
        lemma_blocked_among_empty(
            old(loader).bundles(),
            old(loader).views()[index as int].depends,
            busy,
            old(loader).views()[index as int].depends.len() as int,
        );
    }
    let outcome = call_load_hook(loader, index, &found);
    let r = settle_load(loader, index, outcome);
    proof {
        assert(loader.bundles() =~= middle.bundles());
        if r is Ok {
            lemma_loaded_keeps_frame(old(loader), &middle, loader, index as int, busy);
            lemma_frame_grows(old(loader), &middle);
            assert(loader.views() =~= flagged(middle.views(), index as int, true));
            lemma_pull_done(old(loader).views(), middle.views(), loader.views(), index as int, busy);
            lemma_frame_keeps_required(old(loader), &middle);
            assert forall|k: int| 0 <= k < old(loader).views()[index as int].depends.len() implies met(
                bundles_of(old(loader).views()),
                #[trigger] old(loader).views()[index as int].depends[k],
            ) by {
                let d = old(loader).views()[index as int].depends[k];
                assert(!blocked(old(loader).bundles(), d, busy));
                let j = choose|j: int| #[trigger] first_resolving(old(loader).bundles(), d, j) && !busy[j];
                assert(first_resolving(bundles_of(old(loader).views()), d, j));
            }
            lemma_provided_done(old(loader).views(), middle.views(), loader.views(), index as int);
        } else {
            lemma_hook_keeps_frame(old(loader), &middle, loader, index as int);
        }
    }
    r
}

/// What loading the plugin at `index` comes to, where `busy` marks that
/// plugin and those that were being loaded already.
///
/// A plugin that is loaded already stays as it is, with success. Otherwise
/// success means that the plugin is loaded, that every dependency has its
/// first match loaded unless that match is marked, that no required
/// dependency is blocked, and that the plugin answers every request; that
/// nothing was loaded but the plugin and the first matches of the
/// dependencies of what was loaded; and that each plugin that was loaded has
/// the first matches of its own dependencies loaded, unless marked, and a
/// match for each of its required dependencies. A
/// failure leaves the plugin unloaded and tells why: a required dependency
/// that cannot be met comes before the manager's hook and the requests.
pub open spec fn loading<O: Send + Sync, I: Info>(
    before: &Loader<O, I>,
    after: &Loader<O, I>,
    index: int,
    busy: Seq<bool>,
    r: Result<(), LoadPluginError>,
) -> bool {
    let p = before.views()[index];
    if p.is_loaded {
        r is Ok && after.spec_plugins() == before.spec_plugins()
    } else {
        match r {
            Ok(_) => {
                &&& after.views()[index].is_loaded
                &&& resolved_loaded(after.views(), all_depends(p), busy, all_depends(p).len() as int)
                &&& forall|k: int|
                    0 <= k < p.depends.len() ==> !blocked(before.bundles(), #[trigger] p.depends[k], busy)
                &&& covered(after.spec_plugins()[index].spec_requests(), before.spec_requests())
                &&& only_asked(before.views(), after.views(), index)
                &&& complete(before.views(), after.views(), busy)
                &&& provided(before.views(), after.views())
            },
            Err(e) => {
                &&& !after.views()[index].is_loaded
                &&& match e {
                    LoadPluginError::NotFoundDependencies(missing) => {
                        &&& missing@.len() > 0
                        &&& depend_views(missing@) == blocked_among(
                            before.bundles(),
                            p.depends,
                            busy,
                            p.depends.len() as int,
                        )
                    },
                    LoadPluginError::LoadDependency { depend, error } => exists|k: int, j: int|
                        0 <= k < all_depends(p).len() && depend@ == #[trigger] all_depends(p)[k]
                            && #[trigger] first_resolving(before.bundles(), depend@, j)
                            && !after.views()[j].is_loaded,
                    LoadPluginError::LoadPluginByManager(_) => blocked_among(
                        before.bundles(),
                        p.depends,
                        busy,
                        p.depends.len() as int,
                    ).len() == 0,
                    LoadPluginError::RequestsNotFound(names) => {
                        &&& blocked_among(before.bundles(), p.depends, busy, p.depends.len() as int).len()
                            == 0
                        &&& names@.len() > 0
                        &&& texts(names@) == unanswered(
                            after.spec_plugins()[index].spec_requests(),
                            before.spec_requests(),
                            before.spec_requests().len() as int,
                        )
                    },
                    LoadPluginError::NotFound => false,
                }
            },
        }
    }
}

/// The marks of a list of `n` plugins of which none is being loaded.
pub open spec fn none_busy(n: nat) -> Seq<bool> {
    Seq::new(n, |i: int| false)
}

/// Loads the plugin at `index` with everything that it depends on.
///
/// A plugin that is loaded already is left as it is, with success.
/// Otherwise each dependency, required or optional, is resolved to the
/// plugin of highest version that it admits, and that plugin is loaded
/// first, with its own dependencies. A dependency whose match is a plugin
/// that is itself waiting for its dependencies counts as one without a
/// match. If a required dependency cannot be met the result is
/// `NotFoundDependencies` with all such dependencies. Then the manager's
/// `load_plugin` hook sets the plugin up. Finally the plugin must answer
/// every request of the host: if it does it counts as loaded, if not the
/// result is `RequestsNotFound` with the names of the requests that it does
/// not answer, and the plugin stays unloaded.
pub fn load_plugin<O: Send + Sync, I: Info>(loader: &mut Loader<O, I>, index: usize) -> (r: Result<
    (),
    LoadPluginError,
>)
    requires
        old(loader).wf(),
        index < old(loader).spec_plugins().len(),
    ensures
        load_frame(old(loader), final(loader)),
        loading(
            old(loader),
            final(loader),
            index as int,
            none_busy(old(loader).spec_plugins().len()).update(index as int, true),
            r,
        ),
        r is Ok ==> only_asked(old(loader).views(), final(loader).views(), index as int) && complete(
            old(loader).views(),
            final(loader).views(),
            none_busy(old(loader).spec_plugins().len()),
        ),
{
    let mut visiting: Vec<bool> = Vec::new();
    let mut i: usize = 0;
    while i < loader.plugins.len()
        invariant
            i <= loader.plugins.len(),
            visiting@ == none_busy(i as nat),
        decreases loader.plugins.len() - i,
    {
        visiting.push(false);
        assert(visiting@ =~= none_busy((i + 1) as nat));
        i = i + 1;
    }
    let r = load_plugin_in(loader, index, &mut visiting);
    proof {
        if r is Ok {
            let marks = none_busy(old(loader).spec_plugins().len());
            let busy = marks.update(index as int, true);
            let after = loader.views();
            assert forall|p: int| #[trigger] newly_loaded(old(loader).views(), after, p) implies resolved_loaded(
                after,
                all_depends(after[p]),
                marks,
                all_depends(after[p]).len() as int,
            ) by {
                assert(resolved_loaded(after, all_depends(after[p]), busy, all_depends(after[p]).len() as int));
                assert forall|k: int, i: int|
                    0 <= k < all_depends(after[p]).len() && #[trigger] first_resolving(
                        bundles_of(after),
                        all_depends(after[p])[k],
                        i,
                    ) && !marks[i] implies after[i].is_loaded by {
                    if i != index {
                        assert(!busy[i]);
                    }
                }
            }
        }
    }
    r
}

/// Two steps that each keep the frame keep it together.
pub proof fn lemma_frame_composes<O: Send + Sync, I: Info>(
    a: &Loader<O, I>,
    b: &Loader<O, I>,
    c: &Loader<O, I>,
)
    requires
        load_frame(a, b),
        load_frame(b, c),
    ensures
        load_frame(a, c),
{
    assert forall|i: int|
        0 <= i < a.spec_plugins().len() && a.spec_plugins()[i]@.is_loaded implies #[trigger] c.spec_plugins()[i]
        == a.spec_plugins()[i] by {
        assert(b.spec_plugins()[i] == a.spec_plugins()[i]);
    }
    assert forall|i: int| 0 <= i < a.spec_plugins().len() implies (#[trigger] c.spec_plugins()[i]).identity()
        == a.spec_plugins()[i].identity() by {
        assert(b.spec_plugins()[i].identity() == a.spec_plugins()[i].identity());
    }
}

/// After the dependencies of the plugin at `index` were loaded (`middle`),
/// a state that differs from it in the function tables of that plugin alone
/// keeps the frame of the state before.
proof fn lemma_hook_keeps_frame<O: Send + Sync, I: Info>(
    before: &Loader<O, I>,
    middle: &Loader<O, I>,
    after: &Loader<O, I>,
    index: int,
)
    requires
        0 <= index < before.spec_plugins().len(),
        !before.spec_plugins()[index]@.is_loaded,
        load_frame(before, middle),
        after.wf(),
        after.formats() == middle.formats(),
        after.spec_requests() == middle.spec_requests(),
        after.spec_registry() == middle.spec_registry(),
        after.spec_plugins().len() == middle.spec_plugins().len(),
        forall|i: int|
            0 <= i < middle.spec_plugins().len() && i != index ==> #[trigger] after.spec_plugins()[i]
                == middle.spec_plugins()[i],
        after.spec_plugins()[index].identity() == middle.spec_plugins()[index].identity(),
        !middle.spec_plugins()[index]@.is_loaded,
        !after.spec_plugins()[index]@.is_loaded,
    ensures
        load_frame(before, after),
{
    assert(after.views() =~= middle.views());
    assert forall|p: int|
        0 <= p < after.spec_plugins().len() && (#[trigger] after.spec_plugins()[p])@.is_loaded
            && requests_answered(middle.spec_plugins(), middle.spec_requests()) implies covered(
        after.spec_plugins()[p].spec_requests(),
        after.spec_requests(),
    ) by {
        assert(after.spec_plugins()[p] == middle.spec_plugins()[p]);
    }
}

/// After the dependencies of the plugin at `index` were loaded (`middle`),
/// a state in which that plugin is loaded, answers every request and has a
/// loaded match for each required dependency keeps the frame of the state
/// before.
proof fn lemma_loaded_keeps_frame<O: Send + Sync, I: Info>(
    before: &Loader<O, I>,
    middle: &Loader<O, I>,
    after: &Loader<O, I>,
    index: int,
    busy: Seq<bool>,
)
    requires
        0 <= index < before.spec_plugins().len(),
        !before.spec_plugins()[index]@.is_loaded,
        load_frame(before, middle),
        after.wf(),
        after.formats() == middle.formats(),
        after.spec_requests() == middle.spec_requests(),
        after.spec_registry() == middle.spec_registry(),
        after.spec_plugins().len() == middle.spec_plugins().len(),
        forall|i: int|
            0 <= i < middle.spec_plugins().len() && i != index ==> #[trigger] after.spec_plugins()[i]
                == middle.spec_plugins()[i],
        after.spec_plugins()[index].identity() == middle.spec_plugins()[index].identity(),
        after.spec_plugins()[index]@.is_loaded,
        covered(after.spec_plugins()[index].spec_requests(), after.spec_requests()),
        resolved_loaded(
            middle.views(),
            all_depends(before.views()[index]),
            busy,
            all_depends(before.views()[index]).len() as int,
        ),
        forall|k: int|
            0 <= k < before.views()[index].depends.len() ==> !blocked(
                before.bundles(),
                #[trigger] before.views()[index].depends[k],
                busy,
            ),
    ensures
        load_frame(before, after),
        resolved_loaded(
            after.views(),
            all_depends(before.views()[index]),
            busy,
            all_depends(before.views()[index]).len() as int,
        ),
{
    lemma_frame_keeps_graph(before, middle);
    lemma_frame_keeps_graph(middle, after);
    let ps = after.views();
    let ms = middle.views();
    assert(ps =~= flagged(ms, index, true));
    let ds = all_depends(before.views()[index]);
    assert forall|k: int, j: int|
        0 <= k < ds.len() && #[trigger] first_resolving(bundles_of(ps), ds[k], j)
            && !busy[j] implies ps[j].is_loaded by {
        assert(first_resolving(bundles_of(ms), ds[k], j));
    }
    assert forall|p: int, k: int|
        0 <= p < ps.len() && ps[p].is_loaded && 0 <= k < ps[p].depends.len()
            && dependencies_loaded(ms) implies satisfied(ps, #[trigger] ps[p].depends[k]) by {
        let d = ps[p].depends[k];
        if p == index {
            assert(before.views()[index].depends[k] == d);
            assert(ds[k] == d);
            assert(!blocked(before.bundles(), d, busy));
            let j = choose|j: int| #[trigger] first_resolving(before.bundles(), d, j) && !busy[j];
            assert(first_resolving(bundles_of(ms), ds[k], j));
            assert(ms[j].is_loaded);
            assert(ps[j].is_loaded && admits(d, ps[j].bundle));
        } else {
            assert(ms[p].depends[k] == d);
            assert(satisfied(ms, ms[p].depends[k]));
            let q = choose|q: int| 0 <= q < ms.len() && (#[trigger] ms[q]).is_loaded && admits(d, ms[q].bundle);
            assert(ps[q].is_loaded && admits(d, ps[q].bundle));
        }
    }
    assert forall|p: int|
        0 <= p < after.spec_plugins().len() && (#[trigger] after.spec_plugins()[p])@.is_loaded
            && requests_answered(middle.spec_plugins(), middle.spec_requests()) implies covered(
        after.spec_plugins()[p].spec_requests(),
        after.spec_requests(),
    ) by {
        if p != index {
            assert(after.spec_plugins()[p] == middle.spec_plugins()[p]);
        }
    }
}

} // verus!
