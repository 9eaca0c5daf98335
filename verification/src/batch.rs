//! Registering and loading several plugins at once.

use vstd::prelude::*;
use crate::bundle::{filename_parse, Bundle, BundleView};
use crate::info::Info;
use crate::load::{
    complete, first_match_of, grows, lemma_depends_static, lemma_first_match_static,
    lemma_frame_composes, lemma_frame_grows, lemma_frame_keeps_graph,
    lemma_frame_keeps_required, lemma_provided_step, load_frame, load_plugin, loading,
    newly_loaded, none_busy, only_asked, provided, resolved_loaded,
};
use crate::loader::{
    read_path, reads, register_parsed, registration, same_host, Loader,
};
use crate::path::PluginPath;
use crate::plugin::{Plugin, PluginView};
use crate::solver::{
    all_depends, bundles_of, dependencies_loaded, depends_of, depends_on, is_dependency, is_depend_of_another,
    is_newest, is_newest_version, plugin_views,
};
use crate::teardown::{among, bundle_views, named, unregister_listed, without};
use crate::utils::error::{LoadPluginError, RegisterPluginError, UnregisterPluginError};

verus! {

/// Whether `p` is the record of a plugin registered from `path`.
pub open spec fn record_of<O: Send + Sync, I: Info>(p: Plugin<O, I>, path: PluginPath) -> bool {
    &&& path.is_dir
    &&& path.file_name is Some
    &&& p.tied()
    &&& filename_parse(path.file_name->0@) == Ok::<BundleView, crate::utils::error::BundleFault>(
        p@.bundle,
    )
    &&& p.spec_info().path@ == path.path@
}

/// The plugins of `after` are those of `before`, then one record for each
/// of the first `n` paths, in order, not loaded and without functions, with
/// the bundles `bundles`.
pub open spec fn appended<O: Send + Sync, I: Info>(
    before: &Loader<O, I>,
    after: &Loader<O, I>,
    paths: Seq<PluginPath>,
    bundles: Seq<Bundle>,
    n: int,
) -> bool {
    &&& bundles.len() == n
    &&& after.spec_plugins().len() == before.spec_plugins().len() + n
    &&& after.spec_plugins().take(before.spec_plugins().len() as int) == before.spec_plugins()
    &&& forall|k: int|
        0 <= k < n ==> {
            let p = #[trigger] after.spec_plugins()[before.spec_plugins().len() + k];
            &&& record_of(p, paths[k])
            &&& bundles[k]@ == p@.bundle
            &&& !p@.is_loaded
            &&& p.spec_requests().len() == 0
            &&& p.spec_registry().len() == 0
        }
}

/// Reads the bundle of each path, in order.
fn read_paths(paths: &Vec<PluginPath>) -> (r: Vec<Result<Bundle, RegisterPluginError>>)
    ensures
        r@.len() == paths@.len(),
        forall|k: int| 0 <= k < paths@.len() ==> reads(paths@[k], #[trigger] r@[k]),
{
    let mut out: Vec<Result<Bundle, RegisterPluginError>> = Vec::new();
    let mut k: usize = 0;
    while k < paths.len()
        invariant
            k <= paths.len(),
            out@.len() == k,
            forall|j: int| 0 <= j < k ==> reads(paths@[j], #[trigger] out@[j]),
        decreases paths.len() - k,
    {
        out.push(read_path(&paths[k]));
        k = k + 1;
    }
    out
}

/// Registers the plugins at the paths, in order. The first path that cannot
/// be registered ends the walk; the plugins before it stay registered.
pub fn register_plugins<O: Send + Sync, I: Info>(loader: &mut Loader<O, I>, paths: &Vec<PluginPath>) -> (r:
    Result<Vec<Bundle>, RegisterPluginError>)
    requires
        old(loader).wf(),
    ensures
        same_host(old(loader), final(loader)),
        registered_all(old(loader), final(loader), paths@, r),
{
    register_walk(loader, paths, read_paths(paths))
}

/// Registers the plugins at the paths as [`register_plugins`] does; the
/// bundles are read from the paths on several threads before the plugins
/// are registered one after the other.
pub fn par_register_plugins<O: Send + Sync, I: Info>(
    loader: &mut Loader<O, I>,
    paths: &Vec<PluginPath>,
) -> (r: Result<Vec<Bundle>, RegisterPluginError>)
    requires
        old(loader).wf(),
    ensures
        same_host(old(loader), final(loader)),
        registered_all(old(loader), final(loader), paths@, r),
{
    register_walk(loader, paths, crate::parallel::par_read_paths(paths))
}

/// Registers the plugins at the paths, in order, with the bundles that were
/// read from the paths.
fn register_walk<O: Send + Sync, I: Info>(
    loader: &mut Loader<O, I>,
    paths: &Vec<PluginPath>,
    parsed: Vec<Result<Bundle, RegisterPluginError>>,
) -> (r: Result<Vec<Bundle>, RegisterPluginError>)
    requires
        old(loader).wf(),
        parsed@.len() == paths@.len(),
        forall|k: int| 0 <= k < paths@.len() ==> reads(paths@[k], #[trigger] parsed@[k]),
    ensures
        same_host(old(loader), final(loader)),
        registered_all(old(loader), final(loader), paths@, r),
{
    let mut bundles: Vec<Bundle> = Vec::new();
    let mut k: usize = 0;
    assert(loader.spec_plugins().take(old(loader).spec_plugins().len() as int) =~= old(
        loader,
    ).spec_plugins());
    let mut parsed = parsed;
    while k < paths.len()
        invariant
            k <= paths.len(),
            same_host(old(loader), loader),
            appended(old(loader), loader, paths@, bundles@, k as int),
            parsed@.len() == paths@.len(),
            forall|j: int| k <= j < paths@.len() ==> reads(paths@[j], #[trigger] parsed@[j]),
        decreases paths.len() - k,
    {
        let mut taken: Result<Bundle, RegisterPluginError> = Err(RegisterPluginError::NotFound);
        std::mem::swap(&mut taken, &mut parsed[k]);
        match register_step(loader, &paths[k], taken, Ghost(*old(loader)), Ghost(paths@), &mut bundles) {
            Err(e) => {
                return Err(e);
            },
            Ok(_) => {},
        }
        k = k + 1;
    }
    Ok(bundles)
}

/// Registers the plugin at the next path of a walk and notes its bundle.
fn register_step<O: Send + Sync, I: Info>(
    loader: &mut Loader<O, I>,
    path: &PluginPath,
    parsed: Result<Bundle, RegisterPluginError>,
    Ghost(start): Ghost<Loader<O, I>>,
    Ghost(paths): Ghost<Seq<PluginPath>>,
    bundles: &mut Vec<Bundle>,
) -> (r: Result<(), RegisterPluginError>)
    requires
        old(loader).wf(),
        reads(*path, parsed),
        same_host(&start, old(loader)),
        old(bundles)@.len() < paths.len(),
        paths[old(bundles)@.len() as int] == *path,
        appended(&start, old(loader), paths, old(bundles)@, old(bundles)@.len() as int),
    ensures
        same_host(&start, final(loader)),
        match r {
            Ok(_) => appended(
                &start,
                final(loader),
                paths,
                final(bundles)@,
                old(bundles)@.len() as int + 1,
            ),
            Err(e) => {
                &&& final(bundles)@ == old(bundles)@
                &&& appended(&start, final(loader), paths, final(bundles)@, old(bundles)@.len() as int)
                &&& registration(final(loader), final(loader), *path, Err(e))
            },
        },
{
    let ghost n = bundles@.len() as int;
    let ghost base = start.spec_plugins().len() as int;
    match register_parsed(loader, path, parsed) {
        Err(e) => Err(e),
        Ok(bundle) => {
            bundles.push(bundle);
            proof {
                let now = loader.spec_plugins();
                let was = old(loader).spec_plugins();
                assert(now.drop_last() == was);
                assert(now.take(base) =~= was.take(base));
                assert forall|k: int| 0 <= k < n + 1 implies {
                    let p = #[trigger] now[base + k];
                    &&& record_of(p, paths[k])
                    &&& bundles@[k]@ == p@.bundle
                    &&& !p@.is_loaded
                    &&& p.spec_requests().len() == 0
                    &&& p.spec_registry().len() == 0
                } by {
                    if k < n {
                        assert(now[base + k] == now.drop_last()[base + k]);
                        assert(bundles@[k] == old(bundles)@[k]);
                    } else {
                        assert(now[base + k] == now.last());
                    }
                }
            }
            Ok(())
        },
    }
}

/// The positions below `n` of the plugins that no other plugin depends on,
/// in order.
pub open spec fn roots(ps: Seq<PluginView>, n: int) -> Seq<usize>
    decreases n,
{
    if n <= 0 {
        Seq::empty()
    } else if is_dependency(ps, n - 1) {
        roots(ps, n - 1)
    } else {
        roots(ps, n - 1).push((n - 1) as usize)
    }
}

/// Every member of `roots(ps, n)` is a position below `n` of a plugin that
/// no other depends on, and every such position is a member.
pub proof fn lemma_roots(ps: Seq<PluginView>, n: int)
    requires
        0 <= n <= usize::MAX,
    ensures
        forall|s: int|
            0 <= s < roots(ps, n).len() ==> (#[trigger] roots(ps, n)[s]) < n && !is_dependency(
                ps,
                roots(ps, n)[s] as int,
            ),
        forall|i: int| 0 <= i < n && !is_dependency(ps, i) ==> roots(ps, n).contains(i as usize),
    decreases n,
{
    if n > 0 {
        lemma_roots(ps, n - 1);
        let before = roots(ps, n - 1);
        let now = roots(ps, n);
        assert forall|i: int| 0 <= i < n && !is_dependency(ps, i) implies now.contains(i as usize) by {
            if i < n - 1 {
                let s = before.index_of(i as usize);
                assert(now[s] == i as usize);
            } else {
                assert(now[now.len() - 1] == i as usize);
            }
        }
    }
}

/// The positions of the plugins that no other plugin depends on, in order.
pub fn non_dependents<O: Send + Sync, I: Info>(plugins: &Vec<Plugin<O, I>>) -> (r: Vec<usize>)
    ensures
        r@ == roots(plugin_views(plugins@), plugins@.len() as int),
{
    let mut out: Vec<usize> = Vec::new();
    let mut i: usize = 0;
    while i < plugins.len()
        invariant
            i <= plugins.len(),
            out@ == roots(plugin_views(plugins@), i as int),
        decreases plugins.len() - i,
    {
        if !is_depend_of_another(plugins, i) {
            out.push(i);
        }
        i = i + 1;
    }
    out
}

/// Whether a plugin is a dependency of another depends on the bundles and
/// the dependencies alone.
pub proof fn lemma_dependency_static(a: Seq<PluginView>, b: Seq<PluginView>, i: int)
    requires
        a.len() == b.len(),
        bundles_of(a) == bundles_of(b),
        depends_of(a) == depends_of(b),
    ensures
        is_dependency(a, i) == is_dependency(b, i),
{
    assert forall|p: int| depends_on(a, p, i) == depends_on(b, p, i) by {
        if 0 <= p < a.len() {
            assert(depends_of(a)[p] == depends_of(b)[p]);
        }
    }
    if is_dependency(a, i) {
        let p = choose|p: int| p != i && #[trigger] depends_on(a, p, i);
        assert(depends_on(b, p, i));
    }
    if is_dependency(b, i) {
        let p = choose|p: int| p != i && #[trigger] depends_on(b, p, i);
        assert(depends_on(a, p, i));
    }
}

/// Every listed plugin is loaded.
pub open spec fn listed_loaded(ps: Seq<PluginView>, list: Seq<usize>, n: int) -> bool {
    forall|s: int| 0 <= s < n ==> ps[#[trigger] list[s] as int].is_loaded
}

/// Every plugin that was loaded between the two states is listed, or is the
/// first match of a dependency of a plugin that was loaded between them.
pub open spec fn only_listed(before: Seq<PluginView>, after: Seq<PluginView>, list: Seq<usize>) -> bool {
    forall|j: int| #[trigger]
        newly_loaded(before, after, j) ==> among(list, list.len() as int, j) || exists|p: int|
            newly_loaded(before, after, p) && #[trigger] first_match_of(after, p, j)
}

/// After the listed plugins were loaded up to the state `b`, loading one
/// more of them gives a state in which, again, only what the list asks for
/// was loaded.
proof fn lemma_listed_step(
    a: Seq<PluginView>,
    b: Seq<PluginView>,
    c: Seq<PluginView>,
    list: Seq<usize>,
    s: int,
    marks: Seq<bool>,
)
    requires
        grows(a, b),
        grows(b, c),
        0 <= s < list.len(),
        0 <= list[s] < a.len(),
        only_listed(a, b, list),
        complete(a, b, marks),
        only_asked(b, c, list[s] as int),
        complete(b, c, marks),
        c[list[s] as int].is_loaded,
        b[list[s] as int].is_loaded ==> c == b,
    ensures
        only_listed(a, c, list),
        complete(a, c, marks),
{
    let index = list[s] as int;
    assert(among(list, list.len() as int, index));
    assert forall|x: int| #[trigger] newly_loaded(a, c, x) implies among(list, list.len() as int, x)
        || exists|p: int| newly_loaded(a, c, p) && #[trigger] first_match_of(c, p, x) by {
        if b[x].is_loaded {
            assert(newly_loaded(a, b, x));
            if !among(list, list.len() as int, x) {
                let p = choose|p: int| newly_loaded(a, b, p) && #[trigger] first_match_of(b, p, x);
                lemma_first_match_static(b, c, p, x);
                assert(newly_loaded(a, c, p) && first_match_of(c, p, x));
            }
        } else {
            assert(newly_loaded(b, c, x));
            assert(!b[index].is_loaded);
            assert(newly_loaded(a, c, index));
            if x != index {
                let p = choose|p: int|
                    (p == index || newly_loaded(b, c, p)) && #[trigger] first_match_of(c, p, x);
                assert(newly_loaded(a, c, p));
            }
        }
    }
    assert forall|p: int| #[trigger] newly_loaded(a, c, p) implies resolved_loaded(
        c,
        all_depends(c[p]),
        marks,
        all_depends(c[p]).len() as int,
    ) by {
        lemma_depends_static(b, c, p);
        if b[p].is_loaded {
            assert(newly_loaded(a, b, p));
            assert(resolved_loaded(b, all_depends(b[p]), marks, all_depends(b[p]).len() as int));
        } else {
            assert(newly_loaded(b, c, p));
        }
    }
}

/// The walk over `list` ended at position `s` with the error `e`: the
/// plugins listed before it are loaded, and loading the plugin listed
/// there failed for the reason that `e` gives.
pub open spec fn stopped_at<O: Send + Sync, I: Info>(
    before: &Loader<O, I>,
    after: &Loader<O, I>,
    list: Seq<usize>,
    s: int,
    e: LoadPluginError,
) -> bool {
    &&& 0 <= s < list.len()
    &&& listed_loaded(after.views(), list, s)
    &&& !before.views()[list[s] as int].is_loaded
    &&& loading(
        before,
        after,
        list[s] as int,
        none_busy(before.spec_plugins().len()).update(list[s] as int, true),
        Err(e),
    )
}

/// Loads the plugins at the listed positions, in order. The first plugin
/// that fails to load ends the walk.
///
/// Where every listed plugin is loaded already the walk succeeds and
/// changes nothing. After a success every listed plugin is loaded. A
/// failure is that of the first listed plugin that could not be loaded:
/// those before it are loaded, and it is not.
pub fn load_listed<O: Send + Sync, I: Info>(loader: &mut Loader<O, I>, list: &Vec<usize>) -> (r:
    Result<(), LoadPluginError>)
    requires
        old(loader).wf(),
        forall|s: int| 0 <= s < list@.len() ==> (#[trigger] list@[s]) < old(loader).spec_plugins().len(),
    ensures
        load_frame(old(loader), final(loader)),
        listed_loaded(old(loader).views(), list@, list@.len() as int) ==> r is Ok
            && final(loader).spec_plugins() == old(loader).spec_plugins(),
        match r {
            Ok(_) => {
                &&& listed_loaded(final(loader).views(), list@, list@.len() as int)
                &&& only_listed(old(loader).views(), final(loader).views(), list@)
                &&& complete(
                    old(loader).views(),
                    final(loader).views(),
                    none_busy(old(loader).spec_plugins().len()),
                )
                &&& provided(old(loader).views(), final(loader).views())
            },
            Err(e) => exists|s: int| #[trigger] stopped_at(old(loader), final(loader), list@, s, e),
        },
{
    proof {
        lemma_frame_same(old(loader));
    }
    let ghost marks = none_busy(old(loader).spec_plugins().len());
    let mut s: usize = 0;
    while s < list.len()
        invariant
            s <= list.len(),
            forall|t: int| 0 <= t < list@.len() ==> (#[trigger] list@[t]) < old(loader).spec_plugins().len(),
            load_frame(old(loader), loader),
            listed_loaded(loader.views(), list@, s as int),
            listed_loaded(old(loader).views(), list@, list@.len() as int) ==> loader.spec_plugins()
                == old(loader).spec_plugins(),
            marks == none_busy(old(loader).spec_plugins().len()),
            only_listed(old(loader).views(), loader.views(), list@),
            complete(old(loader).views(), loader.views(), marks),
            provided(old(loader).views(), loader.views()),
        decreases list.len() - s,
    {
        let ghost before = *loader;
        let at = list[s];
        let outcome = load_plugin(loader, at);
        proof {
            lemma_frame_composes(old(loader), &before, loader);
            lemma_frame_keeps_graph(old(loader), &before);
            if outcome is Ok {
                lemma_frame_grows(old(loader), &before);
                lemma_frame_grows(&before, loader);
                if before.views()[at as int].is_loaded {
                    assert(loader.spec_plugins() == before.spec_plugins());
                    assert(loader.views() =~= before.views());
                }
                lemma_listed_step(
                    old(loader).views(),
                    before.views(),
                    loader.views(),
                    list@,
                    s as int,
                    marks,
                );
                lemma_frame_keeps_required(old(loader), &before);
                lemma_frame_keeps_required(&before, loader);
                if !before.views()[at as int].is_loaded {
                    assert(provided(before.views(), loader.views()));
                }
                lemma_provided_step(old(loader).views(), before.views(), loader.views());
            }
            if outcome is Ok {
                assert forall|t: int| 0 <= t < s + 1 implies loader.views()[#[trigger] list@[t] as int].is_loaded by {
                    if t < s {
                        assert(before.views()[list@[t] as int].is_loaded);
                        assert(loader.spec_plugins()[list@[t] as int] == before.spec_plugins()[list@[t] as int]);
                    }
                }
            }
            if listed_loaded(old(loader).views(), list@, list@.len() as int) {
                assert(old(loader).views()[list@[s as int] as int].is_loaded);
                assert(before.views()[at as int].is_loaded);
            }
        }
        if let Err(e) = outcome {
            proof {
                let i = at as int;
                assert(!before.views()[i].is_loaded);
                assert(before.spec_plugins()[i].identity() == old(loader).spec_plugins()[i].identity());
                if old(loader).views()[i].is_loaded {
                    assert(before.spec_plugins()[i] == old(loader).spec_plugins()[i]);
                }
                assert(before.views()[i] == old(loader).views()[i]);
                assert forall|t: int| 0 <= t < s implies loader.views()[#[trigger] list@[t] as int].is_loaded by {
                    assert(before.views()[list@[t] as int].is_loaded);
                    assert(loader.spec_plugins()[list@[t] as int] == before.spec_plugins()[list@[t] as int]);
                }
                assert(stopped_at(old(loader), loader, list@, s as int, e));
            }
            return Err(e);
        }
        s = s + 1;
    }
    Ok(())
}

/// A state keeps its own frame.
pub proof fn lemma_frame_same<O: Send + Sync, I: Info>(loader: &Loader<O, I>)
    requires
        loader.wf(),
    ensures
        load_frame(loader, loader),
{
}

/// Every plugin of `after` that no other plugin depends on is loaded, and
/// nothing but loading has happened since `before`: what was loaded is such
/// a plugin or the first match of a dependency of a plugin that was loaded,
/// and every plugin that was loaded has the first match of each of its
/// dependencies loaded.
pub open spec fn roots_loaded<O: Send + Sync, I: Info>(before: &Loader<O, I>, after: &Loader<O, I>) -> bool {
    &&& load_frame(before, after)
    &&& only_listed(before.views(), after.views(), roots(before.views(), before.views().len() as int))
    &&& complete(before.views(), after.views(), none_busy(before.views().len()))
    &&& provided(before.views(), after.views())
    &&& forall|i: int|
        0 <= i < after.views().len() && !is_dependency(after.views(), i) ==> (
        #[trigger] after.views()[i]).is_loaded
}

/// Registers the plugins at the paths, then loads every registered plugin
/// that no other plugin depends on; the others are loaded with them as
/// their dependencies.
///
/// The result holds the bundles of the plugins that were registered. A
/// failure to register comes as the first part of the error, a failure to
/// load as the second.
pub fn load_plugins<O: Send + Sync, I: Info>(loader: &mut Loader<O, I>, paths: &Vec<PluginPath>) -> (r:
    Result<Vec<Bundle>, (Option<RegisterPluginError>, Option<LoadPluginError>)>)
    requires
        old(loader).wf(),
    ensures
        same_host(old(loader), final(loader)),
        loaded_all(old(loader), final(loader), paths@, r),
{
    load_plugins_with(loader, paths, false)
}

/// Registers and loads the plugins at the paths as [`load_plugins`] does;
/// reading the bundles and finding the plugins that no other depends on is
/// spread over several threads, the plugins are registered and loaded one
/// after the other.
pub fn par_load_plugins<O: Send + Sync, I: Info>(loader: &mut Loader<O, I>, paths: &Vec<PluginPath>) -> (r:
    Result<Vec<Bundle>, (Option<RegisterPluginError>, Option<LoadPluginError>)>)
    requires
        old(loader).wf(),
    ensures
        same_host(old(loader), final(loader)),
        loaded_all(old(loader), final(loader), paths@, r),
{
    load_plugins_with(loader, paths, true)
}

/// Registers the plugins at the paths and loads those that no other plugin
/// depends on, with or without the help of several threads.
fn load_plugins_with<O: Send + Sync, I: Info>(
    loader: &mut Loader<O, I>,
    paths: &Vec<PluginPath>,
    parallel: bool,
) -> (r: Result<Vec<Bundle>, (Option<RegisterPluginError>, Option<LoadPluginError>)>)
    requires
        old(loader).wf(),
    ensures
        same_host(old(loader), final(loader)),
        loaded_all(old(loader), final(loader), paths@, r),
{
    let registered = if parallel {
        par_register_plugins(loader, paths)
    } else {
        register_plugins(loader, paths)
    };
    let bundles = match registered {
        Err(e) => {
            return Err((Some(e), None));
        },
        Ok(bundles) => bundles,
    };
    let ghost mid = *loader;
    let list = if parallel {
        crate::parallel::par_non_dependents(&loader.plugins)
    } else {
        non_dependents(&loader.plugins)
    };
    proof {
        let count = loader.plugins.len();
        lemma_roots(loader.views(), count as int);
    }
    match load_listed(loader, &list) {
        Err(e) => {
            let failure: Result<Vec<Bundle>, (Option<RegisterPluginError>, Option<LoadPluginError>)> =
                Err((None, Some(e)));
            proof {
                let s = choose|s: int| #[trigger] stopped_at(&mid, loader, list@, s, e);
                assert(stopped_at(&mid, loader, roots(mid.views(), mid.views().len() as int), s, e));
                assert(appended(old(loader), &mid, paths@, bundles@, paths@.len() as int)
                    && load_frame(&mid, loader));
                assert(failure matches Err((None, Some(x))) && x == e);
            }
            failure
        },
        Ok(_) => {
            proof {
                lemma_frame_keeps_graph(&mid, loader);
                assert forall|i: int|
                    0 <= i < loader.views().len() && !is_dependency(loader.views(), i) implies (
                #[trigger] loader.views()[i]).is_loaded by {
                    lemma_dependency_static(mid.views(), loader.views(), i);
                    let s = list@.index_of(i as usize);
                    assert(list@[s] == i);
                }
                assert(appended(old(loader), &mid, paths@, bundles@, paths@.len() as int)
                    && roots_loaded(&mid, loader));
            }
            let done: Result<Vec<Bundle>, (Option<RegisterPluginError>, Option<LoadPluginError>)> = Ok(bundles);
            assert(done matches Ok(b) && appended(old(loader), &mid, paths@, b@, paths@.len() as int)
                    && roots_loaded(&mid, loader));
            done
        },
    }
}

/// Plugin `i` is one that no other depends on and that has the highest
/// version of its id.
pub open spec fn is_used(ps: Seq<PluginView>, i: int) -> bool {
    !is_dependency(ps, i) && is_newest(bundles_of(ps), i)
}

/// Plugin `i` is one that no other depends on and that a higher version of
/// its id supersedes.
pub open spec fn is_superseded_root(ps: Seq<PluginView>, i: int) -> bool {
    !is_dependency(ps, i) && !is_newest(bundles_of(ps), i)
}

/// The positions below `n` of the used plugins, in order.
pub open spec fn used_roots(ps: Seq<PluginView>, n: int) -> Seq<usize>
    decreases n,
{
    if n <= 0 {
        Seq::empty()
    } else if is_used(ps, n - 1) {
        used_roots(ps, n - 1).push((n - 1) as usize)
    } else {
        used_roots(ps, n - 1)
    }
}

/// The bundles of the superseded plugins at positions below `n`, in order.
pub open spec fn superseded_roots(ps: Seq<PluginView>, n: int) -> Seq<BundleView>
    decreases n,
{
    if n <= 0 {
        Seq::empty()
    } else if is_superseded_root(ps, n - 1) {
        superseded_roots(ps, n - 1).push(ps[n - 1].bundle)
    } else {
        superseded_roots(ps, n - 1)
    }
}

/// Every position in `used_roots(ps, n)` lies below `n`, and every used
/// plugin below `n` has its position in it.
pub proof fn lemma_used_roots(ps: Seq<PluginView>, n: int)
    requires
        0 <= n <= usize::MAX,
    ensures
        forall|s: int| 0 <= s < used_roots(ps, n).len() ==> (#[trigger] used_roots(ps, n)[s]) < n,
        forall|i: int| 0 <= i < n && is_used(ps, i) ==> used_roots(ps, n).contains(i as usize),
    decreases n,
{
    if n > 0 {
        lemma_used_roots(ps, n - 1);
        let before = used_roots(ps, n - 1);
        let now = used_roots(ps, n);
        assert forall|i: int| 0 <= i < n && is_used(ps, i) implies now.contains(i as usize) by {
            if i < n - 1 {
                let s = before.index_of(i as usize);
                assert(now[s] == i as usize);
            } else {
                assert(now[now.len() - 1] == i as usize);
            }
        }
    }
}

/// The used plugins by position and the superseded ones by bundle.
pub fn partition_roots<O: Send + Sync, I: Info>(plugins: &Vec<Plugin<O, I>>) -> (r: (
    Vec<usize>,
    Vec<Bundle>,
))
    ensures
        r.0@ == used_roots(plugin_views(plugins@), plugins@.len() as int),
        bundle_views(r.1@) == superseded_roots(plugin_views(plugins@), plugins@.len() as int),
{
    let ghost ps = plugin_views(plugins@);
    let mut used: Vec<usize> = Vec::new();
    let mut unused: Vec<Bundle> = Vec::new();
    let mut i: usize = 0;
    while i < plugins.len()
        invariant
            i <= plugins.len(),
            ps == plugin_views(plugins@),
            used@ == used_roots(ps, i as int),
            bundle_views(unused@) == superseded_roots(ps, i as int),
        decreases plugins.len() - i,
    {
        if !is_depend_of_another(plugins, i) {
            if is_newest_version(plugins, i) {
                used.push(i);
            } else {
                let ghost before = unused@;
                unused.push(plugins[i].info.bundle.clone());
                assert(bundle_views(unused@) =~= bundle_views(before).push(ps[i as int].bundle));
            }
        }
        i = i + 1;
    }
    (used, unused)
}

/// The bundles of `bundles` that are not among `names`, in order.
pub open spec fn kept(bundles: Seq<BundleView>, names: Seq<BundleView>) -> Seq<BundleView> {
    bundles.filter(|b: BundleView| !named(names, b))
}

/// Whether a bundle of `names` has the id and version of `bundle`.
fn is_named(names: &Vec<Bundle>, bundle: &Bundle) -> (r: bool)
    ensures
        r == named(bundle_views(names@), bundle@),
{
    let mut k: usize = 0;
    while k < names.len()
        invariant
            k <= names.len(),
            forall|j: int|
                0 <= j < k ==> !crate::bundle::same_plugin(
                    #[trigger] bundle_views(names@)[j],
                    bundle@,
                ),
        decreases names.len() - k,
    {
        if names[k].same_plugin(bundle) {
            assert(crate::bundle::same_plugin(bundle_views(names@)[k as int], bundle@));
            return true;
        }
        k = k + 1;
    }
    false
}

/// The bundles of `bundles` that are not among `names`, in order.
fn retain_kept(bundles: &Vec<Bundle>, names: &Vec<Bundle>) -> (r: Vec<Bundle>)
    ensures
        bundle_views(r@) == kept(bundle_views(bundles@), bundle_views(names@)),
{
    let ghost pred = |b: BundleView| !named(bundle_views(names@), b);
    let ghost all = bundle_views(bundles@);
    let mut out: Vec<Bundle> = Vec::new();
    let mut i: usize = 0;
    assert(all.take(0).filter(pred) =~= Seq::<BundleView>::empty()) by {
        reveal_with_fuel(Seq::filter, 1);
        assert(all.take(0) =~= Seq::<BundleView>::empty());
    }
    while i < bundles.len()
        invariant
            i <= bundles.len(),
            all == bundle_views(bundles@),
            pred == (|b: BundleView| !named(bundle_views(names@), b)),
            bundle_views(out@) == all.take(i as int).filter(pred),
        decreases bundles.len() - i,
    {
        let ghost before = out@;
        proof {
            crate::teardown::lemma_filter_push(all.take(i as int), bundles@[i as int]@, pred);
            assert(all.take(i + 1) =~= all.take(i as int).push(bundles@[i as int]@));
        }
        let drop = is_named(names, &bundles[i]);
        assert(pred(bundles@[i as int]@) == !drop);
        if !drop {
            out.push(bundles[i].clone());
            assert(bundle_views(out@) =~= bundle_views(before).push(bundles@[i as int]@));
        }
        i = i + 1;
    }
    assert(all.take(bundles@.len() as int) =~= all);
    out
}

/// Every used plugin of `after` is loaded, and nothing but loading has
/// happened since `before`: what was loaded is a used plugin or the first
/// match of a dependency of a plugin that was loaded, and every plugin that
/// was loaded has the first match of each of its dependencies loaded.
pub open spec fn used_loaded<O: Send + Sync, I: Info>(before: &Loader<O, I>, after: &Loader<O, I>) -> bool {
    &&& load_frame(before, after)
    &&& only_listed(
        before.views(),
        after.views(),
        used_roots(before.views(), before.views().len() as int),
    )
    &&& complete(before.views(), after.views(), none_busy(before.views().len()))
    &&& provided(before.views(), after.views())
    &&& forall|i: int|
        0 <= i < after.views().len() && is_used(after.views(), i) ==> (
        #[trigger] after.views()[i]).is_loaded
}

/// The state `after` is the state `loaded` without the plugins that the
/// first `n` superseded plugins of `loaded` name.
pub open spec fn pruned<O: Send + Sync, I: Info>(
    loaded: &Loader<O, I>,
    after: &Loader<O, I>,
    n: int,
) -> bool {
    after.spec_plugins() == without(
        loaded.spec_plugins(),
        superseded_roots(loaded.views(), loaded.views().len() as int).take(n),
    )
}

/// Registers the plugins at the paths, loads the plugins that are in use,
/// and unregisters the superseded ones.
///
/// Of the registered plugins that no other plugin depends on, those with
/// the highest version of their id are loaded, with their dependencies; the
/// others are unregistered afterwards. The result holds the bundles of the
/// plugins that were registered by this call and are still registered. A
/// failure to register comes as the first part of the error, a failure to
/// unregister as the second, a failure to load as the third.
pub fn load_only_used_plugins<O: Send + Sync, I: Info>(
    loader: &mut Loader<O, I>,
    paths: &Vec<PluginPath>,
) -> (r: Result<
    Vec<Bundle>,
    (Option<RegisterPluginError>, Option<UnregisterPluginError>, Option<LoadPluginError>),
>)
    requires
        old(loader).wf(),
    ensures
        same_host(old(loader), final(loader)),
        pruned_all(old(loader), final(loader), paths@, r),
{
    load_only_used_with(loader, paths, false)
}

/// Registers, loads and prunes as [`load_only_used_plugins`] does; the
/// bundles are read from the paths on several threads.
pub fn par_load_only_used_plugins<O: Send + Sync, I: Info>(
    loader: &mut Loader<O, I>,
    paths: &Vec<PluginPath>,
) -> (r: Result<
    Vec<Bundle>,
    (Option<RegisterPluginError>, Option<UnregisterPluginError>, Option<LoadPluginError>),
>)
    requires
        old(loader).wf(),
    ensures
        same_host(old(loader), final(loader)),
        pruned_all(old(loader), final(loader), paths@, r),
{
    load_only_used_with(loader, paths, true)
}

/// Registers the plugins at the paths, loads those in use and unregisters
/// the superseded ones, with or without the help of several threads.
fn load_only_used_with<O: Send + Sync, I: Info>(
    loader: &mut Loader<O, I>,
    paths: &Vec<PluginPath>,
    parallel: bool,
) -> (r: Result<
    Vec<Bundle>,
    (Option<RegisterPluginError>, Option<UnregisterPluginError>, Option<LoadPluginError>),
>)
    requires
        old(loader).wf(),
    ensures
        same_host(old(loader), final(loader)),
        pruned_all(old(loader), final(loader), paths@, r),
{
    let registered = if parallel {
        par_register_plugins(loader, paths)
    } else {
        register_plugins(loader, paths)
    };
    let all = match registered {
        Err(e) => {
            let failure: Result<
                Vec<Bundle>,
                (Option<RegisterPluginError>, Option<UnregisterPluginError>, Option<LoadPluginError>),
            > = Err((Some(e), None, None));
            assert(failure matches Err((Some(x), None, None)) && x == e);
            return failure;
        },
        Ok(all) => all,
    };
    let ghost mid = *loader;
    let (used, unused) = partition_roots(&loader.plugins);
    proof {
        let count = loader.plugins.len();
        lemma_used_roots(loader.views(), count as int);
    }
    if let Err(e) = load_listed(loader, &used) {
        let failure: Result<
            Vec<Bundle>,
            (Option<RegisterPluginError>, Option<UnregisterPluginError>, Option<LoadPluginError>),
        > = Err((None, None, Some(e)));
        assert(failure matches Err((None, None, Some(x))) && x == e);
        proof {
            let s = choose|s: int| #[trigger] stopped_at(&mid, loader, used@, s, e);
            assert(stopped_at(&mid, loader, used_roots(mid.views(), mid.views().len() as int), s, e));
            assert(appended(old(loader), &mid, paths@, all@, paths@.len() as int) && load_frame(
                &mid,
                loader,
            ));
        }
        return failure;
    }
    let ghost loaded = *loader;
    let ghost names = superseded_roots(loaded.views(), loaded.views().len() as int);
    proof {
        lemma_frame_keeps_graph(&mid, &loaded);
        lemma_partition_static(mid.views(), loaded.views(), loaded.views().len() as int);
        assert(loaded.views().len() == mid.views().len());
        assert(mid.bundles() == loaded.bundles());
        assert forall|i: int| 0 <= i < loaded.views().len() && is_used(loaded.views(), i) implies (
        #[trigger] loaded.views()[i]).is_loaded by {
            lemma_dependency_static(mid.views(), loaded.views(), i);
            assert(is_used(mid.views(), i));
            assert(used@.contains(i as usize));
            let s = used@.index_of(i as usize);
            assert(used@[s] == i);
        }
        assert(used_loaded(&mid, &loaded));
        assert(bundle_views(unused@) == names);
    }
    match unregister_listed(loader, &unused) {
        Err((done, e)) => {
            let failure: Result<
                Vec<Bundle>,
                (Option<RegisterPluginError>, Option<UnregisterPluginError>, Option<LoadPluginError>),
            > = Err((None, Some(e), None));
            assert(failure matches Err((None, Some(_), None)));
            proof {
                let n = if e is UnloadError {
                    done as int
                } else {
                    done + 1
                };
                assert(appended(old(loader), &mid, paths@, all@, paths@.len() as int) && used_loaded(
                    &mid,
                    &loaded,
                ) && pruned(&loaded, loader, n));
            }
            failure
        },
        Ok(_) => {
            let ghost before = all@;
            let bundles = retain_kept(&all, &unused);
            proof {
                assert(appended(old(loader), &mid, paths@, before, paths@.len() as int) && used_loaded(
                    &mid,
                    &loaded,
                ) && loader.spec_plugins() == without(loaded.spec_plugins(), names) && bundle_views(
                    bundles@,
                ) == kept(bundle_views(before), names));
            }
            let done: Result<
                Vec<Bundle>,
                (Option<RegisterPluginError>, Option<UnregisterPluginError>, Option<LoadPluginError>),
            > = Ok(bundles);
            assert(done matches Ok(b) && bundle_views(b@) == kept(bundle_views(before), names));
            done
        },
    }
}

/// Which plugins are in use and which are superseded depends on the
/// bundles and the dependencies alone.
pub proof fn lemma_partition_static(a: Seq<PluginView>, b: Seq<PluginView>, n: int)
    requires
        a.len() == b.len(),
        n <= a.len(),
        bundles_of(a) == bundles_of(b),
        depends_of(a) == depends_of(b),
    ensures
        used_roots(a, n) == used_roots(b, n),
        superseded_roots(a, n) == superseded_roots(b, n),
    decreases n,
{
    if n > 0 {
        lemma_partition_static(a, b, n - 1);
        lemma_dependency_static(a, b, n - 1);
        assert(bundles_of(a)[n - 1] == bundles_of(b)[n - 1]);
    }
}

/// What registering the plugins at `paths` comes to: a record appended for
/// each path, or the failure of the first path that cannot be registered,
/// with the plugins before it registered.
pub open spec fn registered_all<O: Send + Sync, I: Info>(
    before: &Loader<O, I>,
    after: &Loader<O, I>,
    paths: Seq<PluginPath>,
    r: Result<Vec<Bundle>, RegisterPluginError>,
) -> bool {
    &&& match r {
        Ok(bundles) => appended(
            before,
            after,
            paths,
            bundles@,
            paths.len() as int,
        ),
        Err(e) => exists|n: int, bundles: Seq<Bundle>|
            0 <= n < paths.len() && #[trigger] appended(
                before,
                after,
                paths,
                bundles,
                n,
            ) && registration(after, after, paths[n], Err(e)),
    }
}

/// What registering and loading the plugins at `paths` comes to.
///
/// On success every path has its record, and every plugin of the engine
/// that no other plugin depends on is loaded. A failure to register leaves
/// the plugins before the failing path registered and nothing loaded; after
/// a failure to load all paths are registered.
pub open spec fn loaded_all<O: Send + Sync, I: Info>(
    before: &Loader<O, I>,
    after: &Loader<O, I>,
    paths: Seq<PluginPath>,
    r: Result<Vec<Bundle>, (Option<RegisterPluginError>, Option<LoadPluginError>)>,
) -> bool {
    &&& r matches Ok(bundles) ==> exists|mid: Loader<O, I>|
        #[trigger] appended(before, &mid, paths, bundles@, paths.len() as int)
            && roots_loaded(&mid, after)
    &&& r matches Err((Some(e), second)) ==> second is None && exists|n: int, bundles: Seq<Bundle>|
        0 <= n < paths.len() && #[trigger] appended(
            before,
            after,
            paths,
            bundles,
            n,
        ) && registration(after, after, paths[n], Err(e))
    &&& r matches Err((None, second)) ==> second matches Some(e) && exists|
        mid: Loader<O, I>,
        bundles: Seq<Bundle>,
    |
        #[trigger] appended(before, &mid, paths, bundles, paths.len() as int)
            && load_frame(&mid, after) && exists|s: int|
            #[trigger] stopped_at(
                &mid,
                after,
                roots(mid.views(), mid.views().len() as int),
                s,
                e,
            )
}

/// What registering the plugins at `paths`, loading those in use and
/// unregistering the superseded ones comes to.
///
/// On success every plugin in use is loaded, the superseded plugins are
/// gone, and the result holds the bundles that were registered and are not
/// superseded. A failure to register, load or unregister ends the operation
/// where it occurs.
pub open spec fn pruned_all<O: Send + Sync, I: Info>(
    before: &Loader<O, I>,
    after: &Loader<O, I>,
    paths: Seq<PluginPath>,
    r: Result<
        Vec<Bundle>,
        (Option<RegisterPluginError>, Option<UnregisterPluginError>, Option<LoadPluginError>),
    >,
) -> bool {
    &&& r matches Ok(bundles) ==> exists|mid: Loader<O, I>, all: Seq<Bundle>, loaded: Loader<O, I>|
        #[trigger] appended(before, &mid, paths, all, paths.len() as int)
            && #[trigger] used_loaded(&mid, &loaded) && after.spec_plugins() == without(
            loaded.spec_plugins(),
            superseded_roots(loaded.views(), loaded.views().len() as int),
        ) && bundle_views(bundles@) == kept(
            bundle_views(all),
            superseded_roots(loaded.views(), loaded.views().len() as int),
        )
    &&& r matches Err((Some(e), second, third)) ==> second is None && third is None && exists|
        n: int,
        bundles: Seq<Bundle>,
    |
        0 <= n < paths.len() && #[trigger] appended(
            before,
            after,
            paths,
            bundles,
            n,
        ) && registration(after, after, paths[n], Err(e))
    &&& r matches Err((None, None, third)) ==> third matches Some(e) && exists|
        mid: Loader<O, I>,
        all: Seq<Bundle>,
    |
        #[trigger] appended(before, &mid, paths, all, paths.len() as int) && load_frame(
            &mid,
            after,
        ) && exists|s: int|
            #[trigger] stopped_at(
                &mid,
                after,
                used_roots(mid.views(), mid.views().len() as int),
                s,
                e,
            )
    &&& r matches Err((None, Some(e), third)) ==> third is None && exists|
        mid: Loader<O, I>,
        all: Seq<Bundle>,
        loaded: Loader<O, I>,
        n: int,
    |
        #[trigger] appended(before, &mid, paths, all, paths.len() as int)
            && #[trigger] used_loaded(&mid, &loaded) && #[trigger] pruned(
            &loaded,
            after,
            n,
        )
}

} // verus!
