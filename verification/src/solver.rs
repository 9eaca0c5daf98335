//! The dependency rules: which plugin satisfies a dependency, which plugins
//! are dependencies of others, and which plugin keeps another from being
//! unloaded.
//!
//! Wherever a dependency is looked up, the plugin with the highest version
//! that the dependency admits is taken.

use vstd::prelude::*;
use crate::bundle::BundleView;
use crate::info::{admits, Depend, DependView, Info};
use crate::plugin::{Plugin, PluginView};
use crate::version::{requirement_admits, version_higher};

verus! {

/// The values of a list of plugin records.
pub open spec fn plugin_views<O: Send + Sync, I: Info>(plugins: Seq<Plugin<O, I>>) -> Seq<
    PluginView,
> {
    plugins.map_values(|p: Plugin<O, I>| p@)
}

/// The bundles of a list of plugins.
pub open spec fn bundles_of(ps: Seq<PluginView>) -> Seq<BundleView> {
    ps.map_values(|p: PluginView| p.bundle)
}

/// The dependencies of a plugin: the required ones, then the optional ones.
pub open spec fn all_depends(p: PluginView) -> Seq<DependView> {
    p.depends + p.optional_depends
}

/// The dependencies of each plugin of a list.
pub open spec fn depends_of(ps: Seq<PluginView>) -> Seq<Seq<DependView>> {
    ps.map_values(|p: PluginView| all_depends(p))
}

/// Plugin `j` has the id of plugin `i`, a strictly higher version, and that
/// version is admitted by `d` too.
pub open spec fn supersedes(bs: Seq<BundleView>, d: DependView, j: int, i: int) -> bool {
    &&& 0 <= j < bs.len()
    &&& bs[j].id == bs[i].id
    &&& requirement_admits(d.req, bs[j].version)
    &&& version_higher(bs[j].version, bs[i].version)
}

/// Some plugin supersedes plugin `i` for the dependency `d`.
pub open spec fn superseded(bs: Seq<BundleView>, d: DependView, i: int) -> bool {
    exists|j: int| #[trigger] supersedes(bs, d, j, i)
}

/// Plugin `i` is a match of the dependency `d`: `d` admits it, and no other
/// plugin of the same id has a higher version that `d` admits as well.
pub open spec fn resolves(bs: Seq<BundleView>, d: DependView, i: int) -> bool {
    &&& 0 <= i < bs.len()
    &&& admits(d, bs[i])
    &&& !superseded(bs, d, i)
}

/// Plugin `i` is the first match of `d` in the list.
pub open spec fn first_resolving(bs: Seq<BundleView>, d: DependView, i: int) -> bool {
    &&& resolves(bs, d, i)
    &&& forall|j: int| 0 <= j < i ==> !resolves(bs, d, j)
}

/// No plugin of the list is a match of `d`.
pub open spec fn unresolved(bs: Seq<BundleView>, d: DependView) -> bool {
    forall|i: int| !resolves(bs, d, i)
}

/// Plugin `i` is a match of one of the dependencies, required or optional,
/// of plugin `p`.
pub open spec fn depends_on(ps: Seq<PluginView>, p: int, i: int) -> bool {
    &&& 0 <= p < ps.len()
    &&& exists|k: int|
        0 <= k < all_depends(ps[p]).len() && resolves(
            bundles_of(ps),
            #[trigger] all_depends(ps[p])[k],
            i,
        )
}

/// Plugin `i` is a match of a dependency of another plugin.
pub open spec fn is_dependency(ps: Seq<PluginView>, i: int) -> bool {
    exists|p: int| p != i && #[trigger] depends_on(ps, p, i)
}

/// No plugin of the same id has a higher version than plugin `i`.
pub open spec fn is_newest(bs: Seq<BundleView>, i: int) -> bool {
    forall|j: int|
        0 <= j < bs.len() ==> !(#[trigger] bs[j].id == bs[i].id && version_higher(
            bs[j].version,
            bs[i].version,
        ))
}

/// A loaded plugin supersedes plugin `i` for the dependency `d`.
pub open spec fn replaced(ps: Seq<PluginView>, d: DependView, i: int) -> bool {
    exists|j: int| #[trigger] supersedes(bundles_of(ps), d, j, i) && ps[j].is_loaded
}

/// The dependency `d` is satisfied by plugin `i` and no loaded plugin could
/// take its place.
pub open spec fn needs(ps: Seq<PluginView>, d: DependView, i: int) -> bool {
    admits(d, ps[i].bundle) && !replaced(ps, d, i)
}

/// The loaded plugin `p`, another one than `i`, needs plugin `i` for one of
/// its dependencies, required or optional.
pub open spec fn uses(ps: Seq<PluginView>, p: int, i: int) -> bool {
    &&& 0 <= p < ps.len()
    &&& p != i
    &&& ps[p].is_loaded
    &&& exists|k: int|
        0 <= k < all_depends(ps[p]).len() && needs(ps, #[trigger] all_depends(ps[p])[k], i)
}

/// Plugin `p` is the first one in the list that uses plugin `i`.
pub open spec fn first_user(ps: Seq<PluginView>, p: int, i: int) -> bool {
    &&& uses(ps, p, i)
    &&& forall|q: int| 0 <= q < p ==> !uses(ps, q, i)
}

/// No loaded plugin uses plugin `i`.
pub open spec fn unused(ps: Seq<PluginView>, i: int) -> bool {
    forall|p: int| !uses(ps, p, i)
}

/// Every required dependency of every loaded plugin is admitted by a loaded
/// plugin.
pub open spec fn dependencies_loaded(ps: Seq<PluginView>) -> bool {
    forall|p: int, k: int|
        0 <= p < ps.len() && ps[p].is_loaded && 0 <= k < ps[p].depends.len() ==> satisfied(
            ps,
            #[trigger] ps[p].depends[k],
        )
}

/// Some loaded plugin is admitted by `d`.
pub open spec fn satisfied(ps: Seq<PluginView>, d: DependView) -> bool {
    exists|q: int| 0 <= q < ps.len() && (#[trigger] ps[q]).is_loaded && admits(d, ps[q].bundle)
}

/// Whether a plugin of the list supersedes plugin `i` for `depend`.
pub fn is_superseded<O: Send + Sync, I: Info>(
    plugins: &Vec<Plugin<O, I>>,
    depend: &Depend,
    i: usize,
) -> (r: bool)
    requires
        i < plugins@.len(),
    ensures
        r == superseded(bundles_of(plugin_views(plugins@)), depend@, i as int),
{
    let ghost bs = bundles_of(plugin_views(plugins@));
    let mut j: usize = 0;
    while j < plugins.len()
        invariant
            j <= plugins.len(),
            i < plugins@.len(),
            bs == bundles_of(plugin_views(plugins@)),
            forall|q: int| 0 <= q < j ==> !supersedes(bs, depend@, q, i as int),
        decreases plugins.len() - j,
    {
        let other = &plugins[j].info.bundle;
        let this = &plugins[i].info.bundle;
        if other.id == this.id && depend.version.matches(&other.version)
            && other.version.is_higher_than(&this.version) {
            assert(supersedes(bs, depend@, j as int, i as int));
            return true;
        }
        j = j + 1;
    }
    false
}

/// Whether plugin `i` is a match of `depend`.
pub fn is_match<O: Send + Sync, I: Info>(plugins: &Vec<Plugin<O, I>>, depend: &Depend, i: usize) -> (r:
    bool)
    requires
        i < plugins@.len(),
    ensures
        r == resolves(bundles_of(plugin_views(plugins@)), depend@, i as int),
{
    plugins[i].satisfies(depend) && !is_superseded(plugins, depend, i)
}

/// The first plugin of the list that is a match of `depend`.
pub fn find_match<O: Send + Sync, I: Info>(plugins: &Vec<Plugin<O, I>>, depend: &Depend) -> (r:
    Option<usize>)
    ensures
        match r {
            Some(i) => first_resolving(bundles_of(plugin_views(plugins@)), depend@, i as int),
            None => unresolved(bundles_of(plugin_views(plugins@)), depend@),
        },
{
    let ghost bs = bundles_of(plugin_views(plugins@));
    let mut i: usize = 0;
    while i < plugins.len()
        invariant
            i <= plugins.len(),
            bs == bundles_of(plugin_views(plugins@)),
            forall|j: int| 0 <= j < i ==> !resolves(bs, depend@, j),
        decreases plugins.len() - i,
    {
        if is_match(plugins, depend, i) {
            return Some(i);
        }
        i = i + 1;
    }
    None
}

/// Whether plugin `i` is a match of one of the dependencies among `depends`.
fn matches_one_of<O: Send + Sync, I: Info>(
    plugins: &Vec<Plugin<O, I>>,
    depends: &Vec<Depend>,
    i: usize,
) -> (r: bool)
    requires
        i < plugins@.len(),
    ensures
        r == exists|k: int|
            0 <= k < depends@.len() && resolves(
                bundles_of(plugin_views(plugins@)),
                (#[trigger] depends@[k])@,
                i as int,
            ),
{
    let mut k: usize = 0;
    while k < depends.len()
        invariant
            k <= depends.len(),
            i < plugins@.len(),
            forall|q: int|
                0 <= q < k ==> !resolves(
                    bundles_of(plugin_views(plugins@)),
                    (#[trigger] depends@[q])@,
                    i as int,
                ),
        decreases depends.len() - k,
    {
        if is_match(plugins, &depends[k], i) {
            return true;
        }
        k = k + 1;
    }
    false
}

/// Whether plugin `i` is a match of a dependency of plugin `p`.
pub fn is_depend_of<O: Send + Sync, I: Info>(plugins: &Vec<Plugin<O, I>>, p: usize, i: usize) -> (r:
    bool)
    requires
        p < plugins@.len(),
        i < plugins@.len(),
    ensures
        r == depends_on(plugin_views(plugins@), p as int, i as int),
{
    let ghost ps = plugin_views(plugins@);
    let required = plugins[p].depends();
    let optional = plugins[p].optional_depends();
    let a = matches_one_of(plugins, required, i);
    let b = matches_one_of(plugins, optional, i);
    proof {
        let all = all_depends(ps[p as int]);
        let req = crate::info::depend_views(required@);
        let opt = crate::info::depend_views(optional@);
        assert(all == req + opt);
        if a {
            let k = choose|k: int|
                0 <= k < required@.len() && resolves(
                    bundles_of(ps),
                    (#[trigger] required@[k])@,
                    i as int,
                );
            assert(all[k] == required@[k]@);
            assert(resolves(bundles_of(ps), all[k], i as int));
        } else if b {
            let k = choose|k: int|
                0 <= k < optional@.len() && resolves(
                    bundles_of(ps),
                    (#[trigger] optional@[k])@,
                    i as int,
                );
            assert(all[req.len() + k] == optional@[k]@);
            assert(resolves(bundles_of(ps), all[req.len() + k], i as int));
        } else {
            assert forall|k: int| 0 <= k < all.len() implies !resolves(
                bundles_of(ps),
                #[trigger] all[k],
                i as int,
            ) by {
                if k < req.len() {
                    assert(all[k] == required@[k]@);
                } else {
                    assert(all[k] == optional@[k - req.len()]@);
                }
            }
        }
    }
    a || b
}

/// Whether plugin `i` is a match of a dependency of another plugin.
pub fn is_depend_of_another<O: Send + Sync, I: Info>(plugins: &Vec<Plugin<O, I>>, i: usize) -> (r:
    bool)
    requires
        i < plugins@.len(),
    ensures
        r == is_dependency(plugin_views(plugins@), i as int),
{
    let ghost ps = plugin_views(plugins@);
    let mut p: usize = 0;
    while p < plugins.len()
        invariant
            p <= plugins.len(),
            i < plugins@.len(),
            ps == plugin_views(plugins@),
            forall|q: int| 0 <= q < p && q != i ==> !depends_on(ps, q, i as int),
        decreases plugins.len() - p,
    {
        if p != i && is_depend_of(plugins, p, i) {
            return true;
        }
        p = p + 1;
    }
    false
}

/// Whether no other plugin depends on plugin `i`.
pub fn is_root<O: Send + Sync, I: Info>(plugins: &Vec<Plugin<O, I>>, i: usize) -> (r: bool)
    requires
        i < plugins@.len(),
    ensures
        r == !is_dependency(plugin_views(plugins@), i as int),
{
    !is_depend_of_another(plugins, i)
}

/// Whether no plugin of the same id has a higher version than plugin `i`.
pub fn is_newest_version<O: Send + Sync, I: Info>(plugins: &Vec<Plugin<O, I>>, i: usize) -> (r:
    bool)
    requires
        i < plugins@.len(),
    ensures
        r == is_newest(bundles_of(plugin_views(plugins@)), i as int),
{
    let ghost bs = bundles_of(plugin_views(plugins@));
    let mut j: usize = 0;
    while j < plugins.len()
        invariant
            j <= plugins.len(),
            i < plugins@.len(),
            bs == bundles_of(plugin_views(plugins@)),
            forall|q: int|
                0 <= q < j ==> !(#[trigger] bs[q].id == bs[i as int].id && version_higher(
                    bs[q].version,
                    bs[i as int].version,
                )),
        decreases plugins.len() - j,
    {
        let other = &plugins[j].info.bundle;
        let this = &plugins[i].info.bundle;
        if other.id == this.id && other.version.is_higher_than(&this.version) {
            assert(bs[j as int].id == bs[i as int].id);
            return false;
        }
        j = j + 1;
    }
    true
}

/// Whether a loaded plugin supersedes plugin `i` for `depend`.
fn is_replaced<O: Send + Sync, I: Info>(plugins: &Vec<Plugin<O, I>>, depend: &Depend, i: usize) -> (r:
    bool)
    requires
        i < plugins@.len(),
    ensures
        r == replaced(plugin_views(plugins@), depend@, i as int),
{
    let ghost ps = plugin_views(plugins@);
    let mut j: usize = 0;
    while j < plugins.len()
        invariant
            j <= plugins.len(),
            i < plugins@.len(),
            ps == plugin_views(plugins@),
            forall|q: int|
                0 <= q < j ==> !(#[trigger] supersedes(bundles_of(ps), depend@, q, i as int)
                    && ps[q].is_loaded),
        decreases plugins.len() - j,
    {
        let other = &plugins[j].info.bundle;
        let this = &plugins[i].info.bundle;
        if plugins[j].is_load && other.id == this.id && depend.version.matches(&other.version)
            && other.version.is_higher_than(&this.version) {
            assert(supersedes(bundles_of(ps), depend@, j as int, i as int) && ps[j as int].is_loaded);
            return true;
        }
        j = j + 1;
    }
    false
}

/// Whether one of the dependencies among `depends` needs plugin `i`.
fn needed_by_one_of<O: Send + Sync, I: Info>(
    plugins: &Vec<Plugin<O, I>>,
    depends: &Vec<Depend>,
    i: usize,
) -> (r: bool)
    requires
        i < plugins@.len(),
    ensures
        r == exists|k: int|
            0 <= k < depends@.len() && needs(
                plugin_views(plugins@),
                (#[trigger] depends@[k])@,
                i as int,
            ),
{
    let mut k: usize = 0;
    while k < depends.len()
        invariant
            k <= depends.len(),
            i < plugins@.len(),
            forall|q: int|
                0 <= q < k ==> !needs(plugin_views(plugins@), (#[trigger] depends@[q])@, i as int),
        decreases depends.len() - k,
    {
        if plugins[i].satisfies(&depends[k]) && !is_replaced(plugins, &depends[k], i) {
            return true;
        }
        k = k + 1;
    }
    false
}

/// Whether the loaded plugin `p`, another one than `i`, needs plugin `i`.
pub fn is_used_by<O: Send + Sync, I: Info>(plugins: &Vec<Plugin<O, I>>, p: usize, i: usize) -> (r:
    bool)
    requires
        p < plugins@.len(),
        i < plugins@.len(),
    ensures
        r == uses(plugin_views(plugins@), p as int, i as int),
{
    if p == i || !plugins[p].is_load {
        return false;
    }
    let ghost ps = plugin_views(plugins@);
    let required = plugins[p].depends();
    let optional = plugins[p].optional_depends();
    let a = needed_by_one_of(plugins, required, i);
    let b = needed_by_one_of(plugins, optional, i);
    proof {
        let all = all_depends(ps[p as int]);
        let req = crate::info::depend_views(required@);
        let opt = crate::info::depend_views(optional@);
        assert(all == req + opt);
        if a {
            let k = choose|k: int|
                0 <= k < required@.len() && needs(ps, (#[trigger] required@[k])@, i as int);
            assert(all[k] == required@[k]@);
            assert(needs(ps, all[k], i as int));
        } else if b {
            let k = choose|k: int|
                0 <= k < optional@.len() && needs(ps, (#[trigger] optional@[k])@, i as int);
            assert(all[req.len() + k] == optional@[k]@);
            assert(needs(ps, all[req.len() + k], i as int));
        } else {
            assert forall|k: int| 0 <= k < all.len() implies !needs(
                ps,
                #[trigger] all[k],
                i as int,
            ) by {
                if k < req.len() {
                    assert(all[k] == required@[k]@);
                } else {
                    assert(all[k] == optional@[k - req.len()]@);
                }
            }
        }
    }
    a || b
}

/// The first loaded plugin that needs plugin `i`.
pub fn find_user<O: Send + Sync, I: Info>(plugins: &Vec<Plugin<O, I>>, i: usize) -> (r: Option<
    usize,
>)
    requires
        i < plugins@.len(),
    ensures
        match r {
            Some(p) => first_user(plugin_views(plugins@), p as int, i as int),
            None => unused(plugin_views(plugins@), i as int),
        },
{
    let ghost ps = plugin_views(plugins@);
    let mut p: usize = 0;
    while p < plugins.len()
        invariant
            p <= plugins.len(),
            i < plugins@.len(),
            ps == plugin_views(plugins@),
            forall|q: int| 0 <= q < p ==> !uses(ps, q, i as int),
        decreases plugins.len() - p,
    {
        if is_used_by(plugins, p, i) {
            return Some(p);
        }
        p = p + 1;
    }
    None
}

} // verus!
