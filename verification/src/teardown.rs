//! Tearing down: removing several plugins at once, removing a manager with
//! the plugins bound to it, and stopping the engine.

use vstd::prelude::*;
use crate::bundle::{same_plugin, Bundle, BundleView};
use crate::context::load_plugin_context::requests_answered;
use crate::info::Info;
use crate::load::{idle, none_busy};
use crate::loader::{
    distinct_plugins, forced_unload_plugin, forced_unregister_manager, forced_unregister_plugin,
    registered, unload_plugin, unloading, unregister_plugin, with_loaded, Loader,
};
use crate::plugin::{Plugin, PluginView};
use crate::info::admits;
use crate::solver::{
    all_depends, bundles_of, dependencies_loaded, depends_on, first_user, needs, plugin_views,
    replaced, supersedes, unused, uses,
};
use crate::sort::{holds, sort_order, sort_plugins};
use crate::utils::error::{
    StopLoaderError, UnloadPluginError, UnregisterManagerError, UnregisterPluginError,
};

verus! {

/// The values of a list of bundles.
pub open spec fn bundle_views(bundles: Seq<Bundle>) -> Seq<BundleView> {
    bundles.map_values(|b: Bundle| b@)
}

/// One of the bundles in `names` has the id and version of `b`.
pub open spec fn named(names: Seq<BundleView>, b: BundleView) -> bool {
    exists|k: int| 0 <= k < names.len() && same_plugin(#[trigger] names[k], b)
}

/// The records of `plugins` whose bundle is not among `names`, in order.
pub open spec fn without<O: Send + Sync, I: Info>(
    plugins: Seq<Plugin<O, I>>,
    names: Seq<BundleView>,
) -> Seq<Plugin<O, I>> {
    plugins.filter(|p: Plugin<O, I>| !named(names, p@.bundle))
}

/// The records of `plugins` that are not of the format `format`, in order.
pub open spec fn of_other_formats<O: Send + Sync, I: Info>(
    plugins: Seq<Plugin<O, I>>,
    format: Seq<char>,
) -> Seq<Plugin<O, I>> {
    plugins.filter(|p: Plugin<O, I>| p@.bundle.format != format)
}

/// Removing a member that the filter drops does not change what it keeps.
proof fn lemma_filter_remove<A>(s: Seq<A>, pred: spec_fn(A) -> bool, i: int)
    requires
        0 <= i < s.len(),
        !pred(s[i]),
    ensures
        s.remove(i).filter(pred) == s.filter(pred),
{
    let head = s.subrange(0, i);
    let one = seq![s[i]];
    let tail = s.subrange(i + 1, s.len() as int);
    assert(s.remove(i) =~= head + tail);
    assert(s =~= head + one + tail);
    Seq::filter_distributes_over_add(head, tail, pred);
    Seq::filter_distributes_over_add(head + one, tail, pred);
    Seq::filter_distributes_over_add(head, one, pred);
    assert(one.filter(pred) =~= Seq::<A>::empty()) by {
        reveal_with_fuel(Seq::filter, 2);
        assert(one.drop_last() =~= Seq::<A>::empty());
    }
    assert(head.filter(pred) + one.filter(pred) =~= head.filter(pred));
}

/// The filtered list with one more member at the end.
pub proof fn lemma_filter_push<A>(s: Seq<A>, x: A, pred: spec_fn(A) -> bool)
    ensures
        s.push(x).filter(pred) == if pred(x) {
            s.filter(pred).push(x)
        } else {
            s.filter(pred)
        },
{
    reveal_with_fuel(Seq::filter, 2);
    assert(s.push(x).drop_last() =~= s);
}

/// A filter that keeps every member changes nothing.
proof fn lemma_filter_all<A>(s: Seq<A>, pred: spec_fn(A) -> bool)
    requires
        forall|i: int| 0 <= i < s.len() ==> pred(#[trigger] s[i]),
    ensures
        s.filter(pred) == s,
    decreases s.len(),
{
    reveal_with_fuel(Seq::filter, 2);
    if s.len() > 0 {
        lemma_filter_all(s.drop_last(), pred);
        assert(s.drop_last().push(s.last()) =~= s);
    } else {
        assert(s.filter(pred) =~= s);
    }
}

/// Two lists that agree on what the filter keeps have the same filtered
/// list.
proof fn lemma_filter_agree<A>(a: Seq<A>, b: Seq<A>, pred: spec_fn(A) -> bool)
    requires
        a.len() == b.len(),
        forall|i: int| 0 <= i < a.len() ==> pred(#[trigger] a[i]) == pred(b[i]),
        forall|i: int| 0 <= i < a.len() && pred(#[trigger] a[i]) ==> a[i] == b[i],
    ensures
        a.filter(pred) == b.filter(pred),
    decreases a.len(),
{
    reveal_with_fuel(Seq::filter, 2);
    if a.len() > 0 {
        lemma_filter_agree(a.drop_last(), b.drop_last(), pred);
    }
}

/// The position of the plugin with the id and version of `bundle`.
pub fn find_bundle<O: Send + Sync, I: Info>(plugins: &Vec<Plugin<O, I>>, bundle: &Bundle) -> (r:
    Option<usize>)
    ensures
        match r {
            Some(i) => i < plugins@.len() && same_plugin(plugins@[i as int]@.bundle, bundle@)
                && forall|j: int| 0 <= j < i ==> !same_plugin(plugins@[j]@.bundle, bundle@),
            None => forall|j: int|
                0 <= j < plugins@.len() ==> !same_plugin((#[trigger] plugins@[j])@.bundle, bundle@),
        },
{
    let mut i: usize = 0;
    while i < plugins.len()
        invariant
            i <= plugins.len(),
            forall|j: int| 0 <= j < i ==> !same_plugin((#[trigger] plugins@[j])@.bundle, bundle@),
        decreases plugins.len() - i,
    {
        if plugins[i].is_bundle(bundle) {
            return Some(i);
        }
        i = i + 1;
    }
    None
}

/// Unregisters the plugins that `targets` names, in the order of the list.
///
/// Each is unloaded first if it is loaded. The first plugin that cannot be
/// unloaded, or whose manager fails to unregister it, ends the walk with its
/// error; `done` plugins of the list were dealt with by then. A plugin that
/// cannot be unloaded is still loaded and registered, and the error tells
/// why as that of unloading it does.
pub fn unregister_listed<O: Send + Sync, I: Info>(loader: &mut Loader<O, I>, targets: &Vec<Bundle>) -> (r:
    Result<(), (usize, UnregisterPluginError)>)
    requires
        old(loader).wf(),
    ensures
        final(loader).wf(),
        final(loader).formats() == old(loader).formats(),
        final(loader).spec_requests() == old(loader).spec_requests(),
        final(loader).spec_registry() == old(loader).spec_registry(),
        dependencies_loaded(old(loader).views()) ==> dependencies_loaded(final(loader).views()),
        requests_answered(old(loader).spec_plugins(), old(loader).spec_requests())
            ==> requests_answered(final(loader).spec_plugins(), final(loader).spec_requests()),
        forall|i: int|
            0 <= i < final(loader).spec_plugins().len() ==> old(loader).spec_plugins().contains(
                #[trigger] final(loader).spec_plugins()[i],
            ),
        match r {
            Ok(_) => final(loader).spec_plugins() == without(
                old(loader).spec_plugins(),
                bundle_views(targets@),
            ),
            Err((done, e)) => {
                &&& done < targets@.len()
                &&& e is UnloadError ==> exists|j: int|
                    0 <= j < old(loader).spec_plugins().len() && (#[trigger] old(loader).spec_plugins()[j])@.is_loaded
                        && same_plugin(old(loader).spec_plugins()[j]@.bundle, targets@[done as int]@)
                &&& e matches UnregisterPluginError::UnloadError(u) ==> exists|i: int|
                    0 <= i < final(loader).bundles().len() && same_plugin(
                        #[trigger] final(loader).bundles()[i],
                        targets@[done as int]@,
                    ) && unloading(final(loader), final(loader), i, Err(u))
                &&& e is UnregisterPluginByManager ==> final(loader).spec_plugins().len() < old(
                    loader,
                ).spec_plugins().len()
                &&& e is UnloadError ==> final(loader).spec_plugins() == without(
                    old(loader).spec_plugins(),
                    bundle_views(targets@).take(done as int),
                )
                &&& e is UnregisterPluginByManager ==> final(loader).spec_plugins() == without(
                    old(loader).spec_plugins(),
                    bundle_views(targets@).take(done + 1),
                )
                &&& e is UnloadError || e is UnregisterPluginByManager
            },
        },
{
    let ghost names = bundle_views(targets@);
    let ghost base = old(loader).spec_plugins();
    proof {
        assert(names.take(0) =~= Seq::<BundleView>::empty());
        lemma_filter_all(base, |p: Plugin<O, I>| !named(names.take(0), p@.bundle));
    }
    let mut i: usize = 0;
    while i < targets.len()
        invariant
            i <= targets.len(),
            names == bundle_views(targets@),
            base == old(loader).spec_plugins(),
            loader.wf(),
            loader.formats() == old(loader).formats(),
            loader.spec_requests() == old(loader).spec_requests(),
            loader.spec_registry() == old(loader).spec_registry(),
            dependencies_loaded(old(loader).views()) ==> dependencies_loaded(loader.views()),
            requests_answered(old(loader).spec_plugins(), old(loader).spec_requests())
                ==> requests_answered(loader.spec_plugins(), loader.spec_requests()),
            loader.spec_plugins() == without(base, names.take(i as int)),
            loader.spec_plugins().len() <= base.len(),
            forall|k: int|
                0 <= k < loader.spec_plugins().len() ==> base.contains(#[trigger] loader.spec_plugins()[k]),
        decreases targets.len() - i,
    {
        let ghost current = loader.spec_plugins();
        let ghost seen = names.take(i as int);
        let ghost next = names.take(i + 1);
        proof {
            assert(next =~= seen.push(names[i as int]));
            assert(names[i as int] == targets@[i as int]@);
        }
        match find_bundle(&loader.plugins, &targets[i]) {
            None => {
                proof {
                    lemma_without_absent(base, seen, names[i as int]);
                }
            },
            Some(at) => {
                let outcome = unregister_plugin(loader, at);
                proof {
                    if !(outcome matches Err(UnregisterPluginError::UnloadError(_))) {
                        let now = loader.spec_plugins();
                        assert(now == current.remove(at as int));
                        assert forall|k: int| 0 <= k < now.len() implies base.contains(
                            #[trigger] now[k],
                        ) by {
                            if k < at {
                                assert(now[k] == current[k]);
                            } else {
                                assert(now[k] == current[k + 1]);
                            }
                        }
                    } else {
                        assert(base.contains(current[at as int]));
                        let j = base.index_of(current[at as int]);
                        assert(base[j] == current[at as int]);
                        assert(current[at as int]@.is_loaded);
                        assert(loader.spec_plugins() == current);
                        assert(same_plugin(loader.bundles()[at as int], targets@[i as int]@));
                    }
                }
                match outcome {
                    Err(e) => {
                        proof {
                            if e is UnregisterPluginByManager {
                                lemma_without_present(base, seen, names[i as int], at as int);
                            }
                        }
                        return Err((i, e));
                    },
                    Ok(_) => {
                        proof {
                            lemma_without_present(base, seen, names[i as int], at as int);
                        }
                    },
                }
            },
        }
        i = i + 1;
    }
    assert(names.take(targets@.len() as int) =~= names);
    Ok(())
}

/// Where none of the records left over has the bundle `b`, adding `b` to
/// the names changes nothing.
proof fn lemma_without_absent<O: Send + Sync, I: Info>(
    base: Seq<Plugin<O, I>>,
    seen: Seq<BundleView>,
    b: BundleView,
)
    requires
        forall|j: int|
            0 <= j < without(base, seen).len() ==> !same_plugin(
                (#[trigger] without(base, seen)[j])@.bundle,
                b,
            ),
    ensures
        without(base, seen.push(b)) == without(base, seen),
{
    let keep = |p: Plugin<O, I>| !named(seen, p@.bundle);
    let keep_more = |p: Plugin<O, I>| !named(seen.push(b), p@.bundle);
    let drop_b = |p: Plugin<O, I>| !same_plugin(b, p@.bundle);
    lemma_filter_twice(base, keep, drop_b, keep_more, seen, b);
    let left = base.filter(keep);
    assert forall|j: int| 0 <= j < left.len() implies drop_b(#[trigger] left[j]) by {
        assert(!same_plugin(without(base, seen)[j]@.bundle, b));
    }
    lemma_filter_all(left, drop_b);
}

/// Where exactly the record at `at` among those left over has the bundle
/// `b`, adding `b` to the names removes that record.
proof fn lemma_without_present<O: Send + Sync, I: Info>(
    base: Seq<Plugin<O, I>>,
    seen: Seq<BundleView>,
    b: BundleView,
    at: int,
)
    requires
        0 <= at < without(base, seen).len(),
        same_plugin(without(base, seen)[at]@.bundle, b),
        distinct_plugins(bundles_of(plugin_views(without(base, seen)))),
    ensures
        without(base, seen.push(b)) == without(base, seen).remove(at),
{
    let keep = |p: Plugin<O, I>| !named(seen, p@.bundle);
    let keep_more = |p: Plugin<O, I>| !named(seen.push(b), p@.bundle);
    let drop_b = |p: Plugin<O, I>| !same_plugin(b, p@.bundle);
    lemma_filter_twice(base, keep, drop_b, keep_more, seen, b);
    let left = base.filter(keep);
    let rest = left.remove(at);
    lemma_filter_remove(left, drop_b, at);
    assert forall|j: int| 0 <= j < rest.len() implies drop_b(#[trigger] rest[j]) by {
        let j0 = if j < at {
            j
        } else {
            j + 1
        };
        assert(rest[j] == left[j0]);
        let bs = bundles_of(plugin_views(left));
        assert(bs[j0] == left[j0]@.bundle && bs[at] == left[at]@.bundle);
        assert(!same_plugin(bs[j0], bs[at]));
    }
    lemma_filter_all(rest, drop_b);
}

/// Dropping the records named by `seen` and then those with the bundle `b`
/// comes to dropping those named by `seen` with `b` added.
proof fn lemma_filter_twice<O: Send + Sync, I: Info>(
    base: Seq<Plugin<O, I>>,
    keep: spec_fn(Plugin<O, I>) -> bool,
    drop_b: spec_fn(Plugin<O, I>) -> bool,
    keep_more: spec_fn(Plugin<O, I>) -> bool,
    seen: Seq<BundleView>,
    b: BundleView,
)
    requires
        forall|p: Plugin<O, I>| #[trigger] keep(p) == !named(seen, p@.bundle),
        forall|p: Plugin<O, I>| #[trigger] drop_b(p) == !same_plugin(b, p@.bundle),
        forall|p: Plugin<O, I>| #[trigger] keep_more(p) == !named(seen.push(b), p@.bundle),
    ensures
        base.filter(keep).filter(drop_b) == base.filter(keep_more),
    decreases base.len(),
{
    reveal_with_fuel(Seq::filter, 2);
    if base.len() > 0 {
        let front = base.drop_last();
        let last = base.last();
        lemma_filter_twice(front, keep, drop_b, keep_more, seen, b);
        let more = seen.push(b);
        if named(more, last@.bundle) {
            let k = choose|k: int| 0 <= k < more.len() && same_plugin(#[trigger] more[k], last@.bundle);
            if k < seen.len() {
                assert(same_plugin(seen[k], last@.bundle));
            }
        } else {
            assert forall|k: int| 0 <= k < seen.len() implies !same_plugin(
                #[trigger] seen[k],
                last@.bundle,
            ) by {
                assert(more[k] == seen[k]);
            }
            assert(more[seen.len() as int] == b);
        }
        if keep(last) {
            assert(base.filter(keep) == front.filter(keep).push(last));
            assert(front.filter(keep).push(last).drop_last() =~= front.filter(keep));
        }
    } else {
        assert(base.filter(keep) =~= Seq::<Plugin<O, I>>::empty());
    }
}

/// Two filters that decide alike on every member of a list keep the same
/// members.
proof fn lemma_filter_alike<A>(s: Seq<A>, left: spec_fn(A) -> bool, right: spec_fn(A) -> bool)
    requires
        forall|i: int| 0 <= i < s.len() ==> left(#[trigger] s[i]) == right(s[i]),
    ensures
        s.filter(left) == s.filter(right),
    decreases s.len(),
{
    reveal_with_fuel(Seq::filter, 2);
    if s.len() > 0 {
        lemma_filter_alike(s.drop_last(), left, right);
    }
}

/// Every plugin of `plugins` is either as it is in `base` or the record of
/// `base` with the load flag cleared, and of the format `format` in that
/// case.
pub open spec fn unloaded_from<O: Send + Sync, I: Info>(
    base: Seq<Plugin<O, I>>,
    plugins: Seq<Plugin<O, I>>,
    format: Seq<char>,
) -> bool {
    &&& plugins.len() == base.len()
    &&& forall|i: int|
        0 <= i < base.len() ==> #[trigger] plugins[i] == base[i] || (plugins[i] == with_loaded(
            base[i],
            false,
        ) && base[i]@.bundle.format == format)
}

/// The positions below `n` of the plugins of the format `format`, in order.
pub open spec fn members(ps: Seq<PluginView>, format: Seq<char>, n: int) -> Seq<usize>
    decreases n,
{
    if n <= 0 {
        Seq::empty()
    } else if ps[n - 1].bundle.format == format {
        members(ps, format, n - 1).push((n - 1) as usize)
    } else {
        members(ps, format, n - 1)
    }
}

/// The positions of the plugins of the format `format`, in order.
fn positions_of_format<O: Send + Sync, I: Info>(plugins: &Vec<Plugin<O, I>>, format: &str) -> (r: Vec<
    usize,
>)
    ensures
        r@ == members(plugin_views(plugins@), format@, plugins@.len() as int),
        forall|s: int| 0 <= s < r@.len() ==> (#[trigger] r@[s]) < plugins@.len(),
        forall|s: int|
            0 <= s < r@.len() ==> plugins@[#[trigger] r@[s] as int]@.bundle.format == format@,
        forall|i: int|
            0 <= i < plugins@.len() && (#[trigger] plugins@[i])@.bundle.format == format@
                ==> r@.contains(i as usize),
{
    let mut out: Vec<usize> = Vec::new();
    let mut i: usize = 0;
    while i < plugins.len()
        invariant
            i <= plugins.len(),
            out@ == members(plugin_views(plugins@), format@, i as int),
            forall|s: int| 0 <= s < out@.len() ==> (#[trigger] out@[s]) < plugins@.len(),
            forall|s: int|
                0 <= s < out@.len() ==> plugins@[#[trigger] out@[s] as int]@.bundle.format
                    == format@,
            forall|j: int|
                0 <= j < i && (#[trigger] plugins@[j])@.bundle.format == format@ ==> out@.contains(
                    j as usize,
                ),
        decreases plugins.len() - i,
    {
        assert(plugin_views(plugins@)[i as int] == plugins@[i as int]@);
        if crate::utils::text::same_text(plugins[i].info.bundle.format.as_str(), format) {
            let ghost before = out@;
            out.push(i);
            assert forall|j: int|
                0 <= j < i + 1 && (#[trigger] plugins@[j])@.bundle.format
                    == format@ implies out@.contains(j as usize) by {
                if j < i {
                    let s = before.index_of(j as usize);
                    assert(out@[s] == j);
                } else {
                    assert(out@[before.len() as int] == i);
                }
            }
        }
        i = i + 1;
    }
    out
}

/// A copy of a list of positions.
fn copy_positions(list: &Vec<usize>) -> (r: Vec<usize>)
    ensures
        r@ == list@,
{
    let mut out: Vec<usize> = Vec::new();
    let mut i: usize = 0;
    while i < list.len()
        invariant
            i <= list.len(),
            out@ == list@.take(i as int),
        decreases list.len() - i,
    {
        out.push(list[i]);
        assert(out@ =~= list@.take(i + 1));
        i = i + 1;
    }
    assert(list@.take(list@.len() as int) =~= list@);
    out
}

/// The members of `order`, then those among the first `n` members of `set`
/// that are not there yet, in order.
pub open spec fn completion(order: Seq<usize>, set: Seq<usize>, n: int) -> Seq<usize>
    decreases n,
{
    if n <= 0 {
        order
    } else {
        let so_far = completion(order, set, n - 1);
        if so_far.contains(set[n - 1]) {
            so_far
        } else {
            so_far.push(set[n - 1])
        }
    }
}

/// The members of `order`, then the members of `set` that `order` lacks.
fn completed(order: Vec<usize>, set: &Vec<usize>) -> (r: Vec<usize>)
    ensures
        r@ == completion(order@, set@, set@.len() as int),
        r@.len() >= order@.len(),
        r@.take(order@.len() as int) == order@,
        order@.no_duplicates() ==> r@.no_duplicates(),
        forall|s: int| 0 <= s < set@.len() ==> r@.contains(#[trigger] set@[s]),
        forall|p: int| 0 <= p < r@.len() ==> order@.contains(#[trigger] r@[p]) || set@.contains(r@[p]),
{
    let ghost first = order@;
    let mut out = order;
    let mut s: usize = 0;
    while s < set.len()
        invariant
            s <= set.len(),
            out@ == completion(first, set@, s as int),
            out@.len() >= first.len(),
            out@.take(first.len() as int) == first,
            first.no_duplicates() ==> out@.no_duplicates(),
            forall|t: int| 0 <= t < s ==> out@.contains(#[trigger] set@[t]),
            forall|p: int|
                0 <= p < out@.len() ==> first.contains(#[trigger] out@[p]) || set@.contains(out@[p]),
        decreases set.len() - s,
    {
        let ghost before = out@;
        if !holds(&out, set[s]) {
            out.push(set[s]);
            assert(out@.take(first.len() as int) =~= before.take(first.len() as int));
            assert(out@[before.len() as int] == set@[s as int]);
            assert forall|p: int| 0 <= p < out@.len() implies first.contains(#[trigger] out@[p])
                || set@.contains(out@[p]) by {
                if p < before.len() {
                    assert(out@[p] == before[p]);
                }
            }
            assert(first.no_duplicates() ==> out@.no_duplicates()) by {
                if first.no_duplicates() {
                    assert forall|i: int, j: int|
                        0 <= i < out@.len() && 0 <= j < out@.len() && i != j implies out@[i]
                        != out@[j] by {
                        if i < before.len() && j < before.len() {
                            assert(out@[i] == before[i] && out@[j] == before[j]);
                        } else if i < before.len() {
                            assert(before.contains(before[i]));
                        } else {
                            assert(before.contains(before[j]));
                        }
                    }
                }
            }
        }
        assert forall|t: int| 0 <= t < s + 1 implies out@.contains(#[trigger] set@[t]) by {
            if before.contains(set@[t]) {
                let p = before.index_of(set@[t]);
                assert(out@[p] == set@[t]);
            }
        }
        s = s + 1;
    }
    proof {
        assert forall|p: int| 0 <= p < first.len() implies first.contains(#[trigger] out@[p]) by {
            assert(out@.take(first.len() as int)[p] == out@[p]);
        }
    }
    out
}

/// The order in which the plugins of the format `format` are unloaded when
/// their manager is removed: as [`sort_order`] puts them, then those that it
/// leaves out.
pub open spec fn teardown_order(ps: Seq<PluginView>, format: Seq<char>) -> Seq<usize> {
    let set = members(ps, format, ps.len() as int);
    completion(sort_order(ps, set), set, set.len() as int)
}

/// Position `i` is among the first `n` entries of `order`.
pub open spec fn among(order: Seq<usize>, n: int, i: int) -> bool {
    exists|q: int| 0 <= q < n && #[trigger] order[q] == i
}

/// Every record of `plugins` is the record of `base` at its position, with
/// the load flag cleared where the position is among the first `n` entries
/// of `order`.
pub open spec fn cleared<O: Send + Sync, I: Info>(
    base: Seq<Plugin<O, I>>,
    plugins: Seq<Plugin<O, I>>,
    order: Seq<usize>,
    n: int,
) -> bool {
    &&& plugins.len() == base.len()
    &&& forall|i: int|
        0 <= i < base.len() ==> #[trigger] plugins[i] == if among(order, n, i) {
            with_loaded(base[i], false)
        } else {
            base[i]
        }
}

/// The walk over `order` ended at position `p` with the error `e`: the
/// plugins listed before it are unloaded, the others are as they were in
/// `base`, and the plugin listed there is loaded and cannot be unloaded for
/// the reason that `e` gives.
pub open spec fn halted_at<O: Send + Sync, I: Info>(
    base: Seq<Plugin<O, I>>,
    after: &Loader<O, I>,
    order: Seq<usize>,
    p: int,
    e: UnloadPluginError,
) -> bool {
    &&& 0 <= p < order.len()
    &&& cleared(base, after.spec_plugins(), order, p)
    &&& unloading(after, after, order[p] as int, Err(e))
}

/// A plugin that uses another keeps using it while only other plugins are
/// unloaded.
pub proof fn lemma_uses_survives(a: Seq<PluginView>, b: Seq<PluginView>, p: int, i: int)
    requires
        a.len() == b.len(),
        forall|j: int|
            0 <= j < a.len() ==> (#[trigger] b[j]).bundle == a[j].bundle && b[j].depends
                == a[j].depends && b[j].optional_depends == a[j].optional_depends && (b[j].is_loaded
                ==> a[j].is_loaded),
        0 <= p < a.len(),
        0 <= i < a.len(),
        b[p].is_loaded,
        uses(a, p, i),
    ensures
        uses(b, p, i),
{
    assert(bundles_of(b) =~= bundles_of(a));
    assert(all_depends(b[p]) == all_depends(a[p]));
    let k = choose|k: int|
        0 <= k < all_depends(a[p]).len() && needs(a, #[trigger] all_depends(a[p])[k], i);
    let d = all_depends(a[p])[k];
    if replaced(b, d, i) {
        let j = choose|j: int| #[trigger] supersedes(bundles_of(b), d, j, i) && b[j].is_loaded;
        assert(supersedes(bundles_of(a), d, j, i) && a[j].is_loaded);
    }
    assert(b[i].bundle == a[i].bundle);
    assert(needs(b, all_depends(b[p])[k], i));
}

/// None of the listed plugins that are loaded is used by a plugin that is
/// not listed.
pub open spec fn free_of_others(ps: Seq<PluginView>, order: Seq<usize>) -> bool {
    forall|p: int, i: int|
        among(order, order.len() as int, i) && !among(order, order.len() as int, p) && 0 <= i
            < ps.len() && ps[i].is_loaded ==> !#[trigger] uses(ps, p, i)
}

/// Unloads the plugins at the positions in `order`, all of the format
/// `fmt`, one after the other, and returns their bundles. The first plugin
/// that cannot be unloaded ends the walk.
///
/// Where none of the listed plugins is loaded the walk succeeds and changes
/// nothing. After a success every listed plugin is unloaded and the other
/// records are as they were. After a failure that holds of the plugins
/// listed before the one that could not be unloaded.
fn unload_listed<O: Send + Sync, I: Info>(
    loader: &mut Loader<O, I>,
    order: &Vec<usize>,
    Ghost(fmt): Ghost<Seq<char>>,
) -> (r: Result<Vec<Bundle>, UnloadPluginError>)
    requires
        old(loader).wf(),
        forall|q: int| 0 <= q < order@.len() ==> (#[trigger] order@[q]) < old(loader).spec_plugins().len(),
        forall|q: int|
            0 <= q < order@.len() ==> old(loader).spec_plugins()[#[trigger] order@[q] as int]@.bundle.format
                == fmt,
    ensures
        final(loader).wf(),
        final(loader).formats() == old(loader).formats(),
        final(loader).spec_requests() == old(loader).spec_requests(),
        final(loader).spec_registry() == old(loader).spec_registry(),
        dependencies_loaded(old(loader).views()) ==> dependencies_loaded(final(loader).views()),
        requests_answered(old(loader).spec_plugins(), old(loader).spec_requests())
            ==> requests_answered(final(loader).spec_plugins(), final(loader).spec_requests()),
        unloaded_from(old(loader).spec_plugins(), final(loader).spec_plugins(), fmt),
        (forall|q: int| 0 <= q < order@.len() ==> !old(loader).views()[#[trigger] order@[q] as int].is_loaded)
            ==> r is Ok && final(loader).spec_plugins() == old(loader).spec_plugins(),
        forall|u: int, i: int|
            0 <= i < old(loader).views().len() && old(loader).views()[i].is_loaded && !among(
                order@,
                order@.len() as int,
                u,
            ) && #[trigger] uses(old(loader).views(), u, i) ==> final(loader).views()[i].is_loaded,
        match r {
            Ok(targets) => {
                &&& free_of_others(old(loader).views(), order@)
                &&& targets@.len() == order@.len()
                &&& forall|q: int|
                    0 <= q < order@.len() ==> (#[trigger] targets@[q])@ == old(loader).spec_plugins()[order@[q] as int]@.bundle
                &&& cleared(
                    old(loader).spec_plugins(),
                    final(loader).spec_plugins(),
                    order@,
                    order@.len() as int,
                )
            },
            Err(e) => exists|p: int|
                #[trigger] halted_at(old(loader).spec_plugins(), final(loader), order@, p, e),
        },
{
    let mut targets: Vec<Bundle> = Vec::new();
    let mut p: usize = 0;
    while p < order.len()
        invariant
            p <= order.len(),
            loader.wf(),
            loader.formats() == old(loader).formats(),
            loader.spec_requests() == old(loader).spec_requests(),
            loader.spec_registry() == old(loader).spec_registry(),
            dependencies_loaded(old(loader).views()) ==> dependencies_loaded(loader.views()),
            requests_answered(old(loader).spec_plugins(), old(loader).spec_requests())
                ==> requests_answered(loader.spec_plugins(), loader.spec_requests()),
            unloaded_from(old(loader).spec_plugins(), loader.spec_plugins(), fmt),
            cleared(old(loader).spec_plugins(), loader.spec_plugins(), order@, p as int),
            forall|u: int, i: int|
                among(order@, p as int, i) && !among(order@, order@.len() as int, u) && 0 <= i
                    < old(loader).views().len() && old(loader).views()[i].is_loaded ==> !#[trigger] uses(
                    old(loader).views(),
                    u,
                    i,
                ),
            (forall|q: int| 0 <= q < order@.len() ==> !old(loader).views()[#[trigger] order@[q] as int].is_loaded)
                ==> loader.spec_plugins() == old(loader).spec_plugins(),
            forall|q: int|
                0 <= q < order@.len() ==> (#[trigger] order@[q]) < old(loader).spec_plugins().len(),
            forall|q: int|
                0 <= q < order@.len() ==> old(loader).spec_plugins()[#[trigger] order@[q] as int]@.bundle.format
                    == fmt,
            targets@.len() == p,
            forall|q: int|
                0 <= q < p ==> (#[trigger] targets@[q])@ == old(loader).spec_plugins()[order@[q] as int]@.bundle,
        decreases order.len() - p,
    {
        let at = order[p];
        let ghost before = *loader;
        let ghost start = old(loader).spec_plugins();
        assert(before.spec_plugins()[at as int] == start[at as int] || before.spec_plugins()[at as int]
            == with_loaded(start[at as int], false));
        targets.push(loader.plugins[at].info.bundle.clone());
        if let Err(e) = unload_plugin(loader, at) {
            proof {
                assert forall|u: int, i: int|
                    0 <= i < old(loader).views().len() && old(loader).views()[i].is_loaded && !among(
                        order@,
                        order@.len() as int,
                        u,
                    ) && #[trigger] uses(old(loader).views(), u, i) implies loader.views()[i].is_loaded by {
                    assert(!among(order@, p as int, i));
                    assert(before.spec_plugins()[i] == start[i]);
                }
                assert(loader.spec_plugins() == before.spec_plugins());
                assert(before.views()[at as int].is_loaded);
                assert(unloading(loader, loader, order@[p as int] as int, Err(e)));
                assert(halted_at(start, loader, order@, p as int, e));
            }
            return Err(e);
        }
        proof {
            let now = loader.spec_plugins();
            assert forall|i: int| 0 <= i < start.len() implies #[trigger] now[i] == start[i] || (now[i]
                == with_loaded(start[i], false) && start[i]@.bundle.format == fmt) by {
                if i != at {
                    assert(now[i] == before.spec_plugins()[i]);
                }
            }
            assert forall|i: int| 0 <= i < start.len() implies #[trigger] now[i] == if among(
                order@,
                p + 1,
                i,
            ) {
                with_loaded(start[i], false)
            } else {
                start[i]
            } by {
                if i == at {
                    assert(order@[p as int] == i);
                    assert(among(order@, p + 1, i));
                } else {
                    assert(now[i] == before.spec_plugins()[i]);
                    if among(order@, p as int, i) {
                        let q = choose|q: int| 0 <= q < p && #[trigger] order@[q] == i;
                        assert(order@[q] == i);
                    }
                    if among(order@, p + 1, i) {
                        let q = choose|q: int| 0 <= q < p + 1 && #[trigger] order@[q] == i;
                        assert(q < p);
                    }
                }
            }
            if forall|q: int| 0 <= q < order@.len() ==> !old(loader).views()[#[trigger] order@[q] as int].is_loaded {
                assert(!old(loader).views()[order@[p as int] as int].is_loaded);
                assert(now =~= start);
            }
            let a = old(loader).views();
            let b = before.views();
            assert forall|u: int, i: int|
                among(order@, p + 1, i) && !among(order@, order@.len() as int, u) && 0 <= i < a.len()
                    && a[i].is_loaded implies !#[trigger] uses(a, u, i) by {
                if !among(order@, p as int, i) {
                    let w = choose|w: int| 0 <= w < p + 1 && #[trigger] order@[w] == i;
                    assert(w == p);
                    assert(i == at);
                    assert(before.spec_plugins()[i] == start[i]);
                    assert(b[i].is_loaded);
                    if uses(a, u, i) {
                        assert(!among(order@, p as int, u)) by {
                            if among(order@, p as int, u) {
                                let w2 = choose|w2: int| 0 <= w2 < p && #[trigger] order@[w2] == u;
                                assert(order@[w2] == u);
                            }
                        }
                        assert(before.spec_plugins()[u] == start[u]);
                        assert forall|j: int| 0 <= j < a.len() implies (#[trigger] b[j]).bundle
                            == a[j].bundle && b[j].depends == a[j].depends && b[j].optional_depends
                            == a[j].optional_depends && (b[j].is_loaded ==> a[j].is_loaded) by {
                            assert(before.spec_plugins()[j] == start[j] || before.spec_plugins()[j]
                                == with_loaded(start[j], false));
                        }
                        lemma_uses_survives(a, b, u, i);
                        assert(unused(b, i));
                    }
                }
            }
        }
        p = p + 1;
    }
    proof {
        assert forall|u: int, i: int|
            0 <= i < old(loader).views().len() && old(loader).views()[i].is_loaded && !among(
                order@,
                order@.len() as int,
                u,
            ) && #[trigger] uses(old(loader).views(), u, i) implies loader.views()[i].is_loaded by {
            assert(!among(order@, order@.len() as int, i));
            assert(loader.spec_plugins()[i] == old(loader).spec_plugins()[i]);
        }
    }
    Ok(targets)
}

/// No plugin of the format `format` is loaded.
pub open spec fn unloaded_of(ps: Seq<PluginView>, format: Seq<char>) -> bool {
    forall|i: int| 0 <= i < ps.len() && (#[trigger] ps[i]).bundle.format == format ==> !ps[i].is_loaded
}

/// No bundle is of the format `format`.
pub open spec fn none_of(bs: Seq<BundleView>, format: Seq<char>) -> bool {
    forall|i: int| 0 <= i < bs.len() ==> (#[trigger] bs[i]).format != format
}

/// The walk over the plugins of the format `format`, in their
/// [`teardown_order`], ended at a plugin that is loaded and cannot be
/// unloaded, for the reason that `u` gives: the plugins before it in that
/// order are unloaded, the other records are as they were in `base`.
pub open spec fn stuck<O: Send + Sync, I: Info>(
    base: &Loader<O, I>,
    loader: &Loader<O, I>,
    format: Seq<char>,
    u: UnloadPluginError,
) -> bool {
    &&& exists|q: int| #[trigger]
        halted_at(base.spec_plugins(), loader, teardown_order(base.views(), format), q, u)
    &&& exists|i: int|
        0 <= i < loader.bundles().len() && (#[trigger] loader.bundles()[i]).format == format
            && unloading(loader, loader, i, Err(u))
}

/// A dependency of plugin `p`, required or optional, admits plugin `i`,
/// another plugin.
pub open spec fn admitted_by(ps: Seq<PluginView>, p: int, i: int) -> bool {
    &&& 0 <= p < ps.len()
    &&& p != i
    &&& exists|k: int|
        0 <= k < all_depends(ps[p]).len() && admits(#[trigger] all_depends(ps[p])[k], ps[i].bundle)
}

/// The plugins of the format `format` are in order among themselves: the
/// sort leaves none of them out, and where a loaded one has a dependency
/// that admits another loaded one, that one is the best match of a
/// dependency of it.
pub open spec fn tidy(ps: Seq<PluginView>, format: Seq<char>) -> bool {
    let set = members(ps, format, ps.len() as int);
    &&& forall|s: int| 0 <= s < set.len() ==> sort_order(ps, set).contains(#[trigger] set[s])
    &&& forall|p: int, i: int|
        0 <= i < ps.len() && ps[p].bundle.format == format && ps[i].bundle.format == format
            && ps[p].is_loaded && ps[i].is_loaded && #[trigger] admitted_by(ps, p, i) ==> depends_on(
            ps,
            p,
            i,
        )
}

/// A loaded plugin of another format has a dependency that admits a loaded
/// plugin of the format `format`.
pub open spec fn touched(ps: Seq<PluginView>, format: Seq<char>) -> bool {
    exists|p: int, i: int|
        0 <= i < ps.len() && ps[i].bundle.format == format && ps[p].bundle.format != format
            && ps[p].is_loaded && ps[i].is_loaded && #[trigger] admitted_by(ps, p, i)
}

/// Every loaded plugin that a plugin of another format uses is loaded
/// afterwards too.
pub open spec fn held_stay(before: Seq<PluginView>, after: Seq<PluginView>, format: Seq<char>) -> bool {
    forall|p: int, i: int|
        0 <= i < before.len() && before[i].is_loaded && before[p].bundle.format != format
            && #[trigger] uses(before, p, i) ==> after[i].is_loaded
}

/// An order that holds every member of the set is complete as it is.
proof fn lemma_completion_same(order: Seq<usize>, set: Seq<usize>, n: int)
    requires
        0 <= n <= set.len(),
        forall|s: int| 0 <= s < n ==> order.contains(#[trigger] set[s]),
    ensures
        completion(order, set, n) == order,
    decreases n,
{
    if n > 0 {
        lemma_completion_same(order, set, n - 1);
    }
}

/// A loaded plugin of the format `format` is used by a plugin of another
/// format.
pub open spec fn held(ps: Seq<PluginView>, format: Seq<char>) -> bool {
    exists|p: int, i: int|
        0 <= i < ps.len() && ps[i].is_loaded && ps[i].bundle.format == format && ps[p].bundle.format
            != format && #[trigger] uses(ps, p, i)
}

/// Removes the manager at `index` with every plugin of its format.
///
/// Where a loaded plugin of another format uses a loaded plugin of the
/// format, the operation is refused with the error of unloading, and that
/// plugin stays loaded. Where no loaded plugin of another format has a
/// dependency that admits a loaded plugin of the format, and the plugins of
/// the format are in order among themselves, no plugin refuses.
///
/// The plugins of the format are unloaded in the order that
/// [`sort_plugins`] gives, so that a plugin goes before those that it depends
/// on; the first one that cannot be unloaded ends the operation with
/// nothing removed. Then their records are removed in that order, then the
/// manager's slot, and the manager's `unregister_manager` hook is called.
pub fn unregister_manager<O: Send + Sync, I: Info>(loader: &mut Loader<O, I>, index: usize) -> (r:
    Result<(), UnregisterManagerError>)
    requires
        old(loader).wf(),
        index < old(loader).spec_managers().len(),
    ensures
        final(loader).wf(),
        final(loader).spec_requests() == old(loader).spec_requests(),
        final(loader).spec_registry() == old(loader).spec_registry(),
        dependencies_loaded(old(loader).views()) ==> dependencies_loaded(final(loader).views()),
        requests_answered(old(loader).spec_plugins(), old(loader).spec_requests())
            ==> requests_answered(final(loader).spec_plugins(), final(loader).spec_requests()),
        match r {
            Ok(_) => {
                &&& final(loader).formats() == old(loader).formats().remove(index as int)
                &&& final(loader).spec_plugins() == of_other_formats(
                    old(loader).spec_plugins(),
                    old(loader).formats()[index as int],
                )
            },
            Err(UnregisterManagerError::UnregisterManagerByManager(_)) => {
                &&& final(loader).formats() == old(loader).formats().remove(index as int)
                &&& final(loader).spec_plugins() == of_other_formats(
                    old(loader).spec_plugins(),
                    old(loader).formats()[index as int],
                )
            },
            Err(UnregisterManagerError::UnregisterPlugin(inner)) => {
                &&& final(loader).formats() == old(loader).formats()
                &&& of_other_formats(final(loader).spec_plugins(), old(loader).formats()[index as int])
                    == of_other_formats(
                    old(loader).spec_plugins(),
                    old(loader).formats()[index as int],
                )
                &&& match inner {
                    UnregisterPluginError::UnloadError(u) => stuck(
                        old(loader),
                        final(loader),
                        old(loader).formats()[index as int],
                        u,
                    ),
                    UnregisterPluginError::UnregisterPluginByManager(_) => {
                        &&& unloaded_of(final(loader).views(), old(loader).formats()[index as int])
                        &&& final(loader).spec_plugins().len() < old(loader).spec_plugins().len()
                    },
                    _ => false,
                }
            },
            Err(UnregisterManagerError::NotFound) => false,
        },
        unloaded_of(old(loader).views(), old(loader).formats()[index as int]) ==> !(r matches Err(
            UnregisterManagerError::UnregisterPlugin(UnregisterPluginError::UnloadError(_)),
        )),
        none_of(old(loader).bundles(), old(loader).formats()[index as int]) ==> !(r matches Err(
            UnregisterManagerError::UnregisterPlugin(_),
        )),
        held(old(loader).views(), old(loader).formats()[index as int]) ==> r matches Err(
            UnregisterManagerError::UnregisterPlugin(UnregisterPluginError::UnloadError(_)),
        ),
        r matches Err(UnregisterManagerError::UnregisterPlugin(UnregisterPluginError::UnloadError(_)))
            ==> held_stay(
            old(loader).views(),
            final(loader).views(),
            old(loader).formats()[index as int],
        ),
        tidy(old(loader).views(), old(loader).formats()[index as int]) && !touched(
            old(loader).views(),
            old(loader).formats()[index as int],
        ) ==> !(r matches Err(
            UnregisterManagerError::UnregisterPlugin(
                UnregisterPluginError::UnloadError(UnloadPluginError::CurrentlyUsesDepend { .. }),
            ),
        )),
        tidy(old(loader).views(), old(loader).formats()[index as int]) ==> (r matches Err(
            UnregisterManagerError::UnregisterPlugin(
                UnregisterPluginError::UnloadError(
                    UnloadPluginError::CurrentlyUsesDepend { plugin, depend },
                ),
            ),
        ) ==> plugin@.format != old(loader).formats()[index as int] && depend@.format == old(
            loader,
        ).formats()[index as int]),
{
    let format = loader.managers[index].format.clone();
    let ghost fmt = old(loader).formats()[index as int];
    let count = loader.plugins.len();
    assert(old(loader).spec_plugins().len() == count);
    let ghost keep = |p: Plugin<O, I>| p@.bundle.format != fmt;
    let subset = positions_of_format(&loader.plugins, format.as_str());
    let sorted = sort_plugins(&loader.plugins, copy_positions(&subset));
    let order = completed(sorted, &subset);
    proof {
        assert forall|p: int| 0 <= p < order@.len() implies subset@.contains(#[trigger] order@[p]) by {
            if sorted@.contains(order@[p]) {
                let q = sorted@.index_of(order@[p]);
                assert(subset@.contains(sorted@[q]));
            }
        }
        assert forall|q: int| 0 <= q < order@.len() implies (#[trigger] order@[q]) < old(loader).spec_plugins().len()
            && old(loader).spec_plugins()[order@[q] as int]@.bundle.format == fmt by {
            let s = subset@.index_of(order@[q]);
            assert(subset@[s] == order@[q]);
        }
    }
    // Unload the plugins of the format, dependents first.
    let ghost start = old(loader).spec_plugins();
    let targets = match unload_listed(loader, &order, Ghost(fmt)) {
        Err(e) => {
            proof {
                lemma_unloaded_keeps_others(start, loader.spec_plugins(), fmt);
                let p = choose|p: int| #[trigger] halted_at(start, loader, order@, p, e);
                let i = order@[p] as int;
                assert(loader.spec_plugins()[i] == start[i] || loader.spec_plugins()[i]
                    == with_loaded(start[i], false));
                assert(loader.bundles()[i].format == fmt);
                assert(loader.views()[i].is_loaded);
                assert(start[i]@.is_loaded);
                assert(old(loader).views()[i].is_loaded);
                assert(old(loader).bundles()[i].format == fmt);
                assert(order@ == teardown_order(old(loader).views(), fmt));
                let a = old(loader).views();
                let b = loader.views();
                assert forall|u: int, j: int|
                    0 <= j < a.len() && a[j].is_loaded && a[u].bundle.format != fmt && #[trigger] uses(
                        a,
                        u,
                        j,
                    ) implies b[j].is_loaded by {
                    if among(order@, order@.len() as int, u) {
                        let w = choose|w: int| 0 <= w < order@.len() && #[trigger] order@[w] == u;
                        assert(start[order@[w] as int]@.bundle.format == fmt);
                    }
                }
                if e is CurrentlyUsesDepend && tidy(a, fmt) {
                    let u = choose|u: int|
                        #[trigger] first_user(b, u, i) && e->plugin@ == loader.bundles()[u];
                    assert(uses(b, u, i));
                    assert(e->depend@ == loader.bundles()[i]);
                    assert(loader.spec_plugins()[u] == start[u] || loader.spec_plugins()[u]
                        == with_loaded(start[u], false));
                    assert(loader.spec_plugins()[u] == start[u]);
                    assert(all_depends(b[u]) == all_depends(a[u]));
                    let k = choose|k: int|
                        0 <= k < all_depends(b[u]).len() && needs(b, #[trigger] all_depends(b[u])[k], i);
                    assert(admits(all_depends(a[u])[k], a[i].bundle));
                    assert(admitted_by(a, u, i));
                    if a[u].bundle.format == fmt {
                        assert(depends_on(a, u, i));
                        lemma_completion_same(sorted@, subset@, subset@.len() as int);
                        assert(order@ == sorted@);
                        assert(subset@.contains(u as usize));
                        let w = sorted@.index_of(u as usize);
                        assert(sorted@[w] == u);
                        assert(w < p);
                        assert(among(order@, p, u));
                        assert(false);
                    } else {
                        assert(touched(a, fmt));
                        assert(loader.bundles()[u] == a[u].bundle);
                    }
                }
            }
            return Err(UnregisterManagerError::UnregisterPlugin(UnregisterPluginError::UnloadError(e)));
        },
        Ok(targets) => targets,
    };
    let ghost base = loader.spec_plugins();
    let ghost names = bundle_views(targets@);
    proof {
        if held(old(loader).views(), fmt) {
            let ps = old(loader).views();
            let (u, i) = choose|u: int, i: int|
                0 <= i < ps.len() && ps[i].is_loaded && ps[i].bundle.format == fmt
                    && ps[u].bundle.format != fmt && #[trigger] uses(ps, u, i);
            assert(start[i]@.bundle.format == fmt);
            assert(subset@.contains(i as usize));
            assert(order@.contains(i as usize));
            let q = order@.index_of(i as usize);
            assert(order@[q] == i);
            assert(among(order@, order@.len() as int, i));
            if among(order@, order@.len() as int, u) {
                let w = choose|w: int| 0 <= w < order@.len() && #[trigger] order@[w] == u;
                assert(start[order@[w] as int]@.bundle.format == fmt);
            }
            assert(free_of_others(ps, order@));
            assert(false);
        }
        lemma_unloaded_keeps_others(start, base, fmt);
        assert forall|j: int| 0 <= j < base.len() && (#[trigger] base[j])@.bundle.format
            == fmt implies !base[j]@.is_loaded by {
            assert(base[j] == start[j] || base[j] == with_loaded(start[j], false));
            assert(start[j]@.bundle.format == fmt);
            assert(subset@.contains(j as usize));
            assert(order@.contains(j as usize));
            let q = order@.index_of(j as usize);
            assert(order@[q] == j);
            assert(among(order@, order@.len() as int, j));
        }
    }
    // Remove their records in the same order.
    if let Err((done, e)) = unregister_listed(loader, &targets) {
        proof {
            if e is UnloadError {
                let j = choose|j: int|
                    0 <= j < base.len() && (#[trigger] base[j])@.is_loaded && same_plugin(
                        base[j]@.bundle,
                        targets@[done as int]@,
                    );
                let o = order@[done as int] as int;
                assert(base[o] == start[o] || base[o] == with_loaded(start[o], false));
                assert(targets@[done as int]@ == base[o]@.bundle);
                assert(base[j]@.bundle.format == fmt) by {
                    if j != o {
                        assert(same_plugin(old(loader).bundles()[j], old(loader).bundles()[o])) by {
                            assert(base[j] == start[j] || base[j] == with_loaded(start[j], false));
                        }
                    }
                }
                assert(false);
            }
            assert forall|i: int|
                0 <= i < loader.views().len() && (#[trigger] loader.views()[i]).bundle.format
                    == fmt implies !loader.views()[i].is_loaded by {
                assert(base.contains(loader.spec_plugins()[i]));
                let j = base.index_of(loader.spec_plugins()[i]);
                assert(base[j] == loader.spec_plugins()[i]);
            }
            assert(base.len() == start.len());
            if none_of(old(loader).bundles(), fmt) && order@.len() > 0 {
                assert(old(loader).bundles()[order@[0] as int].format == fmt);
            }
            let seen = if e is UnloadError {
                names.take(done as int)
            } else {
                names.take(done + 1)
            };
            let left = |p: Plugin<O, I>| !named(seen, p@.bundle);
            lemma_names_of_format(old(loader).spec_plugins(), base, order@, names, seen, fmt);
            lemma_filter_twice_keep(base, left, keep);
        }
        return Err(UnregisterManagerError::UnregisterPlugin(e));
    }
    proof {
        lemma_all_of_format_named(old(loader).spec_plugins(), base, subset@, order@, names, fmt);
        assert forall|i: int| 0 <= i < loader.bundles().len() implies (
        #[trigger] loader.bundles()[i]).format != loader.formats()[index as int] by {
            base.lemma_filter_pred(keep, i);
        }
        assert(loader.spec_managers().len() == loader.formats().len());
        assert(old(loader).spec_managers().len() == old(loader).formats().len());
    }
    forced_unregister_manager(loader, index)
}

/// Unloading plugins of one format leaves the records of the other formats
/// as they are.
proof fn lemma_unloaded_keeps_others<O: Send + Sync, I: Info>(
    start: Seq<Plugin<O, I>>,
    base: Seq<Plugin<O, I>>,
    fmt: Seq<char>,
)
    requires
        unloaded_from(start, base, fmt),
    ensures
        of_other_formats(base, fmt) == of_other_formats(start, fmt),
        forall|i: int| 0 <= i < base.len() ==> (#[trigger] base[i])@.bundle == start[i]@.bundle,
{
    assert forall|i: int| 0 <= i < base.len() implies (#[trigger] base[i])@.bundle
        == start[i]@.bundle by {
        assert(base[i] == start[i] || base[i] == with_loaded(start[i], false));
    }
    lemma_filter_agree(base, start, |p: Plugin<O, I>| p@.bundle.format != fmt);
}

/// Where `order` holds every position of a plugin of the format, dropping
/// the plugins that the names give comes to dropping those of the format.
proof fn lemma_all_of_format_named<O: Send + Sync, I: Info>(
    start: Seq<Plugin<O, I>>,
    base: Seq<Plugin<O, I>>,
    subset: Seq<usize>,
    order: Seq<usize>,
    names: Seq<BundleView>,
    fmt: Seq<char>,
)
    requires
        start.len() <= usize::MAX,
        unloaded_from(start, base, fmt),
        distinct_plugins(bundles_of(plugin_views(base))),
        names.len() == order.len(),
        forall|q: int| 0 <= q < order.len() ==> (#[trigger] order[q]) < start.len(),
        forall|q: int| 0 <= q < order.len() ==> start[#[trigger] order[q] as int]@.bundle.format == fmt,
        forall|q: int| 0 <= q < order.len() ==> #[trigger] names[q] == start[order[q] as int]@.bundle,
        forall|s: int| 0 <= s < subset.len() ==> order.contains(#[trigger] subset[s]),
        forall|i: int|
            0 <= i < start.len() && (#[trigger] start[i])@.bundle.format == fmt ==> subset.contains(
                i as usize,
            ),
    ensures
        without(base, names) == of_other_formats(base, fmt),
{
    lemma_names_of_format(start, base, order, names, names, fmt);
    lemma_unloaded_keeps_others(start, base, fmt);
    assert forall|i: int| 0 <= i < base.len() implies named(names, (#[trigger] base[i])@.bundle) == (
    base[i]@.bundle.format == fmt) by {
        if base[i]@.bundle.format == fmt {
            assert(start[i]@.bundle.format == fmt);
            assert(subset.contains(i as usize));
            let s = subset.index_of(i as usize);
            assert(subset[s] == i as usize);
            assert(order.contains(subset[s]));
            let q = order.index_of(i as usize);
            assert(order[q] == i);
            assert(names[q] == base[i]@.bundle);
            assert(same_plugin(names[q], base[i]@.bundle));
        }
    }
    lemma_filter_alike(
        base,
        |p: Plugin<O, I>| !named(names, p@.bundle),
        |p: Plugin<O, I>| p@.bundle.format != fmt,
    );
}

/// Every name is the bundle of a plugin of the format, so no plugin of
/// another format is named.
proof fn lemma_names_of_format<O: Send + Sync, I: Info>(
    start: Seq<Plugin<O, I>>,
    base: Seq<Plugin<O, I>>,
    order: Seq<usize>,
    names: Seq<BundleView>,
    seen: Seq<BundleView>,
    fmt: Seq<char>,
)
    requires
        unloaded_from(start, base, fmt),
        distinct_plugins(bundles_of(plugin_views(base))),
        names.len() == order.len(),
        forall|q: int| 0 <= q < order.len() ==> (#[trigger] order[q]) < start.len(),
        forall|q: int| 0 <= q < order.len() ==> start[#[trigger] order[q] as int]@.bundle.format == fmt,
        forall|q: int| 0 <= q < order.len() ==> #[trigger] names[q] == start[order[q] as int]@.bundle,
        seen.len() <= names.len(),
        forall|q: int| 0 <= q < seen.len() ==> #[trigger] seen[q] == names[q],
    ensures
        forall|i: int|
            0 <= i < base.len() && named(seen, (#[trigger] base[i])@.bundle) ==> base[i]@.bundle.format
                == fmt,
{
    assert forall|i: int| 0 <= i < base.len() && named(seen, (#[trigger] base[i])@.bundle) implies base[i]@.bundle.format
        == fmt by {
        let k = choose|k: int| 0 <= k < seen.len() && same_plugin(#[trigger] seen[k], base[i]@.bundle);
        let j = order[k] as int;
        assert(names[k] == start[j]@.bundle);
        assert(base[j]@.bundle == start[j]@.bundle);
        let bs = bundles_of(plugin_views(base));
        assert(bs[j] == base[j]@.bundle && bs[i] == base[i]@.bundle);
        assert(same_plugin(bs[j], bs[i]));
        assert(i == j);
    }
}

/// Where the first filter drops only members that the second drops too,
/// applying the second after the first comes to applying the second alone.
proof fn lemma_filter_twice_keep<A>(s: Seq<A>, first: spec_fn(A) -> bool, second: spec_fn(A) -> bool)
    requires
        forall|i: int| 0 <= i < s.len() && !first(#[trigger] s[i]) ==> !second(s[i]),
    ensures
        s.filter(first).filter(second) == s.filter(second),
    decreases s.len(),
{
    reveal_with_fuel(Seq::filter, 2);
    if s.len() > 0 {
        lemma_filter_twice_keep(s.drop_last(), first, second);
        if first(s.last()) {
            assert(s.filter(first) == s.drop_last().filter(first).push(s.last()));
            assert(s.drop_last().filter(first).push(s.last()).drop_last() =~= s.drop_last().filter(
                first,
            ));
        }
    } else {
        assert(s.filter(first) =~= Seq::<A>::empty());
    }
}

/// Every plugin of `plugins` is as it is in `base`, or the record of `base`
/// with the load flag cleared.
pub open spec fn unloaded_some<O: Send + Sync, I: Info>(
    base: Seq<Plugin<O, I>>,
    plugins: Seq<Plugin<O, I>>,
) -> bool {
    &&& plugins.len() == base.len()
    &&& forall|i: int|
        0 <= i < base.len() ==> #[trigger] plugins[i] == base[i] || plugins[i] == with_loaded(
            base[i],
            false,
        )
}

/// The numbers from 0 up to `n`, without `n`.
fn positions(n: usize) -> (r: Vec<usize>)
    ensures
        r@.len() == n,
        forall|i: int| 0 <= i < n ==> r@[i] == i,
{
    let mut out: Vec<usize> = Vec::new();
    let mut i: usize = 0;
    while i < n
        invariant
            i <= n,
            out@.len() == i,
            forall|j: int| 0 <= j < i ==> out@[j] == j,
        decreases n - i,
    {
        out.push(i);
        i = i + 1;
    }
    out
}

/// Every record of `plugins` is a record of `base`, and a loaded one.
pub open spec fn left_loaded<O: Send + Sync, I: Info>(
    base: Seq<Plugin<O, I>>,
    plugins: Seq<Plugin<O, I>>,
) -> bool {
    forall|i: int|
        0 <= i < plugins.len() ==> (#[trigger] plugins[i])@.is_loaded && base.contains(plugins[i])
}

/// The records of `plugins` that are loaded, in order.
pub open spec fn loaded_of<O: Send + Sync, I: Info>(plugins: Seq<Plugin<O, I>>) -> Seq<Plugin<O, I>> {
    plugins.filter(is_loaded_record())
}

/// Whether a record is loaded.
pub open spec fn is_loaded_record<O: Send + Sync, I: Info>() -> spec_fn(Plugin<O, I>) -> bool {
    |p: Plugin<O, I>| p@.is_loaded
}

/// Whether a record is loaded or has a bundle that is not among `names`.
pub open spec fn stays<O: Send + Sync, I: Info>(names: Seq<BundleView>) -> spec_fn(Plugin<O, I>) -> bool {
    |p: Plugin<O, I>| p@.is_loaded || !named(names, p@.bundle)
}

/// The failures that stopping has collected, where `left` plugins are
/// left: first one failure to unload for each of them, then the failures of
/// `unregister_plugin` hooks.
pub open spec fn collected(errors: Seq<UnregisterPluginError>, left: int) -> bool {
    &&& 0 <= left <= errors.len()
    &&& forall|k: int|
        0 <= k < left ==> (#[trigger] errors[k] matches UnregisterPluginError::UnloadError(u) && u is UnloadPluginByManager)
    &&& forall|k: int| left <= k < errors.len() ==> #[trigger] errors[k] is UnregisterPluginByManager
}

/// Where no flag is set all are idle.
proof fn lemma_idle_none(n: nat)
    ensures
        idle(none_busy(n)) == n,
    decreases n,
{
    if n > 0 {
        lemma_idle_none((n - 1) as nat);
        assert(none_busy(n).drop_last() =~= none_busy((n - 1) as nat));
    }
}

/// As many records are loaded as flags are set, where the flags say which
/// records are loaded.
proof fn lemma_loaded_count<O: Send + Sync, I: Info>(plugins: Seq<Plugin<O, I>>, flags: Seq<bool>)
    requires
        flags.len() == plugins.len(),
        forall|i: int| 0 <= i < plugins.len() ==> flags[i] == (#[trigger] plugins[i])@.is_loaded,
    ensures
        loaded_of(plugins).len() + idle(flags) == plugins.len(),
    decreases plugins.len(),
{
    reveal_with_fuel(Seq::filter, 2);
    if plugins.len() > 0 {
        let front = plugins.drop_last();
        assert forall|i: int| 0 <= i < front.len() implies flags.drop_last()[i] == (
        #[trigger] front[i])@.is_loaded by {
            assert(front[i] == plugins[i]);
        }
        lemma_loaded_count(front, flags.drop_last());
        assert(flags.last() == plugins.last()@.is_loaded);
    } else {
        assert(plugins.filter(is_loaded_record()) =~= Seq::<Plugin<O, I>>::empty());
    }
}

/// What is left of `before`, the records of `mid` that stay under `names`,
/// when one more name counts: the same records, but for the record at `at`
/// with that name if there is one and it is not loaded.
proof fn lemma_stays_step<O: Send + Sync, I: Info>(
    mid: Seq<Plugin<O, I>>,
    names: Seq<BundleView>,
    b: BundleView,
    before: Seq<Plugin<O, I>>,
    found: bool,
    at: int,
)
    requires
        before == mid.filter(stays(names)),
        distinct_plugins(bundles_of(plugin_views(before))),
        found ==> 0 <= at < before.len() && same_plugin(before[at]@.bundle, b),
        !found ==> forall|j: int| 0 <= j < before.len() ==> !same_plugin((#[trigger] before[j])@.bundle, b),
    ensures
        mid.filter(stays(names.push(b))) == if found && !before[at]@.is_loaded {
            before.remove(at)
        } else {
            before
        },
{
    let keep = stays::<O, I>(names);
    let more = stays::<O, I>(names.push(b));
    assert forall|i: int| 0 <= i < mid.len() && !keep(#[trigger] mid[i]) implies !more(mid[i]) by {
        let k = choose|k: int| 0 <= k < names.len() && same_plugin(#[trigger] names[k], mid[i]@.bundle);
        assert(names.push(b)[k] == names[k]);
    }
    lemma_filter_twice_keep(mid, keep, more);
    let bs = bundles_of(plugin_views(before));
    assert forall|j: int| 0 <= j < before.len() implies keep(#[trigger] before[j]) by {
        mid.lemma_filter_pred(keep, j);
    }
    assert forall|j: int|
        0 <= j < before.len() && !(found && j == at) implies !same_plugin(
        (#[trigger] before[j])@.bundle,
        b,
    ) by {
        if found {
            assert(bs[j] == before[j]@.bundle && bs[at] == before[at]@.bundle);
            assert(!same_plugin(bs[j], bs[at]));
        }
    }
    assert forall|j: int|
        0 <= j < before.len() && !(found && j == at && !before[at]@.is_loaded) implies more(
        #[trigger] before[j],
    ) by {
        if !before[j]@.is_loaded {
            if named(names.push(b), before[j]@.bundle) {
                let k = choose|k: int|
                    0 <= k < names.push(b).len() && same_plugin(
                        #[trigger] names.push(b)[k],
                        before[j]@.bundle,
                    );
                if k < names.len() {
                    assert(names.push(b)[k] == names[k]);
                    assert(named(names, before[j]@.bundle));
                } else {
                    assert(names.push(b)[k] == b);
                }
            }
        }
    }
    if found && !before[at]@.is_loaded {
        let rest = before.remove(at);
        assert(!more(before[at])) by {
            assert(names.push(b)[names.len() as int] == b);
            assert(same_plugin(names.push(b)[names.len() as int], before[at]@.bundle));
        }
        lemma_filter_remove(before, more, at);
        assert forall|i: int| 0 <= i < rest.len() implies more(#[trigger] rest[i]) by {
            if i < at {
                assert(rest[i] == before[i]);
            } else {
                assert(rest[i] == before[i + 1]);
            }
        }
        lemma_filter_all(rest, more);
    } else {
        lemma_filter_all(before, more);
    }
}

/// Unloads every plugin, then removes the record of every plugin that is
/// not loaded any more.
///
/// The plugins are unloaded in the order that [`sort_plugins`] gives for
/// all of them, without regard to the plugins that use them. Then the
/// records are removed in the same order. A plugin that its manager could
/// not unload stays, loaded and as it was; every other record is gone
/// afterwards. The failures of the managers' `unload_plugin` and
/// `unregister_plugin` hooks are collected, and the walk goes on after each
/// of them.
pub fn stop_plugins<O: Send + Sync, I: Info>(loader: &mut Loader<O, I>) -> (r: Result<
    (),
    StopLoaderError,
>)
    requires
        old(loader).wf(),
    ensures
        final(loader).wf(),
        final(loader).formats() == old(loader).formats(),
        final(loader).spec_requests() == old(loader).spec_requests(),
        final(loader).spec_registry() == old(loader).spec_registry(),
        left_loaded(old(loader).spec_plugins(), final(loader).spec_plugins()),
        exists|mid: Seq<Plugin<O, I>>| #[trigger]
            unloaded_some(old(loader).spec_plugins(), mid) && final(loader).spec_plugins()
                == loaded_of(mid),
        old(loader).spec_plugins().len() == 0 ==> r is Ok,
        match r {
            Ok(_) => final(loader).spec_plugins().len() == 0,
            Err(StopLoaderError::UnregisterPluginFailed(errors)) => {
                &&& errors@.len() > 0
                &&& collected(errors@, final(loader).spec_plugins().len() as int)
            },
            Err(_) => false,
        },
{
    let count = loader.plugins.len();
    let all = positions(count);
    let sorted = sort_plugins(&loader.plugins, copy_positions(&all));
    let order = completed(sorted, &all);
    let ghost start = old(loader).spec_plugins();
    proof {
        assert forall|p: int| 0 <= p < order@.len() implies (#[trigger] order@[p]) < count by {
            if sorted@.contains(order@[p]) {
                let q = sorted@.index_of(order@[p]);
                assert(all@.contains(sorted@[q]));
            }
            let s = all@.index_of(order@[p]);
            assert(all@[s] == order@[p]);
        }
        if count == 0 && order@.len() > 0 {
            assert(order@[0] < count);
        }
    }
    // Unload the plugins, dependents first.
    let mut errors: Vec<UnregisterPluginError> = Vec::new();
    let mut targets: Vec<Bundle> = Vec::new();
    let ghost mut flags: Seq<bool> = none_busy(count as nat);
    proof {
        lemma_idle_none(count as nat);
    }
    let mut p: usize = 0;
    while p < order.len()
        invariant
            p <= order.len(),
            order@.no_duplicates(),
            flags.len() == count,
            errors@.len() + idle(flags) == count,
            forall|i: int|
                0 <= i < count ==> (#[trigger] flags[i] <==> among(order@, p as int, i)
                    && loader.spec_plugins()[i]@.is_loaded),
            collected(errors@, errors@.len() as int),
            count == start.len(),
            start == old(loader).spec_plugins(),
            loader.wf(),
            loader.formats() == old(loader).formats(),
            loader.spec_requests() == old(loader).spec_requests(),
            loader.spec_registry() == old(loader).spec_registry(),
            unloaded_some(start, loader.spec_plugins()),
            forall|q: int| 0 <= q < order@.len() ==> (#[trigger] order@[q]) < count,
            errors@.len() == 0 ==> forall|q: int|
                0 <= q < p ==> !loader.spec_plugins()[#[trigger] order@[q] as int]@.is_loaded,
            targets@.len() == p,
            errors@.len() <= p,
            forall|q: int| 0 <= q < p ==> (#[trigger] targets@[q])@ == start[order@[q] as int]@.bundle,
        decreases order.len() - p,
    {
        let at = order[p];
        let ghost before = loader.spec_plugins();
        assert(before[at as int] == start[at as int] || before[at as int] == with_loaded(
            start[at as int],
            false,
        ));
        targets.push(loader.plugins[at].info.bundle.clone());
        proof {
            if among(order@, p as int, at as int) {
                let w = choose|w: int| 0 <= w < p && #[trigger] order@[w] == at as int;
                assert(order@[w] == order@[p as int]);
            }
            assert(!flags[at as int]);
        }
        let ghost marks = flags;
        match forced_unload_plugin(loader, at) {
            Err(e) => {
                let ghost earlier = errors@;
                let failure = UnregisterPluginError::UnloadError(e);
                errors.push(failure);
                proof {
                    assert forall|k: int| 0 <= k < errors@.len() implies (
                    #[trigger] errors@[k] matches UnregisterPluginError::UnloadError(u) && u is UnloadPluginByManager) by {
                        if k < earlier.len() {
                            assert(errors@[k] == earlier[k]);
                        }
                    }
                    crate::load::lemma_idle_marked(flags, at as int);
                    flags = flags.update(at as int, true);
                    assert(loader.spec_plugins()[at as int]@.is_loaded);
                    assert forall|i: int| 0 <= i < count implies (#[trigger] flags[i] <==> among(
                        order@,
                        p + 1,
                        i,
                    ) && loader.spec_plugins()[i]@.is_loaded) by {
                        if i == at {
                            assert(order@[p as int] == i);
                        } else {
                            assert(flags[i] == marks[i]);
                            if among(order@, p + 1, i) {
                                let w = choose|w: int| 0 <= w < p + 1 && #[trigger] order@[w] == i;
                                assert(w < p);
                            }
                            if among(order@, p as int, i) {
                                let w = choose|w: int| 0 <= w < p && #[trigger] order@[w] == i;
                                assert(order@[w] == i);
                            }
                        }
                    }
                }
            },
            Ok(_) => {
                proof {
                    assert forall|i: int| 0 <= i < count implies (#[trigger] flags[i] <==> among(
                        order@,
                        p + 1,
                        i,
                    ) && loader.spec_plugins()[i]@.is_loaded) by {
                        if i == at {
                        } else {
                            assert(loader.spec_plugins()[i] == before[i]);
                            if among(order@, p + 1, i) {
                                let w = choose|w: int| 0 <= w < p + 1 && #[trigger] order@[w] == i;
                                assert(w < p);
                            }
                            if among(order@, p as int, i) {
                                let w = choose|w: int| 0 <= w < p && #[trigger] order@[w] == i;
                                assert(order@[w] == i);
                            }
                        }
                    }
                    assert forall|i: int| 0 <= i < before.len() implies #[trigger] loader.spec_plugins()[i]
                        == start[i] || loader.spec_plugins()[i] == with_loaded(start[i], false) by {
                        if i != at {
                            assert(loader.spec_plugins()[i] == before[i]);
                        }
                    }
                    assert forall|q: int| 0 <= q < p + 1 && errors@.len() == 0 implies !loader.spec_plugins()[
                    #[trigger] order@[q] as int]@.is_loaded by {
                        if order@[q] != at {
                            assert(loader.spec_plugins()[order@[q] as int] == before[order@[q] as int]);
                        }
                    }
                }
            },
        }
        p = p + 1;
    }
    let ghost middle = loader.spec_plugins();
    let ghost failed = errors@.len();
    proof {
        assert forall|j: int| 0 <= j < middle.len() implies named(
            bundle_views(targets@),
            (#[trigger] middle[j])@.bundle,
        ) by {
            assert(all@[j] == j);
            assert(order@.contains(all@[j]));
            let q = order@.index_of(j as usize);
            assert(order@[q] == j);
            assert(targets@[q]@ == start[j]@.bundle);
            assert(middle[j] == start[j] || middle[j] == with_loaded(start[j], false));
            assert(same_plugin(bundle_views(targets@)[q], middle[j]@.bundle));
        }
        if failed == 0 {
            assert forall|j: int| 0 <= j < middle.len() implies !(#[trigger] middle[j])@.is_loaded by {
                assert(all@[j] == j);
                assert(order@.contains(all@[j]));
                let q = order@.index_of(j as usize);
                assert(order@[q] == j);
            }
        }
        assert forall|j: int| 0 <= j < middle.len() implies flags[j] == (#[trigger] middle[j])@.is_loaded by {
            assert(all@[j] == j);
            assert(order@.contains(all@[j]));
            let q = order@.index_of(j as usize);
            assert(order@[q] == j);
            assert(among(order@, order@.len() as int, j));
        }
        lemma_loaded_count(middle, flags);
        assert(bundle_views(targets@).take(0) =~= Seq::<BundleView>::empty());
        lemma_filter_all(middle, stays::<O, I>(bundle_views(targets@).take(0)));
        assert(unloaded_some(start, middle));
    }
    let ghost names = bundle_views(targets@);
    // Remove the records of the plugins that are unloaded, in the same order.
    let mut q: usize = 0;
    while q < targets.len()
        invariant
            q <= targets.len(),
            loader.wf(),
            loader.formats() == old(loader).formats(),
            loader.spec_requests() == old(loader).spec_requests(),
            loader.spec_registry() == old(loader).spec_registry(),
            failed <= errors@.len(),
            targets@.len() == 0 ==> errors@.len() == 0,
            collected(errors@, failed as int),
            names == bundle_views(targets@),
            loader.spec_plugins() == middle.filter(stays(names.take(q as int))),
            forall|i: int|
                0 <= i < loader.spec_plugins().len() ==> middle.contains(#[trigger] loader.spec_plugins()[i]),
            forall|t: int, i: int|
                0 <= t < q && 0 <= i < loader.spec_plugins().len() && same_plugin(
                    (#[trigger] loader.spec_plugins()[i])@.bundle,
                    (#[trigger] targets@[t])@,
                ) ==> loader.spec_plugins()[i]@.is_loaded,
        decreases targets.len() - q,
    {
        let ghost before = loader.spec_plugins();
        let ghost bs = loader.bundles();
        assert(forall|i: int| 0 <= i < before.len() ==> bs[i] == (#[trigger] before[i])@.bundle);
        proof {
            assert(names.take(q + 1) =~= names.take(q as int).push(names[q as int]));
            assert(names[q as int] == targets@[q as int]@);
            assert(bundles_of(plugin_views(before)) =~= bs);
        }
        match find_bundle(&loader.plugins, &targets[q]) {
            None => {
                proof {
                    lemma_stays_step(middle, names.take(q as int), names[q as int], before, false, 0);
                }
            },
            Some(at) => {
                proof {
                    lemma_stays_step(
                        middle,
                        names.take(q as int),
                        names[q as int],
                        before,
                        true,
                        at as int,
                    );
                }
                if !loader.plugins[at].is_load {
                    if let Err(e) = forced_unregister_plugin(loader, at) {
                        let ghost earlier = errors@;
                        errors.push(e);
                        assert forall|k: int| 0 <= k < errors@.len() implies (k < failed
                            ==> errors@[k] == earlier[k]) && (k >= failed ==> #[trigger] errors@[k] is UnregisterPluginByManager) by {
                            if k < earlier.len() {
                                assert(errors@[k] == earlier[k]);
                            }
                        }
                    }
                    proof {
                        let now = loader.spec_plugins();
                        assert forall|i: int| 0 <= i < now.len() implies middle.contains(
                            #[trigger] now[i],
                        ) && now[i] == before[if i < at { i } else { i + 1 }] by {
                            if i < at {
                                assert(now[i] == before[i]);
                            } else {
                                assert(now[i] == before[i + 1]);
                            }
                        }
                        assert forall|t: int, i: int|
                            0 <= t < q + 1 && 0 <= i < now.len() && same_plugin(
                                (#[trigger] now[i])@.bundle,
                                (#[trigger] targets@[t])@,
                            ) implies now[i]@.is_loaded by {
                            let i0 = if i < at { i } else { i + 1 };
                            assert(now[i] == before[i0]);
                            if t == q {
                                assert(same_plugin(bs[i0], bs[at as int]));
                            }
                        }
                    }
                } else {
                    proof {
                        assert forall|t: int, i: int|
                            0 <= t < q + 1 && 0 <= i < before.len() && same_plugin(
                                (#[trigger] before[i])@.bundle,
                                (#[trigger] targets@[t])@,
                            ) implies before[i]@.is_loaded by {
                            if t == q && i != at {
                                assert(same_plugin(bs[i], bs[at as int]));
                            }
                        }
                    }
                }
            },
        }
        q = q + 1;
    }
    proof {
        let last = loader.spec_plugins();
        assert forall|i: int| 0 <= i < last.len() implies (#[trigger] last[i])@.is_loaded
            && start.contains(last[i]) by {
            assert(middle.contains(last[i]));
            let j = middle.index_of(last[i]);
            assert(middle[j] == last[i]);
            assert(named(bundle_views(targets@), middle[j]@.bundle));
            let t = choose|t: int|
                0 <= t < bundle_views(targets@).len() && same_plugin(
                    #[trigger] bundle_views(targets@)[t],
                    middle[j]@.bundle,
                );
            assert(bundle_views(targets@)[t] == targets@[t]@);
            assert(same_plugin(last[i]@.bundle, targets@[t]@));
            assert(middle[j] == start[j] || middle[j] == with_loaded(start[j], false));
            assert(start[j] == last[i]);
        }
        if errors@.len() == 0 && last.len() > 0 {
            assert(middle.contains(last[0]));
            let j = middle.index_of(last[0]);
            assert(!middle[j]@.is_loaded);
        }
        assert(names.take(targets@.len() as int) =~= names);
        assert forall|j: int| 0 <= j < middle.len() implies stays::<O, I>(names)(
            #[trigger] middle[j],
        ) == is_loaded_record::<O, I>()(middle[j]) by {
            assert(named(names, middle[j]@.bundle));
        }
        lemma_filter_alike(middle, stays::<O, I>(names), is_loaded_record::<O, I>());
        assert(last == loaded_of(middle));
        assert(last.len() == failed);
    }
    if errors.len() > 0 {
        Err(StopLoaderError::UnregisterPluginFailed(errors))
    } else {
        Ok(())
    }
}

/// Removes every manager of an engine without plugins, from the first to
/// the last, and collects the failures of their `unregister_manager` hooks.
pub fn stop_managers<O: Send + Sync, I: Info>(loader: &mut Loader<O, I>) -> (r: Result<
    (),
    StopLoaderError,
>)
    requires
        old(loader).wf(),
        old(loader).spec_plugins().len() == 0,
    ensures
        final(loader).wf(),
        final(loader).spec_plugins().len() == 0,
        final(loader).spec_managers().len() == 0,
        final(loader).spec_requests() == old(loader).spec_requests(),
        final(loader).spec_registry() == old(loader).spec_registry(),
        old(loader).spec_managers().len() == 0 ==> r is Ok,
        match r {
            Ok(_) => true,
            Err(StopLoaderError::UnregisterManagerFailed(errors)) => {
                &&& errors@.len() > 0
                &&& forall|k: int|
                    0 <= k < errors@.len() ==> #[trigger] errors@[k] is UnregisterManagerByManager
            },
            Err(_) => false,
        },
{
    let mut errors: Vec<UnregisterManagerError> = Vec::new();
    while loader.managers.len() > 0
        invariant
            loader.wf(),
            old(loader).spec_managers().len() == 0 ==> errors@.len() == 0
                && loader.spec_managers().len() == 0,
            forall|k: int| 0 <= k < errors@.len() ==> #[trigger] errors@[k] is UnregisterManagerByManager,
            loader.spec_plugins().len() == 0,
            loader.spec_requests() == old(loader).spec_requests(),
            loader.spec_registry() == old(loader).spec_registry(),
        decreases loader.managers.len(),
    {
        assert(loader.bundles().len() == 0);
        if let Err(e) = forced_unregister_manager(loader, 0) {
            errors.push(e);
        }
        assert(loader.formats().len() == loader.spec_managers().len());
    }
    if errors.len() > 0 {
        Err(StopLoaderError::UnregisterManagerFailed(errors))
    } else {
        Ok(())
    }
}

} // verus!
