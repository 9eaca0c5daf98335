//! The order in which plugins are torn down: a plugin that others depend on
//! comes after the plugins that depend on it.

use vstd::prelude::*;
use crate::info::{Depend, DependView, Info};
use crate::plugin::{Plugin, PluginView};
use crate::solver::{
    all_depends, bundles_of, depends_on, is_depend_of, is_match, plugin_views, resolves,
};

verus! {

/// Some member of `set` depends on plugin `i`.
pub open spec fn needed_within(ps: Seq<PluginView>, set: Seq<usize>, i: int) -> bool {
    exists|s: int| 0 <= s < set.len() && depends_on(ps, #[trigger] set[s] as int, i)
}

/// Every member of `order` belongs to `set`, and none occurs twice.
pub open spec fn selection(set: Seq<usize>, order: Seq<usize>) -> bool {
    &&& order.no_duplicates()
    &&& forall|p: int| 0 <= p < order.len() ==> set.contains(#[trigger] order[p])
}

/// Every member of `set` that depends on a member of `order`, and is
/// another plugin, stands before that member in `order`.
pub open spec fn dependents_first(ps: Seq<PluginView>, set: Seq<usize>, order: Seq<usize>) -> bool {
    forall|b: int, s: int|
        0 <= b < order.len() && 0 <= s < set.len() && set[s] != order[b] && #[trigger] depends_on(
            ps,
            set[s] as int,
            order[b] as int,
        ) ==> exists|a: int| 0 <= a < b && #[trigger] order[a] == set[s]
}

/// Another member of `set` that is not in `order` yet depends on plugin
/// `t`.
pub open spec fn awaited(ps: Seq<PluginView>, set: Seq<usize>, order: Seq<usize>, t: int) -> bool {
    exists|s: int|
        0 <= s < set.len() && set[s] as int != t && !order.contains(set[s]) && #[trigger] depends_on(
            ps,
            set[s] as int,
            t,
        )
}

/// The order so far puts dependents first, and every other member of `set`
/// that depends on plugin `i` is in it.
pub open spec fn brought_in(ps: Seq<PluginView>, set: Seq<usize>, order: Seq<usize>, i: int) -> bool {
    &&& dependents_first(ps, set, order)
    &&& !awaited(ps, set, order, i)
}

/// A member of `order` is a match of `d`.
pub open spec fn listed(ps: Seq<PluginView>, order: Seq<usize>, d: DependView) -> bool {
    exists|p: int| 0 <= p < order.len() && resolves(bundles_of(ps), d, #[trigger] order[p] as int)
}

/// The last match of `d` in `set`, looked for from position `s` on with
/// `target` found so far.
pub open spec fn last_match(
    ps: Seq<PluginView>,
    set: Seq<usize>,
    d: DependView,
    s: int,
    target: Option<usize>,
) -> Option<usize>
    decreases set.len() - s,
{
    if s < 0 || s >= set.len() {
        target
    } else if resolves(bundles_of(ps), d, set[s] as int) {
        last_match(ps, set, d, s + 1, Some(set[s]))
    } else {
        last_match(ps, set, d, s + 1, target)
    }
}

/// The member of `set` that is picked for `d`: the match of `d` in `set`,
/// unless another member that is not in `order` yet depends on that match
/// too; then nothing is picked, and that member brings the match in when its
/// turn comes.
pub open spec fn scan(ps: Seq<PluginView>, set: Seq<usize>, order: Seq<usize>, d: DependView) -> Option<
    usize,
> {
    match last_match(ps, set, d, 0, None) {
        Some(t) => if awaited(ps, set, order, t as int) {
            None
        } else {
            Some(t)
        },
        None => None,
    }
}

/// The order after plugin `index` was picked: `index` is appended to
/// `order`, then its dependencies are gone through. `depth` bounds how deep
/// picks may nest; the number of plugins is always enough.
pub open spec fn pick(
    ps: Seq<PluginView>,
    set: Seq<usize>,
    index: usize,
    order: Seq<usize>,
    depth: nat,
) -> Seq<usize>
    decreases depth, all_depends(ps[index as int]).len() + 1,
{
    pick_depends(ps, set, index, 0, order.push(index), depth)
}

/// The order after the dependencies of plugin `index` from the `k`-th on
/// were gone through: for each dependency without a match in the order, the
/// member of the set that [`scan`] gives is picked.
pub open spec fn pick_depends(
    ps: Seq<PluginView>,
    set: Seq<usize>,
    index: usize,
    k: int,
    order: Seq<usize>,
    depth: nat,
) -> Seq<usize>
    decreases depth, all_depends(ps[index as int]).len() - k,
{
    let ds = all_depends(ps[index as int]);
    if k < 0 || k >= ds.len() {
        order
    } else {
        let next = if listed(ps, order, ds[k]) {
            order
        } else {
            match scan(ps, set, order, ds[k]) {
                Some(t) => if depth > 0 {
                    pick(ps, set, t, order, (depth - 1) as nat)
                } else {
                    order
                },
                None => order,
            }
        };
        pick_depends(ps, set, index, k + 1, next, depth)
    }
}

/// The order after the members of `set` from position `s` on had their
/// turn: a member that no member depends on and that is not in the order yet
/// is picked.
pub open spec fn sort_from(ps: Seq<PluginView>, set: Seq<usize>, s: int, order: Seq<usize>) -> Seq<
    usize,
>
    decreases set.len() - s,
{
    if s < 0 || s >= set.len() {
        order
    } else {
        let next = if !needed_within(ps, set, set[s] as int) && !order.contains(set[s]) {
            pick(ps, set, set[s], order, ps.len())
        } else {
            order
        };
        sort_from(ps, set, s + 1, next)
    }
}

/// The order in which the plugins of `set` are torn down.
pub open spec fn sort_order(ps: Seq<PluginView>, set: Seq<usize>) -> Seq<usize> {
    sort_from(ps, set, 0, Seq::empty())
}

/// A list of different numbers below `n` has at most `n` members.
proof fn lemma_distinct_below(s: Seq<usize>, n: nat)
    requires
        s.no_duplicates(),
        forall|i: int| 0 <= i < s.len() ==> (#[trigger] s[i]) < n,
    ensures
        s.len() <= n,
    decreases n,
{
    if s.len() > 0 {
        if n == 0 {
            assert(s[0] < n);
        } else {
            // Drop the member n - 1, if there is one, and count the rest.
            let top = (n - 1) as usize;
            if s.contains(top) {
                let at = s.index_of(top);
                let rest = s.remove(at);
                assert forall|i: int| 0 <= i < rest.len() implies (#[trigger] rest[i]) < n - 1 by {
                    let i0 = if i < at {
                        i
                    } else {
                        i + 1
                    };
                    assert(rest[i] == s[i0]);
                    assert(s[i0] < n);
                    assert(i0 != at);
                }
                assert(rest.no_duplicates()) by {
                    assert forall|i: int, j: int|
                        0 <= i < rest.len() && 0 <= j < rest.len() && i != j implies rest[i]
                        != rest[j] by {
                        let i0 = if i < at {
                            i
                        } else {
                            i + 1
                        };
                        let j0 = if j < at {
                            j
                        } else {
                            j + 1
                        };
                        assert(rest[i] == s[i0] && rest[j] == s[j0]);
                    }
                }
                lemma_distinct_below(rest, (n - 1) as nat);
            } else {
                assert forall|i: int| 0 <= i < s.len() implies (#[trigger] s[i]) < n - 1 by {
                    assert(s.contains(s[i]));
                }
                lemma_distinct_below(s, (n - 1) as nat);
            }
        }
    }
}

/// Whether `list` holds `value`.
pub(crate) fn holds(list: &Vec<usize>, value: usize) -> (r: bool)
    ensures
        r == list@.contains(value),
{
    let mut p: usize = 0;
    while p < list.len()
        invariant
            p <= list.len(),
            forall|q: int| 0 <= q < p ==> list@[q] != value,
        decreases list.len() - p,
    {
        if list[p] == value {
            return true;
        }
        p = p + 1;
    }
    false
}

/// Whether a member of `set` depends on plugin `index`.
fn is_needed_within<O: Send + Sync, I: Info>(
    plugins: &Vec<Plugin<O, I>>,
    set: &Vec<usize>,
    index: usize,
) -> (r: bool)
    requires
        index < plugins@.len(),
        forall|s: int| 0 <= s < set@.len() ==> (#[trigger] set@[s]) < plugins@.len(),
    ensures
        r == needed_within(plugin_views(plugins@), set@, index as int),
{
    let mut s: usize = 0;
    while s < set.len()
        invariant
            s <= set.len(),
            index < plugins@.len(),
            forall|t: int| 0 <= t < set@.len() ==> (#[trigger] set@[t]) < plugins@.len(),
            forall|t: int|
                0 <= t < s ==> !depends_on(
                    plugin_views(plugins@),
                    #[trigger] set@[t] as int,
                    index as int,
                ),
        decreases set.len() - s,
    {
        if is_depend_of(plugins, set[s], index) {
            return true;
        }
        s = s + 1;
    }
    false
}

/// Whether a plugin of `order` is a match of `depend`.
fn is_listed<O: Send + Sync, I: Info>(plugins: &Vec<Plugin<O, I>>, order: &Vec<usize>, depend: &Depend) -> (r:
    bool)
    requires
        forall|p: int| 0 <= p < order@.len() ==> (#[trigger] order@[p]) < plugins@.len(),
    ensures
        r == listed(plugin_views(plugins@), order@, depend@),
{
    let mut p: usize = 0;
    while p < order.len()
        invariant
            p <= order.len(),
            forall|q: int| 0 <= q < order@.len() ==> (#[trigger] order@[q]) < plugins@.len(),
            forall|q: int|
                0 <= q < p ==> !resolves(
                    bundles_of(plugin_views(plugins@)),
                    depend@,
                    #[trigger] order@[q] as int,
                ),
        decreases order.len() - p,
    {
        if is_match(plugins, depend, order[p]) {
            return true;
        }
        p = p + 1;
    }
    false
}

/// Whether another member of `set` that is not in `order` yet depends on
/// the plugin at `target`.
fn is_awaited<O: Send + Sync, I: Info>(
    plugins: &Vec<Plugin<O, I>>,
    set: &Vec<usize>,
    order: &Vec<usize>,
    target: usize,
) -> (r: bool)
    requires
        target < plugins@.len(),
        forall|s: int| 0 <= s < set@.len() ==> (#[trigger] set@[s]) < plugins@.len(),
    ensures
        r == awaited(plugin_views(plugins@), set@, order@, target as int),
{
    let ghost ps = plugin_views(plugins@);
    let mut s: usize = 0;
    while s < set.len()
        invariant
            s <= set.len(),
            target < plugins@.len(),
            ps == plugin_views(plugins@),
            forall|t: int| 0 <= t < set@.len() ==> (#[trigger] set@[t]) < plugins@.len(),
            forall|t: int|
                0 <= t < s ==> !(set@[t] as int != target as int && !order@.contains(set@[t])
                    && #[trigger] depends_on(ps, set@[t] as int, target as int)),
        decreases set.len() - s,
    {
        let member = set[s];
        if member != target && !holds(order, member) && is_depend_of(plugins, member, target) {
            return true;
        }
        s = s + 1;
    }
    false
}

/// The member of `set` that is to be picked next for `depend`: the match of
/// `depend` in `set`, unless another member that is not picked yet depends
/// on it too, in which case that member will bring it in.
fn next_pick<O: Send + Sync, I: Info>(
    plugins: &Vec<Plugin<O, I>>,
    set: &Vec<usize>,
    order: &Vec<usize>,
    depend: &Depend,
) -> (r: Option<usize>)
    requires
        forall|s: int| 0 <= s < set@.len() ==> (#[trigger] set@[s]) < plugins@.len(),
        forall|p: int| 0 <= p < order@.len() ==> (#[trigger] order@[p]) < plugins@.len(),
    ensures
        r == scan(plugin_views(plugins@), set@, order@, depend@),
        r matches Some(t) ==> set@.contains(t) && resolves(
            bundles_of(plugin_views(plugins@)),
            depend@,
            t as int,
        ) && !awaited(plugin_views(plugins@), set@, order@, t as int),
{
    let ghost ps = plugin_views(plugins@);
    let mut target: Option<usize> = None;
    let mut s: usize = 0;
    while s < set.len()
        invariant
            s <= set.len(),
            ps == plugin_views(plugins@),
            forall|t: int| 0 <= t < set@.len() ==> (#[trigger] set@[t]) < plugins@.len(),
            last_match(ps, set@, depend@, 0, None) == last_match(ps, set@, depend@, s as int, target),
            target matches Some(t) ==> set@.contains(t) && resolves(bundles_of(ps), depend@, t as int),
        decreases set.len() - s,
    {
        let member = set[s];
        if is_match(plugins, depend, member) {
            target = Some(member);
        }
        s = s + 1;
    }
    match target {
        None => None,
        Some(t) => if is_awaited(plugins, set, order, t) {
            None
        } else {
            Some(t)
        },
    }
}

/// The dependencies of a plugin, required ones first.
fn depends_list<O: Send + Sync, I: Info>(plugin: &Plugin<O, I>) -> (r: Vec<Depend>)
    ensures
        crate::info::depend_views(r@) == all_depends(plugin@),
{
    let required = plugin.depends();
    let optional = plugin.optional_depends();
    let mut out: Vec<Depend> = Vec::new();
    let mut k: usize = 0;
    while k < required.len()
        invariant
            k <= required.len(),
            out@.len() == k,
            forall|j: int| 0 <= j < k ==> (#[trigger] out@[j])@ == required@[j]@,
        decreases required.len() - k,
    {
        out.push(required[k].clone());
        k = k + 1;
    }
    let mut m: usize = 0;
    while m < optional.len()
        invariant
            m <= optional.len(),
            out@.len() == required@.len() + m,
            forall|j: int| 0 <= j < required@.len() ==> (#[trigger] out@[j])@ == required@[j]@,
            forall|j: int|
                required@.len() <= j < required@.len() + m ==> (#[trigger] out@[j])@
                    == optional@[j - required@.len()]@,
        decreases optional.len() - m,
    {
        out.push(optional[m].clone());
        m = m + 1;
    }
    assert(crate::info::depend_views(out@) =~= crate::info::depend_views(required@)
        + crate::info::depend_views(optional@));
    out
}

/// Appends the plugin at `index` to `result`, and after it, depth first,
/// the members of `plugins_set` that its dependencies resolve to and that
/// are not in `result` yet.
///
/// A dependency is passed over while another member of the set that is not
/// in `result` depends on its match too: that member brings the match in
/// when its turn comes. Where `result` puts dependents first and holds every
/// other member that depends on the plugin at `index`, the longer list puts
/// dependents first too.
pub fn sort_pick<O: Send + Sync, I: Info>(
    plugins: &Vec<Plugin<O, I>>,
    plugins_set: &Vec<usize>,
    index: usize,
    result: &mut Vec<usize>,
)
    requires
        forall|s: int| 0 <= s < plugins_set@.len() ==> (#[trigger] plugins_set@[s]) < plugins@.len(),
        plugins_set@.contains(index),
        !old(result)@.contains(index),
        selection(plugins_set@, old(result)@),
    ensures
        forall|depth: nat|
            depth + old(result)@.len() >= plugins@.len() ==> final(result)@ == #[trigger] pick(
                plugin_views(plugins@),
                plugins_set@,
                index,
                old(result)@,
                depth,
            ),
        final(result)@.len() > old(result)@.len(),
        final(result)@.subrange(0, old(result)@.len() as int) == old(result)@,
        final(result)@[old(result)@.len() as int] == index,
        selection(plugins_set@, final(result)@),
        forall|p: int|
            old(result)@.len() < p < final(result)@.len() ==> needed_within(
                plugin_views(plugins@),
                plugins_set@,
                #[trigger] final(result)@[p] as int,
            ),
        brought_in(plugin_views(plugins@), plugins_set@, old(result)@, index as int)
            ==> dependents_first(plugin_views(plugins@), plugins_set@, final(result)@),
    decreases plugins@.len() - old(result)@.len(),
{
    let ghost ps = plugin_views(plugins@);
    let ghost start = old(result)@;
    let ghost sound = brought_in(ps, plugins_set@, start, index as int);
    proof {
        assert forall|p: int| 0 <= p < start.len() implies (#[trigger] start[p]) < plugins@.len() by {
            assert(plugins_set@.contains(start[p]));
        }
        assert(start.push(index).no_duplicates());
        lemma_distinct_below(start.push(index), plugins@.len());
    }
    result.push(index);
    let at = result.len() - 1;
    proof {
        assert(result@.subrange(0, start.len() as int) =~= start);
        assert forall|b: int, s: int|
            sound && 0 <= b < result@.len() && 0 <= s < plugins_set@.len() && plugins_set@[s]
                != result@[b] && #[trigger] depends_on(
                ps,
                plugins_set@[s] as int,
                result@[b] as int,
            ) implies exists|a: int| 0 <= a < b && #[trigger] result@[a] == plugins_set@[s] by {
            if b < start.len() {
                assert(result@[b] == start[b]);
                let a = choose|a: int| 0 <= a < b && #[trigger] start[a] == plugins_set@[s];
                assert(result@[a] == start[a]);
            } else {
                assert(result@[b] == index);
                assert(start.contains(plugins_set@[s]));
                let a = start.index_of(plugins_set@[s]);
                assert(result@[a] == start[a]);
            }
        }
    }
    let depends = depends_list(&plugins[index]);
    let mut k: usize = 0;
    while k < depends.len()
        invariant
            k <= depends.len(),
            index < plugins@.len(),
            ps == plugin_views(plugins@),
            start == old(result)@,
            at == start.len(),
            crate::info::depend_views(depends@) == all_depends(ps[index as int]),
            forall|s: int|
                0 <= s < plugins_set@.len() ==> (#[trigger] plugins_set@[s]) < plugins@.len(),
            result@.len() > start.len(),
            result@.subrange(0, start.len() as int) == start,
            result@[at as int] == index,
            selection(plugins_set@, result@),
            plugins_set@.contains(index),
            forall|p: int|
                start.len() < p < result@.len() ==> needed_within(
                    ps,
                    plugins_set@,
                    #[trigger] result@[p] as int,
                ),
            sound ==> dependents_first(ps, plugins_set@, result@),
            start.len() < plugins@.len(),
            forall|depth: nat|
                depth + start.len() >= plugins@.len() ==> #[trigger] pick(
                    ps,
                    plugins_set@,
                    index,
                    start,
                    depth,
                ) == pick_depends(ps, plugins_set@, index, k as int, result@, depth),
        decreases depends.len() - k,
    {
        let ghost entry = result@;
        proof {
            assert forall|p: int| 0 <= p < result@.len() implies (#[trigger] result@[p])
                < plugins@.len() by {
                assert(plugins_set@.contains(result@[p]));
            }
        }
        assert(all_depends(ps[index as int])[k as int] == depends@[k as int]@);
        let found = is_listed(plugins, result, &depends[k]);
        let target = if found {
            None
        } else {
            next_pick(plugins, plugins_set, result, &depends[k])
        };
        if let Some(target) = target {
            proof {
                assert(!entry.contains(target));
                assert(entry.push(target).no_duplicates());
                lemma_distinct_below(entry.push(target), plugins@.len());
                if sound {
                    assert(brought_in(ps, plugins_set@, entry, target as int));
                }
            }
            sort_pick(plugins, plugins_set, target, result);
            proof {
                assert forall|p: int| start.len() < p < result@.len() implies needed_within(
                    ps,
                    plugins_set@,
                    #[trigger] result@[p] as int,
                ) by {
                    if p < entry.len() {
                        assert(result@.subrange(0, entry.len() as int)[p] == result@[p]);
                    } else if p == entry.len() {
                        let w = plugins_set@.index_of(index);
                        assert(plugins_set@[w] == index);
                        assert(depends_on(ps, plugins_set@[w] as int, target as int)) by {
                            assert(resolves(bundles_of(ps), all_depends(ps[index as int])[k as int], target as int));
                        }
                    }
                }
                assert(result@.subrange(0, start.len() as int) =~= entry.subrange(
                    0,
                    start.len() as int,
                )) by {
                    assert(result@.subrange(0, entry.len() as int) == entry);
                    assert forall|i: int| 0 <= i < start.len() implies result@[i] == entry[i] by {
                        assert(result@.subrange(0, entry.len() as int)[i] == result@[i]);
                    }
                }
                assert(result@[at as int] == result@.subrange(0, entry.len() as int)[at as int]);
            }
        }
        proof {
            let d = all_depends(ps[index as int])[k as int];
            assert forall|depth: nat| depth + start.len() >= plugins@.len() implies #[trigger] pick(
                ps,
                plugins_set@,
                index,
                start,
                depth,
            ) == pick_depends(ps, plugins_set@, index, k + 1, result@, depth) by {
                assert(depth > 0);
                let next = if listed(ps, entry, d) {
                    entry
                } else {
                    match scan(ps, plugins_set@, entry, d) {
                        Some(t) => pick(ps, plugins_set@, t, entry, (depth - 1) as nat),
                        None => entry,
                    }
                };
                assert(pick_depends(ps, plugins_set@, index, k as int, entry, depth) == pick_depends(
                    ps,
                    plugins_set@,
                    index,
                    k + 1,
                    next,
                    depth,
                ));
                if target is Some {
                    assert((depth - 1) as nat + entry.len() >= plugins@.len());
                    assert(result@ == pick(ps, plugins_set@, target->0, entry, (depth - 1) as nat));
                }
                assert(next == result@);
            }
        }
        k = k + 1;
    }
}

/// The position of `x` in `order`, which holds it once.
pub open spec fn place(order: Seq<usize>, x: usize) -> int {
    order.index_of(x)
}

/// The members that no member depends on, among the first `n` of `set`,
/// stand in `order` as they stand in `set`.
pub open spec fn in_turn(ps: Seq<PluginView>, set: Seq<usize>, order: Seq<usize>, n: int) -> bool {
    forall|a: int, b: int|
        0 <= a < b < n && !needed_within(ps, set, set[a] as int) && !needed_within(
            ps,
            set,
            set[b] as int,
        ) ==> place(order, #[trigger] set[a]) < place(order, #[trigger] set[b])
}

/// In a list without duplicates the place of a member is where it stands.
proof fn lemma_place(order: Seq<usize>, x: usize, p: int)
    requires
        order.no_duplicates(),
        0 <= p < order.len(),
        order[p] == x,
    ensures
        place(order, x) == p,
{
    assert(order.contains(x));
    let q = order.index_of(x);
    assert(order[q] == x);
}

/// The order in which the plugins of `plugins_set` are to be torn down.
///
/// The members that no member depends on are picked in the order of the
/// set; each is followed, depth first, by the members that its dependencies
/// resolve to, each as soon as every other member that depends on it has
/// been picked. So a member stands before every member that it depends on,
/// and no member comes twice. The members that no member depends on stand
/// as they stand in the set, if the set holds none twice. A member that
/// depends on itself, directly or through others, is left out.
pub fn sort_plugins<O: Send + Sync, I: Info>(plugins: &Vec<Plugin<O, I>>, plugins_set: Vec<usize>) -> (result:
    Vec<usize>)
    requires
        forall|s: int| 0 <= s < plugins_set@.len() ==> (#[trigger] plugins_set@[s]) < plugins@.len(),
    ensures
        result@ == sort_order(plugin_views(plugins@), plugins_set@),
        selection(plugins_set@, result@),
        dependents_first(plugin_views(plugins@), plugins_set@, result@),
        forall|a: int, b: int|
            0 <= a < result@.len() && 0 <= b < result@.len() && a != b && #[trigger] depends_on(
                plugin_views(plugins@),
                result@[a] as int,
                result@[b] as int,
            ) ==> a < b,
        forall|s: int|
            0 <= s < plugins_set@.len() && !needed_within(
                plugin_views(plugins@),
                plugins_set@,
                #[trigger] plugins_set@[s] as int,
            ) ==> result@.contains(plugins_set@[s]),
        plugins_set@.no_duplicates() ==> in_turn(
            plugin_views(plugins@),
            plugins_set@,
            result@,
            plugins_set@.len() as int,
        ),
{
    let ghost ps = plugin_views(plugins@);
    let mut result: Vec<usize> = Vec::new();
    let mut s: usize = 0;
    while s < plugins_set.len()
        invariant
            s <= plugins_set.len(),
            ps == plugin_views(plugins@),
            sort_order(ps, plugins_set@) == sort_from(ps, plugins_set@, s as int, result@),
            forall|t: int|
                0 <= t < plugins_set@.len() ==> (#[trigger] plugins_set@[t]) < plugins@.len(),
            selection(plugins_set@, result@),
            dependents_first(ps, plugins_set@, result@),
            forall|t: int|
                0 <= t < s && !needed_within(ps, plugins_set@, #[trigger] plugins_set@[t] as int)
                    ==> result@.contains(plugins_set@[t]),
            forall|p: int|
                0 <= p < result@.len() ==> needed_within(ps, plugins_set@, #[trigger] result@[p] as int)
                    || exists|t: int| 0 <= t < s && #[trigger] plugins_set@[t] == result@[p],
            plugins_set@.no_duplicates() ==> in_turn(ps, plugins_set@, result@, s as int),
        decreases plugins_set.len() - s,
    {
        let index = plugins_set[s];
        if !is_needed_within(plugins, &plugins_set, index) && !holds(&result, index) {
            let ghost before = result@;
            assert(brought_in(ps, plugins_set@, before, index as int));
            sort_pick(plugins, &plugins_set, index, &mut result);
            proof {
                assert forall|p: int| 0 <= p < result@.len() implies needed_within(
                    ps,
                    plugins_set@,
                    #[trigger] result@[p] as int,
                ) || exists|t: int| 0 <= t < s + 1 && #[trigger] plugins_set@[t] == result@[p] by {
                    if p < before.len() {
                        assert(result@.subrange(0, before.len() as int)[p] == result@[p]);
                        assert(result@[p] == before[p]);
                        if !needed_within(ps, plugins_set@, before[p] as int) {
                            let t = choose|t: int| 0 <= t < s && #[trigger] plugins_set@[t] == before[p];
                            assert(plugins_set@[t] == result@[p]);
                        }
                    } else if p == before.len() {
                        assert(plugins_set@[s as int] == result@[p]);
                    }
                }
                if plugins_set@.no_duplicates() {
                    assert forall|a: int, b: int|
                        0 <= a < b < s + 1 && !needed_within(ps, plugins_set@, plugins_set@[a] as int)
                            && !needed_within(ps, plugins_set@, plugins_set@[b] as int) implies place(
                        result@,
                        #[trigger] plugins_set@[a],
                    ) < place(result@, #[trigger] plugins_set@[b]) by {
                        assert(before.contains(plugins_set@[a]));
                        let pa = before.index_of(plugins_set@[a]);
                        assert(result@.subrange(0, before.len() as int)[pa] == result@[pa]);
                        lemma_place(result@, plugins_set@[a], pa);
                        if b < s {
                            assert(before.contains(plugins_set@[b]));
                            let pb = before.index_of(plugins_set@[b]);
                            assert(result@.subrange(0, before.len() as int)[pb] == result@[pb]);
                            lemma_place(result@, plugins_set@[b], pb);
                            lemma_place(before, plugins_set@[a], pa);
                            lemma_place(before, plugins_set@[b], pb);
                        } else {
                            lemma_place(result@, plugins_set@[b], before.len() as int);
                        }
                    }
                }
                assert forall|t: int|
                    0 <= t < s + 1 && !needed_within(
                        ps,
                        plugins_set@,
                        #[trigger] plugins_set@[t] as int,
                    ) implies result@.contains(plugins_set@[t]) by {
                    if t < s {
                        let p = before.index_of(plugins_set@[t]);
                        assert(result@.subrange(0, before.len() as int)[p] == result@[p]);
                    } else {
                        assert(result@[before.len() as int] == index);
                    }
                }
            }
        }
        else {
            proof {
                if plugins_set@.no_duplicates() && !needed_within(ps, plugins_set@, index as int) {
                    // A member that nothing depends on is in the order only by its own turn.
                    let p = result@.index_of(index);
                    assert(result@[p] == index);
                    let t = choose|t: int| 0 <= t < s && #[trigger] plugins_set@[t] == result@[p];
                    assert(plugins_set@[t] == plugins_set@[s as int]);
                    assert(false);
                }
                assert forall|p: int| 0 <= p < result@.len() implies needed_within(
                    ps,
                    plugins_set@,
                    #[trigger] result@[p] as int,
                ) || exists|t: int| 0 <= t < s + 1 && #[trigger] plugins_set@[t] == result@[p] by {
                    if !needed_within(ps, plugins_set@, result@[p] as int) {
                        let t = choose|t: int| 0 <= t < s && #[trigger] plugins_set@[t] == result@[p];
                        assert(plugins_set@[t] == result@[p]);
                    }
                }
            }
        }
        s = s + 1;
    }
    proof {
        assert forall|a: int, b: int|
            0 <= a < result@.len() && 0 <= b < result@.len() && a != b && #[trigger] depends_on(
                ps,
                result@[a] as int,
                result@[b] as int,
            ) implies a < b by {
            assert(plugins_set@.contains(result@[a]));
            let s = plugins_set@.index_of(result@[a]);
            assert(plugins_set@[s] == result@[a]);
            let c = choose|c: int| 0 <= c < b && #[trigger] result@[c] == plugins_set@[s];
            assert(c == a);
        }
    }
    result
}

} // verus!
