//! The searches and calls that are spread over threads with `rayon`. Each
//! does what its sequential counterpart does, and returns what that returns.

use rayon::iter::{
    IndexedParallelIterator, IntoParallelIterator, IntoParallelRefIterator, ParallelIterator,
};
use vstd::prelude::*;
use crate::batch::roots;
use crate::bundle::Bundle;
use crate::facade::{pointed, request_returns, with_id};
use crate::function::function::function_names;
use crate::info::Info;
use crate::loader::{formats_of, is_plugin, read_path, reads};
use crate::manager::ManagerSlot;
use crate::path::PluginPath;
use crate::plugin::Plugin;
use crate::solver::{is_root, plugin_views};
use crate::utils::error::{PluginCallRequestError, RegisterPluginError};
use crate::variable::var::Variable;
use crate::version::Version;

verus! {

/// Searches the plugins with `rayon`'s `position_first`, which returns the
/// position of the first item, in the order of the list, that the predicate
/// holds of: here the first plugin with the given id and version.
#[verifier::external_body]
pub(crate) fn par_find_plugin<O: Send + Sync, I: Info>(
    plugins: &Vec<Plugin<O, I>>,
    id: &str,
    version: &Version,
) -> (r: Option<usize>)
    ensures
        match r {
            Some(i) => i < plugins@.len() && is_plugin(plugin_views(plugins@)[i as int], id@, version@)
                && forall|j: int| 0 <= j < i ==> !is_plugin(plugin_views(plugins@)[j], id@, version@),
            None => forall|j: int|
                0 <= j < plugins@.len() ==> !is_plugin(plugin_views(plugins@)[j], id@, version@),
        },
{
    plugins.par_iter().position_first(|plugin| plugin.is(id, version))
}

/// Searches the manager slots with `rayon`'s `position_first`: the result
/// is the position of the first slot, in the order of the list, that is kept
/// under the given format.
#[verifier::external_body]
pub(crate) fn par_find_manager<O: Send + Sync, I: Info>(
    managers: &Vec<ManagerSlot<O, I>>,
    format: &str,
) -> (r: Option<usize>)
    ensures
        match r {
            Some(k) => k < managers@.len() && formats_of(managers@)[k as int] == format@
                && forall|j: int| 0 <= j < k ==> formats_of(managers@)[j] != format@,
            None => !formats_of(managers@).contains(format@),
        },
{
    managers.par_iter().position_first(|slot| slot.is_format(format))
}

/// Filters the plugins with `rayon`'s `filter` and collects them with its
/// `collect`, which keeps the order of the list: the result holds the
/// plugins with the given id, in order.
#[verifier::external_body]
pub(crate) fn par_plugins_with_id<'a, O: Send + Sync, I: Info>(
    plugins: &'a Vec<Plugin<O, I>>,
    id: &str,
) -> (r: Vec<&'a Plugin<O, I>>)
    ensures
        pointed(r@) == with_id(plugins@, id@),
{
    plugins.par_iter().filter(|plugin| plugin.has_id(id)).collect()
}

/// Calls the request on each of the plugins with `rayon`'s `map` and
/// collects the results with its `collect` into a `Result`: the results
/// stand in the order of the plugins, one from each, and the call fails if a
/// plugin has no function of that name.
#[verifier::external_body]
pub(crate) fn par_call_requests<O: Send + Sync, I: Info>(
    plugins: &Vec<&Plugin<O, I>>,
    name: &str,
    args: &[Variable],
) -> (r: Result<Vec<O>, PluginCallRequestError>)
    ensures
        match r {
            Ok(outs) => {
                &&& outs@.len() == plugins@.len()
                &&& forall|k: int|
                    0 <= k < plugins@.len() ==> request_returns(
                        *plugins@[k],
                        name@,
                        args,
                        #[trigger] outs@[k],
                    )
            },
            Err(_) => exists|k: int|
                0 <= k < plugins@.len() && !function_names(
                    (#[trigger] plugins@[k]).spec_requests(),
                ).contains(name@),
        },
{
    plugins.par_iter().map(|plugin| plugin.call_request(name, args)).collect()
}

/// Filters the positions of the plugins with `rayon`'s `filter` and
/// collects them with its `collect`, which keeps their order: the result
/// holds the positions of the plugins that no other plugin depends on.
#[verifier::external_body]
pub(crate) fn par_non_dependents<O: Send + Sync, I: Info>(plugins: &Vec<Plugin<O, I>>) -> (r: Vec<
    usize,
>)
    ensures
        r@ == roots(plugin_views(plugins@), plugins@.len() as int),
{
    (0..plugins.len()).into_par_iter().filter(|i| is_root(plugins, *i)).collect()
}

/// Reads the bundle of each path with `rayon`'s `map` and collects the
/// results with its `collect`, which keeps the order of the paths.
#[verifier::external_body]
pub(crate) fn par_read_paths(paths: &Vec<PluginPath>) -> (r: Vec<Result<Bundle, RegisterPluginError>>)
    ensures
        r@.len() == paths@.len(),
        forall|k: int| 0 <= k < paths@.len() ==> reads(paths@[k], #[trigger] r@[k]),
{
    paths.par_iter().map(|path| read_path(path)).collect()
}

} // verus!
