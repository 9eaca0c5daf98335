//! The lifecycle engine: it owns the managers and the plugin records and
//! moves each plugin through registration, loading, unloading and
//! unregistration.

use vstd::prelude::*;
use crate::bundle::{filename_parse, same_plugin, Bundle, BundleView};
use crate::context::load_plugin_context::requests_answered;
use crate::context::register_plugin_context::RegisterPluginContext;
use crate::function::function::FunctionBox;
use crate::function::request::Request;
use crate::info::{Info, PluginInfo};
use crate::manager::{Manager, ManagerBox, ManagerSlot};
use crate::path::{has_extension, name_has_extension, PluginPath};
use crate::plugin::{Plugin, PluginView, Registry, Requests};
use crate::info::admits;
use crate::solver::{
    all_depends, bundles_of, dependencies_loaded, find_user, first_user, needs, plugin_views,
    replaced, satisfied, supersedes, unused, uses,
};
use crate::utils::error::{
    BundleFault, RegisterManagerError, RegisterPluginError, UnloadPluginError,
    UnregisterManagerError, UnregisterPluginError,
};
use crate::utils::text::same_text;
use crate::version::Version;

verus! {

/// The engine. `O` is what a function call returns, `I` the metadata that
/// managers report of their plugins.
#[verifier::reject_recursive_types(O)]
#[verifier::reject_recursive_types(I)]
pub struct Loader<O: Send + Sync, I: Info> {
    pub(crate) managers: Vec<ManagerSlot<O, I>>,
    pub(crate) registry: Registry<O>,
    pub(crate) requests: Requests,
    pub(crate) plugins: Vec<Plugin<O, I>>,
}

/// The formats of a list of manager slots.
pub open spec fn formats_of<O: Send + Sync, I: Info>(slots: Seq<ManagerSlot<O, I>>) -> Seq<
    Seq<char>,
> {
    slots.map_values(|s: ManagerSlot<O, I>| s.spec_format())
}

/// No two entries of the list are equal.
pub open spec fn distinct(formats: Seq<Seq<char>>) -> bool {
    forall|i: int, j: int|
        0 <= i < formats.len() && 0 <= j < formats.len() && i != j ==> formats[i] != formats[j]
}

/// No two bundles of the list have the same id and version.
pub open spec fn distinct_plugins(bs: Seq<BundleView>) -> bool {
    forall|i: int, j: int|
        0 <= i < bs.len() && 0 <= j < bs.len() && i != j ==> !same_plugin(bs[i], bs[j])
}

/// Every bundle of the list has one of the formats.
pub open spec fn managed(bs: Seq<BundleView>, formats: Seq<Seq<char>>) -> bool {
    forall|i: int| 0 <= i < bs.len() ==> formats.contains(#[trigger] bs[i].format)
}

/// The record `p` with its load flag set to `loaded`.
pub open(crate) spec fn with_loaded<O: Send + Sync, I: Info>(p: Plugin<O, I>, loaded: bool) -> Plugin<
    O,
    I,
> {
    Plugin { is_load: loaded, ..p }
}

impl<O: Send + Sync, I: Info> Loader<O, I> {
    /// The plugin records, in the order of their registration.
    pub open(crate) spec fn spec_plugins(&self) -> Seq<Plugin<O, I>> {
        self.plugins@
    }

    /// The manager slots, in the order of their registration.
    pub open(crate) spec fn spec_managers(&self) -> Seq<ManagerSlot<O, I>> {
        self.managers@
    }

    /// The requests that the host has declared.
    pub open(crate) spec fn spec_requests(&self) -> Seq<Request> {
        self.requests@
    }

    /// The functions that the host offers to plugins.
    pub open(crate) spec fn spec_registry(&self) -> Seq<FunctionBox<O>> {
        self.registry@
    }

    /// What the dependency rules read of the plugin records.
    pub open spec fn views(&self) -> Seq<PluginView> {
        plugin_views(self.spec_plugins())
    }

    /// The bundles of the registered plugins.
    pub open spec fn bundles(&self) -> Seq<BundleView> {
        bundles_of(self.views())
    }

    /// The formats of the registered managers.
    pub open spec fn formats(&self) -> Seq<Seq<char>> {
        formats_of(self.spec_managers())
    }

    /// The engine is well-formed: no two plugins share id and version, no
    /// two managers share a format, and every plugin has its manager.
    pub open spec fn wf(&self) -> bool {
        &&& distinct_plugins(self.bundles())
        &&& distinct(self.formats())
        &&& managed(self.bundles(), self.formats())
    }

    /// An engine without managers, plugins, functions or requests.
    pub fn new() -> (r: Self)
        ensures
            r.wf(),
            dependencies_loaded(r.views()),
            requests_answered(r.spec_plugins(), r.spec_requests()),
            r.spec_plugins().len() == 0,
            r.spec_managers().len() == 0,
            r.spec_requests().len() == 0,
            r.spec_registry().len() == 0,
    {
        Loader { managers: Vec::new(), registry: Vec::new(), requests: Vec::new(), plugins: Vec::new() }
    }
}

/// A format that is not among the formats can be added to them.
proof fn lemma_formats_pushed(bs: Seq<BundleView>, formats: Seq<Seq<char>>, format: Seq<char>)
    requires
        distinct(formats),
        managed(bs, formats),
        !formats.contains(format),
    ensures
        distinct(formats.push(format)),
        managed(bs, formats.push(format)),
{
    let after = formats.push(format);
    assert forall|i: int, j: int|
        0 <= i < after.len() && 0 <= j < after.len() && i != j implies after[i] != after[j] by {
        if i < formats.len() {
            assert(formats.contains(formats[i]));
        }
        if j < formats.len() {
            assert(formats.contains(formats[j]));
        }
    }
    assert forall|i: int| 0 <= i < bs.len() implies after.contains(#[trigger] bs[i].format) by {
        let k = choose|k: int| 0 <= k < formats.len() && formats[k] == bs[i].format;
        assert(after[k] == bs[i].format);
    }
}

/// The position of the manager of a format.
pub fn find_manager<O: Send + Sync, I: Info>(managers: &Vec<ManagerSlot<O, I>>, format: &str) -> (r:
    Option<usize>)
    ensures
        match r {
            Some(k) => k < managers@.len() && formats_of(managers@)[k as int] == format@
                && forall|j: int| 0 <= j < k ==> formats_of(managers@)[j] != format@,
            None => !formats_of(managers@).contains(format@),
        },
{
    let mut k: usize = 0;
    while k < managers.len()
        invariant
            k <= managers.len(),
            forall|j: int| 0 <= j < k ==> formats_of(managers@)[j] != format@,
        decreases managers.len() - k,
    {
        if same_text(managers[k].format.as_str(), format) {
            return Some(k);
        }
        k = k + 1;
    }
    None
}

/// The position of the plugin with the given id and version.
pub fn find_plugin<O: Send + Sync, I: Info>(plugins: &Vec<Plugin<O, I>>, id: &str, version: &Version) -> (r:
    Option<usize>)
    ensures
        match r {
            Some(i) => i < plugins@.len() && is_plugin(plugin_views(plugins@)[i as int], id@, version@)
                && forall|j: int| 0 <= j < i ==> !is_plugin(plugin_views(plugins@)[j], id@, version@),
            None => forall|j: int|
                0 <= j < plugins@.len() ==> !is_plugin(plugin_views(plugins@)[j], id@, version@),
        },
{
    let mut i: usize = 0;
    while i < plugins.len()
        invariant
            i <= plugins.len(),
            forall|j: int| 0 <= j < i ==> !is_plugin(plugin_views(plugins@)[j], id@, version@),
        decreases plugins.len() - i,
    {
        if plugins[i].is(id, version) {
            return Some(i);
        }
        i = i + 1;
    }
    None
}

/// The plugin has this id and version.
pub open spec fn is_plugin(p: PluginView, id: Seq<char>, version: crate::version::VersionView) -> bool {
    p.bundle.id == id && p.bundle.version == version
}

/// Calls the manager's `register_manager` hook and, where it succeeds, puts
/// the manager into a new slot under `format`.
pub(crate) fn install_manager<O: Send + Sync, I: Info>(
    loader: &mut Loader<O, I>,
    format: String,
    manager: Box<dyn Manager<O, I>>,
) -> (r: Result<(), RegisterManagerError>)
    requires
        old(loader).wf(),
        !old(loader).formats().contains(format@),
    ensures
        final(loader).wf(),
        final(loader).spec_plugins() == old(loader).spec_plugins(),
        final(loader).spec_requests() == old(loader).spec_requests(),
        final(loader).spec_registry() == old(loader).spec_registry(),
        match r {
            Ok(_) => final(loader).formats() == old(loader).formats().push(format@),
            Err(e) => e is RegisterManagerByManager && final(loader).spec_managers() == old(
                loader,
            ).spec_managers(),
        },
{
    let mut manager = manager;
    match manager.register_manager() {
        Err(e) => Err(RegisterManagerError::RegisterManagerByManager(e)),
        Ok(_) => {
            let ghost text = format@;
            loader.managers.push(ManagerSlot::new(format, manager));
            assert(loader.formats() =~= old(loader).formats().push(text));
            proof {
                lemma_formats_pushed(old(loader).bundles(), old(loader).formats(), text);
            }
            Ok(())
        },
    }
}

/// Adds a manager that has reported the format `format` without looking
/// for one of the same format.
///
/// The manager's `register_manager` hook is called first. Where it fails
/// nothing is added and its error is handed on. Otherwise the manager is
/// added under `format`, and the engine stays well-formed exactly if no
/// manager was registered under that format.
pub fn forced_register_manager_as<O: Send + Sync, I: Info>(
    loader: &mut Loader<O, I>,
    format: &str,
    manager: Box<dyn Manager<O, I>>,
) -> (r: Result<(), RegisterManagerError>)
    requires
        old(loader).wf(),
    ensures
        final(loader).spec_plugins() == old(loader).spec_plugins(),
        final(loader).spec_requests() == old(loader).spec_requests(),
        final(loader).spec_registry() == old(loader).spec_registry(),
        match r {
            Ok(_) => {
                &&& final(loader).formats() == old(loader).formats().push(format@)
                &&& final(loader).wf() == !old(loader).formats().contains(format@)
            },
            Err(e) => e is RegisterManagerByManager && final(loader).wf()
                && final(loader).spec_managers() == old(loader).spec_managers(),
        },
{
    let mut manager = manager;
    match manager.register_manager() {
        Err(e) => Err(RegisterManagerError::RegisterManagerByManager(e)),
        Ok(_) => {
            let ghost text = format@;
            loader.managers.push(ManagerSlot::new(format.to_owned(), manager));
            proof {
                let before = old(loader).formats();
                let after = loader.formats();
                assert(after =~= before.push(text));
                assert(loader.bundles() == old(loader).bundles());
                if !before.contains(text) {
                    lemma_formats_pushed(old(loader).bundles(), before, text);
                } else {
                    let k = before.index_of(text);
                    assert(after[k] == after[before.len() as int]);
                }
            }
            Ok(())
        },
    }
}

/// Adds a manager to the engine, under the format that it reports, without
/// looking for one of the same format: see [`forced_register_manager_as`].
pub fn forced_register_manager<O: Send + Sync, I: Info>(
    loader: &mut Loader<O, I>,
    manager: ManagerBox<O, I>,
) -> (r: Result<(), RegisterManagerError>)
    requires
        old(loader).wf(),
    ensures
        final(loader).spec_plugins() == old(loader).spec_plugins(),
        final(loader).spec_requests() == old(loader).spec_requests(),
        final(loader).spec_registry() == old(loader).spec_registry(),
        match r {
            Ok(_) => {
                &&& final(loader).formats() == old(loader).formats().push(
                    manager.manager.spec_format(),
                )
                &&& final(loader).wf() == !old(loader).formats().contains(
                    manager.manager.spec_format(),
                )
            },
            Err(e) => e is RegisterManagerByManager && final(loader).wf()
                && final(loader).spec_managers() == old(loader).spec_managers(),
        },
{
    let format = manager.manager.format();
    forced_register_manager_as(loader, format, manager.manager)
}

/// What adding a manager that reports the format `format` comes to.
///
/// Under a format that is taken already the manager is refused with
/// `AlreadyOccupiedFormat` and that format. Otherwise its `register_manager`
/// hook decides: with its consent the manager is added under `format`, after
/// the managers that were there; with its refusal nothing is added.
pub open spec fn manager_added<O: Send + Sync, I: Info>(
    before: &Loader<O, I>,
    after: &Loader<O, I>,
    format: Seq<char>,
    r: Result<(), RegisterManagerError>,
) -> bool {
    &&& after.wf()
    &&& after.spec_plugins() == before.spec_plugins()
    &&& after.spec_requests() == before.spec_requests()
    &&& after.spec_registry() == before.spec_registry()
    &&& if before.formats().contains(format) {
        &&& r matches Err(RegisterManagerError::AlreadyOccupiedFormat(taken)) && taken@ == format
        &&& after.spec_managers() == before.spec_managers()
    } else {
        match r {
            Ok(_) => after.formats() == before.formats().push(format),
            Err(RegisterManagerError::RegisterManagerByManager(_)) => after.spec_managers()
                == before.spec_managers(),
            Err(RegisterManagerError::AlreadyOccupiedFormat(_)) => false,
        }
    }
}

/// Adds a manager that has reported the format `format`, unless a manager
/// of that format is there already.
pub fn register_manager_as<O: Send + Sync, I: Info>(
    loader: &mut Loader<O, I>,
    format: &str,
    manager: Box<dyn Manager<O, I>>,
) -> (r: Result<(), RegisterManagerError>)
    requires
        old(loader).wf(),
    ensures
        manager_added(old(loader), final(loader), format@, r),
{
    match find_manager(&loader.managers, format) {
        Some(_) => {
            let failure = Err(RegisterManagerError::AlreadyOccupiedFormat(format.to_owned()));
            assert(failure matches Err(RegisterManagerError::AlreadyOccupiedFormat(taken)) && taken@
                == format@);
            failure
        },
        None => install_manager(loader, format.to_owned(), manager),
    }
}

/// Adds a manager to the engine, unless one of its format is there already.
pub fn register_manager<O: Send + Sync, I: Info>(
    loader: &mut Loader<O, I>,
    manager: ManagerBox<O, I>,
) -> (r: Result<(), RegisterManagerError>)
    requires
        old(loader).wf(),
    ensures
        manager_added(old(loader), final(loader), manager.manager.spec_format(), r),
{
    let format = manager.manager.format();
    register_manager_as(loader, format, manager.manager)
}

/// Removes the manager at `index` and calls its `unregister_manager` hook.
/// That no plugin of its format is registered any more is up to the caller.
pub fn forced_unregister_manager<O: Send + Sync, I: Info>(
    loader: &mut Loader<O, I>,
    index: usize,
) -> (r: Result<(), UnregisterManagerError>)
    requires
        old(loader).wf(),
        index < old(loader).spec_managers().len(),
        forall|i: int|
            0 <= i < old(loader).bundles().len() ==> (#[trigger] old(loader).bundles()[i]).format
                != old(loader).formats()[index as int],
    ensures
        final(loader).wf(),
        final(loader).spec_plugins() == old(loader).spec_plugins(),
        final(loader).spec_requests() == old(loader).spec_requests(),
        final(loader).spec_registry() == old(loader).spec_registry(),
        final(loader).formats() == old(loader).formats().remove(index as int),
        r matches Err(e) ==> e is UnregisterManagerByManager,
{
    let mut slot = loader.managers.remove(index);
    proof {
        let before = old(loader).formats();
        let after = loader.formats();
        assert(after =~= before.remove(index as int));
        assert forall|i: int| 0 <= i < loader.bundles().len() implies after.contains(
            #[trigger] loader.bundles()[i].format,
        ) by {
            let k = choose|k: int| 0 <= k < before.len() && before[k] == loader.bundles()[i].format;
            if k < index {
                assert(after[k] == before[k]);
            } else {
                assert(after[k - 1] == before[k]);
            }
        }
    }
    match slot.manager.unregister_manager() {
        Ok(_) => Ok(()),
        Err(e) => Err(UnregisterManagerError::UnregisterManagerByManager(e)),
    }
}

/// What the engine decides of a path before it asks a manager.
pub enum Admission {
    /// The path is no directory.
    NotFound,
    /// The path has no last component with an extension.
    NoFormat,
    /// The last component is no bundle name.
    BadName(BundleFault),
    /// A plugin of this id and version is registered already.
    Duplicate(BundleView),
    /// No manager handles the format of the bundle.
    NoManager(BundleView),
    /// The plugin may be registered if its manager accepts it.
    Admitted(BundleView),
}

/// Whether a plugin with the id and version of `b` is among `bs`.
pub open spec fn registered(bs: Seq<BundleView>, b: BundleView) -> bool {
    exists|i: int| 0 <= i < bs.len() && same_plugin(#[trigger] bs[i], b)
}

/// The decision on a path, given the bundles and the formats that are
/// registered: the checks are made in the order of the variants of
/// [`Admission`].
pub open spec fn admission(
    bs: Seq<BundleView>,
    formats: Seq<Seq<char>>,
    path: PluginPath,
) -> Admission {
    if !path.is_dir {
        Admission::NotFound
    } else if path.file_name is None || !has_extension(path.file_name->0@) {
        Admission::NoFormat
    } else {
        match filename_parse(path.file_name->0@) {
            Err(fault) => Admission::BadName(fault),
            Ok(b) => if registered(bs, b) {
                Admission::Duplicate(b)
            } else if !formats.contains(b.format) {
                Admission::NoManager(b)
            } else {
                Admission::Admitted(b)
            },
        }
    }
}

/// Whether `p` is the record of a plugin that was just registered from
/// `path` as the bundle `b`.
pub open spec fn fresh_record<O: Send + Sync, I: Info>(
    p: Plugin<O, I>,
    path: PluginPath,
    b: BundleView,
) -> bool {
    &&& p@.bundle == b
    &&& !p@.is_loaded
    &&& p.tied()
    &&& p.spec_info().path@ == path.path@
    &&& p.spec_requests().len() == 0
    &&& p.spec_registry().len() == 0
}

/// Appends the record of a plugin without any check: that no plugin of the
/// same id and version is registered and that the format has a manager is up
/// to the caller.
pub fn forced_register_plugin<O: Send + Sync, I: Info>(
    loader: &mut Loader<O, I>,
    plugin_info: PluginInfo<I>,
) -> (r: Result<Bundle, RegisterPluginError>)
    requires
        old(loader).wf(),
        !registered(old(loader).bundles(), plugin_info.bundle@),
        old(loader).formats().contains(plugin_info.bundle@.format),
    ensures
        final(loader).wf(),
        final(loader).spec_managers() == old(loader).spec_managers(),
        final(loader).spec_requests() == old(loader).spec_requests(),
        final(loader).spec_registry() == old(loader).spec_registry(),
        r matches Ok(b) && b@ == plugin_info.bundle@,
        final(loader).spec_plugins().len() == old(loader).spec_plugins().len() + 1,
        final(loader).spec_plugins().drop_last() == old(loader).spec_plugins(),
        final(loader).spec_plugins().last().spec_info() == plugin_info,
        final(loader).spec_plugins().last().tied(),
        !final(loader).spec_plugins().last()@.is_loaded,
        final(loader).spec_plugins().last().spec_requests().len() == 0,
        final(loader).spec_plugins().last().spec_registry().len() == 0,
{
    let bundle = plugin_info.bundle.clone();
    loader.plugins.push(Plugin::new(plugin_info));
    proof {
        let before = old(loader).bundles();
        let after = loader.bundles();
        assert(loader.spec_plugins().drop_last() =~= old(loader).spec_plugins());
        assert(after =~= before.push(plugin_info.bundle@));
        assert forall|i: int, j: int|
            0 <= i < after.len() && 0 <= j < after.len() && i != j implies !same_plugin(
            after[i],
            after[j],
        ) by {
            if i < before.len() && j < before.len() {
            } else if i < before.len() {
                assert(same_plugin(before[i], plugin_info.bundle@) ==> registered(
                    before,
                    plugin_info.bundle@,
                ));
            } else {
                assert(same_plugin(before[j], plugin_info.bundle@) ==> registered(
                    before,
                    plugin_info.bundle@,
                ));
            }
        }
    }
    Ok(bundle)
}

/// Whether a plugin with the id and version of `bundle` is registered.
fn is_registered<O: Send + Sync, I: Info>(plugins: &Vec<Plugin<O, I>>, bundle: &Bundle) -> (r: bool)
    ensures
        r == registered(bundles_of(plugin_views(plugins@)), bundle@),
{
    let ghost bs = bundles_of(plugin_views(plugins@));
    let mut i: usize = 0;
    while i < plugins.len()
        invariant
            i <= plugins.len(),
            bs == bundles_of(plugin_views(plugins@)),
            forall|j: int| 0 <= j < i ==> !same_plugin(#[trigger] bs[j], bundle@),
        decreases plugins.len() - i,
    {
        if plugins[i].is_bundle(bundle) {
            assert(same_plugin(bs[i as int], bundle@));
            return true;
        }
        i = i + 1;
    }
    false
}

/// What registering `path` comes to: the error that the decision on the
/// path prescribes, or, where the path is admitted, what the manager's
/// `register_plugin` hook decides: with its metadata the record is appended,
/// not loaded and without functions, and the bundle is returned; with its
/// error nothing changes.
pub open spec fn registration<O: Send + Sync, I: Info>(
    before: &Loader<O, I>,
    after: &Loader<O, I>,
    path: PluginPath,
    r: Result<Bundle, RegisterPluginError>,
) -> bool {
    &&& r is Err ==> after.spec_plugins() == before.spec_plugins()
    &&& match admission(before.bundles(), before.formats(), path) {
        Admission::NotFound => r matches Err(RegisterPluginError::NotFound),
        Admission::NoFormat => r matches Err(RegisterPluginError::UnknownManagerFormat(f)) && f@.len()
            == 0,
        Admission::BadName(fault) => r matches Err(RegisterPluginError::BundleFromFailed(e))
            && e.fault() == fault,
        Admission::Duplicate(b) => r matches Err(
            RegisterPluginError::AlreadyExistsIDAndVersion(id, version),
        ) && id@ == b.id && version@ == b.version,
        Admission::NoManager(b) => r matches Err(RegisterPluginError::UnknownManagerFormat(f)) && f@
            == b.format,
        Admission::Admitted(b) => match r {
            Ok(bundle) => {
                &&& bundle@ == b
                &&& after.spec_plugins().len() == before.spec_plugins().len() + 1
                &&& after.spec_plugins().drop_last() == before.spec_plugins()
                &&& fresh_record(after.spec_plugins().last(), path, b)
            },
            Err(e) => e is RegisterPluginByManager,
        },
    }
}

/// Whether `parsed` is what the path by itself comes to: the bundle that
/// its last component reads as, or the error for a path that is no
/// directory, has no extension, or does not read as a bundle.
pub open spec fn reads(path: PluginPath, parsed: Result<Bundle, RegisterPluginError>) -> bool {
    if !path.is_dir {
        parsed matches Err(RegisterPluginError::NotFound)
    } else if path.file_name is None || !has_extension(path.file_name->0@) {
        parsed matches Err(RegisterPluginError::UnknownManagerFormat(f)) && f@.len() == 0
    } else {
        match filename_parse(path.file_name->0@) {
            Err(fault) => parsed matches Err(RegisterPluginError::BundleFromFailed(e)) && e.fault()
                == fault,
            Ok(b) => parsed matches Ok(bundle) && bundle@ == b,
        }
    }
}

/// Reads the bundle of the plugin at a path from the path alone.
pub fn read_path(path: &PluginPath) -> (r: Result<Bundle, RegisterPluginError>)
    ensures
        reads(*path, r),
{
    if !path.is_dir {
        return Err(RegisterPluginError::NotFound);
    }
    let name = match &path.file_name {
        None => {
            return Err(RegisterPluginError::UnknownManagerFormat(String::new()));
        },
        Some(name) => name,
    };
    if !name_has_extension(name.as_str()) {
        return Err(RegisterPluginError::UnknownManagerFormat(String::new()));
    }
    match Bundle::from_filename(name.as_str()) {
        Err(e) => Err(RegisterPluginError::BundleFromFailed(e)),
        Ok(bundle) => Ok(bundle),
    }
}

/// Registers the plugin at `path`, whose bundle was read already.
pub fn register_parsed<O: Send + Sync, I: Info>(
    loader: &mut Loader<O, I>,
    path: &PluginPath,
    parsed: Result<Bundle, RegisterPluginError>,
) -> (r: Result<Bundle, RegisterPluginError>)
    requires
        old(loader).wf(),
        reads(*path, parsed),
    ensures
        final(loader).wf(),
        final(loader).formats() == old(loader).formats(),
        final(loader).spec_requests() == old(loader).spec_requests(),
        final(loader).spec_registry() == old(loader).spec_registry(),
        dependencies_loaded(old(loader).views()) ==> dependencies_loaded(final(loader).views()),
        requests_answered(old(loader).spec_plugins(), old(loader).spec_requests())
            ==> requests_answered(final(loader).spec_plugins(), final(loader).spec_requests()),
        registration(old(loader), final(loader), *path, r),
{
    let bundle = match parsed {
        Err(e) => {
            return Err(e);
        },
        Ok(bundle) => bundle,
    };
    if is_registered(&loader.plugins, &bundle) {
        return Err(
            RegisterPluginError::AlreadyExistsIDAndVersion(bundle.id.clone(), bundle.version.clone()),
        );
    }
    let k = match find_manager(&loader.managers, bundle.format.as_str()) {
        None => {
            return Err(RegisterPluginError::UnknownManagerFormat(bundle.format.clone()));
        },
        Some(k) => k,
    };
    assert(old(loader).formats()[k as int] == bundle@.format);
    let context = RegisterPluginContext { path: path.path.as_str(), bundle: &bundle };
    let outcome = loader.managers[k].manager.register_plugin(context);
    assert(loader.formats() =~= old(loader).formats());
    let info = match outcome {
        Err(e) => {
            return Err(RegisterPluginError::RegisterPluginByManager(e));
        },
        Ok(info) => info,
    };
    let plugin_info = PluginInfo { path: path.path.clone(), bundle, info };
    let r = forced_register_plugin(loader, plugin_info);
    proof {
        assert(loader.views().drop_last() =~= old(loader).views());
        assert forall|p: int|
            0 <= p < loader.spec_plugins().len() && (#[trigger] loader.spec_plugins()[p])@.is_loaded implies p
            < old(loader).spec_plugins().len() && loader.spec_plugins()[p] == old(
            loader,
        ).spec_plugins()[p] by {
            if p < old(loader).spec_plugins().len() {
                assert(loader.spec_plugins()[p] == loader.spec_plugins().drop_last()[p]);
            } else {
                assert(loader.spec_plugins()[p] == loader.spec_plugins().last());
            }
        }
        if dependencies_loaded(old(loader).views()) {
            lemma_push_keeps_dependencies(old(loader).views(), loader.views());
        }
    }
    r
}

/// Appending a plugin that is not loaded leaves every required dependency
/// of every loaded plugin with a loaded plugin that it admits.
pub proof fn lemma_push_keeps_dependencies(before: Seq<PluginView>, after: Seq<PluginView>)
    requires
        dependencies_loaded(before),
        after.len() == before.len() + 1,
        after.drop_last() == before,
        !after.last().is_loaded,
    ensures
        dependencies_loaded(after),
{
    assert forall|p: int, k: int|
        0 <= p < after.len() && after[p].is_loaded && 0 <= k < after[p].depends.len() implies satisfied(
        after,
        #[trigger] after[p].depends[k],
    ) by {
        assert(after[p] == after.drop_last()[p]);
        assert(satisfied(before, before[p].depends[k]));
        let d = before[p].depends[k];
        let q = choose|q: int| 0 <= q < before.len() && (#[trigger] before[q]).is_loaded && admits(d, before[q].bundle);
        assert(after[q] == after.drop_last()[q]);
    }
}

/// Registers the plugin at a path.
///
/// The path must denote a directory whose name has an extension and reads
/// as a bundle; no plugin of that id and version may be registered, and a
/// manager for the format must be. Then the manager's `register_plugin` hook
/// decides: where it reports the plugin's metadata, the record is appended,
/// not loaded and without functions, and the bundle is returned.
pub fn register_plugin<O: Send + Sync, I: Info>(loader: &mut Loader<O, I>, path: &PluginPath) -> (r:
    Result<Bundle, RegisterPluginError>)
    requires
        old(loader).wf(),
    ensures
        final(loader).wf(),
        final(loader).formats() == old(loader).formats(),
        final(loader).spec_requests() == old(loader).spec_requests(),
        final(loader).spec_registry() == old(loader).spec_registry(),
        dependencies_loaded(old(loader).views()) ==> dependencies_loaded(final(loader).views()),
        requests_answered(old(loader).spec_plugins(), old(loader).spec_requests())
            ==> requests_answered(final(loader).spec_plugins(), final(loader).spec_requests()),
        registration(old(loader), final(loader), *path, r),
{
    register_parsed(loader, path, read_path(path))
}

/// The plugin views `ps` with the load flag of plugin `i` set to `loaded`.
pub open spec fn flagged(ps: Seq<PluginView>, i: int, loaded: bool) -> Seq<PluginView> {
    ps.update(i, PluginView { is_loaded: loaded, ..ps[i] })
}

/// Unloading a plugin that no loaded plugin uses leaves every required
/// dependency of every loaded plugin with a loaded plugin that it admits.
pub proof fn lemma_unload_keeps_dependencies(ps: Seq<PluginView>, i: int)
    requires
        0 <= i < ps.len(),
        dependencies_loaded(ps),
        unused(ps, i),
    ensures
        dependencies_loaded(flagged(ps, i, false)),
{
    let after = flagged(ps, i, false);
    assert(bundles_of(after) =~= bundles_of(ps));
    assert forall|p: int, k: int|
        0 <= p < after.len() && after[p].is_loaded && 0 <= k < after[p].depends.len() implies satisfied(
        after,
        #[trigger] after[p].depends[k],
    ) by {
        let d = ps[p].depends[k];
        assert(p != i);
        assert(satisfied(ps, ps[p].depends[k]));
        let q = choose|q: int| 0 <= q < ps.len() && (#[trigger] ps[q]).is_loaded && admits(d, ps[q].bundle);
        if q != i {
            assert(after[q].is_loaded && admits(d, after[q].bundle));
        } else {
            assert(!uses(ps, p, i));
            assert(all_depends(ps[p])[k] == d);
            assert(!needs(ps, all_depends(ps[p])[k], i));
            assert(replaced(ps, d, i));
            let j = choose|j: int| #[trigger] supersedes(bundles_of(ps), d, j, i) && ps[j].is_loaded;
            assert(j != i);
            assert(after[j].is_loaded && admits(d, after[j].bundle));
        }
    }
}

/// Removing a plugin that is not loaded leaves every required dependency of
/// every loaded plugin with a loaded plugin that it admits.
pub proof fn lemma_remove_keeps_dependencies(ps: Seq<PluginView>, i: int)
    requires
        0 <= i < ps.len(),
        dependencies_loaded(ps),
        !ps[i].is_loaded,
    ensures
        dependencies_loaded(ps.remove(i)),
{
    let after = ps.remove(i);
    assert forall|p: int, k: int|
        0 <= p < after.len() && after[p].is_loaded && 0 <= k < after[p].depends.len() implies satisfied(
        after,
        #[trigger] after[p].depends[k],
    ) by {
        let origin = if p < i {
            p
        } else {
            p + 1
        };
        assert(after[p] == ps[origin]);
        let d = ps[origin].depends[k];
        assert(satisfied(ps, ps[origin].depends[k]));
        let q = choose|q: int| 0 <= q < ps.len() && (#[trigger] ps[q]).is_loaded && admits(d, ps[q].bundle);
        let q1 = if q < i {
            q
        } else {
            q - 1
        };
        assert(after[q1] == ps[q]);
    }
}

/// Removing a plugin keeps the engine well-formed.
proof fn lemma_remove_keeps_wf(bs: Seq<BundleView>, formats: Seq<Seq<char>>, i: int)
    requires
        0 <= i < bs.len(),
        distinct_plugins(bs),
        managed(bs, formats),
    ensures
        distinct_plugins(bs.remove(i)),
        managed(bs.remove(i), formats),
{
    let after = bs.remove(i);
    assert forall|a: int, b: int|
        0 <= a < after.len() && 0 <= b < after.len() && a != b implies !same_plugin(
        after[a],
        after[b],
    ) by {
        let a0 = if a < i {
            a
        } else {
            a + 1
        };
        let b0 = if b < i {
            b
        } else {
            b + 1
        };
        assert(after[a] == bs[a0] && after[b] == bs[b0]);
    }
    assert forall|a: int| 0 <= a < after.len() implies formats.contains(
        #[trigger] after[a].format,
    ) by {
        let a0 = if a < i {
            a
        } else {
            a + 1
        };
        assert(after[a] == bs[a0]);
    }
}

/// Unloads the plugin at `index` without asking whether a loaded plugin
/// still uses it.
///
/// A plugin that is not loaded is left as it is. For a loaded one the
/// manager's `unload_plugin` hook is called; the plugin counts as unloaded
/// where the hook succeeds and stays loaded where it fails.
pub fn forced_unload_plugin<O: Send + Sync, I: Info>(loader: &mut Loader<O, I>, index: usize) -> (r:
    Result<(), UnloadPluginError>)
    requires
        old(loader).wf(),
        index < old(loader).spec_plugins().len(),
    ensures
        final(loader).wf(),
        final(loader).formats() == old(loader).formats(),
        final(loader).spec_requests() == old(loader).spec_requests(),
        final(loader).spec_registry() == old(loader).spec_registry(),
        !old(loader).views()[index as int].is_loaded ==> r is Ok,
        match r {
            Ok(_) => final(loader).spec_plugins() == old(loader).spec_plugins().update(
                index as int,
                with_loaded(old(loader).spec_plugins()[index as int], false),
            ),
            Err(e) => e is UnloadPluginByManager && final(loader).spec_plugins() == old(
                loader,
            ).spec_plugins(),
        },
{
    if loader.plugins[index].is_load {
        let found = find_manager(&loader.managers, loader.plugins[index].info.bundle.format.as_str());
        let k = match found {
            Some(k) => k,
            None => {
                assert(loader.formats().contains(loader.bundles()[index as int].format));
                return Err(UnloadPluginError::NotFound);
            },
        };
        let outcome = loader.managers[k].manager.unload_plugin(&loader.plugins[index]);
        assert(loader.formats() =~= old(loader).formats());
        if let Err(e) = outcome {
            return Err(UnloadPluginError::UnloadPluginByManager(e));
        }
    }
    loader.plugins[index].is_load = false;
    assert(loader.spec_plugins() =~= old(loader).spec_plugins().update(
        index as int,
        with_loaded(old(loader).spec_plugins()[index as int], false),
    ));
    assert(loader.bundles() =~= old(loader).bundles());
    Ok(())
}

/// What unloading the plugin at `index` comes to.
///
/// A plugin that is not loaded stays as it is, with success. A loaded
/// plugin that another loaded plugin uses stays loaded, and the error names
/// the first such plugin and the plugin itself. Otherwise the manager
/// decides: the plugin is unloaded with success, or stays loaded with the
/// manager's error.
pub open spec fn unloading<O: Send + Sync, I: Info>(
    before: &Loader<O, I>,
    after: &Loader<O, I>,
    index: int,
    r: Result<(), UnloadPluginError>,
) -> bool {
    &&& !before.views()[index].is_loaded ==> r is Ok && after.spec_plugins() == before.spec_plugins()
    &&& match r {
        Ok(_) => {
            &&& before.views()[index].is_loaded ==> unused(before.views(), index)
            &&& after.spec_plugins() == before.spec_plugins().update(
                index,
                with_loaded(before.spec_plugins()[index], false),
            )
        },
        Err(UnloadPluginError::CurrentlyUsesDepend { plugin, depend }) => {
            &&& before.views()[index].is_loaded
            &&& exists|p: int|
                #[trigger] first_user(before.views(), p, index) && plugin@ == before.bundles()[p]
            &&& depend@ == before.bundles()[index]
            &&& after.spec_plugins() == before.spec_plugins()
        },
        Err(UnloadPluginError::UnloadPluginByManager(_)) => {
            &&& before.views()[index].is_loaded
            &&& unused(before.views(), index)
            &&& after.spec_plugins() == before.spec_plugins()
        },
        Err(UnloadPluginError::NotFound) => false,
    }
}

/// Unloads the plugin at `index`.
///
/// A plugin that is not loaded is left as it is, with success. A loaded
/// plugin that another loaded plugin uses stays loaded: the error names the
/// first such plugin. Otherwise the manager's `unload_plugin` hook decides.
pub fn unload_plugin<O: Send + Sync, I: Info>(loader: &mut Loader<O, I>, index: usize) -> (r: Result<
    (),
    UnloadPluginError,
>)
    requires
        old(loader).wf(),
        index < old(loader).spec_plugins().len(),
    ensures
        final(loader).wf(),
        final(loader).formats() == old(loader).formats(),
        final(loader).spec_requests() == old(loader).spec_requests(),
        final(loader).spec_registry() == old(loader).spec_registry(),
        dependencies_loaded(old(loader).views()) ==> dependencies_loaded(final(loader).views()),
        requests_answered(old(loader).spec_plugins(), old(loader).spec_requests())
            ==> requests_answered(final(loader).spec_plugins(), final(loader).spec_requests()),
        unloading(old(loader), final(loader), index as int, r),
{
    if loader.plugins[index].is_load {
        match find_user(&loader.plugins, index) {
            Some(p) => {
                assert(first_user(old(loader).views(), p as int, index as int));
                return Err(
                    UnloadPluginError::CurrentlyUsesDepend {
                        plugin: loader.plugins[p].info.bundle.clone(),
                        depend: loader.plugins[index].info.bundle.clone(),
                    },
                );
            },
            None => {},
        }
        proof {
            if dependencies_loaded(old(loader).views()) {
                lemma_unload_keeps_dependencies(old(loader).views(), index as int);
            }
        }
    } else {
        assert(old(loader).spec_plugins().update(
            index as int,
            with_loaded(old(loader).spec_plugins()[index as int], false),
        ) =~= old(loader).spec_plugins());
    }
    let r = forced_unload_plugin(loader, index);
    proof {
        if r is Ok {
            assert(loader.views() =~= flagged(old(loader).views(), index as int, false));
            if !old(loader).views()[index as int].is_loaded {
                assert(loader.views() =~= old(loader).views());
            }
        }
    }
    r
}

/// Removes the record of the plugin at `index`, which is not loaded, and
/// calls the manager's `unregister_plugin` hook for it. The record is gone
/// whether the hook succeeds or fails.
pub fn forced_unregister_plugin<O: Send + Sync, I: Info>(
    loader: &mut Loader<O, I>,
    index: usize,
) -> (r: Result<(), UnregisterPluginError>)
    requires
        old(loader).wf(),
        index < old(loader).spec_plugins().len(),
        !old(loader).views()[index as int].is_loaded,
    ensures
        final(loader).wf(),
        final(loader).formats() == old(loader).formats(),
        final(loader).spec_requests() == old(loader).spec_requests(),
        final(loader).spec_registry() == old(loader).spec_registry(),
        final(loader).spec_plugins() == old(loader).spec_plugins().remove(index as int),
        dependencies_loaded(old(loader).views()) ==> dependencies_loaded(final(loader).views()),
        requests_answered(old(loader).spec_plugins(), old(loader).spec_requests())
            ==> requests_answered(final(loader).spec_plugins(), final(loader).spec_requests()),
        r matches Err(e) ==> e is UnregisterPluginByManager,
{
    let found = find_manager(&loader.managers, loader.plugins[index].info.bundle.format.as_str());
    let k = match found {
        Some(k) => k,
        None => {
            assert(loader.formats().contains(loader.bundles()[index as int].format));
            loader.plugins.remove(index);
            return Err(UnregisterPluginError::HasUnregisteredManager);
        },
    };
    let outcome = loader.managers[k].manager.unregister_plugin(&loader.plugins[index]);
    assert(loader.formats() =~= old(loader).formats());
    loader.plugins.remove(index);
    proof {
        assert(loader.views() =~= old(loader).views().remove(index as int));
        assert(loader.bundles() =~= old(loader).bundles().remove(index as int));
        lemma_remove_keeps_wf(old(loader).bundles(), old(loader).formats(), index as int);
        if dependencies_loaded(old(loader).views()) {
            lemma_remove_keeps_dependencies(old(loader).views(), index as int);
        }
    }
    match outcome {
        Ok(_) => Ok(()),
        Err(e) => Err(UnregisterPluginError::UnregisterPluginByManager(e)),
    }
}

/// What unregistering the plugin at `index` comes to.
///
/// A loaded plugin that another loaded plugin uses, or that its manager
/// fails to unload, stays as it is, and the error holds the reason.
/// Otherwise the record is removed, with success or with the error of the
/// manager's `unregister_plugin` hook.
pub open spec fn unregistering<O: Send + Sync, I: Info>(
    before: &Loader<O, I>,
    after: &Loader<O, I>,
    index: int,
    r: Result<(), UnregisterPluginError>,
) -> bool {
    &&& match r {
        Ok(_) => after.spec_plugins() == before.spec_plugins().remove(index),
        Err(UnregisterPluginError::UnregisterPluginByManager(_)) => after.spec_plugins()
            == before.spec_plugins().remove(index),
        Err(UnregisterPluginError::UnloadError(e)) => {
            &&& before.views()[index].is_loaded
            &&& after.spec_plugins() == before.spec_plugins()
            &&& e is CurrentlyUsesDepend <==> !unused(before.views(), index)
            &&& unloading(before, after, index, Err(e))
        },
        Err(_) => false,
    }
    &&& !(r matches Err(UnregisterPluginError::UnloadError(_))) ==> !before.views()[index].is_loaded
        || unused(before.views(), index)
}

/// Unregisters the plugin at `index`: unloads it if it is loaded, then
/// removes its record.
///
/// Where the plugin cannot be unloaded nothing changes and the error holds
/// the reason. Otherwise the record is removed, whatever the manager's
/// `unregister_plugin` hook reports.
pub fn unregister_plugin<O: Send + Sync, I: Info>(loader: &mut Loader<O, I>, index: usize) -> (r:
    Result<(), UnregisterPluginError>)
    requires
        old(loader).wf(),
        index < old(loader).spec_plugins().len(),
    ensures
        final(loader).wf(),
        final(loader).formats() == old(loader).formats(),
        final(loader).spec_requests() == old(loader).spec_requests(),
        final(loader).spec_registry() == old(loader).spec_registry(),
        dependencies_loaded(old(loader).views()) ==> dependencies_loaded(final(loader).views()),
        requests_answered(old(loader).spec_plugins(), old(loader).spec_requests())
            ==> requests_answered(final(loader).spec_plugins(), final(loader).spec_requests()),
        unregistering(old(loader), final(loader), index as int, r),
{
    match unload_plugin(loader, index) {
        Err(e) => {
            proof {
                if e is CurrentlyUsesDepend {
                    let p = choose|p: int| #[trigger] first_user(old(loader).views(), p, index as int);
                    assert(uses(old(loader).views(), p, index as int));
                }
            }
            return Err(UnregisterPluginError::UnloadError(e));
        },
        Ok(_) => {},
    }
    let r = forced_unregister_plugin(loader, index);
    proof {
        assert(old(loader).spec_plugins().update(
            index as int,
            with_loaded(old(loader).spec_plugins()[index as int], false),
        ).remove(index as int) =~= old(loader).spec_plugins().remove(index as int));
    }
    r
}

/// What two states of the engine have in common whatever is registered,
/// loaded or removed in between: the engine is well-formed, and the
/// managers and the host's requests and functions are the same. Where every
/// loaded plugin had its required dependencies loaded, it still has.
pub open spec fn same_host<O: Send + Sync, I: Info>(before: &Loader<O, I>, after: &Loader<O, I>) -> bool {
    &&& after.wf()
    &&& after.formats() == before.formats()
    &&& after.spec_requests() == before.spec_requests()
    &&& after.spec_registry() == before.spec_registry()
    &&& dependencies_loaded(before.views()) ==> dependencies_loaded(after.views())
    &&& requests_answered(before.spec_plugins(), before.spec_requests()) ==> requests_answered(
        after.spec_plugins(),
        after.spec_requests(),
    )
}

} // verus!
