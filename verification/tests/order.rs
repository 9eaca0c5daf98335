use plux_rs::api::Api;
use plux_rs::context::{LoadPluginContext, RegisterPluginContext};
use plux_rs::function::FunctionOutput;
use plux_rs::info::{Depend, StdInfo};
use plux_rs::load::forced_load_plugin;
use plux_rs::loader::{
    forced_register_manager, forced_unload_plugin, forced_unregister_manager,
    forced_unregister_plugin, Loader,
};
use plux_rs::manager::{Manager, ManagerBox};
use plux_rs::path::PluginPath;
use plux_rs::plugin::Plugin;
use plux_rs::solver::{find_match, find_user, is_depend_of, is_depend_of_another, is_newest_version};
use plux_rs::sort::{sort_pick, sort_plugins};
use plux_rs::teardown::{stop_managers, stop_plugins, unregister_listed};
use plux_rs::utils::error::{ManagerResult, RegisterManagerError};
use plux_rs::version::{Version, VersionReq};

/// A manager whose plugins depend on each other as a table says.
struct GraphManager {
    edges: Vec<(&'static str, &'static str, &'static str)>,
}

impl Manager<FunctionOutput, StdInfo> for GraphManager {
    fn format(&self) -> &'static str {
        "g"
    }

    fn register_manager(&mut self) -> ManagerResult<()> {
        Ok(())
    }

    fn unregister_manager(&mut self) -> ManagerResult<()> {
        Ok(())
    }

    fn register_plugin(&mut self, context: RegisterPluginContext<'_>) -> ManagerResult<StdInfo> {
        let mut info = StdInfo::new();
        for (from, to, req) in &self.edges {
            if *from == context.bundle.id {
                info.depends.push(Depend::new(to.to_string(), VersionReq::parse(req).unwrap()));
            }
        }
        Ok(info)
    }

    fn unregister_plugin(&mut self, _: &Plugin<FunctionOutput, StdInfo>) -> ManagerResult<()> {
        Ok(())
    }

    fn load_plugin(
        &mut self,
        _: LoadPluginContext<'_, FunctionOutput, StdInfo>,
        _: Api<'_, FunctionOutput, StdInfo>,
    ) -> ManagerResult<()> {
        Ok(())
    }

    fn unload_plugin(&mut self, _: &Plugin<FunctionOutput, StdInfo>) -> ManagerResult<()> {
        Ok(())
    }
}

fn graph(
    edges: Vec<(&'static str, &'static str, &'static str)>,
    plugins: &[(&str, &str)],
) -> Loader<FunctionOutput, StdInfo> {
    let mut loader = Loader::new();
    loader.register_manager(GraphManager { edges }).unwrap();
    for (id, version) in plugins {
        let name = format!("{id}-v{version}.g");
        loader.register_plugin(&PluginPath::new(&name, true, Some(name.clone()))).unwrap();
    }
    loader
}

fn ids(loader: &Loader<FunctionOutput, StdInfo>, order: &[usize]) -> Vec<String> {
    order.iter().map(|i| loader.get_plugins()[*i].info().bundle.id.clone()).collect()
}

#[test]
fn a_chain_is_sorted_from_the_dependent_to_the_dependency() {
    let loader = graph(vec![("x", "y", "*"), ("y", "z", "*")], &[("z", "1.0.0"), ("x", "1.0.0"), ("y", "1.0.0")]);
    let order = sort_plugins(loader.get_plugins(), vec![0, 1, 2]);
    assert_eq!(ids(&loader, &order), ["x", "y", "z"]);
    let order = sort_plugins(loader.get_plugins(), vec![2, 1, 0]);
    assert_eq!(ids(&loader, &order), ["x", "y", "z"]);
}

#[test]
fn members_without_dependents_keep_the_order_of_the_set() {
    let loader = graph(
        vec![("a", "c", "*"), ("b", "d", "*")],
        &[("a", "1.0.0"), ("b", "1.0.0"), ("c", "1.0.0"), ("d", "1.0.0"), ("e", "1.0.0")],
    );
    let order = sort_plugins(loader.get_plugins(), vec![0, 1, 2, 3, 4]);
    assert_eq!(ids(&loader, &order), ["a", "c", "b", "d", "e"]);
    let order = sort_plugins(loader.get_plugins(), vec![4, 1, 0, 3, 2]);
    assert_eq!(ids(&loader, &order), ["e", "b", "d", "a", "c"]);
}

#[test]
fn a_shared_dependency_waits_for_its_last_dependent() {
    // Both a and b depend on c with the same requirement: c comes after b.
    let loader = graph(
        vec![("a", "c", "^1"), ("b", "c", "^1")],
        &[("a", "1.0.0"), ("b", "1.0.0"), ("c", "1.0.0")],
    );
    let order = sort_plugins(loader.get_plugins(), vec![0, 1, 2]);
    assert_eq!(ids(&loader, &order), ["a", "b", "c"]);
}

#[test]
fn only_members_of_the_set_are_sorted() {
    let loader = graph(vec![("x", "y", "*"), ("y", "z", "*")], &[("x", "1.0.0"), ("y", "1.0.0"), ("z", "1.0.0")]);
    let order = sort_plugins(loader.get_plugins(), vec![2, 0]);
    // y is not in the set, so nothing in the set depends on z.
    assert_eq!(ids(&loader, &order), ["z", "x"]);
    assert!(sort_plugins(loader.get_plugins(), vec![]).is_empty());
}

#[test]
fn members_of_a_cycle_are_left_out() {
    let loader = graph(
        vec![("ping", "pong", "*"), ("pong", "ping", "*")],
        &[("ping", "1.0.0"), ("pong", "1.0.0"), ("free", "1.0.0")],
    );
    let order = sort_plugins(loader.get_plugins(), vec![0, 1, 2]);
    assert_eq!(ids(&loader, &order), ["free"]);
}

#[test]
fn sort_pick_appends_a_plugin_and_what_it_depends_on() {
    let loader = graph(vec![("x", "y", "*"), ("y", "z", "*")], &[("z", "1.0.0"), ("y", "1.0.0"), ("x", "1.0.0")]);
    let set = vec![0, 1, 2];
    let mut result = vec![];
    sort_pick(loader.get_plugins(), &set, 2, &mut result);
    assert_eq!(result, [2, 1, 0]);
    let mut result = vec![2];
    sort_pick(loader.get_plugins(), &set, 1, &mut result);
    assert_eq!(result, [2, 1, 0]);
}

#[test]
fn the_matches_of_a_dependency() {
    let loader = graph(
        vec![("paint", "brush", "^1")],
        &[("brush", "1.0.0"), ("brush", "1.2.0"), ("brush", "2.0.0"), ("paint", "1.0.0")],
    );
    let plugins = loader.get_plugins();
    let depend = Depend::new("brush".to_string(), VersionReq::parse("^1").unwrap());
    assert_eq!(find_match(plugins, &depend), Some(1));
    let any = Depend::new("brush".to_string(), VersionReq::parse("*").unwrap());
    assert_eq!(find_match(plugins, &any), Some(2));
    let none = Depend::new("brush".to_string(), VersionReq::parse("^3").unwrap());
    assert_eq!(find_match(plugins, &none), None);
    assert!(is_depend_of(plugins, 3, 1));
    assert!(!is_depend_of(plugins, 3, 0));
    assert!(!is_depend_of(plugins, 3, 2));
    assert!(is_depend_of_another(plugins, 1));
    assert!(!is_depend_of_another(plugins, 3));
    assert!(is_newest_version(plugins, 2));
    assert!(!is_newest_version(plugins, 1));
    assert!(is_newest_version(plugins, 3));
    assert_eq!(find_user(plugins, 1), None);
}

#[test]
fn the_users_of_a_loaded_plugin() {
    let mut loader = graph(
        vec![("paint", "brush", "*"), ("draw", "brush", "^1")],
        &[("brush", "1.0.0"), ("paint", "1.0.0"), ("draw", "1.0.0")],
    );
    loader.load_plugin("draw", &Version::new(1, 0, 0)).unwrap();
    assert_eq!(find_user(loader.get_plugins(), 0), Some(2));
    loader.load_plugin("paint", &Version::new(1, 0, 0)).unwrap();
    assert_eq!(find_user(loader.get_plugins(), 0), Some(1));
    assert_eq!(find_user(loader.get_plugins(), 1), None);
}

#[test]
fn operations_without_their_checks() {
    let mut loader = graph(vec![("x", "y", "*")], &[("x", "1.0.0"), ("y", "1.0.0")]);
    loader.load_plugin("x", &Version::new(1, 0, 0)).unwrap();
    // y is used by x and is unloaded all the same.
    forced_unload_plugin(&mut loader, 1).unwrap();
    assert!(!loader.get_plugins()[1].is_load());
    assert!(loader.get_plugins()[0].is_load());
    forced_unregister_plugin(&mut loader, 1).unwrap();
    assert_eq!(loader.get_plugins().len(), 1);
    loader.forced_unload_plugin(0).unwrap();
    forced_load_plugin(&mut loader, 0, vec![]).unwrap();
    assert!(loader.get_plugins()[0].is_load());
    loader.forced_unload_plugin(0).unwrap();
    loader.forced_unregister_plugin(0).unwrap();
    assert!(loader.get_plugins().is_empty());
    forced_unregister_manager(&mut loader, 0).unwrap();
    assert!(loader.get_manager_ref("g").is_none());
    forced_register_manager(&mut loader, ManagerBox { manager: Box::new(GraphManager { edges: vec![] }) })
        .unwrap();
    assert!(loader.get_manager_ref("g").is_some());
    assert!(matches!(
        loader.register_manager(GraphManager { edges: vec![] }),
        Err(RegisterManagerError::AlreadyOccupiedFormat(_))
    ));
}

#[test]
fn stopping_in_two_steps() {
    let mut loader = graph(vec![("x", "y", "*")], &[("y", "1.0.0"), ("x", "1.0.0")]);
    loader.load_plugin("x", &Version::new(1, 0, 0)).unwrap();
    stop_plugins(&mut loader).unwrap();
    assert!(loader.get_plugins().is_empty());
    assert!(loader.get_manager_ref("g").is_some());
    stop_managers(&mut loader).unwrap();
    assert!(loader.get_manager_ref("g").is_none());
}

#[test]
fn unregistering_a_list_of_plugins() {
    let mut loader = graph(vec![("x", "y", "*")], &[("y", "1.0.0"), ("x", "1.0.0"), ("z", "1.0.0")]);
    loader.load_plugin("x", &Version::new(1, 0, 0)).unwrap();
    let bundle = |i: usize, loader: &Loader<FunctionOutput, StdInfo>| loader.get_plugins()[i].info().bundle.clone();
    let targets = vec![bundle(2, &loader), bundle(0, &loader), bundle(1, &loader)];
    // z goes, then y cannot be unloaded because x uses it.
    match unregister_listed(&mut loader, &targets) {
        Err((done, _)) => assert_eq!(done, 1),
        Ok(_) => panic!("y is in use"),
    }
    assert_eq!(ids(&loader, &[0, 1]), ["y", "x"]);
    let targets = vec![bundle(1, &loader), bundle(0, &loader)];
    unregister_listed(&mut loader, &targets).unwrap();
    assert!(loader.get_plugins().is_empty());
}

#[test]
fn a_dependency_shared_through_different_requirements_comes_last() {
    // a and b both need c, each through a requirement of its own.
    let loader = graph(
        vec![("a", "c", "^1"), ("b", "c", ">=1.0.0")],
        &[("a", "1.0.0"), ("b", "1.0.0"), ("c", "1.0.0")],
    );
    let order = sort_plugins(loader.get_plugins(), vec![0, 1, 2]);
    assert_eq!(ids(&loader, &order), ["a", "b", "c"]);
    let order = sort_plugins(loader.get_plugins(), vec![2, 1, 0]);
    assert_eq!(ids(&loader, &order), ["b", "a", "c"]);
}

#[test]
fn a_diamond_ends_with_the_plugin_that_both_sides_need() {
    let loader = graph(
        vec![("top", "left", "*"), ("top", "right", "*"), ("left", "base", "^1"), ("right", "base", "1")],
        &[("base", "1.0.0"), ("left", "1.0.0"), ("right", "1.0.0"), ("top", "1.0.0")],
    );
    let order = sort_plugins(loader.get_plugins(), vec![0, 1, 2, 3]);
    assert_eq!(ids(&loader, &order), ["top", "left", "right", "base"]);
}

#[test]
fn a_manager_whose_plugins_share_a_dependency_is_removed() {
    let mut loader = graph(
        vec![("a", "c", "^1"), ("b", "c", ">=1.0.0")],
        &[("a", "1.0.0"), ("b", "1.0.0"), ("c", "1.0.0")],
    );
    for id in ["a", "b"] {
        loader.load_plugin(id, &Version::parse("1.0.0").unwrap()).unwrap();
    }
    assert!(loader.get_plugins().iter().all(|p| p.is_load()));
    loader.unregister_manager("g").unwrap();
    assert!(loader.get_plugins().is_empty());
    assert!(loader.get_manager_ref("g").is_none());
}
