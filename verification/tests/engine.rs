use std::sync::{Arc, Mutex};

use rayon::iter::{IntoParallelIterator, ParallelIterator};

use plux_rs::api::Api;
use plux_rs::bundle::Bundle;
use plux_rs::context::{LoadPluginContext, LoaderContext, RegisterPluginContext};
use plux_rs::function::function::FunctionBox;
use plux_rs::function::{Arg, DynamicFunction, Function, FunctionOutput, Request};
use plux_rs::info::{Depend, StdInfo};
use plux_rs::loader::Loader;
use plux_rs::manager::{Manager, ManagerBox};
use plux_rs::path::PluginPath;
use plux_rs::plugin::Plugin;
use plux_rs::utils::error::{
    CallFunctionDependError, FunctionError, LoadPluginError, ManagerError, ManagerResult,
    PluginCallFunctionError, PluginCallRequestError, PluginRegisterFunctionError,
    RegisterManagerError, RegisterPluginError, RegisterRequestError, StopLoaderError,
    UnloadPluginError, UnregisterManagerError, UnregisterPluginError,
};
use plux_rs::variable::{Variable, VariableSignedIntType, VariableType};
use plux_rs::version::{Version, VersionReq};

type Log = Arc<Mutex<Vec<String>>>;

/// What a plugin of the test manager is like.
#[derive(Clone)]
struct Script {
    id: &'static str,
    depends: Vec<(&'static str, &'static str)>,
    optional: Vec<(&'static str, &'static str)>,
    /// Requests that the plugin answers: name, input types, output type.
    answers: Vec<(&'static str, Vec<VariableType>, Option<VariableType>)>,
    /// Functions that the plugin offers to other plugins.
    offers: Vec<&'static str>,
    /// Functions of required dependencies that the plugin calls while it is loaded.
    calls: Vec<(&'static str, &'static str, &'static str)>,
}

fn script(id: &'static str) -> Script {
    Script { id, depends: vec![], optional: vec![], answers: vec![], offers: vec![], calls: vec![] }
}

/// A manager whose plugins are described in a table instead of on disk.
struct TableManager {
    format: &'static str,
    scripts: Vec<Script>,
    log: Log,
    fail: Vec<&'static str>,
}

impl TableManager {
    fn new(format: &'static str, scripts: Vec<Script>, log: &Log) -> TableManager {
        TableManager { format, scripts, log: log.clone(), fail: vec![] }
    }

    fn failing(
        format: &'static str,
        scripts: Vec<Script>,
        log: &Log,
        fail: Vec<&'static str>,
    ) -> TableManager {
        TableManager { format, scripts, log: log.clone(), fail }
    }

    fn note(&self, event: &str, what: String) -> ManagerResult<()> {
        self.log.lock().unwrap().push(format!("{event} {what}"));
        if self.fail.contains(&event) {
            Err(ManagerError::new(format!("{event} failed")))
        } else {
            Ok(())
        }
    }

    fn script_of(&self, id: &str) -> Option<Script> {
        self.scripts.iter().find(|s| s.id == id).cloned()
    }
}

fn depends_of(list: &[(&'static str, &'static str)]) -> Vec<Depend> {
    list.iter().map(|(id, req)| Depend::new(id.to_string(), VersionReq::parse(req).unwrap())).collect()
}

fn echo_function(
    name: &'static str,
    inputs: Vec<VariableType>,
    output: Option<VariableType>,
    owner: String,
) -> FunctionBox<FunctionOutput> {
    let args = inputs.iter().enumerate().map(|(i, ty)| Arg::new(&format!("arg{i}"), *ty)).collect();
    let out = output.map(|ty| Arg::new("output", ty));
    let has_output = output.is_some();
    let function = DynamicFunction::new(name, args, out, move |args: &[Variable]| -> FunctionOutput {
        if !has_output {
            return Ok(None);
        }
        match args.first() {
            Some(first) => Ok(Some(first.clone())),
            None => Ok(Some(Variable::text(&owner))),
        }
    });
    FunctionBox { function: Box::new(function) }
}

impl Manager<FunctionOutput, StdInfo> for TableManager {
    fn format(&self) -> &'static str {
        self.format
    }

    fn register_manager(&mut self) -> ManagerResult<()> {
        self.note("register_manager", self.format.to_string())
    }

    fn unregister_manager(&mut self) -> ManagerResult<()> {
        self.note("unregister_manager", self.format.to_string())
    }

    fn register_plugin(&mut self, context: RegisterPluginContext<'_>) -> ManagerResult<StdInfo> {
        self.note("register_plugin", context.bundle.to_string())?;
        match self.script_of(&context.bundle.id) {
            None => Err(ManagerError::new("Does not contain config".to_string())),
            Some(script) => Ok(StdInfo {
                depends: depends_of(&script.depends),
                optional_depends: depends_of(&script.optional),
            }),
        }
    }

    fn unregister_plugin(&mut self, plugin: &Plugin<FunctionOutput, StdInfo>) -> ManagerResult<()> {
        self.note("unregister_plugin", plugin.info().bundle.to_string())
    }

    fn load_plugin(
        &mut self,
        mut context: LoadPluginContext<'_, FunctionOutput, StdInfo>,
        api: Api<'_, FunctionOutput, StdInfo>,
    ) -> ManagerResult<()> {
        let bundle = context.plugin().info().bundle.clone();
        self.note("load_plugin", bundle.to_string())?;
        assert_eq!(api.plugin(), &bundle);
        let script = self.script_of(&bundle.id).unwrap();
        for (name, inputs, output) in script.answers {
            if !context.requests().iter().any(|request| request.name == name) {
                continue;
            }
            context
                .register_request(echo_function(name, inputs, output, bundle.id.clone()))
                .map_err(|e| ManagerError::new(format!("{e:?}")))?;
        }
        for name in script.offers {
            context
                .register_function(echo_function(
                    name,
                    vec![],
                    Some(VariableType::String),
                    bundle.id.clone(),
                ))
                .map_err(|e| ManagerError::new(format!("{e:?}")))?;
        }
        for (id, version, name) in script.calls {
            let version = Version::parse(version).unwrap();
            let out = api
                .call_function_depend(id, &version, name, &[])
                .map_err(|e| ManagerError::new(format!("{e:?}")))?;
            self.log.lock().unwrap().push(format!("called {id}.{name} -> {out:?}"));
        }
        Ok(())
    }

    fn unload_plugin(&mut self, plugin: &Plugin<FunctionOutput, StdInfo>) -> ManagerResult<()> {
        self.note("unload_plugin", plugin.info().bundle.to_string())
    }
}

fn new_log() -> Log {
    Arc::new(Mutex::new(vec![]))
}

fn events(log: &Log, event: &str) -> Vec<String> {
    let prefix = format!("{event} ");
    log.lock()
        .unwrap()
        .iter()
        .filter(|line| line.starts_with(&prefix))
        .map(|line| line[prefix.len()..].to_string())
        .collect()
}

fn get_plugin_path(id: &str, version: &str, format: &str) -> PluginPath {
    let leaf = id.rsplit('/').next().unwrap();
    PluginPath::new(
        &format!("./tests/plugins/{id}-v{version}.{format}"),
        true,
        Some(format!("{leaf}-v{version}.{format}")),
    )
}

fn void_scripts() -> Vec<Script> {
    let mut dep_2 = script("dep_2");
    dep_2.depends = vec![("dep_1", "^1")];
    let mut dep_3 = script("dep_3");
    dep_3.depends = vec![("dep_2", "^1")];
    dep_3.optional = vec![("dep_1", "^1"), ("dep_9", "*")];
    let mut dep_4 = script("dep_4");
    dep_4.depends = vec![("dep_3", "^1")];
    let mut for_manager = script("plugin_for_manager");
    for_manager.depends = vec![("function_plugin", "^1")];
    let mut paint = script("paint");
    paint.depends = vec![("brush", ">=1.0.0")];
    let mut photoshop = script("photoshop");
    photoshop.depends = vec![("brush", "^2")];
    vec![
        script("void_plugin"),
        script("dep_1"),
        dep_2,
        dep_3,
        dep_4,
        for_manager,
        script("brush"),
        paint,
        photoshop,
    ]
}

fn function_scripts() -> Vec<Script> {
    let mut function_plugin = script("function_plugin");
    function_plugin.answers = vec![
        ("echo", vec![VariableType::String], Some(VariableType::String)),
        ("main", vec![], None),
        (
            "mul",
            vec![
                VariableType::signed(VariableSignedIntType::I32),
                VariableType::signed(VariableSignedIntType::I32),
            ],
            Some(VariableType::signed(VariableSignedIntType::I32)),
        ),
    ];
    let mut one = script("one_plugin");
    one.answers = vec![("main", vec![VariableType::signed(VariableSignedIntType::I32)], None)];
    let mut two = script("two_plugin");
    two.answers = vec![("main", vec![VariableType::signed(VariableSignedIntType::I32)], None)];
    let mut circle = script("circle");
    circle.offers = vec!["draw"];
    let mut square = script("square");
    square.offers = vec!["draw"];
    let mut paint = script("paint");
    paint.depends = vec![("circle", "^1"), ("square", "^1")];
    paint.offers = vec!["paint"];
    paint.calls = vec![("circle", "1.0.0", "draw"), ("square", "1.0.0", "draw")];
    vec![function_plugin, one, two, circle, square, paint]
}

fn void_manager(log: &Log) -> TableManager {
    TableManager::new("vpl", void_scripts(), log)
}

fn function_manager(log: &Log) -> TableManager {
    TableManager::new("fpl", function_scripts(), log)
}

fn loader_init<M: Manager<FunctionOutput, StdInfo> + 'static>(manager: M) -> Loader<FunctionOutput, StdInfo> {
    let mut loader = Loader::new();
    LoaderContext::new(&mut loader).register_manager(manager).unwrap();
    loader
}

fn add() -> FunctionBox<FunctionOutput> {
    let i32_type = VariableType::signed(VariableSignedIntType::I32);
    let function = DynamicFunction::new(
        "add",
        vec![Arg::new("a", i32_type), Arg::new("b", i32_type)],
        Some(Arg::new("c", i32_type)),
        |args: &[Variable]| -> FunctionOutput {
            let a = args[0].parse_ref::<i32>();
            let b = args[1].parse_ref::<i32>();
            Ok(Some((a + b).into()))
        },
    );
    FunctionBox { function: Box::new(function) }
}

fn sub() -> FunctionBox<FunctionOutput> {
    let i32_type = VariableType::signed(VariableSignedIntType::I32);
    let function = DynamicFunction::new(
        "sub",
        vec![Arg::new("a", i32_type), Arg::new("b", i32_type)],
        Some(Arg::new("c", i32_type)),
        |args: &[Variable]| -> FunctionOutput {
            let a = args[0].parse_ref::<i32>();
            let b = args[1].parse_ref::<i32>();
            Ok(Some((a - b).into()))
        },
    );
    FunctionBox { function: Box::new(function) }
}

fn v(text: &str) -> Version {
    Version::parse(text).unwrap()
}

fn is_loaded(loader: &Loader<FunctionOutput, StdInfo>, id: &str, version: &str) -> bool {
    loader.get_plugin(id, &v(version)).unwrap().is_load()
}

fn bundle_names(bundles: &[Bundle]) -> Vec<String> {
    bundles.iter().map(|b| b.to_string()).collect()
}

// ---- the tests of the engine as a host uses it ----

#[test]
fn get_plugin_manager() {
    let log = new_log();
    let mut loader = loader_init(void_manager(&log));

    let is_manager = loader.get_manager_ref("vpl").is_some();
    assert!(is_manager);
    assert!(loader.par_get_manager_ref("vpl").is_some());
    assert!(loader.get_manager_ref("lua").is_none());
    assert_eq!(loader.get_manager_ref("vpl").unwrap().format(), "vpl");

    loader.stop().unwrap();
}

#[test]
fn register_plugin() {
    let log = new_log();
    let mut loader = loader_init(void_manager(&log));

    let bundle = loader.register_plugin(&get_plugin_path("void_plugin", "1.0.0", "vpl")).unwrap();

    let plugin = loader.get_plugin_by_bundle(&bundle).unwrap();
    println!("Path = {:?}, Bundle = {}", plugin.info().path, plugin.info().bundle.to_string());
    assert_eq!(plugin.info().path, "./tests/plugins/void_plugin-v1.0.0.vpl");
    assert_eq!(plugin.info().bundle.to_string(), "void_plugin-v1.0.0.vpl");
    assert!(!plugin.is_load());
    assert!(plugin.get_requests().is_empty());
    assert!(plugin.get_registry().is_empty());

    loader.unregister_plugin_by_bundle(&bundle).unwrap();
    loader.stop().unwrap();
}

#[test]
fn load_plugin() {
    let log = new_log();
    let mut loader = loader_init(void_manager(&log));

    let bundle = loader.register_plugin(&get_plugin_path("void_plugin", "1.0.0", "vpl")).unwrap();

    loader.load_plugin_by_bundle(&bundle).unwrap();
    loader.unload_plugin_by_bundle(&bundle).unwrap();

    loader.stop().unwrap();
}

#[test]
fn load_now_plugin() {
    let log = new_log();
    let mut loader = loader_init(void_manager(&log));

    let bundle = loader.load_plugin_now(&get_plugin_path("void_plugin", "1.0.0", "vpl")).unwrap();
    assert!(is_loaded(&loader, "void_plugin", "1.0.0"));

    loader.unload_plugin_by_bundle(&bundle).unwrap();
    loader.stop().unwrap();
}

fn heavy_paths() -> Vec<PluginPath> {
    vec![
        get_plugin_path("dependency/dep_1", "1.0.0", "vpl"),
        get_plugin_path("plugin_for_manager", "1.0.0", "vpl"),
        get_plugin_path("dependency/dep_2", "1.0.0", "vpl"),
        get_plugin_path("function_plugin", "1.0.0", "fpl"),
        get_plugin_path("dependency/dep_3", "1.0.0", "vpl"),
        get_plugin_path("dependency/dep_4", "1.0.0", "vpl"),
    ]
}

#[test]
fn unload_managers() {
    let log = new_log();
    let mut loader = Loader::new();
    {
        let mut ctx = loader.context();
        ctx.register_manager(void_manager(&log)).unwrap();
        ctx.register_manager(function_manager(&log)).unwrap();
    }

    loader.load_plugins(&heavy_paths()).unwrap();

    match loader.unregister_manager("fpl") {
        Err(UnregisterManagerError::UnregisterPlugin(UnregisterPluginError::UnloadError(
            UnloadPluginError::CurrentlyUsesDepend { .. },
        ))) => assert!(true),
        _ => assert!(false),
    };
    assert!(loader.get_manager_ref("fpl").is_some());
    assert!(is_loaded(&loader, "function_plugin", "1.0.0"));

    loader.stop().unwrap();
}

#[test]
fn heavy_load() {
    let log = new_log();
    let mut loader = Loader::new();
    {
        let mut ctx = loader.context();
        ctx.register_manager(void_manager(&log)).unwrap();
        ctx.register_manager(function_manager(&log)).unwrap();
    }

    loader.load_plugins(&heavy_paths()).unwrap();
    for plugin in loader.get_plugins() {
        assert!(plugin.is_load());
    }

    loader.stop().unwrap();
    assert!(loader.get_plugins().is_empty());
    assert!(loader.get_manager_ref("vpl").is_none());
    assert!(loader.get_manager_ref("fpl").is_none());
}

fn get_dependencys_path() -> Vec<PluginPath> {
    vec![
        get_plugin_path("dependency/dep_1", "1.0.0", "vpl"),
        get_plugin_path("dependency/dep_2", "1.0.0", "vpl"),
        get_plugin_path("dependency/dep_3", "1.0.0", "vpl"),
        get_plugin_path("dependency/dep_4", "1.0.0", "vpl"),
    ]
}

#[test]
fn register_dependency_plugin() {
    let log = new_log();
    let mut loader = loader_init(void_manager(&log));

    for path in get_dependencys_path() {
        loader.register_plugin(&path).unwrap();
    }
    assert_eq!(loader.get_plugins().len(), 4);
}

#[test]
fn load_dependency_plugin() {
    let log = new_log();
    let mut loader = loader_init(void_manager(&log));

    for path in get_dependencys_path() {
        loader.register_plugin(&path).unwrap();
    }

    loader.load_plugin("dep_3", &Version::parse("1.0.0").unwrap()).unwrap();
    assert!(is_loaded(&loader, "dep_1", "1.0.0"));
    assert!(is_loaded(&loader, "dep_2", "1.0.0"));
    assert!(is_loaded(&loader, "dep_3", "1.0.0"));
    assert!(!is_loaded(&loader, "dep_4", "1.0.0"));
}

#[test]
fn load_plugins() {
    let log = new_log();
    let mut loader = loader_init(void_manager(&log));

    let plugins = loader.load_plugins(&get_dependencys_path()).unwrap();
    assert_eq!(
        bundle_names(&plugins),
        ["dep_1-v1.0.0.vpl", "dep_2-v1.0.0.vpl", "dep_3-v1.0.0.vpl", "dep_4-v1.0.0.vpl"]
    );

    for bundle in plugins {
        let plugin = loader.get_plugin_by_bundle(&bundle).unwrap();
        println!("Path = {:?}, Bundle = {}", plugin.info().path, plugin.info().bundle.to_string());
        assert!(plugin.is_load());
    }
    assert_eq!(
        events(&log, "load_plugin"),
        ["dep_1-v1.0.0.vpl", "dep_2-v1.0.0.vpl", "dep_3-v1.0.0.vpl", "dep_4-v1.0.0.vpl"]
    );
}

#[test]
fn register_function() {
    let log = new_log();
    let mut loader = Loader::new();
    let mut ctx = loader.context();
    ctx.register_function(add());
    ctx.register_manager(void_manager(&log)).unwrap();
    assert_eq!(loader.get_registry().len(), 1);
    assert_eq!(loader.get_registry()[0].name(), "add");
}

#[test]
fn register_functions() {
    let log = new_log();
    let mut loader = Loader::new();
    let mut ctx = loader.context();
    ctx.register_function(add());
    ctx.register_function(sub());
    ctx.register_manager(void_manager(&log)).unwrap();
    ctx.register_functions(vec![add(), sub()]);
    let names: Vec<String> = loader.get_registry().iter().map(|f| f.name()).collect();
    assert_eq!(names, ["add", "sub", "add", "sub"]);
    let out = loader.get_registry()[1].call(&[7.into(), 2.into()]).unwrap();
    assert_eq!(out, Some(Variable::I32(5)));
}

#[test]
fn register_request() {
    let log = new_log();
    let mut loader = Loader::new();
    {
        let mut ctx = loader.context();
        let i32_type = VariableType::signed(VariableSignedIntType::I32);
        ctx.register_request(Request::new("mul", vec![i32_type, i32_type], Some(i32_type)));
        ctx.register_manager(function_manager(&log)).unwrap();
    }

    loader.load_plugin_now(&get_plugin_path("function_plugin", "1.0.0", "fpl")).unwrap();
    assert_eq!(loader.get_requests().len(), 1);
    assert!(is_loaded(&loader, "function_plugin", "1.0.0"));
}

#[test]
fn function_call_request() {
    let log = new_log();
    let mut loader = Loader::new();
    {
        let mut ctx = loader.context();
        ctx.register_request(Request::new(
            "echo",
            vec![VariableType::String],
            Some(VariableType::String),
        ));
        ctx.register_manager(function_manager(&log)).unwrap();
    }

    let bundle = loader.load_plugin_now(&get_plugin_path("function_plugin", "1.0.0", "fpl")).unwrap();
    let plugin = loader.get_plugin_by_bundle(&bundle).unwrap();

    match plugin.call_request("echo", &["Hello world".to_string().into()]).unwrap() {
        Err(e) => panic!("{:?}", e),
        Ok(Some(result)) => assert_eq!(result, Variable::text("Hello world")),
        Ok(None) => panic!("Unexpected result"),
    };
}

#[test]
fn common_call() {
    let log = new_log();
    let mut loader = Loader::new();
    {
        let mut ctx = loader.context();
        ctx.register_function(add());
        ctx.register_function(sub());
        ctx.register_request(Request::new("main", vec![], None));
        ctx.register_manager(function_manager(&log)).unwrap();
    }

    let bundle = loader.load_plugin_now(&get_plugin_path("function_plugin", "1.0.0", "fpl")).unwrap();
    let plugin = loader.get_plugin_by_bundle(&bundle).unwrap();

    match plugin.call_request("main", &[]).unwrap() {
        Err(e) => panic!("{:?}", e),
        Ok(out) => assert_eq!(out, None),
    };
}

#[test]
fn loader_call_request() {
    let log = new_log();
    let mut loader = Loader::new();
    {
        let mut ctx = loader.context();
        ctx.register_request(Request::new(
            "echo",
            vec![VariableType::String],
            Some(VariableType::String),
        ));
        ctx.register_manager(function_manager(&log)).unwrap();
    }

    loader.load_plugin_now(&get_plugin_path("function_plugin", "1.0.0", "fpl")).unwrap();

    match loader.call_request("echo", &["Hello world".to_string().into()]).unwrap().get(0).unwrap() {
        Err(e) => panic!("{:?}", e),
        Ok(Some(result)) => assert_eq!(result, &Variable::text("Hello world")),
        Ok(None) => panic!("Unexpected result"),
    };
}

#[test]
fn parallel_call_request() {
    let log = new_log();
    let mut loader = Loader::new();
    {
        let mut ctx = loader.context();
        ctx.register_request(Request::new(
            "main",
            vec![VariableType::signed(VariableSignedIntType::I32)],
            None,
        ));
        ctx.register_manager(function_manager(&log)).unwrap();
    }

    loader
        .load_plugins(&vec![
            get_plugin_path("parallel_plugins/one_plugin", "1.0.0", "fpl"),
            get_plugin_path("parallel_plugins/two_plugin", "1.0.0", "fpl"),
        ])
        .unwrap();

    let result = loader.call_request("main", &[10.into()]);
    let single = result.unwrap();
    assert_eq!(single.len(), 2);
    if let Err(e) = single.get(0).unwrap() {
        panic!("{:?}", e);
    }

    let result = loader.par_call_request("main", &[10.into()]);
    let parallel = result.unwrap();
    assert_eq!(parallel.len(), 2);
    if let Err(e) = parallel.get(0).unwrap() {
        panic!("{:?}", e);
    }
    assert_eq!(single, parallel);
}

#[test]
fn call_plugin_function() {
    let log = new_log();
    let mut loader = loader_init(function_manager(&log));

    let paths = vec![
        get_plugin_path("plugin_function/circle", "1.0.0", "fpl"),
        get_plugin_path("plugin_function/square", "1.0.0", "fpl"),
        get_plugin_path("plugin_function/paint", "1.0.0", "fpl"),
    ];

    loader.load_plugins(&paths).unwrap();

    let plugin = loader.get_plugin("paint", &Version::parse("1.0.0").unwrap()).unwrap();

    // Circle
    plugin.call_function("paint", &[true.into()]).unwrap().unwrap();

    // Square
    plugin.call_function("paint", &[false.into()]).unwrap().unwrap();

    assert!(matches!(plugin.call_function("erase", &[]), Err(PluginCallFunctionError::NotFound)));
    let calls: Vec<String> =
        log.lock().unwrap().iter().filter(|l| l.starts_with("called")).cloned().collect();
    assert_eq!(
        calls,
        [
            "called circle.draw -> Ok(Some(String(\"circle\")))",
            "called square.draw -> Ok(Some(String(\"square\")))"
        ]
    );
}

fn get_versions_path() -> Vec<PluginPath> {
    vec![
        get_plugin_path("versions/brush", "1.0.0", "vpl"),
        get_plugin_path("versions/brush", "2.0.0", "vpl"),
        get_plugin_path("versions/brush", "3.0.0", "vpl"),
    ]
}

fn get_tools_path() -> Vec<PluginPath> {
    vec![
        get_plugin_path("versions/paint", "1.0.0", "vpl"),
        get_plugin_path("versions/photoshop", "1.0.0", "vpl"),
    ]
}

#[test]
fn load_another_version() {
    let log = new_log();
    let mut loader = loader_init(void_manager(&log));

    let plugins = loader.load_plugins(&get_versions_path()).unwrap();

    for bundle in &plugins {
        println!("Plugin = {}", bundle.to_string());
    }
    assert_eq!(plugins.len(), 3);
    for version in ["1.0.0", "2.0.0", "3.0.0"] {
        assert!(is_loaded(&loader, "brush", version));
    }
}

#[test]
fn load_version_as_dependency() {
    let log = new_log();
    let mut loader = loader_init(void_manager(&log));

    let mut paths = get_versions_path();
    paths.extend(get_tools_path());

    let plugins = loader.load_plugins(&paths).unwrap();

    for bundle in &plugins {
        println!("Plugin = {}", bundle.to_string());
    }
    assert_eq!(plugins.len(), 5);
    // paint wants brush >= 1.0.0 and gets 3.0.0, photoshop wants ^2 and gets 2.0.0;
    // brush 1.0.0 is nobody's dependency and is loaded for itself.
    assert_eq!(
        events(&log, "load_plugin"),
        [
            "brush-v1.0.0.vpl",
            "brush-v3.0.0.vpl",
            "paint-v1.0.0.vpl",
            "brush-v2.0.0.vpl",
            "photoshop-v1.0.0.vpl"
        ]
    );
}

#[test]
fn load_only_used_plugins() {
    let log = new_log();
    let mut loader = loader_init(void_manager(&log));

    let mut paths = get_versions_path();
    paths.extend(get_tools_path());

    let bundles = loader.load_only_used_plugins(&paths).unwrap();

    bundles.iter().for_each(|bundle| println!("Plugin: {}", bundle.to_string()));
    assert_eq!(
        bundle_names(&bundles),
        ["brush-v2.0.0.vpl", "brush-v3.0.0.vpl", "paint-v1.0.0.vpl", "photoshop-v1.0.0.vpl"]
    );
    assert!(loader.get_plugin("brush", &v("1.0.0")).is_none());
    assert_eq!(events(&log, "unregister_plugin"), ["brush-v1.0.0.vpl"]);
    assert!(!events(&log, "load_plugin").contains(&"brush-v1.0.0.vpl".to_string()));

    loader.stop().unwrap();
}

#[test]
fn version_call_request() {
    let log = new_log();
    let mut loader = Loader::new();
    {
        let mut ctx = loader.context();
        ctx.register_request(Request::new(
            "echo",
            vec![VariableType::String],
            Some(VariableType::String),
        ));
        ctx.register_manager(function_manager(&log)).unwrap();
    }

    let paths: Vec<PluginPath> =
        ["1.0.0", "2.0.0"].iter().map(|version| get_plugin_path("function_plugin", version, "fpl")).collect();

    loader.load_plugins(&paths).unwrap();

    let outs = loader.call_request("echo", &["Hello world".to_string().into()]).unwrap();
    // Only the highest version of the plugin is asked.
    assert_eq!(outs.len(), 1);
    match outs.get(0).unwrap() {
        Err(e) => panic!("{:?}", e),
        Ok(Some(result)) => assert_eq!(result, &Variable::text("Hello world")),
        Ok(None) => panic!("Unexpected result"),
    };
}

// ---- the behaviour at the edges ----

#[test]
fn single_plugin_registration_and_load() {
    let log = new_log();
    let mut loader = loader_init(void_manager(&log));
    let bundle = loader.register_plugin(&get_plugin_path("void_plugin", "1.0.0", "vpl")).unwrap();
    loader.load_plugin("void_plugin", &v("1.0.0")).unwrap();
    assert!(loader.get_plugin("void_plugin", &v("1.0.0")).unwrap().is_load());
    loader.unload_plugin("void_plugin", &v("1.0.0")).unwrap();
    assert!(!loader.get_plugin("void_plugin", &v("1.0.0")).unwrap().is_load());
    loader.unregister_plugin("void_plugin", &v("1.0.0")).unwrap();
    assert!(loader.get_plugin("void_plugin", &v("1.0.0")).is_none());
    assert!(loader.get_plugin_by_bundle(&bundle).is_none());
    assert_eq!(
        *log.lock().unwrap(),
        [
            "register_manager vpl",
            "register_plugin void_plugin-v1.0.0.vpl",
            "load_plugin void_plugin-v1.0.0.vpl",
            "unload_plugin void_plugin-v1.0.0.vpl",
            "unregister_plugin void_plugin-v1.0.0.vpl"
        ]
    );
}

fn chain_scripts() -> Vec<Script> {
    let mut b = script("b");
    b.depends = vec![("a", "^1")];
    let mut c = script("c");
    c.depends = vec![("b", "^1")];
    c.optional = vec![("a", "^1")];
    let mut x = script("x");
    x.depends = vec![("y", "^1")];
    let mut y = script("y");
    y.depends = vec![("z", "^1")];
    let mut needy = script("needy");
    needy.depends = vec![("missing", "^1"), ("a", "^1"), ("gone", ">=2")];
    let mut easy = script("easy");
    easy.optional = vec![("missing", "^1")];
    let mut selfish = script("selfish");
    selfish.depends = vec![("selfish", "*")];
    let mut ping = script("ping");
    ping.depends = vec![("pong", "*")];
    let mut pong = script("pong");
    pong.depends = vec![("ping", "*")];
    vec![script("a"), b, c, x, y, script("z"), needy, easy, selfish, ping, pong]
}

#[test]
fn dependency_resolution() {
    let log = new_log();
    let mut loader = loader_init(TableManager::new("vpl", chain_scripts(), &log));
    for id in ["c", "b", "a"] {
        loader.register_plugin(&get_plugin_path(id, "1.0.0", "vpl")).unwrap();
    }
    loader.load_plugin("c", &v("1.0.0")).unwrap();
    for id in ["a", "b", "c"] {
        assert!(is_loaded(&loader, id, "1.0.0"));
    }
    assert_eq!(events(&log, "load_plugin"), ["a-v1.0.0.vpl", "b-v1.0.0.vpl", "c-v1.0.0.vpl"]);
    match loader.unload_plugin("a", &v("1.0.0")) {
        Err(UnloadPluginError::CurrentlyUsesDepend { plugin, depend }) => {
            // c stands first in the list and uses a through its optional dependency.
            assert_eq!(plugin.to_string(), "c-v1.0.0.vpl");
            assert_eq!(depend.to_string(), "a-v1.0.0.vpl");
        },
        other => panic!("{other:?}"),
    }
    loader.unload_plugin("c", &v("1.0.0")).unwrap();
    match loader.unload_plugin("a", &v("1.0.0")) {
        Err(UnloadPluginError::CurrentlyUsesDepend { plugin, depend }) => {
            assert_eq!(plugin.to_string(), "b-v1.0.0.vpl");
            assert_eq!(depend.to_string(), "a-v1.0.0.vpl");
        },
        other => panic!("{other:?}"),
    }
    assert!(is_loaded(&loader, "a", "1.0.0"));
    loader.unload_plugin("b", &v("1.0.0")).unwrap();
    loader.unload_plugin("a", &v("1.0.0")).unwrap();
    assert!(!is_loaded(&loader, "a", "1.0.0"));
}

#[test]
fn higher_version_supersession() {
    let log = new_log();
    let mut loader = loader_init(void_manager(&log));
    let paths = vec![
        get_plugin_path("brush", "1.0.0", "vpl"),
        get_plugin_path("brush", "2.0.0", "vpl"),
        get_plugin_path("paint", "1.0.0", "vpl"),
    ];
    let bundles = loader.load_only_used_plugins(&paths).unwrap();
    assert_eq!(bundle_names(&bundles), ["brush-v2.0.0.vpl", "paint-v1.0.0.vpl"]);
    assert_eq!(events(&log, "load_plugin"), ["brush-v2.0.0.vpl", "paint-v1.0.0.vpl"]);
    assert!(loader.get_plugin("brush", &v("1.0.0")).is_none());
    assert!(is_loaded(&loader, "brush", "2.0.0"));
    assert!(is_loaded(&loader, "paint", "1.0.0"));
}

#[test]
fn a_caret_requirement_keeps_to_its_major_version() {
    let log = new_log();
    let mut scripts = void_scripts();
    scripts.iter_mut().find(|s| s.id == "paint").unwrap().depends = vec![("brush", "^1")];
    let mut loader = loader_init(TableManager::new("vpl", scripts, &log));
    for (id, version) in [("brush", "1.0.0"), ("brush", "1.4.0"), ("brush", "2.0.0"), ("paint", "1.0.0")] {
        loader.register_plugin(&get_plugin_path(id, version, "vpl")).unwrap();
    }
    loader.load_plugin("paint", &v("1.0.0")).unwrap();
    assert!(!is_loaded(&loader, "brush", "1.0.0"));
    assert!(is_loaded(&loader, "brush", "1.4.0"));
    assert!(!is_loaded(&loader, "brush", "2.0.0"));
}

#[test]
fn request_signature_check() {
    let log = new_log();
    let mut scripts = function_scripts();
    scripts[0].answers = vec![(
        "echo",
        vec![VariableType::String],
        Some(VariableType::signed(VariableSignedIntType::I32)),
    )];
    let mut loader = Loader::new();
    {
        let mut ctx = loader.context();
        ctx.register_request(Request::new(
            "echo",
            vec![VariableType::String],
            Some(VariableType::String),
        ));
        ctx.register_manager(TableManager::new("fpl", scripts, &log)).unwrap();
    }
    // The manager hands the refusal of the function on as its own failure.
    match loader.load_plugin_now(&get_plugin_path("function_plugin", "1.0.0", "fpl")) {
        Err((None, Some(LoadPluginError::LoadPluginByManager(e)))) => {
            assert_eq!(e.message, "ArgumentsIncorrectly");
        },
        other => panic!("{other:?}"),
    }
    assert!(!is_loaded(&loader, "function_plugin", "1.0.0"));
}

/// A manager that ignores what `register_request` says.
struct CarelessManager;

impl Manager<FunctionOutput, StdInfo> for CarelessManager {
    fn format(&self) -> &'static str {
        "cpl"
    }

    fn register_manager(&mut self) -> ManagerResult<()> {
        Ok(())
    }

    fn unregister_manager(&mut self) -> ManagerResult<()> {
        Ok(())
    }

    fn register_plugin(&mut self, _: RegisterPluginContext<'_>) -> ManagerResult<StdInfo> {
        Ok(StdInfo::new())
    }

    fn unregister_plugin(&mut self, _: &Plugin<FunctionOutput, StdInfo>) -> ManagerResult<()> {
        Ok(())
    }

    fn load_plugin(
        &mut self,
        mut context: LoadPluginContext<'_, FunctionOutput, StdInfo>,
        _: Api<'_, FunctionOutput, StdInfo>,
    ) -> ManagerResult<()> {
        let wrong = echo_function(
            "echo",
            vec![VariableType::String],
            Some(VariableType::signed(VariableSignedIntType::I32)),
            "careless".to_string(),
        );
        assert_eq!(context.register_request(wrong), Err(RegisterRequestError::ArgumentsIncorrectly));
        let unknown = echo_function("shout", vec![], None, "careless".to_string());
        assert_eq!(context.register_request(unknown), Err(RegisterRequestError::NotFound));
        let fine = echo_function("ping", vec![VariableType::Bool, VariableType::Let], None, "x".to_string());
        assert_eq!(context.register_request(fine), Ok(()));
        assert_eq!(context.registered_requests().len(), 1);
        assert_eq!(context.requests().len(), 3);
        let offered = echo_function("draw", vec![], None, "x".to_string());
        assert_eq!(context.register_function(offered), Ok(()));
        let again = echo_function("draw", vec![VariableType::Bool], None, "x".to_string());
        assert_eq!(
            context.register_function(again),
            Err(PluginRegisterFunctionError::AlreadyExists("draw".to_string()))
        );
        Ok(())
    }

    fn unload_plugin(&mut self, _: &Plugin<FunctionOutput, StdInfo>) -> ManagerResult<()> {
        Ok(())
    }
}

#[test]
fn requests_that_are_not_answered_are_reported() {
    let mut loader = Loader::new();
    {
        let mut ctx = loader.context();
        ctx.register_requests(vec![
            Request::new("echo", vec![VariableType::String], Some(VariableType::String)),
            Request::new("ping", vec![VariableType::Bool], None),
            Request::new("last", vec![], None),
        ]);
        ctx.register_manager(CarelessManager).unwrap();
    }
    match loader.load_plugin_now(&get_plugin_path("careless", "0.1.0", "cpl")) {
        Err((None, Some(LoadPluginError::RequestsNotFound(names)))) => {
            assert_eq!(names, ["echo", "last"]);
        },
        other => panic!("{other:?}"),
    }
    let plugin = loader.get_plugin("careless", &v("0.1.0")).unwrap();
    assert!(!plugin.is_load());
    assert_eq!(plugin.get_requests().len(), 1);
    assert_eq!(plugin.get_registry().len(), 1);
    assert!(matches!(plugin.call_request("echo", &[]), Err(PluginCallRequestError::NotFound)));
    assert!(matches!(loader.call_request("echo", &[]), Err(PluginCallRequestError::NotFound)));
    assert_eq!(loader.call_request("ping", &[]).unwrap(), vec![Ok(None)]);
}

#[test]
fn call_fan_out() {
    let log = new_log();
    let mut loader = Loader::new();
    {
        let mut ctx = loader.context();
        ctx.register_request(Request::new("main", vec![], Some(VariableType::String)));
        let mut one = script("one");
        one.answers = vec![("main", vec![], Some(VariableType::String))];
        let mut two = script("two");
        two.answers = vec![("main", vec![], Some(VariableType::String))];
        ctx.register_manager(TableManager::new("fpl", vec![one, two], &log)).unwrap();
    }
    loader
        .load_plugins(&vec![get_plugin_path("two", "1.0.0", "fpl"), get_plugin_path("one", "1.0.0", "fpl")])
        .unwrap();
    let expected = vec![Ok(Some(Variable::text("two"))), Ok(Some(Variable::text("one")))];
    assert_eq!(loader.call_request("main", &[]).unwrap(), expected);
    assert_eq!(loader.par_call_request("main", &[]).unwrap(), expected);
}

#[test]
fn teardown_ordering() {
    let log = new_log();
    let mut loader = loader_init(TableManager::new("vpl", chain_scripts(), &log));
    let paths: Vec<PluginPath> = ["x", "y", "z"].iter().map(|id| get_plugin_path(id, "1.0.0", "vpl")).collect();
    loader.load_plugins(&paths).unwrap();
    assert_eq!(events(&log, "load_plugin"), ["z-v1.0.0.vpl", "y-v1.0.0.vpl", "x-v1.0.0.vpl"]);
    loader.stop().unwrap();
    let all = log.lock().unwrap().clone();
    let teardown: Vec<&str> = all.iter().skip_while(|l| !l.starts_with("unload")).map(|l| l.as_str()).collect();
    assert_eq!(
        teardown,
        [
            "unload_plugin x-v1.0.0.vpl",
            "unload_plugin y-v1.0.0.vpl",
            "unload_plugin z-v1.0.0.vpl",
            "unregister_plugin x-v1.0.0.vpl",
            "unregister_plugin y-v1.0.0.vpl",
            "unregister_plugin z-v1.0.0.vpl",
            "unregister_manager vpl"
        ]
    );
}

#[test]
fn teardown_ordering_does_not_follow_the_registration() {
    let log = new_log();
    let mut loader = loader_init(TableManager::new("vpl", chain_scripts(), &log));
    let paths: Vec<PluginPath> = ["z", "y", "x"].iter().map(|id| get_plugin_path(id, "1.0.0", "vpl")).collect();
    loader.load_plugins(&paths).unwrap();
    loader.unregister_manager("vpl").unwrap();
    assert_eq!(events(&log, "unload_plugin"), ["x-v1.0.0.vpl", "y-v1.0.0.vpl", "z-v1.0.0.vpl"]);
    assert_eq!(events(&log, "unregister_plugin"), ["x-v1.0.0.vpl", "y-v1.0.0.vpl", "z-v1.0.0.vpl"]);
    assert!(loader.get_plugins().is_empty());
    assert!(loader.get_manager_ref("vpl").is_none());
}

#[test]
fn path_without_extension() {
    let log = new_log();
    let mut loader = loader_init(void_manager(&log));
    for path in [
        PluginPath::new("plugins/void_plugin", true, Some("void_plugin".to_string())),
        PluginPath::new("plugins/.hidden", true, Some(".hidden".to_string())),
        PluginPath::new("..", true, None),
    ] {
        match loader.register_plugin(&path) {
            Err(RegisterPluginError::UnknownManagerFormat(format)) => assert_eq!(format, ""),
            other => panic!("{other:?}"),
        }
    }
    assert!(loader.get_plugins().is_empty());
    assert_eq!(events(&log, "register_plugin").len(), 0);
}

#[test]
fn unknown_extension() {
    let log = new_log();
    let mut loader = loader_init(void_manager(&log));
    match loader.register_plugin(&get_plugin_path("void_plugin", "1.0.0", "lua")) {
        Err(RegisterPluginError::UnknownManagerFormat(format)) => assert_eq!(format, "lua"),
        other => panic!("{other:?}"),
    }
    assert!(loader.get_plugins().is_empty());
}

#[test]
fn path_that_is_no_directory() {
    let log = new_log();
    let mut loader = loader_init(void_manager(&log));
    let path = PluginPath::new("void_plugin-v1.0.0.vpl", false, Some("void_plugin-v1.0.0.vpl".to_string()));
    assert!(matches!(loader.register_plugin(&path), Err(RegisterPluginError::NotFound)));
}

#[test]
fn name_that_is_no_bundle() {
    let log = new_log();
    let mut loader = loader_init(void_manager(&log));
    let path = PluginPath::new("plugins/void.vpl", true, Some("void.vpl".to_string()));
    assert!(matches!(
        loader.register_plugin(&path),
        Err(RegisterPluginError::BundleFromFailed(plux_rs::utils::error::BundleFromError::VersionFailed))
    ));
}

#[test]
fn the_same_id_and_version_twice() {
    let log = new_log();
    let mut loader = Loader::new();
    {
        let mut ctx = loader.context();
        ctx.register_manager(void_manager(&log)).unwrap();
        ctx.register_manager(TableManager::new("fpl", void_scripts(), &log)).unwrap();
    }
    loader.register_plugin(&get_plugin_path("void_plugin", "1.0.0", "vpl")).unwrap();
    match loader.register_plugin(&get_plugin_path("other/void_plugin", "1.0.0", "fpl")) {
        Err(RegisterPluginError::AlreadyExistsIDAndVersion(id, version)) => {
            assert_eq!(id, "void_plugin");
            assert_eq!(version, v("1.0.0"));
        },
        other => panic!("{other:?}"),
    }
    loader.register_plugin(&get_plugin_path("void_plugin", "1.0.1", "vpl")).unwrap();
    assert_eq!(loader.get_plugins_by_id("void_plugin").len(), 2);
    assert_eq!(loader.par_get_plugins_by_id("void_plugin").len(), 2);
    assert_eq!(loader.get_plugins_by_id("void").len(), 0);
}

#[test]
fn the_manager_refuses_the_plugin() {
    let log = new_log();
    let mut loader = loader_init(void_manager(&log));
    match loader.register_plugin(&get_plugin_path("stranger", "1.0.0", "vpl")) {
        Err(RegisterPluginError::RegisterPluginByManager(e)) => {
            assert_eq!(e.message, "Does not contain config");
        },
        other => panic!("{other:?}"),
    }
    assert!(loader.get_plugins().is_empty());
}

#[test]
fn the_same_format_twice() {
    let log = new_log();
    let mut loader = loader_init(void_manager(&log));
    match loader.register_manager(void_manager(&log)) {
        Err(RegisterManagerError::AlreadyOccupiedFormat(format)) => assert_eq!(format, "vpl"),
        other => panic!("{other:?}"),
    }
    assert_eq!(events(&log, "register_manager"), ["vpl"]);
    let failing = TableManager::failing("xpl", vec![], &log, vec!["register_manager"]);
    assert!(matches!(
        loader.register_manager(failing),
        Err(RegisterManagerError::RegisterManagerByManager(_))
    ));
    assert!(loader.get_manager_ref("xpl").is_none());
    let more: Vec<ManagerBox<FunctionOutput, StdInfo>> = vec![
        ManagerBox { manager: Box::new(TableManager::new("apl", vec![], &log)) },
        ManagerBox { manager: Box::new(TableManager::new("vpl", vec![], &log)) },
        ManagerBox { manager: Box::new(TableManager::new("bpl", vec![], &log)) },
    ];
    assert!(matches!(
        loader.register_managers(more),
        Err(RegisterManagerError::AlreadyOccupiedFormat(_))
    ));
    assert!(loader.get_manager_ref("apl").is_some());
    assert!(loader.get_manager_ref("bpl").is_none());
    assert!(matches!(loader.unregister_manager("bpl"), Err(UnregisterManagerError::NotFound)));
}

#[test]
fn missing_dependencies() {
    let log = new_log();
    let mut loader = loader_init(TableManager::new("vpl", chain_scripts(), &log));
    for id in ["needy", "easy", "a"] {
        loader.register_plugin(&get_plugin_path(id, "1.0.0", "vpl")).unwrap();
    }
    match loader.load_plugin("needy", &v("1.0.0")) {
        Err(LoadPluginError::NotFoundDependencies(missing)) => {
            let names: Vec<String> = missing.iter().map(|d| d.to_string()).collect();
            assert_eq!(names, ["missing[^1]", "gone[>=2]"]);
        },
        other => panic!("{other:?}"),
    }
    assert!(!is_loaded(&loader, "needy", "1.0.0"));
    // The dependency that was found is loaded all the same.
    assert!(is_loaded(&loader, "a", "1.0.0"));
    loader.load_plugin("easy", &v("1.0.0")).unwrap();
    assert!(is_loaded(&loader, "easy", "1.0.0"));
}

#[test]
fn a_plugin_that_needs_itself_cannot_be_loaded() {
    let log = new_log();
    let mut loader = loader_init(TableManager::new("vpl", chain_scripts(), &log));
    for id in ["selfish", "ping", "pong"] {
        loader.register_plugin(&get_plugin_path(id, "1.0.0", "vpl")).unwrap();
    }
    match loader.load_plugin("selfish", &v("1.0.0")) {
        Err(LoadPluginError::NotFoundDependencies(missing)) => {
            assert_eq!(missing.len(), 1);
            assert_eq!(missing[0].to_string(), "selfish[*]");
        },
        other => panic!("{other:?}"),
    }
    match loader.load_plugin("ping", &v("1.0.0")) {
        Err(LoadPluginError::LoadDependency { depend, error }) => {
            assert_eq!(depend.to_string(), "pong[*]");
            assert!(matches!(*error, LoadPluginError::NotFoundDependencies(_)));
        },
        other => panic!("{other:?}"),
    }
    for plugin in loader.get_plugins() {
        assert!(!plugin.is_load());
    }
    assert!(events(&log, "load_plugin").is_empty());
}

#[test]
fn unload_with_a_higher_version_loaded() {
    let log = new_log();
    let mut loader = loader_init(void_manager(&log));
    for (id, version) in [("brush", "1.0.0"), ("paint", "1.0.0")] {
        loader.register_plugin(&get_plugin_path(id, version, "vpl")).unwrap();
    }
    loader.load_plugin("paint", &v("1.0.0")).unwrap();
    assert!(is_loaded(&loader, "brush", "1.0.0"));
    loader.register_plugin(&get_plugin_path("brush", "2.0.0", "vpl")).unwrap();
    // A higher version is registered but not loaded: the old one is still in use.
    assert!(matches!(
        loader.unload_plugin("brush", &v("1.0.0")),
        Err(UnloadPluginError::CurrentlyUsesDepend { .. })
    ));
    loader.load_plugin("brush", &v("2.0.0")).unwrap();
    loader.unload_plugin("brush", &v("1.0.0")).unwrap();
    assert!(!is_loaded(&loader, "brush", "1.0.0"));
    assert!(matches!(
        loader.unload_plugin("brush", &v("2.0.0")),
        Err(UnloadPluginError::CurrentlyUsesDepend { .. })
    ));
    assert!(matches!(
        loader.unregister_plugin("brush", &v("2.0.0")),
        Err(UnregisterPluginError::UnloadError(UnloadPluginError::CurrentlyUsesDepend { .. }))
    ));
}

#[test]
fn load_is_idempotent() {
    let log = new_log();
    let mut loader = loader_init(void_manager(&log));
    loader.load_plugins(&get_dependencys_path()).unwrap();
    let before = log.lock().unwrap().len();
    for path in ["dep_1", "dep_2", "dep_3", "dep_4"] {
        loader.load_plugin(path, &v("1.0.0")).unwrap();
        loader.par_load_plugin(path, &v("1.0.0")).unwrap();
        assert!(is_loaded(&loader, path, "1.0.0"));
    }
    assert_eq!(log.lock().unwrap().len(), before);
}

#[test]
fn unload_is_idempotent() {
    let log = new_log();
    let mut loader = loader_init(void_manager(&log));
    let bundle = loader.register_plugin(&get_plugin_path("dep_1", "1.0.0", "vpl")).unwrap();
    let before = log.lock().unwrap().len();
    loader.unload_plugin("dep_1", &v("1.0.0")).unwrap();
    loader.unload_plugin_by_bundle(&bundle).unwrap();
    loader.par_unload_plugin("dep_1", &v("1.0.0")).unwrap();
    loader.par_unload_plugin_by_bundle(&bundle).unwrap();
    assert_eq!(log.lock().unwrap().len(), before);
    assert!(!is_loaded(&loader, "dep_1", "1.0.0"));
}

#[test]
fn register_and_unregister_give_the_engine_back() {
    let log = new_log();
    let mut loader = loader_init(void_manager(&log));
    loader.load_plugins(&get_dependencys_path()).unwrap();
    let before: Vec<(String, bool)> =
        loader.get_plugins().iter().map(|p| (p.info().bundle.to_string(), p.is_load())).collect();
    let bundle = loader.register_plugin(&get_plugin_path("void_plugin", "1.0.0", "vpl")).unwrap();
    assert_eq!(loader.get_plugins().len(), before.len() + 1);
    loader.unregister_plugin_by_bundle(&bundle).unwrap();
    let after: Vec<(String, bool)> =
        loader.get_plugins().iter().map(|p| (p.info().bundle.to_string(), p.is_load())).collect();
    assert_eq!(after, before);
    assert!(loader.get_manager_ref("vpl").is_some());
}

#[test]
fn names_that_do_not_exist() {
    let log = new_log();
    let mut loader = loader_init(void_manager(&log));
    let nobody = Bundle { id: "nobody".to_string(), version: v("1.0.0"), format: "vpl".to_string() };
    assert!(matches!(loader.load_plugin("nobody", &v("1.0.0")), Err(LoadPluginError::NotFound)));
    assert!(matches!(loader.load_plugin_by_bundle(&nobody), Err(LoadPluginError::NotFound)));
    assert!(matches!(loader.par_load_plugin_by_bundle(&nobody), Err(LoadPluginError::NotFound)));
    assert!(matches!(loader.unload_plugin("nobody", &v("1.0.0")), Err(UnloadPluginError::NotFound)));
    assert!(matches!(
        loader.unregister_plugin("nobody", &v("1.0.0")),
        Err(UnregisterPluginError::NotFound)
    ));
    assert!(matches!(
        loader.par_unregister_plugin_by_bundle(&nobody),
        Err(UnregisterPluginError::NotFound)
    ));
    assert!(loader.get_plugin_mut("nobody", &v("1.0.0")).is_none());
    assert!(loader.par_get_plugin("nobody", &v("1.0.0")).is_none());
    assert!(loader.par_get_plugin_by_bundle(&nobody).is_none());
    assert!(loader.get_manager_mut("lua").is_none());
}

#[test]
fn hooks_that_fail() {
    let log = new_log();
    let failing = TableManager::failing(
        "vpl",
        void_scripts(),
        &log,
        vec!["load_plugin", "unload_plugin", "unregister_plugin", "unregister_manager"],
    );
    let mut loader = loader_init(failing);
    loader.register_plugin(&get_plugin_path("dep_1", "1.0.0", "vpl")).unwrap();
    loader.register_plugin(&get_plugin_path("dep_2", "1.0.0", "vpl")).unwrap();
    match loader.load_plugin("dep_2", &v("1.0.0")) {
        Err(LoadPluginError::LoadDependency { depend, error }) => {
            assert_eq!(depend.to_string(), "dep_1[^1]");
            assert!(matches!(*error, LoadPluginError::LoadPluginByManager(_)));
        },
        other => panic!("{other:?}"),
    }
    assert!(!is_loaded(&loader, "dep_1", "1.0.0"));
    assert!(!is_loaded(&loader, "dep_2", "1.0.0"));
    // The record goes even where the manager fails to unregister the plugin.
    assert!(matches!(
        loader.unregister_plugin("dep_2", &v("1.0.0")),
        Err(UnregisterPluginError::UnregisterPluginByManager(_))
    ));
    assert!(loader.get_plugin("dep_2", &v("1.0.0")).is_none());
    match loader.stop() {
        Err(StopLoaderError::UnregisterPluginFailed(errors)) => assert_eq!(errors.len(), 1),
        other => panic!("{other:?}"),
    }
    // No plugin is left, so the manager goes too, though its hook fails.
    assert!(loader.get_plugins().is_empty());
    assert!(loader.get_manager_ref("vpl").is_none());
    assert_eq!(events(&log, "unregister_manager"), ["vpl"]);
    loader.stop().unwrap();
}

#[test]
fn a_manager_that_fails_to_unload_and_to_leave() {
    let log = new_log();
    let failing =
        TableManager::failing("vpl", void_scripts(), &log, vec!["unload_plugin", "unregister_manager"]);
    let mut loader = loader_init(failing);
    loader.load_plugin_now(&get_plugin_path("dep_1", "1.0.0", "vpl")).unwrap();
    assert!(matches!(
        loader.unload_plugin("dep_1", &v("1.0.0")),
        Err(UnloadPluginError::UnloadPluginByManager(_))
    ));
    assert!(is_loaded(&loader, "dep_1", "1.0.0"));
    assert!(matches!(
        loader.unregister_plugin("dep_1", &v("1.0.0")),
        Err(UnregisterPluginError::UnloadError(UnloadPluginError::UnloadPluginByManager(_)))
    ));
    assert!(matches!(
        loader.unregister_manager("vpl"),
        Err(UnregisterManagerError::UnregisterPlugin(UnregisterPluginError::UnloadError(_)))
    ));
    assert!(loader.get_manager_ref("vpl").is_some());
    loader.forced_unload_plugin(0).unwrap_err();
    match loader.stop() {
        Err(StopLoaderError::UnregisterPluginFailed(errors)) => {
            assert!(matches!(errors[0], UnregisterPluginError::UnloadError(_)));
        },
        other => panic!("{other:?}"),
    }
    assert_eq!(loader.get_plugins().len(), 1);

    let other_log = new_log();
    let leaving = TableManager::failing("vpl", void_scripts(), &other_log, vec!["unregister_manager"]);
    let mut loader = loader_init(leaving);
    loader.load_plugin_now(&get_plugin_path("dep_1", "1.0.0", "vpl")).unwrap();
    assert!(matches!(
        loader.unregister_manager("vpl"),
        Err(UnregisterManagerError::UnregisterManagerByManager(_))
    ));
    // The manager and its plugins are gone all the same.
    assert!(loader.get_manager_ref("vpl").is_none());
    assert!(loader.get_plugins().is_empty());
    assert_eq!(events(&other_log, "unload_plugin"), ["dep_1-v1.0.0.vpl"]);
}

#[test]
fn parallel_variants_do_what_the_sequential_ones_do() {
    let log = new_log();
    let mut loader = loader_init(void_manager(&log));
    let mut paths = get_versions_path();
    paths.extend(get_tools_path());
    let bundles = loader.par_load_only_used_plugins(&paths).unwrap();
    assert_eq!(
        bundle_names(&bundles),
        ["brush-v2.0.0.vpl", "brush-v3.0.0.vpl", "paint-v1.0.0.vpl", "photoshop-v1.0.0.vpl"]
    );
    let more = loader.par_load_plugins(&get_dependencys_path()).unwrap();
    assert_eq!(more.len(), 4);
    assert_eq!(loader.par_get_plugin("dep_4", &v("1.0.0")).unwrap().info().bundle, more[3]);
    let registered = loader.par_register_plugins(&vec![
        get_plugin_path("void_plugin", "1.0.0", "vpl"),
        get_plugin_path("void_plugin", "1.0.0", "vpl"),
    ]);
    assert!(matches!(registered, Err(RegisterPluginError::AlreadyExistsIDAndVersion(_, _))));
    assert!(loader.get_plugin("void_plugin", &v("1.0.0")).is_some());
    let both = loader.register_plugins(&vec![
        get_plugin_path("void_plugin", "2.0.0", "vpl"),
        get_plugin_path("nameless", "1.0.0", "zzz"),
    ]);
    assert!(matches!(both, Err(RegisterPluginError::UnknownManagerFormat(_))));
    assert!(loader.get_plugin("void_plugin", &v("2.0.0")).is_some());
    match loader.load_plugins(&vec![get_plugin_path("stranger", "1.0.0", "vpl")]) {
        Err((Some(RegisterPluginError::RegisterPluginByManager(_)), None)) => {},
        other => panic!("{other:?}"),
    }
}

#[test]
fn functions_of_a_plugin_are_registered_once_by_name() {
    let log = new_log();
    let mut loader = loader_init(void_manager(&log));
    loader.register_plugin(&get_plugin_path("void_plugin", "1.0.0", "vpl")).unwrap();
    let plugin = loader.get_plugin_mut("void_plugin", &v("1.0.0")).unwrap();
    plugin.register_function(add()).unwrap();
    assert_eq!(
        plugin.register_function(add()),
        Err(PluginRegisterFunctionError::AlreadyExists("add".to_string()))
    );
    plugin.register_function(sub()).unwrap();
    assert_eq!(plugin.get_registry().len(), 2);
    let out = plugin.call_function("sub", &[5.into(), 7.into()]).unwrap();
    assert_eq!(out, Ok(Some(Variable::I32(-2))));
    assert!(matches!(plugin.call_function("mul", &[]), Err(PluginCallFunctionError::NotFound)));
}

/// A manager that asks the handle of the engine about its dependencies.
struct CuriousManager {
    seen: Log,
}

impl Manager<FunctionOutput, StdInfo> for CuriousManager {
    fn format(&self) -> &'static str {
        "qpl"
    }

    fn register_manager(&mut self) -> ManagerResult<()> {
        Ok(())
    }

    fn unregister_manager(&mut self) -> ManagerResult<()> {
        Ok(())
    }

    fn register_plugin(&mut self, context: RegisterPluginContext<'_>) -> ManagerResult<StdInfo> {
        let mut info = StdInfo::new();
        if context.bundle.id == "asker" {
            info.depends = depends_of(&[("giver", "^1")]);
            info.optional_depends = depends_of(&[("helper", "^1"), ("absent", "^1")]);
        }
        Ok(info)
    }

    fn unregister_plugin(&mut self, _: &Plugin<FunctionOutput, StdInfo>) -> ManagerResult<()> {
        Ok(())
    }

    fn load_plugin(
        &mut self,
        mut context: LoadPluginContext<'_, FunctionOutput, StdInfo>,
        api: Api<'_, FunctionOutput, StdInfo>,
    ) -> ManagerResult<()> {
        let me = api.plugin().id.clone();
        if me != "asker" {
            context.register_function(echo_function("name", vec![], Some(VariableType::String), me)).unwrap();
            return Ok(());
        }
        let one = Version::new(1, 0, 0);
        let mut seen = self.seen.lock().unwrap();
        seen.push(format!("depends {:?}", bundle_names(api.depends())));
        seen.push(format!("optional {:?}", bundle_names(api.optional_depends())));
        seen.push(format!("registry {}", api.registry().len()));
        seen.push(format!("plugins {}", api.get_plugins().len()));
        assert_eq!(
            api.call_function_depend("giver", &one, "name", &[]).unwrap(),
            Ok(Some(Variable::text("giver")))
        );
        assert!(matches!(
            api.call_function_depend("giver", &one, "age", &[]),
            Err(CallFunctionDependError::FailedCallFunction(PluginCallFunctionError::NotFound))
        ));
        assert!(matches!(
            api.call_function_depend("helper", &one, "name", &[]),
            Err(CallFunctionDependError::DependNotFound)
        ));
        assert_eq!(
            api.call_function_optional_depend("helper", &one, "name", &[]).unwrap(),
            Some(Ok(Some(Variable::text("helper"))))
        );
        assert!(api.call_function_optional_depend("absent", &one, "name", &[]).unwrap().is_none());
        assert!(api.call_function_optional_depend("giver", &one, "name", &[]).unwrap().is_none());
        assert!(matches!(
            api.call_function_optional_depend("helper", &one, "age", &[]),
            Err(PluginCallFunctionError::NotFound)
        ));
        assert!(api.get_plugin("giver", &one).unwrap().is_load());
        assert!(!api.get_plugin_by_bundle(api.plugin()).unwrap().is_load());
        assert!(api.par_get_plugin("helper", &one).is_some());
        assert_eq!(api.get_plugins_by_id("giver").len(), 1);
        assert_eq!(api.par_get_plugins_by_id("nobody").len(), 0);
        assert!(api.get_requests().is_empty());
        assert_eq!(api.call_request("anything", &[]), Err(PluginCallRequestError::NotFound));
        Ok(())
    }

    fn unload_plugin(&mut self, _: &Plugin<FunctionOutput, StdInfo>) -> ManagerResult<()> {
        Ok(())
    }
}

#[test]
fn the_handle_of_the_engine_answers_during_the_load() {
    let seen = new_log();
    let mut loader = Loader::new();
    {
        let mut ctx = loader.context();
        ctx.register_function(add());
        ctx.register_manager(CuriousManager { seen: seen.clone() }).unwrap();
    }
    for id in ["helper", "asker", "giver"] {
        loader.register_plugin(&get_plugin_path(id, "1.0.0", "qpl")).unwrap();
    }
    loader.load_plugin("asker", &v("1.0.0")).unwrap();
    assert_eq!(
        *seen.lock().unwrap(),
        [
            "depends [\"giver-v1.0.0.qpl\"]",
            "optional [\"helper-v1.0.0.qpl\"]",
            "registry 1",
            "plugins 3"
        ]
    );
}

#[test]
fn function_call() {
    // Creating a function
    let i32_type = VariableType::signed(VariableSignedIntType::I32);
    let func = DynamicFunction::new(
        "add",
        vec![Arg::new("a", i32_type), Arg::new("b", i32_type)],
        Some(Arg::new("c", i32_type)),
        |args: &[Variable]| -> FunctionOutput {
            let a = args[0].parse_ref::<i32>();
            let b = args[1].parse_ref::<i32>();

            let c = a + b;

            println!("{} + {} = {}", a, b, c);

            Ok(Some(c.into()))
        },
    );

    // Running the function
    let c = func.call(&[1.into(), 2.into()]);

    assert!(c.is_ok());
    assert_eq!(c.unwrap(), Some(3.into()));
    assert_eq!(func.name(), "add");
    assert_eq!(func.inputs(), vec![Arg::new("a", i32_type), Arg::new("b", i32_type)]);
    assert_eq!(func.output(), Some(Arg::new("c", i32_type)));
}

#[test]
fn parallel_call() {
    // Creating a function
    let func = DynamicFunction::new(
        "log",
        vec![Arg::new("n", VariableType::signed(VariableSignedIntType::I32))],
        None,
        |args: &[Variable]| -> FunctionOutput {
            let n = args[0].parse_ref::<i32>();

            println!("Step {n}");

            Ok(None)
        },
    );

    // Calling the function in multiple threads
    let func = Arc::new(func);

    (0..10).into_par_iter().for_each(|i: i32| {
        let result = func.call(&[i.into()]);

        assert!(result.is_ok());
        assert_eq!(result.unwrap(), None);
    });
}

#[test]
fn a_function_that_fails() {
    let func = DynamicFunction::new("fail", vec![], None, |_: &[Variable]| -> FunctionOutput {
        Err(FunctionError::new("no".to_string()))
    });
    assert_eq!(func.call(&[]), Err(FunctionError::new("no".to_string())));
}

#[test]
fn a_slot_hands_out_the_manager_that_it_holds() {
    let log = new_log();
    let mut loader = loader_init(void_manager(&log));
    LoaderContext::new(&mut loader).register_manager(function_manager(&log)).unwrap();

    assert_eq!(loader.get_manager_ref("fpl").unwrap().manager().format(), "fpl");
    assert_eq!(loader.get_manager_ref("vpl").unwrap().manager().format(), "vpl");

    let before = events(&log, "register_manager").len();
    let slot = loader.get_manager_mut("fpl").unwrap();
    slot.manager_mut().register_manager().unwrap();
    assert_eq!(slot.format(), "fpl");
    let seen = events(&log, "register_manager");
    assert_eq!(seen.len(), before + 1);
    assert_eq!(seen[seen.len() - 1], "fpl");

    loader.stop().unwrap();
}

#[test]
fn a_list_changed_through_a_borrow_stays_in_the_variable() {
    let mut list = Variable::List(vec![Variable::I8(1)]);
    {
        let items = list.parse_mut::<Vec<Variable>>();
        assert_eq!(items.len(), 1);
        items.push(Variable::Bool(true));
    }
    assert_eq!(list, Variable::List(vec![Variable::I8(1), Variable::Bool(true)]));

    let mut number = Variable::I32(-4);
    match number.try_parse_mut::<i32>() {
        Ok(value) => {
            assert_eq!(*value, -4);
            *value = 9;
        }
        Err(_) => panic!("an i32 is held"),
    }
    assert_eq!(number, Variable::I32(9));
}

#[test]
fn stop_goes_on_after_a_plugin_that_cannot_be_unloaded() {
    let log = new_log();
    let stubborn = TableManager::failing("vpl", void_scripts(), &log, vec!["unload_plugin"]);
    let mut loader = loader_init(stubborn);
    LoaderContext::new(&mut loader)
        .register_manager(TableManager::new("apl", chain_scripts(), &log))
        .unwrap();
    loader.load_plugin_now(&get_plugin_path("dep_1", "1.0.0", "vpl")).unwrap();
    loader.load_plugin_now(&get_plugin_path("a", "1.0.0", "apl")).unwrap();
    loader.register_plugin(&get_plugin_path("dep_4", "1.0.0", "vpl")).unwrap();

    match loader.stop() {
        Err(StopLoaderError::UnregisterPluginFailed(errors)) => {
            assert_eq!(errors.len(), 1);
            assert!(matches!(
                errors[0],
                UnregisterPluginError::UnloadError(UnloadPluginError::UnloadPluginByManager(_))
            ));
        },
        other => panic!("{other:?}"),
    }
    // The plugin that could not be unloaded stays as it was; the others are gone.
    let left: Vec<String> = loader.get_plugins().iter().map(|p| p.info().bundle.to_string()).collect();
    assert_eq!(left, ["dep_1-v1.0.0.vpl"]);
    assert!(is_loaded(&loader, "dep_1", "1.0.0"));
    assert_eq!(events(&log, "unload_plugin"), ["dep_1-v1.0.0.vpl", "a-v1.0.0.apl"]);
    assert_eq!(events(&log, "unregister_plugin"), ["a-v1.0.0.apl", "dep_4-v1.0.0.vpl"]);
    // The managers stay with the plugin that is left.
    assert!(loader.get_manager_ref("vpl").is_some());
    assert!(loader.get_manager_ref("apl").is_some());
    assert_eq!(events(&log, "unregister_manager").len(), 0);
}

#[test]
fn stop_removes_the_records_in_the_order_of_the_unloads() {
    let log = new_log();
    let mut loader = loader_init(TableManager::new("vpl", chain_scripts(), &log));
    let paths: Vec<PluginPath> = ["z", "y", "x"].iter().map(|id| get_plugin_path(id, "1.0.0", "vpl")).collect();
    loader.load_plugins(&paths).unwrap();
    loader.stop().unwrap();
    let all = log.lock().unwrap().clone();
    let teardown: Vec<&str> = all.iter().skip_while(|l| !l.starts_with("unload")).map(|l| l.as_str()).collect();
    assert_eq!(
        teardown,
        [
            "unload_plugin x-v1.0.0.vpl",
            "unload_plugin y-v1.0.0.vpl",
            "unload_plugin z-v1.0.0.vpl",
            "unregister_plugin x-v1.0.0.vpl",
            "unregister_plugin y-v1.0.0.vpl",
            "unregister_plugin z-v1.0.0.vpl",
            "unregister_manager vpl"
        ]
    );
    // A stopped engine is stopped again without a hook being called.
    let calls = log.lock().unwrap().len();
    loader.stop().unwrap();
    assert_eq!(log.lock().unwrap().len(), calls);
}

#[test]
fn a_manager_is_added_under_the_format_that_it_reported() {
    let log = new_log();
    let mut loader = loader_init(void_manager(&log));
    let late = Box::new(TableManager::new("late", vec![], &log));
    match plux_rs::loader::register_manager_as(&mut loader, "vpl", late) {
        Err(RegisterManagerError::AlreadyOccupiedFormat(format)) => assert_eq!(format, "vpl"),
        other => panic!("{other:?}"),
    }
    // The hook of a manager that is refused is not called.
    assert_eq!(events(&log, "register_manager"), ["vpl"]);
    let next = Box::new(TableManager::new("next", vec![], &log));
    plux_rs::loader::register_manager_as(&mut loader, "xpl", next).unwrap();
    assert_eq!(loader.get_manager_ref("xpl").unwrap().format(), "xpl");
    assert!(loader.get_manager_ref("next").is_none());
    assert_eq!(events(&log, "register_manager"), ["vpl", "next"]);

    let refusing = TableManager::failing("rpl", vec![], &log, vec!["register_manager"]);
    assert!(matches!(
        loader.register_manager(refusing),
        Err(RegisterManagerError::RegisterManagerByManager(_))
    ));
    assert!(loader.get_manager_ref("rpl").is_none());
    loader.stop().unwrap();
}

#[test]
fn the_handle_lists_the_resolved_dependencies_by_their_marks() {
    let plugins: Vec<Plugin<FunctionOutput, StdInfo>> = vec![];
    let registry: Vec<FunctionBox<FunctionOutput>> = vec![];
    let requests: Vec<Request> = vec![];
    let found = vec![
        (Bundle::from_filename("b-v1.0.0.vpl").unwrap(), true),
        (Bundle::from_filename("a-v1.2.0.vpl").unwrap(), false),
        (Bundle::from_filename("c-v2.0.0.vpl").unwrap(), true),
    ];
    let me = Bundle::from_filename("me-v1.0.0.vpl").unwrap();
    let api = Api::new(&plugins, &registry, &requests, me, &found);
    assert_eq!(api.plugin().to_string(), "me-v1.0.0.vpl");
    assert_eq!(bundle_names(api.depends()), ["b-v1.0.0.vpl", "c-v2.0.0.vpl"]);
    assert_eq!(bundle_names(api.optional_depends()), ["a-v1.2.0.vpl"]);

    let none: Vec<(Bundle, bool)> = vec![];
    let api = Api::new(&plugins, &registry, &requests, Bundle::from_filename("me-v1.0.0.vpl").unwrap(), &none);
    assert!(api.depends().is_empty());
    assert!(api.optional_depends().is_empty());
}

#[test]
fn what_the_engine_makes_of_the_result_of_a_load_hook() {
    let log = new_log();
    let mut loader = loader_init(void_manager(&log));
    loader.register_plugin(&get_plugin_path("dep_1", "1.0.0", "vpl")).unwrap();

    // The hook failed: its error is handed on and the plugin stays unloaded.
    let failed = Err(ManagerError::new("no".to_string()));
    match plux_rs::load::settle_load(&mut loader, 0, failed) {
        Err(LoadPluginError::LoadPluginByManager(e)) => assert_eq!(e.message, "no"),
        other => panic!("{other:?}"),
    }
    assert!(!is_loaded(&loader, "dep_1", "1.0.0"));

    // The hook succeeded and there is no request to answer: the plugin is loaded.
    plux_rs::load::settle_load(&mut loader, 0, Ok(())).unwrap();
    assert!(is_loaded(&loader, "dep_1", "1.0.0"));
    loader.unload_plugin("dep_1", &v("1.0.0")).unwrap();

    // The hook succeeded, but the plugin leaves two requests unanswered.
    LoaderContext::new(&mut loader).register_request(Request::new("first", vec![], None));
    LoaderContext::new(&mut loader).register_request(Request::new("second", vec![], None));
    match plux_rs::load::settle_load(&mut loader, 0, Ok(())) {
        Err(LoadPluginError::RequestsNotFound(names)) => assert_eq!(names, ["first", "second"]),
        other => panic!("{other:?}"),
    }
    assert!(!is_loaded(&loader, "dep_1", "1.0.0"));
    loader.stop().unwrap();
}

#[test]
fn a_manager_without_plugins_is_removed_whatever_else_is_loaded() {
    let log = new_log();
    let stubborn = TableManager::failing("vpl", void_scripts(), &log, vec!["unload_plugin"]);
    let mut loader = loader_init(stubborn);
    LoaderContext::new(&mut loader)
        .register_manager(TableManager::new("apl", chain_scripts(), &log))
        .unwrap();
    loader.load_plugin_now(&get_plugin_path("dep_1", "1.0.0", "vpl")).unwrap();
    loader.unregister_manager("apl").unwrap();
    assert!(loader.get_manager_ref("apl").is_none());
    assert_eq!(loader.get_plugins().len(), 1);
    // The plugins of the other manager cannot be unloaded, so that one stays.
    match loader.unregister_manager("vpl") {
        Err(UnregisterManagerError::UnregisterPlugin(UnregisterPluginError::UnloadError(
            UnloadPluginError::UnloadPluginByManager(_),
        ))) => {},
        other => panic!("{other:?}"),
    }
    assert!(loader.get_manager_ref("vpl").is_some());
    assert!(is_loaded(&loader, "dep_1", "1.0.0"));
}

#[test]
fn a_manager_whose_plugin_another_manager_uses_is_not_removed() {
    let log = new_log();
    let mut loader = loader_init(void_manager(&log));
    LoaderContext::new(&mut loader).register_manager(function_manager(&log)).unwrap();
    loader.load_plugin_now(&get_plugin_path("function_plugin", "1.0.0", "fpl")).unwrap();
    loader.load_plugin_now(&get_plugin_path("plugin_for_manager", "1.0.0", "vpl")).unwrap();

    match loader.unregister_manager("fpl") {
        Err(UnregisterManagerError::UnregisterPlugin(UnregisterPluginError::UnloadError(
            UnloadPluginError::CurrentlyUsesDepend { plugin, depend },
        ))) => {
            assert_eq!(plugin.to_string(), "plugin_for_manager-v1.0.0.vpl");
            assert_eq!(depend.to_string(), "function_plugin-v1.0.0.fpl");
        },
        other => panic!("{other:?}"),
    }
    // The plugin that is used stays loaded, and its manager stays.
    assert!(is_loaded(&loader, "function_plugin", "1.0.0"));
    assert!(loader.get_manager_ref("fpl").is_some());
    assert_eq!(events(&log, "unload_plugin").len(), 0);
    assert_eq!(events(&log, "unregister_manager").len(), 0);
    loader.stop().unwrap();
}

#[test]
fn stop_collects_one_failure_for_each_plugin_that_is_left() {
    let log = new_log();
    let stubborn = TableManager::failing("vpl", void_scripts(), &log, vec!["unload_plugin", "unregister_plugin"]);
    let mut loader = loader_init(stubborn);
    loader.load_plugin_now(&get_plugin_path("dep_2", "1.0.0", "vpl")).unwrap_err();
    loader.register_plugin(&get_plugin_path("dep_1", "1.0.0", "vpl")).unwrap();
    loader.load_plugin("dep_2", &v("1.0.0")).unwrap();
    loader.register_plugin(&get_plugin_path("dep_4", "1.0.0", "vpl")).unwrap();
    loader.register_plugin(&get_plugin_path("dep_3", "1.0.0", "vpl")).unwrap();

    match loader.stop() {
        Err(StopLoaderError::UnregisterPluginFailed(errors)) => {
            // Two plugins are loaded and cannot be unloaded; two are removed
            // though the manager fails to unregister them.
            assert_eq!(errors.len(), 4);
            assert!(errors[..2].iter().all(|e| matches!(
                e,
                UnregisterPluginError::UnloadError(UnloadPluginError::UnloadPluginByManager(_))
            )));
            assert!(errors[2..]
                .iter()
                .all(|e| matches!(e, UnregisterPluginError::UnregisterPluginByManager(_))));
        },
        other => panic!("{other:?}"),
    }
    assert_eq!(loader.get_plugins().len(), 2);
    assert!(is_loaded(&loader, "dep_1", "1.0.0"));
    assert!(is_loaded(&loader, "dep_2", "1.0.0"));
}

#[test]
fn a_bundle_tells_whether_its_name_reads_back() {
    let plain = Bundle::from_filename("a.b-v1.2.3-rc.1+x.vpl").unwrap();
    assert!(plain.version.reads_back());
    assert!(plain.reads_back());
    // A pre-release tag that starts with `v` is taken for the version marker.
    let odd = Bundle {
        id: "a".to_string(),
        version: Version::parse("1.0.0-v2").unwrap(),
        format: "vpl".to_string(),
    };
    assert!(odd.version.reads_back());
    assert!(!odd.reads_back());
    let dotted = Bundle { id: "a".to_string(), version: v("1.0.0"), format: "v.pl".to_string() };
    assert!(!dotted.reads_back());
}
