use std::collections::HashMap;

use wassel::gateway::Config as GatewayConfig;
use wassel::manifest::PluginMeta as BuildManifest;
use wassel::{
    default_data_dir, default_data_folder, default_endpoint, default_version, deploy_plan, finish_build, join,
    BuildError, Config, PluginBuildInfo, PluginEntry, PluginMeta, PluginMetaBuild, PoolConfig, Server, StackConfig,
    StackError, StackMeta,
};

fn entry(id: &str, path: &str) -> PluginEntry {
    PluginEntry { path: path.to_string(), meta: PluginMeta::with_id(id.to_string()) }
}

fn stack_meta() -> StackMeta {
    StackMeta { variables: Vec::new() }
}

fn build_manifest(component: &str, cmd: Option<&str>) -> BuildManifest {
    BuildManifest {
        id: "p".to_string(),
        component: component.to_string(),
        build: cmd.map(|c| PluginMetaBuild { cmd: c.to_string(), data: Vec::new() }),
        data_folder: "data".to_string(),
    }
}

#[test]
fn manifest_defaults() {
    assert_eq!(default_version(), "0.0.0");
    assert_eq!(default_data_dir(), "data");
    assert_eq!(default_endpoint(), "/");
    assert_eq!(default_data_folder(), "data");
    let m = PluginMeta::with_id("hello".to_string());
    assert_eq!(m.id, "hello");
    assert_eq!(m.name, "");
    assert_eq!(m.version, "0.0.0");
    assert_eq!(m.endpoint, "/");
    assert_eq!(m.data_dir, "data");
    assert!(m.description.is_none());
    assert!(m.variables.is_empty());
}

#[test]
fn duplicate_plugin_id_fails_load() {
    let entries = vec![entry("a", "plugins/a"), entry("b", "plugins/b"), entry("a", "plugins/a2")];
    match StackConfig::load(stack_meta(), entries) {
        Err(e) => assert_eq!(e, StackError::DuplicateId("a".to_string())),
        Ok(_) => panic!("duplicate ids must fail"),
    }
}

#[test]
fn unique_plugin_ids_load_in_order() {
    let entries = vec![entry("a", "plugins/a"), entry("b", "plugins/b")];
    let config = match StackConfig::load(stack_meta(), entries) {
        Ok(c) => c,
        Err(_) => panic!("unique ids must load"),
    };
    let ids: Vec<&str> = config.plugins.iter().map(|p| p.0.as_str()).collect();
    assert_eq!(ids, vec!["a", "b"]);
    assert_eq!(config.path_of(&"b".to_string()), Some("plugins/b".to_string()));
    assert_eq!(config.path_of(&"c".to_string()), None);
}

#[test]
fn register_refuses_taken_id() {
    let mut config = StackConfig::new(stack_meta());
    assert!(config.register_plugin("d1".to_string(), PluginMeta::with_id("x".to_string())).is_ok());
    let again = config.register_plugin("d2".to_string(), PluginMeta::with_id("x".to_string()));
    assert_eq!(again, Err(StackError::DuplicateId("x".to_string())));
    assert_eq!(config.plugins.len(), 1);
    assert_eq!(config.path_of(&"x".to_string()), Some("d1".to_string()));
}

#[test]
fn merge_replaces_or_adds_manifest() {
    let mut config = StackConfig::new(stack_meta());
    config.register_plugin("d1".to_string(), PluginMeta::with_id("x".to_string())).unwrap();
    let mut changed = PluginMeta::with_id("x".to_string());
    changed.endpoint = "/changed".to_string();
    config.merge_plugin_config("x".to_string(), changed);
    assert_eq!(config.plugins.len(), 1);
    assert_eq!(config.plugins[0].1.endpoint, "/changed");
    config.merge_plugin_config("y".to_string(), PluginMeta::with_id("y".to_string()));
    assert_eq!(config.plugins.len(), 2);
    assert_eq!(config.plugins[1].0, "y");
}

#[test]
fn join_follows_path_rules() {
    assert_eq!(join("a", "b"), "a/b");
    assert_eq!(join("a/", "b"), "a/b");
    assert_eq!(join("", "b"), "b");
    assert_eq!(join("a", "/abs"), "/abs");
    assert_eq!(join("a", ""), "a/");
}

#[test]
fn component_path_expands_variables() {
    let mut vars = HashMap::new();
    vars.insert("TARGET".to_string(), "out".to_string());
    let meta = build_manifest("${TARGET}/plugin.wasm", None);
    assert_eq!(meta.component_path("plugins/p", &vars), Ok("plugins/p/out/plugin.wasm".to_string()));
    let absolute = build_manifest("/opt/${TARGET}.wasm", None);
    assert_eq!(absolute.component_path("plugins/p", &vars), Ok("/opt/out.wasm".to_string()));
}

#[test]
fn component_path_without_variables_is_joined() {
    let vars = HashMap::new();
    let meta = build_manifest("target/p.wasm", None);
    assert_eq!(meta.component_path("src/p", &vars), Ok("src/p/target/p.wasm".to_string()));
}

#[test]
fn missing_variable_is_a_substitution_error() {
    let vars = HashMap::new();
    let meta = build_manifest("${NOPE}/p.wasm", Some("make ${NOPE}"));
    assert_eq!(meta.component_path("d", &vars), Err(BuildError::Substitution("${NOPE}/p.wasm".to_string())));
    assert_eq!(meta.build_command(&vars), Err(BuildError::Substitution("make ${NOPE}".to_string())));
}

#[test]
fn build_command_is_expanded() {
    let mut vars = HashMap::new();
    vars.insert("PROFILE".to_string(), "release".to_string());
    let meta = build_manifest("p.wasm", Some("cargo build --${PROFILE}"));
    assert_eq!(meta.build_command(&vars), Ok(Some("cargo build --release".to_string())));
    let prebuilt = build_manifest("p.wasm", None);
    assert_eq!(prebuilt.build_command(&vars), Ok(None));
}

#[test]
fn missing_component_fails_build() {
    let meta = build_manifest("p.wasm", None);
    match finish_build("dir".to_string(), meta, "dir/p.wasm".to_string(), false) {
        Err(e) => assert_eq!(e, BuildError::MissingComponent("dir/p.wasm".to_string())),
        Ok(_) => panic!("missing component must fail"),
    }
}

#[test]
fn finished_build_keeps_data_entries() {
    let mut meta = build_manifest("p.wasm", Some("make"));
    meta.build.as_mut().unwrap().data.push(("seed.txt".to_string(), "seed.txt".to_string()));
    let info = match finish_build("dir".to_string(), meta, "dir/p.wasm".to_string(), true) {
        Ok(i) => i,
        Err(_) => panic!("present component must build"),
    };
    assert_eq!(info.id, "p");
    assert_eq!(info.component, "dir/p.wasm");
    assert_eq!(info.data, vec![("seed.txt".to_string(), "seed.txt".to_string())]);
}

#[test]
fn deploy_plan_places_files() {
    let info = PluginBuildInfo {
        path: "src/hello".to_string(),
        id: "hello".to_string(),
        component: "src/hello/out.wasm".to_string(),
        data_folder: "data".to_string(),
        data: vec![("seed.txt".to_string(), "seed.txt".to_string()), ("assets".to_string(), "static".to_string())],
    };
    let plan = deploy_plan("plugins", &info);
    assert_eq!(plan.plugin_dir, "plugins/hello");
    assert_eq!(plan.wasm, ("src/hello/out.wasm".to_string(), "plugins/hello/plugin.wasm".to_string()));
    assert_eq!(plan.manifest, ("src/hello/plugin.toml".to_string(), "plugins/hello/plugin.toml".to_string()));
    assert_eq!(plan.data_dir, "plugins/hello/data");
    assert_eq!(
        plan.data,
        vec![
            ("src/hello/seed.txt".to_string(), "plugins/hello/data/seed.txt".to_string()),
            ("src/hello/assets".to_string(), "plugins/hello/data/static".to_string()),
        ]
    );
}

#[test]
fn server_config_defaults() {
    let c = Config::load(None, None);
    assert_eq!(c.host, "127.0.0.1");
    assert_eq!(c.port, "9000");
    assert_eq!(c.address(), "127.0.0.1:9000");
    let d = Config::default();
    assert_eq!(d.address(), "127.0.0.1:9000");
}

#[test]
fn server_config_overrides() {
    let c = Config::load(Some("0.0.0.0".to_string()), Some("8080".to_string()));
    assert_eq!(c.address(), "0.0.0.0:8080");
    let s = Server::new(c);
    assert_eq!(s.config().port, "8080");
}

#[test]
fn gateway_config_normalizes_base_url() {
    let plugins = vec![
        ("a".to_string(), vec![("base_url".to_string(), "/api/".to_string())]),
        ("b".to_string(), vec![("other".to_string(), "1".to_string())]),
        ("c".to_string(), vec![("base_url".to_string(), "/c".to_string())]),
    ];
    let c = GatewayConfig::load(None, None, None, plugins);
    assert_eq!(c.host, "127.0.0.1");
    assert_eq!(c.port, "9150");
    assert_eq!(c.plugins_directory, "plugins");
    assert_eq!(c.plugins[0].1, vec![("base_url".to_string(), "/api".to_string())]);
    assert_eq!(
        c.plugins[1].1,
        vec![("other".to_string(), "1".to_string()), ("base_url".to_string(), String::new())]
    );
    assert_eq!(c.plugins[2].1, vec![("base_url".to_string(), "/c".to_string())]);
}

#[test]
fn pool_config_default_directory() {
    assert_eq!(PoolConfig::default().plugins_directory, "plugins");
}

#[test]
fn gateway_routes_skip_relative_endpoints() {
    let endpoints = vec!["/users".to_string(), "bad".to_string(), "/".to_string()];
    assert_eq!(
        wassel::gateway::endpoint_routes("/api", &endpoints),
        vec!["/api/users".to_string(), "/api/".to_string()]
    );
    assert_eq!(wassel::gateway::endpoint_routes("", &endpoints), vec!["/users".to_string(), "/".to_string()]);
}

#[test]
fn duplicate_error_names_first_repeated_id() {
    let entries = vec![entry("a", "p/a"), entry("b", "p/b"), entry("b", "p/b2"), entry("a", "p/a2")];
    match StackConfig::load(stack_meta(), entries) {
        Err(e) => assert_eq!(e, StackError::DuplicateId("b".to_string())),
        Ok(_) => panic!("duplicate ids must fail"),
    }
}

#[test]
fn merge_keeps_other_plugins() {
    let mut config = StackConfig::new(stack_meta());
    config.register_plugin("d1".to_string(), PluginMeta::with_id("x".to_string())).unwrap();
    config.register_plugin("d2".to_string(), PluginMeta::with_id("y".to_string())).unwrap();
    let mut changed = PluginMeta::with_id("y".to_string());
    changed.endpoint = "/y".to_string();
    config.merge_plugin_config("y".to_string(), changed);
    assert_eq!(config.plugins.len(), 2);
    assert_eq!(config.plugins[0].0, "x");
    assert_eq!(config.plugins[0].1.endpoint, "/");
    assert_eq!(config.plugins[1].1.endpoint, "/y");
}
