use mcp_core::gateway::{all_server_data_result, server_status_json};
use mcp_core::json::JsonValue;
use mcp_core::registry::{StartError, ToolRegistry};
use mcp_core::store::{Distribution, EnvVar, Runtime, ServerRecord, Store, StoreError};
use mcp_core::supervisor::{parse_runtime, runtime_name, SessionTable, SupervisorError};

fn s(x: &str) -> String {
    x.to_string()
}

fn env_var(value: &str, description: &str, required: bool) -> EnvVar {
    EnvVar { value: s(value), description: s(description), required }
}

fn record(id: &str, name: &str, command: &str, env: Vec<(&str, EnvVar)>) -> ServerRecord {
    ServerRecord {
        id: s(id),
        name: s(name),
        description: s("a test server"),
        runtime: Runtime::Node,
        enabled: true,
        entry_point: None,
        command: s(command),
        args: vec![s("main.js")],
        distribution: Some(Distribution { dist_type: s("npm"), package: s("pkg") }),
        env: env.into_iter().map(|(k, v)| (s(k), v)).collect(),
    }
}

fn obj(fields: Vec<(&str, JsonValue)>) -> JsonValue {
    JsonValue::Obj(fields.into_iter().map(|(k, v)| (s(k), v)).collect())
}

#[test]
fn upsert_then_list_round_trip() {
    let mut store = Store::new();
    let r = record(
        "alpha",
        "Alpha",
        "node",
        vec![("API_KEY", env_var("abc", "the key", true)), ("MODE", env_var("fast", "", false))],
    );
    let expected = mcp_core::store::clone_record(&r);
    store.upsert(r).unwrap();
    let listed = store.list();
    assert_eq!(listed.len(), 1);
    assert_eq!(listed[0], expected);
    // every field, the complete env map included
    assert_eq!(listed[0].env.len(), 2);
    assert_eq!(listed[0].env[0].0, s("API_KEY"));
    assert_eq!(listed[0].env[0].1.value, s("abc"));
    assert!(listed[0].env[0].1.required);
    assert!(store.check_exists());
}

#[test]
fn env_replace_leaves_only_new_env() {
    let mut store = Store::new();
    let r1 = record("alpha", "Alpha", "node", vec![("OLD_KEY", env_var("1", "", false))]);
    let r2 = record("alpha", "Alpha", "node", vec![("NEW_KEY", env_var("2", "", false))]);
    store.upsert(r1).unwrap();
    store.upsert(r2).unwrap();
    let got = store.get(&s("alpha")).unwrap();
    assert_eq!(got.env.len(), 1);
    assert_eq!(got.env[0].0, s("NEW_KEY"));
    assert_eq!(got.env[0].1.value, s("2"));
    // nothing of the earlier env survives
    assert!(got.env.iter().all(|(k, _)| k != "OLD_KEY"));
}

#[test]
fn store_errors() {
    let mut store = Store::new();
    assert!(matches!(store.get(&s("missing")), Err(StoreError::NotFound)));
    // removing an absent id is a no-op, as both row deletions affect nothing
    store.delete(&s("missing"));
    assert!(!store.check_exists());
    // an id holding the proxy separator is refused up front
    let bad = record("a:b", "Bad", "node", vec![]);
    assert!(matches!(store.upsert(bad), Err(StoreError::ConstraintViolation)));
    // an enabled record without a command is refused
    let mut no_cmd = record("beta", "Beta", "", vec![]);
    no_cmd.enabled = true;
    assert!(matches!(store.upsert(no_cmd), Err(StoreError::ConstraintViolation)));
    // a repeated env key is refused
    let dup = record(
        "gamma",
        "Gamma",
        "node",
        vec![("K", env_var("1", "", false)), ("K", env_var("2", "", false))],
    );
    assert!(matches!(store.upsert(dup), Err(StoreError::ConstraintViolation)));
    assert!(!store.check_exists());
    store.clear();
    assert!(!store.check_exists());
}

#[test]
fn at_most_one_session_per_id() {
    let mut sessions = SessionTable::new();
    assert!(!sessions.is_running(&s("alpha")));
    sessions.begin_session(&s("alpha")).unwrap();
    assert!(sessions.is_running(&s("alpha")));
    // a second session for the same id is refused while one is live
    assert!(matches!(
        sessions.begin_session(&s("alpha")),
        Err(SupervisorError::AlreadyRunning)
    ));
    // a restart removes the old session before creating the new one
    sessions.end_session(&s("alpha")).unwrap();
    assert!(!sessions.is_running(&s("alpha")));
    sessions.begin_session(&s("alpha")).unwrap();
    assert!(sessions.is_running(&s("alpha")));
    // kill with no session reports NotRunning
    assert!(matches!(
        sessions.end_session(&s("missing")),
        Err(SupervisorError::NotRunning)
    ));
}

fn tool_doc(id: &str, name: &str) -> JsonValue {
    obj(vec![("id", JsonValue::Str(s(id))), ("name", JsonValue::Str(s(name)))])
}

#[test]
fn proxy_ids_are_composed_and_unique() {
    let mut reg = ToolRegistry::new();
    reg.register_tool(record("srv1", "One", "node", vec![])).unwrap();
    reg.register_tool(record("srv2", "Two", "node", vec![])).unwrap();
    reg.apply_discovery(&s("srv1"), vec![tool_doc("read", "Read"), tool_doc("write", "Write")])
        .unwrap();
    reg.apply_discovery(&s("srv2"), vec![tool_doc("read", "Read")]).unwrap();
    let all = reg.list_all_server_tools();
    assert_eq!(all.len(), 3);
    let proxy_ids: Vec<String> = all.iter().map(|t| t.proxy_id.clone()).collect();
    assert!(proxy_ids.contains(&s("srv1:read")));
    assert!(proxy_ids.contains(&s("srv1:write")));
    assert!(proxy_ids.contains(&s("srv2:read")));
    for (i, a) in proxy_ids.iter().enumerate() {
        for b in proxy_ids.iter().skip(i + 1) {
            assert_ne!(a, b);
        }
    }
    for t in &all {
        assert_eq!(t.proxy_id, format!("{}:{}", t.server_id, t.tool_id));
    }
}

#[test]
fn discovery_dedup_keeps_first() {
    let mut reg = ToolRegistry::new();
    reg.register_tool(record("srv", "Srv", "node", vec![])).unwrap();
    reg.apply_discovery(
        &s("srv"),
        vec![tool_doc("dup", "First"), tool_doc("dup", "Second"), tool_doc("other", "Other")],
    )
    .unwrap();
    let all = reg.list_all_server_tools();
    assert_eq!(all.len(), 2);
    assert_eq!(all[0].tool_id, s("dup"));
    // the first occurrence is the one kept
    let statuses = reg.list_tools();
    assert_eq!(statuses.len(), 1);
    assert_eq!(statuses[0].tool_count, 2);
}

#[test]
fn discovery_fallback_installs_synthetic_main() {
    let mut reg = ToolRegistry::new();
    reg.register_tool(record("empty", "Empty Server", "node", vec![])).unwrap();
    reg.apply_discovery(&s("empty"), vec![]).unwrap();
    let all = reg.list_all_server_tools();
    assert_eq!(all.len(), 1);
    assert_eq!(all[0].tool_id, s("main"));
    assert_eq!(all[0].proxy_id, s("empty:main"));
    // the synthetic descriptor bears the server's name and description
    match &all[0].doc {
        JsonValue::Obj(fields) => {
            assert_eq!(fields.len(), 3);
            assert_eq!(fields[0], (s("id"), JsonValue::Str(s("main"))));
            assert_eq!(fields[1], (s("name"), JsonValue::Str(s("Empty Server"))));
            assert_eq!(fields[2], (s("description"), JsonValue::Str(s("a test server"))));
        }
        other => panic!("synthetic descriptor is not an object: {:?}", other),
    }
}

#[test]
fn restart_preserves_updated_env() {
    let mut reg = ToolRegistry::new();
    reg.register_tool(record(
        "srv",
        "Srv",
        "node",
        vec![("API_KEY", env_var("abc", "the key", true))],
    ))
    .unwrap();
    let patch = vec![(s("API_KEY"), s("xyz"))];
    let (updated, was_running) = reg.update_tool_config(&s("srv"), &patch).unwrap();
    assert!(!was_running);
    assert_eq!(updated.env.len(), 1);
    assert_eq!(updated.env[0].1.value, s("xyz"));
    // the description and the required mark survive the patch
    assert_eq!(updated.env[0].1.description, s("the key"));
    assert!(updated.env[0].1.required);
    // the launch plan after the restart carries the new value and not the old
    let plan = reg.plan_start(&s("srv")).unwrap();
    assert_eq!(plan.env, vec![(s("API_KEY"), s("xyz"))]);
    assert!(plan.env.iter().all(|(_, v)| v != "abc"));
}

#[test]
fn update_env_adds_new_keys_as_optional() {
    let mut reg = ToolRegistry::new();
    reg.register_tool(record("srv", "Srv", "node", vec![("A", env_var("1", "d", true))]))
        .unwrap();
    let patch = vec![(s("B"), s("2"))];
    let (updated, _) = reg.update_tool_config(&s("srv"), &patch).unwrap();
    assert_eq!(updated.env.len(), 2);
    assert_eq!(updated.env[0].0, s("A"));
    assert_eq!(updated.env[0].1.value, s("1"));
    assert_eq!(updated.env[1].0, s("B"));
    assert_eq!(updated.env[1].1.value, s("2"));
    assert!(!updated.env[1].1.required);
}

#[test]
fn plan_start_decisions() {
    let mut reg = ToolRegistry::new();
    assert_eq!(reg.plan_start(&s("missing")), Err(StartError::NotFound));
    reg.register_tool(record("srv", "Srv", "node", vec![("K", env_var("", "", true))]))
        .unwrap();
    // a required env entry with no value refuses the start
    assert_eq!(reg.plan_start(&s("srv")), Err(StartError::MissingEnv));
    let patch = vec![(s("K"), s("v"))];
    reg.update_tool_config(&s("srv"), &patch).unwrap();
    let plan = reg.plan_start(&s("srv")).unwrap();
    assert_eq!(plan.program, s("node"));
    assert_eq!(plan.args, vec![s("main.js")]);
    // a disabled record is never spawned
    reg.update_tool_status(&s("srv"), false).unwrap();
    assert_eq!(reg.plan_start(&s("srv")), Err(StartError::Disabled));
}

#[test]
fn uninstall_removes_everything() {
    let mut reg = ToolRegistry::new();
    reg.register_tool(record("srv", "Srv", "node", vec![])).unwrap();
    reg.apply_discovery(&s("srv"), vec![tool_doc("t", "T")]).unwrap();
    reg.sessions.begin_session(&s("srv")).unwrap();
    let was_running = reg.uninstall_tool(&s("srv")).unwrap();
    assert!(was_running);
    assert!(!reg.store.check_exists());
    assert!(reg.list_all_server_tools().is_empty());
    assert!(!reg.sessions.is_running(&s("srv")));
    assert!(matches!(reg.uninstall_tool(&s("srv")), Err(StoreError::NotFound)));
}

#[test]
fn list_tools_reports_running_and_counts() {
    let mut reg = ToolRegistry::new();
    reg.register_tool(record("a", "A", "node", vec![])).unwrap();
    reg.register_tool(record("b", "B", "node", vec![])).unwrap();
    reg.apply_discovery(&s("a"), vec![tool_doc("x", "X"), tool_doc("y", "Y")]).unwrap();
    reg.sessions.begin_session(&s("a")).unwrap();
    let statuses = reg.list_tools();
    assert_eq!(statuses.len(), 2);
    assert_eq!(statuses[0].record.id, s("a"));
    assert!(statuses[0].process_running);
    assert_eq!(statuses[0].tool_count, 2);
    assert_eq!(statuses[1].record.id, s("b"));
    assert!(!statuses[1].process_running);
    assert_eq!(statuses[1].tool_count, 0);
}

#[test]
fn runtime_parse_and_names() {
    assert_eq!(parse_runtime(&s("node")).unwrap(), Runtime::Node);
    assert_eq!(parse_runtime(&s("python")).unwrap(), Runtime::Python);
    assert_eq!(parse_runtime(&s("docker")).unwrap(), Runtime::Docker);
    assert!(matches!(
        parse_runtime(&s("java")),
        Err(SupervisorError::UnsupportedRuntime)
    ));
    assert_eq!(runtime_name(Runtime::Node), s("node"));
    assert_eq!(runtime_name(Runtime::Docker), s("docker"));
}

#[test]
fn fleet_listing_renders_whole_records() {
    let mut reg = ToolRegistry::new();
    reg.register_tool(record("srv", "Srv", "node", vec![("K", env_var("v", "d", true))]))
        .unwrap();
    reg.apply_discovery(&s("srv"), vec![tool_doc("t", "T")]).unwrap();
    let statuses = reg.list_tools();
    let rendered = server_status_json(&statuses[0]);
    let expected = obj(vec![
        ("id", JsonValue::Str(s("srv"))),
        ("name", JsonValue::Str(s("Srv"))),
        ("description", JsonValue::Str(s("a test server"))),
        ("tool_type", JsonValue::Str(s("node"))),
        ("enabled", JsonValue::Bool(true)),
        ("entry_point", JsonValue::Null),
        (
            "configuration",
            obj(vec![
                ("command", JsonValue::Str(s("node"))),
                ("args", JsonValue::Arr(vec![JsonValue::Str(s("main.js"))])),
            ]),
        ),
        (
            "distribution",
            obj(vec![
                ("type", JsonValue::Str(s("npm"))),
                ("package", JsonValue::Str(s("pkg"))),
            ]),
        ),
        (
            "config",
            obj(vec![(
                "env",
                obj(vec![(
                    "K",
                    obj(vec![
                        ("value", JsonValue::Str(s("v"))),
                        ("description", JsonValue::Str(s("d"))),
                        ("required", JsonValue::Bool(true)),
                    ]),
                )]),
            )]),
        ),
        ("process_running", JsonValue::Bool(false)),
        ("tool_count", JsonValue::Int(1)),
    ]);
    assert_eq!(rendered, expected);
    // the aggregate answer carries the same row and the namespace entries
    let data = all_server_data_result(&reg);
    match data {
        JsonValue::Obj(fields) => {
            assert_eq!(fields.len(), 2);
            assert_eq!(fields[0].0, s("servers"));
            match &fields[0].1 {
                JsonValue::Arr(servers) => {
                    assert_eq!(servers.len(), 1);
                    assert_eq!(servers[0], expected);
                }
                other => panic!("servers not an array: {:?}", other),
            }
            assert_eq!(fields[1].0, s("tools"));
            match &fields[1].1 {
                JsonValue::Arr(items) => assert_eq!(items.len(), 1),
                other => panic!("tools not an array: {:?}", other),
            }
        }
        other => panic!("aggregate answer not an object: {:?}", other),
    }
}
