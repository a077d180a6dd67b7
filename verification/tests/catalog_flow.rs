use mcp_core::catalog::{
    catalog_from_json, entry_from_json, find_entry, record_from_entry, CatalogCache,
    CatalogError, CACHE_FRESH_MS,
};
use mcp_core::gateway::{
    builtin_tool_json, env_pairs_from_obj, parse_config_params, parse_import_params,
    parse_install_request, proxy_tool_json, tools_list_result, InstallRequest,
    CODE_INVALID_PARAMS, CODE_OPERATIONAL,
};
use mcp_core::json::JsonValue;
use mcp_core::registry::ToolRegistry;
use mcp_core::store::Runtime;

fn s(x: &str) -> String {
    x.to_string()
}

fn obj(fields: Vec<(&str, JsonValue)>) -> JsonValue {
    JsonValue::Obj(fields.into_iter().map(|(k, v)| (s(k), v)).collect())
}

fn jstr(x: &str) -> JsonValue {
    JsonValue::Str(s(x))
}

fn fs_catalog_doc() -> JsonValue {
    obj(vec![(
        "tools",
        JsonValue::Arr(vec![obj(vec![
            ("id", jstr("fs")),
            ("name", jstr("Filesystem")),
            ("description", jstr("local files")),
            ("runtime", jstr("node")),
            (
                "config",
                obj(vec![("command", jstr("node")), ("args", JsonValue::Arr(vec![jstr("fs.js")]))]),
            ),
        ])]),
    )])
}

#[test]
fn catalog_parses_and_rejects_bad_shapes() {
    let entries = catalog_from_json(&fs_catalog_doc()).unwrap();
    assert_eq!(entries.len(), 1);
    assert_eq!(entries[0].id, s("fs"));
    assert_eq!(entries[0].name, s("Filesystem"));
    assert_eq!(entries[0].runtime, s("node"));
    assert_eq!(entries[0].command, s("node"));
    assert_eq!(entries[0].args, vec![s("fs.js")]);
    let bad = obj(vec![("tools", jstr("not an array"))]);
    assert_eq!(catalog_from_json(&bad), Err(CatalogError::BadShape));
    let missing = obj(vec![]);
    assert_eq!(catalog_from_json(&missing), Err(CatalogError::BadShape));
}

#[test]
fn install_from_catalog_id() {
    // S1: the catalog names fs; installing by id yields a live record
    let entries = catalog_from_json(&fs_catalog_doc()).unwrap();
    let entry = find_entry(&entries, &s("fs")).unwrap();
    let record = record_from_entry(entry).unwrap();
    assert_eq!(record.id, s("fs"));
    assert_eq!(record.runtime, Runtime::Node);
    assert_eq!(record.command, s("node"));
    assert_eq!(record.args, vec![s("fs.js")]);
    assert!(record.enabled);
    let mut reg = ToolRegistry::new();
    reg.register_tool(record).unwrap();
    assert!(reg.store.check_exists());
    // the child would now be spawned from this plan
    let plan = reg.plan_start(&s("fs")).unwrap();
    assert_eq!(plan.program, s("node"));
    assert_eq!(plan.args, vec![s("fs.js")]);
    // after discovery, tools/list carries an entry for fs
    reg.apply_discovery(&s("fs"), vec![obj(vec![("id", jstr("read_file"))])]).unwrap();
    let listing = tools_list_result(&reg);
    match listing {
        JsonValue::Obj(fields) => {
            assert_eq!(fields[0].0, s("tools"));
            match &fields[0].1 {
                JsonValue::Arr(items) => {
                    assert_eq!(items.len(), 2);
                    assert_eq!(items[0], builtin_tool_json());
                    match &items[1] {
                        JsonValue::Obj(tool_fields) => {
                            assert!(tool_fields
                                .iter()
                                .any(|(k, v)| k == "server_id" && *v == jstr("fs")));
                            assert!(tool_fields
                                .iter()
                                .any(|(k, v)| k == "proxy_id" && *v == jstr("fs:read_file")));
                        }
                        other => panic!("tool entry not an object: {:?}", other),
                    }
                }
                other => panic!("tools not an array: {:?}", other),
            }
        }
        other => panic!("listing not an object: {:?}", other),
    }
    // an id the catalog lacks
    assert!(find_entry(&entries, &s("missing")).is_none());
}

#[test]
fn unknown_entry_runtime_is_refused() {
    let doc = obj(vec![
        ("id", jstr("x")),
        ("name", jstr("X")),
        ("runtime", jstr("java")),
    ]);
    let entry = entry_from_json(&doc);
    assert!(record_from_entry(&entry).is_err());
}

#[test]
fn catalog_cache_serves_within_window() {
    let mut cache = CatalogCache::new();
    assert!(cache.lookup(5_000).is_none());
    let entries = catalog_from_json(&fs_catalog_doc()).unwrap();
    cache.store_payload(entries, 10_000);
    // two reads within sixty seconds of the fetch: the same payload, no refetch
    let first = cache.lookup(10_000).unwrap();
    let second = cache.lookup(10_000 + CACHE_FRESH_MS - 1).unwrap();
    assert_eq!(first, second);
    assert_eq!(first.len(), 1);
    assert_eq!(first[0].id, s("fs"));
    // the window elapses: the caller must fetch again
    assert!(cache.lookup(10_000 + CACHE_FRESH_MS).is_none());
    // an instant before the fetch — a wall clock stepped back — is not fresh
    assert!(cache.lookup(9_999).is_none());
}

#[test]
fn install_request_by_id_and_by_record() {
    let by_id = obj(vec![("tool_id", jstr("fs"))]);
    match parse_install_request(&by_id).unwrap() {
        InstallRequest::ById { tool_id } => assert_eq!(tool_id, s("fs")),
        other => panic!("not an install by id: {:?}", other),
    }
    let by_record = obj(vec![
        ("id", jstr("srv")),
        ("name", jstr("Server")),
        ("description", jstr("desc")),
        ("type", jstr("python")),
        (
            "configuration",
            obj(vec![
                ("command", jstr("python")),
                ("args", JsonValue::Arr(vec![jstr("-m"), jstr("srv")])),
                ("env", obj(vec![("TOKEN", jstr("SECRET-REDACTED"))])),
            ]),
        ),
    ]);
    match parse_install_request(&by_record).unwrap() {
        InstallRequest::ByRecord { record } => {
            assert_eq!(record.id, s("srv"));
            assert_eq!(record.runtime, Runtime::Python);
            assert_eq!(record.command, s("python"));
            assert_eq!(record.args, vec![s("-m"), s("srv")]);
            assert_eq!(record.env.len(), 1);
            assert_eq!(record.env[0].0, s("TOKEN"));
            assert!(record.enabled);
        }
        other => panic!("not an install by record: {:?}", other),
    }
    // neither shape
    let neither = obj(vec![("something", jstr("else"))]);
    assert_eq!(parse_install_request(&neither), Err(CODE_INVALID_PARAMS));
    // a record with a runtime nobody supports
    let bad_runtime = obj(vec![
        ("id", jstr("srv")),
        ("name", jstr("Server")),
        ("description", jstr("desc")),
        ("type", jstr("lua")),
    ]);
    assert_eq!(parse_install_request(&bad_runtime), Err(CODE_OPERATIONAL));
}

#[test]
fn config_params_validation() {
    let good = Some(obj(vec![
        ("tool_id", jstr("fs")),
        ("config", obj(vec![("env", obj(vec![("API_KEY", jstr("xyz"))]))])),
    ]));
    let patch = parse_config_params(&good).unwrap();
    assert_eq!(patch.tool_id, s("fs"));
    assert_eq!(patch.env, vec![(s("API_KEY"), s("xyz"))]);
    // a later field overrides an earlier one with the same key
    let dup = Some(obj(vec![
        ("tool_id", jstr("fs")),
        (
            "config",
            obj(vec![("env", obj(vec![("K", jstr("first")), ("K", jstr("second"))]))]),
        ),
    ]));
    let patch = parse_config_params(&dup).unwrap();
    assert_eq!(patch.env, vec![(s("K"), s("second"))]);
    // missing tool_id, missing config, non-string values: all refused
    assert!(parse_config_params(&None).is_none());
    assert!(parse_config_params(&Some(obj(vec![("tool_id", jstr("fs"))]))).is_none());
    let bad_value = Some(obj(vec![
        ("tool_id", jstr("fs")),
        ("config", obj(vec![("env", obj(vec![("N", JsonValue::Int(3))]))])),
    ]));
    assert!(parse_config_params(&bad_value).is_none());
}

#[test]
fn env_pairs_keep_last_value() {
    let fields = vec![
        (s("A"), jstr("1")),
        (s("B"), jstr("2")),
        (s("A"), jstr("3")),
    ];
    let pairs = env_pairs_from_obj(&fields).unwrap();
    assert_eq!(pairs, vec![(s("A"), s("3")), (s("B"), s("2"))]);
    let bad = vec![(s("A"), JsonValue::Null)];
    assert!(env_pairs_from_obj(&bad).is_none());
}

#[test]
fn import_params_need_a_url() {
    let good = Some(obj(vec![("url", jstr("https://example.test/record.json"))]));
    assert_eq!(
        parse_import_params(&good),
        Some(s("https://example.test/record.json"))
    );
    assert_eq!(parse_import_params(&None), None);
    let bad = Some(obj(vec![("url", JsonValue::Int(1))]));
    assert_eq!(parse_import_params(&bad), None);
}

#[test]
fn proxy_tool_json_lays_ids_over_doc() {
    let mut reg = ToolRegistry::new();
    let entries = catalog_from_json(&fs_catalog_doc()).unwrap();
    let record = record_from_entry(&entries[0]).unwrap();
    reg.register_tool(record).unwrap();
    reg.apply_discovery(
        &s("fs"),
        vec![obj(vec![("id", jstr("read_file")), ("description", jstr("reads"))])],
    )
    .unwrap();
    let all = reg.list_all_server_tools();
    let rendered = proxy_tool_json(&all[0]);
    // a tool without a schema is listed under the default unconstrained one
    let expected = obj(vec![
        ("id", jstr("read_file")),
        ("description", jstr("reads")),
        ("input_schema", obj(vec![("type", jstr("object"))])),
        ("server_id", jstr("fs")),
        ("proxy_id", jstr("fs:read_file")),
    ]);
    assert_eq!(rendered, expected);
    // a tool that names its own schema keeps it, with no default laid over
    let mut reg2 = ToolRegistry::new();
    let entries2 = catalog_from_json(&fs_catalog_doc()).unwrap();
    reg2.register_tool(record_from_entry(&entries2[0]).unwrap()).unwrap();
    reg2.apply_discovery(
        &s("fs"),
        vec![obj(vec![
            ("id", jstr("read_file")),
            ("input_schema", obj(vec![("type", jstr("object")), ("required", JsonValue::Arr(vec![jstr("path")]))])),
        ])],
    )
    .unwrap();
    let all2 = reg2.list_all_server_tools();
    let rendered2 = proxy_tool_json(&all2[0]);
    let expected2 = obj(vec![
        ("id", jstr("read_file")),
        (
            "input_schema",
            obj(vec![("type", jstr("object")), ("required", JsonValue::Arr(vec![jstr("path")]))]),
        ),
        ("server_id", jstr("fs")),
        ("proxy_id", jstr("fs:read_file")),
    ]);
    assert_eq!(rendered2, expected2);
}
