use mcp_core::conduit::{
    build_call_request, build_discover_request, frame_line, interpret_call_reply,
    interpret_discovery_reply, take_line, ConduitError, PendingTable,
};
use mcp_core::gateway::{
    call_failure_response, error_response, hidden_result, invalid_params_response, ok_response,
    parse_proxy_id, parse_request, plan_tool_call, route_method, unknown_method_response,
    JsonRpcMethod, ToolCallPlan, CODE_INVALID_PARAMS, CODE_METHOD_NOT_FOUND, CODE_OPERATIONAL,
};
use mcp_core::json::{clone_json, JsonValue};
use mcp_core::registry::ToolRegistry;
use mcp_core::store::{Runtime, ServerRecord};

fn s(x: &str) -> String {
    x.to_string()
}

fn obj(fields: Vec<(&str, JsonValue)>) -> JsonValue {
    JsonValue::Obj(fields.into_iter().map(|(k, v)| (s(k), v)).collect())
}

fn jstr(x: &str) -> JsonValue {
    JsonValue::Str(s(x))
}

#[test]
fn request_correlation_no_cross_talk() {
    let mut table = PendingTable::new();
    table.register(s("execute_a_one")).unwrap();
    table.register(s("execute_a_two")).unwrap();
    let reply_two = obj(vec![("result", jstr("two"))]);
    let reply_one = obj(vec![("result", jstr("one"))]);
    // replies arrive out of order; each caller still gets its own
    assert!(table.dispatch(&s("execute_a_two"), reply_two));
    assert!(table.dispatch(&s("execute_a_one"), reply_one));
    assert_eq!(
        table.take_reply(&s("execute_a_one")),
        Some(obj(vec![("result", jstr("one"))]))
    );
    assert_eq!(
        table.take_reply(&s("execute_a_two")),
        Some(obj(vec![("result", jstr("two"))]))
    );
}

#[test]
fn duplicate_request_id_is_refused() {
    let mut table = PendingTable::new();
    table.register(s("id1")).unwrap();
    assert!(table.register(s("id1")).is_err());
    // an unmatched reply is dropped
    assert!(!table.dispatch(&s("unknown"), JsonValue::Null));
}

#[test]
fn timeout_isolation() {
    let mut table = PendingTable::new();
    table.register(s("slow")).unwrap();
    // the caller's wait elapses: the entry leaves the table
    assert_eq!(table.take_reply(&s("slow")), None);
    // the late reply is dropped, not delivered
    assert!(!table.dispatch(&s("slow"), jstr("late")));
    // a subsequent call on the same child still succeeds
    table.register(s("fast")).unwrap();
    assert!(table.dispatch(&s("fast"), jstr("ok")));
    assert_eq!(table.take_reply(&s("fast")), Some(jstr("ok")));
}

#[test]
fn eof_closes_every_pending_request() {
    let mut table = PendingTable::new();
    table.register(s("a")).unwrap();
    table.register(s("b")).unwrap();
    table.close_all();
    assert!(!table.dispatch(&s("a"), JsonValue::Null));
    assert_eq!(table.take_reply(&s("b")), None);
}

#[test]
fn timeout_maps_to_operational_error() {
    let resp = call_failure_response(JsonValue::Int(7), &ConduitError::Timeout);
    let err = resp.error.unwrap();
    assert_eq!(err.code, CODE_OPERATIONAL);
    assert_eq!(err.message, s("Timeout waiting for response"));
    assert_eq!(resp.result, None);
    assert_eq!(resp.id, JsonValue::Int(7));
}

#[test]
fn child_error_is_surfaced_verbatim() {
    let child_err = obj(vec![
        ("code", JsonValue::Int(-1)),
        ("message", jstr("file not found")),
    ]);
    let resp = call_failure_response(
        JsonValue::Int(9),
        &ConduitError::ToolExecutionError(child_err),
    );
    let err = resp.error.unwrap();
    assert_eq!(err.code, CODE_OPERATIONAL);
    // the child's message text becomes the message, the object rides as data
    assert_eq!(err.message, s("file not found"));
    assert_eq!(
        err.data,
        Some(obj(vec![
            ("code", JsonValue::Int(-1)),
            ("message", jstr("file not found")),
        ]))
    );
    // an error that carries no message text falls back to a fixed line
    let resp2 = call_failure_response(JsonValue::Null, &ConduitError::ErrorReply(jstr("nope")));
    let err2 = resp2.error.unwrap();
    assert_eq!(err2.message, s("Server returned an error"));
    assert_eq!(err2.data, Some(jstr("nope")));
}

#[test]
fn discover_request_shape() {
    let doc = build_discover_request();
    let expected = obj(vec![
        ("jsonrpc", jstr("2.0")),
        ("id", JsonValue::Int(1)),
        ("method", jstr("tools/list")),
        ("params", obj(vec![])),
    ]);
    assert_eq!(doc, expected);
}

#[test]
fn call_request_shape_and_id() {
    let args = obj(vec![("path", jstr("/etc/hostname"))]);
    let (rid, doc) = build_call_request(&s("fs"), &s("read_file"), args);
    assert_eq!(rid, s("execute_fs_read_file"));
    let expected = obj(vec![
        ("jsonrpc", jstr("2.0")),
        ("id", jstr("execute_fs_read_file")),
        ("method", jstr("tools/call")),
        (
            "params",
            obj(vec![
                ("name", jstr("read_file")),
                ("arguments", obj(vec![("path", jstr("/etc/hostname"))])),
            ]),
        ),
    ]);
    assert_eq!(doc, expected);
}

#[test]
fn call_reply_result_is_verbatim() {
    let reply = obj(vec![
        ("jsonrpc", jstr("2.0")),
        ("id", jstr("execute_fs_read_file")),
        ("result", obj(vec![("content", jstr("localhost"))])),
    ]);
    let r = interpret_call_reply(&reply).unwrap();
    assert_eq!(r, obj(vec![("content", jstr("localhost"))]));
}

#[test]
fn call_reply_error_and_missing_result() {
    let reply = obj(vec![("error", obj(vec![("message", jstr("boom"))]))]);
    match interpret_call_reply(&reply) {
        Err(ConduitError::ToolExecutionError(e)) => {
            assert_eq!(e, obj(vec![("message", jstr("boom"))]));
        }
        other => panic!("expected the child's error verbatim, got {:?}", other),
    }
    let empty = obj(vec![("jsonrpc", jstr("2.0"))]);
    assert_eq!(interpret_call_reply(&empty), Err(ConduitError::NoResultField));
}

#[test]
fn discovery_tolerates_each_shape() {
    let t = obj(vec![("id", jstr("t"))]);
    // result as a plain array
    let r1 = obj(vec![("result", JsonValue::Arr(vec![clone_json(&t)]))]);
    assert_eq!(interpret_discovery_reply(&r1).unwrap(), vec![clone_json(&t)]);
    // result.tools array
    let r2 = obj(vec![("result", obj(vec![("tools", JsonValue::Arr(vec![clone_json(&t)]))]))]);
    assert_eq!(interpret_discovery_reply(&r2).unwrap(), vec![clone_json(&t)]);
    // a root tools array without a result
    let r3 = obj(vec![("tools", JsonValue::Arr(vec![clone_json(&t)]))]);
    assert_eq!(interpret_discovery_reply(&r3).unwrap(), vec![clone_json(&t)]);
    // an unrecognised result is wrapped as a single entry
    let r4 = obj(vec![("result", jstr("odd"))]);
    assert_eq!(interpret_discovery_reply(&r4).unwrap(), vec![jstr("odd")]);
    // an empty reply is an empty list, not an error
    let r5 = obj(vec![("jsonrpc", jstr("2.0"))]);
    assert_eq!(interpret_discovery_reply(&r5).unwrap(), Vec::<JsonValue>::new());
    // a child error is surfaced
    let r6 = obj(vec![("error", jstr("nope"))]);
    match interpret_discovery_reply(&r6) {
        Err(ConduitError::ErrorReply(e)) => assert_eq!(e, jstr("nope")),
        other => panic!("expected the error surfaced, got {:?}", other),
    }
}

#[test]
fn line_framing() {
    let framed = frame_line(&s("{\"a\":1}")).unwrap();
    assert_eq!(framed, s("{\"a\":1}\n"));
    assert!(matches!(
        frame_line(&s("two\nlines")),
        Err(ConduitError::FramingError)
    ));
    assert_eq!(take_line(&s("first\nrest")), Some((s("first"), s("rest"))));
    assert_eq!(take_line(&s("incomplete")), None);
    assert_eq!(take_line(&s("\n")), Some((s(""), s(""))));
    // framing then cutting gives the document back whole
    let framed = frame_line(&s("{\"jsonrpc\":\"2.0\"}")).unwrap();
    assert_eq!(
        take_line(&framed),
        Some((s("{\"jsonrpc\":\"2.0\"}"), s("")))
    );
}

#[test]
fn unknown_method_is_32601() {
    match route_method(&s("foo")) {
        JsonRpcMethod::Unknown(name) => assert_eq!(name, s("foo")),
        other => panic!("foo routed to {:?}", other),
    }
    let resp = unknown_method_response(JsonValue::Int(1), &s("foo"));
    let err = resp.error.unwrap();
    assert_eq!(err.code, CODE_METHOD_NOT_FOUND);
    assert_eq!(err.message, s("Method 'foo' not found"));
}

#[test]
fn known_methods_route() {
    assert!(matches!(route_method(&s("tools/list")), JsonRpcMethod::ToolsList));
    assert!(matches!(route_method(&s("tools/call")), JsonRpcMethod::ToolsCall));
    assert!(matches!(route_method(&s("tools/hidden")), JsonRpcMethod::ToolsHidden));
    assert!(matches!(route_method(&s("registry/list")), JsonRpcMethod::RegistryList));
    assert!(matches!(route_method(&s("registry/install")), JsonRpcMethod::RegistryInstall));
    assert!(matches!(route_method(&s("registry/import")), JsonRpcMethod::RegistryImport));
    assert!(matches!(route_method(&s("server/config")), JsonRpcMethod::ServerConfig));
    assert!(matches!(route_method(&s("server/start")), JsonRpcMethod::ServerStart));
    assert!(matches!(route_method(&s("server/stop")), JsonRpcMethod::ServerStop));
    assert!(matches!(route_method(&s("server/delete")), JsonRpcMethod::ServerDelete));
    assert!(matches!(route_method(&s("prompts/list")), JsonRpcMethod::PromptsList));
    assert!(matches!(route_method(&s("resources/list")), JsonRpcMethod::ResourcesList));
}

#[test]
fn missing_params_is_32602() {
    let reg = ToolRegistry::new();
    match plan_tool_call(&reg, &None) {
        ToolCallPlan::Refuse { code } => assert_eq!(code, CODE_INVALID_PARAMS),
        other => panic!("missing params accepted: {:?}", other),
    }
    // params without a string name are refused too
    let no_name = Some(obj(vec![("arguments", obj(vec![]))]));
    match plan_tool_call(&reg, &no_name) {
        ToolCallPlan::Refuse { code } => assert_eq!(code, CODE_INVALID_PARAMS),
        other => panic!("missing name accepted: {:?}", other),
    }
}

fn fs_registry() -> ToolRegistry {
    let mut reg = ToolRegistry::new();
    reg.register_tool(ServerRecord {
        id: s("fs"),
        name: s("Filesystem"),
        description: s("files"),
        runtime: Runtime::Node,
        enabled: true,
        entry_point: None,
        command: s("node"),
        args: vec![s("fs.js")],
        distribution: None,
        env: vec![],
    })
    .unwrap();
    reg.apply_discovery(
        &s("fs"),
        vec![obj(vec![("id", jstr("read_file")), ("name", jstr("Read File"))])],
    )
    .unwrap();
    reg
}

#[test]
fn tool_call_routes_to_owning_server() {
    let reg = fs_registry();
    let params = Some(obj(vec![
        ("name", jstr("read_file")),
        ("arguments", obj(vec![("path", jstr("/etc/hostname"))])),
    ]));
    match plan_tool_call(&reg, &params) {
        ToolCallPlan::Forward { server_id, tool_name, args } => {
            assert_eq!(server_id, s("fs"));
            assert_eq!(tool_name, s("read_file"));
            assert_eq!(args, obj(vec![("path", jstr("/etc/hostname"))]));
        }
        other => panic!("call not forwarded: {:?}", other),
    }
    // lookups by tool name match when the id does not
    let by_name = Some(obj(vec![("name", jstr("Read File"))]));
    match plan_tool_call(&reg, &by_name) {
        ToolCallPlan::Forward { server_id, args, .. } => {
            assert_eq!(server_id, s("fs"));
            assert_eq!(args, obj(vec![]));
        }
        other => panic!("call not forwarded by name: {:?}", other),
    }
    // an unknown tool is refused with -32601
    let unknown = Some(obj(vec![("name", jstr("no_such_tool"))]));
    match plan_tool_call(&reg, &unknown) {
        ToolCallPlan::Refuse { code } => assert_eq!(code, CODE_METHOD_NOT_FOUND),
        other => panic!("unknown tool accepted: {:?}", other),
    }
    // the built-in register_server is recognised first
    let builtin = Some(obj(vec![("name", jstr("register_server"))]));
    assert!(matches!(
        plan_tool_call(&reg, &builtin),
        ToolCallPlan::RegisterServer { .. }
    ));
}

#[test]
fn parse_request_envelope() {
    let doc = obj(vec![
        ("jsonrpc", jstr("2.0")),
        ("id", JsonValue::Int(1)),
        ("method", jstr("foo")),
    ]);
    let req = parse_request(&doc).unwrap();
    assert_eq!(req.jsonrpc, s("2.0"));
    assert_eq!(req.id, JsonValue::Int(1));
    assert_eq!(req.method, s("foo"));
    assert!(req.params.is_none());
    // no method, no envelope
    let bad = obj(vec![("jsonrpc", jstr("2.0"))]);
    assert!(parse_request(&bad).is_none());
}

#[test]
fn response_envelopes() {
    let ok = ok_response(JsonValue::Int(3), jstr("fine"));
    assert_eq!(ok.jsonrpc, s("2.0"));
    assert_eq!(ok.result, Some(jstr("fine")));
    assert!(ok.error.is_none());
    let err = error_response(JsonValue::Null, CODE_OPERATIONAL, s("bad"));
    assert!(err.result.is_none());
    assert_eq!(err.error.unwrap().code, CODE_OPERATIONAL);
    let inv = invalid_params_response(JsonValue::Null, s("Missing parameters"));
    assert_eq!(inv.error.unwrap().code, CODE_INVALID_PARAMS);
}

#[test]
fn proxy_id_parsing() {
    assert_eq!(parse_proxy_id(&s("fs:read_file")), Some((s("fs"), s("read_file"))));
    assert_eq!(parse_proxy_id(&s("noseparator")), None);
    assert_eq!(parse_proxy_id(&s("a:b:c")), None);
    assert_eq!(parse_proxy_id(&s(":t")), Some((s(""), s("t"))));
}

#[test]
fn hidden_flag_result() {
    assert_eq!(hidden_result(true), obj(vec![("hidden", JsonValue::Bool(true))]));
    assert_eq!(hidden_result(false), obj(vec![("hidden", JsonValue::Bool(false))]));
}
