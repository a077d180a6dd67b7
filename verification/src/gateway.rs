//! The RPC gateway: the JSON-RPC surface external callers speak to.
//!
//! A caller posts one request envelope; the gateway routes it by method
//! name, validates its params, and answers with one response envelope —
//! `-32601` for a method it does not serve, `-32602` for missing or
//! malformed params, `-32000` for every operational failure. The transport
//! carrying the envelopes is outside; every decision about them is here.

use vstd::prelude::*;
use crate::conduit::ConduitError;
use crate::json::{arr_view, clone_json, obj_view, spec_get, JsonSpec, JsonValue, lemma_obj_unfold};
use crate::kv::{kv_contains, kv_find, kv_unique, lemma_kv_find_at, lemma_kv_find_none,
    lemma_kv_find_push, lemma_kv_find_update};
use crate::registry::{spec_find_server, ToolRegistry};
use crate::store::{env_kv, EnvVar, ServerRecord};
use crate::supervisor::{parse_runtime, plan_env_kv};
use crate::tools::{ProxyTool, ProxyToolSpec};

verus! {

/// The code for a method the gateway does not serve.
pub const CODE_METHOD_NOT_FOUND: i64 = -32601;

/// The code for missing or malformed params.
pub const CODE_INVALID_PARAMS: i64 = -32602;

/// The code for every other operational failure.
pub const CODE_OPERATIONAL: i64 = -32000;

/// A request envelope: `{jsonrpc, id, method, params?}`.
#[derive(Debug)]
pub struct JsonRpcRequest {
    pub jsonrpc: String,
    pub id: JsonValue,
    pub method: String,
    pub params: Option<JsonValue>,
}

/// An error object: `{code, message, data?}`.
#[derive(Debug, PartialEq)]
pub struct JsonRpcError {
    pub code: i64,
    pub message: String,
    pub data: Option<JsonValue>,
}

/// A response envelope: `{jsonrpc: "2.0", id, result? | error?}`.
#[derive(Debug, PartialEq)]
pub struct JsonRpcResponse {
    pub jsonrpc: String,
    pub id: JsonValue,
    pub result: Option<JsonValue>,
    pub error: Option<JsonRpcError>,
}

/// The query parameter naming a caller's event-stream session.
#[derive(Debug)]
pub struct SessionIdParam {
    pub session_id: String,
}

/// The methods the gateway knows by name.
#[derive(Debug)]
pub enum JsonRpcMethod {
    ToolsList,
    ToolsHidden,
    ToolsCall,
    PromptsList,
    PromptsGet,
    ResourcesList,
    ResourcesRead,
    RegistryList,
    RegistryInstall,
    RegistryImport,
    ServerStart,
    ServerStop,
    ServerConfig,
    ServerDelete,
    Unknown(String),
}

/// Route a method name to the method it names; anything else is `Unknown`
/// and will be answered with `-32601`.
pub fn route_method(m: &String) -> (r: JsonRpcMethod)
    ensures
        match r {
            JsonRpcMethod::ToolsList => m@ == "tools/list"@,
            JsonRpcMethod::ToolsHidden => m@ == "tools/hidden"@,
            JsonRpcMethod::ToolsCall => m@ == "tools/call"@,
            JsonRpcMethod::PromptsList => m@ == "prompts/list"@,
            JsonRpcMethod::PromptsGet => m@ == "prompts/get"@,
            JsonRpcMethod::ResourcesList => m@ == "resources/list"@,
            JsonRpcMethod::ResourcesRead => m@ == "resources/read"@,
            JsonRpcMethod::RegistryList => m@ == "registry/list"@,
            JsonRpcMethod::RegistryInstall => m@ == "registry/install"@,
            JsonRpcMethod::RegistryImport => m@ == "registry/import"@,
            JsonRpcMethod::ServerStart => m@ == "server/start"@,
            JsonRpcMethod::ServerStop => m@ == "server/stop"@,
            JsonRpcMethod::ServerConfig => m@ == "server/config"@,
            JsonRpcMethod::ServerDelete => m@ == "server/delete"@,
            JsonRpcMethod::Unknown(s) => s@ == m@ && m@ != "tools/list"@ && m@
                != "tools/hidden"@ && m@ != "tools/call"@ && m@ != "prompts/list"@ && m@
                != "prompts/get"@ && m@ != "resources/list"@ && m@ != "resources/read"@ && m@
                != "registry/list"@ && m@ != "registry/install"@ && m@ != "registry/import"@
                && m@ != "server/start"@ && m@ != "server/stop"@ && m@ != "server/config"@ && m@
                != "server/delete"@,
        },
{
    if *m == "tools/list".to_owned() {
        JsonRpcMethod::ToolsList
    } else if *m == "tools/hidden".to_owned() {
        JsonRpcMethod::ToolsHidden
    } else if *m == "tools/call".to_owned() {
        JsonRpcMethod::ToolsCall
    } else if *m == "prompts/list".to_owned() {
        JsonRpcMethod::PromptsList
    } else if *m == "prompts/get".to_owned() {
        JsonRpcMethod::PromptsGet
    } else if *m == "resources/list".to_owned() {
        JsonRpcMethod::ResourcesList
    } else if *m == "resources/read".to_owned() {
        JsonRpcMethod::ResourcesRead
    } else if *m == "registry/list".to_owned() {
        JsonRpcMethod::RegistryList
    } else if *m == "registry/install".to_owned() {
        JsonRpcMethod::RegistryInstall
    } else if *m == "registry/import".to_owned() {
        JsonRpcMethod::RegistryImport
    } else if *m == "server/start".to_owned() {
        JsonRpcMethod::ServerStart
    } else if *m == "server/stop".to_owned() {
        JsonRpcMethod::ServerStop
    } else if *m == "server/config".to_owned() {
        JsonRpcMethod::ServerConfig
    } else if *m == "server/delete".to_owned() {
        JsonRpcMethod::ServerDelete
    } else {
        JsonRpcMethod::Unknown(m.clone())
    }
}

/// Read a request envelope off a document: an object whose `jsonrpc` and
/// `method` are strings; the id is carried along (`null` where absent), the
/// params verbatim. Anything else is no envelope.
pub fn parse_request(doc: &JsonValue) -> (r: Option<JsonRpcRequest>)
    ensures
        match r {
            Some(req) => {
                &&& spec_get(doc@, "jsonrpc"@) == Some(JsonSpec::Str(req.jsonrpc@))
                &&& spec_get(doc@, "method"@) == Some(JsonSpec::Str(req.method@))
                &&& match spec_get(doc@, "id"@) {
                    Some(v) => req.id@ == v,
                    None => req.id@ == JsonSpec::Null,
                }
                &&& match spec_get(doc@, "params"@) {
                    Some(v) => req.params matches Some(p) && p@ == v,
                    None => req.params is None,
                }
            },
            None => !({
                &&& spec_get(doc@, "jsonrpc"@) matches Some(j) && j is Str
                &&& spec_get(doc@, "method"@) matches Some(m2) && m2 is Str
            }),
        },
{
    let jsonrpc_key = "jsonrpc".to_owned();
    let method_key = "method".to_owned();
    let id_key = "id".to_owned();
    let params_key = "params".to_owned();
    let jsonrpc = match doc.get(&jsonrpc_key) {
        Some(v) => match v.as_str() {
            Some(s) => s.clone(),
            None => {
                return None;
            },
        },
        None => {
            return None;
        },
    };
    let method = match doc.get(&method_key) {
        Some(v) => match v.as_str() {
            Some(s) => s.clone(),
            None => {
                return None;
            },
        },
        None => {
            return None;
        },
    };
    let id = match doc.get(&id_key) {
        Some(v) => clone_json(v),
        None => JsonValue::Null,
    };
    let params = match doc.get(&params_key) {
        Some(v) => Some(clone_json(v)),
        None => None,
    };
    Some(JsonRpcRequest { jsonrpc, id, method, params })
}

/// A success envelope around a result.
pub fn ok_response(id: JsonValue, result: JsonValue) -> (r: JsonRpcResponse)
    ensures
        r.jsonrpc@ == "2.0"@,
        r.id@ == id@,
        r.result matches Some(v) && v@ == result@,
        r.error is None,
{
    JsonRpcResponse { jsonrpc: "2.0".to_owned(), id, result: Some(result), error: None }
}

/// An error envelope around a code and message.
pub fn error_response(id: JsonValue, code: i64, message: String) -> (r: JsonRpcResponse)
    ensures
        r.jsonrpc@ == "2.0"@,
        r.id@ == id@,
        r.result is None,
        r.error matches Some(e) && e.code == code && e.message@ == message@ && e.data is None,
{
    JsonRpcResponse {
        jsonrpc: "2.0".to_owned(),
        id,
        result: None,
        error: Some(JsonRpcError { code, message, data: None }),
    }
}

/// The `-32601` answer for a method the gateway does not serve, naming it.
pub fn unknown_method_response(id: JsonValue, method: &String) -> (r: JsonRpcResponse)
    ensures
        r.jsonrpc@ == "2.0"@,
        r.id@ == id@,
        r.result is None,
        r.error matches Some(e) && e.code == CODE_METHOD_NOT_FOUND && e.message@ == "Method '"@
            + method@ + "' not found"@,
{
    let mut message = "Method '".to_owned();
    message.append(method.as_str());
    message.append("' not found");
    error_response(id, CODE_METHOD_NOT_FOUND, message)
}

/// The `-32602` answer for a request whose params are missing or malformed.
pub fn invalid_params_response(id: JsonValue, message: String) -> (r: JsonRpcResponse)
    ensures
        r.jsonrpc@ == "2.0"@,
        r.id@ == id@,
        r.result is None,
        r.error matches Some(e) && e.code == CODE_INVALID_PARAMS && e.message@ == message@,
{
    error_response(id, CODE_INVALID_PARAMS, message)
}

/// What a `tools/call` request asks for, once validated.
#[derive(Debug)]
pub enum ToolCallPlan {
    /// The built-in `register_server` tool, with its arguments.
    RegisterServer { args: JsonValue },
    /// A child's tool: the server that holds it, the requested name, and the
    /// arguments to forward (an empty object where none were given).
    Forward { server_id: String, tool_name: String, args: JsonValue },
    /// The request is answered at once with this code: `-32602` for missing
    /// params or name, `-32601` for a tool no server has.
    Refuse { code: i64 },
}

/// The arguments a params object carries, an empty object where absent.
pub open spec fn spec_call_args(p: JsonSpec) -> JsonSpec {
    match spec_get(p, "arguments"@) {
        Some(v) => v,
        None => JsonSpec::Obj(Seq::empty()),
    }
}

/// Validate and route a `tools/call` request: no params or no string name
/// is refused with `-32602`; the name `register_server` is the built-in;
/// any other name is looked up across every server's tools, by id then by
/// name, and an unmatched name is refused with `-32601`.
pub fn plan_tool_call(reg: &ToolRegistry, params: &Option<JsonValue>) -> (r: ToolCallPlan)
    requires
        reg.wf(),
    ensures
        match r {
            ToolCallPlan::Refuse { code } => {
                ||| (code == CODE_INVALID_PARAMS && match *params {
                    Some(p) => !(spec_get(p@, "name"@) matches Some(n) && n is Str),
                    None => true,
                })
                ||| ({
                    &&& code == CODE_METHOD_NOT_FOUND
                    &&& *params matches Some(p)
                    &&& spec_get(p@, "name"@) matches Some(n) && n is Str && n->Str_0
                        != "register_server"@ && spec_find_server(reg.tools(), n->Str_0) is None
                })
            },
            ToolCallPlan::RegisterServer { args } => *params matches Some(p) && spec_get(
                p@,
                "name"@,
            ) == Some(JsonSpec::Str("register_server"@)) && args@ == spec_call_args(p@),
            ToolCallPlan::Forward { server_id, tool_name, args } => *params matches Some(p)
                && spec_get(p@, "name"@) == Some(JsonSpec::Str(tool_name@)) && tool_name@
                != "register_server"@ && spec_find_server(reg.tools(), tool_name@) == Some(
                server_id@,
            ) && args@ == spec_call_args(p@),
        },
{
    let p = match params {
        Some(p) => p,
        None => {
            return ToolCallPlan::Refuse { code: CODE_INVALID_PARAMS };
        },
    };
    let name_key = "name".to_owned();
    let name = match p.get(&name_key) {
        Some(v) => match v.as_str() {
            Some(s) => s.clone(),
            None => {
                return ToolCallPlan::Refuse { code: CODE_INVALID_PARAMS };
            },
        },
        None => {
            return ToolCallPlan::Refuse { code: CODE_INVALID_PARAMS };
        },
    };
    let args_key = "arguments".to_owned();
    let args = match p.get(&args_key) {
        Some(v) => clone_json(v),
        None => {
            let empty_fields: Vec<(String, JsonValue)> = Vec::new();
            proof {
                lemma_obj_unfold(empty_fields);
                assert(obj_view(empty_fields@) =~= Seq::<(Seq<char>, JsonSpec)>::empty());
            }
            JsonValue::Obj(empty_fields)
        },
    };
    if name == "register_server".to_owned() {
        return ToolCallPlan::RegisterServer { args };
    }
    match reg.find_server_for_tool(&name) {
        Some(server_id) => ToolCallPlan::Forward { server_id, tool_name: name, args },
        None => ToolCallPlan::Refuse { code: CODE_METHOD_NOT_FOUND },
    }
}

/// The `-32000` answer for a call that failed in transport or in the child.
/// A transport failure is named in the message; a child's error object is
/// surfaced verbatim — its `message` text as the message, where it carries
/// one, and the whole object under `data`.
pub fn call_failure_response(id: JsonValue, e: &ConduitError) -> (r: JsonRpcResponse)
    ensures
        r.jsonrpc@ == "2.0"@,
        r.id@ == id@,
        r.result is None,
        r.error matches Some(err) && err.code == CODE_OPERATIONAL,
        (e matches ConduitError::Timeout ==> r.error->Some_0.message@
            == "Timeout waiting for response"@ && r.error->Some_0.data is None),
        (e matches ConduitError::ServerClosedConnection ==> r.error->Some_0.message@
            == "Server closed connection"@ && r.error->Some_0.data is None),
        (e matches ConduitError::NoResponse ==> r.error->Some_0.message@
            == "No response from server"@ && r.error->Some_0.data is None),
        (e matches ConduitError::NoResultField ==> r.error->Some_0.message@
            == "Response carried no result"@ && r.error->Some_0.data is None),
        (e matches ConduitError::ToolExecutionError(child_err) ==> ({
            &&& r.error->Some_0.data matches Some(d) && d@ == child_err@
            &&& r.error->Some_0.message@ == spec_child_error_message(
                child_err@,
                "Tool execution failed"@,
            )
        })),
        (e matches ConduitError::ErrorReply(child_err) ==> ({
            &&& r.error->Some_0.data matches Some(d) && d@ == child_err@
            &&& r.error->Some_0.message@ == spec_child_error_message(
                child_err@,
                "Server returned an error"@,
            )
        })),
{
    let (message, data) = match e {
        ConduitError::ServerClosedConnection => ("Server closed connection".to_owned(), None),
        ConduitError::NoResponse => ("No response from server".to_owned(), None),
        ConduitError::Timeout => ("Timeout waiting for response".to_owned(), None),
        ConduitError::ParseError => ("Response was not valid JSON".to_owned(), None),
        ConduitError::FramingError => ("Request could not be framed".to_owned(), None),
        ConduitError::DuplicateRequestId => (
            "A request under this id is in flight".to_owned(),
            None,
        ),
        ConduitError::ToolExecutionError(child_err) => (
            child_error_message(child_err, "Tool execution failed"),
            Some(clone_json(child_err)),
        ),
        ConduitError::ErrorReply(child_err) => (
            child_error_message(child_err, "Server returned an error"),
            Some(clone_json(child_err)),
        ),
        ConduitError::NoResultField => ("Response carried no result".to_owned(), None),
    };
    JsonRpcResponse {
        jsonrpc: "2.0".to_owned(),
        id,
        result: None,
        error: Some(JsonRpcError { code: CODE_OPERATIONAL, message, data }),
    }
}

/// The text a child's error object speaks with: its `message` field where
/// that is a string, the given fallback otherwise.
pub open spec fn spec_child_error_message(err: JsonSpec, fallback: Seq<char>) -> Seq<char> {
    match spec_get(err, "message"@) {
        Some(m) => if m is Str {
            m->Str_0
        } else {
            fallback
        },
        None => fallback,
    }
}

/// Read a child error's `message` text, with the fallback where it has none.
fn child_error_message(err: &JsonValue, fallback: &str) -> (r: String)
    ensures
        r@ == spec_child_error_message(err@, fallback@),
{
    let message_key = "message".to_owned();
    match err.get(&message_key) {
        Some(v) => match v.as_str() {
            Some(m) => m.clone(),
            None => fallback.to_owned(),
        },
        None => fallback.to_owned(),
    }
}

/// The last value an object holds under a key — later fields override
/// earlier ones, as the wire format's readers do.
pub open spec fn kv_find_last<V>(s: Seq<(Seq<char>, V)>, k: Seq<char>) -> Option<V>
    decreases s.len(),
{
    if s.len() == 0 {
        None
    } else if s.last().0 == k {
        Some(s.last().1)
    } else {
        kv_find_last(s.drop_last(), k)
    }
}

/// What a `server/config` request asks for, once validated.
pub struct ConfigPatch {
    pub tool_id: String,
    pub env: Vec<(String, String)>,
}

/// Whether every value of an env object is a string.
pub open spec fn spec_env_all_strings(fields: Seq<(Seq<char>, JsonSpec)>) -> bool {
    forall|i: int| 0 <= i < fields.len() ==> (#[trigger] fields[i]).1 is Str
}

/// Validate a `server/config` request: params must hold a string `tool_id`
/// and a `config` object; its `env`, where present, must be an object of
/// string values. The patch holds each env key once, under its last value.
pub fn parse_config_params(params: &Option<JsonValue>) -> (r: Option<ConfigPatch>)
    ensures
        match r {
            Some(patch) => {
                &&& *params matches Some(p) && spec_get(p@, "tool_id"@) == Some(
                    JsonSpec::Str(patch.tool_id@),
                )
                &&& *params matches Some(p) && spec_get(p@, "config"@) matches Some(c) && c is Obj
                &&& kv_unique(plan_env_kv(patch.env@))
                &&& *params matches Some(p) && match spec_get(
                    spec_get(p@, "config"@)->Some_0,
                    "env"@,
                ) {
                    Some(e) => e is Obj && spec_env_all_strings(e->Obj_0) && forall|k: Seq<char>|
                        #[trigger] kv_find(plan_env_kv(patch.env@), k) == (match kv_find_last(
                            e->Obj_0,
                            k,
                        ) {
                            Some(v) => Some(v->Str_0),
                            None => None,
                        }),
                    None => patch.env@.len() == 0,
                }
            },
            None => match *params {
                Some(p) => !({
                    &&& spec_get(p@, "tool_id"@) matches Some(t) && t is Str
                    &&& spec_get(p@, "config"@) matches Some(c) && c is Obj
                    &&& match spec_get(spec_get(p@, "config"@)->Some_0, "env"@) {
                        Some(e) => e is Obj && spec_env_all_strings(e->Obj_0),
                        None => true,
                    }
                }),
                None => true,
            },
        },
{
    let p = match params {
        Some(p) => p,
        None => {
            return None;
        },
    };
    let tool_id_key = "tool_id".to_owned();
    let config_key = "config".to_owned();
    let env_key = "env".to_owned();
    let tool_id = match p.get(&tool_id_key) {
        Some(v) => match v.as_str() {
            Some(s) => s.clone(),
            None => {
                return None;
            },
        },
        None => {
            return None;
        },
    };
    let config = match p.get(&config_key) {
        Some(c) => c,
        None => {
            return None;
        },
    };
    let config_fields = match config {
        JsonValue::Obj(fields) => fields,
        _ => {
            return None;
        },
    };
    proof {
        lemma_obj_unfold(*config_fields);
    }
    let env_fields = match config.get(&env_key) {
        Some(e) => match e {
            JsonValue::Obj(fields) => {
                proof {
                    lemma_obj_unfold(*fields);
                }
                Some(fields)
            },
            _ => {
                return None;
            },
        },
        None => None,
    };
    let env = match env_fields {
        Some(fields) => {
            let ghost full = obj_view(fields@);
            let mut out: Vec<(String, String)> = Vec::new();
            let mut i: usize = 0;
            while i < fields.len()
                invariant
                    (*params) matches Some(pv) && spec_get(pv@, "config"@) matches Some(c) && c
                        is Obj && spec_get(c, "env"@) == Some(JsonSpec::Obj(full)),
                    i <= fields@.len(),
                    full == obj_view(fields@),
                    spec_env_all_strings(full.subrange(0, i as int)),
                    kv_unique(plan_env_kv(out@)),
                    forall|k: Seq<char>|
                        #[trigger] kv_find(plan_env_kv(out@), k) == (match kv_find_last(
                            full.subrange(0, i as int),
                            k,
                        ) {
                            Some(v) => Some(v->Str_0),
                            None => None::<Seq<char>>,
                        }),
                decreases fields@.len() - i,
            {
                let ghost prefix = full.subrange(0, i as int);
                let ghost prefix2 = full.subrange(0, i as int + 1);
                proof {
                    assert(prefix2.drop_last() =~= prefix);
                    assert(prefix2.last() == full[i as int]);
                }
                let value = match fields[i].1.as_str() {
                    Some(s) => s.clone(),
                    None => {
                        proof {
                            assert(full[i as int].1 == fields@[i as int].1@);
                            assert(!(full[i as int].1 is Str));
                            assert(!spec_env_all_strings(full));
                        }
                        return None;
                    },
                };
                let ghost pre_out = plan_env_kv(out@);
                match find_patch_index(&out, &fields[i].0) {
                    Some(idx) => {
                        proof {
                            lemma_kv_find_at(pre_out, fields@[i as int].0@, idx as int);
                        }
                        let key_copy = out[idx].0.clone();
                        out[idx] = (key_copy, value);
                        proof {
                            assert(plan_env_kv(out@) =~= pre_out.update(
                                idx as int,
                                (fields@[i as int].0@, plan_env_kv(out@)[idx as int].1),
                            ));
                            assert forall|k: Seq<char>|
                                #[trigger] kv_find(plan_env_kv(out@), k) == (match kv_find_last(
                                    prefix2,
                                    k,
                                ) {
                                    Some(v) => Some(v->Str_0),
                                    None => None::<Seq<char>>,
                                }) by {
                                lemma_kv_find_update(
                                    pre_out,
                                    idx as int,
                                    plan_env_kv(out@)[idx as int].1,
                                    k,
                                );
                            }
                        }
                    },
                    None => {
                        proof {
                            lemma_kv_find_none(pre_out, fields@[i as int].0@);
                        }
                        let key_copy = fields[i].0.clone();
                        out.push((key_copy, value));
                        proof {
                            assert(plan_env_kv(out@) =~= pre_out.push(
                                (fields@[i as int].0@, plan_env_kv(out@).last().1),
                            ));
                            assert forall|k: Seq<char>|
                                #[trigger] kv_find(plan_env_kv(out@), k) == (match kv_find_last(
                                    prefix2,
                                    k,
                                ) {
                                    Some(v) => Some(v->Str_0),
                                    None => None::<Seq<char>>,
                                }) by {
                                lemma_kv_find_push(
                                    pre_out,
                                    fields@[i as int].0@,
                                    plan_env_kv(out@).last().1,
                                    k,
                                );
                            }
                            assert(kv_unique(plan_env_kv(out@)));
                        }
                    },
                }
                i += 1;
            }
            proof {
                assert(full.subrange(0, fields@.len() as int) =~= full);
            }
            out
        },
        None => Vec::new(),
    };
    Some(ConfigPatch { tool_id, env })
}

/// The index in a patch holding the key, if any.
fn find_patch_index(patch: &Vec<(String, String)>, key: &String) -> (r: Option<usize>)
    ensures
        match r {
            Some(i) => i < patch@.len() && patch@[i as int].0@ == key@ && (forall|q: int|
                0 <= q < i ==> patch@[q].0@ != key@),
            None => forall|q: int| 0 <= q < patch@.len() ==> patch@[q].0@ != key@,
        },
{
    let mut i: usize = 0;
    while i < patch.len()
        invariant
            i <= patch@.len(),
            forall|q: int| 0 <= q < i ==> patch@[q].0@ != key@,
        decreases patch@.len() - i,
    {
        if patch[i].0 == *key {
            return Some(i);
        }
        i += 1;
    }
    None
}

/// The default schema a listed tool receives when its document names none:
/// an unconstrained object.
pub open spec fn spec_default_schema() -> JsonSpec {
    JsonSpec::Obj(seq![("type"@, JsonSpec::Str("object"@))])
}

/// The namespace entry of one tool as `tools/list` reports it: the tool's
/// own fields, the default `input_schema` where the document carries none,
/// and `server_id` and `proxy_id` laid on after them.
pub open spec fn spec_proxy_tool_json(p: ProxyToolSpec) -> JsonSpec {
    JsonSpec::Obj(
        (match p.doc {
            JsonSpec::Obj(fields) => fields,
            _ => Seq::empty(),
        }) + (if spec_get(p.doc, "input_schema"@) is Some {
            Seq::empty()
        } else {
            seq![("input_schema"@, spec_default_schema())]
        }) + seq![
            ("server_id"@, JsonSpec::Str(p.server_id)),
            ("proxy_id"@, JsonSpec::Str(p.proxy_id)),
        ],
    )
}

/// Build the default schema document.
fn default_schema_json() -> (r: JsonValue)
    ensures
        r@ == spec_default_schema(),
{
    let mut fields: Vec<(String, JsonValue)> = Vec::new();
    fields.push(("type".to_owned(), JsonValue::Str("object".to_owned())));
    proof {
        lemma_obj_unfold(fields);
        assert(obj_view(fields@) =~~= spec_default_schema()->Obj_0);
    }
    JsonValue::Obj(fields)
}

/// Render one namespace entry for `tools/list`.
pub fn proxy_tool_json(p: &ProxyTool) -> (r: JsonValue)
    ensures
        r@ == spec_proxy_tool_json(p@),
{
    let mut fields: Vec<(String, JsonValue)> = match &p.doc {
        JsonValue::Obj(fs) => {
            proof {
                lemma_obj_unfold(*fs);
            }
            clone_fields(fs)
        },
        _ => Vec::new(),
    };
    let ghost base = obj_view(fields@);
    let schema_key = "input_schema".to_owned();
    let has_schema = match p.doc.get(&schema_key) {
        Some(_) => true,
        None => false,
    };
    if !has_schema {
        fields.push(("input_schema".to_owned(), default_schema_json()));
    }
    let ghost with_schema = obj_view(fields@);
    proof {
        assert(with_schema =~~= base + (if spec_get(p@.doc, "input_schema"@) is Some {
            Seq::<(Seq<char>, JsonSpec)>::empty()
        } else {
            seq![("input_schema"@, spec_default_schema())]
        }));
    }
    fields.push(("server_id".to_owned(), JsonValue::Str(p.server_id.clone())));
    fields.push(("proxy_id".to_owned(), JsonValue::Str(p.proxy_id.clone())));
    proof {
        lemma_obj_unfold(fields);
        assert(obj_view(fields@) =~~= with_schema + seq![
            ("server_id"@, JsonSpec::Str(p.server_id@)),
            ("proxy_id"@, JsonSpec::Str(p.proxy_id@)),
        ]);
        assert(spec_proxy_tool_json(p@)->Obj_0 =~~= with_schema + seq![
            ("server_id"@, JsonSpec::Str(p.server_id@)),
            ("proxy_id"@, JsonSpec::Str(p.proxy_id@)),
        ]);
    }
    JsonValue::Obj(fields)
}

/// Copy an object's field list.
fn clone_fields(fields: &Vec<(String, JsonValue)>) -> (r: Vec<(String, JsonValue)>)
    ensures
        obj_view(r@) == obj_view(fields@),
{
    let mut out: Vec<(String, JsonValue)> = Vec::new();
    let mut i: usize = 0;
    while i < fields.len()
        invariant
            i <= fields@.len(),
            out@.len() == i,
            forall|q: int| 0 <= q < i ==> out@[q].0@ == fields@[q].0@ && out@[q].1@
                == fields@[q].1@,
        decreases fields@.len() - i,
    {
        let k = fields[i].0.clone();
        let v = clone_json(&fields[i].1);
        out.push((k, v));
        i += 1;
    }
    proof {
        assert(obj_view(out@) =~= obj_view(fields@));
    }
    out
}

/// The built-in `register_server` tool, always the first entry of
/// `tools/list`, under its own input schema: an object demanding the
/// `tool_id` of the catalog entry to install.
pub open spec fn spec_builtin_tool() -> JsonSpec {
    JsonSpec::Obj(
        seq![
            ("id"@, JsonSpec::Str("register_server"@)),
            ("name"@, JsonSpec::Str("register_server"@)),
            (
                "description"@,
                JsonSpec::Str("Install a server from the registry by its tool id"@),
            ),
            ("server_id"@, JsonSpec::Str("builtin"@)),
            (
                "input_schema"@,
                JsonSpec::Obj(
                    seq![
                        ("type"@, JsonSpec::Str("object"@)),
                        (
                            "properties"@,
                            JsonSpec::Obj(
                                seq![
                                    (
                                        "tool_id"@,
                                        JsonSpec::Obj(
                                            seq![("type"@, JsonSpec::Str("string"@))],
                                        ),
                                    ),
                                ],
                            ),
                        ),
                        (
                            "required"@,
                            JsonSpec::Arr(seq![JsonSpec::Str("tool_id"@)]),
                        ),
                    ],
                ),
            ),
        ],
    )
}

/// Render the built-in `register_server` entry.
pub fn builtin_tool_json() -> (r: JsonValue)
    ensures
        r@ == spec_builtin_tool(),
{
    let mut tool_id_schema: Vec<(String, JsonValue)> = Vec::new();
    tool_id_schema.push(("type".to_owned(), JsonValue::Str("string".to_owned())));
    proof {
        lemma_obj_unfold(tool_id_schema);
        assert(obj_view(tool_id_schema@) =~~= seq![("type"@, JsonSpec::Str("string"@))]);
    }
    let mut properties: Vec<(String, JsonValue)> = Vec::new();
    properties.push(("tool_id".to_owned(), JsonValue::Obj(tool_id_schema)));
    proof {
        lemma_obj_unfold(properties);
        assert(obj_view(properties@) =~~= seq![
            ("tool_id"@, JsonSpec::Obj(seq![("type"@, JsonSpec::Str("string"@))])),
        ]);
    }
    let mut required: Vec<JsonValue> = Vec::new();
    required.push(JsonValue::Str("tool_id".to_owned()));
    proof {
        crate::json::lemma_arr_unfold(required);
        assert(arr_view(required@) =~~= seq![JsonSpec::Str("tool_id"@)]);
    }
    let mut schema: Vec<(String, JsonValue)> = Vec::new();
    schema.push(("type".to_owned(), JsonValue::Str("object".to_owned())));
    schema.push(("properties".to_owned(), JsonValue::Obj(properties)));
    schema.push(("required".to_owned(), JsonValue::Arr(required)));
    proof {
        lemma_obj_unfold(schema);
        assert(obj_view(schema@) =~~= spec_builtin_tool()->Obj_0[4].1->Obj_0);
    }
    let mut fields: Vec<(String, JsonValue)> = Vec::new();
    fields.push(("id".to_owned(), JsonValue::Str("register_server".to_owned())));
    fields.push(("name".to_owned(), JsonValue::Str("register_server".to_owned())));
    fields.push((
        "description".to_owned(),
        JsonValue::Str("Install a server from the registry by its tool id".to_owned()),
    ));
    fields.push(("server_id".to_owned(), JsonValue::Str("builtin".to_owned())));
    fields.push(("input_schema".to_owned(), JsonValue::Obj(schema)));
    proof {
        lemma_obj_unfold(fields);
        let target = spec_builtin_tool()->Obj_0;
        assert(obj_view(fields@)[0] =~~= target[0]);
        assert(obj_view(fields@)[1] =~~= target[1]);
        assert(obj_view(fields@)[2] =~~= target[2]);
        assert(obj_view(fields@)[3] =~~= target[3]);
        assert(obj_view(fields@)[4] =~~= target[4]);
        assert(obj_view(fields@) =~~= target);
    }
    JsonValue::Obj(fields)
}

/// The `tools/list` result: the built-in tool first, then every namespace
/// entry in table order.
pub fn tools_list_result(reg: &ToolRegistry) -> (r: JsonValue)
    requires
        reg.wf(),
    ensures
        ({
            &&& r@ matches JsonSpec::Obj(fields)
            &&& fields.len() == 1
            &&& fields[0].0 == "tools"@
            &&& fields[0].1 matches JsonSpec::Arr(items)
            &&& items.len() == 1 + crate::tools::spec_all_tools(reg.tools()).len()
            &&& items[0] == spec_builtin_tool()
            &&& forall|i: int|
                0 <= i < crate::tools::spec_all_tools(reg.tools()).len() ==> items[i + 1]
                    == spec_proxy_tool_json(crate::tools::spec_all_tools(reg.tools())[i])
        }),
{
    let entries = reg.list_all_server_tools();
    let mut items: Vec<JsonValue> = Vec::new();
    items.push(builtin_tool_json());
    let mut i: usize = 0;
    while i < entries.len()
        invariant
            i <= entries@.len(),
            crate::registry::proxy_views(entries@) == crate::tools::spec_all_tools(reg.tools()),
            items@.len() == i + 1,
            items@[0]@ == spec_builtin_tool(),
            forall|q: int| 0 <= q < i ==> items@[q + 1]@ == spec_proxy_tool_json(
                crate::tools::spec_all_tools(reg.tools())[q],
            ),
        decreases entries@.len() - i,
    {
        proof {
            assert(crate::registry::proxy_views(entries@)[i as int] == entries@[i as int]@);
        }
        items.push(proxy_tool_json(&entries[i]));
        i += 1;
    }
    let mut fields: Vec<(String, JsonValue)> = Vec::new();
    fields.push(("tools".to_owned(), JsonValue::Arr(items)));
    proof {
        lemma_obj_unfold(fields);
        crate::json::lemma_arr_unfold(fields@[0].1->Arr_0);
    }
    JsonValue::Obj(fields)
}

/// Split a proxy id at its separator: the server id, then the tool id,
/// neither holding the separator itself. A text with no separator, or more
/// than one, is no proxy id.
pub fn parse_proxy_id(s: &String) -> (r: Option<(String, String)>)
    ensures
        match r {
            Some(pair) => s@ == pair.0@ + seq![':'] + pair.1@ && !pair.0@.contains(':')
                && !pair.1@.contains(':'),
            None => !(exists|a: Seq<char>, b: Seq<char>|
                s@ == a + seq![':'] + b && !a.contains(':') && !b.contains(':')),
        },
{
    let st = s.as_str();
    let n = st.unicode_len();
    let mut i: usize = 0;
    while i < n
        invariant
            st@ == s@,
            n == s@.len(),
            i <= n,
            forall|q: int| 0 <= q < i ==> s@[q] != ':',
        decreases n - i,
    {
        if st.get_char(i) == ':' {
            // make sure there is no second separator
            let mut j: usize = i + 1;
            while j < n
                invariant
                    st@ == s@,
                    n == s@.len(),
                    i < n,
                    s@[i as int] == ':',
                    i < j <= n,
                    forall|q: int| i < q < j ==> s@[q] != ':',
                decreases n - j,
            {
                if st.get_char(j) == ':' {
                    proof {
                        lemma_no_proxy_split(s@, i as int, j as int);
                    }
                    return None;
                }
                j += 1;
            }
            let server = st.substring_char(0, i).to_owned();
            let tool = st.substring_char(i + 1, n).to_owned();
            proof {
                assert(server@ =~= s@.subrange(0, i as int));
                assert(tool@ =~= s@.subrange(i as int + 1, n as int));
                assert(s@ =~= server@ + seq![':'] + tool@);
                assert(!server@.contains(':'));
                assert(!tool@.contains(':'));
            }
            return Some((server, tool));
        }
        i += 1;
    }
    proof {
        assert forall|a: Seq<char>, b: Seq<char>|
            !(s@ == a + seq![':'] + b && !a.contains(':') && !b.contains(':')) by {
            if s@ == a + seq![':'] + b {
                assert(s@[a.len() as int] == ':');
            }
        }
    }
    None
}

/// A text with two separators decomposes under no colon-free split.
proof fn lemma_no_proxy_split(s: Seq<char>, i: int, j: int)
    requires
        0 <= i < j < s.len(),
        s[i] == ':',
        s[j] == ':',
    ensures
        !(exists|a: Seq<char>, b: Seq<char>|
            s == a + seq![':'] + b && !a.contains(':') && !b.contains(':')),
{
    assert forall|a: Seq<char>, b: Seq<char>|
        !(s == a + seq![':'] + b && !a.contains(':') && !b.contains(':')) by {
        if s == a + seq![':'] + b && !a.contains(':') && !b.contains(':') {
            if i < a.len() {
                assert(s[i] == a[i]);
                assert(a.contains(':'));
            } else if i > a.len() {
                assert(s[i] == b[i - a.len() - 1]);
                assert(b.contains(':'));
            } else {
                assert(j > a.len());
                assert(s[j] == b[j - a.len() - 1]);
                assert(b.contains(':'));
            }
        }
    }
}

/// Read the string values of an env object into name-value pairs, each key
/// once under its last value; an object holding any non-string value is
/// refused, as the configuration schema demands strings.
pub fn env_pairs_from_obj(fields: &Vec<(String, JsonValue)>) -> (r: Option<Vec<(String, String)>>)
    ensures
        match r {
            Some(pairs) => spec_env_all_strings(obj_view(fields@)) && kv_unique(
                plan_env_kv(pairs@),
            ) && forall|k: Seq<char>|
                #[trigger] kv_find(plan_env_kv(pairs@), k) == (match kv_find_last(
                    obj_view(fields@),
                    k,
                ) {
                    Some(v) => Some(v->Str_0),
                    None => None::<Seq<char>>,
                }),
            None => !spec_env_all_strings(obj_view(fields@)),
        },
{
    let ghost full = obj_view(fields@);
    let mut out: Vec<(String, String)> = Vec::new();
    let mut i: usize = 0;
    while i < fields.len()
        invariant
            i <= fields@.len(),
            full == obj_view(fields@),
            spec_env_all_strings(full.subrange(0, i as int)),
            kv_unique(plan_env_kv(out@)),
            forall|k: Seq<char>|
                #[trigger] kv_find(plan_env_kv(out@), k) == (match kv_find_last(
                    full.subrange(0, i as int),
                    k,
                ) {
                    Some(v) => Some(v->Str_0),
                    None => None::<Seq<char>>,
                }),
        decreases fields@.len() - i,
    {
        let ghost prefix = full.subrange(0, i as int);
        let ghost prefix2 = full.subrange(0, i as int + 1);
        proof {
            assert(prefix2.drop_last() =~= prefix);
            assert(prefix2.last() == full[i as int]);
        }
        let value = match fields[i].1.as_str() {
            Some(s2) => s2.clone(),
            None => {
                proof {
                    assert(full[i as int].1 == fields@[i as int].1@);
                    assert(!spec_env_all_strings(full));
                }
                return None;
            },
        };
        let ghost pre_out = plan_env_kv(out@);
        match find_patch_index(&out, &fields[i].0) {
            Some(idx) => {
                proof {
                    lemma_kv_find_at(pre_out, fields@[i as int].0@, idx as int);
                }
                let key_copy = out[idx].0.clone();
                out[idx] = (key_copy, value);
                proof {
                    assert(plan_env_kv(out@) =~= pre_out.update(
                        idx as int,
                        (fields@[i as int].0@, plan_env_kv(out@)[idx as int].1),
                    ));
                    assert forall|k: Seq<char>|
                        #[trigger] kv_find(plan_env_kv(out@), k) == (match kv_find_last(
                            prefix2,
                            k,
                        ) {
                            Some(v) => Some(v->Str_0),
                            None => None::<Seq<char>>,
                        }) by {
                        lemma_kv_find_update(
                            pre_out,
                            idx as int,
                            plan_env_kv(out@)[idx as int].1,
                            k,
                        );
                    }
                }
            },
            None => {
                proof {
                    lemma_kv_find_none(pre_out, fields@[i as int].0@);
                }
                let key_copy = fields[i].0.clone();
                out.push((key_copy, value));
                proof {
                    assert(plan_env_kv(out@) =~= pre_out.push(
                        (fields@[i as int].0@, plan_env_kv(out@).last().1),
                    ));
                    assert forall|k: Seq<char>|
                        #[trigger] kv_find(plan_env_kv(out@), k) == (match kv_find_last(
                            prefix2,
                            k,
                        ) {
                            Some(v) => Some(v->Str_0),
                            None => None::<Seq<char>>,
                        }) by {
                        lemma_kv_find_push(
                            pre_out,
                            fields@[i as int].0@,
                            plan_env_kv(out@).last().1,
                            k,
                        );
                    }
                    assert(kv_unique(plan_env_kv(out@)));
                }
            },
        }
        i += 1;
    }
    proof {
        assert(full.subrange(0, fields@.len() as int) =~= full);
    }
    Some(out)
}

/// Lookup in an env list built pair-for-pair from name-value pairs mirrors
/// lookup in the pairs.
proof fn lemma_env_kv_mapped(
    pairs: Seq<(Seq<char>, Seq<char>)>,
    env: Seq<(Seq<char>, crate::store::EnvVarSpec)>,
)
    requires
        env.len() == pairs.len(),
        forall|i: int| 0 <= i < pairs.len() ==> (#[trigger] env[i]).0 == pairs[i].0 && env[i].1
            == (crate::store::EnvVarSpec {
            value: pairs[i].1,
            description: Seq::empty(),
            required: false,
        }),
    ensures
        forall|k: Seq<char>| #[trigger] kv_find(env, k) == (match kv_find(pairs, k) {
            Some(v) => Some(
                crate::store::EnvVarSpec {
                    value: v,
                    description: Seq::empty(),
                    required: false,
                },
            ),
            None => None,
        }),
    decreases pairs.len(),
{
    if pairs.len() > 0 {
        assert(env.drop_first().len() == pairs.drop_first().len());
        assert forall|i: int| 0 <= i < pairs.drop_first().len() implies (#[trigger] env.drop_first()[i]).0
            == pairs.drop_first()[i].0 && env.drop_first()[i].1 == (crate::store::EnvVarSpec {
            value: pairs.drop_first()[i].1,
            description: Seq::empty(),
            required: false,
        }) by {
            assert(env.drop_first()[i] == env[i + 1]);
            assert(pairs.drop_first()[i] == pairs[i + 1]);
        }
        lemma_env_kv_mapped(pairs.drop_first(), env.drop_first());
        assert forall|k: Seq<char>| #[trigger] kv_find(env, k) == (match kv_find(pairs, k) {
            Some(v) => Some(
                crate::store::EnvVarSpec {
                    value: v,
                    description: Seq::empty(),
                    required: false,
                },
            ),
            None => None,
        }) by {
            if env[0].0 == k {
            } else {
                assert(kv_find(env, k) == kv_find(env.drop_first(), k));
                assert(kv_find(pairs, k) == kv_find(pairs.drop_first(), k));
            }
        }
    }
}

/// What a `registry/install` request asks for.
#[derive(Debug, PartialEq)]
pub enum InstallRequest {
    /// Install the catalog entry carrying this id.
    ById { tool_id: String },
    /// Install this record, given in full.
    ByRecord { record: ServerRecord },
}

/// Whether params carry an explicit record: the four mandatory string
/// fields are present.
pub open spec fn spec_is_record_install(p: JsonSpec) -> bool {
    &&& spec_get(p, "id"@) matches Some(v) && v is Str
    &&& spec_get(p, "name"@) matches Some(v) && v is Str
    &&& spec_get(p, "description"@) matches Some(v) && v is Str
    &&& spec_get(p, "type"@) matches Some(v) && v is Str
}

/// Whether an explicit record's `type` names a supported runtime.
pub open spec fn spec_install_runtime_ok(p: JsonSpec) -> bool {
    let rt = spec_get(p, "type"@)->Some_0->Str_0;
    rt == "node"@ || rt == "python"@ || rt == "docker"@
}

/// Whether an explicit record's configuration env, where it carries one, is
/// an object of string values — what the configuration schema demands.
pub open spec fn spec_install_env_ok(p: JsonSpec) -> bool {
    match spec_get(crate::catalog::spec_field_or_null(p, "configuration"@), "env"@) {
        Some(e) => e is Obj && spec_env_all_strings(e->Obj_0),
        None => true,
    }
}

/// Validate a `registry/install` request. An explicit record — string
/// `id`, `name`, `description` and `type`, with an optional `configuration`
/// `{command, args, env}` and `distribution` — is taken as given, disabled
/// runtimes refused with `-32000`; otherwise a string `tool_id` names a
/// catalog entry; anything else is refused with `-32602`.
pub fn parse_install_request(params: &JsonValue) -> (r: Result<InstallRequest, i64>)
    ensures
        match r {
            Ok(req) => match req {
                InstallRequest::ById { tool_id } => !spec_is_record_install(params@)
                    && spec_get(params@, "tool_id"@) == Some(JsonSpec::Str(tool_id@)),
                InstallRequest::ByRecord { record } => {
                    &&& spec_is_record_install(params@)
                    &&& record@.id == spec_get(params@, "id"@)->Some_0->Str_0
                    &&& record@.name == spec_get(params@, "name"@)->Some_0->Str_0
                    &&& record@.description == spec_get(params@, "description"@)->Some_0->Str_0
                    &&& record@.enabled
                    &&& record@.entry_point is None
                    &&& {
                        let rt = spec_get(params@, "type"@)->Some_0->Str_0;
                        ||| (rt == "node"@ && record.runtime == crate::store::Runtime::Node)
                        ||| (rt == "python"@ && record.runtime == crate::store::Runtime::Python)
                        ||| (rt == "docker"@ && record.runtime == crate::store::Runtime::Docker)
                    }
                    &&& record@.command == crate::tools::spec_str_field(
                        crate::catalog::spec_field_or_null(params@, "configuration"@),
                        "command"@,
                    )
                    &&& record@.args == crate::catalog::spec_args_of(
                        crate::catalog::spec_field_or_null(params@, "configuration"@),
                    )
                    &&& record@.distribution == crate::catalog::spec_dist_of(params@)
                    &&& match spec_get(
                        crate::catalog::spec_field_or_null(params@, "configuration"@),
                        "env"@,
                    ) {
                        Some(e) => e is Obj && spec_env_all_strings(e->Obj_0) && kv_unique(
                            record@.env,
                        ) && forall|k: Seq<char>|
                            #[trigger] kv_find(record@.env, k) == (match kv_find_last(
                                e->Obj_0,
                                k,
                            ) {
                                Some(v) => Some(
                                    crate::store::EnvVarSpec {
                                        value: v->Str_0,
                                        description: Seq::empty(),
                                        required: false,
                                    },
                                ),
                                None => None,
                            }),
                        None => record@.env.len() == 0,
                    }
                },
            },
            Err(code) => {
                ||| (code == CODE_INVALID_PARAMS && !spec_is_record_install(params@) && !(
                spec_get(params@, "tool_id"@) matches Some(t) && t is Str))
                ||| ({
                    &&& code == CODE_OPERATIONAL
                    &&& spec_is_record_install(params@)
                    &&& !(spec_install_runtime_ok(params@) && spec_install_env_ok(params@))
                })
            },
        },
{
    let id_key = "id".to_owned();
    let name_key = "name".to_owned();
    let desc_key = "description".to_owned();
    let type_key = "type".to_owned();
    let config_key = "configuration".to_owned();
    let command_key = "command".to_owned();
    let args_key = "args".to_owned();
    let env_key = "env".to_owned();
    let dist_key = "distribution".to_owned();
    let pkg_key = "package".to_owned();
    let tool_id_key = "tool_id".to_owned();

    let id = match params.get(&id_key) {
        Some(v) => v.as_str(),
        None => None,
    };
    let name = match params.get(&name_key) {
        Some(v) => v.as_str(),
        None => None,
    };
    let description = match params.get(&desc_key) {
        Some(v) => v.as_str(),
        None => None,
    };
    let rt = match params.get(&type_key) {
        Some(v) => v.as_str(),
        None => None,
    };
    match (id, name, description, rt) {
        (Some(id), Some(name), Some(description), Some(rt)) => {
            let runtime = match parse_runtime(rt) {
                Ok(rt) => rt,
                Err(_) => {
                    return Err(CODE_OPERATIONAL);
                },
            };
            let (command, args) = match params.get(&config_key) {
                Some(config) => {
                    let command = crate::tools::get_str_field(config, &command_key);
                    let args = match config.get(&args_key) {
                        Some(v) => match v.as_arr() {
                            Some(items) => crate::catalog::str_items(items),
                            None => Vec::new(),
                        },
                        None => Vec::new(),
                    };
                    (command, args)
                },
                None => (String::new(), Vec::new()),
            };
            let env: Vec<(String, EnvVar)> = match params.get(&config_key) {
                Some(config) => match config.get(&env_key) {
                    Some(e) => match e {
                        JsonValue::Obj(fs) => {
                            proof {
                                lemma_obj_unfold(*fs);
                            }
                            match env_pairs_from_obj(fs) {
                                Some(pairs) => {
                                    let ev = env_vars_from_pairs(&pairs);
                                    proof {
                                        assert(env_kv(ev@).len() == plan_env_kv(
                                            pairs@,
                                        ).len());
                                        assert forall|q: int|
                                            0 <= q < plan_env_kv(pairs@).len() implies (
                                        #[trigger] env_kv(ev@)[q]).0 == plan_env_kv(
                                            pairs@,
                                        )[q].0 && env_kv(ev@)[q].1
                                            == (crate::store::EnvVarSpec {
                                            value: plan_env_kv(pairs@)[q].1,
                                            description: Seq::empty(),
                                            required: false,
                                        }) by {}
                                        lemma_env_kv_mapped(
                                            plan_env_kv(pairs@),
                                            env_kv(ev@),
                                        );
                                        assert forall|i: int, j: int|
                                            0 <= i < j < env_kv(ev@).len() implies env_kv(
                                            ev@,
                                        )[i].0 != env_kv(ev@)[j].0 by {
                                            assert(plan_env_kv(pairs@)[i].0 != plan_env_kv(
                                                pairs@,
                                            )[j].0);
                                        }
                                    }
                                    ev
                                },
                                None => {
                                    return Err(CODE_OPERATIONAL);
                                },
                            }
                        },
                        _ => {
                            return Err(CODE_OPERATIONAL);
                        },
                    },
                    None => Vec::new(),
                },
                None => Vec::new(),
            };
            let distribution = match params.get(&dist_key) {
                Some(d) => match d {
                    JsonValue::Obj(_) => Some(
                        crate::store::Distribution {
                            dist_type: crate::tools::get_str_field(d, &type_key),
                            package: crate::tools::get_str_field(d, &pkg_key),
                        },
                    ),
                    _ => None,
                },
                None => None,
            };
            let record = ServerRecord {
                id: id.clone(),
                name: name.clone(),
                description: description.clone(),
                runtime,
                enabled: true,
                entry_point: None,
                command,
                args,
                distribution,
                env,
            };
            proof {
                assert(record@.args =~= crate::catalog::spec_args_of(
                    crate::catalog::spec_field_or_null(params@, "configuration"@),
                ));
            }
            Ok(InstallRequest::ByRecord { record })
        },
        _ => {
            let tool_id = match params.get(&tool_id_key) {
                Some(v) => match v.as_str() {
                    Some(s2) => s2.clone(),
                    None => {
                        return Err(CODE_INVALID_PARAMS);
                    },
                },
                None => {
                    return Err(CODE_INVALID_PARAMS);
                },
            };
            Ok(InstallRequest::ById { tool_id })
        },
    }
}

/// Turn name-value pairs into env entries: the value as given, no
/// description, not required.
pub fn env_vars_from_pairs(pairs: &Vec<(String, String)>) -> (r: Vec<(String, EnvVar)>)
    ensures
        r@.len() == pairs@.len(),
        forall|q: int| 0 <= q < pairs@.len() ==> (#[trigger] r@[q]).0@ == pairs@[q].0@
            && r@[q].1@.value == pairs@[q].1@ && r@[q].1@.description == Seq::<char>::empty()
            && !r@[q].1@.required,
{
    let mut out: Vec<(String, EnvVar)> = Vec::new();
    let mut i: usize = 0;
    while i < pairs.len()
        invariant
            i <= pairs@.len(),
            out@.len() == i,
            forall|q: int| 0 <= q < i ==> (#[trigger] out@[q]).0@ == pairs@[q].0@ && out@[q].1@.value
                == pairs@[q].1@ && out@[q].1@.description == Seq::<char>::empty()
                && !out@[q].1@.required,
        decreases pairs@.len() - i,
    {
        let v = EnvVar {
            value: pairs[i].1.clone(),
            description: String::new(),
            required: false,
        };
        out.push((pairs[i].0.clone(), v));
        i += 1;
    }
    out
}

/// The url a `registry/import` request names, if its params hold one.
pub fn parse_import_params(params: &Option<JsonValue>) -> (r: Option<String>)
    ensures
        match r {
            Some(url) => *params matches Some(p) && spec_get(p@, "url"@) == Some(
                JsonSpec::Str(url@),
            ),
            None => match *params {
                Some(p) => !(spec_get(p@, "url"@) matches Some(u) && u is Str),
                None => true,
            },
        },
{
    let p = match params {
        Some(p) => p,
        None => {
            return None;
        },
    };
    let url_key = "url".to_owned();
    match p.get(&url_key) {
        Some(v) => match v.as_str() {
            Some(s2) => Some(s2.clone()),
            None => None,
        },
        None => None,
    }
}

/// The `tools/hidden` result: `{hidden: <flag>}`.
pub fn hidden_result(hidden: bool) -> (r: JsonValue)
    ensures
        r@ == JsonSpec::Obj(seq![("hidden"@, JsonSpec::Bool(hidden))]),
{
    let mut fields: Vec<(String, JsonValue)> = Vec::new();
    fields.push(("hidden".to_owned(), JsonValue::Bool(hidden)));
    proof {
        lemma_obj_unfold(fields);
        assert(obj_view(fields@) =~~= seq![("hidden"@, JsonSpec::Bool(hidden))]);
    }
    JsonValue::Obj(fields)
}

/// An integer as the wire carries it: clamped into the signed 64-bit range.
pub open spec fn clamp_to_i64(n: int) -> int {
    if n > 0x7fff_ffff_ffff_ffff {
        0x7fff_ffff_ffff_ffff
    } else {
        n
    }
}

/// A record's env map as a document: each name under an object holding its
/// value, description and required mark.
pub open spec fn spec_env_json(env: Seq<(Seq<char>, crate::store::EnvVarSpec)>) -> JsonSpec {
    JsonSpec::Obj(
        Seq::new(
            env.len(),
            |i: int| (
                env[i].0,
                JsonSpec::Obj(
                    seq![
                        ("value"@, JsonSpec::Str(env[i].1.value)),
                        ("description"@, JsonSpec::Str(env[i].1.description)),
                        ("required"@, JsonSpec::Bool(env[i].1.required)),
                    ],
                ),
            ),
        ),
    )
}

/// One row of the fleet listing as a document: the record's fields, its
/// launch configuration and env, whether its child is live, and how many
/// tools it reported.
pub open spec fn spec_status_json(r: crate::store::RecordSpec, running: bool, tool_count: int) -> JsonSpec {
    JsonSpec::Obj(
        seq![
            ("id"@, JsonSpec::Str(r.id)),
            ("name"@, JsonSpec::Str(r.name)),
            ("description"@, JsonSpec::Str(r.description)),
            (
                "tool_type"@,
                JsonSpec::Str(
                    match r.runtime {
                        crate::store::Runtime::Node => "node"@,
                        crate::store::Runtime::Python => "python"@,
                        crate::store::Runtime::Docker => "docker"@,
                    },
                ),
            ),
            ("enabled"@, JsonSpec::Bool(r.enabled)),
            (
                "entry_point"@,
                match r.entry_point {
                    Some(e) => JsonSpec::Str(e),
                    None => JsonSpec::Null,
                },
            ),
            (
                "configuration"@,
                JsonSpec::Obj(
                    seq![
                        ("command"@, JsonSpec::Str(r.command)),
                        (
                            "args"@,
                            JsonSpec::Arr(Seq::new(r.args.len(), |i: int| JsonSpec::Str(r.args[i]))),
                        ),
                    ],
                ),
            ),
            (
                "distribution"@,
                match r.distribution {
                    Some(d) => JsonSpec::Obj(
                        seq![
                            ("type"@, JsonSpec::Str(d.dist_type)),
                            ("package"@, JsonSpec::Str(d.package)),
                        ],
                    ),
                    None => JsonSpec::Null,
                },
            ),
            ("config"@, JsonSpec::Obj(seq![("env"@, spec_env_json(r.env))])),
            ("process_running"@, JsonSpec::Bool(running)),
            ("tool_count"@, JsonSpec::Int(clamp_to_i64(tool_count))),
        ],
    )
}

/// Render one fleet row.
pub fn server_status_json(st: &crate::registry::ServerStatus) -> (r: JsonValue)
    ensures
        r@ == spec_status_json(st.record@, st.process_running, st.tool_count as int),
{
    let rec = &st.record;
    let mut args_items: Vec<JsonValue> = Vec::new();
    let mut i: usize = 0;
    while i < rec.args.len()
        invariant
            i <= rec.args@.len(),
            args_items@.len() == i,
            forall|q: int| 0 <= q < i ==> args_items@[q]@ == JsonSpec::Str(rec.args@[q]@),
        decreases rec.args@.len() - i,
    {
        args_items.push(JsonValue::Str(rec.args[i].clone()));
        i += 1;
    }
    proof {
        crate::json::lemma_arr_unfold(args_items);
        assert(arr_view(args_items@) =~= Seq::new(
            rec@.args.len(),
            |q: int| JsonSpec::Str(rec@.args[q]),
        ));
    }

    let mut env_fields: Vec<(String, JsonValue)> = Vec::new();
    let mut i: usize = 0;
    while i < rec.env.len()
        invariant
            i <= rec.env@.len(),
            env_fields@.len() == i,
            forall|q: int| 0 <= q < i ==> (#[trigger] env_fields@[q]).0@ == rec.env@[q].0@
                && env_fields@[q].1@ == JsonSpec::Obj(
                seq![
                    ("value"@, JsonSpec::Str(rec.env@[q].1@.value)),
                    ("description"@, JsonSpec::Str(rec.env@[q].1@.description)),
                    ("required"@, JsonSpec::Bool(rec.env@[q].1@.required)),
                ],
            ),
        decreases rec.env@.len() - i,
    {
        let mut one: Vec<(String, JsonValue)> = Vec::new();
        one.push(("value".to_owned(), JsonValue::Str(rec.env[i].1.value.clone())));
        one.push(("description".to_owned(), JsonValue::Str(rec.env[i].1.description.clone())));
        one.push(("required".to_owned(), JsonValue::Bool(rec.env[i].1.required)));
        proof {
            lemma_obj_unfold(one);
            assert(obj_view(one@) =~~= seq![
                ("value"@, JsonSpec::Str(rec.env@[i as int].1@.value)),
                ("description"@, JsonSpec::Str(rec.env@[i as int].1@.description)),
                ("required"@, JsonSpec::Bool(rec.env@[i as int].1@.required)),
            ]);
        }
        env_fields.push((rec.env[i].0.clone(), JsonValue::Obj(one)));
        i += 1;
    }
    proof {
        lemma_obj_unfold(env_fields);
        assert forall|q: int| 0 <= q < rec@.env.len() implies obj_view(env_fields@)[q]
            == spec_env_json(rec@.env)->Obj_0[q] by {
            assert(obj_view(env_fields@)[q].0 == env_fields@[q].0@);
            assert(obj_view(env_fields@)[q].1 == env_fields@[q].1@);
            assert(env_fields@[q].1@ =~~= spec_env_json(rec@.env)->Obj_0[q].1);
        }
        assert(obj_view(env_fields@) =~= spec_env_json(rec@.env)->Obj_0);
        assert(JsonSpec::Obj(obj_view(env_fields@)) == spec_env_json(rec@.env));
    }
    let env_obj = JsonValue::Obj(env_fields);

    let mut config_fields: Vec<(String, JsonValue)> = Vec::new();
    config_fields.push(("env".to_owned(), env_obj));
    proof {
        lemma_obj_unfold(config_fields);
        assert(obj_view(config_fields@) =~~= seq![("env"@, spec_env_json(rec@.env))]);
    }
    let config_obj = JsonValue::Obj(config_fields);

    let mut conf_fields: Vec<(String, JsonValue)> = Vec::new();
    conf_fields.push(("command".to_owned(), JsonValue::Str(rec.command.clone())));
    conf_fields.push(("args".to_owned(), JsonValue::Arr(args_items)));
    proof {
        lemma_obj_unfold(conf_fields);
        crate::json::lemma_arr_unfold(conf_fields@[1].1->Arr_0);
        assert(obj_view(conf_fields@) =~~= seq![
            ("command"@, JsonSpec::Str(rec@.command)),
            (
                "args"@,
                JsonSpec::Arr(Seq::new(rec@.args.len(), |i: int| JsonSpec::Str(rec@.args[i]))),
            ),
        ]);
    }
    let conf_obj = JsonValue::Obj(conf_fields);

    let entry_point = match &rec.entry_point {
        Some(e) => JsonValue::Str(e.clone()),
        None => JsonValue::Null,
    };
    let distribution = match &rec.distribution {
        Some(d) => {
            let mut dist_fields: Vec<(String, JsonValue)> = Vec::new();
            dist_fields.push(("type".to_owned(), JsonValue::Str(d.dist_type.clone())));
            dist_fields.push(("package".to_owned(), JsonValue::Str(d.package.clone())));
            proof {
                lemma_obj_unfold(dist_fields);
                assert(obj_view(dist_fields@) =~~= seq![
                    ("type"@, JsonSpec::Str(rec@.distribution->Some_0.dist_type)),
                    ("package"@, JsonSpec::Str(rec@.distribution->Some_0.package)),
                ]);
            }
            JsonValue::Obj(dist_fields)
        },
        None => JsonValue::Null,
    };
    let count: i64 = if (st.tool_count as u64) > (i64::MAX as u64) {
        i64::MAX
    } else {
        st.tool_count as i64
    };
    let runtime_text = crate::supervisor::runtime_name(rec.runtime);

    let mut fields: Vec<(String, JsonValue)> = Vec::new();
    fields.push(("id".to_owned(), JsonValue::Str(rec.id.clone())));
    fields.push(("name".to_owned(), JsonValue::Str(rec.name.clone())));
    fields.push(("description".to_owned(), JsonValue::Str(rec.description.clone())));
    fields.push(("tool_type".to_owned(), JsonValue::Str(runtime_text)));
    fields.push(("enabled".to_owned(), JsonValue::Bool(rec.enabled)));
    fields.push(("entry_point".to_owned(), entry_point));
    fields.push(("configuration".to_owned(), conf_obj));
    fields.push(("distribution".to_owned(), distribution));
    fields.push(("config".to_owned(), config_obj));
    fields.push(("process_running".to_owned(), JsonValue::Bool(st.process_running)));
    fields.push(("tool_count".to_owned(), JsonValue::Int(count)));
    proof {
        lemma_obj_unfold(fields);
        let target = spec_status_json(st.record@, st.process_running, st.tool_count as int)
            ->Obj_0;
        assert(obj_view(fields@).len() == 11 && target.len() == 11);
        assert(obj_view(fields@)[0] =~~= target[0]);
        assert(obj_view(fields@)[1] =~~= target[1]);
        assert(obj_view(fields@)[2] =~~= target[2]);
        assert(obj_view(fields@)[3] =~~= target[3]);
        assert(obj_view(fields@)[4] =~~= target[4]);
        assert(obj_view(fields@)[5] =~~= target[5]);
        assert(obj_view(fields@)[6] =~~= target[6]);
        assert(obj_view(fields@)[7] =~~= target[7]);
        assert(obj_view(fields@)[8] =~~= target[8]);
        assert(obj_view(fields@)[9] =~~= target[9]);
        assert(obj_view(fields@)[10] =~~= target[10]);
        assert(obj_view(fields@) =~~= target);
    }
    JsonValue::Obj(fields)
}

/// The whole fleet in one answer: every row of the listing under
/// `servers`, and the flattened namespace under `tools`.
pub fn all_server_data_result(reg: &ToolRegistry) -> (r: JsonValue)
    requires
        reg.wf(),
    ensures
        ({
            &&& r@ matches JsonSpec::Obj(fields)
            &&& fields.len() == 2
            &&& fields[0].0 == "servers"@
            &&& fields[0].1 matches JsonSpec::Arr(servers)
            &&& servers.len() == reg.store@.len()
            &&& forall|i: int|
                0 <= i < reg.store@.len() ==> servers[i] == spec_status_json(
                    reg.store@[i].1,
                    reg.sessions@.contains(reg.store@[i].0),
                    match kv_find(reg.tools(), reg.store@[i].0) {
                        Some(ts) => ts.len() as int,
                        None => 0,
                    },
                )
            &&& fields[1].0 == "tools"@
            &&& fields[1].1 matches JsonSpec::Arr(items)
            &&& items.len() == crate::tools::spec_all_tools(reg.tools()).len()
            &&& forall|i: int|
                0 <= i < crate::tools::spec_all_tools(reg.tools()).len() ==> items[i]
                    == spec_proxy_tool_json(crate::tools::spec_all_tools(reg.tools())[i])
        }),
{
    let statuses = reg.list_tools();
    let mut servers: Vec<JsonValue> = Vec::new();
    let mut i: usize = 0;
    while i < statuses.len()
        invariant
            i <= statuses@.len(),
            statuses@.len() == reg.store@.len(),
            servers@.len() == i,
            forall|q: int| 0 <= q < statuses@.len() ==> (#[trigger] statuses@[q]).record@
                == reg.store@[q].1 && statuses@[q].process_running == reg.sessions@.contains(
                reg.store@[q].0,
            ) && statuses@[q].tool_count as int == (match kv_find(
                reg.tools(),
                reg.store@[q].0,
            ) {
                Some(ts) => ts.len() as int,
                None => 0,
            }),
            forall|q: int| 0 <= q < i ==> servers@[q]@ == spec_status_json(
                reg.store@[q].1,
                reg.sessions@.contains(reg.store@[q].0),
                match kv_find(reg.tools(), reg.store@[q].0) {
                    Some(ts) => ts.len() as int,
                    None => 0,
                },
            ),
        decreases statuses@.len() - i,
    {
        servers.push(server_status_json(&statuses[i]));
        i += 1;
    }
    let entries = reg.list_all_server_tools();
    let mut items: Vec<JsonValue> = Vec::new();
    let mut i: usize = 0;
    while i < entries.len()
        invariant
            i <= entries@.len(),
            crate::registry::proxy_views(entries@) == crate::tools::spec_all_tools(reg.tools()),
            items@.len() == i,
            forall|q: int| 0 <= q < i ==> items@[q]@ == spec_proxy_tool_json(
                crate::tools::spec_all_tools(reg.tools())[q],
            ),
        decreases entries@.len() - i,
    {
        proof {
            assert(crate::registry::proxy_views(entries@)[i as int] == entries@[i as int]@);
        }
        items.push(proxy_tool_json(&entries[i]));
        i += 1;
    }
    let mut fields: Vec<(String, JsonValue)> = Vec::new();
    fields.push(("servers".to_owned(), JsonValue::Arr(servers)));
    fields.push(("tools".to_owned(), JsonValue::Arr(items)));
    proof {
        lemma_obj_unfold(fields);
        crate::json::lemma_arr_unfold(fields@[0].1->Arr_0);
        crate::json::lemma_arr_unfold(fields@[1].1->Arr_0);
    }
    JsonValue::Obj(fields)
}

/// Which catalog entries are already installed: one flag per entry, set
/// exactly when a record under the entry's id is stored. `registry/list`
/// merges the catalog with these.
pub fn installed_flags(reg: &ToolRegistry, entries: &Vec<crate::catalog::CatalogEntry>) -> (r:
    Vec<bool>)
    ensures
        r@.len() == entries@.len(),
        forall|i: int| 0 <= i < entries@.len() ==> r@[i] == kv_contains(
            reg.store@,
            (#[trigger] entries@[i]).id@,
        ),
{
    let mut out: Vec<bool> = Vec::new();
    let mut i: usize = 0;
    while i < entries.len()
        invariant
            i <= entries@.len(),
            out@.len() == i,
            forall|q: int| 0 <= q < i ==> out@[q] == kv_contains(
                reg.store@,
                (#[trigger] entries@[q]).id@,
            ),
        decreases entries@.len() - i,
    {
        let installed = match reg.store.get(&entries[i].id) {
            Ok(_) => true,
            Err(_) => false,
        };
        out.push(installed);
        i += 1;
    }
    out
}

} // verus!
