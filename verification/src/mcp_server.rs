//! The rules of the MCP server that exposes the agent's tools over stdio:
//! which tools it exposes and under which internal names, how a request's
//! method is routed, and the resources it lists.
use crate::fleet::task_checks::find_entry;
use crate::json::{json_field, json_get, json_str, JsonValue};
use crate::text::{chars_of, decimal, decimal_exec, push_all, string_of, trim, trimmed};
use vstd::prelude::*;

verus! {

/// A tool as the server exposes it.
#[derive(Debug, Clone, PartialEq, Eq)]
pub struct ExposedTool {
    /// The name clients call it by.
    pub public: String,
    /// The name of the tool that serves it.
    pub internal: String,
}

/// The tools exposed when the settings name none.
pub open spec fn default_expose_tools_spec() -> Seq<Seq<char>> {
    seq![
        "file_read"@,
        "file_write"@,
        "search"@,
        "apply_patch"@,
        "shell"@,
        "mimofan"@,
        "mimofan-reply"@,
        "security_audit"@,
        "gadget_chain_trace"@,
        "auto_gadget_discovery"@,
        "attack_surface"@,
        "protocol_check"@,
        "access_control"@,
        "run_poc"@,
    ]
}

/// The contents of a list of strings.
pub open spec fn strs(v: Seq<String>) -> Seq<Seq<char>> {
    v.map_values(|s: String| s@)
}

fn push_str(v: &mut Vec<String>, s: &str)
    ensures
        strs(final(v)@) == strs(old(v)@).push(s@),
{
    v.push(s.to_owned());
    assert(strs(v@) =~= strs(old(v)@).push(s@));
}

/// The tools exposed when the settings name none.
pub fn default_expose_tools() -> (r: Vec<String>)
    ensures
        strs(r@) == default_expose_tools_spec(),
{
    let mut v: Vec<String> = Vec::new();
    push_str(&mut v, "file_read");
    push_str(&mut v, "file_write");
    push_str(&mut v, "search");
    push_str(&mut v, "apply_patch");
    push_str(&mut v, "shell");
    push_str(&mut v, "mimofan");
    push_str(&mut v, "mimofan-reply");
    push_str(&mut v, "security_audit");
    push_str(&mut v, "gadget_chain_trace");
    push_str(&mut v, "auto_gadget_discovery");
    push_str(&mut v, "attack_surface");
    push_str(&mut v, "protocol_check");
    push_str(&mut v, "access_control");
    push_str(&mut v, "run_poc");
    assert(strs(v@) =~= default_expose_tools_spec());
    v
}

/// The internal tool behind a public tool name.
pub open spec fn internal_name(public: Seq<char>) -> Seq<char> {
    if public == "file_read"@ {
        "read_file"@
    } else if public == "file_write"@ {
        "write_file"@
    } else if public == "file_edit"@ {
        "edit_file"@
    } else if public == "shell"@ {
        "exec_shell"@
    } else if public == "search"@ {
        "grep_files"@
    } else {
        public
    }
}

/// The exposed tools for the configured names: blank names are skipped,
/// the others trimmed and mapped to their internal tools, in order.
pub open spec fn exposed_tools_spec(names: Seq<Seq<char>>) -> Seq<(Seq<char>, Seq<char>)>
    decreases names.len(),
{
    if names.len() == 0 {
        seq![]
    } else {
        let prev = exposed_tools_spec(names.drop_last());
        let t = trim(names.last());
        if t.len() == 0 {
            prev
        } else {
            prev.push((t, internal_name(t)))
        }
    }
}

/// The model of a list of exposed tools.
pub open spec fn tools_view(v: Seq<ExposedTool>) -> Seq<(Seq<char>, Seq<char>)> {
    v.map_values(|t: ExposedTool| (t.public@, t.internal@))
}

fn eq_lit(a: &[char], b: &str) -> (r: bool)
    ensures
        r == (a@ == b@),
{
    crate::text::seq_eq(a, chars_of(b).as_slice())
}

fn internal_name_exec(public: &[char]) -> (r: String)
    ensures
        r@ == internal_name(public@),
{
    if eq_lit(public, "file_read") {
        "read_file".to_owned()
    } else if eq_lit(public, "file_write") {
        "write_file".to_owned()
    } else if eq_lit(public, "file_edit") {
        "edit_file".to_owned()
    } else if eq_lit(public, "shell") {
        "exec_shell".to_owned()
    } else if eq_lit(public, "search") {
        "grep_files".to_owned()
    } else {
        string_of(public)
    }
}

/// The exposed tools for the configured names (see [`exposed_tools_spec`]).
pub fn build_exposed_tools(names: &[String]) -> (r: Vec<ExposedTool>)
    ensures
        tools_view(r@) == exposed_tools_spec(strs(names@)),
{
    let ghost ns = strs(names@);
    let mut tools: Vec<ExposedTool> = Vec::new();
    let mut i: usize = 0;
    assert(ns.take(0) =~= Seq::<Seq<char>>::empty());
    while i < names.len()
        invariant
            i <= names@.len(),
            ns == strs(names@),
            tools_view(tools@) == exposed_tools_spec(ns.take(i as int)),
        decreases names.len() - i,
    {
        assert(ns.take((i + 1) as int).drop_last() =~= ns.take(i as int));
        assert(ns.take((i + 1) as int).last() == names@[i as int]@);
        let t = trimmed(chars_of(names[i].as_str()).as_slice());
        if t.len() > 0 {
            let ghost before = tools_view(tools@);
            let tool = ExposedTool { public: string_of(t.as_slice()), internal: internal_name_exec(t.as_slice()) };
            tools.push(tool);
            assert(tools_view(tools@) =~= before.push((t@, internal_name(t@))));
        }
        i = i + 1;
    }
    assert(ns.take(names@.len() as int) =~= ns);
    tools
}

/// The indices of the tools listed by `tools/list`: the first tool under
/// each public name, in order.
pub open spec fn listed_indices(ts: Seq<(Seq<char>, Seq<char>)>, k: nat) -> Seq<int>
    decreases k,
{
    if k == 0 || k > ts.len() {
        seq![]
    } else {
        let prev = listed_indices(ts, (k - 1) as nat);
        if exists|j: int| 0 <= j < k - 1 && #[trigger] ts[j].0 == ts[k - 1].0 {
            prev
        } else {
            prev.push(k - 1)
        }
    }
}

/// The tools that `tools/list` describes: the exposed tools with repeated
/// public names left out.
pub fn listed_tools(tools: &Vec<ExposedTool>) -> (r: Vec<usize>)
    ensures
        r@.map_values(|i: usize| i as int) == listed_indices(tools_view(tools@), tools@.len()),
{
    let ghost tv = tools_view(tools@);
    let mut r: Vec<usize> = Vec::new();
    let mut k: usize = 0;
    while k < tools.len()
        invariant
            k <= tools@.len(),
            tv == tools_view(tools@),
            r@.map_values(|i: usize| i as int) == listed_indices(tv, k as nat),
        decreases tools.len() - k,
    {
        let mut j: usize = 0;
        let mut seen = false;
        while j < k
            invariant
                j <= k < tools@.len(),
                tv == tools_view(tools@),
                seen == exists|t: int| 0 <= t < j && #[trigger] tv[t].0 == tv[k as int].0,
            decreases k - j,
        {
            if tools[j].public == tools[k].public {
                assert(tv[j as int].0 == tv[k as int].0);
                seen = true;
            }
            proof {
                if !seen {
                    assert forall|t: int| 0 <= t < j + 1 implies tv[t].0 != tv[k as int].0 by {
                        if t == j {
                            assert(tv[t].0 == tools@[t].public@);
                        }
                    }
                }
            }
            j = j + 1;
        }
        let ghost before = r@.map_values(|i: usize| i as int);
        if !seen {
            r.push(k);
            assert(r@.map_values(|i: usize| i as int) =~= before.push(k as int));
        }
        k = k + 1;
    }
    r
}

/// The server settings from the `[server]` table of its configuration
/// file: the exposed tool names (the defaults when none are given) and
/// whether calls need approval (not by default).
pub fn resolve_settings(expose_tools: Option<Vec<String>>, require_approval: Option<bool>) -> (r: (Vec<String>, bool))
    ensures
        strs(r.0@) == match expose_tools {
            Some(v) => strs(v@),
            None => default_expose_tools_spec(),
        },
        r.1 == match require_approval {
            Some(b) => b,
            None => false,
        },
{
    let tools = match expose_tools {
        Some(v) => v,
        None => default_expose_tools(),
    };
    let approval = match require_approval {
        Some(b) => b,
        None => false,
    };
    (tools, approval)
}

/// How the server answers a request, by its method.
#[derive(Debug, Clone, PartialEq, Eq)]
pub enum McpRoute {
    /// `initialize`: the server's capabilities.
    Initialize,
    /// `tools/list`.
    ListTools,
    /// `tools/call`.
    CallTool,
    /// `resources/list`.
    ListResources,
    /// `ping`: an empty result.
    Ping,
    /// `notifications/initialized`: no answer.
    Ignore,
    /// Any other method: error `-32601`, `Method not found: <method>`.
    NotFound { code: i64, message: String },
}

/// The route of a method name.
pub fn route_method(method: &str) -> (r: McpRoute)
    ensures
        method@ == "initialize"@ ==> r == McpRoute::Initialize,
        method@ == "tools/list"@ ==> r == McpRoute::ListTools,
        method@ == "tools/call"@ ==> r == McpRoute::CallTool,
        method@ == "resources/list"@ ==> r == McpRoute::ListResources,
        method@ == "ping"@ ==> r == McpRoute::Ping,
        method@ == "notifications/initialized"@ ==> r == McpRoute::Ignore,
        r is NotFound ==> r->code == -32601 && r->message@ == "Method not found: "@ + method@,
        r is NotFound <==> !(method@ == "initialize"@ || method@ == "tools/list"@ || method@ == "tools/call"@
            || method@ == "resources/list"@ || method@ == "ping"@ || method@ == "notifications/initialized"@),
{
    proof {
        reveal_strlit("initialize");
        reveal_strlit("tools/list");
        reveal_strlit("tools/call");
        reveal_strlit("resources/list");
        reveal_strlit("ping");
        reveal_strlit("notifications/initialized");
        assert("tools/list"@[0] != "initialize"@[0]);
        assert("tools/call"@[0] != "initialize"@[0]);
        assert("tools/call"@[6] != "tools/list"@[6]);
        assert("resources/list"@.len() != "initialize"@.len());
        assert("resources/list"@.len() != "tools/list"@.len());
        let n = "notifications/initialized"@;
        assert(n.len() != "initialize"@.len() && n.len() != "tools/list"@.len() && n.len()
            != "resources/list"@.len() && n.len() != "ping"@.len());
    }
    let m = chars_of(method);
    if eq_lit(m.as_slice(), "initialize") {
        McpRoute::Initialize
    } else if eq_lit(m.as_slice(), "tools/list") {
        McpRoute::ListTools
    } else if eq_lit(m.as_slice(), "tools/call") {
        McpRoute::CallTool
    } else if eq_lit(m.as_slice(), "resources/list") {
        McpRoute::ListResources
    } else if eq_lit(m.as_slice(), "ping") {
        McpRoute::Ping
    } else if eq_lit(m.as_slice(), "notifications/initialized") {
        McpRoute::Ignore
    } else {
        let mut out = chars_of("Method not found: ");
        push_all(&mut out, m.as_slice());
        McpRoute::NotFound { code: -32601, message: string_of(out.as_slice()) }
    }
}

/// A past session, as the server lists it.
#[derive(Debug, Clone, PartialEq, Eq)]
pub struct SessionSummary {
    pub id: String,
    pub title: String,
    pub message_count: usize,
}

/// One entry of `resources/list`.
#[derive(Debug, Clone, PartialEq, Eq)]
pub struct ResourceEntry {
    pub uri: String,
    pub name: String,
    pub description: String,
    pub mime_type: String,
}

/// The model of a resource entry: uri, name, description, MIME type.
pub open spec fn entry_view(e: ResourceEntry) -> (Seq<char>, Seq<char>, Seq<char>, Seq<char>) {
    (e.uri@, e.name@, e.description@, e.mime_type@)
}

/// The entry of a past session.
pub open spec fn session_entry(s: SessionSummary) -> (Seq<char>, Seq<char>, Seq<char>, Seq<char>) {
    (
        "mimofan://session/"@ + s.id@,
        s.title@,
        decimal(s.message_count as nat) + " messages"@,
        "application/json"@,
    )
}

/// The resources the server lists: the workspace root (shown as
/// `workspace`), then every past session.
pub fn resource_entries(workspace: &str, sessions: &Vec<SessionSummary>) -> (r: Vec<ResourceEntry>)
    ensures
        r@.len() == sessions@.len() + 1,
        entry_view(r@[0]) == ("file://"@ + workspace@, "workspace"@, "Workspace root"@, "inode/directory"@),
        forall|i: int| 0 <= i < sessions@.len() ==> entry_view(#[trigger] r@[i + 1]) == session_entry(sessions@[i]),
{
    let mut uri = chars_of("file://");
    push_all(&mut uri, chars_of(workspace).as_slice());
    let mut r: Vec<ResourceEntry> = Vec::new();
    r.push(
        ResourceEntry {
            uri: string_of(uri.as_slice()),
            name: "workspace".to_owned(),
            description: "Workspace root".to_owned(),
            mime_type: "inode/directory".to_owned(),
        },
    );
    let mut i: usize = 0;
    while i < sessions.len()
        invariant
            i <= sessions@.len(),
            r@.len() == i + 1,
            entry_view(r@[0]) == ("file://"@ + workspace@, "workspace"@, "Workspace root"@, "inode/directory"@),
            forall|j: int| 0 <= j < i ==> entry_view(#[trigger] r@[j + 1]) == session_entry(sessions@[j]),
        decreases sessions.len() - i,
    {
        let s = &sessions[i];
        let mut u = chars_of("mimofan://session/");
        push_all(&mut u, chars_of(s.id.as_str()).as_slice());
        let mut d = decimal_exec(s.message_count as u64);
        push_all(&mut d, chars_of(" messages").as_slice());
        r.push(
            ResourceEntry {
                uri: string_of(u.as_slice()),
                name: s.title.clone(),
                description: string_of(d.as_slice()),
                mime_type: "application/json".to_owned(),
            },
        );
        i = i + 1;
    }
    r
}

/// A JSON-RPC error answer.
#[derive(Debug, Clone, PartialEq, Eq)]
pub struct RpcError {
    pub code: i64,
    pub message: String,
}

/// What a `tools/call` request asks the server to run.
#[derive(Debug)]
pub struct ToolCallPlan {
    /// The internal tool that serves the call.
    pub internal: String,
    /// The call's arguments; an empty object when it gave none.
    pub arguments: JsonValue,
    /// Whether the server answers the call itself through the model
    /// (`mimofan` and `mimofan-reply`) rather than through its tools.
    pub native: bool,
}

/// The internal name of the first exposed tool called `name`, if any.
pub open spec fn tool_for(ts: Seq<(Seq<char>, Seq<char>)>, name: Seq<char>) -> Option<Seq<char>>
    decreases ts.len(),
{
    if ts.len() == 0 {
        None
    } else if ts[0].0 == name {
        Some(ts[0].1)
    } else {
        tool_for(ts.drop_first(), name)
    }
}

/// Whether the call says `approved: true`.
pub open spec fn call_approved(params: JsonValue) -> bool {
    json_get(params, "approved"@) == Some(JsonValue::Bool(true))
}

/// Why a `tools/call` request with `params` is refused, checked in this
/// order: params that are not an object, a missing tool name, a missing
/// approval when approval is required, a tool that is not exposed.
pub open spec fn tool_call_error(
    params: JsonValue,
    tools: Seq<(Seq<char>, Seq<char>)>,
    require_approval: bool,
) -> Option<(int, Seq<char>)> {
    if !(params is Object) {
        Some((-32602, "Invalid params for tools/call"@))
    } else {
        match json_str(json_get(params, "name"@)) {
            None => Some((-32602, "Missing tool name"@)),
            Some(name) => if require_approval && !call_approved(params) {
                Some((-32001, "Approval required. Resend with approved=true."@))
            } else if tool_for(tools, name) is None {
                Some((-32602, "Tool not exposed: "@ + name))
            } else {
                None
            },
        }
    }
}

fn tool_for_exec(tools: &Vec<ExposedTool>, name: &String) -> (r: Option<String>)
    ensures
        r matches Some(x) ==> tool_for(tools_view(tools@), name@) == Some(x@),
        r is None ==> tool_for(tools_view(tools@), name@) is None,
{
    let ghost ts = tools_view(tools@);
    let n = tools.len();
    let mut i: usize = 0;
    assert(ts.skip(0) =~= ts);
    while i < n
        invariant
            n == tools@.len(),
            ts == tools_view(tools@),
            i <= n,
            tool_for(ts, name@) == tool_for(ts.skip(i as int), name@),
        decreases n - i,
    {
        assert(ts.skip(i as int)[0] == ts[i as int]);
        assert(ts.skip(i as int).drop_first() =~= ts.skip(i + 1));
        if crate::text::seq_eq(chars_of(tools[i].public.as_str()).as_slice(), chars_of(name.as_str()).as_slice()) {
            return Some(tools[i].internal.clone());
        }
        i = i + 1;
    }
    None
}

/// Reads a `tools/call` request: which exposed tool it calls, with which
/// arguments, or why it is refused (see [`tool_call_error`]).
pub fn resolve_tool_call(params: JsonValue, tools: &Vec<ExposedTool>, require_approval: bool) -> (r: Result<
    ToolCallPlan,
    RpcError,
>)
    ensures
        r is Err <==> tool_call_error(params, tools_view(tools@), require_approval) is Some,
        r matches Err(e) ==> tool_call_error(params, tools_view(tools@), require_approval) == Some(
            (e.code as int, e.message@),
        ),
        r matches Ok(plan) ==> {
            &&& json_str(json_get(params, "name"@)) matches Some(name) && tool_for(tools_view(tools@), name)
                == Some(plan.internal@)
            &&& plan.native == (plan.internal@ == "mimofan"@ || plan.internal@ == "mimofan-reply"@)
            &&& match json_get(params, "arguments"@) {
                Some(a) => plan.arguments == a,
                None => plan.arguments is Object && plan.arguments->Object_0@.len() == 0,
            }
        },
{
    let name: String = match json_field(&params, "name") {
        Some(JsonValue::Text(n)) => n.clone(),
        _ => {
            let is_object = match &params {
                JsonValue::Object(_) => true,
                _ => false,
            };
            if !is_object {
                return Err(RpcError { code: -32602, message: "Invalid params for tools/call".to_owned() });
            }
            return Err(RpcError { code: -32602, message: "Missing tool name".to_owned() });
        },
    };
    assert(params is Object);
    let approved = match json_field(&params, "approved") {
        Some(JsonValue::Bool(b)) => *b,
        _ => false,
    };
    assert(approved == call_approved(params));
    if require_approval && !approved {
        return Err(RpcError { code: -32001, message: "Approval required. Resend with approved=true.".to_owned() });
    }
    let internal = match tool_for_exec(tools, &name) {
        Some(t) => t,
        None => {
            let mut msg = chars_of("Tool not exposed: ");
            push_all(&mut msg, chars_of(name.as_str()).as_slice());
            proof {
                reveal_strlit("Tool not exposed: ");
            }
            return Err(RpcError { code: -32602, message: string_of(msg.as_slice()) });
        },
    };
    let native = {
        let ic = chars_of(internal.as_str());
        eq_lit(ic.as_slice(), "mimofan") || eq_lit(ic.as_slice(), "mimofan-reply")
    };
    let arguments = match params {
        JsonValue::Object(mut entries) => {
            let key = "arguments".to_owned();
            match find_entry(&entries, &key) {
                Some(i) => entries.remove(i).1,
                None => JsonValue::Object(Vec::new()),
            }
        },
        _ => JsonValue::Object(Vec::new()),
    };
    Ok(ToolCallPlan { internal, arguments, native })
}

} // verus!
