//! The server: what it answers to each request, and what it asks to be done
//! before it can answer.

use std::sync::Arc;
use vstd::prelude::*;
use vstd::utf8::encode_utf8;
use crate::json::{entry_members, json_member, members, optional, Json, Value};
use crate::mcp::{
    definition_has_its_members, definition_json, error_response, prompted, result_has_its_members,
    result_json, success_response, DefinitionView, JsonRpcRequest, JsonRpcResponse, RequestView,
    ResponseView, ResultView, ServerCapabilities, ToolDefinition, ToolResult, ToolsCapability,
    PROTOCOL_VERSION, SERVER_NAME, SERVER_VERSION,
};
use crate::params::Arguments;
use crate::policy::allows;
use crate::registry::{
    announcements, blocked_tool, call_accepted, call_gives, definition_views, limited,
    limited_result_keeps_the_limit, tool_definition, tool_privilege, total_bytes, unknown_tool,
    Called, CalledView, RegisteredTool, RegistryView, ToolRegistry,
};
use crate::table::{first_at, has_name, lemma_lookup_first, lookup, Table};
use crate::text::{decodes, optional_text, same};
use crate::tools::{
    exit_result, files_are_answered_whole, invocation, output_result, read_result, subcommand_of,
    successful_output_is_answered_whole, FileRead, Invocation, InvocationView, Outcome, Process,
    ProcessView, ShellTool,
};

verus! {

/// What the server does with a request: nothing, or it answers, or it waits for
/// a program to end or for a file to be read.
#[derive(Debug)]
pub enum Reply {
    Ignored,
    Answered(JsonRpcResponse),
    Run { id: Option<Value>, prompt: Option<String>, process: Process },
    Read { id: Option<Value>, prompt: Option<String>, file: FileRead },
}

/// What a [`Reply`] is.
pub enum ReplyView {
    Ignored,
    Answered(ResponseView),
    Run { id: Option<Json>, prompt: Option<Seq<char>>, process: ProcessView },
    Read { id: Option<Json>, prompt: Option<Seq<char>>, path: Seq<char> },
}

impl View for Reply {
    type V = ReplyView;

    open spec fn view(&self) -> ReplyView {
        match *self {
            Reply::Ignored => ReplyView::Ignored,
            Reply::Answered(response) => ReplyView::Answered(response@),
            Reply::Run { id, prompt, process } => ReplyView::Run {
                id: optional(id),
                prompt: optional_text(prompt),
                process: process@,
            },
            Reply::Read { id, prompt, file } => ReplyView::Read {
                id: optional(id),
                prompt: optional_text(prompt),
                path: file.path@,
            },
        }
    }
}

/// What the server says of itself.
pub open spec fn initialize_json() -> Json {
    Json::Object(
        seq![
            ("protocolVersion"@, Json::String("2024-11-05"@)),
            (
                "capabilities"@,
                Json::Object(
                    seq![
                        (
                            "tools"@,
                            Json::Object(seq![("listChanged"@, Json::Bool(false))]),
                        ),
                    ],
                ),
            ),
            (
                "serverInfo"@,
                Json::Object(
                    seq![
                        ("name"@, Json::String("droid-mcp"@)),
                        ("version"@, Json::String("0.1.0"@)),
                    ],
                ),
            ),
        ],
    )
}

/// The list of what the tools announce.
pub open spec fn tools_json(announced: Seq<DefinitionView>) -> Json {
    Json::Object(
        seq![("tools"@, Json::Array(announced.map_values(|d: DefinitionView| definition_json(d))))],
    )
}

/// The tool that the parameters of a call name.
pub open spec fn named_tool(params: Json) -> Option<Seq<char>> {
    match json_member(params, "name"@) {
        Some(Json::String(name)) => Some(name),
        _ => None,
    }
}

/// The arguments in the parameters of a call: none where there is no object of
/// them.
pub open spec fn given_arguments(params: Json) -> Arguments {
    match json_member(params, "arguments"@) {
        Some(Json::Object(args)) => args,
        _ => Seq::empty(),
    }
}

/// The response that carries the result of a call, with the prompt before it
/// where there is one.
pub open spec fn carried(
    id: Option<Json>,
    prompt: Option<Seq<char>>,
    result: ResultView,
) -> ResponseView {
    success_response(id, result_json(prompted(result, prompt)))
}

/// The response that delivers the output of a tool, cut to the output limit.
pub open spec fn delivered(
    r: RegistryView,
    id: Option<Json>,
    prompt: Option<Seq<char>>,
    output: ResultView,
) -> ResponseView {
    carried(id, prompt, limited(output, r.policy.global.max_output_bytes as nat))
}

/// Whether the server can do `reply` where a tool is called: what the call comes
/// to is answered at once or waited for.
pub open spec fn call_reply(
    r: RegistryView,
    id: Option<Json>,
    name: Seq<char>,
    args: Arguments,
    reply: ReplyView,
) -> bool {
    match reply {
        ReplyView::Ignored => false,
        ReplyView::Answered(response) => exists|prompt: Option<Seq<char>>, result: ResultView|
            response == carried(id, prompt, result) && #[trigger] call_gives(
                r,
                name,
                args,
                CalledView { prompt, invocation: InvocationView::Done(result) },
            ),
        ReplyView::Run { id: waiting, prompt, process } => waiting == id && call_gives(
            r,
            name,
            args,
            CalledView { prompt, invocation: InvocationView::Run(process) },
        ),
        ReplyView::Read { id: waiting, prompt, path } => waiting == id && call_gives(
            r,
            name,
            args,
            CalledView { prompt, invocation: InvocationView::Read(path) },
        ),
    }
}

/// Whether the server can do `reply` on the request `tools/call`.
pub open spec fn tools_call_reply(
    r: RegistryView,
    id: Option<Json>,
    params: Option<Json>,
    reply: ReplyView,
) -> bool {
    match params {
        None => reply == ReplyView::Answered(error_response(id, -32602, "missing params"@)),
        Some(params) => match named_tool(params) {
            None => reply == ReplyView::Answered(error_response(id, -32602, "missing tool name"@)),
            Some(name) => call_reply(r, id, name, given_arguments(params), reply),
        },
    }
}

/// Whether the server can do `reply` on a request. A request without an id is a
/// notification.
pub open spec fn replies(r: RegistryView, req: RequestView, reply: ReplyView) -> bool {
    if req.id is None {
        reply is Ignored
    } else if req.method == "initialize"@ {
        reply == ReplyView::Answered(success_response(req.id, initialize_json()))
    } else if req.method == "tools/list"@ {
        reply == ReplyView::Answered(
            success_response(req.id, tools_json(announcements(r.tools))),
        )
    } else if req.method == "tools/call"@ {
        tools_call_reply(r, req.id, req.params, reply)
    } else if req.method == "ping"@ {
        reply == ReplyView::Answered(success_response(req.id, Json::Object(Seq::empty())))
    } else {
        reply == ReplyView::Answered(error_response(req.id, -32601, "Method not found"@))
    }
}

/// Whether the request can be handled: it calls no tool, or one that can be
/// called with the arguments.
pub open spec fn request_accepted(r: RegistryView, req: RequestView) -> bool {
    req.id is Some && req.method == "tools/call"@ ==> match req.params {
        Some(params) => match named_tool(params) {
            Some(name) => call_accepted(r, name, given_arguments(params)),
            None => true,
        },
        None => true,
    }
}

fn member(name: &str, value: Value) -> (r: (String, Value))
    ensures
        r.0@ == name@,
        r.1 == value,
{
    (name.to_owned(), value)
}

fn initialize_value() -> (r: Value)
    ensures
        r@ == initialize_json(),
{
    let capabilities: ServerCapabilities = ServerCapabilities {
        tools: Some(ToolsCapability { list_changed: false }),
    };
    let info: Vec<(String, Value)> = vec![
        member("name", Value::text(SERVER_NAME)),
        member("version", Value::text(SERVER_VERSION)),
    ];
    proof {
        reveal_strlit("name");
        reveal_strlit("version");
        assert("name"@.len() != "version"@.len());
        assert(entry_members(info@) =~= seq![
            ("name"@, Json::String("droid-mcp"@)),
            ("version"@, Json::String("0.1.0"@)),
        ]);
    }
    let entries: Vec<(String, Value)> = vec![
        member("protocolVersion", Value::text(PROTOCOL_VERSION)),
        member("capabilities", capabilities.to_value()),
        member("serverInfo", Value::object(info)),
    ];
    proof {
        reveal_strlit("protocolVersion");
        reveal_strlit("capabilities");
        reveal_strlit("serverInfo");
        assert("protocolVersion"@.len() == 15);
        assert("capabilities"@.len() == 12);
        assert("serverInfo"@.len() == 10);
        assert(entry_members(entries@) =~= initialize_json()->Object_0);
    }
    Value::object(entries)
}

fn tools_value(definitions: &Vec<ToolDefinition>) -> (r: Value)
    ensures
        r@ == tools_json(definition_views(definitions@)),
{
    let mut values: Vec<Value> = Vec::new();
    let mut i: usize = 0;
    while i < definitions.len()
        invariant
            i <= definitions.len(),
            values.len() == i,
            forall|j: int|
                0 <= j < i ==> (#[trigger] values@[j])@ == definition_json(definitions@[j]@),
        decreases definitions.len() - i,
    {
        values.push(definitions[i].to_value());
        i = i + 1;
    }
    proof {
        assert(values@.map_values(|v: Value| v@) =~= definition_views(definitions@).map_values(
            |d: DefinitionView| definition_json(d),
        ));
    }
    let entries: Vec<(String, Value)> = vec![member("tools", Value::array(values))];
    proof {
        assert(entry_members(entries@) =~= tools_json(
            definition_views(definitions@),
        )->Object_0);
    }
    Value::object(entries)
}

/// The tool that the parameters of a call name.
fn tool_of(params: &Value) -> (r: Option<&str>)
    ensures
        match named_tool(params@) {
            Some(name) => r matches Some(s) && s@ == name,
            None => r is None,
        },
{
    match params.get("name") {
        Some(v) => v.as_str(),
        None => None,
    }
}

/// The arguments in the parameters of a call, where there is an object of them.
fn arguments_of(params: &Value) -> (r: Option<&Table<Value>>)
    ensures
        match r {
            Some(table) => members(*table) == given_arguments(params@),
            None => given_arguments(params@) == Seq::<(Seq<char>, Json)>::empty(),
        },
{
    match params.get("arguments") {
        Some(v) => v.as_object(),
        None => None,
    }
}

/// An MCP server over a registry of tools.
pub struct McpServer {
    registry: Arc<ToolRegistry>,
}

impl View for McpServer {
    type V = RegistryView;

    closed spec fn view(&self) -> RegistryView {
        self.registry@
    }
}

impl McpServer {
    pub fn new(registry: ToolRegistry) -> (r: Self)
        ensures
            r@ == registry@,
    {
        McpServer { registry: Arc::new(registry) }
    }

    pub fn registry(&self) -> (r: &Arc<ToolRegistry>)
        ensures
            r@ == self@,
    {
        &self.registry
    }

    /// Whether a request can be handled.
    pub fn can_handle(&self, req: &JsonRpcRequest) -> (r: bool)
        ensures
            r == request_accepted(self@, req@),
    {
        if req.id.is_none() || !same(&req.method, "tools/call") {
            return true;
        }
        let params: &Value = match &req.params {
            Some(params) => params,
            None => return true,
        };
        let name: &str = match tool_of(params) {
            Some(name) => name,
            None => return true,
        };
        match arguments_of(params) {
            Some(args) => self.registry.can_call(name, args),
            None => {
                let none: Table<Value> = Table::new();
                proof {
                    assert(members(none) =~= Seq::empty());
                }
                self.registry.can_call(name, &none)
            },
        }
    }

    /// Handles one request.
    pub fn handle(&self, req: JsonRpcRequest) -> (r: Reply)
        requires
            request_accepted(self@, req@),
        ensures
            replies(self@, req@, r@),
    {
        if req.id.is_none() {
            return Reply::Ignored;
        }
        if same(&req.method, "initialize") {
            return Reply::Answered(JsonRpcResponse::success(req.id, initialize_value()));
        }
        if same(&req.method, "tools/list") {
            let definitions: Vec<ToolDefinition> = self.registry.definitions();
            return Reply::Answered(JsonRpcResponse::success(req.id, tools_value(&definitions)));
        }
        if same(&req.method, "tools/call") {
            return self.handle_tools_call(req.id, req.params);
        }
        if same(&req.method, "ping") {
            let nothing: Vec<(String, Value)> = Vec::new();
            proof {
                assert(entry_members(nothing@) =~= Seq::empty());
            }
            return Reply::Answered(JsonRpcResponse::success(req.id, Value::object(nothing)));
        }
        Reply::Answered(JsonRpcResponse::method_not_found(req.id))
    }

    fn handle_tools_call(&self, id: Option<Value>, params: Option<Value>) -> (r: Reply)
        requires
            params matches Some(p) ==> (named_tool(p@) matches Some(name) ==> call_accepted(
                self@,
                name,
                given_arguments(p@),
            )),
        ensures
            tools_call_reply(self@, optional(id), optional(params), r@),
    {
        let params: Value = match params {
            Some(params) => params,
            None => return Reply::Answered(JsonRpcResponse::error(id, -32602, "missing params")),
        };
        let name: &str = match tool_of(&params) {
            Some(name) => name,
            None => return Reply::Answered(
                JsonRpcResponse::error(id, -32602, "missing tool name"),
            ),
        };
        let called: Called = match arguments_of(&params) {
            Some(args) => self.registry.call(name, args),
            None => {
                let none: Table<Value> = Table::new();
                proof {
                    assert(members(none) =~= Seq::empty());
                }
                self.registry.call(name, &none)
            },
        };
        let prompt: Option<String> = called.prompt;
        match called.invocation {
            Invocation::Done(result) => {
                let value: Value = result.with_prompt(prompt).to_value();
                Reply::Answered(JsonRpcResponse::success(id, value))
            },
            Invocation::Run(process) => Reply::Run { id, prompt, process },
            Invocation::Read(file) => Reply::Read { id, prompt, file },
        }
    }

    /// The response that delivers the output of a tool.
    fn deliver(&self, id: Option<Value>, prompt: Option<String>, output: ToolResult) -> (r:
        JsonRpcResponse)
        ensures
            r@ == delivered(self@, optional(id), optional_text(prompt), output@),
    {
        JsonRpcResponse::success(id, self.registry.limit(output).with_prompt(prompt).to_value())
    }

    /// The response to the request whose program has ended.
    pub fn complete_run(
        &self,
        id: Option<Value>,
        prompt: Option<String>,
        process: &Process,
        outcome: Outcome,
    ) -> (r: JsonRpcResponse)
        ensures
            r@ == delivered(
                self@,
                optional(id),
                optional_text(prompt),
                output_result(outcome, process.timeout_secs),
            ),
            outcome matches Outcome::Exited { stdout, stderr, .. } ==> decodes(stdout@) && decodes(
                stderr@,
            ),
    {
        self.deliver(id, prompt, process.finish(outcome))
    }

    /// The response to the request whose file was read, or could not be.
    pub fn complete_read(
        &self,
        id: Option<Value>,
        prompt: Option<String>,
        file: &FileRead,
        content: Result<String, String>,
    ) -> (r: JsonRpcResponse)
        ensures
            r@ == delivered(
                self@,
                optional(id),
                optional_text(prompt),
                read_result(file.path@, content),
            ),
    {
        self.deliver(id, prompt, file.finish(content))
    }
}

/// A request goes without an answer exactly where it has no id.
pub proof fn only_notifications_are_ignored(r: RegistryView, req: RequestView, reply: ReplyView)
    requires
        replies(r, req, reply),
    ensures
        reply is Ignored <==> req.id is None,
{
}

/// Every response is of JSON-RPC 2.0, carries the id of its request, and has
/// either a result or an error. What the server waits for is kept with that id.
pub proof fn response_belongs_to_its_request(r: RegistryView, req: RequestView, reply: ReplyView)
    requires
        replies(r, req, reply),
    ensures
        reply matches ReplyView::Answered(response) ==> {
            &&& response.jsonrpc == "2.0"@
            &&& response.id == req.id
            &&& response.result is Some <==> response.error is None
        },
        reply matches ReplyView::Run { id, .. } ==> id == req.id,
        reply matches ReplyView::Read { id, .. } ==> id == req.id,
{
}

/// The server has a program run or a file read only on `tools/call`, for a tool
/// that is registered and that the policy allows.
pub proof fn server_acts_only_for_allowed_tools(
    r: RegistryView,
    req: RequestView,
    reply: ReplyView,
)
    requires
        replies(r, req, reply),
        reply is Run || reply is Read,
    ensures
        req.method == "tools/call"@,
        req.params matches Some(params) && named_tool(params) matches Some(name) && lookup(
            r.tools,
            name,
        ) matches Some(tool) && allows(r.policy, name, tool_privilege(tool)),
{
}

/// A call that the policy blocks is answered at once, as a result that says so.
pub proof fn blocked_call_is_answered(
    r: RegistryView,
    req: RequestView,
    reply: ReplyView,
    params: Json,
    name: Seq<char>,
    tool: RegisteredTool,
)
    requires
        replies(r, req, reply),
        req.id is Some,
        req.method == "tools/call"@,
        req.params == Some(params),
        named_tool(params) == Some(name),
        lookup(r.tools, name) == Some(tool),
        !allows(r.policy, name, tool_privilege(tool)),
    ensures
        reply == ReplyView::Answered(
            carried(req.id, None, blocked_tool(name, tool_privilege(tool))),
        ),
{
    lemma_methods_differ();
}

/// A call of a tool that is not registered is answered at once, as a result that
/// says so.
pub proof fn unknown_tool_is_answered(
    r: RegistryView,
    req: RequestView,
    reply: ReplyView,
    params: Json,
    name: Seq<char>,
)
    requires
        replies(r, req, reply),
        req.id is Some,
        req.method == "tools/call"@,
        req.params == Some(params),
        named_tool(params) == Some(name),
        !has_name(r.tools, name),
    ensures
        reply == ReplyView::Answered(carried(req.id, None, unknown_tool(name))),
{
    lemma_methods_differ();
}

/// The output that a response delivers takes no more bytes than the limit, and
/// stands after the prompt where there is one.
pub proof fn delivered_output_keeps_the_limit(
    r: RegistryView,
    prompt: Option<Seq<char>>,
    output: ResultView,
)
    ensures
        ({
            let max = r.policy.global.max_output_bytes as nat;
            let content = prompted(limited(output, max), prompt).content;
            match prompt {
                Some(text) => content[0].text == text && total_bytes(content.skip(1)) <= max,
                None => total_bytes(content) <= max,
            }
        }),
{
    let max = r.policy.global.max_output_bytes as nat;
    let content = prompted(limited(output, max), prompt).content;
    limited_result_keeps_the_limit(output, max);
    if prompt is Some {
        assert(content.skip(1) =~= limited(output, max).content);
    }
}

proof fn lemma_methods_differ()
    ensures
        "tools/call"@ != "initialize"@,
        "tools/call"@ != "tools/list"@,
{
    reveal_strlit("tools/call");
    reveal_strlit("initialize");
    reveal_strlit("tools/list");
    assert("tools/call"@[0] == 't' && "initialize"@[0] == 'i');
    assert("tools/call"@[6] == 'c' && "tools/list"@[6] == 'l');
}

proof fn lemma_server_members_differ()
    ensures
        "protocolVersion"@ != "capabilities"@,
        "protocolVersion"@ != "serverInfo"@,
        "capabilities"@ != "serverInfo"@,
        "name"@ != "version"@,
        "initialize"@ != "tools/list"@,
        "initialize"@ != "ping"@,
        "tools/list"@ != "ping"@,
        "tools/call"@ != "ping"@,
{
    reveal_strlit("protocolVersion");
    reveal_strlit("capabilities");
    reveal_strlit("serverInfo");
    reveal_strlit("name");
    reveal_strlit("version");
    reveal_strlit("initialize");
    reveal_strlit("tools/list");
    reveal_strlit("tools/call");
    reveal_strlit("ping");
    assert("protocolVersion"@.len() == 15 && "capabilities"@.len() == 12 && "serverInfo"@.len()
        == 10);
    assert("name"@.len() == 4 && "version"@.len() == 7 && "ping"@.len() == 4);
    assert("initialize"@.len() == 10 && "tools/list"@.len() == 10 && "tools/call"@.len() == 10);
    assert("initialize"@[0] == 'i' && "tools/list"@[0] == 't');
}

proof fn lemma_first_member(rows: Seq<(Seq<char>, Json)>, i: int)
    requires
        0 <= i < rows.len(),
        forall|j: int| 0 <= j < i ==> (#[trigger] rows[j]).0 != rows[i].0,
    ensures
        lookup(rows, rows[i].0) == Some(rows[i].1),
{
    assert(first_at(rows, rows[i].0, i));
    lemma_lookup_first(rows, rows[i].0, i);
}

/// A client that initializes is told the version of the protocol, that the list of
/// tools does not change, and the name and the version of the server.
pub proof fn initialization_tells_who_serves(r: RegistryView, req: RequestView, reply: ReplyView)
    requires
        replies(r, req, reply),
        req.id is Some,
        req.method == "initialize"@,
    ensures
        reply matches ReplyView::Answered(response) && response.result matches Some(result) && {
            &&& json_member(result, "protocolVersion"@) == Some(Json::String("2024-11-05"@))
            &&& json_member(result, "serverInfo"@) matches Some(info) && json_member(info, "name"@)
                == Some(Json::String("droid-mcp"@)) && json_member(info, "version"@) == Some(
                Json::String("0.1.0"@),
            )
            &&& json_member(result, "capabilities"@) matches Some(c) && json_member(c, "tools"@) matches Some(
                t,
            ) && json_member(t, "listChanged"@) == Some(Json::Bool(false))
        },
{
    lemma_server_members_differ();
    let rows = initialize_json()->Object_0;
    lemma_first_member(rows, 0);
    lemma_first_member(rows, 1);
    lemma_first_member(rows, 2);
    let info = rows[2].1->Object_0;
    lemma_first_member(info, 0);
    lemma_first_member(info, 1);
    let c = rows[1].1->Object_0;
    lemma_first_member(c, 0);
    lemma_first_member(c[0].1->Object_0, 0);
}

/// The list of tools has one item for each registered tool, in order, with the
/// name and the description that the tool announces.
pub proof fn every_tool_is_listed(
    r: RegistryView,
    req: RequestView,
    reply: ReplyView,
    i: int,
)
    requires
        replies(r, req, reply),
        req.id is Some,
        req.method == "tools/list"@,
        0 <= i < r.tools.len(),
    ensures
        reply matches ReplyView::Answered(response) && response.result matches Some(result)
            && json_member(result, "tools"@) matches Some(Json::Array(items)) && {
            &&& items.len() == r.tools.len()
            &&& json_member(items[i], "name"@) == Some(
                Json::String(tool_definition(r.tools[i].1).name),
            )
            &&& json_member(items[i], "description"@) == Some(
                Json::String(tool_definition(r.tools[i].1).description),
            )
            &&& items[i] == definition_json(tool_definition(r.tools[i].1))
        },
{
    lemma_server_members_differ();
    let rows = tools_json(announcements(r.tools))->Object_0;
    lemma_first_member(rows, 0);
    definition_has_its_members(tool_definition(r.tools[i].1));
}

/// A ping is answered with an empty object, and a method that the server does not
/// have with the error for that.
pub proof fn pings_and_unknown_methods_are_answered(
    r: RegistryView,
    req: RequestView,
    reply: ReplyView,
)
    requires
        replies(r, req, reply),
        req.id is Some,
        req.method != "initialize"@,
        req.method != "tools/list"@,
        req.method != "tools/call"@,
    ensures
        reply matches ReplyView::Answered(response) && {
            &&& req.method == "ping"@ ==> (response.result matches Some(Json::Object(rows))
                && rows.len() == 0)
            &&& req.method != "ping"@ ==> response.result is None && (response.error matches Some(e)
                && e.code == -32601 && e.message == "Method not found"@)
        },
{
}

/// A call reaches the registry with the name and the arguments that its parameters
/// give, and with no arguments where they give no object of them; without
/// parameters or without a name it is answered with an error that says so.
pub proof fn call_is_made_with_what_it_gives(
    r: RegistryView,
    req: RequestView,
    reply: ReplyView,
    members: Seq<(Seq<char>, Json)>,
    name: Seq<char>,
    args: Arguments,
)
    requires
        replies(r, req, reply),
        req.id is Some,
        req.method == "tools/call"@,
    ensures
        req.params is None ==> reply == ReplyView::Answered(
            error_response(req.id, -32602, "missing params"@),
        ),
        req.params == Some(Json::Object(members)) && lookup(members, "name"@) is None ==> reply
            == ReplyView::Answered(error_response(req.id, -32602, "missing tool name"@)),
        req.params == Some(Json::Object(members)) && lookup(members, "name"@) == Some(
            Json::String(name),
        ) && lookup(members, "arguments"@) == Some(Json::Object(args)) ==> call_reply(
            r,
            req.id,
            name,
            args,
            reply,
        ),
        req.params == Some(Json::Object(members)) && lookup(members, "name"@) == Some(
            Json::String(name),
        ) && lookup(members, "arguments"@) is None ==> call_reply(
            r,
            req.id,
            name,
            Seq::empty(),
            reply,
        ),
{
    lemma_methods_differ();
}

/// What a call of an allowed shell tool without a subcommand asks for is what the
/// server asks for: the same program, or the same file, under the id of the
/// request.
pub proof fn server_asks_for_what_the_tool_asks_for(
    r: RegistryView,
    id: Option<Json>,
    name: Seq<char>,
    tool: ShellTool,
    args: Arguments,
    reply: ReplyView,
)
    requires
        call_reply(r, id, name, args, reply),
        lookup(r.tools, name) == Some(RegisteredTool::Shell(tool)),
        allows(r.policy, name, tool@.privilege),
        subcommand_of(tool@, args) is None,
    ensures
        match invocation(tool@, args) {
            InvocationView::Run(process) => reply == (ReplyView::Run { id, prompt: None, process }),
            InvocationView::Read(path) => reply == (ReplyView::Read { id, prompt: None, path }),
            InvocationView::Done(result) => reply matches ReplyView::Answered(response)
                && response.result == Some(result_json(result)) && response.id == id,
        },
{
}

/// The output of a program that succeeded is delivered whole where it fits the
/// limit: the response carries the id, no error, and exactly that text.
pub proof fn output_that_fits_is_delivered_whole(
    r: RegistryView,
    id: Option<Json>,
    status: Seq<char>,
    out: Seq<char>,
    err: Seq<char>,
)
    requires
        out.len() > 0,
        encode_utf8(out).len() <= r.policy.global.max_output_bytes,
    ensures
        ({
            let response = delivered(r, id, None, exit_result(true, status, out, err));
            &&& response.id == id
            &&& response.error is None
            &&& response.result matches Some(result) && json_member(
                result,
                "content"@,
            ) matches Some(Json::Array(items)) && items.len() == 1 && json_member(
                items[0],
                "text"@,
            ) == Some(Json::String(out)) && json_member(result, "isError"@) is None
        }),
{
    let max = r.policy.global.max_output_bytes as nat;
    let output = exit_result(true, status, out, err);
    successful_output_is_answered_whole(status, out, err);
    limited_result_keeps_the_limit(output, max);
    assert(output.content.drop_last().len() == 0);
    reveal_with_fuel(total_bytes, 2);
    assert(total_bytes(output.content) <= max);
    result_has_its_members(output);
    let items = json_member(result_json(output), "content"@)->0->Array_0;
    assert(json_member(items[0], "text"@) == Some(Json::String(out)));
}

/// A file that fits the limit is delivered whole.
pub proof fn file_that_fits_is_delivered_whole(
    r: RegistryView,
    id: Option<Json>,
    path: Seq<char>,
    text: String,
)
    requires
        encode_utf8(text@).len() <= r.policy.global.max_output_bytes,
    ensures
        ({
            let response = delivered(r, id, None, read_result(path, Ok(text)));
            response.result matches Some(result) && json_member(
                result,
                "content"@,
            ) matches Some(Json::Array(items)) && items.len() == 1 && json_member(
                items[0],
                "text"@,
            ) == Some(Json::String(text@))
        }),
{
    let max = r.policy.global.max_output_bytes as nat;
    let output = read_result(path, Ok(text));
    files_are_answered_whole(path, text, text);
    limited_result_keeps_the_limit(output, max);
    assert(output.content.drop_last().len() == 0);
    reveal_with_fuel(total_bytes, 2);
    assert(total_bytes(output.content) <= max);
    result_has_its_members(output);
    let items = json_member(result_json(output), "content"@)->0->Array_0;
    assert(json_member(items[0], "text"@) == Some(Json::String(text@)));
}

/// A response carries the prompt as its first content where there is one, and
/// after it, or alone, the contents of the result, in order and whole.
pub proof fn prompt_is_delivered_before_the_output(
    r: RegistryView,
    id: Option<Json>,
    prompt: Seq<char>,
    output: ResultView,
    i: int,
)
    requires
        0 <= i < output.content.len(),
        total_bytes(output.content) <= r.policy.global.max_output_bytes,
    ensures
        ({
            let with = delivered(r, id, Some(prompt), output);
            &&& with.id == id
            &&& with.result matches Some(result) && json_member(
                result,
                "content"@,
            ) matches Some(Json::Array(items)) && {
                &&& items.len() == output.content.len() + 1
                &&& json_member(items[0], "text"@) == Some(Json::String(prompt))
                &&& json_member(items[i + 1], "text"@) == Some(Json::String(output.content[i].text))
            }
        }),
        ({
            let alone = delivered(r, id, None, output);
            alone.result matches Some(result) && json_member(
                result,
                "content"@,
            ) matches Some(Json::Array(items)) && {
                &&& items.len() == output.content.len()
                &&& json_member(items[i], "text"@) == Some(Json::String(output.content[i].text))
            }
        }),
{
    let max = r.policy.global.max_output_bytes as nat;
    limited_result_keeps_the_limit(output, max);
    let both = prompted(output, Some(prompt));
    result_has_its_members(both);
    result_has_its_members(output);
    let items = json_member(result_json(both), "content"@)->0->Array_0;
    assert(json_member(items[0], "text"@) == Some(Json::String(both.content[0].text)));
    assert(json_member(items[i + 1], "text"@) == Some(Json::String(both.content[i + 1].text)));
    let plain = json_member(result_json(output), "content"@)->0->Array_0;
    assert(json_member(plain[i], "text"@) == Some(Json::String(output.content[i].text)));
}

/// Parameters that are no object, a name that is no text and arguments that are no
/// object are taken for what is left out.
pub proof fn ill_formed_parameters_are_taken_for_none(
    params: Json,
    rows: Seq<(Seq<char>, Json)>,
    j: Json,
)
    ensures
        !(params is Object) ==> named_tool(params) is None && given_arguments(params).len() == 0,
        lookup(rows, "name"@) == Some(j) && !(j is String) ==> named_tool(Json::Object(rows)) is None,
        lookup(rows, "arguments"@) == Some(j) && !(j is Object) ==> given_arguments(
            Json::Object(rows),
        ).len() == 0,
{
}

/// Every request can be handled that calls no tool, or that names a tool which can
/// be called with its arguments.
pub proof fn requests_that_call_no_tool_can_be_handled(
    r: RegistryView,
    req: RequestView,
    name: Seq<char>,
)
    ensures
        req.id is None || req.method != "tools/call"@ || req.params is None ==> request_accepted(
            r,
            req,
        ),
        req.params matches Some(params) ==> (named_tool(params) == Some(name) && call_accepted(
            r,
            name,
            given_arguments(params),
        ) ==> request_accepted(r, req)),
        req.params matches Some(params) ==> (named_tool(params) is None ==> request_accepted(r, req)),
{
}

/// A reply is shown as what it holds.
pub proof fn replies_are_shown_as_they_are(
    id: Option<Value>,
    prompt: Option<String>,
    process: Process,
    file: FileRead,
    response: JsonRpcResponse,
)
    ensures
        Reply::Ignored@ == ReplyView::Ignored,
        Reply::Answered(response)@ == ReplyView::Answered(response@),
        (Reply::Run { id, prompt, process })@ == (ReplyView::Run {
            id: optional(id),
            prompt: optional_text(prompt),
            process: process@,
        }),
        (Reply::Read { id, prompt, file })@ == (ReplyView::Read {
            id: optional(id),
            prompt: optional_text(prompt),
            path: file.path@,
        }),
{
}

/// Whatever the output is, a failure or a success, what a response delivers of it
/// takes no more bytes than the limit, begins as the output does, and says as the
/// output does whether it is an error.
pub proof fn every_delivery_keeps_the_limit(
    r: RegistryView,
    id: Option<Json>,
    prompt: Option<Seq<char>>,
    output: ResultView,
)
    ensures
        ({
            let max = r.policy.global.max_output_bytes as nat;
            let kept = limited(output, max);
            &&& total_bytes(kept.content) <= max
            &&& kept.content.len() == output.content.len()
            &&& kept.is_error == output.is_error
            &&& delivered(r, id, prompt, output).id == id
            &&& delivered(r, id, prompt, output).error is None
            &&& delivered(r, id, prompt, output).result == Some(
                result_json(prompted(kept, prompt)),
            )
        }),
{
    limited_result_keeps_the_limit(output, r.policy.global.max_output_bytes as nat);
}

} // verus!
