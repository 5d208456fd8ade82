use droid_mcp::builtins::register_all;
use droid_mcp::json::{Number, Value};
use droid_mcp::mcp::{JsonRpcRequest, JsonRpcResponse, ServerCapabilities, ToolsCapability};
use droid_mcp::policy::{GlobalPolicy, Policy, PolicyConfig};
use droid_mcp::registry::ToolRegistry;
use droid_mcp::server::{McpServer, Reply};
use droid_mcp::table::Table;
use droid_mcp::tools::Outcome;
use droid_mcp::transport::{
    endpoint_uri, handle_line, line_text, output_line, screen_message, transport_named, Admission, Transport,
};

fn object(entries: Vec<(&str, Value)>) -> Value {
    let mut table = Table::new();
    for (name, value) in entries {
        table.insert(name.to_string(), value);
    }
    Value::Object(table)
}

fn server(max: usize) -> McpServer {
    let mut registry = ToolRegistry::new(Policy::from_config(PolicyConfig {
        global: GlobalPolicy {
            allow_root: false,
            disabled_tools: vec![],
            max_output_bytes: max,
        },
        tools: Table::new(),
    }));
    register_all(&mut registry);
    McpServer::new(registry)
}

fn id() -> Option<Value> {
    Some(Value::Number(Number::PosInt(7)))
}

fn request(id: Option<Value>, method: &str, params: Option<Value>) -> JsonRpcRequest {
    JsonRpcRequest { jsonrpc: "2.0".into(), id, method: method.into(), params }
}

fn reply(method: &str, params: Option<Value>) -> Reply {
    let s = server(512_000);
    let req = request(id(), method, params);
    assert!(s.can_handle(&req));
    s.handle(req)
}

fn answer(method: &str, params: Option<Value>) -> JsonRpcResponse {
    match reply(method, params) {
        Reply::Answered(r) => {
            assert_eq!(r.jsonrpc, "2.0");
            assert_eq!(r.id, id());
            r
        }
        other => panic!("{:?}", other),
    }
}

fn error(r: JsonRpcResponse) -> (i64, String) {
    assert!(r.result.is_none());
    let e = r.error.unwrap();
    assert!(e.data.is_none());
    (e.code, e.message)
}

fn result_text(r: JsonRpcResponse) -> String {
    assert!(r.error.is_none());
    r.result.unwrap().to_text()
}

#[test]
fn notifications_are_not_answered() {
    let s = server(10);
    for method in ["notifications/initialized", "tools/call", "ping"] {
        let req = request(None, method, None);
        assert!(s.can_handle(&req));
        assert!(matches!(s.handle(req), Reply::Ignored));
    }
}

#[test]
fn clients_are_told_who_serves_them() {
    assert_eq!(
        result_text(answer("initialize", None)),
        r#"{"capabilities":{"tools":{"listChanged":false}},"protocolVersion":"2024-11-05","serverInfo":{"name":"droid-mcp","version":"0.1.0"}}"#
    );
    assert_eq!(ServerCapabilities { tools: None }.to_value().to_text(), r#"{"tools":null}"#);
    let c = ServerCapabilities { tools: Some(ToolsCapability { list_changed: true }) };
    assert_eq!(c.to_value().to_text(), r#"{"tools":{"listChanged":true}}"#);
}

#[test]
fn pings_are_answered() {
    assert_eq!(result_text(answer("ping", None)), "{}");
}

#[test]
fn unknown_methods_are_errors() {
    assert_eq!(error(answer("resources/list", None)), (-32601, "Method not found".into()));
    assert_eq!(error(answer("", None)), (-32601, "Method not found".into()));
}

#[test]
fn tools_are_listed() {
    let r = answer("tools/list", None).result.unwrap();
    match r.get("tools").unwrap() {
        Value::Array(tools) => {
            assert_eq!(tools.len(), 7);
            assert_eq!(
                tools[3].to_text(),
                r#"{"description":"List all network interfaces with their addresses and state","inputSchema":{"properties":{},"type":"object"},"name":"net_interfaces"}"#
            );
        }
        other => panic!("{:?}", other),
    }
}

#[test]
fn calls_need_parameters_and_a_name() {
    assert_eq!(error(answer("tools/call", None)), (-32602, "missing params".into()));
    let missing = (-32602, "missing tool name".to_string());
    assert_eq!(error(answer("tools/call", Some(Value::Null))), missing);
    assert_eq!(error(answer("tools/call", Some(object(vec![])))), missing);
    assert_eq!(error(answer("tools/call", Some(object(vec![("name", Value::Bool(true))])))), missing);
}

#[test]
fn unknown_and_blocked_calls_are_answered() {
    let r = answer("tools/call", Some(object(vec![("name", Value::text("nope"))])));
    assert_eq!(
        result_text(r),
        r#"{"content":[{"text":"unknown tool: nope","type":"text"}],"isError":true}"#
    );
    let r = answer("tools/call", Some(object(vec![("name", Value::text("app_logcat"))])));
    assert_eq!(
        result_text(r),
        r#"{"content":[{"text":"tool 'app_logcat' blocked by policy (requires Root)","type":"text"}],"isError":true}"#
    );
}

#[test]
fn refusals_are_not_cut() {
    let params = object(vec![("name", Value::text("nope"))]);
    match server(3).handle(request(id(), "tools/call", Some(params))) {
        Reply::Answered(r) => assert!(result_text(r).contains("unknown tool: nope")),
        other => panic!("{:?}", other),
    }
}

#[test]
fn programs_are_run_and_their_output_is_delivered() {
    let arguments = object(vec![("command", Value::text("id"))]);
    let params = object(vec![("name", Value::text("shell_exec")), ("arguments", arguments)]);
    let (waiting, process) = match reply("tools/call", Some(params)) {
        Reply::Run { id, prompt: None, process } => (id, process),
        other => panic!("{:?}", other),
    };
    assert_eq!(waiting, id());
    assert_eq!(process.args[1], "id");
    let outcome = |text: &str| Outcome::Exited {
        success: true,
        status: "exit status: 0".into(),
        stdout: text.as_bytes().to_vec(),
        stderr: vec![],
    };
    let r = server(512_000).complete_run(waiting, None, &process, outcome("uid=0"));
    assert_eq!(r.id, id());
    assert_eq!(result_text(r), r#"{"content":[{"text":"uid=0","type":"text"}]}"#);
    let r = server(3).complete_run(None, None, &process, outcome("uid=0"));
    assert_eq!(result_text(r), r#"{"content":[{"text":"uid","type":"text"}]}"#);
    let r = server(3).complete_run(None, Some("confirm".into()), &process, outcome("uid=0"));
    assert_eq!(
        result_text(r),
        r#"{"content":[{"text":"confirm","type":"text"},{"text":"uid","type":"text"}]}"#
    );
    let r = server(512_000).complete_run(None, None, &process, Outcome::TimedOut);
    assert_eq!(
        result_text(r),
        r#"{"content":[{"text":"command timed out after 60s","type":"text"}],"isError":true}"#
    );
}

#[test]
fn files_are_read_and_delivered() {
    let params = object(vec![
        ("name", Value::text("net_connect_info")),
        ("arguments", Value::text("not an object")),
    ]);
    let (waiting, file) = match reply("tools/call", Some(params)) {
        Reply::Read { id, prompt: None, file } => (id, file),
        other => panic!("{:?}", other),
    };
    assert_eq!(waiting, id());
    assert_eq!(file.path, "/sys/class/net/wlan0/connect_info");
    let r = server(512_000).complete_read(waiting, None, &file, Ok("ssid".into()));
    assert_eq!(result_text(r), r#"{"content":[{"text":"ssid","type":"text"}]}"#);
}

#[test]
fn requests_that_no_tool_can_take_are_told_apart() {
    let s = server(10);
    let arguments = object(vec![("command", Value::Bool(true))]);
    let params = object(vec![("name", Value::text("shell_exec")), ("arguments", arguments)]);
    assert!(!s.can_handle(&request(id(), "tools/call", Some(params.clone()))));
    assert!(s.can_handle(&request(None, "tools/call", Some(params.clone()))));
    assert!(s.can_handle(&request(id(), "tools/list", Some(params))));
    assert_eq!(s.registry().definitions().len(), 7);
}

#[test]
fn transports_are_named() {
    assert_eq!(transport_named("sse"), Ok(Transport::Sse));
    assert_eq!(transport_named("stdio"), Ok(Transport::Stdio));
    assert_eq!(
        transport_named("tcp"),
        Err("unknown transport: tcp (use 'sse' or 'stdio')".to_string())
    );
}

#[test]
fn blank_lines_are_skipped() {
    assert_eq!(line_text(" \t"), None);
    assert_eq!(line_text(""), None);
    assert_eq!(line_text(" {} \r"), Some("{}".to_string()));
    assert_eq!(output_line("{}"), "{}\n");
}

#[test]
fn lines_that_are_no_requests_are_errors() {
    match handle_line(&server(10), Err("expected value".into())) {
        Reply::Answered(r) => {
            assert_eq!(r.id, None);
            assert_eq!(error(r), (-32700, "parse error: expected value".into()));
        }
        other => panic!("{:?}", other),
    }
    match handle_line(&server(10), Ok(request(id(), "ping", None))) {
        Reply::Answered(r) => assert_eq!(result_text(r), "{}"),
        other => panic!("{:?}", other),
    }
}

#[test]
fn messages_need_a_known_session() {
    assert_eq!(endpoint_uri("abc"), "/message?sessionId=abc");
    assert_ne!(endpoint_uri("abc"), endpoint_uri("abd"));
    let refused = |a: Admission| match a {
        Admission::Refused { status, reason } => (status, reason),
        other => panic!("{:?}", other),
    };
    let ping = || Ok(request(id(), "ping", None));
    assert_eq!(refused(screen_message(false, true, ping())), (400, "missing sessionId".into()));
    assert_eq!(refused(screen_message(true, false, ping())), (404, "unknown session".into()));
    assert_eq!(
        refused(screen_message(true, true, Err("missing field".into()))),
        (400, "invalid request: missing field".into())
    );
    match screen_message(true, true, ping()) {
        Admission::Admitted(req) => assert_eq!(req.method, "ping"),
        other => panic!("{:?}", other),
    }
}
