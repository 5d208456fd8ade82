use droid_mcp::json::{Number, Value};
use droid_mcp::params::{validate_safe_path, PackageName, ParamType, Params, Validator};
use droid_mcp::plugin::Plugin;
use droid_mcp::policy::Privilege;
use droid_mcp::shell::shlex_split;
use droid_mcp::table::Table;
use droid_mcp::tools::{Direct, Invocation, Outcome, Process, Script, ShellTool, Tool};

fn args(entries: Vec<(&str, Value)>) -> Table<Value> {
    let mut table = Table::new();
    for (name, value) in entries {
        table.insert(name.to_string(), value);
    }
    table
}

fn run(tool: &ShellTool, entries: Vec<(&str, Value)>) -> Process {
    let params = args(entries);
    assert!(tool.ready(&params));
    match tool.invoke(&params) {
        Invocation::Run(p) => p,
        other => panic!("{:?}", other),
    }
}

fn refused(tool: &ShellTool, entries: Vec<(&str, Value)>) -> String {
    let params = args(entries);
    assert!(tool.ready(&params));
    match tool.invoke(&params) {
        Invocation::Done(r) => {
            assert_eq!(r.is_error, Some(true));
            assert_eq!(r.content.len(), 1);
            assert_eq!(r.content[0].content_type, "text");
            r.content[0].text.clone()
        }
        other => panic!("{:?}", other),
    }
}

struct UnderSys;

impl Validator for UnderSys {
    fn check(&self, value: &Value) -> Result<(), String> {
        let s = value.as_str().ok_or("must be string".to_string())?;
        if !s.starts_with("/sys/") {
            return Err("must be under /sys/".into());
        }
        validate_safe_path(value)
    }
}

struct GivenPath;

impl Script for GivenPath {
    fn ready(&self, params: &Params<'_>) -> bool {
        params.str("path").is_some()
    }

    fn build(&self, params: &Params<'_>) -> String {
        params.str("path").unwrap().to_string()
    }
}

struct Dumpsys;

impl Script for Dumpsys {
    fn ready(&self, params: &Params<'_>) -> bool {
        params.str("package").is_some()
    }

    fn build(&self, params: &Params<'_>) -> String {
        let verbose = if params.bool("verbose").unwrap_or(false) { "-v" } else { "" };
        format!("dumpsys package {} {}", params.str("package").unwrap(), verbose)
    }
}

struct Am;

impl Direct for Am {
    fn ready(&self, _params: &Params<'_>) -> bool {
        true
    }

    fn build(&self, params: &Params<'_>) -> (String, Vec<String>) {
        ("am".into(), vec!["--user".into(), "start".into(), params.str_or("uri", "a b").into()])
    }
}

fn my_tool() -> ShellTool {
    ShellTool::new("my_tool")
        .description("What this tool does")
        .param("arg1", ParamType::String, "Description", true)
        .validate("arg1", Plugin::new(Box::new(PackageName)))
        .template("some_binary --flag {arg1}")
        .build()
}

#[test]
fn template_tool_substitutes_its_parameter() {
    let p = run(&my_tool(), vec![("arg1", Value::text("com.x"))]);
    assert_eq!(p.program, "sh");
    assert_eq!(p.args, vec!["-c", "some_binary --flag com.x"]);
    assert_eq!(p.timeout_secs, 30);
}

#[test]
fn required_parameters_have_to_be_given() {
    assert_eq!(refused(&my_tool(), vec![]), "missing required parameter: arg1");
    assert_eq!(refused(&my_tool(), vec![("other", Value::Null)]), "missing required parameter: arg1");
}

#[test]
fn validators_are_asked() {
    assert_eq!(
        refused(&my_tool(), vec![("arg1", Value::text("a b.c"))]),
        "validation failed for 'arg1': invalid package name: only alphanumeric and '.' allowed"
    );
    assert_eq!(
        refused(&my_tool(), vec![("arg1", Value::Number(Number::PosInt(1)))]),
        "validation failed for 'arg1': must be a string"
    );
}

#[test]
fn templates_take_values_of_every_type() {
    let tool = ShellTool::new("t")
        .param("s", ParamType::String, "", false)
        .param("n", ParamType::Integer, "", false)
        .default_value(Value::Number(Number::NegInt(-2)))
        .param("b", ParamType::Boolean, "", false)
        .template("x {s} {n} {b} {missing} {s}")
        .build();
    let p = run(&tool, vec![("s", Value::text("it's")), ("b", Value::Bool(true))]);
    assert_eq!(p.args[1], r"x 'it'\''s' -2 true {missing} 'it'\''s'");
    let p = run(&tool, vec![("n", Value::Number(Number::Float("1.5".into()))), ("b", Value::Null)]);
    assert_eq!(p.args[1], "x {s} 1.5 null {missing} {s}");
    let list = Value::Array(vec![Value::text("a"), Value::Bool(false)]);
    let p = run(&tool, vec![("s", list), ("b", Value::text(""))]);
    assert_eq!(p.args[1], r#"x '["a",false]' -2 '' {missing} '["a",false]'"#);
}

#[test]
fn objects_fill_slots_with_their_names_in_order() {
    let object = Value::Object(args(vec![
        ("b", Value::Bool(true)),
        ("a", Value::Object(args(vec![("z", Value::Null), ("y", Value::text("it's"))]))),
        ("aa", Value::Array(vec![])),
        ("B", Value::Number(Number::PosInt(1))),
    ]));
    let tool = ShellTool::new("t")
        .param("o", ParamType::String, "", false)
        .default_value(object)
        .template("x {o}")
        .build();
    assert_eq!(
        shlex_split(&run(&tool, vec![]).args[1])[1],
        r#"{"B":1,"a":{"y":"it's","z":null},"aa":[],"b":true}"#
    );
}

#[test]
fn slots_inside_of_values_are_kept() {
    let tool = ShellTool::new("t")
        .param("a", ParamType::String, "", true)
        .param("b", ParamType::String, "", true)
        .template("echo {a} {b}")
        .build();
    let p = run(&tool, vec![("a", Value::text("{b}")), ("b", Value::text("c d"))]);
    assert_eq!(p.args[1], "echo '{b}' 'c d'");
    assert_eq!(shlex_split(&p.args[1]), vec!["echo", "{b}", "c d"]);
    let p = run(&tool, vec![("a", Value::text("it's; {a}")), ("b", Value::text("{"))]);
    assert_eq!(p.args[1], r"echo 'it'\''s; {a}' '{'");
}

#[test]
fn slots_are_filled_where_they_stand() {
    let tool = ShellTool::new("t")
        .param("a", ParamType::String, "", true)
        .template("{{a}}{a}{a{a}")
        .build();
    assert_eq!(run(&tool, vec![("a", Value::text("x"))]).args[1], "{x}x{ax");
}

#[test]
fn given_arguments_win_over_defaults() {
    let tool = ShellTool::new("t")
        .param("a", ParamType::String, "", false)
        .default_value(Value::text("d"))
        .template("{a}")
        .build();
    assert_eq!(run(&tool, vec![]).args[1], "d");
    assert_eq!(run(&tool, vec![("a", Value::text("g"))]).args[1], "g");
    assert_eq!(run(&tool, vec![("a", Value::Null)]).args[1], "null");
}

#[test]
fn script_tool_runs_as_root() {
    let tool = ShellTool::new("complex_tool")
        .description("Does something complex")
        .param("package", ParamType::String, "Package name", true)
        .param("verbose", ParamType::Boolean, "Verbose output", false)
        .default_value(Value::Bool(false))
        .root()
        .confirm()
        .timeout(60)
        .script(Plugin::new(Box::new(Dumpsys)))
        .build();
    let p = run(&tool, vec![("package", Value::text("com.x")), ("verbose", Value::Bool(true))]);
    assert_eq!(p.program, "sh");
    assert_eq!(p.args, vec!["-c", "su -c 'dumpsys package com.x -v'"]);
    assert_eq!(p.timeout_secs, 60);
    assert_eq!(tool.privilege(), Privilege::Root);
    assert_eq!(
        tool.definition().description,
        "Does something complex [requires root] [requires confirmation]"
    );
    assert!(!tool.ready(&args(vec![("package", Value::Bool(true))])));
}

#[test]
fn file_tool_reads_a_path() {
    let tool = ShellTool::new("read_sensor")
        .description("Read a sysfs sensor value")
        .param("path", ParamType::String, "Sysfs path under /sys/", true)
        .validate("path", Plugin::new(Box::new(UnderSys)))
        .read_file(Plugin::new(Box::new(GivenPath)))
        .build();
    match tool.invoke(&args(vec![("path", Value::text("/sys/a"))])) {
        Invocation::Read(f) => {
            assert_eq!(f.path, "/sys/a");
            let ok = f.finish(Ok("7\n".into()));
            assert_eq!(ok.content[0].text, "7\n");
            assert_eq!(ok.is_error, None);
            let failed = f.finish(Err("denied".into()));
            assert_eq!(failed.content[0].text, "failed to read /sys/a: denied");
            assert_eq!(failed.is_error, Some(true));
        }
        other => panic!("{:?}", other),
    }
    assert_eq!(
        refused(&tool, vec![("path", Value::text("/etc/a"))]),
        "validation failed for 'path': must be under /sys/"
    );
    assert_eq!(
        refused(&tool, vec![("path", Value::text("/sys/../a"))]),
        "validation failed for 'path': path traversal not allowed"
    );
}

#[test]
fn direct_tool_runs_without_a_shell() {
    let user = ShellTool::new("am").direct(Plugin::new(Box::new(Am))).build();
    let p = run(&user, vec![("uri", Value::text("x;y"))]);
    assert_eq!(p.program, "am");
    assert_eq!(p.args, vec!["--user", "start", "x;y"]);
    assert_eq!(user.plan(&args(vec![])).subcommand, Some("start".to_string()));
    let root = ShellTool::new("am").root().direct(Plugin::new(Box::new(Am))).build();
    let p = run(&root, vec![]);
    assert_eq!(p.program, "su");
    assert_eq!(p.args, vec!["-c", "am --user start 'a b'"]);
    assert_eq!(my_tool().plan(&args(vec![("arg1", Value::text("com.x"))])).subcommand, None);
    assert_eq!(my_tool().plan(&args(vec![])).subcommand, None);
}

#[test]
fn definitions_describe_the_parameters() {
    let tool = ShellTool::new("t")
        .description("D")
        .param("a", ParamType::String, "first", true)
        .param_enum("e", "second", vec!["x", "y"], false)
        .param("a", ParamType::Integer, "again", true)
        .default_value(Value::Bool(true))
        .template("t")
        .build();
    let d = tool.definition();
    assert_eq!(d.name, "t");
    assert_eq!(d.description, "D");
    assert_eq!(d.input_schema.schema_type, "object");
    assert_eq!(d.input_schema.required, vec!["a", "a"]);
    assert_eq!(d.input_schema.properties.len(), 2);
    let a = d.input_schema.properties.get("a").unwrap();
    assert_eq!(a.prop_type, "integer");
    assert_eq!(a.description, "again");
    assert_eq!(a.default, Some(Value::Bool(true)));
    let e = d.input_schema.properties.get("e").unwrap();
    assert_eq!(e.prop_type, "string");
    assert_eq!(e.enum_values, Some(vec!["x".to_string(), "y".to_string()]));
    assert_eq!(
        d.to_value().to_text(),
        concat_lines(&[
            r#"{"description":"D","inputSchema":{"properties":{"#,
            r#""a":{"default":true,"description":"again","type":"integer"},"#,
            r#""e":{"description":"second","enum":["x","y"],"type":"string"}},"#,
            r#""required":["a","a"],"type":"object"},"name":"t"}"#,
        ])
    );
    let none = ShellTool::new("n").template("n").build().definition();
    assert_eq!(none.input_schema.required.len(), 0);
}

fn concat_lines(parts: &[&str]) -> String {
    parts.join("")
}

#[test]
fn builders_know_whether_they_have_a_command() {
    assert!(!ShellTool::new("t").root().has_command());
    assert!(ShellTool::new("t").template("x").has_command());
}

fn ended(success: bool, out: &[u8], err: &[u8]) -> (String, Option<bool>) {
    let r = ShellTool::handle_output(
        Outcome::Exited {
            success,
            status: "exit status: 1".into(),
            stdout: out.to_vec(),
            stderr: err.to_vec(),
        },
        30,
    );
    (r.content[0].text.clone(), r.is_error)
}

#[test]
fn output_of_programs_becomes_a_result() {
    assert_eq!(ended(true, b"out", b"err"), ("out".into(), None));
    assert_eq!(ended(true, b"", b"err"), ("(stderr) err".into(), None));
    assert_eq!(ended(true, b"", b""), ("".into(), None));
    assert_eq!(
        ended(false, b"out", b"err"),
        ("exit code: exit status: 1\nstderr: err\nstdout: out".into(), Some(true))
    );
    assert_eq!(ended(false, b"", b""), ("exit code: exit status: 1".into(), Some(true)));
    let r = ShellTool::handle_output(Outcome::NotStarted { reason: "not found".into() }, 30);
    assert_eq!(r.content[0].text, "failed to spawn: not found");
    assert_eq!(r.is_error, Some(true));
    let p = Process { program: "x".into(), args: vec![], timeout_secs: 15 };
    let r = p.finish(Outcome::TimedOut);
    assert_eq!(r.content[0].text, "command timed out after 15s");
    assert_eq!(r.is_error, Some(true));
}

#[test]
fn bytes_that_are_not_text_are_replaced() {
    assert_eq!(ended(true, b"a\xffb", b""), ("a\u{fffd}b".into(), None));
    assert_eq!(ended(true, "é日".as_bytes(), b""), ("é日".into(), None));
    let r = ShellTool::exited(true, "", "", "e");
    assert_eq!(r.content[0].text, "(stderr) e");
}
