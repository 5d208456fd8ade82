use droid_mcp::json::Value;
use droid_mcp::mcp::{InputSchema, ToolDefinition, ToolResult, ToolResultContent};
use droid_mcp::params::{ParamType, Params};
use droid_mcp::plugin::Plugin;
use droid_mcp::policy::{GlobalPolicy, Policy, PolicyConfig, Privilege, ToolAcl};
use droid_mcp::registry::{Called, ToolRegistry};
use droid_mcp::table::Table;
use droid_mcp::tools::{Direct, Invocation, ShellTool, Tool};

struct MyCustomTool;

impl Tool for MyCustomTool {
    fn definition(&self) -> ToolDefinition {
        ToolDefinition {
            name: "my_custom_tool".into(),
            description: "Does something special".into(),
            input_schema: InputSchema {
                schema_type: "object".into(),
                properties: Table::new(),
                required: vec![],
            },
        }
    }

    fn privilege(&self) -> Privilege {
        Privilege::User
    }

    fn ready(&self, _params: &Table<Value>) -> bool {
        true
    }

    fn invoke(&self, _params: &Table<Value>) -> Invocation {
        Invocation::Done(ToolResult::text("result"))
    }
}

struct Pm;

impl Direct for Pm {
    fn ready(&self, _params: &Params<'_>) -> bool {
        true
    }

    fn build(&self, params: &Params<'_>) -> (String, Vec<String>) {
        ("pm".into(), vec![params.str_or("sub", "list").into()])
    }
}

fn policy(allow_root: bool, max: usize, tools: Vec<(&str, ToolAcl)>) -> Policy {
    let mut table = Table::new();
    for (name, acl) in tools {
        table.insert(name.to_string(), acl);
    }
    Policy::from_config(PolicyConfig {
        global: GlobalPolicy { allow_root, disabled_tools: vec!["off".into()], max_output_bytes: max },
        tools: table,
    })
}

fn done(called: Called) -> (String, Option<bool>) {
    assert_eq!(called.prompt, None);
    match called.invocation {
        Invocation::Done(r) => (r.content[0].text.clone(), r.is_error),
        other => panic!("{:?}", other),
    }
}

fn template(name: &str) -> ShellTool {
    ShellTool::new(name).template(name).build()
}

#[test]
fn unknown_tools_are_answered() {
    let r = ToolRegistry::new(Policy::permissive());
    assert!(r.can_call("nope", &Table::new()));
    assert_eq!(done(r.call("nope", &Table::new())), ("unknown tool: nope".into(), Some(true)));
}

#[test]
fn blocked_tools_are_answered() {
    let mut r = ToolRegistry::new(policy(false, 100, vec![]));
    r.register(template("off"));
    r.register(ShellTool::new("su").root().template("id").build());
    assert_eq!(
        done(r.call("off", &Table::new())),
        ("tool 'off' blocked by policy (requires User)".into(), Some(true))
    );
    assert_eq!(
        done(r.call("su", &Table::new())),
        ("tool 'su' blocked by policy (requires Root)".into(), Some(true))
    );
}

#[test]
fn custom_tools_are_called() {
    let mut r = ToolRegistry::new(Policy::permissive());
    r.register_custom(Plugin::new(Box::new(MyCustomTool)));
    assert_eq!(done(r.call("my_custom_tool", &Table::new())), ("result".into(), None));
    assert_eq!(r.definitions()[0].description, "Does something special");
}

#[test]
fn a_tool_replaces_the_one_with_its_name() {
    let mut r = ToolRegistry::new(Policy::permissive());
    r.register(template("a"));
    r.register(template("b"));
    r.register(ShellTool::new("a").description("new").template("x").build());
    let d = r.definitions();
    assert_eq!(d.len(), 2);
    assert_eq!(d[0].name, "a");
    assert_eq!(d[0].description, "new");
    assert_eq!(d[1].name, "b");
}

#[test]
fn refused_subcommands_do_not_run() {
    let acl = ToolAcl {
        enabled: true,
        allowed_subcommands: vec!["list".into(), "clear".into(), "install".into()],
        confirm_subcommands: vec!["install".into(), "clear".into()],
        denied_subcommands: vec!["clear".into()],
    };
    let mut r = ToolRegistry::new(policy(true, 100, vec![("pm", acl)]));
    r.register(
        ShellTool::new("pm")
            .param("sub", ParamType::String, "", false)
            .direct(Plugin::new(Box::new(Pm)))
            .build(),
    );
    let with = |sub: &str| {
        let mut t = Table::new();
        t.insert("sub".to_string(), Value::text(sub));
        t
    };
    assert_eq!(
        done(r.call("pm", &with("clear"))),
        ("subcommand 'clear' is denied for tool 'pm'".into(), Some(true))
    );
    assert_eq!(
        done(r.call("pm", &with("uninstall"))),
        ("subcommand 'uninstall' not in allowed list for tool 'pm'".into(), Some(true))
    );
    let called = r.call("pm", &Table::new());
    assert_eq!(called.prompt, None);
    match called.invocation {
        Invocation::Run(p) => assert_eq!(p.args, vec!["list"]),
        other => panic!("{:?}", other),
    }
}

#[test]
fn subcommands_to_confirm_come_with_a_prompt() {
    let acl = ToolAcl {
        enabled: true,
        allowed_subcommands: vec![],
        confirm_subcommands: vec!["list".into()],
        denied_subcommands: vec![],
    };
    let mut r = ToolRegistry::new(policy(true, 100, vec![("pm", acl)]));
    r.register(ShellTool::new("pm").direct(Plugin::new(Box::new(Pm))).build());
    let called = r.call("pm", &Table::new());
    assert_eq!(
        called.prompt.unwrap(),
        "subcommand 'list' of tool 'pm' requires confirmation: confirm it with the user first"
    );
    match called.invocation {
        Invocation::Run(p) => assert_eq!(p.args, vec!["list"]),
        other => panic!("{:?}", other),
    }
}

#[test]
fn output_of_custom_tools_is_cut() {
    let mut r = ToolRegistry::new(policy(true, 3, vec![]));
    r.register_custom(Plugin::new(Box::new(MyCustomTool)));
    assert_eq!(done(r.call("my_custom_tool", &Table::new())), ("res".into(), None));
    assert_eq!(done(r.call("nope", &Table::new())), ("unknown tool: nope".into(), Some(true)));
}

#[test]
fn results_are_cut_to_the_limit() {
    let r = ToolRegistry::new(policy(true, 4, vec![]));
    let part = |text: &str| ToolResultContent { content_type: "text".into(), text: text.into() };
    let limit = |texts: &[&str]| {
        let content = texts.iter().map(|t| part(t)).collect();
        r.limit(ToolResult { content, is_error: Some(true) })
    };
    let texts = |cut: &ToolResult| -> Vec<String> {
        cut.content.iter().map(|c| c.text.clone()).collect()
    };
    assert_eq!(texts(&limit(&["abcdef"])), vec!["abcd"]);
    assert_eq!(texts(&limit(&["ééé"])), vec!["éé"]);
    assert_eq!(texts(&limit(&["ab", "cd"])), vec!["ab", "cd"]);
    assert_eq!(texts(&limit(&["ab", "cde", "f"])), vec!["ab", "cd", ""]);
    assert_eq!(texts(&limit(&["abc", "é", "f"])), vec!["abc", "", ""]);
    let cut = limit(&["abcdef"]);
    assert_eq!(cut.is_error, Some(true));
}
