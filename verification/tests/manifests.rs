use droid_mcp::json::Value;
use droid_mcp::manifest::{
    default_max_help, default_privilege, default_timeout, entry_tool, load_and_register, register_one,
    scrape_help, HelpOutput, Manifest, ManifestTool, ProbedTool,
};
use droid_mcp::policy::{LoadError, Policy, Privilege};
use droid_mcp::registry::ToolRegistry;
use droid_mcp::table::Table;
use droid_mcp::tools::{Invocation, Process, Tool};

fn entry(name: &str, binary: &str) -> ManifestTool {
    ManifestTool {
        name: name.into(),
        binary: binary.into(),
        help_args: vec!["-h".into()],
        synopsis: "Synopsis.".into(),
        privilege: default_privilege(),
        confirm: false,
        timeout: default_timeout(),
        subcommand: None,
        fallback_help: Some("fallback".into()),
        max_help_chars: default_max_help(),
    }
}

fn output(out: &str, err: &str) -> Option<HelpOutput> {
    Some(HelpOutput { stdout: out.as_bytes().to_vec(), stderr: err.as_bytes().to_vec() })
}

fn run(def: &ManifestTool, line: Option<&str>) -> Process {
    let tool = entry_tool(def, None);
    let mut params = Table::new();
    if let Some(line) = line {
        params.insert("args".to_string(), Value::text(line));
    }
    assert!(tool.ready(&params));
    match tool.invoke(&params) {
        Invocation::Run(p) => p,
        other => panic!("{:?}", other),
    }
}

#[test]
fn entries_have_defaults() {
    assert_eq!(default_privilege(), "user");
    assert_eq!(default_timeout(), 30);
    assert_eq!(default_max_help(), 2000);
}

#[test]
fn help_is_taken_from_what_the_program_writes() {
    let def = entry("getprop", "getprop");
    assert_eq!(scrape_help(&def, &output("usage\n", "noise")), Some("usage\n".into()));
    assert_eq!(scrape_help(&def, &output(" \n", "usage")), Some("usage".into()));
    assert_eq!(scrape_help(&def, &output(" ", "\t\n")), Some("fallback".into()));
    assert_eq!(scrape_help(&def, &None), Some("fallback".into()));
    let bytes = Some(HelpOutput { stdout: vec![b'a', 0xff], stderr: vec![] });
    assert_eq!(scrape_help(&def, &bytes), Some("a\u{fffd}".into()));
}

#[test]
fn help_falls_back_where_the_program_is_not_asked() {
    let mut def = entry("getprop", "getprop");
    def.help_args = vec![];
    assert!(def.help_process().is_none());
    assert_eq!(scrape_help(&def, &output("usage", "")), Some("fallback".into()));
    def.fallback_help = None;
    assert_eq!(scrape_help(&def, &None), None);
}

#[test]
fn help_is_truncated() {
    let mut def = entry("x", "x");
    def.max_help_chars = 3;
    assert_eq!(def.help_from("ééé", ""), Some("ééé".into()));
    assert_eq!(def.help_from("éééé", ""), Some("ééé\n[... truncated]".into()));
    assert_eq!(def.help_from("", "abcd"), Some("abc\n[... truncated]".into()));
    assert_eq!(def.help_from("", ""), Some("fal\n[... truncated]".into()));
    assert_eq!(scrape_help(&def, &None), Some("fal\n[... truncated]".into()));
    def.help_args = vec![];
    def.fallback_help = Some("abcdef".into());
    assert_eq!(scrape_help(&def, &None), Some("abc\n[... truncated]".into()));
    def.max_help_chars = 0;
    assert_eq!(def.help_from("a", ""), Some("\n[... truncated]".into()));
}

#[test]
fn programs_are_looked_for_and_asked() {
    let def = entry("pm_list", "pm");
    let (program, args) = def.presence_check();
    assert_eq!(program, "which");
    assert_eq!(args, vec!["pm"]);
    let p = def.help_process().unwrap();
    assert_eq!(p.program, "pm");
    assert_eq!(p.args, vec!["-h"]);
    assert_eq!(p.timeout_secs, 5);
}

#[test]
fn entries_become_tools() {
    let mut def = entry("pm_list", "pm");
    def.subcommand = Some("list".into());
    def.timeout = 7;
    def.confirm = true;
    def.privilege = "root".into();
    let tool = entry_tool(&def, Some("usage".into()));
    let d = tool.definition();
    assert_eq!(d.name, "pm_list");
    assert_eq!(d.description, "Synopsis.\n\nusage [requires root] [requires confirmation]");
    assert!(d.input_schema.required.is_empty());
    let args = d.input_schema.properties.get("args").unwrap();
    assert_eq!(args.default, Some(Value::text("")));
    assert_eq!(
        args.description,
        "Command-line arguments for `pm` list (subcommand is prepended automatically). Pass flags and values exactly as shown in the usage above."
    );
    assert_eq!(tool.privilege(), Privilege::Root);
    def.subcommand = None;
    def.privilege = "ROOT".into();
    let tool = entry_tool(&def, None);
    assert_eq!(tool.privilege(), Privilege::User);
    let d = tool.definition();
    assert_eq!(d.description, "Synopsis. [requires confirmation]");
    assert_eq!(
        d.input_schema.properties.get("args").unwrap().description,
        "Command-line arguments for `pm`. Pass flags and values exactly as shown in the usage above."
    );
}

#[test]
fn arguments_are_split_into_words() {
    let mut def = entry("pm_list", "pm");
    let p = run(&def, Some("packages -f 'a b'"));
    assert_eq!(p.program, "pm");
    assert_eq!(p.args, vec!["packages", "-f", "a b"]);
    assert!(run(&def, None).args.is_empty());
    def.subcommand = Some("list".into());
    assert_eq!(run(&def, Some("")).args, vec!["list"]);
    assert_eq!(run(&def, Some("packages")).args, vec!["list", "packages"]);
    def.privilege = "root".into();
    let p = run(&def, Some("packages 'a b'"));
    assert_eq!(p.program, "su");
    assert_eq!(p.args, vec!["-c", "pm list packages 'a b'"]);
    assert_eq!(p.timeout_secs, 30);
}

#[test]
fn the_fixed_subcommand_is_judged() {
    let mut def = entry("pm_list", "pm");
    let mut params = Table::new();
    params.insert("args".to_string(), Value::text("-f clear"));
    assert_eq!(entry_tool(&def, None).plan(&params).subcommand, Some("clear".into()));
    def.subcommand = Some("list".into());
    assert_eq!(entry_tool(&def, None).plan(&params).subcommand, Some("list".into()));
    def.subcommand = None;
    assert_eq!(entry_tool(&def, None).plan(&Table::new()).subcommand, None);
}

#[test]
fn missing_programs_are_skipped() {
    let mut r = ToolRegistry::new(Policy::permissive());
    let mut def = entry("x", "nope");
    def.fallback_help = None;
    let probed = ProbedTool { def, found: false, help: None };
    assert_eq!(register_one(&probed, &mut r), Err("binary 'nope' not found in PATH".into()));
    assert_eq!(r.definitions().len(), 0);
}

#[test]
fn missing_programs_with_a_fallback_are_registered() {
    let mut r = ToolRegistry::new(Policy::permissive());
    let probed = ProbedTool { def: entry("x", "nope"), found: false, help: output("stale", "") };
    assert_eq!(register_one(&probed, &mut r), Ok(()));
    assert_eq!(r.definitions()[0].name, "x");
    assert_eq!(r.definitions()[0].description, "Synopsis.\n\nfallback");
}

#[test]
fn manifests_are_registered() {
    let mut r = ToolRegistry::new(Policy::permissive());
    let mut manifest = Manifest { tool: vec![entry("a", "a"), entry("b", "b"), entry("a", "c")] };
    manifest.tool[1].fallback_help = None;
    let probed: Vec<ProbedTool> = manifest
        .tool
        .into_iter()
        .map(|def| ProbedTool { found: def.binary != "b", help: output(&def.binary, ""), def })
        .collect();
    assert_eq!(load_and_register("tools.toml", Ok(probed), &mut r), Ok(2));
    let d = r.definitions();
    assert_eq!(d.len(), 1);
    assert_eq!(d[0].name, "a");
    assert_eq!(d[0].description, "Synopsis.\n\nc");
}

#[test]
fn manifests_that_fail_are_reported() {
    let mut r = ToolRegistry::new(Policy::permissive());
    assert_eq!(
        load_and_register("tools.toml", Err(LoadError::Read("denied".into())), &mut r),
        Err("failed to read manifest tools.toml: denied".into())
    );
    assert_eq!(
        load_and_register("tools.toml", Err(LoadError::Parse("bad".into())), &mut r),
        Err("failed to parse manifest: bad".into())
    );
    assert_eq!(r.definitions().len(), 0);
}
