use droid_mcp::policy::{
    default_max_output, default_true, GlobalPolicy, LoadError, Policy, PolicyConfig, Privilege, ToolAcl,
};
use droid_mcp::table::Table;

fn acl(enabled: bool, allowed: &[&str], confirm: &[&str], denied: &[&str]) -> ToolAcl {
    let list = |names: &[&str]| names.iter().map(|s| s.to_string()).collect();
    ToolAcl {
        enabled,
        allowed_subcommands: list(allowed),
        confirm_subcommands: list(confirm),
        denied_subcommands: list(denied),
    }
}

fn config(allow_root: bool, disabled: &[&str], tools: Vec<(&str, ToolAcl)>) -> PolicyConfig {
    let mut table = Table::new();
    for (name, acl) in tools {
        table.insert(name.to_string(), acl);
    }
    PolicyConfig {
        global: GlobalPolicy {
            allow_root,
            disabled_tools: disabled.iter().map(|s| s.to_string()).collect(),
            max_output_bytes: 10,
        },
        tools: table,
    }
}

#[test]
fn permissive_policy_allows_everything() {
    let policy = Policy::permissive();
    assert!(policy.is_allowed("shell_exec", &Privilege::Root));
    assert!(policy.is_allowed("x", &Privilege::User));
    assert_eq!(policy.check_subcommand("pm", "uninstall"), Ok(false));
    assert_eq!(policy.max_output_bytes(), 512_000);
    assert!(default_true());
    assert_eq!(default_max_output(), 512_000);
}

#[test]
fn root_switch_blocks_root_tools_only() {
    let policy = Policy::from_config(config(false, &[], vec![]));
    assert!(!policy.is_allowed("app_logcat", &Privilege::Root));
    assert!(policy.is_allowed("app_logcat", &Privilege::User));
}

#[test]
fn disabled_tools_are_blocked() {
    let policy = Policy::from_config(config(
        true,
        &["shell_exec"],
        vec![
            ("shell_exec", acl(true, &[], &[], &[])),
            ("pm_uninstall", acl(false, &[], &[], &[])),
            ("pm_install", acl(true, &[], &[], &[])),
        ],
    ));
    assert!(!policy.is_allowed("shell_exec", &Privilege::User));
    assert!(!policy.is_allowed("pm_uninstall", &Privilege::User));
    assert!(policy.is_allowed("pm_install", &Privilege::Root));
    assert!(policy.is_allowed("other", &Privilege::Root));
}

#[test]
fn subcommands_are_judged_by_the_rules_of_their_tool() {
    let policy = Policy::from_config(config(
        true,
        &[],
        vec![("pm", acl(true, &["list", "path", "install", "uninstall"], &["install"], &["uninstall"]))],
    ));
    assert_eq!(policy.check_subcommand("pm", "list"), Ok(false));
    assert_eq!(policy.check_subcommand("pm", "install"), Ok(true));
    assert_eq!(
        policy.check_subcommand("pm", "uninstall"),
        Err("subcommand 'uninstall' is denied for tool 'pm'".to_string())
    );
    assert_eq!(
        policy.check_subcommand("pm", "dump"),
        Err("subcommand 'dump' not in allowed list for tool 'pm'".to_string())
    );
    assert_eq!(policy.check_subcommand("am", "dump"), Ok(false));
}

#[test]
fn policy_files_that_fail_are_reported() {
    assert_eq!(
        Policy::load(Err(LoadError::Read("no such file".into()))).unwrap_err(),
        "failed to read policy file: no such file"
    );
    assert_eq!(
        Policy::load(Err(LoadError::Parse("bad key".into()))).unwrap_err(),
        "failed to parse policy: bad key"
    );
    let policy = Policy::load(Ok(config(true, &["x"], vec![]))).unwrap();
    assert!(!policy.is_allowed("x", &Privilege::User));
    assert_eq!(policy.max_output_bytes(), 10);
}

#[test]
fn privileges_have_labels() {
    assert_eq!(Privilege::User.label(), "User");
    assert_eq!(Privilege::Root.label(), "Root");
    let defaults = PolicyConfig::default();
    assert!(defaults.global.allow_root);
    assert!(defaults.global.disabled_tools.is_empty());
    assert_eq!(defaults.tools.len(), 0);
}
