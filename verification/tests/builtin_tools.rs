use droid_mcp::builtins::register_all;
use droid_mcp::json::{Number, Value};
use droid_mcp::policy::Policy;
use droid_mcp::registry::ToolRegistry;
use droid_mcp::shell::shlex_split;
use droid_mcp::table::Table;
use droid_mcp::tools::{Invocation, Process, ShellTool};

fn args(entries: Vec<(&str, Value)>) -> Table<Value> {
    let mut table = Table::new();
    for (name, value) in entries {
        table.insert(name.to_string(), value);
    }
    table
}

fn registry() -> ToolRegistry {
    let mut r = ToolRegistry::new(Policy::permissive());
    register_all(&mut r);
    r
}

fn call(name: &str, entries: Vec<(&str, Value)>) -> Invocation {
    let r = registry();
    let params = args(entries);
    assert!(r.can_call(name, &params));
    let called = r.call(name, &params);
    assert_eq!(called.prompt, None);
    called.invocation
}

fn run(name: &str, entries: Vec<(&str, Value)>) -> Process {
    match call(name, entries) {
        Invocation::Run(p) => {
            assert_eq!(p.program, "sh");
            assert_eq!(p.args[0], "-c");
            assert_eq!(p.args.len(), 2);
            p
        }
        other => panic!("{:?}", other),
    }
}

fn refused(name: &str, entries: Vec<(&str, Value)>) -> String {
    match call(name, entries) {
        Invocation::Done(r) => {
            assert_eq!(r.is_error, Some(true));
            r.content[0].text.clone()
        }
        other => panic!("{:?}", other),
    }
}

#[test]
fn seven_tools_are_built_in() {
    let names: Vec<String> = registry().definitions().iter().map(|d| d.name.clone()).collect();
    assert_eq!(
        names,
        vec![
            "net_connect_info",
            "app_logcat",
            "device_info",
            "net_interfaces",
            "shell_exec",
            "file_read",
            "file_write"
        ]
    );
}

#[test]
fn registering_twice_changes_nothing() {
    let texts = |r: &ToolRegistry| -> Vec<String> {
        r.definitions().iter().map(|d| d.to_value().to_text()).collect()
    };
    let mut r = ToolRegistry::new(Policy::permissive());
    r.register(ShellTool::new("mine").template("x").build());
    r.register(ShellTool::new("device_info").description("old").template("x").build());
    register_all(&mut r);
    let once = texts(&r);
    assert_eq!(once.len(), 8);
    assert!(once[0].contains(r#""name":"mine""#));
    assert!(!once[1].contains("old"));
    register_all(&mut r);
    assert_eq!(texts(&r), once);
}

#[test]
fn descriptions_tell_of_root_and_confirmation() {
    let r = registry();
    let text = |name: &str| {
        r.definitions().iter().find(|d| d.name == name).unwrap().description.clone()
    };
    assert!(text("app_logcat").ends_with("more control over flags. [requires root]"));
    assert!(text("app_logcat").contains("chains `pidof` and `logcat` — use"));
    assert_eq!(
        text("file_write"),
        "Write content to a file on the device [DESTRUCTIVE] [requires confirmation]"
    );
    assert_eq!(text("file_read"), "Read contents of a file on the device");
    assert_eq!(
        text("shell_exec"),
        "Execute an arbitrary shell command in the Termux environment. Use when no specific tool covers what you need. Commands run as the Termux user by default."
    );
}

#[test]
fn connect_info_reads_one_file_of_the_kernel() {
    for (entries, path) in [
        (vec![], "/sys/class/net/wlan0/connect_info"),
        (vec![("interface", Value::text("eth1"))], "/sys/class/net/eth1/connect_info"),
    ] {
        match call("net_connect_info", entries) {
            Invocation::Read(f) => assert_eq!(f.path, path),
            other => panic!("{:?}", other),
        }
    }
    assert_eq!(
        refused("net_connect_info", vec![("interface", Value::text("../.."))]),
        "validation failed for 'interface': invalid interface name"
    );
}

#[test]
fn logcat_is_filtered_by_process() {
    let p = run("app_logcat", vec![("package", Value::text("com.x"))]);
    assert_eq!(p.timeout_secs, 15);
    assert_eq!(
        p.args[1],
        r#"su -c 'PID=$(pidof com.x) && if [ -z "$PID" ]; then echo '\''Process not running'\''; exit 1; fi && logcat --pid $PID -d -t 100'"#
    );
    let p = run(
        "app_logcat",
        vec![
            ("package", Value::text("com.x")),
            ("lines", Value::Number(Number::PosInt(5))),
            ("level", Value::text("E")),
        ],
    );
    assert!(p.args[1].ends_with("-t 5 *:E'"));
    for level in [Value::text("E; id"), Value::text("X"), Value::text("e"), Value::text("")] {
        assert_eq!(
            refused("app_logcat", vec![("package", Value::text("com.x")), ("level", level)]),
            "validation failed for 'level': must be one of V, D, I, W, E, F"
        );
    }
    for level in [Value::Null, Value::Number(Number::PosInt(3)), Value::Bool(true)] {
        let entries = vec![("package", Value::text("com.x")), ("level", level)];
        assert!(run("app_logcat", entries).args[1].ends_with("-t 100'"));
    }
    for level in ["V", "D", "I", "W", "E", "F"] {
        let entries = vec![("package", Value::text("com.x")), ("level", Value::text(level))];
        assert!(run("app_logcat", entries).args[1].ends_with(&format!("-t 100 *:{}'", level)));
    }
    assert_eq!(refused("app_logcat", vec![]), "missing required parameter: package");
    assert_eq!(
        refused("app_logcat", vec![("package", Value::text("com.x; id"))]),
        "validation failed for 'package': invalid package name: only alphanumeric and '.' allowed"
    );
}

#[test]
fn device_summary_chains_its_commands() {
    let p = run("device_info", vec![]);
    assert_eq!(
        p.args[1],
        "echo '=== Device ===' && getprop ro.product.model && getprop ro.product.brand && echo '=== Android ===' && getprop ro.build.version.release && getprop ro.build.version.sdk && echo '=== Kernel ===' && uname -a && echo '=== Memory ===' && cat /proc/meminfo | head -3 && echo '=== Storage ===' && df -h /data /storage/emulated/0 2>/dev/null"
    );
    assert_eq!(p.timeout_secs, 30);
}

#[test]
fn interfaces_are_listed_by_a_fixed_script() {
    let p = run("net_interfaces", vec![]);
    assert_eq!(p.args[1], "ls /sys/class/net/ && echo '---' && ip -brief addr show");
}

#[test]
fn any_command_is_executed() {
    let p = run("shell_exec", vec![("command", Value::text("echo 'hi'"))]);
    assert_eq!(p.args[1], "echo 'hi'");
    assert_eq!(p.timeout_secs, 60);
    let p = run("shell_exec", vec![("command", Value::text("id -u")), ("as_root", Value::Bool(true))]);
    assert_eq!(p.args[1], "su -c 'id -u'");
    let p = run("shell_exec", vec![("command", Value::text("id")), ("as_root", Value::text("true"))]);
    assert_eq!(p.args[1], "id");
    let wrong = args(vec![("command", Value::Number(Number::PosInt(1)))]);
    assert!(!registry().can_call("shell_exec", &wrong));
}

#[test]
fn files_are_read() {
    let p = run("file_read", vec![("path", Value::text("/sdcard/a b"))]);
    assert_eq!(p.args[1], "head -n 200 '/sdcard/a b'");
    let p = run(
        "file_read",
        vec![("path", Value::text("/a")), ("lines", Value::Number(Number::PosInt(0)))],
    );
    assert_eq!(p.args[1], "cat /a");
    let p = run(
        "file_read",
        vec![("path", Value::text("/sdcard/it's.txt")), ("lines", Value::Number(Number::PosInt(0)))],
    );
    assert_eq!(p.args[1], r"cat '/sdcard/it'\''s.txt'");
    assert_eq!(shlex_split(&p.args[1]), vec!["cat", "/sdcard/it's.txt"]);
    let p = run(
        "file_read",
        vec![("path", Value::text("/a")), ("lines", Value::Number(Number::NegInt(-5)))],
    );
    assert_eq!(p.args[1], "head -n -5 /a");
    assert_eq!(
        refused("file_read", vec![("path", Value::text("/a/../b"))]),
        "validation failed for 'path': path traversal not allowed"
    );
    assert_eq!(
        refused("file_read", vec![("path", Value::text("/a\0"))]),
        "validation failed for 'path': null bytes not allowed"
    );
}

#[test]
fn files_are_written() {
    let p = run("file_write", vec![("path", Value::text("/a")), ("content", Value::text("x\ny"))]);
    assert_eq!(p.args[1], "printf %s 'x\ny' > /a");
    let p = run(
        "file_write",
        vec![
            ("path", Value::text("/a")),
            ("content", Value::text("z")),
            ("append", Value::Bool(true)),
        ],
    );
    assert_eq!(p.args[1], "printf %s z >> /a");
    let p = run(
        "file_write",
        vec![("path", Value::text("/it's")), ("content", Value::text("%d 'a'\n$x"))],
    );
    assert_eq!(shlex_split(&p.args[1]), vec!["printf", "%s", "%d 'a'\n$x", ">", "/it's"]);
    let p = run("file_write", vec![("path", Value::text("/a")), ("content", Value::text(""))]);
    assert_eq!(p.args[1], "printf %s '' > /a");
    assert_eq!(
        refused("file_write", vec![("path", Value::text("/a"))]),
        "missing required parameter: content"
    );
}
