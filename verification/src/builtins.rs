//! The tools that need more than a program and its arguments: they chain
//! commands, read files of the kernel, or check and transform their parameters.

use vstd::prelude::*;
use crate::json::{Json, JsonNumber, Number, Value};
use crate::mcp::DefinitionView;
use crate::params::{
    accepted_interface_name_stays_in_its_directory, accepted_package_name_is_one_plain_word,
    bool_arg, int_arg, interface_objection, package_objection, path_objection, string_arg,
    AnyValidator, Arguments, InterfaceName, PackageName, ParamType, ParamView, Params, SafePath,
    Validator,
};
use crate::plugin::Plugin;
use crate::policy::Privilege;
use crate::registry::{
    announced_name_is_looked_up, announcements, announces, definition_stands_under_its_name,
    tool_definition, under_their_names, RegisteredTool, RegistryView, ToolRegistry,
};
use crate::shell::{
    all_plain, command_line, command_line_keeps_every_argument, escape, escaped_line,
    escaped_text_stays_in_its_word, fresh, lemma_next_escaped_word, lemma_next_word,
    lemma_read_all_concat, root_line, root_line_hands_over_the_whole_command,
    root_line_is_a_command_line_of_su, shell_escape, su_line, words_of, Reader,
};
use crate::table::{distinct, has_name, lookup, put, put_changes_one_name};
use crate::text::{
    chars_of, decimal, decimal_int, decimal_int_text, decimal_stands_for_its_number, join, joined,
    lemma_decimal_int_is_not_empty, texts,
};
use crate::tools::{
    default_never_overrides_an_argument, definition_of, every_default_is_filled_in, invocation,
    lemma_no_default_no_name, script_is_run_whole, template_without_braces_is_kept, tool_accepts,
    tool_acts_on_all_valid_arguments, tool_acts_only_on_valid_arguments, with_defaults, AnyScript,
    CommandSource, InvocationView, Script, ShellTool, ToolModel,
};

verus! {

// What the tools are made of

/// A parameter of a built-in tool.
pub open spec fn parameter(
    name: Seq<char>,
    param_type: ParamType,
    description: Seq<char>,
    required: bool,
    default: Option<Json>,
) -> ParamView {
    ParamView { name, param_type, description, required, default, enum_values: None }
}

/// Whether validator `i` of the tool is the one for `name`, with the objections
/// `objection`.
pub open spec fn has_rule(
    m: ToolModel,
    i: int,
    name: Seq<char>,
    objection: spec_fn(Json) -> Option<Seq<char>>,
) -> bool {
    &&& 0 <= i < m.validators.len()
    &&& m.validators[i].0 == name
    &&& forall|v: Json| #[trigger] m.validators[i].1.inner.objection(v) == objection(v)
}

/// Whether the tool has one validator: the one for `name`, with the objections
/// `objection`.
pub open spec fn has_one_rule(
    m: ToolModel,
    name: Seq<char>,
    objection: spec_fn(Json) -> Option<Seq<char>>,
) -> bool {
    m.validators.len() == 1 && has_rule(m, 0, name, objection)
}

/// Whether the tool runs the script `text`, which needs `accepts` of the
/// arguments.
pub open spec fn runs_script(
    m: ToolModel,
    accepts: spec_fn(Arguments) -> bool,
    text: spec_fn(Arguments) -> Seq<char>,
) -> bool {
    &&& m.command matches Some(CommandSource::Script(s))
    &&& forall|args: Arguments| #[trigger] s.inner.accepts(args) == accepts(args)
    &&& forall|args: Arguments| #[trigger] s.inner.text(args) == text(args)
}

// net_connect_info

/// The path of the kernel's connection info of an interface.
pub open spec fn connect_info_path(args: Arguments) -> Seq<char> {
    "/sys/class/net/"@ + (match string_arg(args, "interface"@) {
        Some(s) => s,
        None => "wlan0"@,
    }) + "/connect_info"@
}

pub struct ConnectInfoPath;

impl Script for ConnectInfoPath {
    open spec fn accepts(&self, args: Arguments) -> bool {
        true
    }

    open spec fn text(&self, args: Arguments) -> Seq<char> {
        connect_info_path(args)
    }

    fn ready(&self, params: &Params<'_>) -> (r: bool) {
        true
    }

    fn build(&self, params: &Params<'_>) -> (r: String) {
        "/sys/class/net/".to_owned().concat(params.str_or("interface", "wlan0")).concat(
            "/connect_info",
        )
    }
}

/// The parameters of `net_connect_info`.
pub open spec fn net_connect_info_params() -> Seq<ParamView> {
    seq![
        parameter(
            "interface"@,
            ParamType::String,
            "Network interface name"@,
            false,
            Some(Json::String("wlan0"@)),
        ),
    ]
}

/// Reads a file of the kernel.
pub open spec fn is_net_connect_info(m: ToolModel) -> bool {
    &&& m.name == "net_connect_info"@
    &&& m.description
        == "Read WiFi/network connection info directly from the kernel. Returns detailed connection state: SSID, BSSID, signal strength, bitrate, auth type, frequency, channel width."@
    &&& m.params == net_connect_info_params()
    &&& m.privilege == Privilege::User
    &&& !m.needs_confirmation
    &&& m.timeout_secs == 30
    &&& has_one_rule(m, "interface"@, |v: Json| interface_objection(v))
    &&& m.command matches Some(CommandSource::ReadFile(path))
    &&& forall|args: Arguments| #[trigger] path.inner.accepts(args)
    &&& forall|args: Arguments| #[trigger] path.inner.text(args) == connect_info_path(args)
}

fn net_connect_info() -> (r: ShellTool)
    ensures
        is_net_connect_info(r@),
{
    let path: AnyScript = Plugin::new(Box::new(ConnectInfoPath));
    proof {
        assert(forall|args: Arguments| #[trigger]
            path.inner.accepts(args));
        assert(forall|args: Arguments| #[trigger]
            path.inner.text(args) == connect_info_path(args));
    }
    let r: ShellTool = ShellTool::new("net_connect_info").description(
        "Read WiFi/network connection info directly from the kernel. Returns detailed connection state: SSID, BSSID, signal strength, bitrate, auth type, frequency, channel width.",
    ).param(
        "interface",
        ParamType::String,
        "Network interface name",
        false,
    ).default_value(Value::text("wlan0")).validate("interface", Plugin::new(Box::new(InterfaceName))).read_file(path).build();
    proof {
        assert(r@.params =~= net_connect_info_params());
    }
    r
}

// app_logcat

/// The levels of log messages.
pub open spec fn is_log_level(s: Seq<char>) -> bool {
    s.len() == 1 && (s[0] == 'V' || s[0] == 'D' || s[0] == 'I' || s[0] == 'W' || s[0] == 'E' || s[0]
        == 'F')
}

/// What is wrong with a log level. A value that is no text is no level, and is
/// passed over.
pub open spec fn level_objection(value: Json) -> Option<Seq<char>> {
    match value {
        Json::String(s) => if is_log_level(s) {
            None
        } else {
            Some("must be one of V, D, I, W, E, F"@)
        },
        _ => None,
    }
}

/// The validator for log levels.
pub struct LogLevel;

impl Validator for LogLevel {
    open spec fn objection(&self, value: Json) -> Option<Seq<char>> {
        level_objection(value)
    }

    fn check(&self, value: &Value) -> (r: Result<(), String>) {
        let s: &str = match value.as_str() {
            Some(s) => s,
            None => return Ok(()),
        };
        let chars: Vec<char> = chars_of(s);
        if chars.len() == 1 && (chars[0] == 'V' || chars[0] == 'D' || chars[0] == 'I' || chars[0]
            == 'W' || chars[0] == 'E' || chars[0] == 'F') {
            Ok(())
        } else {
            Err("must be one of V, D, I, W, E, F".to_owned())
        }
    }
}

/// Finds the process of a package and prints the end of its log.
pub open spec fn logcat_script(args: Arguments) -> Seq<char> {
    "PID=$(pidof "@ + string_arg(args, "package"@)->0
        + ") && if [ -z \"$PID\" ]; then echo 'Process not running'; exit 1; fi && logcat --pid $PID -d -t "@
        + decimal_int(
        match int_arg(args, "lines"@) {
            Some(n) => n as int,
            None => 100,
        },
    ) + (match string_arg(args, "level"@) {
        Some(level) => " *:"@ + level,
        None => Seq::empty(),
    })
}

pub struct LogcatScript;

impl Script for LogcatScript {
    open spec fn accepts(&self, args: Arguments) -> bool {
        string_arg(args, "package"@) is Some
    }

    open spec fn text(&self, args: Arguments) -> Seq<char> {
        logcat_script(args)
    }

    fn ready(&self, params: &Params<'_>) -> (r: bool) {
        params.str("package").is_some()
    }

    fn build(&self, params: &Params<'_>) -> (r: String) {
        let package: &str = params.str("package").unwrap();
        let lines: String = decimal_int_text(params.int_or("lines", 100));
        let level: String = match params.str("level") {
            Some(level) => " *:".to_owned().concat(level),
            None => String::new(),
        };
        "PID=$(pidof ".to_owned().concat(package).concat(
            ") && if [ -z \"$PID\" ]; then echo 'Process not running'; exit 1; fi && logcat --pid $PID -d -t ",
        ).concat(&lines).concat(&level)
    }
}

/// The parameters of `app_logcat`.
pub open spec fn app_logcat_params() -> Seq<ParamView> {
    seq![
        parameter(
            "package"@,
            ParamType::String,
            "Package name (e.g., com.jesse.hostctl)"@,
            true,
            None,
        ),
        parameter(
            "lines"@,
            ParamType::Integer,
            "Number of recent log lines (default: 100)"@,
            false,
            Some(Json::Number(JsonNumber::PosInt(100))),
        ),
        parameter(
            "level"@,
            ParamType::String,
            "Min log level: V, D, I, W, E, F"@,
            false,
            None,
        ),
    ]
}

/// Chains a search for the process and a look at its log, as root.
pub open spec fn is_app_logcat(m: ToolModel) -> bool {
    &&& m.name == "app_logcat"@
    &&& m.description
        == "Get recent logcat output for a running app, filtered by PID. This is a convenience tool that chains `pidof` and `logcat` — use the individual `app_pid` and `logcat` tools if you need more control over flags."@
    &&& m.params == app_logcat_params()
    &&& m.privilege == Privilege::Root
    &&& !m.needs_confirmation
    &&& m.timeout_secs == 15
    &&& m.validators.len() == 2
    &&& has_rule(m, 0, "package"@, |v: Json| package_objection(v))
    &&& has_rule(m, 1, "level"@, |v: Json| level_objection(v))
    &&& runs_script(
        m,
        |args: Arguments| string_arg(args, "package"@) is Some,
        |args: Arguments| logcat_script(args),
    )
}

fn app_logcat() -> (r: ShellTool)
    ensures
        is_app_logcat(r@),
{
    let script: AnyScript = Plugin::new(Box::new(LogcatScript));
    proof {
        assert(forall|args: Arguments| #[trigger]
            script.inner.accepts(args) == (string_arg(args, "package"@) is Some));
        assert(forall|args: Arguments| #[trigger]
            script.inner.text(args) == logcat_script(args));
    }
    let package: AnyValidator = Plugin::new(Box::new(PackageName));
    let level: AnyValidator = Plugin::new(Box::new(LogLevel));
    proof {
        assert(forall|v: Json| #[trigger] package.inner.objection(v) == package_objection(v));
        assert(forall|v: Json| #[trigger] level.inner.objection(v) == level_objection(v));
    }
    let r: ShellTool = ShellTool::new("app_logcat").description(
        "Get recent logcat output for a running app, filtered by PID. This is a convenience tool that chains `pidof` and `logcat` — use the individual `app_pid` and `logcat` tools if you need more control over flags.",
    ).param(
        "package",
        ParamType::String,
        "Package name (e.g., com.jesse.hostctl)",
        true,
    ).param(
        "lines",
        ParamType::Integer,
        "Number of recent log lines (default: 100)",
        false,
    ).default_value(Value::Number(Number::PosInt(100))).param(
        "level",
        ParamType::String,
        "Min log level: V, D, I, W, E, F",
        false,
    ).validate("package", package).validate("level", level).root().timeout(15).script(script).build();
    proof {
        assert(r@.params =~= app_logcat_params());
        reveal_strlit("package");
        reveal_strlit("level");
        assert("package"@.len() != "level"@.len());
        let rules = put(Seq::<(Seq<char>, AnyValidator)>::empty(), "package"@, package);
        assert(rules =~= seq![("package"@, package)]);
        assert(!has_name(rules, "level"@));
        assert(r@.validators =~= seq![("package"@, package), ("level"@, level)]);
    }
    r
}

// device_info

/// The commands of the device summary, in order.
pub open spec fn summary_commands() -> Seq<Seq<char>> {
    seq![
        "echo '=== Device ==='"@,
        "getprop ro.product.model"@,
        "getprop ro.product.brand"@,
        "echo '=== Android ==='"@,
        "getprop ro.build.version.release"@,
        "getprop ro.build.version.sdk"@,
        "echo '=== Kernel ==='"@,
        "uname -a"@,
        "echo '=== Memory ==='"@,
        "cat /proc/meminfo | head -3"@,
        "echo '=== Storage ==='"@,
        "df -h /data /storage/emulated/0 2>/dev/null"@,
    ]
}

/// The commands of the device summary, each run if the one before it succeeded.
pub open spec fn summary_script(args: Arguments) -> Seq<char> {
    join(summary_commands(), " && "@)
}

pub struct SummaryScript;

impl Script for SummaryScript {
    open spec fn accepts(&self, args: Arguments) -> bool {
        true
    }

    open spec fn text(&self, args: Arguments) -> Seq<char> {
        summary_script(args)
    }

    fn ready(&self, params: &Params<'_>) -> (r: bool) {
        true
    }

    fn build(&self, params: &Params<'_>) -> (r: String) {
        let commands: Vec<String> = vec![
            "echo '=== Device ==='".to_owned(),
            "getprop ro.product.model".to_owned(),
            "getprop ro.product.brand".to_owned(),
            "echo '=== Android ==='".to_owned(),
            "getprop ro.build.version.release".to_owned(),
            "getprop ro.build.version.sdk".to_owned(),
            "echo '=== Kernel ==='".to_owned(),
            "uname -a".to_owned(),
            "echo '=== Memory ==='".to_owned(),
            "cat /proc/meminfo | head -3".to_owned(),
            "echo '=== Storage ==='".to_owned(),
            "df -h /data /storage/emulated/0 2>/dev/null".to_owned(),
        ];
        proof {
            assert(texts(commands@) =~= summary_commands());
        }
        joined(&commands, " && ")
    }
}

/// Runs several commands for one summary.
pub open spec fn is_device_info(m: ToolModel) -> bool {
    &&& m.name == "device_info"@
    &&& m.description
        == "Get a consolidated device summary: model, Android version, kernel, memory, and storage in one call."@
    &&& m.params == Seq::<ParamView>::empty()
    &&& m.privilege == Privilege::User
    &&& !m.needs_confirmation
    &&& m.timeout_secs == 30
    &&& m.validators.len() == 0
    &&& runs_script(
        m,
        |args: Arguments| true,
        |args: Arguments| summary_script(args),
    )
}

fn device_info() -> (r: ShellTool)
    ensures
        is_device_info(r@),
{
    let script: AnyScript = Plugin::new(Box::new(SummaryScript));
    proof {
        assert(forall|args: Arguments| #[trigger]
            script.inner.accepts(args));
        assert(forall|args: Arguments| #[trigger]
            script.inner.text(args) == summary_script(args));
    }
    let r: ShellTool = ShellTool::new("device_info").description(
        "Get a consolidated device summary: model, Android version, kernel, memory, and storage in one call.",
    ).script(script).build();
    r
}

// net_interfaces

/// Runs a fixed script.
pub open spec fn is_net_interfaces(m: ToolModel) -> bool {
    &&& m.name == "net_interfaces"@
    &&& m.description
        == "List all network interfaces with their addresses and state"@
    &&& m.params == Seq::<ParamView>::empty()
    &&& m.privilege == Privilege::User
    &&& !m.needs_confirmation
    &&& m.timeout_secs == 30
    &&& m.validators.len() == 0
    &&& m.command matches Some(CommandSource::Template(template))
    &&& template@ == "ls /sys/class/net/ && echo '---' && ip -brief addr show"@
}

fn net_interfaces() -> (r: ShellTool)
    ensures
        is_net_interfaces(r@),
{
    let r: ShellTool = ShellTool::new("net_interfaces").description(
        "List all network interfaces with their addresses and state",
    ).template(
        "ls /sys/class/net/ && echo '---' && ip -brief addr show",
    ).build();
    r
}

// shell_exec

/// The command as it was given, or handed to `su` as one word.
pub open spec fn exec_script(args: Arguments) -> Seq<char> {
    let command = string_arg(args, "command"@)->0;
    if bool_arg(args, "as_root"@) == Some(true) {
        root_line(command)
    } else {
        command
    }
}

pub struct ExecScript;

impl Script for ExecScript {
    open spec fn accepts(&self, args: Arguments) -> bool {
        string_arg(args, "command"@) is Some
    }

    open spec fn text(&self, args: Arguments) -> Seq<char> {
        exec_script(args)
    }

    fn ready(&self, params: &Params<'_>) -> (r: bool) {
        params.str("command").is_some()
    }

    fn build(&self, params: &Params<'_>) -> (r: String) {
        let command: &str = params.str("command").unwrap();
        match params.bool("as_root") {
            Some(true) => su_line(command),
            _ => command.to_owned(),
        }
    }
}

/// The parameters of `shell_exec`.
pub open spec fn shell_exec_params() -> Seq<ParamView> {
    seq![
        parameter(
            "command"@,
            ParamType::String,
            "Shell command to execute"@,
            true,
            None,
        ),
        parameter(
            "as_root"@,
            ParamType::Boolean,
            "Run as root via su"@,
            false,
            Some(Json::Bool(false)),
        ),
    ]
}

/// Runs any command.
pub open spec fn is_shell_exec(m: ToolModel) -> bool {
    &&& m.name == "shell_exec"@
    &&& m.description
        == "Execute an arbitrary shell command in the Termux environment. Use when no specific tool covers what you need. Commands run as the Termux user by default."@
    &&& m.params == shell_exec_params()
    &&& m.privilege == Privilege::User
    &&& !m.needs_confirmation
    &&& m.timeout_secs == 60
    &&& m.validators.len() == 0
    &&& runs_script(
        m,
        |args: Arguments| string_arg(args, "command"@) is Some,
        |args: Arguments| exec_script(args),
    )
}

fn shell_exec() -> (r: ShellTool)
    ensures
        is_shell_exec(r@),
{
    let script: AnyScript = Plugin::new(Box::new(ExecScript));
    proof {
        assert(forall|args: Arguments| #[trigger]
            script.inner.accepts(args) == (string_arg(args, "command"@) is Some));
        assert(forall|args: Arguments| #[trigger]
            script.inner.text(args) == exec_script(args));
    }
    let r: ShellTool = ShellTool::new("shell_exec").description(
        "Execute an arbitrary shell command in the Termux environment. Use when no specific tool covers what you need. Commands run as the Termux user by default.",
    ).param(
        "command",
        ParamType::String,
        "Shell command to execute",
        true,
    ).param(
        "as_root",
        ParamType::Boolean,
        "Run as root via su",
        false,
    ).default_value(Value::Bool(false)).timeout(60).script(script).build();
    proof {
        assert(r@.params =~= shell_exec_params());
    }
    r
}

// file_read

/// Prints a file, or its first lines.
pub open spec fn read_script(args: Arguments) -> Seq<char> {
    let path = string_arg(args, "path"@)->0;
    let lines: int = match int_arg(args, "lines"@) {
        Some(n) => n as int,
        None => 200,
    };
    if lines == 0 {
        command_line("cat"@, seq![path])
    } else {
        command_line("head"@, seq!["-n"@, decimal_int(lines), path])
    }
}

pub struct ReadScript;

impl Script for ReadScript {
    open spec fn accepts(&self, args: Arguments) -> bool {
        string_arg(args, "path"@) is Some
    }

    open spec fn text(&self, args: Arguments) -> Seq<char> {
        read_script(args)
    }

    fn ready(&self, params: &Params<'_>) -> (r: bool) {
        params.str("path").is_some()
    }

    fn build(&self, params: &Params<'_>) -> (r: String) {
        let path: &str = params.str("path").unwrap();
        let lines: i64 = params.int_or("lines", 200);
        if lines == 0 {
            let words: Vec<String> = vec![path.to_owned()];
            proof {
                assert(texts(words@) =~= seq![path@]);
            }
            escaped_line("cat", &words)
        } else {
            let words: Vec<String> = vec![
                "-n".to_owned(),
                decimal_int_text(lines),
                path.to_owned(),
            ];
            proof {
                assert(texts(words@) =~= seq!["-n"@, decimal_int(lines as int), path@]);
            }
            escaped_line("head", &words)
        }
    }
}

/// The parameters of `file_read`.
pub open spec fn file_read_params() -> Seq<ParamView> {
    seq![
        parameter(
            "path"@,
            ParamType::String,
            "File path to read"@,
            true,
            None,
        ),
        parameter(
            "lines"@,
            ParamType::Integer,
            "Max lines (0 = all, default 200)"@,
            false,
            Some(Json::Number(JsonNumber::PosInt(200))),
        ),
    ]
}

/// Prints a file whose path is checked.
pub open spec fn is_file_read(m: ToolModel) -> bool {
    &&& m.name == "file_read"@
    &&& m.description
        == "Read contents of a file on the device"@
    &&& m.params == file_read_params()
    &&& m.privilege == Privilege::User
    &&& !m.needs_confirmation
    &&& m.timeout_secs == 30
    &&& has_one_rule(m, "path"@, |v: Json| path_objection(v))
    &&& runs_script(
        m,
        |args: Arguments| string_arg(args, "path"@) is Some,
        |args: Arguments| read_script(args),
    )
}

fn file_read() -> (r: ShellTool)
    ensures
        is_file_read(r@),
{
    let script: AnyScript = Plugin::new(Box::new(ReadScript));
    proof {
        assert(forall|args: Arguments| #[trigger]
            script.inner.accepts(args) == (string_arg(args, "path"@) is Some));
        assert(forall|args: Arguments| #[trigger]
            script.inner.text(args) == read_script(args));
    }
    let r: ShellTool = ShellTool::new("file_read").description(
        "Read contents of a file on the device",
    ).param(
        "path",
        ParamType::String,
        "File path to read",
        true,
    ).param(
        "lines",
        ParamType::Integer,
        "Max lines (0 = all, default 200)",
        false,
    ).default_value(Value::Number(Number::PosInt(200))).validate("path", Plugin::new(Box::new(SafePath))).script(script).build();
    proof {
        assert(r@.params =~= file_read_params());
    }
    r
}

// file_write

/// Writes the content, and nothing else, to a file.
pub open spec fn write_script(args: Arguments) -> Seq<char> {
    let operator = if bool_arg(args, "append"@) == Some(true) {
        ">>"@
    } else {
        ">"@
    };
    "printf %s "@ + escape(string_arg(args, "content"@)->0) + " "@ + operator + " "@ + escape(
        string_arg(args, "path"@)->0,
    )
}

pub struct WriteScript;

impl Script for WriteScript {
    open spec fn accepts(&self, args: Arguments) -> bool {
        string_arg(args, "path"@) is Some && string_arg(args, "content"@) is Some
    }

    open spec fn text(&self, args: Arguments) -> Seq<char> {
        write_script(args)
    }

    fn ready(&self, params: &Params<'_>) -> (r: bool) {
        params.str("path").is_some() && params.str("content").is_some()
    }

    fn build(&self, params: &Params<'_>) -> (r: String) {
        let path: &str = params.str("path").unwrap();
        let content: &str = params.str("content").unwrap();
        let operator: &str = match params.bool("append") {
            Some(true) => ">>",
            _ => ">",
        };
        "printf %s ".to_owned().concat(&shell_escape(content)).concat(" ").concat(operator).concat(
            " ",
        ).concat(&shell_escape(path))
    }
}

/// The parameters of `file_write`.
pub open spec fn file_write_params() -> Seq<ParamView> {
    seq![
        parameter(
            "path"@,
            ParamType::String,
            "File path to write"@,
            true,
            None,
        ),
        parameter(
            "content"@,
            ParamType::String,
            "File contents"@,
            true,
            None,
        ),
        parameter(
            "append"@,
            ParamType::Boolean,
            "Append instead of overwrite"@,
            false,
            Some(Json::Bool(false)),
        ),
    ]
}

/// Writes a file whose path is checked, after a confirmation.
pub open spec fn is_file_write(m: ToolModel) -> bool {
    &&& m.name == "file_write"@
    &&& m.description
        == "Write content to a file on the device [DESTRUCTIVE]"@
    &&& m.params == file_write_params()
    &&& m.privilege == Privilege::User
    &&& m.needs_confirmation
    &&& m.timeout_secs == 30
    &&& has_one_rule(m, "path"@, |v: Json| path_objection(v))
    &&& runs_script(
        m,
        |args: Arguments| string_arg(args, "path"@) is Some && string_arg(args, "content"@) is Some,
        |args: Arguments| write_script(args),
    )
}

fn file_write() -> (r: ShellTool)
    ensures
        is_file_write(r@),
{
    let script: AnyScript = Plugin::new(Box::new(WriteScript));
    proof {
        assert(forall|args: Arguments| #[trigger]
            script.inner.accepts(args) == (string_arg(args, "path"@) is Some && string_arg(args, "content"@) is Some));
        assert(forall|args: Arguments| #[trigger]
            script.inner.text(args) == write_script(args));
    }
    let r: ShellTool = ShellTool::new("file_write").description(
        "Write content to a file on the device [DESTRUCTIVE]",
    ).param(
        "path",
        ParamType::String,
        "File path to write",
        true,
    ).param(
        "content",
        ParamType::String,
        "File contents",
        true,
    ).param(
        "append",
        ParamType::Boolean,
        "Append instead of overwrite",
        false,
    ).default_value(Value::Bool(false)).validate("path", Plugin::new(Box::new(SafePath))).confirm().script(script).build();
    proof {
        assert(r@.params =~= file_write_params());
    }
    r
}

// All of them

/// The names of the built-in tools.
pub open spec fn builtin_names() -> Seq<Seq<char>> {
    seq![
        "net_connect_info"@,
        "app_logcat"@,
        "device_info"@,
        "net_interfaces"@,
        "shell_exec"@,
        "file_read"@,
        "file_write"@,
    ]
}

/// Whether the registry has, under the name, a shell tool that is `described`.
pub open spec fn offers(
    r: RegistryView,
    name: Seq<char>,
    described: spec_fn(ToolModel) -> bool,
) -> bool {
    lookup(r.tools, name) matches Some(RegisteredTool::Shell(tool)) && described(tool@)
}

/// Whether the registry has all of the built-in tools.
pub open spec fn offers_builtins(r: RegistryView) -> bool {
    &&& offers(r, "net_connect_info"@, |m: ToolModel| is_net_connect_info(m))
    &&& offers(r, "app_logcat"@, |m: ToolModel| is_app_logcat(m))
    &&& offers(r, "device_info"@, |m: ToolModel| is_device_info(m))
    &&& offers(r, "net_interfaces"@, |m: ToolModel| is_net_interfaces(m))
    &&& offers(r, "shell_exec"@, |m: ToolModel| is_shell_exec(m))
    &&& offers(r, "file_read"@, |m: ToolModel| is_file_read(m))
    &&& offers(r, "file_write"@, |m: ToolModel| is_file_write(m))
}

/// Whether the registry `after` came out of `before` by registering the built-in
/// tools: it has all of them, and every other tool is as it was.
pub open spec fn with_builtins(before: RegistryView, after: RegistryView) -> bool {
    &&& offers_builtins(after)
    &&& forall|name: Seq<char>|
        !builtin_names().contains(name) ==> #[trigger] lookup(after.tools, name) == lookup(
            before.tools,
            name,
        )
    &&& after.policy == before.policy
}

proof fn lemma_names_differ()
    ensures
        forall|i: int, j: int|
            0 <= i < j < 7 ==> #[trigger] builtin_names()[i] != #[trigger] builtin_names()[j],
{
    reveal_strlit("net_connect_info");
    reveal_strlit("app_logcat");
    reveal_strlit("device_info");
    reveal_strlit("net_interfaces");
    reveal_strlit("shell_exec");
    reveal_strlit("file_read");
    reveal_strlit("file_write");
    assert(builtin_names()[0] == "net_connect_info"@ && "net_connect_info"@.len() == 16);
    assert(builtin_names()[1] == "app_logcat"@ && "app_logcat"@.len() == 10);
    assert(builtin_names()[2] == "device_info"@ && "device_info"@.len() == 11);
    assert(builtin_names()[3] == "net_interfaces"@ && "net_interfaces"@.len() == 14);
    assert(builtin_names()[4] == "shell_exec"@ && "shell_exec"@.len() == 10);
    assert(builtin_names()[5] == "file_read"@ && "file_read"@.len() == 9);
    assert(builtin_names()[6] == "file_write"@ && "file_write"@.len() == 10);
    assert("app_logcat"@[0] == 'a');
    assert("shell_exec"@[0] == 's');
    assert("file_write"@[0] == 'f');
}

fn enter(registry: &mut ToolRegistry, tool: ShellTool)
    ensures
        lookup(final(registry)@.tools, tool@.name) == Some(RegisteredTool::Shell(tool)),
        forall|other: Seq<char>|
            other != tool@.name ==> #[trigger] lookup(final(registry)@.tools, other) == lookup(
                old(registry)@.tools,
                other,
            ),
        final(registry)@.policy == old(registry)@.policy,
        under_their_names(final(registry)@),
        distinct(final(registry)@.tools),
{
    let ghost before = registry@.tools;
    let ghost entry = RegisteredTool::Shell(tool);
    let ghost name = tool@.name;
    registry.register(tool);
    proof {
        assert forall|other: Seq<char>| other != name implies #[trigger] lookup(
            registry@.tools,
            other,
        ) == lookup(before, other) by {
            put_changes_one_name(before, name, entry, other);
        }
        put_changes_one_name(before, name, entry, name);
    }
}

/// Registers the built-in tools. Every other tool stays as it was.
pub fn register_all(registry: &mut ToolRegistry)
    ensures
        with_builtins(old(registry)@, final(registry)@),
        under_their_names(final(registry)@),
        distinct(final(registry)@.tools),
{
    proof {
        lemma_names_differ();
        assert(builtin_names()[0] == "net_connect_info"@);
        assert(builtin_names()[1] == "app_logcat"@);
        assert(builtin_names()[2] == "device_info"@);
        assert(builtin_names()[3] == "net_interfaces"@);
        assert(builtin_names()[4] == "shell_exec"@);
        assert(builtin_names()[5] == "file_read"@);
        assert(builtin_names()[6] == "file_write"@);
    }
    enter(registry, net_connect_info());
    enter(registry, app_logcat());
    enter(registry, device_info());
    enter(registry, net_interfaces());
    enter(registry, shell_exec());
    enter(registry, file_read());
    enter(registry, file_write());
}

proof fn lemma_rule_holds(
    m: ToolModel,
    args: Arguments,
    i: int,
    name: Seq<char>,
    objection: spec_fn(Json) -> Option<Seq<char>>,
)
    requires
        has_rule(m, i, name, objection),
        !(invocation(m, args) is Done),
    ensures
        lookup(args, name) matches Some(value) ==> objection(value) is None,
{
    tool_acts_only_on_valid_arguments(m, args);
    assert(m.validators[i].0 == name);
    if let Some(value) = lookup(args, name) {
        assert(m.validators[i].1.inner.objection(value) == objection(value));
    }
}

proof fn lemma_required_is_given(m: ToolModel, args: Arguments, i: int)
    requires
        !(invocation(m, args) is Done),
        0 <= i < m.params.len(),
        m.params[i].required,
    ensures
        lookup(args, m.params[i].name) is Some,
        lookup(with_defaults(args, m.params), m.params[i].name) == lookup(args, m.params[i].name),
{
    tool_acts_only_on_valid_arguments(m, args);
    default_never_overrides_an_argument(args, m.params, m.params[i].name);
}

/// `net_connect_info` reads nothing but the connection info of one entry of
/// `/sys/class/net`: the interface's name has no slash and no dot.
pub proof fn connect_info_stays_in_sys_class_net(m: ToolModel, args: Arguments, path: Seq<char>)
    requires
        is_net_connect_info(m),
        invocation(m, args) == InvocationView::Read(path),
    ensures
        exists|interface: Seq<char>|
            path == "/sys/class/net/"@ + interface + "/connect_info"@ && !(
            #[trigger] interface.contains('/')) && !interface.contains('.'),
{
    let merged = with_defaults(args, m.params);
    assert(m.params[0].name == "interface"@);
    assert(m.command->0->ReadFile_0.inner.text(merged) == connect_info_path(merged));
    lemma_rule_holds(m, args, 0, "interface"@, |v: Json| interface_objection(v));
    if has_name(args, "interface"@) {
        default_never_overrides_an_argument(args, m.params, "interface"@);
        let s = string_arg(merged, "interface"@)->0;
        accepted_interface_name_stays_in_its_directory(s);
        assert(!s.contains('/'));
    } else {
        every_default_is_filled_in(args, m.params, 0);
        reveal_strlit("wlan0");
        let s = "wlan0"@;
        assert(s =~= seq!['w', 'l', 'a', 'n', '0']);
        assert(!s.contains('/'));
        assert(!s.contains('.'));
    }
}

/// The tools for files act only on a path without two dots in a row and without
/// null bytes.
pub proof fn file_tools_act_only_on_safe_paths(m: ToolModel, args: Arguments)
    requires
        is_file_read(m) || is_file_write(m),
        !(invocation(m, args) is Done),
    ensures
        string_arg(with_defaults(args, m.params), "path"@) matches Some(path)
            && path_objection(Json::String(path)) is None,
{
    lemma_rule_holds(m, args, 0, "path"@, |v: Json| path_objection(v));
    assert(m.params[0].name == "path"@);
    lemma_required_is_given(m, args, 0);
}

/// `app_logcat` acts only for a package name that a shell reads as one word, and
/// with a level, where it has one, that is one of the letters for levels.
pub proof fn logcat_acts_only_on_plain_words(m: ToolModel, args: Arguments)
    requires
        is_app_logcat(m),
        !(invocation(m, args) is Done),
    ensures
        string_arg(with_defaults(args, m.params), "package"@) matches Some(package)
            && package.len() > 0 && all_plain(package) && escape(package) == package,
        string_arg(with_defaults(args, m.params), "level"@) matches Some(level) ==> is_log_level(
            level,
        ),
{
    let merged = with_defaults(args, m.params);
    lemma_rule_holds(m, args, 0, "package"@, |v: Json| package_objection(v));
    lemma_rule_holds(m, args, 1, "level"@, |v: Json| level_objection(v));
    assert(m.params[0].name == "package"@);
    lemma_required_is_given(m, args, 0);
    let package = string_arg(merged, "package"@)->0;
    accepted_package_name_is_one_plain_word(package);
    if has_name(args, "level"@) {
        default_never_overrides_an_argument(args, m.params, "level"@);
    } else {
        reveal_strlit("lines");
        reveal_strlit("level");
        assert("lines"@[1] == 'i' && "level"@[1] == 'e');
        assert(forall|j: int|
            0 <= j < m.params.len() && (#[trigger] m.params[j]).default is Some ==> m.params[j].name
                != "level"@);
        lemma_no_default_no_name(args, m.params, "level"@);
    }
}

/// The script of `file_read` is read as the name of a program, its options and
/// the path as it was given, whatever characters stand in the path.
pub proof fn read_script_names_the_path(args: Arguments, path: Seq<char>)
    requires
        string_arg(args, "path"@) == Some(path),
        path.len() > 0,
    ensures
        int_arg(args, "lines"@) == Some(0i64) ==> words_of(read_script(args)) == seq!["cat"@, path],
        int_arg(args, "lines"@) is None ==> words_of(read_script(args)) == seq![
            "head"@,
            "-n"@,
            decimal_int(200),
            path,
        ],
        int_arg(args, "lines"@) matches Some(n) ==> n != 0 ==> words_of(read_script(args)) == seq![
            "head"@,
            "-n"@,
            decimal_int(n as int),
            path,
        ],
{
    let lines: int = match int_arg(args, "lines"@) {
        Some(n) => n as int,
        None => 200,
    };
    reveal_strlit("cat");
    reveal_strlit("head");
    reveal_strlit("-n");
    lemma_decimal_int_is_not_empty(lines);
    if lines == 0 {
        command_line_keeps_every_argument("cat"@, seq![path]);
        assert(seq!["cat"@] + seq![path] =~= seq!["cat"@, path]);
    } else {
        let words = seq!["-n"@, decimal_int(lines), path];
        command_line_keeps_every_argument("head"@, words);
        assert(seq!["head"@] + words =~= seq!["head"@, "-n"@, decimal_int(lines), path]);
    }
}

/// The script of `file_write` is read as a command that prints the content, with
/// its output sent to the path, both as they were given.
pub proof fn write_script_names_content_and_path(
    args: Arguments,
    content: Seq<char>,
    path: Seq<char>,
)
    requires
        string_arg(args, "content"@) == Some(content),
        string_arg(args, "path"@) == Some(path),
        content.len() > 0,
        path.len() > 0,
    ensures
        words_of(write_script(args)) == seq![
            "printf"@,
            "%s"@,
            content,
            if bool_arg(args, "append"@) == Some(true) {
                ">>"@
            } else {
                ">"@
            },
            path,
        ],
{
    let operator = if bool_arg(args, "append"@) == Some(true) {
        ">>"@
    } else {
        ">"@
    };
    reveal_strlit("printf");
    reveal_strlit("%s");
    reveal_strlit("printf %s ");
    reveal_strlit(">");
    reveal_strlit(">>");
    reveal_strlit(" ");
    let space = " "@;
    let start = "printf"@ + space + "%s"@ + space;
    assert("printf %s "@ =~= start);
    let r0 = fresh();
    lemma_next_word(r0, "printf"@);
    let r1 = Reader { words: seq!["printf"@], ..r0 };
    assert(r0.words.push("printf"@) =~= r1.words);
    lemma_next_word(r1, "%s"@);
    let r2 = Reader { words: seq!["printf"@, "%s"@], ..r0 };
    assert(r1.words.push("%s"@) =~= r2.words);
    lemma_next_escaped_word(r2, content);
    let r3 = Reader { words: seq!["printf"@, "%s"@, content], ..r0 };
    assert(r2.words.push(content) =~= r3.words);
    lemma_next_word(r3, operator);
    let r4 = Reader { words: seq!["printf"@, "%s"@, content, operator], ..r0 };
    assert(r3.words.push(operator) =~= r4.words);
    escaped_text_stays_in_its_word(r4, path);
    let w1 = "printf"@ + space;
    let w2 = "%s"@ + space;
    let w3 = escape(content) + space;
    let w4 = operator + space;
    assert(write_script(args) =~= w1 + w2 + w3 + w4 + escape(path));
    lemma_read_all_concat(r0, w1, w2);
    lemma_read_all_concat(r0, w1 + w2, w3);
    lemma_read_all_concat(r0, w1 + w2 + w3, w4);
    lemma_read_all_concat(r0, w1 + w2 + w3 + w4, escape(path));
    assert(r4.word + path =~= path);
    assert(r4.words.push(path) =~= seq!["printf"@, "%s"@, content, operator, path]);
}

/// After the built-in tools were registered, their names are announced, and so is
/// every name that was announced before; no other is.
pub proof fn builtin_names_are_added(before: RegistryView, after: RegistryView, name: Seq<char>)
    requires
        with_builtins(before, after),
        under_their_names(before),
        distinct(before.tools),
        under_their_names(after),
        distinct(after.tools),
    ensures
        announces(after, name) <==> announces(before, name) || builtin_names().contains(name),
{
    announced_name_is_looked_up(before, name);
    announced_name_is_looked_up(after, name);
    if builtin_names().contains(name) {
        lemma_builtin_is_offered(after, name);
    }
}

/// A tool whose name is not that of a built-in one is announced as before.
pub proof fn other_definitions_stay(before: RegistryView, after: RegistryView, d: DefinitionView)
    requires
        with_builtins(before, after),
        under_their_names(before),
        distinct(before.tools),
        under_their_names(after),
        distinct(after.tools),
        !builtin_names().contains(d.name),
    ensures
        announcements(after.tools).contains(d) <==> announcements(before.tools).contains(d),
{
    definition_stands_under_its_name(before, d);
    definition_stands_under_its_name(after, d);
}

/// Registering the built-in tools a second time changes no definition.
pub proof fn registering_builtins_again_changes_no_definition(
    before: RegistryView,
    once: RegistryView,
    twice: RegistryView,
    d: DefinitionView,
)
    requires
        with_builtins(before, once),
        with_builtins(once, twice),
        under_their_names(once),
        distinct(once.tools),
        under_their_names(twice),
        distinct(twice.tools),
    ensures
        announcements(twice.tools).contains(d) <==> announcements(once.tools).contains(d),
{
    definition_stands_under_its_name(once, d);
    definition_stands_under_its_name(twice, d);
    if builtin_names().contains(d.name) {
        lemma_builtin_is_offered(once, d.name);
        lemma_builtin_is_offered(twice, d.name);
        lemma_same_builtin(once, twice, d.name);
    }
}

proof fn lemma_builtin_is_offered(r: RegistryView, name: Seq<char>)
    requires
        offers_builtins(r),
        builtin_names().contains(name),
    ensures
        lookup(r.tools, name) is Some,
{
    let i = choose|i: int| 0 <= i < 7 && builtin_names()[i] == name;
}

proof fn lemma_same_builtin(a: RegistryView, b: RegistryView, name: Seq<char>)
    requires
        offers_builtins(a),
        offers_builtins(b),
        builtin_names().contains(name),
    ensures
        tool_definition(lookup(a.tools, name)->0) == tool_definition(lookup(b.tools, name)->0),
{
    let i = choose|i: int| 0 <= i < 7 && builtin_names()[i] == name;
    let x = lookup(a.tools, name)->0->Shell_0@;
    let y = lookup(b.tools, name)->0->Shell_0@;
    assert(x.name == y.name && x.description == y.description && x.params == y.params);
    assert(x.privilege == y.privilege && x.needs_confirmation == y.needs_confirmation);
    assert(definition_of(x) == definition_of(y));
}

// What the tools do with the arguments of a call

/// The script of `app_logcat` looks for the process of the package and asks for as
/// many lines as the call does, whether or not a level is given, and for 100 where
/// the call names no number; a level is added at the end.
pub proof fn logcat_script_asks_for_the_lines(args: Arguments, package: Seq<char>)
    requires
        string_arg(args, "package"@) == Some(package),
    ensures
        ({
            let search = "PID=$(pidof "@ + package
                + ") && if [ -z \"$PID\" ]; then echo 'Process not running'; exit 1; fi && "@;
            let ask = "logcat --pid $PID -d"@;
            let s = logcat_script(args);
            &&& string_arg(args, "level"@) is None ==> {
                &&& int_arg(args, "lines"@) matches Some(n) ==> s == search + ask + (" -t "@
                    + decimal_int(n as int))
                &&& int_arg(args, "lines"@) is None ==> s == search + ask + (" -t "@ + decimal_int(
                    100,
                ))
            }
            &&& string_arg(args, "level"@) matches Some(level) ==> {
                &&& int_arg(args, "lines"@) matches Some(n) ==> s == search + ask + (" -t "@
                    + decimal_int(n as int) + " *:"@ + level)
                &&& int_arg(args, "lines"@) is None ==> s == search + ask + (" -t "@ + decimal_int(
                    100,
                ) + " *:"@ + level)
            }
        }),
{
    reveal_strlit(
        ") && if [ -z \"$PID\" ]; then echo 'Process not running'; exit 1; fi && logcat --pid $PID -d -t ",
    );
    reveal_strlit(") && if [ -z \"$PID\" ]; then echo 'Process not running'; exit 1; fi && ");
    reveal_strlit("logcat --pid $PID -d");
    reveal_strlit(" -t ");
    assert(") && if [ -z \"$PID\" ]; then echo 'Process not running'; exit 1; fi && logcat --pid $PID -d -t "@
        =~= ") && if [ -z \"$PID\" ]; then echo 'Process not running'; exit 1; fi && "@
        + "logcat --pid $PID -d"@ + " -t "@);
    let s = logcat_script(args);
    let search = "PID=$(pidof "@ + package
        + ") && if [ -z \"$PID\" ]; then echo 'Process not running'; exit 1; fi && "@;
    let ask = "logcat --pid $PID -d"@;
    let n: int = match int_arg(args, "lines"@) {
        Some(n) => n as int,
        None => 100,
    };
    match string_arg(args, "level"@) {
        Some(level) => {
            assert(s =~= search + ask + (" -t "@ + decimal_int(n) + " *:"@ + level));
        },
        None => {
            assert(s =~= search + ask + (" -t "@ + decimal_int(n)));
        },
    }
}

proof fn lemma_given(m: ToolModel, args: Arguments, name: Seq<char>)
    ensures
        lookup(args, name) is Some ==> lookup(with_defaults(args, m.params), name) == lookup(
            args,
            name,
        ),
{
    if has_name(args, name) {
        default_never_overrides_an_argument(args, m.params, name);
    }
}

proof fn lemma_names_of_parameters_differ()
    ensures
        "package"@ != "lines"@,
        "package"@ != "level"@,
        "lines"@ != "level"@,
        "command"@ != "as_root"@,
        "path"@ != "lines"@,
        "path"@ != "content"@,
        "path"@ != "append"@,
        "content"@ != "append"@,
{
    reveal_strlit("package");
    reveal_strlit("lines");
    reveal_strlit("level");
    reveal_strlit("command");
    reveal_strlit("as_root");
    reveal_strlit("path");
    reveal_strlit("content");
    reveal_strlit("append");
    assert("package"@.len() == 7 && "lines"@.len() == 5 && "level"@.len() == 5);
    assert("lines"@[1] == 'i' && "level"@[1] == 'e');
    assert("command"@[0] == 'c' && "as_root"@[0] == 'a');
    assert("path"@.len() == 4 && "content"@.len() == 7 && "append"@.len() == 6);
}

/// A call of `app_logcat` for a package runs, as root and within 15 seconds, a
/// script that asks for as many lines as the call does, or for 100.
pub proof fn app_logcat_asks_for_the_lines(
    m: ToolModel,
    args: Arguments,
    package: Seq<char>,
    n: u64,
)
    requires
        is_app_logcat(m),
        lookup(args, "package"@) == Some(Json::String(package)),
        package_objection(Json::String(package)) is None,
        lookup(args, "level"@) is None,
        n <= i64::MAX,
        lookup(args, "lines"@) == Some(Json::Number(JsonNumber::PosInt(n))) || lookup(
            args,
            "lines"@,
        ) is None && n == 100,
    ensures
        invocation(m, args) matches InvocationView::Run(p) && {
            let words = words_of(p.args[1]);
            let tail = " -t "@ + decimal(n as nat);
            &&& p.program == "sh"@
            &&& p.args.len() == 2
            &&& p.args[0] == "-c"@
            &&& p.timeout_secs == 15
            &&& words.len() == 3
            &&& words[0] == "su"@
            &&& words[1] == "-c"@
            &&& words[2].len() > tail.len()
            &&& words[2].skip(words[2].len() - tail.len()) == tail
            &&& words[2].take(12int + package.len()) == "PID=$(pidof "@ + package
        },
{
    let merged = with_defaults(args, m.params);
    lemma_names_of_parameters_differ();
    lemma_given(m, args, "package"@);
    lemma_given(m, args, "lines"@);
    assert(m.params[0].name == "package"@ && m.params[1].name == "lines"@ && m.params[2].name
        == "level"@);
    if !has_name(args, "lines"@) {
        every_default_is_filled_in(args, m.params, 1);
    }
    assert(forall|j: int|
        0 <= j < m.params.len() && (#[trigger] m.params[j]).default is Some ==> m.params[j].name
            != "level"@);
    lemma_no_default_no_name(args, m.params, "level"@);
    assert forall|i: int|
        0 <= i < m.validators.len() implies (lookup(args, (#[trigger] m.validators[i]).0) matches Some(
        value,
    ) ==> m.validators[i].1.inner.objection(value) is None) by {
        if i == 0 {
            assert(m.validators[0].1.inner.objection(Json::String(package)) == package_objection(
                Json::String(package),
            ));
        }
    }
    tool_acts_on_all_valid_arguments(m, args);
    let script = m.command->0->Script_0;
    assert(script.inner.text(merged) == logcat_script(merged));
    logcat_script_asks_for_the_lines(merged, package);
    let s = logcat_script(merged);
    decimal_stands_for_its_number(n as nat);
    let tail = " -t "@ + decimal(n as nat);
    reveal_strlit("PID=$(pidof ");
    reveal_strlit("logcat --pid $PID -d");
    assert(s.len() > tail.len());
    assert(s.skip(s.len() - tail.len()) =~= tail);
    assert(s.take(12int + package.len()) =~= "PID=$(pidof "@ + package);
    script_is_run_whole(m, args, script);
}

/// A call of `shell_exec` runs its command as it was given, within 60 seconds, and
/// where it asks for root, a line that hands the command to `su` as one word.
pub proof fn shell_exec_runs_the_command(m: ToolModel, args: Arguments, command: Seq<char>)
    requires
        is_shell_exec(m),
        lookup(args, "command"@) == Some(Json::String(command)),
        command.len() > 0,
    ensures
        invocation(m, args) matches InvocationView::Run(p) && {
            &&& p.program == "sh"@
            &&& p.args.len() == 2
            &&& p.args[0] == "-c"@
            &&& p.timeout_secs == 60
            &&& lookup(args, "as_root"@) is None || lookup(args, "as_root"@) == Some(
                Json::Bool(false),
            ) ==> p.args[1] == command
            &&& lookup(args, "as_root"@) == Some(Json::Bool(true)) ==> words_of(p.args[1]) == seq![
                "su"@,
                "-c"@,
                command,
            ]
        },
{
    let merged = with_defaults(args, m.params);
    lemma_names_of_parameters_differ();
    lemma_given(m, args, "command"@);
    lemma_given(m, args, "as_root"@);
    assert(m.params[0].name == "command"@ && m.params[1].name == "as_root"@);
    if !has_name(args, "as_root"@) {
        every_default_is_filled_in(args, m.params, 1);
    }
    tool_acts_on_all_valid_arguments(m, args);
    let script = m.command->0->Script_0;
    assert(script.inner.text(merged) == exec_script(merged));
    root_line_hands_over_the_whole_command(command);
    if lookup(args, "as_root"@) == Some(Json::Bool(true)) {
        reveal_strlit("su -c ");
    }
    script_is_run_whole(m, args, script);
}

proof fn lemma_path_rule(m: ToolModel, args: Arguments, path: Seq<char>)
    requires
        has_one_rule(m, "path"@, |v: Json| path_objection(v)),
        lookup(args, "path"@) == Some(Json::String(path)),
        path_objection(Json::String(path)) is None,
    ensures
        forall|i: int|
            0 <= i < m.validators.len() ==> (lookup(args, (#[trigger] m.validators[i]).0) matches Some(
                value,
            ) ==> m.validators[i].1.inner.objection(value) is None),
{
    assert(m.validators[0].1.inner.objection(Json::String(path)) == path_objection(
        Json::String(path),
    ));
}

/// A call of `file_read` prints the file at the path: all of it where it asks for
/// no lines, as many lines from its beginning as it asks for, or 200.
pub proof fn file_read_prints_the_file(m: ToolModel, args: Arguments, path: Seq<char>, n: u64)
    requires
        is_file_read(m),
        lookup(args, "path"@) == Some(Json::String(path)),
        path.len() > 0,
        path_objection(Json::String(path)) is None,
        n <= i64::MAX,
        lookup(args, "lines"@) == Some(Json::Number(JsonNumber::PosInt(n))) || lookup(
            args,
            "lines"@,
        ) is None && n == 200,
    ensures
        invocation(m, args) matches InvocationView::Run(p) && {
            &&& p.program == "sh"@
            &&& p.args.len() == 2
            &&& p.args[0] == "-c"@
            &&& p.timeout_secs == 30
            &&& n == 0 ==> words_of(p.args[1]) == seq!["cat"@, path]
            &&& n > 0 ==> words_of(p.args[1]) == seq!["head"@, "-n"@, decimal(n as nat), path]
        },
{
    let merged = with_defaults(args, m.params);
    lemma_names_of_parameters_differ();
    lemma_given(m, args, "path"@);
    lemma_given(m, args, "lines"@);
    assert(m.params[0].name == "path"@ && m.params[1].name == "lines"@);
    if !has_name(args, "lines"@) {
        every_default_is_filled_in(args, m.params, 1);
    }
    lemma_path_rule(m, args, path);
    tool_acts_on_all_valid_arguments(m, args);
    let script = m.command->0->Script_0;
    assert(script.inner.text(merged) == read_script(merged));
    read_script_names_the_path(merged, path);
    assert(int_arg(merged, "lines"@) == Some(n as i64));
    assert(words_of(Seq::empty()) =~= Seq::<Seq<char>>::empty());
    if script.inner.text(merged).len() == 0 {
        assert(read_script(merged) =~= Seq::<char>::empty());
    }
    script_is_run_whole(m, args, script);
}

/// A call of `file_write` prints the content, exactly, into the file at the path:
/// after what is there where it asks to append, and in its place otherwise.
pub proof fn file_write_writes_the_content(
    m: ToolModel,
    args: Arguments,
    path: Seq<char>,
    content: Seq<char>,
)
    requires
        is_file_write(m),
        lookup(args, "path"@) == Some(Json::String(path)),
        lookup(args, "content"@) == Some(Json::String(content)),
        path.len() > 0,
        content.len() > 0,
        path_objection(Json::String(path)) is None,
    ensures
        invocation(m, args) matches InvocationView::Run(p) && {
            &&& p.program == "sh"@
            &&& p.args.len() == 2
            &&& p.args[0] == "-c"@
            &&& p.timeout_secs == 30
            &&& lookup(args, "append"@) == Some(Json::Bool(true)) ==> words_of(p.args[1]) == seq![
                "printf"@,
                "%s"@,
                content,
                ">>"@,
                path,
            ]
            &&& lookup(args, "append"@) is None || lookup(args, "append"@) == Some(
                Json::Bool(false),
            ) ==> words_of(p.args[1]) == seq!["printf"@, "%s"@, content, ">"@, path]
        },
{
    let merged = with_defaults(args, m.params);
    lemma_names_of_parameters_differ();
    lemma_given(m, args, "path"@);
    lemma_given(m, args, "content"@);
    lemma_given(m, args, "append"@);
    assert(m.params[0].name == "path"@ && m.params[1].name == "content"@ && m.params[2].name
        == "append"@);
    if !has_name(args, "append"@) {
        every_default_is_filled_in(args, m.params, 2);
    }
    lemma_path_rule(m, args, path);
    tool_acts_on_all_valid_arguments(m, args);
    let script = m.command->0->Script_0;
    assert(script.inner.text(merged) == write_script(merged));
    write_script_names_content_and_path(merged, content, path);
    reveal_strlit("printf %s ");
    script_is_run_whole(m, args, script);
}

/// A call of `net_connect_info` reads the connection info of the interface that it
/// names, or of `wlan0`.
pub proof fn net_connect_info_reads_the_interface(
    m: ToolModel,
    args: Arguments,
    interface: Seq<char>,
)
    requires
        is_net_connect_info(m),
        interface_objection(Json::String(interface)) is None,
        lookup(args, "interface"@) == Some(Json::String(interface)) || lookup(
            args,
            "interface"@,
        ) is None && interface == "wlan0"@,
    ensures
        invocation(m, args) == InvocationView::Read(
            "/sys/class/net/"@ + interface + "/connect_info"@,
        ),
{
    let merged = with_defaults(args, m.params);
    lemma_given(m, args, "interface"@);
    assert(m.params[0].name == "interface"@);
    if !has_name(args, "interface"@) {
        every_default_is_filled_in(args, m.params, 0);
    }
    assert(m.validators[0].1.inner.objection(Json::String(interface)) == interface_objection(
        Json::String(interface),
    ));
    tool_acts_on_all_valid_arguments(m, args);
    assert(m.command->0->ReadFile_0.inner.text(merged) == connect_info_path(merged));
}

/// The tools without parameters run the same on every call: `device_info` its
/// twelve commands in order, each if the one before it succeeded, and
/// `net_interfaces` its script.
pub proof fn tools_without_parameters_run_their_scripts(
    info: ToolModel,
    interfaces: ToolModel,
    args: Arguments,
)
    requires
        is_device_info(info),
        is_net_interfaces(interfaces),
    ensures
        invocation(info, args) matches InvocationView::Run(p) && p.program == "sh"@ && p.args
            == seq!["-c"@, join(summary_commands(), " && "@)] && p.timeout_secs == 30,
        invocation(interfaces, args) matches InvocationView::Run(p) && p.program == "sh"@ && p.args
            == seq![
            "-c"@,
            "ls /sys/class/net/ && echo '---' && ip -brief addr show"@,
        ] && p.timeout_secs == 30,
        summary_commands().len() == 12,
        summary_commands()[1] == "getprop ro.product.model"@,
        summary_commands()[2] == "getprop ro.product.brand"@,
        summary_commands()[4] == "getprop ro.build.version.release"@,
        summary_commands()[5] == "getprop ro.build.version.sdk"@,
        summary_commands()[7] == "uname -a"@,
        summary_commands()[9] == "cat /proc/meminfo | head -3"@,
        summary_commands()[11] == "df -h /data /storage/emulated/0 2>/dev/null"@,
{
    tool_acts_on_all_valid_arguments(info, args);
    tool_acts_on_all_valid_arguments(interfaces, args);
    let merged = with_defaults(args, info.params);
    let script = info.command->0->Script_0;
    assert(script.inner.text(merged) == summary_script(merged));
    let template = interfaces.command->0->Template_0;
    reveal_strlit("ls /sys/class/net/ && echo '---' && ip -brief addr show");
    lemma_no_brace_in_listing();
    template_without_braces_is_kept(
        template@,
        Seq::empty(),
        interfaces.params,
        with_defaults(args, interfaces.params),
    );
}

proof fn lemma_no_brace_in_listing()
    ensures
        !"ls /sys/class/net/ && echo '---' && ip -brief addr show"@.contains('{'),
{
    let s = "ls /sys/class/net/ && echo '---' && ip -brief addr show"@;
    reveal_strlit("ls /sys/class/net/ && echo '---' && ip -brief addr show");
    assert(forall|i: int| 0 <= i < s.len() ==> s[i] != '{');
}

/// What each built-in tool asks of its callers: the parameters that have to be
/// given, those that have a default, whether it needs root and whether it has to
/// be confirmed. Only `app_logcat` needs root, and only `file_write` a
/// confirmation.
pub proof fn builtin_tools_ask_for_what_they_need(m: ToolModel)
    ensures
        is_net_connect_info(m) ==> m.params.len() == 1 && takes(
            m.params[0],
            "interface"@,
            ParamType::String,
            false,
            Some(Json::String("wlan0"@)),
        ) && m.privilege == Privilege::User && !m.needs_confirmation,
        is_app_logcat(m) ==> m.params.len() == 3 && takes(
            m.params[0],
            "package"@,
            ParamType::String,
            true,
            None,
        ) && takes(
            m.params[1],
            "lines"@,
            ParamType::Integer,
            false,
            Some(Json::Number(JsonNumber::PosInt(100))),
        ) && takes(m.params[2], "level"@, ParamType::String, false, None) && m.privilege
            == Privilege::Root && !m.needs_confirmation,
        is_device_info(m) || is_net_interfaces(m) ==> m.params.len() == 0 && m.privilege
            == Privilege::User && !m.needs_confirmation,
        is_shell_exec(m) ==> m.params.len() == 2 && takes(
            m.params[0],
            "command"@,
            ParamType::String,
            true,
            None,
        ) && takes(
            m.params[1],
            "as_root"@,
            ParamType::Boolean,
            false,
            Some(Json::Bool(false)),
        ) && m.privilege == Privilege::User && !m.needs_confirmation,
        is_file_read(m) ==> m.params.len() == 2 && takes(
            m.params[0],
            "path"@,
            ParamType::String,
            true,
            None,
        ) && takes(
            m.params[1],
            "lines"@,
            ParamType::Integer,
            false,
            Some(Json::Number(JsonNumber::PosInt(200))),
        ) && m.privilege == Privilege::User && !m.needs_confirmation,
        is_file_write(m) ==> m.params.len() == 3 && takes(
            m.params[0],
            "path"@,
            ParamType::String,
            true,
            None,
        ) && takes(m.params[1], "content"@, ParamType::String, true, None) && takes(
            m.params[2],
            "append"@,
            ParamType::Boolean,
            false,
            Some(Json::Bool(false)),
        ) && m.privilege == Privilege::User && m.needs_confirmation,
{
}

/// Whether a parameter has the name, the type and the default, and has to be given
/// or not.
pub open spec fn takes(
    p: ParamView,
    name: Seq<char>,
    param_type: ParamType,
    required: bool,
    default: Option<Json>,
) -> bool {
    p.name == name && p.param_type == param_type && p.required == required && p.default == default
        && p.enum_values is None
}

/// A level of a log is one of the six letters, and any other text is refused with
/// a reason that lists them; a value that is no text is passed over.
pub proof fn log_levels_are_told_apart(s: Seq<char>, j: Json)
    ensures
        level_objection(Json::String(s)) is None <==> s == seq!['V'] || s == seq!['D'] || s == seq![
            'I',
        ] || s == seq!['W'] || s == seq!['E'] || s == seq!['F'],
        level_objection(Json::String(s)) is Some ==> level_objection(Json::String(s)) == Some(
            "must be one of V, D, I, W, E, F"@,
        ),
        !(j is String) ==> level_objection(j) is None,
{
    if s.len() == 1 {
        assert(s =~= seq![s[0]]);
    }
}

/// The script of `file_write` prints the content as one word and sends the output
/// to the path as one word, whatever they are.
pub proof fn write_script_escapes_both(args: Arguments, content: Seq<char>, path: Seq<char>)
    requires
        string_arg(args, "content"@) == Some(content),
        string_arg(args, "path"@) == Some(path),
    ensures
        bool_arg(args, "append"@) == Some(true) ==> write_script(args) == "printf %s "@ + escape(
            content,
        ) + (" >> "@ + escape(path)),
        bool_arg(args, "append"@) != Some(true) ==> write_script(args) == "printf %s "@ + escape(
            content,
        ) + (" > "@ + escape(path)),
{
    reveal_strlit(" ");
    reveal_strlit(">");
    reveal_strlit(">>");
    reveal_strlit(" > ");
    reveal_strlit(" >> ");
    if bool_arg(args, "append"@) == Some(true) {
        assert(" "@ + ">>"@ + " "@ =~= " >> "@);
        assert(write_script(args) =~= "printf %s "@ + escape(content) + (" >> "@ + escape(path)));
    } else {
        assert(" "@ + ">"@ + " "@ =~= " > "@);
        assert(write_script(args) =~= "printf %s "@ + escape(content) + (" > "@ + escape(path)));
    }
}

/// A command for root is handed to `su` as one argument, whatever it is.
pub proof fn root_command_is_an_argument_of_su(args: Arguments, command: Seq<char>)
    requires
        string_arg(args, "command"@) == Some(command),
    ensures
        bool_arg(args, "as_root"@) == Some(true) ==> exec_script(args) == command_line(
            "su"@,
            seq!["-c"@, command],
        ),
        bool_arg(args, "as_root"@) != Some(true) ==> exec_script(args) == command,
{
    root_line_is_a_command_line_of_su(command);
}

/// Each built-in tool can be called with all arguments that hold what it needs as
/// strings, whatever else they hold.
pub proof fn builtin_tools_take_what_they_need(m: ToolModel, args: Arguments)
    ensures
        is_net_connect_info(m) || is_device_info(m) || is_net_interfaces(m) ==> tool_accepts(
            m,
            args,
        ),
        is_app_logcat(m) && string_arg(args, "package"@) is Some ==> tool_accepts(m, args),
        is_shell_exec(m) && string_arg(args, "command"@) is Some ==> tool_accepts(m, args),
        is_file_read(m) && string_arg(args, "path"@) is Some ==> tool_accepts(m, args),
        is_file_write(m) && string_arg(args, "path"@) is Some && string_arg(args, "content"@) is Some
            ==> tool_accepts(m, args),
{
    lemma_given(m, args, "package"@);
    lemma_given(m, args, "command"@);
    lemma_given(m, args, "path"@);
    lemma_given(m, args, "content"@);
}

/// What is announced of a tool begins with a description, and what follows it tells
/// only that root or a confirmation is needed.
pub open spec fn is_announced_as(m: ToolModel, description: Seq<char>) -> bool {
    definition_of(m).description == description + (if m.privilege == Privilege::Root {
        " [requires root]"@
    } else {
        Seq::empty()
    }) + (if m.needs_confirmation {
        " [requires confirmation]"@
    } else {
        Seq::empty()
    })
}

/// Each built-in tool is announced under its name, with what it does and what each
/// of its parameters is for.
pub proof fn builtin_tools_say_what_they_do(m: ToolModel)
    ensures
        is_net_connect_info(m) ==> {
            &&& definition_of(m).name == "net_connect_info"@
            &&& is_announced_as(
                m,
                "Read WiFi/network connection info directly from the kernel. Returns detailed connection state: SSID, BSSID, signal strength, bitrate, auth type, frequency, channel width."@,
            )
            &&& m.params[0].description == "Network interface name"@
        },
        is_app_logcat(m) ==> {
            &&& definition_of(m).name == "app_logcat"@
            &&& is_announced_as(
                m,
                "Get recent logcat output for a running app, filtered by PID. This is a convenience tool that chains `pidof` and `logcat` — use the individual `app_pid` and `logcat` tools if you need more control over flags."@,
            )
            &&& m.params[0].description == "Package name (e.g., com.jesse.hostctl)"@
            &&& m.params[1].description == "Number of recent log lines (default: 100)"@
            &&& m.params[2].description == "Min log level: V, D, I, W, E, F"@
        },
        is_device_info(m) ==> {
            &&& definition_of(m).name == "device_info"@
            &&& is_announced_as(
                m,
                "Get a consolidated device summary: model, Android version, kernel, memory, and storage in one call."@,
            )
        },
        is_net_interfaces(m) ==> {
            &&& definition_of(m).name == "net_interfaces"@
            &&& is_announced_as(
                m,
                "List all network interfaces with their addresses and state"@,
            )
        },
        is_shell_exec(m) ==> {
            &&& definition_of(m).name == "shell_exec"@
            &&& is_announced_as(
                m,
                "Execute an arbitrary shell command in the Termux environment. Use when no specific tool covers what you need. Commands run as the Termux user by default."@,
            )
            &&& m.params[0].description == "Shell command to execute"@
            &&& m.params[1].description == "Run as root via su"@
        },
        is_file_read(m) ==> {
            &&& definition_of(m).name == "file_read"@
            &&& is_announced_as(
                m,
                "Read contents of a file on the device"@,
            )
            &&& m.params[0].description == "File path to read"@
            &&& m.params[1].description == "Max lines (0 = all, default 200)"@
        },
        is_file_write(m) ==> {
            &&& definition_of(m).name == "file_write"@
            &&& is_announced_as(
                m,
                "Write content to a file on the device [DESTRUCTIVE]"@,
            )
            &&& m.params[0].description == "File path to write"@
            &&& m.params[1].description == "File contents"@
            &&& m.params[2].description == "Append instead of overwrite"@
        },
{
}

/// Registering the built-in tools changes neither the policy nor a tool of another
/// name, and puts a shell tool of its own name under each of the seven.
pub proof fn builtins_are_added_to_what_is_there(
    before: RegistryView,
    after: RegistryView,
    name: Seq<char>,
)
    requires
        with_builtins(before, after),
    ensures
        after.policy == before.policy,
        name != "net_connect_info"@ && name != "app_logcat"@ && name != "device_info"@ && name
            != "net_interfaces"@ && name != "shell_exec"@ && name != "file_read"@ && name
            != "file_write"@ ==> lookup(after.tools, name) == lookup(before.tools, name),
        name == "net_connect_info"@ || name == "app_logcat"@ || name == "device_info"@ || name
            == "net_interfaces"@ || name == "shell_exec"@ || name == "file_read"@ || name
            == "file_write"@ ==> (lookup(after.tools, name) matches Some(RegisteredTool::Shell(tool))
            && tool@.name == name),
{
    if builtin_names().contains(name) {
        let i = choose|i: int| 0 <= i < builtin_names().len() && builtin_names()[i] == name;
        assert(i == 0 || i == 1 || i == 2 || i == 3 || i == 4 || i == 5 || i == 6);
    }
}

} // verus!
