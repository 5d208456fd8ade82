//! Tools: what they announce, what a call makes them run, and what they answer.

use vstd::prelude::*;
use crate::json::{
    copied_members, json_member, json_text, lemma_member, members, set_member,
    simple_values_are_written_plainly, Json, JsonNumber, Value,
};
use crate::mcp::{
    definition_has_its_members, definition_json, error_result, property_has_its_members,
    property_json, property_views, schema_has_its_members, text_result, DefinitionView, InputSchema,
    PropertySchema, PropertyView, ResultView, ToolDefinition, ToolResult,
};
use crate::params::{property_of, AnyValidator, Arguments, ParamDef, ParamType, ParamView, Params};
use crate::plugin::Plugin;
use crate::policy::Privilege;
use crate::shell::{
    all_plain, command_line, command_line_keeps_every_argument, escape, escaped_line,
    escaped_text_stays_in_its_word, lemma_read_all_concat, read, read_all, root_line,
    root_line_hands_over_the_whole_command, shell_escape, su_line, words_of, Reader,
};
use crate::table::{
    first_at, has_name, index_of, lemma_index_of, lemma_lookup_first, lemma_mapped_put, lookup, mapped,
    put, put_changes_one_name, Table,
};
use crate::text::{
    chars_of, decimal, decimal_int, decimal_text, decodes, from_utf8_lossy, lossy_text, occurs_at, stands_at,
    texts,
};

verus! {

// What a call asks for

/// A program to run, with the time it may take.
#[derive(Debug)]
pub struct Process {
    pub program: String,
    pub args: Vec<String>,
    pub timeout_secs: u64,
}

/// A file to read.
#[derive(Debug)]
pub struct FileRead {
    pub path: String,
}

/// What a call of a tool comes to: a result at once, a program to run, or a file
/// to read.
#[derive(Debug)]
pub enum Invocation {
    Done(ToolResult),
    Run(Process),
    Read(FileRead),
}

/// What a call of a shell tool comes to, with the subcommand that it names.
#[derive(Debug)]
pub struct Plan {
    pub subcommand: Option<String>,
    pub invocation: Invocation,
}

/// What a [`Process`] is.
pub struct ProcessView {
    pub program: Seq<char>,
    pub args: Seq<Seq<char>>,
    pub timeout_secs: u64,
}

/// What an [`Invocation`] is.
pub enum InvocationView {
    Done(ResultView),
    Run(ProcessView),
    Read(Seq<char>),
}

impl View for Process {
    type V = ProcessView;

    open spec fn view(&self) -> ProcessView {
        ProcessView {
            program: self.program@,
            args: texts(self.args@),
            timeout_secs: self.timeout_secs,
        }
    }
}

impl View for Invocation {
    type V = InvocationView;

    open spec fn view(&self) -> InvocationView {
        match *self {
            Invocation::Done(result) => InvocationView::Done(result@),
            Invocation::Run(process) => InvocationView::Run(process@),
            Invocation::Read(read) => InvocationView::Read(read.path@),
        }
    }
}

/// How a program ended: it exited, with what the system calls its status and with
/// what it wrote; it could not be started; or its time was up.
#[derive(Debug)]
pub enum Outcome {
    Exited { success: bool, status: String, stdout: Vec<u8>, stderr: Vec<u8> },
    NotStarted { reason: String },
    TimedOut,
}

/// What a tool answers when its program has exited, having written `out` and
/// `err`.
pub open spec fn exit_result(
    success: bool,
    status: Seq<char>,
    out: Seq<char>,
    err: Seq<char>,
) -> ResultView {
    if success {
        if out.len() == 0 && err.len() > 0 {
            text_result("(stderr) "@ + err)
        } else {
            text_result(out)
        }
    } else {
        error_result(
            "exit code: "@ + status + (if err.len() > 0 {
                "\nstderr: "@ + err
            } else {
                Seq::empty()
            }) + (if out.len() > 0 {
                "\nstdout: "@ + out
            } else {
                Seq::empty()
            }),
        )
    }
}

/// What a tool answers when its program has ended.
pub open spec fn output_result(outcome: Outcome, timeout_secs: u64) -> ResultView {
    match outcome {
        Outcome::Exited { success, status, stdout, stderr } => exit_result(
            success,
            status@,
            lossy_text(stdout@),
            lossy_text(stderr@),
        ),
        Outcome::NotStarted { reason } => error_result("failed to spawn: "@ + reason@),
        Outcome::TimedOut => error_result(
            "command timed out after "@ + decimal(timeout_secs as nat) + "s"@,
        ),
    }
}

/// What a tool answers when its file was read, or could not be.
pub open spec fn read_result(path: Seq<char>, content: Result<String, String>) -> ResultView {
    match content {
        Ok(text) => text_result(text@),
        Err(reason) => error_result("failed to read "@ + path + ": "@ + reason@),
    }
}

impl Process {
    /// The answer of the tool whose program this is.
    pub fn finish(&self, outcome: Outcome) -> (r: ToolResult)
        ensures
            r@ == output_result(outcome, self.timeout_secs),
            outcome matches Outcome::Exited { stdout, stderr, .. } ==> decodes(stdout@) && decodes(
                stderr@,
            ),
    {
        ShellTool::handle_output(outcome, self.timeout_secs)
    }
}

impl FileRead {
    /// The answer of the tool whose file this is.
    pub fn finish(&self, content: Result<String, String>) -> (r: ToolResult)
        ensures
            r@ == read_result(self.path@, content),
    {
        match content {
            Ok(text) => ToolResult::text(&text),
            Err(reason) => ToolResult::error(
                &"failed to read ".to_owned().concat(&self.path).concat(": ").concat(&reason),
            ),
        }
    }
}

// The tool trait

/// A tool that agents can call. What an implementation leaves unsaid of itself,
/// nothing is known of.
pub trait Tool: Send + Sync {
    /// What the tool announces.
    closed spec fn announced(&self) -> DefinitionView {
        arbitrary()
    }

    /// The privilege that the tool runs with.
    closed spec fn needs(&self) -> Privilege {
        arbitrary()
    }

    /// Whether the tool can be called with the arguments.
    closed spec fn accepts(&self, args: Arguments) -> bool {
        arbitrary()
    }

    /// Whether a call with the arguments can come to `invocation`.
    closed spec fn may_invoke(&self, args: Arguments, invocation: InvocationView) -> bool {
        arbitrary()
    }

    fn definition(&self) -> (r: ToolDefinition)
        ensures
            r@ == self.announced(),
    ;

    fn privilege(&self) -> (r: Privilege)
        ensures
            r == self.needs(),
    ;

    /// Whether the tool can be called with the arguments.
    fn ready(&self, params: &Table<Value>) -> (r: bool)
        ensures
            r == self.accepts(members(*params)),
    ;

    /// Calls the tool.
    fn invoke(&self, params: &Table<Value>) -> (r: Invocation)
        requires
            self.accepts(members(*params)),
        ensures
            self.may_invoke(members(*params), r@),
    ;
}

// Command sources

/// A text that is built from the arguments of a call: a script or a path. What an
/// implementation leaves unsaid of itself, nothing is known of.
pub trait Script: Send + Sync {
    /// Whether the text can be built from the arguments.
    closed spec fn accepts(&self, args: Arguments) -> bool {
        arbitrary()
    }

    /// The text.
    closed spec fn text(&self, args: Arguments) -> Seq<char> {
        arbitrary()
    }

    fn ready(&self, params: &Params<'_>) -> (r: bool)
        ensures
            r == self.accepts(params@),
    ;

    fn build(&self, params: &Params<'_>) -> (r: String)
        requires
            self.accepts(params@),
        ensures
            r@ == self.text(params@),
    ;
}

/// A program and its arguments that are built from the arguments of a call. What
/// an implementation leaves unsaid of itself, nothing is known of.
pub trait Direct: Send + Sync {
    /// Whether the program can be built from the arguments.
    closed spec fn accepts(&self, args: Arguments) -> bool {
        arbitrary()
    }

    /// The program.
    closed spec fn binary(&self, args: Arguments) -> Seq<char> {
        arbitrary()
    }

    /// The arguments of the program.
    closed spec fn argv(&self, args: Arguments) -> Seq<Seq<char>> {
        arbitrary()
    }

    fn ready(&self, params: &Params<'_>) -> (r: bool)
        ensures
            r == self.accepts(params@),
    ;

    fn build(&self, params: &Params<'_>) -> (r: (String, Vec<String>))
        requires
            self.accepts(params@),
        ensures
            r.0@ == self.binary(params@),
            texts(r.1@) == self.argv(params@),
    ;
}

/// Any maker of texts.
pub type AnyScript = Plugin<Box<dyn Script>>;

/// Any maker of programs.
pub type AnyDirect = Plugin<Box<dyn Direct>>;

/// Where a tool has its command from.
pub enum CommandSource {
    /// A script in which `{name}` stands for the shell-escaped argument `name`.
    Template(String),
    /// A script that is built from the arguments.
    Script(AnyScript),
    /// A path that is built from the arguments: the file is read, no shell runs.
    ReadFile(AnyScript),
    /// A program that is built from the arguments: it is run without a shell.
    Direct(AnyDirect),
}

// Shell tools

/// A tool that runs a command or reads a file.
pub struct ShellTool {
    name: String,
    description: String,
    params: Vec<ParamDef>,
    privilege: Privilege,
    needs_confirmation: bool,
    command: CommandSource,
    validators: Table<AnyValidator>,
    timeout_secs: u64,
}

pub struct ShellToolBuilder {
    name: String,
    description: String,
    params: Vec<ParamDef>,
    privilege: Privilege,
    needs_confirmation: bool,
    command: Option<CommandSource>,
    validators: Table<AnyValidator>,
    timeout_secs: u64,
}

/// What a [`ShellTool`] is, or what a [`ShellToolBuilder`] has so far.
pub struct ToolModel {
    pub name: Seq<char>,
    pub description: Seq<char>,
    pub params: Seq<ParamView>,
    pub privilege: Privilege,
    pub needs_confirmation: bool,
    pub command: Option<CommandSource>,
    pub validators: Seq<(Seq<char>, AnyValidator)>,
    pub timeout_secs: u64,
}

/// What the declarations of parameters say.
pub open spec fn param_views(params: Seq<ParamDef>) -> Seq<ParamView> {
    params.map_values(|p: ParamDef| p@)
}

impl View for ShellToolBuilder {
    type V = ToolModel;

    closed spec fn view(&self) -> ToolModel {
        ToolModel {
            name: self.name@,
            description: self.description@,
            params: param_views(self.params@),
            privilege: self.privilege,
            needs_confirmation: self.needs_confirmation,
            command: self.command,
            validators: self.validators@,
            timeout_secs: self.timeout_secs,
        }
    }
}

impl View for ShellTool {
    type V = ToolModel;

    closed spec fn view(&self) -> ToolModel {
        ToolModel {
            name: self.name@,
            description: self.description@,
            params: param_views(self.params@),
            privilege: self.privilege,
            needs_confirmation: self.needs_confirmation,
            command: Some(self.command),
            validators: self.validators@,
            timeout_secs: self.timeout_secs,
        }
    }
}

/// The tool of the given name with nothing else said of it.
pub open spec fn bare_tool(name: Seq<char>) -> ToolModel {
    ToolModel {
        name,
        description: Seq::empty(),
        params: Seq::empty(),
        privilege: Privilege::User,
        needs_confirmation: false,
        command: None,
        validators: Seq::empty(),
        timeout_secs: 30,
    }
}

/// The parameters with a default for the last of them, where there is one.
pub open spec fn default_last(params: Seq<ParamView>, value: Json) -> Seq<ParamView> {
    if params.len() == 0 {
        params
    } else {
        params.drop_last().push(ParamView { default: Some(value), ..params.last() })
    }
}

impl ShellTool {
    pub fn new(name: &str) -> (r: ShellToolBuilder)
        ensures
            r@ == bare_tool(name@),
    {
        let r: ShellToolBuilder = ShellToolBuilder {
            name: name.to_owned(),
            description: String::new(),
            params: Vec::new(),
            privilege: Privilege::User,
            needs_confirmation: false,
            command: None,
            validators: Table::new(),
            timeout_secs: 30,
        };
        proof {
            assert(r@.params =~= Seq::<ParamView>::empty());
        }
        r
    }
}

impl ShellToolBuilder {
    pub fn description(self, desc: &str) -> (r: Self)
        ensures
            r@ == (ToolModel { description: desc@, ..self@ }),
    {
        ShellToolBuilder { description: desc.to_owned(), ..self }
    }

    fn add_param(self, param: ParamDef) -> (r: Self)
        ensures
            r@ == (ToolModel { params: self@.params.push(param@), ..self@ }),
    {
        let ghost before = self@.params;
        let mut params: Vec<ParamDef> = self.params;
        params.push(param);
        proof {
            assert(param_views(params@) =~= before.push(param@));
        }
        ShellToolBuilder { params, ..self }
    }

    /// Adds a parameter.
    pub fn param(self, name: &str, param_type: ParamType, description: &str, required: bool) -> (r:
        Self)
        ensures
            r@ == (ToolModel {
                params: self@.params.push(
                    ParamView {
                        name: name@,
                        param_type,
                        description: description@,
                        required,
                        default: None,
                        enum_values: None,
                    },
                ),
                ..self@
            }),
    {
        self.add_param(
            ParamDef {
                name: name.to_owned(),
                param_type,
                description: description.to_owned(),
                required,
                default: None,
                enum_values: None,
            },
        )
    }

    /// Adds a string parameter whose schema lists the values that it may have.
    pub fn param_enum(self, name: &str, description: &str, values: Vec<&str>, required: bool) -> (r:
        Self)
        ensures
            r@ == (ToolModel {
                params: self@.params.push(
                    ParamView {
                        name: name@,
                        param_type: ParamType::String,
                        description: description@,
                        required,
                        default: None,
                        enum_values: Some(values@.map_values(|s: &str| s@)),
                    },
                ),
                ..self@
            }),
    {
        let mut list: Vec<String> = Vec::new();
        let mut i: usize = 0;
        while i < values.len()
            invariant
                i <= values.len(),
                list.len() == i,
                forall|j: int| 0 <= j < i ==> (#[trigger] list@[j])@ == values@[j]@,
            decreases values.len() - i,
        {
            list.push(values[i].to_owned());
            i = i + 1;
        }
        proof {
            assert(texts(list@) =~= values@.map_values(|s: &str| s@));
        }
        self.add_param(
            ParamDef {
                name: name.to_owned(),
                param_type: ParamType::String,
                description: description.to_owned(),
                required,
                default: None,
                enum_values: Some(list),
            },
        )
    }

    /// Sets the default of the parameter that was added last.
    pub fn default_value(self, value: Value) -> (r: Self)
        ensures
            r@ == (ToolModel { params: default_last(self@.params, value@), ..self@ }),
    {
        let ghost before = self@.params;
        let ghost j = value@;
        let mut params: Vec<ParamDef> = self.params;
        if let Some(last) = params.pop() {
            let ghost old_last = last@;
            let last: ParamDef = ParamDef { default: Some(value), ..last };
            proof {
                assert(before.drop_last() =~= param_views(params@));
                assert(before.last() == old_last);
            }
            params.push(last);
            proof {
                assert(param_views(params@) =~= default_last(before, j));
            }
        }
        ShellToolBuilder { params, ..self }
    }

    /// Marks the tool as one that runs as root.
    pub fn root(self) -> (r: Self)
        ensures
            r@ == (ToolModel { privilege: Privilege::Root, ..self@ }),
    {
        ShellToolBuilder { privilege: Privilege::Root, ..self }
    }

    /// Marks the tool as one that the user has to confirm.
    pub fn confirm(self) -> (r: Self)
        ensures
            r@ == (ToolModel { needs_confirmation: true, ..self@ }),
    {
        ShellToolBuilder { needs_confirmation: true, ..self }
    }

    /// Takes the command from a template. `{name}` in it stands for the
    /// shell-escaped argument `name`.
    pub fn template(self, tpl: &str) -> (r: Self)
        ensures
            r@.command matches Some(CommandSource::Template(t)) && t@ == tpl@,
            r@ == (ToolModel { command: r@.command, ..self@ }),
    {
        let command: CommandSource = CommandSource::Template(tpl.to_owned());
        ShellToolBuilder { command: Some(command), ..self }
    }

    /// Takes the command from a script that is built for each call.
    pub fn script(self, script: AnyScript) -> (r: Self)
        ensures
            r@ == (ToolModel { command: Some(CommandSource::Script(script)), ..self@ }),
    {
        ShellToolBuilder { command: Some(CommandSource::Script(script)), ..self }
    }

    /// Reads a file whose path is built for each call.
    pub fn read_file(self, path: AnyScript) -> (r: Self)
        ensures
            r@ == (ToolModel { command: Some(CommandSource::ReadFile(path)), ..self@ }),
    {
        ShellToolBuilder { command: Some(CommandSource::ReadFile(path)), ..self }
    }

    /// Runs a program without a shell.
    pub fn direct(self, direct: AnyDirect) -> (r: Self)
        ensures
            r@ == (ToolModel { command: Some(CommandSource::Direct(direct)), ..self@ }),
    {
        ShellToolBuilder { command: Some(CommandSource::Direct(direct)), ..self }
    }

    /// Adds a validator for a parameter, in place of the one that it had.
    pub fn validate(self, param_name: &str, validator: AnyValidator) -> (r: Self)
        ensures
            r@ == (ToolModel { validators: put(self@.validators, param_name@, validator), ..self@ }),
    {
        let mut validators: Table<AnyValidator> = self.validators;
        validators.insert(param_name.to_owned(), validator);
        ShellToolBuilder { validators, ..self }
    }

    /// Sets the time that the command may take.
    pub fn timeout(self, secs: u64) -> (r: Self)
        ensures
            r@ == (ToolModel { timeout_secs: secs, ..self@ }),
    {
        ShellToolBuilder { timeout_secs: secs, ..self }
    }

    /// The tool. It needs a command source.
    pub fn build(self) -> (r: ShellTool)
        requires
            self@.command is Some,
        ensures
            r@ == self@,
    {
        match self.command {
            Some(command) => ShellTool {
                name: self.name,
                description: self.description,
                params: self.params,
                privilege: self.privilege,
                needs_confirmation: self.needs_confirmation,
                command,
                validators: self.validators,
                timeout_secs: self.timeout_secs,
            },
            None => vstd::pervasive::unreached(),
        }
    }

    /// Whether the tool has a command source.
    pub fn has_command(&self) -> (r: bool)
        ensures
            r == (self@.command is Some),
    {
        self.command.is_some()
    }
}

/// The properties by which a schema describes the parameters. Of two parameters
/// with one name the later counts.
pub open spec fn properties_of(params: Seq<ParamView>) -> Seq<(Seq<char>, PropertyView)>
    decreases params.len(),
{
    if params.len() == 0 {
        Seq::empty()
    } else {
        put(properties_of(params.drop_last()), params.last().name, property_of(params.last()))
    }
}

/// The names of the parameters that have to be given, in order.
pub open spec fn required_names(params: Seq<ParamView>) -> Seq<Seq<char>>
    decreases params.len(),
{
    if params.len() == 0 {
        Seq::empty()
    } else if params.last().required {
        required_names(params.drop_last()).push(params.last().name)
    } else {
        required_names(params.drop_last())
    }
}

/// What a shell tool announces.
pub open spec fn definition_of(m: ToolModel) -> DefinitionView {
    DefinitionView {
        name: m.name,
        description: m.description + (if m.privilege == Privilege::Root {
            " [requires root]"@
        } else {
            Seq::empty()
        }) + (if m.needs_confirmation {
            " [requires confirmation]"@
        } else {
            Seq::empty()
        }),
        schema_type: "object"@,
        properties: properties_of(m.params),
        required: required_names(m.params),
    }
}

/// The first required parameter that the arguments leave out.
pub open spec fn first_missing(params: Seq<ParamView>, args: Arguments) -> Option<Seq<char>>
    decreases params.len(),
{
    if params.len() == 0 {
        None
    } else {
        match first_missing(params.drop_last(), args) {
            Some(name) => Some(name),
            None => if params.last().required && !has_name(args, params.last().name) {
                Some(params.last().name)
            } else {
                None
            },
        }
    }
}

/// The first objection of a validator to the argument it is for, with the name of
/// the argument. An argument that is left out meets every rule.
pub open spec fn first_objection(
    validators: Seq<(Seq<char>, AnyValidator)>,
    args: Arguments,
) -> Option<(Seq<char>, Seq<char>)>
    decreases validators.len(),
{
    if validators.len() == 0 {
        None
    } else {
        match first_objection(validators.drop_last(), args) {
            Some(found) => Some(found),
            None => match lookup(args, validators.last().0) {
                Some(value) => match validators.last().1.inner.objection(value) {
                    Some(reason) => Some((validators.last().0, reason)),
                    None => None,
                },
                None => None,
            },
        }
    }
}

/// The arguments with the defaults of the parameters that they leave out.
pub open spec fn with_defaults(args: Arguments, params: Seq<ParamView>) -> Arguments
    decreases params.len(),
{
    if params.len() == 0 {
        args
    } else {
        let given = with_defaults(args, params.drop_last());
        match params.last().default {
            Some(value) => if has_name(given, params.last().name) {
                given
            } else {
                given.push((params.last().name, value))
            },
            None => given,
        }
    }
}

/// The text of an argument in a script: that of a string as it stands, of any
/// other value its JSON.
pub open spec fn argument_text(value: Json) -> Seq<char> {
    match value {
        Json::String(s) => s,
        other => json_text(other),
    }
}

/// The text of an argument.
fn value_text(value: &Value) -> (r: String)
    ensures
        r@ == argument_text(value@),
{
    match value {
        Value::String(s) => s.clone(),
        other => other.to_text(),
    }
}

/// What stands for an argument in a template.
pub open spec fn slot(name: Seq<char>) -> Seq<char> {
    seq!['{'] + name + seq!['}']
}

/// The parameter whose slot stands at the front of a template: the first of those
/// that have a value.
pub open spec fn front_slot(
    template: Seq<char>,
    params: Seq<ParamView>,
    args: Arguments,
) -> Option<Seq<char>>
    decreases params.len(),
{
    if params.len() == 0 {
        None
    } else {
        match front_slot(template, params.drop_last(), args) {
            Some(name) => Some(name),
            None => if lookup(args, params.last().name) is Some && occurs_at(
                template,
                slot(params.last().name),
                0,
            ) {
                Some(params.last().name)
            } else {
                None
            },
        }
    }
}

/// The slot that stands at the front is that of a parameter with a value, and
/// fits in the template.
pub proof fn lemma_front_slot(template: Seq<char>, params: Seq<ParamView>, args: Arguments)
    ensures
        front_slot(template, params, args) matches Some(name) ==> lookup(args, name) is Some
            && occurs_at(template, slot(name), 0) && 2 <= slot(name).len() <= template.len(),
    decreases params.len(),
{
    if params.len() > 0 {
        lemma_front_slot(template, params.drop_last(), args);
    }
}

/// The shell-escaped argument of the given name.
pub open spec fn escaped_argument(args: Arguments, name: Seq<char>) -> Seq<char> {
    escape(argument_text(lookup(args, name)->0))
}

/// The template with a shell-escaped argument in place of each slot. The
/// arguments themselves are not searched for slots.
pub open spec fn filled(template: Seq<char>, params: Seq<ParamView>, args: Arguments) -> Seq<char>
    decreases template.len(),
{
    if template.len() == 0 {
        Seq::empty()
    } else {
        proof {
            lemma_front_slot(template, params, args);
        }
        match front_slot(template, params, args) {
            Some(name) => escaped_argument(args, name) + filled(
                template.skip(slot(name).len() as int),
                params,
                args,
            ),
            None => seq![template[0]] + filled(template.skip(1), params, args),
        }
    }
}

/// The process that has a shell run a script, as root where that is needed.
pub open spec fn shell_process(privilege: Privilege, script: Seq<char>, secs: u64) -> ProcessView {
    ProcessView {
        program: "sh"@,
        args: seq![
            "-c"@,
            if privilege == Privilege::Root {
                root_line(script)
            } else {
                script
            },
        ],
        timeout_secs: secs,
    }
}

/// The process that runs a program: without a shell, or through `su` with each
/// argument as one word.
pub open spec fn direct_process(
    privilege: Privilege,
    binary: Seq<char>,
    args: Seq<Seq<char>>,
    secs: u64,
) -> ProcessView {
    if privilege == Privilege::Root {
        ProcessView {
            program: "su"@,
            args: seq!["-c"@, command_line(binary, args)],
            timeout_secs: secs,
        }
    } else {
        ProcessView { program: binary, args, timeout_secs: secs }
    }
}

/// Whether a command can be built from the arguments.
pub open spec fn command_accepts(command: CommandSource, args: Arguments) -> bool {
    match command {
        CommandSource::Template(_) => true,
        CommandSource::Script(script) => script.inner.accepts(args),
        CommandSource::ReadFile(path) => path.inner.accepts(args),
        CommandSource::Direct(direct) => direct.inner.accepts(args),
    }
}

/// What the command of a tool comes to with the arguments and the defaults.
pub open spec fn command_invocation(m: ToolModel, args: Arguments) -> InvocationView {
    match m.command->0 {
        CommandSource::Template(template) => InvocationView::Run(
            shell_process(m.privilege, filled(template@, m.params, args), m.timeout_secs),
        ),
        CommandSource::Script(script) => InvocationView::Run(
            shell_process(m.privilege, script.inner.text(args), m.timeout_secs),
        ),
        CommandSource::ReadFile(path) => InvocationView::Read(path.inner.text(args)),
        CommandSource::Direct(direct) => InvocationView::Run(
            direct_process(
                m.privilege,
                direct.inner.binary(args),
                direct.inner.argv(args),
                m.timeout_secs,
            ),
        ),
    }
}

/// Why a tool refuses the arguments before it runs anything: a required one is
/// missing, or a validator objects.
pub open spec fn refusal(m: ToolModel, args: Arguments) -> Option<Seq<char>> {
    match first_missing(m.params, args) {
        Some(name) => Some("missing required parameter: "@ + name),
        None => match first_objection(m.validators, args) {
            Some((name, reason)) => Some(
                "validation failed for '"@ + name + "': "@ + reason,
            ),
            None => None,
        },
    }
}

/// Whether a shell tool can be called with the arguments: it refuses them, or its
/// command can be built from them.
pub open spec fn tool_accepts(m: ToolModel, args: Arguments) -> bool {
    refusal(m, args) is None ==> command_accepts(m.command->0, with_defaults(args, m.params))
}

/// The first argument of a program that is no option.
pub open spec fn first_positional(argv: Seq<Seq<char>>) -> Option<Seq<char>>
    decreases argv.len(),
{
    if argv.len() == 0 {
        None
    } else if argv[0].len() > 0 && argv[0][0] == '-' {
        first_positional(argv.skip(1))
    } else {
        Some(argv[0])
    }
}

/// The subcommand that a call of a shell tool names: the first positional
/// argument of the program, where the tool runs one without a shell.
pub open spec fn subcommand_of(m: ToolModel, args: Arguments) -> Option<Seq<char>> {
    match m.command->0 {
        CommandSource::Direct(direct) if refusal(m, args) is None => first_positional(
            direct.inner.argv(with_defaults(args, m.params)),
        ),
        _ => None,
    }
}

/// What a call of a shell tool comes to.
pub open spec fn invocation(m: ToolModel, args: Arguments) -> InvocationView {
    match refusal(m, args) {
        Some(reason) => InvocationView::Done(error_result(reason)),
        None => command_invocation(m, with_defaults(args, m.params)),
    }
}

/// The first argument of a program that is no option.
fn positional(argv: &Vec<String>) -> (r: Option<String>)
    ensures
        match first_positional(texts(argv@)) {
            Some(arg) => r matches Some(s) && s@ == arg,
            None => r is None,
        },
{
    let ghost all = texts(argv@);
    proof {
        assert(all.skip(0) =~= all);
    }
    let mut i: usize = 0;
    while i < argv.len()
        invariant
            i <= argv.len(),
            all == texts(argv@),
            first_positional(all.skip(i as int)) == first_positional(all),
        decreases argv.len() - i,
    {
        let chars: Vec<char> = chars_of(&argv[i]);
        if !(chars.len() > 0 && chars[0] == '-') {
            return Some(argv[i].clone());
        }
        proof {
            assert(all.skip(i as int).skip(1) =~= all.skip(i + 1));
        }
        i = i + 1;
    }
    proof {
        assert(all.skip(i as int).len() == 0);
    }
    None
}

impl ShellTool {
    /// The name of the tool.
    pub fn name(&self) -> (r: &str)
        ensures
            r@ == self@.name,
    {
        self.name.as_str()
    }

    /// Why the arguments are refused.
    fn check(&self, params: &Table<Value>) -> (r: Option<String>)
        ensures
            match refusal(self@, members(*params)) {
                Some(reason) => r matches Some(m) && m@ == reason,
                None => r is None,
            },
    {
        let ghost args = members(*params);
        let ghost declared = self@.params;
        let mut i: usize = 0;
        while i < self.params.len()
            invariant
                i <= self.params.len(),
                args == members(*params),
                declared == param_views(self.params@),
                first_missing(declared.take(i as int), args) is None,
            decreases self.params.len() - i,
        {
            proof {
                lemma_member(*params, self.params@[i as int].name@);
                assert(declared.take(i + 1).drop_last() =~= declared.take(i as int));
            }
            let p: &ParamDef = &self.params[i];
            if p.required && !params.contains_key(&p.name) {
                proof {
                    lemma_missing_stays(declared, args, i + 1);
                }
                return Some("missing required parameter: ".to_owned().concat(&p.name));
            }
            i = i + 1;
        }
        proof {
            assert(declared.take(i as int) =~= declared);
        }
        let ghost rules = self@.validators;
        let n: usize = self.validators.len();
        let mut k: usize = 0;
        while k < n
            invariant
                k <= n,
                n == rules.len(),
                rules == self.validators@,
                rules == self@.validators,
                args == members(*params),
                first_missing(self@.params, args) is None,
                first_objection(rules.take(k as int), args) is None,
            decreases n - k,
        {
            let name: &str = self.validators.name(k);
            proof {
                lemma_member(*params, name@);
                assert(rules.take(k + 1).drop_last() =~= rules.take(k as int));
            }
            if let Some(value) = params.get(name) {
                let check: &AnyValidator = self.validators.value(k);
                if let Err(e) = check.inner.check(value) {
                    proof {
                        lemma_objection_stays(rules, args, k + 1);
                    }
                    return Some(
                        "validation failed for '".to_owned().concat(name).concat("': ").concat(&e),
                    );
                }
            }
            k = k + 1;
        }
        proof {
            assert(rules.take(k as int) =~= rules);
        }
        None
    }

    /// The arguments with the defaults of the parameters that they leave out.
    fn merged(&self, params: &Table<Value>) -> (r: Table<Value>)
        ensures
            members(r) == with_defaults(members(*params), self@.params),
    {
        let ghost args = members(*params);
        let ghost declared = self@.params;
        let mut merged: Table<Value> = copied_members(params);
        let mut i: usize = 0;
        while i < self.params.len()
            invariant
                i <= self.params.len(),
                declared == param_views(self.params@),
                members(merged) == with_defaults(args, declared.take(i as int)),
            decreases self.params.len() - i,
        {
            let p: &ParamDef = &self.params[i];
            proof {
                lemma_member(merged, p.name@);
                assert(declared.take(i + 1).drop_last() =~= declared.take(i as int));
            }
            if !merged.contains_key(&p.name) {
                if let Some(value) = &p.default {
                    set_member(&mut merged, &p.name, value.clone());
                }
            }
            i = i + 1;
        }
        proof {
            assert(declared.take(i as int) =~= declared);
        }
        merged
    }

    /// The index of the parameter whose slot stands in a template at index `at`.
    fn slot_at(&self, chars: &Vec<char>, at: usize, args: &Table<Value>) -> (r: Option<usize>)
        requires
            at <= chars.len(),
        ensures
            match front_slot(chars@.skip(at as int), self@.params, members(*args)) {
                Some(name) => r matches Some(j) && j < self@.params.len()
                    && self@.params[j as int].name == name && lookup(members(*args), name) is Some
                    && occurs_at(chars@, slot(name), at as int),
                None => r is None,
            },
    {
        let ghost rest = chars@.skip(at as int);
        let ghost declared = self@.params;
        let mut i: usize = 0;
        while i < self.params.len()
            invariant
                i <= self.params.len(),
                at <= chars.len(),
                rest == chars@.skip(at as int),
                declared == param_views(self.params@),
                self@.params == declared,
                front_slot(rest, declared.take(i as int), members(*args)) is None,
            decreases self.params.len() - i,
        {
            let p: &ParamDef = &self.params[i];
            proof {
                lemma_member(*args, p.name@);
                assert(declared.take(i + 1).drop_last() =~= declared.take(i as int));
                assert(declared.take(i + 1).last().name == p.name@);
            }
            if args.contains_key(&p.name) {
                let pattern: Vec<char> = chars_of(&"{".to_owned().concat(&p.name).concat("}"));
                proof {
                    reveal_strlit("{");
                    reveal_strlit("}");
                    assert(pattern@ =~= slot(p.name@));
                    if at + pattern.len() <= chars.len() {
                        assert(rest.subrange(0, pattern.len() as int) =~= chars@.subrange(
                            at as int,
                            at + pattern.len(),
                        ));
                    }
                    assert(occurs_at(rest, pattern@, 0) == occurs_at(chars@, pattern@, at as int));
                }
                if stands_at(chars, &pattern, at) {
                    proof {
                        lemma_front_slot_stays(rest, declared, members(*args), i + 1);
                    }
                    return Some(i);
                }
            }
            i = i + 1;
        }
        proof {
            assert(declared.take(i as int) =~= declared);
        }
        None
    }

    /// The template with the arguments in place.
    fn fill(&self, template: &str, args: &Table<Value>) -> (r: String)
        ensures
            r@ == filled(template@, self@.params, members(*args)),
    {
        let ghost declared = self@.params;
        let ghost given = members(*args);
        let chars: Vec<char> = chars_of(template);
        let mut r: String = String::new();
        let mut i: usize = 0;
        proof {
            assert(chars@.skip(0) =~= template@);
            assert(r@ + filled(template@, declared, given) =~= filled(template@, declared, given));
        }
        while i < chars.len()
            invariant
                i <= chars.len(),
                self@.params == declared,
                given == members(*args),
                r@ + filled(chars@.skip(i as int), declared, given) == filled(
                    template@,
                    declared,
                    given,
                ),
            decreases chars.len() - i,
        {
            let ghost rest = chars@.skip(i as int);
            let ghost before = r@;
            match self.slot_at(&chars, i, args) {
                Some(j) => {
                    let name: &String = &self.params[j].name;
                    proof {
                        lemma_member(*args, name@);
                    }
                    let value: String = shell_escape(&value_text(args.get(name).unwrap()));
                    r.append(&value);
                    let ghost n = slot(name@).len() as int;
                    proof {
                        assert(rest.skip(n) =~= chars@.skip(i + n));
                        assert(before + (value@ + filled(rest.skip(n), declared, given)) =~= r@
                            + filled(chars@.skip(i + n), declared, given));
                    }
                    i = i + chars_of(name).len() + 2;
                },
                None => {
                    r.push(chars[i]);
                    proof {
                        assert(rest.skip(1) =~= chars@.skip(i + 1));
                        assert(before + (seq![rest[0]] + filled(rest.skip(1), declared, given))
                            =~= r@ + filled(chars@.skip(i + 1), declared, given));
                    }
                    i = i + 1;
                },
            }
        }
        proof {
            assert(chars@.skip(i as int).len() == 0);
            assert(r@ + filled(chars@.skip(i as int), declared, given) =~= r@);
        }
        r
    }

    fn exec_shell(&self, cmd: &str) -> (r: Process)
        ensures
            r@ == shell_process(self@.privilege, cmd@, self@.timeout_secs),
    {
        let line: String = if self.privilege == Privilege::Root {
            su_line(cmd)
        } else {
            cmd.to_owned()
        };
        let mut args: Vec<String> = Vec::new();
        args.push("-c".to_owned());
        args.push(line);
        let r: Process = Process {
            program: "sh".to_owned(),
            args,
            timeout_secs: self.timeout_secs,
        };
        proof {
            assert(r@.args =~= shell_process(self@.privilege, cmd@, self@.timeout_secs).args);
        }
        r
    }

    fn exec_direct(&self, binary: &str, args: Vec<String>) -> (r: Process)
        ensures
            r@ == direct_process(self@.privilege, binary@, texts(args@), self@.timeout_secs),
    {
        if self.privilege == Privilege::Root {
            let line: String = escaped_line(binary, &args);
            let mut argv: Vec<String> = Vec::new();
            argv.push("-c".to_owned());
            argv.push(line);
            let r: Process = Process {
                program: "su".to_owned(),
                args: argv,
                timeout_secs: self.timeout_secs,
            };
            proof {
                assert(r@.args =~= seq!["-c"@, command_line(binary@, texts(args@))]);
            }
            r
        } else {
            Process { program: binary.to_owned(), args, timeout_secs: self.timeout_secs }
        }
    }

    /// What a call comes to, and the subcommand that it names.
    pub fn plan(&self, params: &Table<Value>) -> (r: Plan)
        requires
            tool_accepts(self@, members(*params)),
        ensures
            r.invocation@ == invocation(self@, members(*params)),
            match subcommand_of(self@, members(*params)) {
                Some(sub) => r.subcommand matches Some(s) && s@ == sub,
                None => r.subcommand is None,
            },
    {
        if let Some(reason) = self.check(params) {
            return Plan {
                subcommand: None,
                invocation: Invocation::Done(ToolResult::error(&reason)),
            };
        }
        let merged: Table<Value> = self.merged(params);
        let pp: Params<'_> = Params(&merged);
        match &self.command {
            CommandSource::Template(template) => {
                let script: String = self.fill(template, &merged);
                Plan { subcommand: None, invocation: Invocation::Run(self.exec_shell(&script)) }
            },
            CommandSource::Script(script) => {
                let text: String = script.inner.build(&pp);
                Plan { subcommand: None, invocation: Invocation::Run(self.exec_shell(&text)) }
            },
            CommandSource::ReadFile(path) => {
                let path: String = path.inner.build(&pp);
                Plan { subcommand: None, invocation: Invocation::Read(FileRead { path }) }
            },
            CommandSource::Direct(direct) => {
                let (binary, args): (String, Vec<String>) = direct.inner.build(&pp);
                Plan {
                    subcommand: positional(&args),
                    invocation: Invocation::Run(self.exec_direct(&binary, args)),
                }
            },
        }
    }

    /// What a tool answers when its program has exited, having written `out` and
    /// `err`.
    pub fn exited(success: bool, status: &str, out: &str, err: &str) -> (r: ToolResult)
        ensures
            r@ == exit_result(success, status@, out@, err@),
    {
        if success {
            if out.is_empty() && !err.is_empty() {
                ToolResult::text(&"(stderr) ".to_owned().concat(err))
            } else {
                ToolResult::text(out)
            }
        } else {
            let mut msg: String = "exit code: ".to_owned().concat(status);
            if !err.is_empty() {
                msg.append(&"\nstderr: ".to_owned().concat(err));
            }
            if !out.is_empty() {
                msg.append(&"\nstdout: ".to_owned().concat(out));
            }
            proof {
                assert(msg@ =~= "exit code: "@ + status@ + (if err@.len() > 0 {
                    "\nstderr: "@ + err@
                } else {
                    Seq::empty()
                }) + (if out@.len() > 0 {
                    "\nstdout: "@ + out@
                } else {
                    Seq::empty()
                }));
            }
            ToolResult::error(&msg)
        }
    }

    /// What a tool answers when its program has ended.
    pub fn handle_output(outcome: Outcome, timeout_secs: u64) -> (r: ToolResult)
        ensures
            r@ == output_result(outcome, timeout_secs),
            outcome matches Outcome::Exited { stdout, stderr, .. } ==> decodes(stdout@) && decodes(
                stderr@,
            ),
    {
        match outcome {
            Outcome::Exited { success, status, stdout, stderr } => {
                let out: String = from_utf8_lossy(&stdout);
                let err: String = from_utf8_lossy(&stderr);
                Self::exited(success, &status, &out, &err)
            },
            Outcome::NotStarted { reason } => ToolResult::error(
                &"failed to spawn: ".to_owned().concat(&reason),
            ),
            Outcome::TimedOut => ToolResult::error(
                &"command timed out after ".to_owned().concat(&decimal_text(timeout_secs)).concat(
                    "s",
                ),
            ),
        }
    }
}

proof fn lemma_front_slot_stays(
    template: Seq<char>,
    params: Seq<ParamView>,
    args: Arguments,
    n: int,
)
    requires
        0 <= n <= params.len(),
        front_slot(template, params.take(n), args) is Some,
    ensures
        front_slot(template, params, args) == front_slot(template, params.take(n), args),
    decreases params.len() - n,
{
    if n < params.len() {
        assert(params.take(n + 1).drop_last() =~= params.take(n));
        lemma_front_slot_stays(template, params, args, n + 1);
    } else {
        assert(params.take(n) =~= params);
    }
}

proof fn lemma_missing_stays(params: Seq<ParamView>, args: Arguments, n: int)
    requires
        0 <= n <= params.len(),
        first_missing(params.take(n), args) is Some,
    ensures
        first_missing(params, args) == first_missing(params.take(n), args),
    decreases params.len() - n,
{
    if n == params.len() {
        assert(params.take(n) =~= params);
    } else {
        assert(params.take(n + 1).drop_last() =~= params.take(n));
        lemma_missing_stays(params, args, n + 1);
    }
}

proof fn lemma_objection_stays(rules: Seq<(Seq<char>, AnyValidator)>, args: Arguments, n: int)
    requires
        0 <= n <= rules.len(),
        first_objection(rules.take(n), args) is Some,
    ensures
        first_objection(rules, args) == first_objection(rules.take(n), args),
    decreases rules.len() - n,
{
    if n == rules.len() {
        assert(rules.take(n) =~= rules);
    } else {
        assert(rules.take(n + 1).drop_last() =~= rules.take(n));
        lemma_objection_stays(rules, args, n + 1);
    }
}

impl Tool for ShellTool {
    open spec fn announced(&self) -> DefinitionView {
        definition_of(self@)
    }

    open spec fn needs(&self) -> Privilege {
        self@.privilege
    }

    open spec fn accepts(&self, args: Arguments) -> bool {
        tool_accepts(self@, args)
    }

    open spec fn may_invoke(&self, args: Arguments, came_to: InvocationView) -> bool {
        came_to == invocation(self@, args)
    }

    fn definition(&self) -> (r: ToolDefinition) {
        let ghost declared = self@.params;
        let ghost f = |p: PropertySchema| p@;
        let mut properties: Table<PropertySchema> = Table::new();
        let mut required: Vec<String> = Vec::new();
        let mut i: usize = 0;
        proof {
            assert(mapped(properties@, f) =~= Seq::<(Seq<char>, PropertyView)>::empty());
            assert(texts(required@) =~= Seq::<Seq<char>>::empty());
        }
        while i < self.params.len()
            invariant
                i <= self.params.len(),
                declared == param_views(self.params@),
                f == |p: PropertySchema| p@,
                mapped(properties@, f) == properties_of(declared.take(i as int)),
                texts(required@) == required_names(declared.take(i as int)),
            decreases self.params.len() - i,
        {
            let p: &ParamDef = &self.params[i];
            let property: PropertySchema = p.property();
            proof {
                lemma_mapped_put(properties@, f, p.name@, property);
                assert(declared.take(i + 1).drop_last() =~= declared.take(i as int));
            }
            properties.insert(p.name.clone(), property);
            if p.required {
                let ghost before = texts(required@);
                required.push(p.name.clone());
                proof {
                    assert(texts(required@) =~= before.push(p.name@));
                }
            }
            i = i + 1;
        }
        proof {
            assert(declared.take(i as int) =~= declared);
            assert(property_views(properties@) =~= mapped(properties@, f));
        }
        let mut desc: String = self.description.clone();
        if self.privilege == Privilege::Root {
            desc.append(" [requires root]");
        }
        if self.needs_confirmation {
            desc.append(" [requires confirmation]");
        }
        proof {
            assert(desc@ =~= definition_of(self@).description);
        }
        ToolDefinition {
            name: self.name.clone(),
            description: desc,
            input_schema: InputSchema {
                schema_type: "object".to_owned(),
                properties,
                required,
            },
        }
    }

    fn privilege(&self) -> (r: Privilege) {
        self.privilege
    }

    fn ready(&self, params: &Table<Value>) -> (r: bool) {
        match self.check(params) {
            Some(_) => true,
            None => {
                let merged: Table<Value> = self.merged(params);
                let pp: Params<'_> = Params(&merged);
                match &self.command {
                    CommandSource::Template(_) => true,
                    CommandSource::Script(script) => script.inner.ready(&pp),
                    CommandSource::ReadFile(path) => path.inner.ready(&pp),
                    CommandSource::Direct(direct) => direct.inner.ready(&pp),
                }
            },
        }
    }

    fn invoke(&self, params: &Table<Value>) -> (r: Invocation) {
        self.plan(params).invocation
    }
}

// Laws

proof fn lemma_none_missing(params: Seq<ParamView>, args: Arguments, i: int)
    requires
        first_missing(params, args) is None,
        0 <= i < params.len(),
    ensures
        params[i].required ==> has_name(args, params[i].name),
    decreases params.len(),
{
    if i < params.len() - 1 {
        lemma_none_missing(params.drop_last(), args, i);
    }
}

proof fn lemma_no_objection(
    validators: Seq<(Seq<char>, AnyValidator)>,
    args: Arguments,
    i: int,
)
    requires
        first_objection(validators, args) is None,
        0 <= i < validators.len(),
    ensures
        lookup(args, validators[i].0) matches Some(value) ==> validators[i].1.inner.objection(
            value,
        ) is None,
    decreases validators.len(),
{
    if i < validators.len() - 1 {
        lemma_no_objection(validators.drop_last(), args, i);
    }
}

/// A shell tool runs a program or reads a file only where every required
/// argument is given and no validator objects to the argument it is for.
pub proof fn tool_acts_only_on_valid_arguments(m: ToolModel, args: Arguments)
    requires
        !(invocation(m, args) is Done),
    ensures
        forall|i: int|
            0 <= i < m.params.len() && (#[trigger] m.params[i]).required ==> has_name(
                args,
                m.params[i].name,
            ),
        forall|i: int|
            0 <= i < m.validators.len() ==> (lookup(args, (#[trigger] m.validators[i]).0) matches Some(
                value,
            ) ==> m.validators[i].1.inner.objection(value) is None),
{
    assert forall|i: int| 0 <= i < m.params.len() && (#[trigger] m.params[i]).required implies has_name(
        args,
        m.params[i].name,
    ) by {
        lemma_none_missing(m.params, args, i);
    }
    assert forall|i: int| 0 <= i < m.validators.len() implies (lookup(
        args,
        (#[trigger] m.validators[i]).0,
    ) matches Some(value) ==> m.validators[i].1.inner.objection(value) is None) by {
        lemma_no_objection(m.validators, args, i);
    }
}

/// A shell tool that refuses the arguments answers with an error and runs
/// nothing; one that does not refuse them acts.
pub proof fn refused_arguments_run_nothing(m: ToolModel, args: Arguments)
    requires
        m.command is Some,
    ensures
        refusal(m, args) matches Some(reason) ==> invocation(m, args) == InvocationView::Done(
            error_result(reason),
        ),
        refusal(m, args) is None ==> !(invocation(m, args) is Done),
{
}

/// An argument that was given is never replaced by a default.
pub proof fn default_never_overrides_an_argument(
    args: Arguments,
    params: Seq<ParamView>,
    name: Seq<char>,
)
    requires
        has_name(args, name),
    ensures
        has_name(with_defaults(args, params), name),
        lookup(with_defaults(args, params), name) == lookup(args, name),
    decreases params.len(),
{
    if params.len() > 0 {
        default_never_overrides_an_argument(args, params.drop_last(), name);
        let given = with_defaults(args, params.drop_last());
        if let Some(value) = params.last().default {
            if !has_name(given, params.last().name) {
                lemma_push_keeps(given, params.last().name, value, name);
            }
        }
    }
}

/// A parameter that has a default always has a value, and where neither an
/// argument nor an earlier parameter has its name, the value is the default.
pub proof fn every_default_is_filled_in(args: Arguments, params: Seq<ParamView>, i: int)
    requires
        0 <= i < params.len(),
        params[i].default is Some,
    ensures
        has_name(with_defaults(args, params), params[i].name),
        !has_name(args, params[i].name) && (forall|j: int|
            0 <= j < i ==> (#[trigger] params[j]).name != params[i].name) ==> lookup(
            with_defaults(args, params),
            params[i].name,
        ) == params[i].default,
    decreases params.len(),
{
    let p = params[i];
    let init = params.drop_last();
    let given = with_defaults(args, init);
    if i < params.len() - 1 {
        every_default_is_filled_in(args, init, i);
        assert((forall|j: int| 0 <= j < i ==> (#[trigger] params[j]).name != p.name) ==> (forall|
            j: int,
        |
            0 <= j < i ==> (#[trigger] init[j]).name != p.name));
        if let Some(value) = params.last().default {
            if !has_name(given, params.last().name) {
                lemma_push_keeps(given, params.last().name, value, p.name);
            }
        }
    } else if !has_name(given, p.name) {
        lemma_push_finds(given, p.name, p.default->0);
    } else if !has_name(args, p.name) && (forall|j: int|
        0 <= j < i ==> (#[trigger] params[j]).name != p.name) {
        assert(forall|j: int| 0 <= j < init.len() ==> (#[trigger] init[j]).name != p.name) by {
            assert(forall|j: int| 0 <= j < init.len() ==> init[j] == params[j]);
        }
        lemma_no_default_no_name(args, init, p.name);
    }
}

/// A name that no argument has, and no parameter with a default, is not among the
/// arguments with the defaults either.
pub proof fn lemma_no_default_no_name(args: Arguments, params: Seq<ParamView>, name: Seq<char>)
    requires
        !has_name(args, name),
        forall|j: int|
            0 <= j < params.len() && (#[trigger] params[j]).default is Some ==> params[j].name
                != name,
    ensures
        !has_name(with_defaults(args, params), name),
    decreases params.len(),
{
    if params.len() > 0 {
        let init = params.drop_last();
        assert(forall|j: int| 0 <= j < init.len() ==> init[j] == params[j]);
        lemma_no_default_no_name(args, init, name);
        let last = params[params.len() - 1];
        assert(last.default is Some ==> last.name != name);
    }
}

proof fn lemma_push_keeps(rows: Arguments, key: Seq<char>, value: Json, other: Seq<char>)
    requires
        has_name(rows, other),
    ensures
        has_name(rows.push((key, value)), other),
        lookup(rows.push((key, value)), other) == lookup(rows, other),
{
    let after = rows.push((key, value));
    lemma_index_of(rows, other);
    let k = index_of(rows, other);
    assert(first_at(after, other, k));
    lemma_lookup_first(after, other, k);
    lemma_lookup_first(rows, other, k);
}

proof fn lemma_push_finds(rows: Arguments, key: Seq<char>, value: Json)
    requires
        !has_name(rows, key),
    ensures
        has_name(rows.push((key, value)), key),
        lookup(rows.push((key, value)), key) == Some(value),
{
    let after = rows.push((key, value));
    assert(first_at(after, key, rows.len() as int));
    lemma_lookup_first(after, key, rows.len() as int);
}

/// A tool that needs root or a confirmation says so in its description.
pub proof fn root_and_confirmation_are_announced(m: ToolModel)
    ensures
        m.privilege == Privilege::Root ==> exists|i: int| #[trigger]
            occurs_at(definition_of(m).description, "[requires root]"@, i),
        m.needs_confirmation ==> exists|i: int| #[trigger]
            occurs_at(definition_of(m).description, "[requires confirmation]"@, i),
{
    let d = definition_of(m).description;
    reveal_strlit(" [requires root]");
    reveal_strlit("[requires root]");
    reveal_strlit(" [requires confirmation]");
    reveal_strlit("[requires confirmation]");
    let at = m.description.len() as int;
    if m.privilege == Privilege::Root {
        assert(d.subrange(at + 1, at + 16) =~= "[requires root]"@);
        assert(occurs_at(d, "[requires root]"@, at + 1));
    }
    if m.needs_confirmation {
        let after = if m.privilege == Privilege::Root {
            at + 16
        } else {
            at
        };
        assert(d.subrange(after + 1, after + 24) =~= "[requires confirmation]"@);
        assert(occurs_at(d, "[requires confirmation]"@, after + 1));
    }
}

/// What a root tool runs, it runs through `su -c`: either `su` itself is the
/// program, or a shell is given a line that hands a script to `su`.
pub proof fn root_tool_runs_through_su(m: ToolModel, args: Arguments, process: ProcessView)
    requires
        m.privilege == Privilege::Root,
        invocation(m, args) == InvocationView::Run(process),
    ensures
        process.args.len() == 2,
        process.args[0] == "-c"@,
        process.program == "su"@ || (process.program == "sh"@ && exists|script: Seq<char>|
            process.args[1] == #[trigger] root_line(script)),
{
    let merged = with_defaults(args, m.params);
    match m.command->0 {
        CommandSource::Template(template) => {
            let script = filled(template@, m.params, merged);
            assert(process.args[1] == root_line(script));
        },
        CommandSource::Script(script) => {
            assert(process.args[1] == root_line(script.inner.text(merged)));
        },
        _ => {},
    }
}

/// The reader after a template in which each slot adds the argument's text to the
/// word at its place.
pub open spec fn read_filled(
    r: Reader,
    template: Seq<char>,
    params: Seq<ParamView>,
    args: Arguments,
) -> Reader
    decreases template.len(),
{
    if template.len() == 0 {
        r
    } else {
        proof {
            lemma_front_slot(template, params, args);
        }
        match front_slot(template, params, args) {
            Some(name) => read_filled(
                Reader { word: r.word + argument_text(lookup(args, name)->0), ..r },
                template.skip(slot(name).len() as int),
                params,
                args,
            ),
            None => read_filled(read(r, template[0]), template.skip(1), params, args),
        }
    }
}

/// Whether every slot of a template stands outside of quotes and not behind a
/// backslash, for a reader that begins as `r`.
pub open spec fn slots_stand_free(
    r: Reader,
    template: Seq<char>,
    params: Seq<ParamView>,
    args: Arguments,
) -> bool
    decreases template.len(),
{
    if template.len() == 0 {
        true
    } else {
        proof {
            lemma_front_slot(template, params, args);
        }
        match front_slot(template, params, args) {
            Some(name) => r.quotes is Outside && !r.escaping && slots_stand_free(
                Reader { word: r.word + argument_text(lookup(args, name)->0), ..r },
                template.skip(slot(name).len() as int),
                params,
                args,
            ),
            None => slots_stand_free(read(r, template[0]), template.skip(1), params, args),
        }
    }
}

/// A template whose slots stand outside of quotes is read as it is written, with
/// the text of each argument added to the word at its place: whatever the
/// arguments are, none of their characters ends a word, opens quotes, escapes
/// what follows or stands for another argument.
pub proof fn template_arguments_are_read_whole(
    r: Reader,
    template: Seq<char>,
    params: Seq<ParamView>,
    args: Arguments,
)
    requires
        slots_stand_free(r, template, params, args),
    ensures
        read_all(r, filled(template, params, args)) == read_filled(r, template, params, args),
    decreases template.len(),
{
    if template.len() > 0 {
        lemma_front_slot(template, params, args);
        match front_slot(template, params, args) {
            Some(name) => {
                let text = argument_text(lookup(args, name)->0);
                let rest = template.skip(slot(name).len() as int);
                let after = Reader { word: r.word + text, ..r };
                escaped_text_stays_in_its_word(r, text);
                lemma_read_all_concat(r, escape(text), filled(rest, params, args));
                template_arguments_are_read_whole(after, rest, params, args);
            },
            None => {
                let first = seq![template[0]];
                let rest = template.skip(1);
                assert(first.drop_last() =~= Seq::<char>::empty());
                reveal_with_fuel(read_all, 2);
                assert(read_all(r, first) == read(r, template[0]));
                lemma_read_all_concat(r, first, filled(rest, params, args));
                template_arguments_are_read_whole(read(r, template[0]), rest, params, args);
            },
        }
    }
}

/// What a program that succeeded wrote is answered whole: all of its output where
/// there is any, and otherwise all that it wrote as errors, with a mark before it.
pub proof fn successful_output_is_answered_whole(
    status: Seq<char>,
    out: Seq<char>,
    err: Seq<char>,
)
    ensures
        ({
            let r = exit_result(true, status, out, err);
            &&& r.is_error is None
            &&& r.content.len() == 1
            &&& out.len() > 0 ==> r.content[0].text == out && r.content[0].text.len() == out.len()
            &&& out.len() == 0 && err.len() > 0 ==> r.content[0].text.len() == err.len() + 9
                && r.content[0].text.skip(9) == err && r.content[0].text.take(9) == "(stderr) "@
            &&& out.len() == 0 && err.len() == 0 ==> r.content[0].text.len() == 0
        }),
{
    reveal_strlit("(stderr) ");
    if out.len() == 0 && err.len() > 0 {
        let t = "(stderr) "@ + err;
        assert(t.skip(9) =~= err);
        assert(t.take(9) =~= "(stderr) "@);
    }
}

/// A program that failed is answered as an error that begins with its status and
/// goes on with all that it wrote, its errors first, and with nothing else.
pub proof fn failed_output_is_answered_whole(status: Seq<char>, out: Seq<char>, err: Seq<char>)
    ensures
        ({
            let r = exit_result(false, status, out, err);
            let begin = "exit code: "@ + status;
            let errors = "\nstderr: "@ + err;
            let output = "\nstdout: "@ + out;
            &&& r.is_error == Some(true)
            &&& r.content.len() == 1
            &&& err.len() > 0 && out.len() > 0 ==> r.content[0].text == begin + errors + output
            &&& err.len() > 0 && out.len() == 0 ==> r.content[0].text == begin + errors
            &&& err.len() == 0 && out.len() > 0 ==> r.content[0].text == begin + output
            &&& err.len() == 0 && out.len() == 0 ==> r.content[0].text == begin
        }),
{
    let t = exit_result(false, status, out, err).content[0].text;
    let begin = "exit code: "@ + status;
    if err.len() > 0 && out.len() == 0 {
        assert(t =~= begin + ("\nstderr: "@ + err));
    }
    if err.len() == 0 && out.len() > 0 {
        assert(t =~= begin + ("\nstdout: "@ + out));
    }
    if err.len() == 0 && out.len() == 0 {
        assert(t =~= begin);
    }
}

/// A program that was not started or ran out of time is answered as an error that
/// says why, with the reason or with the seconds that it was given.
pub proof fn programs_without_output_are_answered(reason: String, secs: u64)
    ensures
        output_result(Outcome::NotStarted { reason }, secs) == error_result(
            "failed to spawn: "@ + reason@,
        ),
        output_result(Outcome::TimedOut, secs) == error_result(
            "command timed out after "@ + decimal(secs as nat) + "s"@,
        ),
{
}

/// What a program wrote is answered as the text that its bytes are read as.
pub proof fn output_is_read_from_its_bytes(
    success: bool,
    status: String,
    stdout: Vec<u8>,
    stderr: Vec<u8>,
    secs: u64,
)
    ensures
        output_result(Outcome::Exited { success, status, stdout, stderr }, secs) == exit_result(
            success,
            status@,
            lossy_text(stdout@),
            lossy_text(stderr@),
        ),
{
}

/// A file is answered whole, and a file that cannot be read as an error that names
/// it and says why.
pub proof fn files_are_answered_whole(path: Seq<char>, text: String, reason: String)
    ensures
        read_result(path, Ok(text)).content.len() == 1,
        read_result(path, Ok(text)).content[0].text == text@,
        read_result(path, Ok(text)).is_error is None,
        read_result(path, Err(reason)) == error_result(
            "failed to read "@ + path + ": "@ + reason@,
        ),
{
}

/// An argument stands in a template as its own text where it is a string, and as
/// its JSON text where it is anything else: an integer as its decimal numeral, a
/// truth value as its word.
pub proof fn arguments_are_written_plainly(s: Seq<char>, n: u64, i: i64, b: bool, j: Json)
    ensures
        argument_text(Json::String(s)) == s,
        argument_text(Json::Number(JsonNumber::PosInt(n))) == decimal(n as nat),
        argument_text(Json::Number(JsonNumber::NegInt(i))) == decimal_int(i as int),
        argument_text(Json::Number(JsonNumber::Float(s))) == s,
        argument_text(Json::Bool(true)) == seq!['t', 'r', 'u', 'e'],
        argument_text(Json::Bool(false)) == seq!['f', 'a', 'l', 's', 'e'],
        !(j is String) ==> argument_text(j) == json_text(j),
{
    simple_values_are_written_plainly(n, i, b, s);
}

proof fn lemma_no_slot_without_brace(
    template: Seq<char>,
    params: Seq<ParamView>,
    args: Arguments,
)
    requires
        template.len() > 0,
        template[0] != '{',
    ensures
        front_slot(template, params, args) is None,
    decreases params.len(),
{
    if params.len() > 0 {
        lemma_no_slot_without_brace(template, params.drop_last(), args);
        let place = slot(params.last().name);
        if occurs_at(template, place, 0) {
            assert(template.subrange(0, place.len() as int)[0] == place[0]);
        }
    }
}

proof fn lemma_slot_is_found(
    template: Seq<char>,
    params: Seq<ParamView>,
    args: Arguments,
    k: int,
)
    requires
        0 <= k < params.len(),
        lookup(args, params[k].name) is Some,
        occurs_at(template, slot(params[k].name), 0),
    ensures
        front_slot(template, params, args) is Some,
    decreases params.len(),
{
    if k < params.len() - 1 {
        lemma_slot_is_found(template, params.drop_last(), args, k);
    }
}

proof fn lemma_front_slot_is_declared(
    template: Seq<char>,
    params: Seq<ParamView>,
    args: Arguments,
)
    ensures
        front_slot(template, params, args) matches Some(name) ==> exists|i: int|
            0 <= i < params.len() && (#[trigger] params[i]).name == name,
    decreases params.len(),
{
    if params.len() > 0 {
        lemma_front_slot_is_declared(template, params.drop_last(), args);
        if let Some(name) = front_slot(template, params.drop_last(), args) {
            let init = params.drop_last();
            let i = choose|i: int| 0 <= i < init.len() && (#[trigger] init[i]).name == name;
            assert(params[i].name == name);
        } else {
            assert(params[params.len() - 1] == params.last());
        }
    }
}

/// What stands in a template before the first brace is kept.
pub proof fn template_without_braces_is_kept(
    text: Seq<char>,
    rest: Seq<char>,
    params: Seq<ParamView>,
    args: Arguments,
)
    requires
        !text.contains('{'),
    ensures
        filled(text + rest, params, args) == text + filled(rest, params, args),
        filled(text, params, args) == text,
    decreases text.len(),
{
    if text.len() == 0 {
        assert(text + rest =~= rest);
        assert(text + filled(rest, params, args) =~= filled(rest, params, args));
    } else {
        let t = text + rest;
        let tail = text.skip(1);
        assert(text.contains(text[0]));
        if tail.contains('{') {
            let i = choose|i: int| 0 <= i < tail.len() && tail[i] == '{';
            assert(text[i + 1] == '{');
        }
        lemma_no_slot_without_brace(t, params, args);
        lemma_no_slot_without_brace(text, params, args);
        assert(t.skip(1) =~= tail + rest);
        template_without_braces_is_kept(tail, rest, params, args);
        assert(seq![text[0]] + (tail + filled(rest, params, args)) =~= text + filled(
            rest,
            params,
            args,
        ));
        assert(seq![text[0]] + tail =~= text);
    }
}

/// A slot of a parameter that has a value is replaced by the value's text, escaped
/// for the shell, and what follows it is filled in by itself.
pub proof fn slot_is_replaced_by_its_argument(
    k: int,
    rest: Seq<char>,
    params: Seq<ParamView>,
    args: Arguments,
    value: Json,
)
    requires
        0 <= k < params.len(),
        lookup(args, params[k].name) == Some(value),
        forall|i: int| 0 <= i < params.len() ==> !(#[trigger] params[i]).name.contains('}'),
    ensures
        filled(seq!['{'] + params[k].name + seq!['}'] + rest, params, args) == escape(
            argument_text(value),
        ) + filled(rest, params, args),
{
    let name = params[k].name;
    let place = slot(name);
    let t = seq!['{'] + name + seq!['}'] + rest;
    assert(t.subrange(0, place.len() as int) =~= place);
    lemma_slot_is_found(t, params, args, k);
    lemma_front_slot(t, params, args);
    lemma_front_slot_is_declared(t, params, args);
    let found = front_slot(t, params, args)->0;
    let i = choose|i: int| 0 <= i < params.len() && (#[trigger] params[i]).name == found;
    let other = slot(found);
    assert(t.subrange(0, other.len() as int) == other);
    let n = name.len() as int;
    let m = found.len() as int;
    assert(t[n + 1] == '}');
    assert(other[m + 1] == '}');
    assert(t.subrange(0, other.len() as int)[m + 1] == t[m + 1]);
    if m < n {
        assert(t[m + 1] == name[m]);
        assert(name.contains('}'));
    }
    if n < m {
        assert(t.subrange(0, other.len() as int)[n + 1] == t[n + 1]);
        assert(other[n + 1] == found[n]);
        assert(found.contains('}'));
    }
    assert forall|j: int| 0 <= j < n implies found[j] == name[j] by {
        assert(t.subrange(0, other.len() as int)[j + 1] == t[j + 1]);
        assert(other[j + 1] == found[j]);
        assert(t[j + 1] == name[j]);
    }
    assert(found =~= name);
    assert(t.skip(place.len() as int) =~= rest);
}

/// A brace at which no slot of a parameter with a value stands is kept.
pub proof fn brace_without_a_slot_is_kept(
    rest: Seq<char>,
    params: Seq<ParamView>,
    args: Arguments,
)
    requires
        forall|i: int|
            0 <= i < params.len() && lookup(args, (#[trigger] params[i]).name) is Some
                ==> !occurs_at(
                seq!['{'] + rest,
                seq!['{'] + params[i].name + seq!['}'],
                0,
            ),
    ensures
        filled(seq!['{'] + rest, params, args) == seq!['{'] + filled(rest, params, args),
{
    let t = seq!['{'] + rest;
    lemma_front_slot(t, params, args);
    lemma_front_slot_is_declared(t, params, args);
    if let Some(found) = front_slot(t, params, args) {
        let i = choose|i: int| 0 <= i < params.len() && (#[trigger] params[i]).name == found;
        assert(slot(found) =~= seq!['{'] + params[i].name + seq!['}']);
    }
    assert(t.skip(1) =~= rest);
}

proof fn lemma_nothing_missing(params: Seq<ParamView>, args: Arguments)
    requires
        forall|i: int|
            0 <= i < params.len() && (#[trigger] params[i]).required ==> has_name(
                args,
                params[i].name,
            ),
    ensures
        first_missing(params, args) is None,
    decreases params.len(),
{
    if params.len() > 0 {
        let init = params.drop_last();
        assert(forall|i: int| 0 <= i < init.len() ==> init[i] == params[i]);
        lemma_nothing_missing(init, args);
        assert(params[params.len() - 1] == params.last());
    }
}

proof fn lemma_nothing_objected(validators: Seq<(Seq<char>, AnyValidator)>, args: Arguments)
    requires
        forall|i: int|
            0 <= i < validators.len() ==> (lookup(args, (#[trigger] validators[i]).0) matches Some(
                value,
            ) ==> validators[i].1.inner.objection(value) is None),
    ensures
        first_objection(validators, args) is None,
    decreases validators.len(),
{
    if validators.len() > 0 {
        let init = validators.drop_last();
        assert(forall|i: int| 0 <= i < init.len() ==> init[i] == validators[i]);
        lemma_nothing_objected(init, args);
        assert(validators[validators.len() - 1] == validators.last());
    }
}

/// A tool acts on every call that gives the required arguments and to whose
/// arguments no validator objects.
pub proof fn tool_acts_on_all_valid_arguments(m: ToolModel, args: Arguments)
    requires
        m.command is Some,
        forall|i: int|
            0 <= i < m.params.len() && (#[trigger] m.params[i]).required ==> has_name(
                args,
                m.params[i].name,
            ),
        forall|i: int|
            0 <= i < m.validators.len() ==> (lookup(args, (#[trigger] m.validators[i]).0) matches Some(
                value,
            ) ==> m.validators[i].1.inner.objection(value) is None),
    ensures
        refusal(m, args) is None,
        !(invocation(m, args) is Done),
{
    lemma_nothing_missing(m.params, args);
    lemma_nothing_objected(m.validators, args);
}

proof fn lemma_first_missing_is(params: Seq<ParamView>, args: Arguments, k: int)
    requires
        0 <= k < params.len(),
        params[k].required,
        !has_name(args, params[k].name),
        forall|i: int|
            0 <= i < k && (#[trigger] params[i]).required ==> has_name(args, params[i].name),
    ensures
        first_missing(params, args) == Some(params[k].name),
    decreases params.len(),
{
    let init = params.drop_last();
    assert(forall|i: int| 0 <= i < init.len() ==> init[i] == params[i]);
    if k < params.len() - 1 {
        lemma_first_missing_is(init, args, k);
    } else {
        lemma_nothing_missing(init, args);
    }
}

/// Of the required arguments that are left out, the tool names the first, in the
/// order of the parameters, and says nothing of the validators.
pub proof fn first_missing_argument_is_named(m: ToolModel, args: Arguments, k: int)
    requires
        0 <= k < m.params.len(),
        m.params[k].required,
        !has_name(args, m.params[k].name),
        forall|i: int|
            0 <= i < k && (#[trigger] m.params[i]).required ==> has_name(args, m.params[i].name),
    ensures
        invocation(m, args) == InvocationView::Done(
            error_result("missing required parameter: "@ + m.params[k].name),
        ),
{
    lemma_first_missing_is(m.params, args, k);
}

proof fn lemma_first_objection_is(
    validators: Seq<(Seq<char>, AnyValidator)>,
    args: Arguments,
    k: int,
    value: Json,
    reason: Seq<char>,
)
    requires
        0 <= k < validators.len(),
        lookup(args, validators[k].0) == Some(value),
        validators[k].1.inner.objection(value) == Some(reason),
        forall|i: int|
            0 <= i < k ==> (lookup(args, (#[trigger] validators[i]).0) matches Some(v)
                ==> validators[i].1.inner.objection(v) is None),
    ensures
        first_objection(validators, args) == Some((validators[k].0, reason)),
    decreases validators.len(),
{
    let init = validators.drop_last();
    assert(forall|i: int| 0 <= i < init.len() ==> init[i] == validators[i]);
    if k < validators.len() - 1 {
        lemma_first_objection_is(init, args, k, value, reason);
    } else {
        lemma_nothing_objected(init, args);
    }
}

/// Where nothing is left out, the objection of a validator is answered, with the
/// name of the argument.
pub proof fn objection_is_answered(
    m: ToolModel,
    args: Arguments,
    k: int,
    value: Json,
    reason: Seq<char>,
)
    requires
        forall|i: int|
            0 <= i < m.params.len() && (#[trigger] m.params[i]).required ==> has_name(
                args,
                m.params[i].name,
            ),
        0 <= k < m.validators.len(),
        lookup(args, m.validators[k].0) == Some(value),
        m.validators[k].1.inner.objection(value) == Some(reason),
        forall|i: int|
            0 <= i < k ==> (lookup(args, (#[trigger] m.validators[i]).0) matches Some(v)
                ==> m.validators[i].1.inner.objection(v) is None),
    ensures
        invocation(m, args) == InvocationView::Done(
            error_result("validation failed for '"@ + m.validators[k].0 + "': "@ + reason),
        ),
{
    lemma_nothing_missing(m.params, args);
    lemma_first_objection_is(m.validators, args, k, value, reason);
}

/// A name among the arguments with the defaults is that of an argument, or of a
/// parameter that has a default.
pub proof fn defaults_add_declared_names_only(
    args: Arguments,
    params: Seq<ParamView>,
    name: Seq<char>,
)
    requires
        has_name(with_defaults(args, params), name),
    ensures
        has_name(args, name) || exists|i: int|
            0 <= i < params.len() && (#[trigger] params[i]).name == name && params[i].default is Some,
{
    if !has_name(args, name) && forall|i: int|
        0 <= i < params.len() && (#[trigger] params[i]).default is Some ==> params[i].name != name {
        lemma_no_default_no_name(args, params, name);
    }
}

/// A script runs in a shell as it was made, within the tool's time; as root, the
/// shell is given a line that hands the script to `su` as one word.
pub proof fn script_is_run_whole(m: ToolModel, args: Arguments, script: AnyScript)
    requires
        m.command == Some(CommandSource::Script(script)),
        refusal(m, args) is None,
        script.inner.text(with_defaults(args, m.params)).len() > 0,
    ensures
        ({
            let text = script.inner.text(with_defaults(args, m.params));
            invocation(m, args) matches InvocationView::Run(p) && {
                &&& p.program == "sh"@
                &&& p.args.len() == 2
                &&& p.args[0] == "-c"@
                &&& m.privilege == Privilege::User ==> p.args[1] == text
                &&& m.privilege == Privilege::Root ==> words_of(p.args[1]) == seq![
                    "su"@,
                    "-c"@,
                    text,
                ]
                &&& p.timeout_secs == m.timeout_secs
            }
        }),
{
    root_line_hands_over_the_whole_command(script.inner.text(with_defaults(args, m.params)));
}

/// A template runs in a shell with the arguments and the defaults in place, within
/// the tool's time; as root, the shell is given a line that hands it to `su` as
/// one word.
pub proof fn template_is_run_whole(m: ToolModel, args: Arguments, template: String)
    requires
        m.command == Some(CommandSource::Template(template)),
        refusal(m, args) is None,
        filled(template@, m.params, with_defaults(args, m.params)).len() > 0,
    ensures
        ({
            let text = filled(template@, m.params, with_defaults(args, m.params));
            invocation(m, args) matches InvocationView::Run(p) && {
                &&& p.program == "sh"@
                &&& p.args.len() == 2
                &&& p.args[0] == "-c"@
                &&& m.privilege == Privilege::User ==> p.args[1] == text
                &&& m.privilege == Privilege::Root ==> words_of(p.args[1]) == seq![
                    "su"@,
                    "-c"@,
                    text,
                ]
                &&& p.timeout_secs == m.timeout_secs
            }
        }),
{
    root_line_hands_over_the_whole_command(
        filled(template@, m.params, with_defaults(args, m.params)),
    );
}

/// A file is read at the path that was made, with the arguments and the defaults.
pub proof fn path_is_read_as_it_was_made(m: ToolModel, args: Arguments, path: AnyScript)
    requires
        m.command == Some(CommandSource::ReadFile(path)),
        refusal(m, args) is None,
    ensures
        invocation(m, args) == InvocationView::Read(
            path.inner.text(with_defaults(args, m.params)),
        ),
{
}

/// A program runs without a shell with exactly the arguments that were made; as
/// root, `su` is given a line that is read as the program and those arguments.
pub proof fn program_is_run_with_its_arguments(
    m: ToolModel,
    args: Arguments,
    direct: AnyDirect,
)
    requires
        m.command == Some(CommandSource::Direct(direct)),
        refusal(m, args) is None,
        direct.inner.binary(with_defaults(args, m.params)).len() > 0,
        all_plain(direct.inner.binary(with_defaults(args, m.params))),
        forall|i: int|
            0 <= i < direct.inner.argv(with_defaults(args, m.params)).len() ==> (
            #[trigger] direct.inner.argv(with_defaults(args, m.params))[i]).len() > 0,
    ensures
        ({
            let binary = direct.inner.binary(with_defaults(args, m.params));
            let argv = direct.inner.argv(with_defaults(args, m.params));
            invocation(m, args) matches InvocationView::Run(p) && {
                &&& m.privilege == Privilege::User ==> p.program == binary && p.args == argv
                &&& m.privilege == Privilege::Root ==> p.program == "su"@ && p.args.len() == 2
                    && p.args[0] == "-c"@ && words_of(p.args[1]) == seq![binary] + argv
                &&& p.timeout_secs == m.timeout_secs
            }
        }),
{
    let merged = with_defaults(args, m.params);
    command_line_keeps_every_argument(direct.inner.binary(merged), direct.inner.argv(merged));
}

/// The subcommand is the first argument that does not begin with a hyphen,
/// whatever stands before and after it, and there is none where all begin so.
pub proof fn subcommand_is_the_first_that_is_no_option(
    options: Seq<Seq<char>>,
    sub: Seq<char>,
    rest: Seq<Seq<char>>,
)
    requires
        forall|i: int|
            0 <= i < options.len() ==> (#[trigger] options[i]).len() > 0 && options[i][0] == '-',
        sub.len() > 0 ==> sub[0] != '-',
    ensures
        first_positional(options + seq![sub] + rest) == Some(sub),
        first_positional(options) is None,
    decreases options.len(),
{
    let all = options + seq![sub] + rest;
    if options.len() > 0 {
        let tail = options.skip(1);
        assert(forall|i: int| 0 <= i < tail.len() ==> tail[i] == options[i + 1]);
        assert(all[0] == options[0]);
        assert(all.skip(1) =~= tail + seq![sub] + rest);
        subcommand_is_the_first_that_is_no_option(tail, sub, rest);
    } else {
        assert(all[0] == sub);
    }
}

/// A call of a tool that runs a program without a shell names the subcommand that
/// the program is run with; any other tool names none.
pub proof fn subcommand_is_taken_from_what_runs(m: ToolModel, args: Arguments)
    requires
        m.command is Some,
    ensures
        m.command->0 matches CommandSource::Direct(direct) ==> refusal(m, args) is None
            ==> subcommand_of(m, args) == first_positional(
            direct.inner.argv(with_defaults(args, m.params)),
        ),
        !(m.command->0 is Direct) ==> subcommand_of(m, args) is None,
        refusal(m, args) is Some ==> subcommand_of(m, args) is None,
{
}

proof fn lemma_required_names(params: Seq<ParamView>, name: Seq<char>)
    ensures
        required_names(params).contains(name) <==> exists|i: int|
            0 <= i < params.len() && (#[trigger] params[i]).required && params[i].name == name,
    decreases params.len(),
{
    if params.len() > 0 {
        let init = params.drop_last();
        let before = required_names(init);
        let after = required_names(params);
        lemma_required_names(init, name);
        assert(params[params.len() - 1] == params.last());
        assert(forall|i: int| 0 <= i < init.len() ==> init[i] == params[i]);
        if before.contains(name) {
            let k = choose|k: int| 0 <= k < before.len() && before[k] == name;
            assert(after[k] == name);
            let i = choose|i: int|
                0 <= i < init.len() && (#[trigger] init[i]).required && init[i].name == name;
            assert(params[i].required && params[i].name == name);
        }
        if params.last().required {
            assert(after[after.len() - 1] == params.last().name);
        }
        if after.contains(name) && !before.contains(name) {
            let k = choose|k: int| 0 <= k < after.len() && after[k] == name;
            if k < before.len() {
                assert(before[k] == name);
            }
        }
        if exists|i: int|
            0 <= i < params.len() && (#[trigger] params[i]).required && params[i].name == name {
            let i = choose|i: int|
                0 <= i < params.len() && (#[trigger] params[i]).required && params[i].name == name;
            if i < init.len() {
                assert(init[i].required && init[i].name == name);
            }
        }
    }
}

/// The schema that a tool announces lists a name as required exactly where a
/// parameter of that name is required, and has such a list exactly where any
/// parameter is.
pub proof fn announced_schema_lists_the_required(m: ToolModel, name: Seq<char>)
    ensures
        ({
            let schema = json_member(definition_json(definition_of(m)), "inputSchema"@)->0;
            &&& json_member(schema, "required"@) is Some <==> exists|i: int|
                0 <= i < m.params.len() && (#[trigger] m.params[i]).required
            &&& json_member(schema, "required"@) is Some ==> (json_member(
                schema,
                "required"@,
            ) matches Some(Json::Array(items)) && (items.contains(Json::String(name)) <==> exists|
                i: int,
            |
                0 <= i < m.params.len() && (#[trigger] m.params[i]).required && m.params[i].name
                    == name))
        }),
{
    let d = definition_of(m);
    definition_has_its_members(d);
    schema_has_its_members(d.schema_type, d.properties, d.required);
    lemma_required_names(m.params, name);
    if d.required.len() > 0 {
        let first = d.required[0];
        lemma_required_names(m.params, first);
        assert(d.required.contains(first));
        let schema = json_member(definition_json(d), "inputSchema"@)->0;
        let items = json_member(schema, "required"@)->0->Array_0;
        if d.required.contains(name) {
            let k = choose|k: int| 0 <= k < d.required.len() && d.required[k] == name;
            assert(items[k] == Json::String(name));
        }
        if items.contains(Json::String(name)) {
            let k = choose|k: int| 0 <= k < items.len() && items[k] == Json::String(name);
            assert(d.required[k] == name);
        }
    } else {
        if exists|i: int| 0 <= i < m.params.len() && (#[trigger] m.params[i]).required {
            let i = choose|i: int| 0 <= i < m.params.len() && (#[trigger] m.params[i]).required;
            lemma_required_names(m.params, m.params[i].name);
        }
    }
}

proof fn lemma_properties(params: Seq<ParamView>, k: int, name: Seq<char>)
    ensures
        has_name(properties_of(params), name) <==> exists|i: int|
            0 <= i < params.len() && (#[trigger] params[i]).name == name,
        0 <= k < params.len() && (forall|j: int|
            k < j < params.len() ==> (#[trigger] params[j]).name != params[k].name) ==> lookup(
            properties_of(params),
            params[k].name,
        ) == Some(property_of(params[k])),
    decreases params.len(),
{
    if params.len() > 0 {
        let init = params.drop_last();
        let last = params.last();
        assert(forall|i: int| 0 <= i < init.len() ==> init[i] == params[i]);
        assert(params[params.len() - 1] == last);
        lemma_properties(init, k, name);
        put_changes_one_name(properties_of(init), last.name, property_of(last), name);
        if exists|i: int| 0 <= i < init.len() && (#[trigger] init[i]).name == name {
            let i = choose|i: int| 0 <= i < init.len() && (#[trigger] init[i]).name == name;
            assert(params[i].name == name);
        }
        if exists|i: int| 0 <= i < params.len() && (#[trigger] params[i]).name == name {
            let i = choose|i: int| 0 <= i < params.len() && (#[trigger] params[i]).name == name;
            if i < init.len() {
                assert(init[i].name == name);
            }
        }
        if 0 <= k < params.len() && forall|j: int|
            k < j < params.len() ==> (#[trigger] params[j]).name != params[k].name {
            if k < init.len() {
                assert(params[params.len() - 1].name != params[k].name);
                assert(forall|j: int| k < j < init.len() ==> (#[trigger] init[j]).name != init[k].name);
            }
            put_changes_one_name(
                properties_of(init),
                last.name,
                property_of(last),
                params[k].name,
            );
        }
    }
}

/// The schema that a tool announces describes each parameter under its name, by
/// its type, its description, its default and the values it is limited to; of two
/// parameters of one name, the later one.
pub proof fn announced_schema_describes_each_parameter(m: ToolModel, k: int)
    requires
        0 <= k < m.params.len(),
        forall|j: int|
            k < j < m.params.len() ==> (#[trigger] m.params[j]).name != m.params[k].name,
    ensures
        ({
            let p = m.params[k];
            let d = definition_of(m);
            lookup(d.properties, p.name) matches Some(property) && {
                let json = property_json(property);
                &&& json_member(json, "description"@) == Some(Json::String(p.description))
                &&& json_member(json, "default"@) == p.default
                &&& p.param_type == ParamType::String ==> json_member(json, "type"@) == Some(
                    Json::String("string"@),
                )
                &&& p.param_type == ParamType::Integer ==> json_member(json, "type"@) == Some(
                    Json::String("integer"@),
                )
                &&& p.param_type == ParamType::Boolean ==> json_member(json, "type"@) == Some(
                    Json::String("boolean"@),
                )
                &&& json_member(json, "enum"@) is Some <==> p.enum_values is Some
                &&& p.enum_values matches Some(list) ==> (json_member(json, "enum"@) matches Some(
                    Json::Array(items),
                ) && items.len() == list.len() && forall|i: int|
                    0 <= i < items.len() ==> (#[trigger] items[i]) == Json::String(list[i]))
            }
        }),
{
    lemma_properties(m.params, k, m.params[k].name);
    property_has_its_members(property_of(m.params[k]));
}

/// A tool announces its own name, a schema of an object, a property for each of
/// its parameters and for nothing else, and its description with the marks for
/// root and for a confirmation after it exactly where it needs them.
pub proof fn tool_announces_what_it_is(m: ToolModel, name: Seq<char>)
    ensures
        ({
            let d = definition_of(m);
            let marks = d.description.skip(m.description.len() as int);
            &&& d.name == m.name
            &&& d.schema_type == "object"@
            &&& has_name(d.properties, name) <==> exists|i: int|
                0 <= i < m.params.len() && (#[trigger] m.params[i]).name == name
            &&& m.description.is_prefix_of(d.description)
            &&& m.privilege == Privilege::User && !m.needs_confirmation ==> marks.len() == 0
            &&& m.privilege == Privilege::Root && !m.needs_confirmation ==> marks
                == " [requires root]"@
            &&& m.privilege == Privilege::User && m.needs_confirmation ==> marks
                == " [requires confirmation]"@
            &&& m.privilege == Privilege::Root && m.needs_confirmation ==> marks
                == " [requires root]"@ + " [requires confirmation]"@
        }),
{
    let d = definition_of(m);
    let marks = d.description.skip(m.description.len() as int);
    lemma_properties(m.params, 0, name);
    let root = if m.privilege == Privilege::Root {
        " [requires root]"@
    } else {
        Seq::empty()
    };
    let confirm = if m.needs_confirmation {
        " [requires confirmation]"@
    } else {
        Seq::empty()
    };
    assert(d.description =~= m.description + (root + confirm));
    assert(marks =~= root + confirm);
    assert(m.description =~= d.description.take(m.description.len() as int));
    assert(root + Seq::<char>::empty() =~= root);
    assert(Seq::<char>::empty() + confirm =~= confirm);
}

/// A tool that is begun has its name and nothing else: it runs as the user, needs
/// no confirmation, and has 30 seconds.
pub proof fn tool_begins_bare(name: Seq<char>)
    ensures
        bare_tool(name).name == name,
        bare_tool(name).description.len() == 0,
        bare_tool(name).params.len() == 0,
        bare_tool(name).privilege == Privilege::User,
        !bare_tool(name).needs_confirmation,
        bare_tool(name).command is None,
        bare_tool(name).validators.len() == 0,
        bare_tool(name).timeout_secs == 30,
{
}

/// A default is given to the parameter that was added last, and changes nothing
/// else of it and nothing of the others.
pub proof fn default_is_given_to_the_last_parameter(
    params: Seq<ParamView>,
    p: ParamView,
    value: Json,
)
    ensures
        default_last(params.push(p), value).len() == params.len() + 1,
        default_last(params.push(p), value).drop_last() == params,
        default_last(params.push(p), value).last() == (ParamView { default: Some(value), ..p }),
        default_last(Seq::empty(), value).len() == 0,
{
    assert(params.push(p).drop_last() =~= params);
    assert(default_last(params.push(p), value).drop_last() =~= params);
}

/// A call can be made wherever the tool refuses it or its command can be built
/// from the arguments and the defaults; a template always can.
pub proof fn tool_takes_what_its_command_takes(m: ToolModel, args: Arguments)
    requires
        m.command is Some,
    ensures
        refusal(m, args) is Some ==> tool_accepts(m, args),
        m.command->0 is Template ==> tool_accepts(m, args),
        m.command->0 matches CommandSource::Script(s) ==> s.inner.accepts(
            with_defaults(args, m.params),
        ) ==> tool_accepts(m, args),
        m.command->0 matches CommandSource::ReadFile(s) ==> s.inner.accepts(
            with_defaults(args, m.params),
        ) ==> tool_accepts(m, args),
        m.command->0 matches CommandSource::Direct(d) ==> d.inner.accepts(
            with_defaults(args, m.params),
        ) ==> tool_accepts(m, args),
{
}

/// What is to be run or read is shown as what it holds.
pub proof fn invocations_are_shown_as_they_are(p: Process, f: FileRead, result: ToolResult)
    ensures
        p@.program == p.program@,
        p@.args == texts(p.args@),
        p@.timeout_secs == p.timeout_secs,
        Invocation::Run(p)@ == InvocationView::Run(p@),
        Invocation::Read(f)@ == InvocationView::Read(f.path@),
        Invocation::Done(result)@ == InvocationView::Done(result@),
{
}

} // verus!
