//! Tools that are declared in a file: each hands its arguments to one program,
//! and shows that program's own help text.

use vstd::prelude::*;
use crate::json::{Json, Value};
use crate::params::{string_arg, Arguments, ParamType, ParamView, Params};
use crate::plugin::Plugin;
use crate::policy::{LoadError, Privilege};
use crate::registry::{under_their_names, RegisteredTool, RegistryView, ToolRegistry};
use crate::shell::{
    all_plain, command_line_keeps_every_argument, escape, escaped_words_are_read_back, shlex_split,
    words_are_not_empty, words_of,
};
use crate::table::{distinct, has_name, lookup, put_changes_one_name};
use crate::text::{
    chars_of, copied, decodes, first_chars, from_utf8_lossy, is_white_space, join, leading,
    lossy_text, occurs_at, optional_text, same, texts, trim, trimmed,
    trimming_takes_white_space_from_the_ends,
};
use crate::tools::{
    default_never_overrides_an_argument, definition_of, every_default_is_filled_in, first_missing,
    invocation, subcommand_of, with_defaults, AnyDirect, CommandSource, Direct,
    InvocationView, Process, ProcessView, ShellTool, ShellToolBuilder, ToolModel,
};

verus! {

/// A manifest file.
#[derive(Debug)]
pub struct Manifest {
    pub tool: Vec<ManifestTool>,
}

/// One tool of a manifest: a program that is offered as a tool.
#[derive(Debug)]
pub struct ManifestTool {
    /// The name by which the tool is called.
    pub name: String,
    /// The path or the name of the program.
    pub binary: String,
    /// The arguments that make the program print its help text. With none, the
    /// program is not asked and `fallback_help` is used.
    pub help_args: Vec<String>,
    /// One line that is shown before the help text.
    pub synopsis: String,
    /// "user" or "root".
    pub privilege: String,
    /// Whether the agent should confirm with the user before it calls the tool.
    pub confirm: bool,
    /// How long the program may run, in seconds.
    pub timeout: u64,
    /// A subcommand that is put before the arguments.
    pub subcommand: Option<String>,
    /// The help text where the program gives none, or is missing.
    pub fallback_help: Option<String>,
    /// How many characters of the help text are shown at most.
    pub max_help_chars: usize,
}

/// What a [`ManifestTool`] says.
pub struct EntryView {
    pub name: Seq<char>,
    pub binary: Seq<char>,
    pub help_args: Seq<Seq<char>>,
    pub synopsis: Seq<char>,
    pub privilege: Seq<char>,
    pub confirm: bool,
    pub timeout: u64,
    pub subcommand: Option<Seq<char>>,
    pub fallback_help: Option<Seq<char>>,
    pub max_help_chars: nat,
}

impl View for ManifestTool {
    type V = EntryView;

    open spec fn view(&self) -> EntryView {
        EntryView {
            name: self.name@,
            binary: self.binary@,
            help_args: texts(self.help_args@),
            synopsis: self.synopsis@,
            privilege: self.privilege@,
            confirm: self.confirm,
            timeout: self.timeout,
            subcommand: optional_text(self.subcommand),
            fallback_help: optional_text(self.fallback_help),
            max_help_chars: self.max_help_chars as nat,
        }
    }
}

/// The privilege of an entry that names none.
pub fn default_privilege() -> (r: String)
    ensures
        r@ == "user"@,
{
    "user".to_owned()
}

/// The timeout of an entry that names none.
pub fn default_timeout() -> (r: u64)
    ensures
        r == 30,
{
    30
}

/// The limit on the help text of an entry that names none.
pub fn default_max_help() -> (r: usize)
    ensures
        r == 2000,
{
    2000
}

// Help texts

/// What a program wrote when it was asked for its help text.
#[derive(Debug)]
pub struct HelpOutput {
    pub stdout: Vec<u8>,
    pub stderr: Vec<u8>,
}

/// A text of at most `max` characters, or the first `max` and a mark.
pub open spec fn clipped(text: Seq<char>, max: nat) -> Seq<char> {
    if text.len() > max {
        first_chars(text, max) + "\n[... truncated]"@
    } else {
        text
    }
}

/// The fallback of an entry, where it has one.
pub open spec fn fallback_of(entry: EntryView) -> Option<Seq<char>> {
    match entry.fallback_help {
        Some(help) => Some(clipped(help, entry.max_help_chars)),
        None => None,
    }
}

/// The help text of a program that wrote `out` and `err`: the first of the two
/// that is not blank, or the fallback.
pub open spec fn help_of(entry: EntryView, out: Seq<char>, err: Seq<char>) -> Option<Seq<char>> {
    if trim(out).len() > 0 {
        Some(clipped(out, entry.max_help_chars))
    } else if trim(err).len() > 0 {
        Some(clipped(err, entry.max_help_chars))
    } else {
        fallback_of(entry)
    }
}

/// The help text of an entry. The program is asked only where the entry says
/// how; where it was not asked, could not be run or did not end in time, the
/// fallback stands.
pub open spec fn help_text(entry: EntryView, output: Option<HelpOutput>) -> Option<Seq<char>> {
    match output {
        Some(output) if entry.help_args.len() > 0 => help_of(
            entry,
            lossy_text(output.stdout@),
            lossy_text(output.stderr@),
        ),
        _ => fallback_of(entry),
    }
}

/// What is known of the texts that are read from what a program wrote.
pub open spec fn output_decodes(output: Option<HelpOutput>) -> bool {
    output matches Some(output) ==> decodes(output.stdout@) && decodes(output.stderr@)
}

fn clip(text: &str, max: usize) -> (r: String)
    ensures
        r@ == clipped(text@, max as nat),
{
    if chars_of(text).len() > max {
        leading(text, max).concat("\n[... truncated]")
    } else {
        text.to_owned()
    }
}

fn copy_text(s: &Option<String>) -> (r: Option<String>)
    ensures
        optional_text(r) == optional_text(*s),
{
    match s {
        Some(s) => Some(s.clone()),
        None => None,
    }
}

impl ManifestTool {
    /// The program that tells whether the entry's program can be found, with its
    /// arguments: it succeeds where it can.
    pub fn presence_check(&self) -> (r: (String, Vec<String>))
        ensures
            r.0@ == "which"@,
            texts(r.1@) == seq![self@.binary],
    {
        let mut args: Vec<String> = Vec::new();
        args.push(self.binary.clone());
        proof {
            assert(texts(args@) =~= seq![self@.binary]);
        }
        ("which".to_owned(), args)
    }

    /// The program to ask for the help text, where it is to be asked.
    pub fn help_process(&self) -> (r: Option<Process>)
        ensures
            match r {
                Some(p) => self@.help_args.len() > 0 && p@ == (ProcessView {
                    program: self@.binary,
                    args: self@.help_args,
                    timeout_secs: 5,
                }),
                None => self@.help_args.len() == 0,
            },
    {
        if self.help_args.len() == 0 {
            None
        } else {
            Some(
                Process {
                    program: self.binary.clone(),
                    args: copied(&self.help_args),
                    timeout_secs: 5,
                },
            )
        }
    }

    /// The help text of a program that wrote `out` and `err`.
    pub fn help_from(&self, out: &str, err: &str) -> (r: Option<String>)
        ensures
            optional_text(r) == help_of(self@, out@, err@),
    {
        if !trimmed(out).as_str().is_empty() {
            Some(clip(out, self.max_help_chars))
        } else if !trimmed(err).as_str().is_empty() {
            Some(clip(err, self.max_help_chars))
        } else {
            self.fallback()
        }
    }

    /// The fallback, where there is one.
    fn fallback(&self) -> (r: Option<String>)
        ensures
            optional_text(r) == fallback_of(self@),
    {
        match &self.fallback_help {
            Some(help) => Some(clip(help, self.max_help_chars)),
            None => None,
        }
    }
}

/// The help text of an entry, with what the program wrote where it was asked.
pub fn scrape_help(def: &ManifestTool, output: &Option<HelpOutput>) -> (r: Option<String>)
    ensures
        optional_text(r) == help_text(def@, *output),
        def@.help_args.len() > 0 ==> output_decodes(*output),
{
    if def.help_args.len() == 0 {
        return def.fallback();
    }
    match output {
        Some(output) => {
            let out: String = from_utf8_lossy(&output.stdout);
            let err: String = from_utf8_lossy(&output.stderr);
            def.help_from(&out, &err)
        },
        None => def.fallback(),
    }
}

// The tool of an entry

/// What stands before the arguments of every call.
pub open spec fn fixed_argv(subcommand: Option<Seq<char>>) -> Seq<Seq<char>> {
    match subcommand {
        Some(sub) => seq![sub],
        None => Seq::empty(),
    }
}

/// The arguments of the program: the subcommand, and the words of the argument
/// `args`.
pub open spec fn entry_argv(subcommand: Option<Seq<char>>, args: Arguments) -> Seq<Seq<char>> {
    fixed_argv(subcommand) + (match string_arg(args, "args"@) {
        Some(line) => words_of(line),
        None => Seq::empty(),
    })
}

/// Runs the program of an entry.
pub struct EntryProgram {
    pub binary: String,
    pub subcommand: Option<String>,
}

impl Direct for EntryProgram {
    open spec fn accepts(&self, args: Arguments) -> bool {
        true
    }

    open spec fn binary(&self, args: Arguments) -> Seq<char> {
        self.binary@
    }

    open spec fn argv(&self, args: Arguments) -> Seq<Seq<char>> {
        entry_argv(optional_text(self.subcommand), args)
    }

    fn ready(&self, params: &Params<'_>) -> (r: bool) {
        true
    }

    fn build(&self, params: &Params<'_>) -> (r: (String, Vec<String>)) {
        let mut argv: Vec<String> = Vec::new();
        if let Some(sub) = &self.subcommand {
            argv.push(sub.clone());
        }
        proof {
            assert(texts(argv@) =~= fixed_argv(optional_text(self.subcommand)));
        }
        proof {
            reveal_strlit("");
        }
        let line: &str = params.str_or("args", "");
        if !line.is_empty() {
            let mut words: Vec<String> = shlex_split(line);
            let ghost before = argv@;
            let ghost more = words@;
            argv.append(&mut words);
            proof {
                assert(texts(argv@) =~= texts(before) + texts(more));
            }
        } else {
            proof {
                assert(line@ =~= Seq::<char>::empty());
                assert(words_of(line@) =~= Seq::<Seq<char>>::empty());
            }
        }
        proof {
            assert(texts(argv@) =~= entry_argv(optional_text(self.subcommand), params@));
        }
        (self.binary.clone(), argv)
    }
}

/// What the schema says of the parameter `args`.
pub open spec fn args_description(entry: EntryView) -> Seq<char> {
    "Command-line arguments for `"@ + entry.binary + "`"@ + (match entry.subcommand {
        Some(sub) => " "@ + sub + " (subcommand is prepended automatically)"@,
        None => Seq::empty(),
    }) + ". Pass flags and values exactly as shown in the usage above."@
}

/// Whether the tool is the one of the entry, with the help text where there is
/// one.
pub open spec fn is_entry_tool(m: ToolModel, entry: EntryView, help: Option<Seq<char>>) -> bool {
    &&& m.name == entry.name
    &&& m.description == match help {
        Some(help) => entry.synopsis + "\n\n"@ + help,
        None => entry.synopsis,
    }
    &&& m.params == seq![
        ParamView {
            name: "args"@,
            param_type: ParamType::String,
            description: args_description(entry),
            required: false,
            default: Some(Json::String(""@)),
            enum_values: None,
        },
    ]
    &&& m.privilege == if entry.privilege == "root"@ {
        Privilege::Root
    } else {
        Privilege::User
    }
    &&& m.needs_confirmation == entry.confirm
    &&& m.timeout_secs == entry.timeout
    &&& m.validators.len() == 0
    &&& m.command matches Some(CommandSource::Direct(program))
    &&& forall|args: Arguments| #[trigger] program.inner.accepts(args)
    &&& forall|args: Arguments| #[trigger] program.inner.binary(args) == entry.binary
    &&& forall|args: Arguments| #[trigger]
        program.inner.argv(args) == entry_argv(entry.subcommand, args)
}

/// The tool of an entry.
pub fn entry_tool(def: &ManifestTool, help: Option<String>) -> (r: ShellTool)
    ensures
        is_entry_tool(r@, def@, optional_text(help)),
{
    let description: String = match &help {
        Some(help) => def.synopsis.clone().concat("\n\n").concat(help),
        None => def.synopsis.clone(),
    };
    let prepended: String = match &def.subcommand {
        Some(sub) => " ".to_owned().concat(sub).concat(
            " (subcommand is prepended automatically)",
        ),
        None => String::new(),
    };
    let usage: String = "Command-line arguments for `".to_owned().concat(&def.binary).concat(
        "`",
    ).concat(&prepended).concat(". Pass flags and values exactly as shown in the usage above.");
    let maker: EntryProgram = EntryProgram {
        binary: def.binary.clone(),
        subcommand: copy_text(&def.subcommand),
    };
    let ghost made = maker;
    let program: AnyDirect = Plugin::new(Box::new(maker));
    proof {
        assert(forall|args: Arguments| #[trigger] program.inner.accepts(args) == made.accepts(args));
        assert(forall|args: Arguments| #[trigger] program.inner.binary(args) == made.binary(args));
        assert(forall|args: Arguments| #[trigger] program.inner.accepts(args));
        assert(forall|args: Arguments| #[trigger] program.inner.binary(args) == def@.binary);
        assert(forall|args: Arguments| #[trigger]
            program.inner.argv(args) == entry_argv(def@.subcommand, args));
    }
    let mut builder: ShellToolBuilder = ShellTool::new(&def.name).description(&description).param(
        "args",
        ParamType::String,
        &usage,
        false,
    ).default_value(Value::text("")).timeout(def.timeout).direct(program);
    if same(&def.privilege, "root") {
        builder = builder.root();
    }
    if def.confirm {
        builder = builder.confirm();
    }
    let r: ShellTool = builder.build();
    proof {
        assert(r@.params =~= seq![
            ParamView {
                name: "args"@,
                param_type: ParamType::String,
                description: args_description(def@),
                required: false,
                default: Some(Json::String(""@)),
                enum_values: None,
            },
        ]);
    }
    r
}

// Registration

/// An entry of a manifest, with what was found out about its program.
#[derive(Debug)]
pub struct ProbedTool {
    pub def: ManifestTool,
    /// Whether the program was found.
    pub found: bool,
    /// What the program wrote when it was asked for its help text.
    pub help: Option<HelpOutput>,
}

/// Whether an entry is offered: its program was found, or its fallback stands in
/// for the help text.
pub open spec fn is_offered(probed: ProbedTool) -> bool {
    probed.found || probed.def@.fallback_help is Some
}

/// The help text of an entry: a program that was not found gives none.
pub open spec fn probed_help(probed: ProbedTool) -> Option<Seq<char>> {
    if probed.found {
        help_text(probed.def@, probed.help)
    } else {
        fallback_of(probed.def@)
    }
}

/// Whether the registry has the tool of the entry under the entry's name.
pub open spec fn offers_entry(r: RegistryView, probed: ProbedTool) -> bool {
    lookup(r.tools, probed.def@.name) matches Some(RegisteredTool::Shell(tool)) && is_entry_tool(
        tool@,
        probed.def@,
        probed_help(probed),
    )
}

/// Why an entry is skipped whose program was not found.
pub open spec fn not_found(entry: EntryView) -> Seq<char> {
    "binary '"@ + entry.binary + "' not found in PATH"@
}

/// Registers the tool of an entry whose program was found or which has a
/// fallback, and skips the entry otherwise. Every other tool stays as it was.
pub fn register_one(probed: &ProbedTool, registry: &mut ToolRegistry) -> (r: Result<(), String>)
    ensures
        is_offered(*probed) ==> r is Ok && offers_entry(final(registry)@, *probed),
        probed.found && probed.def@.help_args.len() > 0 ==> output_decodes(probed.help),
        !is_offered(*probed) ==> final(registry)@ == old(registry)@,
        !is_offered(*probed) ==> (r matches Err(e) && e@ == not_found(probed.def@)),
        forall|name: Seq<char>|
            name != probed.def@.name ==> #[trigger] lookup(final(registry)@.tools, name) == lookup(
                old(registry)@.tools,
                name,
            ),
        final(registry)@.policy == old(registry)@.policy,
        under_their_names(old(registry)@) ==> under_their_names(final(registry)@),
        distinct(old(registry)@.tools) ==> distinct(final(registry)@.tools),
{
    if !probed.found && probed.def.fallback_help.is_none() {
        return Err("binary '".to_owned().concat(&probed.def.binary).concat("' not found in PATH"));
    }
    let help: Option<String> = if probed.found {
        scrape_help(&probed.def, &probed.help)
    } else {
        probed.def.fallback()
    };
    let tool: ShellTool = entry_tool(&probed.def, help);
    let ghost before = registry@.tools;
    let ghost entry = RegisteredTool::Shell(tool);
    let ghost name = tool@.name;
    registry.register(tool);
    proof {
        put_changes_one_name(before, name, entry, name);
        assert forall|other: Seq<char>| other != name implies #[trigger] lookup(
            registry@.tools,
            other,
        ) == lookup(before, other) by {
            put_changes_one_name(before, name, entry, other);
        }
    }
    Ok(())
}

/// How many of the entries are offered.
pub open spec fn offered_count(tools: Seq<ProbedTool>) -> nat
    decreases tools.len(),
{
    if tools.len() == 0 {
        0
    } else {
        offered_count(tools.drop_last()) + if is_offered(tools.last()) {
            1nat
        } else {
            0nat
        }
    }
}

/// The last entry of the name that is offered.
pub open spec fn last_offered(tools: Seq<ProbedTool>, name: Seq<char>) -> Option<ProbedTool>
    decreases tools.len(),
{
    if tools.len() == 0 {
        None
    } else if is_offered(tools.last()) && tools.last().def@.name == name {
        Some(tools.last())
    } else {
        last_offered(tools.drop_last(), name)
    }
}

/// Whether the registry came out of `before` by registering the tools: under
/// each name stands the tool of the last entry with that name that is offered, or
/// what stood there before.
pub open spec fn registered(
    before: RegistryView,
    after: RegistryView,
    tools: Seq<ProbedTool>,
) -> bool {
    &&& after.policy == before.policy
    &&& forall|name: Seq<char>| #[trigger]
        lookup(after.tools, name) == lookup(before.tools, name) || last_offered(tools, name) is Some
    &&& forall|name: Seq<char>|
        (#[trigger] last_offered(tools, name)) matches Some(probed) ==> offers_entry(after, probed)
}

proof fn lemma_one_more(
    first: RegistryView,
    before: RegistryView,
    after: RegistryView,
    seen: Seq<ProbedTool>,
    probed: ProbedTool,
)
    requires
        registered(first, before, seen),
        is_offered(probed) ==> offers_entry(after, probed),
        !is_offered(probed) ==> after == before,
        forall|name: Seq<char>|
            name != probed.def@.name ==> #[trigger] lookup(after.tools, name) == lookup(
                before.tools,
                name,
            ),
        after.policy == before.policy,
    ensures
        registered(first, after, seen.push(probed)),
{
    let tools = seen.push(probed);
    assert(tools.drop_last() =~= seen);
    assert forall|name: Seq<char>| #[trigger]
        lookup(after.tools, name) == lookup(first.tools, name) || last_offered(
            tools,
            name,
        ) is Some by {
        assert(lookup(before.tools, name) == lookup(first.tools, name) || last_offered(
            seen,
            name,
        ) is Some);
    }
    assert forall|name: Seq<char>| (#[trigger] last_offered(tools, name)) is Some implies offers_entry(
        after,
        last_offered(tools, name)->0,
    ) by {
        if !(is_offered(probed) && probed.def@.name == name) {
            lemma_last_offered_has_name(seen, name);
            assert(last_offered(seen, name) is Some);
        }
    }
}

proof fn lemma_last_offered_has_name(tools: Seq<ProbedTool>, name: Seq<char>)
    ensures
        last_offered(tools, name) matches Some(probed) ==> is_offered(probed) && probed.def@.name
            == name,
    decreases tools.len(),
{
    if tools.len() > 0 {
        lemma_last_offered_has_name(tools.drop_last(), name);
    }
}

/// Registers the tools of a manifest, but for entries without a program and
/// without a fallback, and tells how many that were. `path` is where the manifest
/// was looked for.
pub fn load_and_register(
    path: &str,
    source: Result<Vec<ProbedTool>, LoadError>,
    registry: &mut ToolRegistry,
) -> (r: Result<usize, String>)
    ensures
        match source {
            Ok(tools) => r matches Ok(n) && n == offered_count(tools@) && registered(
                old(registry)@,
                final(registry)@,
                tools@,
            ),
            Err(LoadError::Read(e)) => r matches Err(m) && m@ == "failed to read manifest "@ + path@
                + ": "@ + e@,
            Err(LoadError::Parse(e)) => r matches Err(m) && m@ == "failed to parse manifest: "@
                + e@,
        },
        source is Err ==> final(registry)@ == old(registry)@,
        source matches Ok(tools) ==> forall|i: int|
            0 <= i < tools.len() && (#[trigger] tools@[i]).found && tools@[i].def@.help_args.len()
                > 0 ==> output_decodes(tools@[i].help),
        under_their_names(old(registry)@) ==> under_their_names(final(registry)@),
        distinct(old(registry)@.tools) ==> distinct(final(registry)@.tools),
{
    let tools: Vec<ProbedTool> = match source {
        Ok(tools) => tools,
        Err(LoadError::Read(e)) => return Err(
            "failed to read manifest ".to_owned().concat(path).concat(": ").concat(&e),
        ),
        Err(LoadError::Parse(e)) => return Err("failed to parse manifest: ".to_owned().concat(&e)),
    };
    let mut count: usize = 0;
    let mut i: usize = 0;
    proof {
        assert(tools@.take(0).len() == 0);
    }
    while i < tools.len()
        invariant
            i <= tools.len(),
            count <= i,
            count == offered_count(tools@.take(i as int)),
            registered(old(registry)@, registry@, tools@.take(i as int)),
            forall|j: int|
                0 <= j < i && (#[trigger] tools@[j]).found && tools@[j].def@.help_args.len() > 0
                    ==> output_decodes(tools@[j].help),
            under_their_names(old(registry)@) ==> under_their_names(registry@),
            distinct(old(registry)@.tools) ==> distinct(registry@.tools),
        decreases tools.len() - i,
    {
        let ghost before = registry@;
        let ghost seen = tools@.take(i as int);
        let ghost probed = tools@[i as int];
        proof {
            assert(tools@.take(i + 1).drop_last() =~= seen);
            assert(tools@.take(i + 1).last() == probed);
        }
        if register_one(&tools[i], registry).is_ok() {
            count = count + 1;
        }
        proof {
            lemma_one_more(old(registry)@, before, registry@, seen, probed);
            assert(tools@.take(i + 1) =~= seen.push(probed));
        }
        i = i + 1;
    }
    proof {
        assert(tools@.take(i as int) =~= tools@);
    }
    Ok(count)
}

/// A text that is clipped is kept whole where it has at most the characters that
/// the limit allows, and is otherwise cut there, with a mark after it.
pub proof fn clipped_text_is_bounded(text: Seq<char>, max: nat)
    ensures
        text.len() <= max ==> clipped(text, max) == text,
        text.len() > max ==> clipped(text, max) == text.take(max as int) + "\n[... truncated]"@,
        clipped(text, max).len() <= max + 16,
{
    reveal_strlit("\n[... truncated]");
}

/// Whatever text is shown as help, no more of it is shown than the entry allows:
/// it is what the program wrote, or the fallback, clipped.
pub proof fn every_help_text_is_clipped(probed: ProbedTool)
    ensures
        probed_help(probed) matches Some(help) ==> {
            &&& help.len() <= probed.def@.max_help_chars + 16
            &&& exists|text: Seq<char>|
                help == #[trigger] clipped(text, probed.def@.max_help_chars)
        },
{
    let entry = probed.def@;
    let max = entry.max_help_chars;
    if let Some(help) = probed_help(probed) {
        if let Some(output) = probed.help {
            clipped_text_is_bounded(lossy_text(output.stdout@), max);
            clipped_text_is_bounded(lossy_text(output.stderr@), max);
        }
        if let Some(text) = entry.fallback_help {
            clipped_text_is_bounded(text, max);
        }
    }
}

/// An entry that does not say how to ask for help, and one whose program is
/// missing, shows its fallback.
pub proof fn fallback_stands_where_no_program_is_asked(probed: ProbedTool)
    requires
        !probed.found || probed.def@.help_args.len() == 0,
    ensures
        probed_help(probed) == fallback_of(probed.def@),
{
}

/// The program of an entry is given the subcommand and the words of `args`, and
/// nothing else. Without root it is run with them as they are; with root, `su` is
/// given a line that is read as the program and exactly those words.
pub proof fn arguments_reach_the_program(
    m: ToolModel,
    entry: EntryView,
    help: Option<Seq<char>>,
    args: Arguments,
    process: ProcessView,
)
    requires
        is_entry_tool(m, entry, help),
        invocation(m, args) == InvocationView::Run(process),
        entry.binary.len() > 0,
        all_plain(entry.binary),
        entry.subcommand matches Some(sub) ==> sub.len() > 0,
    ensures
        ({
            let argv = entry_argv(entry.subcommand, with_defaults(args, m.params));
            if entry.privilege == "root"@ {
                &&& process.program == "su"@
                &&& process.args.len() == 2
                &&& process.args[0] == "-c"@
                &&& words_of(process.args[1]) == seq![entry.binary] + argv
            } else {
                &&& process.program == entry.binary
                &&& process.args == argv
            }
        }),
{
    let merged = with_defaults(args, m.params);
    let argv = entry_argv(entry.subcommand, merged);
    let program = m.command->0->Direct_0;
    assert(program.inner.binary(merged) == entry.binary);
    assert(program.inner.argv(merged) == argv);
    if entry.privilege == "root"@ {
        let first = fixed_argv(entry.subcommand);
        assert forall|i: int| 0 <= i < argv.len() implies (#[trigger] argv[i]).len() > 0 by {
            if i < first.len() {
                assert(argv[i] == first[i]);
            } else {
                let line = string_arg(merged, "args"@)->0;
                assert(argv[i] == words_of(line)[i - first.len()]);
                words_are_not_empty(line, i - first.len());
            }
        }
        command_line_keeps_every_argument(entry.binary, argv);
    }
}

/// The subcommand that an entry fixes, where it is no option, is the one that
/// the policy judges, whatever the arguments are.
pub proof fn fixed_subcommand_is_the_one_judged(
    m: ToolModel,
    entry: EntryView,
    help: Option<Seq<char>>,
    args: Arguments,
    sub: Seq<char>,
)
    requires
        is_entry_tool(m, entry, help),
        entry.subcommand == Some(sub),
        sub.len() > 0 ==> sub[0] != '-',
    ensures
        subcommand_of(m, args) == Some(sub),
{
    reveal_with_fuel(first_missing, 2);
    assert(!m.params[0].required);
    assert(m.params.drop_last().len() == 0);
    let merged = with_defaults(args, m.params);
    assert(m.command->0->Direct_0.inner.argv(merged)[0] == sub);
}

proof fn lemma_trim_keeps_something(s: Seq<char>, i: int)
    requires
        0 <= i < s.len(),
        !is_white_space(s[i]),
    ensures
        trim(s).len() > 0,
    decreases s.len(),
{
    if is_white_space(s[0]) {
        assert(s.skip(1)[i - 1] == s[i]);
        lemma_trim_keeps_something(s.skip(1), i - 1);
    } else if is_white_space(s.last()) {
        assert(s.drop_last()[i] == s[i]);
        lemma_trim_keeps_something(s.drop_last(), i);
    }
}

proof fn lemma_trim_keeps_nothing(s: Seq<char>)
    requires
        forall|i: int| 0 <= i < s.len() ==> is_white_space(#[trigger] s[i]),
    ensures
        trim(s).len() == 0,
{
    let e = Seq::<char>::empty();
    trimming_takes_white_space_from_the_ends(s, e, e);
    assert(s + e + e =~= s);
}

/// The help text is what a program wrote as output, where any of it is not white
/// space; otherwise what it wrote as errors, where any of that is not; and
/// otherwise the fallback.
pub proof fn help_is_the_first_that_is_not_blank(
    entry: EntryView,
    out: Seq<char>,
    err: Seq<char>,
    i: int,
)
    ensures
        0 <= i < out.len() && !is_white_space(out[i]) ==> help_of(entry, out, err) == Some(
            clipped(out, entry.max_help_chars),
        ),
        (forall|k: int| 0 <= k < out.len() ==> is_white_space(#[trigger] out[k])) && 0 <= i
            < err.len() && !is_white_space(err[i]) ==> help_of(entry, out, err) == Some(
            clipped(err, entry.max_help_chars),
        ),
        (forall|k: int| 0 <= k < out.len() ==> is_white_space(#[trigger] out[k])) && (forall|k: int|
            0 <= k < err.len() ==> is_white_space(#[trigger] err[k])) ==> help_of(entry, out, err)
            == match entry.fallback_help {
            Some(help) => Some(clipped(help, entry.max_help_chars)),
            None => None,
        },
{
    if 0 <= i < out.len() && !is_white_space(out[i]) {
        lemma_trim_keeps_something(out, i);
    }
    if forall|k: int| 0 <= k < out.len() ==> is_white_space(#[trigger] out[k]) {
        lemma_trim_keeps_nothing(out);
        if 0 <= i < err.len() && !is_white_space(err[i]) {
            lemma_trim_keeps_something(err, i);
        }
        if forall|k: int| 0 <= k < err.len() ==> is_white_space(#[trigger] err[k]) {
            lemma_trim_keeps_nothing(err);
        }
    }
}

/// A program that was asked gives the help text by what its bytes are read as.
pub proof fn help_is_read_from_what_was_written(entry: EntryView, output: HelpOutput)
    requires
        entry.help_args.len() > 0,
    ensures
        help_text(entry, Some(output)) == help_of(
            entry,
            lossy_text(output.stdout@),
            lossy_text(output.stderr@),
        ),
        help_text(entry, None) == fallback_of(entry),
{
}

/// Words that the agent escapes and joins by spaces are the arguments of the
/// program, after the subcommand where there is one; without words there is the
/// subcommand alone.
pub proof fn words_of_the_agent_become_arguments(
    sub: Seq<char>,
    words: Seq<Seq<char>>,
    args: Arguments,
)
    requires
        forall|i: int| 0 <= i < words.len() ==> (#[trigger] words[i]).len() > 0,
    ensures
        string_arg(args, "args"@) == Some(
            join(words.map_values(|w: Seq<char>| escape(w)), " "@),
        ) ==> entry_argv(None, args) == words && entry_argv(Some(sub), args) == seq![sub] + words,
        string_arg(args, "args"@) is None ==> entry_argv(None, args).len() == 0 && entry_argv(
            Some(sub),
            args,
        ) == seq![sub],
{
    escaped_words_are_read_back(words);
    if string_arg(args, "args"@) == Some(join(words.map_values(|w: Seq<char>| escape(w)), " "@)) {
        assert(entry_argv(None, args) =~= words);
    }
    if string_arg(args, "args"@) is None {
        assert(entry_argv(Some(sub), args) =~= seq![sub]);
    }
}

/// A call of an entry's tool without root runs the entry's program, within the
/// entry's time, with the subcommand and the words of the call; a call without
/// words runs it with the subcommand alone.
pub proof fn call_runs_the_program_with_its_words(
    m: ToolModel,
    entry: EntryView,
    help: Option<Seq<char>>,
    args: Arguments,
    words: Seq<Seq<char>>,
)
    requires
        is_entry_tool(m, entry, help),
        entry.privilege != "root"@,
        forall|i: int| 0 <= i < words.len() ==> (#[trigger] words[i]).len() > 0,
        lookup(args, "args"@) == Some(
            Json::String(join(words.map_values(|w: Seq<char>| escape(w)), " "@)),
        ) || lookup(args, "args"@) is None && words.len() == 0,
    ensures
        invocation(m, args) matches InvocationView::Run(p) && {
            &&& p.program == entry.binary
            &&& entry.subcommand is None ==> p.args == words
            &&& entry.subcommand matches Some(sub) ==> p.args == seq![sub] + words
            &&& p.timeout_secs == entry.timeout
        },
{
    let merged = with_defaults(args, m.params);
    reveal_with_fuel(first_missing, 2);
    assert(!m.params[0].required);
    assert(m.params.drop_last().len() == 0);
    let program = m.command->0->Direct_0;
    assert(program.inner.binary(merged) == entry.binary);
    assert(program.inner.argv(merged) == entry_argv(entry.subcommand, merged));
    let line = join(words.map_values(|w: Seq<char>| escape(w)), " "@);
    if has_name(args, "args"@) {
        default_never_overrides_an_argument(args, m.params, "args"@);
    } else {
        assert(m.params[0].name == "args"@);
        every_default_is_filled_in(args, m.params, 0);
        reveal_strlit("");
        assert(""@ =~= line);
    }
    assert(string_arg(merged, "args"@) == Some(line));
    if let Some(sub) = entry.subcommand {
        words_of_the_agent_become_arguments(sub, words, merged);
    } else {
        words_of_the_agent_become_arguments(Seq::empty(), words, merged);
    }
}

/// The tool of an entry has the entry's name and says its synopsis, followed after
/// an empty line by the help text where there is one; it needs root exactly where
/// the entry says "root", and a confirmation exactly where the entry says so.
pub proof fn entry_tool_says_what_the_entry_says(
    m: ToolModel,
    entry: EntryView,
    help: Option<Seq<char>>,
)
    requires
        is_entry_tool(m, entry, help),
    ensures
        definition_of(m).name == entry.name,
        help is None ==> m.description == entry.synopsis,
        help matches Some(text) ==> m.description == entry.synopsis + seq!['\n', '\n'] + text,
        m.privilege == Privilege::Root <==> entry.privilege == seq!['r', 'o', 'o', 't'],
        m.needs_confirmation == entry.confirm,
        m.timeout_secs == entry.timeout,
        m.params.len() == 1 && !m.params[0].required && m.params[0].name == "args"@,
        occurs_at(m.params[0].description, entry.binary, 28),
{
    reveal_strlit("\n\n");
    reveal_strlit("root");
    assert("\n\n"@ =~= seq!['\n', '\n']);
    assert("root"@ =~= seq!['r', 'o', 'o', 't']);
    reveal_strlit("Command-line arguments for `");
    let d = m.params[0].description;
    assert("Command-line arguments for `"@.len() == 28);
    assert(d.subrange(28, 28int + entry.binary.len()) =~= entry.binary);
}

/// Each entry counts once where it is offered and not at all where it is not, and
/// an entry is offered where its program was found or a fallback stands in.
pub proof fn offered_entries_are_counted(a: Seq<ProbedTool>, b: Seq<ProbedTool>, t: ProbedTool)
    ensures
        offered_count(a + b) == offered_count(a) + offered_count(b),
        t.found || t.def@.fallback_help is Some ==> offered_count(seq![t]) == 1,
        !t.found && t.def@.fallback_help is None ==> offered_count(seq![t]) == 0,
        offered_count(Seq::empty()) == 0,
    decreases b.len(),
{
    assert(seq![t].drop_last() =~= Seq::<ProbedTool>::empty());
    reveal_with_fuel(offered_count, 2);
    if b.len() == 0 {
        assert(a + b =~= a);
    } else {
        assert((a + b).drop_last() =~= a + b.drop_last());
        offered_entries_are_counted(a, b.drop_last(), t);
    }
}

proof fn lemma_last_offered(tools: Seq<ProbedTool>, name: Seq<char>, i: int)
    requires
        0 <= i < tools.len(),
        tools[i].found || tools[i].def@.fallback_help is Some,
        tools[i].def@.name == name,
        forall|j: int|
            i < j < tools.len() ==> (#[trigger] tools[j]).def@.name != name || !tools[j].found
                && tools[j].def@.fallback_help is None,
    ensures
        last_offered(tools, name) == Some(tools[i]),
    decreases tools.len(),
{
    if i < tools.len() - 1 {
        assert(tools[tools.len() - 1] == tools.last());
        assert(forall|j: int| 0 <= j < tools.len() - 1 ==> tools.drop_last()[j] == tools[j]);
        lemma_last_offered(tools.drop_last(), name, i);
    }
}

proof fn lemma_none_offered(tools: Seq<ProbedTool>, name: Seq<char>)
    requires
        forall|j: int|
            0 <= j < tools.len() ==> (#[trigger] tools[j]).def@.name != name || !tools[j].found
                && tools[j].def@.fallback_help is None,
    ensures
        last_offered(tools, name) is None,
    decreases tools.len(),
{
    if tools.len() > 0 {
        assert(tools[tools.len() - 1] == tools.last());
        assert(forall|j: int| 0 <= j < tools.len() - 1 ==> tools.drop_last()[j] == tools[j]);
        lemma_none_offered(tools.drop_last(), name);
    }
}

/// After a manifest was registered, a name stands for the tool of the last entry
/// with that name that is offered, and a name without such an entry for what it
/// stood for before.
pub proof fn last_entry_of_a_name_stands(
    before: RegistryView,
    after: RegistryView,
    tools: Seq<ProbedTool>,
    i: int,
    name: Seq<char>,
)
    requires
        registered(before, after, tools),
    ensures
        0 <= i < tools.len() && (tools[i].found || tools[i].def@.fallback_help is Some) && (forall|
            j: int,
        |
            i < j < tools.len() ==> (#[trigger] tools[j]).def@.name != tools[i].def@.name
                || !tools[j].found && tools[j].def@.fallback_help is None) ==> offers_entry(
            after,
            tools[i],
        ),
        (forall|j: int|
            0 <= j < tools.len() ==> (#[trigger] tools[j]).def@.name != name || !tools[j].found
                && tools[j].def@.fallback_help is None) ==> lookup(after.tools, name) == lookup(
            before.tools,
            name,
        ),
        after.policy == before.policy,
{
    if 0 <= i < tools.len() && (tools[i].found || tools[i].def@.fallback_help is Some) && (forall|
        j: int,
    |
        i < j < tools.len() ==> (#[trigger] tools[j]).def@.name != tools[i].def@.name
            || !tools[j].found && tools[j].def@.fallback_help is None) {
        lemma_last_offered(tools, tools[i].def@.name, i);
        assert(last_offered(tools, tools[i].def@.name) == Some(tools[i]));
    }
    if forall|j: int|
        0 <= j < tools.len() ==> (#[trigger] tools[j]).def@.name != name || !tools[j].found
            && tools[j].def@.fallback_help is None {
        lemma_none_offered(tools, name);
        assert(lookup(after.tools, name) == lookup(before.tools, name) || last_offered(
            tools,
            name,
        ) is Some);
    }
}

/// An entry is shown as what it holds.
pub proof fn entries_are_shown_as_they_are(def: ManifestTool)
    ensures
        def@.name == def.name@,
        def@.binary == def.binary@,
        def@.help_args == texts(def.help_args@),
        def@.synopsis == def.synopsis@,
        def@.privilege == def.privilege@,
        def@.confirm == def.confirm,
        def@.timeout == def.timeout,
        def@.subcommand == optional_text(def.subcommand),
        def@.fallback_help == optional_text(def.fallback_help),
        def@.max_help_chars == def.max_help_chars,
{
}

/// An entry whose program was found shows what the program said when it was asked,
/// and what is offered is the entry's tool with that help text.
pub proof fn found_program_shows_its_own_help(
    probed: ProbedTool,
    out: Seq<char>,
    err: Seq<char>,
    output: HelpOutput,
)
    requires
        probed.found,
        probed.def@.help_args.len() > 0,
        probed.help == Some(output),
        out == lossy_text(output.stdout@),
        err == lossy_text(output.stderr@),
    ensures
        probed_help(probed) == help_of(probed.def@, out, err),
{
}

/// The description of an entry's arguments names the program, and after it the
/// subcommand where the entry has one; an entry that is not offered is reported
/// with its program's name.
pub proof fn entry_texts_name_the_program(entry: EntryView, sub: Seq<char>)
    ensures
        occurs_at(args_description(entry), entry.binary, 28),
        entry.subcommand == Some(sub) ==> occurs_at(
            args_description(entry),
            sub,
            30int + entry.binary.len(),
        ),
        entry.subcommand is None ==> args_description(entry) == "Command-line arguments for `"@
            + entry.binary + "`. Pass flags and values exactly as shown in the usage above."@,
        not_found(entry) == "binary '"@ + entry.binary + "' not found in PATH"@,
        occurs_at(not_found(entry), entry.binary, 8),
{
    reveal_strlit("Command-line arguments for `");
    reveal_strlit("`");
    reveal_strlit(" ");
    reveal_strlit("binary '");
    reveal_strlit(". Pass flags and values exactly as shown in the usage above.");
    reveal_strlit("`. Pass flags and values exactly as shown in the usage above.");
    let n = entry.binary.len() as int;
    let text = args_description(entry);
    assert(text.subrange(28, 28 + n) =~= entry.binary);
    if entry.subcommand == Some(sub) {
        assert(text.subrange(30 + n, 30 + n + sub.len()) =~= sub);
    }
    if entry.subcommand is None {
        assert(text =~= "Command-line arguments for `"@ + entry.binary
            + "`. Pass flags and values exactly as shown in the usage above."@);
    }
    assert(not_found(entry).subrange(8, 8 + n) =~= entry.binary);
}

} // verus!
