//! The tools that a server offers, and the policy under which they are called.

use vstd::prelude::*;
use vstd::utf8::encode_utf8;
use crate::json::{members, Value};
use crate::mcp::{
    error_result, ContentView, DefinitionView, ResultView, ToolDefinition, ToolResult,
    ToolResultContent,
};
use crate::params::Arguments;
use crate::plugin::Plugin;
use crate::policy::{allows, subcommand_verdict, Policy, PolicyConfig, Privilege};
use crate::table::{
    distinct, first_at, has_name, index_of, lemma_index_of, lemma_lookup_first, lookup, put,
    put_changes_one_name, Table,
};
use crate::text::{
    cut, cut_is_the_longest_prefix_that_fits, cut_text, lemma_width_is_positive, optional_text,
    texts,
};
use crate::tools::{
    definition_of, invocation, subcommand_of, tool_accepts, Invocation, InvocationView, Plan,
    ShellTool, Tool, ToolModel,
};

verus! {

/// Any tool that a user brings.
pub type CustomTool = Plugin<Box<dyn Tool>>;

/// A tool in the registry: a shell tool, or one that a user brings.
pub enum RegisteredTool {
    Shell(ShellTool),
    Custom(CustomTool),
}

/// What a registered tool announces.
pub open spec fn tool_definition(tool: RegisteredTool) -> DefinitionView {
    match tool {
        RegisteredTool::Shell(t) => t.announced(),
        RegisteredTool::Custom(t) => t.inner.announced(),
    }
}

/// The privilege that a registered tool runs with.
pub open spec fn tool_privilege(tool: RegisteredTool) -> Privilege {
    match tool {
        RegisteredTool::Shell(t) => t.needs(),
        RegisteredTool::Custom(t) => t.inner.needs(),
    }
}

/// Whether a registered tool can be called with the arguments.
pub open spec fn tool_takes(tool: RegisteredTool, args: Arguments) -> bool {
    match tool {
        RegisteredTool::Shell(t) => t.accepts(args),
        RegisteredTool::Custom(t) => t.inner.accepts(args),
    }
}

/// What a [`ToolRegistry`] holds: the tools by name, and the policy.
pub struct RegistryView {
    pub tools: Seq<(Seq<char>, RegisteredTool)>,
    pub policy: PolicyConfig,
}

/// Tools by name, under a policy.
pub struct ToolRegistry {
    tools: Table<RegisteredTool>,
    policy: Policy,
}

/// Whether every tool stands under the name that it announces.
pub open spec fn under_their_names(r: RegistryView) -> bool {
    forall|i: int|
        0 <= i < r.tools.len() ==> (#[trigger] r.tools[i]).0 == tool_definition(r.tools[i].1).name
}

impl View for ToolRegistry {
    type V = RegistryView;

    closed spec fn view(&self) -> RegistryView {
        RegistryView { tools: self.tools@, policy: self.policy@ }
    }
}

/// The answer to a call of a tool that is not registered.
pub open spec fn unknown_tool(name: Seq<char>) -> ResultView {
    error_result("unknown tool: "@ + name)
}

/// The answer to a call that the policy does not allow.
pub open spec fn blocked_tool(name: Seq<char>, privilege: Privilege) -> ResultView {
    error_result(
        "tool '"@ + name + "' blocked by policy (requires "@ + privilege.spec_label() + ")"@,
    )
}

/// Whether a call can be made: the tool is unknown or blocked, or it takes the
/// arguments.
pub open spec fn call_accepted(r: RegistryView, name: Seq<char>, args: Arguments) -> bool {
    match lookup(r.tools, name) {
        Some(tool) => allows(r.policy, name, tool_privilege(tool)) ==> tool_takes(tool, args),
        None => true,
    }
}

/// How many of `max` bytes are left after the texts: none once a text did not fit.
pub open spec fn room_after(content: Seq<ContentView>, max: nat) -> nat
    decreases content.len(),
{
    if content.len() == 0 {
        max
    } else {
        let room = room_after(content.drop_last(), max);
        let size = encode_utf8(content.last().text).len();
        if size <= room {
            (room - size) as nat
        } else {
            0
        }
    }
}

/// How many bytes the texts take together.
pub open spec fn total_bytes(content: Seq<ContentView>) -> nat
    decreases content.len(),
{
    if content.len() == 0 {
        0
    } else {
        total_bytes(content.drop_last()) + encode_utf8(content.last().text).len()
    }
}

/// The result with its texts cut where they take more than `max` bytes together.
pub open spec fn limited(result: ResultView, max: nat) -> ResultView {
    ResultView {
        content: Seq::new(
            result.content.len(),
            |i: int|
                ContentView {
                    text: cut(result.content[i].text, room_after(result.content.take(i), max)),
                    ..result.content[i]
                },
        ),
        ..result
    }
}

/// What a call came to, with the prompt to confirm it where it needs one.
#[derive(Debug)]
pub struct Called {
    pub prompt: Option<String>,
    pub invocation: Invocation,
}

/// What a [`Called`] is.
pub struct CalledView {
    pub prompt: Option<Seq<char>>,
    pub invocation: InvocationView,
}

impl View for Called {
    type V = CalledView;

    open spec fn view(&self) -> CalledView {
        CalledView { prompt: optional_text(self.prompt), invocation: self.invocation@ }
    }
}

/// A call that is answered at once.
pub open spec fn answered(result: ResultView) -> CalledView {
    CalledView { prompt: None, invocation: InvocationView::Done(result) }
}

/// What the agent is told of a subcommand that it has to confirm with the user.
pub open spec fn confirmation_prompt(name: Seq<char>, sub: Seq<char>) -> Seq<char> {
    "subcommand '"@ + sub + "' of tool '"@ + name
        + "' requires confirmation: confirm it with the user first"@
}

/// What an allowed call of a shell tool comes to: the policy refuses the
/// subcommand that it names, or the call is made, with a prompt where the policy
/// wants the subcommand confirmed.
pub open spec fn shell_called(
    policy: PolicyConfig,
    name: Seq<char>,
    m: ToolModel,
    args: Arguments,
) -> CalledView {
    match subcommand_of(m, args) {
        Some(sub) => match subcommand_verdict(policy, name, sub) {
            Err(reason) => answered(error_result(reason)),
            Ok(confirm) => CalledView {
                prompt: if confirm {
                    Some(confirmation_prompt(name, sub))
                } else {
                    None
                },
                invocation: invocation(m, args),
            },
        },
        None => CalledView { prompt: None, invocation: invocation(m, args) },
    }
}

/// Whether an allowed call of a user's tool can come to `called`: what the tool
/// gives, with a result cut to `max` bytes.
pub open spec fn custom_called(
    tool: CustomTool,
    args: Arguments,
    max: nat,
    called: CalledView,
) -> bool {
    &&& called.prompt is None
    &&& match called.invocation {
        InvocationView::Done(result) => exists|given: ResultView|
            result == limited(given, max) && #[trigger] tool.inner.may_invoke(
                args,
                InvocationView::Done(given),
            ),
        other => tool.inner.may_invoke(args, other),
    }
}

/// Whether a call can come to `called`: an unknown tool and one that the policy
/// blocks are answered at once, any other is called.
pub open spec fn call_gives(
    r: RegistryView,
    name: Seq<char>,
    args: Arguments,
    called: CalledView,
) -> bool {
    match lookup(r.tools, name) {
        Some(tool) => if !allows(r.policy, name, tool_privilege(tool)) {
            called == answered(blocked_tool(name, tool_privilege(tool)))
        } else {
            match tool {
                RegisteredTool::Shell(t) => called == shell_called(r.policy, name, t@, args),
                RegisteredTool::Custom(t) => custom_called(
                    t,
                    args,
                    r.policy.global.max_output_bytes as nat,
                    called,
                ),
            }
        },
        None => called == answered(unknown_tool(name)),
    }
}

/// What the registered tools announce, in the order of the rows.
pub open spec fn announcements(tools: Seq<(Seq<char>, RegisteredTool)>) -> Seq<DefinitionView> {
    tools.map_values(|row: (Seq<char>, RegisteredTool)| tool_definition(row.1))
}

/// What the definitions say.
pub open spec fn definition_views(definitions: Seq<ToolDefinition>) -> Seq<DefinitionView> {
    definitions.map_values(|d: ToolDefinition| d@)
}

proof fn lemma_put_keeps_names(r: RegistryView, tool: RegisteredTool)
    requires
        under_their_names(r),
        distinct(r.tools),
    ensures
        ({
            let tools = put(r.tools, tool_definition(tool).name, tool);
            under_their_names(RegistryView { tools, ..r }) && distinct(tools)
        }),
{
    let name = tool_definition(tool).name;
    put_changes_one_name(r.tools, name, tool, name);
    if has_name(r.tools, name) {
        lemma_index_of(r.tools, name);
    }
}

impl ToolRegistry {
    #[verifier::type_invariant]
    spec fn tools_are_named(self) -> bool {
        under_their_names(self.view()) && distinct(self.tools@)
    }

    pub fn new(policy: Policy) -> (r: Self)
        ensures
            r@ == (RegistryView { tools: Seq::empty(), policy: policy@ }),
            under_their_names(r@),
            distinct(r@.tools),
    {
        ToolRegistry { tools: Table::new(), policy }
    }

    /// Registers a tool under a name that it announces.
    fn enter(&mut self, name: String, tool: RegisteredTool)
        requires
            name@ == tool_definition(tool).name,
        ensures
            final(self)@ == (RegistryView {
                tools: put(old(self)@.tools, name@, tool),
                ..old(self)@
            }),
            under_their_names(final(self)@),
            distinct(final(self)@.tools),
    {
        proof {
            use_type_invariant(&*self);
            lemma_put_keeps_names(self@, tool);
        }
        let mut tools: Table<RegisteredTool> = Table::new();
        std::mem::swap(&mut tools, &mut self.tools);
        tools.insert(name, tool);
        self.tools = tools;
    }

    /// Registers a shell tool, in place of one with its name.
    pub fn register(&mut self, tool: ShellTool)
        ensures
            final(self)@ == (RegistryView {
                tools: put(old(self)@.tools, tool@.name, RegisteredTool::Shell(tool)),
                ..old(self)@
            }),
            under_their_names(final(self)@),
            distinct(final(self)@.tools),
    {
        let name: String = tool.name().to_owned();
        self.enter(name, RegisteredTool::Shell(tool));
    }

    /// Registers any tool, in place of one with its name.
    pub fn register_custom(&mut self, tool: CustomTool)
        ensures
            final(self)@ == (RegistryView {
                tools: put(
                    old(self)@.tools,
                    tool.inner.announced().name,
                    RegisteredTool::Custom(tool),
                ),
                ..old(self)@
            }),
            under_their_names(final(self)@),
            distinct(final(self)@.tools),
    {
        let definition: ToolDefinition = tool.inner.definition();
        self.enter(definition.name, RegisteredTool::Custom(tool));
    }

    /// What the tools announce, each once.
    pub fn definitions(&self) -> (r: Vec<ToolDefinition>)
        ensures
            definition_views(r@) == announcements(self@.tools),
            under_their_names(self@),
            distinct(self@.tools),
            forall|i: int, j: int|
                0 <= i < j < r.len() ==> (#[trigger] r@[i])@.name != (#[trigger] r@[j])@.name,
    {
        proof {
            use_type_invariant(self);
        }
        let mut r: Vec<ToolDefinition> = Vec::new();
        let n: usize = self.tools.len();
        let mut i: usize = 0;
        while i < n
            invariant
                i <= n,
                n == self.tools@.len(),
                r.len() == i,
                forall|j: int|
                    0 <= j < i ==> (#[trigger] r@[j])@ == tool_definition(self.tools@[j].1),
            decreases n - i,
        {
            let tool: &RegisteredTool = self.tools.value(i);
            let definition: ToolDefinition = match tool {
                RegisteredTool::Shell(t) => t.definition(),
                RegisteredTool::Custom(t) => t.inner.definition(),
            };
            r.push(definition);
            i = i + 1;
        }
        proof {
            assert(definition_views(r@) =~= announcements(self@.tools));
            assert forall|i: int, j: int| 0 <= i < j < r.len() implies (#[trigger] r@[i])@.name
                != (#[trigger] r@[j])@.name by {
                announced_names_are_distinct(self@, i, j);
            }
        }
        r
    }

    /// Whether a call can be made.
    pub fn can_call(&self, name: &str, params: &Table<Value>) -> (r: bool)
        ensures
            r == call_accepted(self@, name@, members(*params)),
    {
        match self.tools.get(name) {
            Some(RegisteredTool::Shell(t)) => !self.policy.is_allowed(name, &t.privilege())
                || t.ready(params),
            Some(RegisteredTool::Custom(t)) => !self.policy.is_allowed(
                name,
                &t.inner.privilege(),
            ) || t.inner.ready(params),
            None => true,
        }
    }

    /// Calls a shell tool that the policy allows.
    fn call_shell(&self, name: &str, tool: &ShellTool, params: &Table<Value>) -> (r: Called)
        requires
            tool.accepts(members(*params)),
        ensures
            r@ == shell_called(self@.policy, name@, tool@, members(*params)),
    {
        let plan: Plan = tool.plan(params);
        let sub: String = match plan.subcommand {
            Some(sub) => sub,
            None => return Called { prompt: None, invocation: plan.invocation },
        };
        match self.policy.check_subcommand(name, &sub) {
            Err(reason) => Called {
                prompt: None,
                invocation: Invocation::Done(ToolResult::error(&reason)),
            },
            Ok(true) => Called {
                prompt: Some(
                    "subcommand '".to_owned().concat(&sub).concat("' of tool '").concat(name).concat(
                        "' requires confirmation: confirm it with the user first",
                    ),
                ),
                invocation: plan.invocation,
            },
            Ok(false) => Called { prompt: None, invocation: plan.invocation },
        }
    }

    /// Calls a user's tool that the policy allows.
    fn call_custom(&self, tool: &CustomTool, params: &Table<Value>) -> (r: Called)
        requires
            tool.inner.accepts(members(*params)),
        ensures
            custom_called(
                *tool,
                members(*params),
                self@.policy.global.max_output_bytes as nat,
                r@,
            ),
    {
        match tool.inner.invoke(params) {
            Invocation::Done(result) => Called {
                prompt: None,
                invocation: Invocation::Done(self.limit(result)),
            },
            other => Called { prompt: None, invocation: other },
        }
    }

    /// Calls a tool by name.
    pub fn call(&self, name: &str, params: &Table<Value>) -> (r: Called)
        requires
            call_accepted(self@, name@, members(*params)),
        ensures
            call_gives(self@, name@, members(*params), r@),
    {
        let tool: &RegisteredTool = match self.tools.get(name) {
            Some(tool) => tool,
            None => return Called {
                prompt: None,
                invocation: Invocation::Done(
                    ToolResult::error(&"unknown tool: ".to_owned().concat(name)),
                ),
            },
        };
        let privilege: Privilege = match tool {
            RegisteredTool::Shell(t) => t.privilege(),
            RegisteredTool::Custom(t) => t.inner.privilege(),
        };
        if !self.policy.is_allowed(name, &privilege) {
            return Called {
                prompt: None,
                invocation: Invocation::Done(
                    ToolResult::error(
                        &"tool '".to_owned().concat(name).concat(
                            "' blocked by policy (requires ",
                        ).concat(privilege.label()).concat(")"),
                    ),
                ),
            };
        }
        match tool {
            RegisteredTool::Shell(t) => self.call_shell(name, t, params),
            RegisteredTool::Custom(t) => self.call_custom(t, params),
        }
    }

    /// The output of a tool, with what is beyond the limit of the policy cut off.
    pub fn limit(&self, result: ToolResult) -> (r: ToolResult)
        ensures
            r@ == limited(result@, self@.policy.global.max_output_bytes as nat),
    {
        let max: usize = self.policy.max_output_bytes();
        let ghost given = result@.content;
        let mut room: usize = max;
        let mut content: Vec<ToolResultContent> = Vec::new();
        let mut i: usize = 0;
        while i < result.content.len()
            invariant
                i <= result.content.len(),
                content.len() == i,
                given == result@.content,
                room == room_after(given.take(i as int), max as nat),
                forall|j: int|
                    0 <= j < i ==> (#[trigger] content@[j])@ == (ContentView {
                        text: cut(given[j].text, room_after(given.take(j), max as nat)),
                        ..given[j]
                    }),
            decreases result.content.len() - i,
        {
            let part: &ToolResultContent = &result.content[i];
            proof {
                assert(given[i as int] == part@);
                assert(given.take(i + 1).drop_last() =~= given.take(i as int));
            }
            content.push(
                ToolResultContent {
                    content_type: part.content_type.clone(),
                    text: cut_text(&part.text, room),
                },
            );
            let size: usize = part.text.as_str().as_bytes().len();
            room = if size <= room {
                room - size
            } else {
                0
            };
            i = i + 1;
        }
        let r: ToolResult = ToolResult { content, is_error: result.is_error };
        proof {
            assert(r@.content =~= limited(result@, max as nat).content);
        }
        r
    }
}

/// A registered shell tool is found under its name, and every other name stays
/// as it was.
pub proof fn registered_tool_is_found(r: RegistryView, tool: ShellTool, other: Seq<char>)
    ensures
        ({
            let after = put(r.tools, tool@.name, RegisteredTool::Shell(tool));
            &&& lookup(after, tool@.name) == Some(RegisteredTool::Shell(tool))
            &&& other != tool@.name ==> lookup(after, other) == lookup(r.tools, other)
            &&& distinct(r.tools) ==> distinct(after)
        }),
{
    let entry: RegisteredTool = RegisteredTool::Shell(tool);
    put_changes_one_name(r.tools, tool@.name, entry, other);
}

/// A definition is announced exactly where the tool under its name announces it.
pub proof fn definition_stands_under_its_name(r: RegistryView, d: DefinitionView)
    requires
        under_their_names(r),
        distinct(r.tools),
    ensures
        announcements(r.tools).contains(d) <==> (lookup(r.tools, d.name) matches Some(tool)
            && tool_definition(tool) == d),
{
    let all = announcements(r.tools);
    if all.contains(d) {
        let i = choose|i: int| 0 <= i < all.len() && all[i] == d;
        assert(r.tools[i].0 == d.name);
        assert(first_at(r.tools, d.name, i));
        lemma_lookup_first(r.tools, d.name, i);
    }
    if let Some(tool) = lookup(r.tools, d.name) {
        if tool_definition(tool) == d {
            lemma_index_of(r.tools, d.name);
            let k = index_of(r.tools, d.name);
            assert(all[k] == d);
        }
    }
}

/// Whether some tool announces the name.
pub open spec fn announces(r: RegistryView, name: Seq<char>) -> bool {
    exists|i: int|
        0 <= i < r.tools.len() && (#[trigger] announcements(r.tools)[i]).name == name
}

/// A name is announced exactly where a tool is registered under it.
pub proof fn announced_name_is_looked_up(r: RegistryView, name: Seq<char>)
    requires
        under_their_names(r),
    ensures
        announces(r, name) <==> lookup(r.tools, name) is Some,
{
    if announces(r, name) {
        let i = choose|i: int|
            0 <= i < r.tools.len() && (#[trigger] announcements(r.tools)[i]).name == name;
        assert(r.tools[i].0 == name);
    }
    if has_name(r.tools, name) {
        let i = choose|i: int| 0 <= i < r.tools.len() && (#[trigger] r.tools[i]).0 == name;
        assert(announcements(r.tools)[i].name == name);
    }
}

/// No two tools announce the same name.
pub proof fn announced_names_are_distinct(r: RegistryView, i: int, j: int)
    requires
        under_their_names(r),
        distinct(r.tools),
        0 <= i < j < r.tools.len(),
    ensures
        announcements(r.tools)[i].name != announcements(r.tools)[j].name,
{
    assert(r.tools[i].0 != r.tools[j].0);
}

/// Registering a tool adds its definition and takes away the one that had its
/// name, and changes no other; the policy plays no part in it.
pub proof fn registering_changes_one_definition(
    r: RegistryView,
    tool: RegisteredTool,
    d: DefinitionView,
)
    requires
        under_their_names(r),
        distinct(r.tools),
    ensures
        ({
            let after = put(r.tools, tool_definition(tool).name, tool);
            announcements(after).contains(d) <==> d == tool_definition(tool) || (announcements(
                r.tools,
            ).contains(d) && d.name != tool_definition(tool).name)
        }),
{
    let name = tool_definition(tool).name;
    let after = RegistryView { tools: put(r.tools, name, tool), ..r };
    lemma_put_keeps_names(r, tool);
    put_changes_one_name(r.tools, name, tool, d.name);
    definition_stands_under_its_name(r, d);
    definition_stands_under_its_name(after, d);
}

/// While the policy forbids root, no call of a root tool runs anything: the only
/// thing that it can come to is the answer that it is blocked.
pub proof fn root_tools_are_blocked_without_root(
    r: RegistryView,
    name: Seq<char>,
    tool: RegisteredTool,
    args: Arguments,
    called: CalledView,
)
    requires
        !r.policy.global.allow_root,
        lookup(r.tools, name) == Some(tool),
        tool_privilege(tool) == Privilege::Root,
        call_gives(r, name, args, called),
    ensures
        called == answered(blocked_tool(name, Privilege::Root)),
{
}

/// A call runs a program or reads a file only for a tool that is registered
/// under the name and that the policy allows.
pub proof fn only_allowed_tools_act(
    r: RegistryView,
    name: Seq<char>,
    args: Arguments,
    called: CalledView,
)
    requires
        call_gives(r, name, args, called),
        !(called.invocation is Done),
    ensures
        lookup(r.tools, name) matches Some(tool) && allows(r.policy, name, tool_privilege(tool)),
{
}

/// A call whose subcommand the policy refuses runs nothing: the only thing that
/// it can come to is the answer that says why. A subcommand that has to be
/// confirmed comes with a prompt, any other without one.
pub proof fn subcommands_follow_the_policy(
    r: RegistryView,
    name: Seq<char>,
    tool: ShellTool,
    args: Arguments,
    sub: Seq<char>,
    called: CalledView,
)
    requires
        lookup(r.tools, name) == Some(RegisteredTool::Shell(tool)),
        allows(r.policy, name, tool@.privilege),
        subcommand_of(tool@, args) == Some(sub),
        call_gives(r, name, args, called),
    ensures
        subcommand_verdict(r.policy, name, sub) matches Err(reason) ==> called == answered(
            error_result(reason),
        ),
        subcommand_verdict(r.policy, name, sub) matches Ok(confirm) ==> called.invocation
            == invocation(tool@, args) && called.prompt == if confirm {
            Some(confirmation_prompt(name, sub))
        } else {
            None
        },
{
}

proof fn lemma_room(content: Seq<ContentView>, max: nat, n: int)
    requires
        0 <= n <= content.len(),
    ensures
        room_after(content.take(n), max) <= max,
        total_bytes(limited(ResultView { content, is_error: None }, max).content.take(n))
            + room_after(content.take(n), max) <= max,
    decreases n,
{
    let cut_content = limited(ResultView { content, is_error: None }, max).content;
    if n > 0 {
        lemma_room(content, max, n - 1);
        assert(content.take(n).drop_last() =~= content.take(n - 1));
        assert(cut_content.take(n).drop_last() =~= cut_content.take(n - 1));
        assert(content.take(n).last() == content[n - 1]);
        assert(cut_content.take(n).last() == cut_content[n - 1]);
        cut_is_the_longest_prefix_that_fits(
            content[n - 1].text,
            room_after(content.take(n - 1), max),
        );
    }
}

proof fn lemma_total_grows(content: Seq<ContentView>, n: int, m: int)
    requires
        0 <= n <= m <= content.len(),
    ensures
        total_bytes(content.take(n)) <= total_bytes(content.take(m)),
    decreases m,
{
    if n < m {
        lemma_total_grows(content, n, m - 1);
        assert(content.take(m).drop_last() =~= content.take(m - 1));
    }
}

proof fn lemma_room_of_fitting(content: Seq<ContentView>, max: nat, n: int)
    requires
        0 <= n <= content.len(),
        total_bytes(content.take(n)) <= max,
    ensures
        room_after(content.take(n), max) == max - total_bytes(content.take(n)),
    decreases n,
{
    if n > 0 {
        assert(content.take(n).drop_last() =~= content.take(n - 1));
        lemma_room_of_fitting(content, max, n - 1);
    }
}

/// The texts of a limited result take together no more bytes than the limit, and
/// each is a prefix of what it was. Texts that fit are kept whole, and one text
/// alone is cut at the limit.
pub proof fn limited_result_keeps_the_limit(result: ResultView, max: nat)
    ensures
        limited(result, max).content.len() == result.content.len(),
        total_bytes(limited(result, max).content) <= max,
        forall|i: int|
            0 <= i < result.content.len() ==> (#[trigger] limited(
                result,
                max,
            ).content[i]).text.is_prefix_of(result.content[i].text),
        total_bytes(result.content) <= max ==> limited(result, max) == result,
        result.content.len() == 1 ==> limited(result, max).content[0].text == cut(
            result.content[0].text,
            max,
        ),
        limited(result, max).is_error == result.is_error,
{
    let content = result.content;
    let after = limited(result, max).content;
    let n = content.len() as int;
    lemma_room(content, max, n);
    assert(after =~= limited(ResultView { content, is_error: None }, max).content);
    assert(after.take(n) =~= after);
    assert(content.take(n) =~= content);
    assert forall|i: int| 0 <= i < n implies (#[trigger] after[i]).text.is_prefix_of(
        content[i].text,
    ) by {
        cut_is_the_longest_prefix_that_fits(content[i].text, room_after(content.take(i), max));
    }
    if total_bytes(content) <= max {
        assert forall|i: int| 0 <= i < n implies after[i] == content[i] by {
            lemma_total_grows(content, i + 1, n);
            assert(content.take(i + 1).drop_last() =~= content.take(i));
            lemma_room_of_fitting(content, max, i);
            cut_is_the_longest_prefix_that_fits(content[i].text, room_after(content.take(i), max));
        }
        assert(after =~= content);
    }
    if content.len() == 1 {
        assert(content.take(0).len() == 0);
    }
}

/// A call of an unknown tool and one that the policy blocks are answered with an
/// error that names the tool, and the second also the privilege that it requires.
pub proof fn refusals_name_the_tool(
    r: RegistryView,
    name: Seq<char>,
    args: Arguments,
    called: CalledView,
)
    requires
        call_gives(r, name, args, called),
    ensures
        !has_name(r.tools, name) ==> called.prompt is None && called.invocation
            == InvocationView::Done(error_result("unknown tool: "@ + name)),
        lookup(r.tools, name) matches Some(tool) ==> !allows(r.policy, name, tool_privilege(tool))
            ==> called.prompt is None && called.invocation == InvocationView::Done(
            error_result(
                "tool '"@ + name + "' blocked by policy (requires "@ + (if tool_privilege(tool)
                    == Privilege::Root {
                    "Root"@
                } else {
                    "User"@
                }) + ")"@,
            ),
        ),
{
}

/// An allowed call of a shell tool that names no subcommand comes to what the tool
/// does with the arguments of the call, without a prompt.
pub proof fn allowed_call_reaches_the_shell_tool(
    r: RegistryView,
    name: Seq<char>,
    tool: ShellTool,
    args: Arguments,
    called: CalledView,
)
    requires
        lookup(r.tools, name) == Some(RegisteredTool::Shell(tool)),
        allows(r.policy, name, tool@.privilege),
        subcommand_of(tool@, args) is None,
        call_gives(r, name, args, called),
    ensures
        called.invocation == invocation(tool@, args),
        called.prompt is None,
{
}

/// An allowed call of a user's tool comes to what that tool gives for the
/// arguments of the call; what it runs or reads is not changed, and a result that
/// fits the limit is kept whole.
pub proof fn allowed_call_reaches_the_custom_tool(
    r: RegistryView,
    name: Seq<char>,
    tool: CustomTool,
    args: Arguments,
    called: CalledView,
)
    requires
        lookup(r.tools, name) == Some(RegisteredTool::Custom(tool)),
        allows(r.policy, name, tool.inner.needs()),
        call_gives(r, name, args, called),
    ensures
        called.prompt is None,
        !(called.invocation is Done) ==> tool.inner.may_invoke(args, called.invocation),
        called.invocation matches InvocationView::Done(result) ==> exists|given: ResultView|
            #[trigger] tool.inner.may_invoke(args, InvocationView::Done(given)) && (total_bytes(
                given.content,
            ) <= r.policy.global.max_output_bytes ==> result == given),
{
    let max = r.policy.global.max_output_bytes as nat;
    if let InvocationView::Done(result) = called.invocation {
        let given = choose|given: ResultView|
            result == limited(given, max) && #[trigger] tool.inner.may_invoke(
                args,
                InvocationView::Done(given),
            );
        limited_result_keeps_the_limit(given, max);
    }
}

/// The prompt names the tool and the subcommand that is to be confirmed, and says
/// that it is to be confirmed with the user.
pub proof fn prompt_names_what_is_to_be_confirmed(name: Seq<char>, sub: Seq<char>)
    ensures
        ({
            let prompt = confirmation_prompt(name, sub);
            &&& prompt.subrange(12, 12int + sub.len()) == sub
            &&& prompt.subrange(23int + sub.len(), 23int + sub.len() + name.len()) == name
            &&& prompt.skip(23int + sub.len() + name.len())
                == "' requires confirmation: confirm it with the user first"@
        }),
{
    reveal_strlit("subcommand '");
    reveal_strlit("' of tool '");
    let prompt = confirmation_prompt(name, sub);
    assert("subcommand '"@.len() == 12);
    assert("' of tool '"@.len() == 11);
    reveal_strlit("' requires confirmation: confirm it with the user first");
    assert(prompt.subrange(12, 12int + sub.len()) =~= sub);
    assert(prompt.subrange(23int + sub.len(), 23int + sub.len() + name.len()) =~= name);
    assert(prompt.skip(23int + sub.len() + name.len())
        =~= "' requires confirmation: confirm it with the user first"@);
}

/// A result that the limit cuts is a prefix of all its texts: once a text is cut,
/// nothing of the later ones is left, and nothing is cut while there is room.
pub proof fn limit_cuts_the_end_only(result: ResultView, max: nat, i: int, j: int)
    requires
        0 <= i < j < result.content.len(),
    ensures
        limited(result, max).content[i].text != result.content[i].text ==> limited(
            result,
            max,
        ).content[j].text.len() == 0,
        limited(result, max).content[i].content_type == result.content[i].content_type,
{
    let content = result.content;
    let room = room_after(content.take(i), max);
    cut_is_the_longest_prefix_that_fits(content[i].text, room);
    if limited(result, max).content[i].text != content[i].text {
        assert(content.take(i + 1).drop_last() =~= content.take(i));
        lemma_no_room_stays(content, max, i + 1, j);
        cut_is_the_longest_prefix_that_fits(content[j].text, 0);
        lemma_cut_to_nothing(content[j].text);
    }
}

proof fn lemma_no_room_stays(content: Seq<ContentView>, max: nat, i: int, j: int)
    requires
        0 <= i <= j <= content.len(),
        room_after(content.take(i), max) == 0,
    ensures
        room_after(content.take(j), max) == 0,
    decreases j,
{
    if i < j {
        lemma_no_room_stays(content, max, i, j - 1);
        assert(content.take(j).drop_last() =~= content.take(j - 1));
    }
}

proof fn lemma_cut_to_nothing(s: Seq<char>)
    ensures
        cut(s, 0).len() == 0,
{
    if s.len() > 0 {
        lemma_width_is_positive(s[0]);
    }
}

/// A call can be made of every tool that is unknown or blocked, and of any other
/// with the arguments that it takes.
pub proof fn calls_that_are_answered_can_be_made(r: RegistryView, name: Seq<char>, args: Arguments)
    ensures
        !has_name(r.tools, name) ==> call_accepted(r, name, args),
        lookup(r.tools, name) matches Some(tool) ==> {
            &&& !allows(r.policy, name, tool_privilege(tool)) ==> call_accepted(r, name, args)
            &&& tool_takes(tool, args) ==> call_accepted(r, name, args)
        },
        lookup(r.tools, name) matches Some(RegisteredTool::Shell(t)) ==> (tool_accepts(t@, args)
            ==> call_accepted(r, name, args)),
{
}

/// A registered shell tool announces its model's definition, and what a call came
/// to is shown as what it holds.
pub proof fn registered_tools_are_shown_as_they_are(tool: ShellTool, called: Called)
    ensures
        tool_definition(RegisteredTool::Shell(tool)) == definition_of(tool@),
        tool_privilege(RegisteredTool::Shell(tool)) == tool@.privilege,
        called@.prompt == optional_text(called.prompt),
        called@.invocation == called.invocation@,
{
}

/// A custom tool is announced, judged and called by what it says of itself: one that
/// needs root is blocked, whatever it would do, where root is not allowed.
pub proof fn custom_tools_speak_for_themselves(
    r: RegistryView,
    name: Seq<char>,
    tool: CustomTool,
    args: Arguments,
    called: CalledView,
)
    requires
        lookup(r.tools, name) == Some(RegisteredTool::Custom(tool)),
    ensures
        tool_definition(RegisteredTool::Custom(tool)) == tool.inner.announced(),
        tool.inner.accepts(args) ==> call_accepted(r, name, args),
        tool.inner.needs() == Privilege::Root && !r.policy.global.allow_root ==> (call_gives(
            r,
            name,
            args,
            called,
        ) <==> called == answered(blocked_tool(name, Privilege::Root))),
        tool.inner.needs() == Privilege::User && !has_name(r.policy.tools@, name) && !texts(
            r.policy.global.disabled_tools@,
        ).contains(name) && call_gives(r, name, args, called) ==> match called.invocation {
            InvocationView::Done(_) => true,
            other => tool.inner.may_invoke(args, other),
        },
{
}

} // verus!
