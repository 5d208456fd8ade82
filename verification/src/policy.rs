//! Which tools may run.

use vstd::prelude::*;
use crate::table::{has_name, lookup, put_changes_one_name, Table};
use crate::text::{listed, texts};

verus! {

#[derive(Debug, Clone, Copy, PartialEq, Eq, Structural)]
pub enum Privilege {
    /// Runs as the Termux user.
    User,
    /// Runs via `su -c`: requires root.
    Root,
}

impl Privilege {
    /// The name of the privilege.
    pub open spec fn spec_label(self) -> Seq<char> {
        match self {
            Privilege::User => "User"@,
            Privilege::Root => "Root"@,
        }
    }

    pub fn label(&self) -> (r: &'static str)
        ensures
            r@ == self.spec_label(),
    {
        match self {
            Privilege::User => "User",
            Privilege::Root => "Root",
        }
    }
}

/// Fine-grained access rules for one tool.
#[derive(Debug, Clone)]
pub struct ToolAcl {
    /// Whether the tool is enabled at all.
    pub enabled: bool,
    /// If not empty, only these subcommands are allowed. The subcommand of a call
    /// is the first positional argument of the program that the tool wraps.
    pub allowed_subcommands: Vec<String>,
    /// Subcommands that the agent has to confirm with the user first. The response
    /// to a call that names one includes a prompt that says so.
    pub confirm_subcommands: Vec<String>,
    /// Subcommands that are never allowed, even if they are in
    /// `allowed_subcommands`.
    pub denied_subcommands: Vec<String>,
}

/// What `enabled` and `allow_root` are where a file leaves them out.
pub fn default_true() -> (r: bool)
    ensures
        r,
{
    true
}

/// The policy file.
#[derive(Debug)]
pub struct PolicyConfig {
    /// Global settings.
    pub global: GlobalPolicy,
    /// Access rules by tool name.
    pub tools: Table<ToolAcl>,
}

#[derive(Debug, Clone)]
pub struct GlobalPolicy {
    /// Whether root tools may run at all.
    pub allow_root: bool,
    /// Tools that are disabled by name.
    pub disabled_tools: Vec<String>,
    /// How many bytes of output a tool may return; what is beyond is cut off.
    pub max_output_bytes: usize,
}

/// What `max_output_bytes` is where a file leaves it out.
pub fn default_max_output() -> (r: usize)
    ensures
        r == 512_000,
{
    512_000
}

impl Default for GlobalPolicy {
    fn default() -> (r: Self)
        ensures
            r.allow_root,
            r.disabled_tools@.len() == 0,
            r.max_output_bytes == 512_000,
    {
        GlobalPolicy {
            allow_root: true,
            disabled_tools: Vec::new(),
            max_output_bytes: default_max_output(),
        }
    }
}

impl Default for PolicyConfig {
    fn default() -> (r: Self)
        ensures
            r.global.allow_root,
            r.global.disabled_tools@.len() == 0,
            r.global.max_output_bytes == 512_000,
            r.tools@.len() == 0,
    {
        PolicyConfig { global: GlobalPolicy::default(), tools: Table::new() }
    }
}

/// Whether a tool of the given name and privilege may run: root is allowed or
/// not needed, the name is not among the disabled ones, and its own rules, where
/// it has any, enable it.
pub open spec fn allows(config: PolicyConfig, tool: Seq<char>, privilege: Privilege) -> bool {
    &&& privilege == Privilege::Root ==> config.global.allow_root
    &&& !texts(config.global.disabled_tools@).contains(tool)
    &&& lookup(config.tools@, tool) matches Some(acl) ==> acl.enabled
}

/// What the rules say of one subcommand of a tool: whether it needs to be
/// confirmed, or why it is refused.
pub open spec fn subcommand_verdict(
    config: PolicyConfig,
    tool: Seq<char>,
    subcommand: Seq<char>,
) -> Result<bool, Seq<char>> {
    match lookup(config.tools@, tool) {
        None => Ok(false),
        Some(acl) => if texts(acl.denied_subcommands@).contains(subcommand) {
            Err("subcommand '"@ + subcommand + "' is denied for tool '"@ + tool + "'"@)
        } else if acl.allowed_subcommands@.len() > 0 && !texts(
            acl.allowed_subcommands@,
        ).contains(subcommand) {
            Err("subcommand '"@ + subcommand + "' not in allowed list for tool '"@ + tool + "'"@)
        } else {
            Ok(texts(acl.confirm_subcommands@).contains(subcommand))
        },
    }
}

/// Why a file could not be loaded.
#[derive(Debug, PartialEq, Eq)]
pub enum LoadError {
    /// The file could not be read, with what the system said.
    Read(String),
    /// The file is not what it should be, with what the parser said.
    Parse(String),
}

/// The policy that is enforced.
#[derive(Debug)]
pub struct Policy {
    config: PolicyConfig,
    disabled_set: Table<()>,
}

impl View for Policy {
    type V = PolicyConfig;

    closed spec fn view(&self) -> PolicyConfig {
        self.config
    }
}

impl Policy {
    #[verifier::type_invariant]
    spec fn disabled_set_is_current(self) -> bool {
        forall|name: Seq<char>| #[trigger]
            has_name(self.disabled_set@, name) <==> texts(
                self.config.global.disabled_tools@,
            ).contains(name)
    }

    pub fn from_config(config: PolicyConfig) -> (r: Self)
        ensures
            r@ == config,
    {
        let mut disabled_set: Table<()> = Table::new();
        let ghost names = texts(config.global.disabled_tools@);
        let mut i: usize = 0;
        while i < config.global.disabled_tools.len()
            invariant
                i <= config.global.disabled_tools.len(),
                names == texts(config.global.disabled_tools@),
                forall|name: Seq<char>| #[trigger]
                    has_name(disabled_set@, name) <==> names.take(i as int).contains(name),
            decreases config.global.disabled_tools.len() - i,
        {
            let ghost before = disabled_set@;
            disabled_set.insert(config.global.disabled_tools[i].clone(), ());
            proof {
                assert forall|name: Seq<char>| #[trigger]
                    has_name(disabled_set@, name) <==> names.take(i + 1).contains(name) by {
                    put_changes_one_name(before, names[i as int], (), name);
                    assert(has_name(before, name) <==> names.take(i as int).contains(name));
                    assert(names.take(i + 1) =~= names.take(i as int).push(names[i as int]));
                    assert(names.take(i + 1)[i as int] == names[i as int]);
                    if names.take(i as int).contains(name) {
                        let j = choose|j: int| 0 <= j < i && names.take(i as int)[j] == name;
                        assert(names.take(i + 1)[j] == name);
                    }
                }
            }
            i = i + 1;
        }
        proof {
            assert(names.take(i as int) =~= names);
        }
        Policy { config, disabled_set }
    }

    /// The policy with no restrictions.
    pub fn permissive() -> (r: Self)
        ensures
            r@.global.allow_root,
            r@.global.disabled_tools@.len() == 0,
            r@.global.max_output_bytes == 512_000,
            r@.tools@.len() == 0,
    {
        Self::from_config(PolicyConfig::default())
    }

    /// The policy of a file that was read and parsed, or why there is none.
    pub fn load(source: Result<PolicyConfig, LoadError>) -> (r: Result<Self, String>)
        ensures
            match source {
                Ok(config) => r matches Ok(policy) && policy@ == config,
                Err(LoadError::Read(e)) => r matches Err(m) && m@
                    == "failed to read policy file: "@ + e@,
                Err(LoadError::Parse(e)) => r matches Err(m) && m@ == "failed to parse policy: "@
                    + e@,
            },
    {
        match source {
            Ok(config) => Ok(Self::from_config(config)),
            Err(LoadError::Read(e)) => Err("failed to read policy file: ".to_owned().concat(&e)),
            Err(LoadError::Parse(e)) => Err("failed to parse policy: ".to_owned().concat(&e)),
        }
    }

    /// Whether a tool may run.
    pub fn is_allowed(&self, tool_name: &str, privilege: &Privilege) -> (r: bool)
        ensures
            r == allows(self@, tool_name@, *privilege),
    {
        proof {
            use_type_invariant(self);
        }
        if *privilege == Privilege::Root && !self.config.global.allow_root {
            return false;
        }
        if self.disabled_set.contains_key(tool_name) {
            return false;
        }
        match self.config.tools.get(tool_name) {
            Some(acl) => acl.enabled,
            None => true,
        }
    }

    /// Whether a subcommand of a tool may run: `Ok` says whether it needs to be
    /// confirmed, `Err` why it is refused.
    pub fn check_subcommand(&self, tool_name: &str, subcommand: &str) -> (r: Result<bool, String>)
        ensures
            match subcommand_verdict(self@, tool_name@, subcommand@) {
                Ok(confirm) => r == Ok::<bool, String>(confirm),
                Err(reason) => r matches Err(m) && m@ == reason,
            },
    {
        let acl: &ToolAcl = match self.config.tools.get(tool_name) {
            Some(acl) => acl,
            None => return Ok(false),
        };
        if listed(&acl.denied_subcommands, subcommand) {
            return Err(
                "subcommand '".to_owned().concat(subcommand).concat("' is denied for tool '").concat(
                    tool_name,
                ).concat("'"),
            );
        }
        if acl.allowed_subcommands.len() > 0 && !listed(&acl.allowed_subcommands, subcommand) {
            return Err(
                "subcommand '".to_owned().concat(subcommand).concat(
                    "' not in allowed list for tool '",
                ).concat(tool_name).concat("'"),
            );
        }
        Ok(listed(&acl.confirm_subcommands, subcommand))
    }

    pub fn max_output_bytes(&self) -> (r: usize)
        ensures
            r == self@.global.max_output_bytes,
    {
        self.config.global.max_output_bytes
    }
}

/// With `allow_root` off no root tool is allowed, whatever its own rules say.
pub proof fn root_switch_stops_every_root_tool(config: PolicyConfig, tool: Seq<char>)
    requires
        !config.global.allow_root,
    ensures
        !allows(config, tool, Privilege::Root),
{
}

/// A tool that is disabled by name is not allowed, whatever its own rules say.
pub proof fn disabled_tool_is_never_allowed(
    config: PolicyConfig,
    tool: Seq<char>,
    privilege: Privilege,
)
    requires
        texts(config.global.disabled_tools@).contains(tool),
    ensures
        !allows(config, tool, privilege),
{
}

/// A tool that would be allowed with root is allowed without it.
pub proof fn allowed_as_root_is_allowed_as_user(config: PolicyConfig, tool: Seq<char>)
    requires
        allows(config, tool, Privilege::Root),
    ensures
        allows(config, tool, Privilege::User),
{
}

/// A policy with root allowed, nothing disabled and no rules allows every tool
/// and every subcommand, and asks for no confirmation.
pub proof fn unrestricted_policy_allows_everything(
    config: PolicyConfig,
    tool: Seq<char>,
    privilege: Privilege,
    subcommand: Seq<char>,
)
    requires
        config.global.allow_root,
        config.global.disabled_tools@.len() == 0,
        config.tools@.len() == 0,
    ensures
        allows(config, tool, privilege),
        subcommand_verdict(config, tool, subcommand) == Ok::<bool, Seq<char>>(false),
{
}

/// A denied subcommand is refused even where it is in the allowed list, and
/// where there is an allowed list nothing outside of it is accepted.
pub proof fn denied_and_unlisted_subcommands_are_refused(
    config: PolicyConfig,
    tool: Seq<char>,
    acl: ToolAcl,
    subcommand: Seq<char>,
)
    requires
        lookup(config.tools@, tool) == Some(acl),
    ensures
        texts(acl.denied_subcommands@).contains(subcommand) ==> subcommand_verdict(
            config,
            tool,
            subcommand,
        ) is Err,
        acl.allowed_subcommands@.len() > 0 && !texts(acl.allowed_subcommands@).contains(subcommand)
            ==> subcommand_verdict(config, tool, subcommand) is Err,
{
}

/// A tool is allowed where nothing forbids it: root is not needed or is allowed,
/// the tool is not disabled by name, and its own rules, if any, enable it. Rules
/// that disable it forbid it.
pub proof fn tool_is_allowed_unless_forbidden(
    config: PolicyConfig,
    tool: Seq<char>,
    privilege: Privilege,
)
    ensures
        (privilege == Privilege::User || config.global.allow_root) && !texts(
            config.global.disabled_tools@,
        ).contains(tool) && lookup(config.tools@, tool) is None ==> allows(config, tool, privilege),
        lookup(config.tools@, tool) matches Some(acl) ==> {
            &&& !acl.enabled ==> !allows(config, tool, privilege)
            &&& acl.enabled && (privilege == Privilege::User || config.global.allow_root) && !texts(
                config.global.disabled_tools@,
            ).contains(tool) ==> allows(config, tool, privilege)
        },
{
}

/// The rules of a tool that are not about it change nothing of what is allowed:
/// two policies that agree on the switch, on whether the tool is disabled and on
/// its own rules, agree on the tool and on its subcommands.
pub proof fn only_the_rules_of_a_tool_decide(
    a: PolicyConfig,
    b: PolicyConfig,
    tool: Seq<char>,
    privilege: Privilege,
    subcommand: Seq<char>,
)
    requires
        a.global.allow_root == b.global.allow_root,
        texts(a.global.disabled_tools@).contains(tool) == texts(
            b.global.disabled_tools@,
        ).contains(tool),
        lookup(a.tools@, tool) == lookup(b.tools@, tool),
    ensures
        allows(a, tool, privilege) == allows(b, tool, privilege),
        subcommand_verdict(a, tool, subcommand) == subcommand_verdict(b, tool, subcommand),
{
}

/// A subcommand that is not denied, and is listed where there is a list, may run,
/// and has to be confirmed exactly where the rules say so; one that is denied or
/// not listed is refused with the reason, and a tool without rules refuses none.
pub proof fn subcommands_are_told_apart(
    config: PolicyConfig,
    tool: Seq<char>,
    acl: ToolAcl,
    sub: Seq<char>,
)
    ensures
        lookup(config.tools@, tool) is None ==> subcommand_verdict(config, tool, sub) == Ok::<
            bool,
            Seq<char>,
        >(false),
        lookup(config.tools@, tool) == Some(acl) ==> {
            let denied = texts(acl.denied_subcommands@).contains(sub);
            let open = acl.allowed_subcommands@.len() == 0 || texts(
                acl.allowed_subcommands@,
            ).contains(sub);
            &&& denied ==> subcommand_verdict(config, tool, sub) == Err::<bool, Seq<char>>(
                "subcommand '"@ + sub + "' is denied for tool '"@ + tool + "'"@,
            )
            &&& !denied && !open ==> subcommand_verdict(config, tool, sub) == Err::<bool, Seq<char>>(
                "subcommand '"@ + sub + "' not in allowed list for tool '"@ + tool + "'"@,
            )
            &&& !denied && open ==> subcommand_verdict(config, tool, sub) == Ok::<bool, Seq<char>>(
                texts(acl.confirm_subcommands@).contains(sub),
            )
        },
{
}

} // verus!
