//! The configuration, as plain values.

use vstd::prelude::*;

use crate::orchestration::OrchestrationPolicy;
use crate::order::StringMap;
use crate::text::same;

verus! {

/// The sandbox that does not isolate.
pub const DEFAULT_SANDBOX_PROVIDER: &'static str = "local";

/// The directory of session logs, below the operations directory.
pub const RUNS_DIRNAME: &'static str = "runs";

/// The directory of recaps, below the operations directory.
pub const RECAPS_DIRNAME: &'static str = "recaps";

/// A bound on the time of a run.
#[derive(Debug, PartialEq, Eq)]
pub enum MaxSeconds {
    /// So many seconds.
    Seconds(u64),
    /// A word; `none` means no bound.
    Keyword(String),
}

/// The bound of `timeout_seconds`, of which zero means none.
pub open spec fn timeout_bound(timeout_seconds: u64) -> Option<u64> {
    if timeout_seconds == 0 {
        None
    } else {
        Some(timeout_seconds)
    }
}

/// The bound that `over` sets. A word other than `none` leaves the timeout.
pub open spec fn bound_of(over: MaxSeconds, timeout_seconds: u64) -> Option<u64> {
    match over {
        MaxSeconds::Seconds(seconds) => Some(seconds),
        MaxSeconds::Keyword(word) => if word@ == "none"@ {
            None
        } else {
            timeout_bound(timeout_seconds)
        },
    }
}

/// The bound that `over` sets.
pub fn effective_max_seconds(over: &MaxSeconds, timeout_seconds: u64) -> (bound: Option<u64>)
    ensures
        bound == bound_of(*over, timeout_seconds),
{
    match over {
        MaxSeconds::Seconds(seconds) => Some(*seconds),
        MaxSeconds::Keyword(word) => if same(word.as_str(), "none") || timeout_seconds == 0 {
            None
        } else {
            Some(timeout_seconds)
        },
    }
}

/// Settings that apply where nothing more specific is said.
#[derive(Debug, PartialEq, Eq)]
pub struct Defaults {
    /// How long a run may take, in seconds; zero means without bound.
    pub timeout_seconds: u64,
    /// Where tasks, logs and recaps lie.
    pub operations_dir: String,
    /// The sandbox of a route that names none.
    pub sandbox: Option<String>,
    /// How long a run may be silent, in seconds.
    pub idle_timeout_seconds: u64,
    /// A bound on a run that replaces `timeout_seconds`.
    pub max_seconds: Option<MaxSeconds>,
    /// How often a run may be continued.
    pub max_continuations: u32,
    /// How many tool calls a task may make; zero means any number.
    pub max_tool_calls: u64,
    /// Whether a sandbox may use the SSH agent of the host.
    pub forward_ssh_agent: bool,
    /// The name under which a sandbox commits.
    pub git_user_name: Option<String>,
    /// The address under which a sandbox commits.
    pub git_user_email: Option<String>,
    /// Files of the host that a sandbox may read to know whom it works for.
    pub identity_context: Vec<String>,
}

/// The bound that the defaults set on a run.
pub open spec fn default_bound(defaults: Defaults) -> Option<u64> {
    match defaults.max_seconds {
        Some(over) => bound_of(over, defaults.timeout_seconds),
        None => timeout_bound(defaults.timeout_seconds),
    }
}

impl Defaults {
    /// The bound that the defaults set on a run.
    pub fn effective_max_seconds(&self) -> (bound: Option<u64>)
        ensures
            bound == default_bound(*self),
    {
        match &self.max_seconds {
            Some(over) => effective_max_seconds(over, self.timeout_seconds),
            None => if self.timeout_seconds == 0 {
                None
            } else {
                Some(self.timeout_seconds)
            },
        }
    }
}

/// How an agent is spoken to.
#[derive(Debug, Clone, Copy, PartialEq, Eq, Structural)]
pub enum AgentKind {
    Acp,
}

/// Where a credential comes from and where it goes.
#[derive(Debug, PartialEq, Eq)]
pub struct CredentialConfig {
    /// Source: an environment variable of the host.
    pub from_env: Option<String>,
    /// Source: a name in the secret store of the host.
    pub from_secret: Option<String>,
    /// Source: a command of the host that prints the value.
    pub command: Option<String>,
    /// Target: an environment variable of the sandbox.
    pub env: Option<String>,
    /// Target: a file in the sandbox.
    pub file: Option<String>,
}

impl Default for CredentialConfig {
    fn default() -> (credential: Self)
        ensures
            credential == (CredentialConfig {
                from_env: None,
                from_secret: None,
                command: None,
                env: None,
                file: None,
            }),
    {
        CredentialConfig { from_env: None, from_secret: None, command: None, env: None, file: None }
    }
}

/// How an agent is started.
#[derive(Debug)]
pub struct AgentConfig {
    pub kind: AgentKind,
    pub command: String,
    pub args: Vec<String>,
    /// The largest prompt that the agent takes, in tokens.
    pub max_prompt_tokens: Option<usize>,
    pub working_dir: Option<String>,
    pub env: StringMap<String>,
    /// A single credential in the older form: the variable that it comes from.
    pub auth_token_env: Option<String>,
    /// A single credential in the older form: the variable that it goes to.
    pub auth_token_target: Option<String>,
    pub credentials: Vec<CredentialConfig>,
    pub interactive_command: Option<String>,
    pub interactive_args: Option<Vec<String>>,
    /// Whether the agent writes its output as it goes.
    pub streams_output: Option<bool>,
    pub resume_command_template: Option<String>,
    /// The agent that interprets this one's interactive sessions.
    pub interpreter_agent: Option<String>,
    pub skip_recap: bool,
}

/// A role: instructions on top of an agent.
#[derive(Debug, PartialEq, Eq)]
pub struct RoleConfig {
    /// The agent that plays the role.
    pub backend: String,
    pub instructions: Option<String>,
}

/// Which agents may work on the projects that match a pattern.
#[derive(Debug)]
pub struct Route {
    pub glob: String,
    /// Agents and roles, in order of preference.
    pub agents: Vec<String>,
    pub sandbox: Option<String>,
    pub mounts: Vec<String>,
    /// The policy of this route, where it has its own.
    pub orchestration: Option<OrchestrationPolicy>,
}

/// How a sandbox is made.
#[derive(Debug)]
pub struct SandboxConfig {
    /// What makes it: `docker`, `microsandbox` or `clawk`.
    pub primitive: String,
    pub image: Option<String>,
    /// A Dockerfile to build the image from.
    pub build: Option<String>,
    pub mounts: Vec<String>,
    /// The hosts that may be reached.
    pub egress: Vec<String>,
    pub env: StringMap<String>,
}

/// The sandbox of a project, put together from what the configuration and the
/// project's own `.varda` file say.
#[derive(Debug)]
pub struct ResolvedSandbox {
    pub name: String,
    pub config: SandboxConfig,
    pub route_mounts: Vec<String>,
    pub varda_mounts: Vec<String>,
    pub env: StringMap<String>,
    /// The keys of `env` that the `.varda` file declares.
    pub varda_env_keys: Vec<String>,
    /// The `.varda` file, where there is one.
    pub varda_file: Option<String>,
}

/// Whether changes are committed.
#[derive(Debug, Clone, Copy, PartialEq, Eq, Structural)]
pub struct GitConfig {
    pub auto_commit: bool,
}

/// The whole configuration.
#[derive(Debug)]
pub struct Config {
    pub defaults: Defaults,
    /// Routes, the first that matches counting.
    pub routes: Vec<Route>,
    pub agents: StringMap<AgentConfig>,
    pub roles: StringMap<RoleConfig>,
    pub git: GitConfig,
    pub sandboxes: StringMap<SandboxConfig>,
    pub orchestration: OrchestrationPolicy,
}

/// The sandbox of a route: its own, or else the default one, or else `local`.
pub open spec fn route_sandbox(config: &Config, route: &Route) -> Seq<char> {
    match route.sandbox {
        Some(name) => name@,
        None => match config.defaults.sandbox {
            Some(name) => name@,
            None => DEFAULT_SANDBOX_PROVIDER@,
        },
    }
}

impl Config {
    /// The sandbox of a route.
    pub fn effective_sandbox<'a>(&'a self, route: &'a Route) -> (name: &'a str)
        ensures
            name@ == route_sandbox(self, route),
    {
        match &route.sandbox {
            Some(name) => name.as_str(),
            None => match &self.defaults.sandbox {
                Some(name) => name.as_str(),
                None => DEFAULT_SANDBOX_PROVIDER,
            },
        }
    }
}

/// Whether what makes a sandbox runs a virtual machine, which reaches the broker
/// over TCP and not over a socket file.
pub open spec fn is_microvm(primitive: Seq<char>) -> bool {
    primitive == "microsandbox"@ || primitive == "clawk"@
}

/// Whether a sandbox made by `primitive` reaches the broker over TCP.
pub fn primitive_needs_tcp_broker(primitive: &str) -> (tcp: bool)
    ensures
        tcp == is_microvm(primitive@),
{
    same(primitive, "microsandbox") || same(primitive, "clawk")
}

// ---------------------------------------------------------------------------
// Laws
// ---------------------------------------------------------------------------

/// A bound in seconds is that bound; the word `none` means no bound, and any other word
/// means the timeout, of which zero means no bound.
pub proof fn law_bounds_on_time(over: &MaxSeconds, timeout_seconds: u64, bound: Option<u64>)
    requires
        call_ensures(effective_max_seconds, (over, timeout_seconds), bound),
    ensures
        match over {
            MaxSeconds::Seconds(seconds) => bound == Some(*seconds),
            MaxSeconds::Keyword(word) => if word@ == "none"@ || timeout_seconds == 0 {
                bound is None
            } else {
                bound == Some(timeout_seconds)
            },
        },
{
}

/// The defaults bound a run by what they say of it, or else by the timeout, of which zero
/// means no bound.
pub proof fn law_default_bounds_on_time(defaults: &Defaults, bound: Option<u64>)
    requires
        call_ensures(Defaults::effective_max_seconds, (defaults,), bound),
    ensures
        match defaults.max_seconds {
            Some(MaxSeconds::Seconds(seconds)) => bound == Some(seconds),
            Some(MaxSeconds::Keyword(word)) => if word@ == "none"@ || defaults.timeout_seconds == 0 {
                bound is None
            } else {
                bound == Some(defaults.timeout_seconds)
            },
            None => if defaults.timeout_seconds == 0 {
                bound is None
            } else {
                bound == Some(defaults.timeout_seconds)
            },
        },
{
}

/// A route runs in its own sandbox, where it names one, or else in the default one, where
/// that is named, or else in `local`.
pub proof fn law_a_route_names_its_sandbox(config: &Config, route: &Route, name: &str)
    requires
        call_ensures(Config::effective_sandbox, (config, route), name),
    ensures
        route.sandbox matches Some(own) ==> name@ == own@,
        route.sandbox is None ==> (config.defaults.sandbox matches Some(default) ==> name@ == default@),
        route.sandbox is None && config.defaults.sandbox is None ==> name@ == "local"@,
{
}

/// Virtual machines reach the broker over TCP, and they alone.
pub proof fn law_virtual_machines_need_tcp(primitive: &str, tcp: bool)
    requires
        call_ensures(primitive_needs_tcp_broker, (primitive,), tcp),
    ensures
        primitive@ == "microsandbox"@ ==> tcp,
        primitive@ == "clawk"@ ==> tcp,
        primitive@ != "microsandbox"@ && primitive@ != "clawk"@ ==> !tcp,
{
}

} // verus!
