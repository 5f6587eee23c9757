//! The resident: the confined agent that drives a project and spawns the others.

use vstd::prelude::*;
use vstd::string::*;

use crate::collect::duplicate_strings;
use crate::config::{route_sandbox, Config, ResolvedSandbox, Route, SandboxConfig, DEFAULT_SANDBOX_PROVIDER};
use crate::credentials::{all_credentials, credential_views, env_target, CredentialTarget, CredentialView};
use crate::mounts::{mount_meaning, parse_mount};
use crate::order::{copy_texts, StringMap};
use crate::orchestration::OrchestrationPolicy;
use crate::paths::{below, file_stem, file_stem_of, join_path, paths_agree, same_path};
use crate::routing::{
    find_route, is_first_route, lemma_project_agent_is_unique, match_route, policy_of, project_routed, resolve_orchestration_for,
    routes_to, RouteMatch,
};
use crate::task::{copy_text, TaskDocument, TaskFrontmatter, TaskStatus, TaskSummary};
use crate::text::{cat3, contains, holds, same};

verus! {

// ---------------------------------------------------------------------------
// The sandbox of a project
// ---------------------------------------------------------------------------

/// The sandbox that a project is given: the one pinned onto the task, or else that of
/// the route that matches, or else the default one, or else `local`.
pub open spec fn named_sandbox(config: &Config, route: Result<&Route, String>, pinned: Option<Seq<char>>) -> Seq<char> {
    match pinned {
        Some(name) => name,
        None => match route {
            Ok(route) => route_sandbox(config, route),
            Err(_) => match config.defaults.sandbox {
                Some(name) => name@,
                None => DEFAULT_SANDBOX_PROVIDER@,
            },
        },
    }
}

/// The report of a sandbox that the configuration does not have.
pub open spec fn undefined_sandbox_text(name: Seq<char>) -> Seq<char> {
    "sandbox '"@ + name + "' is not defined as a central [sandboxes."@ + name + "]"@
}

/// Whether two sandboxes are declared alike.
pub open spec fn declared_alike(a: SandboxConfig, b: SandboxConfig) -> bool {
    &&& a.primitive@ == b.primitive@
    &&& a.image.deep_view() == b.image.deep_view()
    &&& a.build.deep_view() == b.build.deep_view()
    &&& a.mounts.deep_view() == b.mounts.deep_view()
    &&& a.egress.deep_view() == b.egress.deep_view()
    &&& a.env@.dom() == b.env@.dom()
    &&& forall|k: Seq<char>| #[trigger] b.env@.dom().contains(k) ==> a.env@[k]@ == b.env@[k]@
}

/// Whether `found` is the sandbox `name` of the configuration. `local` need not be
/// declared.
pub open spec fn central(config: &Config, name: Seq<char>, mounts: Seq<Seq<char>>, found: Result<ResolvedSandbox, String>) -> bool {
    match found {
        Ok(found) => {
            &&& found.name@ == name
            &&& if config.sandboxes@.dom().contains(name) {
                declared_alike(found.config, config.sandboxes@[name])
            } else {
                &&& name == DEFAULT_SANDBOX_PROVIDER@
                &&& found.config.primitive@ == DEFAULT_SANDBOX_PROVIDER@
                &&& found.config.image is None
                &&& found.config.build is None
                &&& found.config.mounts@.len() == 0
                &&& found.config.egress@.len() == 0
                &&& found.config.env@ == Map::<Seq<char>, String>::empty()
            }
            &&& found.route_mounts.deep_view() == mounts
            &&& found.varda_mounts@.len() == 0
            &&& found.env@.dom() == found.config.env@.dom()
            &&& forall|k: Seq<char>| #[trigger] found.config.env@.dom().contains(k) ==> found.env@[k]@ == found.config.env@[k]@
            &&& found.varda_env_keys@.len() == 0
            &&& found.varda_file is None
        },
        Err(text) => {
            &&& !config.sandboxes@.dom().contains(name)
            &&& name != DEFAULT_SANDBOX_PROVIDER@
            &&& text@ == undefined_sandbox_text(name)
        },
    }
}

fn copy_sandbox(sandbox: &SandboxConfig) -> (copy: SandboxConfig)
    ensures
        declared_alike(copy, *sandbox),
{
    SandboxConfig {
        primitive: sandbox.primitive.clone(),
        image: copy_text(&sandbox.image),
        build: copy_text(&sandbox.build),
        mounts: duplicate_strings(&sandbox.mounts),
        egress: duplicate_strings(&sandbox.egress),
        env: copy_texts(&sandbox.env),
    }
}

/// The sandbox of a project, as far as the configuration decides: what a project's own
/// file says is not taken into account.
pub fn resolve_central_sandbox(config: &Config, project_path: &str, pinned: Option<&str>) -> (found: Result<
    ResolvedSandbox,
    String,
>)
    ensures
        exists|route: Result<&Route, String>| #[trigger]
            routes_to(config, project_path@, route) && central(
                config,
                named_sandbox(config, route, pinned.deep_view()),
                match route {
                    Ok(route) => route.mounts.deep_view(),
                    Err(_) => Seq::empty(),
                },
                found,
            ),
{
    let route = find_route(config, project_path);
    assert(routes_to(config, project_path@, route));
    let name = match pinned {
        Some(name) => name,
        None => match &route {
            Ok(route) => config.effective_sandbox(route),
            Err(_) => match &config.defaults.sandbox {
                Some(name) => name.as_str(),
                None => DEFAULT_SANDBOX_PROVIDER,
            },
        },
    };
    let route_mounts = match &route {
        Ok(route) => duplicate_strings(&route.mounts),
        Err(_) => Vec::new(),
    };
    assert(route is Err ==> route_mounts.deep_view() =~= Seq::empty());
    let sandbox = match config.sandboxes.get(name) {
        Some(sandbox) => copy_sandbox(sandbox),
        None => {
            if !same(name, DEFAULT_SANDBOX_PROVIDER) {
                return Err(
                    "sandbox '".to_owned().concat(name).concat("' is not defined as a central [sandboxes.").concat(
                        name,
                    ).concat("]"),
                );
            }
            SandboxConfig {
                primitive: DEFAULT_SANDBOX_PROVIDER.to_owned(),
                image: None,
                build: None,
                mounts: Vec::new(),
                egress: Vec::new(),
                env: StringMap::new(),
            }
        },
    };
    let env = copy_texts(&sandbox.env);
    Ok(
        ResolvedSandbox {
            name: name.to_owned(),
            config: sandbox,
            route_mounts,
            varda_mounts: Vec::new(),
            env,
            varda_env_keys: Vec::new(),
            varda_file: None,
        },
    )
}

/// What makes the sandbox of a project; `local` where it cannot be told.
pub fn resolve_sandbox_primitive(resolved: &Result<ResolvedSandbox, String>) -> (primitive: String)
    ensures
        primitive@ == (match *resolved {
            Ok(resolved) => resolved.config.primitive@,
            Err(_) => DEFAULT_SANDBOX_PROVIDER@,
        }),
{
    match resolved {
        Ok(resolved) => resolved.config.primitive.clone(),
        Err(_) => DEFAULT_SANDBOX_PROVIDER.to_owned(),
    }
}

// ---------------------------------------------------------------------------
// What a resident may have
// ---------------------------------------------------------------------------

/// The hosts of the providers of language models, which a resident may reach.
pub open spec fn llm_host(host: Seq<char>) -> bool {
    ||| host == "api.anthropic.com"@
    ||| host == "api.openai.com"@
    ||| host == "generativelanguage.googleapis.com"@
    ||| host == "api.githubcopilot.com"@
}

fn is_llm_host(host: &str) -> (llm: bool)
    ensures
        llm == llm_host(host@),
{
    same(host, "api.anthropic.com") || same(host, "api.openai.com") || same(
        host,
        "generativelanguage.googleapis.com",
    ) || same(host, "api.githubcopilot.com")
}

/// The variables that let their holder push to a remote repository.
pub open spec fn push_key(key: Seq<char>) -> bool {
    ||| key == "GITHUB_TOKEN"@
    ||| key == "GH_TOKEN"@
    ||| key == "GITLAB_TOKEN"@
    ||| key == "GIT_ASKPASS"@
    ||| key == "GIT_SSH_COMMAND"@
    ||| key == "SSH_AUTH_SOCK"@
}

fn is_push_key(key: &str) -> (push: bool)
    ensures
        push == push_key(key@),
{
    same(key, "GITHUB_TOKEN") || same(key, "GH_TOKEN") || same(key, "GITLAB_TOKEN") || same(key, "GIT_ASKPASS") || same(
        key,
        "GIT_SSH_COMMAND",
    ) || same(key, "SSH_AUTH_SOCK")
}

/// What makes a sandbox that isolates.
pub open spec fn isolating(primitive: Seq<char>) -> bool {
    primitive == "docker"@ || primitive == "microsandbox"@ || primitive == "clawk"@
}

/// The first of `hosts` that belongs to no provider of language models.
pub open spec fn foreign_host(hosts: Seq<Seq<char>>) -> Option<Seq<char>>
    decreases hosts.len(),
{
    if hosts.len() == 0 {
        None
    } else if !llm_host(hosts[0]) {
        Some(hosts[0])
    } else {
        foreign_host(hosts.drop_first())
    }
}

/// The first of `credentials` that lets its holder push.
pub open spec fn push_credential(credentials: Seq<CredentialView>) -> Option<Seq<char>>
    decreases credentials.len(),
{
    if credentials.len() == 0 {
        None
    } else {
        match env_target(credentials[0]) {
            Some(name) => if push_key(name) {
                Some(name)
            } else {
                push_credential(credentials.drop_first())
            },
            None => push_credential(credentials.drop_first()),
        }
    }
}

/// The first of `keys` that lets its holder push.
pub open spec fn push_variable(keys: Seq<Seq<char>>) -> Option<Seq<char>>
    decreases keys.len(),
{
    if keys.len() == 0 {
        None
    } else if push_key(keys[0]) {
        Some(keys[0])
    } else {
        push_variable(keys.drop_first())
    }
}

/// Whether a mount gives the workspace, and lets it be written.
pub open spec fn gives_workspace(raw: Seq<char>, workspace: Seq<char>) -> bool {
    match mount_meaning(raw) {
        Ok(mount) => mount.writable && same_path(mount.source, workspace),
        Err(_) => false,
    }
}

/// Whether any of `mounts` gives the workspace.
pub open spec fn workspace_given(mounts: Seq<Seq<char>>, workspace: Seq<char>) -> bool {
    exists|i: int| 0 <= i < mounts.len() && gives_workspace(#[trigger] mounts[i], workspace)
}

/// The mounts of a sandbox, from wherever they were declared.
pub open spec fn all_mounts(resolved: &ResolvedSandbox) -> Seq<Seq<char>> {
    resolved.config.mounts.deep_view() + resolved.route_mounts.deep_view() + resolved.varda_mounts.deep_view()
}

/// The report of a credential to push.
pub open spec fn push_text(key: Seq<char>) -> Seq<char> {
    "the resident must not hold a push credential: '"@ + key + "' would let it push to a remote"@
}

/// Why a resident may not be started, if it may not: it is to run in an isolating
/// sandbox that reaches nothing but its language model, with its workspace mounted for
/// writing, without anything to push with, and with the means to spawn.
pub open spec fn resident_fault(
    agent: Seq<char>,
    resolved: &ResolvedSandbox,
    workspace: Seq<char>,
    credentials: Seq<CredentialView>,
    agent_env: Seq<Seq<char>>,
    forward_ssh_agent: bool,
    enabled: bool,
) -> Option<Seq<char>> {
    let foreign = foreign_host(resolved.config.egress.deep_view());
    let credential = push_credential(credentials);
    let variable = push_variable(agent_env);
    let static_variable = push_variable(resolved.env.keys());
    if !isolating(resolved.config.primitive@) {
        Some(
            "the resident '"@ + agent + "' must run in an isolating sandbox, and '"@ + resolved.name@ + "' is made by '"@
                + resolved.config.primitive@ + "'"@,
        )
    } else if foreign is Some {
        Some(
            "the resident may reach its LLM provider only, and the sandbox '"@ + resolved.name@ + "' lets it reach '"@
                + foreign->0 + "'"@,
        )
    } else if credential is Some {
        Some(push_text(credential->0))
    } else if variable is Some {
        Some(push_text(variable->0))
    } else if static_variable is Some {
        Some(push_text(static_variable->0))
    } else if forward_ssh_agent {
        Some(push_text("SSH_AUTH_SOCK"@))
    } else if !workspace_given(all_mounts(resolved), workspace) {
        Some("the workspace "@ + workspace + " is not mounted read-write into the sandbox '"@ + resolved.name@ + "'"@)
    } else if !enabled {
        Some("the resident needs orchestration to be enabled for its workspace"@)
    } else {
        None
    }
}

fn first_foreign_host(hosts: &Vec<String>) -> (found: Option<String>)
    ensures
        found.deep_view() == foreign_host(hosts.deep_view()),
{
    let ghost all = hosts.deep_view();
    let mut i: usize = 0;
    assert(all.skip(0) =~= all);
    while i < hosts.len()
        invariant
            all == hosts.deep_view(),
            i <= hosts@.len(),
            foreign_host(all) == foreign_host(all.skip(i as int)),
        decreases hosts@.len() - i,
    {
        assert(all.skip(i as int)[0] == hosts@[i as int]@);
        assert(all.skip(i as int).drop_first() =~= all.skip(i + 1));
        if !is_llm_host(hosts[i].as_str()) {
            return Some(hosts[i].clone());
        }
        i += 1;
    }
    None
}

fn first_push_credential(credentials: &Vec<crate::config::CredentialConfig>) -> (found: Option<String>)
    ensures
        found.deep_view() == push_credential(credential_views(credentials@)),
{
    let ghost all = credential_views(credentials@);
    let mut i: usize = 0;
    assert(all.skip(0) =~= all);
    while i < credentials.len()
        invariant
            all == credential_views(credentials@),
            i <= credentials@.len(),
            push_credential(all) == push_credential(all.skip(i as int)),
        decreases credentials@.len() - i,
    {
        assert(all.skip(i as int)[0] == credentials@[i as int]@);
        assert(all.skip(i as int).drop_first() =~= all.skip(i + 1));
        if let Ok(CredentialTarget::Env(name)) = credentials[i].target() {
            if is_push_key(name.as_str()) {
                return Some(name);
            }
        }
        i += 1;
    }
    None
}

fn first_push_variable(env: &StringMap<String>) -> (found: Option<String>)
    ensures
        found.deep_view() == push_variable(env.keys()),
{
    let ghost all = env.keys();
    let count = env.len();
    let mut i: usize = 0;
    assert(all.skip(0) =~= all);
    while i < count
        invariant
            all == env.keys(),
            count == all.len(),
            i <= count,
            push_variable(all) == push_variable(all.skip(i as int)),
        decreases count - i,
    {
        let key = env.key_at(i);
        assert(all.skip(i as int)[0] == key@);
        assert(all.skip(i as int).drop_first() =~= all.skip(i + 1));
        if is_push_key(key.as_str()) {
            return Some(key.clone());
        }
        i += 1;
    }
    None
}

fn any_gives_workspace(mounts: &Vec<String>, workspace: &str) -> (given: bool)
    ensures
        given == workspace_given(mounts.deep_view(), workspace@),
{
    let mut i: usize = 0;
    while i < mounts.len()
        invariant
            i <= mounts@.len(),
            forall|j: int| 0 <= j < i ==> !gives_workspace(#[trigger] mounts.deep_view()[j], workspace@),
        decreases mounts@.len() - i,
    {
        assert(mounts.deep_view()[i as int] == mounts@[i as int]@);
        if let Ok(mount) = parse_mount(mounts[i].as_str()) {
            if mount.writable && paths_agree(mount.source.as_str(), workspace) {
                assert(gives_workspace(mounts.deep_view()[i as int], workspace@));
                return true;
            }
        }
        i += 1;
    }
    false
}

/// Refuses a resident that may not be started.
pub fn enforce_resident_launch(
    agent: &str,
    resolved: &ResolvedSandbox,
    workspace: &str,
    agent_config: &crate::config::AgentConfig,
    forward_ssh_agent: bool,
    orchestration: &OrchestrationPolicy,
) -> (verdict: Result<(), String>)
    ensures
        ({
            let fault = resident_fault(
                agent@,
                resolved,
                workspace@,
                all_credentials(agent_config),
                agent_config.env.keys(),
                forward_ssh_agent,
                orchestration.enabled,
            );
            match verdict {
                Ok(()) => fault is None,
                Err(text) => fault == Some(text@),
            }
        }),
{
    let primitive = resolved.config.primitive.as_str();
    if !(same(primitive, "docker") || same(primitive, "microsandbox") || same(primitive, "clawk")) {
        return Err(
            "the resident '".to_owned().concat(agent).concat("' must run in an isolating sandbox, and '").concat(
                resolved.name.as_str(),
            ).concat("' is made by '").concat(primitive).concat("'"),
        );
    }
    if let Some(host) = first_foreign_host(&resolved.config.egress) {
        return Err(
            "the resident may reach its LLM provider only, and the sandbox '".to_owned().concat(
                resolved.name.as_str(),
            ).concat("' lets it reach '").concat(host.as_str()).concat("'"),
        );
    }
    let credential = first_push_credential(&agent_config.effective_credentials());
    let variable = first_push_variable(&agent_config.env);
    let static_variable = first_push_variable(&resolved.env);
    let held = match credential {
        Some(name) => Some(name),
        None => match variable {
            Some(name) => Some(name),
            None => match static_variable {
                Some(name) => Some(name),
                None => if forward_ssh_agent {
                    Some("SSH_AUTH_SOCK".to_owned())
                } else {
                    None
                },
            },
        },
    };
    if let Some(key) = held {
        return Err(
            cat3(
                "the resident must not hold a push credential: '",
                key.as_str(),
                "' would let it push to a remote",
            ),
        );
    }
    let mut given = any_gives_workspace(&resolved.config.mounts, workspace);
    if !given {
        given = any_gives_workspace(&resolved.route_mounts, workspace);
    }
    if !given {
        given = any_gives_workspace(&resolved.varda_mounts, workspace);
    }
    proof {
        lemma_any_mounts(resolved, workspace@);
    }
    if !given {
        return Err(
            "the workspace ".to_owned().concat(workspace).concat(
                " is not mounted read-write into the sandbox '",
            ).concat(resolved.name.as_str()).concat("'"),
        );
    }
    if !orchestration.enabled {
        return Err("the resident needs orchestration to be enabled for its workspace".to_owned());
    }
    Ok(())
}

/// The workspace is given by one of the origins, or by none.
proof fn lemma_any_mounts(resolved: &ResolvedSandbox, workspace: Seq<char>)
    ensures
        workspace_given(all_mounts(resolved), workspace) == (workspace_given(
            resolved.config.mounts.deep_view(),
            workspace,
        ) || workspace_given(resolved.route_mounts.deep_view(), workspace) || workspace_given(
            resolved.varda_mounts.deep_view(),
            workspace,
        )),
{
    let a = resolved.config.mounts.deep_view();
    let b = resolved.route_mounts.deep_view();
    let c = resolved.varda_mounts.deep_view();
    let all = all_mounts(resolved);
    if workspace_given(a, workspace) {
        let i = choose|i: int| 0 <= i < a.len() && gives_workspace(#[trigger] a[i], workspace);
        assert(all[i] == a[i]);
    }
    if workspace_given(b, workspace) {
        let i = choose|i: int| 0 <= i < b.len() && gives_workspace(#[trigger] b[i], workspace);
        assert(all[a.len() + i] == b[i]);
    }
    if workspace_given(c, workspace) {
        let i = choose|i: int| 0 <= i < c.len() && gives_workspace(#[trigger] c[i], workspace);
        assert(all[a.len() + b.len() + i] == c[i]);
    }
    if workspace_given(all, workspace) {
        let i = choose|i: int| 0 <= i < all.len() && gives_workspace(#[trigger] all[i], workspace);
        if i < a.len() {
            assert(a[i] == all[i]);
        } else if i < a.len() + b.len() {
            assert(b[i - a.len()] == all[i]);
        } else {
            assert(c[i - a.len() - b.len()] == all[i]);
        }
    }
}

/// A resident that may be started is confined: it cannot push, and it reaches nothing
/// but the providers of language models.
pub proof fn law_residents_are_confined(
    agent: Seq<char>,
    resolved: &ResolvedSandbox,
    workspace: Seq<char>,
    credentials: Seq<CredentialView>,
    agent_env: Seq<Seq<char>>,
    forward_ssh_agent: bool,
    enabled: bool,
)
    requires
        resident_fault(agent, resolved, workspace, credentials, agent_env, forward_ssh_agent, enabled) is None,
    ensures
        resolved.config.primitive@ != "local"@,
        forall|host: Seq<char>| #[trigger] resolved.config.egress.deep_view().contains(host) ==> llm_host(host),
        forall|i: int|
            0 <= i < credentials.len() ==> (env_target(#[trigger] credentials[i]) matches Some(name) ==> !push_key(
                name,
            )),
        forall|key: Seq<char>| #[trigger] agent_env.contains(key) ==> !push_key(key),
        forall|key: Seq<char>| #[trigger] resolved.env.keys().contains(key) ==> !push_key(key),
        !forward_ssh_agent,
        enabled,
{
    reveal_strlit("local");
    reveal_strlit("docker");
    reveal_strlit("microsandbox");
    reveal_strlit("clawk");
    assert("local"@.len() == 5 && "docker"@.len() == 6 && "microsandbox"@.len() == 12);
    assert("local"@[0] == 'l' && "clawk"@[0] == 'c');
    assert forall|host: Seq<char>| #[trigger] resolved.config.egress.deep_view().contains(host) implies llm_host(host) by {
        lemma_no_foreign_host(resolved.config.egress.deep_view(), host);
    }
    assert forall|i: int| 0 <= i < credentials.len() implies (env_target(#[trigger] credentials[i]) matches Some(
        name,
    ) ==> !push_key(name)) by {
        lemma_no_push_credential(credentials, i);
    }
    assert forall|key: Seq<char>| #[trigger] agent_env.contains(key) implies !push_key(key) by {
        lemma_no_push_variable(agent_env, key);
    }
    assert forall|key: Seq<char>| #[trigger] resolved.env.keys().contains(key) implies !push_key(key) by {
        lemma_no_push_variable(resolved.env.keys(), key);
    }
}

proof fn lemma_no_foreign_host(hosts: Seq<Seq<char>>, host: Seq<char>)
    requires
        foreign_host(hosts) is None,
        hosts.contains(host),
    ensures
        llm_host(host),
    decreases hosts.len(),
{
    let at = choose|at: int| 0 <= at < hosts.len() && hosts[at] == host;
    if at > 0 {
        assert(hosts.drop_first()[at - 1] == host);
        lemma_no_foreign_host(hosts.drop_first(), host);
    }
}

proof fn lemma_no_push_credential(credentials: Seq<CredentialView>, at: int)
    requires
        push_credential(credentials) is None,
        0 <= at < credentials.len(),
    ensures
        env_target(credentials[at]) matches Some(name) ==> !push_key(name),
    decreases credentials.len(),
{
    if at > 0 {
        assert(credentials.drop_first()[at - 1] == credentials[at]);
        lemma_no_push_credential(credentials.drop_first(), at - 1);
    }
}

proof fn lemma_no_push_variable(keys: Seq<Seq<char>>, key: Seq<char>)
    requires
        push_variable(keys) is None,
        keys.contains(key),
    ensures
        !push_key(key),
    decreases keys.len(),
{
    let at = choose|at: int| 0 <= at < keys.len() && keys[at] == key;
    if at > 0 {
        assert(keys.drop_first()[at - 1] == key);
        lemma_no_push_variable(keys.drop_first(), key);
    }
}

// ---------------------------------------------------------------------------
// Starting the resident
// ---------------------------------------------------------------------------

/// Where a resident runs.
#[derive(Debug, PartialEq, Eq)]
pub struct ResidentLaunch {
    pub agent: String,
    pub sandbox: String,
    pub workspace: String,
    /// Whether the broker is there for it.
    pub broker_wired: bool,
}

/// The report of a workspace that no route matches.
pub open spec fn no_workspace_route_text(workspace: Seq<char>) -> Seq<char> {
    "no route matches the orchestration workspace "@ + workspace
        + "; add a `[[routes]]` whose glob covers it (see the sandboxed-resident example in the default config)"@
}

/// Whether `launch` is where a resident runs, or the report that it may not run.
pub open spec fn launches_resident(
    config: &Config,
    workspace: Seq<char>,
    resolved: &ResolvedSandbox,
    launch: Result<ResidentLaunch, String>,
) -> bool {
    exists|routed: Result<RouteMatch, String>, policy: &OrchestrationPolicy| {
        &&& #[trigger] project_routed(config, workspace, None, routed)
        &&& #[trigger] policy_of(config, workspace, policy)
        &&& match routed {
            Err(cause) => launch matches Err(text) && text@ == no_workspace_route_text(workspace) + ": "@ + cause@,
            Ok(route) => {
                let agent_config = config.agents@[route.agent@];
                match resident_fault(
                    route.agent@,
                    resolved,
                    workspace,
                    all_credentials(&agent_config),
                    agent_config.env.keys(),
                    config.defaults.forward_ssh_agent,
                    policy.enabled,
                ) {
                    Some(fault) => launch matches Err(text) && text@ == fault,
                    None => launch matches Ok(launch) && launch.agent@ == route.shown_name() && launch.sandbox@
                        == resolved.name@ && launch.workspace@ == workspace && launch.broker_wired,
                }
            },
        }
    }
}

/// Whether whoever a workspace is routed to is an agent of the configuration.
pub open spec fn resident_is_known(config: &Config, workspace: Seq<char>) -> bool {
    forall|route: RouteMatch| #[trigger]
        project_routed(config, workspace, None, Ok(route)) ==> config.agents@.dom().contains(route.agent@)
}

/// Decides where the resident of a workspace runs, whose sandbox is `resolved`.
pub fn resolve_resident_launch(config: &Config, workspace: &str, resolved: &ResolvedSandbox) -> (launch: Result<
    ResidentLaunch,
    String,
>)
    requires
        resident_is_known(config, workspace@),
    ensures
        launches_resident(config, workspace@, resolved, launch),
{
    let routed = match_route(config, workspace, None);
    let policy = resolve_orchestration_for(config, workspace);
    assert(project_routed(config, workspace@, None, routed));
    assert(policy_of(config, workspace@, policy));
    let route = match &routed {
        Ok(route) => route,
        Err(cause) => {
            return Err(
                "no route matches the orchestration workspace ".to_owned().concat(workspace).concat(
                    "; add a `[[routes]]` whose glob covers it (see the sandboxed-resident example in the default config)",
                ).concat(": ").concat(cause.as_str()),
            );
        },
    };
    let agent_config = match config.agents.get(route.agent.as_str()) {
        Some(agent_config) => agent_config,
        None => {
            assert(false);
            return Err(String::new());
        },
    };
    match enforce_resident_launch(
        route.agent.as_str(),
        resolved,
        workspace,
        agent_config,
        config.defaults.forward_ssh_agent,
        policy,
    ) {
        Ok(()) => Ok(
            ResidentLaunch {
                agent: route.display_name().to_owned(),
                sandbox: resolved.name.clone(),
                workspace: workspace.to_owned(),
                broker_wired: policy.enabled,
            },
        ),
        Err(text) => Err(text),
    }
}

/// Decides where the resident of a workspace runs, or finds that the workspace is routed
/// to a role that takes the name of an agent without having an agent behind it.
pub fn checked_resident_launch(config: &Config, workspace: &str, resolved: &ResolvedSandbox) -> (checked: Option<
    Result<ResidentLaunch, String>,
>)
    ensures
        match checked {
            Some(launch) => resident_is_known(config, workspace@) && launches_resident(
                config,
                workspace@,
                resolved,
                launch,
            ),
            None => !resident_is_known(config, workspace@),
        },
{
    let routed = match_route(config, workspace, None);
    assert(project_routed(config, workspace@, None, routed));
    if let Ok(route) = &routed {
        if !config.agents.contains(route.agent.as_str()) {
            assert(project_routed(config, workspace@, None, Ok(*route)));
            return None;
        }
    }
    assert forall|other: RouteMatch| #[trigger] project_routed(
        config,
        workspace@,
        None,
        Ok(other),
    ) implies config.agents@.dom().contains(other.agent@) by {
        lemma_project_agent_is_unique(config, workspace@, None, routed, Ok(other));
    }
    Some(resolve_resident_launch(config, workspace, resolved))
}

/// What is shown before a resident is started.
pub fn launch_report(launch: &ResidentLaunch, interactive: bool) -> (text: String)
    ensures
        text@ == "orchestrate: resident launch validated\n  workspace:  "@ + launch.workspace@
            + " (mounted rw)\n  sandbox:    "@ + launch.sandbox@ + " (isolating, net-denied)\n  agent:      "@
            + launch.agent@ + "\n  push creds: none (push is a separate, human-gated host step)\n  broker:     "@ + (
        if launch.broker_wired {
            "wired (spawn_subtask available to the resident)"@
        } else {
            "off"@
        }) + "\n  mode:       "@ + (if interactive {
            "interactive (TTY attached, operator in the conversation)"@
        } else {
            "headless (autonomous until terminal / needs_user)"@
        }) + "\n"@,
{
    let broker = if launch.broker_wired {
        "wired (spawn_subtask available to the resident)"
    } else {
        "off"
    };
    let mode = if interactive {
        "interactive (TTY attached, operator in the conversation)"
    } else {
        "headless (autonomous until terminal / needs_user)"
    };
    "orchestrate: resident launch validated\n  workspace:  ".to_owned().concat(launch.workspace.as_str()).concat(
        " (mounted rw)\n  sandbox:    ",
    ).concat(launch.sandbox.as_str()).concat(" (isolating, net-denied)\n  agent:      ").concat(
        launch.agent.as_str(),
    ).concat("\n  push creds: none (push is a separate, human-gated host step)\n  broker:     ").concat(broker).concat(
        "\n  mode:       ",
    ).concat(mode).concat("\n")
}

/// The name of the resident's task.
pub const RESIDENT_TASK_NAME: &'static str = "resident-orchestrator";

/// The body of the resident's task.
pub const RESIDENT_TASK_BODY: &'static str =
    "# Resident orchestrator\n\nYou are the Varda self-hosting RESIDENT. You run inside an isolating sandbox whose egress is restricted to your LLM provider API ONLY (no `github.com`, no general hosts) with this workspace mounted read-write. Your contract — the dev loop you execute — is defined in `.varda/WORKFLOW.md` in this workspace. Read it and follow it.\n\nSpawn workers through the Varda spawn broker (`spawn_subtask`); merge their branches in-box against the mounted workspace. You can reach ONLY your LLM API and have NO push credential and NO route to a remote: pushing back out is a separate, human-gated step performed on the host. Stop and signal `needs_user` when the workflow calls for a human decision.\n";

/// The workspace of a resident where none is named.
pub fn default_workspace(varda_home: &str) -> (path: String)
    ensures
        path@ == below(below(varda_home@, "orchestrate"@), "workspace"@),
{
    let base = join_path(varda_home, "orchestrate");
    join_path(base.as_str(), "workspace")
}

/// Whether a file is that of a resident's task.
pub open spec fn is_resident_file(path: Seq<char>) -> bool {
    match file_stem_of(path) {
        Some(stem) => holds(stem, RESIDENT_TASK_NAME@),
        None => false,
    }
}

/// The first of the tasks of a workspace that is a resident's, where there is one.
pub fn find_resident_task(tasks: &Vec<TaskSummary>) -> (at: Option<usize>)
    ensures
        match at {
            Some(at) => at < tasks@.len() && is_resident_file(tasks@[at as int].path@) && forall|i: int|
                0 <= i < at ==> !is_resident_file((#[trigger] tasks@[i]).path@),
            None => forall|i: int| 0 <= i < tasks@.len() ==> !is_resident_file((#[trigger] tasks@[i]).path@),
        },
{
    let mut i: usize = 0;
    while i < tasks.len()
        invariant
            i <= tasks@.len(),
            forall|j: int| 0 <= j < i ==> !is_resident_file((#[trigger] tasks@[j]).path@),
        decreases tasks@.len() - i,
    {
        if let Some(stem) = file_stem(tasks[i].path.as_str()) {
            if contains(stem.as_str(), RESIDENT_TASK_NAME) {
                return Some(i);
            }
        }
        i += 1;
    }
    None
}

/// Makes the resident's task ready to be run again. Only its status changes, and one
/// that is put off is left so.
pub fn ensure_resident_task_ready(task: &mut TaskDocument) -> (changed: bool)
    ensures
        changed == (old(task).frontmatter.status != TaskStatus::Ready && old(task).frontmatter.status
            != TaskStatus::Backlog),
        *final(task) == (if changed {
            TaskDocument {
                frontmatter: TaskFrontmatter { status: TaskStatus::Ready, ..old(task).frontmatter },
                ..*old(task)
            }
        } else {
            *old(task)
        }),
{
    if task.frontmatter.status != TaskStatus::Ready && task.frontmatter.status != TaskStatus::Backlog {
        task.set_status(TaskStatus::Ready);
        true
    } else {
        false
    }
}

// ---------------------------------------------------------------------------
// Laws
// ---------------------------------------------------------------------------

/// Whether a variable lets its holder push to a remote repository.
pub open spec fn lets_push(key: Seq<char>) -> bool {
    seq![
        "GITHUB_TOKEN"@,
        "GH_TOKEN"@,
        "GITLAB_TOKEN"@,
        "GIT_ASKPASS"@,
        "GIT_SSH_COMMAND"@,
        "SSH_AUTH_SOCK"@,
    ].contains(key)
}

/// Whether a host is that of a provider of language models.
pub open spec fn serves_models(host: Seq<char>) -> bool {
    seq![
        "api.anthropic.com"@,
        "api.openai.com"@,
        "generativelanguage.googleapis.com"@,
        "api.githubcopilot.com"@,
    ].contains(host)
}

proof fn lemma_lets_push(key: Seq<char>)
    ensures
        lets_push(key) == push_key(key),
{
    let all = seq![
        "GITHUB_TOKEN"@,
        "GH_TOKEN"@,
        "GITLAB_TOKEN"@,
        "GIT_ASKPASS"@,
        "GIT_SSH_COMMAND"@,
        "SSH_AUTH_SOCK"@,
    ];
    assert(all[0] == "GITHUB_TOKEN"@ && all[1] == "GH_TOKEN"@ && all[2] == "GITLAB_TOKEN"@);
    assert(all[3] == "GIT_ASKPASS"@ && all[4] == "GIT_SSH_COMMAND"@ && all[5] == "SSH_AUTH_SOCK"@);
}

proof fn lemma_serves_models(host: Seq<char>)
    ensures
        serves_models(host) == llm_host(host),
{
    let all = seq![
        "api.anthropic.com"@,
        "api.openai.com"@,
        "generativelanguage.googleapis.com"@,
        "api.githubcopilot.com"@,
    ];
    assert(all[0] == "api.anthropic.com"@ && all[1] == "api.openai.com"@);
    assert(all[2] == "generativelanguage.googleapis.com"@ && all[3] == "api.githubcopilot.com"@);
}

proof fn lemma_foreign_host_found(hosts: Seq<Seq<char>>)
    requires
        foreign_host(hosts) is Some,
    ensures
        exists|i: int| 0 <= i < hosts.len() && !llm_host(#[trigger] hosts[i]),
    decreases hosts.len(),
{
    if llm_host(hosts[0]) {
        let rest = hosts.drop_first();
        lemma_foreign_host_found(rest);
        let i = choose|i: int| 0 <= i < rest.len() && !llm_host(#[trigger] rest[i]);
        assert(hosts[i + 1] == rest[i]);
    }
}

proof fn lemma_push_credential_found(credentials: Seq<CredentialView>)
    requires
        push_credential(credentials) is Some,
    ensures
        exists|i: int|
            0 <= i < credentials.len() && env_target(#[trigger] credentials[i]) is Some && push_key(
                env_target(credentials[i])->0,
            ),
    decreases credentials.len(),
{
    let first = env_target(credentials[0]);
    if !(first is Some && push_key(first->0)) {
        let rest = credentials.drop_first();
        lemma_push_credential_found(rest);
        let i = choose|i: int|
            0 <= i < rest.len() && env_target(#[trigger] rest[i]) is Some && push_key(env_target(rest[i])->0);
        assert(credentials[i + 1] == rest[i]);
    }
}

proof fn lemma_push_variable_found(keys: Seq<Seq<char>>)
    requires
        push_variable(keys) is Some,
    ensures
        exists|i: int| 0 <= i < keys.len() && push_key(#[trigger] keys[i]),
    decreases keys.len(),
{
    if !push_key(keys[0]) {
        let rest = keys.drop_first();
        lemma_push_variable_found(rest);
        let i = choose|i: int| 0 <= i < rest.len() && push_key(#[trigger] rest[i]);
        assert(keys[i + 1] == rest[i]);
    }
}

/// A resident may be started exactly where its sandbox is a container or a virtual machine
/// that reaches nothing but providers of language models, nothing that it is given lets it
/// push, no credential, no variable of its own or of the sandbox, and no SSH agent, its
/// workspace is mounted for writing, and sub-tasks are enabled.
pub proof fn law_residents_start_where_they_are_confined(
    agent: &str,
    resolved: &ResolvedSandbox,
    workspace: &str,
    agent_config: &crate::config::AgentConfig,
    credentials: Vec<crate::config::CredentialConfig>,
    forward_ssh_agent: bool,
    orchestration: &OrchestrationPolicy,
    verdict: Result<(), String>,
)
    requires
        call_ensures(crate::config::AgentConfig::effective_credentials, (agent_config,), credentials),
        call_ensures(
            enforce_resident_launch,
            (agent, resolved, workspace, agent_config, forward_ssh_agent, orchestration),
            verdict,
        ),
    ensures
        verdict is Ok <==> {
            let made_by = resolved.config.primitive@;
            &&& made_by == "docker"@ || made_by == "microsandbox"@ || made_by == "clawk"@
            &&& forall|i: int|
                0 <= i < resolved.config.egress@.len() ==> serves_models((#[trigger] resolved.config.egress@[i])@)
            &&& forall|i: int|
                0 <= i < credentials@.len() && (#[trigger] credentials@[i]).env is Some && credentials@[i].file is None
                    ==> !lets_push(credentials@[i].env->0@)
            &&& forall|i: int|
                0 <= i < agent_config.env.keys().len() ==> !lets_push(#[trigger] agent_config.env.keys()[i])
            &&& forall|i: int| 0 <= i < resolved.env.keys().len() ==> !lets_push(#[trigger] resolved.env.keys()[i])
            &&& !forward_ssh_agent
            &&& exists|raw: Seq<char>| #[trigger]
                all_mounts(resolved).contains(raw) && (mount_meaning(raw) matches Ok(mount) && mount.writable && same_path(
                    mount.source,
                    workspace@,
                ))
            &&& orchestration.enabled
        },
{
    let all = all_credentials(agent_config);
    let hosts = resolved.config.egress.deep_view();
    let mounts = all_mounts(resolved);
    assert(all == credential_views(credentials@));
    assert forall|i: int| 0 <= i < credentials@.len() implies all[i] == (#[trigger] credentials@[i])@ by {}
    assert(all.len() == credentials@.len());
    let own_keys = agent_config.env.keys();
    let box_keys = resolved.env.keys();
    let hosts_fine = forall|i: int|
        0 <= i < resolved.config.egress@.len() ==> serves_models((#[trigger] resolved.config.egress@[i])@);
    let credentials_fine = forall|i: int|
        0 <= i < credentials@.len() && (#[trigger] credentials@[i]).env is Some && credentials@[i].file is None
            ==> !lets_push(credentials@[i].env->0@);
    let own_fine = forall|i: int| 0 <= i < own_keys.len() ==> !lets_push(#[trigger] own_keys[i]);
    let box_fine = forall|i: int| 0 <= i < box_keys.len() ==> !lets_push(#[trigger] box_keys[i]);
    assert(hosts_fine == (foreign_host(hosts) is None)) by {
        if foreign_host(hosts) is Some {
            lemma_foreign_host_found(hosts);
            let i = choose|i: int| 0 <= i < hosts.len() && !llm_host(#[trigger] hosts[i]);
            lemma_serves_models(hosts[i]);
            assert(resolved.config.egress@[i]@ == hosts[i]);
        } else {
            assert forall|i: int| 0 <= i < resolved.config.egress@.len() implies serves_models(
                (#[trigger] resolved.config.egress@[i])@,
            ) by {
                assert(hosts[i] == resolved.config.egress@[i]@);
                lemma_no_foreign_host(hosts, hosts[i]);
                lemma_serves_models(hosts[i]);
            }
        }
    }
    assert(credentials_fine == (push_credential(all) is None)) by {
        if push_credential(all) is Some {
            lemma_push_credential_found(all);
            let i = choose|i: int|
                0 <= i < all.len() && env_target(#[trigger] all[i]) is Some && push_key(env_target(all[i])->0);
            lemma_lets_push(env_target(all[i])->0);
            assert(all[i] == credentials@[i]@);
        } else {
            assert forall|i: int|
                0 <= i < credentials@.len() && (#[trigger] credentials@[i]).env is Some && credentials@[i].file is None implies !lets_push(
                credentials@[i].env->0@,
            ) by {
                assert(all[i] == credentials@[i]@);
                lemma_no_push_credential(all, i);
                lemma_lets_push(credentials@[i].env->0@);
            }
        }
    }
    lemma_keys_fine(own_keys);
    lemma_keys_fine(box_keys);
    if workspace_given(mounts, workspace@) {
        let i = choose|i: int| 0 <= i < mounts.len() && gives_workspace(#[trigger] mounts[i], workspace@);
        assert(mounts.contains(mounts[i]));
    }
    if exists|raw: Seq<char>| #[trigger]
        mounts.contains(raw) && (mount_meaning(raw) matches Ok(mount) && mount.writable && same_path(
            mount.source,
            workspace@,
        )) {
        let raw = choose|raw: Seq<char>| #[trigger]
            mounts.contains(raw) && (mount_meaning(raw) matches Ok(mount) && mount.writable && same_path(
                mount.source,
                workspace@,
            ));
        let i = choose|i: int| 0 <= i < mounts.len() && mounts[i] == raw;
        assert(gives_workspace(mounts[i], workspace@));
    }
}

proof fn lemma_keys_fine(keys: Seq<Seq<char>>)
    ensures
        (forall|i: int| 0 <= i < keys.len() ==> !lets_push(#[trigger] keys[i])) == (push_variable(keys) is None),
{
    if push_variable(keys) is Some {
        lemma_push_variable_found(keys);
        let i = choose|i: int| 0 <= i < keys.len() && push_key(#[trigger] keys[i]);
        lemma_lets_push(keys[i]);
    } else {
        assert forall|i: int| 0 <= i < keys.len() implies !lets_push(#[trigger] keys[i]) by {
            assert(keys.contains(keys[i]));
            lemma_no_push_variable(keys, keys[i]);
            lemma_lets_push(keys[i]);
        }
    }
}

/// A project has the sandbox that is pinned onto its task, or else that of its route, or else
/// the default one, or else `local`. It is as it is configured, with the mounts of the route;
/// only `local` need not be configured.
pub proof fn law_sandboxes_are_found_by_pin_route_and_default(
    config: &Config,
    project_path: &str,
    pinned: Option<&str>,
    route: Result<&Route, String>,
    found: Result<ResolvedSandbox, String>,
)
    requires
        call_ensures(find_route, (config, project_path), route),
        call_ensures(resolve_central_sandbox, (config, project_path, pinned), found),
    ensures
        ({
            let by_route = if route is Ok {
                route->Ok_0.sandbox.deep_view()
            } else {
                None
            };
            let name = if pinned is Some {
                pinned->0@
            } else if by_route is Some {
                by_route->0
            } else if config.defaults.sandbox is Some {
                config.defaults.sandbox->0@
            } else {
                "local"@
            };
            match found {
                Ok(sandbox) => {
                    &&& sandbox.name@ == name
                    &&& config.sandboxes@.dom().contains(name) ==> {
                        let declared = config.sandboxes@[name];
                        &&& sandbox.config.primitive@ == declared.primitive@
                        &&& sandbox.config.image.deep_view() == declared.image.deep_view()
                        &&& sandbox.config.build.deep_view() == declared.build.deep_view()
                        &&& sandbox.config.mounts.deep_view() == declared.mounts.deep_view()
                        &&& sandbox.config.egress.deep_view() == declared.egress.deep_view()
                        &&& sandbox.env@.dom() == declared.env@.dom()
                        &&& forall|k: Seq<char>| #[trigger]
                            declared.env@.dom().contains(k) ==> sandbox.env@[k]@ == declared.env@[k]@
                    }
                    &&& !config.sandboxes@.dom().contains(name) ==> name == "local"@ && sandbox.config.primitive@
                        == "local"@ && sandbox.config.mounts@.len() == 0 && sandbox.env@.dom() == Set::<Seq<char>>::empty()
                    &&& route is Ok ==> sandbox.route_mounts.deep_view() == route->Ok_0.mounts.deep_view()
                    &&& route is Err ==> sandbox.route_mounts@.len() == 0
                    &&& sandbox.varda_mounts@.len() == 0
                    &&& sandbox.varda_env_keys@.len() == 0
                },
                Err(_) => !config.sandboxes@.dom().contains(name) && name != "local"@,
            }
        }),
{
    let other = choose|other: Result<&Route, String>| #[trigger]
        routes_to(config, project_path@, other) && central(
            config,
            named_sandbox(config, other, pinned.deep_view()),
            match other {
                Ok(route) => route.mounts.deep_view(),
                Err(_) => Seq::empty(),
            },
            found,
        );
    crate::routing::lemma_route_is_unique(config, project_path@, other, route);
    if let Ok(sandbox) = found {
        assert(sandbox.route_mounts.deep_view().len() == sandbox.route_mounts@.len());
        assert(Map::<Seq<char>, String>::empty().dom() =~= Set::<Seq<char>>::empty());
    }
}

/// A resident that is started runs in its workspace and its sandbox, under the first name of
/// the first route that takes the workspace in, with a broker, and it is confined.
pub proof fn law_residents_work_in_their_workspace(
    config: &Config,
    workspace: &str,
    resolved: &ResolvedSandbox,
    launch: ResidentLaunch,
)
    requires
        resident_is_known(config, workspace@),
        call_ensures(resolve_resident_launch, (config, workspace, resolved), Ok(launch)),
    ensures
        launch.workspace@ == workspace@,
        launch.sandbox@ == resolved.name@,
        launch.broker_wired,
        exists|r: int| #[trigger]
            is_first_route(config, workspace@, r) && config.routes@[r].agents@.len() > 0 && launch.agent@
                == config.routes@[r].agents@[0]@,
        !config.defaults.forward_ssh_agent,
        resolved.config.primitive@ == "docker"@ || resolved.config.primitive@ == "microsandbox"@
            || resolved.config.primitive@ == "clawk"@,
        forall|i: int|
            0 <= i < resolved.config.egress@.len() ==> serves_models((#[trigger] resolved.config.egress@[i])@),
{
    let (routed, policy) = choose|routed: Result<RouteMatch, String>, policy: &OrchestrationPolicy| {
        &&& #[trigger] project_routed(config, workspace@, None, routed)
        &&& #[trigger] policy_of(config, workspace@, policy)
        &&& match routed {
            Err(cause) => false,
            Ok(route) => {
                let agent_config = config.agents@[route.agent@];
                &&& resident_fault(
                    route.agent@,
                    resolved,
                    workspace@,
                    all_credentials(&agent_config),
                    agent_config.env.keys(),
                    config.defaults.forward_ssh_agent,
                    policy.enabled,
                ) is None
                &&& launch.agent@ == route.shown_name()
            },
        }
    };
    crate::routing::lemma_routed_without_budgets(config, workspace@, None, routed->Ok_0);
    let hosts = resolved.config.egress.deep_view();
    assert forall|i: int| 0 <= i < resolved.config.egress@.len() implies serves_models(
        (#[trigger] resolved.config.egress@[i])@,
    ) by {
        assert(hosts[i] == resolved.config.egress@[i]@);
        lemma_no_foreign_host(hosts, hosts[i]);
        lemma_serves_models(hosts[i]);
    }
}

/// The resident's task is the first whose file, without its extension, holds
/// `resident-orchestrator`.
pub proof fn law_the_residents_task_is_found_by_its_file(
    tasks: &Vec<TaskSummary>,
    at: Option<usize>,
    i: int,
    path: &str,
    stem: Option<String>,
)
    requires
        0 <= i < tasks@.len(),
        path@ == tasks@[i].path@,
        call_ensures(find_resident_task, (tasks,), at),
        call_ensures(file_stem, (path,), stem),
    ensures
        at is Some && at->0 as int == i ==> stem is Some && holds(stem->0@, "resident-orchestrator"@),
        stem is Some && holds(stem->0@, "resident-orchestrator"@) ==> at is Some && at->0 <= i,
{
}

/// The resident's task is made ready to be run again, unless it is put off; nothing else of
/// it changes.
pub proof fn law_residents_are_made_ready_again(before: TaskDocument, after: TaskDocument, changed: bool)
    requires
        exists|task: &mut TaskDocument|
            *task == before && *final(task) == after && #[trigger] call_ensures(
                ensure_resident_task_ready,
                (task,),
                changed,
            ),
    ensures
        before.frontmatter.status is Backlog ==> after == before && !changed,
        !(before.frontmatter.status is Backlog) ==> after.frontmatter.status is Ready,
        changed <==> after.frontmatter.status != before.frontmatter.status,
        (TaskFrontmatter { status: before.frontmatter.status, ..after.frontmatter }) == before.frontmatter,
        after.body == before.body,
        after.path == before.path,
{
}

/// What is shown before a resident is started names its workspace, its sandbox and its agent.
pub proof fn law_launches_are_reported(launch: &ResidentLaunch, interactive: bool, text: String)
    requires
        call_ensures(launch_report, (launch, interactive), text),
    ensures
        crate::text::holds_in_order(text@, seq![launch.workspace@, launch.sandbox@, launch.agent@]),
{
    let broker = if launch.broker_wired {
        "wired (spawn_subtask available to the resident)"@
    } else {
        "off"@
    };
    let mode = if interactive {
        "interactive (TTY attached, operator in the conversation)"@
    } else {
        "headless (autonomous until terminal / needs_user)"@
    };
    let a = "orchestrate: resident launch validated\n  workspace:  "@;
    let b = " (mounted rw)\n  sandbox:    "@;
    let c = " (isolating, net-denied)\n  agent:      "@;
    let d = "\n  push creds: none (push is a separate, human-gated host step)\n  broker:     "@ + broker
        + "\n  mode:       "@ + mode + "\n"@;
    crate::text::lemma_three_in_order(a, launch.workspace@, b, launch.sandbox@, c, launch.agent@, d);
    assert(text@ =~= a + launch.workspace@ + b + launch.sandbox@ + c + launch.agent@ + d);
}

} // verus!
