//! Starting sub-tasks on the host, and bringing every one of them to rest.

use vstd::prelude::*;
use vstd::string::*;

use crate::collect::{is_terminal, terminal};
use crate::config::{is_microvm, primitive_needs_tcp_broker, Config};
use crate::orchestration::{
    check_effective_placement, lemma_on_list, on_list, placement_denial, spawn_sandbox_override, OrchestrationPolicy,
    SpawnRequest,
};
use crate::paths::{below, join_path};
use crate::routing::{
    is_first_route, lemma_policy_is_unique, lemma_routed_by_project, lemma_routed_without_budgets, match_route,
    match_route_for_task, policy_of, project_routed, prompt_bytes, prompt_size, resolve_orchestration_for,
    routed_by_project, task_routed, PromptSizes, RouteMatch,
};
use crate::task::{TaskDocument, TaskFrontmatter, TaskStatus};
use crate::text::{cat, cat3, decimal, decimal_of, holds_in_order, lemma_three_in_order, parsed_u64};

verus! {

// ---------------------------------------------------------------------------
// A new sub-task
// ---------------------------------------------------------------------------

/// Where a sub-task is to run, once every fallback has been resolved.
#[derive(Debug, PartialEq, Eq)]
pub struct SubtaskPlacement {
    pub project: String,
    pub assignee: String,
    /// The sandbox that is pinned onto it, where one is.
    pub sandbox: Option<String>,
}

/// The project of a sub-task: the one asked for, or else the caller's.
pub open spec fn placed_project(req: &SpawnRequest, own_project: Seq<char>) -> Seq<char> {
    match req.route {
        Some(route) => route@,
        None => own_project,
    }
}

/// The agent of a sub-task: the one asked for, or else the caller's.
pub open spec fn placed_agent(req: &SpawnRequest, fallback_agent: Seq<char>) -> Seq<char> {
    match req.agent {
        Some(agent) => agent@,
        None => fallback_agent,
    }
}

/// The sandbox of a sub-task: the one asked for, or else that of the policy.
pub open spec fn placed_sandbox(req: &SpawnRequest, policy: &OrchestrationPolicy) -> Option<Seq<char>> {
    match req.sandbox {
        Some(sandbox) => Some(sandbox@),
        None => policy.default_worker_sandbox.deep_view(),
    }
}

/// The report of an agent that does not work where a sub-task is to run.
pub open spec fn not_runnable_text(agent: Seq<char>, project: Seq<char>) -> Seq<char> {
    "cannot spawn subtask: agent '"@ + agent + "' is not runnable at '"@ + project
        + "'. Add it to that route's `agents`, or request a permitted agent."@
}

/// The report of a sandbox that the configuration does not have.
pub open spec fn unknown_sandbox_text(sandbox: Seq<char>) -> Seq<char> {
    "cannot spawn subtask: worker sandbox '"@ + sandbox + "' is not defined as a central [sandboxes."@ + sandbox
        + "] (from the spawn request or [routes.orchestration].default_worker_sandbox). Define it, or request a sandbox that exists."@
}

/// Why a placement is refused, `routable` being whether the agent works there and
/// `policy` the policy that holds there.
pub open spec fn placement_fault(
    config: &Config,
    policy: &OrchestrationPolicy,
    routable: bool,
    project: Seq<char>,
    agent: Seq<char>,
    sandbox: Option<Seq<char>>,
) -> Option<Seq<char>> {
    if !routable {
        Some(not_runnable_text(agent, project))
    } else {
        match placement_denial(policy, agent, sandbox) {
            Some(denied) => Some("cannot spawn subtask: "@ + denied.text()),
            None => match sandbox {
                Some(name) => if config.sandboxes@.dom().contains(name) {
                    None
                } else {
                    Some(unknown_sandbox_text(name))
                },
                None => None,
            },
        }
    }
}

/// Whether `placement` is where a sub-task is to run, or the report that it may not
/// run anywhere.
pub open spec fn places(
    config: &Config,
    own_project: Seq<char>,
    fallback_agent: Seq<char>,
    req: &SpawnRequest,
    placement: Result<SubtaskPlacement, String>,
) -> bool {
    let project = placed_project(req, own_project);
    let agent = placed_agent(req, fallback_agent);
    exists|routed: Result<RouteMatch, String>, policy: &OrchestrationPolicy| {
        &&& #[trigger] project_routed(config, project, Some(agent), routed)
        &&& #[trigger] policy_of(config, project, policy)
        &&& match placement {
            Ok(placement) => {
                &&& placement_fault(config, policy, routed is Ok, project, agent, placed_sandbox(req, policy)) is None
                &&& placement.project@ == project
                &&& placement.assignee@ == agent
                &&& placement.sandbox.deep_view() == placed_sandbox(req, policy)
            },
            Err(text) => placement_fault(
                config,
                policy,
                routed is Ok,
                project,
                agent,
                placed_sandbox(req, policy),
            ) == Some(text@),
        }
    }
}

/// Decides where a sub-task is to run. Nothing is made before this has been decided.
pub fn place_subtask(config: &Config, own_project: &str, fallback_agent: &str, req: &SpawnRequest) -> (placement: Result<
    SubtaskPlacement,
    String,
>)
    ensures
        places(config, own_project@, fallback_agent@, req, placement),
{
    let project = match &req.route {
        Some(route) => route.as_str(),
        None => own_project,
    };
    let assignee = match &req.agent {
        Some(agent) => agent.as_str(),
        None => fallback_agent,
    };
    let routed = match_route(config, project, Some(assignee));
    let policy = resolve_orchestration_for(config, project);
    assert(project_routed(config, project@, Some(assignee@), routed));
    assert(policy_of(config, project@, policy));
    if routed.is_err() {
        return Err(
            "cannot spawn subtask: agent '".to_owned().concat(assignee).concat("' is not runnable at '").concat(
                project,
            ).concat("'. Add it to that route's `agents`, or request a permitted agent."),
        );
    }
    let requested = match &req.sandbox {
        Some(sandbox) => Some(sandbox.as_str()),
        None => None,
    };
    let sandbox = spawn_sandbox_override(requested, policy);
    let pinned = match &sandbox {
        Some(sandbox) => Some(sandbox.as_str()),
        None => None,
    };
    if let Err(denied) = check_effective_placement(policy, assignee, pinned) {
        return Err(cat("cannot spawn subtask: ", denied.to_string().as_str()));
    }
    if let Some(name) = pinned {
        if !config.sandboxes.contains(name) {
            return Err(
                "cannot spawn subtask: worker sandbox '".to_owned().concat(name).concat(
                    "' is not defined as a central [sandboxes.",
                ).concat(name).concat(
                    "] (from the spawn request or [routes.orchestration].default_worker_sandbox). Define it, or request a sandbox that exists.",
                ),
            );
        }
    }
    Ok(SubtaskPlacement { project: project.to_owned(), assignee: assignee.to_owned(), sandbox })
}

/// A sub-task that is placed runs under an agent and in a sandbox that the policy of
/// its project allows, whether they were asked for or fallen back to.
pub proof fn law_fallbacks_obey_the_policy(
    config: &Config,
    own_project: Seq<char>,
    fallback_agent: Seq<char>,
    req: &SpawnRequest,
    placement: SubtaskPlacement,
)
    requires
        places(config, own_project, fallback_agent, req, Ok(placement)),
    ensures
        exists|policy: &OrchestrationPolicy| #[trigger]
            policy_of(config, placement.project@, policy) && placement_denial(
                policy,
                placement.assignee@,
                placement.sandbox.deep_view(),
            ) is None,
        placement.sandbox matches Some(name) ==> config.sandboxes@.dom().contains(name@),
{
    let project = placed_project(req, own_project);
    let agent = placed_agent(req, fallback_agent);
    let (routed, policy) = choose|routed: Result<RouteMatch, String>, policy: &OrchestrationPolicy| {
        &&& #[trigger] project_routed(config, project, Some(agent), routed)
        &&& #[trigger] policy_of(config, project, policy)
        &&& placement_fault(config, policy, routed is Ok, project, agent, placed_sandbox(req, policy)) is None
        &&& placement.project@ == project
        &&& placement.assignee@ == agent
        &&& placement.sandbox.deep_view() == placed_sandbox(req, policy)
    };
    assert(policy_of(config, placement.project@, policy));
}

/// The name of a new sub-task, `mark` telling it apart from others.
pub fn subtask_name(mark: &str) -> (name: String)
    ensures
        name@ == "spawned-subtask-"@ + mark@,
{
    cat("spawned-subtask-", mark)
}

/// The name of the branch and the checkout of a new sub-task.
pub fn worktree_slug(task_name: &str, mark: &str) -> (slug: String)
    ensures
        slug@ == task_name@ + "-"@ + mark@,
{
    cat3(task_name, "-", mark)
}

/// The checkout of a sub-task, outside of the project.
pub fn worker_worktree_path(varda_home: &str, slug: &str) -> (path: String)
    ensures
        path@ == below(below(varda_home@, "worktrees"@), "wip-"@ + slug@),
{
    let base = join_path(varda_home, "worktrees");
    join_path(base.as_str(), cat("wip-", slug).as_str())
}

/// Whether `after` is a new sub-task made ready: its sandbox is pinned where one was
/// decided on, and where it has a checkout of its own it works there, under the policy
/// of the project.
pub open spec fn prepared(
    before: TaskDocument,
    after: TaskDocument,
    sandbox: Option<Seq<char>>,
    checkout: Option<Seq<char>>,
    project: Seq<char>,
) -> bool {
    &&& after == (TaskDocument {
        frontmatter: TaskFrontmatter {
            status: TaskStatus::Ready,
            sandbox: after.frontmatter.sandbox,
            project: after.frontmatter.project,
            mother_project: after.frontmatter.mother_project,
            ..before.frontmatter
        },
        ..before
    })
    &&& match sandbox {
        Some(sandbox) => after.frontmatter.sandbox.deep_view() == Some(sandbox),
        None => after.frontmatter.sandbox == before.frontmatter.sandbox,
    }
    &&& match checkout {
        Some(checkout) => {
            &&& after.frontmatter.project.deep_view() == Some(checkout)
            &&& after.frontmatter.mother_project.deep_view() == Some(project)
        },
        None => {
            &&& after.frontmatter.project == before.frontmatter.project
            &&& after.frontmatter.mother_project == before.frontmatter.mother_project
        },
    }
}

/// Makes a new sub-task ready.
pub fn prepare_subtask(task: &mut TaskDocument, sandbox: Option<&str>, checkout: Option<&str>, project: &str)
    ensures
        prepared(*old(task), *final(task), sandbox.deep_view(), checkout.deep_view(), project@),
{
    if let Some(sandbox) = sandbox {
        task.frontmatter.sandbox = Some(sandbox.to_owned());
    }
    if let Some(checkout) = checkout {
        task.frontmatter.project = Some(checkout.to_owned());
        task.frontmatter.mother_project = Some(project.to_owned());
    }
    task.set_status(TaskStatus::Ready);
}

/// The id of a sub-task: its number, or else its file.
pub open spec fn id_of(id: Option<u64>, path: Seq<char>) -> Seq<char> {
    match id {
        Some(id) => decimal(id as nat),
        None => path,
    }
}

/// The id of a sub-task.
pub fn subtask_id(id: Option<u64>, task_path: &str) -> (name: String)
    ensures
        name@ == id_of(id, task_path@),
{
    match id {
        Some(id) => decimal_of(id),
        None => task_path.to_owned(),
    }
}

// ---------------------------------------------------------------------------
// An existing task as a sub-task
// ---------------------------------------------------------------------------

/// The report of an id that no task has.
pub fn no_such_subtask(task_id: &str) -> (text: String)
    ensures
        text@ == "cannot run subtask: no task resolves to id '"@ + task_id@ + "'"@,
{
    cat3("cannot run subtask: no task resolves to id '", task_id, "'")
}

/// The report of a task whose own placement is not allowed.
pub open spec fn rerun_not_runnable_text(task_id: Seq<char>) -> Seq<char> {
    "cannot run subtask '"@ + task_id
        + "': its agent/sandbox is not runnable. Fix the task's route/agent, or run a permitted task."@
}

/// The report of a task that is being run.
pub open spec fn already_running_text(id: Seq<char>) -> Seq<char> {
    "task '"@ + id + "' is already running in this session; refusing to double-run it"@
}

/// Makes an existing task ready to be run as a sub-task, `live` being whether it is
/// being run. Its own placement is checked as that of any task, and whatever its
/// status was, it is ready afterwards.
pub fn admit_existing(
    config: &Config,
    task_id: &str,
    task_path: &str,
    task: &mut TaskDocument,
    sizes: &PromptSizes,
    live: bool,
) -> (admitted: Result<String, String>)
    requires
        prompt_size(config, old(task), false, *sizes) <= usize::MAX,
    ensures
        exists|routed: Result<RouteMatch, String>| {
            &&& #[trigger] task_routed(config, old(task), false, *sizes, routed)
            &&& match admitted {
                Ok(id) => {
                    &&& routed is Ok
                    &&& !live
                    &&& id@ == id_of(old(task).frontmatter.id, task_path@)
                    &&& *final(task) == (TaskDocument {
                        frontmatter: TaskFrontmatter { status: TaskStatus::Ready, ..old(task).frontmatter },
                        ..*old(task)
                    })
                },
                Err(text) => {
                    &&& *final(task) == *old(task)
                    &&& if routed is Err {
                        text@ == rerun_not_runnable_text(task_id@)
                    } else {
                        live && text@ == already_running_text(id_of(old(task).frontmatter.id, task_path@))
                    }
                },
            }
        },
{
    let routed = match_route_for_task(config, task, false, sizes);
    assert(task_routed(config, old(task), false, *sizes, routed));
    if routed.is_err() {
        return Err(
            cat3(
                "cannot run subtask '",
                task_id,
                "': its agent/sandbox is not runnable. Fix the task's route/agent, or run a permitted task.",
            ),
        );
    }
    let id = subtask_id(task.frontmatter.id, task_path);
    if live {
        return Err(
            cat3("task '", id.as_str(), "' is already running in this session; refusing to double-run it"),
        );
    }
    task.set_status(TaskStatus::Ready);
    Ok(id)
}

// ---------------------------------------------------------------------------
// The end of a sub-task
// ---------------------------------------------------------------------------

/// How long, in seconds, a sub-task may take altogether.
pub const SPAWNED_SUBTASK_HARD_CEILING: u64 = 3600;

/// How the run of a sub-task ended.
#[derive(Debug, Clone, Copy, PartialEq, Eq, Structural)]
pub enum SpawnedEnd {
    /// The run ended and left its task at rest.
    Finished,
    /// The run reported an error.
    Failed,
    /// The run broke off.
    Broken,
    /// The run took too long and was stopped.
    TooLong,
}

/// Brings a sub-task to rest however its run ended. A run that finished has done so
/// itself; after any other, a task that is not at rest has failed.
pub fn settle_spawned(task: &mut TaskDocument, end: SpawnedEnd) -> (written: bool)
    ensures
        written == (end != SpawnedEnd::Finished && !terminal(old(task).frontmatter.status)),
        *final(task) == (if written {
            TaskDocument {
                frontmatter: TaskFrontmatter { status: TaskStatus::Failed, ..old(task).frontmatter },
                ..*old(task)
            }
        } else {
            *old(task)
        }),
        end != SpawnedEnd::Finished ==> terminal(final(task).frontmatter.status),
{
    match end {
        SpawnedEnd::Finished => false,
        _ => {
            if is_terminal(task.frontmatter.status) {
                false
            } else {
                task.set_status(TaskStatus::Failed);
                true
            }
        },
    }
}

/// The warning about a sub-task whose run did not finish. `label` says how it was
/// started, `reason` what went wrong.
pub open spec fn end_warning(end: SpawnedEnd, label: Seq<char>, id: Seq<char>, reason: Seq<char>) -> Option<Seq<char>> {
    match end {
        SpawnedEnd::Finished => None,
        SpawnedEnd::Failed => Some("warning: "@ + label + " subtask "@ + id + " failed: "@ + reason),
        SpawnedEnd::Broken => Some("warning: "@ + label + " subtask "@ + id + " panicked/aborted: "@ + reason),
        SpawnedEnd::TooLong => Some(
            "warning: "@ + label + " subtask "@ + id + " exceeded the "@ + decimal(
                SPAWNED_SUBTASK_HARD_CEILING as nat,
            ) + "s hard ceiling; forcing terminal"@,
        ),
    }
}

/// The warning about a sub-task whose run did not finish.
pub fn spawned_warning(end: SpawnedEnd, label: &str, child_id: &str, reason: &str) -> (text: Option<String>)
    ensures
        text.deep_view() == end_warning(end, label@, child_id@, reason@),
{
    let lead = "warning: ".to_owned().concat(label).concat(" subtask ").concat(child_id);
    match end {
        SpawnedEnd::Finished => None,
        SpawnedEnd::Failed => Some(lead.concat(" failed: ").concat(reason)),
        SpawnedEnd::Broken => Some(lead.concat(" panicked/aborted: ").concat(reason)),
        SpawnedEnd::TooLong => Some(
            lead.concat(" exceeded the ").concat(decimal_of(SPAWNED_SUBTASK_HARD_CEILING).as_str()).concat(
                "s hard ceiling; forcing terminal",
            ),
        ),
    }
}

/// What is done with the sub-tasks that still run once a run has ended.
#[derive(Debug, Clone, Copy, PartialEq, Eq, Structural)]
pub enum Cleanup {
    /// They are left to the root run.
    Leave,
    /// They are waited for, and so are those that they start meanwhile.
    Join,
    /// They are stopped.
    Abort,
}

/// Decides what is done with the sub-tasks that still run. Only the root run of a tree
/// cleans up: a sub-task that waited for all would wait for itself.
pub fn finish_spawned_subtasks(is_root_run: bool, run_succeeded: bool) -> (cleanup: Cleanup)
    ensures
        cleanup == (if !is_root_run {
            Cleanup::Leave
        } else if run_succeeded {
            Cleanup::Join
        } else {
            Cleanup::Abort
        }),
{
    if !is_root_run {
        Cleanup::Leave
    } else if run_succeeded {
        Cleanup::Join
    } else {
        Cleanup::Abort
    }
}

// ---------------------------------------------------------------------------
// The broker of a run
// ---------------------------------------------------------------------------

/// The place of a run in the tree of a root run.
#[derive(Debug, PartialEq, Eq)]
pub struct Lineage {
    pub root_id: String,
    pub root_depth: u32,
}

/// How a run is served by a broker.
#[derive(Debug, PartialEq, Eq)]
pub struct BrokerSetup {
    /// The task that the broker serves, and its depth.
    pub root_id: String,
    pub root_depth: u32,
    /// Whether this is the root run of its tree.
    pub is_root_run: bool,
    /// The directory and the file of the socket; over TCP there is none.
    pub socket: Option<(String, String)>,
}

/// Where the sockets of brokers lie, below the project.
pub const SOCKET_DIRNAME: &'static str = ".varda-mcp";

/// Whether `setup` is how a run is served. One without sub-tasks, or one that
/// interprets another, is not; a virtual machine cannot reach a socket file.
pub open spec fn sets_up(
    enabled: bool,
    interpret: bool,
    primitive: Seq<char>,
    project: Seq<char>,
    session: Seq<char>,
    task: Option<u64>,
    lineage: Option<Lineage>,
    setup: Option<BrokerSetup>,
) -> bool {
    match setup {
        None => !enabled || interpret,
        Some(setup) => {
            &&& enabled && !interpret
            &&& setup.is_root_run == lineage is None
            &&& match lineage {
                Some(lineage) => setup.root_id@ == lineage.root_id@ && setup.root_depth == lineage.root_depth,
                None => setup.root_id@ == id_of(task, session) && setup.root_depth == 0,
            }
            &&& match setup.socket {
                None => is_microvm(primitive),
                Some(socket) => {
                    &&& !is_microvm(primitive)
                    &&& socket.0@ == below(project, SOCKET_DIRNAME@)
                    &&& socket.1@ == below(below(project, SOCKET_DIRNAME@), session + ".sock"@)
                },
            }
        },
    }
}

/// Decides how a run is served by a broker.
pub fn broker_setup(
    enabled: bool,
    interpret: bool,
    sandbox_primitive: &str,
    project_path: &str,
    session_id: &str,
    task_number: Option<u64>,
    lineage: Option<Lineage>,
) -> (setup: Option<BrokerSetup>)
    ensures
        sets_up(
            enabled,
            interpret,
            sandbox_primitive@,
            project_path@,
            session_id@,
            task_number,
            lineage,
            setup,
        ),
{
    if !enabled || interpret {
        return None;
    }
    let is_root_run = lineage.is_none();
    let (root_id, root_depth): (String, u32) = match lineage {
        Some(lineage) => (lineage.root_id, lineage.root_depth),
        None => (subtask_id(task_number, session_id), 0),
    };
    let socket = if primitive_needs_tcp_broker(sandbox_primitive) {
        None
    } else {
        let dir = join_path(project_path, SOCKET_DIRNAME);
        let file = join_path(dir.as_str(), cat(session_id, ".sock").as_str());
        Some((dir, file))
    };
    Some(BrokerSetup { root_id, root_depth, is_root_run, socket })
}

/// The address of the host itself.
pub const LOOPBACK: &'static str = "127.0.0.1";

/// The address that a broker listens on: the one configured, where it can be read and
/// is not that of every interface, or else the host itself. `unspecified` is whether
/// the configured address stands for every interface.
pub fn broker_bind_address(configured: Option<&str>, unspecified: bool) -> (address: String)
    ensures
        address@ == (if configured is Some && !unspecified {
            configured->0@
        } else {
            LOOPBACK@
        }),
{
    match configured {
        Some(address) => if unspecified {
            LOOPBACK.to_owned()
        } else {
            address.to_owned()
        },
        None => LOOPBACK.to_owned(),
    }
}

/// Whether a line that arrives on the channel of a broker holds a request.
pub fn holds_request(line: &str) -> (request: bool)
    ensures
        request == (crate::text::trim(line@).len() > 0),
{
    !crate::text::trimmed(line).as_str().is_empty()
}

// ---------------------------------------------------------------------------
// Laws
// ---------------------------------------------------------------------------

/// A sub-task is placed in the project that it asks for, or else in the caller's, under the
/// agent that it asks for, or else the caller's, and in the sandbox that it asks for, or else
/// in that of the policy of its project, which is the caller's of last resort too. The agent
/// works there, agent and sandbox are each on no deny-list and, where there is an allow-list,
/// on that, and the sandbox is configured.
pub proof fn law_subtasks_are_placed_as_asked(
    config: &Config,
    own_project: &str,
    fallback_agent: &str,
    req: &SpawnRequest,
    placement: SubtaskPlacement,
    project: &str,
    policy: &OrchestrationPolicy,
)
    requires
        call_ensures(place_subtask, (config, own_project, fallback_agent, req), Ok(placement)),
        project@ == placement.project@,
        call_ensures(resolve_orchestration_for, (config, project), policy),
    ensures
        placement.project@ == (if req.route is Some {
            req.route->0@
        } else {
            own_project@
        }),
        placement.assignee@ == (if req.agent is Some {
            req.agent->0@
        } else {
            fallback_agent@
        }),
        req.sandbox matches Some(asked) ==> placement.sandbox is Some && placement.sandbox->0@ == asked@,
        req.sandbox is None ==> placement.sandbox.deep_view() == policy.default_worker_sandbox.deep_view(),
        exists|r: int| #[trigger]
            is_first_route(config, placement.project@, r) && config.routes@[r].agents.deep_view().contains(
                placement.assignee@,
            ),
        !on_list(&policy.deny_agents, placement.assignee@),
        policy.allow_agents@.len() > 0 ==> on_list(&policy.allow_agents, placement.assignee@),
        placement.sandbox matches Some(name) ==> {
            &&& !on_list(&policy.deny_sandboxes, name@)
            &&& policy.allow_sandboxes@.len() > 0 ==> on_list(&policy.allow_sandboxes, name@)
            &&& config.sandboxes@.dom().contains(name@)
        },
{
    let place = placed_project(req, own_project@);
    let agent = placed_agent(req, fallback_agent@);
    let (routed, other) = choose|routed: Result<RouteMatch, String>, other: &OrchestrationPolicy| {
        &&& #[trigger] project_routed(config, place, Some(agent), routed)
        &&& #[trigger] policy_of(config, place, other)
        &&& placement_fault(config, other, routed is Ok, place, agent, placed_sandbox(req, other)) is None
        &&& placement.project@ == place
        &&& placement.assignee@ == agent
        &&& placement.sandbox.deep_view() == placed_sandbox(req, other)
    };
    lemma_policy_is_unique(config, place, policy, other);
    lemma_routed_without_budgets(config, place, Some(agent), routed->Ok_0);
    let r = choose|r: int| #[trigger]
        is_first_route(config, place, r) && config.routes@[r].agents.deep_view().contains(agent);
    assert(is_first_route(config, placement.project@, r));
    lemma_on_list(&policy.deny_agents, agent);
    lemma_on_list(&policy.allow_agents, agent);
    if let Some(name) = placement.sandbox {
        lemma_on_list(&policy.deny_sandboxes, name@);
        lemma_on_list(&policy.allow_sandboxes, name@);
    }
}

/// A sub-task that is not placed has an agent who does not work there, or an agent or a
/// sandbox that the policy of its project does not allow, or a sandbox that is not
/// configured.
pub proof fn law_subtasks_are_turned_away_for_a_reason(
    config: &Config,
    own_project: &str,
    fallback_agent: &str,
    req: &SpawnRequest,
    text: String,
    project: &str,
    agent: &str,
    policy: &OrchestrationPolicy,
)
    requires
        call_ensures(place_subtask, (config, own_project, fallback_agent, req), Err(text)),
        project@ == (if req.route is Some {
            req.route->0@
        } else {
            own_project@
        }),
        agent@ == (if req.agent is Some {
            req.agent->0@
        } else {
            fallback_agent@
        }),
        call_ensures(resolve_orchestration_for, (config, project), policy),
    ensures
        ({
            let sandbox = if req.sandbox is Some {
                req.sandbox.deep_view()
            } else {
                policy.default_worker_sandbox.deep_view()
            };
            ||| exists|refusal: String| #[trigger] project_routed(config, project@, Some(agent@), Err(refusal))
            ||| on_list(&policy.deny_agents, agent@)
            ||| policy.allow_agents@.len() > 0 && !on_list(&policy.allow_agents, agent@)
            ||| sandbox is Some && on_list(&policy.deny_sandboxes, sandbox->0)
            ||| sandbox is Some && policy.allow_sandboxes@.len() > 0 && !on_list(
                &policy.allow_sandboxes,
                sandbox->0,
            )
            ||| sandbox is Some && !config.sandboxes@.dom().contains(sandbox->0)
        }),
{
    let (routed, other) = choose|routed: Result<RouteMatch, String>, other: &OrchestrationPolicy| {
        &&& #[trigger] project_routed(config, project@, Some(agent@), routed)
        &&& #[trigger] policy_of(config, project@, other)
        &&& placement_fault(config, other, routed is Ok, project@, agent@, placed_sandbox(req, other)) == Some(text@)
    };
    lemma_policy_is_unique(config, project@, policy, other);
    if let Err(refusal) = routed {
        assert(project_routed(config, project@, Some(agent@), Err(refusal)));
    }
    lemma_on_list(&policy.deny_agents, agent@);
    lemma_on_list(&policy.allow_agents, agent@);
    if let Some(name) = placed_sandbox(req, other) {
        lemma_on_list(&policy.deny_sandboxes, name);
        lemma_on_list(&policy.allow_sandboxes, name);
    }
}

/// A new sub-task is made ready; a sandbox that was decided on is pinned, and where it has a
/// checkout of its own it works there and is known to be parted from the project. Nothing else
/// of it changes.
pub proof fn law_new_subtasks_are_made_ready(
    before: TaskDocument,
    after: TaskDocument,
    sandbox: Option<&str>,
    checkout: Option<&str>,
    project: &str,
)
    requires
        exists|task: &mut TaskDocument|
            *task == before && *final(task) == after && #[trigger] call_ensures(
                prepare_subtask,
                (task, sandbox, checkout, project),
                (),
            ),
    ensures
        after.frontmatter.status is Ready,
        sandbox matches Some(name) ==> after.frontmatter.sandbox is Some && after.frontmatter.sandbox->0@ == name@,
        sandbox is None ==> after.frontmatter.sandbox == before.frontmatter.sandbox,
        checkout matches Some(path) ==> after.frontmatter.project is Some && after.frontmatter.project->0@ == path@
            && after.frontmatter.mother_project is Some && after.frontmatter.mother_project->0@ == project@,
        checkout is None ==> after.frontmatter.project == before.frontmatter.project
            && after.frontmatter.mother_project == before.frontmatter.mother_project,
        after.path == before.path,
        after.body == before.body,
        after.frontmatter.assignee == before.frontmatter.assignee,
        after.frontmatter.id == before.frontmatter.id,
{
}

/// A sub-task goes by its number, and only where it has none by its file.
pub proof fn law_subtasks_go_by_their_number(id: Option<u64>, task_path: &str, name: String)
    requires
        call_ensures(subtask_id, (id, task_path), name),
    ensures
        id matches Some(number) ==> parsed_u64(name@) == Some(number),
        id is None ==> name@ == task_path@,
{
    if let Some(number) = id {
        crate::text::law_decimal_round_trip(number);
    }
}

/// A task that exists is admitted only where it is not being run and where it is routed as
/// any task; it is then ready, and nothing else of it changes. One that is not admitted stays
/// as it is.
pub proof fn law_existing_tasks_are_admitted_once(
    config: &Config,
    task_id: &str,
    task_path: &str,
    before: TaskDocument,
    after: TaskDocument,
    sizes: &PromptSizes,
    live: bool,
    admitted: Result<String, String>,
)
    requires
        prompt_size(config, &before, false, *sizes) <= usize::MAX,
        prompt_bytes(config, &before, false, *sizes) <= usize::MAX,
        exists|task: &mut TaskDocument|
            *task == before && *final(task) == after && #[trigger] call_ensures(
                admit_existing,
                (config, task_id, task_path, task, sizes, live),
                admitted,
            ),
    ensures
        match admitted {
            Ok(id) => {
                &&& !live
                &&& exists|matched: RouteMatch| #[trigger]
                    routed_by_project(config, &before, false, *sizes, matched)
                &&& after.frontmatter.status is Ready
                &&& (TaskFrontmatter { status: before.frontmatter.status, ..after.frontmatter }) == before.frontmatter
                &&& after.path == before.path
                &&& after.body == before.body
                &&& before.frontmatter.id matches Some(number) ==> parsed_u64(id@) == Some(number)
                &&& before.frontmatter.id is None ==> id@ == task_path@
            },
            Err(_) => {
                &&& after == before
                &&& live || exists|refusal: String| #[trigger]
                    task_routed(config, &before, false, *sizes, Err(refusal))
            },
        },
{
    let routed = choose|routed: Result<RouteMatch, String>| {
        &&& #[trigger] task_routed(config, &before, false, *sizes, routed)
        &&& match admitted {
            Ok(id) => {
                &&& routed is Ok
                &&& !live
                &&& id@ == id_of(before.frontmatter.id, task_path@)
            },
            Err(text) => routed is Err || live,
        }
    };
    match routed {
        Ok(matched) => {
            lemma_routed_by_project(config, &before, false, *sizes, matched);
        },
        Err(refusal) => {
            assert(task_routed(config, &before, false, *sizes, Err(refusal)));
        },
    }
    if let Some(number) = before.frontmatter.id {
        crate::text::law_decimal_round_trip(number);
    }
}

/// However the run of a sub-task ends other than by finishing, its task is at rest
/// afterwards: where it was not already, it has failed. Nothing else of it changes, and a
/// task that is left alone is not written.
pub proof fn law_broken_runs_leave_failed_tasks(
    before: TaskDocument,
    after: TaskDocument,
    end: SpawnedEnd,
    written: bool,
)
    requires
        exists|task: &mut TaskDocument|
            *task == before && *final(task) == after && #[trigger] call_ensures(settle_spawned, (task, end), written),
    ensures
        ({
            let status = before.frontmatter.status;
            let rests = status is Done || status is Failed || status is NeedsUser || status is Review;
            &&& written <==> !(end is Finished) && !rests
            &&& !written ==> after == before
            &&& written ==> after.frontmatter.status is Failed
            &&& (TaskFrontmatter { status, ..after.frontmatter }) == before.frontmatter
            &&& after.body == before.body
            &&& after.path == before.path
        }),
{
}

/// Of a sub-task that did not finish a warning says how it was started, which it is and what
/// went wrong, or that it took an hour; of one that finished nothing is said.
pub proof fn law_warnings_name_the_subtask(
    end: SpawnedEnd,
    label: &str,
    child_id: &str,
    reason: &str,
    text: Option<String>,
)
    requires
        call_ensures(spawned_warning, (end, label, child_id, reason), text),
    ensures
        text is None <==> end is Finished,
        end is Failed || end is Broken ==> holds_in_order(text->0@, seq![label@, child_id@, reason@]),
        end is TooLong ==> holds_in_order(text->0@, seq![label@, child_id@, decimal(3600)]),
{
    let none = Seq::<char>::empty();
    let (middle, last, tail) = match end {
        SpawnedEnd::Failed => (" failed: "@, reason@, none),
        SpawnedEnd::Broken => (" panicked/aborted: "@, reason@, none),
        _ => (" exceeded the "@, decimal(3600), "s hard ceiling; forcing terminal"@),
    };
    lemma_three_in_order("warning: "@, label@, " subtask "@, child_id@, middle, last, tail);
    if !(end is Finished) {
        assert(text->0@ =~= "warning: "@ + label@ + " subtask "@ + child_id@ + middle + last + tail);
    }
}

/// Only the root run of a tree cleans up: it waits for its sub-tasks where it succeeded, and
/// stops them where it did not.
pub proof fn law_the_root_run_cleans_up(is_root_run: bool, run_succeeded: bool, cleanup: Cleanup)
    requires
        call_ensures(finish_spawned_subtasks, (is_root_run, run_succeeded), cleanup),
    ensures
        cleanup is Leave <==> !is_root_run,
        cleanup is Join <==> is_root_run && run_succeeded,
        cleanup is Abort <==> is_root_run && !run_succeeded,
{
}

/// A run is served by a broker exactly where sub-tasks are enabled and it interprets no other
/// run. A run that was started as a sub-task keeps its place in the tree; any other is the root
/// of its own, at depth 0, under the number of its task or else under its session. A virtual
/// machine has no socket; any other sandbox has one of its own below the project.
pub proof fn law_runs_are_served_in_their_place(
    enabled: bool,
    interpret: bool,
    primitive: &str,
    project: &str,
    session: &str,
    number: Option<u64>,
    lineage: Option<Lineage>,
    setup: Option<BrokerSetup>,
    tcp: bool,
)
    requires
        call_ensures(broker_setup, (enabled, interpret, primitive, project, session, number, lineage), setup),
        call_ensures(primitive_needs_tcp_broker, (primitive,), tcp),
    ensures
        setup is Some <==> enabled && !interpret,
        setup matches Some(setup) ==> {
            &&& setup.is_root_run <==> lineage is None
            &&& lineage matches Some(place) ==> setup.root_id@ == place.root_id@ && setup.root_depth == place.root_depth
            &&& lineage is None ==> setup.root_depth == 0
            &&& lineage is None && number is Some ==> parsed_u64(setup.root_id@) == number
            &&& lineage is None && number is None ==> setup.root_id@ == session@
            &&& setup.socket is None <==> tcp
            &&& setup.socket matches Some(socket) ==> project@.len() > 0 && project@.last() != '/' && session@.len() > 0
                && session@[0] != '/' ==> socket.0@ == project@ + "/.varda-mcp"@ && socket.1@ == project@
                + "/.varda-mcp/"@ + session@ + ".sock"@
        },
{
    if let Some(n) = number {
        crate::text::law_decimal_round_trip(n);
    }
    reveal_strlit(".varda-mcp");
    reveal_strlit("/.varda-mcp");
    reveal_strlit("/.varda-mcp/");
    if let Some(made) = setup {
        if let Some(socket) = made.socket {
            if project@.len() > 0 && project@.last() != '/' && session@.len() > 0 && session@[0] != '/' {
                assert(socket.0@ =~= project@ + "/.varda-mcp"@);
                assert(socket.0@.last() == 'p');
                assert((session@ + ".sock"@)[0] == session@[0]);
                assert(socket.1@ =~= project@ + "/.varda-mcp/"@ + session@ + ".sock"@);
            }
        }
    }
}

/// A broker listens where it is told to, but never on every interface: there, and where it is
/// told nothing, it listens on the host itself.
pub proof fn law_brokers_do_not_listen_everywhere(configured: Option<&str>, unspecified: bool, address: String)
    requires
        call_ensures(broker_bind_address, (configured, unspecified), address),
    ensures
        configured is None || unspecified ==> address@ == "127.0.0.1"@,
        configured is Some && !unspecified ==> address@ == configured->0@,
{
}

/// A line holds a request exactly where it holds more than blanks.
pub proof fn law_blank_lines_hold_no_request(line: &str, request: bool)
    requires
        call_ensures(holds_request, (line,), request),
    ensures
        request <==> !crate::text::all_blank(line@),
{
    crate::text::law_trimming_takes_off_blanks_alone(line@);
    if !request {
        let (lead, tail) = choose|lead: Seq<char>, tail: Seq<char>|
            crate::text::all_blank(lead) && crate::text::all_blank(tail) && line@ == #[trigger] (lead
                + crate::text::trim(line@) + tail);
        assert(line@ =~= lead + tail);
    }
}

/// The checkout of a sub-task lies below the directory for checkouts, outside of the project,
/// under a name that tells the sub-task.
pub proof fn law_checkouts_lie_apart(
    task_name: &str,
    mark: &str,
    slug: String,
    varda_home: &str,
    path: String,
    slug_text: &str,
)
    requires
        call_ensures(worktree_slug, (task_name, mark), slug),
        slug_text@ == slug@,
        call_ensures(worker_worktree_path, (varda_home, slug_text), path),
        varda_home@.len() > 0,
        varda_home@.last() != '/',
    ensures
        slug@ == task_name@ + "-"@ + mark@,
        path@ == varda_home@ + "/worktrees/wip-"@ + task_name@ + "-"@ + mark@,
{
    reveal_strlit("worktrees");
    reveal_strlit("wip-");
    reveal_strlit("/worktrees/wip-");
    let base = below(varda_home@, "worktrees"@);
    assert(base.last() == 's');
    assert(("wip-"@ + slug@)[0] == 'w');
    assert(path@ =~= varda_home@ + "/worktrees/wip-"@ + task_name@ + "-"@ + mark@);
}

} // verus!
