//! The broker of sub-task spawning.
//!
//! A sandboxed task reaches nothing of the host but this broker. Both ways to start
//! a sub-task, from a fresh brief and from an existing task, pass one gate: the
//! caller's depth is looked up, never supplied, the policy is asked, the spawn is
//! counted, and a launch that then fails is taken back.

use vstd::prelude::*;
use vstd::string::*;

use crate::board::{check_own_status, check_ownership, own_status_denial, ownership_denial};
use crate::collect::WorkerRegistry;
use crate::orchestration::{
    denial, LedgerView, OrchestrationPolicy, SpawnContext, SpawnDenied, SpawnDeniedView, SpawnGrant,
    SpawnLedger, SpawnRequest, SubtaskId,
};
use crate::order::{ascending, StringMap};
use crate::task::TaskStatus;
use crate::text::{holds, lemma_holds_within};

verus! {

// ---------------------------------------------------------------------------
// The seams to the host
// ---------------------------------------------------------------------------

/// Starts an authorized sub-task in a sandbox of its own.
pub trait SubtaskLauncher {
    /// Starts a new sub-task and returns its id.
    fn launch(&mut self, req: &SpawnRequest, grant: &SpawnGrant) -> Result<SubtaskId, String>;

    /// Starts the existing task `task_id` and returns its id.
    fn run_existing(&mut self, task_id: &str, grant: &SpawnGrant) -> Result<SubtaskId, String>;
}

/// Reads back what became of a sub-task.
pub trait SubtaskResults {
    /// The status of `id`, where some task has that id.
    fn status(&self, id: &str) -> Option<TaskStatus>;

    /// The latest recap of `id`, where there is one.
    fn recap(&self, id: &str) -> Option<String>;

    /// The changes that `id` made, as a unified diff.
    fn diff(&self, _id: &str) -> (diff: Option<String>)
        default_ensures
            diff is None,
    {
        None
    }

    /// Whether results can be read at all.
    fn is_available(&self) -> (available: bool)
        default_ensures
            available,
    {
        true
    }
}

/// No way to read results.
pub struct NoSubtaskResults;

impl SubtaskResults for NoSubtaskResults {
    fn status(&self, _id: &str) -> (status: Option<TaskStatus>)
        ensures
            status is None,
    {
        None
    }

    fn recap(&self, _id: &str) -> (recap: Option<String>)
        ensures
            recap is None,
    {
        None
    }

    fn is_available(&self) -> (available: bool)
        ensures
            !available,
    {
        false
    }
}

/// One task of a project's board.
#[derive(Debug, Clone, PartialEq, Eq)]
pub struct TaskListEntry {
    pub id: u64,
    pub slug: String,
    pub status: String,
    pub title: String,
    pub assignee: Option<String>,
}

/// One task with its body. It holds no path of the host, no recap and no log.
#[derive(Debug, Clone, PartialEq, Eq)]
pub struct TaskDetail {
    pub id: u64,
    pub slug: String,
    pub status: String,
    pub title: String,
    pub assignee: Option<String>,
    pub body: String,
}

/// Reads and writes the tasks of one project.
pub trait TaskControlPlane {
    /// The tasks of `project_path`, those with `status` alone where one is given.
    fn list_tasks(&self, project_path: &str, status: Option<TaskStatus>) -> Vec<TaskListEntry>;

    /// The task `id`, where it belongs to `project_path`.
    fn get_task(&self, project_path: &str, id: u64) -> Option<TaskDetail>;

    /// Writes a status that has already been approved.
    fn set_task_status(&mut self, project_path: &str, id: u64, status: TaskStatus) -> Result<(), String>;
}

/// What a tool answers where nothing is wired to it.
pub const RESULTS_UNAVAILABLE: &'static str =
    "not available on this channel: sub-task results flow back through varda memory";

/// No board to read or write.
pub struct NoTaskControlPlane;

impl TaskControlPlane for NoTaskControlPlane {
    fn list_tasks(&self, _project_path: &str, _status: Option<TaskStatus>) -> (entries: Vec<TaskListEntry>)
        ensures
            entries@.len() == 0,
    {
        Vec::new()
    }

    fn get_task(&self, _project_path: &str, _id: u64) -> (detail: Option<TaskDetail>)
        ensures
            detail is None,
    {
        None
    }

    fn set_task_status(&mut self, _project_path: &str, _id: u64, _status: TaskStatus) -> (written: Result<(), String>)
        ensures
            *final(self) == *old(self),
            written matches Err(text) && text@ == RESULTS_UNAVAILABLE@,
    {
        Err(RESULTS_UNAVAILABLE.to_owned())
    }
}

// ---------------------------------------------------------------------------
// The tree of spawned tasks
// ---------------------------------------------------------------------------

/// Why a request to start a sub-task failed.
#[derive(Debug)]
pub enum BrokerError {
    /// The policy refused it.
    Denied(SpawnDenied),
    /// The caller is not in the tree, so its depth is not known.
    UnknownParent(SubtaskId),
    /// The host could not start it.
    Launch(String),
}

/// What a [`BrokerError`] says.
pub enum BrokerErrorView {
    Denied(SpawnDeniedView),
    UnknownParent(Seq<char>),
    Launch(Seq<char>),
}

impl View for BrokerError {
    type V = BrokerErrorView;

    open spec fn view(&self) -> BrokerErrorView {
        match *self {
            BrokerError::Denied(denied) => BrokerErrorView::Denied(denied@),
            BrokerError::UnknownParent(id) => BrokerErrorView::UnknownParent(id@),
            BrokerError::Launch(message) => BrokerErrorView::Launch(message@),
        }
    }
}

impl BrokerErrorView {
    /// The reason in words.
    pub open spec fn text(self) -> Seq<char> {
        match self {
            BrokerErrorView::Denied(denied) => denied.text(),
            BrokerErrorView::UnknownParent(id) => "spawn denied: caller '"@ + id
                + "' was not spawned through this broker (unknown lineage)"@,
            BrokerErrorView::Launch(message) => "subtask launch failed: "@ + message,
        }
    }
}

impl BrokerError {
    /// The reason in words.
    pub fn to_string(&self) -> (text: String)
        ensures
            text@ == self@.text(),
    {
        match self {
            BrokerError::Denied(denied) => denied.to_string(),
            BrokerError::UnknownParent(id) => "spawn denied: caller '".to_owned().concat(id.as_str()).concat(
                "' was not spawned through this broker (unknown lineage)",
            ),
            BrokerError::Launch(message) => "subtask launch failed: ".to_owned().concat(message.as_str()),
        }
    }
}

/// What a [`SharedSpawnState`] knows of the tree.
pub struct TreeView {
    /// The counts.
    pub ledger: LedgerView,
    /// The depth of every task that the broker knows.
    pub depths: Map<Seq<char>, u32>,
}

/// The state of one root run: counts, depths and the handles of detached runs.
/// Every broker of the run works on the same state, so the bounds hold across
/// generations.
#[derive(Debug)]
pub struct SharedSpawnState<H> {
    ledger: SpawnLedger,
    depths: StringMap<u32>,
    handles: StringMap<H>,
}

impl<H> View for SharedSpawnState<H> {
    type V = TreeView;

    closed spec fn view(&self) -> TreeView {
        TreeView { ledger: self.ledger@, depths: self.depths@ }
    }
}

/// The outcome of asking for a sub-task: the depth of the child, or an error.
pub open spec fn reservation(
    policy: &OrchestrationPolicy,
    tree: TreeView,
    parent: Seq<char>,
    req: &SpawnRequest,
) -> Result<u32, BrokerErrorView> {
    if !tree.depths.dom().contains(parent) {
        Err(BrokerErrorView::UnknownParent(parent))
    } else {
        match denial(policy, tree.ledger, parent, tree.depths[parent] as nat, req) {
            Some(denied) => Err(BrokerErrorView::Denied(denied)),
            None => Ok((tree.depths[parent] + 1) as u32),
        }
    }
}

impl TreeView {
    /// The tree once a child of `parent` has been counted.
    pub open spec fn reserved(self, parent: Seq<char>) -> TreeView {
        TreeView { ledger: self.ledger.recorded(parent), depths: self.depths }
    }

    /// The tree once the launch of a counted child of `parent` has come out.
    pub open spec fn settled(
        self,
        parent: Seq<char>,
        child_depth: u32,
        launched: Result<Seq<char>, Seq<char>>,
    ) -> TreeView {
        match launched {
            Ok(child) => TreeView { ledger: self.ledger, depths: self.depths.insert(child, child_depth) },
            Err(_) => TreeView { ledger: self.ledger.unrecorded(parent), depths: self.depths },
        }
    }

    /// Whether two trees say the same of every task.
    pub open spec fn agrees(self, other: TreeView) -> bool {
        self.ledger.agrees(other.ledger) && self.depths == other.depths
    }
}

/// What the caller is told of a launch.
pub open spec fn launch_answer(launched: Result<Seq<char>, Seq<char>>) -> Result<Seq<char>, BrokerErrorView> {
    match launched {
        Ok(child) => Ok(child),
        Err(message) => Err(BrokerErrorView::Launch(message)),
    }
}

/// The result of a launch without its strings' storage.
pub open spec fn launch_view(launched: Result<SubtaskId, String>) -> Result<Seq<char>, Seq<char>> {
    match launched {
        Ok(child) => Ok(child@),
        Err(message) => Err(message@),
    }
}

/// The answer to a caller without its strings' storage.
pub open spec fn answer_view(answer: Result<SubtaskId, BrokerError>) -> Result<Seq<char>, BrokerErrorView> {
    match answer {
        Ok(child) => Ok(child@),
        Err(error) => Err(error@),
    }
}

/// Whether `answer` and `after` are what becomes of a request on `tree`: it is
/// refused and nothing changes, or it is counted and settled by some launch.
pub open spec fn gated(
    policy: &OrchestrationPolicy,
    tree: TreeView,
    parent: Seq<char>,
    req: &SpawnRequest,
    answer: Result<Seq<char>, BrokerErrorView>,
    after: TreeView,
) -> bool {
    match reservation(policy, tree, parent, req) {
        Err(error) => answer == Err::<Seq<char>, BrokerErrorView>(error) && after == tree,
        Ok(child_depth) => exists|launched: Result<Seq<char>, Seq<char>>|
            answer == #[trigger] launch_answer(launched) && after == tree.reserved(parent).settled(
                parent,
                child_depth,
                launched,
            ),
    }
}

impl<H> SharedSpawnState<H> {
    /// The handles of the detached runs.
    pub closed spec fn handles(&self) -> Map<Seq<char>, H> {
        self.handles@
    }

    /// The ids of the detached runs, in order.
    pub closed spec fn handle_ids(&self) -> Seq<Seq<char>> {
        self.handles.keys()
    }

    /// A state in which no task is known.
    pub fn new() -> (state: Self)
        ensures
            state@ == (TreeView { ledger: LedgerView::empty(), depths: Map::empty() }),
            state.handles() == Map::<Seq<char>, H>::empty(),
    {
        SharedSpawnState { ledger: SpawnLedger::new(), depths: StringMap::new(), handles: StringMap::new() }
    }

    /// Keeps the handle of the run `id`.
    pub fn insert_handle(&mut self, id: SubtaskId, handle: H)
        ensures
            final(self)@ == old(self)@,
            final(self).handles() == old(self).handles().insert(id@, handle),
    {
        self.handles.insert(id, handle);
    }

    /// Takes out all handles, in the order of their ids.
    pub fn drain_handles(&mut self) -> (handles: Vec<(SubtaskId, H)>)
        ensures
            final(self)@ == old(self)@,
            final(self).handles() == Map::<Seq<char>, H>::empty(),
            ascending(old(self).handle_ids()),
            forall|id: Seq<char>| #[trigger]
                old(self).handles().dom().contains(id) <==> old(self).handle_ids().contains(id),
            handles@.len() == old(self).handle_ids().len(),
            forall|i: int|
                0 <= i < handles@.len() ==> (#[trigger] handles@[i]).0@ == old(self).handle_ids()[i]
                    && handles@[i].1 == old(self).handles()[old(self).handle_ids()[i]],
    {
        self.handles.drain()
    }

    /// The handle of the run `id`, where there is one.
    pub fn find_handle(&self, id: &str) -> (handle: Option<&H>)
        ensures
            match handle {
                Some(h) => self.handles().dom().contains(id@) && *h == self.handles()[id@],
                None => !self.handles().dom().contains(id@),
            },
    {
        self.handles.get(id)
    }

    /// How many handles there are.
    pub fn handle_count(&self) -> (count: usize)
        ensures
            count == self.handles().len(),
    {
        self.handles.len()
    }

    /// How many sub-tasks have been spawned.
    pub fn global_spawned(&self) -> (count: u32)
        ensures
            count == self@.ledger.spawned,
            self@.ledger.balanced(),
    {
        self.ledger.global_spawned()
    }

    /// How many children `parent` has.
    pub fn children_of(&self, parent: &str) -> (count: u32)
        ensures
            count == self@.ledger.count(parent@),
    {
        self.ledger.children_of(parent)
    }

    /// The depth of `id`, where the tree knows it.
    pub fn depth_of(&self, id: &str) -> (depth: Option<u32>)
        ensures
            depth == (if self@.depths.dom().contains(id@) {
                Some(self@.depths[id@])
            } else {
                None
            }),
    {
        match self.depths.get(id) {
            Some(depth) => Some(*depth),
            None => None,
        }
    }

    /// Makes `id` known at `depth`.
    pub fn register(&mut self, id: SubtaskId, depth: u32)
        ensures
            final(self)@ == (TreeView { ledger: old(self)@.ledger, depths: old(self)@.depths.insert(id@, depth) }),
            final(self).handles() == old(self).handles(),
    {
        self.depths.insert(id, depth);
    }

    /// Asks for a sub-task of `parent` and counts it where it is granted.
    pub fn reserve(&mut self, policy: &OrchestrationPolicy, parent_id: &str, req: &SpawnRequest) -> (granted: Result<
        SpawnGrant,
        BrokerError,
    >)
        requires
            policy.enabled && old(self)@.depths.dom().contains(parent_id@) ==> old(self)@.depths[parent_id@]
                < u32::MAX,
        ensures
            final(self).handles() == old(self).handles(),
            match granted {
                Ok(grant) => {
                    &&& reservation(policy, old(self)@, parent_id@, req) == Ok::<u32, BrokerErrorView>(
                        grant.child_depth,
                    )
                    &&& final(self)@ == old(self)@.reserved(parent_id@)
                },
                Err(error) => {
                    &&& reservation(policy, old(self)@, parent_id@, req) == Err::<u32, BrokerErrorView>(error@)
                    &&& final(self)@ == old(self)@
                },
            },
    {
        let parent_depth: u32 = match self.depth_of(parent_id) {
            Some(depth) => depth,
            None => {
                return Err(BrokerError::UnknownParent(parent_id.to_owned()));
            },
        };
        let ctx = SpawnContext { parent_id: parent_id.to_owned(), parent_depth };
        match self.ledger.authorize_and_record(policy, &ctx, req) {
            Ok(grant) => Ok(grant),
            Err(denied) => Err(BrokerError::Denied(denied)),
        }
    }

    /// Enters what became of the launch of a counted child of `parent`: the child
    /// is made known at its depth, or the count is taken back.
    pub fn settle(&mut self, parent_id: &str, grant: &SpawnGrant, launched: Result<SubtaskId, String>) -> (answer: Result<
        SubtaskId,
        BrokerError,
    >)
        ensures
            final(self).handles() == old(self).handles(),
            final(self)@ == old(self)@.settled(parent_id@, grant.child_depth, launch_view(launched)),
            answer_view(answer) == launch_answer(launch_view(launched)),
    {
        match launched {
            Ok(child_id) => {
                self.depths.insert(child_id.clone(), grant.child_depth);
                Ok(child_id)
            },
            Err(message) => {
                self.ledger.unrecord(parent_id);
                Err(BrokerError::Launch(message))
            },
        }
    }
}

// ---------------------------------------------------------------------------
// The broker
// ---------------------------------------------------------------------------

/// How often, in milliseconds, a wait looks at its sub-tasks.
pub const DEFAULT_POLL_INTERVAL: u64 = 1000;

/// How long, in milliseconds, a wait lasts at most: half an hour.
pub const DEFAULT_MAX_WAIT: u64 = 1_800_000;

/// A policy with what carries it out: the launcher, the results and the board.
pub struct SpawnBroker<L, R, C> {
    /// The policy that every request is held to.
    pub policy: OrchestrationPolicy,
    /// Starts authorized sub-tasks.
    pub launcher: L,
    /// Reads their results.
    pub results: R,
    /// The pause between two looks of a wait, in milliseconds.
    pub poll_interval: u64,
    /// The longest wait, in milliseconds.
    pub max_wait: u64,
    /// The checkouts of the sub-tasks.
    pub worker_registry: WorkerRegistry,
    /// The checkout that work is merged onto, where merging is wired.
    pub integration_worktree: Option<String>,
    /// The board.
    pub task_control_plane: C,
    /// The caller's own project, where the board is wired.
    pub task_control_plane_project: Option<String>,
}

/// The request that stands for running an existing task: it asks for no placement,
/// which the host takes from the task itself.
pub open spec fn is_plain_request(req: &SpawnRequest) -> bool {
    &&& req.brief@ == Seq::<char>::empty()
    &&& req.route is None
    &&& req.agent is None
    &&& req.sandbox is None
    &&& !req.approved
}

impl<L: SubtaskLauncher> SpawnBroker<L, NoSubtaskResults, NoTaskControlPlane> {
    /// A broker for a root run, and the state of that run, in which the root task
    /// has depth 0. Nothing is wired to it yet.
    pub fn new<H>(policy: OrchestrationPolicy, root_id: &str, launcher: L) -> (made: (Self, SharedSpawnState<H>))
        ensures
            made.0.policy == policy,
            made.0.launcher == launcher,
            made.0.is_unwired(),
            made.1@ == (TreeView {
                ledger: LedgerView::empty(),
                depths: Map::<Seq<char>, u32>::empty().insert(root_id@, 0u32),
            }),
            made.1.handles() == Map::<Seq<char>, H>::empty(),
    {
        let mut state: SharedSpawnState<H> = SharedSpawnState::new();
        let broker = Self::with_shared_state(policy, root_id, 0, &mut state, launcher);
        (broker, state)
    }

    /// A broker for a run of the tree that `state` describes. The task that it
    /// serves is entered there at its depth.
    pub fn with_shared_state<H>(
        policy: OrchestrationPolicy,
        root_id: &str,
        root_depth: u32,
        state: &mut SharedSpawnState<H>,
        launcher: L,
    ) -> (broker: Self)
        ensures
            broker.policy == policy,
            broker.launcher == launcher,
            broker.is_unwired(),
            final(state)@ == (TreeView {
                ledger: old(state)@.ledger,
                depths: old(state)@.depths.insert(root_id@, root_depth),
            }),
            final(state).handles() == old(state).handles(),
    {
        state.register(root_id.to_owned(), root_depth);
        SpawnBroker {
            policy,
            launcher,
            results: NoSubtaskResults,
            poll_interval: DEFAULT_POLL_INTERVAL,
            max_wait: DEFAULT_MAX_WAIT,
            worker_registry: WorkerRegistry::new(),
            integration_worktree: None,
            task_control_plane: NoTaskControlPlane,
            task_control_plane_project: None,
        }
    }
}

impl<L, R, C> SpawnBroker<L, R, C> {
    /// Whether neither merging nor the board is wired and the timing is the default.
    pub open spec fn is_unwired(&self) -> bool {
        &&& self.poll_interval == DEFAULT_POLL_INTERVAL
        &&& self.max_wait == DEFAULT_MAX_WAIT
        &&& self.worker_registry@ == Map::<Seq<char>, crate::collect::WorkerCheckout>::empty()
        &&& self.integration_worktree is None
        &&& self.task_control_plane_project is None
    }
}

impl<L: SubtaskLauncher, R: SubtaskResults, C: TaskControlPlane> SpawnBroker<L, R, C> {
    /// Wires merging: the checkouts of the sub-tasks and the checkout that their
    /// work is merged onto.
    pub fn with_integration(self, worker_registry: WorkerRegistry, integration_worktree: String) -> (broker: Self)
        ensures
            broker == (SpawnBroker {
                worker_registry,
                integration_worktree: Some(integration_worktree),
                ..self
            }),
    {
        SpawnBroker { worker_registry, integration_worktree: Some(integration_worktree), ..self }
    }

    /// Wires the board of the caller's own project.
    pub fn with_task_control_plane<P: TaskControlPlane>(self, control_plane: P, project_path: String) -> (broker: SpawnBroker<
        L,
        R,
        P,
    >)
        ensures
            broker == (SpawnBroker {
                policy: self.policy,
                launcher: self.launcher,
                results: self.results,
                poll_interval: self.poll_interval,
                max_wait: self.max_wait,
                worker_registry: self.worker_registry,
                integration_worktree: self.integration_worktree,
                task_control_plane: control_plane,
                task_control_plane_project: Some(project_path),
            }),
    {
        SpawnBroker {
            policy: self.policy,
            launcher: self.launcher,
            results: self.results,
            poll_interval: self.poll_interval,
            max_wait: self.max_wait,
            worker_registry: self.worker_registry,
            integration_worktree: self.integration_worktree,
            task_control_plane: control_plane,
            task_control_plane_project: Some(project_path),
        }
    }

    /// Wires the reading of results.
    pub fn with_results<Q: SubtaskResults>(self, results: Q) -> (broker: SpawnBroker<L, Q, C>)
        ensures
            broker == (SpawnBroker {
                policy: self.policy,
                launcher: self.launcher,
                results,
                poll_interval: self.poll_interval,
                max_wait: self.max_wait,
                worker_registry: self.worker_registry,
                integration_worktree: self.integration_worktree,
                task_control_plane: self.task_control_plane,
                task_control_plane_project: self.task_control_plane_project,
            }),
    {
        SpawnBroker {
            policy: self.policy,
            launcher: self.launcher,
            results,
            poll_interval: self.poll_interval,
            max_wait: self.max_wait,
            worker_registry: self.worker_registry,
            integration_worktree: self.integration_worktree,
            task_control_plane: self.task_control_plane,
            task_control_plane_project: self.task_control_plane_project,
        }
    }

    /// Sets the timing of waits, in milliseconds.
    pub fn with_poll_timing(self, poll_interval: u64, max_wait: u64) -> (broker: Self)
        ensures
            broker == (SpawnBroker { poll_interval, max_wait, ..self }),
    {
        SpawnBroker { poll_interval, max_wait, ..self }
    }

    /// Starts a new sub-task of `parent_id`, which the host knows to be the caller.
    pub fn spawn_subtask<H>(&mut self, state: &mut SharedSpawnState<H>, parent_id: &str, req: SpawnRequest) -> (answer: Result<
        SubtaskId,
        BrokerError,
    >)
        requires
            old(self).policy.enabled && old(state)@.depths.dom().contains(parent_id@) ==> old(
                state,
            )@.depths[parent_id@] < u32::MAX,
        ensures
            gated(&old(self).policy, old(state)@, parent_id@, &req, answer_view(answer), final(state)@),
            match reservation(&old(self).policy, old(state)@, parent_id@, &req) {
                Err(_) => final(self).launcher == old(self).launcher,
                Ok(child_depth) => exists|asked: &mut L, launched: Result<SubtaskId, String>|
                    *asked == old(self).launcher && *final(asked) == final(self).launcher && #[trigger] call_ensures(
                        L::launch,
                        (asked, &req, &(SpawnGrant { child_depth })),
                        launched,
                    ) && answer_view(answer) == launch_answer(launch_view(launched)),
            },
            final(state).handles() == old(state).handles(),
            final(self).same_but_launcher(old(self)),
    {
        match state.reserve(&self.policy, parent_id, &req) {
            Ok(grant) => {
                let launched = self.launcher.launch(&req, &grant);
                let ghost outcome = launch_view(launched);
                let answer = state.settle(parent_id, &grant, launched);
                assert(answer_view(answer) == launch_answer(outcome));
                answer
            },
            Err(error) => Err(error),
        }
    }

    /// Starts the existing task `task_id` as a sub-task of `parent_id`, through the
    /// same gate as a new one.
    pub fn run_subtask<H>(&mut self, state: &mut SharedSpawnState<H>, parent_id: &str, task_id: &str) -> (answer: Result<
        SubtaskId,
        BrokerError,
    >)
        requires
            old(self).policy.enabled && old(state)@.depths.dom().contains(parent_id@) ==> old(
                state,
            )@.depths[parent_id@] < u32::MAX,
        ensures
            exists|req: SpawnRequest|
                is_plain_request(&req) && #[trigger] gated(
                    &old(self).policy,
                    old(state)@,
                    parent_id@,
                    &req,
                    answer_view(answer),
                    final(state)@,
                ) && match reservation(&old(self).policy, old(state)@, parent_id@, &req) {
                    Err(_) => final(self).launcher == old(self).launcher,
                    Ok(child_depth) => exists|asked: &mut L, launched: Result<SubtaskId, String>|
                        *asked == old(self).launcher && *final(asked) == final(self).launcher && #[trigger] call_ensures(
                            L::run_existing,
                            (asked, task_id, &(SpawnGrant { child_depth })),
                            launched,
                        ) && answer_view(answer) == launch_answer(launch_view(launched)),
                },
            final(state).handles() == old(state).handles(),
            final(self).same_but_launcher(old(self)),
    {
        let req = SpawnRequest { brief: String::new(), route: None, agent: None, sandbox: None, approved: false };
        match state.reserve(&self.policy, parent_id, &req) {
            Ok(grant) => {
                let launched = self.launcher.run_existing(task_id, &grant);
                let ghost outcome = launch_view(launched);
                let answer = state.settle(parent_id, &grant, launched);
                assert(answer_view(answer) == launch_answer(outcome));
                assert(gated(
                    &old(self).policy,
                    old(state)@,
                    parent_id@,
                    &req,
                    answer_view(answer),
                    state@,
                ));
                answer
            },
            Err(error) => {
                let answer: Result<SubtaskId, BrokerError> = Err(error);
                assert(gated(
                    &old(self).policy,
                    old(state)@,
                    parent_id@,
                    &req,
                    answer_view(answer),
                    state@,
                ));
                answer
            },
        }
    }

    /// Whether two brokers differ in nothing but their launchers and boards.
    pub open spec fn same_settings(&self, other: &Self) -> bool {
        &&& self.policy == other.policy
        &&& self.results == other.results
        &&& self.poll_interval == other.poll_interval
        &&& self.max_wait == other.max_wait
        &&& self.worker_registry == other.worker_registry
        &&& self.integration_worktree == other.integration_worktree
        &&& self.task_control_plane_project == other.task_control_plane_project
    }

    /// Whether two brokers differ in nothing but their launchers.
    pub open spec fn same_but_launcher(&self, other: &Self) -> bool {
        self.same_settings(other) && self.task_control_plane == other.task_control_plane
    }

    /// Whether two brokers differ in nothing but their boards.
    pub open spec fn same_but_board(&self, other: &Self) -> bool {
        self.same_settings(other) && self.launcher == other.launcher
    }

    /// The tasks of the caller's own project, none where the board is not wired.
    pub fn list_tasks(&self, status: Option<TaskStatus>) -> (entries: Vec<TaskListEntry>)
        ensures
            match self.task_control_plane_project {
                None => entries@.len() == 0,
                Some(project) => exists|path: &str|
                    path@ == project@ && #[trigger] call_ensures(
                        C::list_tasks,
                        (&self.task_control_plane, path, status),
                        entries,
                    ),
            },
    {
        match &self.task_control_plane_project {
            None => Vec::new(),
            Some(project) => self.task_control_plane.list_tasks(project.as_str(), status),
        }
    }

    /// The task `id` of the caller's own project, nothing where the board is not
    /// wired.
    pub fn get_task(&self, id: u64) -> (detail: Option<TaskDetail>)
        ensures
            match self.task_control_plane_project {
                None => detail is None,
                Some(project) => exists|path: &str|
                    path@ == project@ && #[trigger] call_ensures(
                        C::get_task,
                        (&self.task_control_plane, path, id),
                        detail,
                    ),
            },
    {
        match &self.task_control_plane_project {
            None => None,
            Some(project) => self.task_control_plane.get_task(project.as_str(), id),
        }
    }

    /// Sets the status of the caller's own task. A request that is refused, because
    /// the caller has no right to it or because the board's status for the task
    /// forbids it, leaves the board as it is; one that is granted is written once,
    /// and the answer is the board's.
    pub fn set_task_status(&mut self, parent_id: &str, id: u64, status: TaskStatus) -> (answer: Result<(), String>)
        ensures
            match ownership_denial(old(self).task_control_plane_project is Some, parent_id@, id) {
                Some(text) => {
                    &&& answer matches Err(message) && message@ == text
                    &&& final(self).task_control_plane == old(self).task_control_plane
                },
                None => exists|path: &str, detail: Option<TaskDetail>| {
                    &&& path@ == old(self).task_control_plane_project->0@
                    &&& #[trigger] call_ensures(C::get_task, (&old(self).task_control_plane, path, id), detail)
                    &&& match own_status_denial(id, status_word(detail), status) {
                        Some(text) => {
                            &&& answer matches Err(message) && message@ == text
                            &&& final(self).task_control_plane == old(self).task_control_plane
                        },
                        None => exists|asked: &mut C|
                            *asked == old(self).task_control_plane && *final(asked) == final(self).task_control_plane
                                && #[trigger] call_ensures(C::set_task_status, (asked, path, id, status), answer),
                    }
                },
            },
            final(self).same_but_board(old(self)),
    {
        if let Err(text) = check_ownership(self.task_control_plane_project.is_some(), parent_id, id) {
            return Err(text);
        }
        let project = match &self.task_control_plane_project {
            Some(project) => project.as_str(),
            None => {
                return Err(RESULTS_UNAVAILABLE.to_owned());
            },
        };
        let detail = self.task_control_plane.get_task(project, id);
        let current = match &detail {
            Some(detail) => Some(detail.status.as_str()),
            None => None,
        };
        assert(current.deep_view() == status_word(detail));
        if let Err(text) = check_own_status(id, current, status) {
            return Err(text);
        }
        self.task_control_plane.set_task_status(project, id, status)
    }
}

/// The status word of a task, where there is one.
pub open spec fn status_word(detail: Option<TaskDetail>) -> Option<Seq<char>> {
    match detail {
        Some(detail) => Some(detail.status@),
        None => None,
    }
}

// ---------------------------------------------------------------------------
// Laws of the tree
// ---------------------------------------------------------------------------

/// A launch that fails leaves counts and depths as they were.
pub proof fn law_failed_launch_restores(tree: TreeView, parent: Seq<char>, child_depth: u32, message: Seq<char>)
    requires
        tree.ledger.count(parent) < u32::MAX,
    ensures
        tree.reserved(parent).settled(parent, child_depth, Err(message)).agrees(tree),
{
    crate::orchestration::law_unrecord_undoes_record(tree.ledger, parent);
}

/// A caller that the tree does not know starts nothing and changes nothing.
pub proof fn law_unknown_parent_is_refused(
    policy: &OrchestrationPolicy,
    tree: TreeView,
    parent: Seq<char>,
    req: &SpawnRequest,
    answer: Result<Seq<char>, BrokerErrorView>,
    after: TreeView,
)
    requires
        !tree.depths.dom().contains(parent),
        gated(policy, tree, parent, req, answer, after),
    ensures
        answer == Err::<Seq<char>, BrokerErrorView>(BrokerErrorView::UnknownParent(parent)),
        after == tree,
{
}

/// A child that was started is known one level below its parent, and no deeper
/// than the policy allows.
pub proof fn law_child_depth(
    policy: &OrchestrationPolicy,
    tree: TreeView,
    parent: Seq<char>,
    req: &SpawnRequest,
    answer: Result<Seq<char>, BrokerErrorView>,
    after: TreeView,
)
    requires
        gated(policy, tree, parent, req, answer, after),
        answer is Ok,
        tree.depths[parent] < u32::MAX,
    ensures
        after.depths.dom().contains(answer->Ok_0),
        after.depths[answer->Ok_0] == tree.depths[parent] + 1,
        after.depths[answer->Ok_0] <= policy.max_depth,
        after.ledger == tree.ledger.recorded(parent),
{
    let child_depth = reservation(policy, tree, parent, req)->Ok_0;
    let launched = choose|launched: Result<Seq<char>, Seq<char>>|
        answer == #[trigger] launch_answer(launched) && after == tree.reserved(parent).settled(
            parent,
            child_depth,
            launched,
        );
    assert(launched == Ok::<Seq<char>, Seq<char>>(answer->Ok_0));
}

/// Whether a run stays within its policy: all counts within the bounds and no
/// known task, but for those that `roots` holds, deeper than allowed.
pub open spec fn tree_within_caps(policy: &OrchestrationPolicy, tree: TreeView, roots: Set<Seq<char>>) -> bool {
    &&& tree.ledger.balanced()
    &&& crate::orchestration::within_caps(policy, tree.ledger)
    &&& forall|id: Seq<char>|
        tree.depths.dom().contains(id) && !roots.contains(id) ==> #[trigger] tree.depths[id]
            <= policy.max_depth
}

/// Whatever is requested and however launches come out, the bounds of the policy
/// keep holding.
pub proof fn law_bounds_hold_across_requests(
    policy: &OrchestrationPolicy,
    tree: TreeView,
    roots: Set<Seq<char>>,
    parent: Seq<char>,
    req: &SpawnRequest,
    answer: Result<Seq<char>, BrokerErrorView>,
    after: TreeView,
)
    requires
        tree_within_caps(policy, tree, roots),
        gated(policy, tree, parent, req, answer, after),
    ensures
        tree_within_caps(policy, after, roots),
{
    if let Ok(child_depth) = reservation(policy, tree, parent, req) {
        let depth = tree.depths[parent] as nat;
        crate::orchestration::law_count_within_total(tree.ledger, parent);
        crate::orchestration::law_record_keeps_balance(tree.ledger, parent);
        crate::orchestration::law_grants_stay_within_caps(policy, tree.ledger, parent, depth, req);
        crate::orchestration::law_unrecord_undoes_record(tree.ledger, parent);
        let counted = tree.ledger.recorded(parent);
        let undone = counted.unrecorded(parent);
        assert(counted.count(parent) == tree.ledger.count(parent) + 1);
        crate::orchestration::law_unrecord_keeps_balance(counted, parent);
        assert forall|other: Seq<char>| #[trigger] undone.count(other) <= policy.max_fanout by {
            assert(undone.count(other) == tree.ledger.count(other));
        }
    }
}

/// A request is granted exactly where the tree knows the caller and the policy does not
/// refuse it; the child is then one level below the caller. An unknown caller is named, and
/// a refusal is that of the policy.
pub proof fn law_requests_are_held_to_the_policy(
    policy: &OrchestrationPolicy,
    tree: TreeView,
    parent: Seq<char>,
    req: &SpawnRequest,
    ledger: &SpawnLedger,
    ctx: &SpawnContext,
    verdict: Result<SpawnGrant, SpawnDenied>,
)
    requires
        tree.depths.dom().contains(parent) ==> tree.depths[parent] < u32::MAX,
        ledger@ == tree.ledger,
        ctx.parent_id@ == parent,
        tree.depths.dom().contains(parent) ==> ctx.parent_depth == tree.depths[parent],
        call_ensures(SpawnLedger::authorize, (ledger, policy, ctx, req), verdict),
    ensures
        match reservation(policy, tree, parent, req) {
            Ok(depth) => tree.depths.dom().contains(parent) && depth == tree.depths[parent] + 1 && verdict is Ok,
            Err(BrokerErrorView::UnknownParent(named)) => named == parent && !tree.depths.dom().contains(parent),
            Err(BrokerErrorView::Denied(denied)) => tree.depths.dom().contains(parent) && verdict is Err
                && verdict->Err_0@ == denied,
            Err(BrokerErrorView::Launch(_)) => false,
        },
{
}

/// A request that starts a child counts it for its parent alone and makes it known one level
/// below; every other request leaves what is known of each task, and every count, as it was.
pub proof fn law_only_started_children_count(
    policy: &OrchestrationPolicy,
    tree: TreeView,
    parent: Seq<char>,
    req: &SpawnRequest,
    answer: Result<Seq<char>, BrokerErrorView>,
    after: TreeView,
    other: Seq<char>,
)
    requires
        tree.ledger.balanced(),
        tree.ledger.spawned < u32::MAX,
        tree.depths.dom().contains(parent) ==> tree.depths[parent] < u32::MAX,
        gated(policy, tree, parent, req, answer, after),
        other != parent,
    ensures
        match answer {
            Ok(child) => {
                &&& after.ledger.spawned == tree.ledger.spawned + 1
                &&& after.ledger.count(parent) == tree.ledger.count(parent) + 1
                &&& after.ledger.count(other) == tree.ledger.count(other)
                &&& after.depths == tree.depths.insert(child, (tree.depths[parent] + 1) as u32)
            },
            Err(_) => {
                &&& after.ledger.spawned == tree.ledger.spawned
                &&& after.ledger.count(parent) == tree.ledger.count(parent)
                &&& after.ledger.count(other) == tree.ledger.count(other)
                &&& after.depths == tree.depths
            },
        },
{
    if let Ok(child_depth) = reservation(policy, tree, parent, req) {
        let launched = choose|launched: Result<Seq<char>, Seq<char>>|
            answer == #[trigger] launch_answer(launched) && after == tree.reserved(parent).settled(
                parent,
                child_depth,
                launched,
            );
        crate::orchestration::law_count_within_total(tree.ledger, parent);
        crate::orchestration::law_a_spawn_counts_for_its_parent_alone(tree.ledger, parent, other);
        crate::orchestration::law_unrecord_undoes_record(tree.ledger, parent);
        let undone = tree.ledger.recorded(parent).unrecorded(parent);
        assert(undone.count(parent) == tree.ledger.count(parent));
        assert(undone.count(other) == tree.ledger.count(other));
    }
}

/// A failure in words says what the failure is: the refusal of the policy as that says it, an
/// unknown caller by name, and the report of the host.
pub proof fn law_failures_are_told(error: &BrokerError, text: String)
    requires
        call_ensures(BrokerError::to_string, (error,), text),
    ensures
        match error {
            BrokerError::Denied(denied) => text@ == denied@.text(),
            BrokerError::UnknownParent(id) => holds(text@, "'"@ + id@ + "'"@),
            BrokerError::Launch(message) => holds(text@, message@),
        },
{
    match error {
        BrokerError::Denied(_) => {},
        BrokerError::UnknownParent(id) => {
            reveal_strlit("'");
            reveal_strlit("spawn denied: caller '");
            reveal_strlit("spawn denied: caller ");
            reveal_strlit("' was not spawned through this broker (unknown lineage)");
            reveal_strlit(" was not spawned through this broker (unknown lineage)");
            let quoted = "'"@ + id@ + "'"@;
            let tail = " was not spawned through this broker (unknown lineage)"@;
            lemma_holds_within("spawn denied: caller "@, quoted, tail);
            assert(text@ =~= "spawn denied: caller "@ + quoted + tail);
        },
        BrokerError::Launch(message) => {
            lemma_holds_within("subtask launch failed: "@, message@, Seq::empty());
            assert(text@ =~= "subtask launch failed: "@ + message@ + Seq::<char>::empty());
        },
    }
}

} // verus!
