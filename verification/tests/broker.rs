use std::cell::RefCell;
use std::collections::BTreeMap;

use varda::broker::{
    BrokerError, NoSubtaskResults, NoTaskControlPlane, SharedSpawnState, SpawnBroker, SubtaskLauncher, SubtaskResults,
    TaskControlPlane, TaskDetail, TaskListEntry,
};
use varda::collect::{
    await_subtask, await_subtasks, harvest, integration_payload, is_terminal, subtask_result, Poll, WorkerCheckout,
    WorkerIntegration, WorkerRegistry,
};
use varda::json::{Field, Json};
use varda::manifest::{
    tool_manifest, AWAIT_SUBTASKS_TOOL, AWAIT_SUBTASK_TOOL, GET_TASK_TOOL, INTEGRATE_SUBTASKS_TOOL, LIST_TASKS_TOOL,
    RUN_SUBTASK_TOOL, SET_TASK_STATUS_TOOL, SPAWN_SUBTASK_TOOL, SUBTASK_DIFF_TOOL, SUBTASK_RESULT_TOOL,
};
use varda::orchestration::{OrchestrationPolicy, SpawnDenied, SpawnGrant, SpawnRequest};
use varda::requests::{request_on, response_line};
use varda::rpc::{finish_await_subtask, finish_await_subtasks, finish_integration, RpcStep};
use varda::task::TaskStatus;

fn base_policy() -> OrchestrationPolicy {
    OrchestrationPolicy { enabled: true, max_depth: 2, max_fanout: 2, global_child_budget: 3, ..Default::default() }
}

fn req() -> SpawnRequest {
    SpawnRequest { brief: "do a thing".to_owned(), route: None, agent: None, sandbox: None, approved: false }
}

struct MockLauncher {
    prefix: String,
    next: u32,
    launched: Vec<(SpawnRequest, u32)>,
    ran: Vec<(String, u32)>,
    fail: bool,
}

impl MockLauncher {
    fn new() -> Self {
        Self::with_prefix("sub")
    }

    fn with_prefix(prefix: &str) -> Self {
        Self { prefix: prefix.to_owned(), next: 0, launched: Vec::new(), ran: Vec::new(), fail: false }
    }

    fn failing() -> Self {
        Self { fail: true, ..Self::new() }
    }
}

impl SubtaskLauncher for MockLauncher {
    fn launch(&mut self, req: &SpawnRequest, grant: &SpawnGrant) -> Result<String, String> {
        if self.fail {
            return Err("simulated host launch failure".to_owned());
        }
        self.launched.push((req.clone(), grant.child_depth));
        self.next += 1;
        Ok(format!("{}-{}", self.prefix, self.next))
    }

    fn run_existing(&mut self, task_id: &str, grant: &SpawnGrant) -> Result<String, String> {
        if self.fail {
            return Err("simulated host launch failure".to_owned());
        }
        self.ran.push((task_id.to_owned(), grant.child_depth));
        Ok(task_id.to_owned())
    }
}

type Bare = SpawnBroker<MockLauncher, NoSubtaskResults, NoTaskControlPlane>;

fn broker(policy: OrchestrationPolicy, launcher: MockLauncher) -> (Bare, SharedSpawnState<u32>) {
    SpawnBroker::new(policy, "root", launcher)
}

#[test]
fn broker_launches_authorized_spawn_and_returns_child_id() {
    let (mut broker, mut state) = broker(base_policy(), MockLauncher::new());
    let id = broker.spawn_subtask(&mut state, "root", req()).expect("should launch");
    assert_eq!(id, "sub-1");
    assert_eq!(state.depth_of("sub-1"), Some(1));
    assert_eq!(state.global_spawned(), 1);
    assert_eq!(broker.launcher.launched, vec![(req(), 1)]);
}

#[test]
fn broker_denial_never_reaches_the_launcher() {
    let (mut broker, mut state) = broker(OrchestrationPolicy::default(), MockLauncher::new());
    match broker.spawn_subtask(&mut state, "root", req()) {
        Err(BrokerError::Denied(SpawnDenied::Disabled)) => {}
        other => panic!("expected Disabled denial, got {other:?}"),
    }
    assert_eq!(state.global_spawned(), 0);
    assert!(broker.launcher.launched.is_empty());
}

#[test]
fn broker_tracks_lineage_depth_across_the_real_tree() {
    let (mut broker, mut state) = broker(base_policy(), MockLauncher::new());
    let child = broker.spawn_subtask(&mut state, "root", req()).unwrap();
    assert_eq!(state.depth_of(&child), Some(1));
    let grand = broker.spawn_subtask(&mut state, &child, req()).unwrap();
    assert_eq!(state.depth_of(&grand), Some(2));
    match broker.spawn_subtask(&mut state, &grand, req()) {
        Err(BrokerError::Denied(SpawnDenied::DepthExceeded { attempted: 3, max: 2 })) => {}
        other => panic!("expected DepthExceeded, got {other:?}"),
    }
}

#[test]
fn shared_state_enforces_depth_across_generation_brokers() {
    let mut state: SharedSpawnState<u32> = SharedSpawnState::new();
    let mut parent =
        SpawnBroker::with_shared_state(base_policy(), "root", 0, &mut state, MockLauncher::with_prefix("child"));
    let child_id = parent.spawn_subtask(&mut state, "root", req()).unwrap();

    let mut child =
        SpawnBroker::with_shared_state(base_policy(), &child_id, 1, &mut state, MockLauncher::with_prefix("grand"));
    let grand_id = child.spawn_subtask(&mut state, &child_id, req()).unwrap();

    let mut grand =
        SpawnBroker::with_shared_state(base_policy(), &grand_id, 2, &mut state, MockLauncher::with_prefix("great"));
    match grand.spawn_subtask(&mut state, &grand_id, req()) {
        Err(BrokerError::Denied(SpawnDenied::DepthExceeded { attempted: 3, max: 2 })) => {}
        other => panic!("expected DepthExceeded across brokers, got {other:?}"),
    }
}

#[test]
fn shared_state_enforces_global_budget_across_generation_brokers() {
    let mut policy = base_policy();
    policy.max_depth = 10;
    policy.max_fanout = 10;
    policy.global_child_budget = 2;
    let mut state: SharedSpawnState<u32> = SharedSpawnState::new();
    let mut parent =
        SpawnBroker::with_shared_state(policy.clone(), "root", 0, &mut state, MockLauncher::with_prefix("child"));
    let child_id = parent.spawn_subtask(&mut state, "root", req()).unwrap();

    let mut child =
        SpawnBroker::with_shared_state(policy.clone(), &child_id, 1, &mut state, MockLauncher::with_prefix("grand"));
    let grand_id = child.spawn_subtask(&mut state, &child_id, req()).unwrap();

    let mut grand =
        SpawnBroker::with_shared_state(policy, &grand_id, 2, &mut state, MockLauncher::with_prefix("great"));
    match grand.spawn_subtask(&mut state, &grand_id, req()) {
        Err(BrokerError::Denied(SpawnDenied::BudgetExceeded { spent: 2, budget: 2 })) => {}
        other => panic!("expected BudgetExceeded across brokers, got {other:?}"),
    }
}

#[test]
fn broker_rejects_unknown_parent_lineage_spoof() {
    let (mut broker, mut state) = broker(base_policy(), MockLauncher::new());
    match broker.spawn_subtask(&mut state, "ghost", req()) {
        Err(BrokerError::UnknownParent(id)) => assert_eq!(id, "ghost"),
        other => panic!("expected UnknownParent, got {other:?}"),
    }
}

#[test]
fn broker_rolls_back_budget_when_host_launch_fails() {
    let (mut broker, mut state) = broker(base_policy(), MockLauncher::failing());
    match broker.spawn_subtask(&mut state, "root", req()) {
        Err(BrokerError::Launch(_)) => {}
        other => panic!("expected Launch error, got {other:?}"),
    }
    assert_eq!(state.global_spawned(), 0);
    assert_eq!(state.depth_of("sub-1"), None);
}

#[test]
fn shared_state_tracks_and_drains_detached_handles() {
    let mut state: SharedSpawnState<u32> = SharedSpawnState::new();
    state.insert_handle("child".to_owned(), 7);
    assert_eq!(state.handle_count(), 1);
    assert_eq!(state.find_handle("child"), Some(&7));
    let handles = state.drain_handles();
    assert_eq!(state.handle_count(), 0);
    assert_eq!(handles.len(), 1);
    assert_eq!(handles[0], ("child".to_owned(), 7));
}

#[test]
fn run_subtask_returns_the_existing_task_id_and_records_lineage() {
    let (mut broker, mut state) = broker(base_policy(), MockLauncher::new());
    let id = broker.run_subtask(&mut state, "root", "task-42").expect("should run the existing task");
    assert_eq!(id, "task-42");
    assert_eq!(state.depth_of("task-42"), Some(1));
    assert_eq!(state.global_spawned(), 1);
    assert_eq!(broker.launcher.ran, vec![("task-42".to_owned(), 1)]);
}

#[test]
fn run_subtask_shares_the_same_budget_gate_as_spawn() {
    let mut policy = base_policy();
    policy.max_fanout = 10;
    let (mut broker, mut state) = broker(policy, MockLauncher::new());
    broker.spawn_subtask(&mut state, "root", req()).unwrap();
    broker.spawn_subtask(&mut state, "root", req()).unwrap();
    broker.run_subtask(&mut state, "root", "task-7").unwrap();
    match broker.run_subtask(&mut state, "root", "task-8") {
        Err(BrokerError::Denied(SpawnDenied::BudgetExceeded { spent: 3, budget: 3 })) => {}
        other => panic!("expected BudgetExceeded, got {other:?}"),
    }
    assert_eq!(state.global_spawned(), 3);
}

#[test]
fn run_subtask_from_unknown_parent_is_refused() {
    let (mut broker, mut state) = broker(base_policy(), MockLauncher::new());
    match broker.run_subtask(&mut state, "ghost", "task-1") {
        Err(BrokerError::UnknownParent(id)) => assert_eq!(id, "ghost"),
        other => panic!("expected UnknownParent, got {other:?}"),
    }
    assert_eq!(state.global_spawned(), 0);
}

#[test]
fn run_subtask_launch_failure_rolls_back_the_budget() {
    let (mut broker, mut state) = broker(base_policy(), MockLauncher::failing());
    match broker.run_subtask(&mut state, "root", "task-1") {
        Err(BrokerError::Launch(_)) => {}
        other => panic!("expected Launch error, got {other:?}"),
    }
    assert_eq!(state.global_spawned(), 0);
}

// ---------------------------------------------------------------------------
// Requests
// ---------------------------------------------------------------------------

fn text(words: &str) -> Json {
    Json::Text(words.to_owned())
}

fn object(fields: Vec<(&str, Json)>) -> Json {
    Json::Object(fields.into_iter().map(|(key, value)| (key.to_owned(), value)).collect())
}

fn request(id: u64, method: &str, params: Option<Json>) -> Json {
    let mut fields = vec![("jsonrpc", text("2.0")), ("id", Json::UInt(id)), ("method", text(method))];
    if let Some(params) = params {
        fields.push(("params", params));
    }
    object(fields)
}

fn call(id: u64, tool: &str, arguments: Vec<(&str, Json)>) -> Json {
    request(id, "tools/call", Some(object(vec![("name", text(tool)), ("arguments", object(arguments))])))
}

fn reply(step: RpcStep) -> Json {
    match step {
        RpcStep::Reply(json) => json,
        other => panic!("expected an answer, got {other:?}"),
    }
}

fn is_error(answer: &Json) -> bool {
    match answer.get("result").unwrap().get("isError") {
        Some(Json::Bool(error)) => *error,
        other => panic!("no isError: {other:?}"),
    }
}

fn answer_text(answer: &Json) -> String {
    match answer.get("result").unwrap().get("content") {
        Some(Json::Array(items)) => items[0].str_field("text").unwrap().to_owned(),
        other => panic!("no content: {other:?}"),
    }
}

fn tool_names(manifest: &Json) -> Vec<String> {
    match manifest.get("tools") {
        Some(Json::Array(tools)) => tools.iter().map(|tool| tool.str_field("name").unwrap().to_owned()).collect(),
        other => panic!("no tools: {other:?}"),
    }
}

#[test]
fn rpc_tools_list_exposes_only_the_narrow_spawn_surface() {
    let (mut broker, mut state) = broker(base_policy(), MockLauncher::new());
    let answer = reply(broker.handle_rpc(&mut state, "root", &request(1, "tools/list", None)));
    assert_eq!(
        tool_names(answer.get("result").unwrap()),
        vec![
            SPAWN_SUBTASK_TOOL,
            RUN_SUBTASK_TOOL,
            AWAIT_SUBTASK_TOOL,
            AWAIT_SUBTASKS_TOOL,
            SUBTASK_RESULT_TOOL,
            SUBTASK_DIFF_TOOL,
            INTEGRATE_SUBTASKS_TOOL,
            LIST_TASKS_TOOL,
            GET_TASK_TOOL,
            SET_TASK_STATUS_TOOL
        ]
    );
}

#[test]
fn rpc_initialize_greets_and_unknown_methods_are_errors() {
    let (mut broker, mut state) = broker(base_policy(), MockLauncher::new());
    let answer = reply(broker.handle_rpc(&mut state, "root", &request(1, "initialize", None)));
    let result = answer.get("result").unwrap();
    assert_eq!(result.str_field("protocolVersion"), Some("2024-11-05"));
    assert_eq!(result.get("serverInfo").unwrap().str_field("name"), Some("varda-spawn-broker"));

    let answer = reply(broker.handle_rpc(&mut state, "root", &request(2, "tools/drop", None)));
    let error = answer.get("error").unwrap();
    assert_eq!(error.get("code"), Some(&Json::Int(-32601)));
    assert_eq!(error.str_field("message"), Some("method not found: tools/drop"));
}

#[test]
fn rpc_spawn_call_returns_subtask_id_on_success() {
    let (mut broker, mut state) = broker(base_policy(), MockLauncher::new());
    let answer = reply(broker.handle_rpc(
        &mut state,
        "root",
        &call(7, SPAWN_SUBTASK_TOOL, vec![("brief", text("do it"))]),
    ));
    assert_eq!(answer.get("id"), Some(&Json::UInt(7)));
    assert!(!is_error(&answer));
    assert!(answer_text(&answer).contains("subtask_id: sub-1"), "got {}", answer_text(&answer));
}

#[test]
fn rpc_denied_spawn_surfaces_reason_as_tool_error_not_silent_cap() {
    let mut policy = base_policy();
    policy.max_fanout = 10;
    let (mut broker, mut state) = broker(policy, MockLauncher::new());
    for _ in 0..3 {
        let answer = reply(broker.handle_rpc(
            &mut state,
            "root",
            &call(1, SPAWN_SUBTASK_TOOL, vec![("brief", text("x"))]),
        ));
        assert!(!is_error(&answer));
    }
    let denied = reply(broker.handle_rpc(
        &mut state,
        "root",
        &call(9, SPAWN_SUBTASK_TOOL, vec![("brief", text("x"))]),
    ));
    assert!(is_error(&denied));
    let why = answer_text(&denied);
    assert!(why.contains("global child budget exhausted"), "got {why}");
}

#[test]
fn rpc_local_sandbox_request_is_refused() {
    let (mut broker, mut state) = broker(base_policy(), MockLauncher::new());
    let answer = reply(broker.handle_rpc(
        &mut state,
        "root",
        &call(3, SPAWN_SUBTASK_TOOL, vec![("brief", text("x")), ("sandbox", text("local"))]),
    ));
    assert!(is_error(&answer));
    let why = answer_text(&answer);
    assert!(why.contains("must run in an isolating sibling box"), "got {why}");
}

#[test]
fn rpc_run_call_returns_the_existing_task_id_on_success() {
    let (mut broker, mut state) = broker(base_policy(), MockLauncher::new());
    let answer = reply(broker.handle_rpc(
        &mut state,
        "root",
        &call(5, RUN_SUBTASK_TOOL, vec![("task_id", text("task-99"))]),
    ));
    assert!(!is_error(&answer));
    assert!(answer_text(&answer).contains("subtask_id: task-99"), "got {}", answer_text(&answer));
}

#[test]
fn rpc_run_call_without_task_id_is_a_param_error() {
    let (mut broker, mut state) = broker(base_policy(), MockLauncher::new());
    let answer = reply(broker.handle_rpc(&mut state, "root", &call(6, RUN_SUBTASK_TOOL, vec![])));
    assert_eq!(answer.get("error").unwrap().get("code"), Some(&Json::Int(-32602)));
}

// ---------------------------------------------------------------------------
// Collecting
// ---------------------------------------------------------------------------

type StatusFn = Box<dyn Fn(&str, u32) -> Option<TaskStatus>>;

struct MockResults {
    counts: RefCell<BTreeMap<String, u32>>,
    status_fn: StatusFn,
    recaps: BTreeMap<String, String>,
}

impl MockResults {
    fn new(status_fn: impl Fn(&str, u32) -> Option<TaskStatus> + 'static) -> Self {
        Self { counts: RefCell::new(BTreeMap::new()), status_fn: Box::new(status_fn), recaps: BTreeMap::new() }
    }

    fn with_recap(mut self, id: &str, recap: &str) -> Self {
        self.recaps.insert(id.to_owned(), recap.to_owned());
        self
    }

    fn polls(&self, id: &str) -> u32 {
        self.counts.borrow().get(id).copied().unwrap_or(0)
    }
}

impl SubtaskResults for MockResults {
    fn status(&self, id: &str) -> Option<TaskStatus> {
        let mut counts = self.counts.borrow_mut();
        let count = counts.entry(id.to_owned()).or_insert(0);
        *count += 1;
        (self.status_fn)(id, *count)
    }

    fn recap(&self, id: &str) -> Option<String> {
        self.recaps.get(id).cloned()
    }
}

/// Looks at one sub-task once a millisecond until the wait ends.
fn wait_for_one(results: &MockResults, id: &str, max_wait: u64) -> Option<TaskStatus> {
    let mut elapsed = 0;
    loop {
        match await_subtask(results.status(id), elapsed, max_wait) {
            Poll::Settled(status) => return Some(status),
            Poll::TimedOut => return None,
            Poll::Again => elapsed += 1,
        }
    }
}

/// Looks at a wave once a millisecond until the wait ends.
fn wait_for_all(results: &MockResults, ids: &Vec<String>, max_wait: u64) -> Option<Vec<(String, TaskStatus)>> {
    let mut elapsed = 0;
    loop {
        let statuses = ids.iter().map(|id| results.status(id)).collect();
        match await_subtasks(ids, &statuses, elapsed, max_wait) {
            Poll::Settled(settled) => return Some(settled),
            Poll::TimedOut => return None,
            Poll::Again => elapsed += 1,
        }
    }
}

#[test]
fn await_subtask_blocks_until_terminal_not_before() {
    let results =
        MockResults::new(|_, n| Some(if n >= 3 { TaskStatus::Done } else { TaskStatus::Running }));
    assert_eq!(wait_for_one(&results, "child", 5000), Some(TaskStatus::Done));
    assert!(results.polls("child") >= 3, "the wait ended before the child was terminal");
}

#[test]
fn await_subtask_times_out_on_wedged_child() {
    let results = MockResults::new(|_, _| Some(TaskStatus::Running));
    assert_eq!(wait_for_one(&results, "child", 30), None);
}

#[test]
fn rpc_await_subtask_timeout_is_a_tool_error() {
    let (bare, mut state) = broker(base_policy(), MockLauncher::new());
    let mut broker =
        bare.with_results(MockResults::new(|_, _| Some(TaskStatus::Running))).with_poll_timing(1, 20);
    let step = broker.handle_rpc(
        &mut state,
        "root",
        &call(1, AWAIT_SUBTASK_TOOL, vec![("subtask_id", text("child"))]),
    );
    let RpcStep::AwaitOne { id, subtask_id } = step else { panic!("expected a wait, got {step:?}") };
    let outcome = wait_for_one(&broker.results, &subtask_id, broker.max_wait);
    let answer = finish_await_subtask(&id, &subtask_id, outcome, broker.max_wait);
    assert!(is_error(&answer));
    let why = answer_text(&answer);
    assert!(why.contains("timed out"), "got {why}");
}

#[test]
fn rpc_await_subtask_returns_status_when_terminal() {
    let (bare, mut state) = broker(base_policy(), MockLauncher::new());
    let mut broker = bare.with_results(MockResults::new(|_, _| Some(TaskStatus::Done))).with_poll_timing(1, 5000);
    let step = broker.handle_rpc(
        &mut state,
        "root",
        &call(1, AWAIT_SUBTASK_TOOL, vec![("subtask_id", text("child"))]),
    );
    let RpcStep::AwaitOne { id, subtask_id } = step else { panic!("expected a wait, got {step:?}") };
    let outcome = wait_for_one(&broker.results, &subtask_id, broker.max_wait);
    let answer = finish_await_subtask(&id, &subtask_id, outcome, broker.max_wait);
    assert!(!is_error(&answer));
    let parsed: serde_json::Value = serde_json::from_str(&answer_text(&answer)).unwrap();
    let expected: serde_json::Value = serde_json::from_str("{\"subtask_id\": \"child\", \"status\": \"done\"}").unwrap();
    assert_eq!(parsed, expected);
}

#[test]
fn subtask_result_returns_recap_and_parsed_sections() {
    let recap = "# Done\n\n## Files touched\n/abs/a.rs\n/abs/b.rs\n\n## Blocked commands\nmsb\ndocker build\n\nrequires_user: false\n";
    let row = subtask_result("child", Some(TaskStatus::Done), recap);
    let field = |key: &str| &row.iter().find(|(name, _)| name == key).unwrap().1;
    assert!(matches!(field("status"), Field::Text(word) if word == "done"));
    assert!(matches!(field("files_touched"), Field::Texts(files) if *files == ["/abs/a.rs", "/abs/b.rs"]));
    assert!(matches!(field("blocked_commands"), Field::Texts(list) if *list == ["msb", "docker build"]));
    assert!(matches!(field("recap"), Field::Text(words) if words == recap));

    let (bare, mut state) = broker(base_policy(), MockLauncher::new());
    let mut broker =
        bare.with_results(MockResults::new(|_, _| Some(TaskStatus::Done)).with_recap("child", recap));
    let answer = reply(broker.handle_rpc(
        &mut state,
        "root",
        &call(1, SUBTASK_RESULT_TOOL, vec![("subtask_id", text("child"))]),
    ));
    assert!(!is_error(&answer));
    let parsed: serde_json::Value = serde_json::from_str(&answer_text(&answer)).unwrap();
    assert_eq!(parsed["status"], "done");
    assert_eq!(parsed["files_touched"][0], "/abs/a.rs");
    assert_eq!(parsed["files_touched"][1], "/abs/b.rs");
    assert_eq!(parsed["blocked_commands"][1], "docker build");
    assert_eq!(parsed["recap"], recap);

    let ghost = reply(broker.handle_rpc(
        &mut state,
        "root",
        &call(2, SUBTASK_RESULT_TOOL, vec![("subtask_id", text("ghost"))]),
    ));
    assert!(is_error(&ghost));
}

#[test]
fn await_subtasks_returns_only_once_all_terminal() {
    let results = MockResults::new(|id, n| match id {
        "a" => Some(TaskStatus::Done),
        "b" => Some(if n >= 4 { TaskStatus::Failed } else { TaskStatus::Running }),
        _ => None,
    });
    let settled = wait_for_all(&results, &vec!["a".to_owned(), "b".to_owned()], 5000)
        .expect("both settle before the cap");
    assert!(results.polls("b") >= 4, "the wait ended before `b` was terminal");
    assert_eq!(
        settled,
        vec![("a".to_owned(), TaskStatus::Done), ("b".to_owned(), TaskStatus::Failed)]
    );
}

#[test]
fn unwired_broker_await_short_circuits_instantly() {
    let (bare, mut state) = broker(base_policy(), MockLauncher::new());
    let mut broker = bare.with_poll_timing(1000, 3_600_000);
    for (tool, arguments) in [
        (AWAIT_SUBTASK_TOOL, vec![("subtask_id", text("child"))]),
        (AWAIT_SUBTASKS_TOOL, vec![("subtask_ids", Json::Array(vec![text("child")]))]),
        (SUBTASK_RESULT_TOOL, vec![("subtask_id", text("child"))]),
    ] {
        let answer = reply(broker.handle_rpc(&mut state, "root", &call(1, tool, arguments)));
        assert!(is_error(&answer));
        let why = answer_text(&answer);
        assert!(why.contains("not available on this channel"), "expected not-available error, got {why}");
        assert!(!why.contains("timed out"), "unwired hit the poll ceiling: {why}");
    }
}

#[test]
fn manifest_advertises_the_collect_tools() {
    let names = tool_names(&tool_manifest());
    for tool in [AWAIT_SUBTASK_TOOL, AWAIT_SUBTASKS_TOOL, SUBTASK_RESULT_TOOL, INTEGRATE_SUBTASKS_TOOL] {
        assert!(names.contains(&tool.to_owned()));
    }
}

#[test]
fn integrate_subtasks_surfaces_a_real_conflict_never_clobbers() {
    let mut registry = WorkerRegistry::new();
    let checkout = |name: &str| WorkerCheckout { path: format!("/wt/{name}"), branch: format!("wip/worker-{name}") };
    registry.record("a".to_owned(), checkout("a"));
    registry.record("b".to_owned(), checkout("b"));
    let recap = |name: &str| {
        Some(format!("# Done\n\n## Files touched\n/wt/{name}/shared.txt\n\nrequires_user: false\n"))
    };
    let ids = vec!["a".to_owned(), "b".to_owned()];
    let (harvested, skipped) = harvest(&registry, &ids, &vec![recap("a"), recap("b")]);
    assert_eq!(harvested.len(), 2);
    assert_eq!(harvested[0].checkout, checkout("a"));
    assert_eq!(harvested[1].files_touched, vec!["/wt/b/shared.txt"]);
    assert!(skipped.is_empty());

    let merged = |name: &str, clean: bool, conflicts: Vec<String>| WorkerIntegration {
        branch: format!("wip/worker-{name}"),
        committed: true,
        merge: Some((clean, conflicts)),
        dependency_manifests: vec![],
    };
    let report = integration_payload(
        &harvested,
        &vec![merged("a", true, vec![]), merged("b", false, vec!["shared.txt".to_owned()])],
        &skipped,
    );
    let answer = finish_integration(&Json::UInt(1), Ok(report));
    assert!(!is_error(&answer));
    let value: serde_json::Value = serde_json::from_str(&answer_text(&answer)).unwrap();
    let integrations = value["integrations"].as_array().unwrap();
    assert_eq!(integrations.len(), 2);
    assert_eq!(integrations[0]["subtask_id"], "a");
    assert_eq!(integrations[0]["committed"], true);
    assert_eq!(integrations[0]["clean"], true);
    assert_eq!(integrations[0]["conflicted_files"].as_array().unwrap().len(), 0);
    assert_eq!(integrations[1]["subtask_id"], "b");
    assert_eq!(integrations[1]["committed"], true);
    assert_eq!(integrations[1]["clean"], false);
    assert_eq!(integrations[1]["conflicted_files"][0], "shared.txt");
}

#[test]
fn integrate_subtasks_skips_unregistered_shared_mount_workers() {
    let (harvested, skipped) = harvest(&WorkerRegistry::new(), &vec!["ghost".to_owned()], &vec![None]);
    assert!(harvested.is_empty());
    let answer = finish_integration(&Json::Null, Ok(integration_payload(&harvested, &vec![], &skipped)));
    let value: serde_json::Value = serde_json::from_str(&answer_text(&answer)).unwrap();
    let integrations = value["integrations"].as_array().unwrap();
    assert_eq!(integrations.len(), 1);
    assert_eq!(integrations[0]["subtask_id"], "ghost");
    assert_eq!(integrations[0]["skipped"], true);
}

#[test]
fn integrate_without_a_checkout_is_refused_and_a_failed_merge_says_why() {
    let (bare, mut state) = broker(base_policy(), MockLauncher::new());
    let wave = || vec![("subtask_ids", Json::Array(vec![text("a"), text("b")]))];
    let mut unwired = bare.with_results(MockResults::new(|_, _| None));
    let answer = reply(unwired.handle_rpc(&mut state, "root", &call(1, INTEGRATE_SUBTASKS_TOOL, wave())));
    assert!(is_error(&answer));

    let mut wired = unwired.with_integration(WorkerRegistry::new(), "/wt/integration".to_owned());
    match wired.handle_rpc(&mut state, "root", &call(2, INTEGRATE_SUBTASKS_TOOL, wave())) {
        RpcStep::Integrate { id, subtask_ids } => {
            assert_eq!(id, Json::UInt(2));
            assert_eq!(subtask_ids, vec!["a", "b"]);
        }
        other => panic!("expected a merge, got {other:?}"),
    }
    let answer = finish_integration(&Json::UInt(2), Err("no such branch"));
    assert!(is_error(&answer));
    assert_eq!(answer_text(&answer), "integrate_subtasks failed: no such branch");
}

#[test]
fn waves_are_answered_with_every_status() {
    let settled = vec![("a".to_owned(), TaskStatus::Done), ("b".to_owned(), TaskStatus::Review)];
    let answer = finish_await_subtasks(&Json::UInt(3), Some(&settled), 1000);
    let value: serde_json::Value = serde_json::from_str(&answer_text(&answer)).unwrap();
    assert_eq!(value[0]["subtask_id"], "a");
    assert_eq!(value[1]["status"], "review");
    let late = finish_await_subtasks(&Json::UInt(3), None, 90_000);
    assert!(is_error(&late));
    assert_eq!(
        answer_text(&late),
        "await_subtasks timed out after 90s; not all subtasks reached a terminal status"
    );
}

#[test]
fn only_statuses_at_rest_are_terminal() {
    for status in [TaskStatus::Done, TaskStatus::Failed, TaskStatus::NeedsUser, TaskStatus::Review] {
        assert!(is_terminal(status));
    }
    for status in [TaskStatus::Backlog, TaskStatus::Ready, TaskStatus::Running] {
        assert!(!is_terminal(status));
    }
}

// ---------------------------------------------------------------------------
// The board
// ---------------------------------------------------------------------------

struct StubControlPlane {
    tasks: BTreeMap<(String, u64), TaskDetail>,
    writes: Vec<(String, u64, TaskStatus)>,
}

impl StubControlPlane {
    fn new() -> Self {
        Self { tasks: BTreeMap::new(), writes: Vec::new() }
    }

    fn with_task(mut self, project: &str, detail: TaskDetail) -> Self {
        self.tasks.insert((project.to_owned(), detail.id), detail);
        self
    }
}

impl TaskControlPlane for StubControlPlane {
    fn list_tasks(&self, project_path: &str, status: Option<TaskStatus>) -> Vec<TaskListEntry> {
        self.tasks
            .iter()
            .filter(|((project, _), _)| project == project_path)
            .filter(|(_, detail)| match status {
                Some(status) => detail.status == status.as_str(),
                None => true,
            })
            .map(|(_, detail)| TaskListEntry {
                id: detail.id,
                slug: detail.slug.clone(),
                status: detail.status.clone(),
                title: detail.title.clone(),
                assignee: detail.assignee.clone(),
            })
            .collect()
    }

    fn get_task(&self, project_path: &str, id: u64) -> Option<TaskDetail> {
        self.tasks.get(&(project_path.to_owned(), id)).cloned()
    }

    fn set_task_status(&mut self, project_path: &str, id: u64, status: TaskStatus) -> Result<(), String> {
        self.writes.push((project_path.to_owned(), id, status));
        if self.tasks.contains_key(&(project_path.to_owned(), id)) {
            Ok(())
        } else {
            Err(format!("task '{id}' not found"))
        }
    }
}

fn task_detail(id: u64, status: TaskStatus) -> TaskDetail {
    TaskDetail {
        id,
        slug: format!("task-{id}"),
        status: status.as_str().to_owned(),
        title: format!("Task {id}"),
        assignee: Some("coder".to_owned()),
        body: "do the thing".to_owned(),
    }
}

fn board(
    caller: &str,
    plane: StubControlPlane,
) -> (SpawnBroker<MockLauncher, NoSubtaskResults, StubControlPlane>, SharedSpawnState<u32>) {
    let (bare, state) = SpawnBroker::new(base_policy(), caller, MockLauncher::new());
    (bare.with_task_control_plane(plane, "/proj/a".to_owned()), state)
}

#[test]
fn list_tasks_returns_only_the_callers_own_project() {
    let plane = StubControlPlane::new()
        .with_task("/proj/a", task_detail(1, TaskStatus::Running))
        .with_task("/proj/a", task_detail(2, TaskStatus::Done))
        .with_task("/proj/b", task_detail(99, TaskStatus::Running));
    let (broker, _) = board("1", plane);

    let entries = broker.list_tasks(None);
    let ids: Vec<u64> = entries.iter().map(|entry| entry.id).collect();
    assert_eq!(ids, vec![1, 2]);
    assert!(entries.iter().all(|entry| entry.id != 99), "a sibling project's task id must never appear");

    let running_only = broker.list_tasks(Some(TaskStatus::Running));
    assert_eq!(running_only.len(), 1);
    assert_eq!(running_only[0].id, 1);
}

#[test]
fn get_task_refuses_a_cross_project_id() {
    let plane = StubControlPlane::new()
        .with_task("/proj/a", task_detail(1, TaskStatus::Running))
        .with_task("/proj/b", task_detail(99, TaskStatus::Running));
    let (broker, _) = board("1", plane);

    assert!(broker.get_task(1).is_some(), "own-project id must resolve");
    assert!(broker.get_task(99).is_none(), "a real id from ANOTHER project must be refused, not leaked");
    assert!(broker.get_task(12345).is_none(), "unknown id must also refuse");
}

#[test]
fn set_task_status_refuses_forbidden_transitions() {
    let plane = || {
        StubControlPlane::new()
            .with_task("/proj/a", task_detail(1, TaskStatus::Running))
            .with_task("/proj/a", task_detail(2, TaskStatus::Review))
    };
    let (mut broker, _) = board("1", plane());

    assert!(broker.set_task_status("1", 1, TaskStatus::Done).is_ok());

    let (mut broker2, _) = board("2", plane());
    let err = broker2.set_task_status("2", 2, TaskStatus::Done).expect_err("review -> done must be refused");
    assert!(err.contains("review"), "got {err}");

    let err = broker.set_task_status("1", 2, TaskStatus::Done).expect_err("setting a non-self task must be refused");
    assert!(err.contains("own"), "got {err}");

    let (mut broker3, _) =
        board("3", StubControlPlane::new().with_task("/proj/a", task_detail(3, TaskStatus::Running)));
    let err = broker3
        .set_task_status("3", 3, TaskStatus::Running)
        .expect_err("non-terminal target status must be refused");
    assert!(err.contains("guests may only set"), "got {err}");

    assert_eq!(broker.task_control_plane.writes, vec![("/proj/a".to_owned(), 1, TaskStatus::Done)]);
    assert!(broker2.task_control_plane.writes.is_empty(), "a refused status is not written");
    assert!(broker3.task_control_plane.writes.is_empty(), "a refused status is not written");
}

#[test]
fn rpc_set_task_status_denial_is_a_tool_error() {
    let (mut broker, mut state) =
        board("5", StubControlPlane::new().with_task("/proj/a", task_detail(5, TaskStatus::Review)));
    let answer = reply(broker.handle_rpc(
        &mut state,
        "5",
        &call(1, SET_TASK_STATUS_TOOL, vec![("id", Json::UInt(5)), ("status", text("done"))]),
    ));
    assert!(is_error(&answer));
    let why = answer_text(&answer);
    assert!(why.contains("review"), "got {why}");
    assert!(broker.task_control_plane.writes.is_empty(), "a refused status is not written");
}

#[test]
fn rpc_reads_the_board() {
    let plane = || {
        StubControlPlane::new()
            .with_task("/proj/a", task_detail(1, TaskStatus::Running))
            .with_task("/proj/b", task_detail(9, TaskStatus::Running))
    };
    let (mut broker, mut state) = board("1", plane());
    let answer = reply(broker.handle_rpc(&mut state, "1", &call(1, LIST_TASKS_TOOL, vec![])));
    let value: serde_json::Value = serde_json::from_str(&answer_text(&answer)).unwrap();
    assert_eq!(value.as_array().unwrap().len(), 1);
    assert_eq!(value[0]["title"], "Task 1");

    let answer = reply(broker.handle_rpc(&mut state, "1", &call(2, GET_TASK_TOOL, vec![("id", Json::UInt(1))])));
    let value: serde_json::Value = serde_json::from_str(&answer_text(&answer)).unwrap();
    assert_eq!(value["body"], "do the thing");

    let answer = reply(broker.handle_rpc(&mut state, "1", &call(3, GET_TASK_TOOL, vec![("id", Json::UInt(9))])));
    assert!(is_error(&answer));
    assert_eq!(answer_text(&answer), "no task '9' found in this project");

    let answer = reply(broker.handle_rpc(
        &mut state,
        "1",
        &call(4, SET_TASK_STATUS_TOOL, vec![("id", Json::UInt(1)), ("status", text("done"))]),
    ));
    assert!(!is_error(&answer));
    assert_eq!(answer_text(&answer), "task '1' set to done");
    assert_eq!(broker.task_control_plane.writes, vec![("/proj/a".to_owned(), 1, TaskStatus::Done)]);
}

#[test]
fn a_board_that_is_not_wired_is_not_available() {
    let (mut broker, mut state) = SpawnBroker::new::<()>(base_policy(), "root", MockLauncher::new());
    let answer = reply(broker.handle_rpc(&mut state, "root", &call(1, GET_TASK_TOOL, vec![("id", Json::UInt(7))])));
    assert!(is_error(&answer));
    assert!(answer_text(&answer).contains("not available on this channel"));
}

#[test]
fn results_have_no_diff_by_default() {
    struct Bare;
    impl SubtaskResults for Bare {
        fn status(&self, _id: &str) -> Option<TaskStatus> {
            None
        }
        fn recap(&self, _id: &str) -> Option<String> {
            None
        }
    }
    assert!(Bare.is_available());
    assert_eq!(Bare.diff("1"), None);
}

#[test]
fn requests_are_read_from_lines() {
    let line = "{\"id\":-3,\"b\":[true,null,18446744073709551615,1.5],\"a\":{\"k\":\"v\",\"k\":\"w\"}}";
    let expected = Json::Object(vec![
        ("a".to_owned(), Json::Object(vec![("k".to_owned(), Json::Text("w".to_owned()))])),
        (
            "b".to_owned(),
            Json::Array(vec![
                Json::Bool(true),
                Json::Null,
                Json::UInt(u64::MAX),
                Json::Real(serde_json::Number::from_f64(1.5).unwrap()),
            ]),
        ),
        ("id".to_owned(), Json::Int(-3)),
    ]);
    assert_eq!(request_on(line), Some(expected));
    assert_eq!(request_on("7"), Some(Json::UInt(7)));
    assert_eq!(request_on("{\"id\":"), None);
    assert_eq!(request_on(""), None);
}

#[test]
fn answers_are_written_on_one_line() {
    let answer = Json::Object(vec![
        ("result".to_owned(), Json::Array(vec![Json::Null, Json::Bool(true), Json::Int(-2), Json::Int(3)])),
        ("id".to_owned(), Json::Real(serde_json::Number::from_f64(1.5).unwrap())),
        ("text".to_owned(), text("first")),
        ("text".to_owned(), text("two\nlines \"quoted\"")),
    ]);
    assert_eq!(
        response_line(answer.duplicate()),
        "{\"id\":1.5,\"result\":[null,true,-2,3],\"text\":\"two\\nlines \\\"quoted\\\"\"}\n"
    );
    let line = response_line(answer);
    let back = request_on(&line).unwrap();
    assert_eq!(back.str_field("text"), Some("two\nlines \"quoted\""));

    let (mut broker, mut state) = SpawnBroker::new::<()>(base_policy(), "root", MockLauncher::new());
    let request = request_on("{\"jsonrpc\":\"2.0\",\"id\":7,\"method\":\"nope\"}").unwrap();
    assert_eq!(
        response_line(reply(broker.handle_rpc(&mut state, "root", &request))),
        "{\"error\":{\"code\":-32601,\"message\":\"method not found: nope\"},\"id\":7,\"jsonrpc\":\"2.0\"}\n"
    );
}

#[test]
fn the_last_checkout_of_an_id_counts() {
    let checkout = |branch: &str| WorkerCheckout { path: "/wt".to_owned(), branch: branch.to_owned() };
    let mut registry = WorkerRegistry::new();
    assert_eq!(registry.get("1"), None);
    registry.record("1".to_owned(), checkout("a"));
    registry.record("1".to_owned(), checkout("b"));
    assert_eq!(registry.get("1"), Some(checkout("b")));
    assert_eq!(registry.get("1"), Some(checkout("b")));
    assert_eq!(registry.get("2"), None);
}
