use varda::config::{AgentConfig, AgentKind, Config, Defaults, GitConfig, MaxSeconds, Route};
use varda::execution::{
    interpreter_agent, interpreter_warning, plan_path, plan_text, recap_content,
    session_log_path, AgentRunRequest, PlanEnd,
};
use varda::orchestration::OrchestrationPolicy;
use varda::order::StringMap;
use varda::recap::{parse_blocked_commands, parse_files_touched, recap_requires_user_interaction};
use varda::run::{start_resumed_run, start_run, tool_call_warning, Next, Run};
use varda::runner::{
    combine_recaps, remaining_seconds, AgentRunResult, OperationBounds, RunOutcome, SessionEnd, SessionKill, Watch,
};
use varda::task::{TaskBounds, TaskDocument, TaskFrontmatter, TaskStatus};
use varda::transcripts::{external_references, session_log_excerpt, tail_excerpt, transcript_sections, Reading};

fn agent(command: &str) -> AgentConfig {
    AgentConfig {
        kind: AgentKind::Acp,
        command: command.to_owned(),
        args: vec![],
        max_prompt_tokens: None,
        working_dir: None,
        env: StringMap::new(),
        auth_token_env: None,
        auth_token_target: None,
        credentials: vec![],
        interactive_command: None,
        interactive_args: None,
        streams_output: None,
        resume_command_template: None,
        interpreter_agent: None,
        skip_recap: false,
    }
}

fn route(glob: &str, agents: Vec<&str>) -> Route {
    Route {
        glob: glob.to_owned(),
        agents: agents.into_iter().map(str::to_owned).collect(),
        sandbox: None,
        mounts: vec![],
        orchestration: None,
    }
}

fn config(operations_dir: &str, routes: Vec<Route>, agents: Vec<(&str, AgentConfig)>) -> Config {
    let mut all: StringMap<AgentConfig> = StringMap::new();
    for (name, agent) in agents {
        all.insert(name.to_owned(), agent);
    }
    Config {
        defaults: Defaults {
            timeout_seconds: 600,
            operations_dir: operations_dir.to_owned(),
            sandbox: None,
            idle_timeout_seconds: 30,
            max_seconds: None,
            max_continuations: 0,
            max_tool_calls: 0,
            forward_ssh_agent: false,
            git_user_name: None,
            git_user_email: None,
            identity_context: vec![],
        },
        routes,
        agents: all,
        roles: StringMap::new(),
        git: GitConfig { auto_commit: true },
        sandboxes: StringMap::new(),
        orchestration: OrchestrationPolicy::default(),
    }
}

fn task(project: Option<&str>, assignee: Option<&str>, status: TaskStatus) -> TaskDocument {
    TaskDocument {
        path: "/tmp/task.md".to_owned(),
        frontmatter: TaskFrontmatter {
            id: Some(1),
            status,
            project: project.map(str::to_owned),
            mother_project: None,
            assignee: assignee.map(str::to_owned),
            sandbox: None,
            recap: None,
            recaps: vec![],
            plan: None,
            agent_session_id: None,
            agent_session_log: None,
            agent_session_ids: vec![],
            agent_session_logs: vec![],
            agent_resume_commands: vec![],
            allow_commands: vec![],
            bounds: TaskBounds::default(),
            requires_user: false,
        },
        body: "# Task\n\nDo it.\n".to_owned(),
    }
}

fn test_config() -> Config {
    let codex = AgentConfig { streams_output: Some(true), ..agent("codex") };
    config("/ops", vec![route("**", vec!["codex"])], vec![("codex", codex)])
}

fn user_task(assignee: &str) -> TaskDocument {
    TaskDocument {
        body: "# Task\n\nHelp interactively.\n".to_owned(),
        ..task(Some("/work/project"), Some(assignee), TaskStatus::Ready)
    }
}

fn ready_task() -> TaskDocument {
    task(Some("/work/project"), Some("codex"), TaskStatus::Ready)
}

fn result(recap: &str, resume: Option<&str>) -> AgentRunResult {
    AgentRunResult {
        recap: recap.to_owned(),
        requires_user: false,
        suggested_agent: None,
        resume_command: resume.map(str::to_owned),
    }
}

fn start(config: &Config, interactive: bool) -> Run {
    start_run(config, ready_task(), "/tmp/task.md", "codex", None, interactive, false, "session-1")
        .expect("task should run")
        .0
}

/// What became of a run, and what was asked of the agent in it.
struct Ran {
    task: TaskDocument,
    outcome: RunOutcome,
    recap: String,
    logs: Vec<String>,
    requests: Vec<AgentRunRequest>,
}

/// Lets an agent work alone until the task is at rest. `session` says how each session ends, by the request for it
/// and the run that it belongs to.
fn run_alone_with(config: &Config, mut session: impl FnMut(&AgentRunRequest, &Run) -> SessionEnd) -> Ran {
    let (mut run, first) =
        start_run(config, ready_task(), "/tmp/task.md", "codex", None, false, false, "session-1").expect("task should run");
    let mut logs = vec![];
    let mut requests = vec![];
    let mut request = first.request;
    loop {
        let end = session(&request, &run);
        requests.push(request);
        match run.agent_session_ended(config, end, &format!("session-{}", requests.len() + 1)) {
            Next::Continue(next) => {
                logs.push(next.log_header);
                request = next.request;
            }
            Next::Rest { result, log } => {
                logs.extend(log);
                let (outcome, recap) = run.rest(config, &result, "recap-1");
                return Ran { task: run.task, outcome, recap, logs, requests };
            }
            Next::Interpret { .. } => panic!("an agent alone is not interpreted"),
        }
    }
}

/// Lets an agent work alone until the task is at rest. Each session ends as the next of `ends` says.
fn run_alone(config: &Config, ends: Vec<SessionEnd>) -> Ran {
    let mut ends = ends.into_iter();
    run_alone_with(config, |_, _| ends.next().expect("the run should have come to rest"))
}

/// Has a session with the user interpreted and brings the task to rest.
fn interpret_and_rest(
    config: &Config,
    mut run: Run,
    session: AgentRunResult,
    interpretation: AgentRunResult,
    resumed: bool,
) -> (TaskDocument, RunOutcome, String, AgentRunRequest) {
    let next = run.user_session_ended(SessionEnd::Finished(session));
    let Next::Interpret { recap, .. } = next else { panic!("expected a reading, got {next:?}") };
    let request = run.interpretation(config, "log text", "transcript text");
    let (rest, log) = run.interpreted(Ok(interpretation), &recap, resumed);
    assert_eq!(log, None);
    let (outcome, written) = run.rest(config, &rest, "recap-1");
    (run.task, outcome, written, request)
}

#[test]
fn run_task_marks_successful_task_pending_and_writes_recap() {
    let config = test_config();
    let ran = run_alone(&config, vec![SessionEnd::Finished(result("# Recap\n\nCompleted.", None))]);

    assert_eq!(ran.outcome.status, TaskStatus::Review);
    assert_eq!(TaskStatus::parse("pending"), Some(TaskStatus::Review));
    assert_eq!(ran.task.frontmatter.status, TaskStatus::Review);
    assert_eq!(ran.task.frontmatter.recaps, vec!["/ops/recaps/recap-1.md"]);
    assert_eq!(ran.task.frontmatter.agent_session_ids, vec!["session-1"]);
    assert_eq!(ran.task.frontmatter.agent_session_logs, vec!["/ops/runs/session-1.log"]);
    assert_eq!(ran.outcome.session_log_path, "/ops/runs/session-1.log");
    assert_eq!(ran.recap, "---\ntask: /tmp/task.md\n---\n\n# Recap\n\nCompleted.");
}

#[test]
fn a_request_carries_the_whole_task() {
    let config = test_config();
    let ran = run_alone(&config, vec![SessionEnd::Finished(result("# Recap\n\nCompleted.", None))]);
    let request = &ran.requests[0];
    assert_eq!(request.agent_name, "codex");
    assert_eq!(request.role_instructions, None);
    assert_eq!(request.task_path, "/tmp/task.md");
    assert_eq!(request.frontmatter.status, TaskStatus::Running);
    assert_eq!(request.frontmatter.project.as_deref(), Some("/work/project"));
    assert_eq!(request.frontmatter.agent_session_ids, vec!["session-1"]);
    assert_eq!(request.body, "# Task\n\nDo it.\n");
    assert_eq!(request.timeout, 600);
    assert_eq!(request.session_log_path.as_deref(), Some("/ops/runs/session-1.log"));
    assert_eq!(request.resume_command, None);
    assert_eq!(request.orchestration_socket_path, None);
    assert_eq!(request.orchestration_addr, None);
}

#[test]
fn run_task_marks_needs_user_from_recap_wording() {
    let config = test_config();
    let ran = run_alone(
        &config,
        vec![SessionEnd::Finished(result(
            "# Recap\n\n**User Interaction Required**\nYes: run this locally.",
            None,
        ))],
    );

    assert_eq!(ran.outcome.status, TaskStatus::NeedsUser);
    assert_eq!(ran.task.frontmatter.status, TaskStatus::NeedsUser);
    assert!(ran.task.frontmatter.requires_user);
}

#[test]
fn run_task_timeout_requests_long_running_runner_task() {
    let mut config = test_config();
    config.defaults.idle_timeout_seconds = 1;
    config.defaults.max_seconds = Some(MaxSeconds::Keyword("none".to_owned()));
    let ran = run_alone_with(&config, |_, run| {
        let mut watch = Watch::start(run.bounds.idle_timeout * 1000, run.bounds.max_seconds, true, 0);
        assert_eq!(watch.tick(900, 0), None);
        let kill = watch.tick(1000, 0).expect("a silent session is stopped");
        assert_eq!(kill, SessionKill::Idle { idle_secs: 1 });
        SessionEnd::Killed(kill)
    });

    assert_eq!(ran.outcome.status, TaskStatus::Failed);
    assert!(ran.recap.contains("Agent Run Timed Out"));
    assert!(ran.recap.contains("idle watchdog"));
    assert!(ran.recap.contains("long-running runner task"));
    assert!(ran.recap.contains("Suggested next agent: runner"));
    assert!(ran.logs.iter().any(|log| log.contains("long_running_task_requested=true")));
}

#[test]
fn run_task_budget_ceiling_marks_needs_user_not_failed() {
    let mut config = test_config();
    config.defaults.max_seconds = Some(MaxSeconds::Seconds(1));
    config.defaults.idle_timeout_seconds = 60;
    let ran = run_alone_with(&config, |_, run| {
        let mut watch = Watch::start(run.bounds.idle_timeout * 1000, run.bounds.max_seconds, true, 0);
        assert_eq!(watch.tick(900, 0), None);
        let kill = watch.tick(1000, 0).expect("the bound on time fires first");
        assert_eq!(kill, SessionKill::Budget { max_secs: 1 });
        SessionEnd::Killed(kill)
    });

    assert_eq!(
        ran.outcome.status,
        TaskStatus::NeedsUser,
        "a budget stop is a graceful checkpoint, not a failure"
    );
    assert!(ran.recap.contains("Operation Budget Reached"));
    assert!(ran.recap.contains("soft ceiling"));
}

#[test]
fn run_under_ceiling_none_is_unbounded_and_finite_elapses() {
    let mut unbounded = Watch::start(u64::MAX, None, false, 0);
    assert_eq!(unbounded.tick(20, 0), None);
    assert_eq!(unbounded.tick(30_000, 0), None);
    let mut bounded = Watch::start(u64::MAX, Some(0), false, 0);
    assert_eq!(
        bounded.tick(0, 0),
        Some(SessionKill::Budget { max_secs: 0 }),
        "a 0s ceiling must elapse to the timeout path"
    );
}

#[test]
fn idle_watchdog_cancels_silent_session_but_not_a_chatty_one() {
    let header = "header\n".len() as u64;
    let mut silent = Watch::start(250, None, true, header);
    assert_eq!(silent.tick(100, header), None);
    assert_eq!(silent.tick(200, header), None);
    let kill = silent.tick(300, header);
    assert!(
        matches!(kill, Some(SessionKill::Idle { .. })),
        "a silent session must be idle-cancelled, got {kill:?}"
    );

    let mut chatty = Watch::start(250, None, true, header);
    let mut size = header;
    for chunk in 0..12u64 {
        size += format!("chunk {chunk}\n").len() as u64;
        let now = (chunk + 1) * 50;
        if now % 100 == 0 {
            let kill = chatty.tick(now, size);
            assert_eq!(kill, None, "a session that keeps emitting output must not be idle-cancelled, got {kill:?}");
        }
    }
}

#[test]
fn idle_watchdog_does_not_cancel_buffered_session_before_budget() {
    let mut buffered = Watch::start(100, Some(2), false, 7);
    for now in [100, 200, 300, 350] {
        let kill = buffered.tick(now, 7);
        assert_eq!(
            kill, None,
            "a live buffered session must not be cancelled solely for log silence, got {kill:?}"
        );
    }
    let mut exceeded = Watch::start(100, Some(0), false, 7);
    let kill = exceeded.tick(100, 7);
    assert!(
        matches!(kill, Some(SessionKill::Budget { .. })),
        "the cumulative budget must still stop buffered sessions, got {kill:?}"
    );
}

#[test]
fn a_failed_session_fails_the_task() {
    let config = test_config();
    let end = SessionEnd::Failed { error: "boom".to_owned(), causes: "boom: because".to_owned() };
    let ran = run_alone(&config, vec![end]);
    assert_eq!(ran.outcome.status, TaskStatus::Failed);
    assert!(ran.recap.contains("# Agent Run Failed"));
    assert!(ran.recap.contains("boom"));
    assert!(ran.logs[0].contains("boom: because"));
}

#[test]
fn interactive_run_invokes_interpreter_pass() {
    let mut config = test_config();
    config.git.auto_commit = false;
    let (run, first) =
        start_run(&config, user_task("codex"), "/tmp/task.md", "codex", None, true, false, "session-1").unwrap();
    let (_, outcome, recap, second) = interpret_and_rest(
        &config,
        run,
        result("Interactive session completed.", None),
        result("# Interpreted Recap\n\nDid the work.\n\nrequires_user: false", None),
        false,
    );

    assert!(first.request.interactive, "first call should be the interactive session");
    assert!(!first.request.interpret);
    assert!(!second.interactive, "second call should not be interactive");
    assert!(second.interpret, "second call should be the interpretation pass");
    assert_eq!(
        second.agent_name, "codex",
        "with no interpreter_agent configured, the interpretation pass must run via the same agent"
    );
    assert_eq!(second.session_id, "session-1-interpret");
    assert!(second.body.contains("Session log"));
    assert!(second.body.contains("interactive Varda session"));
    assert!(second.body.contains("Help interactively."));
    assert!(second.body.contains("log text"));
    assert!(second.body.ends_with("transcript text"));
    assert_eq!(outcome.status, TaskStatus::Review);
    assert!(recap.contains("Interpreted Recap"));
    assert!(recap.contains("Did the work."));
}

#[test]
fn interpreter_pass_routes_to_configured_interpreter_agent() {
    let mut config = test_config();
    config.git.auto_commit = false;
    let stub = AgentConfig {
        args: vec![
            "-c".to_owned(),
            "printf '# Interpreted Recap\\n\\nINTERPRETER_STUB_EXECUTED\\n\\nrequires_user: false\\n'".to_owned(),
        ],
        ..agent("sh")
    };
    config.agents.insert("coder".to_owned(), stub);
    let shell = AgentConfig { interpreter_agent: Some("coder".to_owned()), ..agent("sh") };
    config.agents.insert("shell".to_owned(), shell);

    let (run, first) =
        start_run(&config, user_task("shell"), "/tmp/task.md", "shell", None, true, false, "session-1").unwrap();
    assert_eq!(first.request.agent_name, "shell", "the interactive session must run via the driving agent");
    assert!(first.request.interactive);
    assert!(!first.request.interpret);
    assert_eq!(interpreter_warning(&config, "shell"), None);

    let (_, _, recap, second) = interpret_and_rest(
        &config,
        run,
        result("Interactive session completed.", None),
        result("# Interpreted Recap\n\nINTERPRETER_STUB_EXECUTED\n\nrequires_user: false\n", None),
        false,
    );
    assert_eq!(second.agent_name, "coder", "the interpretation pass goes to the agent that is named for it");
    assert!(second.interpret);
    assert!(recap.contains("INTERPRETER_STUB_EXECUTED"), "got:\n{recap}");
    assert!(!recap.contains("Interactive session completed."));
}

#[test]
fn an_unknown_interpreter_is_warned_about() {
    let mut config = test_config();
    let codex = AgentConfig { interpreter_agent: Some("reader".to_owned()), ..agent("codex") };
    config.agents.insert("codex".to_owned(), codex);
    assert_eq!(interpreter_agent(&config, "codex"), "codex");
    assert_eq!(
        interpreter_warning(&config, "codex").as_deref(),
        Some(
            "warning: interpreter_agent 'reader' configured for agent 'codex' is not a known agent; falling back to \
             'codex' for the interpretation pass"
        )
    );
    config.agents.insert("reader".to_owned(), agent("reader"));
    assert_eq!(interpreter_agent(&config, "codex"), "reader");
    assert_eq!(interpreter_warning(&config, "codex"), None);
    assert_eq!(interpreter_agent(&config, "other"), "other");
    assert_eq!(interpreter_warning(&config, "other"), None);
}

#[test]
fn a_session_that_cannot_be_interpreted_keeps_its_notes() {
    let config = test_config();
    let run = start(&config, true);
    let (rest, log) =
        run.interpreted(Err(("no reader".to_owned(), "no reader: offline".to_owned())), "raw notes", false);
    assert!(rest.recap.contains("no reader"));
    assert!(rest.recap.contains("raw notes"));
    assert_eq!(log, Some("\ninterpretation_error:\nno reader: offline\n".to_owned()));
}

#[test]
fn interactive_run_persists_resume_command_in_frontmatter() {
    let mut config = test_config();
    config.git.auto_commit = false;
    let (mut run, _) =
        start_run(&config, user_task("codex"), "/tmp/task.md", "codex", None, true, false, "session-1").unwrap();
    let session = result("Interactive session completed.", Some("codex resume abc-123"));
    let next = run.user_session_ended(SessionEnd::Finished(session));
    assert!(matches!(next, Next::Interpret { kept_command: true, .. }));
    assert_eq!(run.task.frontmatter.status, TaskStatus::Running);
    let interpretation = result("# Interpreted Recap\n\nDid the work.\n\nrequires_user: false", None);
    let (rest, _) = run.interpreted(Ok(interpretation), "Interactive session completed.", false);
    run.rest(&config, &rest, "recap-1");
    assert_eq!(
        run.task.frontmatter.agent_resume_commands,
        vec!["codex resume abc-123".to_owned()],
        "interactive resume command should be persisted in the task frontmatter"
    );
}

#[test]
fn resume_interactive_task_uses_captured_command_then_interprets() {
    let mut config = test_config();
    config.git.auto_commit = false;
    let mut task = user_task("codex");
    task.frontmatter.agent_resume_commands = vec!["codex resume abc-123".to_owned()];
    let (run, first) =
        start_resumed_run(&config, task, "/tmp/task.md", "codex", None, "codex resume abc-123", "session-2")
            .expect("a ready task can be taken up again");
    let header = first.log_header.clone();
    let (task, outcome, _, second) = interpret_and_rest(
        &config,
        run,
        result("Interactive resume session completed.", None),
        result("# Interpreted Recap\n\nResumed the work.\n\nrequires_user: false", None),
        true,
    );
    assert!(first.request.interactive);
    assert!(!first.request.interpret);
    assert_eq!(first.request.resume_command.as_deref(), Some("codex resume abc-123"));
    assert!(first.request.body.is_empty());
    assert!(header.contains("resume_command=codex resume abc-123\n[interactive_resume]\n"));
    assert!(!second.interactive);
    assert!(second.interpret);
    assert!(second.body.contains("Session log"));
    assert_eq!(outcome.status, TaskStatus::Review);
    assert_eq!(task.frontmatter.agent_resume_commands, vec!["codex resume abc-123"]);
}

#[test]
fn auto_resume_stitches_resume_then_done_into_completed_task() {
    let mut config = test_config();
    config.defaults.max_continuations = 8;
    let ran = run_alone(
        &config,
        vec![
            SessionEnd::Finished(result("# Hop one\n\nStarted the work.", Some("codex resume hop-1"))),
            SessionEnd::Finished(result("# Hop two\n\nFinished the work.", None)),
            SessionEnd::Finished(result("unexpected extra call", None)),
        ],
    );
    assert_eq!(ran.requests.len(), 2, "expected two stitched sessions");
    assert!(ran.requests[0].resume_command.is_none(), "first hop is fresh");
    assert_eq!(
        ran.requests[1].resume_command.as_deref(),
        Some("codex resume hop-1"),
        "second hop must be seeded with the captured resume command"
    );
    assert!(ran.requests[1].body.is_empty());
    assert_eq!(ran.requests[1].frontmatter.agent_session_ids, vec!["session-1", "session-2"]);

    let hop_one = ran.recap.find("Hop one").expect("hop one recap preserved");
    let hop_two = ran.recap.find("Hop two").expect("hop two recap preserved");
    assert!(hop_one < hop_two, "recaps must be preserved in hop order");
    assert!(ran.recap.contains("Started the work.\n\n---\n\n# Hop two"));

    assert_eq!(ran.outcome.status, TaskStatus::Review, "a stitched run completes");
    assert_eq!(ran.task.frontmatter.agent_session_ids.len(), 2, "each hop records its own session id");
    assert!(ran.logs[0].contains("[auto_resume hop=1/8]"));
    assert_eq!(ran.outcome.session_log_path, "/ops/runs/session-1.log");
}

#[test]
fn auto_resume_max_seconds_is_a_total_budget_across_hops() {
    let mut config = test_config();
    config.defaults.max_seconds = Some(MaxSeconds::Seconds(1));
    config.defaults.idle_timeout_seconds = 60;
    config.defaults.max_continuations = 20;
    let hop_ms: u64 = 400;
    let mut elapsed_ms: u64 = 0;
    let ran = run_alone_with(&config, |_, run| {
        let remaining = remaining_seconds(run.bounds.max_seconds, elapsed_ms / 1000);
        let mut watch = Watch::start(run.bounds.idle_timeout * 1000, remaining, true, 0);
        for now in [100, 200, 300] {
            if let Some(kill) = watch.tick(now, 0) {
                elapsed_ms += now;
                return SessionEnd::Killed(kill);
            }
        }
        elapsed_ms += hop_ms;
        SessionEnd::Finished(result("# more work", Some("codex resume")))
    });

    assert_eq!(ran.outcome.status, TaskStatus::NeedsUser);
    assert!(
        ran.recap.contains("Operation Budget Reached"),
        "must stop on the cumulative time budget, not the continuation cap: {}",
        ran.recap
    );
    assert!(
        ran.task.frontmatter.agent_session_ids.len() < 20,
        "cumulative budget must stop well before max_continuations; ran {} sessions",
        ran.task.frontmatter.agent_session_ids.len()
    );

    assert_eq!(remaining_seconds(Some(10), 7), Some(3));
    assert_eq!(remaining_seconds(Some(10), 12), Some(0));
    assert_eq!(remaining_seconds(None, 12), None);
}

#[test]
fn completed_resumable_agent_does_not_loop_when_autoresume_off() {
    let config = test_config();
    assert_eq!(config.defaults.max_continuations, 0, "auto-resume must be off by default");
    let ran = run_alone_with(&config, |_, _| SessionEnd::Finished(result("# more work", Some("codex resume"))));
    assert_eq!(
        ran.outcome.status,
        TaskStatus::Review,
        "a completed resumable session must NOT loop or become needs_user when auto-resume is off"
    );
    assert_eq!(ran.task.frontmatter.agent_session_ids.len(), 1, "exactly one session, no auto-resume");
    assert_eq!(
        ran.task.frontmatter.agent_resume_commands,
        vec!["codex resume".to_owned()],
        "headless resume commands must be persisted for `varda task resume`"
    );
}

#[test]
fn auto_resume_is_capped_by_max_continuations() {
    let mut config = test_config();
    config.defaults.max_continuations = 2;
    let ran = run_alone_with(&config, |_, _| {
        SessionEnd::Finished(result("# Still working\n\nMore to do.", Some("codex resume again")))
    });
    assert_eq!(ran.requests.len(), 3, "first session + max_continuations(2) continuations = 3 calls");
    assert_eq!(
        ran.outcome.status,
        TaskStatus::NeedsUser,
        "hitting the continuation cap with work remaining is a graceful checkpoint"
    );
    assert!(ran.recap.contains("Auto-Resume Limit Reached"));
    assert_eq!(ran.task.frontmatter.agent_session_ids.len(), 3);
    assert!(ran.logs.last().unwrap().contains("reached max_continuations=2"));
}

#[test]
fn a_later_failure_keeps_the_earlier_recaps() {
    let mut config = test_config();
    config.defaults.max_continuations = 5;
    let ran = run_alone(
        &config,
        vec![
            SessionEnd::Finished(result("part one", Some("codex resume 1"))),
            SessionEnd::Failed { error: "lost".to_owned(), causes: "lost".to_owned() },
        ],
    );
    assert_eq!(ran.outcome.status, TaskStatus::Failed);
    assert!(ran.recap.contains("## Earlier continuation recaps\n\npart one"));
}

#[test]
fn only_ready_tasks_are_run() {
    let config = test_config();
    let done = task(Some("/work/project"), None, TaskStatus::Done);
    let text = start_run(&config, done, "/tmp/task.md", "codex", None, false, false, "s").unwrap_err();
    assert!(text.contains("/tmp/task.md"));
    assert!(text.contains("not ready"));
}

#[test]
fn per_task_frontmatter_overrides_bounds() {
    let config = test_config();
    let mut fm = ready_task().frontmatter;
    let base = OperationBounds::resolve(&config, &fm);
    assert_eq!(base.idle_timeout, config.defaults.idle_timeout_seconds);
    assert_eq!(base.max_continuations, config.defaults.max_continuations);
    assert_eq!(base.max_seconds, Some(600));
    assert_eq!(tool_call_warning(&base), None);

    fm.bounds.idle_timeout = Some(7);
    fm.bounds.max_continuations = Some(1);
    fm.bounds.max_tool_calls = Some(42);
    fm.bounds.max_seconds = Some(MaxSeconds::Seconds(123));
    let over = OperationBounds::resolve(&config, &fm);
    assert_eq!(over.idle_timeout, 7);
    assert_eq!(over.max_continuations, 1);
    assert_eq!(over.max_tool_calls, 42);
    assert_eq!(over.max_seconds, Some(123));
    assert!(tool_call_warning(&over).unwrap().starts_with("warning: max_tool_calls=42 "));

    fm.bounds.max_seconds = Some(MaxSeconds::Keyword("none".to_owned()));
    assert_eq!(OperationBounds::resolve(&config, &fm).max_seconds, None);
}

#[test]
fn embeds_referenced_external_transcripts_so_interpreter_needs_no_fs_access() {
    let log = "command=copilot\nexternal_session_log=/ext/events.jsonl\nexternal_session_log=/ext/events.jsonl\nexternal_session_log=/ext/gone.jsonl\nstatus=exit status: 0\n";
    let paths = external_references(log);
    assert_eq!(paths, vec!["/ext/events.jsonl", "/ext/gone.jsonl"]);
    let readings = vec![
        (
            paths[0].clone(),
            Reading::Content("{\"event\":\"edit\",\"file\":\"a.tf\"}\nOUTCOME-MARKER\n".to_owned()),
        ),
        (paths[1].clone(), Reading::Unreadable("No such file or directory".to_owned())),
    ];
    let out = transcript_sections(&readings);
    assert!(out.contains("OUTCOME-MARKER"), "transcript content must be inlined: {out}");
    assert_eq!(out.matches("## External transcript").count(), 2, "dedup + note the missing one: {out}");
    assert!(out.contains("could not read this transcript"), "missing ref noted: {out}");

    let big = format!("HEAD{}TAIL-OUTCOME", "x".repeat(200_000));
    let tail = tail_excerpt(&big, 64 * 1024);
    assert!(tail.contains("TAIL-OUTCOME") && !tail.contains("HEAD"), "tail keeps the end");
    assert!(tail.starts_with("[truncated"), "notes truncation");
    assert_eq!(tail_excerpt("short", 64), "short");
    assert!(session_log_excerpt(&big).ends_with("TAIL-OUTCOME"));
}

#[test]
fn excerpts_are_cut_between_characters() {
    let tail = tail_excerpt("aéé", 3);
    assert!(tail.ends_with("\u{e9}"));
    assert!(!tail.ends_with("\u{e9}\u{e9}"));
}

#[test]
fn recaps_report_files_and_blocked_commands() {
    let recap = "# Done\n\n## Files touched\n/abs/a.rs\n/abs/b.rs\n\n## Blocked commands\nmsb\n";
    assert_eq!(parse_files_touched(recap), vec!["/abs/a.rs", "/abs/b.rs"]);
    assert_eq!(parse_blocked_commands(recap), vec!["msb"]);
    assert!(parse_files_touched("# Done\n").is_empty());
}

#[test]
fn recaps_ask_for_the_user_in_words() {
    assert!(recap_requires_user_interaction("User interaction required: yes."));
    assert!(recap_requires_user_interaction("- **User interaction required**: Yes"));
    assert!(!recap_requires_user_interaction("User interaction required: no."));
    assert!(!recap_requires_user_interaction("yes"));
}

#[test]
fn files_lie_below_the_operations_directory() {
    let config = test_config();
    assert_eq!(session_log_path(&config, "s"), "/ops/runs/s.log");
    assert_eq!(plan_path(&config, "/t/fix it.md"), "/ops/plans/fix it-plan.md");
    assert_eq!(recap_content("/t", "r"), "---\ntask: /t\n---\n\nr");
    assert_eq!(combine_recaps(&vec!["a".to_owned()], "b"), "a\n\n---\n\nb");
}

#[test]
fn plans_say_why_planning_failed() {
    let planned = plan_text(PlanEnd::Planned("the plan".to_owned()), "/t", 5);
    assert_eq!(planned, "the plan");
    let late = plan_text(PlanEnd::TimedOut, "/t", 5);
    assert_eq!(
        late,
        "# Planning Timed Out\n\nThe agent exceeded the configured 5 second limit while planning `/t`."
    );
    let failed = plan_text(PlanEnd::Failed("no agent".to_owned()), "/t", 5);
    assert!(failed.ends_with("Error: no agent"));
}
