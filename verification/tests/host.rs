use varda::board::{check_own_status, check_ownership, validate_self_status_transition};
use varda::commands::{
    agent_commit_message, apply_update, background_step, blocked_notice, check_background_launch, dispatch_line,
    editor_command, editor_failure, is_active_task_status, is_orchestrated, launch_failure_reason, read_update,
    recap_block, record_background_launch_failure, resolve_recap_path, run_banner, select_tasks, show_task, streams, task_list,
    run_policy, task_policy, truncate_for_table, LaunchState, LaunchStep, ShownRecap, Terminal,
};
use varda::config::{
    primitive_needs_tcp_broker, AgentConfig, AgentKind, Config, Defaults, GitConfig, Route, SandboxConfig,
};
use varda::dashboard::{
    check_board_status, daemon_args, dashboard_mode, dashboard_text, http_response, load_dashboard_payload,
    percent_decode, project_chip, query_param, read_request, status_message, update_dashboard_task_status, DashboardMode, DashboardRequest,
};
use varda::broker::SubtaskResults;
use varda::host::{
    diff_command, task_slug, BoardTask, SubtaskState, TitledDocument, VardaSubtaskResults, VardaTaskControlPlane,
};
use varda::inspect::{inspect_task, LogReading};
use varda::launch::{
    admit_existing, broker_bind_address, broker_setup, finish_spawned_subtasks, holds_request, place_subtask,
    prepare_subtask, settle_spawned, spawned_warning, subtask_id, subtask_name, worker_worktree_path, worktree_slug,
    Cleanup, Lineage, SpawnedEnd,
};
use varda::notify::{applescript_string, notify_user_interaction, signal_script};
use varda::orchestration::{OrchestrationPolicy, SpawnRequest};
use varda::order::StringMap;
use varda::paths::{components_of, file_name, file_stem, join_path, parent, path_comes_before, paths_agree};
use varda::routing::PromptSizes;
use varda::sessions::{
    choose_session, chosen_assignee, chosen_task, is_session_log, is_yes, latest_agent_resume_command,
    resume_session, resume_task, session_log_value, task_sessions, yes_no_prompt, LogFile, SessionChoice,
};
use varda::task::{TaskBounds, TaskDocument, TaskFrontmatter, TaskStatus, TaskSummary};
use varda::text::{decimal_of, lines_of, lowered, pad, parse_u64, replaced, split_on, trimmed, words_of};

fn agent(command: &str) -> AgentConfig {
    AgentConfig {
        kind: AgentKind::Acp,
        command: command.to_owned(),
        args: vec![],
        max_prompt_tokens: None,
        working_dir: None,
        env: StringMap::new(),
        auth_token_env: None,
        auth_token_target: None,
        credentials: vec![],
        interactive_command: None,
        interactive_args: None,
        streams_output: None,
        resume_command_template: None,
        interpreter_agent: None,
        skip_recap: false,
    }
}

fn route(glob: &str, agents: Vec<&str>) -> Route {
    Route {
        glob: glob.to_owned(),
        agents: agents.into_iter().map(str::to_owned).collect(),
        sandbox: None,
        mounts: vec![],
        orchestration: None,
    }
}

fn config(operations_dir: &str, routes: Vec<Route>, agents: Vec<(&str, AgentConfig)>) -> Config {
    let mut all: StringMap<AgentConfig> = StringMap::new();
    for (name, agent) in agents {
        all.insert(name.to_owned(), agent);
    }
    Config {
        defaults: Defaults {
            timeout_seconds: 600,
            operations_dir: operations_dir.to_owned(),
            sandbox: None,
            idle_timeout_seconds: 30,
            max_seconds: None,
            max_continuations: 5,
            max_tool_calls: 0,
            forward_ssh_agent: false,
            git_user_name: None,
            git_user_email: None,
            identity_context: vec![],
        },
        routes,
        agents: all,
        roles: StringMap::new(),
        git: GitConfig { auto_commit: true },
        sandboxes: StringMap::new(),
        orchestration: OrchestrationPolicy::default(),
    }
}

fn task(project: Option<&str>, assignee: Option<&str>, status: TaskStatus) -> TaskDocument {
    TaskDocument {
        path: "/tmp/task.md".to_owned(),
        frontmatter: TaskFrontmatter {
            id: Some(1),
            status,
            project: project.map(str::to_owned),
            mother_project: None,
            assignee: assignee.map(str::to_owned),
            sandbox: None,
            recap: None,
            recaps: vec![],
            plan: None,
            agent_session_id: None,
            agent_session_log: None,
            agent_session_ids: vec![],
            agent_session_logs: vec![],
            agent_resume_commands: vec![],
            allow_commands: vec![],
            bounds: TaskBounds::default(),
            requires_user: false,
        },
        body: "# Task\n\nDo it.".to_owned(),
    }
}

fn summary(id: u64, status: TaskStatus, project: &str, assignee: Option<&str>) -> TaskSummary {
    TaskSummary {
        id: Some(id),
        path: format!("/ops/tasks/{id}.md"),
        title: format!("Task {id}"),
        status,
        project: Some(project.to_owned()),
        assignee: assignee.map(str::to_owned),
    }
}

fn sizes() -> PromptSizes {
    PromptSizes { agent_instructions: 1, planning_instructions: 1, frontmatter: 1, project_instructions: 1, plan: 1 }
}

#[test]
fn task_list_active_statuses_exclude_backlog_and_done() {
    for status in [
        TaskStatus::Ready,
        TaskStatus::Running,
        TaskStatus::Review,
        TaskStatus::NeedsUser,
        TaskStatus::Failed,
    ] {
        assert!(is_active_task_status(status));
    }

    assert!(!is_active_task_status(TaskStatus::Backlog));
    assert!(!is_active_task_status(TaskStatus::Done));
}

#[test]
fn primitive_selects_tcp_only_for_microvm() {
    assert!(primitive_needs_tcp_broker("microsandbox"));
    assert!(primitive_needs_tcp_broker("clawk"));
    assert!(!primitive_needs_tcp_broker("local"));
    assert!(!primitive_needs_tcp_broker("docker"));
}

#[test]
fn extracts_values_from_session_log() {
    let content = "session_id=session-1\nagent=codex\ntask=/tmp/task.md\n";

    assert_eq!(session_log_value(content, "session_id").as_deref(), Some("session-1"));
    assert_eq!(session_log_value(content, "task").as_deref(), Some("/tmp/task.md"));
    assert_eq!(session_log_value(content, "missing"), None);
}

#[test]
fn decodes_dashboard_query_params() {
    let target = "/api/tasks/detail?path=%2Ftmp%2Ftask%20one.md&unused=true";

    assert_eq!(query_param(target, "path").as_deref(), Some("/tmp/task one.md"));
    assert_eq!(query_param(target, "missing"), None);
}

#[test]
fn percent_signs_stand_for_bytes() {
    assert_eq!(percent_decode(b"a%20b"), "a b");
    assert_eq!(percent_decode(b"%C3%A9"), "\u{e9}");
    assert_eq!(percent_decode(b"100%"), "100%");
    assert_eq!(percent_decode(b"%zz"), "%zz");
    assert_eq!(percent_decode(b"%ff"), "\u{fffd}");
}

#[test]
fn latest_agent_resume_command_uses_latest_non_empty_entry() {
    let mut task = task(None, None, TaskStatus::Ready);
    task.frontmatter.agent_resume_commands =
        vec!["codex resume old".to_owned(), "   ".to_owned(), "codex resume new".to_owned()];

    assert_eq!(latest_agent_resume_command(&task).as_deref(), Some("codex resume new"));
}

#[test]
fn latest_agent_resume_command_returns_none_when_empty() {
    let mut task = task(None, None, TaskStatus::Ready);
    task.frontmatter.agent_resume_commands = vec!["".to_owned(), "  ".to_owned()];

    assert_eq!(latest_agent_resume_command(&task), None);
}

#[test]
fn finds_sessions_for_task() {
    let log = |name: &str, content: &str, modified: u64| LogFile {
        path: format!("/ops/runs/{name}"),
        content: content.to_owned(),
        task_file: None,
        modified: Some(modified),
    };
    let files = vec![
        log("session-1.log", "session_id=session-1\nagent=codex\ntask=/ops/tasks/mine.md\n", 1),
        log("session-2.log", "session_id=session-2\nagent=codex\ntask=/tmp/other.md\n", 2),
    ];

    let sessions = task_sessions(&files, "/ops/tasks/mine.md", None);

    assert_eq!(sessions.len(), 1);
    assert_eq!(sessions[0].session_id, "session-1");
    assert_eq!(sessions[0].log_path, "/ops/runs/session-1.log");

    let more = vec![
        log("a.log", "task=/t.md\n", 1),
        log("b.log", "task=/t.md\n", 5),
        log("c.txt", "task=/t.md\n", 9),
        LogFile { task_file: Some("/real.md".to_owned()), ..log("d.log", "task=link.md\n", 3) },
    ];
    let ids: Vec<String> =
        task_sessions(&more, "/t.md", Some("/real.md")).into_iter().map(|session| session.session_id).collect();
    assert_eq!(ids, vec!["b", "d", "a"]);
    assert!(is_session_log("/ops/runs/a.log"));
    assert!(!is_session_log("/ops/runs/c.txt"));
}

#[test]
fn tasks_are_taken_up_again() {
    let mut doc = task(None, None, TaskStatus::NeedsUser);
    doc.frontmatter.requires_user = true;
    doc.frontmatter.agent_resume_commands.push("codex resume 1".to_owned());
    let plan = resume_task(&mut doc, false);
    assert!(plan.offer_editor);
    assert_eq!(plan.resume_command, Some("codex resume 1".to_owned()));
    assert_eq!(doc.frontmatter.status, TaskStatus::Ready);
    assert!(!doc.frontmatter.requires_user);
    assert_eq!(resume_task(&mut doc, true).resume_command, None);

    let log = LogFile {
        path: "/r/s.log".to_owned(),
        content: "task=/tmp/task.md\nsession_id=s9\n".to_owned(),
        task_file: None,
        modified: None,
    };
    let sessions = task_sessions(&vec![log], "/tmp/task.md", None);
    resume_session(&mut doc, &sessions[0]);
    assert_eq!(doc.frontmatter.agent_session_ids, vec!["s9"]);
    assert_eq!(doc.frontmatter.agent_session_logs, vec!["/r/s.log"]);
}

#[test]
fn answers_of_the_user_are_read() {
    assert_eq!(choose_session("", 2), Ok(SessionChoice::Chosen(0)));
    assert_eq!(choose_session(" 2\n", 2), Ok(SessionChoice::Chosen(1)));
    assert_eq!(choose_session("Q", 2), Ok(SessionChoice::Cancelled));
    assert_eq!(choose_session("0", 2).unwrap_err(), "session selection must be at least 1");
    assert_eq!(choose_session("3", 2).unwrap_err(), "session selection 3 is out of range");
    assert_eq!(choose_session("x", 2).unwrap_err(), "invalid session selection 'x'");
    assert!(is_yes("YES\n", false) && is_yes("", true) && !is_yes("", false) && !is_yes("no", true));
    assert_eq!(yes_no_prompt("Go?", true), "Go? [Y/n]: ");
    assert_eq!(chosen_assignee(" \n", "codex"), "codex");
    assert_eq!(chosen_assignee("me\n", "codex"), "me");
    assert_eq!(chosen_task("#12\n"), Some("12".to_owned()));
    assert_eq!(chosen_task("\n"), None);
}

#[test]
fn background_launch_failure_marks_task_failed_with_recap_and_log() {
    let config = config("/ops", vec![], vec![]);
    let mut doc = task(Some("/work/project"), Some("codex"), TaskStatus::Ready);
    let failure = record_background_launch_failure(
        &config,
        &mut doc,
        "/ops/tasks/codex/example.md",
        "agent binary was not found",
        "s1",
        "r1",
    )
    .expect("failure should be recorded");

    assert_eq!(doc.frontmatter.status, TaskStatus::Failed);
    assert_eq!(doc.frontmatter.agent_session_ids.len(), 1);
    assert_eq!(doc.frontmatter.agent_session_logs.len(), 1);
    assert_eq!(doc.frontmatter.recaps.len(), 1);
    assert_eq!(failure.log_path, doc.frontmatter.agent_session_logs[0]);
    assert_eq!(failure.recap_path, doc.frontmatter.recaps[0]);
    assert!(failure.log.contains("launch_failure=agent binary was not found"));
    assert!(failure.recap.contains("Agent Run Failed"));
    assert!(failure.recap.contains("agent binary was not found"));

    let mut done = task(None, None, TaskStatus::Done);
    assert_eq!(record_background_launch_failure(&config, &mut done, "/t", "late", "s2", "r2"), None);
    assert_eq!(done.frontmatter.status, TaskStatus::Done);
}

#[test]
fn background_launches_are_waited_for() {
    let ready = task(None, None, TaskStatus::Ready).frontmatter;
    assert!(check_background_launch(&ready, "/t.md").is_ok());
    let done = task(None, None, TaskStatus::Done).frontmatter;
    assert!(check_background_launch(&done, "/t.md").is_err());

    let state = LaunchState {
        status: TaskStatus::Ready,
        sessions: 0,
        logs: 0,
        log_exists: false,
        exited: false,
        waited: 0,
    };
    assert_eq!(background_step(state, 0), LaunchStep::Wait);
    assert_eq!(background_step(LaunchState { waited: 10, ..state }, 0), LaunchStep::TooSlow);
    assert_eq!(background_step(LaunchState { exited: true, ..state }, 0), LaunchStep::Exited);
    let recorded =
        LaunchState { status: TaskStatus::Running, sessions: 1, logs: 1, log_exists: true, ..state };
    assert_eq!(background_step(recorded, 0), LaunchStep::Launched);
    assert_eq!(background_step(recorded, 1), LaunchStep::Wait);

    let (log, told) = launch_failure_reason(LaunchStep::TooSlow, 7, "/t.md", "");
    assert_eq!(log, "background child pid 7 did not record a running session within 10 seconds");
    assert_eq!(told, "background agent for /t.md did not record a session within 10 seconds");
    let (log, _) = launch_failure_reason(LaunchStep::Exited, 7, "/t.md", "exit status: 1");
    assert_eq!(log, "background child pid 7 exited before recording a session (status: exit status: 1)");
}

#[test]
fn writes_user_interaction_notification() {
    let config = config("/ops", vec![], vec![]);
    let (path, record) = notify_user_interaction(
        &config,
        ".varda/operations/tasks/example.md",
        ".varda/operations/recaps/run.md",
        "mark",
    );
    assert_eq!(path, "/ops/runs/mark.notification.json");
    assert_eq!(record.kind.as_str(), "needs_user");
    assert!(record.message.contains("requires user interaction"));
    assert_eq!(record.signal.title, "Varda needs user input");
    assert_eq!(applescript_string("a \"b\" \\c"), "\"a \\\"b\\\" \\\\c\"");
    assert!(signal_script(&record.signal).contains("\"Varda needs user input\""));
}

#[test]
fn tasks_are_listed_and_changed() {
    let tasks = vec![
        summary(1, TaskStatus::Ready, "/p", Some("codex")),
        summary(2, TaskStatus::Done, "/p", None),
        summary(3, TaskStatus::Ready, "/p", None),
    ];
    let table = task_list("/p", &tasks);
    assert!(table.starts_with("project: /p\nID    STATUS     ASSIGNEE     TITLE"));
    assert!(table.contains("1     ready      codex        Task 1"));
    assert_eq!(task_list("/p", &vec![]), "project: /p\nno tasks found\n");

    let update = read_update(Some("done"), None, &vec!["ready".to_owned()], Some("codex")).unwrap();
    assert_eq!(select_tasks(&tasks, &update), vec!["/ops/tasks/1.md"]);
    let any = read_update(None, Some("other"), &vec![], None).unwrap();
    assert_eq!(select_tasks(&tasks, &any).len(), 3);
    let mut doc = task(None, None, TaskStatus::Ready);
    apply_update(&mut doc, &update);
    assert_eq!(doc.frontmatter.status, TaskStatus::Done);
    apply_update(&mut doc, &any);
    assert_eq!(doc.frontmatter.assignee, Some("other".to_owned()));
    assert_eq!(doc.frontmatter.status, TaskStatus::Done);
    assert_eq!(
        read_update(None, None, &vec![], None).unwrap_err(),
        "nothing to update: specify --set-status and/or --set-agent"
    );
    assert!(read_update(Some("nope"), None, &vec![], None).unwrap_err().contains("nope"));
    assert!(read_update(Some("done"), None, &vec!["odd".to_owned()], None).unwrap_err().contains("odd"));
    assert_eq!(truncate_for_table("abcdef", 4), "abc.");
    assert_eq!(truncate_for_table("abcd", 4), "abcd");
}

#[test]
fn tasks_are_shown_with_their_recaps() {
    assert_eq!(
        show_task("/t.md", "body", &vec![]),
        "# Task /t.md\n\nbody\n\n---\n\n# Recap\n\nNo recap is associated with the task.\n"
    );
    let recap = ShownRecap { path: "/r.md".to_owned(), content: "fine\n".to_owned() };
    assert!(show_task("/t.md", "body\n", &vec![recap]).ends_with("# Recap /r.md\n\nfine\n\n---\n\n"));
    assert_eq!(resolve_recap_path("/abs.md", "/a/t.md", false), "/abs.md");
    assert_eq!(resolve_recap_path("r.md", "/a/t.md", false), "/a/r.md");
    assert_eq!(resolve_recap_path("r.md", "/a/t.md", true), "r.md");
}

#[test]
fn runs_are_announced() {
    assert_eq!(run_banner(Some(4), "Fix", " body \n"), "Running task #4: Fix\n\nbody\n\n---\n\n");
    assert!(dispatch_line(None, "Fix", "codex").ends_with("agent=codex"));
    assert!(streams(false, false) && !streams(true, false) && !streams(false, true));
    assert_eq!(recap_block("done"), "\n---\n\ndone\n");
    assert_eq!(blocked_notice(&vec![]), None);
    assert!(blocked_notice(&vec!["a".to_owned(), "b".to_owned()]).unwrap().starts_with("\nblocked_commands: a, b\n"));
    assert_eq!(agent_commit_message("/x/fix it.md"), "Apply task fix it agent changes");
}

#[test]
fn a_task_is_served_under_the_policy_of_its_mother_project() {
    let mut own = route("/mother/**", vec![]);
    own.orchestration = Some(OrchestrationPolicy { enabled: true, ..Default::default() });
    let config = config("/ops", vec![own], vec![]);
    let mut doc = task(Some("/checkout"), None, TaskStatus::Ready);
    assert!(!is_orchestrated(&doc.frontmatter, task_policy(&config, &doc.frontmatter)));
    doc.frontmatter.mother_project = Some("/mother/p".to_owned());
    assert!(is_orchestrated(&doc.frontmatter, task_policy(&config, &doc.frontmatter)));
    assert!(!is_orchestrated(&doc.frontmatter, run_policy(&config, &doc.frontmatter)));
    doc.frontmatter.project = Some("/mother/q".to_owned());
    assert!(is_orchestrated(&doc.frontmatter, run_policy(&config, &doc.frontmatter)));
}

#[test]
fn editors_of_the_terminal_go_first() {
    let plain = |editor: Option<&str>| Terminal {
        nvim: None,
        zed: false,
        vscode: false,
        cursor: false,
        editor: editor.map(str::to_owned),
    };
    assert_eq!(editor_command(&plain(None), "/t").0, "vi");
    assert_eq!(editor_command(&plain(Some("emacs")), "/t"), ("emacs".to_owned(), vec!["/t".to_owned()]));
    let zed = Terminal { zed: true, ..plain(Some("emacs")) };
    assert_eq!(editor_command(&zed, "/t").0, "zed");
    let code = Terminal { vscode: true, cursor: true, ..plain(None) };
    assert_eq!(editor_command(&code, "/t").0, "cursor");
    let nvim = Terminal { nvim: Some("/s".to_owned()), ..plain(None) };
    assert_eq!(editor_command(&nvim, "/t").1, vec!["--server", "/s", "--remote-wait", "/t"]);

    let failed = "exit status: 1";
    assert_eq!(editor_failure(&plain(None), failed), "editor 'vi' exited with status exit status: 1");
    assert_eq!(editor_failure(&zed, failed), "zed --wait exited with status exit status: 1");
    assert_eq!(editor_failure(&nvim, failed), "nvim --remote-wait exited with status exit status: 1");
    assert_eq!(
        editor_failure(&code, failed),
        "'cursor --reuse-window --wait' exited with status exit status: 1"
    );
}

// ---------------------------------------------------------------------------
// The dashboard
// ---------------------------------------------------------------------------

#[test]
fn dashboard_requests_are_read() {
    assert_eq!(read_request("GET / HTTP/1.1\r\n\r\n"), DashboardRequest::Page);
    assert_eq!(read_request("GET /api/tasks?x=1 HTTP/1.1\r\n\r\n"), DashboardRequest::Tasks);
    assert_eq!(
        read_request("GET /api/tasks/detail?path=%2Ft.md HTTP/1.1\r\n\r\n"),
        DashboardRequest::Detail("/t.md".to_owned())
    );
    assert_eq!(read_request("GET /api/tasks/detail HTTP/1.1\r\n\r\n"), DashboardRequest::DetailOfNothing);
    assert_eq!(
        read_request("POST /api/tasks/status HTTP/1.1\r\nA: b\r\n\r\n{\"x\":1}"),
        DashboardRequest::SetStatus("{\"x\":1}".to_owned())
    );
    assert_eq!(read_request("GET /healthz HTTP/1.1\r\n\r\n"), DashboardRequest::Health);
    assert_eq!(read_request("DELETE / HTTP/1.1\r\n\r\n"), DashboardRequest::Unknown);
    assert_eq!(
        http_response("200 OK", "text/plain", "h\u{e9}"),
        "HTTP/1.1 200 OK\r\nContent-Type: text/plain; charset=utf-8\r\nContent-Length: 3\r\nCache-Control: no-store\r\nConnection: close\r\n\r\nh\u{e9}"
    );
}

#[test]
fn the_board_gives_few_statuses() {
    let mut doc = task(None, None, TaskStatus::NeedsUser);
    doc.frontmatter.requires_user = true;
    assert_eq!(update_dashboard_task_status(&mut doc, TaskStatus::Done), Ok(true));
    assert!(!doc.frontmatter.requires_user);
    assert_eq!(update_dashboard_task_status(&mut doc, TaskStatus::Done), Ok(false));
    assert_eq!(
        update_dashboard_task_status(&mut doc, TaskStatus::Running).unwrap_err(),
        "dashboard status updates do not support status 'running'"
    );
    assert_eq!(check_board_status(TaskStatus::Backlog), Ok(()));
    assert!(check_board_status(TaskStatus::Review).is_err());
    assert_eq!(status_message("/t.md", TaskStatus::Ready), "Mark task /t.md ready");
}

#[test]
fn the_board_lists_projects_once_and_in_order() {
    let tasks = vec![
        summary(1, TaskStatus::Ready, "/b", None),
        summary(2, TaskStatus::Done, "/a", Some("codex")),
        summary(3, TaskStatus::Ready, "/b", None),
    ];
    let payload = load_dashboard_payload("all projects", 9, "/b", None, &tasks, &vec![None, Some(5), None]);
    assert_eq!(payload.projects, vec!["/a", "/b"]);
    assert_eq!(payload.tasks.len(), 3);
    assert_eq!(payload.tasks[1].completed_at, Some(5));
    assert_eq!(payload.tasks[1].status, "done");
    assert_eq!(payload.statuses.len(), 7);

    let text = dashboard_text("all projects", &tasks);
    assert!(text.starts_with("# Tasks Dashboard\n\nscope: all projects\ntasks: 3\n\n## backlog\n- none\n"));
    assert!(text.contains("- #2 [a] Task 2 (assignee: codex, path: /ops/tasks/2.md)\n"));
    assert!(!dashboard_text("/b", &tasks).contains("[a]"));
    assert_eq!(project_chip(Some("/x/app")), " [app]");
    assert_eq!(project_chip(None), "");
}

#[test]
fn boards_are_shown_served_or_left_running() {
    assert_eq!(dashboard_mode(false, false), Ok(DashboardMode::Terminal));
    assert_eq!(dashboard_mode(true, false), Ok(DashboardMode::Serve));
    assert_eq!(dashboard_mode(true, true), Ok(DashboardMode::Daemon));
    assert_eq!(dashboard_mode(false, true).unwrap_err(), "--daemon requires --web");
    assert_eq!(
        daemon_args(Some("/p"), true, 80),
        vec!["task", "dashboard", "--web", "--port", "80", "--all", "--project", "/p"]
    );
}

// ---------------------------------------------------------------------------
// Sub-tasks on the host
// ---------------------------------------------------------------------------

fn spawn(route: Option<&str>, agent: Option<&str>, sandbox: Option<&str>) -> SpawnRequest {
    SpawnRequest {
        brief: "do it".to_owned(),
        route: route.map(str::to_owned),
        agent: agent.map(str::to_owned),
        sandbox: sandbox.map(str::to_owned),
        approved: false,
    }
}

fn worker_config() -> Config {
    let mut config = config("/ops", vec![route("/work/**", vec!["codex"])], vec![("codex", agent("codex"))]);
    config.orchestration = OrchestrationPolicy {
        enabled: true,
        default_worker_sandbox: Some("worker".to_owned()),
        ..Default::default()
    };
    config.sandboxes.insert(
        "worker".to_owned(),
        SandboxConfig {
            primitive: "docker".to_owned(),
            image: Some("img".to_owned()),
            build: None,
            mounts: vec![],
            egress: vec![],
            env: StringMap::new(),
        },
    );
    config
}

#[test]
fn sub_tasks_are_placed_under_the_policy() {
    let config = worker_config();
    let placed = place_subtask(&config, "/work/p", "codex", &spawn(None, None, None)).unwrap();
    assert_eq!(placed.project, "/work/p");
    assert_eq!(placed.assignee, "codex");
    assert_eq!(placed.sandbox, Some("worker".to_owned()));

    let err = place_subtask(&config, "/work/p", "codex", &spawn(None, Some("ghost"), None)).unwrap_err();
    assert!(err.contains("not runnable"), "{err}");
    let err = place_subtask(&config, "/work/p", "codex", &spawn(None, None, Some("local"))).unwrap_err();
    assert!(err.contains("must run in an isolating sibling box"), "{err}");
    let err = place_subtask(&config, "/work/p", "codex", &spawn(None, None, Some("odd"))).unwrap_err();
    assert!(err.contains("worker sandbox 'odd' is not defined"), "{err}");
    assert!(place_subtask(&config, "/elsewhere", "codex", &spawn(None, None, None)).is_err());
}

#[test]
fn sub_tasks_work_in_checkouts_of_their_own() {
    assert_eq!(subtask_name("7"), "spawned-subtask-7");
    assert_eq!(worktree_slug("spawned-subtask-7", "a"), "spawned-subtask-7-a");
    assert_eq!(worker_worktree_path("/home/.varda", "x"), "/home/.varda/worktrees/wip-x");
    let mut doc = task(Some("/work/p"), None, TaskStatus::Ready);
    prepare_subtask(&mut doc, Some("worker"), Some("/wt"), "/work/p");
    assert_eq!(doc.frontmatter.sandbox, Some("worker".to_owned()));
    assert_eq!(doc.frontmatter.project, Some("/wt".to_owned()));
    assert_eq!(doc.frontmatter.mother_project, Some("/work/p".to_owned()));
    assert_eq!(subtask_id(Some(12), "/t.md"), "12");
    assert_eq!(subtask_id(None, "/t.md"), "/t.md");
}

#[test]
fn existing_tasks_are_run_once_at_a_time() {
    let config = worker_config();
    let mut doc = task(Some("/work/p"), Some("codex"), TaskStatus::Failed);
    let err = admit_existing(&config, "1", "/t.md", &mut doc, &sizes(), true).unwrap_err();
    assert_eq!(err, "task '1' is already running in this session; refusing to double-run it");
    assert_eq!(doc.frontmatter.status, TaskStatus::Failed);
    assert_eq!(admit_existing(&config, "1", "/t.md", &mut doc, &sizes(), false), Ok("1".to_owned()));
    assert_eq!(doc.frontmatter.status, TaskStatus::Ready);
    doc.frontmatter.assignee = Some("ghost".to_owned());
    assert!(admit_existing(&config, "1", "/t.md", &mut doc, &sizes(), false).unwrap_err().contains("not runnable"));
}

#[test]
fn sub_tasks_that_break_off_fail() {
    let mut doc = task(None, None, TaskStatus::Running);
    assert!(!settle_spawned(&mut doc, SpawnedEnd::Finished));
    assert!(settle_spawned(&mut doc, SpawnedEnd::Broken));
    assert_eq!(doc.frontmatter.status, TaskStatus::Failed);
    doc.set_status(TaskStatus::Done);
    assert!(!settle_spawned(&mut doc, SpawnedEnd::TooLong));
    assert_eq!(doc.frontmatter.status, TaskStatus::Done);
    assert_eq!(spawned_warning(SpawnedEnd::Finished, "spawned", "1", ""), None);
    assert_eq!(
        spawned_warning(SpawnedEnd::TooLong, "spawned", "1", "").unwrap(),
        "warning: spawned subtask 1 exceeded the 3600s hard ceiling; forcing terminal"
    );
}

#[test]
fn join_spawned_subtasks_drains_descendant_handles_registered_during_join() {
    let mut state: varda::broker::SharedSpawnState<u32> = varda::broker::SharedSpawnState::new();
    state.insert_handle("child".to_owned(), 1);
    let mut joined = vec![];
    loop {
        let wave = state.drain_handles();
        if wave.is_empty() {
            break;
        }
        for (id, _) in wave {
            if id == "child" {
                state.insert_handle("grandchild".to_owned(), 2);
            }
            joined.push(id);
        }
    }
    assert_eq!(joined, vec!["child", "grandchild"]);
    assert_eq!(state.handle_count(), 0);
}

#[test]
fn nested_orchestrated_child_returns_without_self_joining_shared_state() {
    assert_eq!(finish_spawned_subtasks(false, true), Cleanup::Leave);
    assert_eq!(finish_spawned_subtasks(false, false), Cleanup::Leave);
    assert_eq!(finish_spawned_subtasks(true, true), Cleanup::Join);
    assert_eq!(finish_spawned_subtasks(true, false), Cleanup::Abort);
}

#[test]
fn interactive_orchestrated_run_serves_broker_socket() {
    let setup = broker_setup(true, false, "docker", "/proj", "s1", Some(5), None).unwrap();
    assert_eq!(setup.root_id, "5");
    assert_eq!(setup.root_depth, 0);
    assert!(setup.is_root_run);
    assert_eq!(setup.socket, Some(("/proj/.varda-mcp".to_owned(), "/proj/.varda-mcp/s1.sock".to_owned())));
    let child = Lineage { root_id: "9".to_owned(), root_depth: 2 };
    let setup = broker_setup(true, false, "docker", "/proj", "s1", Some(5), Some(child)).unwrap();
    assert_eq!((setup.root_id.as_str(), setup.root_depth, setup.is_root_run), ("9", 2, false));
}

#[test]
fn non_orchestrated_interactive_run_gets_no_broker() {
    assert_eq!(broker_setup(false, false, "docker", "/proj", "s1", Some(5), None), None);
    assert_eq!(broker_setup(true, true, "docker", "/proj", "s1", Some(5), None), None);
}

#[test]
fn vm_backed_primitive_serves_broker_over_tcp_not_socket() {
    let setup = broker_setup(true, false, "microsandbox", "/proj", "s1", None, None).unwrap();
    assert_eq!(setup.socket, None);
    assert_eq!(setup.root_id, "s1");
    assert_eq!(broker_bind_address(None, false), "127.0.0.1");
    assert_eq!(broker_bind_address(Some("0.0.0.0"), true), "127.0.0.1");
    assert_eq!(broker_bind_address(Some("10.0.0.2"), false), "10.0.0.2");
    assert!(holds_request("{}\n") && !holds_request("  \n"));
}

#[test]
fn results_are_read_by_number() {
    let state = |id: u64| SubtaskState {
        id,
        status: TaskStatus::Done,
        recap: Some("fine".to_owned()),
        diff: Some("+a".to_owned()),
    };
    let results = VardaSubtaskResults::new(vec![state(1), state(2), state(2)]);
    assert_eq!(results.status("1"), Some(TaskStatus::Done));
    assert_eq!(results.recap("1"), Some("fine".to_owned()));
    assert_eq!(results.diff("1"), Some("+a".to_owned()));
    assert_eq!(results.status("2"), None);
    assert_eq!(results.state("x").unwrap_err(), "subtask id 'x' is not a resolvable numeric task id");
    assert_eq!(results.state("3").unwrap_err(), "no task found with id 3");
    assert_eq!(
        results.state("2").unwrap_err(),
        "failed to resolve task 2: more than one task has this id"
    );
    assert_eq!(
        diff_command(None),
        "git add -A -N >/dev/null 2>&1; git diff HEAD; git reset -q >/dev/null 2>&1"
    );
}

#[test]
fn the_control_plane_stays_within_a_project() {
    let document = || {
        Some(TitledDocument { title: "Task".to_owned(), task: task(Some("/p"), None, TaskStatus::Ready) })
    };
    let plane = VardaTaskControlPlane::new(vec![
        BoardTask { summary: summary(1, TaskStatus::Ready, "/p", None), document: document() },
        BoardTask { summary: summary(2, TaskStatus::Done, "/p/", None), document: document() },
        BoardTask { summary: summary(3, TaskStatus::Ready, "/q", None), document: document() },
    ]);
    let ids: Vec<u64> = plane.list_tasks("/p", None).into_iter().map(|entry| entry.id).collect();
    assert_eq!(ids, vec![1, 2]);
    assert_eq!(plane.list_tasks("/p", Some(TaskStatus::Done)).len(), 1);
    assert_eq!(plane.get_task("/p", 1).unwrap().body, "# Task\n\nDo it.");
    assert_eq!(plane.get_task("/p", 1).unwrap().title, "Task");
    assert!(plane.get_task("/p", 3).is_none());
    assert_eq!(plane.task_file("/q", 3), Ok("/ops/tasks/3.md".to_owned()));
    assert!(plane.task_file("/p", 3).is_err());
    assert_eq!(plane.find("/p", 2), Some(1));
    assert_eq!(task_slug("/ops/tasks/7-fix.md"), "7-fix");
}

#[test]
fn guests_close_their_own_running_task_only() {
    assert!(validate_self_status_transition(TaskStatus::Running, TaskStatus::Done).is_ok());
    assert!(validate_self_status_transition(TaskStatus::Review, TaskStatus::Done).is_err());
    assert!(validate_self_status_transition(TaskStatus::Running, TaskStatus::Ready).is_err());
    assert!(check_ownership(true, "7", 7).is_ok());
    assert!(check_ownership(true, "7", 8).unwrap_err().contains("own"));
    assert!(check_ownership(false, "7", 7).is_err());
    assert!(check_own_status(7, Some("running"), TaskStatus::Failed).is_ok());
    assert!(check_own_status(7, None, TaskStatus::Failed).is_err());
}

#[test]
fn tasks_are_inspected() {
    let mut codex = agent("codex");
    codex.args.push("--acp \"x\"".to_owned());
    let config = config("/ops", vec![route("**", vec!["codex"])], vec![("codex", codex)]);
    let mut doc = task(Some("/p"), Some("codex"), TaskStatus::Running);
    doc.frontmatter.agent_session_ids = vec!["abcdefgh-1".to_owned(), "12345678-2".to_owned()];
    doc.frontmatter.agent_session_logs = vec!["/ops/runs/a.log".to_owned()];
    let readings = vec![
        LogReading::Content("one\ntwo\n".to_owned()),
        LogReading::Unreadable("gone".to_owned()),
    ];
    let ps = "me 41 varda /tmp/task.md\nme 42 other\n";
    let text = inspect_task(&config, "/tmp/task.md", &doc, &sizes(), ps, &readings);
    assert!(text.starts_with("# Task /tmp/task.md\n\nstatus: Running  assignee: codex  project: /p\n\n"));
    assert!(text.contains("## Agent config: codex\n  command:     codex [\"--acp \\\"x\\\"\"]\n"));
    assert!(text.contains("  glob:   **\n  agent:  codex\n"));
    assert!(text.contains("### Session abcdefgh \u{2014} running (pid 41)\n  log: /ops/runs/a.log\n  ---\n  one\n  two\n  ---\n"));
    assert!(text.contains("### Session 12345678 \u{2014} running (pid 41)\n  (no log path recorded)\n"));
}

// ---------------------------------------------------------------------------
// Paths and texts
// ---------------------------------------------------------------------------

#[test]
fn paths_are_read_by_their_parts() {
    assert_eq!(components_of("/a//b/./c/"), components_of("/a/b/c"));
    assert!(paths_agree("/a/b/", "/a/b"));
    assert!(!paths_agree("/a/b", "a/b"));
    assert_eq!(join_path("/a", "b"), "/a/b");
    assert_eq!(join_path("/a", "/b"), "/b");
    assert_eq!(file_name("/a/b.md"), Some("b.md".to_owned()));
    assert_eq!(file_name("/"), None);
    assert_eq!(file_stem("/a/b.tar.gz"), Some("b.tar".to_owned()));
    assert_eq!(file_stem("/a/.hidden"), Some(".hidden".to_owned()));
    assert_eq!(parent("/a/b"), Some("/a".to_owned()));
    assert_eq!(parent("/"), None);
    assert!(path_comes_before("/a/b", "/a-b"));
}

#[test]
fn texts_are_cut_and_joined() {
    assert_eq!(decimal_of(0), "0");
    assert_eq!(decimal_of(u64::MAX), "18446744073709551615");
    assert_eq!(parse_u64("42"), Some(42));
    assert_eq!(parse_u64("18446744073709551616"), None);
    assert_eq!(parse_u64("x"), None);
    assert_eq!(lines_of("a\r\nb\n"), vec!["a", "b"]);
    assert_eq!(words_of(" a  b\tc "), vec!["a", "b", "c"]);
    assert_eq!(split_on("a:b:", ':'), vec!["a", "b", ""]);
    assert_eq!(trimmed(" \ta b\n"), "a b");
    assert_eq!(lowered("AbC"), "abc");
    assert_eq!(replaced("a-b-c", "-", "+"), "a+b+c");
    assert_eq!(pad("ab", 4), "ab  ");
}
