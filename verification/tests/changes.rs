use varda::changes::{
    after_add, check_assignee, check_pinned_sandbox, created_line, default_assignee, deleted_files, deletion_preview,
    deletion_report, doomed_recaps, listed_tasks, recap_places, task_description, update_preview, AfterAdd, Launch,
};
use varda::config::{AgentConfig, AgentKind, Config, Defaults, GitConfig, Route, SandboxConfig};
use varda::dashboard::task_detail;
use varda::images::{build_failure, image_build, image_lookup, image_tag, unreadable_dockerfile};
use varda::orchestration::OrchestrationPolicy;
use varda::order::StringMap;
use varda::plan_document::{plan_report, PlanScope};
use varda::resident::{launch_report, ResidentLaunch};
use varda::sessions::{session_menu, TaskSession};
use varda::task::{TaskStatus, TaskSummary};

fn agent(command: &str) -> AgentConfig {
    AgentConfig {
        kind: AgentKind::Acp,
        command: command.to_owned(),
        args: vec![],
        max_prompt_tokens: None,
        working_dir: None,
        env: StringMap::new(),
        auth_token_env: None,
        auth_token_target: None,
        credentials: vec![],
        interactive_command: None,
        interactive_args: None,
        streams_output: None,
        resume_command_template: None,
        interpreter_agent: None,
        skip_recap: false,
    }
}

fn route(glob: &str, agents: Vec<&str>) -> Route {
    Route {
        glob: glob.to_owned(),
        agents: agents.into_iter().map(str::to_owned).collect(),
        sandbox: None,
        mounts: vec![],
        orchestration: None,
    }
}

fn config(operations_dir: &str, routes: Vec<Route>, agents: Vec<(&str, AgentConfig)>) -> Config {
    let mut all: StringMap<AgentConfig> = StringMap::new();
    for (name, agent) in agents {
        all.insert(name.to_owned(), agent);
    }
    Config {
        defaults: Defaults {
            timeout_seconds: 600,
            operations_dir: operations_dir.to_owned(),
            sandbox: None,
            idle_timeout_seconds: 30,
            max_seconds: None,
            max_continuations: 5,
            max_tool_calls: 0,
            forward_ssh_agent: false,
            git_user_name: None,
            git_user_email: None,
            identity_context: vec![],
        },
        routes,
        agents: all,
        roles: StringMap::new(),
        git: GitConfig { auto_commit: true },
        sandboxes: StringMap::new(),
        orchestration: OrchestrationPolicy::default(),
    }
}

fn summary(id: u64, status: TaskStatus) -> TaskSummary {
    TaskSummary {
        id: Some(id),
        path: format!("/ops/tasks/{id}.md"),
        title: format!("Task {id}"),
        status,
        project: None,
        assignee: None,
    }
}

#[test]
fn tasks_are_pinned_to_known_sandboxes() {
    let mut config = config("ops", vec![], vec![]);
    assert!(check_pinned_sandbox(&config, None).is_ok());
    assert!(check_pinned_sandbox(&config, Some("local")).is_ok());
    assert_eq!(
        check_pinned_sandbox(&config, Some("typo")).unwrap_err(),
        "sandbox 'typo' is not configured; add a `[sandboxes.typo]` entry or use `local`"
    );
    config.sandboxes.insert(
        "typo".to_owned(),
        SandboxConfig {
            primitive: "docker".to_owned(),
            image: None,
            build: None,
            mounts: vec![],
            egress: vec![],
            env: StringMap::new(),
        },
    );
    assert!(check_pinned_sandbox(&config, Some("typo")).is_ok());
}

#[test]
fn tasks_are_given_to_those_who_work_there() {
    let config = config("ops", vec![route("/w/**", vec!["codex"])], vec![("codex", agent("codex"))]);
    assert_eq!(default_assignee(&config, "/w/p"), Ok("codex".to_owned()));
    assert!(default_assignee(&config, "/x").is_err());
    assert!(check_assignee(&config, "/w/p", "codex").is_ok());
    assert!(check_assignee(&config, "/w/p", "other").unwrap_err().contains("not allowed"));
}

#[test]
fn descriptions_lose_their_trailing_blanks() {
    assert_eq!(task_description("Do it. \n\n"), Some("Do it.".to_owned()));
    assert_eq!(task_description(" \n"), None);
}

#[test]
fn added_tasks_are_run_where_that_is_wanted() {
    let plain = after_add(false, false, true, true, true, true);
    assert_eq!(plain, AfterAdd { make_ready: false, open_editor: true, launch: Launch::No });
    let ready = after_add(true, false, false, false, false, false);
    assert_eq!(ready, AfterAdd { make_ready: true, open_editor: false, launch: Launch::No });
    assert_eq!(after_add(false, true, false, true, false, false).launch, Launch::Background);
    let run = after_add(false, true, false, false, true, false);
    assert!(run.make_ready);
    assert_eq!(run.launch, Launch::Foreground { interactive: true, quiet: false });
    assert_eq!(created_line(Some(3), "/t.md"), "created task #3 /t.md");
    assert_eq!(created_line(None, "/t.md"), "created task /t.md");
}

#[test]
fn tasks_that_rest_are_listed_on_request() {
    let tasks = vec![summary(1, TaskStatus::Backlog), summary(2, TaskStatus::Ready), summary(3, TaskStatus::Done)];
    let ids = |all: bool| -> Vec<Option<u64>> { listed_tasks(&tasks, all).iter().map(|task| task.id).collect() };
    assert_eq!(ids(false), vec![Some(2)]);
    assert_eq!(ids(true), vec![Some(1), Some(2), Some(3)]);
}

#[test]
fn changes_are_shown_beforehand() {
    let paths = vec!["/a.md".to_owned(), "/b.md".to_owned()];
    assert_eq!(
        update_preview(&paths, Some("done"), Some("codex")),
        "will update 2 task(s):\n  /a.md\n  /b.md\n  set status \u{2192} done\n  set agent  \u{2192} codex\n"
    );
    assert_eq!(update_preview(&vec![], None, None), "will update 0 task(s):\n");
}

#[test]
fn a_task_takes_its_recaps_with_it() {
    let recaps = vec!["r1.md".to_owned(), "/abs.md".to_owned(), "here.md".to_owned()];
    let places = recap_places(&recaps, "/t/task.md", &vec![false, false, true]);
    assert_eq!(places, vec!["/t/r1.md", "/abs.md", "here.md"]);
    let doomed = doomed_recaps(&places, &vec![true, false, true], false);
    assert_eq!(doomed, vec!["/t/r1.md", "here.md"]);
    assert!(doomed_recaps(&places, &vec![true, true, true], true).is_empty());
    assert_eq!(deleted_files(&doomed, "/t/task.md"), vec!["/t/r1.md", "here.md", "/t/task.md"]);
    assert_eq!(
        deletion_preview("/t/task.md", "Fix", TaskStatus::Done, &doomed),
        "will delete task /t/task.md:\n  title  \u{2192} Fix\n  status \u{2192} done\n  recap  \u{2192} /t/r1.md\n  recap  \u{2192} here.md\n"
    );
    assert_eq!(deletion_report("/t/task.md", 0), "deleted task /t/task.md\n");
    assert_eq!(deletion_report("/t/task.md", 2), "deleted task /t/task.md\nremoved 2 recap file(s)\n");
}

#[test]
fn images_are_named_after_their_dockerfile() {
    assert_eq!(image_tag(0), "varda-sandbox:0000000000000000");
    assert_eq!(image_tag(0xdead_beef), "varda-sandbox:00000000deadbeef");
    assert_eq!(image_tag(u64::MAX), "varda-sandbox:ffffffffffffffff");
    assert_ne!(image_tag(1), image_tag(16));
    assert_eq!(image_lookup("t").args, vec!["image", "inspect", "t"]);
    assert_eq!(
        image_build("t", "/x/Dockerfile").args,
        vec!["build", "-q", "-t", "t", "-f", "/x/Dockerfile", "/x"]
    );
    assert_eq!(image_build("t", "Dockerfile").args[6], ".");
    assert_eq!(
        unreadable_dockerfile("box", "/x/Dockerfile"),
        "failed to read Dockerfile '/x/Dockerfile' for sandbox 'box'"
    );
    assert_eq!(
        build_failure("box", "exit status: 1", " no space\n"),
        "`docker build` for sandbox 'box' failed with status exit status: 1; stderr: no space"
    );
}

#[test]
fn docker_build_missing_dockerfile_errors_at_prepare() {
    let err = unreadable_dockerfile("built", "/nonexistent/Dockerfile.does-not-exist");
    assert!(err.contains("Dockerfile") || err.contains("failed to read"), "unexpected build error: {err}");
}

#[test]
fn a_recap_that_cannot_be_read_says_so() {
    let readings =
        vec![("/r1.md".to_owned(), Ok("fine".to_owned())), ("/r2.md".to_owned(), Err("gone".to_owned()))];
    let detail = task_detail("/t.md", "body", &readings);
    assert_eq!(detail.recaps[0].markdown, "fine");
    assert_eq!(detail.recaps[1].markdown, "# Recap Unavailable\n\nFailed to read /r2.md: gone");
}

#[test]
fn launches_plans_and_sessions_are_reported() {
    let launch = ResidentLaunch {
        agent: "codex".to_owned(),
        sandbox: "box".to_owned(),
        workspace: "/ws".to_owned(),
        broker_wired: true,
    };
    let report = launch_report(&launch, false);
    assert!(report.contains("  workspace:  /ws (mounted rw)\n  sandbox:    box (isolating, net-denied)\n"));
    assert!(report.ends_with("  mode:       headless (autonomous until terminal / needs_user)\n"));

    let report = plan_report(PlanScope::Global, "why", "/p", 3, 1, "/plan.md");
    assert!(report.starts_with("scope: global\nselection: why\nproject: none detected for current directory\n"));
    assert!(plan_report(PlanScope::Project, "why", "/p", 3, 1, "/plan.md").contains("\nproject: /p\n"));

    let session = |id: &str| TaskSession {
        session_id: id.to_owned(),
        log_path: format!("/r/{id}.log"),
        modified: None,
    };
    assert_eq!(
        session_menu(&vec![session("a"), session("b")]),
        "Past sessions:\n1. a /r/a.log\n2. b /r/b.log\n"
    );
}
