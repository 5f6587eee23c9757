use varda::config::{AgentConfig, AgentKind, Config, Defaults, GitConfig, RoleConfig, Route};
use varda::globs::glob_matches;
use varda::orchestration::OrchestrationPolicy;
use varda::order::StringMap;
use varda::routing::{
    agents_with_enough_budget, estimate_task_prompt_tokens, match_route, match_route_for_task,
    project_instructions_len, resolve_backend, resolve_orchestration_for, PromptSizes,
};
use varda::task::{TaskBounds, TaskDocument, TaskFrontmatter, TaskStatus};

fn agent(command: &str) -> AgentConfig {
    AgentConfig {
        kind: AgentKind::Acp,
        command: command.to_owned(),
        args: vec![],
        max_prompt_tokens: None,
        working_dir: None,
        env: StringMap::new(),
        auth_token_env: None,
        auth_token_target: None,
        credentials: vec![],
        interactive_command: None,
        interactive_args: None,
        streams_output: None,
        resume_command_template: None,
        interpreter_agent: None,
        skip_recap: false,
    }
}

fn route(glob: &str, agents: Vec<&str>) -> Route {
    Route {
        glob: glob.to_owned(),
        agents: agents.into_iter().map(str::to_owned).collect(),
        sandbox: None,
        mounts: vec![],
        orchestration: None,
    }
}

fn config(operations_dir: &str, routes: Vec<Route>, agents: Vec<(&str, AgentConfig)>) -> Config {
    let mut all: StringMap<AgentConfig> = StringMap::new();
    for (name, agent) in agents {
        all.insert(name.to_owned(), agent);
    }
    Config {
        defaults: Defaults {
            timeout_seconds: 600,
            operations_dir: operations_dir.to_owned(),
            sandbox: None,
            idle_timeout_seconds: 30,
            max_seconds: None,
            max_continuations: 5,
            max_tool_calls: 0,
            forward_ssh_agent: false,
            git_user_name: None,
            git_user_email: None,
            identity_context: vec![],
        },
        routes,
        agents: all,
        roles: StringMap::new(),
        git: GitConfig { auto_commit: true },
        sandboxes: StringMap::new(),
        orchestration: OrchestrationPolicy::default(),
    }
}

fn task(project: Option<&str>, assignee: Option<&str>, status: TaskStatus) -> TaskDocument {
    TaskDocument {
        path: "/tmp/task.md".to_owned(),
        frontmatter: TaskFrontmatter {
            id: Some(1),
            status,
            project: project.map(str::to_owned),
            mother_project: None,
            assignee: assignee.map(str::to_owned),
            sandbox: None,
            recap: None,
            recaps: vec![],
            plan: None,
            agent_session_id: None,
            agent_session_log: None,
            agent_session_ids: vec![],
            agent_session_logs: vec![],
            agent_resume_commands: vec![],
            allow_commands: vec![],
            bounds: TaskBounds::default(),
            requires_user: false,
        },
        body: "# Task\n\nDo it.".to_owned(),
    }
}

fn sizes() -> PromptSizes {
    PromptSizes {
        agent_instructions: 400,
        planning_instructions: 200,
        frontmatter: 80,
        project_instructions: 40,
        plan: 20,
    }
}

#[test]
fn matches_first_configured_route() {
    let mut codex = agent("codex");
    codex.args.push("--acp".to_owned());
    let config = config(
        ".varda/operations",
        vec![route("/work/special/**", vec!["codex"]), route("**", vec!["fallback"])],
        vec![("codex", codex), ("fallback", agent("other"))],
    );

    let route = match_route(&config, "/work/special/project", None).expect("route should match");

    assert_eq!(route.agent, "codex");
    assert_eq!(route.glob, "/work/special/**");
    assert_eq!(route.sandbox, "local");
}

#[test]
fn specific_route_beats_catch_all_when_listed_first() {
    let config = config(
        ".varda/operations",
        vec![route("**/AsianDevBank/**", vec!["copilot"]), route("**", vec!["codex", "coder"])],
        vec![("codex", agent("codex")), ("coder", agent("coder")), ("copilot", agent("gh"))],
    );

    let adb_route = match_route(&config, "/Users/nilleb/dev/AsianDevBank/dpt-activity-log", None)
        .expect("ADB path should match");
    assert_eq!(adb_route.agent, "copilot");

    let other_route =
        match_route(&config, "/Users/nilleb/dev/nillebco/varda", None).expect("non-ADB path should match");
    assert_eq!(other_route.agent, "codex");
}

#[test]
fn rejects_requested_agent_that_is_not_allowed() {
    let config =
        config(".varda/operations", vec![route("**", vec!["codex"])], vec![("codex", agent("codex"))]);

    let error = match_route(&config, "/work/project", Some("coder")).expect_err("agent should be rejected");

    assert!(error.contains("not allowed"));
}

#[test]
fn selects_first_allowed_agent_that_fits_prompt_budget() {
    let small = AgentConfig { max_prompt_tokens: Some(1), ..agent("small") };
    let large = AgentConfig { max_prompt_tokens: Some(10_000), ..agent("large") };
    let config = config(
        ".varda/operations",
        vec![route("**", vec!["small", "large"])],
        vec![("small", small), ("large", large)],
    );
    let task = task(Some("/work/project"), None, TaskStatus::Ready);

    let route =
        match_route_for_task(&config, &task, false, &sizes()).expect("large agent should be selected");

    assert_eq!(route.agent, "large");
    assert!(route.estimated_prompt_tokens > 1);
}

#[test]
fn rejects_requested_agent_that_exceeds_prompt_budget() {
    let small = AgentConfig { max_prompt_tokens: Some(1), ..agent("small") };
    let config = config(
        ".varda/operations",
        vec![route("**", vec!["small", "large"])],
        vec![("small", small), ("large", agent("large"))],
    );
    let task = task(Some("/work/project"), Some("small"), TaskStatus::Ready);

    let error =
        match_route_for_task(&config, &task, false, &sizes()).expect_err("small agent should be rejected");

    assert!(error.contains("prompt budget is too small"));
    assert!(error.contains("large"));
}

#[test]
fn prompts_are_measured_at_four_bytes_to_a_token() {
    let config = config("ops", vec![], vec![]);
    let task = task(Some("/work/project"), None, TaskStatus::Ready);
    // 400 + 12 (path) + 14 (body) + 80 + 40 bytes.
    assert_eq!(estimate_task_prompt_tokens(&config, &task, false, &sizes()), 137);
    // 200 + 12 + 14 + 80 + 40 bytes.
    assert_eq!(estimate_task_prompt_tokens(&config, &task, true, &sizes()), 87);
    let with_plan = TaskDocument {
        frontmatter: TaskFrontmatter { plan: Some("p.md".to_owned()), ..task.frontmatter },
        ..task
    };
    assert_eq!(estimate_task_prompt_tokens(&config, &with_plan, false, &sizes()), 142);
    assert_eq!(estimate_task_prompt_tokens(&config, &with_plan, true, &sizes()), 87);
}

#[test]
fn blank_project_instructions_do_not_count() {
    assert_eq!(project_instructions_len(&vec!["  \n".to_owned(), "héllo".to_owned(), String::new()]), 6);
}

#[test]
fn a_role_stands_for_its_agent() {
    let mut config = config("ops", vec![route("**", vec!["planner"])], vec![("codex", agent("codex"))]);
    config.roles.insert(
        "planner".to_owned(),
        RoleConfig { backend: "codex".to_owned(), instructions: Some("Plan well.".to_owned()) },
    );
    assert_eq!(resolve_backend(&config, "planner"), "codex");
    assert_eq!(resolve_backend(&config, "codex"), "codex");
    let found = match_route(&config, "/anywhere", None).unwrap();
    assert_eq!(found.agent, "codex");
    assert_eq!(found.display_name(), "planner");
    assert_eq!(found.role_instructions, Some("Plan well.".to_owned()));
}

#[test]
fn unknown_agents_and_missing_routes_are_reported() {
    let no_agent = config("ops", vec![route("**", vec!["ghost"])], vec![]);
    assert!(match_route(&no_agent, "/p", None).unwrap_err().contains("ghost"));
    let no_route = config("ops", vec![route("/work/**", vec!["codex"])], vec![("codex", agent("codex"))]);
    assert!(match_route(&no_route, "/elsewhere", None).unwrap_err().contains("/elsewhere"));
    let bad_glob = config("ops", vec![route("[", vec!["codex"])], vec![("codex", agent("codex"))]);
    assert!(match_route(&bad_glob, "/p", None).is_err());
    let task = task(None, None, TaskStatus::Ready);
    assert_eq!(
        match_route_for_task(&no_route, &task, false, &sizes()).unwrap_err(),
        "task frontmatter is missing project"
    );
}

#[test]
fn agents_with_room_are_named_in_order() {
    let small = AgentConfig { max_prompt_tokens: Some(10), ..agent("small") };
    let config = config(
        "ops",
        vec![route("**", vec!["large", "small"])],
        vec![("small", small), ("large", agent("large"))],
    );
    assert_eq!(agents_with_enough_budget(&config, &config.routes[0], 10), vec!["large", "small"]);
    assert_eq!(agents_with_enough_budget(&config, &config.routes[0], 11), vec!["large"]);
}

#[test]
fn a_route_may_have_a_policy_of_its_own() {
    let mut own = route("/work/**", vec![]);
    own.orchestration = Some(OrchestrationPolicy { enabled: true, max_depth: 7, ..Default::default() });
    let config = config("ops", vec![own, route("**", vec![])], vec![]);
    assert_eq!(resolve_orchestration_for(&config, "/work/p").max_depth, 7);
    assert!(resolve_orchestration_for(&config, "/other").is_default());
}

#[test]
fn globs_match_as_globset_matches() {
    assert!(glob_matches("/work/**", "/work/a/b"));
    assert!(!glob_matches("/work/*", "/other/a"));
    assert!(glob_matches("/work/?.rs", "/work/a.rs"));
    assert!(!glob_matches("/work/[", "/work/["));
    assert!(glob_matches("**/..", "/work/.."));
    let long = "a".repeat(70_000);
    assert!(glob_matches(&long, &long));
    assert!(!glob_matches(&long, "a"));
}
