use varda::config::{AgentConfig, AgentKind, Config, Defaults, GitConfig, Route};
use varda::orchestration::OrchestrationPolicy;
use varda::order::StringMap;
use varda::plan::{arrange, dependency_hint, plan_task, plan_tasks, DependencyHint, LoadedTask, PlanTask};
use varda::plan_document::{
    execution_plan, plan_document_path, plan_scope, ready_tasks, render_execution_plan, selection_reason, shown_id,
    PlanScope,
};
use varda::plan_run::{
    accept_plan, adopt_plan, after_parallel_run, announced_task, choose_transformer, extract_json_object,
    parallel_outcome, plan_planner_agent, plan_task_paths, plan_transformer, processed_line, run_target,
    transform_frontmatter, transform_request, JsonExecutionPlan, JsonExecutionTask, ParallelRunReport, RunTarget,
};
use varda::routing::PromptSizes;
use varda::task::{TaskBounds, TaskDocument, TaskFrontmatter, TaskStatus, TaskSummary};

fn agent(command: &str) -> AgentConfig {
    AgentConfig {
        kind: AgentKind::Acp,
        command: command.to_owned(),
        args: vec![],
        max_prompt_tokens: None,
        working_dir: None,
        env: StringMap::new(),
        auth_token_env: None,
        auth_token_target: None,
        credentials: vec![],
        interactive_command: None,
        interactive_args: None,
        streams_output: None,
        resume_command_template: None,
        interpreter_agent: None,
        skip_recap: false,
    }
}

fn route(glob: &str, agents: Vec<&str>) -> Route {
    Route {
        glob: glob.to_owned(),
        agents: agents.into_iter().map(str::to_owned).collect(),
        sandbox: None,
        mounts: vec![],
        orchestration: None,
    }
}

fn config(operations_dir: &str, routes: Vec<Route>, agents: Vec<(&str, AgentConfig)>) -> Config {
    let mut all: StringMap<AgentConfig> = StringMap::new();
    for (name, agent) in agents {
        all.insert(name.to_owned(), agent);
    }
    Config {
        defaults: Defaults {
            timeout_seconds: 600,
            operations_dir: operations_dir.to_owned(),
            sandbox: None,
            idle_timeout_seconds: 30,
            max_seconds: None,
            max_continuations: 5,
            max_tool_calls: 0,
            forward_ssh_agent: false,
            git_user_name: None,
            git_user_email: None,
            identity_context: vec![],
        },
        routes,
        agents: all,
        roles: StringMap::new(),
        git: GitConfig { auto_commit: true },
        sandboxes: StringMap::new(),
        orchestration: OrchestrationPolicy::default(),
    }
}

fn task(project: Option<&str>, assignee: Option<&str>, status: TaskStatus) -> TaskDocument {
    TaskDocument {
        path: "/tmp/task.md".to_owned(),
        frontmatter: TaskFrontmatter {
            id: Some(1),
            status,
            project: project.map(str::to_owned),
            mother_project: None,
            assignee: assignee.map(str::to_owned),
            sandbox: None,
            recap: None,
            recaps: vec![],
            plan: None,
            agent_session_id: None,
            agent_session_log: None,
            agent_session_ids: vec![],
            agent_session_logs: vec![],
            agent_resume_commands: vec![],
            allow_commands: vec![],
            bounds: TaskBounds::default(),
            requires_user: false,
        },
        body: "# Task\n\nDo it.".to_owned(),
    }
}

fn summary(id: Option<u64>, path: &str, title: &str) -> TaskSummary {
    TaskSummary {
        id,
        path: path.to_owned(),
        title: title.to_owned(),
        status: TaskStatus::Ready,
        project: Some("/work/project".to_owned()),
        assignee: None,
    }
}

fn planned(id: Option<u64>, path: &str, title: &str, hint: DependencyHint) -> PlanTask {
    PlanTask {
        summary: summary(id, path, title),
        agent: "codex".to_owned(),
        route_glob: "**".to_owned(),
        dependency_hint: hint,
    }
}

fn small_sizes() -> PromptSizes {
    PromptSizes { agent_instructions: 1, planning_instructions: 1, frontmatter: 1, project_instructions: 1, plan: 1 }
}

fn loaded(id: u64, title: &str) -> LoadedTask {
    LoadedTask {
        summary: summary(Some(id), &format!("/ops/{id}.md"), title),
        document: Ok(task(Some("/work/project"), None, TaskStatus::Ready)),
        sizes: small_sizes(),
    }
}

#[test]
fn rendered_execution_plan_includes_review_frontmatter() {
    let content = execution_plan(
        PlanScope::Project,
        "/tmp/example",
        1_775_000_000,
        "the current folder is known as a Varda project",
        3,
        &vec![],
    )
    .expect("plan should include valid frontmatter");

    let matter = gray_matter::Matter::<gray_matter::engine::YAML>::new();
    let parsed = matter.parse::<gray_matter::Pod>(&content).expect("plan should parse");
    let metadata = parsed.data.expect("plan should include valid frontmatter").as_hashmap().unwrap();
    let word = |key: &str| metadata[key].as_string().unwrap();
    let number = |key: &str| metadata[key].as_i64().unwrap();

    assert_eq!(word("plan_type"), "ready_task_execution_plan");
    assert_eq!(word("scope"), "project");
    assert_eq!(word("project"), "/tmp/example");
    assert_eq!(number("generated_timestamp"), 1_775_000_000);
    assert_eq!(number("tasks_evaluated"), 3);
    assert_eq!(number("ready_tasks"), 0);
    assert_eq!(word("planner_agent"), "codex");
    assert_eq!(word("selection_reason"), "the current folder is known as a Varda project");
    assert!(metadata["requires_user_confirmation"].as_bool().unwrap());
    assert!(parsed.content.starts_with("# Project Ready Task Execution Plan"));
    assert!(parsed.content.contains("- Tasks evaluated: 3"));
    assert!(parsed.content.contains("- Ready tasks: 0"));
    assert_eq!(plan_planner_agent(&content).as_deref(), Some("codex"));
}

#[test]
fn plans_list_their_tasks_in_stages() {
    let tasks = vec![
        planned(Some(3), "/ops/3.md", "Plan ahead", DependencyHint::Planning),
        planned(None, "/ops/x.md", "Plan more", DependencyHint::Planning),
    ];
    let content = render_execution_plan(PlanScope::Global, "/tmp", 7, "why", 2, &tasks, "---\na: 1\n");
    assert!(content.starts_with("---\na: 1\n---\n\n# Global Ready Task Execution Plan\n\n- Scope: global\n"));
    assert!(content.contains(
        "- #3 `/ops/3.md`: Plan ahead (project: `/work/project`, agent: codex, route: `**`, category: planning)\n"
    ));
    assert!(content.contains("- unversioned `/ops/x.md`: Plan more"));
    assert!(content.contains("- Stage 2, sequential: `Plan ahead` assigned to `codex`.\n- Same stage: `Plan more`"));
    assert!(content.contains("- Final gate: "));
}

#[test]
fn extracts_json_object_from_agent_output() {
    let output = "```json\n{\"schema\":\"varda.execution_plan.v1\",\"source_plan\":\"plan.md\",\"tasks\":[]}\n```";

    let json = extract_json_object(output).expect("json object should be extracted");

    assert_eq!(json, "{\"schema\":\"varda.execution_plan.v1\",\"source_plan\":\"plan.md\",\"tasks\":[]}");
    assert_eq!(extract_json_object("none").unwrap_err(), "agent output did not contain JSON");
    assert_eq!(
        extract_json_object("} {").unwrap_err(),
        "agent output did not contain a complete JSON object"
    );
}

#[test]
fn reads_planner_agent_from_plan_frontmatter() {
    let content = r#"---
planner_agent: codex
---

# Plan
"#;

    assert_eq!(plan_planner_agent(content).as_deref(), Some("codex"));
    assert_eq!(plan_planner_agent("# Plan\n"), None);
    assert_eq!(plan_planner_agent("---\nother: x\n---\n\n# Plan\n"), None);
}

#[test]
fn the_plan_names_the_agent_that_transforms_it() {
    let config = config("ops", vec![], vec![("codex", agent("codex")), ("abc", agent("abc"))]);
    assert_eq!(plan_transformer(&config, "---\nplanner_agent: codex\n---\n\n# Plan\n").unwrap(), "codex");
    assert_eq!(plan_transformer(&config, "# Plan\n").unwrap(), "abc");
    assert_eq!(
        choose_transformer(&config, Some("ghost".to_owned())).unwrap_err(),
        "plan transformer agent 'ghost' is not configured"
    );
    let request = transform_request("codex", "/p.md", "# Plan", 9, "s");
    assert!(request.body.contains("varda.execution_plan.v1"));
    assert!(request.body.contains("/p.md"));
    assert!(request.body.ends_with("# Plan"));
    assert_eq!(request.frontmatter, transform_frontmatter("codex"));
    assert_eq!(request.frontmatter.assignee, Some("codex".to_owned()));
    assert_eq!(request.frontmatter.status, TaskStatus::Ready);
}

#[test]
fn nobody_transforms_a_plan_where_no_agent_is_configured() {
    let config = config("ops", vec![], vec![]);
    assert_eq!(
        choose_transformer(&config, None).unwrap_err(),
        "no configured agent is available to transform the plan"
    );
}

fn json_plan(schema: &str) -> JsonExecutionPlan {
    JsonExecutionPlan {
        schema: schema.to_owned(),
        source_plan: "elsewhere.md".to_owned(),
        tasks: vec![JsonExecutionTask {
            path: "/t.md".to_owned(),
            id: None,
            title: None,
            agent: None,
            project: None,
            stage: None,
            parallel_group: None,
        }],
    }
}

#[test]
fn plans_are_accepted_in_one_schema() {
    assert!(accept_plan(json_plan("varda.execution_plan.v1")).is_ok());
    assert!(accept_plan(json_plan("v2")).unwrap_err().contains("v2"));
    let adopted = adopt_plan(json_plan("varda.execution_plan.v1"), "/plan.md").unwrap();
    assert_eq!(adopted.source_plan, "/plan.md");
    assert_eq!(plan_task_paths(&adopted), vec!["/t.md"]);
    assert!(adopt_plan(json_plan("v2"), "/plan.md").is_err());
}

#[test]
fn hints_come_from_titles_and_paths() {
    let words = vec!["coder".to_owned()];
    let hint = |title: &str| dependency_hint(&summary(None, "/t.md", title), &words);
    assert_eq!(hint("Version the store"), DependencyHint::Identity);
    assert_eq!(hint("Improve the Planner"), DependencyHint::Planning);
    assert_eq!(hint("Run it"), DependencyHint::Execution);
    assert_eq!(hint("Resume work"), DependencyHint::Sessions);
    assert_eq!(hint("Show tasks"), DependencyHint::Visibility);
    assert_eq!(hint("Support Coder"), DependencyHint::AgentSupport);
    assert_eq!(hint("Support Codex"), DependencyHint::General);
    assert_eq!(hint("Another agent"), DependencyHint::AgentSupport);
    assert_eq!(hint("Fix a typo"), DependencyHint::General);
}

#[test]
fn plans_go_by_hint_then_number_then_path() {
    let tasks = vec![
        planned(None, "/b.md", "g", DependencyHint::General),
        planned(Some(9), "/c.md", "g", DependencyHint::General),
        planned(Some(1), "/d.md", "p", DependencyHint::Planning),
        planned(None, "/a.md", "g", DependencyHint::General),
    ];
    let order: Vec<String> = arrange(tasks).into_iter().map(|task| task.summary.path).collect();
    assert_eq!(order, vec!["/d.md", "/c.md", "/a.md", "/b.md"]);
}

#[test]
fn a_plan_holds_each_ready_task_once() {
    let config = config("ops", vec![route("**", vec!["codex"])], vec![("codex", agent("codex"))]);
    let plan = plan_tasks(&config, &vec![], &vec![loaded(2, "Fix a typo"), loaded(1, "Plan it")]).unwrap();
    let ids: Vec<Option<u64>> = plan.iter().map(|task| task.summary.id).collect();
    assert_eq!(ids, vec![Some(1), Some(2)]);
    assert_eq!(plan[0].agent, "codex");

    let unreadable = LoadedTask { document: Err("cannot read it".to_owned()), ..loaded(3, "x") };
    assert_eq!(plan_task(&config, &vec![], &unreadable).unwrap_err(), "cannot read it");
    assert_eq!(
        plan_tasks(&config, &vec![], &vec![loaded(2, "a"), unreadable, loaded(1, "b")]).unwrap_err(),
        "cannot read it"
    );
}

#[test]
fn only_ready_tasks_are_planned() {
    let done = TaskSummary { status: TaskStatus::Done, ..summary(Some(1), "/1.md", "a") };
    let ready = ready_tasks(&vec![done, summary(Some(2), "/2.md", "b")]);
    assert_eq!(ready.len(), 1);
    assert_eq!(ready[0].id, Some(2));
}

#[test]
fn plans_say_what_they_cover() {
    assert_eq!(plan_scope(0), PlanScope::Global);
    assert_eq!(plan_scope(3), PlanScope::Project);
    assert!(selection_reason(PlanScope::Global, "/p").contains("not known as a Varda project"));
    assert!(selection_reason(PlanScope::Project, "/p").contains("only this project's tasks"));
    let config = config("/ops", vec![], vec![]);
    assert_eq!(
        plan_document_path(&config, PlanScope::Project, "/work/app", 42),
        "/ops/plans/project-app-ready-task-plan-42.md"
    );
    assert_eq!(
        plan_document_path(&config, PlanScope::Global, "/", 42),
        "/ops/plans/global-workspace-ready-task-plan-42.md"
    );
    assert_eq!(shown_id(Some(4)), "#4");
    assert_eq!(shown_id(None), "unversioned");
}

#[test]
fn runs_are_of_a_task_a_plan_or_what_is_ready() {
    assert_eq!(run_target(Some("t"), None, false), Ok(RunTarget::Task("t".to_owned())));
    assert_eq!(run_target(None, Some("p"), false), Ok(RunTarget::Plan("p".to_owned())));
    assert_eq!(run_target(None, Some("p"), true), Ok(RunTarget::Task("p".to_owned())));
    assert_eq!(run_target(None, None, false), Ok(RunTarget::Ready));
    assert!(run_target(Some("t"), Some("p"), false).is_err());
}

#[test]
fn parallel_runs_are_reported() {
    let mut config = config("/ops", vec![], vec![]);
    let report = ParallelRunReport {
        task_path: "/t.md".to_owned(),
        agent: "codex".to_owned(),
        glob: "**".to_owned(),
        status: TaskStatus::NeedsUser,
        recap_path: "/r.md".to_owned(),
        project: Some("/p".to_owned()),
    };
    assert_eq!(
        processed_line(&report),
        "processed task=/t.md agent=codex glob=** status=NeedsUser recap=/r.md"
    );
    let step = after_parallel_run(&config, &report);
    assert!(step.notify && step.commit_task);
    assert_eq!(step.commit_agent_files, Some("/p".to_owned()));
    config.git.auto_commit = false;
    let step = after_parallel_run(&config, &report);
    assert!(!step.commit_task);
    assert_eq!(step.commit_agent_files, None);
    assert!(parallel_outcome(0).is_ok());
    assert_eq!(parallel_outcome(2).unwrap_err(), "2 task(s) failed");
    assert_eq!(
        announced_task(&planned(Some(1), "/t.md", "Run it", DependencyHint::Execution)),
        "  #1 Run it (agent: codex, category: execution)"
    );
}

#[test]
fn work_on_agents_goes_before_the_rest() {
    let config = config("ops", vec![route("**", vec!["codex"])], vec![("codex", agent("codex"))]);
    let ready = vec![loaded(1, "Support Codex"), loaded(2, "Support Coder")];
    let plan = plan_tasks(&config, &vec!["coder".to_owned()], &ready).unwrap();
    assert_eq!(plan[0].summary.title, "Support Coder");
    assert_eq!(plan[0].dependency_hint, DependencyHint::AgentSupport);
    assert_eq!(plan[1].dependency_hint, DependencyHint::General);
}
