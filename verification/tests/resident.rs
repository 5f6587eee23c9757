use varda::config::{
    AgentConfig, AgentKind, Config, CredentialConfig, Defaults, GitConfig, ResolvedSandbox, RoleConfig, Route,
    SandboxConfig,
};
use varda::credentials::{
    enforce_varda_env_credential_floor, fnox_env_ref, host_command, printed_value, resolve_agent_credentials,
    resolve_credential_value, resolve_env_secrets, resolve_sandbox_identity, CredentialSource, CredentialStep,
    CredentialTarget, HostAnswer, SecretStep,
};
use varda::orchestration::OrchestrationPolicy;
use varda::order::StringMap;
use varda::resident::{
    checked_resident_launch, default_workspace, ensure_resident_task_ready, find_resident_task, resolve_central_sandbox,
    resolve_resident_launch, resolve_sandbox_primitive, ResidentLaunch, RESIDENT_TASK_BODY, RESIDENT_TASK_NAME,
};
use varda::task::{TaskBounds, TaskDocument, TaskFrontmatter, TaskStatus, TaskSummary};

fn agent(command: &str) -> AgentConfig {
    AgentConfig {
        kind: AgentKind::Acp,
        command: command.to_owned(),
        args: vec![],
        max_prompt_tokens: None,
        working_dir: None,
        env: StringMap::new(),
        auth_token_env: None,
        auth_token_target: None,
        credentials: vec![],
        interactive_command: None,
        interactive_args: None,
        streams_output: None,
        resume_command_template: None,
        interpreter_agent: None,
        skip_recap: false,
    }
}

fn route(glob: &str, agents: Vec<&str>) -> Route {
    Route {
        glob: glob.to_owned(),
        agents: agents.into_iter().map(str::to_owned).collect(),
        sandbox: None,
        mounts: vec![],
        orchestration: None,
    }
}

fn config(operations_dir: &str, routes: Vec<Route>, agents: Vec<(&str, AgentConfig)>) -> Config {
    let mut all: StringMap<AgentConfig> = StringMap::new();
    for (name, agent) in agents {
        all.insert(name.to_owned(), agent);
    }
    Config {
        defaults: Defaults {
            timeout_seconds: 600,
            operations_dir: operations_dir.to_owned(),
            sandbox: None,
            idle_timeout_seconds: 30,
            max_seconds: None,
            max_continuations: 5,
            max_tool_calls: 0,
            forward_ssh_agent: false,
            git_user_name: None,
            git_user_email: None,
            identity_context: vec![],
        },
        routes,
        agents: all,
        roles: StringMap::new(),
        git: GitConfig { auto_commit: true },
        sandboxes: StringMap::new(),
        orchestration: OrchestrationPolicy::default(),
    }
}

fn task(project: Option<&str>, assignee: Option<&str>, status: TaskStatus) -> TaskDocument {
    TaskDocument {
        path: "/tmp/task.md".to_owned(),
        frontmatter: TaskFrontmatter {
            id: Some(1),
            status,
            project: project.map(str::to_owned),
            mother_project: None,
            assignee: assignee.map(str::to_owned),
            sandbox: None,
            recap: None,
            recaps: vec![],
            plan: None,
            agent_session_id: None,
            agent_session_log: None,
            agent_session_ids: vec![],
            agent_session_logs: vec![],
            agent_resume_commands: vec![],
            allow_commands: vec![],
            bounds: TaskBounds::default(),
            requires_user: false,
        },
        body: "# Task\n\nDo it.".to_owned(),
    }
}

// ---------------------------------------------------------------------------
// Credentials
// ---------------------------------------------------------------------------

fn value(text: &str) -> HostAnswer {
    HostAnswer::Value(text.to_owned())
}

fn sandbox(primitive: &str, egress: Vec<&str>) -> SandboxConfig {
    SandboxConfig {
        primitive: primitive.to_owned(),
        image: Some("dev:latest".to_owned()),
        build: None,
        mounts: vec![],
        egress: egress.into_iter().map(str::to_owned).collect(),
        env: StringMap::new(),
    }
}

/// Asks the host until the credentials are settled.
fn gather(agent: &AgentConfig, host: impl Fn(&CredentialSource) -> HostAnswer) -> CredentialStep {
    let mut answers = vec![];
    loop {
        match resolve_agent_credentials(agent, &answers) {
            CredentialStep::Ask(source) => answers.push(host(&source)),
            settled => return settled,
        }
    }
}

#[test]
fn resolve_env_secrets_leaves_non_sentinel_values_untouched() {
    let mut env = StringMap::new();
    env.insert("PLAIN".to_owned(), "literal".to_owned());
    env.insert("TILDE".to_owned(), "~/path".to_owned());
    match resolve_env_secrets(&env, &vec!["PLAIN".to_owned()], &vec![]) {
        SecretStep::Done(env) => {
            assert_eq!(env.get("PLAIN").unwrap(), "literal");
            assert_eq!(env.get("TILDE").unwrap(), "~/path");
        }
        other => panic!("no bindings must pass, got {other:?}"),
    }
}

#[test]
fn resolve_env_secrets_refuses_untrusted_varda_binding() {
    let mut env = StringMap::new();
    env.insert("EXFIL".to_owned(), "${fnox:aws-prod-key}".to_owned());
    let msg = match resolve_env_secrets(&env, &vec!["EXFIL".to_owned()], &vec![value("leaked")]) {
        SecretStep::Refused(msg) => msg,
        other => panic!("untrusted fnox binding must error, got {other:?}"),
    };
    assert!(msg.contains("untrusted"), "error must name the untrusted origin: {msg}");
    assert!(msg.contains("EXFIL"), "error must name the key: {msg}");
    assert_eq!(env.get("EXFIL").unwrap(), "${fnox:aws-prod-key}");
}

#[test]
fn resolve_env_secrets_asks_the_host_for_trusted_bindings() {
    let mut env = StringMap::new();
    env.insert("B".to_owned(), "${fnox:two}".to_owned());
    env.insert("A".to_owned(), "${fnox:one}".to_owned());
    match resolve_env_secrets(&env, &vec![], &vec![]) {
        SecretStep::Ask(key, secret) => assert_eq!((key.as_str(), secret.as_str()), ("A", "one")),
        other => panic!("expected a question, got {other:?}"),
    }
    match resolve_env_secrets(&env, &vec![], &vec![value("1"), value("2")]) {
        SecretStep::Done(env) => {
            assert_eq!(env.get("A").unwrap(), "1");
            assert_eq!(env.get("B").unwrap(), "2");
        }
        other => panic!("expected values, got {other:?}"),
    }
    match resolve_env_secrets(&env, &vec![], &vec![value("")]) {
        SecretStep::Refused(msg) => {
            assert_eq!(msg, "env 'A' fnox secret 'one' resolved to an empty value on the host")
        }
        other => panic!("expected a refusal, got {other:?}"),
    }
    match resolve_env_secrets(&env, &vec![], &vec![HostAnswer::Failed]) {
        SecretStep::Refused(msg) => {
            assert_eq!(msg, "failed to resolve env 'A' from the host secret store (`fnox get one`)")
        }
        other => panic!("expected a refusal, got {other:?}"),
    }
}

#[test]
fn fnox_references_name_a_secret() {
    assert_eq!(fnox_env_ref("${fnox:key}"), Some("key".to_owned()));
    assert_eq!(fnox_env_ref("${fnox:}"), None);
    assert_eq!(fnox_env_ref("fnox:key"), None);
    assert_eq!(fnox_env_ref("${fnox:key"), None);
}

#[test]
fn varda_env_floor_rejects_agent_env_and_credential_target_collisions() {
    let mut codex = agent("codex");
    codex.env.insert("TRUSTED_AGENT".to_owned(), "x".to_owned());
    codex.auth_token_env = Some("HOST_TOKEN".to_owned());
    codex.auth_token_target = Some("SANDBOX_TOKEN".to_owned());
    let mut resolved = ResolvedSandbox {
        name: "inline".to_owned(),
        config: sandbox("docker", vec![]),
        route_mounts: vec![],
        varda_mounts: vec![],
        env: StringMap::new(),
        varda_env_keys: vec!["TRUSTED_AGENT".to_owned()],
        varda_file: Some("/repo/.varda".to_owned()),
    };

    let err = enforce_varda_env_credential_floor(&codex, &resolved).unwrap_err();
    assert!(err.contains("TRUSTED_AGENT"), "{err}");

    codex.env = StringMap::new();
    resolved.varda_env_keys = vec!["SANDBOX_TOKEN".to_owned()];
    let err = enforce_varda_env_credential_floor(&codex, &resolved).unwrap_err();
    assert!(err.contains("SANDBOX_TOKEN"), "{err}");

    resolved.varda_env_keys = vec!["OWN".to_owned()];
    assert!(enforce_varda_env_credential_floor(&codex, &resolved).is_ok());
}

#[test]
fn resolve_agent_credentials_mints_env_and_file_targets() {
    let mut coder = agent("coder");
    coder.credentials = vec![
        CredentialConfig {
            command: Some("printf scoped-access-token".to_owned()),
            env: Some("CLOUDSDK_AUTH_ACCESS_TOKEN".to_owned()),
            ..Default::default()
        },
        CredentialConfig {
            from_env: Some("VARDA_TEST_CRED_HOST".to_owned()),
            env: Some("ANTHROPIC_API_KEY".to_owned()),
            ..Default::default()
        },
        CredentialConfig {
            command: Some("printf scoped-file-token".to_owned()),
            file: Some("/home/agent/.config/gcloud-token".to_owned()),
            ..Default::default()
        },
    ];

    let settled = gather(&coder, |source| match source {
        CredentialSource::Env(name) if name == "VARDA_TEST_CRED_HOST" => value("sk-host-token"),
        CredentialSource::Command(command) => value(command.strip_prefix("printf ").unwrap()),
        _ => HostAnswer::Failed,
    });
    let CredentialStep::Done(auth_env, auth_files) = settled else { panic!("expected values, got {settled:?}") };

    assert_eq!(auth_env.get("CLOUDSDK_AUTH_ACCESS_TOKEN").map(String::as_str), Some("scoped-access-token"));
    assert_eq!(auth_env.get("ANTHROPIC_API_KEY").map(String::as_str), Some("sk-host-token"));
    assert_eq!(
        auth_files.get("/home/agent/.config/gcloud-token").map(String::as_str),
        Some("scoped-file-token")
    );
}

#[test]
fn resolve_agent_credentials_back_compat_single_token() {
    let mut coder = agent("coder");
    coder.auth_token_env = Some("VARDA_TEST_LEGACY_TOKEN".to_owned());
    coder.auth_token_target = Some("ANTHROPIC_API_KEY".to_owned());

    let settled = gather(&coder, |source| match source {
        CredentialSource::Env(name) if name == "VARDA_TEST_LEGACY_TOKEN" => value("sk-legacy"),
        _ => HostAnswer::Unset,
    });
    let CredentialStep::Done(auth_env, auth_files) = settled else { panic!("expected values, got {settled:?}") };

    assert_eq!(auth_env.get("ANTHROPIC_API_KEY").map(String::as_str), Some("sk-legacy"));
    assert_eq!(auth_files.len(), 0);
}

#[test]
fn resolve_agent_credentials_missing_env_skips_but_bad_command_fails() {
    let mut skipped = agent("coder");
    skipped.credentials = vec![CredentialConfig {
        from_env: Some("VARDA_TEST_UNSET_CRED_9x".to_owned()),
        env: Some("SHOULD_NOT_APPEAR".to_owned()),
        ..Default::default()
    }];
    match gather(&skipped, |_| HostAnswer::Unset) {
        CredentialStep::Done(auth_env, _) => {
            assert_eq!(auth_env.len(), 0, "missing env source must be skipped: {auth_env:?}")
        }
        other => panic!("missing env source must be skipped: {other:?}"),
    }

    let with_command = |command: &str| {
        let mut coder = agent("coder");
        coder.credentials = vec![CredentialConfig {
            command: Some(command.to_owned()),
            env: Some("X".to_owned()),
            ..Default::default()
        }];
        coder
    };
    match gather(&with_command("true"), |_| value("")) {
        CredentialStep::Refused(_) => {}
        other => panic!("empty command output must fail: {other:?}"),
    }
    match gather(&with_command("exit 3"), |_| HostAnswer::Failed) {
        CredentialStep::Refused(_) => {}
        other => panic!("failed command must fail: {other:?}"),
    }
}

#[test]
fn credentials_have_one_source_and_one_target() {
    let none = CredentialConfig::default();
    assert!(none.source().is_err());
    assert!(none.target().is_err());
    let both = CredentialConfig {
        from_env: Some("A".to_owned()),
        command: Some("b".to_owned()),
        env: Some("C".to_owned()),
        file: Some("/d".to_owned()),
        ..Default::default()
    };
    assert!(both.source().is_err());
    assert!(both.target().is_err());
    let one = CredentialConfig {
        from_secret: Some("s".to_owned()),
        file: Some("/d".to_owned()),
        ..Default::default()
    };
    assert_eq!(one.source(), Ok(CredentialSource::Secret("s".to_owned())));
    assert_eq!(one.target(), Ok(CredentialTarget::File("/d".to_owned())));
    assert_eq!(
        host_command(&CredentialSource::Secret("s".to_owned())),
        Some(("fnox".to_owned(), vec!["get".to_owned(), "s".to_owned()]))
    );
    assert_eq!(host_command(&CredentialSource::Env("A".to_owned())), None);
    assert_eq!(
        resolve_credential_value(&CredentialSource::Secret("s".to_owned()), &HostAnswer::Failed),
        Err("failed to resolve secret 's' from the host secret store (`fnox get s`)".to_owned())
    );
    assert_eq!(printed_value("token\r\n\n"), "token");
}

#[test]
fn a_sandbox_gets_the_ssh_agent_only_where_that_is_wanted() {
    let mut config = config("ops", vec![], vec![]);
    let identity = resolve_sandbox_identity(&config, StringMap::new(), StringMap::new(), Some("/tmp/sock"));
    assert!(identity.is_empty());
    config.defaults.forward_ssh_agent = true;
    config.defaults.git_user_name = Some("T".to_owned());
    let identity = resolve_sandbox_identity(&config, StringMap::new(), StringMap::new(), Some("/tmp/sock"));
    assert_eq!(identity.ssh_auth_sock, Some("/tmp/sock".to_owned()));
    assert_eq!(identity.git_name, Some("T".to_owned()));
    assert!(!identity.is_empty());
}

// ---------------------------------------------------------------------------
// The resident
// ---------------------------------------------------------------------------

fn resident_config(ws: &str, primitive: &str, egress: Vec<&str>) -> Config {
    let mut own = route(ws, vec!["coder"]);
    own.sandbox = Some("orchestration".to_owned());
    own.mounts.push(format!("{ws}:/workspace:rw"));
    let mut config = config("operations", vec![own], vec![("coder", agent("coder"))]);
    config.sandboxes.insert("orchestration".to_owned(), sandbox(primitive, egress));
    config.orchestration =
        OrchestrationPolicy { enabled: true, deny_sandboxes: vec!["local".to_owned()], ..Default::default() };
    config
}

fn launch(config: &Config, ws: &str) -> Result<ResidentLaunch, String> {
    let resolved = resolve_central_sandbox(config, ws, None)?;
    resolve_resident_launch(config, ws, &resolved)
}

#[test]
fn resolve_resident_launch_resolves_isolating_sandbox_with_broker() {
    let ws = "/tmp/varda-orchestrate-ok";
    let config = resident_config(ws, "docker", vec![]);
    let launch = launch(&config, ws).expect("a well-formed sandboxed-resident route resolves");
    assert_eq!(launch.sandbox, "orchestration");
    assert_ne!(launch.sandbox, "local", "must not be un-sandboxed");
    assert_eq!(launch.agent, "coder");
    assert!(launch.broker_wired, "the spawn broker must be wired");
    assert_eq!(launch.workspace, ws);
}

#[test]
fn resolve_resident_launch_rejects_non_llm_egress() {
    let ws = "/tmp/varda-orchestrate-net";
    let config = resident_config(ws, "microsandbox", vec!["api.example.com"]);
    let msg = launch(&config, ws).expect_err("a non-LLM-endpoint egress host must be rejected");
    assert!(msg.contains("api.example.com"), "must name the host: {msg}");
    assert!(msg.contains("LLM"), "must state the LLM-only policy: {msg}");
}

#[test]
fn resolve_resident_launch_allows_llm_egress() {
    let ws = "/tmp/varda-orchestrate-llm";
    let config = resident_config(ws, "microsandbox", vec!["api.anthropic.com"]);
    let launch = launch(&config, ws).expect("egress limited to an LLM endpoint must resolve");
    assert_eq!(launch.sandbox, "orchestration");
}

#[test]
fn resolve_resident_launch_allows_docker_proxy_egress() {
    let ws = "/tmp/varda-orchestrate-docker-net";
    let config = resident_config(ws, "docker", vec!["api.anthropic.com"]);
    let launch = launch(&config, ws).expect("docker proxy-enforced egress to an LLM endpoint must resolve");
    assert_eq!(launch.sandbox, "orchestration");
}

#[test]
fn resolve_resident_launch_rejects_unsandboxed_resident() {
    let ws = "/tmp/varda-orchestrate-local";
    let config = resident_config(ws, "local", vec![]);
    let err = launch(&config, ws).expect_err("an un-sandboxed resident must be rejected");
    assert!(err.contains("isolating sandbox"), "{err}");
}

#[test]
fn a_resident_carries_no_push_credential() {
    let ws = "/tmp/varda-orchestrate-push";
    let mut config = resident_config(ws, "docker", vec![]);
    let mut coder = agent("coder");
    coder.credentials = vec![CredentialConfig {
        from_env: Some("GH_HOST_TOKEN".to_owned()),
        env: Some("GITHUB_TOKEN".to_owned()),
        ..Default::default()
    }];
    config.agents.insert("coder".to_owned(), coder);
    let err = launch(&config, ws).expect_err("a resident carrying a push credential must be refused");
    assert!(err.contains("push credential"), "{err}");
}

#[test]
fn a_resident_needs_a_route_and_the_broker() {
    let ws = "/tmp/varda-orchestrate-broker";
    let mut config = resident_config(ws, "docker", vec![]);
    config.orchestration.enabled = false;
    assert!(launch(&config, ws).is_err());
    config.orchestration.enabled = true;
    config.routes.clear();
    config.defaults.sandbox = Some("orchestration".to_owned());
    let err = launch(&config, ws).unwrap_err();
    assert!(err.starts_with("no route matches the orchestration workspace /tmp/varda-orchestrate-broker"), "{err}");
    assert!(err.ends_with(": no project route matched /tmp/varda-orchestrate-broker"), "{err}");
}

#[test]
fn a_resident_needs_an_agent_behind_its_role_alone() {
    let ws = "/tmp/varda-orchestrate-role";
    let mut config = resident_config(ws, "docker", vec![]);
    let resolved = resolve_central_sandbox(&config, ws, None).unwrap();
    config.agents.insert("other".to_owned(), agent("other"));
    config.roles.insert("other".to_owned(), RoleConfig { backend: "nobody".to_owned(), instructions: None });
    assert!(checked_resident_launch(&config, ws, &resolved).unwrap().is_ok());
    config.roles.insert("coder".to_owned(), RoleConfig { backend: "nobody".to_owned(), instructions: None });
    assert!(checked_resident_launch(&config, ws, &resolved).is_none());
}

#[test]
fn sandboxes_are_found_by_name() {
    let mut config = resident_config("/ws", "clawk", vec![]);
    let found = resolve_central_sandbox(&config, "/ws", None);
    assert_eq!(resolve_sandbox_primitive(&found), "clawk");
    let pinned = resolve_central_sandbox(&config, "/ws", Some("local")).unwrap();
    assert_eq!(pinned.config.primitive, "local");
    assert_eq!(pinned.route_mounts, vec!["/ws:/workspace:rw"]);
    let missing = resolve_central_sandbox(&config, "/ws", Some("nowhere"));
    assert_eq!(
        missing.as_ref().unwrap_err(),
        "sandbox 'nowhere' is not defined as a central [sandboxes.nowhere]"
    );
    assert_eq!(resolve_sandbox_primitive(&missing), "local");
    config.routes.clear();
    assert_eq!(resolve_central_sandbox(&config, "/ws", None).unwrap().name, "local");
}

#[test]
fn ensure_resident_task_ready_resets_terminal_statuses() {
    let mut doc = task(Some("/ws"), Some("coder"), TaskStatus::Ready);
    for status in [
        TaskStatus::Failed,
        TaskStatus::Review,
        TaskStatus::Done,
        TaskStatus::NeedsUser,
        TaskStatus::Running,
    ] {
        doc.set_status(status);
        doc.set_recap(format!("prior run left task {status:?}"));
        assert!(ensure_resident_task_ready(&mut doc), "resetting {status:?} should succeed");
        assert_eq!(
            doc.frontmatter.status,
            TaskStatus::Ready,
            "status {status:?} should have been reset to ready"
        );
        assert_eq!(
            doc.frontmatter.recaps.last(),
            Some(&format!("prior run left task {status:?}")),
            "recap history must be preserved across the reset"
        );
    }
}

#[test]
fn ensure_resident_task_ready_leaves_fresh_scaffold_unchanged() {
    let mut doc = task(Some("/ws"), Some("coder"), TaskStatus::Ready);
    doc.body = RESIDENT_TASK_BODY.to_owned();
    assert!(!ensure_resident_task_ready(&mut doc));
    assert_eq!(doc.frontmatter.status, TaskStatus::Ready);
    assert_eq!(doc.body, RESIDENT_TASK_BODY, "task body must be untouched");
    assert!(doc.frontmatter.recaps.is_empty(), "a fresh scaffold has no recap history to preserve");
    doc.set_status(TaskStatus::Backlog);
    assert!(!ensure_resident_task_ready(&mut doc));
    assert_eq!(doc.frontmatter.status, TaskStatus::Backlog);
}

#[test]
fn orchestrate_resident_relaunch_recovers_from_failed_status() {
    let file = format!("/ops/tasks/coder/001-{RESIDENT_TASK_NAME}.md");
    let summary = |path: &str| TaskSummary {
        id: Some(1),
        path: path.to_owned(),
        title: "Resident orchestrator".to_owned(),
        status: TaskStatus::Failed,
        project: Some("/ws".to_owned()),
        assignee: None,
    };
    assert_eq!(find_resident_task(&vec![]), None);
    assert_eq!(find_resident_task(&vec![summary("/ops/tasks/other.md"), summary(&file)]), Some(1));

    let mut failed = task(Some("/ws"), Some("coder"), TaskStatus::Failed);
    failed.set_recap("first run failed: network egress denied".to_owned());
    assert!(ensure_resident_task_ready(&mut failed));
    assert_eq!(failed.frontmatter.status, TaskStatus::Ready);
    assert_eq!(
        failed.frontmatter.recaps,
        vec!["first run failed: network egress denied".to_string()],
        "the failure recap must survive the automatic reset"
    );
}

#[test]
fn residents_work_below_the_varda_home() {
    assert_eq!(default_workspace("/home/me/.varda"), "/home/me/.varda/orchestrate/workspace");
}
