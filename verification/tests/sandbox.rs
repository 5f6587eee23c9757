use varda::config::{AgentKind, SandboxConfig};
use varda::mounts::{
    effective_mounts, expand_mount_path, mount_from_table, mount_mode_writable, parse_mount, MountOrigin, MountSpec,
};
use varda::order::StringMap;
use varda::sandbox::{
    provider_for, sanitize_docker_name, varda_sessions_root, CommandSpec, DockerProvider, DockerSession, ImageSource,
    LocalProvider, LocalSession, MicrosandboxProvider, MicrosandboxSession, Prepared, SandboxContext, SandboxProvider,
    SandboxSession, StubProvider,
};

fn ctx<'a>(project_root: &'a str) -> SandboxContext<'a> {
    SandboxContext { project_root, route_glob: "**", agent_kind: AgentKind::Acp, session_id: "session-1" }
}

fn ready(image: &str) -> Prepared {
    Prepared {
        image: image.to_owned(),
        sessions_root: "/var/varda/sessions".to_owned(),
        host_home: Some("/home/me".to_owned()),
    }
}

fn sandbox(image: Option<&str>, primitive: &str) -> SandboxConfig {
    SandboxConfig {
        primitive: primitive.to_owned(),
        image: image.map(str::to_owned),
        build: None,
        mounts: vec![],
        egress: vec![],
        env: StringMap::new(),
    }
}

fn docker(project_root: &str, mounts: Vec<(MountOrigin, String)>, egress_pins: Vec<(String, String)>) -> DockerSession {
    DockerSession {
        image: "img".to_owned(),
        project_root: project_root.to_owned(),
        mounts,
        egress_pins,
        session_store: "/var/varda/sessions/s1".to_owned(),
        volume: "varda-sbx-s1".to_owned(),
        container: "varda-sbx-s1".to_owned(),
        home: "/home/agent".to_owned(),
        host_home: Some("/home/me".to_owned()),
    }
}

fn shell() -> CommandSpec {
    CommandSpec { program: "sh".to_owned(), args: vec![], env: StringMap::new(), cwd: None }
}

fn values_after(wrapped: &CommandSpec, flag: &str) -> Vec<String> {
    wrapped
        .args
        .iter()
        .enumerate()
        .filter(|(i, _)| *i > 0 && wrapped.args[i - 1] == flag)
        .map(|(_, v)| v.clone())
        .collect()
}

fn mount_values(wrapped: &CommandSpec) -> Vec<String> {
    values_after(wrapped, "-v")
}

#[test]
fn local_wrap_is_identity() {
    assert_eq!(LocalProvider.name(), "local");
    let session = LocalSession { host_home: Some("/home/me".to_owned()) };
    let mut env = StringMap::new();
    env.insert("A".to_owned(), "1".to_owned());
    let spec = CommandSpec {
        program: "coder".to_owned(),
        args: vec!["--foo".to_owned()],
        env,
        cwd: Some("/proj".to_owned()),
    };
    let wrapped = session.wrap(spec).unwrap();
    assert_eq!(wrapped.program, "coder");
    assert_eq!(wrapped.args, vec!["--foo"]);
    assert_eq!(wrapped.env.len(), 1);
    assert_eq!(wrapped.env.get("A").unwrap(), "1");
    assert_eq!(wrapped.cwd, Some("/proj".to_owned()));
    assert_eq!(session.session_store_root(), Some("/home/me".to_owned()));
    assert!(session.store_is_live());
    assert!(session.bind_sources().is_empty());
    assert!(session.validate_mounts(&vec![]).is_ok());
}

#[test]
fn docker_wrap_produces_exact_argv() {
    let provider = DockerProvider {
        name: "docker".to_owned(),
        image: Some("varda:latest".to_owned()),
        build: None,
        mounts: vec![],
        egress: vec![],
    };
    let session = provider.prepare(&ctx("/home/me/project"), vec![], ready("varda:latest"));

    let mut env = StringMap::new();
    env.insert("FOO".to_owned(), "bar".to_owned());
    env.insert("ALPHA".to_owned(), "beta".to_owned());
    let spec = CommandSpec {
        program: "coder".to_owned(),
        args: vec!["--print".to_owned(), "-".to_owned()],
        env,
        cwd: Some("/home/me/project".to_owned()),
    };

    let wrapped = session.wrap(spec).unwrap();
    assert_eq!(wrapped.program, "docker");
    assert_eq!(
        wrapped.args,
        vec![
            "run",
            "--name",
            "varda-sbx-session-1",
            "--init",
            "-i",
            "--network",
            "none",
            "-v",
            "/home/me/project:/home/me/project",
            "-v",
            "varda-sbx-session-1:/home/agent",
            "-w",
            "/home/me/project",
            "-e",
            "ALPHA=beta",
            "-e",
            "FOO=bar",
            "-e",
            "HOME=/home/agent",
            "varda:latest",
            "coder",
            "--print",
            "-",
        ]
    );
    assert_eq!(wrapped.env.len(), 0);
    assert!(wrapped.cwd.is_none());
}

#[test]
fn docker_wrap_defaults_cwd_to_project_root() {
    let provider = DockerProvider {
        name: "docker".to_owned(),
        image: Some("img".to_owned()),
        build: None,
        mounts: vec![],
        egress: vec![],
    };
    let session = provider.prepare(&ctx("/srv/app"), vec![], ready("img"));
    let wrapped = session.wrap(shell()).unwrap();
    let w = wrapped.args.iter().position(|a| a == "-w").unwrap();
    assert_eq!(wrapped.args[w + 1], "/srv/app");
}

#[test]
fn docker_session_store_root_is_the_session_mount() {
    let session = docker("/proj", vec![], vec![]);
    assert_eq!(session.session_store_root(), Some("/var/varda/sessions/s1".to_owned()));
}

#[test]
fn docker_store_is_not_live() {
    let session = docker("/proj", vec![], vec![]);
    assert!(!session.store_is_live());
}

#[test]
fn docker_validate_mounts_errors_on_unreachable_source() {
    let bad_project = docker("/nonexistent/varda-m9-project", vec![], vec![]);
    assert_eq!(bad_project.bind_sources(), vec!["/nonexistent/varda-m9-project"]);
    let err = bad_project
        .validate_mounts(&vec![false])
        .expect_err("nonexistent project mount source must fail loudly");
    assert!(
        err.contains("/nonexistent/varda-m9-project") && err.contains("empty stub"),
        "unexpected error: {err}"
    );

    let bad_mount = docker(
        "/tmp",
        vec![(MountOrigin::Route, "/nonexistent/varda-m9-context:/ctx".to_owned())],
        vec![],
    );
    assert_eq!(bad_mount.bind_sources(), vec!["/tmp", "/nonexistent/varda-m9-context"]);
    let err = bad_mount
        .validate_mounts(&vec![true, false])
        .expect_err("nonexistent extra mount source must fail loudly");
    assert!(err.contains("/nonexistent/varda-m9-context"), "unexpected error: {err}");
}

#[test]
fn docker_validate_mounts_ok_when_sources_exist() {
    let session = docker("/tmp", vec![(MountOrigin::Sandbox, "/tmp:/ctx:ro".to_owned())], vec![]);
    let present = vec![true; session.bind_sources().len()];
    assert!(session.validate_mounts(&present).is_ok());
}

#[test]
fn docker_wrap_mounts_only_project_root_by_default() {
    let wrapped = docker("/srv/app", vec![], vec![]).wrap(shell()).unwrap();
    assert_eq!(mount_values(&wrapped), vec!["/srv/app:/srv/app", "varda-sbx-s1:/home/agent"]);
}

#[test]
fn docker_wrap_adds_extra_mounts_read_only() {
    let wrapped = docker("/srv/app", vec![(MountOrigin::Sandbox, "/opt/cache".to_owned())], vec![])
        .wrap(shell())
        .unwrap();
    assert_eq!(
        mount_values(&wrapped),
        vec!["/srv/app:/srv/app", "varda-sbx-s1:/home/agent", "/opt/cache:/opt/cache:ro"]
    );
}

#[test]
fn docker_wrap_no_egress_is_network_none() {
    let wrapped = docker("/srv/app", vec![], vec![]).wrap(shell()).unwrap();
    let n = wrapped.args.iter().position(|a| a == "--network").unwrap();
    assert_eq!(wrapped.args[n + 1], "none");
    assert!(!wrapped.args.iter().any(|a| a == "--add-host"));
    assert!(!wrapped.args.iter().any(|a| a == "--dns"));
}

#[test]
fn docker_wrap_egress_pins_allow_listed_hosts() {
    let session = docker(
        "/srv/app",
        vec![],
        vec![
            ("api.example.com".to_owned(), "93.184.216.34".to_owned()),
            ("cdn.example.com".to_owned(), "203.0.113.7".to_owned()),
        ],
    );
    let wrapped = session.wrap(shell()).unwrap();
    let n = wrapped.args.iter().position(|a| a == "--network").unwrap();
    assert_eq!(wrapped.args[n + 1], "bridge");
    let d = wrapped.args.iter().position(|a| a == "--dns").unwrap();
    assert_eq!(wrapped.args[d + 1], "0.0.0.0");
    assert_eq!(
        values_after(&wrapped, "--add-host"),
        vec!["api.example.com:93.184.216.34", "cdn.example.com:203.0.113.7"]
    );
}

#[test]
fn provider_for_local_and_docker() {
    let mut sandboxes: StringMap<SandboxConfig> = StringMap::new();
    assert_eq!(provider_for("local", &sandboxes, &vec![]).unwrap().name(), "local");

    assert!(provider_for("docker", &sandboxes, &vec![]).is_err());

    sandboxes.insert("docker".to_owned(), sandbox(Some("varda:latest"), "docker"));
    assert_eq!(provider_for("docker", &sandboxes, &vec![]).unwrap().name(), "docker");

    sandboxes.insert("broken".to_owned(), sandbox(None, "docker"));
    assert!(provider_for("broken", &sandboxes, &vec![]).is_err());
}

#[test]
fn provider_for_dispatches_on_primitive() {
    let mut sandboxes: StringMap<SandboxConfig> = StringMap::new();
    sandboxes.insert("isolated".to_owned(), sandbox(Some("busybox"), "local"));
    assert_eq!(provider_for("isolated", &sandboxes, &vec![]).unwrap().name(), "local");

    for primitive in ["microsandbox", "clawk"] {
        sandboxes.insert("vm".to_owned(), sandbox(Some("busybox"), primitive));
        let provider = provider_for("vm", &sandboxes, &vec![]).unwrap();
        assert_eq!(provider.name(), "vm");
    }

    sandboxes.insert("weird".to_owned(), sandbox(Some("busybox"), "qemu"));
    assert!(provider_for("weird", &sandboxes, &vec![]).is_err());
}

#[test]
fn microsandbox_wrap_produces_expected_argv() {
    let session = MicrosandboxSession {
        image: "busybox".to_owned(),
        project_root: "/proj".to_owned(),
        mounts: Vec::new(),
        egress: Vec::new(),
        session_store: "/host/store".to_owned(),
        sandbox: "varda-sbx-abc".to_owned(),
        home: "/home/agent".to_owned(),
        host_home: None,
    };
    let spec = CommandSpec {
        program: "coder".to_owned(),
        args: vec!["--acp".to_owned()],
        env: StringMap::new(),
        cwd: None,
    };
    let wrapped = session.wrap(spec).unwrap();
    assert_eq!(wrapped.program, "msb");
    assert_eq!(
        wrapped.args,
        vec![
            "run",
            "--name",
            "varda-sbx-abc",
            "--net-default",
            "deny",
            "--mount-dir",
            "/proj:/proj",
            "--workdir",
            "/proj",
            "--env",
            "HOME=/home/agent",
            "busybox",
            "--",
            "coder",
            "--acp",
        ]
    );
    assert_eq!(wrapped.env.len(), 0);
    assert!(!session.store_is_live());
    assert_eq!(session.session_store_root(), Some("/host/store/agent".to_owned()));
}

#[test]
fn stub_provider_prepare_errors_clearly() {
    let provider = StubProvider { name: "vm".to_owned(), primitive: "clawk".to_owned() };
    let err = match provider.prepare() {
        Ok(_) => panic!("stub prepare should not succeed"),
        Err(err) => err,
    };
    assert!(err.contains("not yet available") && err.contains("clawk"), "unexpected stub error: {err}");
}

#[test]
fn parse_mount_source_only_is_same_path_ro() {
    let spec = parse_mount("/data").unwrap();
    assert_eq!(
        spec,
        MountSpec { source: "/data".to_owned(), target: "/data".to_owned(), writable: false }
    );
}

#[test]
fn parse_mount_source_with_mode() {
    assert!(!parse_mount("/data:ro").unwrap().writable);
    assert!(parse_mount("/data:w").unwrap().writable);
    assert!(parse_mount("/data:rw").unwrap().writable);
    let w = parse_mount("~/ctx:w").unwrap();
    assert_eq!(w.source, "~/ctx");
    assert_eq!(w.target, "~/ctx");
    assert!(w.writable);
}

#[test]
fn parse_mount_explicit_target() {
    let spec = parse_mount("~/dev/brain/AsianDevBank:/context/adb").unwrap();
    assert_eq!(spec.source, "~/dev/brain/AsianDevBank");
    assert_eq!(spec.target, "/context/adb");
    assert!(!spec.writable);
}

#[test]
fn parse_mount_explicit_target_and_mode() {
    let spec = parse_mount("/src:/dst:w").unwrap();
    assert_eq!(spec.source, "/src");
    assert_eq!(spec.target, "/dst");
    assert!(spec.writable);
}

#[test]
fn parse_mount_malformed_errors() {
    assert!(parse_mount("/src:relative").is_err());
    assert!(parse_mount("/src:relative:ro").is_err());
    assert!(parse_mount("/src:/dst:bogus").is_err());
    assert!(parse_mount("").is_err());
}

#[test]
fn mount_spec_table_form_deserializes() {
    let only = mount_from_table("/data", None, None).unwrap();
    assert_eq!(
        only,
        MountSpec { source: "/data".to_owned(), target: "/data".to_owned(), writable: false }
    );
    let full = mount_from_table("~/dev/brain/AsianDevBank", Some("/context/adb"), Some("ro")).unwrap();
    assert_eq!(full.target, "/context/adb");
    assert!(!full.writable);
    let shorthand = parse_mount("/opt/cache:w").unwrap();
    assert!(shorthand.writable);
}

#[test]
fn route_mount_reaches_argv_same_path_ro() {
    let wrapped = docker("/srv/app", vec![(MountOrigin::Route, "/ctx/adb:ro".to_owned())], vec![])
        .wrap(shell())
        .unwrap();
    assert_eq!(
        mount_values(&wrapped),
        vec![
            "/srv/app:/srv/app".to_owned(),
            "varda-sbx-s1:/home/agent".to_owned(),
            "/ctx/adb:/ctx/adb:ro".to_owned(),
        ]
    );
}

#[test]
fn route_mount_explicit_target_reaches_argv() {
    let wrapped = docker("/srv/app", vec![(MountOrigin::Route, "/host/adb:/context/adb".to_owned())], vec![])
        .wrap(shell())
        .unwrap();
    assert!(
        mount_values(&wrapped).contains(&"/host/adb:/context/adb:ro".to_owned()),
        "expected explicit-target mount, got {:?}",
        mount_values(&wrapped)
    );
}

#[test]
fn route_mount_expands_project_and_relative() {
    let wrapped = docker(
        "/srv/app",
        vec![
            (MountOrigin::Route, "{project}/vendor:/vendor:ro".to_owned()),
            (MountOrigin::Route, "subdir:ro".to_owned()),
        ],
        vec![],
    )
    .wrap(shell())
    .unwrap();
    let values = mount_values(&wrapped);
    assert!(values.contains(&"/srv/app/vendor:/vendor:ro".to_owned()));
    assert!(values.contains(&"/srv/app/subdir:/srv/app/subdir:ro".to_owned()));
}

#[test]
fn expand_mount_path_expands_tilde_against_home() {
    assert_eq!(expand_mount_path("~/notes", "/srv/app", Some("/home/me")), "/home/me/notes");
}

#[test]
fn effective_mounts_union_dedups_by_target() {
    let wrapped = docker(
        "/srv/app",
        vec![
            (MountOrigin::Sandbox, "/shared:/context:ro".to_owned()),
            (MountOrigin::Route, "/other:/context:w".to_owned()),
            (MountOrigin::Route, "/extra:ro".to_owned()),
        ],
        vec![],
    )
    .wrap(shell())
    .unwrap();
    let values = mount_values(&wrapped);
    assert!(values.contains(&"/shared:/context:ro".to_owned()));
    assert!(!values.iter().any(|v| v == "/other:/context"));
    assert!(values.contains(&"/extra:/extra:ro".to_owned()));
}

#[test]
fn from_config_unions_sandbox_and_route_mounts() {
    let mut config = sandbox(Some("img"), "docker");
    config.mounts.push("/img/cache".to_owned());
    let provider =
        DockerProvider::from_config("docker", &config, &vec!["~/dev/brain/AsianDevBank:ro".to_owned()]).unwrap();
    assert_eq!(
        provider.mounts,
        vec![
            (MountOrigin::Sandbox, "/img/cache".to_owned()),
            (MountOrigin::Route, "~/dev/brain/AsianDevBank:ro".to_owned()),
        ]
    );
}

#[test]
fn mount_modes_and_table_errors() {
    assert_eq!(mount_mode_writable("ro"), Some(false));
    assert_eq!(mount_mode_writable("rw"), Some(true));
    assert_eq!(mount_mode_writable("w"), Some(true));
    assert_eq!(mount_mode_writable("x"), None);
    assert!(mount_from_table("/a", None, Some("x")).is_err());
}

#[test]
fn a_writable_mount_has_no_read_only_mark() {
    let wrapped = docker("/srv/app", vec![(MountOrigin::Route, "/a:/b:w".to_owned())], vec![])
        .wrap(shell())
        .unwrap();
    assert_eq!(mount_values(&wrapped)[2], "/a:/b");
}

#[test]
fn a_malformed_mount_fails_the_wrap() {
    let err = docker("/srv/app", vec![(MountOrigin::Route, "/a:b:c".to_owned())], vec![])
        .wrap(shell())
        .unwrap_err();
    assert_eq!(
        err,
        "invalid mount '/a:b:c' for sandbox 'img': invalid mount '/a:b:c': trailing segment 'c' is not a mode (ro|rw|w)"
    );
    assert!(effective_mounts(&vec![(MountOrigin::Sandbox, "".to_owned())], "/p", None, "img").is_err());
}

#[test]
fn home_cannot_be_set_from_outside() {
    let mut env = StringMap::new();
    env.insert("HOME".to_owned(), "/root".to_owned());
    let spec = CommandSpec { program: "sh".to_owned(), args: vec![], env, cwd: None };
    let wrapped = docker("/srv/app", vec![], vec![]).wrap(spec).unwrap();
    assert_eq!(values_after(&wrapped, "-e"), vec!["HOME=/home/agent"]);
}

#[test]
fn microsandbox_allow_list_is_a_rule_for_each_host() {
    let provider =
        MicrosandboxProvider::from_config("vm", &sandbox(Some("busybox"), "microsandbox"), &vec![]).unwrap();
    let mut session = provider.prepare(&ctx("/proj"), ready("busybox"));
    session.egress.push("api.example.com".to_owned());
    let wrapped = session.wrap(shell()).unwrap();
    assert_eq!(values_after(&wrapped, "--net-default-egress"), vec!["deny"]);
    assert_eq!(values_after(&wrapped, "--net-rule"), vec!["allow@api.example.com"]);
    assert_eq!(session.sandbox, "varda-sbx-session-1");
}

#[test]
fn images_come_from_a_dockerfile_before_a_name() {
    let mut config = sandbox(Some("img"), "docker");
    let named = DockerProvider::from_config("d", &config, &vec![]).unwrap();
    assert_eq!(named.resolve_image(), Ok(ImageSource::Named("img".to_owned())));
    config.build = Some("/x/Dockerfile".to_owned());
    let built = DockerProvider::from_config("d", &config, &vec![]).unwrap();
    assert_eq!(built.resolve_image(), Ok(ImageSource::Build("/x/Dockerfile".to_owned())));
    config.image = Some(String::new());
    config.build = Some(String::new());
    assert_eq!(
        DockerProvider::from_config("d", &config, &vec![]).unwrap_err(),
        "sandbox 'd' needs an `image` or a `build` path (required for the docker provider)"
    );
}

#[test]
fn after_a_run_the_store_is_copied_and_the_sandbox_removed() {
    let session = docker("/srv/app", vec![], vec![]);
    assert_eq!(
        session.extract_session_store().args,
        vec!["cp", "varda-sbx-s1:/home/agent/.", "/var/varda/sessions/s1"]
    );
    let (container, volume) = session.teardown();
    assert_eq!(container.args, vec!["rm", "-f", "varda-sbx-s1"]);
    assert_eq!(volume.args, vec!["volume", "rm", "-f", "varda-sbx-s1"]);
}

#[test]
fn container_names_keep_only_safe_characters() {
    assert_eq!(sanitize_docker_name("a/b c_1.2-é"), "a-b-c_1.2--");
}

#[test]
fn session_records_lie_below_the_varda_home() {
    assert_eq!(varda_sessions_root(Some("/v"), Some("/home/me")), "/v/sessions");
    assert_eq!(varda_sessions_root(Some(""), Some("/home/me")), "/home/me/.varda/sessions");
    assert_eq!(varda_sessions_root(None, None), ".varda/sessions");
}
