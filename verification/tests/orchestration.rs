use varda::orchestration::{
    check_effective_placement, spawn_sandbox_override, OrchestrationPolicy, SpawnContext, SpawnDenied, SpawnLedger,
    SpawnRequest,
};

fn resident_policy() -> OrchestrationPolicy {
    OrchestrationPolicy {
        enabled: true,
        max_depth: 1,
        max_fanout: 16,
        global_child_budget: 64,
        deny_sandboxes: vec!["local".to_owned()],
        ..Default::default()
    }
}

fn base_policy() -> OrchestrationPolicy {
    OrchestrationPolicy {
        enabled: true,
        max_depth: 2,
        max_fanout: 2,
        global_child_budget: 3,
        ..Default::default()
    }
}

fn ctx(parent: &str, depth: u32) -> SpawnContext {
    SpawnContext {
        parent_id: parent.to_owned(),
        parent_depth: depth,
    }
}

fn req() -> SpawnRequest {
    SpawnRequest {
        brief: "do a thing".to_owned(),
        route: None,
        agent: None,
        sandbox: None,
        approved: false,
    }
}

#[test]
fn disabled_policy_denies_everything() {
    let policy = OrchestrationPolicy::default();
    let ledger = SpawnLedger::new();
    assert_eq!(
        ledger.authorize(&policy, &ctx("root", 0), &req()),
        Err(SpawnDenied::Disabled)
    );
}

#[test]
fn default_policy_is_locked_down() {
    let p = OrchestrationPolicy::default();
    assert!(!p.enabled);
    assert!(p.deny_sandboxes.contains(&"local".to_owned()));
}

#[test]
fn allows_a_simple_spawn_when_enabled() {
    let policy = base_policy();
    let mut ledger = SpawnLedger::new();
    let grant = ledger
        .authorize_and_record(&policy, &ctx("root", 0), &req())
        .expect("first spawn should be allowed");
    assert_eq!(grant.child_depth, 1);
    assert_eq!(ledger.global_spawned(), 1);
    assert_eq!(ledger.children_of("root"), 1);
}

#[test]
fn depth_cap_is_a_hard_error() {
    let policy = base_policy();
    let ledger = SpawnLedger::new();
    assert_eq!(
        ledger.authorize(&policy, &ctx("deep", 2), &req()),
        Err(SpawnDenied::DepthExceeded {
            attempted: 3,
            max: 2
        })
    );
    assert!(ledger.authorize(&policy, &ctx("mid", 1), &req()).is_ok());
}

#[test]
fn fanout_cap_rejects_the_over_limit_child_not_silently() {
    let policy = base_policy();
    let mut ledger = SpawnLedger::new();
    ledger
        .authorize_and_record(&policy, &ctx("root", 0), &req())
        .unwrap();
    ledger
        .authorize_and_record(&policy, &ctx("root", 0), &req())
        .unwrap();
    assert_eq!(
        ledger.authorize(&policy, &ctx("root", 0), &req()),
        Err(SpawnDenied::FanoutExceeded {
            parent: "root".to_owned(),
            max: 2
        })
    );
    assert!(ledger.authorize(&policy, &ctx("other", 0), &req()).is_ok());
}

#[test]
fn global_budget_cap_is_a_hard_error() {
    let policy = base_policy();
    let mut ledger = SpawnLedger::new();
    ledger
        .authorize_and_record(&policy, &ctx("a", 0), &req())
        .unwrap();
    ledger
        .authorize_and_record(&policy, &ctx("b", 0), &req())
        .unwrap();
    ledger
        .authorize_and_record(&policy, &ctx("c", 0), &req())
        .unwrap();
    assert_eq!(
        ledger.authorize(&policy, &ctx("d", 0), &req()),
        Err(SpawnDenied::BudgetExceeded {
            spent: 3,
            budget: 3
        })
    );
}

#[test]
fn agent_allow_and_deny_lists() {
    let mut policy = base_policy();
    policy.allow_agents = vec!["coder".to_owned(), "codex".to_owned()];
    policy.deny_agents = vec!["codex".to_owned()];
    let ledger = SpawnLedger::new();

    let mut r = req();
    r.agent = Some("coder".to_owned());
    assert!(ledger.authorize(&policy, &ctx("root", 0), &r).is_ok());

    r.agent = Some("copilot".to_owned());
    assert_eq!(
        ledger.authorize(&policy, &ctx("root", 0), &r),
        Err(SpawnDenied::AgentNotAllowed {
            agent: "copilot".to_owned()
        })
    );

    r.agent = Some("codex".to_owned());
    assert!(matches!(
        ledger.authorize(&policy, &ctx("root", 0), &r),
        Err(SpawnDenied::AgentNotAllowed { .. })
    ));
}

#[test]
fn route_glob_allow_and_deny() {
    let mut policy = base_policy();
    policy.allow_routes = vec!["/work/**".to_owned()];
    policy.deny_routes = vec!["/work/secret/**".to_owned()];
    let ledger = SpawnLedger::new();

    let mut r = req();
    r.route = Some("/work/proj/a".to_owned());
    assert!(ledger.authorize(&policy, &ctx("root", 0), &r).is_ok());

    r.route = Some("/work/secret/x".to_owned());
    assert_eq!(
        ledger.authorize(&policy, &ctx("root", 0), &r),
        Err(SpawnDenied::RouteNotAllowed {
            route: "/work/secret/x".to_owned()
        })
    );

    r.route = Some("/elsewhere".to_owned());
    assert!(matches!(
        ledger.authorize(&policy, &ctx("root", 0), &r),
        Err(SpawnDenied::RouteNotAllowed { .. })
    ));
}

#[test]
fn sandbox_local_is_denied_by_default_to_prevent_escape() {
    let policy = base_policy();
    let ledger = SpawnLedger::new();
    let mut r = req();
    r.sandbox = Some("local".to_owned());
    assert_eq!(
        ledger.authorize(&policy, &ctx("root", 0), &r),
        Err(SpawnDenied::SandboxNotAllowed {
            sandbox: "local".to_owned()
        })
    );
    r.sandbox = Some("docker".to_owned());
    assert!(ledger.authorize(&policy, &ctx("root", 0), &r).is_ok());
}

#[test]
fn check_effective_placement_catches_a_fallback_sandbox_denied_by_policy() {
    let policy = base_policy();
    assert_eq!(
        check_effective_placement(&policy, "coder", Some("local")),
        Err(SpawnDenied::SandboxNotAllowed {
            sandbox: "local".to_owned()
        })
    );
    assert!(check_effective_placement(&policy, "coder", Some("docker")).is_ok());
    assert!(check_effective_placement(&policy, "coder", None).is_ok());
}

#[test]
fn check_effective_placement_catches_a_denied_fallback_agent() {
    let mut policy = base_policy();
    policy.deny_agents = vec!["local-agent".to_owned()];
    assert_eq!(
        check_effective_placement(&policy, "local-agent", Some("docker")),
        Err(SpawnDenied::AgentNotAllowed {
            agent: "local-agent".to_owned()
        })
    );
    assert!(check_effective_placement(&policy, "coder", Some("docker")).is_ok());
}

#[test]
fn first_level_can_require_human_approval() {
    let mut policy = base_policy();
    policy.require_approval_at_depth = Some(1);
    let ledger = SpawnLedger::new();

    let mut r = req();
    r.approved = false;
    assert_eq!(
        ledger.authorize(&policy, &ctx("root", 0), &r),
        Err(SpawnDenied::ApprovalRequired { depth: 1 })
    );

    r.approved = true;
    assert!(ledger.authorize(&policy, &ctx("root", 0), &r).is_ok());

    let mut deep = req();
    deep.approved = false;
    assert!(ledger.authorize(&policy, &ctx("mid", 1), &deep).is_ok());
}

#[test]
fn record_only_after_authorize_keeps_ledger_truthful() {
    let policy = base_policy();
    let ledger = SpawnLedger::new();
    let deny_ctx = ctx("deep", 5);
    assert!(ledger.authorize(&policy, &deny_ctx, &req()).is_err());
    assert_eq!(ledger.global_spawned(), 0);
    assert_eq!(ledger.children_of("deep"), 0);
}

#[test]
fn resident_policy_stops_workers_from_spawning_with_max_depth_one() {
    let policy = resident_policy();
    let ledger = SpawnLedger::new();

    assert!(
        ledger
            .authorize(&policy, &ctx("resident", 0), &req())
            .is_ok()
    );
    assert_eq!(
        ledger.authorize(&policy, &ctx("worker", 1), &req()),
        Err(SpawnDenied::DepthExceeded {
            attempted: 2,
            max: 1
        })
    );
}

#[test]
fn resident_policy_denies_spawned_children_from_landing_local() {
    let policy = resident_policy();
    let ledger = SpawnLedger::new();
    let mut local = req();
    local.sandbox = Some("local".to_owned());

    assert_eq!(
        ledger.authorize(&policy, &ctx("resident", 0), &local),
        Err(SpawnDenied::SandboxNotAllowed {
            sandbox: "local".to_owned()
        })
    );

    let mut isolated = req();
    isolated.sandbox = Some("docker".to_owned());
    assert!(
        ledger
            .authorize(&policy, &ctx("resident", 0), &isolated)
            .is_ok()
    );
}

#[test]
fn resident_max_fanout_sixteen_fits_full_wave_then_denies_seventeenth() {
    let policy = resident_policy();
    let mut ledger = SpawnLedger::new();

    for _ in 0..12 {
        ledger
            .authorize_and_record(&policy, &ctx("resident", 0), &req())
            .unwrap();
    }
    assert_eq!(ledger.children_of("resident"), 12);

    for _ in 0..4 {
        ledger
            .authorize_and_record(&policy, &ctx("resident", 0), &req())
            .unwrap();
    }
    assert_eq!(ledger.children_of("resident"), 16);
    assert_eq!(
        ledger.authorize(&policy, &ctx("resident", 0), &req()),
        Err(SpawnDenied::FanoutExceeded {
            parent: "resident".to_owned(),
            max: 16
        })
    );
}

#[test]
fn resident_global_child_budget_is_enforced_across_parents() {
    let mut policy = resident_policy();
    policy.max_fanout = 64;
    policy.global_child_budget = 3;
    let mut ledger = SpawnLedger::new();

    ledger
        .authorize_and_record(&policy, &ctx("resident-a", 0), &req())
        .unwrap();
    ledger
        .authorize_and_record(&policy, &ctx("resident-b", 0), &req())
        .unwrap();
    ledger
        .authorize_and_record(&policy, &ctx("resident-c", 0), &req())
        .unwrap();

    assert_eq!(
        ledger.authorize(&policy, &ctx("resident-d", 0), &req()),
        Err(SpawnDenied::BudgetExceeded {
            spent: 3,
            budget: 3
        })
    );
}


#[test]
fn spawn_sandbox_override_prefers_request_then_default() {
    let mut policy = OrchestrationPolicy::default();
    assert_eq!(spawn_sandbox_override(None, &policy), None);
    policy.default_worker_sandbox = Some("worker".to_owned());
    assert_eq!(
        spawn_sandbox_override(None, &policy).as_deref(),
        Some("worker")
    );
    assert_eq!(
        spawn_sandbox_override(Some("adc"), &policy).as_deref(),
        Some("adc")
    );
}


#[test]
fn denials_say_why() {
    let ledger = SpawnLedger::new();
    let text = |policy: &OrchestrationPolicy, c: &SpawnContext, r: &SpawnRequest| {
        ledger.authorize(policy, c, r).unwrap_err().to_string()
    };
    assert!(text(&OrchestrationPolicy::default(), &ctx("root", 0), &req()).contains("disabled"));
    let policy = base_policy();
    assert!(text(&policy, &ctx("deep", 2), &req()).contains("depth"));
    let mut r = req();
    r.sandbox = Some("local".to_owned());
    assert!(text(&policy, &ctx("root", 0), &r).contains("must run in an isolating sibling box"));
    let mut gated = base_policy();
    gated.require_approval_at_depth = Some(1);
    assert!(text(&gated, &ctx("root", 0), &req()).contains("approval"));
}

#[test]
fn a_failed_launch_gives_its_place_back() {
    let policy = base_policy();
    let mut ledger = SpawnLedger::new();
    ledger.authorize_and_record(&policy, &ctx("root", 0), &req()).unwrap();
    ledger.authorize_and_record(&policy, &ctx("root", 0), &req()).unwrap();
    ledger.unrecord("root");
    assert_eq!(ledger.children_of("root"), 1);
    assert_eq!(ledger.global_spawned(), 1);
    assert!(ledger.authorize(&policy, &ctx("root", 0), &req()).is_ok());
}

#[test]
fn an_empty_allow_list_allows_what_is_not_denied() {
    let policy = base_policy();
    let ledger = SpawnLedger::new();
    let mut r = req();
    r.agent = Some("anyone".to_owned());
    r.route = Some("/any/where".to_owned());
    assert!(ledger.authorize(&policy, &ctx("root", 0), &r).is_ok());
}

#[test]
fn only_the_default_policy_is_default() {
    assert!(OrchestrationPolicy::default().is_default());
    assert!(!base_policy().is_default());
    assert!(!OrchestrationPolicy { deny_sandboxes: vec![], ..Default::default() }.is_default());
}
