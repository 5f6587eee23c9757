//! Policy for sub-task spawning.
//!
//! An agent that runs inside a sandbox may ask the host to run sub-tasks. The host
//! decides by an [`OrchestrationPolicy`] and keeps count in a [`SpawnLedger`]: how
//! deep the tree of tasks may grow, how many children one task may have and how
//! many sub-tasks there may be in all. Exceeding a bound is an error
//! ([`SpawnDenied`]), never a silent cap, and a deny-list always beats an
//! allow-list.

use vstd::prelude::*;
use vstd::string::*;

use crate::globs::{glob_matches, glob_matches_spec};
use crate::order::StringMap;
use crate::text::{
    among, decimal, decimal_of, holds, holds_in_order, lemma_holds_within, lemma_two_in_order, same,
};

verus! {

/// Identifier of a task in the tree of spawned tasks.
pub type SubtaskId = String;

/// Which spawns a sandboxed task may request, and how many.
///
/// An empty allow-list allows whatever is not denied; a non-empty one allows only
/// what it lists.
#[derive(Debug, Clone, PartialEq, Eq)]
pub struct OrchestrationPolicy {
    /// Where false, every request is denied.
    pub enabled: bool,
    /// The greatest depth a spawned task may have. The root task has depth 0.
    pub max_depth: u32,
    /// The most direct children one task may have.
    pub max_fanout: u32,
    /// The most sub-tasks there may be in the whole tree of one root run.
    pub global_child_budget: u32,
    /// Agents that may be requested.
    pub allow_agents: Vec<String>,
    /// Agents that may never be requested.
    pub deny_agents: Vec<String>,
    /// Route globs that may be requested.
    pub allow_routes: Vec<String>,
    /// Route globs that may never be requested.
    pub deny_routes: Vec<String>,
    /// Sandboxes that a sub-task may run in.
    pub allow_sandboxes: Vec<String>,
    /// Sandboxes that a sub-task may never run in.
    pub deny_sandboxes: Vec<String>,
    /// The depth at which a spawn needs a human's approval.
    pub require_approval_at_depth: Option<u32>,
    /// The sandbox of a sub-task that does not request one.
    pub default_worker_sandbox: Option<String>,
}

/// How deep a tree may grow where the policy does not say.
pub fn default_max_depth() -> (depth: u32)
    ensures
        depth == 2,
{
    2
}

/// How many children a task may have where the policy does not say.
pub fn default_max_fanout() -> (fanout: u32)
    ensures
        fanout == 4,
{
    4
}

/// How many sub-tasks a run may have where the policy does not say.
pub fn default_global_child_budget() -> (budget: u32)
    ensures
        budget == 16,
{
    16
}

/// The sandboxes that are denied where the policy does not say: `local`, which
/// does not isolate.
pub fn default_deny_sandboxes() -> (denied: Vec<String>)
    ensures
        denied.deep_view() == seq!["local"@],
{
    let mut denied: Vec<String> = Vec::new();
    denied.push("local".to_owned());
    assert(denied.deep_view() =~= seq!["local"@]);
    denied
}

impl OrchestrationPolicy {
    /// Whether every field holds its default: spawning is off and `local` denied.
    pub open spec fn is_default_spec(&self) -> bool {
        &&& !self.enabled
        &&& self.max_depth == 2
        &&& self.max_fanout == 4
        &&& self.global_child_budget == 16
        &&& self.allow_agents@.len() == 0
        &&& self.deny_agents@.len() == 0
        &&& self.allow_routes@.len() == 0
        &&& self.deny_routes@.len() == 0
        &&& self.allow_sandboxes@.len() == 0
        &&& self.deny_sandboxes.deep_view() == seq!["local"@]
        &&& self.require_approval_at_depth is None
        &&& self.default_worker_sandbox is None
    }

    /// Whether this is the default policy.
    pub fn is_default(&self) -> (default: bool)
        ensures
            default == self.is_default_spec(),
    {
        let local_alone = self.deny_sandboxes.len() == 1 && same(self.deny_sandboxes[0].as_str(), "local");
        proof {
            if local_alone {
                assert(self.deny_sandboxes.deep_view() =~= seq!["local"@]);
            }
            if self.deny_sandboxes.deep_view() == seq!["local"@] {
                assert(self.deny_sandboxes.deep_view().len() == 1);
                assert(self.deny_sandboxes.deep_view()[0] == "local"@);
            }
        }
        !self.enabled && self.max_depth == default_max_depth() && self.max_fanout == default_max_fanout()
            && self.global_child_budget == default_global_child_budget() && self.allow_agents.len() == 0
            && self.deny_agents.len() == 0 && self.allow_routes.len() == 0 && self.deny_routes.len() == 0
            && self.allow_sandboxes.len() == 0 && local_alone && self.require_approval_at_depth.is_none()
            && self.default_worker_sandbox.is_none()
    }
}

impl Default for OrchestrationPolicy {
    fn default() -> (policy: Self)
        ensures
            policy.is_default_spec(),
    {
        OrchestrationPolicy {
            enabled: false,
            max_depth: default_max_depth(),
            max_fanout: default_max_fanout(),
            global_child_budget: default_global_child_budget(),
            allow_agents: Vec::new(),
            deny_agents: Vec::new(),
            allow_routes: Vec::new(),
            deny_routes: Vec::new(),
            allow_sandboxes: Vec::new(),
            deny_sandboxes: default_deny_sandboxes(),
            require_approval_at_depth: None,
            default_worker_sandbox: None,
        }
    }
}

// ---------------------------------------------------------------------------
// Allow and deny lists
// ---------------------------------------------------------------------------

/// Whether a plain value is allowed: not denied, and on the allow-list unless that
/// is empty.
pub open spec fn allowed(allow: Seq<Seq<char>>, deny: Seq<Seq<char>>, value: Seq<char>) -> bool {
    !deny.contains(value) && (allow.len() == 0 || allow.contains(value))
}

/// Whether some of `patterns` matches `value`.
pub open spec fn some_glob_matches(patterns: Seq<Seq<char>>, value: Seq<char>) -> bool {
    exists|i: int| 0 <= i < patterns.len() && glob_matches_spec(#[trigger] patterns[i], value)
}

/// Whether a value is allowed by lists of glob patterns.
pub open spec fn glob_allowed(allow: Seq<Seq<char>>, deny: Seq<Seq<char>>, value: Seq<char>) -> bool {
    !some_glob_matches(deny, value) && (allow.len() == 0 || some_glob_matches(allow, value))
}

/// Decides on a plain value (an agent, a sandbox).
pub fn list_allows(allow: &Vec<String>, deny: &Vec<String>, value: &str) -> (decision: bool)
    ensures
        decision == allowed(allow.deep_view(), deny.deep_view(), value@),
{
    if among(deny, value) {
        return false;
    }
    allow.len() == 0 || among(allow, value)
}

/// Whether some of `patterns` matches `value`.
fn any_glob_matches(patterns: &Vec<String>, value: &str) -> (matched: bool)
    ensures
        matched == some_glob_matches(patterns.deep_view(), value@),
{
    let mut i: usize = 0;
    while i < patterns.len()
        invariant
            i <= patterns@.len(),
            forall|j: int| 0 <= j < i ==> !glob_matches_spec(#[trigger] patterns.deep_view()[j], value@),
        decreases patterns@.len() - i,
    {
        if glob_matches(patterns[i].as_str(), value) {
            assert(glob_matches_spec(patterns.deep_view()[i as int], value@));
            return true;
        }
        assert(!glob_matches_spec(patterns.deep_view()[i as int], value@));
        i += 1;
    }
    false
}

/// Decides on a route by lists of glob patterns. A malformed pattern matches
/// nothing.
pub fn glob_list_allows(allow: &Vec<String>, deny: &Vec<String>, value: &str) -> (decision: bool)
    ensures
        decision == glob_allowed(allow.deep_view(), deny.deep_view(), value@),
{
    if any_glob_matches(deny, value) {
        return false;
    }
    allow.len() == 0 || any_glob_matches(allow, value)
}

/// What is denied is never allowed, whatever the allow-list holds.
pub proof fn law_deny_beats_allow(allow: Seq<Seq<char>>, deny: Seq<Seq<char>>, value: Seq<char>)
    ensures
        deny.contains(value) ==> !allowed(allow, deny, value),
        some_glob_matches(deny, value) ==> !glob_allowed(allow, deny, value),
{
}

// ---------------------------------------------------------------------------
// Requests and answers
// ---------------------------------------------------------------------------

/// The sandbox that a spawn pins onto its sub-task: the one requested, or else the
/// policy's default, or else none.
pub fn spawn_sandbox_override(requested: Option<&str>, policy: &OrchestrationPolicy) -> (sandbox: Option<String>)
    ensures
        sandbox.deep_view() == (match requested {
            Some(name) => Some(name@),
            None => policy.default_worker_sandbox.deep_view(),
        }),
{
    match requested {
        Some(name) => Some(name.to_owned()),
        None => match &policy.default_worker_sandbox {
            Some(name) => Some(name.clone()),
            None => None,
        },
    }
}

/// A request to spawn a sub-task, as it arrives from a sandboxed task.
#[derive(Debug, Clone, PartialEq, Eq)]
pub struct SpawnRequest {
    /// What the sub-task should accomplish.
    pub brief: String,
    /// The route glob asked for.
    pub route: Option<String>,
    /// The agent asked for.
    pub agent: Option<String>,
    /// The sandbox asked for.
    pub sandbox: Option<String>,
    /// Whether a human approved this spawn.
    pub approved: bool,
}

/// Who asks: the requesting task and how deep it sits.
#[derive(Debug, Clone, PartialEq, Eq)]
pub struct SpawnContext {
    /// The requesting task.
    pub parent_id: SubtaskId,
    /// Its depth; the root task has depth 0.
    pub parent_depth: u32,
}

/// Why a spawn was refused.
#[derive(Debug, Clone, PartialEq, Eq)]
pub enum SpawnDenied {
    /// The policy allows no spawns.
    Disabled,
    /// The child would sit deeper than `max_depth`.
    DepthExceeded { attempted: u32, max: u32 },
    /// The parent already has `max_fanout` children.
    FanoutExceeded { parent: SubtaskId, max: u32 },
    /// The budget of the run is spent.
    BudgetExceeded { spent: u32, budget: u32 },
    /// The agent is not permitted.
    AgentNotAllowed { agent: String },
    /// The route is not permitted.
    RouteNotAllowed { route: String },
    /// The sandbox is not permitted.
    SandboxNotAllowed { sandbox: String },
    /// Spawns at this depth need an approval that was not given.
    ApprovalRequired { depth: u32 },
}

/// What a [`SpawnDenied`] says.
pub enum SpawnDeniedView {
    Disabled,
    DepthExceeded { attempted: u32, max: u32 },
    FanoutExceeded { parent: Seq<char>, max: u32 },
    BudgetExceeded { spent: u32, budget: u32 },
    AgentNotAllowed { agent: Seq<char> },
    RouteNotAllowed { route: Seq<char> },
    SandboxNotAllowed { sandbox: Seq<char> },
    ApprovalRequired { depth: u32 },
}

impl View for SpawnDenied {
    type V = SpawnDeniedView;

    open spec fn view(&self) -> SpawnDeniedView {
        match *self {
            SpawnDenied::Disabled => SpawnDeniedView::Disabled,
            SpawnDenied::DepthExceeded { attempted, max } => SpawnDeniedView::DepthExceeded { attempted, max },
            SpawnDenied::FanoutExceeded { parent, max } => SpawnDeniedView::FanoutExceeded {
                parent: parent@,
                max,
            },
            SpawnDenied::BudgetExceeded { spent, budget } => SpawnDeniedView::BudgetExceeded { spent, budget },
            SpawnDenied::AgentNotAllowed { agent } => SpawnDeniedView::AgentNotAllowed { agent: agent@ },
            SpawnDenied::RouteNotAllowed { route } => SpawnDeniedView::RouteNotAllowed { route: route@ },
            SpawnDenied::SandboxNotAllowed { sandbox } => SpawnDeniedView::SandboxNotAllowed {
                sandbox: sandbox@,
            },
            SpawnDenied::ApprovalRequired { depth } => SpawnDeniedView::ApprovalRequired { depth },
        }
    }
}

impl SpawnDeniedView {
    /// The reason in words, as it is given to the requesting task.
    pub open spec fn text(self) -> Seq<char> {
        match self {
            SpawnDeniedView::Disabled => "sub-task spawning is disabled by orchestration policy"@,
            SpawnDeniedView::DepthExceeded { attempted, max } => "spawn denied: child depth "@ + decimal(
                attempted as nat,
            ) + " exceeds max_depth "@ + decimal(max as nat) + " (recursion cap)"@,
            SpawnDeniedView::FanoutExceeded { parent, max } => "spawn denied: parent '"@ + parent
                + "' already has max_fanout "@ + decimal(max as nat) + " children"@,
            SpawnDeniedView::BudgetExceeded { spent, budget } =>
                "spawn denied: global child budget exhausted ("@ + decimal(spent as nat) + "/"@ + decimal(
                budget as nat,
            ) + " spent)"@,
            SpawnDeniedView::AgentNotAllowed { agent } => "spawn denied: agent '"@ + agent
                + "' is not permitted by policy"@,
            SpawnDeniedView::RouteNotAllowed { route } => "spawn denied: route '"@ + route
                + "' is not permitted by policy"@,
            SpawnDeniedView::SandboxNotAllowed { sandbox } => "spawn denied: sandbox '"@ + sandbox
                + "' is not permitted by policy (a subtask must run in an isolating sibling box, never `local`)"@,
            SpawnDeniedView::ApprovalRequired { depth } => "spawn denied: spawns at depth "@ + decimal(
                depth as nat,
            ) + " require human approval"@,
        }
    }
}

impl SpawnDenied {
    /// The reason in words.
    pub fn to_string(&self) -> (text: String)
        ensures
            text@ == self@.text(),
    {
        match self {
            SpawnDenied::Disabled => "sub-task spawning is disabled by orchestration policy".to_owned(),
            SpawnDenied::DepthExceeded { attempted, max } => "spawn denied: child depth ".to_owned().concat(
                decimal_of(*attempted as u64).as_str(),
            ).concat(" exceeds max_depth ").concat(decimal_of(*max as u64).as_str()).concat(" (recursion cap)"),
            SpawnDenied::FanoutExceeded { parent, max } => "spawn denied: parent '".to_owned().concat(
                parent.as_str(),
            ).concat("' already has max_fanout ").concat(decimal_of(*max as u64).as_str()).concat(" children"),
            SpawnDenied::BudgetExceeded { spent, budget } =>
                "spawn denied: global child budget exhausted (".to_owned().concat(
                decimal_of(*spent as u64).as_str(),
            ).concat("/").concat(decimal_of(*budget as u64).as_str()).concat(" spent)"),
            SpawnDenied::AgentNotAllowed { agent } => "spawn denied: agent '".to_owned().concat(
                agent.as_str(),
            ).concat("' is not permitted by policy"),
            SpawnDenied::RouteNotAllowed { route } => "spawn denied: route '".to_owned().concat(
                route.as_str(),
            ).concat("' is not permitted by policy"),
            SpawnDenied::SandboxNotAllowed { sandbox } => "spawn denied: sandbox '".to_owned().concat(
                sandbox.as_str(),
            ).concat(
                "' is not permitted by policy (a subtask must run in an isolating sibling box, never `local`)",
            ),
            SpawnDenied::ApprovalRequired { depth } => "spawn denied: spawns at depth ".to_owned().concat(
                decimal_of(*depth as u64).as_str(),
            ).concat(" require human approval"),
        }
    }
}

/// Why the placement that was resolved for a sub-task is refused, if it is.
pub open spec fn placement_denial(
    policy: &OrchestrationPolicy,
    agent: Seq<char>,
    sandbox: Option<Seq<char>>,
) -> Option<SpawnDeniedView> {
    if !allowed(policy.allow_agents.deep_view(), policy.deny_agents.deep_view(), agent) {
        Some(SpawnDeniedView::AgentNotAllowed { agent })
    } else if sandbox is Some && !allowed(
        policy.allow_sandboxes.deep_view(),
        policy.deny_sandboxes.deep_view(),
        sandbox->0,
    ) {
        Some(SpawnDeniedView::SandboxNotAllowed { sandbox: sandbox->0 })
    } else {
        None
    }
}

/// Checks the agent and the sandbox that a launch is about to use, once every
/// fallback has been resolved, against the lists that an explicit request is held
/// to.
pub fn check_effective_placement(policy: &OrchestrationPolicy, agent: &str, sandbox: Option<&str>) -> (verdict: Result<
    (),
    SpawnDenied,
>)
    ensures
        match verdict {
            Ok(()) => placement_denial(policy, agent@, sandbox.deep_view()) is None,
            Err(denied) => placement_denial(policy, agent@, sandbox.deep_view()) == Some(denied@),
        },
{
    if !list_allows(&policy.allow_agents, &policy.deny_agents, agent) {
        return Err(SpawnDenied::AgentNotAllowed { agent: agent.to_owned() });
    }
    if let Some(name) = sandbox {
        if !list_allows(&policy.allow_sandboxes, &policy.deny_sandboxes, name) {
            return Err(SpawnDenied::SandboxNotAllowed { sandbox: name.to_owned() });
        }
    }
    Ok(())
}

/// An accepted spawn.
#[derive(Debug, Clone, Copy, PartialEq, Eq, Structural)]
pub struct SpawnGrant {
    /// The depth the child will have.
    pub child_depth: u32,
}

// ---------------------------------------------------------------------------
// The ledger
// ---------------------------------------------------------------------------

/// The sum of the values of a map.
pub open spec fn total(counts: Map<Seq<char>, u32>) -> nat
    decreases counts.dom().len(),
    when counts.dom().finite()
{
    if counts.dom().len() == 0 {
        0
    } else {
        let key = counts.dom().choose();
        counts[key] as nat + total(counts.remove(key))
    }
}

/// Any entry can be taken out of the sum.
proof fn lemma_total_remove(counts: Map<Seq<char>, u32>, key: Seq<char>)
    requires
        counts.dom().finite(),
        counts.dom().contains(key),
    ensures
        total(counts) == counts[key] + total(counts.remove(key)),
    decreases counts.dom().len(),
{
    let picked = counts.dom().choose();
    assert(counts.dom().contains(picked));
    if picked != key {
        lemma_total_remove(counts.remove(picked), key);
        lemma_total_remove(counts.remove(key), picked);
        assert(counts.remove(picked).remove(key) =~= counts.remove(key).remove(picked));
    }
}

/// What inserting an entry does to the sum.
proof fn lemma_total_insert(counts: Map<Seq<char>, u32>, key: Seq<char>, value: u32)
    requires
        counts.dom().finite(),
    ensures
        counts.insert(key, value).dom().finite(),
        total(counts.insert(key, value)) == total(counts) + value - count_in(counts, key),
{
    let inserted = counts.insert(key, value);
    lemma_total_remove(inserted, key);
    if counts.dom().contains(key) {
        lemma_total_remove(counts, key);
        assert(inserted.remove(key) =~= counts.remove(key));
    } else {
        assert(inserted.remove(key) =~= counts);
    }
}

/// The value under `key`, or zero.
pub open spec fn count_in(counts: Map<Seq<char>, u32>, key: Seq<char>) -> nat {
    if counts.dom().contains(key) {
        counts[key] as nat
    } else {
        0
    }
}

/// What a [`SpawnLedger`] has counted.
pub struct LedgerView {
    /// Sub-tasks spawned so far.
    pub spawned: nat,
    /// Children of each parent that has spawned.
    pub children: Map<Seq<char>, u32>,
}

impl LedgerView {
    /// How many children `parent` has.
    pub open spec fn count(self, parent: Seq<char>) -> nat {
        count_in(self.children, parent)
    }

    /// Whether the total is the sum of all the children.
    pub open spec fn balanced(self) -> bool {
        self.children.dom().finite() && total(self.children) == self.spawned
    }

    /// The ledger before anything was spawned.
    pub open spec fn empty() -> LedgerView {
        LedgerView { spawned: 0, children: Map::empty() }
    }

    /// The ledger once `parent` has spawned one more child.
    pub open spec fn recorded(self, parent: Seq<char>) -> LedgerView {
        LedgerView {
            spawned: self.spawned + 1,
            children: self.children.insert(parent, (self.count(parent) + 1) as u32),
        }
    }

    /// The ledger once one child of `parent` has been taken back, where it has any.
    pub open spec fn unrecorded(self, parent: Seq<char>) -> LedgerView {
        if self.count(parent) > 0 {
            LedgerView {
                spawned: (self.spawned - 1) as nat,
                children: self.children.insert(parent, (self.count(parent) - 1) as u32),
            }
        } else {
            self
        }
    }

    /// Whether two ledgers count the same for every parent.
    pub open spec fn agrees(self, other: LedgerView) -> bool {
        self.spawned == other.spawned && forall|parent: Seq<char>| #[trigger]
            self.count(parent) == other.count(parent)
    }
}

/// No parent has more children than there are sub-tasks.
pub proof fn law_count_within_total(ledger: LedgerView, parent: Seq<char>)
    requires
        ledger.balanced(),
    ensures
        ledger.count(parent) <= ledger.spawned,
{
    if ledger.children.dom().contains(parent) {
        lemma_total_remove(ledger.children, parent);
    }
}

/// Counts of sub-tasks over one root run.
#[derive(Debug)]
pub struct SpawnLedger {
    global_spawned: u32,
    children: StringMap<u32>,
}

impl View for SpawnLedger {
    type V = LedgerView;

    closed spec fn view(&self) -> LedgerView {
        LedgerView { spawned: self.global_spawned as nat, children: self.children@ }
    }
}

/// Why a spawn is refused, if it is. The tests come in this order: spawning is
/// off, depth, fan-out, budget, agent, route, sandbox, approval.
pub open spec fn denial(
    policy: &OrchestrationPolicy,
    ledger: LedgerView,
    parent: Seq<char>,
    parent_depth: nat,
    req: &SpawnRequest,
) -> Option<SpawnDeniedView> {
    let child_depth = parent_depth + 1;
    if !policy.enabled {
        Some(SpawnDeniedView::Disabled)
    } else if child_depth > policy.max_depth {
        Some(SpawnDeniedView::DepthExceeded { attempted: child_depth as u32, max: policy.max_depth })
    } else if ledger.count(parent) + 1 > policy.max_fanout {
        Some(SpawnDeniedView::FanoutExceeded { parent, max: policy.max_fanout })
    } else if ledger.spawned + 1 > policy.global_child_budget {
        Some(
            SpawnDeniedView::BudgetExceeded {
                spent: ledger.spawned as u32,
                budget: policy.global_child_budget,
            },
        )
    } else if req.agent is Some && !allowed(
        policy.allow_agents.deep_view(),
        policy.deny_agents.deep_view(),
        req.agent->0@,
    ) {
        Some(SpawnDeniedView::AgentNotAllowed { agent: req.agent->0@ })
    } else if req.route is Some && !glob_allowed(
        policy.allow_routes.deep_view(),
        policy.deny_routes.deep_view(),
        req.route->0@,
    ) {
        Some(SpawnDeniedView::RouteNotAllowed { route: req.route->0@ })
    } else if req.sandbox is Some && !allowed(
        policy.allow_sandboxes.deep_view(),
        policy.deny_sandboxes.deep_view(),
        req.sandbox->0@,
    ) {
        Some(SpawnDeniedView::SandboxNotAllowed { sandbox: req.sandbox->0@ })
    } else if policy.require_approval_at_depth == Some(child_depth as u32) && !req.approved {
        Some(SpawnDeniedView::ApprovalRequired { depth: child_depth as u32 })
    } else {
        None
    }
}

impl SpawnLedger {
    #[verifier::type_invariant]
    spec fn in_balance(self) -> bool {
        self.children@.dom().finite() && total(self.children@) == self.global_spawned
    }

    /// A ledger in which nothing has been spawned.
    pub fn new() -> (ledger: Self)
        ensures
            ledger@ == LedgerView::empty(),
    {
        SpawnLedger { global_spawned: 0, children: StringMap::new() }
    }

    /// How many sub-tasks have been spawned.
    pub fn global_spawned(&self) -> (count: u32)
        ensures
            count == self@.spawned,
            self@.balanced(),
    {
        proof {
            use_type_invariant(self);
        }
        self.global_spawned
    }

    /// How many children `parent` has.
    pub fn children_of(&self, parent: &str) -> (count: u32)
        ensures
            count == self@.count(parent@),
    {
        match self.children.get(parent) {
            Some(count) => *count,
            None => 0,
        }
    }

    /// Decides on a spawn without counting it.
    pub fn authorize(&self, policy: &OrchestrationPolicy, ctx: &SpawnContext, req: &SpawnRequest) -> (verdict: Result<
        SpawnGrant,
        SpawnDenied,
    >)
        requires
            policy.enabled ==> ctx.parent_depth < u32::MAX,
        ensures
            match verdict {
                Ok(grant) => {
                    &&& denial(policy, self@, ctx.parent_id@, ctx.parent_depth as nat, req) is None
                    &&& grant.child_depth == ctx.parent_depth + 1
                },
                Err(denied) => denial(policy, self@, ctx.parent_id@, ctx.parent_depth as nat, req) == Some(
                    denied@,
                ),
            },
    {
        if !policy.enabled {
            return Err(SpawnDenied::Disabled);
        }
        let child_depth: u32 = ctx.parent_depth + 1;
        if child_depth > policy.max_depth {
            return Err(SpawnDenied::DepthExceeded { attempted: child_depth, max: policy.max_depth });
        }
        if self.children_of(ctx.parent_id.as_str()) >= policy.max_fanout {
            return Err(SpawnDenied::FanoutExceeded { parent: ctx.parent_id.clone(), max: policy.max_fanout });
        }
        if self.global_spawned >= policy.global_child_budget {
            return Err(
                SpawnDenied::BudgetExceeded { spent: self.global_spawned, budget: policy.global_child_budget },
            );
        }
        if let Some(agent) = &req.agent {
            if !list_allows(&policy.allow_agents, &policy.deny_agents, agent.as_str()) {
                return Err(SpawnDenied::AgentNotAllowed { agent: agent.clone() });
            }
        }
        if let Some(route) = &req.route {
            if !glob_list_allows(&policy.allow_routes, &policy.deny_routes, route.as_str()) {
                return Err(SpawnDenied::RouteNotAllowed { route: route.clone() });
            }
        }
        if let Some(sandbox) = &req.sandbox {
            if !list_allows(&policy.allow_sandboxes, &policy.deny_sandboxes, sandbox.as_str()) {
                return Err(SpawnDenied::SandboxNotAllowed { sandbox: sandbox.clone() });
            }
        }
        if let Some(gate_depth) = policy.require_approval_at_depth {
            if child_depth == gate_depth && !req.approved {
                return Err(SpawnDenied::ApprovalRequired { depth: child_depth });
            }
        }
        Ok(SpawnGrant { child_depth })
    }

    /// Counts a spawn by `parent`.
    pub fn record(&mut self, parent: &str)
        requires
            old(self)@.spawned < u32::MAX,
        ensures
            final(self)@ == old(self)@.recorded(parent@),
    {
        proof {
            use_type_invariant(&*self);
            law_count_within_total(self@, parent@);
        }
        let count: u32 = self.children_of(parent);
        let mut taken = SpawnLedger::new();
        std::mem::swap(self, &mut taken);
        let SpawnLedger { global_spawned, mut children } = taken;
        proof {
            lemma_total_insert(children@, parent@, (count + 1) as u32);
        }
        children.insert(parent.to_owned(), count + 1);
        *self = SpawnLedger { global_spawned: global_spawned + 1, children };
    }

    /// Takes back one spawn by `parent`, where there is any.
    pub fn unrecord(&mut self, parent: &str)
        ensures
            final(self)@ == old(self)@.unrecorded(parent@),
    {
        proof {
            use_type_invariant(&*self);
            law_count_within_total(self@, parent@);
        }
        let count: u32 = self.children_of(parent);
        if count > 0 {
            let mut taken = SpawnLedger::new();
            std::mem::swap(self, &mut taken);
            let SpawnLedger { global_spawned, mut children } = taken;
            proof {
                lemma_total_insert(children@, parent@, (count - 1) as u32);
            }
            children.insert(parent.to_owned(), count - 1);
            *self = SpawnLedger { global_spawned: global_spawned - 1, children };
        }
    }

    /// Decides on a spawn and, where it is granted, counts it.
    pub fn authorize_and_record(
        &mut self,
        policy: &OrchestrationPolicy,
        ctx: &SpawnContext,
        req: &SpawnRequest,
    ) -> (verdict: Result<SpawnGrant, SpawnDenied>)
        requires
            policy.enabled ==> ctx.parent_depth < u32::MAX,
        ensures
            match verdict {
                Ok(grant) => {
                    &&& denial(policy, old(self)@, ctx.parent_id@, ctx.parent_depth as nat, req) is None
                    &&& grant.child_depth == ctx.parent_depth + 1
                    &&& final(self)@ == old(self)@.recorded(ctx.parent_id@)
                    &&& final(self)@.spawned == old(self)@.spawned + 1
                },
                Err(denied) => {
                    &&& denial(policy, old(self)@, ctx.parent_id@, ctx.parent_depth as nat, req) == Some(denied@)
                    &&& final(self)@ == old(self)@
                },
            },
    {
        match self.authorize(policy, ctx, req) {
            Ok(grant) => {
                self.record(ctx.parent_id.as_str());
                Ok(grant)
            },
            Err(denied) => Err(denied),
        }
    }
}

// ---------------------------------------------------------------------------
// Laws of the ledger
// ---------------------------------------------------------------------------

/// Taking back a spawn that was just counted leaves every count as it was.
pub proof fn law_unrecord_undoes_record(ledger: LedgerView, parent: Seq<char>)
    requires
        ledger.count(parent) < u32::MAX,
    ensures
        ledger.recorded(parent).unrecorded(parent).agrees(ledger),
{
    let undone = ledger.recorded(parent).unrecorded(parent);
    assert forall|other: Seq<char>| #[trigger] undone.count(other) == ledger.count(other) by {
        if other != parent {
            assert(undone.children.dom().contains(other) == ledger.children.dom().contains(other));
        }
    }
}

/// Counting keeps the total equal to the sum of the children.
pub proof fn law_record_keeps_balance(ledger: LedgerView, parent: Seq<char>)
    requires
        ledger.balanced(),
        ledger.spawned < u32::MAX,
    ensures
        LedgerView::empty().balanced(),
        ledger.recorded(parent).balanced(),
{
    law_count_within_total(ledger, parent);
    lemma_total_insert(ledger.children, parent, (ledger.count(parent) + 1) as u32);
}

/// Taking back keeps the total equal to the sum of the children.
pub proof fn law_unrecord_keeps_balance(ledger: LedgerView, parent: Seq<char>)
    requires
        ledger.balanced(),
    ensures
        ledger.unrecorded(parent).balanced(),
{
    law_count_within_total(ledger, parent);
    if ledger.count(parent) > 0 {
        lemma_total_insert(ledger.children, parent, (ledger.count(parent) - 1) as u32);
    }
}

/// Whether no bound of the policy is exceeded.
pub open spec fn within_caps(policy: &OrchestrationPolicy, ledger: LedgerView) -> bool {
    &&& ledger.spawned <= policy.global_child_budget
    &&& forall|parent: Seq<char>| #[trigger] ledger.count(parent) <= policy.max_fanout
}

/// The bounds hold of the empty ledger, and a granted spawn, once counted, keeps
/// within them; its child is no deeper than the policy allows.
pub proof fn law_grants_stay_within_caps(
    policy: &OrchestrationPolicy,
    ledger: LedgerView,
    parent: Seq<char>,
    parent_depth: nat,
    req: &SpawnRequest,
)
    requires
        ledger.balanced(),
        within_caps(policy, ledger),
        denial(policy, ledger, parent, parent_depth, req) is None,
    ensures
        within_caps(policy, LedgerView::empty()),
        within_caps(policy, ledger.recorded(parent)),
        within_caps(policy, ledger.unrecorded(parent)),
        parent_depth + 1 <= policy.max_depth,
{
    let recorded = ledger.recorded(parent);
    assert forall|other: Seq<char>| #[trigger] recorded.count(other) <= policy.max_fanout by {
        if other != parent {
            assert(recorded.count(other) == ledger.count(other));
        }
    }
    law_count_within_total(ledger, parent);
    let unrecorded = ledger.unrecorded(parent);
    assert forall|other: Seq<char>| #[trigger] unrecorded.count(other) <= policy.max_fanout by {
        assert(ledger.count(other) <= policy.max_fanout);
        assert(ledger.count(parent) <= policy.max_fanout);
        if other != parent {
            assert(unrecorded.count(other) == ledger.count(other));
        }
    }
}

/// A spent bound refuses every further spawn, whatever is requested: a policy that
/// is off, a full depth, a full fan-out and an empty budget are never passed over.
pub proof fn law_spent_bounds_refuse(
    policy: &OrchestrationPolicy,
    ledger: LedgerView,
    parent: Seq<char>,
    parent_depth: nat,
    req: &SpawnRequest,
)
    ensures
        !policy.enabled || parent_depth >= policy.max_depth || ledger.count(parent) >= policy.max_fanout
            || ledger.spawned >= policy.global_child_budget ==> denial(
            policy,
            ledger,
            parent,
            parent_depth,
            req,
        ) is Some,
{
}

// ---------------------------------------------------------------------------
// Laws of requests
// ---------------------------------------------------------------------------

/// Whether `value` stands on a list.
pub open spec fn on_list(list: &Vec<String>, value: Seq<char>) -> bool {
    exists|i: int| 0 <= i < list@.len() && #[trigger] list@[i]@ == value
}

/// Whether a pattern of a list takes in `value`.
pub open spec fn on_patterns(list: &Vec<String>, value: Seq<char>) -> bool {
    exists|i: int| 0 <= i < list@.len() && glob_matches_spec(#[trigger] list@[i]@, value)
}

/// A list of texts holds what stands at one of its places.
pub proof fn lemma_on_list(list: &Vec<String>, value: Seq<char>)
    ensures
        on_list(list, value) == list.deep_view().contains(value),
        on_patterns(list, value) == some_glob_matches(list.deep_view(), value),
{
    let texts = list.deep_view();
    if on_list(list, value) {
        let i = choose|i: int| 0 <= i < list@.len() && #[trigger] list@[i]@ == value;
        assert(texts[i] == value);
    }
    if texts.contains(value) {
        let i = choose|i: int| 0 <= i < texts.len() && texts[i] == value;
        assert(list@[i]@ == value);
    }
    if on_patterns(list, value) {
        let i = choose|i: int| 0 <= i < list@.len() && glob_matches_spec(#[trigger] list@[i]@, value);
        assert(glob_matches_spec(texts[i], value));
    }
    if some_glob_matches(texts, value) {
        let i = choose|i: int| 0 <= i < texts.len() && glob_matches_spec(#[trigger] texts[i], value);
        assert(glob_matches_spec(list@[i]@, value));
    }
}

/// What may be decided by a list is what is not on the deny-list and, unless the
/// allow-list is empty, on the allow-list. For routes, to be on a list is to be taken in
/// by a pattern of it.
pub proof fn law_lists_decide(allow: &Vec<String>, deny: &Vec<String>, value: &str, plain: bool, by_pattern: bool)
    requires
        call_ensures(list_allows, (allow, deny, value), plain),
        call_ensures(glob_list_allows, (allow, deny, value), by_pattern),
    ensures
        plain <==> !on_list(deny, value@) && (allow@.len() > 0 ==> on_list(allow, value@)),
        by_pattern <==> !on_patterns(deny, value@) && (allow@.len() > 0 ==> on_patterns(allow, value@)),
{
    lemma_on_list(allow, value@);
    lemma_on_list(deny, value@);
}

/// A spawn is granted exactly where spawning is on, the child would be no deeper than the
/// policy allows, its parent and the run have room for one more, the agent, the sandbox
/// and the route that it asks for are each not on the deny-list and, unless the allow-list
/// is empty, on the allow-list, and, at the depth that needs approval, it is approved. The
/// child then sits one below its parent.
pub proof fn law_grants_respect_the_policy(
    ledger: &SpawnLedger,
    policy: &OrchestrationPolicy,
    ctx: &SpawnContext,
    req: &SpawnRequest,
    verdict: Result<SpawnGrant, SpawnDenied>,
)
    requires
        policy.enabled ==> ctx.parent_depth < u32::MAX,
        call_ensures(SpawnLedger::authorize, (ledger, policy, ctx, req), verdict),
    ensures
        verdict is Ok <==> {
            &&& policy.enabled
            &&& ctx.parent_depth < policy.max_depth
            &&& (ledger@.children.dom().contains(ctx.parent_id@) ==> ledger@.children[ctx.parent_id@] < policy.max_fanout)
            &&& policy.max_fanout > 0
            &&& ledger@.spawned < policy.global_child_budget
            &&& req.agent matches Some(agent) ==> !on_list(&policy.deny_agents, agent@) && (policy.allow_agents@.len()
                > 0 ==> on_list(&policy.allow_agents, agent@))
            &&& req.sandbox matches Some(sandbox) ==> !on_list(&policy.deny_sandboxes, sandbox@) && (
            policy.allow_sandboxes@.len() > 0 ==> on_list(&policy.allow_sandboxes, sandbox@))
            &&& req.route matches Some(route) ==> !on_patterns(&policy.deny_routes, route@) && (
            policy.allow_routes@.len() > 0 ==> on_patterns(&policy.allow_routes, route@))
            &&& policy.require_approval_at_depth matches Some(depth) ==> depth == ctx.parent_depth + 1 ==> req.approved
        },
        verdict matches Ok(grant) ==> grant.child_depth == ctx.parent_depth + 1,
{
    if let Some(agent) = req.agent {
        lemma_on_list(&policy.deny_agents, agent@);
        lemma_on_list(&policy.allow_agents, agent@);
    }
    if let Some(sandbox) = req.sandbox {
        lemma_on_list(&policy.deny_sandboxes, sandbox@);
        lemma_on_list(&policy.allow_sandboxes, sandbox@);
    }
    if let Some(route) = req.route {
        lemma_on_list(&policy.deny_routes, route@);
        lemma_on_list(&policy.allow_routes, route@);
    }
}

/// A refusal names what stands against the spawn, and what it names does stand against
/// it.
pub proof fn law_refusals_are_true(
    ledger: &SpawnLedger,
    policy: &OrchestrationPolicy,
    ctx: &SpawnContext,
    req: &SpawnRequest,
    denied: SpawnDenied,
)
    requires
        policy.enabled ==> ctx.parent_depth < u32::MAX,
        call_ensures(SpawnLedger::authorize, (ledger, policy, ctx, req), Err::<SpawnGrant, SpawnDenied>(denied)),
    ensures
        !policy.enabled <==> denied is Disabled,
        match denied {
            SpawnDenied::Disabled => !policy.enabled,
            SpawnDenied::DepthExceeded { attempted, max } => max == policy.max_depth && attempted == ctx.parent_depth
                + 1 && attempted > max,
            SpawnDenied::FanoutExceeded { parent, max } => parent@ == ctx.parent_id@ && max == policy.max_fanout && (max
                == 0 || ledger@.children.dom().contains(parent@) && ledger@.children[parent@] >= max),
            SpawnDenied::BudgetExceeded { spent, budget } => spent as nat == ledger@.spawned && budget
                == policy.global_child_budget && spent >= budget,
            SpawnDenied::AgentNotAllowed { agent } => req.agent is Some && req.agent->0@ == agent@ && (on_list(
                &policy.deny_agents,
                agent@,
            ) || policy.allow_agents@.len() > 0 && !on_list(&policy.allow_agents, agent@)),
            SpawnDenied::RouteNotAllowed { route } => req.route is Some && req.route->0@ == route@ && (on_patterns(
                &policy.deny_routes,
                route@,
            ) || policy.allow_routes@.len() > 0 && !on_patterns(&policy.allow_routes, route@)),
            SpawnDenied::SandboxNotAllowed { sandbox } => req.sandbox is Some && req.sandbox->0@ == sandbox@ && (on_list(
                &policy.deny_sandboxes,
                sandbox@,
            ) || policy.allow_sandboxes@.len() > 0 && !on_list(&policy.allow_sandboxes, sandbox@)),
            SpawnDenied::ApprovalRequired { depth } => policy.require_approval_at_depth == Some(depth) && depth
                == ctx.parent_depth + 1 && !req.approved,
        },
{
    if let Some(agent) = req.agent {
        lemma_on_list(&policy.deny_agents, agent@);
        lemma_on_list(&policy.allow_agents, agent@);
    }
    if let Some(sandbox) = req.sandbox {
        lemma_on_list(&policy.deny_sandboxes, sandbox@);
        lemma_on_list(&policy.allow_sandboxes, sandbox@);
    }
    if let Some(route) = req.route {
        lemma_on_list(&policy.deny_routes, route@);
        lemma_on_list(&policy.allow_routes, route@);
    }
}

/// Of several reasons against a spawn, the first in this order is given: spawning is off,
/// depth, children of the parent, sub-tasks of the run, agent, route, sandbox, approval.
pub proof fn law_the_first_reason_is_given(
    ledger: &SpawnLedger,
    policy: &OrchestrationPolicy,
    ctx: &SpawnContext,
    req: &SpawnRequest,
    denied: SpawnDenied,
)
    requires
        policy.enabled ==> ctx.parent_depth < u32::MAX,
        call_ensures(SpawnLedger::authorize, (ledger, policy, ctx, req), Err::<SpawnGrant, SpawnDenied>(denied)),
    ensures
        ({
            let rank: int = match denied {
                SpawnDenied::Disabled => 0,
                SpawnDenied::DepthExceeded { .. } => 1,
                SpawnDenied::FanoutExceeded { .. } => 2,
                SpawnDenied::BudgetExceeded { .. } => 3,
                SpawnDenied::AgentNotAllowed { .. } => 4,
                SpawnDenied::RouteNotAllowed { .. } => 5,
                SpawnDenied::SandboxNotAllowed { .. } => 6,
                SpawnDenied::ApprovalRequired { .. } => 7,
            };
            &&& !policy.enabled ==> rank == 0
            &&& ctx.parent_depth >= policy.max_depth ==> rank <= 1
            &&& ledger@.children.dom().contains(ctx.parent_id@) && ledger@.children[ctx.parent_id@]
                >= policy.max_fanout ==> rank <= 2
            &&& ledger@.spawned >= policy.global_child_budget ==> rank <= 3
            &&& req.agent matches Some(agent) ==> on_list(&policy.deny_agents, agent@) ==> rank <= 4
            &&& req.agent matches Some(agent) ==> policy.allow_agents@.len() > 0 && !on_list(
                &policy.allow_agents,
                agent@,
            ) ==> rank <= 4
            &&& req.route matches Some(route) ==> on_patterns(&policy.deny_routes, route@) ==> rank <= 5
            &&& req.route matches Some(route) ==> policy.allow_routes@.len() > 0 && !on_patterns(
                &policy.allow_routes,
                route@,
            ) ==> rank <= 5
            &&& req.sandbox matches Some(sandbox) ==> on_list(&policy.deny_sandboxes, sandbox@) ==> rank <= 6
            &&& req.sandbox matches Some(sandbox) ==> policy.allow_sandboxes@.len() > 0 && !on_list(
                &policy.allow_sandboxes,
                sandbox@,
            ) ==> rank <= 6
        }),
{
    if let Some(agent) = req.agent {
        lemma_on_list(&policy.deny_agents, agent@);
        lemma_on_list(&policy.allow_agents, agent@);
    }
    if let Some(sandbox) = req.sandbox {
        lemma_on_list(&policy.deny_sandboxes, sandbox@);
        lemma_on_list(&policy.allow_sandboxes, sandbox@);
    }
    if let Some(route) = req.route {
        lemma_on_list(&policy.deny_routes, route@);
        lemma_on_list(&policy.allow_routes, route@);
    }
}

/// A placement is accepted exactly where its agent and, where it has one, its sandbox are
/// each not on the deny-list and, unless the allow-list is empty, on the allow-list. The
/// refusal names the agent where that is not allowed, and the sandbox otherwise.
pub proof fn law_placements_respect_the_lists(
    policy: &OrchestrationPolicy,
    agent: &str,
    sandbox: Option<&str>,
    verdict: Result<(), SpawnDenied>,
)
    requires
        call_ensures(check_effective_placement, (policy, agent, sandbox), verdict),
    ensures
        ({
            let agent_may = !on_list(&policy.deny_agents, agent@) && (policy.allow_agents@.len() > 0 ==> on_list(
                &policy.allow_agents,
                agent@,
            ));
            let sandbox_may = sandbox matches Some(name) ==> !on_list(&policy.deny_sandboxes, name@) && (
            policy.allow_sandboxes@.len() > 0 ==> on_list(&policy.allow_sandboxes, name@));
            match verdict {
                Ok(()) => agent_may && sandbox_may,
                Err(SpawnDenied::AgentNotAllowed { agent: named }) => !agent_may && named@ == agent@,
                Err(SpawnDenied::SandboxNotAllowed { sandbox: named }) => agent_may && !sandbox_may && named@
                    == sandbox->0@,
                Err(_) => false,
            }
        }),
{
    lemma_on_list(&policy.deny_agents, agent@);
    lemma_on_list(&policy.allow_agents, agent@);
    if let Some(name) = sandbox {
        lemma_on_list(&policy.deny_sandboxes, name@);
        lemma_on_list(&policy.allow_sandboxes, name@);
    }
}

/// A refusal in words says what is refused: the parent, the agent, the route or the
/// sandbox by its name, and the bound that was met.
pub proof fn law_refusals_name_what_is_refused(denied: &SpawnDenied, text: String)
    requires
        call_ensures(SpawnDenied::to_string, (denied,), text),
    ensures
        match denied {
            SpawnDenied::Disabled => true,
            SpawnDenied::DepthExceeded { attempted, max } => holds_in_order(
                text@,
                seq![decimal(*attempted as nat), decimal(*max as nat)],
            ),
            SpawnDenied::FanoutExceeded { parent, max } => holds_in_order(text@, seq![parent@, decimal(*max as nat)]),
            SpawnDenied::BudgetExceeded { spent, budget } => holds_in_order(
                text@,
                seq![decimal(*spent as nat), decimal(*budget as nat)],
            ),
            SpawnDenied::AgentNotAllowed { agent } => holds(text@, "agent '"@ + agent@ + "'"@),
            SpawnDenied::RouteNotAllowed { route } => holds(text@, "route '"@ + route@ + "'"@),
            SpawnDenied::SandboxNotAllowed { sandbox } => holds(text@, "sandbox '"@ + sandbox@ + "'"@),
            SpawnDenied::ApprovalRequired { depth } => holds(text@, decimal(*depth as nat)),
        },
{
    match denied {
        SpawnDenied::Disabled => {},
        SpawnDenied::DepthExceeded { attempted, max } => {
            lemma_two_in_order(
                "spawn denied: child depth "@,
                decimal(*attempted as nat),
                " exceeds max_depth "@,
                decimal(*max as nat),
                " (recursion cap)"@,
            );
        },
        SpawnDenied::FanoutExceeded { parent, max } => {
            lemma_two_in_order(
                "spawn denied: parent '"@,
                parent@,
                "' already has max_fanout "@,
                decimal(*max as nat),
                " children"@,
            );
        },
        SpawnDenied::BudgetExceeded { spent, budget } => {
            lemma_two_in_order(
                "spawn denied: global child budget exhausted ("@,
                decimal(*spent as nat),
                "/"@,
                decimal(*budget as nat),
                " spent)"@,
            );
        },
        SpawnDenied::AgentNotAllowed { agent } => {
            reveal_strlit("spawn denied: agent '");
            reveal_strlit("agent '");
            reveal_strlit("'");
            reveal_strlit("' is not permitted by policy");
            lemma_holds_within("spawn denied: "@, "agent '"@ + agent@ + "'"@, " is not permitted by policy"@);
            reveal_strlit("spawn denied: ");
            reveal_strlit(" is not permitted by policy");
            assert(text@ =~= "spawn denied: "@ + ("agent '"@ + agent@ + "'"@) + " is not permitted by policy"@);
        },
        SpawnDenied::RouteNotAllowed { route } => {
            reveal_strlit("spawn denied: route '");
            reveal_strlit("route '");
            reveal_strlit("'");
            reveal_strlit("' is not permitted by policy");
            lemma_holds_within("spawn denied: "@, "route '"@ + route@ + "'"@, " is not permitted by policy"@);
            reveal_strlit("spawn denied: ");
            reveal_strlit(" is not permitted by policy");
            assert(text@ =~= "spawn denied: "@ + ("route '"@ + route@ + "'"@) + " is not permitted by policy"@);
        },
        SpawnDenied::SandboxNotAllowed { sandbox } => {
            reveal_strlit("spawn denied: sandbox '");
            reveal_strlit("sandbox '");
            reveal_strlit("'");
            reveal_strlit(
                "' is not permitted by policy (a subtask must run in an isolating sibling box, never `local`)",
            );
            let after =
                " is not permitted by policy (a subtask must run in an isolating sibling box, never `local`)"@;
            reveal_strlit(
                " is not permitted by policy (a subtask must run in an isolating sibling box, never `local`)",
            );
            lemma_holds_within("spawn denied: "@, "sandbox '"@ + sandbox@ + "'"@, after);
            reveal_strlit("spawn denied: ");
            assert(text@ =~= "spawn denied: "@ + ("sandbox '"@ + sandbox@ + "'"@) + after);
        },
        SpawnDenied::ApprovalRequired { depth } => {
            lemma_holds_within(
                "spawn denied: spawns at depth "@,
                decimal(*depth as nat),
                " require human approval"@,
            );
        },
    }
}

/// To count a spawn adds one to the total and one to the children of the parent, and to
/// take one back takes one off both, where the parent has any child; every other parent
/// keeps its children.
pub proof fn law_a_spawn_counts_for_its_parent_alone(ledger: LedgerView, parent: Seq<char>, other: Seq<char>)
    requires
        ledger.balanced(),
        ledger.spawned < u32::MAX,
        other != parent,
    ensures
        ledger.recorded(parent).spawned == ledger.spawned + 1,
        ledger.recorded(parent).children.dom().contains(parent),
        ledger.recorded(parent).children[parent] as int == (if ledger.children.dom().contains(parent) {
            ledger.children[parent] + 1
        } else {
            1
        }),
        ledger.recorded(parent).children.dom().contains(other) == ledger.children.dom().contains(other),
        ledger.recorded(parent).children[other] == ledger.children[other],
        ledger.children.dom().contains(parent) && ledger.children[parent] > 0 ==> {
            &&& ledger.unrecorded(parent).spawned == ledger.spawned - 1
            &&& ledger.unrecorded(parent).children[parent] == ledger.children[parent] - 1
            &&& ledger.unrecorded(parent).children[other] == ledger.children[other]
            &&& ledger.unrecorded(parent).children.dom() == ledger.children.dom()
        },
        !ledger.children.dom().contains(parent) || ledger.children[parent] == 0 ==> ledger.unrecorded(parent) == ledger,
{
    law_count_within_total(ledger, parent);
    if ledger.children.dom().contains(parent) && ledger.children[parent] > 0 {
        assert(ledger.unrecorded(parent).children.dom() =~= ledger.children.dom());
    }
}

/// The ledger answers for a parent what it has counted for it.
pub proof fn law_children_are_those_counted(ledger: &SpawnLedger, parent: &str, count: u32)
    requires
        call_ensures(SpawnLedger::children_of, (ledger, parent), count),
    ensures
        count == (if ledger@.children.dom().contains(parent@) {
            ledger@.children[parent@]
        } else {
            0
        }),
{
}

/// A sub-task runs in the sandbox that it asks for, and only where it asks for none in
/// that of the policy.
pub proof fn law_a_requested_sandbox_comes_first(
    requested: Option<&str>,
    policy: &OrchestrationPolicy,
    sandbox: Option<String>,
)
    requires
        call_ensures(spawn_sandbox_override, (requested, policy), sandbox),
    ensures
        requested matches Some(name) ==> sandbox is Some && sandbox->0@ == name@,
        requested is None ==> sandbox is Some == policy.default_worker_sandbox is Some,
        requested is None && sandbox is Some ==> sandbox->0@ == policy.default_worker_sandbox->0@,
{
}

/// A spawn is counted where it is granted, and nowhere else: for its parent alone.
pub proof fn law_granted_spawns_are_counted(
    before: SpawnLedger,
    after: SpawnLedger,
    policy: &OrchestrationPolicy,
    ctx: &SpawnContext,
    req: &SpawnRequest,
    verdict: Result<SpawnGrant, SpawnDenied>,
    other: Seq<char>,
)
    requires
        policy.enabled ==> ctx.parent_depth < u32::MAX,
        before@.balanced(),
        other != ctx.parent_id@,
        exists|ledger: &mut SpawnLedger|
            *ledger == before && *final(ledger) == after && #[trigger] call_ensures(
                SpawnLedger::authorize_and_record,
                (ledger, policy, ctx, req),
                verdict,
            ),
    ensures
        verdict is Err ==> after@ == before@,
        verdict matches Ok(grant) ==> {
            &&& grant.child_depth == ctx.parent_depth + 1
            &&& after@.spawned == before@.spawned + 1
            &&& after@.spawned <= policy.global_child_budget
            &&& after@.children.dom().contains(ctx.parent_id@)
            &&& after@.children[ctx.parent_id@] as int == before@.count(ctx.parent_id@) + 1
            &&& after@.children[ctx.parent_id@] <= policy.max_fanout
            &&& after@.children.dom().contains(other) == before@.children.dom().contains(other)
            &&& after@.children[other] == before@.children[other]
        },
{
    law_count_within_total(before@, ctx.parent_id@);
    if verdict is Ok {
        law_a_spawn_counts_for_its_parent_alone(before@, ctx.parent_id@, other);
    }
}

/// Counting a spawn and taking it back go by the parent that is named.
pub proof fn law_counts_go_by_the_parent(
    before: SpawnLedger,
    recorded: SpawnLedger,
    unrecorded: SpawnLedger,
    parent: &str,
    other: Seq<char>,
)
    requires
        before@.balanced(),
        before@.spawned < u32::MAX,
        other != parent@,
        exists|ledger: &mut SpawnLedger|
            *ledger == before && *final(ledger) == recorded && #[trigger] call_ensures(
                SpawnLedger::record,
                (ledger, parent),
                (),
            ),
        exists|ledger: &mut SpawnLedger|
            *ledger == before && *final(ledger) == unrecorded && #[trigger] call_ensures(
                SpawnLedger::unrecord,
                (ledger, parent),
                (),
            ),
    ensures
        recorded@.spawned == before@.spawned + 1,
        recorded@.count(parent@) == before@.count(parent@) + 1,
        recorded@.count(other) == before@.count(other),
        before@.count(parent@) > 0 ==> unrecorded@.spawned == before@.spawned - 1 && unrecorded@.count(parent@)
            == before@.count(parent@) - 1,
        before@.count(parent@) == 0 ==> unrecorded@ == before@,
        unrecorded@.count(other) == before@.count(other),
{
    law_count_within_total(before@, parent@);
    law_a_spawn_counts_for_its_parent_alone(before@, parent@, other);
}

/// The default policy is the one that is told to be the default, and every policy that is told
/// so says the same: spawning is off, and `local` is denied.
pub proof fn law_one_policy_is_the_default(
    made: OrchestrationPolicy,
    policy: &OrchestrationPolicy,
    default: bool,
)
    requires
        call_ensures(<OrchestrationPolicy as Default>::default, (), made),
        call_ensures(OrchestrationPolicy::is_default, (policy,), default),
    ensures
        !made.enabled,
        made.deny_sandboxes@.len() == 1 && made.deny_sandboxes@[0]@ == "local"@,
        default <==> {
            &&& policy.enabled == made.enabled
            &&& policy.max_depth == made.max_depth
            &&& policy.max_fanout == made.max_fanout
            &&& policy.global_child_budget == made.global_child_budget
            &&& policy.allow_agents.deep_view() =~= made.allow_agents.deep_view()
            &&& policy.deny_agents.deep_view() =~= made.deny_agents.deep_view()
            &&& policy.allow_routes.deep_view() =~= made.allow_routes.deep_view()
            &&& policy.deny_routes.deep_view() =~= made.deny_routes.deep_view()
            &&& policy.allow_sandboxes.deep_view() =~= made.allow_sandboxes.deep_view()
            &&& policy.deny_sandboxes.deep_view() =~= made.deny_sandboxes.deep_view()
            &&& policy.require_approval_at_depth == made.require_approval_at_depth
            &&& policy.default_worker_sandbox is Some == made.default_worker_sandbox is Some
        },
{
    let denied = made.deny_sandboxes.deep_view();
    assert(denied.len() == 1);
    assert(denied[0] == made.deny_sandboxes@[0]@);
    assert(policy.allow_agents.deep_view().len() == policy.allow_agents@.len());
    assert(policy.deny_agents.deep_view().len() == policy.deny_agents@.len());
    assert(policy.allow_routes.deep_view().len() == policy.allow_routes@.len());
    assert(policy.deny_routes.deep_view().len() == policy.deny_routes@.len());
    assert(policy.allow_sandboxes.deep_view().len() == policy.allow_sandboxes@.len());
    assert(made.allow_agents.deep_view().len() == 0);
    assert(made.deny_agents.deep_view().len() == 0);
    assert(made.allow_routes.deep_view().len() == 0);
    assert(made.deny_routes.deep_view().len() == 0);
    assert(made.allow_sandboxes.deep_view().len() == 0);
}

} // verus!
