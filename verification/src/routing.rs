//! Which agent works on a task.
//!
//! The first route whose pattern matches the project decides which agents may work
//! on it. A task may ask for one of them; otherwise the first one whose prompt
//! budget is large enough takes it.

use vstd::prelude::*;
use vstd::string::*;

use crate::collect::duplicate_strings;
use crate::config::{route_sandbox, Config, Route};
use crate::orchestration::OrchestrationPolicy;
use crate::globs::{search, search_spec, GlobSearch};
use crate::task::TaskDocument;
use crate::text::{among, decimal, decimal_of, holds, holds_in_order, join, joined, trim, trimmed};

verus! {

/// The agent that a project is routed to, and what the route says about it.
#[derive(Debug, PartialEq, Eq)]
pub struct RouteMatch {
    pub agent: String,
    /// The role that the agent plays, where a role was chosen.
    pub role: Option<String>,
    pub role_instructions: Option<String>,
    pub glob: String,
    pub allowed_agents: Vec<String>,
    pub estimated_prompt_tokens: usize,
    pub sandbox: String,
    pub route_mounts: Vec<String>,
}

impl RouteMatch {
    /// The name under which the choice is reported: the role, or else the agent.
    pub open spec fn shown_name(&self) -> Seq<char> {
        match self.role {
            Some(role) => role@,
            None => self.agent@,
        }
    }

    /// The name under which the choice is reported: the role, or else the agent.
    pub fn display_name(&self) -> (name: &str)
        ensures
            name@ == self.shown_name(),
    {
        match &self.role {
            Some(role) => role.as_str(),
            None => self.agent.as_str(),
        }
    }
}

// ---------------------------------------------------------------------------
// Finding the route
// ---------------------------------------------------------------------------

/// The patterns of the routes, in order.
pub open spec fn route_globs(config: &Config) -> Seq<Seq<char>> {
    Seq::new(config.routes@.len(), |i: int| config.routes@[i].glob@)
}

/// What is reported where no route can be found.
pub open spec fn no_route_text(config: &Config, path: Seq<char>, found: GlobSearch) -> Seq<char> {
    match found {
        GlobSearch::Malformed(at) => "invalid route glob '"@ + route_globs(config)[at as int] + "'"@,
        GlobSearch::Unbuildable => "failed to build route matcher"@,
        _ => "no project route matched "@ + path,
    }
}

/// The position of the first route that matches `project_path`.
fn route_index(config: &Config, project_path: &str) -> (index: Result<usize, String>)
    ensures
        exists|found: GlobSearch| #[trigger]
            search_spec(route_globs(config), project_path@, found) && match index {
                Ok(at) => found == GlobSearch::First(at),
                Err(text) => !(found is First) && text@ == no_route_text(config, project_path@, found),
            },
{
    let mut globs: Vec<String> = Vec::new();
    let mut i: usize = 0;
    while i < config.routes.len()
        invariant
            i == globs@.len(),
            i <= config.routes@.len(),
            forall|j: int| 0 <= j < i ==> (#[trigger] globs@[j])@ == config.routes@[j].glob@,
        decreases config.routes@.len() - i,
    {
        globs.push(config.routes[i].glob.clone());
        i += 1;
    }
    assert(globs.deep_view() =~= route_globs(config));
    let found = search(&globs, project_path);
    assert(search_spec(route_globs(config), project_path@, found));
    match found {
        GlobSearch::First(at) => Ok(at),
        GlobSearch::Malformed(at) => Err(
            "invalid route glob '".to_owned().concat(globs[at].as_str()).concat("'"),
        ),
        GlobSearch::Unbuildable => Err("failed to build route matcher".to_owned()),
        GlobSearch::Nowhere => Err("no project route matched ".to_owned().concat(project_path)),
    }
}

/// Whether `route` is the first route that matches `path`, or `route` reports why
/// there is none.
pub open spec fn routes_to(config: &Config, path: Seq<char>, route: Result<&Route, String>) -> bool {
    exists|found: GlobSearch| #[trigger]
        search_spec(route_globs(config), path, found) && match route {
            Ok(route) => found is First && *route == config.routes@[found->First_0 as int],
            Err(text) => !(found is First) && text@ == no_route_text(config, path, found),
        }
}

/// The first route that matches `project_path`.
pub fn find_route<'a>(config: &'a Config, project_path: &str) -> (route: Result<&'a Route, String>)
    ensures
        routes_to(config, project_path@, route),
{
    match route_index(config, project_path) {
        Ok(at) => {
            assert(route_globs(config).len() == config.routes@.len());
            Ok(&config.routes[at])
        },
        Err(text) => Err(text),
    }
}

/// The first route that matches `project_path`.
pub fn find_route_public<'a>(config: &'a Config, project_path: &str) -> (route: Result<&'a Route, String>)
    ensures
        routes_to(config, project_path@, route),
{
    find_route(config, project_path)
}

/// No route before the one that is found matches the path.
pub proof fn law_first_matching_route_wins(config: &Config, path: Seq<char>, route: &Route)
    requires
        routes_to(config, path, Ok(route)),
    ensures
        exists|at: int|
            0 <= at < config.routes@.len() && *route == #[trigger] config.routes@[at]
                && crate::globs::glob_accepts(config.routes@[at].glob@, path) && forall|i: int|
                0 <= i < at ==> !crate::globs::glob_accepts((#[trigger] config.routes@[i]).glob@, path),
{
    let found = choose|found: GlobSearch| #[trigger]
        search_spec(route_globs(config), path, found) && found is First && *route
            == config.routes@[found->First_0 as int];
    let at = found->First_0 as int;
    assert(*route == config.routes@[at]);
    assert forall|i: int| 0 <= i < at implies !crate::globs::glob_accepts(
        (#[trigger] config.routes@[i]).glob@,
        path,
    ) by {
        assert(route_globs(config)[i] == config.routes@[i].glob@);
    }
}

// ---------------------------------------------------------------------------
// Agents and roles
// ---------------------------------------------------------------------------

/// The agent behind a name: that of the role of this name, or else the name itself.
pub open spec fn backend_of(config: &Config, name: Seq<char>) -> Seq<char> {
    if config.roles@.dom().contains(name) {
        config.roles@[name].backend@
    } else {
        name
    }
}

/// What is wrong with the name of an agent on a route, if anything is.
pub open spec fn name_fault(config: &Config, route: &Route, name: Seq<char>) -> Option<Seq<char>> {
    if config.agents@.dom().contains(name) {
        None
    } else if config.roles@.dom().contains(name) {
        if config.agents@.dom().contains(config.roles@[name].backend@) {
            None
        } else {
            Some(
                "route '"@ + route.glob@ + "' role '"@ + name + "' references unknown backend agent '"@
                    + config.roles@[name].backend@ + "'"@,
            )
        }
    } else {
        Some("route '"@ + route.glob@ + "' references unknown agent or role '"@ + name + "'"@)
    }
}

/// The first fault among `names`, if there is any.
pub open spec fn first_fault(config: &Config, route: &Route, names: Seq<Seq<char>>) -> Option<Seq<char>>
    decreases names.len(),
{
    if names.len() == 0 {
        None
    } else {
        match name_fault(config, route, names[0]) {
            Some(text) => Some(text),
            None => first_fault(config, route, names.drop_first()),
        }
    }
}

/// What is wrong with the agents of a route, if anything is.
pub open spec fn route_fault(config: &Config, route: &Route) -> Option<Seq<char>> {
    if route.agents@.len() == 0 {
        Some("route '"@ + route.glob@ + "' does not allow any agents"@)
    } else {
        first_fault(config, route, route.agents.deep_view())
    }
}

/// Checks that every name on a route is an agent, or a role of an agent.
pub fn ensure_agents_exist(config: &Config, route: &Route) -> (verdict: Result<(), String>)
    ensures
        match verdict {
            Ok(()) => route_fault(config, route) is None,
            Err(text) => route_fault(config, route) == Some(text@),
        },
{
    if route.agents.len() == 0 {
        return Err("route '".to_owned().concat(route.glob.as_str()).concat("' does not allow any agents"));
    }
    let ghost names = route.agents.deep_view();
    let mut i: usize = 0;
    assert(names.skip(0) =~= names);
    while i < route.agents.len()
        invariant
            names == route.agents.deep_view(),
            route.agents@.len() > 0,
            i <= route.agents@.len(),
            first_fault(config, route, names.skip(i as int)) == first_fault(config, route, names),
        decreases route.agents@.len() - i,
    {
        let name = &route.agents[i];
        assert(names.skip(i as int)[0] == name@);
        assert(names.skip(i as int).drop_first() =~= names.skip(i + 1));
        if !config.agents.contains(name.as_str()) {
            match config.roles.get(name.as_str()) {
                Some(role) => {
                    if !config.agents.contains(role.backend.as_str()) {
                        return Err(
                            "route '".to_owned().concat(route.glob.as_str()).concat("' role '").concat(
                                name.as_str(),
                            ).concat("' references unknown backend agent '").concat(role.backend.as_str()).concat("'"),
                        );
                    }
                },
                None => {
                    return Err(
                        "route '".to_owned().concat(route.glob.as_str()).concat(
                            "' references unknown agent or role '",
                        ).concat(name.as_str()).concat("'"),
                    );
                },
            }
        }
        i += 1;
    }
    assert(names.skip(i as int) =~= Seq::empty());
    Ok(())
}

/// The agent behind a name.
pub fn resolve_backend<'a>(config: &'a Config, name: &'a str) -> (backend: &'a str)
    ensures
        backend@ == backend_of(config, name@),
{
    match config.roles.get(name) {
        Some(role) => role.backend.as_str(),
        None => name,
    }
}

/// An agent, the role that it plays and that role's instructions.
pub struct Selection {
    pub agent: String,
    pub role: Option<String>,
    pub role_instructions: Option<String>,
}

/// Whether `selection` is what choosing `name` means.
pub open spec fn selects(config: &Config, name: Seq<char>, selection: &Selection) -> bool {
    &&& selection.agent@ == backend_of(config, name)
    &&& if config.roles@.dom().contains(name) {
        &&& selection.role.deep_view() == Some(name)
        &&& selection.role_instructions.deep_view() == config.roles@[name].instructions.deep_view()
    } else {
        selection.role is None && selection.role_instructions is None
    }
}

/// What choosing `name` means.
pub fn resolve_selection(config: &Config, name: &str) -> (selection: Selection)
    ensures
        selects(config, name@, &selection),
{
    match config.roles.get(name) {
        Some(role) => Selection {
            agent: role.backend.clone(),
            role: Some(name.to_owned()),
            role_instructions: match &role.instructions {
                Some(text) => Some(text.clone()),
                None => None,
            },
        },
        None => Selection { agent: name.to_owned(), role: None, role_instructions: None },
    }
}

// ---------------------------------------------------------------------------
// Prompt budgets
// ---------------------------------------------------------------------------

/// The largest prompt that an agent takes, where it has a bound.
pub open spec fn budget_of(config: &Config, backend: Seq<char>) -> Option<usize> {
    if config.agents@.dom().contains(backend) {
        config.agents@[backend].max_prompt_tokens
    } else {
        None
    }
}

/// Whether a prompt of `tokens` fits an agent.
pub open spec fn fits(config: &Config, backend: Seq<char>, tokens: usize) -> bool {
    match budget_of(config, backend) {
        Some(max) => tokens <= max,
        None => true,
    }
}

/// Whether a prompt of `tokens` fits the agent behind a name.
pub open spec fn name_fits(config: &Config, name: Seq<char>, tokens: usize) -> bool {
    fits(config, backend_of(config, name), tokens)
}

/// The bound of an agent in words.
pub open spec fn budget_text(config: &Config, backend: Seq<char>) -> Seq<char> {
    match budget_of(config, backend) {
        Some(max) => decimal(max as nat),
        None => "unlimited"@,
    }
}

/// The bound of an agent.
fn budget(config: &Config, backend: &str) -> (max: Option<usize>)
    ensures
        max == budget_of(config, backend@),
{
    match config.agents.get(backend) {
        Some(agent) => agent.max_prompt_tokens,
        None => None,
    }
}

/// Whether a prompt of `estimated_prompt_tokens` fits an agent.
pub fn agent_fits_prompt_budget(config: &Config, backend: &str, estimated_prompt_tokens: usize) -> (fitting: bool)
    ensures
        fitting == fits(config, backend@, estimated_prompt_tokens),
{
    match budget(config, backend) {
        Some(max) => estimated_prompt_tokens <= max,
        None => true,
    }
}

/// The bound of an agent in words.
pub fn describe_agent_budget(config: &Config, backend: &str) -> (text: String)
    ensures
        text@ == budget_text(config, backend@),
{
    match budget(config, backend) {
        Some(max) => decimal_of(max as u64),
        None => "unlimited".to_owned(),
    }
}

/// The names of a route whose agents a prompt of `tokens` fits.
pub open spec fn fitting_names(config: &Config, route: &Route, tokens: usize) -> Seq<Seq<char>> {
    route.agents.deep_view().filter(|name: Seq<char>| name_fits(config, name, tokens))
}

/// The names of a route whose agents a prompt fits.
pub fn agents_with_enough_budget(config: &Config, route: &Route, estimated_prompt_tokens: usize) -> (names: Vec<String>)
    ensures
        names.deep_view() == fitting_names(config, route, estimated_prompt_tokens),
{
    let ghost all = route.agents.deep_view();
    let ghost good = |name: Seq<char>| name_fits(config, name, estimated_prompt_tokens);
    let mut names: Vec<String> = Vec::new();
    let mut i: usize = 0;
    assert(all.take(0) =~= Seq::empty());
    assert(names.deep_view() =~= Seq::<Seq<char>>::empty().filter(good)) by {
        reveal(Seq::filter);
    }
    while i < route.agents.len()
        invariant
            all == route.agents.deep_view(),
            good == (|name: Seq<char>| name_fits(config, name, estimated_prompt_tokens)),
            i <= route.agents@.len(),
            names.deep_view() == all.take(i as int).filter(good),
        decreases route.agents@.len() - i,
    {
        let ghost next = all.take(i + 1);
        let ghost before = names.deep_view();
        assert(next.drop_last() =~= all.take(i as int));
        assert(next.last() == route.agents@[i as int]@);
        assert(next.filter(good) =~= (if good(next.last()) {
            before.push(next.last())
        } else {
            before
        })) by {
            reveal(Seq::filter);
        }
        let name = &route.agents[i];
        let backend = resolve_backend(config, name.as_str());
        if agent_fits_prompt_budget(config, backend, estimated_prompt_tokens) {
            names.push(name.clone());
            assert(names.deep_view() =~= before.push(name@));
        }
        i += 1;
    }
    assert(all.take(i as int) =~= all);
    names
}

/// Each name of a route with the bound of its agent.
pub open spec fn name_budgets(config: &Config, route: &Route) -> Seq<Seq<char>> {
    Seq::new(
        route.agents@.len(),
        |i: int|
            route.agents@[i]@ + "="@ + budget_text(config, backend_of(config, route.agents@[i]@)),
    )
}

/// The bounds of a route's agents in words.
pub fn describe_route_budgets(config: &Config, route: &Route) -> (text: String)
    ensures
        text@ == join(name_budgets(config, route), ", "@),
{
    let mut parts: Vec<String> = Vec::new();
    let mut i: usize = 0;
    while i < route.agents.len()
        invariant
            i == parts@.len(),
            i <= route.agents@.len(),
            forall|j: int| 0 <= j < i ==> (#[trigger] parts@[j])@ == name_budgets(config, route)[j],
        decreases route.agents@.len() - i,
    {
        let name = &route.agents[i];
        let backend = resolve_backend(config, name.as_str());
        parts.push(name.clone().concat("=").concat(describe_agent_budget(config, backend).as_str()));
        i += 1;
    }
    assert(parts.deep_view() =~= name_budgets(config, route));
    joined(&parts, ", ")
}

// ---------------------------------------------------------------------------
// Choosing the agent
// ---------------------------------------------------------------------------

/// What is reported where a task asks for an agent that its route does not allow.
pub open spec fn not_allowed_text(route: &Route, name: Seq<char>) -> Seq<char> {
    "agent '"@ + name + "' is not allowed for project route '"@ + route.glob@ + "'; allowed agents: "@ + join(
        route.agents.deep_view(),
        ", "@,
    )
}

fn not_allowed(route: &Route, name: &str) -> (text: String)
    ensures
        text@ == not_allowed_text(route, name@),
{
    "agent '".to_owned().concat(name).concat("' is not allowed for project route '").concat(
        route.glob.as_str(),
    ).concat("'; allowed agents: ").concat(joined(&route.agents, ", ").as_str())
}

/// The name that is chosen without regard to budgets: the one asked for where the
/// route allows it, or else the first of the route.
pub open spec fn chosen(route: &Route, requested: Option<Seq<char>>) -> Result<Seq<char>, Seq<char>> {
    match requested {
        Some(name) => if route.agents.deep_view().contains(name) {
            Ok(name)
        } else {
            Err(not_allowed_text(route, name))
        },
        None => if route.agents@.len() > 0 {
            Ok(route.agents@[0]@)
        } else {
            Err("route '"@ + route.glob@ + "' does not allow any agents"@)
        },
    }
}

/// Whether `selection` carries out a choice.
pub open spec fn carries_choice(
    config: &Config,
    choice: Result<Seq<char>, Seq<char>>,
    selection: Result<Selection, String>,
) -> bool {
    match selection {
        Ok(selection) => choice matches Ok(name) && selects(config, name, &selection),
        Err(text) => choice == Err::<Seq<char>, Seq<char>>(text@),
    }
}

/// Chooses an agent without regard to budgets.
pub fn select_agent(config: &Config, route: &Route, requested_agent: Option<&str>) -> (selection: Result<
    Selection,
    String,
>)
    ensures
        carries_choice(config, chosen(route, requested_agent.deep_view()), selection),
{
    match requested_agent {
        Some(name) => if among(&route.agents, name) {
            Ok(resolve_selection(config, name))
        } else {
            Err(not_allowed(route, name))
        },
        None => if route.agents.len() > 0 {
            Ok(resolve_selection(config, route.agents[0].as_str()))
        } else {
            Err("route '".to_owned().concat(route.glob.as_str()).concat("' does not allow any agents"))
        },
    }
}

/// The position of the first of `names` whose agent a prompt of `tokens` fits, or
/// the number of names.
pub open spec fn first_fitting(config: &Config, names: Seq<Seq<char>>, tokens: usize) -> int
    decreases names.len(),
{
    if names.len() == 0 || name_fits(config, names[0], tokens) {
        0
    } else {
        1 + first_fitting(config, names.drop_first(), tokens)
    }
}

/// What is reported where a task asks for an agent that its prompt does not fit.
pub open spec fn too_small_text(config: &Config, route: &Route, name: Seq<char>, tokens: usize) -> Seq<char> {
    "agent '"@ + name + "' prompt budget is too small for the task: estimated "@ + decimal(tokens as nat)
        + " tokens, max_prompt_tokens "@ + budget_text(config, backend_of(config, name))
        + "; allowed agents with enough budget: "@ + join(fitting_names(config, route, tokens), ", "@)
}

/// What is reported where a prompt fits no agent of the route.
pub open spec fn none_fits_text(config: &Config, route: &Route, tokens: usize) -> Seq<char> {
    "no allowed agent has enough prompt budget for the task: estimated "@ + decimal(tokens as nat)
        + " tokens; allowed agents: "@ + join(name_budgets(config, route), ", "@)
}

/// The name that is chosen for a prompt of `tokens`: the one asked for where the
/// route allows it and the prompt fits, or else the first that the prompt fits.
pub open spec fn chosen_within_budget(
    config: &Config,
    route: &Route,
    requested: Option<Seq<char>>,
    tokens: usize,
) -> Result<Seq<char>, Seq<char>> {
    let names = route.agents.deep_view();
    match requested {
        Some(name) => if !names.contains(name) {
            Err(not_allowed_text(route, name))
        } else if name_fits(config, name, tokens) {
            Ok(name)
        } else {
            Err(too_small_text(config, route, name, tokens))
        },
        None => {
            let at = first_fitting(config, names, tokens);
            if at < names.len() {
                Ok(names[at])
            } else {
                Err(none_fits_text(config, route, tokens))
            }
        },
    }
}

/// Chooses an agent whose budget the prompt fits.
pub fn select_agent_with_budget(
    config: &Config,
    route: &Route,
    requested_agent: Option<&str>,
    estimated_prompt_tokens: usize,
) -> (selection: Result<Selection, String>)
    ensures
        carries_choice(
            config,
            chosen_within_budget(config, route, requested_agent.deep_view(), estimated_prompt_tokens),
            selection,
        ),
{
    if let Some(name) = requested_agent {
        if !among(&route.agents, name) {
            return Err(not_allowed(route, name));
        }
        let backend = resolve_backend(config, name);
        if agent_fits_prompt_budget(config, backend, estimated_prompt_tokens) {
            return Ok(resolve_selection(config, name));
        }
        let enough = agents_with_enough_budget(config, route, estimated_prompt_tokens);
        return Err(
            "agent '".to_owned().concat(name).concat(
                "' prompt budget is too small for the task: estimated ",
            ).concat(decimal_of(estimated_prompt_tokens as u64).as_str()).concat(" tokens, max_prompt_tokens ").concat(
                describe_agent_budget(config, backend).as_str(),
            ).concat("; allowed agents with enough budget: ").concat(joined(&enough, ", ").as_str()),
        );
    }
    let ghost names = route.agents.deep_view();
    let mut i: usize = 0;
    assert(names.skip(0) =~= names);
    while i < route.agents.len()
        invariant
            requested_agent is None,
            names == route.agents.deep_view(),
            i <= route.agents@.len(),
            first_fitting(config, names, estimated_prompt_tokens) == i + first_fitting(
                config,
                names.skip(i as int),
                estimated_prompt_tokens,
            ),
        decreases route.agents@.len() - i,
    {
        assert(names.skip(i as int)[0] == route.agents@[i as int]@);
        assert(names.skip(i as int).drop_first() =~= names.skip(i + 1));
        let name = &route.agents[i];
        let backend = resolve_backend(config, name.as_str());
        if agent_fits_prompt_budget(config, backend, estimated_prompt_tokens) {
            return Ok(resolve_selection(config, name.as_str()));
        }
        i += 1;
    }
    assert(names.skip(i as int) =~= Seq::empty());
    Err(
        "no allowed agent has enough prompt budget for the task: estimated ".to_owned().concat(
            decimal_of(estimated_prompt_tokens as u64).as_str(),
        ).concat(" tokens; allowed agents: ").concat(describe_route_budgets(config, route).as_str()),
    )
}

/// What `first_fitting` gives.
proof fn lemma_first_fitting(config: &Config, names: Seq<Seq<char>>, tokens: usize)
    ensures
        0 <= first_fitting(config, names, tokens) <= names.len(),
        first_fitting(config, names, tokens) < names.len() ==> name_fits(
            config,
            names[first_fitting(config, names, tokens)],
            tokens,
        ),
    decreases names.len(),
{
    if names.len() > 0 && !name_fits(config, names[0], tokens) {
        lemma_first_fitting(config, names.drop_first(), tokens);
    }
}

/// Whoever is chosen is allowed on the route and has a budget that the prompt fits.
pub proof fn law_choice_is_allowed_and_fits(
    config: &Config,
    route: &Route,
    requested: Option<Seq<char>>,
    tokens: usize,
)
    ensures
        chosen_within_budget(config, route, requested, tokens) matches Ok(name) ==> {
            &&& route.agents.deep_view().contains(name)
            &&& name_fits(config, name, tokens)
        },
        chosen(route, requested) matches Ok(name) ==> route.agents.deep_view().contains(name),
{
    lemma_first_fitting(config, route.agents.deep_view(), tokens);
    let names = route.agents.deep_view();
    let at = first_fitting(config, names, tokens);
    if at < names.len() {
        assert(names.contains(names[at]));
    }
    if names.len() > 0 {
        assert(names.contains(names[0]));
    }
}

/// Without a request, someone is chosen exactly where some allowed agent has a
/// budget that the prompt fits.
pub proof fn law_some_fit_is_found(config: &Config, route: &Route, tokens: usize, at: int)
    requires
        0 <= at < route.agents@.len(),
        name_fits(config, route.agents@[at]@, tokens),
    ensures
        chosen_within_budget(config, route, None, tokens) is Ok,
{
    let names = route.agents.deep_view();
    assert(names[at] == route.agents@[at]@);
    lemma_fitting_bound(config, names, tokens, at);
}

/// The first that fits comes no later than any that fits.
proof fn lemma_fitting_bound(config: &Config, names: Seq<Seq<char>>, tokens: usize, at: int)
    requires
        0 <= at < names.len(),
        name_fits(config, names[at], tokens),
    ensures
        first_fitting(config, names, tokens) <= at,
    decreases names.len(),
{
    if !name_fits(config, names[0], tokens) {
        lemma_fitting_bound(config, names.drop_first(), tokens, at - 1);
    }
}

// ---------------------------------------------------------------------------
// Routing
// ---------------------------------------------------------------------------

/// Whether `matched` is what a route and a choice of agent on it come to.
pub open spec fn describes(config: &Config, route: &Route, name: Seq<char>, tokens: usize, matched: &RouteMatch) -> bool {
    &&& matched.agent@ == backend_of(config, name)
    &&& if config.roles@.dom().contains(name) {
        &&& matched.role.deep_view() == Some(name)
        &&& matched.role_instructions.deep_view() == config.roles@[name].instructions.deep_view()
    } else {
        matched.role is None && matched.role_instructions is None
    }
    &&& matched.glob@ == route.glob@
    &&& matched.allowed_agents.deep_view() == route.agents.deep_view()
    &&& matched.estimated_prompt_tokens == tokens
    &&& matched.sandbox@ == route_sandbox(config, route)
    &&& matched.route_mounts.deep_view() == route.mounts.deep_view()
}

fn assemble(config: &Config, route: &Route, selection: Selection, tokens: usize) -> (matched: RouteMatch)
    ensures
        forall|name: Seq<char>|
            selects(config, name, &selection) ==> #[trigger] describes(config, route, name, tokens, &matched),
{
    RouteMatch {
        agent: selection.agent,
        role: selection.role,
        role_instructions: selection.role_instructions,
        glob: route.glob.clone(),
        allowed_agents: duplicate_strings(&route.agents),
        estimated_prompt_tokens: tokens,
        sandbox: config.effective_sandbox(route).to_owned(),
        route_mounts: duplicate_strings(&route.mounts),
    }
}

/// Whether `outcome` is what becomes of a route once the agents on it have been
/// checked and one has been chosen.
pub open spec fn routed(
    config: &Config,
    route: &Route,
    choice: Result<Seq<char>, Seq<char>>,
    tokens: usize,
    outcome: Result<RouteMatch, String>,
) -> bool {
    match route_fault(config, route) {
        Some(fault) => outcome matches Err(text) && text@ == fault,
        None => match choice {
            Ok(name) => outcome matches Ok(matched) && describes(config, route, name, tokens, &matched),
            Err(refusal) => outcome matches Err(text) && text@ == refusal,
        },
    }
}

/// Whether `outcome` is where a project is routed to, without regard to budgets.
pub open spec fn project_routed(
    config: &Config,
    project: Seq<char>,
    requested: Option<Seq<char>>,
    outcome: Result<RouteMatch, String>,
) -> bool {
    exists|route: Result<&Route, String>| #[trigger]
        routes_to(config, project, route) && match route {
            Ok(route) => routed(config, route, chosen(route, requested), 0, outcome),
            Err(text) => outcome matches Err(message) && message@ == text@,
        }
}

/// Routes a project to an agent, without regard to budgets.
pub fn match_route(config: &Config, project_path: &str, requested_agent: Option<&str>) -> (outcome: Result<
    RouteMatch,
    String,
>)
    ensures
        project_routed(config, project_path@, requested_agent.deep_view(), outcome),
{
    let found = find_route(config, project_path);
    assert(routes_to(config, project_path@, found));
    let route = match found {
        Ok(route) => route,
        Err(text) => {
            return Err(text);
        },
    };
    if let Err(text) = ensure_agents_exist(config, route) {
        return Err(text);
    }
    match select_agent(config, route, requested_agent) {
        Ok(selection) => Ok(assemble(config, route, selection, 0)),
        Err(text) => Err(text),
    }
}

/// The policy for sub-tasks of a project: that of its route, where the route has its
/// own, or else that of the configuration.
pub open spec fn policy_of(config: &Config, project: Seq<char>, policy: &OrchestrationPolicy) -> bool {
    exists|route: Result<&Route, String>| #[trigger]
        routes_to(config, project, route) && *policy == (match route {
            Ok(route) => match route.orchestration {
                Some(policy) => policy,
                None => config.orchestration,
            },
            Err(_) => config.orchestration,
        })
}

/// The policy for sub-tasks of a project.
pub fn resolve_orchestration_for<'a>(config: &'a Config, project_path: &str) -> (policy: &'a OrchestrationPolicy)
    ensures
        policy_of(config, project_path@, policy),
{
    let found = find_route(config, project_path);
    assert(routes_to(config, project_path@, found));
    match found {
        Ok(route) => match &route.orchestration {
            Some(policy) => policy,
            None => &config.orchestration,
        },
        Err(_) => &config.orchestration,
    }
}

/// Whether a role takes the name of an agent without having an agent behind it.
pub open spec fn hollow_role(config: &Config, name: Seq<char>) -> bool {
    &&& config.agents@.dom().contains(name)
    &&& config.roles@.dom().contains(name)
    &&& !config.agents@.dom().contains(config.roles@[name].backend@)
}

/// Whoever a project or a task is routed to is an agent of the configuration.
pub proof fn law_routed_agents_exist(
    config: &Config,
    route: &Route,
    choice: Result<Seq<char>, Seq<char>>,
    tokens: usize,
    matched: RouteMatch,
)
    requires
        routed(config, route, choice, tokens, Ok(matched)),
        choice matches Ok(name) ==> route.agents.deep_view().contains(name) && !hollow_role(config, name),
    ensures
        config.agents@.dom().contains(matched.agent@),
{
    lemma_no_fault(config, route, route.agents.deep_view(), choice->Ok_0);
}

/// Where there is no fault among `names`, there is none with any of them.
proof fn lemma_no_fault(config: &Config, route: &Route, names: Seq<Seq<char>>, name: Seq<char>)
    requires
        first_fault(config, route, names) is None,
        names.contains(name),
    ensures
        name_fault(config, route, name) is None,
    decreases names.len(),
{
    let at = choose|at: int| 0 <= at < names.len() && names[at] == name;
    if at > 0 {
        assert(names.drop_first()[at - 1] == name);
        lemma_no_fault(config, route, names.drop_first(), name);
    }
}

/// A path is routed to one route only, or to none.
pub proof fn lemma_route_is_unique(config: &Config, path: Seq<char>, a: Result<&Route, String>, b: Result<&Route, String>)
    requires
        routes_to(config, path, a),
        routes_to(config, path, b),
    ensures
        a is Ok == b is Ok,
        a is Ok ==> *a->Ok_0 == *b->Ok_0,
{
    let globs = route_globs(config);
    let fa = choose|found: GlobSearch| #[trigger]
        search_spec(globs, path, found) && match a {
            Ok(route) => found is First && *route == config.routes@[found->First_0 as int],
            Err(text) => !(found is First) && text@ == no_route_text(config, path, found),
        };
    let fb = choose|found: GlobSearch| #[trigger]
        search_spec(globs, path, found) && match b {
            Ok(route) => found is First && *route == config.routes@[found->First_0 as int],
            Err(text) => !(found is First) && text@ == no_route_text(config, path, found),
        };
    crate::globs::lemma_search_is_unique(globs, path, fa, fb);
}

/// A project is routed to one agent only, or to none.
pub proof fn lemma_project_agent_is_unique(
    config: &Config,
    project: Seq<char>,
    requested: Option<Seq<char>>,
    a: Result<RouteMatch, String>,
    b: Result<RouteMatch, String>,
)
    requires
        project_routed(config, project, requested, a),
        project_routed(config, project, requested, b),
    ensures
        a is Ok == b is Ok,
        a is Ok ==> a->Ok_0.agent@ == b->Ok_0.agent@,
{
    let ra = choose|route: Result<&Route, String>| #[trigger]
        routes_to(config, project, route) && match route {
            Ok(route) => routed(config, route, chosen(route, requested), 0, a),
            Err(text) => a matches Err(message) && message@ == text@,
        };
    let rb = choose|route: Result<&Route, String>| #[trigger]
        routes_to(config, project, route) && match route {
            Ok(route) => routed(config, route, chosen(route, requested), 0, b),
            Err(text) => b matches Err(message) && message@ == text@,
        };
    lemma_route_is_unique(config, project, ra, rb);
}

// ---------------------------------------------------------------------------
// The size of a prompt
// ---------------------------------------------------------------------------

/// The sizes, in bytes, of what goes into a prompt and is not part of the task
/// itself.
#[derive(Debug, Clone, Copy, PartialEq, Eq, Structural)]
pub struct PromptSizes {
    /// The instructions to an agent that carries out a task.
    pub agent_instructions: usize,
    /// The instructions to an agent that plans a task.
    pub planning_instructions: usize,
    /// The frontmatter, as it is written.
    pub frontmatter: usize,
    /// The instructions that the project gives.
    pub project_instructions: usize,
    /// The plan that the task refers to.
    pub plan: usize,
}

/// The size of a string in bytes.
pub open spec fn bytes(text: Seq<char>) -> nat {
    vstd::utf8::encode_utf8(text).len() as usize as nat
}

/// The size of the instructions of the role that a task is assigned to.
pub open spec fn role_size(config: &Config, task: &TaskDocument) -> nat {
    match task.frontmatter.assignee {
        Some(name) => if config.roles@.dom().contains(name@) {
            match config.roles@[name@].instructions {
                Some(text) => bytes(text@),
                None => 0,
            }
        } else {
            0
        },
        None => 0,
    }
}

/// The size of the whole prompt, in bytes. Planning takes neither the role's
/// instructions nor the plan.
pub open spec fn prompt_size(config: &Config, task: &TaskDocument, planning: bool, sizes: PromptSizes) -> nat {
    let instructions = if planning {
        sizes.planning_instructions as nat
    } else {
        sizes.agent_instructions as nat + role_size(config, task)
    };
    let project = if task.frontmatter.project is Some {
        sizes.project_instructions as nat
    } else {
        0
    };
    let plan = if !planning && task.frontmatter.plan is Some {
        sizes.plan as nat
    } else {
        0
    };
    instructions + bytes(task.path@) + bytes(task.body@) + sizes.frontmatter as nat + project + plan
}

/// Four bytes to a token, rounded up.
pub open spec fn tokens_of(size: nat) -> nat {
    (size + 3) / 4
}

/// Estimates the size of a prompt in tokens.
pub fn estimate_task_prompt_tokens(config: &Config, task: &TaskDocument, planning: bool, sizes: &PromptSizes) -> (tokens: usize)
    requires
        prompt_size(config, task, planning, *sizes) <= usize::MAX,
    ensures
        tokens == tokens_of(prompt_size(config, task, planning, *sizes)),
{
    let mut characters: usize = if planning {
        sizes.planning_instructions
    } else {
        sizes.agent_instructions
    };
    if !planning {
        if let Some(name) = &task.frontmatter.assignee {
            if let Some(role) = config.roles.get(name.as_str()) {
                if let Some(text) = &role.instructions {
                    characters += text.as_str().len();
                }
            }
        }
    }
    characters += task.path.as_str().len();
    characters += task.body.as_str().len();
    characters += sizes.frontmatter;
    if task.frontmatter.project.is_some() {
        characters += sizes.project_instructions;
    }
    if !planning && task.frontmatter.plan.is_some() {
        characters += sizes.plan;
    }
    characters / 4 + if characters % 4 == 0 {
        0
    } else {
        1
    }
}

/// The size of the first `n` of `contents` that are not blank.
pub open spec fn instructions_size(contents: Seq<Seq<char>>) -> nat
    decreases contents.len(),
{
    if contents.len() == 0 {
        0
    } else {
        instructions_size(contents.drop_last()) + if trim(contents.last()).len() == 0 {
            0
        } else {
            bytes(contents.last())
        }
    }
}

/// Leaving out the last contents never makes the size greater.
proof fn lemma_instructions_size(contents: Seq<Seq<char>>, n: int)
    requires
        0 <= n <= contents.len(),
    ensures
        instructions_size(contents.take(n)) <= instructions_size(contents),
    decreases contents.len() - n,
{
    if n < contents.len() {
        lemma_instructions_size(contents, n + 1);
        assert(contents.take(n + 1).drop_last() =~= contents.take(n));
    } else {
        assert(contents.take(n) =~= contents);
    }
}

/// The size of the instructions that a project gives: of its instruction files,
/// those that are not blank.
pub fn project_instructions_len(contents: &Vec<String>) -> (size: usize)
    requires
        instructions_size(contents.deep_view()) <= usize::MAX,
    ensures
        size == instructions_size(contents.deep_view()),
{
    let ghost all = contents.deep_view();
    let mut size: usize = 0;
    let mut i: usize = 0;
    assert(all.take(0) =~= Seq::empty());
    while i < contents.len()
        invariant
            all == contents.deep_view(),
            instructions_size(all) <= usize::MAX,
            i <= contents@.len(),
            size == instructions_size(all.take(i as int)),
        decreases contents@.len() - i,
    {
        assert(all.take(i + 1).drop_last() =~= all.take(i as int));
        proof {
            lemma_instructions_size(all, i + 1);
        }
        let content = &contents[i];
        if !trimmed(content.as_str()).as_str().is_empty() {
            size += content.as_str().len();
        }
        i += 1;
    }
    assert(all.take(i as int) =~= all);
    size
}

/// Whether `outcome` is where a task is routed to: to an agent whose budget its
/// prompt fits.
pub open spec fn task_routed(
    config: &Config,
    task: &TaskDocument,
    planning: bool,
    sizes: PromptSizes,
    outcome: Result<RouteMatch, String>,
) -> bool {
    match task.frontmatter.project {
        None => outcome matches Err(text) && text@ == "task frontmatter is missing project"@,
        Some(project) => exists|route: Result<&Route, String>| #[trigger]
            routes_to(config, project@, route) && match route {
                Ok(route) => {
                    let tokens = tokens_of(prompt_size(config, task, planning, sizes)) as usize;
                    routed(
                        config,
                        route,
                        chosen_within_budget(config, route, task.frontmatter.assignee.deep_view(), tokens),
                        tokens,
                        outcome,
                    )
                },
                Err(text) => outcome matches Err(message) && message@ == text@,
            },
    }
}

/// Routes a task to an agent whose budget its prompt fits.
pub fn match_route_for_task(config: &Config, task: &TaskDocument, planning: bool, sizes: &PromptSizes) -> (outcome: Result<
    RouteMatch,
    String,
>)
    requires
        prompt_size(config, task, planning, *sizes) <= usize::MAX,
    ensures
        task_routed(config, task, planning, *sizes, outcome),
{
    let project = match &task.frontmatter.project {
        Some(project) => project,
        None => {
            return Err("task frontmatter is missing project".to_owned());
        },
    };
    let found = find_route(config, project.as_str());
    assert(routes_to(config, project@, found));
    let route = match found {
        Ok(route) => route,
        Err(text) => {
            return Err(text);
        },
    };
    if let Err(text) = ensure_agents_exist(config, route) {
        return Err(text);
    }
    let tokens = estimate_task_prompt_tokens(config, task, planning, sizes);
    let requested = match &task.frontmatter.assignee {
        Some(name) => Some(name.as_str()),
        None => None,
    };
    match select_agent_with_budget(config, route, requested, tokens) {
        Ok(selection) => Ok(assemble(config, route, selection, tokens)),
        Err(text) => Err(text),
    }
}

// ---------------------------------------------------------------------------
// Laws
// ---------------------------------------------------------------------------

/// Whether the agent that works under `name` takes a prompt of `tokens`: it has no
/// bound, or one that the prompt stays within.
pub open spec fn takes_prompt(config: &Config, name: Seq<char>, tokens: int) -> bool {
    let agent = if config.roles@.dom().contains(name) {
        config.roles@[name].backend@
    } else {
        name
    };
    config.agents@.dom().contains(agent) ==> {
        ||| config.agents@[agent].max_prompt_tokens is None
        ||| tokens <= config.agents@[agent].max_prompt_tokens->0
    }
}

/// Whether an agent, a role and instructions are those of `name`: of the role of that
/// name its agent and its instructions, or else the agent of that name alone.
pub open spec fn works_under(
    config: &Config,
    name: Seq<char>,
    agent: Seq<char>,
    role: Option<Seq<char>>,
    instructions: Option<Seq<char>>,
) -> bool {
    if config.roles@.dom().contains(name) {
        &&& agent == config.roles@[name].backend@
        &&& role == Some(name)
        &&& instructions == config.roles@[name].instructions.deep_view()
    } else {
        agent == name && role is None && instructions is None
    }
}

/// Without a request the first name of the route whose agent takes the prompt is
/// chosen: no earlier one takes it. Where none takes it, nobody is chosen.
pub proof fn law_the_first_that_fits_is_chosen(
    config: &Config,
    route: &Route,
    tokens: usize,
    selection: Result<Selection, String>,
)
    requires
        call_ensures(select_agent_with_budget, (config, route, None::<&str>, tokens), selection),
    ensures
        match selection {
            Ok(chosen) => exists|at: int|
                0 <= at < route.agents@.len() && works_under(
                    config,
                    #[trigger] route.agents@[at]@,
                    chosen.agent@,
                    chosen.role.deep_view(),
                    chosen.role_instructions.deep_view(),
                ) && takes_prompt(config, route.agents@[at]@, tokens as int) && forall|i: int|
                    0 <= i < at ==> !takes_prompt(config, #[trigger] route.agents@[i]@, tokens as int),
            Err(_) => forall|i: int|
                0 <= i < route.agents@.len() ==> !takes_prompt(config, #[trigger] route.agents@[i]@, tokens as int),
        },
{
    let names = route.agents.deep_view();
    let at = first_fitting(config, names, tokens);
    lemma_first_fitting(config, names, tokens);
    assert forall|i: int| 0 <= i < at implies !takes_prompt(config, #[trigger] route.agents@[i]@, tokens as int) by {
        if name_fits(config, names[i], tokens) {
            lemma_fitting_bound(config, names, tokens, i);
        }
    }
    if at < names.len() {
        assert(names[at] == route.agents@[at]@);
    }
}

/// A task that asks for an agent gets that one or none: exactly where its route allows
/// it and it takes the prompt.
pub proof fn law_a_requested_agent_is_chosen_or_nobody(
    config: &Config,
    route: &Route,
    name: &str,
    tokens: usize,
    selection: Result<Selection, String>,
)
    requires
        call_ensures(select_agent_with_budget, (config, route, Some(name), tokens), selection),
    ensures
        selection is Ok <==> (exists|i: int| 0 <= i < route.agents@.len() && #[trigger] route.agents@[i]@ == name@)
            && takes_prompt(config, name@, tokens as int),
        selection matches Ok(chosen) ==> works_under(
            config,
            name@,
            chosen.agent@,
            chosen.role.deep_view(),
            chosen.role_instructions.deep_view(),
        ),
{
    let names = route.agents.deep_view();
    if names.contains(name@) {
        let i = choose|i: int| 0 <= i < names.len() && names[i] == name@;
        assert(route.agents@[i]@ == name@);
    }
    if exists|i: int| 0 <= i < route.agents@.len() && #[trigger] route.agents@[i]@ == name@ {
        let i = choose|i: int| 0 <= i < route.agents@.len() && #[trigger] route.agents@[i]@ == name@;
        assert(names[i] == name@);
    }
}

/// Where budgets do not count, the first name of the route is chosen, or the one asked
/// for where the route allows it.
pub proof fn law_the_first_name_counts_without_budgets(
    config: &Config,
    route: &Route,
    name: &str,
    unasked: Result<Selection, String>,
    asked: Result<Selection, String>,
)
    requires
        call_ensures(select_agent, (config, route, None::<&str>), unasked),
        call_ensures(select_agent, (config, route, Some(name)), asked),
    ensures
        unasked is Ok <==> route.agents@.len() > 0,
        unasked matches Ok(chosen) ==> works_under(
            config,
            route.agents@[0]@,
            chosen.agent@,
            chosen.role.deep_view(),
            chosen.role_instructions.deep_view(),
        ),
        asked is Ok <==> exists|i: int| 0 <= i < route.agents@.len() && #[trigger] route.agents@[i]@ == name@,
        asked matches Ok(chosen) ==> works_under(
            config,
            name@,
            chosen.agent@,
            chosen.role.deep_view(),
            chosen.role_instructions.deep_view(),
        ),
{
    let names = route.agents.deep_view();
    if names.contains(name@) {
        let i = choose|i: int| 0 <= i < names.len() && names[i] == name@;
        assert(route.agents@[i]@ == name@);
    }
    if exists|i: int| 0 <= i < route.agents@.len() && #[trigger] route.agents@[i]@ == name@ {
        let i = choose|i: int| 0 <= i < route.agents@.len() && #[trigger] route.agents@[i]@ == name@;
        assert(names[i] == name@);
    }
}

/// The names that a report offers are those of the route whose agents take the prompt,
/// all of them and no others.
pub proof fn law_offered_agents_take_the_prompt(config: &Config, route: &Route, tokens: usize, names: Vec<String>)
    requires
        call_ensures(agents_with_enough_budget, (config, route, tokens), names),
    ensures
        forall|name: Seq<char>| #[trigger]
            names.deep_view().contains(name) <==> route.agents.deep_view().contains(name) && takes_prompt(
                config,
                name,
                tokens as int,
            ),
{
    let all = route.agents.deep_view();
    let good = |name: Seq<char>| name_fits(config, name, tokens);
    assert(names.deep_view() == all.filter(good));
    assert forall|name: Seq<char>| #[trigger]
        names.deep_view().contains(name) <==> all.contains(name) && takes_prompt(config, name, tokens as int) by {
        if all.contains(name) && takes_prompt(config, name, tokens as int) {
            let i = choose|i: int| 0 <= i < all.len() && all[i] == name;
            assert(good(all[i]));
            all.lemma_filter_contains(good, i);
        }
        if all.filter(good).contains(name) {
            let i = choose|i: int| 0 <= i < all.filter(good).len() && all.filter(good)[i] == name;
            all.lemma_filter_pred(good, i);
            all.lemma_filter_contains_rev(good, name);
        }
    }
}

/// A route is accepted exactly where it names somebody and each of its names is an agent,
/// or else a role of an agent.
pub proof fn law_every_name_of_a_route_is_known(config: &Config, route: &Route, verdict: Result<(), String>)
    requires
        call_ensures(ensure_agents_exist, (config, route), verdict),
    ensures
        verdict is Ok <==> route.agents@.len() > 0 && forall|i: int|
            0 <= i < route.agents@.len() ==> {
                let name = #[trigger] route.agents@[i]@;
                config.agents@.dom().contains(name) || (config.roles@.dom().contains(name)
                    && config.agents@.dom().contains(config.roles@[name].backend@))
            },
{
    let names = route.agents.deep_view();
    if verdict is Ok {
        assert forall|i: int| 0 <= i < route.agents@.len() implies {
            let name = #[trigger] route.agents@[i]@;
            config.agents@.dom().contains(name) || (config.roles@.dom().contains(name)
                && config.agents@.dom().contains(config.roles@[name].backend@))
        } by {
            assert(names[i] == route.agents@[i]@);
            assert(names.contains(names[i]));
            lemma_no_fault(config, route, names, names[i]);
        }
    } else if route.agents@.len() > 0 {
        lemma_some_fault(config, route, names);
        let i = choose|i: int| 0 <= i < names.len() && name_fault(config, route, #[trigger] names[i]) is Some;
        assert(names[i] == route.agents@[i]@);
    }
}

/// Where there is a fault among `names`, one of them has it.
proof fn lemma_some_fault(config: &Config, route: &Route, names: Seq<Seq<char>>)
    requires
        first_fault(config, route, names) is Some,
    ensures
        exists|i: int| 0 <= i < names.len() && name_fault(config, route, #[trigger] names[i]) is Some,
    decreases names.len(),
{
    if name_fault(config, route, names[0]) is None {
        let rest = names.drop_first();
        lemma_some_fault(config, route, rest);
        let i = choose|i: int| 0 <= i < rest.len() && name_fault(config, route, #[trigger] rest[i]) is Some;
        assert(names[i + 1] == rest[i]);
    }
}

/// Whether `route` is the first of the configuration whose pattern takes in `path`.
pub open spec fn is_first_route(config: &Config, path: Seq<char>, at: int) -> bool {
    &&& 0 <= at < config.routes@.len()
    &&& crate::globs::glob_accepts(config.routes@[at].glob@, path)
    &&& forall|i: int| 0 <= i < at ==> !crate::globs::glob_accepts((#[trigger] config.routes@[i]).glob@, path)
}

/// The prompt of a task in bytes: what the agent is told, the task and what the project
/// says, and, where the task is carried out and not planned, the role and the plan.
pub open spec fn prompt_bytes(config: &Config, task: &TaskDocument, planning: bool, sizes: PromptSizes) -> int {
    let told: int = if planning {
        sizes.planning_instructions as int
    } else {
        sizes.agent_instructions as int
    };
    let role: int = if !planning && task.frontmatter.assignee is Some && config.roles@.dom().contains(
        task.frontmatter.assignee->0@,
    ) && config.roles@[task.frontmatter.assignee->0@].instructions is Some {
        bytes(config.roles@[task.frontmatter.assignee->0@].instructions->0@) as int
    } else {
        0
    };
    let project: int = if task.frontmatter.project is Some {
        sizes.project_instructions as int
    } else {
        0
    };
    let plan: int = if !planning && task.frontmatter.plan is Some {
        sizes.plan as int
    } else {
        0
    };
    told + role + project + plan + sizes.frontmatter + bytes(task.path@) + bytes(task.body@)
}

/// A prompt is estimated at as many tokens as it has fours of bytes, the last of which
/// may be incomplete.
pub proof fn law_a_token_is_four_bytes(
    config: &Config,
    task: &TaskDocument,
    planning: bool,
    sizes: &PromptSizes,
    tokens: usize,
)
    requires
        call_ensures(estimate_task_prompt_tokens, (config, task, planning, sizes), tokens),
    ensures
        4 * tokens - 3 <= prompt_bytes(config, task, planning, *sizes) <= 4 * tokens,
{
}

/// Whether a match is that of a task with a project: by the first route that takes the
/// project in, to the agent that the task asks for, where the route allows that, or else
/// to the first one of the route that takes its prompt, in the sandbox of the route, or
/// else in the default one, with the mounts of the route.
pub open spec fn routed_by_project(
    config: &Config,
    task: &TaskDocument,
    planning: bool,
    sizes: PromptSizes,
    matched: RouteMatch,
) -> bool {
    task.frontmatter.project is Some && exists|r: int, at: int|
        #![trigger config.routes@[r].agents@[at]]
        is_first_route(config, task.frontmatter.project->0@, r) && {
            let route = config.routes@[r];
            let tokens = matched.estimated_prompt_tokens as int;
            &&& 4 * tokens - 3 <= prompt_bytes(config, task, planning, sizes) <= 4 * tokens
            &&& matched.glob@ == route.glob@
            &&& matched.allowed_agents.deep_view() == route.agents.deep_view()
            &&& matched.route_mounts.deep_view() == route.mounts.deep_view()
            &&& matched.sandbox@ == (if route.sandbox is Some {
                route.sandbox->0@
            } else if config.defaults.sandbox is Some {
                config.defaults.sandbox->0@
            } else {
                "local"@
            })
            &&& 0 <= at < route.agents@.len()
            &&& works_under(
                config,
                route.agents@[at]@,
                matched.agent@,
                matched.role.deep_view(),
                matched.role_instructions.deep_view(),
            )
            &&& takes_prompt(config, route.agents@[at]@, tokens)
            &&& match task.frontmatter.assignee {
                Some(name) => route.agents@[at]@ == name@,
                None => forall|i: int|
                    0 <= i < at ==> !takes_prompt(config, #[trigger] route.agents@[i]@, tokens),
            }
        }
}

/// A task that is routed is routed by its project.
pub proof fn lemma_routed_by_project(
    config: &Config,
    task: &TaskDocument,
    planning: bool,
    sizes: PromptSizes,
    matched: RouteMatch,
)
    requires
        prompt_bytes(config, task, planning, sizes) <= usize::MAX,
        task_routed(config, task, planning, sizes, Ok(matched)),
    ensures
        routed_by_project(config, task, planning, sizes, matched),
{
    let project = task.frontmatter.project->0@;
    let found = choose|route: Result<&Route, String>| #[trigger]
        routes_to(config, project, route) && match route {
            Ok(route) => {
                let tokens = tokens_of(prompt_size(config, task, planning, sizes)) as usize;
                routed(
                    config,
                    route,
                    chosen_within_budget(config, route, task.frontmatter.assignee.deep_view(), tokens),
                    tokens,
                    Ok(matched),
                )
            },
            Err(text) => false,
        };
    let route = found->Ok_0;
    law_first_matching_route_wins(config, project, route);
    let r = choose|at: int|
        0 <= at < config.routes@.len() && *route == #[trigger] config.routes@[at]
            && crate::globs::glob_accepts(config.routes@[at].glob@, project) && forall|i: int|
            0 <= i < at ==> !crate::globs::glob_accepts((#[trigger] config.routes@[i]).glob@, project);
    let tokens = matched.estimated_prompt_tokens;
    let names = route.agents.deep_view();
    lemma_first_fitting(config, names, tokens);
    let at = match task.frontmatter.assignee {
        Some(name) => choose|i: int| 0 <= i < names.len() && names[i] == name@,
        None => first_fitting(config, names, tokens),
    };
    assert(names[at] == route.agents@[at]@);
    assert(config.routes@[r].agents@[at]@ == names[at]);
    if task.frontmatter.assignee is None {
        assert forall|i: int| 0 <= i < at implies !takes_prompt(
            config,
            #[trigger] config.routes@[r].agents@[i]@,
            tokens as int,
        ) by {
            if name_fits(config, names[i], tokens) {
                lemma_fitting_bound(config, names, tokens, i);
            }
        }
    }
}

/// A task with a project is routed by the first route that takes the project in: to the
/// agent that it asks for, where the route allows that, or else to the first one of the
/// route that takes its prompt. It runs in the sandbox of the route, or else in the
/// default one, with the mounts of the route.
pub proof fn law_a_task_is_routed_by_its_project(
    config: &Config,
    task: &TaskDocument,
    planning: bool,
    sizes: &PromptSizes,
    matched: RouteMatch,
)
    requires
        prompt_bytes(config, task, planning, *sizes) <= usize::MAX,
        call_ensures(match_route_for_task, (config, task, planning, sizes), Ok(matched)),
    ensures
        routed_by_project(config, task, planning, *sizes, matched),
{
    lemma_routed_by_project(config, task, planning, *sizes, matched);
}

/// A match is shown by the role that was chosen, or else by the agent.
pub proof fn law_a_match_is_shown_by_its_role(matched: &RouteMatch, name: &str)
    requires
        call_ensures(RouteMatch::display_name, (matched,), name),
    ensures
        matched.role matches Some(role) ==> name@ == role@,
        matched.role is None ==> name@ == matched.agent@,
{
}

/// Whether nobody that may have a prompt takes it: not the one that is asked for, and
/// where nobody is, none of `names`.
pub open spec fn none_takes_prompt(
    config: &Config,
    names: Seq<Seq<char>>,
    asked: Option<Seq<char>>,
    tokens: usize,
) -> bool {
    match asked {
        Some(name) => !takes_prompt(config, name, tokens as int),
        None => forall|i: int| 0 <= i < names.len() ==> !takes_prompt(config, #[trigger] names[i], tokens as int),
    }
}

/// A task is refused where it has no project, where no route takes its project in, where
/// its route names somebody unknown, where its route does not allow the agent that it
/// asks for, and where nobody that it may have takes its prompt; and nowhere else.
pub proof fn law_a_task_is_refused_for_a_reason(
    config: &Config,
    task: &TaskDocument,
    planning: bool,
    sizes: &PromptSizes,
    refusal: String,
    r: int,
)
    requires
        prompt_bytes(config, task, planning, *sizes) <= usize::MAX,
        call_ensures(match_route_for_task, (config, task, planning, sizes), Err(refusal)),
        task.frontmatter.project is Some,
        is_first_route(config, task.frontmatter.project->0@, r),
        forall|i: int| 0 <= i < config.routes@.len() ==> crate::globs::glob_parses((#[trigger] config.routes@[i]).glob@),
        crate::globs::glob_set_builds(route_globs(config)),
    ensures
        ({
            let route = config.routes@[r];
            let asked = task.frontmatter.assignee;
            ||| route.agents@.len() == 0
            ||| exists|i: int|
                0 <= i < route.agents@.len() && {
                    let name = #[trigger] route.agents@[i]@;
                    !config.agents@.dom().contains(name) && !(config.roles@.dom().contains(name)
                        && config.agents@.dom().contains(config.roles@[name].backend@))
                }
            ||| asked is Some && !route.agents.deep_view().contains(asked->0@)
            ||| exists|tokens: usize|
                4 * tokens - 3 <= prompt_bytes(config, task, planning, *sizes) <= 4 * tokens
                    && #[trigger] none_takes_prompt(config, route.agents.deep_view(), asked.deep_view(), tokens)
        }),
{
    let project = task.frontmatter.project->0@;
    let tokens = tokens_of(prompt_size(config, task, planning, *sizes)) as usize;
    let found = choose|route: Result<&Route, String>| #[trigger]
        routes_to(config, project, route) && match route {
            Ok(route) => routed(
                config,
                route,
                chosen_within_budget(config, route, task.frontmatter.assignee.deep_view(), tokens),
                tokens,
                Err(refusal),
            ),
            Err(text) => refusal@ == text@,
        };
    let globs = route_globs(config);
    let searched = choose|found_at: GlobSearch| #[trigger]
        search_spec(globs, project, found_at) && match found {
            Ok(route) => found_at is First && *route == config.routes@[found_at->First_0 as int],
            Err(text) => !(found_at is First) && text@ == no_route_text(config, project, found_at),
        };
    assert forall|i: int| 0 <= i < globs.len() implies crate::globs::glob_parses(#[trigger] globs[i]) by {
        assert(globs[i] == config.routes@[i].glob@);
    }
    assert(globs[r] == config.routes@[r].glob@);
    assert(searched is First);
    let at = searched->First_0 as int;
    assert(globs[at] == config.routes@[at].glob@);
    assert(at == r);
    let route = found->Ok_0;
    let names = route.agents.deep_view();
    if route.agents@.len() > 0 {
        if first_fault(config, route, names) is Some {
            lemma_some_fault(config, route, names);
            let i = choose|i: int| 0 <= i < names.len() && name_fault(config, route, #[trigger] names[i]) is Some;
            assert(names[i] == route.agents@[i]@);
        } else {
            assert(4 * tokens - 3 <= prompt_bytes(config, task, planning, *sizes) <= 4 * tokens);
            if task.frontmatter.assignee is None {
                assert forall|i: int| 0 <= i < names.len() implies !takes_prompt(
                    config,
                    #[trigger] names[i],
                    tokens as int,
                ) by {
                    if name_fits(config, names[i], tokens) {
                        lemma_fitting_bound(config, names, tokens, i);
                    }
                }
            }
            if route.agents.deep_view().contains(task.frontmatter.assignee->0@) || task.frontmatter.assignee is None {
                assert(none_takes_prompt(config, names, task.frontmatter.assignee.deep_view(), tokens));
            }
        }
    }
}

/// Whether a match is that of a project whatever the budgets: by the first route that takes
/// it in, to the agent that is asked for, or else to the first of the route, in the sandbox
/// of the route, or else in the default one, with the mounts of the route.
pub open spec fn routed_without_budgets(
    config: &Config,
    project: Seq<char>,
    asked: Option<Seq<char>>,
    matched: RouteMatch,
) -> bool {
    exists|r: int| #[trigger]
        is_first_route(config, project, r) && {
            let route = config.routes@[r];
            let name = if asked is Some {
                asked->0
            } else {
                route.agents@[0]@
            };
            &&& route.agents.deep_view().contains(name)
            &&& works_under(
                config,
                name,
                matched.agent@,
                matched.role.deep_view(),
                matched.role_instructions.deep_view(),
            )
            &&& matched.glob@ == route.glob@
            &&& matched.allowed_agents.deep_view() == route.agents.deep_view()
            &&& matched.route_mounts.deep_view() == route.mounts.deep_view()
            &&& matched.sandbox@ == (if route.sandbox is Some {
                route.sandbox->0@
            } else if config.defaults.sandbox is Some {
                config.defaults.sandbox->0@
            } else {
                "local"@
            })
        }
}

/// A project that is routed is routed by the first route that takes it in.
pub proof fn lemma_routed_without_budgets(
    config: &Config,
    project: Seq<char>,
    asked: Option<Seq<char>>,
    matched: RouteMatch,
)
    requires
        project_routed(config, project, asked, Ok(matched)),
    ensures
        routed_without_budgets(config, project, asked, matched),
{
    let found = choose|route: Result<&Route, String>| #[trigger]
        routes_to(config, project, route) && match route {
            Ok(route) => routed(config, route, chosen(route, asked), 0, Ok(matched)),
            Err(text) => false,
        };
    let route = found->Ok_0;
    law_first_matching_route_wins(config, project, route);
    let r = choose|at: int|
        0 <= at < config.routes@.len() && *route == #[trigger] config.routes@[at]
            && crate::globs::glob_accepts(config.routes@[at].glob@, project) && forall|i: int|
            0 <= i < at ==> !crate::globs::glob_accepts((#[trigger] config.routes@[i]).glob@, project);
    assert(is_first_route(config, project, r));
    assert(route.agents.deep_view().contains(route.agents.deep_view()[0]));
}

/// A project is routed by the first route that takes it in, whatever the budgets: to the
/// agent that is asked for, or else to the first of the route.
pub proof fn law_a_project_is_routed_without_budgets(
    config: &Config,
    project: &str,
    asked: Option<&str>,
    matched: RouteMatch,
)
    requires
        call_ensures(match_route, (config, project, asked), Ok(matched)),
    ensures
        routed_without_budgets(config, project@, asked.deep_view(), matched),
{
    lemma_routed_without_budgets(config, project@, asked.deep_view(), matched);
}

/// Sub-tasks of a project are held to the policy of the first route that takes it in,
/// where that has its own, and to the policy of the configuration otherwise.
pub proof fn law_a_route_may_have_its_own_policy(
    config: &Config,
    project: &str,
    r: int,
    policy: &OrchestrationPolicy,
    route: Result<&Route, String>,
)
    requires
        call_ensures(resolve_orchestration_for, (config, project), policy),
        call_ensures(find_route, (config, project), route),
    ensures
        route is Err ==> *policy == config.orchestration,
        route matches Ok(route) ==> *policy == (if route.orchestration is Some {
            route.orchestration->0
        } else {
            config.orchestration
        }),
        route matches Ok(route) ==> exists|r: int| #[trigger]
            is_first_route(config, project@, r) && *route == config.routes@[r],
{
    let other = choose|other: Result<&Route, String>| #[trigger]
        routes_to(config, project@, other) && *policy == (match other {
            Ok(route) => match route.orchestration {
                Some(policy) => policy,
                None => config.orchestration,
            },
            Err(_) => config.orchestration,
        });
    lemma_route_is_unique(config, project@, other, route);
    if let Ok(route) = route {
        law_first_matching_route_wins(config, project@, route);
        let r = choose|at: int|
            0 <= at < config.routes@.len() && *route == #[trigger] config.routes@[at]
                && crate::globs::glob_accepts(config.routes@[at].glob@, project@) && forall|i: int|
                0 <= i < at ==> !crate::globs::glob_accepts((#[trigger] config.routes@[i]).glob@, project@);
        assert(is_first_route(config, project@, r));
    }
}

/// A project has one policy.
pub proof fn lemma_policy_is_unique(
    config: &Config,
    project: Seq<char>,
    a: &OrchestrationPolicy,
    b: &OrchestrationPolicy,
)
    requires
        policy_of(config, project, a),
        policy_of(config, project, b),
    ensures
        *a == *b,
{
    let ra = choose|route: Result<&Route, String>| #[trigger]
        routes_to(config, project, route) && *a == (match route {
            Ok(route) => match route.orchestration {
                Some(policy) => policy,
                None => config.orchestration,
            },
            Err(_) => config.orchestration,
        });
    let rb = choose|route: Result<&Route, String>| #[trigger]
        routes_to(config, project, route) && *b == (match route {
            Ok(route) => match route.orchestration {
                Some(policy) => policy,
                None => config.orchestration,
            },
            Err(_) => config.orchestration,
        });
    lemma_route_is_unique(config, project, ra, rb);
}

/// A refusal of an agent that a route does not allow names the agent, the route and those that
/// it allows, in order; one for want of budget names the estimate, and, where an agent was asked
/// for, that agent and those that take the prompt.
pub proof fn law_refusals_name_agent_and_budget(
    config: &Config,
    route: &Route,
    name: &str,
    tokens: usize,
    asked: Result<Selection, String>,
    unasked: Result<Selection, String>,
    enough: Vec<String>,
)
    requires
        call_ensures(select_agent_with_budget, (config, route, Some(name), tokens), asked),
        call_ensures(select_agent_with_budget, (config, route, None::<&str>, tokens), unasked),
        call_ensures(agents_with_enough_budget, (config, route, tokens), enough),
    ensures
        asked is Err && !route.agents.deep_view().contains(name@) ==> holds_in_order(
            asked->Err_0@,
            seq![name@, route.glob@],
        ) && holds_in_order(asked->Err_0@, route.agents.deep_view()),
        asked is Err && route.agents.deep_view().contains(name@) ==> holds_in_order(
            asked->Err_0@,
            seq![name@, decimal(tokens as nat)],
        ) && holds_in_order(asked->Err_0@, enough.deep_view()),
        unasked is Err ==> holds(unasked->Err_0@, decimal(tokens as nat)),
{
    let names = route.agents.deep_view();
    if asked is Err {
        let text = asked->Err_0@;
        if !names.contains(name@) {
            let list = join(names, ", "@);
            let middle = "' is not allowed for project route '"@;
            let tail = "'; allowed agents: "@;
            crate::text::lemma_two_in_order("agent '"@, name@, middle, route.glob@, tail + list);
            assert(text =~= "agent '"@ + name@ + middle + route.glob@ + (tail + list));
            crate::text::law_joined_parts_stand_in_order(names, ", "@);
            crate::text::lemma_in_order_joined(list, "agent '"@ + name@ + middle + route.glob@ + tail, names);
        } else {
            let fit = fitting_names(config, route, tokens);
            let list = join(fit, ", "@);
            let middle = "' prompt budget is too small for the task: estimated "@;
            let tail = " tokens, max_prompt_tokens "@ + budget_text(config, backend_of(config, name@))
                + "; allowed agents with enough budget: "@;
            crate::text::lemma_two_in_order("agent '"@, name@, middle, decimal(tokens as nat), tail + list);
            assert(text =~= "agent '"@ + name@ + middle + decimal(tokens as nat) + (tail + list));
            crate::text::law_joined_parts_stand_in_order(fit, ", "@);
            let head = "agent '"@ + name@ + middle + decimal(tokens as nat) + tail;
            crate::text::lemma_in_order_joined(list, head, fit);
            assert(text =~= head + list);
        }
    }
    if unasked is Err {
        let tail = " tokens; allowed agents: "@ + join(name_budgets(config, route), ", "@);
        let head = "no allowed agent has enough prompt budget for the task: estimated "@;
        crate::text::lemma_holds_within(head, decimal(tokens as nat), tail);
        assert(unasked->Err_0@ =~= head + decimal(tokens as nat) + tail);
    }
}

} // verus!
