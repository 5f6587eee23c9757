//! Plans: the order in which ready tasks are to be worked on, the markdown that
//! presents it and the JSON that it is run from.

use vstd::prelude::*;
use vstd::string::*;

use crate::config::Config;
use crate::order::{lemma_list_before_irreflexive, lemma_list_before_total, lemma_list_before_transitive};
use crate::paths::{path_before, path_comes_before, path_weights};
use crate::routing::{
    lemma_routed_by_project, match_route_for_task, prompt_bytes, prompt_size, routed_by_project, task_routed, PromptSizes,
    RouteMatch,
};
use crate::task::{copy_summary, TaskDocument, TaskSummary};
use crate::text::{contains, holds, lemma_holds_in_part, lower, lowered};

verus! {

// ---------------------------------------------------------------------------
// What a task waits for
// ---------------------------------------------------------------------------

/// What a task is about, as far as its order among others is concerned.
#[derive(Debug, Clone, Copy, PartialEq, Eq, Structural)]
pub enum DependencyHint {
    Identity,
    Planning,
    Execution,
    Sessions,
    Visibility,
    AgentSupport,
    General,
}

impl DependencyHint {
    /// The place of the hint among the others.
    pub open spec fn rank(self) -> nat {
        match self {
            DependencyHint::Identity => 0,
            DependencyHint::Planning => 1,
            DependencyHint::Execution => 2,
            DependencyHint::Sessions => 3,
            DependencyHint::Visibility => 4,
            DependencyHint::AgentSupport => 5,
            DependencyHint::General => 6,
        }
    }

    fn place(self) -> (place: u64)
        ensures
            place == self.rank(),
    {
        match self {
            DependencyHint::Identity => 0,
            DependencyHint::Planning => 1,
            DependencyHint::Execution => 2,
            DependencyHint::Sessions => 3,
            DependencyHint::Visibility => 4,
            DependencyHint::AgentSupport => 5,
            DependencyHint::General => 6,
        }
    }

    /// The name of the category.
    pub open spec fn label_text(self) -> Seq<char> {
        match self {
            DependencyHint::Identity => "identity/versioning"@,
            DependencyHint::Planning => "planning"@,
            DependencyHint::Execution => "execution"@,
            DependencyHint::Sessions => "sessions/resume"@,
            DependencyHint::Visibility => "visibility/dashboard"@,
            DependencyHint::AgentSupport => "agent support"@,
            DependencyHint::General => "general"@,
        }
    }

    /// The name of the category.
    pub fn label(self) -> (text: &'static str)
        ensures
            text@ == self.label_text(),
    {
        match self {
            DependencyHint::Identity => "identity/versioning",
            DependencyHint::Planning => "planning",
            DependencyHint::Execution => "execution",
            DependencyHint::Sessions => "sessions/resume",
            DependencyHint::Visibility => "visibility/dashboard",
            DependencyHint::AgentSupport => "agent support",
            DependencyHint::General => "general",
        }
    }

    /// The stage in which the work is done.
    pub open spec fn stage_text(self) -> Seq<char> {
        match self {
            DependencyHint::Identity => "Stage 1, sequential"@,
            DependencyHint::Planning => "Stage 2, sequential"@,
            DependencyHint::Execution => "Stage 3, sequential"@,
            DependencyHint::Sessions => "Stage 4, parallel candidate"@,
            DependencyHint::Visibility => "Stage 4, parallel candidate"@,
            DependencyHint::AgentSupport => "Stage 5, optional parallel candidate"@,
            DependencyHint::General => "Stage 6, sequential validation"@,
        }
    }

    /// The stage in which the work is done.
    pub fn stage(self) -> (text: &'static str)
        ensures
            text@ == self.stage_text(),
    {
        match self {
            DependencyHint::Identity => "Stage 1, sequential",
            DependencyHint::Planning => "Stage 2, sequential",
            DependencyHint::Execution => "Stage 3, sequential",
            DependencyHint::Sessions => "Stage 4, parallel candidate",
            DependencyHint::Visibility => "Stage 4, parallel candidate",
            DependencyHint::AgentSupport => "Stage 5, optional parallel candidate",
            DependencyHint::General => "Stage 6, sequential validation",
        }
    }

    /// Why the work has its place.
    pub open spec fn reason_text(self) -> Seq<char> {
        match self {
            DependencyHint::Identity => "stable task IDs and captured task state reduce ambiguity for later runs"@,
            DependencyHint::Planning => "planning semantics should be reviewed before automated execution"@,
            DependencyHint::Execution => "run command behavior depends on task selection and routing semantics"@,
            DependencyHint::Sessions => "session resume behavior depends on run metadata and task lifecycle"@,
            DependencyHint::Visibility => "dashboards and task views depend on stable task and recap metadata"@,
            DependencyHint::AgentSupport =>
                "additional agent support can be isolated after routing assumptions are clear"@,
            DependencyHint::General => "work should run after the higher-level command semantics are stable"@,
        }
    }

    /// Why the work has its place.
    pub fn reason(self) -> (text: &'static str)
        ensures
            text@ == self.reason_text(),
    {
        match self {
            DependencyHint::Identity => "stable task IDs and captured task state reduce ambiguity for later runs",
            DependencyHint::Planning => "planning semantics should be reviewed before automated execution",
            DependencyHint::Execution => "run command behavior depends on task selection and routing semantics",
            DependencyHint::Sessions => "session resume behavior depends on run metadata and task lifecycle",
            DependencyHint::Visibility => "dashboards and task views depend on stable task and recap metadata",
            DependencyHint::AgentSupport =>
                "additional agent support can be isolated after routing assumptions are clear",
            DependencyHint::General => "work should run after the higher-level command semantics are stable",
        }
    }
}

/// Whether a text holds any of `words`.
pub open spec fn names_any(text: Seq<char>, words: Seq<Seq<char>>) -> bool {
    exists|i: int| 0 <= i < words.len() && holds(text, #[trigger] words[i])
}

fn names_one_of(text: &str, words: &Vec<String>) -> (named: bool)
    ensures
        named == names_any(text@, words.deep_view()),
{
    let mut i: usize = 0;
    while i < words.len()
        invariant
            i <= words@.len(),
            forall|j: int| 0 <= j < i ==> !holds(text@, #[trigger] words.deep_view()[j]),
        decreases words@.len() - i,
    {
        if contains(text, words[i].as_str()) {
            assert(holds(text@, words.deep_view()[i as int]));
            return true;
        }
        i += 1;
    }
    false
}

/// The hint that the title and the path of a task give, where `words` are the names of
/// products that agents are made of. The first of the questions that is answered with yes
/// decides.
pub open spec fn hint_of(title: Seq<char>, path: Seq<char>, words: Seq<Seq<char>>) -> DependencyHint {
    let text = lower(title) + " "@ + path;
    if holds(text, "version"@) || holds(text, " id"@) || holds(text, "-id"@) {
        DependencyHint::Identity
    } else if holds(text, "plan"@) || holds(text, "planner"@) {
        DependencyHint::Planning
    } else if holds(text, "run"@) || holds(text, "exec"@) {
        DependencyHint::Execution
    } else if holds(text, "session"@) || holds(text, "resume"@) {
        DependencyHint::Sessions
    } else if holds(text, "dashboard"@) || holds(text, "show"@) || holds(text, "list"@) {
        DependencyHint::Visibility
    } else if names_any(text, words) || holds(text, "agent"@) {
        DependencyHint::AgentSupport
    } else {
        DependencyHint::General
    }
}

/// The hint that the title and the path of a task give.
pub fn dependency_hint(summary: &TaskSummary, words: &Vec<String>) -> (hint: DependencyHint)
    ensures
        hint == hint_of(summary.title@, summary.path@, words.deep_view()),
{
    let title = lowered(summary.title.as_str());
    let text = title.concat(" ").concat(summary.path.as_str());
    let text = text.as_str();
    if contains(text, "version") || contains(text, " id") || contains(text, "-id") {
        DependencyHint::Identity
    } else if contains(text, "plan") || contains(text, "planner") {
        DependencyHint::Planning
    } else if contains(text, "run") || contains(text, "exec") {
        DependencyHint::Execution
    } else if contains(text, "session") || contains(text, "resume") {
        DependencyHint::Sessions
    } else if contains(text, "dashboard") || contains(text, "show") || contains(text, "list") {
        DependencyHint::Visibility
    } else if names_one_of(text, words) || contains(text, "agent") {
        DependencyHint::AgentSupport
    } else {
        DependencyHint::General
    }
}

// ---------------------------------------------------------------------------
// The order of a plan
// ---------------------------------------------------------------------------

/// One task of a plan, and who is to work on it.
#[derive(Debug, PartialEq, Eq)]
pub struct PlanTask {
    pub summary: TaskSummary,
    pub agent: String,
    pub route_glob: String,
    pub dependency_hint: DependencyHint,
}

/// The number by which a task is ordered: its own, or else one after all others.
pub open spec fn order_id(task: PlanTask) -> u64 {
    match task.summary.id {
        Some(id) => id,
        None => u64::MAX,
    }
}

/// Whether `a` is to be worked on before `b`: by what they are about, then by their
/// numbers, then by their paths.
pub open spec fn precedes(a: PlanTask, b: PlanTask) -> bool {
    if a.dependency_hint.rank() != b.dependency_hint.rank() {
        a.dependency_hint.rank() < b.dependency_hint.rank()
    } else if order_id(a) != order_id(b) {
        order_id(a) < order_id(b)
    } else {
        path_before(a.summary.path@, b.summary.path@)
    }
}

fn task_precedes(a: &PlanTask, b: &PlanTask) -> (less: bool)
    ensures
        less == precedes(*a, *b),
{
    let a_place = a.dependency_hint.place();
    let b_place = b.dependency_hint.place();
    let a_id: u64 = match a.summary.id {
        Some(id) => id,
        None => u64::MAX,
    };
    let b_id: u64 = match b.summary.id {
        Some(id) => id,
        None => u64::MAX,
    };
    if a_place != b_place {
        a_place < b_place
    } else if a_id != b_id {
        a_id < b_id
    } else {
        path_comes_before(a.summary.path.as_str(), b.summary.path.as_str())
    }
}

/// Where one task precedes another, a third one follows the first or precedes the
/// second.
proof fn lemma_precedes_between(a: PlanTask, b: PlanTask, c: PlanTask)
    requires
        precedes(a, b),
    ensures
        precedes(a, c) || precedes(c, b),
{
    let pa = path_weights(a.summary.path@);
    let pb = path_weights(b.summary.path@);
    let pc = path_weights(c.summary.path@);
    lemma_list_before_total(pa, pc);
    if crate::order::list_before(pa, pb) && crate::order::list_before(pc, pa) {
        lemma_list_before_transitive(pc, pa, pb);
    }
}

/// Of two tasks, not each precedes the other.
proof fn lemma_precedes_asymmetric(a: PlanTask, b: PlanTask)
    requires
        precedes(a, b),
    ensures
        !precedes(b, a),
{
    let pa = path_weights(a.summary.path@);
    let pb = path_weights(b.summary.path@);
    if crate::order::list_before(pa, pb) && crate::order::list_before(pb, pa) {
        lemma_list_before_transitive(pa, pb, pa);
        lemma_list_before_irreflexive(pa);
    }
}

/// Whether the task at `x` comes before the one at `y` in a plan: it precedes it, or
/// neither precedes the other and it stood before it.
pub open spec fn goes_first(tasks: Seq<PlanTask>, x: int, y: int) -> bool {
    precedes(tasks[x], tasks[y]) || (!precedes(tasks[y], tasks[x]) && x < y)
}

/// Whether `plan` is `tasks` put in order: at each place `i` of the plan stands the
/// task that stood at `places[i]`.
pub open spec fn arranged(tasks: Seq<PlanTask>, plan: Seq<PlanTask>, places: Seq<int>) -> bool {
    &&& plan.len() == tasks.len()
    &&& places.len() == tasks.len()
    &&& forall|i: int| 0 <= i < places.len() ==> 0 <= #[trigger] places[i] < tasks.len() && plan[i] == tasks[places[i]]
    &&& forall|i: int, j: int|
        0 <= i < j < places.len() ==> #[trigger] places[i] != #[trigger] places[j] && goes_first(
            tasks,
            places[i],
            places[j],
        )
}

/// Puts tasks in the order of a plan.
pub fn arrange(tasks: Vec<PlanTask>) -> (plan: Vec<PlanTask>)
    ensures
        exists|places: Seq<int>| #[trigger] arranged(tasks@, plan@, places),
{
    let ghost all = tasks@;
    let mut rest = tasks;
    // The tasks are taken from the end, so each goes before those that it does not
    // follow.
    let mut plan: Vec<PlanTask> = Vec::new();
    let ghost mut places: Seq<int> = Seq::empty();
    while rest.len() > 0
        invariant
            rest@.len() <= all.len(),
            rest@ == all.take(rest@.len() as int),
            plan@.len() == places.len(),
            places.len() == all.len() - rest@.len(),
            forall|i: int|
                0 <= i < places.len() ==> rest@.len() <= #[trigger] places[i] < all.len() && plan@[i]
                    == all[places[i]],
            forall|i: int, j: int|
                0 <= i < j < places.len() ==> #[trigger] places[i] != #[trigger] places[j] && goes_first(
                    all,
                    places[i],
                    places[j],
                ),
        decreases rest@.len(),
    {
        let ghost at: int = rest@.len() - 1;
        let next = match rest.pop() {
            Some(next) => next,
            None => {
                return plan;
            },
        };
        assert(next == all[at]);
        assert(rest@ =~= all.take(at));
        let mut to: usize = 0;
        while to < plan.len() && task_precedes(&plan[to], &next)
            invariant
                to <= plan@.len(),
                forall|i: int| 0 <= i < to ==> precedes(#[trigger] plan@[i], next),
            decreases plan@.len() - to,
        {
            to += 1;
        }
        let ghost old_plan = plan@;
        let ghost old_places = places;
        plan.insert(to, next);
        proof {
            places = places.insert(to as int, at);
            assert forall|i: int| 0 <= i < places.len() implies at <= #[trigger] places[i] < all.len() && plan@[i]
                == all[places[i]] by {
                if i < to {
                    assert(places[i] == old_places[i]);
                } else if i > to {
                    assert(places[i] == old_places[i - 1]);
                }
            }
            assert forall|i: int, j: int| 0 <= i < j < places.len() implies #[trigger] places[i]
                != #[trigger] places[j] && goes_first(all, places[i], places[j]) by {
                let oi = if i < to { i } else { i - 1 };
                let oj = if j < to { j } else { j - 1 };
                if i != to {
                    assert(places[i] == old_places[oi]);
                    assert(old_plan[oi] == all[old_places[oi]]);
                }
                if j != to {
                    assert(places[j] == old_places[oj]);
                    assert(old_plan[oj] == all[old_places[oj]]);
                }
                if j == to {
                    assert(precedes(old_plan[i], next));
                } else if i == to {
                    // What stands at `to` does not precede the new task, and
                    // neither does anything after it.
                    let head = old_plan[to as int];
                    assert(!precedes(head, next));
                    if precedes(old_plan[oj], next) {
                        lemma_precedes_between(old_plan[oj], next, head);
                        if oj != to {
                            assert(goes_first(all, old_places[to as int], old_places[oj]));
                            lemma_precedes_asymmetric(old_plan[oj], head);
                        }
                    }
                }
            }
        }
    }
    assert(arranged(all, plan@, places));
    plan
}

/// A task, what could be read of its file and the sizes that its prompt is made of.
#[derive(Debug)]
pub struct LoadedTask {
    pub summary: TaskSummary,
    /// The file, or the report that it could not be read.
    pub document: Result<TaskDocument, String>,
    pub sizes: PromptSizes,
}

/// Whether the size of the task's prompt is a number that the machine can hold.
pub open spec fn measurable(config: &Config, loaded: &LoadedTask) -> bool {
    match loaded.document {
        Ok(document) => prompt_size(config, &document, false, loaded.sizes) <= usize::MAX,
        Err(_) => true,
    }
}

/// Whether `task` is what a loaded task comes to in a plan.
pub open spec fn planned(config: &Config, words: Seq<Seq<char>>, loaded: &LoadedTask, task: PlanTask) -> bool {
    &&& loaded.document is Ok
    &&& exists|route: RouteMatch| #[trigger]
        task_routed(config, &loaded.document->Ok_0, false, loaded.sizes, Ok(route)) && task.agent@
            == route.shown_name() && task.route_glob@ == route.glob@
    &&& task.summary@ == loaded.summary@
    &&& task.dependency_hint == hint_of(loaded.summary.title@, loaded.summary.path@, words)
}

/// Whether a loaded task cannot be planned, as `text` reports.
pub open spec fn unplanned(config: &Config, loaded: &LoadedTask, text: String) -> bool {
    match loaded.document {
        Ok(document) => task_routed(config, &document, false, loaded.sizes, Err(text)),
        Err(report) => text@ == report@,
    }
}

/// Plans one task. `words` are the names of products that agents are made of.
pub fn plan_task(config: &Config, words: &Vec<String>, loaded: &LoadedTask) -> (outcome: Result<PlanTask, String>)
    requires
        measurable(config, loaded),
    ensures
        match outcome {
            Ok(task) => planned(config, words.deep_view(), loaded, task),
            Err(text) => unplanned(config, loaded, text),
        },
{
    let document = match &loaded.document {
        Ok(document) => document,
        Err(report) => {
            return Err(report.clone());
        },
    };
    match match_route_for_task(config, document, false, &loaded.sizes) {
        Ok(route) => {
            assert(task_routed(config, document, false, loaded.sizes, Ok(route)));
            Ok(
                PlanTask {
                    summary: copy_summary(&loaded.summary),
                    agent: route.display_name().to_owned(),
                    route_glob: route.glob.clone(),
                    dependency_hint: dependency_hint(&loaded.summary, words),
                },
            )
        },
        Err(text) => Err(text),
    }
}

/// Whether each of `ready` has been planned as the task at the same place.
pub open spec fn all_planned(
    config: &Config,
    words: Seq<Seq<char>>,
    ready: Seq<LoadedTask>,
    tasks: Seq<PlanTask>,
) -> bool {
    &&& tasks.len() == ready.len()
    &&& forall|i: int| 0 <= i < tasks.len() ==> planned(config, words, &ready[i], #[trigger] tasks[i])
}

/// Whether `plan` holds what each of `ready` comes to, in the order of a plan.
pub open spec fn plan_of(
    config: &Config,
    words: Seq<Seq<char>>,
    ready: Seq<LoadedTask>,
    plan: Seq<PlanTask>,
) -> bool {
    exists|tasks: Seq<PlanTask>, places: Seq<int>|
        #![trigger all_planned(config, words, ready, tasks), arranged(tasks, plan, places)]
        all_planned(config, words, ready, tasks) && arranged(tasks, plan, places)
}

/// Whether a loaded task can be planned.
pub open spec fn plannable(config: &Config, words: Seq<Seq<char>>, loaded: &LoadedTask) -> bool {
    exists|task: PlanTask| planned(config, words, loaded, task)
}

/// Plans tasks: each is routed, and they are put in order. The first that cannot be
/// routed is reported. `words` are the names of products that agents are made of.
pub fn plan_tasks(config: &Config, words: &Vec<String>, ready: &Vec<LoadedTask>) -> (outcome: Result<Vec<PlanTask>, String>)
    requires
        forall|i: int| 0 <= i < ready@.len() ==> measurable(config, &#[trigger] ready@[i]),
    ensures
        match outcome {
            Ok(plan) => plan_of(config, words.deep_view(), ready@, plan@),
            Err(text) => exists|i: int|
                0 <= i < ready@.len() && unplanned(config, &#[trigger] ready@[i], text) && forall|j: int|
                    0 <= j < i ==> plannable(config, words.deep_view(), &#[trigger] ready@[j]),
        },
{
    let mut tasks: Vec<PlanTask> = Vec::new();
    let mut i: usize = 0;
    while i < ready.len()
        invariant
            i <= ready@.len(),
            tasks@.len() == i,
            forall|j: int| 0 <= j < ready@.len() ==> measurable(config, &#[trigger] ready@[j]),
            forall|j: int| 0 <= j < i ==> planned(config, words.deep_view(), &ready@[j], #[trigger] tasks@[j]),
        decreases ready@.len() - i,
    {
        match plan_task(config, words, &ready[i]) {
            Ok(task) => {
                tasks.push(task);
            },
            Err(text) => {
                assert(unplanned(config, &ready@[i as int], text));
                assert forall|j: int| 0 <= j < i implies plannable(config, words.deep_view(), &#[trigger] ready@[j]) by {
                    assert(planned(config, words.deep_view(), &ready@[j], tasks@[j]));
                }
                return Err(text);
            },
        }
        i += 1;
    }
    let ghost all = tasks@;
    assert(all_planned(config, words.deep_view(), ready@, all));
    let plan = arrange(tasks);
    proof {
        let places = choose|places: Seq<int>| #[trigger] arranged(all, plan@, places);
        assert(all_planned(config, words.deep_view(), ready@, all) && arranged(all, plan@, places));
        assert(plan_of(config, words.deep_view(), ready@, plan@));
    }
    Ok(plan)
}

/// A plan holds each task once and leaves none out.
pub proof fn law_plans_are_complete(tasks: Seq<PlanTask>, plan: Seq<PlanTask>, places: Seq<int>)
    requires
        arranged(tasks, plan, places),
    ensures
        plan.to_multiset() == tasks.to_multiset(),
        forall|i: int, j: int| 0 <= i < j < plan.len() ==> !precedes(#[trigger] plan[j], #[trigger] plan[i]),
    decreases tasks.len(),
{
    assert forall|i: int, j: int| 0 <= i < j < plan.len() implies !precedes(#[trigger] plan[j], #[trigger] plan[i]) by {
        assert(places[i] != places[j]);
        assert(goes_first(tasks, places[i], places[j]));
        if precedes(tasks[places[i]], tasks[places[j]]) {
            lemma_precedes_asymmetric(tasks[places[i]], tasks[places[j]]);
        }
    }
    lemma_rearranged(tasks, plan, places);
}

/// A list whose members stand at other places has the same members.
proof fn lemma_rearranged(tasks: Seq<PlanTask>, plan: Seq<PlanTask>, places: Seq<int>)
    requires
        plan.len() == tasks.len(),
        places.len() == tasks.len(),
        forall|i: int| 0 <= i < places.len() ==> 0 <= #[trigger] places[i] < tasks.len() && plan[i] == tasks[places[i]],
        forall|i: int, j: int| 0 <= i < j < places.len() ==> #[trigger] places[i] != #[trigger] places[j],
    ensures
        plan.to_multiset() == tasks.to_multiset(),
    decreases tasks.len(),
{
    broadcast use vstd::seq_lib::group_to_multiset_ensures;

    if tasks.len() > 0 {
        let last = places.last();
        let fewer = tasks.remove(last);
        let front = plan.drop_last();
        let shifted = places.drop_last().map_values(|p: int| if p > last { p - 1 } else { p });
        assert forall|i: int| 0 <= i < shifted.len() implies 0 <= #[trigger] shifted[i] < fewer.len() && front[i]
            == fewer[shifted[i]] by {
            assert(places[i] != places[places.len() - 1]);
            assert(plan[i] == tasks[places[i]]);
        }
        assert forall|i: int, j: int| 0 <= i < j < shifted.len() implies #[trigger] shifted[i]
            != #[trigger] shifted[j] by {
            assert(places[i] != places[j]);
            assert(places[i] != places[places.len() - 1]);
            assert(places[j] != places[places.len() - 1]);
        }
        lemma_rearranged(fewer, front, shifted);
        assert(plan =~= front.push(tasks[last]));
        assert(tasks.remove(last).to_multiset() =~= tasks.to_multiset().remove(tasks[last]));
        assert(plan.to_multiset() =~= tasks.to_multiset());
    } else {
        assert(plan =~= tasks);
    }
}

// ---------------------------------------------------------------------------
// Laws
// ---------------------------------------------------------------------------

/// Whether a task says `word`: in its title, whatever the case of its letters, in its
/// path, or from the one to the other, with a space between them.
pub open spec fn says(summary: &TaskSummary, word: Seq<char>) -> bool {
    holds(lower(summary.title@) + " "@ + summary.path@, word)
}

/// What stands in the title or in the path of a task, the task says.
pub proof fn law_a_task_says_what_its_title_and_path_hold(summary: &TaskSummary, word: Seq<char>)
    ensures
        holds(lower(summary.title@), word) ==> says(summary, word),
        holds(summary.path@, word) ==> says(summary, word),
{
    let title = lower(summary.title@);
    if holds(title, word) {
        lemma_holds_in_part(Seq::empty(), title, " "@ + summary.path@, word);
        assert(Seq::<char>::empty() + title + (" "@ + summary.path@) =~= title + " "@ + summary.path@);
    }
    if holds(summary.path@, word) {
        lemma_holds_in_part(title + " "@, summary.path@, Seq::empty(), word);
        assert(title + " "@ + summary.path@ + Seq::<char>::empty() =~= title + " "@ + summary.path@);
    }
}

/// Whether a task says a word of the category of versions and ids.
pub open spec fn says_identity(summary: &TaskSummary) -> bool {
    says(summary, "version"@) || says(summary, " id"@) || says(summary, "-id"@)
}

/// Whether a task says a word of the category of running.
pub open spec fn says_execution(summary: &TaskSummary) -> bool {
    says(summary, "run"@) || says(summary, "exec"@)
}

/// Whether a task says a word of the category of sessions.
pub open spec fn says_sessions(summary: &TaskSummary) -> bool {
    says(summary, "session"@) || says(summary, "resume"@)
}

/// A task that says `version`, ` id` or `-id` is about identity, whatever else it says.
pub proof fn law_identity_words(summary: &TaskSummary, words: &Vec<String>, hint: DependencyHint)
    requires
        call_ensures(dependency_hint, (summary, words), hint),
    ensures
        says(summary, "version"@) ==> hint is Identity,
        says(summary, " id"@) ==> hint is Identity,
        says(summary, "-id"@) ==> hint is Identity,
        hint is Identity ==> says_identity(summary),
{
}

/// A task that says `plan`, as `planner` does, and no word of identity is about planning.
pub proof fn law_planning_words(summary: &TaskSummary, words: &Vec<String>, hint: DependencyHint)
    requires
        call_ensures(dependency_hint, (summary, words), hint),
        !says_identity(summary),
    ensures
        says(summary, "plan"@) ==> hint is Planning,
        says(summary, "planner"@) ==> hint is Planning,
        hint is Planning ==> says(summary, "plan"@),
{
    reveal_strlit("plan");
    reveal_strlit("planner");
    let text = lower(summary.title@) + " "@ + summary.path@;
    if says(summary, "planner"@) {
        let at = choose|at: int| crate::text::stands_at(text, "planner"@, at);
        assert(text.subrange(at, at + 4) =~= text.subrange(at, at + 7).subrange(0, 4));
        assert("planner"@.subrange(0, 4) =~= "plan"@);
        assert(crate::text::stands_at(text, "plan"@, at));
    }
}

/// A task that says `run` or `exec`, and no word of identity or of planning, is about
/// execution.
pub proof fn law_execution_words(summary: &TaskSummary, words: &Vec<String>, hint: DependencyHint)
    requires
        call_ensures(dependency_hint, (summary, words), hint),
        !says_identity(summary),
        !says(summary, "plan"@),
    ensures
        says(summary, "run"@) ==> hint is Execution,
        says(summary, "exec"@) ==> hint is Execution,
        hint is Execution ==> says_execution(summary),
{
    law_planning_words(summary, words, hint);
}

/// A task that says `session` or `resume`, and no word of identity, of planning or of
/// execution, is about sessions.
pub proof fn law_sessions_words(summary: &TaskSummary, words: &Vec<String>, hint: DependencyHint)
    requires
        call_ensures(dependency_hint, (summary, words), hint),
        !says_identity(summary),
        !says(summary, "plan"@),
        !says_execution(summary),
    ensures
        says(summary, "session"@) ==> hint is Sessions,
        says(summary, "resume"@) ==> hint is Sessions,
        hint is Sessions ==> says_sessions(summary),
{
    law_planning_words(summary, words, hint);
}

/// A task that says `dashboard`, `show` or `list`, and no word of identity, of planning,
/// of execution or of sessions, is about visibility.
pub proof fn law_visibility_words(summary: &TaskSummary, words: &Vec<String>, hint: DependencyHint)
    requires
        call_ensures(dependency_hint, (summary, words), hint),
        !says_identity(summary),
        !says(summary, "plan"@),
        !says_execution(summary),
        !says_sessions(summary),
    ensures
        says(summary, "dashboard"@) ==> hint is Visibility,
        says(summary, "show"@) ==> hint is Visibility,
        says(summary, "list"@) ==> hint is Visibility,
        hint is Visibility ==> says(summary, "dashboard"@) || says(summary, "show"@) || says(summary, "list"@),
{
    law_planning_words(summary, words, hint);
}

/// A task that says `agent` or one of `words`, and no word of an earlier category, is
/// about the support of agents; one that says none of all these words is general.
pub proof fn law_agent_support_words(summary: &TaskSummary, words: &Vec<String>, hint: DependencyHint)
    requires
        call_ensures(dependency_hint, (summary, words), hint),
        !says_identity(summary),
        !says(summary, "plan"@),
        !says_execution(summary),
        !says_sessions(summary),
        !says(summary, "dashboard"@),
        !says(summary, "show"@),
        !says(summary, "list"@),
    ensures
        says(summary, "agent"@) ==> hint is AgentSupport,
        forall|i: int| 0 <= i < words@.len() && says(summary, (#[trigger] words@[i])@) ==> hint is AgentSupport,
        !says(summary, "agent"@) && (forall|i: int|
            0 <= i < words@.len() ==> !says(summary, (#[trigger] words@[i])@)) ==> hint is General,
{
    law_planning_words(summary, words, hint);
    let text = lower(summary.title@) + " "@ + summary.path@;
    let all = words.deep_view();
    assert forall|i: int| 0 <= i < words@.len() && says(summary, (#[trigger] words@[i])@) implies hint is AgentSupport by {
        assert(holds(text, all[i]));
    }
    if names_any(text, all) {
        let i = choose|i: int| 0 <= i < all.len() && holds(text, #[trigger] all[i]);
        assert(says(summary, words@[i]@));
    }
}

/// Whether `a` may stand before `b` in a plan by what they are about: identity first,
/// then planning, execution, sessions, visibility, the support of agents, and what is
/// general last.
pub open spec fn may_come_before(a: DependencyHint, b: DependencyHint) -> bool {
    match b {
        DependencyHint::Identity => a is Identity,
        DependencyHint::Planning => a is Identity || a is Planning,
        DependencyHint::Execution => a is Identity || a is Planning || a is Execution,
        DependencyHint::Sessions => !(a is Visibility || a is AgentSupport || a is General),
        DependencyHint::Visibility => !(a is AgentSupport || a is General),
        DependencyHint::AgentSupport => !(a is General),
        DependencyHint::General => true,
    }
}

/// A plan holds the tasks that it is made of, each once, in order of what they are about;
/// among those about the same in order of their numbers, the ones without a number last;
/// among those of the same number in order of their paths; and otherwise as they came.
pub proof fn law_plans_are_in_order(tasks: Vec<PlanTask>, plan: Vec<PlanTask>)
    requires
        call_ensures(arrange, (tasks,), plan),
    ensures
        plan@.to_multiset() == tasks@.to_multiset(),
        exists|places: Seq<int>|
            #![trigger places.len()]
            places.len() == plan@.len() && forall|i: int, j: int|
                #![trigger places[i], places[j]]
                0 <= i < j < plan@.len() ==> {
                    let (a, b) = (plan@[i], plan@[j]);
                    &&& 0 <= places[i] < tasks@.len() && a == tasks@[places[i]]
                    &&& 0 <= places[j] < tasks@.len() && b == tasks@[places[j]]
                    &&& may_come_before(a.dependency_hint, b.dependency_hint)
                    &&& a.dependency_hint == b.dependency_hint ==> {
                        &&& a.summary.id is Some && b.summary.id is Some ==> a.summary.id->0 <= b.summary.id->0
                        &&& a.summary.id is None && b.summary.id is Some ==> b.summary.id->0 == u64::MAX
                        &&& a.summary.id == b.summary.id ==> !path_before(b.summary.path@, a.summary.path@)
                        &&& a.summary.id == b.summary.id && a.summary.path@ == b.summary.path@ ==> places[i] < places[j]
                    }
                },
{
    let places = choose|places: Seq<int>| #[trigger] arranged(tasks@, plan@, places);
    law_plans_are_complete(tasks@, plan@, places);
    assert forall|i: int, j: int|
        #![trigger places[i], places[j]]
        0 <= i < j < plan@.len() implies {
        let (a, b) = (plan@[i], plan@[j]);
        &&& 0 <= places[i] < tasks@.len() && a == tasks@[places[i]]
        &&& 0 <= places[j] < tasks@.len() && b == tasks@[places[j]]
        &&& may_come_before(a.dependency_hint, b.dependency_hint)
        &&& a.dependency_hint == b.dependency_hint ==> {
            &&& a.summary.id is Some && b.summary.id is Some ==> a.summary.id->0 <= b.summary.id->0
            &&& a.summary.id is None && b.summary.id is Some ==> b.summary.id->0 == u64::MAX
            &&& a.summary.id == b.summary.id ==> !path_before(b.summary.path@, a.summary.path@)
            &&& a.summary.id == b.summary.id && a.summary.path@ == b.summary.path@ ==> places[i] < places[j]
        }
    } by {
        let (a, b) = (plan@[i], plan@[j]);
        assert(!precedes(b, a));
        assert(goes_first(tasks@, places[i], places[j]));
        if a.summary.path@ == b.summary.path@ {
            lemma_list_before_irreflexive(path_weights(a.summary.path@));
        }
    }
}

/// A task of a plan is the task that it is made of, shown under the role or else the
/// agent that its project routes it to.
pub proof fn law_planned_tasks_are_routed(
    config: &Config,
    words: &Vec<String>,
    loaded: &LoadedTask,
    task: PlanTask,
    hint: DependencyHint,
)
    requires
        measurable(config, loaded),
        call_ensures(plan_task, (config, words, loaded), Ok(task)),
        call_ensures(dependency_hint, (&loaded.summary, words), hint),
        loaded.document is Ok ==> prompt_bytes(config, &loaded.document->Ok_0, false, loaded.sizes) <= usize::MAX,
    ensures
        loaded.document is Ok,
        exists|matched: RouteMatch| #[trigger]
            routed_by_project(config, &loaded.document->Ok_0, false, loaded.sizes, matched) && task.route_glob@
                == matched.glob@ && task.agent@ == (if matched.role is Some {
                matched.role->0@
            } else {
                matched.agent@
            }),
        task.summary@ == loaded.summary@,
        task.dependency_hint == hint,
{
    let matched = choose|route: RouteMatch| #[trigger]
        task_routed(config, &loaded.document->Ok_0, false, loaded.sizes, Ok(route)) && task.agent@
            == route.shown_name() && task.route_glob@ == route.glob@;
    lemma_routed_by_project(config, &loaded.document->Ok_0, false, loaded.sizes, matched);
}

/// A plan holds what each ready task comes to, each once, and in the order of what they are
/// about.
pub proof fn law_every_ready_task_is_planned(
    config: &Config,
    words: &Vec<String>,
    ready: &Vec<LoadedTask>,
    plan: Vec<PlanTask>,
)
    requires
        forall|i: int| 0 <= i < ready@.len() ==> measurable(config, &#[trigger] ready@[i]),
        call_ensures(plan_tasks, (config, words, ready), Ok(plan)),
    ensures
        plan@.len() == ready@.len(),
        exists|places: Seq<int>| #[trigger]
            comes_from(config, words.deep_view(), ready@, plan@, places),
{
    let (tasks, places) = choose|tasks: Seq<PlanTask>, places: Seq<int>|
        #![trigger all_planned(config, words.deep_view(), ready@, tasks), arranged(tasks, plan@, places)]
        all_planned(config, words.deep_view(), ready@, tasks) && arranged(tasks, plan@, places);
    law_plans_are_complete(tasks, plan@, places);
    assert forall|i: int| 0 <= i < places.len() implies 0 <= #[trigger] places[i] < ready@.len() && planned(
        config,
        words.deep_view(),
        &ready@[places[i]],
        plan@[i],
    ) by {
        assert(planned(config, words.deep_view(), &ready@[places[i]], tasks[places[i]]));
    }
    assert forall|i: int, j: int| 0 <= i < j < places.len() implies #[trigger] places[i] != #[trigger] places[j]
        && may_come_before(plan@[i].dependency_hint, plan@[j].dependency_hint) by {
        assert(goes_first(tasks, places[i], places[j]));
        assert(!precedes(plan@[j], plan@[i]));
    }
    assert(comes_from(config, words.deep_view(), ready@, plan@, places));
}

/// Whether each task of a plan is what the ready task at its place comes to, no two of one, and
/// the plan is in the order of what they are about.
pub open spec fn comes_from(
    config: &Config,
    words: Seq<Seq<char>>,
    ready: Seq<LoadedTask>,
    plan: Seq<PlanTask>,
    places: Seq<int>,
) -> bool {
    &&& places.len() == plan.len()
    &&& forall|i: int|
        0 <= i < places.len() ==> 0 <= #[trigger] places[i] < ready.len() && planned(
            config,
            words,
            &ready[places[i]],
            plan[i],
        )
    &&& forall|i: int, j: int|
        0 <= i < j < places.len() ==> #[trigger] places[i] != #[trigger] places[j] && may_come_before(
            plan[i].dependency_hint,
            plan[j].dependency_hint,
        )
}

/// The stages of a plan follow its order: what may come before another is of no later stage.
pub proof fn law_stages_follow_the_order(a: DependencyHint, b: DependencyHint, stage_a: &str, stage_b: &str)
    requires
        may_come_before(a, b),
        call_ensures(DependencyHint::stage, (a,), stage_a),
        call_ensures(DependencyHint::stage, (b,), stage_b),
    ensures
        stage_a@.len() > 7 && stage_b@.len() > 7,
        stage_a@[6] <= stage_b@[6],
        '1' <= stage_a@[6] <= '6',
{
    lemma_stage(a);
    lemma_stage(b);
}

proof fn lemma_stage(hint: DependencyHint)
    ensures
        hint.stage_text().len() > 7,
        hint.stage_text()[6] == (match hint {
            DependencyHint::Identity => '1',
            DependencyHint::Planning => '2',
            DependencyHint::Execution => '3',
            DependencyHint::Sessions => '4',
            DependencyHint::Visibility => '4',
            DependencyHint::AgentSupport => '5',
            DependencyHint::General => '6',
        }),
{
    reveal_strlit("Stage 1, sequential");
    reveal_strlit("Stage 2, sequential");
    reveal_strlit("Stage 3, sequential");
    reveal_strlit("Stage 4, parallel candidate");
    reveal_strlit("Stage 5, optional parallel candidate");
    reveal_strlit("Stage 6, sequential validation");
}

} // verus!
