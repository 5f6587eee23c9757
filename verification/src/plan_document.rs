//! The markdown of a plan, and the JSON that it is run from.

use vstd::prelude::*;
use vstd::string::*;

use crate::config::Config;
use crate::frontmatter::{mapping_text, mapping_yaml};
use crate::json::{Field, FieldView, Row};
use crate::order::{lemma_selection_empty, lemma_selection_push, selection};
use crate::paths::{below, file_name, join_path, last_name};
use crate::plan::{DependencyHint, PlanTask};
use crate::task::{copy_summary, SummaryView, TaskStatus, TaskSummary};
use crate::text::{
    decimal, decimal_of, holds, holds_in_order, lemma_four_in_order, lemma_holds_within, lemma_in_order_empty,
    lemma_in_order_joined, lemma_in_order_push, same, stripped_leading, trim_end, trimmed_end, without_leading,
};

verus! {

// ---------------------------------------------------------------------------
// Which tasks a plan is about
// ---------------------------------------------------------------------------

/// What a list of summaries says.
pub open spec fn summary_views(tasks: Seq<TaskSummary>) -> Seq<SummaryView> {
    Seq::new(tasks.len(), |i: int| tasks[i]@)
}

/// Those of `tasks` that are ready, in order.
pub open spec fn ready_among(tasks: Seq<SummaryView>) -> Seq<SummaryView>
    decreases tasks.len(),
{
    if tasks.len() == 0 {
        Seq::empty()
    } else if tasks.last().status == TaskStatus::Ready {
        ready_among(tasks.drop_last()).push(tasks.last())
    } else {
        ready_among(tasks.drop_last())
    }
}

/// Those of `tasks` that are ready, in order.
pub fn ready_tasks(tasks: &Vec<TaskSummary>) -> (ready: Vec<TaskSummary>)
    ensures
        summary_views(ready@) == ready_among(summary_views(tasks@)),
{
    let ghost all = summary_views(tasks@);
    let mut ready: Vec<TaskSummary> = Vec::new();
    let mut i: usize = 0;
    assert(summary_views(ready@) =~= ready_among(all.take(0)));
    while i < tasks.len()
        invariant
            all == summary_views(tasks@),
            i <= tasks@.len(),
            summary_views(ready@) == ready_among(all.take(i as int)),
        decreases tasks@.len() - i,
    {
        let ghost before = summary_views(ready@);
        let ghost next = all.take(i + 1);
        assert(next.drop_last() =~= all.take(i as int));
        assert(next.last() == tasks@[i as int]@);
        if tasks[i].status == TaskStatus::Ready {
            ready.push(copy_summary(&tasks[i]));
            assert(summary_views(ready@) =~= before.push(tasks@[i as int]@));
        }
        i += 1;
    }
    assert(all.take(i as int) =~= all);
    ready
}

/// Whether a plan is about one project or about all of them.
#[derive(Debug, Clone, Copy, PartialEq, Eq, Structural)]
pub enum PlanScope {
    Project,
    Global,
}

impl PlanScope {
    /// The word for the scope.
    pub open spec fn word(self) -> Seq<char> {
        match self {
            PlanScope::Project => "project"@,
            PlanScope::Global => "global"@,
        }
    }

    /// The word for the scope.
    pub fn as_str(self) -> (word: &'static str)
        ensures
            word@ == self.word(),
    {
        match self {
            PlanScope::Project => "project",
            PlanScope::Global => "global",
        }
    }
}

/// The scope of a plan: the project where any task refers to it, or else everything.
pub fn plan_scope(project_tasks: usize) -> (scope: PlanScope)
    ensures
        scope == (if project_tasks == 0 {
            PlanScope::Global
        } else {
            PlanScope::Project
        }),
{
    if project_tasks == 0 {
        PlanScope::Global
    } else {
        PlanScope::Project
    }
}

/// Why the tasks of a plan were considered.
pub open spec fn selection_text(scope: PlanScope, project: Seq<char>) -> Seq<char> {
    match scope {
        PlanScope::Global =>
            "the current folder is not known as a Varda project because no tasks reference "@ + project
                + "; all tasks across all projects were considered"@,
        PlanScope::Project =>
            "the current folder is known as a Varda project because tasks in the Varda task store reference "@ + project
                + "; only this project's tasks were considered"@,
    }
}

/// Why the tasks of a plan were considered.
pub fn selection_reason(scope: PlanScope, project_path: &str) -> (text: String)
    ensures
        text@ == selection_text(scope, project_path@),
{
    match scope {
        PlanScope::Global =>
            "the current folder is not known as a Varda project because no tasks reference ".to_owned().concat(
                project_path,
            ).concat("; all tasks across all projects were considered"),
        PlanScope::Project =>
            "the current folder is known as a Varda project because tasks in the Varda task store reference ".to_owned().concat(
                project_path,
            ).concat("; only this project's tasks were considered"),
    }
}

/// The file of a plan.
pub open spec fn plan_document_file(
    operations_dir: Seq<char>,
    scope: PlanScope,
    project: Seq<char>,
    timestamp: u64,
) -> Seq<char> {
    let name = match last_name(project) {
        Some(name) => name,
        None => "workspace"@,
    };
    below(
        below(operations_dir, "plans"@),
        scope.word() + "-"@ + name + "-ready-task-plan-"@ + decimal(timestamp as nat) + ".md"@,
    )
}

/// The file of a plan.
pub fn plan_document_path(config: &Config, scope: PlanScope, project_path: &str, timestamp: u64) -> (path: String)
    ensures
        path@ == plan_document_file(config.defaults.operations_dir@, scope, project_path@, timestamp),
{
    let name = match file_name(project_path) {
        Some(name) => name,
        None => "workspace".to_owned(),
    };
    let file = scope.as_str().to_owned().concat("-").concat(name.as_str()).concat("-ready-task-plan-").concat(
        decimal_of(timestamp).as_str(),
    ).concat(".md");
    let plans = join_path(config.defaults.operations_dir.as_str(), "plans");
    join_path(plans.as_str(), file.as_str())
}

// ---------------------------------------------------------------------------
// The markdown
// ---------------------------------------------------------------------------

/// The number of a task, as a plan shows it.
pub open spec fn id_label(id: Option<u64>) -> Seq<char> {
    match id {
        Some(id) => "#"@ + decimal(id as nat),
        None => "unversioned"@,
    }
}

/// The number of a task, as a plan shows it.
pub fn shown_id(id: Option<u64>) -> (text: String)
    ensures
        text@ == id_label(id),
{
    match id {
        Some(id) => "#".to_owned().concat(decimal_of(id).as_str()),
        None => "unversioned".to_owned(),
    }
}

/// The line of one ready task.
pub open spec fn ready_line(task: PlanTask) -> Seq<char> {
    let project = match task.summary.project {
        Some(project) => project@,
        None => "no project"@,
    };
    "- "@ + id_label(task.summary.id) + " `"@ + task.summary.path@ + "`: "@ + task.summary.title@ + " (project: `"@
        + project + "`, agent: "@ + task.agent@ + ", route: `"@ + task.route_glob@ + "`, category: "@
        + task.dependency_hint.label_text() + ")\n"@
}

fn ready_line_of(task: &PlanTask) -> (line: String)
    ensures
        line@ == ready_line(*task),
{
    let project = match &task.summary.project {
        Some(project) => project.as_str(),
        None => "no project",
    };
    "- ".to_owned().concat(shown_id(task.summary.id).as_str()).concat(" `").concat(task.summary.path.as_str()).concat(
        "`: ",
    ).concat(task.summary.title.as_str()).concat(" (project: `").concat(project).concat("`, agent: ").concat(
        task.agent.as_str(),
    ).concat(", route: `").concat(task.route_glob.as_str()).concat("`, category: ").concat(
        task.dependency_hint.label(),
    ).concat(")\n")
}

/// The lines of the ready tasks.
pub open spec fn ready_lines(tasks: Seq<PlanTask>) -> Seq<char>
    decreases tasks.len(),
{
    if tasks.len() == 0 {
        Seq::empty()
    } else {
        ready_lines(tasks.drop_last()) + ready_line(tasks.last())
    }
}

/// The lines that say why each task has its place.
pub open spec fn reason_lines(tasks: Seq<PlanTask>) -> Seq<char>
    decreases tasks.len(),
{
    if tasks.len() == 0 {
        Seq::empty()
    } else {
        reason_lines(tasks.drop_last()) + ("- `"@ + tasks.last().summary.title@ + "`: "@
            + tasks.last().dependency_hint.reason_text() + ".\n"@)
    }
}

/// How the line of a task begins: with its stage, where that is not the stage of the
/// task before it.
pub open spec fn stage_lead(before: Option<DependencyHint>, hint: DependencyHint) -> Seq<char> {
    if before matches Some(last) && last.stage_text() == hint.stage_text() {
        "- Same stage: "@
    } else {
        "- "@ + hint.stage_text() + ": "@
    }
}

/// The hint of the last of `tasks`.
pub open spec fn last_hint(tasks: Seq<PlanTask>) -> Option<DependencyHint> {
    if tasks.len() == 0 {
        None
    } else {
        Some(tasks.last().dependency_hint)
    }
}

/// The lines of the stages.
pub open spec fn stage_lines(tasks: Seq<PlanTask>) -> Seq<char>
    decreases tasks.len(),
{
    if tasks.len() == 0 {
        Seq::empty()
    } else {
        let task = tasks.last();
        stage_lines(tasks.drop_last()) + (stage_lead(last_hint(tasks.drop_last()), task.dependency_hint) + "`"@
            + task.summary.title@ + "` assigned to `"@ + task.agent@ + "`.\n"@)
    }
}

fn ready_section(tasks: &Vec<PlanTask>) -> (text: String)
    ensures
        text@ == ready_lines(tasks@),
{
    let mut text = String::new();
    let mut i: usize = 0;
    assert(text@ =~= ready_lines(tasks@.take(0)));
    while i < tasks.len()
        invariant
            i <= tasks@.len(),
            text@ == ready_lines(tasks@.take(i as int)),
        decreases tasks@.len() - i,
    {
        assert(tasks@.take(i + 1).drop_last() =~= tasks@.take(i as int));
        text.append(ready_line_of(&tasks[i]).as_str());
        i += 1;
    }
    assert(tasks@.take(i as int) =~= tasks@);
    text
}

fn reason_section(tasks: &Vec<PlanTask>) -> (text: String)
    ensures
        text@ == reason_lines(tasks@),
{
    let mut text = String::new();
    let mut i: usize = 0;
    assert(text@ =~= reason_lines(tasks@.take(0)));
    while i < tasks.len()
        invariant
            i <= tasks@.len(),
            text@ == reason_lines(tasks@.take(i as int)),
        decreases tasks@.len() - i,
    {
        assert(tasks@.take(i + 1).drop_last() =~= tasks@.take(i as int));
        let line = "- `".to_owned().concat(tasks[i].summary.title.as_str()).concat("`: ").concat(
            tasks[i].dependency_hint.reason(),
        ).concat(".\n");
        text.append(line.as_str());
        i += 1;
    }
    assert(tasks@.take(i as int) =~= tasks@);
    text
}

fn stage_section(tasks: &Vec<PlanTask>) -> (text: String)
    ensures
        text@ == stage_lines(tasks@),
{
    let mut text = String::new();
    let mut last: Option<DependencyHint> = None;
    let mut i: usize = 0;
    assert(text@ =~= stage_lines(tasks@.take(0)));
    while i < tasks.len()
        invariant
            i <= tasks@.len(),
            last == last_hint(tasks@.take(i as int)),
            text@ == stage_lines(tasks@.take(i as int)),
        decreases tasks@.len() - i,
    {
        assert(tasks@.take(i + 1).drop_last() =~= tasks@.take(i as int));
        let task = &tasks[i];
        let stage = task.dependency_hint.stage();
        let repeated = match last {
            Some(hint) => same(hint.stage(), stage),
            None => false,
        };
        let lead = if repeated {
            "- Same stage: ".to_owned()
        } else {
            "- ".to_owned().concat(stage).concat(": ")
        };
        let line = lead.concat("`").concat(task.summary.title.as_str()).concat("` assigned to `").concat(
            task.agent.as_str(),
        ).concat("`.\n");
        text.append(line.as_str());
        last = Some(task.dependency_hint);
        i += 1;
    }
    assert(tasks@.take(i as int) =~= tasks@);
    text
}

/// What stands at the head of a plan.
pub open spec fn plan_head_row(
    scope: PlanScope,
    project: Seq<char>,
    timestamp: u64,
    selection: Seq<char>,
    considered: usize,
    ready: nat,
) -> Seq<(Seq<char>, FieldView)> {
    seq![
        ("plan_type"@, FieldView::Text("ready_task_execution_plan"@)),
        ("scope"@, FieldView::Text(scope.word())),
        ("project"@, FieldView::Text(project)),
        ("generated_timestamp"@, FieldView::Count(timestamp)),
        ("tasks_evaluated"@, FieldView::Count(considered as u64)),
        ("ready_tasks"@, FieldView::Count(ready as u64)),
        ("planner_agent"@, FieldView::Text("codex"@)),
        ("selection_reason"@, FieldView::Text(selection)),
        ("requires_user_confirmation"@, FieldView::Flag(true)),
    ]
}

/// What stands at the head of a plan.
pub fn plan_head(
    scope: PlanScope,
    project_path: &str,
    timestamp: u64,
    selection_reason: &str,
    considered_tasks_count: usize,
    ready_tasks: &Vec<PlanTask>,
) -> (row: Row)
    ensures
        row.deep_view() == plan_head_row(
            scope,
            project_path@,
            timestamp,
            selection_reason@,
            considered_tasks_count,
            ready_tasks@.len(),
        ),
{
    let mut row: Row = Vec::new();
    row.push(("plan_type".to_owned(), Field::Text("ready_task_execution_plan".to_owned())));
    row.push(("scope".to_owned(), Field::Text(scope.as_str().to_owned())));
    row.push(("project".to_owned(), Field::Text(project_path.to_owned())));
    row.push(("generated_timestamp".to_owned(), Field::Count(timestamp)));
    row.push(("tasks_evaluated".to_owned(), Field::Count(considered_tasks_count as u64)));
    row.push(("ready_tasks".to_owned(), Field::Count(ready_tasks.len() as u64)));
    row.push(("planner_agent".to_owned(), Field::Text("codex".to_owned())));
    row.push(("selection_reason".to_owned(), Field::Text(selection_reason.to_owned())));
    row.push(("requires_user_confirmation".to_owned(), Field::Flag(true)));
    assert(row.deep_view() =~= plan_head_row(
        scope,
        project_path@,
        timestamp,
        selection_reason@,
        considered_tasks_count,
        ready_tasks@.len(),
    ));
    row
}

/// The part of a plan above its lists.
pub open spec fn plan_preamble(
    scope: PlanScope,
    project: Seq<char>,
    timestamp: u64,
    selection: Seq<char>,
    considered: usize,
    ready: nat,
    yaml: Seq<char>,
) -> Seq<char> {
    "---\n"@ + trim_end(without_leading(yaml, "---\n"@)) + "\n---\n\n# "@ + (match scope {
        PlanScope::Project => "Project"@,
        PlanScope::Global => "Global"@,
    }) + " Ready Task Execution Plan\n\n- Scope: "@ + scope.word() + "\n- Generated timestamp: "@ + decimal(
        timestamp as nat,
    ) + "\n- Project: `"@ + project + "`\n- Selection rule: "@ + selection + ".\n- Tasks evaluated: "@ + decimal(
        considered as nat,
    ) + "\n- Ready tasks: "@ + decimal(ready)
        + "\n- Planner agent: codex\n- Execution should wait for explicit user confirmation.\n\n"@
}

/// The lists of a plan.
pub open spec fn plan_lists(tasks: Seq<PlanTask>) -> Seq<char> {
    "## Ready Tasks\n\n"@ + (if tasks.len() == 0 {
        "No ready tasks were found.\n\n"@
    } else {
        ready_lines(tasks) + "\n"@
    }) + "## Priority And Dependencies\n\n"@ + (if tasks.len() == 0 {
        "- No ready work is available to prioritize.\n\n"@
    } else {
        reason_lines(tasks) + "\n"@
    }) + "## Execution Stages\n\n"@ + (if tasks.len() == 0 {
        "No execution stages are needed until a task is ready.\n\n"@
    } else {
        stage_lines(tasks)
            + "- Final gate: review this plan, edit it if needed, and confirm before executing the ready set.\n\n"@
    }) + "## Review Gate\n\n"@
        + "The next step is user review. The plan should be confirmed or edited before Varda executes the ready tasks.\n"@
}

fn plan_sections(tasks: &Vec<PlanTask>) -> (text: String)
    ensures
        text@ == plan_lists(tasks@),
{
    let (ready, reasons, stages) = if tasks.len() == 0 {
        (
            "No ready tasks were found.\n\n".to_owned(),
            "- No ready work is available to prioritize.\n\n".to_owned(),
            "No execution stages are needed until a task is ready.\n\n".to_owned(),
        )
    } else {
        (
            ready_section(tasks).concat("\n"),
            reason_section(tasks).concat("\n"),
            stage_section(tasks).concat(
                "- Final gate: review this plan, edit it if needed, and confirm before executing the ready set.\n\n",
            ),
        )
    };
    "## Ready Tasks\n\n".to_owned().concat(ready.as_str()).concat("## Priority And Dependencies\n\n").concat(
        reasons.as_str(),
    ).concat("## Execution Stages\n\n").concat(stages.as_str()).concat("## Review Gate\n\n").concat(
        "The next step is user review. The plan should be confirmed or edited before Varda executes the ready tasks.\n",
    )
}

/// The markdown of a plan, `yaml` being what stands at its head.
pub fn render_execution_plan(
    scope: PlanScope,
    project_path: &str,
    timestamp: u64,
    selection_reason: &str,
    considered_tasks_count: usize,
    ready_tasks: &Vec<PlanTask>,
    yaml: &str,
) -> (content: String)
    ensures
        content@ == plan_preamble(
            scope,
            project_path@,
            timestamp,
            selection_reason@,
            considered_tasks_count,
            ready_tasks@.len(),
            yaml@,
        ) + plan_lists(ready_tasks@),
{
    let frontmatter = trimmed_end(stripped_leading(yaml, "---\n").as_str());
    let title_scope = match scope {
        PlanScope::Project => "Project",
        PlanScope::Global => "Global",
    };
    let preamble = "---\n".to_owned().concat(frontmatter.as_str()).concat("\n---\n\n# ").concat(title_scope).concat(
        " Ready Task Execution Plan\n\n- Scope: ",
    ).concat(scope.as_str()).concat("\n- Generated timestamp: ").concat(decimal_of(timestamp).as_str()).concat(
        "\n- Project: `",
    ).concat(project_path).concat("`\n- Selection rule: ").concat(selection_reason).concat(
        ".\n- Tasks evaluated: ",
    ).concat(decimal_of(considered_tasks_count as u64).as_str()).concat("\n- Ready tasks: ").concat(
        decimal_of(ready_tasks.len() as u64).as_str(),
    ).concat("\n- Planner agent: codex\n- Execution should wait for explicit user confirmation.\n\n");
    preamble.concat(plan_sections(ready_tasks).as_str())
}

/// The markdown of a plan, where its head can be written.
pub fn execution_plan(
    scope: PlanScope,
    project_path: &str,
    timestamp: u64,
    selection_reason: &str,
    considered_tasks_count: usize,
    ready_tasks: &Vec<PlanTask>,
) -> (content: Option<String>)
    ensures
        content.deep_view() == (match mapping_yaml(
            plan_head_row(
                scope,
                project_path@,
                timestamp,
                selection_reason@,
                considered_tasks_count,
                ready_tasks@.len(),
            ),
        ) {
            Some(yaml) => Some(
                plan_preamble(
                    scope,
                    project_path@,
                    timestamp,
                    selection_reason@,
                    considered_tasks_count,
                    ready_tasks@.len(),
                    yaml,
                ) + plan_lists(ready_tasks@),
            ),
            None => None,
        }),
{
    let head = plan_head(scope, project_path, timestamp, selection_reason, considered_tasks_count, ready_tasks);
    match mapping_text(&head) {
        Some(yaml) => Some(
            render_execution_plan(
                scope,
                project_path,
                timestamp,
                selection_reason,
                considered_tasks_count,
                ready_tasks,
                yaml.as_str(),
            ),
        ),
        None => None,
    }
}

/// What is shown once a plan has been written.
pub fn plan_report(
    scope: PlanScope,
    selection_reason: &str,
    project_path: &str,
    considered: usize,
    ready: usize,
    plan_path: &str,
) -> (text: String)
    ensures
        text@ == "scope: "@ + scope.word() + "\nselection: "@ + selection_reason@ + "\nproject: "@ + (match scope {
            PlanScope::Project => project_path@,
            PlanScope::Global => "none detected for current directory"@,
        }) + "\nconsidered_tasks: "@ + decimal(considered as nat) + "\nready_tasks: "@ + decimal(ready as nat)
            + "\nplan: "@ + plan_path@ + "\nreview the plan, edit if needed, then confirm before running tasks\n"@,
{
    let project = match scope {
        PlanScope::Project => project_path,
        PlanScope::Global => "none detected for current directory",
    };
    "scope: ".to_owned().concat(scope.as_str()).concat("\nselection: ").concat(selection_reason).concat(
        "\nproject: ",
    ).concat(project).concat("\nconsidered_tasks: ").concat(decimal_of(considered as u64).as_str()).concat(
        "\nready_tasks: ",
    ).concat(decimal_of(ready as u64).as_str()).concat("\nplan: ").concat(plan_path).concat(
        "\nreview the plan, edit if needed, then confirm before running tasks\n",
    )
}

// ---------------------------------------------------------------------------
// Laws
// ---------------------------------------------------------------------------

/// A plan is about the tasks that are ready, all of them, in order.
pub proof fn law_plans_are_about_ready_tasks(tasks: &Vec<TaskSummary>, ready: Vec<TaskSummary>)
    requires
        call_ensures(ready_tasks, (tasks,), ready),
    ensures
        selection(summary_views(tasks@), |i: int| tasks@[i].status is Ready, summary_views(ready@)),
{
    let keep = |i: int| tasks@[i].status is Ready;
    let views = summary_views(tasks@);
    assert forall|i: int| 0 <= i < views.len() implies #[trigger] keep(i) == (views[i].status is Ready) by {}
    lemma_ready_among(views, keep);
}

proof fn lemma_ready_among(views: Seq<SummaryView>, keep: spec_fn(int) -> bool)
    requires
        forall|i: int| 0 <= i < views.len() ==> #[trigger] keep(i) == (views[i].status is Ready),
    ensures
        selection(views, keep, ready_among(views)),
    decreases views.len(),
{
    if views.len() == 0 {
        lemma_selection_empty::<SummaryView>(keep);
        assert(views =~= Seq::empty());
    } else {
        lemma_ready_among(views.drop_last(), keep);
        lemma_selection_push(views, keep, ready_among(views.drop_last()));
        assert(keep(views.len() - 1) == (views[views.len() - 1].status is Ready));
    }
}

/// A plan is for the project where any task refers to that, and else for everything; the
/// reason that is given names the project.
pub proof fn law_plans_are_for_the_project_where_it_is_known(
    project_tasks: usize,
    scope: PlanScope,
    project: &str,
    reason: String,
)
    requires
        call_ensures(plan_scope, (project_tasks,), scope),
        call_ensures(selection_reason, (scope, project), reason),
    ensures
        scope is Project <==> project_tasks > 0,
        holds(reason@, project@),
        scope is Project ==> holds(reason@, "only this project's tasks were considered"@),
        scope is Global ==> holds(reason@, "all tasks across all projects were considered"@),
{
    match scope {
        PlanScope::Global => {
            let head = "the current folder is not known as a Varda project because no tasks reference "@;
            let tail = "; all tasks across all projects were considered"@;
            let words = "all tasks across all projects were considered"@;
            lemma_holds_within(head, project@, tail);
            reveal_strlit("; all tasks across all projects were considered");
            reveal_strlit("all tasks across all projects were considered");
            reveal_strlit("; ");
            assert(tail =~= "; "@ + words);
            lemma_holds_within(head + project@ + "; "@, words, Seq::empty());
            assert(reason@ =~= (head + project@ + "; "@) + words + Seq::<char>::empty());
        },
        PlanScope::Project => {
            let head =
                "the current folder is known as a Varda project because tasks in the Varda task store reference "@;
            let tail = "; only this project's tasks were considered"@;
            let words = "only this project's tasks were considered"@;
            lemma_holds_within(head, project@, tail);
            reveal_strlit("; only this project's tasks were considered");
            reveal_strlit("only this project's tasks were considered");
            reveal_strlit("; ");
            assert(tail =~= "; "@ + words);
            lemma_holds_within(head + project@ + "; "@, words, Seq::empty());
            assert(reason@ =~= (head + project@ + "; "@) + words + Seq::<char>::empty());
        },
    }
}

/// The files, the titles and the agents of the tasks of a plan.
pub open spec fn planned_paths(tasks: Seq<PlanTask>) -> Seq<Seq<char>> {
    Seq::new(tasks.len(), |i: int| tasks[i].summary.path@)
}

/// The titles of the tasks of a plan.
pub open spec fn planned_titles(tasks: Seq<PlanTask>) -> Seq<Seq<char>> {
    Seq::new(tasks.len(), |i: int| tasks[i].summary.title@)
}

/// The agents of the tasks of a plan.
pub open spec fn planned_agents(tasks: Seq<PlanTask>) -> Seq<Seq<char>> {
    Seq::new(tasks.len(), |i: int| tasks[i].agent@)
}

proof fn lemma_ready_lines(tasks: Seq<PlanTask>)
    ensures
        holds_in_order(ready_lines(tasks), planned_paths(tasks)),
    decreases tasks.len(),
{
    if tasks.len() == 0 {
        lemma_in_order_empty(ready_lines(tasks));
        assert(planned_paths(tasks) =~= Seq::empty());
    } else {
        let front = tasks.drop_last();
        let task = tasks.last();
        lemma_ready_lines(front);
        let lead = "- "@ + id_label(task.summary.id) + " `"@;
        let tail = lemma_ready_line(task);
        lemma_in_order_push(ready_lines(front), planned_paths(front), lead, task.summary.path@, tail);
        assert(planned_paths(tasks) =~= planned_paths(front).push(task.summary.path@));
    }
}

/// The line of a task names its file.
proof fn lemma_ready_line(task: PlanTask) -> (tail: Seq<char>)
    ensures
        ready_line(task) == "- "@ + id_label(task.summary.id) + " `"@ + task.summary.path@ + tail,
{
    let head = "- "@ + id_label(task.summary.id) + " `"@ + task.summary.path@;
    let tail = ready_line(task).skip(head.len() as int);
    assert(ready_line(task) =~= head + tail);
    tail
}

proof fn lemma_stage_lines(tasks: Seq<PlanTask>)
    ensures
        holds_in_order(stage_lines(tasks), planned_titles(tasks)),
        holds_in_order(stage_lines(tasks), planned_agents(tasks)),
    decreases tasks.len(),
{
    if tasks.len() == 0 {
        lemma_in_order_empty(stage_lines(tasks));
        assert(planned_titles(tasks) =~= Seq::empty());
        assert(planned_agents(tasks) =~= Seq::empty());
    } else {
        let front = tasks.drop_last();
        let task = tasks.last();
        let before = stage_lines(front);
        lemma_stage_lines(front);
        let lead = stage_lead(last_hint(front), task.dependency_hint) + "`"@;
        let end = "`.\n"@;
        let middle = "` assigned to `"@;
        let tail = middle + task.agent@ + end;
        let head = lead + task.summary.title@ + middle;
        lemma_in_order_push(before, planned_titles(front), lead, task.summary.title@, tail);
        lemma_in_order_push(before, planned_agents(front), head, task.agent@, end);
        assert(stage_lines(tasks) =~= before + (lead + task.summary.title@ + tail));
        assert(stage_lines(tasks) =~= before + (head + task.agent@ + end));
        assert(planned_titles(tasks) =~= planned_titles(front).push(task.summary.title@));
        assert(planned_agents(tasks) =~= planned_agents(front).push(task.agent@));
    }
}

proof fn lemma_reason_lines(tasks: Seq<PlanTask>)
    ensures
        holds_in_order(
            reason_lines(tasks),
            Seq::new(tasks.len(), |i: int| tasks[i].dependency_hint.reason_text()),
        ),
    decreases tasks.len(),
{
    let reasons = Seq::new(tasks.len(), |i: int| tasks[i].dependency_hint.reason_text());
    if tasks.len() == 0 {
        lemma_in_order_empty(reason_lines(tasks));
        assert(reasons =~= Seq::empty());
    } else {
        let front = tasks.drop_last();
        let task = tasks.last();
        lemma_reason_lines(front);
        let front_reasons = Seq::new(front.len(), |i: int| front[i].dependency_hint.reason_text());
        let lead = "- `"@ + task.summary.title@ + "`: "@;
        lemma_in_order_push(reason_lines(front), front_reasons, lead, task.dependency_hint.reason_text(), ".\n"@);
        assert(reasons =~= front_reasons.push(task.dependency_hint.reason_text()));
    }
}

/// A plan names the project, how many tasks were looked at and how many are ready, and then
/// the file, the agent, the reason and the stage of each ready task, each list in the order of
/// the plan.
pub proof fn law_plans_list_every_task_in_order(
    scope: PlanScope,
    project: &str,
    timestamp: u64,
    reason: &str,
    considered: usize,
    tasks: &Vec<PlanTask>,
    yaml: &str,
    content: String,
)
    requires
        call_ensures(render_execution_plan, (scope, project, timestamp, reason, considered, tasks, yaml), content),
    ensures
        holds_in_order(content@, seq![decimal(timestamp as nat), project@, reason@, decimal(considered as nat)]),
        holds(content@, "Ready tasks: "@ + decimal(tasks@.len())),
        holds_in_order(content@, planned_paths(tasks@)),
        holds_in_order(content@, planned_titles(tasks@)),
        holds_in_order(content@, planned_agents(tasks@)),
        holds_in_order(
            content@,
            Seq::new(tasks@.len(), |i: int| tasks@[i].dependency_hint.reason_text()),
        ),
{
    let preamble = plan_preamble(scope, project@, timestamp, reason@, considered, tasks@.len(), yaml@);
    let lists = plan_lists(tasks@);
    let title = match scope {
        PlanScope::Project => "Project"@,
        PlanScope::Global => "Global"@,
    };
    let head = "---\n"@ + trim_end(without_leading(yaml@, "---\n"@)) + "\n---\n\n# "@ + title
        + " Ready Task Execution Plan\n\n- Scope: "@ + scope.word() + "\n- Generated timestamp: "@;
    let count = decimal(tasks@.len());
    let end = "\n- Planner agent: codex\n- Execution should wait for explicit user confirmation.\n\n"@;
    let tail = "\n- Ready tasks: "@ + count + end + lists;
    lemma_four_in_order(
        head,
        decimal(timestamp as nat),
        "\n- Project: `"@,
        project@,
        "`\n- Selection rule: "@,
        reason@,
        ".\n- Tasks evaluated: "@,
        decimal(considered as nat),
        tail,
    );
    assert(content@ =~= head + decimal(timestamp as nat) + "\n- Project: `"@ + project@ + "`\n- Selection rule: "@
        + reason@ + ".\n- Tasks evaluated: "@ + decimal(considered as nat) + tail);
    reveal_strlit("\n- Ready tasks: ");
    reveal_strlit("\n- ");
    reveal_strlit("Ready tasks: ");
    let before = head + decimal(timestamp as nat) + "\n- Project: `"@ + project@ + "`\n- Selection rule: "@ + reason@
        + ".\n- Tasks evaluated: "@ + decimal(considered as nat) + "\n- "@;
    assert("\n- Ready tasks: "@ =~= "\n- "@ + "Ready tasks: "@);
    lemma_holds_within(before, "Ready tasks: "@ + count, end + lists);
    assert(content@ =~= before + ("Ready tasks: "@ + count) + (end + lists));
    lemma_plan_lists(preamble, tasks@);
}

/// What stands in the lists of a plan stands in the plan.
proof fn lemma_to_the_end(preamble: Seq<char>, lists: Seq<char>, tasks: Seq<PlanTask>, parts: Seq<Seq<char>>)
    requires
        holds_in_order(lists, parts),
        plan_lists(tasks) == lists + "## Review Gate\n\n"@
            + "The next step is user review. The plan should be confirmed or edited before Varda executes the ready tasks.\n"@,
    ensures
        holds_in_order(preamble + plan_lists(tasks), parts),
{
    let gate = "## Review Gate\n\n"@;
    let words =
        "The next step is user review. The plan should be confirmed or edited before Varda executes the ready tasks.\n"@;
    lemma_in_order_joined(lists, gate, parts);
    lemma_in_order_joined(lists + gate, words, parts);
    lemma_in_order_joined(plan_lists(tasks), preamble, parts);
}

proof fn lemma_plan_lists(preamble: Seq<char>, tasks: Seq<PlanTask>)
    ensures
        holds_in_order(preamble + plan_lists(tasks), planned_paths(tasks)),
        holds_in_order(preamble + plan_lists(tasks), planned_titles(tasks)),
        holds_in_order(preamble + plan_lists(tasks), planned_agents(tasks)),
        holds_in_order(
            preamble + plan_lists(tasks),
            Seq::new(tasks.len(), |i: int| tasks[i].dependency_hint.reason_text()),
        ),
{
    let content = preamble + plan_lists(tasks);
    let reasons = Seq::new(tasks.len(), |i: int| tasks[i].dependency_hint.reason_text());
    if tasks.len() == 0 {
        lemma_in_order_empty(content);
        assert(planned_paths(tasks) =~= Seq::empty());
        assert(planned_titles(tasks) =~= Seq::empty());
        assert(planned_agents(tasks) =~= Seq::empty());
        assert(reasons =~= Seq::empty());
    } else {
        let gate =
            "- Final gate: review this plan, edit it if needed, and confirm before executing the ready set.\n\n"@;
        let one = "## Ready Tasks\n\n"@ + (ready_lines(tasks) + "\n"@);
        let two = one + "## Priority And Dependencies\n\n"@ + (reason_lines(tasks) + "\n"@);
        let three = two + "## Execution Stages\n\n"@ + (stage_lines(tasks) + gate);
        lemma_ready_lines(tasks);
        lemma_reason_lines(tasks);
        lemma_stage_lines(tasks);
        lemma_in_order_joined(ready_lines(tasks), "\n"@, planned_paths(tasks));
        lemma_in_order_joined(ready_lines(tasks) + "\n"@, "## Ready Tasks\n\n"@, planned_paths(tasks));
        lemma_in_order_joined(one, "## Priority And Dependencies\n\n"@, planned_paths(tasks));
        let to_reasons = one + "## Priority And Dependencies\n\n"@;
        lemma_in_order_joined(to_reasons, reason_lines(tasks) + "\n"@, planned_paths(tasks));
        lemma_in_order_joined(reason_lines(tasks), "\n"@, reasons);
        lemma_in_order_joined(reason_lines(tasks) + "\n"@, to_reasons, reasons);
        let to_stages = two + "## Execution Stages\n\n"@;
        lemma_in_order_joined(two, "## Execution Stages\n\n"@, planned_paths(tasks));
        lemma_in_order_joined(two, "## Execution Stages\n\n"@, reasons);
        lemma_in_order_joined(to_stages, stage_lines(tasks) + gate, planned_paths(tasks));
        lemma_in_order_joined(to_stages, stage_lines(tasks) + gate, reasons);
        lemma_in_order_joined(stage_lines(tasks), gate, planned_titles(tasks));
        lemma_in_order_joined(stage_lines(tasks), gate, planned_agents(tasks));
        lemma_in_order_joined(stage_lines(tasks) + gate, to_stages, planned_titles(tasks));
        lemma_in_order_joined(stage_lines(tasks) + gate, to_stages, planned_agents(tasks));
        lemma_to_the_end(preamble, three, tasks, planned_paths(tasks));
        lemma_to_the_end(preamble, three, tasks, planned_titles(tasks));
        lemma_to_the_end(preamble, three, tasks, planned_agents(tasks));
        lemma_to_the_end(preamble, three, tasks, reasons);
    }
}

/// The head of a plan says its scope, its project, when it was made, how many tasks were looked
/// at, how many are ready and why, and that the user has to confirm it.
pub proof fn law_heads_say_what_the_plan_is_about(
    scope: PlanScope,
    project: &str,
    timestamp: u64,
    reason: &str,
    considered: usize,
    tasks: &Vec<PlanTask>,
    row: Row,
)
    requires
        call_ensures(plan_head, (scope, project, timestamp, reason, considered, tasks), row),
    ensures
        ({
            let head = row.deep_view();
            &&& head.len() == 9
            &&& head[1] == ("scope"@, FieldView::Text(scope.word()))
            &&& head[2] == ("project"@, FieldView::Text(project@))
            &&& head[3] == ("generated_timestamp"@, FieldView::Count(timestamp))
            &&& head[4] == ("tasks_evaluated"@, FieldView::Count(considered as u64))
            &&& head[5] == ("ready_tasks"@, FieldView::Count(tasks@.len() as u64))
            &&& head[7] == ("selection_reason"@, FieldView::Text(reason@))
            &&& head[8] == ("requires_user_confirmation"@, FieldView::Flag(true))
        }),
{
}

/// The report of a plan says how many tasks were looked at, how many are ready and where the
/// plan lies.
pub proof fn law_reports_say_where_the_plan_lies(
    scope: PlanScope,
    reason: &str,
    project: &str,
    considered: usize,
    ready: usize,
    plan_path: &str,
    text: String,
)
    requires
        call_ensures(plan_report, (scope, reason, project, considered, ready, plan_path), text),
    ensures
        holds_in_order(
            text@,
            seq![reason@, decimal(considered as nat), decimal(ready as nat), plan_path@],
        ),
        scope is Project ==> holds(text@, "\nproject: "@ + project@ + "\n"@),
{
    let shown = match scope {
        PlanScope::Project => project@,
        PlanScope::Global => "none detected for current directory"@,
    };
    let head = "scope: "@ + scope.word() + "\nselection: "@;
    let to_count = "\nproject: "@ + shown + "\nconsidered_tasks: "@;
    let tail = "\nreview the plan, edit if needed, then confirm before running tasks\n"@;
    lemma_four_in_order(
        head,
        reason@,
        to_count,
        decimal(considered as nat),
        "\nready_tasks: "@,
        decimal(ready as nat),
        "\nplan: "@,
        plan_path@,
        tail,
    );
    assert(text@ =~= head + reason@ + to_count + decimal(considered as nat) + "\nready_tasks: "@ + decimal(ready as nat)
        + "\nplan: "@ + plan_path@ + tail);
    if scope is Project {
        reveal_strlit("\n");
        reveal_strlit("\nconsidered_tasks: ");
        reveal_strlit("considered_tasks: ");
        let part = "\nproject: "@ + project@ + "\n"@;
        let rest = "considered_tasks: "@ + decimal(considered as nat) + "\nready_tasks: "@ + decimal(ready as nat)
            + "\nplan: "@ + plan_path@ + tail;
        assert("\nconsidered_tasks: "@ =~= "\n"@ + "considered_tasks: "@);
        lemma_holds_within(head + reason@, part, rest);
        assert(text@ =~= (head + reason@) + part + rest);
    }
}

} // verus!
