//! Running a plan: turning its markdown into JSON with the help of an agent, and
//! running the tasks that the JSON lists.

use vstd::prelude::*;
use vstd::string::*;

use crate::config::Config;
use crate::execution::{plan_request, AgentRunRequest, RequestView};
use crate::frontmatter::{front_matter_text, head_text};
use crate::order::{before, lists_in_order};
use crate::plan::PlanTask;
use crate::plan_document::{id_label, shown_id};
use crate::task::{copy_text, FrontmatterView, TaskBounds, TaskFrontmatter, TaskStatus};
use crate::text::{chars_of, decimal, decimal_of, first_of, lemma_first_of_bounds, position, same, string_of};

verus! {

// ---------------------------------------------------------------------------
// The JSON in what an agent wrote
// ---------------------------------------------------------------------------

/// The position of the last `c` in `text`, or minus one.
pub open spec fn last_of(text: Seq<char>, c: char) -> int
    decreases text.len(),
{
    if text.len() == 0 {
        -1
    } else if text.last() == c {
        text.len() - 1
    } else {
        last_of(text.drop_last(), c)
    }
}

pub const NO_JSON: &'static str = "agent output did not contain JSON";

pub const INCOMPLETE_JSON: &'static str = "agent output did not contain a complete JSON object";

/// The part of a text from its first opening brace to its last closing one.
pub open spec fn braced(output: Seq<char>) -> Result<Seq<char>, Seq<char>> {
    let start = first_of(output, '{');
    let end = last_of(output, '}');
    if start == output.len() {
        Err(NO_JSON@)
    } else if end < start {
        Err(INCOMPLETE_JSON@)
    } else {
        Ok(output.subrange(start, end + 1))
    }
}

/// The part of `output` from its first opening brace to its last closing one.
pub fn extract_json_object(output: &str) -> (json: Result<String, String>)
    ensures
        match json {
            Ok(json) => braced(output@) == Ok::<Seq<char>, Seq<char>>(json@),
            Err(text) => braced(output@) == Err::<Seq<char>, Seq<char>>(text@),
        },
{
    let chars = chars_of(output);
    assert(chars@.skip(0) =~= chars@);
    let start = position(&chars, '{', 0);
    if start == chars.len() {
        return Err(NO_JSON.to_owned());
    }
    proof {
        lemma_first_of_bounds(chars@, '{');
    }
    // `end` is one more than the position of the last closing brace.
    let mut end: usize = chars.len();
    assert(chars@.take(end as int) =~= chars@);
    while end > 0 && chars[end - 1] != '}'
        invariant
            end <= chars@.len(),
            last_of(chars@.take(end as int), '}') == last_of(chars@, '}'),
        decreases end,
    {
        assert(chars@.take(end as int).drop_last() =~= chars@.take(end - 1));
        end -= 1;
    }
    if end <= start {
        return Err(INCOMPLETE_JSON.to_owned());
    }
    Ok(string_of(&chars, start, end))
}

// ---------------------------------------------------------------------------
// The JSON of a plan
// ---------------------------------------------------------------------------

/// The schema of the JSON of a plan.
pub const PLAN_SCHEMA: &'static str = "varda.execution_plan.v1";

/// One task in the JSON of a plan.
#[derive(Debug, Clone, PartialEq, Eq)]
pub struct JsonExecutionTask {
    pub path: String,
    pub id: Option<u64>,
    pub title: Option<String>,
    pub agent: Option<String>,
    pub project: Option<String>,
    pub stage: Option<String>,
    pub parallel_group: Option<String>,
}

/// The JSON of a plan.
#[derive(Debug, Clone, PartialEq, Eq)]
pub struct JsonExecutionPlan {
    pub schema: String,
    pub source_plan: String,
    pub tasks: Vec<JsonExecutionTask>,
}

/// The report of a plan in another schema.
pub open spec fn schema_text(schema: Seq<char>) -> Seq<char> {
    "unsupported execution plan JSON schema '"@ + schema + "'"@
}

/// Accepts a plan whose schema is known.
pub fn accept_plan(plan: JsonExecutionPlan) -> (accepted: Result<JsonExecutionPlan, String>)
    ensures
        match accepted {
            Ok(same) => plan.schema@ == PLAN_SCHEMA@ && same == plan,
            Err(text) => plan.schema@ != PLAN_SCHEMA@ && text@ == schema_text(plan.schema@),
        },
{
    if same(plan.schema.as_str(), PLAN_SCHEMA) {
        Ok(plan)
    } else {
        Err("unsupported execution plan JSON schema '".to_owned().concat(plan.schema.as_str()).concat("'"))
    }
}

/// Accepts a plan that an agent wrote. Where it was made from is not the agent's to
/// say.
pub fn adopt_plan(plan: JsonExecutionPlan, plan_path: &str) -> (adopted: Result<JsonExecutionPlan, String>)
    ensures
        match adopted {
            Ok(adopted) => {
                &&& plan.schema@ == PLAN_SCHEMA@
                &&& adopted.schema == plan.schema
                &&& adopted.source_plan@ == plan_path@
                &&& adopted.tasks == plan.tasks
            },
            Err(text) => plan.schema@ != PLAN_SCHEMA@ && text@ == schema_text(plan.schema@),
        },
{
    match accept_plan(plan) {
        Ok(plan) => Ok(
            JsonExecutionPlan { schema: plan.schema, source_plan: plan_path.to_owned(), tasks: plan.tasks },
        ),
        Err(text) => Err(text),
    }
}

/// The files of the tasks of a plan, in order.
pub fn plan_task_paths(plan: &JsonExecutionPlan) -> (paths: Vec<String>)
    ensures
        paths.deep_view() == Seq::new(plan.tasks@.len(), |i: int| plan.tasks@[i].path@),
{
    let mut paths: Vec<String> = Vec::new();
    let mut i: usize = 0;
    while i < plan.tasks.len()
        invariant
            i <= plan.tasks@.len(),
            paths@.len() == i,
            forall|j: int| 0 <= j < i ==> (#[trigger] paths@[j])@ == plan.tasks@[j].path@,
        decreases plan.tasks@.len() - i,
    {
        paths.push(plan.tasks[i].path.clone());
        i += 1;
    }
    assert(paths.deep_view() =~= Seq::new(plan.tasks@.len(), |i: int| plan.tasks@[i].path@));
    paths
}

// ---------------------------------------------------------------------------
// The agent that writes the JSON
// ---------------------------------------------------------------------------

/// The agent that a plan names at its head.
pub fn plan_planner_agent(content: &str) -> (agent: Option<String>)
    ensures
        agent.deep_view() == head_text(content@, "planner_agent"@),
{
    front_matter_text(content, "planner_agent")
}

/// The agent that turns a plan into JSON: the one that the plan names, or else the
/// first one configured. It has to be configured.
pub open spec fn transformer(config: &Config, named: Option<Seq<char>>) -> Result<Seq<char>, Seq<char>> {
    let name = match named {
        Some(name) => Some(name),
        None => if config.agents.keys().len() > 0 {
            Some(config.agents.keys()[0])
        } else {
            None
        },
    };
    match name {
        Some(name) => if config.agents@.dom().contains(name) {
            Ok(name)
        } else {
            Err("plan transformer agent '"@ + name + "' is not configured"@)
        },
        None => Err("no configured agent is available to transform the plan"@),
    }
}

/// Chooses the agent that turns a plan into JSON, `named` being the one that the plan
/// names.
pub fn choose_transformer(config: &Config, named: Option<String>) -> (agent: Result<String, String>)
    ensures
        match agent {
            Ok(name) => transformer(config, named.deep_view()) == Ok::<Seq<char>, Seq<char>>(name@),
            Err(text) => transformer(config, named.deep_view()) == Err::<Seq<char>, Seq<char>>(text@),
        },
{
    let name = match named {
        Some(name) => name,
        None => if config.agents.len() > 0 {
            config.agents.key_at(0).clone()
        } else {
            return Err("no configured agent is available to transform the plan".to_owned());
        },
    };
    if config.agents.contains(name.as_str()) {
        Ok(name)
    } else {
        Err("plan transformer agent '".to_owned().concat(name.as_str()).concat("' is not configured"))
    }
}

/// Chooses the agent that turns a plan into JSON.
pub fn plan_transformer(config: &Config, content: &str) -> (agent: Result<String, String>)
    ensures
        match agent {
            Ok(name) => transformer(config, head_text(content@, "planner_agent"@)) == Ok::<Seq<char>, Seq<char>>(
                name@,
            ),
            Err(text) => transformer(config, head_text(content@, "planner_agent"@)) == Err::<Seq<char>, Seq<char>>(
                text@,
            ),
        },
{
    choose_transformer(config, plan_planner_agent(content))
}

pub const TRANSFORM_LEAD: &'static str =
    "# Transform Execution Plan To JSON\n\nReturn only JSON using schema `varda.execution_plan.v1`.\n\nThe JSON shape is:\n\n```json\n{\"schema\":\"varda.execution_plan.v1\",\"source_plan\":\"";

pub const TRANSFORM_SHAPE: &'static str =
    "\",\"tasks\":[{\"path\":\"/absolute/or/resolvable/task.md\",\"id\":1,\"title\":\"Task title\",\"agent\":\"codex\",\"project\":\"/project\",\"stage\":\"Stage 1\",\"parallel_group\":\"group-1\"}]}\n```\n\nInclude every task that should be executed from this plan. Omit optional fields when unknown.\n\nPlan markdown:\n\n";

/// The request that asks an agent for the JSON of a plan.
pub fn transform_request(agent: &str, plan_path: &str, content: &str, timeout: u64, session_id: &str) -> (request:
    AgentRunRequest)
    ensures
        request@ == (RequestView {
            agent_name: agent@,
            role_instructions: None,
            task_path: plan_path@,
            frontmatter: transform_task(agent@),
            body: TRANSFORM_LEAD@ + plan_path@ + TRANSFORM_SHAPE@ + content@,
            timeout,
            session_id: session_id@,
            session_log_path: None,
            interactive: false,
            interpret: false,
            stream: false,
            resume_command: None,
            orchestration_socket_path: None,
            orchestration_addr: None,
        }),
{
    let body = TRANSFORM_LEAD.to_owned().concat(plan_path).concat(TRANSFORM_SHAPE).concat(content);
    let frontmatter = transform_frontmatter(agent);
    plan_request(agent, None, plan_path, &frontmatter, body.as_str(), timeout, session_id)
}

/// The frontmatter that goes with a request for the JSON of a plan: a ready task that
/// nothing is known of but who is to do it.
pub open spec fn transform_task(agent: Seq<char>) -> FrontmatterView {
    FrontmatterView {
        id: None,
        status: TaskStatus::Ready,
        project: None,
        mother_project: None,
        assignee: Some(agent),
        sandbox: None,
        recap: None,
        recaps: Seq::empty(),
        plan: None,
        agent_session_id: None,
        agent_session_log: None,
        agent_session_ids: Seq::empty(),
        agent_session_logs: Seq::empty(),
        agent_resume_commands: Seq::empty(),
        allow_commands: Seq::empty(),
        bounds: TaskBounds { idle_timeout: None, max_seconds: None, max_continuations: None, max_tool_calls: None },
        requires_user: false,
    }
}

/// The frontmatter that goes with a request for the JSON of a plan.
pub fn transform_frontmatter(agent: &str) -> (frontmatter: TaskFrontmatter)
    ensures
        frontmatter@ == transform_task(agent@),
{
    let frontmatter = TaskFrontmatter {
        id: None,
        status: TaskStatus::Ready,
        project: None,
        mother_project: None,
        assignee: Some(agent.to_owned()),
        sandbox: None,
        recap: None,
        recaps: Vec::new(),
        plan: None,
        agent_session_id: None,
        agent_session_log: None,
        agent_session_ids: Vec::new(),
        agent_session_logs: Vec::new(),
        agent_resume_commands: Vec::new(),
        allow_commands: Vec::new(),
        bounds: TaskBounds { idle_timeout: None, max_seconds: None, max_continuations: None, max_tool_calls: None },
        requires_user: false,
    };
    assert(frontmatter.recaps.deep_view() =~= Seq::empty());
    frontmatter
}

// ---------------------------------------------------------------------------
// What is run
// ---------------------------------------------------------------------------

/// What a run is about.
#[derive(Debug, PartialEq, Eq)]
pub enum RunTarget {
    Task(String),
    Plan(String),
    /// Every task that is ready.
    Ready,
}

/// What a [`RunTarget`] says.
pub enum RunTargetView {
    Task(Seq<char>),
    Plan(Seq<char>),
    Ready,
}

impl View for RunTarget {
    type V = RunTargetView;

    open spec fn view(&self) -> RunTargetView {
        match *self {
            RunTarget::Task(path) => RunTargetView::Task(path@),
            RunTarget::Plan(path) => RunTargetView::Plan(path@),
            RunTarget::Ready => RunTargetView::Ready,
        }
    }
}

pub const BOTH_TARGETS: &'static str = "pass either --task <TASK> or a plan path, not both";

/// Decides what a run is about. A path that stands where a plan may stand is a task
/// where it can be read as one.
pub fn run_target(task: Option<&str>, plan: Option<&str>, looks_like_task: bool) -> (target: Result<RunTarget, String>)
    ensures
        match (task, plan) {
            (Some(_), Some(_)) => target matches Err(text) && text@ == BOTH_TARGETS@,
            (Some(task), None) => target matches Ok(target) && target@ == RunTargetView::Task(task@),
            (None, Some(path)) => target matches Ok(target) && target@ == (if looks_like_task {
                RunTargetView::Task(path@)
            } else {
                RunTargetView::Plan(path@)
            }),
            (None, None) => target matches Ok(target) && target@ == RunTargetView::Ready,
        },
{
    match (task, plan) {
        (Some(_), Some(_)) => Err(BOTH_TARGETS.to_owned()),
        (Some(task), None) => Ok(RunTarget::Task(task.to_owned())),
        (None, Some(path)) => if looks_like_task {
            Ok(RunTarget::Task(path.to_owned()))
        } else {
            Ok(RunTarget::Plan(path.to_owned()))
        },
        (None, None) => Ok(RunTarget::Ready),
    }
}

/// The line that announces a ready task before it is run.
pub fn announced_task(task: &PlanTask) -> (line: String)
    ensures
        line@ == "  "@ + id_label(task.summary.id) + " "@ + task.summary.title@ + " (agent: "@ + task.agent@
            + ", category: "@ + task.dependency_hint.label_text() + ")"@,
{
    "  ".to_owned().concat(shown_id(task.summary.id).as_str()).concat(" ").concat(task.summary.title.as_str()).concat(
        " (agent: ",
    ).concat(task.agent.as_str()).concat(", category: ").concat(task.dependency_hint.label()).concat(")")
}

/// The message of the commit that keeps a task as it was before its run.
pub fn snapshot_message(task_path: &str) -> (message: String)
    ensures
        message@ == "Snapshot task "@ + task_path@ + " before run"@,
{
    "Snapshot task ".to_owned().concat(task_path).concat(" before run")
}

/// How one of several runs went.
#[derive(Debug, PartialEq, Eq)]
pub struct ParallelRunReport {
    pub task_path: String,
    pub agent: String,
    pub glob: String,
    pub status: TaskStatus,
    pub recap_path: String,
    pub project: Option<String>,
}

/// The line that reports a run.
pub fn processed_line(report: &ParallelRunReport) -> (line: String)
    ensures
        line@ == "processed task="@ + report.task_path@ + " agent="@ + report.agent@ + " glob="@ + report.glob@
            + " status="@ + report.status.name() + " recap="@ + report.recap_path@,
{
    "processed task=".to_owned().concat(report.task_path.as_str()).concat(" agent=").concat(
        report.agent.as_str(),
    ).concat(" glob=").concat(report.glob.as_str()).concat(" status=").concat(report.status.debug_name()).concat(
        " recap=",
    ).concat(report.recap_path.as_str())
}

/// Whether the user is told about a task that has come to rest.
pub fn notifies(status: TaskStatus) -> (told: bool)
    ensures
        told == (status == TaskStatus::NeedsUser),
{
    status == TaskStatus::NeedsUser
}

/// What is done once one of several runs has ended.
#[derive(Debug, PartialEq, Eq)]
pub struct ParallelStep {
    /// Tell the user that the task waits for them.
    pub notify: bool,
    /// Commit the files that the agent touched, in this project.
    pub commit_agent_files: Option<String>,
    /// Commit the task, its recap and its log.
    pub commit_task: bool,
}

/// Decides what is done once one of several runs has ended.
pub fn after_parallel_run(config: &Config, report: &ParallelRunReport) -> (step: ParallelStep)
    ensures
        step.notify == (report.status == TaskStatus::NeedsUser),
        step.commit_task == config.git.auto_commit,
        step.commit_agent_files.deep_view() == (if config.git.auto_commit {
            report.project.deep_view()
        } else {
            None
        }),
{
    ParallelStep {
        notify: notifies(report.status),
        commit_agent_files: if config.git.auto_commit {
            copy_text(&report.project)
        } else {
            None
        },
        commit_task: config.git.auto_commit,
    }
}

/// How several runs went together.
pub fn parallel_outcome(failures: usize) -> (outcome: Result<(), String>)
    ensures
        match outcome {
            Ok(()) => failures == 0,
            Err(text) => failures > 0 && text@ == decimal(failures as nat) + " task(s) failed"@,
        },
{
    if failures > 0 {
        Err(decimal_of(failures as u64).concat(" task(s) failed"))
    } else {
        Ok(())
    }
}

// ---------------------------------------------------------------------------
// Laws
// ---------------------------------------------------------------------------

proof fn lemma_last_of(text: Seq<char>, c: char)
    ensures
        -1 <= last_of(text, c) < text.len(),
        last_of(text, c) >= 0 ==> text[last_of(text, c)] == c,
        forall|i: int| last_of(text, c) < i < text.len() ==> #[trigger] text[i] != c,
    decreases text.len(),
{
    if text.len() > 0 && text.last() != c {
        let front = text.drop_last();
        lemma_last_of(front, c);
        assert forall|i: int| last_of(text, c) < i < text.len() implies #[trigger] text[i] != c by {
            if i < front.len() {
                assert(front[i] == text[i]);
            }
        }
    }
}

/// The JSON in what an agent wrote goes from the first opening brace to the last closing one:
/// nothing before it holds an opening brace, and nothing after it a closing one. There is none
/// exactly where no closing brace follows an opening one.
pub proof fn law_json_goes_from_brace_to_brace(output: &str, json: Result<String, String>)
    requires
        call_ensures(extract_json_object, (output,), json),
    ensures
        match json {
            Ok(json) => json@.len() > 1 && json@[0] == '{' && json@.last() == '}' && exists|
                before: Seq<char>,
                after: Seq<char>,
            |
                output@ == #[trigger] (before + json@ + after) && !before.contains('{') && !after.contains('}'),
            Err(_) => forall|i: int, j: int|
                0 <= i < j < output@.len() && output@[i] == '{' ==> #[trigger] output@[i] != '{' || #[trigger] output@[j]
                    != '}',
        },
{
    let text = output@;
    lemma_first_of_bounds(text, '{');
    lemma_last_of(text, '}');
    let start = first_of(text, '{');
    let end = last_of(text, '}');
    if let Ok(found) = json {
        let before = text.take(start);
        let after = text.skip(end + 1);
        assert(text =~= before + found@ + after);
        assert(!before.contains('{')) by {
            if before.contains('{') {
                let i = choose|i: int| 0 <= i < before.len() && before[i] == '{';
                assert(text[i] == '{');
            }
        }
        assert(!after.contains('}')) by {
            if after.contains('}') {
                let i = choose|i: int| 0 <= i < after.len() && after[i] == '}';
                assert(text[end + 1 + i] == '}');
            }
        }
        assert(text[start] == '{' && text[end] == '}');
    }
}

/// Plans of the one schema are accepted, and no others; what is accepted is the plan as it is,
/// but for where it was made from, which the agent that wrote it does not decide.
pub proof fn law_plans_of_the_schema_are_accepted(
    plan: JsonExecutionPlan,
    plan_path: &str,
    accepted: Result<JsonExecutionPlan, String>,
    adopted: Result<JsonExecutionPlan, String>,
)
    requires
        call_ensures(accept_plan, (plan,), accepted),
        call_ensures(adopt_plan, (plan, plan_path), adopted),
    ensures
        accepted is Ok <==> plan.schema@ == "varda.execution_plan.v1"@,
        adopted is Ok <==> plan.schema@ == "varda.execution_plan.v1"@,
        accepted is Ok ==> accepted->Ok_0 == plan,
        adopted is Ok ==> adopted->Ok_0.source_plan@ == plan_path@ && adopted->Ok_0.tasks == plan.tasks,
{
}

/// The tasks of a plan are run in its order.
pub proof fn law_plans_are_run_in_order(plan: &JsonExecutionPlan, paths: Vec<String>)
    requires
        call_ensures(plan_task_paths, (plan,), paths),
    ensures
        paths@.len() == plan.tasks@.len(),
        forall|i: int| 0 <= i < plan.tasks@.len() ==> (#[trigger] paths@[i])@ == plan.tasks@[i].path@,
{
    let all = paths.deep_view();
    assert(all.len() == plan.tasks@.len());
    assert forall|i: int| 0 <= i < plan.tasks@.len() implies (#[trigger] paths@[i])@ == plan.tasks@[i].path@ by {
        assert(all[i] == plan.tasks@[i].path@);
    }
}

/// The agent that turns a plan into JSON is the one that the plan names, where that is
/// configured, and where it names none the first one that is. There is none exactly where the
/// named one is not configured, or none is.
pub proof fn law_plans_name_their_transformer(config: &Config, named: Option<String>, agent: Result<String, String>)
    requires
        lists_in_order(config.agents.keys(), config.agents@.dom()),
        call_ensures(choose_transformer, (config, named), agent),
    ensures
        named matches Some(name) ==> {
            &&& agent is Ok <==> config.agents@.dom().contains(name@)
            &&& agent is Ok ==> agent->Ok_0@ == name@
        },
        named is None ==> {
            &&& agent is Ok <==> exists|name: Seq<char>| config.agents@.dom().contains(name)
            &&& agent is Ok ==> config.agents@.dom().contains(agent->Ok_0@) && forall|other: Seq<char>| #[trigger]
                config.agents@.dom().contains(other) ==> !before(other, agent->Ok_0@)
        },
{
    let keys = config.agents.keys();
    if named is None {
        if keys.len() > 0 {
            assert(keys.contains(keys[0]));
            assert(config.agents@.dom().contains(keys[0]));
            assert forall|other: Seq<char>| #[trigger] config.agents@.dom().contains(other) implies !before(
                other,
                keys[0],
            ) by {
                assert(keys.contains(other));
                let i = choose|i: int| 0 <= i < keys.len() && keys[i] == other;
                crate::order::lemma_before_irreflexive(keys[0]);
                if i > 0 {
                    assert(before(keys[0], keys[i]));
                    if before(other, keys[0]) {
                        crate::order::lemma_before_transitive(other, keys[0], other);
                        crate::order::lemma_before_irreflexive(other);
                    }
                }
            }
        } else {
            assert forall|name: Seq<char>| !config.agents@.dom().contains(name) by {
                if config.agents@.dom().contains(name) {
                    assert(keys.contains(name));
                }
            }
        }
    }
}

/// A run is about the task that is named, or the plan, which is a task where it can be read as
/// one, or, where nothing is named, every task that is ready; never about two things.
pub proof fn law_a_run_is_about_one_thing(
    task: Option<&str>,
    plan: Option<&str>,
    looks_like_task: bool,
    target: Result<RunTarget, String>,
)
    requires
        call_ensures(run_target, (task, plan, looks_like_task), target),
    ensures
        target is Err <==> task is Some && plan is Some,
        task is Some && plan is None ==> target->Ok_0 is Task && target->Ok_0->Task_0@ == task->0@,
        task is None && plan is Some && looks_like_task ==> target->Ok_0 is Task && target->Ok_0->Task_0@ == plan->0@,
        task is None && plan is Some && !looks_like_task ==> target->Ok_0 is Plan && target->Ok_0->Plan_0@ == plan->0@,
        task is None && plan is None ==> target->Ok_0 is Ready,
{
}

/// Once one of several runs has ended, the user is told where its task waits for them, and
/// commits are made exactly where that is wanted: of the task, and, in its project, of what the
/// agent touched.
pub proof fn law_commits_are_made_where_wanted(config: &Config, report: &ParallelRunReport, step: ParallelStep)
    requires
        call_ensures(after_parallel_run, (config, report), step),
    ensures
        step.notify <==> report.status is NeedsUser,
        step.commit_task <==> config.git.auto_commit,
        step.commit_agent_files is Some <==> config.git.auto_commit && report.project is Some,
        step.commit_agent_files matches Some(project) ==> project@ == report.project->0@,
{
}

/// Several runs went well together exactly where none failed; otherwise it is said how many
/// did.
pub proof fn law_failures_are_counted(failures: usize, outcome: Result<(), String>)
    requires
        call_ensures(parallel_outcome, (failures,), outcome),
    ensures
        outcome is Ok <==> failures == 0,
        outcome is Err ==> crate::text::begins(outcome->Err_0@, decimal(failures as nat)),
{
    let count = decimal(failures as nat);
    if outcome is Err {
        assert(outcome->Err_0@.subrange(0, count.len() as int) =~= count);
    }
}

} // verus!
