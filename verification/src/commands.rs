//! What the commands on tasks decide and show.

use vstd::prelude::*;
use vstd::string::*;

use crate::config::Config;
use crate::execution::{add_session, log_file, recap_file, recap_path, session_log_path};
use crate::paths::{absolute, below, file_stem, file_stem_of, is_absolute, join_path, parent, parent_of};
use crate::plan_document::{id_label, shown_id};
use crate::routing::{policy_of, resolve_orchestration_for};
use crate::orchestration::OrchestrationPolicy;
use crate::task::{unknown_status_message, unknown_status_text, TaskDocument, TaskFrontmatter, TaskStatus, TaskSummary};
use crate::order::{lemma_selection_empty, lemma_selection_push, selection};
use crate::text::{
    begins, cat, chars_of, closed_line, contains, decimal, decimal_of, holds, holds_in_order, join, joined,
    lemma_four_in_order, lemma_holds_within, lemma_in_order_empty, lemma_in_order_push, lemma_in_order_within,
    lemma_three_in_order, lemma_two_in_order, pad, padded, same, string_of, trim, trimmed, with_line_end, words,
};

verus! {

// ---------------------------------------------------------------------------
// Showing a task
// ---------------------------------------------------------------------------

/// Where a recap lies: where its path says, where that is absolute or leads to a file,
/// or else beside its task.
pub open spec fn recap_place(recap: Seq<char>, task: Seq<char>, exists_as_is: bool) -> Seq<char> {
    if absolute(recap) || exists_as_is {
        recap
    } else {
        match parent_of(task) {
            Some(parent) => below(parent, recap),
            None => recap,
        }
    }
}

/// Where a recap lies, `exists_as_is` being whether its path leads to a file.
pub fn resolve_recap_path(recap_path: &str, task_path: &str, exists_as_is: bool) -> (path: String)
    ensures
        path@ == recap_place(recap_path@, task_path@, exists_as_is),
{
    if is_absolute(recap_path) || exists_as_is {
        return recap_path.to_owned();
    }
    match parent(task_path) {
        Some(parent) => join_path(parent.as_str(), recap_path),
        None => recap_path.to_owned(),
    }
}

/// A recap that is shown with its task.
#[derive(Debug, PartialEq, Eq)]
pub struct ShownRecap {
    pub path: String,
    pub content: String,
}

/// The recaps of a task, as they are shown.
pub open spec fn recap_pages(recaps: Seq<ShownRecap>) -> Seq<char>
    decreases recaps.len(),
{
    if recaps.len() == 0 {
        Seq::empty()
    } else {
        recap_pages(recaps.drop_last()) + ("# Recap "@ + recaps.last().path@ + "\n\n"@ + closed_line(
            recaps.last().content@,
        ) + "\n---\n\n"@)
    }
}

/// A task and its recaps, as they are shown.
pub open spec fn task_page(path: Seq<char>, content: Seq<char>, recaps: Seq<ShownRecap>) -> Seq<char> {
    "# Task "@ + path + "\n\n"@ + closed_line(content) + "\n---\n\n"@ + (if recaps.len() == 0 {
        "# Recap\n\nNo recap is associated with the task.\n"@
    } else {
        recap_pages(recaps)
    })
}

/// A task and its recaps, as they are shown.
pub fn show_task(task_path: &str, task_content: &str, recaps: &Vec<ShownRecap>) -> (text: String)
    ensures
        text@ == task_page(task_path@, task_content@, recaps@),
{
    let mut pages = String::new();
    let mut i: usize = 0;
    assert(pages@ =~= recap_pages(recaps@.take(0)));
    while i < recaps.len()
        invariant
            i <= recaps@.len(),
            pages@ == recap_pages(recaps@.take(i as int)),
        decreases recaps@.len() - i,
    {
        assert(recaps@.take(i + 1).drop_last() =~= recaps@.take(i as int));
        assert(recaps@.take(i + 1).last() == recaps@[i as int]);
        let page = "# Recap ".to_owned().concat(recaps[i].path.as_str()).concat("\n\n").concat(
            with_line_end(recaps[i].content.as_str()).as_str(),
        ).concat("\n---\n\n");
        pages.append(page.as_str());
        i += 1;
    }
    assert(recaps@.take(i as int) =~= recaps@);
    if recaps.len() == 0 {
        pages = "# Recap\n\nNo recap is associated with the task.\n".to_owned();
    }
    "# Task ".to_owned().concat(task_path).concat("\n\n").concat(with_line_end(task_content).as_str()).concat(
        "\n---\n\n",
    ).concat(pages.as_str())
}

// ---------------------------------------------------------------------------
// Listing tasks
// ---------------------------------------------------------------------------

/// Whether a task is under way: neither put off nor done.
pub fn is_active_task_status(status: TaskStatus) -> (active: bool)
    ensures
        active == (status != TaskStatus::Backlog && status != TaskStatus::Done),
{
    match status {
        TaskStatus::Backlog | TaskStatus::Done => false,
        _ => true,
    }
}

/// A text that fits into `width` characters. One that is longer ends with a dot.
pub open spec fn fitted(value: Seq<char>, width: nat) -> Seq<char> {
    if value.len() <= width {
        value
    } else if width == 0 {
        "."@
    } else {
        value.take(width - 1) + "."@
    }
}

/// A text that fits into `width` characters.
pub fn truncate_for_table(value: &str, width: usize) -> (text: String)
    ensures
        text@ == fitted(value@, width as nat),
{
    let chars = chars_of(value);
    if chars.len() <= width {
        return value.to_owned();
    }
    if width == 0 {
        return ".".to_owned();
    }
    let front = string_of(&chars, 0, width - 1);
    assert(front@ =~= value@.take(width - 1));
    front.concat(".")
}

/// The row of a task.
pub open spec fn table_row(task: TaskSummary) -> Seq<char> {
    padded(
        match task.id {
            Some(id) => decimal(id as nat),
            None => "-"@,
        },
        5,
    ) + " "@ + padded(task.status.word(), 10) + " "@ + padded(
        match task.assignee {
            Some(assignee) => assignee@,
            None => "-"@,
        },
        12,
    ) + " "@ + padded(fitted(task.title@, 32), 32) + " "@ + task.path@ + "\n"@
}

/// The rows of tasks.
pub open spec fn table_rows(tasks: Seq<TaskSummary>) -> Seq<char>
    decreases tasks.len(),
{
    if tasks.len() == 0 {
        Seq::empty()
    } else {
        table_rows(tasks.drop_last()) + table_row(tasks.last())
    }
}

/// The table of the tasks of a project.
pub open spec fn table(project: Seq<char>, tasks: Seq<TaskSummary>) -> Seq<char> {
    "project: "@ + project + "\n"@ + (if tasks.len() == 0 {
        "no tasks found\n"@
    } else {
        padded("ID"@, 5) + " "@ + padded("STATUS"@, 10) + " "@ + padded("ASSIGNEE"@, 12) + " "@ + padded("TITLE"@, 32)
            + " PATH\n"@ + table_rows(tasks)
    })
}

fn table_row_of(task: &TaskSummary) -> (row: String)
    ensures
        row@ == table_row(*task),
{
    let id = match task.id {
        Some(id) => decimal_of(id),
        None => "-".to_owned(),
    };
    let assignee = match &task.assignee {
        Some(assignee) => assignee.as_str(),
        None => "-",
    };
    pad(id.as_str(), 5).concat(" ").concat(pad(task.status.as_str(), 10).as_str()).concat(" ").concat(
        pad(assignee, 12).as_str(),
    ).concat(" ").concat(pad(truncate_for_table(task.title.as_str(), 32).as_str(), 32).as_str()).concat(" ").concat(
        task.path.as_str(),
    ).concat("\n")
}

/// The table of the tasks of a project.
pub fn task_list(project_path: &str, tasks: &Vec<TaskSummary>) -> (text: String)
    ensures
        text@ == table(project_path@, tasks@),
{
    let mut rows = String::new();
    let mut i: usize = 0;
    assert(rows@ =~= table_rows(tasks@.take(0)));
    while i < tasks.len()
        invariant
            i <= tasks@.len(),
            rows@ == table_rows(tasks@.take(i as int)),
        decreases tasks@.len() - i,
    {
        assert(tasks@.take(i + 1).drop_last() =~= tasks@.take(i as int));
        assert(tasks@.take(i + 1).last() == tasks@[i as int]);
        rows.append(table_row_of(&tasks[i]).as_str());
        i += 1;
    }
    assert(tasks@.take(i as int) =~= tasks@);
    let body = if tasks.len() == 0 {
        "no tasks found\n".to_owned()
    } else {
        pad("ID", 5).concat(" ").concat(pad("STATUS", 10).as_str()).concat(" ").concat(
            pad("ASSIGNEE", 12).as_str(),
        ).concat(" ").concat(pad("TITLE", 32).as_str()).concat(" PATH\n").concat(rows.as_str())
    };
    "project: ".to_owned().concat(project_path).concat("\n").concat(body.as_str())
}

// ---------------------------------------------------------------------------
// Changing tasks
// ---------------------------------------------------------------------------

/// Which tasks are changed, and how.
#[derive(Debug, PartialEq, Eq)]
pub struct TaskUpdate {
    pub status: Option<TaskStatus>,
    pub agent: Option<String>,
    /// Only tasks at one of these, where there is any.
    pub at_status: Vec<TaskStatus>,
    /// Only tasks of this one, where there is one.
    pub of_agent: Option<String>,
}

pub const NOTHING_TO_UPDATE: &'static str = "nothing to update: specify --set-status and/or --set-agent";

/// The statuses that words stand for, or the first word that stands for none.
pub open spec fn read_statuses(words: Seq<Seq<char>>) -> Result<Seq<TaskStatus>, Seq<char>>
    decreases words.len(),
{
    if words.len() == 0 {
        Ok(Seq::empty())
    } else {
        match read_statuses(words.drop_last()) {
            Err(text) => Err(text),
            Ok(front) => match TaskStatus::from_word(words.last()) {
                Some(status) => Ok(front.push(status)),
                None => Err(unknown_status_text(words.last())),
            },
        }
    }
}

/// Why a change is refused before any task is looked at.
pub open spec fn update_fault(
    set_status: Option<Seq<char>>,
    set_agent: Option<Seq<char>>,
    filter_status: Seq<Seq<char>>,
) -> Option<Seq<char>> {
    if set_status is None && set_agent is None {
        Some(NOTHING_TO_UPDATE@)
    } else if set_status is Some && TaskStatus::from_word(set_status->0) is None {
        Some(unknown_status_text(set_status->0))
    } else {
        match read_statuses(filter_status) {
            Ok(_) => None,
            Err(text) => Some(text),
        }
    }
}

fn statuses_of(words: &Vec<String>) -> (statuses: Result<Vec<TaskStatus>, String>)
    ensures
        match statuses {
            Ok(statuses) => read_statuses(words.deep_view()) == Ok::<Seq<TaskStatus>, Seq<char>>(statuses@),
            Err(text) => read_statuses(words.deep_view()) == Err::<Seq<TaskStatus>, Seq<char>>(text@),
        },
{
    let ghost all = words.deep_view();
    let mut statuses: Vec<TaskStatus> = Vec::new();
    let mut i: usize = 0;
    assert(statuses@ =~= Seq::empty());
    while i < words.len()
        invariant
            all == words.deep_view(),
            i <= words@.len(),
            read_statuses(all.take(i as int)) == Ok::<Seq<TaskStatus>, Seq<char>>(statuses@),
        decreases words@.len() - i,
    {
        assert(all.take(i + 1).drop_last() =~= all.take(i as int));
        assert(all.take(i + 1).last() == words@[i as int]@);
        match TaskStatus::parse(words[i].as_str()) {
            Some(status) => {
                statuses.push(status);
            },
            None => {
                proof {
                    lemma_read_fault(all, i as int);
                }
                return Err(unknown_status_message(words[i].as_str()));
            },
        }
        i += 1;
    }
    assert(all.take(i as int) =~= all);
    Ok(statuses)
}

/// The first word that stands for no status is the one that is reported.
proof fn lemma_read_fault(words: Seq<Seq<char>>, at: int)
    requires
        0 <= at < words.len(),
        read_statuses(words.take(at + 1)) is Err,
    ensures
        read_statuses(words) == read_statuses(words.take(at + 1)),
    decreases words.len() - at,
{
    if at + 1 < words.len() {
        assert(words.take(at + 2).drop_last() =~= words.take(at + 1));
        lemma_read_fault(words, at + 1);
    } else {
        assert(words.take(at + 1) =~= words);
    }
}

/// Reads which tasks are to be changed, and how.
pub fn read_update(
    set_status: Option<&str>,
    set_agent: Option<&str>,
    filter_status: &Vec<String>,
    filter_agent: Option<&str>,
) -> (update: Result<TaskUpdate, String>)
    ensures
        match update {
            Err(text) => update_fault(set_status.deep_view(), set_agent.deep_view(), filter_status.deep_view()) == Some(
                text@,
            ),
            Ok(update) => {
                &&& update_fault(set_status.deep_view(), set_agent.deep_view(), filter_status.deep_view()) is None
                &&& update.status == (match set_status {
                    Some(word) => TaskStatus::from_word(word@),
                    None => None,
                })
                &&& update.agent.deep_view() == set_agent.deep_view()
                &&& read_statuses(filter_status.deep_view()) == Ok::<Seq<TaskStatus>, Seq<char>>(update.at_status@)
                &&& update.of_agent.deep_view() == filter_agent.deep_view()
            },
        },
{
    if set_status.is_none() && set_agent.is_none() {
        return Err(NOTHING_TO_UPDATE.to_owned());
    }
    let status = match set_status {
        Some(word) => match TaskStatus::parse(word) {
            Some(status) => Some(status),
            None => {
                return Err(unknown_status_message(word));
            },
        },
        None => None,
    };
    let at_status = match statuses_of(filter_status) {
        Ok(statuses) => statuses,
        Err(text) => {
            return Err(text);
        },
    };
    let agent = match set_agent {
        Some(agent) => Some(agent.to_owned()),
        None => None,
    };
    let of_agent = match filter_agent {
        Some(agent) => Some(agent.to_owned()),
        None => None,
    };
    Ok(TaskUpdate { status, agent, at_status, of_agent })
}

/// Whether a task is among those to be changed.
pub open spec fn selected(task: TaskSummary, update: &TaskUpdate) -> bool {
    &&& update.at_status@.len() == 0 || update.at_status@.contains(task.status)
    &&& update.of_agent is Some ==> task.assignee.deep_view() == update.of_agent.deep_view()
}

fn is_selected(task: &TaskSummary, update: &TaskUpdate) -> (is: bool)
    ensures
        is == selected(*task, update),
{
    let mut at = update.at_status.len() == 0;
    let mut i: usize = 0;
    while i < update.at_status.len()
        invariant
            i <= update.at_status@.len(),
            at == (update.at_status@.len() == 0 || exists|j: int|
                0 <= j < i && #[trigger] update.at_status@[j] == task.status),
        decreases update.at_status@.len() - i,
    {
        if update.at_status[i] == task.status {
            at = true;
        }
        i += 1;
    }
    assert(at == (update.at_status@.len() == 0 || update.at_status@.contains(task.status)));
    if !at {
        return false;
    }
    match &update.of_agent {
        Some(agent) => match &task.assignee {
            Some(assignee) => same(assignee.as_str(), agent.as_str()),
            None => false,
        },
        None => true,
    }
}

/// The files of the tasks to be changed, in order.
pub open spec fn selected_paths(tasks: Seq<TaskSummary>, update: &TaskUpdate) -> Seq<Seq<char>>
    decreases tasks.len(),
{
    if tasks.len() == 0 {
        Seq::empty()
    } else if selected(tasks.last(), update) {
        selected_paths(tasks.drop_last(), update).push(tasks.last().path@)
    } else {
        selected_paths(tasks.drop_last(), update)
    }
}

/// The files of the tasks to be changed, in order.
pub fn select_tasks(tasks: &Vec<TaskSummary>, update: &TaskUpdate) -> (paths: Vec<String>)
    ensures
        paths.deep_view() == selected_paths(tasks@, update),
{
    let mut paths: Vec<String> = Vec::new();
    let mut i: usize = 0;
    assert(paths.deep_view() =~= selected_paths(tasks@.take(0), update));
    while i < tasks.len()
        invariant
            i <= tasks@.len(),
            paths.deep_view() == selected_paths(tasks@.take(i as int), update),
        decreases tasks@.len() - i,
    {
        let ghost before = paths.deep_view();
        assert(tasks@.take(i + 1).drop_last() =~= tasks@.take(i as int));
        assert(tasks@.take(i + 1).last() == tasks@[i as int]);
        if is_selected(&tasks[i], update) {
            paths.push(tasks[i].path.clone());
            assert(paths.deep_view() =~= before.push(tasks@[i as int].path@));
        }
        i += 1;
    }
    assert(tasks@.take(i as int) =~= tasks@);
    paths
}

/// Changes a task: its status where one is set, its assignee where one is set, and
/// nothing else.
pub fn apply_update(task: &mut TaskDocument, update: &TaskUpdate)
    ensures
        *final(task) == (TaskDocument {
            frontmatter: TaskFrontmatter {
                status: match update.status {
                    Some(status) => status,
                    None => old(task).frontmatter.status,
                },
                assignee: final(task).frontmatter.assignee,
                ..old(task).frontmatter
            },
            ..*old(task)
        }),
        final(task).frontmatter.assignee.deep_view() == (match update.agent {
            Some(agent) => Some(agent@),
            None => old(task).frontmatter.assignee.deep_view(),
        }),
{
    if let Some(status) = update.status {
        task.set_status(status);
    }
    if let Some(agent) = &update.agent {
        task.set_assignee(agent.clone());
    }
}

// ---------------------------------------------------------------------------
// Running a task
// ---------------------------------------------------------------------------

/// What is shown before a task is run.
pub fn run_banner(id: Option<u64>, title: &str, body: &str) -> (text: String)
    ensures
        text@ == "Running task"@ + (match id {
            Some(id) => " #"@ + decimal(id as nat),
            None => Seq::empty(),
        }) + ": "@ + title@ + "\n\n"@ + trim(body@) + "\n\n---\n\n"@,
{
    let number = match id {
        Some(id) => " #".to_owned().concat(decimal_of(id).as_str()),
        None => String::new(),
    };
    "Running task".to_owned().concat(number.as_str()).concat(": ").concat(title).concat("\n\n").concat(
        trimmed(body).as_str(),
    ).concat("\n\n---\n\n")
}

/// What is shown when one of several tasks is run.
pub fn dispatch_line(id: Option<u64>, title: &str, agent: &str) -> (line: String)
    ensures
        line@ == "dispatching "@ + id_label(id) + " "@ + title@ + " → agent="@ + agent@,
{
    "dispatching ".to_owned().concat(shown_id(id).as_str()).concat(" ").concat(title).concat(" → agent=").concat(
        agent,
    )
}

/// Whether the output of a run is shown as it comes.
pub fn streams(quiet: bool, interactive: bool) -> (shown: bool)
    ensures
        shown == (!quiet && !interactive),
{
    !quiet && !interactive
}

/// The recap of a run, as it is shown.
pub fn recap_block(recap_content: &str) -> (text: String)
    ensures
        text@ == "\n---\n\n"@ + closed_line(recap_content@),
{
    "\n---\n\n".to_owned().concat(with_line_end(recap_content).as_str())
}

/// What is said of commands that a run was not allowed to use.
pub fn blocked_notice(blocked: &Vec<String>) -> (notice: Option<String>)
    ensures
        notice.deep_view() == (if blocked@.len() == 0 {
            None
        } else {
            Some(
                "\nblocked_commands: "@ + join(blocked.deep_view(), ", "@)
                    + "\nhint: add these to the task's `allow_commands` frontmatter and re-run to authorize them headlessly\n"@,
            )
        }),
{
    if blocked.len() == 0 {
        None
    } else {
        Some(
            "\nblocked_commands: ".to_owned().concat(joined(blocked, ", ").as_str()).concat(
                "\nhint: add these to the task's `allow_commands` frontmatter and re-run to authorize them headlessly\n",
            ),
        )
    }
}

/// The message of the commit of the files that an agent touched.
pub fn agent_commit_message(task_path: &str) -> (message: String)
    ensures
        message@ == "Apply task "@ + (match file_stem_of(task_path@) {
            Some(stem) => stem,
            None => "task"@,
        }) + " agent changes"@,
{
    let id = match file_stem(task_path) {
        Some(stem) => stem,
        None => "task".to_owned(),
    };
    "Apply task ".to_owned().concat(id.as_str()).concat(" agent changes")
}

/// Whether `policy` is the policy for the sub-tasks of a task that is run among others:
/// that of the project that the task was parted from, or else of the one that it works in,
/// or else that of the configuration.
pub open spec fn task_policy_of(config: &Config, task: &TaskFrontmatter, policy: &OrchestrationPolicy) -> bool {
    match task.mother_project {
        Some(mother) => policy_of(config, mother@, policy),
        None => match task.project {
            Some(project) => policy_of(config, project@, policy),
            None => *policy == config.orchestration,
        },
    }
}

/// The policy for the sub-tasks of a task that is run among others.
pub fn task_policy<'a>(config: &'a Config, task: &TaskFrontmatter) -> (policy: &'a OrchestrationPolicy)
    ensures
        task_policy_of(config, task, policy),
{
    match &task.mother_project {
        Some(mother) => resolve_orchestration_for(config, mother.as_str()),
        None => match &task.project {
            Some(project) => resolve_orchestration_for(config, project.as_str()),
            None => &config.orchestration,
        },
    }
}

/// Whether `policy` is the policy for the sub-tasks of a task that the user runs: that of
/// the project that the task works in, or else that of the configuration.
pub open spec fn run_policy_of(config: &Config, task: &TaskFrontmatter, policy: &OrchestrationPolicy) -> bool {
    match task.project {
        Some(project) => policy_of(config, project@, policy),
        None => *policy == config.orchestration,
    }
}

/// The policy for the sub-tasks of a task that the user runs.
pub fn run_policy<'a>(config: &'a Config, task: &TaskFrontmatter) -> (policy: &'a OrchestrationPolicy)
    ensures
        run_policy_of(config, task, policy),
{
    match &task.project {
        Some(project) => resolve_orchestration_for(config, project.as_str()),
        None => &config.orchestration,
    }
}

/// Whether a run is served by a broker: its task has a project, for which sub-tasks
/// are enabled.
pub fn is_orchestrated(task: &TaskFrontmatter, policy: &OrchestrationPolicy) -> (served: bool)
    ensures
        served == (task.project is Some && policy.enabled),
{
    task.project.is_some() && policy.enabled
}

// ---------------------------------------------------------------------------
// Running a task in the background
// ---------------------------------------------------------------------------

/// How long, in seconds, a run in the background may take to record its session.
pub const BACKGROUND_LAUNCH_TIMEOUT: u64 = 10;

/// Refuses to run a task in the background that is not ready.
pub fn check_background_launch(task: &TaskFrontmatter, task_path: &str) -> (verdict: Result<(), String>)
    ensures
        match verdict {
            Ok(()) => task.status == TaskStatus::Ready,
            Err(text) => task.status != TaskStatus::Ready && text@ == crate::execution::not_ready_text(
                task_path@,
                task.status,
            ),
        },
{
    if task.status == TaskStatus::Ready {
        Ok(())
    } else {
        Err(
            "task ".to_owned().concat(task_path).concat(" is not ready; current status is ").concat(
                task.status.debug_name(),
            ),
        )
    }
}

/// What is known of a run in the background.
#[derive(Debug, Clone, Copy, PartialEq, Eq, Structural)]
pub struct LaunchState {
    pub status: TaskStatus,
    pub sessions: usize,
    pub logs: usize,
    /// Whether the log of the new session is there.
    pub log_exists: bool,
    /// Whether the process has ended.
    pub exited: bool,
    /// How long it has been waited for, in seconds.
    pub waited: u64,
}

/// What is done about a run in the background.
#[derive(Debug, Clone, Copy, PartialEq, Eq, Structural)]
pub enum LaunchStep {
    /// It runs.
    Launched,
    /// It ended without recording a session.
    Exited,
    /// It takes too long to record a session, and is stopped.
    TooSlow,
    /// It is waited for.
    Wait,
}

/// Whether a run has recorded its session.
pub open spec fn recorded(state: LaunchState, initial_sessions: usize) -> bool {
    state.sessions > initial_sessions && state.logs > initial_sessions && state.log_exists
}

/// Decides what is done about a run in the background, where the task had
/// `initial_sessions` sessions before.
pub fn background_step(state: LaunchState, initial_sessions: usize) -> (step: LaunchStep)
    ensures
        step == (if recorded(state, initial_sessions) && (state.status != TaskStatus::Ready || state.exited) {
            LaunchStep::Launched
        } else if state.exited {
            LaunchStep::Exited
        } else if state.waited >= BACKGROUND_LAUNCH_TIMEOUT {
            LaunchStep::TooSlow
        } else {
            LaunchStep::Wait
        }),
{
    let has_recorded = state.sessions > initial_sessions && state.logs > initial_sessions && state.log_exists;
    if has_recorded && state.status != TaskStatus::Ready {
        return LaunchStep::Launched;
    }
    if state.exited {
        return if has_recorded {
            LaunchStep::Launched
        } else {
            LaunchStep::Exited
        };
    }
    if state.waited >= BACKGROUND_LAUNCH_TIMEOUT {
        LaunchStep::TooSlow
    } else {
        LaunchStep::Wait
    }
}

/// What is written where a run in the background could not be started.
#[derive(Debug, PartialEq, Eq)]
pub struct LaunchFailure {
    pub log_path: String,
    pub log: String,
    pub recap_path: String,
    pub recap: String,
}

/// The log of a run that could not be started.
pub open spec fn launch_failure_log(session: Seq<char>, task: Seq<char>, reason: Seq<char>) -> Seq<char> {
    "session_id="@ + session + "\nagent=background-launcher\ntask="@ + task + "\nlaunch_failure="@ + reason + "\n"@
}

/// The recap of a run that could not be started.
pub open spec fn launch_failure_recap(
    session: Seq<char>,
    task: Seq<char>,
    reason: Seq<char>,
    log: Seq<char>,
) -> Seq<char> {
    "---\ntask: "@ + task
        + "\n---\n\n# Agent Run Failed\n\nThe background launch failed before Varda could record a running agent session.\n\nReason: "@
        + reason + "\n\nSession ID: `"@ + session + "`\n\nSession log: ["@ + log + "]("@ + log + ")\n"@
}

/// Whether a task has been marked as one whose run could not be started.
pub open spec fn marked_failed(
    before: TaskDocument,
    after: TaskDocument,
    session: Seq<char>,
    log: Seq<char>,
    recap: Seq<char>,
) -> bool {
    &&& after == (TaskDocument {
        frontmatter: TaskFrontmatter {
            status: TaskStatus::Failed,
            requires_user: false,
            agent_session_ids: after.frontmatter.agent_session_ids,
            agent_session_logs: after.frontmatter.agent_session_logs,
            recaps: after.frontmatter.recaps,
            ..before.frontmatter
        },
        ..before
    })
    &&& after.frontmatter.agent_session_ids.deep_view() == before.frontmatter.agent_session_ids.deep_view().push(session)
    &&& after.frontmatter.agent_session_logs.deep_view() == before.frontmatter.agent_session_logs.deep_view().push(log)
    &&& after.frontmatter.recaps.deep_view() == before.frontmatter.recaps.deep_view().push(recap)
}

/// Marks a task as one whose run could not be started, and says what is written about
/// it. A task that has come to rest meanwhile is left as it is.
pub fn record_background_launch_failure(
    config: &Config,
    task: &mut TaskDocument,
    task_path: &str,
    reason: &str,
    session_id: &str,
    recap_id: &str,
) -> (written: Option<LaunchFailure>)
    ensures
        ({
            let log = log_file(config.defaults.operations_dir@, session_id@);
            let recap = recap_file(config.defaults.operations_dir@, recap_id@);
            match written {
                None => {
                    &&& old(task).frontmatter.status != TaskStatus::Ready
                    &&& old(task).frontmatter.status != TaskStatus::Running
                    &&& *final(task) == *old(task)
                },
                Some(failure) => {
                    &&& old(task).frontmatter.status == TaskStatus::Ready || old(task).frontmatter.status
                        == TaskStatus::Running
                    &&& failure.log_path@ == log
                    &&& failure.log@ == launch_failure_log(session_id@, task_path@, reason@)
                    &&& failure.recap_path@ == recap
                    &&& failure.recap@ == launch_failure_recap(session_id@, task_path@, reason@, log)
                    &&& marked_failed(*old(task), *final(task), session_id@, log, recap)
                },
            }
        }),
{
    match task.frontmatter.status {
        TaskStatus::Ready | TaskStatus::Running => {},
        _ => {
            return None;
        },
    }
    let log_path = session_log_path(config, session_id);
    let log = "session_id=".to_owned().concat(session_id).concat("\nagent=background-launcher\ntask=").concat(
        task_path,
    ).concat("\nlaunch_failure=").concat(reason).concat("\n");
    let kept_at = recap_path(config, recap_id);
    let recap = "---\ntask: ".to_owned().concat(task_path).concat(
        "\n---\n\n# Agent Run Failed\n\nThe background launch failed before Varda could record a running agent session.\n\nReason: ",
    ).concat(reason).concat("\n\nSession ID: `").concat(session_id).concat("`\n\nSession log: [").concat(
        log_path.as_str(),
    ).concat("](").concat(log_path.as_str()).concat(")\n");
    add_session(task, session_id, log_path.as_str());
    let ghost recaps = task.frontmatter.recaps.deep_view();
    task.set_recap(kept_at.clone());
    assert(task.frontmatter.recaps.deep_view() =~= recaps.push(kept_at@));
    task.frontmatter.requires_user = false;
    task.set_status(TaskStatus::Failed);
    Some(LaunchFailure { log_path, log, recap_path: kept_at, recap })
}

/// Why a run in the background failed, as its log says and as the user is told.
pub open spec fn launch_reason(step: LaunchStep, process: u32, task: Seq<char>, status: Seq<char>) -> (
    Seq<char>,
    Seq<char>,
) {
    match step {
        LaunchStep::Exited => (
            "background child pid "@ + decimal(process as nat) + " exited before recording a session (status: "@ + status
                + ")"@,
            "background agent for "@ + task + " exited before recording a session (status: "@ + status + ")"@,
        ),
        _ => (
            "background child pid "@ + decimal(process as nat) + " did not record a running session within "@ + decimal(
                BACKGROUND_LAUNCH_TIMEOUT as nat,
            ) + " seconds"@,
            "background agent for "@ + task + " did not record a session within "@ + decimal(
                BACKGROUND_LAUNCH_TIMEOUT as nat,
            ) + " seconds"@,
        ),
    }
}

/// Why a run in the background failed, as its log says and as the user is told.
pub fn launch_failure_reason(step: LaunchStep, process: u32, task_path: &str, exit_status: &str) -> (reason: (
    String,
    String,
))
    ensures
        (reason.0@, reason.1@) == launch_reason(step, process, task_path@, exit_status@),
{
    let child = "background child pid ".to_owned().concat(decimal_of(process as u64).as_str());
    let agent = "background agent for ".to_owned().concat(task_path);
    match step {
        LaunchStep::Exited => (
            child.concat(" exited before recording a session (status: ").concat(exit_status).concat(")"),
            agent.concat(" exited before recording a session (status: ").concat(exit_status).concat(")"),
        ),
        _ => {
            let limit = decimal_of(BACKGROUND_LAUNCH_TIMEOUT);
            (
                child.concat(" did not record a running session within ").concat(limit.as_str()).concat(" seconds"),
                agent.concat(" did not record a session within ").concat(limit.as_str()).concat(" seconds"),
            )
        },
    }
}

// ---------------------------------------------------------------------------
// The editor
// ---------------------------------------------------------------------------

/// What is known of the terminal that an editor is to be opened from.
#[derive(Debug, PartialEq, Eq)]
pub struct Terminal {
    /// The socket of the Neovim that the terminal belongs to.
    pub nvim: Option<String>,
    /// Whether the terminal belongs to Zed.
    pub zed: bool,
    /// Whether the terminal belongs to VS Code or one of its kind.
    pub vscode: bool,
    /// Whether Cursor is there.
    pub cursor: bool,
    /// The editor that the user prefers.
    pub editor: Option<String>,
}

/// The program that opens a file and waits, and its arguments. An editor that the
/// terminal belongs to goes before the one that the user prefers.
pub open spec fn editor_of(terminal: Terminal, path: Seq<char>) -> (Seq<char>, Seq<Seq<char>>) {
    match terminal.nvim {
        Some(socket) => ("nvim"@, seq!["--server"@, socket@, "--remote-wait"@, path]),
        None => if terminal.zed {
            ("zed"@, seq!["--wait"@, path])
        } else if terminal.vscode {
            (
                if terminal.cursor {
                    "cursor"@
                } else {
                    "code"@
                },
                seq!["--reuse-window"@, "--wait"@, path],
            )
        } else {
            (
                match terminal.editor {
                    Some(editor) => editor@,
                    None => "vi"@,
                },
                seq![path],
            )
        },
    }
}

/// What is reported where the editor of a terminal ends with a failure.
pub open spec fn editor_failed(terminal: Terminal, status: Seq<char>) -> Seq<char> {
    match terminal.nvim {
        Some(_) => "nvim --remote-wait exited with status "@ + status,
        None => if terminal.zed {
            "zed --wait exited with status "@ + status
        } else if terminal.vscode {
            "'"@ + editor_of(terminal, Seq::empty()).0 + " --reuse-window --wait' exited with status "@ + status
        } else {
            "editor '"@ + editor_of(terminal, Seq::empty()).0 + "' exited with status "@ + status
        },
    }
}

/// Reports that the editor of a terminal ended with a failure.
pub fn editor_failure(terminal: &Terminal, status: &str) -> (text: String)
    ensures
        text@ == editor_failed(*terminal, status@),
{
    if terminal.nvim.is_some() {
        return cat("nvim --remote-wait exited with status ", status);
    }
    if terminal.zed {
        return cat("zed --wait exited with status ", status);
    }
    let (program, _) = editor_command(terminal, "");
    if terminal.vscode {
        "'".to_owned().concat(program.as_str()).concat(" --reuse-window --wait' exited with status ").concat(status)
    } else {
        "editor '".to_owned().concat(program.as_str()).concat("' exited with status ").concat(status)
    }
}

/// The program that opens a file and waits, and its arguments.
pub fn editor_command(terminal: &Terminal, path: &str) -> (command: (String, Vec<String>))
    ensures
        (command.0@, command.1.deep_view()) == editor_of(*terminal, path@),
{
    let mut args: Vec<String> = Vec::new();
    if let Some(socket) = &terminal.nvim {
        args.push("--server".to_owned());
        args.push(socket.clone());
        args.push("--remote-wait".to_owned());
        args.push(path.to_owned());
        assert(args.deep_view() =~= seq!["--server"@, socket@, "--remote-wait"@, path@]);
        return ("nvim".to_owned(), args);
    }
    if terminal.zed {
        args.push("--wait".to_owned());
        args.push(path.to_owned());
        assert(args.deep_view() =~= seq!["--wait"@, path@]);
        return ("zed".to_owned(), args);
    }
    if terminal.vscode {
        args.push("--reuse-window".to_owned());
        args.push("--wait".to_owned());
        args.push(path.to_owned());
        assert(args.deep_view() =~= seq!["--reuse-window"@, "--wait"@, path@]);
        return if terminal.cursor {
            ("cursor".to_owned(), args)
        } else {
            ("code".to_owned(), args)
        };
    }
    args.push(path.to_owned());
    assert(args.deep_view() =~= seq![path@]);
    match &terminal.editor {
        Some(editor) => (editor.clone(), args),
        None => ("vi".to_owned(), args),
    }
}

// ---------------------------------------------------------------------------
// Laws
// ---------------------------------------------------------------------------

/// The paths of recaps, and what they say.
pub open spec fn recap_paths(recaps: Seq<ShownRecap>) -> Seq<Seq<char>> {
    Seq::new(recaps.len(), |i: int| recaps[i].path@)
}

/// What recaps say.
pub open spec fn recap_contents(recaps: Seq<ShownRecap>) -> Seq<Seq<char>> {
    Seq::new(recaps.len(), |i: int| recaps[i].content@)
}

proof fn lemma_recap_pages(recaps: Seq<ShownRecap>)
    ensures
        holds_in_order(recap_pages(recaps), recap_paths(recaps)),
        holds_in_order(recap_pages(recaps), recap_contents(recaps)),
    decreases recaps.len(),
{
    if recaps.len() == 0 {
        lemma_in_order_empty(recap_pages(recaps));
        assert(recap_paths(recaps) =~= Seq::empty());
        assert(recap_contents(recaps) =~= Seq::empty());
    } else {
        let front = recaps.drop_last();
        let before = recap_pages(front);
        let last = recaps.last();
        lemma_recap_pages(front);
        let closed = closed_line(last.content@);
        crate::text::law_closed_lines_end_with_one_line_end(last.content@);
        let rest = closed.skip(last.content@.len() as int);
        assert(closed =~= last.content@ + rest);
        let after = "\n\n"@ + closed + "\n---\n\n"@;
        let head = "# Recap "@ + last.path@ + "\n\n"@;
        let tail = rest + "\n---\n\n"@;
        lemma_in_order_push(before, recap_paths(front), "# Recap "@, last.path@, after);
        lemma_in_order_push(before, recap_contents(front), head, last.content@, tail);
        assert(recap_paths(recaps) =~= recap_paths(front).push(last.path@));
        assert(recap_contents(recaps) =~= recap_contents(front).push(last.content@));
        assert(recap_pages(recaps) =~= before + ("# Recap "@ + last.path@ + after));
        assert(recap_pages(recaps) =~= before + (head + last.content@ + tail));
    }
}

/// A task is shown with its path, with all that it says and then with each of its recaps, in
/// order, under its path and with all that it says.
pub proof fn law_tasks_are_shown_with_their_recaps(
    task_path: &str,
    task_content: &str,
    recaps: &Vec<ShownRecap>,
    text: String,
)
    requires
        call_ensures(show_task, (task_path, task_content, recaps), text),
    ensures
        holds_in_order(text@, seq![task_path@, task_content@]),
        holds_in_order(text@, recap_paths(recaps@)),
        holds_in_order(text@, recap_contents(recaps@)),
        recaps@.len() == 0 ==> holds(text@, "No recap is associated with the task."@),
{
    let closed = closed_line(task_content@);
    crate::text::law_closed_lines_end_with_one_line_end(task_content@);
    let rest = closed.skip(task_content@.len() as int);
    assert(closed =~= task_content@ + rest);
    let pages = if recaps@.len() == 0 {
        "# Recap\n\nNo recap is associated with the task.\n"@
    } else {
        recap_pages(recaps@)
    };
    let tail = rest + "\n---\n\n"@ + pages;
    lemma_two_in_order("# Task "@, task_path@, "\n\n"@, task_content@, tail);
    assert(text@ =~= "# Task "@ + task_path@ + "\n\n"@ + task_content@ + tail);
    let head = "# Task "@ + task_path@ + "\n\n"@ + closed + "\n---\n\n"@;
    assert(text@ =~= head + pages + Seq::<char>::empty());
    lemma_recap_pages(recaps@);
    if recaps@.len() > 0 {
        lemma_in_order_within(head, pages, Seq::empty(), recap_paths(recaps@));
        lemma_in_order_within(head, pages, Seq::empty(), recap_contents(recaps@));
    } else {
        lemma_in_order_empty(text@);
        assert(recap_paths(recaps@) =~= Seq::empty());
        assert(recap_contents(recaps@) =~= Seq::empty());
        reveal_strlit("# Recap\n\nNo recap is associated with the task.\n");
        reveal_strlit("No recap is associated with the task.");
        reveal_strlit("# Recap\n\n");
        reveal_strlit("\n");
        let words = "No recap is associated with the task."@;
        assert(pages =~= "# Recap\n\n"@ + words + "\n"@);
        lemma_holds_within("# Recap\n\n"@, words, "\n"@);
        crate::text::lemma_holds_in_part(head, pages, Seq::empty(), words);
    }
}

/// A text that fits is kept. One that does not is cut so that, with a dot at its end, it has
/// just the width.
pub proof fn law_long_texts_are_cut(value: &str, width: usize, text: String)
    requires
        call_ensures(truncate_for_table, (value, width), text),
    ensures
        value@.len() <= width ==> text@ == value@,
        value@.len() > width && width > 0 ==> text@.len() == width && text@.last() == '.' && text@.drop_last()
            == value@.take(width - 1),
{
    reveal_strlit(".");
    if value@.len() > width && width > 0 {
        assert(text@.drop_last() =~= value@.take(width - 1));
    }
}

/// The paths of tasks.
pub open spec fn task_paths(tasks: Seq<TaskSummary>) -> Seq<Seq<char>> {
    Seq::new(tasks.len(), |i: int| tasks[i].path@)
}

proof fn lemma_table_rows(tasks: Seq<TaskSummary>)
    ensures
        holds_in_order(table_rows(tasks), task_paths(tasks)),
    decreases tasks.len(),
{
    if tasks.len() == 0 {
        lemma_in_order_empty(table_rows(tasks));
        assert(task_paths(tasks) =~= Seq::empty());
    } else {
        let front = tasks.drop_last();
        let last = tasks.last();
        lemma_table_rows(front);
        let row = table_row(last);
        let lead = row.take(row.len() - 1 - last.path@.len());
        reveal_strlit("\n");
        assert(row =~= lead + last.path@ + "\n"@);
        lemma_in_order_push(table_rows(front), task_paths(front), lead, last.path@, "\n"@);
        assert(task_paths(tasks) =~= task_paths(front).push(last.path@));
    }
}

/// A list of tasks names the project and the path of each task, in order.
pub proof fn law_lists_name_every_task(project_path: &str, tasks: &Vec<TaskSummary>, text: String)
    requires
        call_ensures(task_list, (project_path, tasks), text),
    ensures
        begins(text@, "project: "@ + project_path@ + "\n"@),
        holds_in_order(text@, task_paths(tasks@)),
{
    let head = "project: "@ + project_path@ + "\n"@;
    assert(text@.subrange(0, head.len() as int) =~= head);
    lemma_table_rows(tasks@);
    if tasks@.len() == 0 {
        lemma_in_order_empty(text@);
        assert(task_paths(tasks@) =~= Seq::empty());
    } else {
        let rows = table_rows(tasks@);
        let before = text@.take(text@.len() - rows.len());
        assert(text@ =~= before + rows + Seq::<char>::empty());
        lemma_in_order_within(before, rows, Seq::empty(), task_paths(tasks@));
    }
}

proof fn lemma_read_statuses(words: Seq<Seq<char>>)
    ensures
        match read_statuses(words) {
            Ok(statuses) => statuses.len() == words.len() && forall|i: int|
                0 <= i < words.len() ==> TaskStatus::from_word(#[trigger] words[i]) == Some(statuses[i]),
            Err(_) => exists|i: int| 0 <= i < words.len() && TaskStatus::from_word(#[trigger] words[i]) is None,
        },
    decreases words.len(),
{
    if words.len() > 0 {
        let front = words.drop_last();
        lemma_read_statuses(front);
        match read_statuses(front) {
            Err(_) => {
                let i = choose|i: int| 0 <= i < front.len() && TaskStatus::from_word(#[trigger] front[i]) is None;
                assert(words[i] == front[i]);
            },
            Ok(before) => {
                if let Ok(statuses) = read_statuses(words) {
                    assert forall|i: int| 0 <= i < words.len() implies TaskStatus::from_word(#[trigger] words[i]) == Some(
                        statuses[i],
                    ) by {
                        if i < front.len() {
                            assert(front[i] == words[i]);
                        }
                    }
                } else {
                    assert(words[words.len() - 1] == words.last());
                }
            },
        }
    }
}

/// A change is accepted exactly where something is to be set and each status, the one to be
/// set and those to be looked for, is one; what is set and what is looked for are then what
/// was asked for.
pub proof fn law_changes_say_what_is_set(
    set_status: Option<&str>,
    set_agent: Option<&str>,
    filter_status: &Vec<String>,
    filter_agent: Option<&str>,
    update: Result<TaskUpdate, String>,
)
    requires
        call_ensures(read_update, (set_status, set_agent, filter_status, filter_agent), update),
    ensures
        update is Ok <==> (set_status is Some || set_agent is Some) && (set_status matches Some(word)
            ==> TaskStatus::from_word(word@) is Some) && forall|i: int|
            0 <= i < filter_status@.len() ==> TaskStatus::from_word((#[trigger] filter_status@[i])@) is Some,
        update matches Ok(update) ==> {
            &&& set_status matches Some(word) ==> update.status == TaskStatus::from_word(word@)
            &&& set_status is None ==> update.status is None
            &&& update.agent.deep_view() == set_agent.deep_view()
            &&& update.of_agent.deep_view() == filter_agent.deep_view()
            &&& update.at_status@.len() == filter_status@.len()
            &&& forall|i: int|
                0 <= i < filter_status@.len() ==> TaskStatus::from_word((#[trigger] filter_status@[i])@) == Some(
                    update.at_status@[i],
                )
        },
{
    let words = filter_status.deep_view();
    lemma_read_statuses(words);
    if let Ok(statuses) = read_statuses(words) {
        assert forall|i: int| 0 <= i < filter_status@.len() implies TaskStatus::from_word(
            (#[trigger] filter_status@[i])@,
        ) == Some(statuses[i]) by {
            assert(words[i] == filter_status@[i]@);
        }
    } else {
        let i = choose|i: int| 0 <= i < words.len() && TaskStatus::from_word(#[trigger] words[i]) is None;
        assert(words[i] == filter_status@[i]@);
    }
}

/// The tasks that are changed are those at one of the statuses that are looked for, where
/// any is, and of the agent that is looked for, where one is, in order.
pub proof fn law_changes_reach_the_tasks_looked_for(tasks: &Vec<TaskSummary>, update: &TaskUpdate, paths: Vec<String>)
    requires
        call_ensures(select_tasks, (tasks, update), paths),
    ensures
        selection(
            task_paths(tasks@),
            |i: int|
                (update.at_status@.len() > 0 ==> exists|k: int|
                    0 <= k < update.at_status@.len() && #[trigger] update.at_status@[k] == tasks@[i].status) && (
                update.of_agent is Some ==> tasks@[i].assignee is Some && tasks@[i].assignee->0@
                    == update.of_agent->0@),
            paths.deep_view(),
        ),
{
    let keep = |i: int|
        (update.at_status@.len() > 0 ==> exists|k: int|
            0 <= k < update.at_status@.len() && #[trigger] update.at_status@[k] == tasks@[i].status) && (
        update.of_agent is Some ==> tasks@[i].assignee is Some && tasks@[i].assignee->0@ == update.of_agent->0@);
    assert forall|i: int| 0 <= i < tasks@.len() implies #[trigger] keep(i) == selected(tasks@[i], update) by {
        let status = tasks@[i].status;
        if update.at_status@.contains(status) {
            let k = choose|k: int| 0 <= k < update.at_status@.len() && update.at_status@[k] == status;
            assert(update.at_status@[k] == tasks@[i].status);
        }
    }
    lemma_selected_paths(tasks@, update, keep);
}

proof fn lemma_selected_paths(tasks: Seq<TaskSummary>, update: &TaskUpdate, keep: spec_fn(int) -> bool)
    requires
        forall|i: int| 0 <= i < tasks.len() ==> #[trigger] keep(i) == selected(tasks[i], update),
    ensures
        selection(task_paths(tasks), keep, selected_paths(tasks, update)),
    decreases tasks.len(),
{
    if tasks.len() == 0 {
        lemma_selection_empty::<Seq<char>>(keep);
        assert(task_paths(tasks) =~= Seq::empty());
    } else {
        let front = tasks.drop_last();
        lemma_selected_paths(front, update, keep);
        assert(task_paths(tasks).drop_last() =~= task_paths(front));
        lemma_selection_push(task_paths(tasks), keep, selected_paths(front, update));
        assert(keep(tasks.len() - 1) == selected(tasks[tasks.len() - 1], update));
    }
}

/// The sub-tasks of a task that is run among others are held to the policy of the project
/// that it was parted from, or else of its own; those of a task that the user runs to that
/// of its own. Without a project the policy of the configuration counts.
pub proof fn law_policies_follow_the_project(
    config: &Config,
    task: &TaskFrontmatter,
    policy: &OrchestrationPolicy,
    own: &OrchestrationPolicy,
    of_mother: &OrchestrationPolicy,
    of_project: &OrchestrationPolicy,
    mother: &str,
    project: &str,
)
    requires
        call_ensures(task_policy, (config, task), policy),
        call_ensures(run_policy, (config, task), own),
        call_ensures(resolve_orchestration_for, (config, mother), of_mother),
        call_ensures(resolve_orchestration_for, (config, project), of_project),
        task.mother_project is Some ==> mother@ == task.mother_project->0@,
        task.project is Some ==> project@ == task.project->0@,
    ensures
        task.mother_project is Some ==> *policy == *of_mother,
        task.mother_project is None && task.project is Some ==> *policy == *of_project,
        task.mother_project is None && task.project is None ==> *policy == config.orchestration,
        task.project is Some ==> *own == *of_project,
        task.project is None ==> *own == config.orchestration,
{
    if task.mother_project is Some {
        crate::routing::lemma_policy_is_unique(config, mother@, policy, of_mother);
    } else if task.project is Some {
        crate::routing::lemma_policy_is_unique(config, project@, policy, of_project);
    }
    if task.project is Some {
        crate::routing::lemma_policy_is_unique(config, project@, own, of_project);
    }
}

/// A run in the background counts as started once it has recorded a new session and a new
/// log, which is there, and its task has left `ready` or the process has ended. One that has
/// ended without that has failed, and so has one that has not done it after ten seconds.
pub proof fn law_a_background_run_has_to_record_its_session(
    state: LaunchState,
    initial_sessions: usize,
    step: LaunchStep,
)
    requires
        call_ensures(background_step, (state, initial_sessions), step),
    ensures
        step is Launched ==> state.sessions > initial_sessions && state.logs > initial_sessions && state.log_exists && (
        !(state.status is Ready) || state.exited),
        state.sessions > initial_sessions && state.logs > initial_sessions && state.log_exists && !(
        state.status is Ready) ==> step is Launched,
        state.sessions > initial_sessions && state.logs > initial_sessions && state.log_exists && state.exited
            ==> step is Launched,
        step is Exited ==> state.exited,
        state.exited ==> step is Launched || step is Exited,
        step is TooSlow ==> !state.exited && state.waited >= 10,
        step is Wait ==> !state.exited && state.waited < 10,
{
}

/// A task is run in the background exactly where it is ready.
pub proof fn law_only_ready_tasks_run_in_the_background(
    task: &TaskFrontmatter,
    task_path: &str,
    verdict: Result<(), String>,
)
    requires
        call_ensures(check_background_launch, (task, task_path), verdict),
    ensures
        verdict is Ok <==> task.status is Ready,
        verdict is Err ==> begins(verdict->Err_0@, "task "@ + task_path@),
{
    let start = "task "@ + task_path@;
    let text = crate::execution::not_ready_text(task_path@, task.status);
    assert(text.subrange(0, start.len() as int) =~= start);
}

/// What is written of a run that could not be started names the session, the task and the
/// reason; the recap, which has the mark of a failure, names the log as well.
pub proof fn law_failed_launches_are_explained(
    session: Seq<char>,
    task: Seq<char>,
    reason: Seq<char>,
    log: Seq<char>,
)
    ensures
        holds_in_order(launch_failure_log(session, task, reason), seq![session, task, reason]),
        holds_in_order(launch_failure_recap(session, task, reason, log), seq![task, reason, session, log]),
        holds(launch_failure_recap(session, task, reason, log), "# Agent Run Failed"@),
{
    lemma_three_in_order(
        "session_id="@,
        session,
        "\nagent=background-launcher\ntask="@,
        task,
        "\nlaunch_failure="@,
        reason,
        "\n"@,
    );
    let middle =
        "\n---\n\n# Agent Run Failed\n\nThe background launch failed before Varda could record a running agent session.\n\nReason: "@;
    let tail = "]("@ + log + ")\n"@;
    lemma_four_in_order(
        "---\ntask: "@,
        task,
        middle,
        reason,
        "\n\nSession ID: `"@,
        session,
        "`\n\nSession log: ["@,
        log,
        tail,
    );
    let text = launch_failure_recap(session, task, reason, log);
    assert(text =~= "---\ntask: "@ + task + middle + reason + "\n\nSession ID: `"@ + session + "`\n\nSession log: ["@ + log
        + tail);
    lemma_failed_mark();
    let mark = "# Agent Run Failed"@;
    let before = "---\ntask: "@ + task;
    let after = reason + "\n\nSession ID: `"@ + session + "`\n\nSession log: ["@ + log + tail;
    crate::text::lemma_holds_in_part(before, middle, after, mark);
    assert(text =~= before + middle + after);
}

/// The mark of a failure stands in what is written of a failed launch.
proof fn lemma_failed_mark()
    ensures
        holds(
            "\n---\n\n# Agent Run Failed\n\nThe background launch failed before Varda could record a running agent session.\n\nReason: "@,
            "# Agent Run Failed"@,
        ),
{
    reveal_strlit(
        "\n---\n\n# Agent Run Failed\n\nThe background launch failed before Varda could record a running agent session.\n\nReason: ",
    );
    reveal_strlit("# Agent Run Failed");
    let text =
        "\n---\n\n# Agent Run Failed\n\nThe background launch failed before Varda could record a running agent session.\n\nReason: "@;
    assert(text.subrange(6, 24) =~= "# Agent Run Failed"@);
    assert(crate::text::stands_at(text, "# Agent Run Failed"@, 6));
}

/// A task whose run could not be started has failed, asks for nobody, and has the session,
/// its log and the recap as its last ones.
pub proof fn law_failed_launches_are_recorded(
    before: TaskDocument,
    after: TaskDocument,
    session: Seq<char>,
    log: Seq<char>,
    recap: Seq<char>,
)
    requires
        marked_failed(before, after, session, log, recap),
    ensures
        after.frontmatter.status is Failed,
        !after.frontmatter.requires_user,
        after.path == before.path,
        after.body == before.body,
        after.frontmatter.project == before.frontmatter.project,
        after.frontmatter.assignee == before.frontmatter.assignee,
        after.frontmatter.agent_session_ids@.len() == before.frontmatter.agent_session_ids@.len() + 1,
        after.frontmatter.agent_session_ids@.last()@ == session,
        after.frontmatter.agent_session_logs@.len() == before.frontmatter.agent_session_logs@.len() + 1,
        after.frontmatter.agent_session_logs@.last()@ == log,
        after.frontmatter.recaps@.len() == before.frontmatter.recaps@.len() + 1,
        after.frontmatter.recaps@.last()@ == recap,
{
    let ids = after.frontmatter.agent_session_ids.deep_view();
    let logs = after.frontmatter.agent_session_logs.deep_view();
    let recaps = after.frontmatter.recaps.deep_view();
    assert(ids.len() == before.frontmatter.agent_session_ids.deep_view().len() + 1);
    assert(logs.len() == before.frontmatter.agent_session_logs.deep_view().len() + 1);
    assert(recaps.len() == before.frontmatter.recaps.deep_view().len() + 1);
    assert(ids.last() == session && logs.last() == log && recaps.last() == recap);
}

/// An editor is opened on the file, which comes last, and waited for. The one that the
/// terminal belongs to goes first: Neovim, through its socket, Zed, and VS Code or, where
/// that is there, Cursor; then the one that the user prefers, and else `vi`.
pub proof fn law_the_terminals_own_editor_goes_first(
    terminal: &Terminal,
    path: &str,
    command: (String, Vec<String>),
)
    requires
        call_ensures(editor_command, (terminal, path), command),
    ensures
        ({
            let program = command.0@;
            let args = command.1.deep_view();
            &&& args.len() > 0 && args.last() == path@
            &&& terminal.nvim matches Some(socket) ==> program == "nvim"@ && args.contains("--remote-wait"@)
                && args.contains(socket@)
            &&& terminal.nvim is None && terminal.zed ==> program == "zed"@ && args.contains("--wait"@)
            &&& terminal.nvim is None && !terminal.zed && terminal.vscode ==> args.contains("--wait"@) && program == (
            if terminal.cursor {
                "cursor"@
            } else {
                "code"@
            })
            &&& terminal.nvim is None && !terminal.zed && !terminal.vscode ==> args.len() == 1 && program == (
            if terminal.editor is Some {
                terminal.editor->0@
            } else {
                "vi"@
            })
        }),
{
    let args = command.1.deep_view();
    if terminal.nvim is Some {
        assert(args[1] == terminal.nvim->0@);
        assert(args[2] == "--remote-wait"@);
    } else if terminal.zed {
        assert(args[0] == "--wait"@);
    } else if terminal.vscode {
        assert(args[1] == "--wait"@);
    }
}

/// Commands that a run was denied are all named, in order, and where there is none nothing
/// is said.
pub proof fn law_denied_commands_are_named(blocked: &Vec<String>, notice: Option<String>)
    requires
        call_ensures(blocked_notice, (blocked,), notice),
    ensures
        notice is None <==> blocked@.len() == 0,
        notice is Some ==> holds_in_order(notice->0@, blocked.deep_view()),
{
    let all = blocked.deep_view();
    crate::text::law_joined_parts_stand_in_order(all, ", "@);
    lemma_in_order_within(
        "\nblocked_commands: "@,
        join(all, ", "@),
        "\nhint: add these to the task's `allow_commands` frontmatter and re-run to authorize them headlessly\n"@,
        all,
    );
}

/// What is shown before a run says which task it is and what it asks for; one of several says
/// who works on it.
pub proof fn law_runs_are_announced(
    id: Option<u64>,
    title: &str,
    body: &str,
    agent: &str,
    banner: String,
    line: String,
)
    requires
        call_ensures(run_banner, (id, title, body), banner),
        call_ensures(dispatch_line, (id, title, agent), line),
    ensures
        holds_in_order(banner@, seq![title@, trim(body@)]),
        id matches Some(number) ==> holds(banner@, "#"@ + decimal(number as nat)),
        holds_in_order(line@, seq![title@, agent@]),
        id matches Some(number) ==> holds(line@, "#"@ + decimal(number as nat)),
{
    let shown = match id {
        Some(number) => " #"@ + decimal(number as nat),
        None => Seq::empty(),
    };
    let head = "Running task"@ + shown + ": "@;
    lemma_two_in_order(head, title@, "\n\n"@, trim(body@), "\n\n---\n\n"@);
    let lead = "dispatching "@ + id_label(id) + " "@;
    lemma_two_in_order(lead, title@, " → agent="@, agent@, Seq::empty());
    assert(line@ + Seq::<char>::empty() =~= line@);
    if let Some(number) = id {
        reveal_strlit(" #");
        reveal_strlit(" ");
        reveal_strlit("#");
        let label = "#"@ + decimal(number as nat);
        let rest = ": "@ + title@ + "\n\n"@ + trim(body@) + "\n\n---\n\n"@;
        assert(" #"@ =~= " "@ + "#"@);
        lemma_holds_within("Running task"@ + " "@, label, rest);
        assert(banner@ =~= ("Running task"@ + " "@) + label + rest);
        let tail = " "@ + title@ + " → agent="@ + agent@;
        lemma_holds_within("dispatching "@, label, tail);
        assert(line@ =~= "dispatching "@ + label + tail);
    }
}

/// Why a run in the background failed names the process in the log and the task to the user:
/// one that ended with its status, one that took too long with the ten seconds that it had.
pub proof fn law_failed_launches_name_process_and_task(
    step: LaunchStep,
    process: u32,
    task: &str,
    status: &str,
    reason: (String, String),
)
    requires
        call_ensures(launch_failure_reason, (step, process, task, status), reason),
    ensures
        step is Exited ==> holds_in_order(reason.0@, seq![decimal(process as nat), status@]) && holds_in_order(
            reason.1@,
            seq![task@, status@],
        ),
        step is TooSlow ==> holds_in_order(reason.0@, seq![decimal(process as nat), decimal(10)]) && holds_in_order(
            reason.1@,
            seq![task@, decimal(10)],
        ),
{
    let number = decimal(process as nat);
    if step is Exited {
        let middle = " exited before recording a session (status: "@;
        lemma_two_in_order("background child pid "@, number, middle, status@, ")"@);
        lemma_two_in_order("background agent for "@, task@, middle, status@, ")"@);
    } else {
        lemma_two_in_order(
            "background child pid "@,
            number,
            " did not record a running session within "@,
            decimal(10),
            " seconds"@,
        );
        lemma_two_in_order(
            "background agent for "@,
            task@,
            " did not record a session within "@,
            decimal(10),
            " seconds"@,
        );
    }
}

/// A task is under way unless it is put off or done; the output of a run is shown as it comes
/// unless that is not wanted or the user takes part; and a run is served by a broker exactly
/// where its task has a project and sub-tasks are enabled for it.
pub proof fn law_small_decisions(
    status: TaskStatus,
    active: bool,
    quiet: bool,
    interactive: bool,
    shown: bool,
    task: &TaskFrontmatter,
    policy: &OrchestrationPolicy,
    served: bool,
)
    requires
        call_ensures(is_active_task_status, (status,), active),
        call_ensures(streams, (quiet, interactive), shown),
        call_ensures(is_orchestrated, (task, policy), served),
    ensures
        active <==> !(status is Backlog || status is Done),
        shown <==> !quiet && !interactive,
        served <==> task.project is Some && policy.enabled,
{
}

/// The commit of what an agent touched names the task by its file, without the extension.
pub proof fn law_commits_name_the_task(task_path: &str, message: String, stem: Option<String>)
    requires
        call_ensures(agent_commit_message, (task_path,), message),
        call_ensures(file_stem, (task_path,), stem),
    ensures
        stem matches Some(stem) ==> holds(message@, "task "@ + stem@ + " "@),
{
    if let Some(name) = stem {
        reveal_strlit("Apply task ");
        reveal_strlit("Apply ");
        reveal_strlit("task ");
        reveal_strlit(" agent changes");
        reveal_strlit(" ");
        reveal_strlit("agent changes");
        let part = "task "@ + name@ + " "@;
        lemma_holds_within("Apply "@, part, "agent changes"@);
        assert(message@ =~= "Apply "@ + part + "agent changes"@);
    }
}

} // verus!
