//! Adding, changing and deleting tasks.

use vstd::prelude::*;
use vstd::string::*;

use crate::collect::duplicate_strings;
use crate::commands::{is_active_task_status, recap_place, resolve_recap_path};
use crate::config::{Config, DEFAULT_SANDBOX_PROVIDER};
use crate::order::{lemma_selection_empty, lemma_selection_push, selection};
use crate::plan_document::summary_views;
use crate::routing::{is_first_route, lemma_routed_without_budgets, match_route, project_routed, RouteMatch};
use crate::task::{copy_summary, SummaryView, TaskStatus, TaskSummary};
use crate::text::{
    all_blank, begins, blank, cat, decimal, decimal_of, holds, holds_in_order, in_order_at,
    law_trimming_the_end_takes_off_blanks_alone, lemma_holds_within, lemma_in_order_within, lemma_three_in_order, same,
    trim_end, trimmed_end,
};

verus! {

// ---------------------------------------------------------------------------
// Adding
// ---------------------------------------------------------------------------

/// The report of a sandbox that nobody configured.
pub open spec fn unknown_pin_text(name: Seq<char>) -> Seq<char> {
    "sandbox '"@ + name + "' is not configured; add a `[sandboxes."@ + name + "]` entry or use `local`"@
}

/// Refuses to pin a task to a sandbox that is not configured.
pub fn check_pinned_sandbox(config: &Config, sandbox: Option<&str>) -> (verdict: Result<(), String>)
    ensures
        match verdict {
            Ok(()) => sandbox matches Some(name) ==> name@ == DEFAULT_SANDBOX_PROVIDER@
                || config.sandboxes@.dom().contains(name@),
            Err(text) => sandbox matches Some(name) && name@ != DEFAULT_SANDBOX_PROVIDER@
                && !config.sandboxes@.dom().contains(name@) && text@ == unknown_pin_text(name@),
        },
{
    if let Some(name) = sandbox {
        if !same(name, DEFAULT_SANDBOX_PROVIDER) && !config.sandboxes.contains(name) {
            return Err(
                "sandbox '".to_owned().concat(name).concat("' is not configured; add a `[sandboxes.").concat(
                    name,
                ).concat("]` entry or use `local`"),
            );
        }
    }
    Ok(())
}

/// The agent or role that a task of a project is given to where nobody is named.
pub fn default_assignee(config: &Config, project_path: &str) -> (assignee: Result<String, String>)
    ensures
        exists|routed: Result<RouteMatch, String>| #[trigger]
            project_routed(config, project_path@, None, routed) && match (routed, assignee) {
                (Ok(route), Ok(name)) => name@ == route.shown_name(),
                (Err(report), Err(text)) => text@ == report@,
                _ => false,
            },
{
    let routed = match_route(config, project_path, None);
    assert(project_routed(config, project_path@, None, routed));
    match routed {
        Ok(route) => {
            let name = route.display_name().to_owned();
            assert(project_routed(config, project_path@, None, Ok(route)));
            Ok(name)
        },
        Err(text) => Err(text),
    }
}

/// Refuses to give a task of a project to somebody who does not work there.
pub fn check_assignee(config: &Config, project_path: &str, assignee: &str) -> (verdict: Result<(), String>)
    ensures
        exists|routed: Result<RouteMatch, String>| #[trigger]
            project_routed(config, project_path@, Some(assignee@), routed) && match (routed, verdict) {
                (Ok(_), Ok(())) => true,
                (Err(report), Err(text)) => text@ == report@,
                _ => false,
            },
{
    let routed = match_route(config, project_path, Some(assignee));
    assert(Some(assignee).deep_view() == Some(assignee@));
    assert(project_routed(config, project_path@, Some(assignee@), routed));
    match routed {
        Ok(_) => Ok(()),
        Err(text) => Err(text),
    }
}

/// The description of a task, where there is any: `text` without the blanks at its end.
pub fn task_description(text: &str) -> (description: Option<String>)
    ensures
        description.deep_view() == (if trim_end(text@).len() == 0 {
            None
        } else {
            Some(trim_end(text@))
        }),
{
    let kept = trimmed_end(text);
    if kept.as_str().is_empty() {
        None
    } else {
        Some(kept)
    }
}

/// What is done with a task once it has been added.
#[derive(Debug, Clone, Copy, PartialEq, Eq, Structural)]
pub struct AfterAdd {
    /// It is made ready.
    pub make_ready: bool,
    /// It is opened in an editor.
    pub open_editor: bool,
    pub launch: Launch,
}

/// How a task is run that has just been added.
#[derive(Debug, Clone, Copy, PartialEq, Eq, Structural)]
pub enum Launch {
    /// Not at all.
    No,
    Background,
    Foreground { interactive: bool, quiet: bool },
}

/// Decides what is done with a task once it has been added. One that is to be run has
/// to be ready.
pub fn after_add(ready: bool, exec: bool, edit: bool, background: bool, interactive: bool, quiet: bool) -> (after: AfterAdd)
    ensures
        after == (AfterAdd {
            make_ready: ready || exec,
            open_editor: edit,
            launch: if !exec {
                Launch::No
            } else if background {
                Launch::Background
            } else {
                Launch::Foreground { interactive, quiet }
            },
        }),
{
    let launch = if !exec {
        Launch::No
    } else if background {
        Launch::Background
    } else {
        Launch::Foreground { interactive, quiet }
    };
    AfterAdd { make_ready: ready || exec, open_editor: edit, launch }
}

/// What is said of a task that was added.
pub fn created_line(id: Option<u64>, task_path: &str) -> (line: String)
    ensures
        line@ == (match id {
            Some(id) => "created task #"@ + decimal(id as nat) + " "@ + task_path@,
            None => "created task "@ + task_path@,
        }),
{
    match id {
        Some(id) => "created task #".to_owned().concat(decimal_of(id).as_str()).concat(" ").concat(task_path),
        None => cat("created task ", task_path),
    }
}

// ---------------------------------------------------------------------------
// Listing
// ---------------------------------------------------------------------------

/// Whether a status is neither put off nor done.
pub open spec fn active(status: TaskStatus) -> bool {
    status != TaskStatus::Backlog && status != TaskStatus::Done
}

/// The tasks that are listed: all of them, or those that are under way.
pub open spec fn listed(tasks: Seq<SummaryView>, all: bool) -> Seq<SummaryView>
    decreases tasks.len(),
{
    if tasks.len() == 0 {
        Seq::empty()
    } else if all || active(tasks.last().status) {
        listed(tasks.drop_last(), all).push(tasks.last())
    } else {
        listed(tasks.drop_last(), all)
    }
}

/// The tasks that are listed.
pub fn listed_tasks(tasks: &Vec<TaskSummary>, all: bool) -> (shown: Vec<TaskSummary>)
    ensures
        crate::plan_document::summary_views(shown@) == listed(crate::plan_document::summary_views(tasks@), all),
{
    let ghost views = crate::plan_document::summary_views(tasks@);
    let mut shown: Vec<TaskSummary> = Vec::new();
    let mut i: usize = 0;
    assert(crate::plan_document::summary_views(shown@) =~= listed(views.take(0), all));
    while i < tasks.len()
        invariant
            views == crate::plan_document::summary_views(tasks@),
            i <= tasks@.len(),
            crate::plan_document::summary_views(shown@) == listed(views.take(i as int), all),
        decreases tasks@.len() - i,
    {
        let ghost before = crate::plan_document::summary_views(shown@);
        assert(views.take(i + 1).drop_last() =~= views.take(i as int));
        assert(views.take(i + 1).last() == tasks@[i as int]@);
        if all || is_active_task_status(tasks[i].status) {
            shown.push(copy_summary(&tasks[i]));
            assert(crate::plan_document::summary_views(shown@) =~= before.push(tasks@[i as int]@));
        }
        i += 1;
    }
    assert(views.take(i as int) =~= views);
    shown
}

// ---------------------------------------------------------------------------
// Changing
// ---------------------------------------------------------------------------

/// The paths, each on a line of its own after `lead`.
pub open spec fn path_lines(lead: Seq<char>, paths: Seq<Seq<char>>) -> Seq<char>
    decreases paths.len(),
{
    if paths.len() == 0 {
        Seq::empty()
    } else {
        path_lines(lead, paths.drop_last()) + (lead + paths.last() + "\n"@)
    }
}

fn path_lines_of(lead: &str, paths: &Vec<String>) -> (text: String)
    ensures
        text@ == path_lines(lead@, paths.deep_view()),
{
    let ghost all = paths.deep_view();
    let mut text = String::new();
    let mut i: usize = 0;
    assert(text@ =~= path_lines(lead@, all.take(0)));
    while i < paths.len()
        invariant
            all == paths.deep_view(),
            i <= paths@.len(),
            text@ == path_lines(lead@, all.take(i as int)),
        decreases paths@.len() - i,
    {
        assert(all.take(i + 1).drop_last() =~= all.take(i as int));
        assert(all.take(i + 1).last() == paths@[i as int]@);
        text.append(lead.to_owned().concat(paths[i].as_str()).concat("\n").as_str());
        i += 1;
    }
    assert(all.take(i as int) =~= all);
    text
}

/// What is shown before tasks are changed.
pub fn update_preview(paths: &Vec<String>, set_status: Option<&str>, set_agent: Option<&str>) -> (text: String)
    ensures
        text@ == "will update "@ + decimal(paths@.len() as nat) + " task(s):\n"@ + path_lines("  "@, paths.deep_view()) + (
        match set_status {
            Some(status) => "  set status → "@ + status@ + "\n"@,
            None => Seq::empty(),
        }) + (match set_agent {
            Some(agent) => "  set agent  → "@ + agent@ + "\n"@,
            None => Seq::empty(),
        }),
{
    let status = match set_status {
        Some(status) => "  set status → ".to_owned().concat(status).concat("\n"),
        None => String::new(),
    };
    let agent = match set_agent {
        Some(agent) => "  set agent  → ".to_owned().concat(agent).concat("\n"),
        None => String::new(),
    };
    assert(set_status is None ==> status@ =~= Seq::empty());
    assert(set_agent is None ==> agent@ =~= Seq::empty());
    "will update ".to_owned().concat(decimal_of(paths.len() as u64).as_str()).concat(" task(s):\n").concat(
        path_lines_of("  ", paths).as_str(),
    ).concat(status.as_str()).concat(agent.as_str())
}

// ---------------------------------------------------------------------------
// Deleting
// ---------------------------------------------------------------------------

/// Where the recaps of a task lie, `exists_as_is` saying of each whether its path
/// leads to a file as it is.
pub fn recap_places(recaps: &Vec<String>, task_path: &str, exists_as_is: &Vec<bool>) -> (places: Vec<String>)
    requires
        exists_as_is@.len() == recaps@.len(),
    ensures
        places.deep_view() == Seq::new(
            recaps@.len(),
            |i: int| recap_place(recaps@[i]@, task_path@, exists_as_is@[i]),
        ),
{
    let mut places: Vec<String> = Vec::new();
    let mut i: usize = 0;
    while i < recaps.len()
        invariant
            exists_as_is@.len() == recaps@.len(),
            i <= recaps@.len(),
            places@.len() == i,
            forall|j: int|
                0 <= j < i ==> (#[trigger] places@[j])@ == recap_place(recaps@[j]@, task_path@, exists_as_is@[j]),
        decreases recaps@.len() - i,
    {
        places.push(resolve_recap_path(recaps[i].as_str(), task_path, exists_as_is[i]));
        i += 1;
    }
    assert(places.deep_view() =~= Seq::new(
        recaps@.len(),
        |i: int| recap_place(recaps@[i]@, task_path@, exists_as_is@[i]),
    ));
    places
}

/// The recaps that are deleted with their task: those that are there, or none where
/// they are kept.
pub open spec fn doomed(places: Seq<Seq<char>>, there: Seq<bool>, keep_recaps: bool) -> Seq<Seq<char>>
    decreases places.len(),
{
    if keep_recaps || places.len() == 0 {
        Seq::empty()
    } else {
        let front = doomed(places.drop_last(), there.drop_last(), keep_recaps);
        if there.last() {
            front.push(places.last())
        } else {
            front
        }
    }
}

/// The recaps that are deleted with their task, `there` saying of each place whether
/// there is a file.
pub fn doomed_recaps(places: &Vec<String>, there: &Vec<bool>, keep_recaps: bool) -> (recaps: Vec<String>)
    requires
        there@.len() == places@.len(),
    ensures
        recaps.deep_view() == doomed(places.deep_view(), there@, keep_recaps),
{
    let ghost all = places.deep_view();
    let mut recaps: Vec<String> = Vec::new();
    if keep_recaps {
        assert(recaps.deep_view() =~= Seq::empty());
        return recaps;
    }
    let mut i: usize = 0;
    assert(recaps.deep_view() =~= doomed(all.take(0), there@.take(0), false));
    while i < places.len()
        invariant
            all == places.deep_view(),
            there@.len() == places@.len(),
            i <= places@.len(),
            recaps.deep_view() == doomed(all.take(i as int), there@.take(i as int), false),
        decreases places@.len() - i,
    {
        let ghost before = recaps.deep_view();
        assert(all.take(i + 1).drop_last() =~= all.take(i as int));
        assert(all.take(i + 1).last() == places@[i as int]@);
        assert(there@.take(i + 1).drop_last() =~= there@.take(i as int));
        assert(there@.take(i + 1).last() == there@[i as int]);
        if there[i] {
            recaps.push(places[i].clone());
            assert(recaps.deep_view() =~= before.push(places@[i as int]@));
        }
        i += 1;
    }
    assert(all.take(i as int) =~= all);
    assert(there@.take(i as int) =~= there@);
    recaps
}

/// The files that go with a task: its recaps and then the task itself.
pub fn deleted_files(recaps: &Vec<String>, task_path: &str) -> (files: Vec<String>)
    ensures
        files.deep_view() == recaps.deep_view().push(task_path@),
{
    let mut files = duplicate_strings(recaps);
    let ghost before = files.deep_view();
    files.push(task_path.to_owned());
    assert(files.deep_view() =~= before.push(task_path@));
    files
}

/// What is shown before a task is deleted.
pub fn deletion_preview(task_path: &str, title: &str, status: TaskStatus, recaps: &Vec<String>) -> (text: String)
    ensures
        text@ == "will delete task "@ + task_path@ + ":\n  title  → "@ + title@ + "\n  status → "@ + status.word()
            + "\n"@ + path_lines("  recap  → "@, recaps.deep_view()),
{
    "will delete task ".to_owned().concat(task_path).concat(":\n  title  → ").concat(title).concat(
        "\n  status → ",
    ).concat(status.as_str()).concat("\n").concat(path_lines_of("  recap  → ", recaps).as_str())
}

/// What is said once a task has been deleted.
pub fn deletion_report(task_path: &str, recaps: usize) -> (text: String)
    ensures
        text@ == "deleted task "@ + task_path@ + "\n"@ + (if recaps == 0 {
            Seq::empty()
        } else {
            "removed "@ + decimal(recaps as nat) + " recap file(s)\n"@
        }),
{
    let removed = if recaps == 0 {
        String::new()
    } else {
        "removed ".to_owned().concat(decimal_of(recaps as u64).as_str()).concat(" recap file(s)\n")
    };
    assert(recaps == 0 ==> removed@ =~= Seq::empty());
    "deleted task ".to_owned().concat(task_path).concat("\n").concat(removed.as_str())
}

/// Deleting a task takes with it nothing but the task itself and recaps of it that are
/// there.
pub proof fn law_only_own_files_are_deleted(places: Seq<Seq<char>>, there: Seq<bool>, keep_recaps: bool, file: Seq<char>)
    requires
        there.len() == places.len(),
        doomed(places, there, keep_recaps).contains(file),
    ensures
        !keep_recaps,
        exists|i: int| 0 <= i < places.len() && #[trigger] places[i] == file && there[i],
    decreases places.len(),
{
    if !keep_recaps && places.len() > 0 {
        let front = doomed(places.drop_last(), there.drop_last(), keep_recaps);
        let at = choose|at: int|
            0 <= at < doomed(places, there, keep_recaps).len() && doomed(places, there, keep_recaps)[at] == file;
        if there.last() && at == front.len() {
            assert(places[places.len() - 1] == file);
        } else {
            assert(front[at] == file);
            assert(front.contains(file));
            law_only_own_files_are_deleted(places.drop_last(), there.drop_last(), keep_recaps, file);
            let i = choose|i: int|
                0 <= i < places.drop_last().len() && #[trigger] places.drop_last()[i] == file && there.drop_last()[i];
            assert(places[i] == file && there[i]);
        }
    }
}

// ---------------------------------------------------------------------------
// Laws
// ---------------------------------------------------------------------------

/// A task may be pinned to `local` and to a sandbox that is configured, and to no other; the
/// report names the sandbox.
pub proof fn law_tasks_are_pinned_to_known_sandboxes(config: &Config, sandbox: Option<&str>, verdict: Result<(), String>)
    requires
        call_ensures(check_pinned_sandbox, (config, sandbox), verdict),
    ensures
        verdict is Ok <==> (sandbox matches Some(name) ==> name@ == "local"@ || config.sandboxes@.dom().contains(name@)),
        verdict is Err ==> sandbox is Some && begins(verdict->Err_0@, "sandbox '"@ + sandbox->0@ + "'"@),
{
    if let Some(name) = sandbox {
        reveal_strlit("'");
        reveal_strlit("' is not configured; add a `[sandboxes.");
        let start = "sandbox '"@ + name@ + "'"@;
        let text = unknown_pin_text(name@);
        assert(text.subrange(0, start.len() as int) =~= start);
    }
}

/// A task of a project that is given to nobody else goes to the first name of the first
/// route that takes the project in.
pub proof fn law_the_first_name_of_the_route_is_the_default(config: &Config, project_path: &str, name: String)
    requires
        call_ensures(default_assignee, (config, project_path), Ok(name)),
    ensures
        exists|r: int| #[trigger]
            is_first_route(config, project_path@, r) && config.routes@[r].agents@.len() > 0 && name@
                == config.routes@[r].agents@[0]@,
{
    let routed = choose|routed: Result<RouteMatch, String>| #[trigger]
        project_routed(config, project_path@, None, routed) && match routed {
            Ok(route) => name@ == route.shown_name(),
            Err(_) => false,
        };
    let matched = routed->Ok_0;
    lemma_routed_without_budgets(config, project_path@, None, matched);
}

/// A task of a project is given only to somebody whom the first route that takes the
/// project in names.
pub proof fn law_assignees_work_on_the_route(config: &Config, project_path: &str, assignee: &str)
    requires
        call_ensures(check_assignee, (config, project_path, assignee), Ok(())),
    ensures
        exists|r: int| #[trigger]
            is_first_route(config, project_path@, r) && config.routes@[r].agents.deep_view().contains(assignee@),
{
    let routed = choose|routed: Result<RouteMatch, String>| #[trigger]
        project_routed(config, project_path@, Some(assignee@), routed) && routed is Ok;
    lemma_routed_without_budgets(config, project_path@, Some(assignee@), routed->Ok_0);
    let r = choose|r: int| #[trigger]
        is_first_route(config, project_path@, r) && config.routes@[r].agents.deep_view().contains(assignee@);
    assert(is_first_route(config, project_path@, r));
}

/// A description is its text without the blanks at the end, and there is none exactly where
/// there is nothing but blanks.
pub proof fn law_descriptions_lose_only_blanks_at_the_end(text: &str, description: Option<String>)
    requires
        call_ensures(task_description, (text,), description),
    ensures
        description is None <==> all_blank(text@),
        description matches Some(kept) ==> kept@.len() > 0 && !blank(kept@.last()) && exists|tail: Seq<char>|
            all_blank(tail) && text@ == #[trigger] (kept@ + tail),
{
    law_trimming_the_end_takes_off_blanks_alone(text@);
    let tail = choose|tail: Seq<char>| all_blank(tail) && text@ == #[trigger] (trim_end(text@) + tail);
    if description is Some {
        assert(text@[trim_end(text@).len() - 1] == trim_end(text@).last());
    } else {
        assert(trim_end(text@) + tail =~= tail);
    }
}

/// A task that is to be run is made ready, and one that is not is not run. It is run in the
/// background where that is asked for, and else in the foreground as it is asked for.
pub proof fn law_only_what_is_to_be_run_is_launched(
    ready: bool,
    exec: bool,
    edit: bool,
    background: bool,
    interactive: bool,
    quiet: bool,
    after: AfterAdd,
)
    requires
        call_ensures(after_add, (ready, exec, edit, background, interactive, quiet), after),
    ensures
        after.make_ready <==> ready || exec,
        after.open_editor <==> edit,
        after.launch is No <==> !exec,
        after.launch is Background <==> exec && background,
        after.launch is Foreground ==> after.launch->interactive == interactive && after.launch->quiet == quiet,
        !(after.launch is No) ==> after.make_ready,
{
}

/// The tasks that are listed are all of them, or those that are neither put off nor done,
/// in order.
pub proof fn law_tasks_under_way_are_listed(tasks: &Vec<TaskSummary>, all: bool, shown: Vec<TaskSummary>)
    requires
        call_ensures(listed_tasks, (tasks, all), shown),
    ensures
        selection(
            summary_views(tasks@),
            |i: int| all || !(tasks@[i].status is Backlog || tasks@[i].status is Done),
            summary_views(shown@),
        ),
{
    let views = summary_views(tasks@);
    let keep = |i: int| all || !(tasks@[i].status is Backlog || tasks@[i].status is Done);
    assert forall|i: int| 0 <= i < views.len() implies #[trigger] keep(i) == (all || active(views[i].status)) by {}
    lemma_listed(views, all, keep);
}

proof fn lemma_listed(views: Seq<SummaryView>, all: bool, keep: spec_fn(int) -> bool)
    requires
        forall|i: int| 0 <= i < views.len() ==> #[trigger] keep(i) == (all || active(views[i].status)),
    ensures
        selection(views, keep, listed(views, all)),
    decreases views.len(),
{
    if views.len() == 0 {
        lemma_selection_empty::<SummaryView>(keep);
        assert(views =~= Seq::empty());
    } else {
        lemma_listed(views.drop_last(), all, keep);
        lemma_selection_push(views, keep, listed(views.drop_last(), all));
        assert(keep(views.len() - 1) == (all || active(views[views.len() - 1].status)));
    }
}

/// The paths stand in their lines in order.
proof fn lemma_path_lines(lead: Seq<char>, paths: Seq<Seq<char>>)
    ensures
        holds_in_order(path_lines(lead, paths), paths),
    decreases paths.len(),
{
    let text = path_lines(lead, paths);
    if paths.len() == 0 {
        assert(in_order_at(text, paths, Seq::empty()));
    } else {
        let front = paths.drop_last();
        let before = path_lines(lead, front);
        lemma_path_lines(lead, front);
        let at = choose|at: Seq<int>| in_order_at(before, front, at);
        let start = (before.len() + lead.len()) as int;
        let places = at.push(start);
        assert(text =~= before + (lead + paths.last() + "\n"@));
        assert forall|i: int| 0 <= i < paths.len() implies 0 <= #[trigger] places[i] && places[i] + paths[i].len()
            <= text.len() && text.subrange(places[i], places[i] + paths[i].len()) == paths[i] by {
            if i < front.len() {
                assert(places[i] == at[i]);
                assert(front[i] == paths[i]);
                assert(text.subrange(at[i], at[i] + paths[i].len()) =~= before.subrange(at[i], at[i] + paths[i].len()));
            } else {
                assert(text.subrange(start, start + paths[i].len()) =~= paths[i]);
            }
        }
        assert forall|i: int, j: int| 0 <= i < j < paths.len() implies #[trigger] places[i] + paths[i].len()
            <= #[trigger] places[j] by {
            assert(places[i] == at[i]);
            assert(front[i] == paths[i]);
            if j < front.len() {
                assert(places[j] == at[j]);
            }
        }
        assert(in_order_at(text, paths, places));
    }
}

/// What is shown before tasks are changed names each task, in order, how many they are, and
/// what is set.
pub proof fn law_changes_are_shown_beforehand(
    paths: &Vec<String>,
    set_status: Option<&str>,
    set_agent: Option<&str>,
    text: String,
)
    requires
        call_ensures(update_preview, (paths, set_status, set_agent), text),
    ensures
        holds_in_order(text@, paths.deep_view()),
        begins(text@, "will update "@ + decimal(paths@.len() as nat)),
        set_status matches Some(status) ==> holds(text@, "set status → "@ + status@ + "\n"@),
        set_agent matches Some(agent) ==> holds(text@, "set agent  → "@ + agent@ + "\n"@),
{
    let all = paths.deep_view();
    let lines = path_lines("  "@, all);
    lemma_path_lines("  "@, all);
    let start = "will update "@ + decimal(paths@.len() as nat);
    let head = start + " task(s):\n"@;
    let status = match set_status {
        Some(status) => "  set status → "@ + status@ + "\n"@,
        None => Seq::empty(),
    };
    let agent = match set_agent {
        Some(agent) => "  set agent  → "@ + agent@ + "\n"@,
        None => Seq::empty(),
    };
    assert(text@ =~= head + lines + (status + agent));
    assert(text@.subrange(0, start.len() as int) =~= start);
    lemma_in_order_within(head, lines, status + agent, all);
    if let Some(word) = set_status {
        let part = "set status → "@ + word@ + "\n"@;
        reveal_strlit("  set status → ");
        reveal_strlit("set status → ");
        reveal_strlit("  ");
        assert(status =~= "  "@ + part);
        assert(text@ =~= (head + lines + "  "@) + part + agent);
        lemma_holds_within(head + lines + "  "@, part, agent);
    }
    if let Some(word) = set_agent {
        let part = "set agent  → "@ + word@ + "\n"@;
        reveal_strlit("  set agent  → ");
        reveal_strlit("set agent  → ");
        reveal_strlit("  ");
        assert(agent =~= "  "@ + part);
        assert(text@ =~= (head + lines + status + "  "@) + part + Seq::<char>::empty());
        lemma_holds_within(head + lines + status + "  "@, part, Seq::empty());
    }
}

/// What is shown before a task is deleted names the task, its title, its status and each
/// recap that goes with it, in order.
pub proof fn law_deletions_are_shown_beforehand(
    task_path: &str,
    title: &str,
    status: TaskStatus,
    recaps: &Vec<String>,
    text: String,
)
    requires
        call_ensures(deletion_preview, (task_path, title, status, recaps), text),
    ensures
        holds_in_order(text@, seq![task_path@, title@, status.word()]),
        holds_in_order(text@, recaps.deep_view()),
{
    let all = recaps.deep_view();
    let lines = path_lines("  recap  → "@, all);
    lemma_path_lines("  recap  → "@, all);
    let head = "will delete task "@ + task_path@ + ":\n  title  → "@ + title@ + "\n  status → "@ + status.word() + "\n"@;
    assert(text@ =~= head + lines + Seq::<char>::empty());
    lemma_in_order_within(head, lines, Seq::empty(), all);
    let a = "will delete task "@;
    let b = ":\n  title  → "@;
    let c = "\n  status → "@;
    lemma_three_in_order(a, task_path@, b, title@, c, status.word(), "\n"@ + lines);
    assert(text@ =~= a + task_path@ + b + title@ + c + status.word() + ("\n"@ + lines));
}

/// A recap lies where its path says, where that is absolute or leads to a file as it is; or
/// else in the directory of its task.
pub proof fn law_recaps_lie_beside_their_task(
    recaps: &Vec<String>,
    task_path: &str,
    exists_as_is: &Vec<bool>,
    places: Vec<String>,
    directory: Option<String>,
)
    requires
        exists_as_is@.len() == recaps@.len(),
        call_ensures(recap_places, (recaps, task_path, exists_as_is), places),
        call_ensures(crate::paths::parent, (task_path,), directory),
    ensures
        places@.len() == recaps@.len(),
        forall|i: int|
            0 <= i < recaps@.len() ==> {
                let recap = recaps@[i]@;
                let place = #[trigger] places@[i]@;
                &&& exists_as_is@[i] ==> place == recap
                &&& recap.len() > 0 && recap[0] == '/' ==> place == recap
                &&& !exists_as_is@[i] && recap.len() > 0 && recap[0] != '/' && directory is Some && directory->0@.len() > 0
                    && directory->0@.last() != '/' ==> place == directory->0@ + "/"@ + recap
            },
{
    reveal_strlit("/");
    assert(places.deep_view().len() == recaps@.len());
    assert forall|i: int| 0 <= i < recaps@.len() implies {
        let recap = recaps@[i]@;
        let place = #[trigger] places@[i]@;
        &&& exists_as_is@[i] ==> place == recap
        &&& recap.len() > 0 && recap[0] == '/' ==> place == recap
        &&& !exists_as_is@[i] && recap.len() > 0 && recap[0] != '/' && directory is Some && directory->0@.len() > 0
            && directory->0@.last() != '/' ==> place == directory->0@ + "/"@ + recap
    } by {
        assert(places.deep_view()[i] == recap_place(recaps@[i]@, task_path@, exists_as_is@[i]));
        if directory is Some {
            assert(directory->0@.push('/') =~= directory->0@ + "/"@);
        }
    }
}

/// With a task go those of its recaps that are there, in order, and, where recaps are kept,
/// none; and then the task itself.
pub proof fn law_a_task_goes_with_its_recaps(
    places: &Vec<String>,
    there: &Vec<bool>,
    keep_recaps: bool,
    recaps: Vec<String>,
    task_path: &str,
    files: Vec<String>,
)
    requires
        there@.len() == places@.len(),
        call_ensures(doomed_recaps, (places, there, keep_recaps), recaps),
        call_ensures(deleted_files, (&recaps, task_path), files),
    ensures
        selection(places.deep_view(), |i: int| there@[i] && !keep_recaps, recaps.deep_view()),
        files@.len() == recaps@.len() + 1,
        files@.last()@ == task_path@,
        forall|i: int| 0 <= i < recaps@.len() ==> (#[trigger] files@[i])@ == recaps@[i]@,
{
    let keep = |i: int| there@[i] && !keep_recaps;
    lemma_doomed(places.deep_view(), there@, keep_recaps, keep);
    let all = files.deep_view();
    assert(all.len() == recaps@.len() + 1);
    assert(all.last() == task_path@);
    assert forall|i: int| 0 <= i < recaps@.len() implies (#[trigger] files@[i])@ == recaps@[i]@ by {
        assert(all[i] == recaps.deep_view()[i]);
    }
}

proof fn lemma_doomed(places: Seq<Seq<char>>, there: Seq<bool>, keep_recaps: bool, keep: spec_fn(int) -> bool)
    requires
        there.len() == places.len(),
        forall|i: int| 0 <= i < places.len() ==> #[trigger] keep(i) == (there[i] && !keep_recaps),
    ensures
        selection(places, keep, doomed(places, there, keep_recaps)),
    decreases places.len(),
{
    if places.len() == 0 {
        lemma_selection_empty::<Seq<char>>(keep);
        assert(places =~= Seq::empty());
    } else {
        let front = places.drop_last();
        lemma_doomed(front, there.drop_last(), keep_recaps, keep);
        let kept = doomed(front, there.drop_last(), keep_recaps);
        lemma_selection_push(places, keep, kept);
        assert(keep(places.len() - 1) == (there[places.len() - 1] && !keep_recaps));
        if keep_recaps {
            assert(kept =~= doomed(places, there, keep_recaps));
        }
    }
}

/// What is said of a task that was added names it, by its number too where it has one; what is
/// said of one that was deleted names it, and how many recaps went with it.
pub proof fn law_added_and_deleted_tasks_are_named(
    id: Option<u64>,
    task_path: &str,
    created: String,
    recaps: usize,
    deleted: String,
)
    requires
        call_ensures(created_line, (id, task_path), created),
        call_ensures(deletion_report, (task_path, recaps), deleted),
    ensures
        holds(created@, task_path@),
        id matches Some(number) ==> holds_in_order(created@, seq![decimal(number as nat), task_path@]),
        holds(deleted@, task_path@),
        recaps > 0 ==> holds_in_order(deleted@, seq![task_path@, decimal(recaps as nat)]),
{
    let none = Seq::<char>::empty();
    match id {
        Some(number) => {
            let head = "created task #"@ + decimal(number as nat) + " "@;
            lemma_holds_within(head, task_path@, none);
            assert(created@ =~= head + task_path@ + none);
            crate::text::lemma_two_in_order("created task #"@, decimal(number as nat), " "@, task_path@, none);
            assert(created@ + none =~= created@);
        },
        None => {
            lemma_holds_within("created task "@, task_path@, none);
            assert(created@ =~= "created task "@ + task_path@ + none);
        },
    }
    let removed = if recaps == 0 {
        none
    } else {
        "removed "@ + decimal(recaps as nat) + " recap file(s)\n"@
    };
    lemma_holds_within("deleted task "@, task_path@, "\n"@ + removed);
    assert(deleted@ =~= "deleted task "@ + task_path@ + ("\n"@ + removed));
    if recaps > 0 {
        let between = "\n"@ + "removed "@;
        crate::text::lemma_two_in_order(
            "deleted task "@,
            task_path@,
            between,
            decimal(recaps as nat),
            " recap file(s)\n"@,
        );
        assert(deleted@ =~= "deleted task "@ + task_path@ + between + decimal(recaps as nat) + " recap file(s)\n"@);
    }
}

} // verus!
