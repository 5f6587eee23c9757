//! What the host knows of its tasks, as the broker may read and change it.

use vstd::prelude::*;
use vstd::string::*;

use crate::broker::{SubtaskResults, TaskDetail, TaskListEntry};
use crate::order::{lemma_selection_empty, lemma_selection_push, selection};
use crate::paths::{file_stem, file_stem_of, paths_agree, same_path};
use crate::task::{copy_text, TaskDocument, TaskStatus, TaskSummary};
use crate::text::{decimal, decimal_of, parse_u64, parsed_u64};

verus! {

// ---------------------------------------------------------------------------
// Results
// ---------------------------------------------------------------------------

/// What the host knows of one task that may have been spawned.
#[derive(Debug, PartialEq, Eq)]
pub struct SubtaskState {
    pub id: u64,
    pub status: TaskStatus,
    /// Its latest recap, where there is one that can be read.
    pub recap: Option<String>,
    /// The changes in its checkout, where they can be read.
    pub diff: Option<String>,
}

/// Reads results from what the host knows of its tasks.
#[derive(Debug, PartialEq, Eq)]
pub struct VardaSubtaskResults {
    pub states: Vec<SubtaskState>,
}

/// Whether the task with the number `id` stands at `at`, and nowhere else.
pub open spec fn stands_alone(states: Seq<SubtaskState>, id: u64, at: int) -> bool {
    &&& 0 <= at < states.len()
    &&& states[at].id == id
    &&& forall|j: int| 0 <= j < states.len() && j != at ==> (#[trigger] states[j]).id != id
}

/// Whether `found` is the task that goes by `name`, which has to be the number of one
/// task alone, or nothing where there is no such task.
pub open spec fn resolves(states: Seq<SubtaskState>, name: Seq<char>, found: Option<SubtaskState>) -> bool {
    match found {
        Some(state) => parsed_u64(name) is Some && exists|at: int| #[trigger]
            stands_alone(states, parsed_u64(name)->0, at) && states[at] == state,
        None => parsed_u64(name) is None || forall|at: int| !#[trigger] stands_alone(
            states,
            parsed_u64(name)->0,
            at,
        ),
    }
}

/// Why a name stands for no task.
pub open spec fn unresolved_text(states: Seq<SubtaskState>, name: Seq<char>) -> Seq<char> {
    match parsed_u64(name) {
        None => "subtask id '"@ + name + "' is not a resolvable numeric task id"@,
        Some(id) => if exists|i: int| 0 <= i < states.len() && (#[trigger] states[i]).id == id {
            "failed to resolve task "@ + decimal(id as nat) + ": more than one task has this id"@
        } else {
            "no task found with id "@ + decimal(id as nat)
        },
    }
}

impl VardaSubtaskResults {
    /// Reads results from `states`.
    pub fn new(states: Vec<SubtaskState>) -> (results: Self)
        ensures
            results.states == states,
    {
        VardaSubtaskResults { states }
    }

    /// The task that goes by `id`, or why there is none.
    pub fn state(&self, id: &str) -> (found: Result<&SubtaskState, String>)
        ensures
            match found {
                Ok(state) => resolves(self.states@, id@, Some(*state)),
                Err(text) => resolves(self.states@, id@, None) && text@ == unresolved_text(self.states@, id@),
            },
    {
        let number: u64 = match parse_u64(id) {
            Some(number) => number,
            None => {
                return Err("subtask id '".to_owned().concat(id).concat("' is not a resolvable numeric task id"));
            },
        };
        let mut first: Option<usize> = None;
        let mut i: usize = 0;
        while i < self.states.len()
            invariant
                i <= self.states@.len(),
                match first {
                    None => forall|j: int| 0 <= j < i ==> (#[trigger] self.states@[j]).id != number,
                    Some(at) => at < i && self.states@[at as int].id == number && forall|j: int|
                        0 <= j < i && j != at ==> (#[trigger] self.states@[j]).id != number,
                },
                parsed_u64(id@) == Some(number),
            decreases self.states@.len() - i,
        {
            if self.states[i].id == number {
                match first {
                    Some(at) => {
                        assert forall|k: int| !#[trigger] stands_alone(self.states@, number, k) by {
                            assert(self.states@[at as int].id == number);
                            assert(self.states@[i as int].id == number);
                        }
                        return Err(
                            "failed to resolve task ".to_owned().concat(decimal_of(number).as_str()).concat(
                                ": more than one task has this id",
                            ),
                        );
                    },
                    None => {
                        first = Some(i);
                    },
                }
            }
            i += 1;
        }
        match first {
            Some(at) => {
                assert(stands_alone(self.states@, number, at as int));
                Ok(&self.states[at])
            },
            None => Err("no task found with id ".to_owned().concat(decimal_of(number).as_str())),
        }
    }
}

impl SubtaskResults for VardaSubtaskResults {
    fn status(&self, id: &str) -> (status: Option<TaskStatus>)
        ensures
            exists|found: Option<SubtaskState>| #[trigger]
                resolves(self.states@, id@, found) && status == (match found {
                    Some(state) => Some(state.status),
                    None => None,
                }),
    {
        match self.state(id) {
            Ok(state) => Some(state.status),
            Err(_) => None,
        }
    }

    fn recap(&self, id: &str) -> (recap: Option<String>)
        ensures
            exists|found: Option<SubtaskState>| #[trigger]
                resolves(self.states@, id@, found) && recap.deep_view() == (match found {
                    Some(state) => state.recap.deep_view(),
                    None => None,
                }),
    {
        match self.state(id) {
            Ok(state) => copy_text(&state.recap),
            Err(_) => None,
        }
    }

    fn diff(&self, id: &str) -> (diff: Option<String>)
        ensures
            exists|found: Option<SubtaskState>| #[trigger]
                resolves(self.states@, id@, found) && diff.deep_view() == (match found {
                    Some(state) => state.diff.deep_view(),
                    None => None,
                }),
    {
        match self.state(id) {
            Ok(state) => copy_text(&state.diff),
            Err(_) => None,
        }
    }

    fn is_available(&self) -> (available: bool)
        ensures
            available,
    {
        true
    }
}

/// The command that prints what a checkout changed since `base`, files that are new
/// among it, and leaves the checkout as it was. Without a base it is the last commit.
pub fn diff_command(base: Option<&str>) -> (command: String)
    ensures
        command@ == "git add -A -N >/dev/null 2>&1; git diff "@ + (match base {
            Some(base) => base@,
            None => "HEAD"@,
        }) + "; git reset -q >/dev/null 2>&1"@,
{
    let base = match base {
        Some(base) => base,
        None => "HEAD",
    };
    "git add -A -N >/dev/null 2>&1; git diff ".to_owned().concat(base).concat("; git reset -q >/dev/null 2>&1")
}

// ---------------------------------------------------------------------------
// The board
// ---------------------------------------------------------------------------

/// One task of the host: what a list says of it, and its file where that can be read.
#[derive(Debug, PartialEq, Eq)]
pub struct BoardTask {
    pub summary: TaskSummary,
    pub document: Option<TitledDocument>,
}

/// A task file and its title.
#[derive(Debug, PartialEq, Eq)]
pub struct TitledDocument {
    pub title: String,
    pub task: TaskDocument,
}

/// Reads and changes the tasks of the host, one project at a time.
#[derive(Debug, PartialEq, Eq)]
pub struct VardaTaskControlPlane {
    pub tasks: Vec<BoardTask>,
}

/// Whether a task belongs to a project.
pub open spec fn belongs(summary: TaskSummary, project: Seq<char>) -> bool {
    match summary.project {
        Some(own) => same_path(own@, project),
        None => false,
    }
}

/// Whether a task is the one with the number `id` of a project.
pub open spec fn is_task(task: BoardTask, project: Seq<char>, id: u64) -> bool {
    belongs(task.summary, project) && task.summary.id == Some(id)
}

/// The position of the first task with the number `id` of a project, or the number of
/// tasks.
pub open spec fn task_index(tasks: Seq<BoardTask>, project: Seq<char>, id: u64) -> int
    decreases tasks.len(),
{
    if tasks.len() == 0 || is_task(tasks[0], project, id) {
        0
    } else {
        1 + task_index(tasks.drop_first(), project, id)
    }
}

/// The name by which a caller sees a task: that of its file.
pub open spec fn slug_of(path: Seq<char>) -> Seq<char> {
    match file_stem_of(path) {
        Some(stem) => stem,
        None => Seq::empty(),
    }
}

/// The name by which a caller sees a task.
pub fn task_slug(path: &str) -> (slug: String)
    ensures
        slug@ == slug_of(path@),
{
    match file_stem(path) {
        Some(stem) => stem,
        None => String::new(),
    }
}

/// Whether a list of the tasks of a project, at `status` where one is given, shows a
/// task: only those with numbers are shown.
pub open spec fn shown(summary: TaskSummary, project: Seq<char>, status: Option<TaskStatus>) -> bool {
    &&& belongs(summary, project)
    &&& summary.id is Some
    &&& status matches Some(wanted) ==> summary.status == wanted
}

/// What a list shows of a task.
pub struct EntryView {
    pub id: u64,
    pub slug: Seq<char>,
    pub status: Seq<char>,
    pub title: Seq<char>,
    pub assignee: Option<Seq<char>>,
}

impl View for TaskListEntry {
    type V = EntryView;

    open spec fn view(&self) -> EntryView {
        EntryView {
            id: self.id,
            slug: self.slug@,
            status: self.status@,
            title: self.title@,
            assignee: self.assignee.deep_view(),
        }
    }
}

/// What a list shows of a task.
pub open spec fn entry_of(summary: TaskSummary) -> EntryView {
    EntryView {
        id: summary.id->0,
        slug: slug_of(summary.path@),
        status: summary.status.word(),
        title: summary.title@,
        assignee: summary.assignee.deep_view(),
    }
}

/// What a list of the tasks of a project shows.
pub open spec fn entries_of(tasks: Seq<BoardTask>, project: Seq<char>, status: Option<TaskStatus>) -> Seq<EntryView>
    decreases tasks.len(),
{
    if tasks.len() == 0 {
        Seq::empty()
    } else if shown(tasks.last().summary, project, status) {
        entries_of(tasks.drop_last(), project, status).push(entry_of(tasks.last().summary))
    } else {
        entries_of(tasks.drop_last(), project, status)
    }
}

/// What a list of entries shows.
pub open spec fn entry_views(entries: Seq<TaskListEntry>) -> Seq<EntryView> {
    Seq::new(entries.len(), |i: int| entries[i]@)
}

/// Whether `detail` shows a task and its body.
pub open spec fn details(task: BoardTask, id: u64, detail: TaskDetail) -> bool {
    &&& task.document is Some
    &&& detail.id == id
    &&& detail.slug@ == slug_of(task.summary.path@)
    &&& detail.status@ == task.document->0.task.frontmatter.status.word()
    &&& detail.title@ == task.document->0.title@
    &&& detail.assignee.deep_view() == task.document->0.task.frontmatter.assignee.deep_view()
    &&& detail.body@ == task.document->0.task.body@
}

/// The report of a task that a project does not have.
pub open spec fn not_in_project_text(id: u64) -> Seq<char> {
    "task '"@ + decimal(id as nat) + "' not found in this project"@
}

fn belongs_to(summary: &TaskSummary, project_path: &str) -> (own: bool)
    ensures
        own == belongs(*summary, project_path@),
{
    match &summary.project {
        Some(own) => paths_agree(own.as_str(), project_path),
        None => false,
    }
}

impl VardaTaskControlPlane {
    /// Works on `tasks`.
    pub fn new(tasks: Vec<BoardTask>) -> (plane: Self)
        ensures
            plane.tasks == tasks,
    {
        VardaTaskControlPlane { tasks }
    }

    /// The position of the task with the number `id` of a project.
    pub fn find(&self, project_path: &str, id: u64) -> (at: Option<usize>)
        ensures
            match at {
                Some(at) => at == task_index(self.tasks@, project_path@, id) && at < self.tasks@.len() && is_task(
                    self.tasks@[at as int],
                    project_path@,
                    id,
                ),
                None => task_index(self.tasks@, project_path@, id) == self.tasks@.len(),
            },
    {
        let ghost all = self.tasks@;
        let mut i: usize = 0;
        assert(all.skip(0) =~= all);
        while i < self.tasks.len()
            invariant
                all == self.tasks@,
                i <= all.len(),
                task_index(all, project_path@, id) == i + task_index(all.skip(i as int), project_path@, id),
            decreases all.len() - i,
        {
            assert(all.skip(i as int)[0] == all[i as int]);
            assert(all.skip(i as int).drop_first() =~= all.skip(i + 1));
            let summary = &self.tasks[i].summary;
            let numbered = match summary.id {
                Some(number) => number == id,
                None => false,
            };
            if numbered && belongs_to(summary, project_path) {
                return Some(i);
            }
            i += 1;
        }
        None
    }

    /// The tasks of a project that have numbers, those with `status` alone where one is
    /// given.
    pub fn list_tasks(&self, project_path: &str, status: Option<TaskStatus>) -> (entries: Vec<TaskListEntry>)
        ensures
            entry_views(entries@) == entries_of(self.tasks@, project_path@, status),
    {
        let ghost all = self.tasks@;
        let mut entries: Vec<TaskListEntry> = Vec::new();
        let mut i: usize = 0;
        assert(entry_views(entries@) =~= entries_of(all.take(0), project_path@, status));
        while i < self.tasks.len()
            invariant
                all == self.tasks@,
                i <= all.len(),
                entry_views(entries@) == entries_of(all.take(i as int), project_path@, status),
            decreases all.len() - i,
        {
            let ghost before = entry_views(entries@);
            assert(all.take(i + 1).drop_last() =~= all.take(i as int));
            assert(all.take(i + 1).last() == all[i as int]);
            let summary = &self.tasks[i].summary;
            let wanted = match status {
                Some(status) => summary.status == status,
                None => true,
            };
            if let Some(id) = summary.id {
                if wanted && belongs_to(summary, project_path) {
                    entries.push(
                        TaskListEntry {
                            id,
                            slug: task_slug(summary.path.as_str()),
                            status: summary.status.as_str().to_owned(),
                            title: summary.title.clone(),
                            assignee: copy_text(&summary.assignee),
                        },
                    );
                    assert(entry_views(entries@) =~= before.push(entry_of(*summary)));
                }
            }
            i += 1;
        }
        assert(all.take(i as int) =~= all);
        entries
    }

    /// The task with the number `id` of a project, where its file can be read.
    pub fn get_task(&self, project_path: &str, id: u64) -> (detail: Option<TaskDetail>)
        ensures
            ({
                let at = task_index(self.tasks@, project_path@, id);
                match detail {
                    Some(detail) => at < self.tasks@.len() && details(self.tasks@[at], id, detail),
                    None => at == self.tasks@.len() || self.tasks@[at].document is None,
                }
            }),
    {
        match self.find(project_path, id) {
            Some(at) => {
                let task = &self.tasks[at];
                match &task.document {
                    Some(document) => Some(
                        TaskDetail {
                            id,
                            slug: task_slug(task.summary.path.as_str()),
                            status: document.task.frontmatter.status.as_str().to_owned(),
                            title: document.title.clone(),
                            assignee: copy_text(&document.task.frontmatter.assignee),
                            body: document.task.body.clone(),
                        },
                    ),
                    None => None,
                }
            },
            None => None,
        }
    }

    /// The file of the task with the number `id` of a project, to which a status is to
    /// be written.
    pub fn task_file(&self, project_path: &str, id: u64) -> (path: Result<String, String>)
        ensures
            ({
                let at = task_index(self.tasks@, project_path@, id);
                match path {
                    Ok(path) => at < self.tasks@.len() && path@ == self.tasks@[at].summary.path@,
                    Err(text) => at == self.tasks@.len() && text@ == not_in_project_text(id),
                }
            }),
    {
        match self.find(project_path, id) {
            Some(at) => Ok(self.tasks[at].summary.path.clone()),
            None => Err(
                "task '".to_owned().concat(decimal_of(id).as_str()).concat("' not found in this project"),
            ),
        }
    }
}

/// Whatever is asked for, a caller sees tasks of its own project alone.
pub proof fn law_lists_stay_within_the_project(
    tasks: Seq<BoardTask>,
    project: Seq<char>,
    status: Option<TaskStatus>,
    entry: EntryView,
)
    requires
        entries_of(tasks, project, status).contains(entry),
    ensures
        exists|i: int|
            0 <= i < tasks.len() && shown((#[trigger] tasks[i]).summary, project, status) && entry == entry_of(
                tasks[i].summary,
            ),
    decreases tasks.len(),
{
    if tasks.len() > 0 {
        let front = tasks.drop_last();
        if entries_of(front, project, status).contains(entry) {
            law_lists_stay_within_the_project(front, project, status, entry);
            let i = choose|i: int|
                0 <= i < front.len() && shown((#[trigger] front[i]).summary, project, status) && entry == entry_of(
                    front[i].summary,
                );
            assert(tasks[i] == front[i]);
        } else {
            let last = tasks.last();
            assert(tasks[tasks.len() - 1] == last);
        }
    }
}

// ---------------------------------------------------------------------------
// Laws
// ---------------------------------------------------------------------------

/// A name stands for a task exactly where it is the number of a task and of no other one;
/// status, recap and changes are then those of that task, and otherwise there are none.
pub proof fn law_a_number_stands_for_one_task(
    results: &VardaSubtaskResults,
    name: &str,
    number: Option<u64>,
    found: Result<&SubtaskState, String>,
    status: Option<TaskStatus>,
    recap: Option<String>,
    diff: Option<String>,
)
    requires
        call_ensures(parse_u64, (name,), number),
        call_ensures(VardaSubtaskResults::state, (results, name), found),
        call_ensures(<VardaSubtaskResults as SubtaskResults>::status, (results, name), status),
        call_ensures(<VardaSubtaskResults as SubtaskResults>::recap, (results, name), recap),
        call_ensures(<VardaSubtaskResults as SubtaskResults>::diff, (results, name), diff),
    ensures
        found matches Ok(state) ==> {
            &&& number == Some(state.id)
            &&& exists|at: int| 0 <= at < results.states@.len() && #[trigger] results.states@[at] == *state
            &&& forall|i: int, j: int|
                0 <= i < j < results.states@.len() && (#[trigger] results.states@[i]).id == state.id
                    ==> (#[trigger] results.states@[j]).id != state.id
            &&& status == Some(state.status)
            &&& recap.deep_view() == state.recap.deep_view()
            &&& diff.deep_view() == state.diff.deep_view()
        },
        found is Err ==> status is None && recap is None && diff is None,
        found is Err ==> forall|at: int|
            0 <= at < results.states@.len() && number == Some((#[trigger] results.states@[at]).id) ==> exists|other: int|
                0 <= other < results.states@.len() && other != at && #[trigger] results.states@[other].id
                    == results.states@[at].id,
{
    let states = results.states@;
    let by_status = choose|state: Option<SubtaskState>| #[trigger]
        resolves(states, name@, state) && status == (match state {
            Some(state) => Some(state.status),
            None => None,
        });
    let by_recap = choose|state: Option<SubtaskState>| #[trigger]
        resolves(states, name@, state) && recap.deep_view() == (match state {
            Some(state) => state.recap.deep_view(),
            None => None,
        });
    let by_diff = choose|state: Option<SubtaskState>| #[trigger]
        resolves(states, name@, state) && diff.deep_view() == (match state {
            Some(state) => state.diff.deep_view(),
            None => None,
        });
    let state = match found {
        Ok(state) => Some(*state),
        Err(_) => None,
    };
    lemma_resolves_once(states, name@, state, by_status);
    lemma_resolves_once(states, name@, state, by_recap);
    lemma_resolves_once(states, name@, state, by_diff);
    match found {
        Ok(state) => {
            let at = choose|at: int| #[trigger] stands_alone(states, number->0, at) && states[at] == *state;
            assert(states[at] == *state);
        },
        Err(_) => {
            assert forall|at: int| 0 <= at < states.len() && number == Some((#[trigger] states[at]).id) implies exists|
                other: int,
            |
                0 <= other < states.len() && other != at && #[trigger] states[other].id == states[at].id by {
                assert(!stands_alone(states, number->0, at));
            }
        },
    }
}

proof fn lemma_resolves_once(
    states: Seq<SubtaskState>,
    name: Seq<char>,
    a: Option<SubtaskState>,
    b: Option<SubtaskState>,
)
    requires
        resolves(states, name, a),
        resolves(states, name, b),
    ensures
        a == b,
{
    if a is Some && b is Some {
        let id = parsed_u64(name)->0;
        let i = choose|at: int| #[trigger] stands_alone(states, id, at) && states[at] == a->0;
        let j = choose|at: int| #[trigger] stands_alone(states, id, at) && states[at] == b->0;
        assert(states[i].id == id && states[j].id == id);
    }
}

/// A caller finds the first task of its project that has the number, whatever other projects
/// have; the file to which a status is written is that task's.
pub proof fn law_tasks_are_found_in_their_project(
    plane: &VardaTaskControlPlane,
    project: &str,
    id: u64,
    at: Option<usize>,
    file: Result<String, String>,
)
    requires
        call_ensures(VardaTaskControlPlane::find, (plane, project, id), at),
        call_ensures(VardaTaskControlPlane::task_file, (plane, project, id), file),
    ensures
        at matches Some(at) ==> at < plane.tasks@.len() && in_project(plane.tasks@[at as int].summary, project@)
            && plane.tasks@[at as int].summary.id == Some(id) && forall|i: int|
            0 <= i < at ==> !(in_project((#[trigger] plane.tasks@[i]).summary, project@) && plane.tasks@[i].summary.id
                == Some(id)),
        at is None ==> forall|i: int|
            0 <= i < plane.tasks@.len() ==> !(in_project((#[trigger] plane.tasks@[i]).summary, project@)
                && plane.tasks@[i].summary.id == Some(id)),
        at is Some <==> file is Ok,
        at is Some ==> file->Ok_0@ == plane.tasks@[at->0 as int].summary.path@,
{
    lemma_task_index(plane.tasks@, project@, id);
}

/// Whether a task says that it belongs to a project.
pub open spec fn in_project(summary: TaskSummary, project: Seq<char>) -> bool {
    summary.project is Some && same_path(summary.project->0@, project)
}

proof fn lemma_task_index(tasks: Seq<BoardTask>, project: Seq<char>, id: u64)
    ensures
        0 <= task_index(tasks, project, id) <= tasks.len(),
        forall|i: int|
            0 <= i < task_index(tasks, project, id) ==> !(in_project((#[trigger] tasks[i]).summary, project)
                && tasks[i].summary.id == Some(id)),
    decreases tasks.len(),
{
    if tasks.len() > 0 && !is_task(tasks[0], project, id) {
        let rest = tasks.drop_first();
        lemma_task_index(rest, project, id);
        assert forall|i: int| 0 <= i < task_index(tasks, project, id) implies !(in_project(
            (#[trigger] tasks[i]).summary,
            project,
        ) && tasks[i].summary.id == Some(id)) by {
            if i > 0 {
                assert(rest[i - 1] == tasks[i]);
            }
        }
    }
}

/// What is shown of each task.
pub open spec fn shown_entries(tasks: Seq<BoardTask>) -> Seq<EntryView> {
    Seq::new(
        tasks.len(),
        |i: int|
            EntryView {
                id: tasks[i].summary.id->0,
                slug: if file_stem_of(tasks[i].summary.path@) is Some {
                    file_stem_of(tasks[i].summary.path@)->0
                } else {
                    Seq::empty()
                },
                status: tasks[i].summary.status.word(),
                title: tasks[i].summary.title@,
                assignee: tasks[i].summary.assignee.deep_view(),
            },
    )
}

/// A caller is shown the tasks of its own project that have a number and, where a status is
/// asked for, are at that status: all of them, in order, and no others. Of each it sees the
/// number, the name of the file, the status, the title and whom it is assigned to.
pub proof fn law_a_caller_sees_its_own_project(
    plane: &VardaTaskControlPlane,
    project: &str,
    status: Option<TaskStatus>,
    entries: Vec<TaskListEntry>,
)
    requires
        call_ensures(VardaTaskControlPlane::list_tasks, (plane, project, status), entries),
    ensures
        selection(
            shown_entries(plane.tasks@),
            |i: int|
                in_project(plane.tasks@[i].summary, project@) && plane.tasks@[i].summary.id is Some && (status is Some
                    ==> plane.tasks@[i].summary.status == status->0),
            entry_views(entries@),
        ),
{
    let keep = |i: int|
        in_project(plane.tasks@[i].summary, project@) && plane.tasks@[i].summary.id is Some && (status is Some
            ==> plane.tasks@[i].summary.status == status->0);
    lemma_entries(plane.tasks@, project@, status, keep);
}

proof fn lemma_entries(
    tasks: Seq<BoardTask>,
    project: Seq<char>,
    status: Option<TaskStatus>,
    keep: spec_fn(int) -> bool,
)
    requires
        forall|i: int| 0 <= i < tasks.len() ==> #[trigger] keep(i) == shown(tasks[i].summary, project, status),
    ensures
        selection(shown_entries(tasks), keep, entries_of(tasks, project, status)),
    decreases tasks.len(),
{
    if tasks.len() == 0 {
        lemma_selection_empty::<EntryView>(keep);
        assert(shown_entries(tasks) =~= Seq::empty());
    } else {
        let front = tasks.drop_last();
        lemma_entries(front, project, status, keep);
        assert(shown_entries(tasks).drop_last() =~= shown_entries(front));
        lemma_selection_push(shown_entries(tasks), keep, entries_of(front, project, status));
        assert(keep(tasks.len() - 1) == shown(tasks[tasks.len() - 1].summary, project, status));
        assert(shown_entries(tasks).last() == entry_of(tasks.last().summary));
    }
}

/// A task that a caller asks for by its number is that of its own project, and it is shown
/// with all that its file says.
pub proof fn law_a_task_is_shown_from_its_file(
    plane: &VardaTaskControlPlane,
    project: &str,
    id: u64,
    at: Option<usize>,
    detail: Option<TaskDetail>,
)
    requires
        call_ensures(VardaTaskControlPlane::find, (plane, project, id), at),
        call_ensures(VardaTaskControlPlane::get_task, (plane, project, id), detail),
    ensures
        detail is Some <==> at is Some && plane.tasks@[at->0 as int].document is Some,
        detail matches Some(detail) ==> {
            let file = plane.tasks@[at->0 as int].document->0;
            &&& detail.id == id
            &&& detail.title@ == file.title@
            &&& detail.body@ == file.task.body@
            &&& detail.status@ == file.task.frontmatter.status.word()
            &&& detail.assignee.deep_view() == file.task.frontmatter.assignee.deep_view()
        },
{
    lemma_task_index(plane.tasks@, project@, id);
}

} // verus!
