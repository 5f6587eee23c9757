//! Task status and the small facts about a task that other modules share.

use vstd::prelude::*;

use crate::config::MaxSeconds;
use crate::text::{cat, same};

verus! {

/// Where a task stands.
#[derive(Clone, Copy, Debug, PartialEq, Eq, Structural)]
pub enum TaskStatus {
    Backlog,
    Ready,
    Running,
    Review,
    NeedsUser,
    Failed,
    Done,
}

impl TaskStatus {
    /// The word that stands for the status in a task file.
    pub open spec fn word(self) -> Seq<char> {
        match self {
            TaskStatus::Backlog => "backlog"@,
            TaskStatus::Ready => "ready"@,
            TaskStatus::Running => "running"@,
            TaskStatus::Review => "review"@,
            TaskStatus::NeedsUser => "needs_user"@,
            TaskStatus::Failed => "failed"@,
            TaskStatus::Done => "done"@,
        }
    }

    /// The status that a word stands for. `pending` is the older word for
    /// `review`.
    pub open spec fn from_word(word: Seq<char>) -> Option<TaskStatus> {
        if word == "backlog"@ {
            Some(TaskStatus::Backlog)
        } else if word == "ready"@ {
            Some(TaskStatus::Ready)
        } else if word == "running"@ {
            Some(TaskStatus::Running)
        } else if word == "review"@ || word == "pending"@ {
            Some(TaskStatus::Review)
        } else if word == "needs_user"@ {
            Some(TaskStatus::NeedsUser)
        } else if word == "failed"@ {
            Some(TaskStatus::Failed)
        } else if word == "done"@ {
            Some(TaskStatus::Done)
        } else {
            None
        }
    }

    /// The word that stands for the status in a task file.
    pub fn as_str(self) -> (word: &'static str)
        ensures
            word@ == self.word(),
    {
        match self {
            TaskStatus::Backlog => "backlog",
            TaskStatus::Ready => "ready",
            TaskStatus::Running => "running",
            TaskStatus::Review => "review",
            TaskStatus::NeedsUser => "needs_user",
            TaskStatus::Failed => "failed",
            TaskStatus::Done => "done",
        }
    }

    /// The name of the status in reports.
    pub open spec fn name(self) -> Seq<char> {
        match self {
            TaskStatus::Backlog => "Backlog"@,
            TaskStatus::Ready => "Ready"@,
            TaskStatus::Running => "Running"@,
            TaskStatus::Review => "Review"@,
            TaskStatus::NeedsUser => "NeedsUser"@,
            TaskStatus::Failed => "Failed"@,
            TaskStatus::Done => "Done"@,
        }
    }

    /// The name of the status in reports.
    pub fn debug_name(self) -> (name: &'static str)
        ensures
            name@ == self.name(),
    {
        match self {
            TaskStatus::Backlog => "Backlog",
            TaskStatus::Ready => "Ready",
            TaskStatus::Running => "Running",
            TaskStatus::Review => "Review",
            TaskStatus::NeedsUser => "NeedsUser",
            TaskStatus::Failed => "Failed",
            TaskStatus::Done => "Done",
        }
    }

    /// Reads a status word.
    pub fn parse(word: &str) -> (status: Option<TaskStatus>)
        ensures
            status == TaskStatus::from_word(word@),
    {
        if same(word, "backlog") {
            Some(TaskStatus::Backlog)
        } else if same(word, "ready") {
            Some(TaskStatus::Ready)
        } else if same(word, "running") {
            Some(TaskStatus::Running)
        } else if same(word, "review") || same(word, "pending") {
            Some(TaskStatus::Review)
        } else if same(word, "needs_user") {
            Some(TaskStatus::NeedsUser)
        } else if same(word, "failed") {
            Some(TaskStatus::Failed)
        } else if same(word, "done") {
            Some(TaskStatus::Done)
        } else {
            None
        }
    }
}

/// The words of the statuses are told apart by their first letters and lengths.
proof fn lemma_words_differ()
    ensures
        forall|a: TaskStatus, b: TaskStatus| a != b ==> #[trigger] a.word() != #[trigger] b.word(),
        forall|a: TaskStatus| #[trigger] a.word() != "pending"@,
{
    reveal_strlit("backlog");
    reveal_strlit("ready");
    reveal_strlit("running");
    reveal_strlit("review");
    reveal_strlit("needs_user");
    reveal_strlit("failed");
    reveal_strlit("done");
    reveal_strlit("pending");
    assert forall|a: TaskStatus, b: TaskStatus| a != b implies #[trigger] a.word() != #[trigger] b.word() by {
        assert("ready"@.len() == 5 && "running"@.len() == 7 && "review"@.len() == 6);
        assert("backlog"@[0] == 'b' && "running"@[0] == 'r' && "review"@[0] == 'r' && "failed"@[0] == 'f');
        assert(a.word().len() == b.word().len() ==> a.word()[0] != b.word()[0]);
    }
    assert forall|a: TaskStatus| #[trigger] a.word() != "pending"@ by {
        assert("pending"@[0] == 'p' && "backlog"@[0] == 'b' && "running"@[0] == 'r');
        assert(a.word().len() == 7 ==> a.word()[0] != "pending"@[0]);
    }
}

/// Reading back the word of a status gives that status.
pub proof fn law_status_word_round_trip(status: TaskStatus)
    ensures
        TaskStatus::from_word(status.word()) == Some(status),
{
    lemma_words_differ();
    assert(TaskStatus::Backlog.word() == "backlog"@);
    assert(TaskStatus::Ready.word() == "ready"@);
    assert(TaskStatus::Running.word() == "running"@);
    assert(TaskStatus::Review.word() == "review"@);
    assert(TaskStatus::NeedsUser.word() == "needs_user"@);
    assert(TaskStatus::Failed.word() == "failed"@);
    assert(TaskStatus::Done.word() == "done"@);
}

/// Bounds that a task sets on its own runs.
#[derive(Debug, PartialEq, Eq)]
pub struct TaskBounds {
    /// How long a run may be silent, in seconds.
    pub idle_timeout: Option<u64>,
    pub max_seconds: Option<MaxSeconds>,
    pub max_continuations: Option<u32>,
    pub max_tool_calls: Option<u64>,
}

impl Default for TaskBounds {
    fn default() -> (bounds: Self)
        ensures
            bounds == (TaskBounds {
                idle_timeout: None,
                max_seconds: None,
                max_continuations: None,
                max_tool_calls: None,
            }),
    {
        TaskBounds { idle_timeout: None, max_seconds: None, max_continuations: None, max_tool_calls: None }
    }
}

/// What is written above the body of a task.
#[derive(Debug, PartialEq, Eq)]
pub struct TaskFrontmatter {
    pub id: Option<u64>,
    pub status: TaskStatus,
    pub project: Option<String>,
    /// The project whose policy applies, where it is not `project`.
    pub mother_project: Option<String>,
    pub assignee: Option<String>,
    pub sandbox: Option<String>,
    pub recap: Option<String>,
    pub recaps: Vec<String>,
    pub plan: Option<String>,
    pub agent_session_id: Option<String>,
    pub agent_session_log: Option<String>,
    pub agent_session_ids: Vec<String>,
    pub agent_session_logs: Vec<String>,
    pub agent_resume_commands: Vec<String>,
    pub allow_commands: Vec<String>,
    pub bounds: TaskBounds,
    pub requires_user: bool,
}

/// What a [`TaskFrontmatter`] says.
pub struct FrontmatterView {
    pub id: Option<u64>,
    pub status: TaskStatus,
    pub project: Option<Seq<char>>,
    pub mother_project: Option<Seq<char>>,
    pub assignee: Option<Seq<char>>,
    pub sandbox: Option<Seq<char>>,
    pub recap: Option<Seq<char>>,
    pub recaps: Seq<Seq<char>>,
    pub plan: Option<Seq<char>>,
    pub agent_session_id: Option<Seq<char>>,
    pub agent_session_log: Option<Seq<char>>,
    pub agent_session_ids: Seq<Seq<char>>,
    pub agent_session_logs: Seq<Seq<char>>,
    pub agent_resume_commands: Seq<Seq<char>>,
    pub allow_commands: Seq<Seq<char>>,
    pub bounds: TaskBounds,
    pub requires_user: bool,
}

impl View for TaskFrontmatter {
    type V = FrontmatterView;

    open spec fn view(&self) -> FrontmatterView {
        FrontmatterView {
            id: self.id,
            status: self.status,
            project: self.project.deep_view(),
            mother_project: self.mother_project.deep_view(),
            assignee: self.assignee.deep_view(),
            sandbox: self.sandbox.deep_view(),
            recap: self.recap.deep_view(),
            recaps: self.recaps.deep_view(),
            plan: self.plan.deep_view(),
            agent_session_id: self.agent_session_id.deep_view(),
            agent_session_log: self.agent_session_log.deep_view(),
            agent_session_ids: self.agent_session_ids.deep_view(),
            agent_session_logs: self.agent_session_logs.deep_view(),
            agent_resume_commands: self.agent_resume_commands.deep_view(),
            allow_commands: self.allow_commands.deep_view(),
            bounds: self.bounds,
            requires_user: self.requires_user,
        }
    }
}

/// The same texts.
fn copy_list(texts: &Vec<String>) -> (copy: Vec<String>)
    ensures
        copy.deep_view() == texts.deep_view(),
{
    let copy = texts.clone();
    assert(copy.deep_view() =~= texts.deep_view());
    copy
}

/// Bounds that are the same.
fn copy_bounds(bounds: &TaskBounds) -> (copy: TaskBounds)
    ensures
        copy == *bounds,
{
    let max_seconds = match &bounds.max_seconds {
        Some(MaxSeconds::Seconds(seconds)) => Some(MaxSeconds::Seconds(*seconds)),
        Some(MaxSeconds::Keyword(word)) => Some(MaxSeconds::Keyword(word.clone())),
        None => None,
    };
    TaskBounds {
        idle_timeout: bounds.idle_timeout,
        max_seconds,
        max_continuations: bounds.max_continuations,
        max_tool_calls: bounds.max_tool_calls,
    }
}

/// A frontmatter that says the same.
pub fn copy_frontmatter(frontmatter: &TaskFrontmatter) -> (copy: TaskFrontmatter)
    ensures
        copy@ == frontmatter@,
{
    TaskFrontmatter {
        id: frontmatter.id,
        status: frontmatter.status,
        project: copy_text(&frontmatter.project),
        mother_project: copy_text(&frontmatter.mother_project),
        assignee: copy_text(&frontmatter.assignee),
        sandbox: copy_text(&frontmatter.sandbox),
        recap: copy_text(&frontmatter.recap),
        recaps: copy_list(&frontmatter.recaps),
        plan: copy_text(&frontmatter.plan),
        agent_session_id: copy_text(&frontmatter.agent_session_id),
        agent_session_log: copy_text(&frontmatter.agent_session_log),
        agent_session_ids: copy_list(&frontmatter.agent_session_ids),
        agent_session_logs: copy_list(&frontmatter.agent_session_logs),
        agent_resume_commands: copy_list(&frontmatter.agent_resume_commands),
        allow_commands: copy_list(&frontmatter.allow_commands),
        bounds: copy_bounds(&frontmatter.bounds),
        requires_user: frontmatter.requires_user,
    }
}

/// A task file.
#[derive(Debug, PartialEq, Eq)]
pub struct TaskDocument {
    pub path: String,
    pub frontmatter: TaskFrontmatter,
    pub body: String,
}

impl TaskDocument {
    /// Puts the task at `status`.
    pub fn set_status(&mut self, status: TaskStatus)
        ensures
            *final(self) == (TaskDocument {
                frontmatter: TaskFrontmatter { status, ..old(self).frontmatter },
                ..*old(self)
            }),
    {
        self.frontmatter.status = status;
    }

    /// Adds a recap.
    pub fn set_recap(&mut self, recap: String)
        ensures
            *final(self) == (TaskDocument {
                frontmatter: TaskFrontmatter { recaps: final(self).frontmatter.recaps, ..old(self).frontmatter },
                ..*old(self)
            }),
            final(self).frontmatter.recaps@ == old(self).frontmatter.recaps@.push(recap),
    {
        self.frontmatter.recaps.push(recap);
    }

    /// Sets the plan.
    pub fn set_plan(&mut self, plan: String)
        ensures
            *final(self) == (TaskDocument {
                frontmatter: TaskFrontmatter { plan: Some(plan), ..old(self).frontmatter },
                ..*old(self)
            }),
    {
        self.frontmatter.plan = Some(plan);
    }

    /// Assigns the task.
    pub fn set_assignee(&mut self, assignee: String)
        ensures
            *final(self) == (TaskDocument {
                frontmatter: TaskFrontmatter { assignee: Some(assignee), ..old(self).frontmatter },
                ..*old(self)
            }),
    {
        self.frontmatter.assignee = Some(assignee);
    }
}

/// What a list of tasks says about one of them.
#[derive(Debug, PartialEq, Eq)]
pub struct TaskSummary {
    pub id: Option<u64>,
    pub path: String,
    pub title: String,
    pub status: TaskStatus,
    pub project: Option<String>,
    pub assignee: Option<String>,
}

/// What a [`TaskSummary`] says.
pub struct SummaryView {
    pub id: Option<u64>,
    pub path: Seq<char>,
    pub title: Seq<char>,
    pub status: TaskStatus,
    pub project: Option<Seq<char>>,
    pub assignee: Option<Seq<char>>,
}

impl View for TaskSummary {
    type V = SummaryView;

    open spec fn view(&self) -> SummaryView {
        SummaryView {
            id: self.id,
            path: self.path@,
            title: self.title@,
            status: self.status,
            project: self.project.deep_view(),
            assignee: self.assignee.deep_view(),
        }
    }
}

/// A summary that says the same.
pub fn copy_summary(summary: &TaskSummary) -> (copy: TaskSummary)
    ensures
        copy@ == summary@,
{
    TaskSummary {
        id: summary.id,
        path: summary.path.clone(),
        title: summary.title.clone(),
        status: summary.status,
        project: copy_text(&summary.project),
        assignee: copy_text(&summary.assignee),
    }
}

/// The same text, where there is one.
pub fn copy_text(text: &Option<String>) -> (copy: Option<String>)
    ensures
        copy.deep_view() == text.deep_view(),
{
    match text {
        Some(text) => Some(text.clone()),
        None => None,
    }
}

/// The text that reports an unreadable status word.
pub open spec fn unknown_status_text(word: Seq<char>) -> Seq<char> {
    "unknown task status: "@ + word
}

/// Reports an unreadable status word.
pub fn unknown_status_message(word: &str) -> (text: String)
    ensures
        text@ == unknown_status_text(word@),
{
    cat("unknown task status: ", word)
}

/// Each status is read from its word, `review` from its older word as well, and no other word
/// is one.
pub proof fn law_statuses_are_read_from_their_words(word: &str, status: Option<TaskStatus>)
    requires
        call_ensures(TaskStatus::parse, (word,), status),
    ensures
        word@ == "backlog"@ ==> status == Some(TaskStatus::Backlog),
        word@ == "ready"@ ==> status == Some(TaskStatus::Ready),
        word@ == "running"@ ==> status == Some(TaskStatus::Running),
        word@ == "review"@ ==> status == Some(TaskStatus::Review),
        word@ == "pending"@ ==> status == Some(TaskStatus::Review),
        word@ == "needs_user"@ ==> status == Some(TaskStatus::NeedsUser),
        word@ == "failed"@ ==> status == Some(TaskStatus::Failed),
        word@ == "done"@ ==> status == Some(TaskStatus::Done),
        status matches Some(status) ==> word@ == status.word() || (status is Review && word@ == "pending"@),
{
    reveal_strlit("backlog");
    reveal_strlit("ready");
    reveal_strlit("running");
    reveal_strlit("review");
    reveal_strlit("pending");
    reveal_strlit("needs_user");
    reveal_strlit("failed");
    reveal_strlit("done");
    assert("backlog"@[0] == 'b' && "running"@[0] == 'r' && "pending"@[0] == 'p');
    assert("review"@[0] == 'r' && "failed"@[0] == 'f');
    assert("backlog"@.len() == 7 && "ready"@.len() == 5 && "running"@.len() == 7 && "review"@.len() == 6);
    assert("pending"@.len() == 7 && "needs_user"@.len() == 10 && "failed"@.len() == 6 && "done"@.len() == 4);
}

} // verus!
