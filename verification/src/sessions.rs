//! The sessions of a task: their logs, and continuing one of them.

use vstd::prelude::*;
use vstd::string::*;

use crate::order::{lemma_selection_empty, lemma_selection_push, selection};
use crate::paths::{file_name, file_stem, file_stem_of, last_dot, last_name, paths_agree, same_path};
use crate::task::{TaskDocument, TaskFrontmatter, TaskStatus};
use crate::text::{
    cat, cat3, chars_of, decimal, decimal_of, holds_in_order, lemma_in_order_empty, lemma_in_order_push,
    lemma_in_order_within, lines, lines_of, lower, lowered, parse_u64, parsed_u64, same, string_of, strip_prefix, trim,
    trimmed, without_prefix,
};

verus! {

// ---------------------------------------------------------------------------
// Reading logs
// ---------------------------------------------------------------------------

/// The value of a line `key=value`, where the line is one and the value is not blank.
pub open spec fn line_value(line: Seq<char>, key: Seq<char>) -> Option<Seq<char>> {
    match without_prefix(line, key + "="@) {
        Some(rest) => if trim(rest).len() > 0 {
            Some(trim(rest))
        } else {
            None
        },
        None => None,
    }
}

/// The first value of `key` among the lines of a log.
pub open spec fn first_value(lines: Seq<Seq<char>>, key: Seq<char>) -> Option<Seq<char>>
    decreases lines.len(),
{
    if lines.len() == 0 {
        None
    } else {
        match line_value(lines[0], key) {
            Some(value) => Some(value),
            None => first_value(lines.drop_first(), key),
        }
    }
}

/// The first value of `key` in a log.
pub fn session_log_value(content: &str, key: &str) -> (value: Option<String>)
    ensures
        value.deep_view() == first_value(lines(content@), key@),
{
    let prefix = cat(key, "=");
    let all_lines = lines_of(content);
    let ghost all = all_lines.deep_view();
    let mut i: usize = 0;
    assert(all.skip(0) =~= all);
    while i < all_lines.len()
        invariant
            prefix@ == key@ + "="@,
            all == all_lines.deep_view(),
            all == lines(content@),
            i <= all_lines@.len(),
            first_value(all, key@) == first_value(all.skip(i as int), key@),
        decreases all_lines@.len() - i,
    {
        assert(all.skip(i as int)[0] == all_lines@[i as int]@);
        assert(all.skip(i as int).drop_first() =~= all.skip(i + 1));
        if let Some(rest) = strip_prefix(all_lines[i].as_str(), prefix.as_str()) {
            let value = trimmed(rest.as_str());
            if !value.as_str().is_empty() {
                return Some(value);
            }
        }
        i += 1;
    }
    None
}

/// Whether two paths are of one task: they are written alike, or they lead to the same
/// file, where both lead to one.
pub open spec fn one_task(
    left: Seq<char>,
    right: Seq<char>,
    left_file: Option<Seq<char>>,
    right_file: Option<Seq<char>>,
) -> bool {
    ||| same_path(left, right)
    ||| left_file is Some && right_file is Some && same_path(left_file->0, right_file->0)
}

/// Whether two paths are of one task.
pub fn same_task_path(left: &str, right: &str, left_file: Option<&str>, right_file: Option<&str>) -> (one: bool)
    ensures
        one == one_task(left@, right@, left_file.deep_view(), right_file.deep_view()),
{
    if paths_agree(left, right) {
        return true;
    }
    match (left_file, right_file) {
        (Some(left), Some(right)) => paths_agree(left, right),
        _ => false,
    }
}

/// The extension of a file, where it has one.
pub open spec fn extension_of(path: Seq<char>) -> Option<Seq<char>> {
    match last_name(path) {
        Some(name) => if last_dot(name) > 0 {
            Some(name.skip(last_dot(name) + 1))
        } else {
            None
        },
        None => None,
    }
}

/// The extension of a file, where it has one.
pub fn extension(path: &str) -> (found: Option<String>)
    ensures
        found.deep_view() == extension_of(path@),
{
    match file_name(path) {
        Some(name) => {
            let chars = chars_of(name.as_str());
            let mut dot: usize = chars.len();
            assert(chars@.take(dot as int) =~= chars@);
            while dot > 0 && chars[dot - 1] != '.'
                invariant
                    dot <= chars@.len(),
                    last_dot(chars@.take(dot as int)) == last_dot(chars@),
                decreases dot,
            {
                assert(chars@.take(dot as int).drop_last() =~= chars@.take(dot - 1));
                dot -= 1;
            }
            if dot <= 1 {
                None
            } else {
                let rest = string_of(&chars, dot, chars.len());
                assert(rest@ =~= chars@.skip(dot as int));
                Some(rest)
            }
        },
        None => None,
    }
}

/// A file among the logs.
#[derive(Debug, PartialEq, Eq)]
pub struct LogFile {
    pub path: String,
    pub content: String,
    /// The file that the log's task leads to, where it leads to one.
    pub task_file: Option<String>,
    /// When the log was last written, where that is known.
    pub modified: Option<u64>,
}

/// A session of a task.
#[derive(Debug, PartialEq, Eq)]
pub struct TaskSession {
    pub session_id: String,
    pub log_path: String,
    pub modified: Option<u64>,
}

/// What a [`TaskSession`] says.
pub struct SessionView {
    pub session_id: Seq<char>,
    pub log_path: Seq<char>,
    pub modified: Option<u64>,
}

impl View for TaskSession {
    type V = SessionView;

    open spec fn view(&self) -> SessionView {
        SessionView { session_id: self.session_id@, log_path: self.log_path@, modified: self.modified }
    }
}

/// Whether a file is the log of a session of a task.
pub open spec fn is_log_of(file: LogFile, task: Seq<char>, task_file: Option<Seq<char>>) -> bool {
    &&& extension_of(file.path@) == Some("log"@)
    &&& first_value(lines(file.content@), "task"@) matches Some(named) && one_task(
        named,
        task,
        file.task_file.deep_view(),
        task_file,
    )
}

/// The session that a log is of. A log that does not name it is named after it.
pub open spec fn session_of(file: LogFile) -> SessionView {
    SessionView {
        session_id: match first_value(lines(file.content@), "session_id"@) {
            Some(id) => id,
            None => match file_stem_of(file.path@) {
                Some(stem) => stem,
                None => "unknown"@,
            },
        },
        log_path: file.path@,
        modified: file.modified,
    }
}

/// The sessions of a task among the logs, in the order of the logs.
pub open spec fn sessions_among(files: Seq<LogFile>, task: Seq<char>, task_file: Option<Seq<char>>) -> Seq<SessionView>
    decreases files.len(),
{
    if files.len() == 0 {
        Seq::empty()
    } else if is_log_of(files.last(), task, task_file) {
        sessions_among(files.drop_last(), task, task_file).push(session_of(files.last()))
    } else {
        sessions_among(files.drop_last(), task, task_file)
    }
}

/// How recent a session is; one whose time is not known is older than all others.
pub open spec fn recency(session: SessionView) -> int {
    match session.modified {
        Some(time) => time as int,
        None => -1,
    }
}

/// What a list of sessions says.
pub open spec fn session_views(sessions: Seq<TaskSession>) -> Seq<SessionView> {
    Seq::new(sessions.len(), |i: int| sessions[i]@)
}

/// Whether `ordered` is `sessions` with the most recent first, those of one time in
/// their order: at each place `i` stands the one that stood at `places[i]`.
pub open spec fn latest_first(sessions: Seq<SessionView>, ordered: Seq<SessionView>, places: Seq<int>) -> bool {
    &&& ordered.len() == sessions.len()
    &&& places.len() == sessions.len()
    &&& forall|i: int|
        0 <= i < places.len() ==> 0 <= #[trigger] places[i] < sessions.len() && ordered[i] == sessions[places[i]]
    &&& forall|i: int, j: int|
        0 <= i < j < places.len() ==> #[trigger] places[i] != #[trigger] places[j] && (recency(sessions[places[i]])
            > recency(sessions[places[j]]) || (recency(sessions[places[i]]) == recency(sessions[places[j]])
            && places[i] < places[j]))
}

fn is_newer(a: &TaskSession, b: &TaskSession) -> (newer: bool)
    ensures
        newer == (recency(a@) > recency(b@)),
{
    match (a.modified, b.modified) {
        (Some(a), Some(b)) => a > b,
        (Some(_), None) => true,
        _ => false,
    }
}

fn order_sessions(sessions: Vec<TaskSession>) -> (ordered: Vec<TaskSession>)
    ensures
        exists|places: Seq<int>| #[trigger]
            latest_first(session_views(sessions@), session_views(ordered@), places),
{
    let ghost all = session_views(sessions@);
    let mut rest = sessions;
    // The sessions are taken from the end, so each goes before those that are not
    // more recent.
    let mut ordered: Vec<TaskSession> = Vec::new();
    let ghost mut places: Seq<int> = Seq::empty();
    while rest.len() > 0
        invariant
            rest@.len() <= all.len(),
            session_views(rest@) == all.take(rest@.len() as int),
            ordered@.len() == places.len(),
            places.len() == all.len() - rest@.len(),
            forall|i: int|
                0 <= i < places.len() ==> rest@.len() <= #[trigger] places[i] < all.len() && ordered@[i]@
                    == all[places[i]],
            forall|i: int, j: int|
                0 <= i < j < places.len() ==> #[trigger] places[i] != #[trigger] places[j] && (recency(all[places[i]])
                    > recency(all[places[j]]) || (recency(all[places[i]]) == recency(all[places[j]]) && places[i]
                    < places[j])),
        decreases rest@.len(),
    {
        let ghost at: int = rest@.len() - 1;
        assert(all[at] == session_views(rest@)[at]);
        let ghost rest_views = session_views(rest@);
        let next = match rest.pop() {
            Some(next) => next,
            None => {
                return ordered;
            },
        };
        assert(next@ == all[at]);
        assert(session_views(rest@) =~= all.take(at)) by {
            assert(session_views(rest@) =~= rest_views.take(at));
        }
        let mut to: usize = 0;
        while to < ordered.len() && is_newer(&ordered[to], &next)
            invariant
                to <= ordered@.len(),
                forall|i: int| 0 <= i < to ==> recency((#[trigger] ordered@[i])@) > recency(next@),
            decreases ordered@.len() - to,
        {
            to += 1;
        }
        let ghost old_ordered = ordered@;
        let ghost old_places = places;
        ordered.insert(to, next);
        proof {
            places = places.insert(to as int, at);
            assert forall|i: int| 0 <= i < places.len() implies at <= #[trigger] places[i] < all.len() && ordered@[i]@
                == all[places[i]] by {
                if i < to {
                    assert(places[i] == old_places[i]);
                } else if i > to {
                    assert(places[i] == old_places[i - 1]);
                }
            }
            assert forall|i: int, j: int| 0 <= i < j < places.len() implies #[trigger] places[i]
                != #[trigger] places[j] && (recency(all[places[i]]) > recency(all[places[j]]) || (recency(
                all[places[i]],
            ) == recency(all[places[j]]) && places[i] < places[j])) by {
                let oi = if i < to { i } else { i - 1 };
                let oj = if j < to { j } else { j - 1 };
                if i != to {
                    assert(places[i] == old_places[oi]);
                    assert(old_ordered[oi]@ == all[old_places[oi]]);
                }
                if j != to {
                    assert(places[j] == old_places[oj]);
                    assert(old_ordered[oj]@ == all[old_places[oj]]);
                }
                if j == to {
                    assert(recency(old_ordered[i]@) > recency(next@));
                } else if i == to {
                    let head = old_ordered[to as int]@;
                    assert(recency(head) <= recency(next@));
                    if oj != to {
                        assert(old_places[to as int] != old_places[oj]);
                        assert(all[old_places[to as int]] == head);
                    }
                }
            }
        }
    }
    assert(session_views(ordered@) =~= Seq::new(places.len(), |i: int| all[places[i]]));
    assert(latest_first(all, session_views(ordered@), places));
    ordered
}

/// Whether a file is the log of a session.
pub fn is_session_log(path: &str) -> (is_log: bool)
    ensures
        is_log == (extension_of(path@) == Some("log"@)),
{
    match extension(path) {
        Some(extension) => same(extension.as_str(), "log"),
        None => false,
    }
}

/// The sessions of a task among the logs, the most recent first.
pub fn task_sessions(files: &Vec<LogFile>, task_path: &str, task_file: Option<&str>) -> (sessions: Vec<TaskSession>)
    ensures
        exists|places: Seq<int>| #[trigger]
            latest_first(
                sessions_among(files@, task_path@, task_file.deep_view()),
                session_views(sessions@),
                places,
            ),
{
    let mut found: Vec<TaskSession> = Vec::new();
    let mut i: usize = 0;
    assert(session_views(found@) =~= sessions_among(files@.take(0), task_path@, task_file.deep_view()));
    while i < files.len()
        invariant
            i <= files@.len(),
            session_views(found@) == sessions_among(files@.take(i as int), task_path@, task_file.deep_view()),
        decreases files@.len() - i,
    {
        let ghost before = session_views(found@);
        assert(files@.take(i + 1).drop_last() =~= files@.take(i as int));
        assert(files@.take(i + 1).last() == files@[i as int]);
        let file = &files[i];
        let is_log = is_session_log(file.path.as_str());
        let own_file = match &file.task_file {
            Some(path) => Some(path.as_str()),
            None => None,
        };
        let is_own = match session_log_value(file.content.as_str(), "task") {
            Some(named) => same_task_path(named.as_str(), task_path, own_file, task_file),
            None => false,
        };
        if is_log && is_own {
            let session_id = match session_log_value(file.content.as_str(), "session_id") {
                Some(id) => id,
                None => match file_stem(file.path.as_str()) {
                    Some(stem) => stem,
                    None => "unknown".to_owned(),
                },
            };
            found.push(TaskSession { session_id, log_path: file.path.clone(), modified: file.modified });
            assert(session_views(found@) =~= before.push(session_of(*file)));
        }
        i += 1;
    }
    assert(files@.take(i as int) =~= files@);
    order_sessions(found)
}

// ---------------------------------------------------------------------------
// Continuing
// ---------------------------------------------------------------------------

/// The last of `commands` that is not blank.
pub open spec fn latest_command(commands: Seq<Seq<char>>) -> Option<Seq<char>>
    decreases commands.len(),
{
    if commands.len() == 0 {
        None
    } else if trim(commands.last()).len() > 0 {
        Some(commands.last())
    } else {
        latest_command(commands.drop_last())
    }
}

/// The command that continues the latest session of a task that can be continued.
pub fn latest_agent_resume_command(task: &TaskDocument) -> (command: Option<String>)
    ensures
        command.deep_view() == latest_command(task.frontmatter.agent_resume_commands.deep_view()),
{
    let commands = &task.frontmatter.agent_resume_commands;
    let ghost all = commands.deep_view();
    let mut n: usize = commands.len();
    assert(all.take(n as int) =~= all);
    while n > 0
        invariant
            all == commands.deep_view(),
            *commands == task.frontmatter.agent_resume_commands,
            n <= commands@.len(),
            latest_command(all) == latest_command(all.take(n as int)),
        decreases n,
    {
        assert(all.take(n as int).last() == commands@[n - 1]@);
        assert(all.take(n as int).drop_last() =~= all.take(n - 1));
        if !trimmed(commands[n - 1].as_str()).as_str().is_empty() {
            return Some(commands[n - 1].clone());
        }
        n -= 1;
    }
    None
}

/// How a task is taken up again.
#[derive(Debug, PartialEq, Eq)]
pub struct ResumePlan {
    /// Whether the task waited for the user, who may want to change it first.
    pub offer_editor: bool,
    /// The command that continues its session, where one was kept.
    pub resume_command: Option<String>,
}

/// Takes a task up again: it is ready and waits for nobody. Its latest session can be
/// continued, unless a fresh one is wanted.
pub fn resume_task(task: &mut TaskDocument, fresh: bool) -> (plan: ResumePlan)
    ensures
        plan.offer_editor == (old(task).frontmatter.status == TaskStatus::NeedsUser),
        plan.resume_command.deep_view() == (if fresh {
            None
        } else {
            latest_command(old(task).frontmatter.agent_resume_commands.deep_view())
        }),
        *final(task) == (TaskDocument {
            frontmatter: TaskFrontmatter {
                status: TaskStatus::Ready,
                requires_user: false,
                ..old(task).frontmatter
            },
            ..*old(task)
        }),
{
    let offer_editor = task.frontmatter.status == TaskStatus::NeedsUser;
    let resume_command = if fresh {
        None
    } else {
        latest_agent_resume_command(task)
    };
    task.set_status(TaskStatus::Ready);
    task.frontmatter.requires_user = false;
    ResumePlan { offer_editor, resume_command }
}

/// Takes a task up again with one of its sessions, which becomes its latest.
pub fn resume_session(task: &mut TaskDocument, session: &TaskSession)
    ensures
        *final(task) == (TaskDocument {
            frontmatter: TaskFrontmatter {
                status: TaskStatus::Ready,
                requires_user: false,
                agent_session_ids: final(task).frontmatter.agent_session_ids,
                agent_session_logs: final(task).frontmatter.agent_session_logs,
                ..old(task).frontmatter
            },
            ..*old(task)
        }),
        final(task).frontmatter.agent_session_ids.deep_view() == old(
            task,
        ).frontmatter.agent_session_ids.deep_view().push(session.session_id@),
        final(task).frontmatter.agent_session_logs.deep_view() == old(
            task,
        ).frontmatter.agent_session_logs.deep_view().push(session.log_path@),
{
    task.set_status(TaskStatus::Ready);
    task.frontmatter.requires_user = false;
    crate::execution::add_session(task, session.session_id.as_str(), session.log_path.as_str());
}

// ---------------------------------------------------------------------------
// Questions to the user
// ---------------------------------------------------------------------------

/// The lines of the sessions, numbered from one.
pub open spec fn session_lines(sessions: Seq<SessionView>) -> Seq<char>
    decreases sessions.len(),
{
    if sessions.len() == 0 {
        Seq::empty()
    } else {
        session_lines(sessions.drop_last()) + (decimal(sessions.len()) + ". "@ + sessions.last().session_id + " "@
            + sessions.last().log_path + "\n"@)
    }
}

/// The sessions that the user can choose from.
pub fn session_menu(sessions: &Vec<TaskSession>) -> (text: String)
    ensures
        text@ == "Past sessions:\n"@ + session_lines(session_views(sessions@)),
{
    let ghost all = session_views(sessions@);
    let mut rows = String::new();
    let mut i: usize = 0;
    assert(rows@ =~= session_lines(all.take(0)));
    while i < sessions.len()
        invariant
            all == session_views(sessions@),
            i <= sessions@.len(),
            rows@ == session_lines(all.take(i as int)),
        decreases sessions@.len() - i,
    {
        let number: u64 = i as u64 + 1;
        assert(all.take(i + 1).drop_last() =~= all.take(i as int));
        assert(all.take(i + 1).last() == sessions@[i as int]@);
        let row = decimal_of(number).concat(". ").concat(sessions[i].session_id.as_str()).concat(" ").concat(
            sessions[i].log_path.as_str(),
        ).concat("\n");
        rows.append(row.as_str());
        i += 1;
    }
    assert(all.take(i as int) =~= all);
    cat("Past sessions:\n", rows.as_str())
}

/// What the user chose of several sessions.
#[derive(Debug, Clone, Copy, PartialEq, Eq, Structural)]
pub enum SessionChoice {
    /// None.
    Cancelled,
    /// The one at this position.
    Chosen(usize),
}

/// What an answer chooses of `count` sessions, which are numbered from one. Without an
/// answer it is the first.
pub open spec fn session_choice(answer: Seq<char>, count: nat) -> Result<SessionChoice, Seq<char>> {
    let answer = trim(answer);
    if lower(answer) == "q"@ || lower(answer) == "quit"@ {
        Ok(SessionChoice::Cancelled)
    } else if answer.len() == 0 {
        if count > 0 {
            Ok(SessionChoice::Chosen(0))
        } else {
            Err("session selection 1 is out of range"@)
        }
    } else {
        match parsed_u64(answer) {
            None => Err("invalid session selection '"@ + answer + "'"@),
            Some(number) => if number == 0 {
                Err("session selection must be at least 1"@)
            } else if number <= count {
                Ok(SessionChoice::Chosen((number - 1) as usize))
            } else {
                Err("session selection "@ + decimal(number as nat) + " is out of range"@)
            },
        }
    }
}

/// Reads what the user chose of several sessions.
pub fn choose_session(answer: &str, count: usize) -> (choice: Result<SessionChoice, String>)
    ensures
        match choice {
            Ok(choice) => session_choice(answer@, count as nat) == Ok::<SessionChoice, Seq<char>>(choice),
            Err(text) => session_choice(answer@, count as nat) == Err::<SessionChoice, Seq<char>>(text@),
        },
{
    let answer = trimmed(answer);
    let small = lowered(answer.as_str());
    if same(small.as_str(), "q") || same(small.as_str(), "quit") {
        return Ok(SessionChoice::Cancelled);
    }
    if answer.as_str().is_empty() {
        return if count > 0 {
            Ok(SessionChoice::Chosen(0))
        } else {
            Err("session selection 1 is out of range".to_owned())
        };
    }
    match parse_u64(answer.as_str()) {
        None => Err(cat3("invalid session selection '", answer.as_str(), "'")),
        Some(number) => if number == 0 {
            Err("session selection must be at least 1".to_owned())
        } else if number <= count as u64 {
            Ok(SessionChoice::Chosen((number - 1) as usize))
        } else {
            Err(cat3("session selection ", decimal_of(number).as_str(), " is out of range"))
        },
    }
}

/// What an answer to a question means, `default` being what no answer means.
pub open spec fn answered_yes(answer: Seq<char>, default: bool) -> bool {
    let answer = lower(trim(answer));
    if answer.len() == 0 {
        default
    } else {
        answer == "y"@ || answer == "yes"@
    }
}

/// What an answer to a question means.
pub fn is_yes(answer: &str, default: bool) -> (yes: bool)
    ensures
        yes == answered_yes(answer@, default),
{
    let answer = lowered(trimmed(answer).as_str());
    if answer.as_str().is_empty() {
        default
    } else {
        same(answer.as_str(), "y") || same(answer.as_str(), "yes")
    }
}

/// The question, with the answers that it takes.
pub fn yes_no_prompt(prompt: &str, default: bool) -> (text: String)
    ensures
        text@ == prompt@ + " ["@ + (if default {
            "Y/n"@
        } else {
            "y/N"@
        }) + "]: "@,
{
    let suffix = if default {
        "Y/n"
    } else {
        "y/N"
    };
    prompt.to_owned().concat(" [").concat(suffix).concat("]: ")
}

/// The assignee that an answer names, or else the default one.
pub fn chosen_assignee(answer: &str, default_assignee: &str) -> (assignee: String)
    ensures
        assignee@ == (if trim(answer@).len() == 0 {
            default_assignee@
        } else {
            trim(answer@)
        }),
{
    let answer = trimmed(answer);
    if answer.as_str().is_empty() {
        default_assignee.to_owned()
    } else {
        answer
    }
}

/// The task that an answer names, where it names one. A number may follow a hash.
pub fn chosen_task(answer: &str) -> (task: Option<String>)
    ensures
        task.deep_view() == (if trim(answer@).len() == 0 {
            None
        } else {
            Some(crate::text::without_leading(trim(answer@), "#"@))
        }),
{
    let answer = trimmed(answer);
    if answer.as_str().is_empty() {
        None
    } else {
        Some(crate::text::stripped_leading(answer.as_str(), "#"))
    }
}

// ---------------------------------------------------------------------------
// Laws
// ---------------------------------------------------------------------------

/// Whether a line gives `key` a value: it is the key, an equals sign and something that is
/// not blank, which is `value` up to blanks at either end.
pub open spec fn gives_value(line: Seq<char>, key: Seq<char>, value: Seq<char>) -> bool {
    exists|rest: Seq<char>| line == #[trigger] (key + "="@ + rest) && trim(rest) == value && value.len() > 0
}

/// Whether a line gives `key` any value.
pub open spec fn gives_some_value(line: Seq<char>, key: Seq<char>) -> bool {
    exists|value: Seq<char>| gives_value(line, key, value)
}

proof fn lemma_gives_some_value(line: Seq<char>, key: Seq<char>)
    ensures
        match line_value(line, key) {
            Some(value) => gives_value(line, key, value),
            None => !gives_some_value(line, key),
        },
{
    match line_value(line, key) {
        Some(value) => {
            lemma_gives_value(line, key, value);
        },
        None => {
            if gives_some_value(line, key) {
                let value = choose|value: Seq<char>| gives_value(line, key, value);
                lemma_gives_value(line, key, value);
            }
        },
    }
}

proof fn lemma_gives_value(line: Seq<char>, key: Seq<char>, value: Seq<char>)
    ensures
        gives_value(line, key, value) <==> line_value(line, key) == Some(value),
{
    let lead = key + "="@;
    crate::text::law_holding_is_standing_somewhere(line, lead);
    if gives_value(line, key, value) {
        let rest = choose|rest: Seq<char>| line == #[trigger] (lead + rest) && trim(rest) == value && value.len() > 0;
        assert(line == lead + rest);
        let found = without_prefix(line, lead)->0;
        assert(line == lead + found);
        assert(found =~= line.skip(lead.len() as int));
        assert(rest =~= line.skip(lead.len() as int));
    }
    if line_value(line, key) == Some(value) {
        let found = without_prefix(line, lead)->0;
        assert(line == lead + found);
    }
}

/// The value of a key in a log is that of the first line that gives it one.
pub proof fn law_the_first_value_in_a_log_counts(content: &str, key: &str, value: Option<String>)
    requires
        call_ensures(session_log_value, (content, key), value),
    ensures
        ({
            let rows = lines(content@);
            match value {
                Some(value) => exists|i: int|
                    0 <= i < rows.len() && gives_value(#[trigger] rows[i], key@, value@) && forall|j: int|
                        0 <= j < i ==> !gives_some_value(#[trigger] rows[j], key@),
                None => forall|i: int| 0 <= i < rows.len() ==> !gives_some_value(#[trigger] rows[i], key@),
            }
        }),
{
    lemma_first_value(lines(content@), key@);
}

proof fn lemma_first_value(rows: Seq<Seq<char>>, key: Seq<char>)
    ensures
        match first_value(rows, key) {
            Some(value) => exists|i: int|
                0 <= i < rows.len() && gives_value(#[trigger] rows[i], key, value) && forall|j: int|
                    0 <= j < i ==> !gives_some_value(#[trigger] rows[j], key),
            None => forall|i: int| 0 <= i < rows.len() ==> !gives_some_value(#[trigger] rows[i], key),
        },
    decreases rows.len(),
{
    if rows.len() > 0 {
        lemma_gives_some_value(rows[0], key);
        if let Some(value) = line_value(rows[0], key) {
            assert(gives_value(rows[0], key, value));
        } else {
            let rest = rows.drop_first();
            lemma_first_value(rest, key);
            if let Some(value) = first_value(rest, key) {
                let i = choose|i: int|
                    0 <= i < rest.len() && gives_value(#[trigger] rest[i], key, value) && forall|j: int|
                        0 <= j < i ==> !gives_some_value(#[trigger] rest[j], key);
                assert(rows[i + 1] == rest[i]);
                assert forall|j: int| 0 <= j < i + 1 implies !gives_some_value(#[trigger] rows[j], key) by {
                    if j > 0 {
                        assert(rest[j - 1] == rows[j]);
                    }
                }
            } else {
                assert forall|j: int| 0 <= j < rows.len() implies !gives_some_value(#[trigger] rows[j], key) by {
                    if j > 0 {
                        assert(rest[j - 1] == rows[j]);
                    }
                }
            }
        }
    }
}

/// Two paths are of one task exactly where they are written alike, or both lead to a file
/// and the files are written alike.
pub proof fn law_paths_of_one_task(
    left: &str,
    right: &str,
    left_file: Option<&str>,
    right_file: Option<&str>,
    one: bool,
)
    requires
        call_ensures(same_task_path, (left, right, left_file, right_file), one),
    ensures
        same_path(left@, right@) ==> one,
        left_file is Some && right_file is Some && same_path(left_file->0@, right_file->0@) ==> one,
        one && !same_path(left@, right@) ==> left_file is Some && right_file is Some && same_path(
            left_file->0@,
            right_file->0@,
        ),
{
}

/// The sessions that logs are of.
pub open spec fn logged_sessions(files: Seq<LogFile>) -> Seq<SessionView> {
    Seq::new(files.len(), |i: int| session_of(files[i]))
}

/// The sessions of a task are those of the logs, files that end with `.log`, that name the
/// task; all of them, and the most recent first. One whose time is not known comes after all
/// others, and those of one time come in the order of the logs.
pub proof fn law_sessions_are_those_of_the_task(
    files: &Vec<LogFile>,
    task_path: &str,
    task_file: Option<&str>,
    sessions: Vec<TaskSession>,
)
    requires
        call_ensures(task_sessions, (files, task_path, task_file), sessions),
    ensures
        exists|found: Seq<SessionView>, places: Seq<int>|
            #![trigger found.len(), places.len()]
            {
                &&& selection(
                    logged_sessions(files@),
                    |i: int|
                        extension_of(files@[i].path@) == Some("log"@) && first_value(
                            lines(files@[i].content@),
                            "task"@,
                        ) is Some && one_task(
                            first_value(lines(files@[i].content@), "task"@)->0,
                            task_path@,
                            files@[i].task_file.deep_view(),
                            task_file.deep_view(),
                        ),
                    found,
                )
                &&& places.len() == found.len() && sessions@.len() == found.len()
                &&& forall|i: int|
                    0 <= i < places.len() ==> 0 <= #[trigger] places[i] < found.len() && sessions@[i]@ == found[places[i]]
                &&& forall|i: int, j: int|
                    #![trigger places[i], places[j]]
                    0 <= i < j < places.len() ==> {
                        let (a, b) = (sessions@[i].modified, sessions@[j].modified);
                        &&& places[i] != places[j]
                        &&& a is None ==> b is None
                        &&& a is Some && b is Some ==> a->0 >= b->0
                        &&& a == b ==> places[i] < places[j]
                    }
            },
{
    let keep = |i: int|
        extension_of(files@[i].path@) == Some("log"@) && first_value(lines(files@[i].content@), "task"@) is Some
            && one_task(
            first_value(lines(files@[i].content@), "task"@)->0,
            task_path@,
            files@[i].task_file.deep_view(),
            task_file.deep_view(),
        );
    let found = sessions_among(files@, task_path@, task_file.deep_view());
    lemma_sessions_among(files@, task_path@, task_file.deep_view(), keep);
    let ordered = session_views(sessions@);
    let places = choose|places: Seq<int>| #[trigger] latest_first(found, ordered, places);
    assert(ordered.len() == sessions@.len());
    assert forall|i: int| 0 <= i < places.len() implies 0 <= #[trigger] places[i] < found.len() && sessions@[i]@
        == found[places[i]] by {
        assert(ordered[i] == sessions@[i]@);
    }
    assert forall|i: int, j: int|
        #![trigger places[i], places[j]]
        0 <= i < j < places.len() implies {
        let (a, b) = (sessions@[i].modified, sessions@[j].modified);
        &&& places[i] != places[j]
        &&& a is None ==> b is None
        &&& a is Some && b is Some ==> a->0 >= b->0
        &&& a == b ==> places[i] < places[j]
    } by {
        assert(ordered[i] == sessions@[i]@ && ordered[j] == sessions@[j]@);
    }
    assert(places.len() == found.len());
}

proof fn lemma_sessions_among(
    files: Seq<LogFile>,
    task: Seq<char>,
    task_file: Option<Seq<char>>,
    keep: spec_fn(int) -> bool,
)
    requires
        forall|i: int| 0 <= i < files.len() ==> #[trigger] keep(i) == is_log_of(files[i], task, task_file),
    ensures
        selection(logged_sessions(files), keep, sessions_among(files, task, task_file)),
    decreases files.len(),
{
    if files.len() == 0 {
        lemma_selection_empty::<SessionView>(keep);
        assert(logged_sessions(files) =~= Seq::empty());
    } else {
        let front = files.drop_last();
        lemma_sessions_among(front, task, task_file, keep);
        assert(logged_sessions(files).drop_last() =~= logged_sessions(front));
        lemma_selection_push(logged_sessions(files), keep, sessions_among(front, task, task_file));
        assert(keep(files.len() - 1) == is_log_of(files[files.len() - 1], task, task_file));
    }
}

/// A session goes by the name that its log gives it, or else by that of the log, and keeps
/// the place and the time of the log.
pub proof fn law_sessions_go_by_their_log(file: LogFile)
    ensures
        session_of(file).log_path == file.path@,
        session_of(file).modified == file.modified,
        first_value(lines(file.content@), "session_id"@) matches Some(id) ==> session_of(file).session_id == id,
        first_value(lines(file.content@), "session_id"@) is None && file_stem_of(file.path@) is Some ==> session_of(
            file,
        ).session_id == file_stem_of(file.path@)->0,
{
}

/// A session is continued by the last command that was kept and is not blank.
pub proof fn law_the_latest_command_continues(task: &TaskDocument, command: Option<String>)
    requires
        call_ensures(latest_agent_resume_command, (task,), command),
    ensures
        ({
            let kept = task.frontmatter.agent_resume_commands@;
            match command {
                Some(command) => exists|i: int|
                    0 <= i < kept.len() && (#[trigger] kept[i])@ == command@ && trim(command@).len() > 0 && forall|j: int|
                        i < j < kept.len() ==> trim((#[trigger] kept[j])@).len() == 0,
                None => forall|j: int| 0 <= j < kept.len() ==> trim((#[trigger] kept[j])@).len() == 0,
            }
        }),
{
    let kept = task.frontmatter.agent_resume_commands@;
    let all = task.frontmatter.agent_resume_commands.deep_view();
    lemma_latest_command(all);
    match command {
        Some(command) => {
            let i = choose|i: int|
                0 <= i < all.len() && #[trigger] all[i] == command@ && trim(command@).len() > 0 && forall|j: int|
                    i < j < all.len() ==> trim(#[trigger] all[j]).len() == 0;
            assert(kept[i]@ == command@);
            assert forall|j: int| i < j < kept.len() implies trim((#[trigger] kept[j])@).len() == 0 by {
                assert(all[j] == kept[j]@);
            }
        },
        None => {
            assert forall|j: int| 0 <= j < kept.len() implies trim((#[trigger] kept[j])@).len() == 0 by {
                assert(all[j] == kept[j]@);
            }
        },
    }
}

proof fn lemma_latest_command(commands: Seq<Seq<char>>)
    ensures
        match latest_command(commands) {
            Some(command) => exists|i: int|
                0 <= i < commands.len() && #[trigger] commands[i] == command && trim(command).len() > 0 && forall|j: int|
                    i < j < commands.len() ==> trim(#[trigger] commands[j]).len() == 0,
            None => forall|j: int| 0 <= j < commands.len() ==> trim(#[trigger] commands[j]).len() == 0,
        },
    decreases commands.len(),
{
    if commands.len() > 0 {
        if trim(commands.last()).len() > 0 {
            assert(commands[commands.len() - 1] == commands.last());
        } else {
            let front = commands.drop_last();
            lemma_latest_command(front);
            if let Some(command) = latest_command(front) {
                let i = choose|i: int|
                    0 <= i < front.len() && #[trigger] front[i] == command && trim(command).len() > 0 && forall|j: int|
                        i < j < front.len() ==> trim(#[trigger] front[j]).len() == 0;
                assert(commands[i] == command);
                assert forall|j: int| i < j < commands.len() implies trim(#[trigger] commands[j]).len() == 0 by {
                    if j < front.len() {
                        assert(front[j] == commands[j]);
                    }
                }
            } else {
                assert forall|j: int| 0 <= j < commands.len() implies trim(#[trigger] commands[j]).len() == 0 by {
                    if j < front.len() {
                        assert(front[j] == commands[j]);
                    }
                }
            }
        }
    }
}

/// A task that is taken up again is ready and waits for nobody; nothing else of it changes.
/// Its latest session is continued unless a fresh one is wanted, and the user may change it
/// first exactly where it waited for the user.
pub proof fn law_tasks_are_taken_up_again(
    before: TaskDocument,
    after: TaskDocument,
    fresh: bool,
    plan: ResumePlan,
    command: Option<String>,
)
    requires
        call_ensures(latest_agent_resume_command, (&before,), command),
        exists|task: &mut TaskDocument|
            *task == before && *final(task) == after && #[trigger] call_ensures(resume_task, (task, fresh), plan),
    ensures
        after.frontmatter.status is Ready,
        !after.frontmatter.requires_user,
        (TaskFrontmatter {
            status: before.frontmatter.status,
            requires_user: before.frontmatter.requires_user,
            ..after.frontmatter
        }) == before.frontmatter,
        after.body == before.body,
        after.path == before.path,
        plan.offer_editor <==> before.frontmatter.status is NeedsUser,
        fresh ==> plan.resume_command is None,
        !fresh ==> plan.resume_command.deep_view() == command.deep_view(),
{
}

/// A task that is taken up again with one of its sessions has that session, and its log, as
/// its last; it is ready and waits for nobody, and nothing else of it changes.
pub proof fn law_a_chosen_session_becomes_the_latest(
    before: TaskDocument,
    after: TaskDocument,
    session: &TaskSession,
)
    requires
        exists|task: &mut TaskDocument|
            *task == before && *final(task) == after && #[trigger] call_ensures(resume_session, (task, session), ()),
    ensures
        after.frontmatter.status is Ready,
        !after.frontmatter.requires_user,
        after.frontmatter.agent_session_ids@.len() == before.frontmatter.agent_session_ids@.len() + 1,
        after.frontmatter.agent_session_ids@.last()@ == session.session_id@,
        after.frontmatter.agent_session_logs@.len() == before.frontmatter.agent_session_logs@.len() + 1,
        after.frontmatter.agent_session_logs@.last()@ == session.log_path@,
        after.frontmatter.recaps == before.frontmatter.recaps,
        after.frontmatter.project == before.frontmatter.project,
        after.frontmatter.assignee == before.frontmatter.assignee,
        after.body == before.body,
{
    let ids = after.frontmatter.agent_session_ids.deep_view();
    let logs = after.frontmatter.agent_session_logs.deep_view();
    assert(ids.len() == before.frontmatter.agent_session_ids.deep_view().len() + 1);
    assert(logs.len() == before.frontmatter.agent_session_logs.deep_view().len() + 1);
    assert(ids.last() == session.session_id@ && logs.last() == session.log_path@);
}

/// Sessions are chosen by their numbers, which count from one; no answer chooses the first,
/// and `q` or `quit`, in letters of any case, none. Nothing else is an answer.
pub proof fn law_sessions_are_chosen_by_number(answer: &str, count: usize, choice: Result<SessionChoice, String>)
    requires
        call_ensures(choose_session, (answer, count), choice),
    ensures
        ({
            let word = trim(answer@);
            let quits = lower(word) == "q"@ || lower(word) == "quit"@;
            &&& quits ==> choice == Ok::<SessionChoice, String>(SessionChoice::Cancelled)
            &&& !quits && word.len() == 0 && count > 0 ==> choice == Ok::<SessionChoice, String>(
                SessionChoice::Chosen(0),
            )
            &&& !quits && word.len() > 0 && parsed_u64(word) is Some && 1 <= parsed_u64(word)->0 <= count ==> (
            choice matches Ok(SessionChoice::Chosen(at)) && at + 1 == parsed_u64(word)->0)
            &&& choice matches Ok(SessionChoice::Chosen(at)) ==> at < count
            &&& choice is Ok ==> quits || word.len() == 0 || parsed_u64(word) is Some
            &&& choice matches Ok(SessionChoice::Cancelled) ==> quits
        }),
{
}

/// The sessions that can be chosen from are each named, with their logs, in order.
pub proof fn law_the_menu_names_every_session(sessions: &Vec<TaskSession>, text: String)
    requires
        call_ensures(session_menu, (sessions,), text),
    ensures
        holds_in_order(text@, Seq::new(sessions@.len(), |i: int| sessions@[i].session_id@)),
        holds_in_order(text@, Seq::new(sessions@.len(), |i: int| sessions@[i].log_path@)),
{
    let all = session_views(sessions@);
    lemma_session_lines(all);
    let head = "Past sessions:\n"@;
    let rows = session_lines(all);
    let ids = Seq::new(all.len(), |i: int| all[i].session_id);
    let logs = Seq::new(all.len(), |i: int| all[i].log_path);
    lemma_in_order_within(head, rows, Seq::empty(), ids);
    lemma_in_order_within(head, rows, Seq::empty(), logs);
    assert(text@ =~= head + rows + Seq::<char>::empty());
    assert(ids =~= Seq::new(sessions@.len(), |i: int| sessions@[i].session_id@));
    assert(logs =~= Seq::new(sessions@.len(), |i: int| sessions@[i].log_path@));
}

proof fn lemma_session_lines(sessions: Seq<SessionView>)
    ensures
        holds_in_order(session_lines(sessions), Seq::new(sessions.len(), |i: int| sessions[i].session_id)),
        holds_in_order(session_lines(sessions), Seq::new(sessions.len(), |i: int| sessions[i].log_path)),
    decreases sessions.len(),
{
    let ids = Seq::new(sessions.len(), |i: int| sessions[i].session_id);
    let logs = Seq::new(sessions.len(), |i: int| sessions[i].log_path);
    if sessions.len() == 0 {
        lemma_in_order_empty(session_lines(sessions));
        assert(ids =~= Seq::empty());
        assert(logs =~= Seq::empty());
    } else {
        let front = sessions.drop_last();
        let last = sessions.last();
        let before = session_lines(front);
        lemma_session_lines(front);
        let front_ids = Seq::new(front.len(), |i: int| front[i].session_id);
        let front_logs = Seq::new(front.len(), |i: int| front[i].log_path);
        let number = decimal(sessions.len()) + ". "@;
        let tail = " "@ + last.log_path + "\n"@;
        let lead = number + last.session_id + " "@;
        lemma_in_order_push(before, front_ids, number, last.session_id, tail);
        lemma_in_order_push(before, front_logs, lead, last.log_path, "\n"@);
        assert(session_lines(sessions) =~= before + (number + last.session_id + tail));
        assert(session_lines(sessions) =~= before + (lead + last.log_path + "\n"@));
        assert(ids =~= front_ids.push(last.session_id));
        assert(logs =~= front_logs.push(last.log_path));
    }
}

/// `y` and `yes`, in letters of any case and with blanks around them, mean yes; no answer
/// means the default, and every other answer no.
pub proof fn law_yes_means_yes(answer: &str, default: bool, yes: bool)
    requires
        call_ensures(is_yes, (answer, default), yes),
    ensures
        ({
            let word = lower(trim(answer@));
            &&& word == "y"@ ==> yes
            &&& word == "yes"@ ==> yes
            &&& word.len() == 0 ==> yes == default
            &&& word.len() > 0 && word != "y"@ && word != "yes"@ ==> !yes
        }),
{
    reveal_strlit("y");
    reveal_strlit("yes");
}

/// An answer names whom a task is given to, blanks around it aside; no answer means the
/// default.
pub proof fn law_answers_name_the_assignee(answer: &str, default_assignee: &str, assignee: String)
    requires
        call_ensures(chosen_assignee, (answer, default_assignee), assignee),
    ensures
        trim(answer@).len() == 0 ==> assignee@ == default_assignee@,
        trim(answer@).len() > 0 ==> assignee@ == trim(answer@),
{
}

/// The extension of a file is what follows the last dot of its name, where that is not at its
/// start, and the log of a session is a file whose extension is `log`.
pub proof fn law_logs_are_told_by_their_extension(
    base: Seq<char>,
    stem: Seq<char>,
    ending: Seq<char>,
    path: &str,
    found: Option<String>,
    is_log: bool,
)
    requires
        base.len() > 0,
        stem.len() > 0,
        !ending.contains('.'),
        crate::paths::plain_name(stem + "."@ + ending),
        path@ == base + "/"@ + (stem + "."@ + ending),
        call_ensures(extension, (path,), found),
        call_ensures(is_session_log, (path,), is_log),
    ensures
        found is Some && found->0@ == ending,
        is_log <==> ending == "log"@,
{
    let name = stem + "."@ + ending;
    crate::paths::law_a_name_below_a_path_is_a_component(base, name);
    crate::paths::lemma_last_dot(stem, ending);
    assert(crate::paths::components(path@).last() == name);
    reveal_strlit(".");
    assert(name.skip(stem.len() as int + 1) =~= ending);
}

/// An answer names a task, blanks around it and hashes before it aside; no answer names none.
pub proof fn law_answers_name_a_task(answer: &str, task: Option<String>)
    requires
        call_ensures(chosen_task, (answer,), task),
    ensures
        task is None <==> trim(answer@).len() == 0,
        task matches Some(task) ==> (trim(answer@)[0] != '#' ==> task@ == trim(answer@)) && (task@.len() > 0 ==> task@[0]
            != '#'),
{
    reveal_strlit("#");
    if let Some(found) = task {
        let word = trim(answer@);
        lemma_without_hash(word);
        if word[0] != '#' {
            assert(word.subrange(0, 1)[0] == word[0]);
        }
    }
}

proof fn lemma_without_hash(text: Seq<char>)
    ensures
        ({
            let rest = crate::text::without_leading(text, "#"@);
            rest.len() > 0 ==> rest[0] != '#'
        }),
    decreases text.len(),
{
    reveal_strlit("#");
    if crate::text::begins(text, "#"@) {
        lemma_without_hash(text.skip(1));
    } else if text.len() > 0 && text[0] == '#' {
        assert(text.subrange(0, 1) =~= "#"@);
    }
}

} // verus!
