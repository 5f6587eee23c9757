//! Telling the user that a task waits for them.

use vstd::prelude::*;
use vstd::string::*;

use crate::config::{Config, RUNS_DIRNAME};
use crate::paths::{below, join_path};
use crate::text::{cat, replace, replaced};

verus! {

/// Why the user is told.
#[derive(Debug, Clone, Copy, PartialEq, Eq, Structural)]
pub enum NotificationKind {
    NeedsUser,
}

impl NotificationKind {
    /// The word for the reason.
    pub fn as_str(self) -> (word: &'static str)
        ensures
            word@ == "needs_user"@,
    {
        "needs_user"
    }
}

/// What the user is shown.
#[derive(Debug, PartialEq, Eq)]
pub struct NotificationSignal {
    pub title: String,
    pub body: String,
}

/// What is kept of telling the user.
#[derive(Debug, PartialEq, Eq)]
pub struct NotificationRecord {
    pub kind: NotificationKind,
    pub task_path: String,
    pub recap_path: String,
    pub message: String,
    pub signal: NotificationSignal,
}

/// What the user is told.
pub open spec fn notification_text(task: Seq<char>, recap: Seq<char>) -> Seq<char> {
    "Task "@ + task + " requires user interaction. See recap "@ + recap + "."@
}

/// Where a record is kept, `mark` telling it apart from others.
pub open spec fn notification_file(operations_dir: Seq<char>, mark: Seq<char>) -> Seq<char> {
    below(below(operations_dir, RUNS_DIRNAME@), mark + ".notification.json"@)
}

/// Tells the user that a task waits for them: what is kept of it, and where.
pub fn notify_user_interaction(config: &Config, task_path: &str, recap_path: &str, mark: &str) -> (told: (
    String,
    NotificationRecord,
))
    ensures
        told.0@ == notification_file(config.defaults.operations_dir@, mark@),
        told.1.kind == NotificationKind::NeedsUser,
        told.1.task_path@ == task_path@,
        told.1.recap_path@ == recap_path@,
        told.1.message@ == notification_text(task_path@, recap_path@),
        told.1.signal.title@ == "Varda needs user input"@,
        told.1.signal.body@ == told.1.message@,
{
    let body = "Task ".to_owned().concat(task_path).concat(" requires user interaction. See recap ").concat(
        recap_path,
    ).concat(".");
    let record = NotificationRecord {
        kind: NotificationKind::NeedsUser,
        task_path: task_path.to_owned(),
        recap_path: recap_path.to_owned(),
        message: body.clone(),
        signal: NotificationSignal { title: "Varda needs user input".to_owned(), body },
    };
    let runs = join_path(config.defaults.operations_dir.as_str(), RUNS_DIRNAME);
    (join_path(runs.as_str(), cat(mark, ".notification.json").as_str()), record)
}

/// A text as AppleScript writes it: in quotes, with backslashes and quotes escaped.
pub open spec fn quoted(value: Seq<char>) -> Seq<char> {
    "\""@ + replace(replace(value, "\\"@, "\\\\"@), "\""@, "\\\""@) + "\""@
}

/// A text as AppleScript writes it.
pub fn applescript_string(value: &str) -> (text: String)
    ensures
        text@ == quoted(value@),
{
    proof {
        reveal_strlit("\\");
        reveal_strlit("\"");
    }
    let escaped = replaced(replaced(value, "\\", "\\\\").as_str(), "\"", "\\\"");
    "\"".to_owned().concat(escaped.as_str()).concat("\"")
}

/// The script that shows a signal.
pub fn signal_script(signal: &NotificationSignal) -> (script: String)
    ensures
        script@ == "display notification "@ + quoted(signal.body@) + " with title "@ + quoted(signal.title@),
{
    "display notification ".to_owned().concat(applescript_string(signal.body.as_str()).as_str()).concat(
        " with title ",
    ).concat(applescript_string(signal.title.as_str()).as_str())
}

// ---------------------------------------------------------------------------
// Laws
// ---------------------------------------------------------------------------

/// What AppleScript reads between quotes: a backslash stands for the character after it.
pub open spec fn read_escaped(text: Seq<char>) -> Seq<char>
    decreases text.len(),
{
    if text.len() == 0 {
        Seq::empty()
    } else if text[0] == '\\' && text.len() > 1 {
        seq![text[1]] + read_escaped(text.skip(2))
    } else {
        seq![text[0]] + read_escaped(text.drop_first())
    }
}

/// Whether no quote stands in `text` without a backslash before it, so that none ends it.
pub open spec fn no_open_quote(text: Seq<char>) -> bool
    decreases text.len(),
{
    if text.len() == 0 {
        true
    } else if text[0] == '\\' {
        text.len() > 1 && no_open_quote(text.skip(2))
    } else {
        text[0] != '"' && no_open_quote(text.drop_first())
    }
}

/// How one character is replaced.
proof fn lemma_replace_first(text: Seq<char>, c: char, by: Seq<char>)
    requires
        text.len() > 0,
    ensures
        replace(text, seq![c], by) == (if text[0] == c {
            by
        } else {
            seq![text[0]]
        }) + replace(text.drop_first(), seq![c], by),
{
    let rest = text.drop_first();
    let none = Seq::<char>::empty();
    if text[0] == c {
        crate::text::law_replacing_goes_from_left_to_right(none, seq![c], rest, by);
        assert(none + seq![c] + rest =~= text);
        assert(none + by + replace(rest, seq![c], by) =~= by + replace(rest, seq![c], by));
    } else {
        assert(text.subrange(0, 1)[0] == text[0]);
        assert(seq![c][0] == c);
        assert(!crate::text::stands_at(text, seq![c], 0));
        assert(replace(text, seq![c], by) =~= seq![text[0]] + replace(rest, seq![c], by));
    }
}

proof fn lemma_escaped(value: Seq<char>)
    ensures
        ({
            let inner = replace(replace(value, seq!['\\'], seq!['\\', '\\']), seq!['"'], seq!['\\', '"']);
            &&& read_escaped(inner) == value
            &&& no_open_quote(inner)
        }),
    decreases value.len(),
{
    let slash = seq!['\\'];
    let slashes = seq!['\\', '\\'];
    let quote = seq!['"'];
    let escape = seq!['\\', '"'];
    if value.len() == 0 {
        crate::text::law_nothing_is_replaced_elsewhere(value, slash, slashes);
        crate::text::law_nothing_is_replaced_elsewhere(value, quote, escape);
        assert(value =~= Seq::empty());
    } else {
        let rest = value.drop_first();
        let once_rest = replace(rest, slash, slashes);
        let inner_rest = replace(once_rest, quote, escape);
        let once = replace(value, slash, slashes);
        let inner = replace(once, quote, escape);
        lemma_escaped(rest);
        lemma_replace_first(value, '\\', slashes);
        if value[0] == '\\' {
            assert(once == slashes + once_rest);
            lemma_replace_first(once, '"', escape);
            let next = once.drop_first();
            assert(next =~= seq!['\\'] + once_rest);
            lemma_replace_first(next, '"', escape);
            assert(next.drop_first() =~= once_rest);
            assert(inner =~= slashes + inner_rest);
            assert(inner.skip(2) =~= inner_rest);
            assert(read_escaped(inner) =~= seq!['\\'] + rest);
        } else {
            assert(once == seq![value[0]] + once_rest);
            lemma_replace_first(once, '"', escape);
            assert(once.drop_first() =~= once_rest);
            if value[0] == '"' {
                assert(inner =~= escape + inner_rest);
                assert(inner.skip(2) =~= inner_rest);
                assert(read_escaped(inner) =~= seq!['"'] + rest);
            } else {
                assert(inner =~= seq![value[0]] + inner_rest);
                assert(inner.drop_first() =~= inner_rest);
                assert(read_escaped(inner) =~= seq![value[0]] + rest);
            }
        }
        assert(value =~= seq![value[0]] + rest);
    }
}

/// AppleScript reads a text back as it is: between the quotes nothing ends it, and each
/// character is read as it was.
pub proof fn law_quoted_texts_are_read_back(value: &str, text: String)
    requires
        call_ensures(applescript_string, (value,), text),
    ensures
        text@.len() >= 2,
        text@[0] == '"' && text@.last() == '"',
        no_open_quote(text@.subrange(1, text@.len() - 1)),
        read_escaped(text@.subrange(1, text@.len() - 1)) == value@,
{
    reveal_strlit("\\");
    reveal_strlit("\\\\");
    reveal_strlit("\"");
    reveal_strlit("\\\"");
    assert("\\"@ =~= seq!['\\']);
    assert("\\\\"@ =~= seq!['\\', '\\']);
    assert("\""@ =~= seq!['"']);
    assert("\\\""@ =~= seq!['\\', '"']);
    let inner = replace(replace(value@, seq!['\\'], seq!['\\', '\\']), seq!['"'], seq!['\\', '"']);
    lemma_escaped(value@);
    assert(text@.subrange(1, text@.len() - 1) =~= inner);
}

/// The user is told which task waits and where its recap lies, and what is kept says the same;
/// it is kept with the logs of sessions.
pub proof fn law_the_user_is_told_of_the_task(
    config: &Config,
    task_path: &str,
    recap_path: &str,
    mark: &str,
    told: (String, NotificationRecord),
)
    requires
        call_ensures(notify_user_interaction, (config, task_path, recap_path, mark), told),
    ensures
        told.1.task_path@ == task_path@,
        told.1.recap_path@ == recap_path@,
        told.1.signal.body@ == told.1.message@,
        crate::text::holds_in_order(told.1.message@, seq![task_path@, recap_path@]),
        ({
            let dir = config.defaults.operations_dir@;
            dir.len() > 0 && dir.last() != '/' && mark@.len() > 0 && mark@[0] != '/' ==> told.0@ == dir + "/runs/"@ + mark@
                + ".notification.json"@
        }),
{
    crate::text::lemma_two_in_order(
        "Task "@,
        task_path@,
        " requires user interaction. See recap "@,
        recap_path@,
        "."@,
    );
    let dir = config.defaults.operations_dir@;
    reveal_strlit("runs");
    reveal_strlit("/runs/");
    if dir.len() > 0 && dir.last() != '/' && mark@.len() > 0 && mark@[0] != '/' {
        assert(below(dir, "runs"@).last() == 's');
        assert((mark@ + ".notification.json"@)[0] == mark@[0]);
        assert(told.0@ =~= dir + "/runs/"@ + mark@ + ".notification.json"@);
    }
}

} // verus!
