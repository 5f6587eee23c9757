//! What a sandboxed task may see and change of its own project's board.

use vstd::prelude::*;
use vstd::string::*;

use crate::broker::{TaskDetail, TaskListEntry, RESULTS_UNAVAILABLE};
use crate::json::{optional_field, optional_text, Field, FieldView, Payload, PayloadView, Row};
use crate::task::TaskStatus;
use crate::text::{
    decimal, decimal_of, holds, holds_in_order, lemma_holds_within, lemma_two_in_order, parse_u64, parsed_u64,
};

verus! {

/// Why a task may not report the status `requested` of itself while it stands at
/// `current`, if it may not. A task may only close itself, as done, failed or
/// waiting for the user, and only while it runs.
pub open spec fn transition_denial(current: TaskStatus, requested: TaskStatus) -> Option<Seq<char>> {
    if !(requested is Done || requested is NeedsUser || requested is Failed) {
        Some(
            "set_task_status denied: guests may only set 'done', 'needs_user', or 'failed' (not '"@
                + requested.word() + "')"@,
        )
    } else if current is Running {
        None
    } else if current is Review {
        Some(
            "set_task_status denied: task is in 'review' — review -> done is a human-only gate and cannot be self-asserted by a guest agent"@,
        )
    } else {
        Some(
            "set_task_status denied: task is '"@ + current.word()
                + "', not 'running' — set_task_status only closes out an in-flight run"@,
        )
    }
}

/// Decides whether a task may report `requested` of itself.
pub fn validate_self_status_transition(current: TaskStatus, requested: TaskStatus) -> (verdict: Result<(), String>)
    ensures
        match verdict {
            Ok(()) => transition_denial(current, requested) is None,
            Err(text) => transition_denial(current, requested) == Some(text@),
        },
{
    if !matches!(requested, TaskStatus::Done | TaskStatus::NeedsUser | TaskStatus::Failed) {
        return Err(
            "set_task_status denied: guests may only set 'done', 'needs_user', or 'failed' (not '".to_owned().concat(
                requested.as_str(),
            ).concat("')"),
        );
    }
    match current {
        TaskStatus::Running => Ok(()),
        TaskStatus::Review => Err(
            "set_task_status denied: task is in 'review' — review -> done is a human-only gate and cannot be self-asserted by a guest agent".to_owned(),
        ),
        other => Err(
            "set_task_status denied: task is '".to_owned().concat(other.as_str()).concat(
                "', not 'running' — set_task_status only closes out an in-flight run",
            ),
        ),
    }
}

/// No task leaves `review` by its own report.
pub proof fn law_review_is_a_human_gate(requested: TaskStatus)
    ensures
        transition_denial(TaskStatus::Review, requested) is Some,
{
}

/// A report that is granted moves a running task to rest, and never into review.
pub proof fn law_granted_reports_close_a_run(current: TaskStatus, requested: TaskStatus)
    requires
        transition_denial(current, requested) is None,
    ensures
        current == TaskStatus::Running,
        crate::collect::terminal(requested),
        requested != TaskStatus::Review,
{
}

/// Why the caller `parent` may not set the status of `id` at all, if it may not: no
/// board is wired, or the task is not its own.
pub open spec fn ownership_denial(wired: bool, parent: Seq<char>, id: u64) -> Option<Seq<char>> {
    if !wired {
        Some(RESULTS_UNAVAILABLE@)
    } else if parsed_u64(parent) != Some(id) {
        Some(
            "set_task_status denied: caller '"@ + parent + "' may only set the status of its own task, not '"@
                + decimal(id as nat) + "'"@,
        )
    } else {
        None
    }
}

/// Why the status of the caller's own task may not be set to `requested`, if it may
/// not. `current` is the status word that the board has for the task, where it has
/// the task.
pub open spec fn own_status_denial(id: u64, current: Option<Seq<char>>, requested: TaskStatus) -> Option<Seq<char>> {
    match current {
        None => Some(
            "set_task_status denied: task '"@ + decimal(id as nat) + "' not found in this project"@,
        ),
        Some(word) => match TaskStatus::from_word(word) {
            None => Some(
                "set_task_status denied: task '"@ + decimal(id as nat) + "' has an unrecognized status '"@ + word
                    + "'"@,
            ),
            Some(status) => transition_denial(status, requested),
        },
    }
}

/// Decides whether the caller `parent_id` may set the status of `id` at all.
pub fn check_ownership(wired: bool, parent_id: &str, id: u64) -> (verdict: Result<(), String>)
    ensures
        match verdict {
            Ok(()) => ownership_denial(wired, parent_id@, id) is None,
            Err(text) => ownership_denial(wired, parent_id@, id) == Some(text@),
        },
{
    if !wired {
        return Err(RESULTS_UNAVAILABLE.to_owned());
    }
    let own = match parse_u64(parent_id) {
        Some(number) => number == id,
        None => false,
    };
    if !own {
        return Err(
            "set_task_status denied: caller '".to_owned().concat(parent_id).concat(
                "' may only set the status of its own task, not '",
            ).concat(decimal_of(id).as_str()).concat("'"),
        );
    }
    Ok(())
}

/// Decides whether the status of the caller's own task may be set to `requested`.
pub fn check_own_status(id: u64, current: Option<&str>, requested: TaskStatus) -> (verdict: Result<(), String>)
    ensures
        match verdict {
            Ok(()) => own_status_denial(id, current.deep_view(), requested) is None,
            Err(text) => own_status_denial(id, current.deep_view(), requested) == Some(text@),
        },
{
    let word = match current {
        Some(word) => word,
        None => {
            return Err(
                "set_task_status denied: task '".to_owned().concat(decimal_of(id).as_str()).concat(
                    "' not found in this project",
                ),
            );
        },
    };
    match TaskStatus::parse(word) {
        Some(status) => validate_self_status_transition(status, requested),
        None => Err(
            "set_task_status denied: task '".to_owned().concat(decimal_of(id).as_str()).concat(
                "' has an unrecognized status '",
            ).concat(word).concat("'"),
        ),
    }
}

/// Only the task that owns the channel may have its status set: a caller is told
/// apart from `id` by its numeral.
pub proof fn law_only_own_task(parent: Seq<char>, id: u64, other: u64)
    requires
        ownership_denial(true, parent, id) is None,
        other != id,
    ensures
        ownership_denial(true, parent, other) is Some,
{
}

// ---------------------------------------------------------------------------
// Payloads
// ---------------------------------------------------------------------------

/// The row of one task of the board.
pub open spec fn entry_row(entry: TaskListEntry) -> Seq<(Seq<char>, FieldView)> {
    seq![
        ("id"@, FieldView::Count(entry.id)),
        ("slug"@, FieldView::Text(entry.slug@)),
        ("status"@, FieldView::Text(entry.status@)),
        ("title"@, FieldView::Text(entry.title@)),
        ("assignee"@, optional_text(entry.assignee.deep_view())),
    ]
}

/// The row of one task with its body.
pub open spec fn detail_row(detail: TaskDetail) -> Seq<(Seq<char>, FieldView)> {
    seq![
        ("id"@, FieldView::Count(detail.id)),
        ("slug"@, FieldView::Text(detail.slug@)),
        ("status"@, FieldView::Text(detail.status@)),
        ("title"@, FieldView::Text(detail.title@)),
        ("assignee"@, optional_text(detail.assignee.deep_view())),
        ("body"@, FieldView::Text(detail.body@)),
    ]
}

/// Reports one task of the board.
fn entry_fields(entry: &TaskListEntry) -> (row: Row)
    ensures
        row.deep_view() == entry_row(*entry),
{
    let mut row: Row = Vec::new();
    row.push(("id".to_owned(), Field::Count(entry.id)));
    row.push(("slug".to_owned(), Field::Text(entry.slug.clone())));
    row.push(("status".to_owned(), Field::Text(entry.status.clone())));
    row.push(("title".to_owned(), Field::Text(entry.title.clone())));
    row.push(("assignee".to_owned(), optional_field(&entry.assignee)));
    assert(row.deep_view() =~= entry_row(*entry));
    row
}

/// Reports one task with its body.
pub fn detail_payload(detail: &TaskDetail) -> (payload: Payload)
    ensures
        payload.deep_view() == PayloadView::One(detail_row(*detail)),
{
    let mut row: Row = Vec::new();
    row.push(("id".to_owned(), Field::Count(detail.id)));
    row.push(("slug".to_owned(), Field::Text(detail.slug.clone())));
    row.push(("status".to_owned(), Field::Text(detail.status.clone())));
    row.push(("title".to_owned(), Field::Text(detail.title.clone())));
    row.push(("assignee".to_owned(), optional_field(&detail.assignee)));
    row.push(("body".to_owned(), Field::Text(detail.body.clone())));
    assert(row.deep_view() =~= detail_row(*detail));
    Payload::One(row)
}

/// The rows of a board.
pub open spec fn entry_rows(entries: Seq<TaskListEntry>) -> Seq<Seq<(Seq<char>, FieldView)>> {
    Seq::new(entries.len(), |i: int| entry_row(entries[i]))
}

/// Reports a board.
pub fn entries_payload(entries: &Vec<TaskListEntry>) -> (payload: Payload)
    ensures
        payload.deep_view() == PayloadView::Many(entry_rows(entries@)),
{
    let mut rows: Vec<Row> = Vec::new();
    let mut i: usize = 0;
    while i < entries.len()
        invariant
            i == rows@.len(),
            i <= entries@.len(),
            forall|j: int| 0 <= j < i ==> (#[trigger] rows@[j]).deep_view() == entry_row(entries@[j]),
        decreases entries@.len() - i,
    {
        rows.push(entry_fields(&entries[i]));
        i += 1;
    }
    assert(rows.deep_view() =~= entry_rows(entries@));
    Payload::Many(rows)
}

// ---------------------------------------------------------------------------
// Laws
// ---------------------------------------------------------------------------

/// A task may report of itself that it is done, has failed or needs the user, while it
/// runs; and nothing else, and at no other time. The refusal names the status at fault.
pub proof fn law_a_running_task_may_close_itself(
    current: TaskStatus,
    requested: TaskStatus,
    verdict: Result<(), String>,
)
    requires
        call_ensures(validate_self_status_transition, (current, requested), verdict),
    ensures
        verdict is Ok <==> current is Running && (requested is Done || requested is NeedsUser || requested is Failed),
        verdict matches Err(text) && !(requested is Done || requested is NeedsUser || requested is Failed) ==> holds(
            verdict->Err_0@,
            requested.word(),
        ),
        verdict matches Err(text) && (requested is Done || requested is NeedsUser || requested is Failed)
            && !(current is Review) ==> holds(verdict->Err_0@, current.word()),
{
    lemma_holds_within(
        "set_task_status denied: guests may only set 'done', 'needs_user', or 'failed' (not '"@,
        requested.word(),
        "')"@,
    );
    lemma_holds_within(
        "set_task_status denied: task is '"@,
        current.word(),
        "', not 'running' — set_task_status only closes out an in-flight run"@,
    );
}

/// A caller may set the status of a task exactly where a board is wired and the caller's
/// name is the number of the task.
pub proof fn law_callers_are_told_apart_by_their_number(
    wired: bool,
    parent_id: &str,
    id: u64,
    verdict: Result<(), String>,
    number: Option<u64>,
)
    requires
        call_ensures(check_ownership, (wired, parent_id, id), verdict),
        call_ensures(parse_u64, (parent_id,), number),
    ensures
        verdict is Ok <==> wired && number == Some(id),
        wired && parent_id@ == decimal(id as nat) ==> verdict is Ok,
        verdict is Err && !wired ==> verdict->Err_0@ == RESULTS_UNAVAILABLE@,
        verdict is Err && wired ==> holds_in_order(verdict->Err_0@, seq![parent_id@, decimal(id as nat)]),
{
    crate::text::law_decimal_round_trip(id);
    lemma_two_in_order(
        "set_task_status denied: caller '"@,
        parent_id@,
        "' may only set the status of its own task, not '"@,
        decimal(id as nat),
        "'"@,
    );
}

/// The status of a task may be set exactly where the board has the task, under a status
/// that it knows, and the task may report what is asked for.
pub proof fn law_the_board_decides_on_a_report(
    id: u64,
    current: Option<&str>,
    requested: TaskStatus,
    verdict: Result<(), String>,
)
    requires
        call_ensures(check_own_status, (id, current, requested), verdict),
    ensures
        verdict is Ok <==> current is Some && TaskStatus::from_word(current->0@) is Some && (TaskStatus::from_word(
            current->0@,
        )->0 is Running) && (requested is Done || requested is NeedsUser || requested is Failed),
        current is None ==> verdict is Err && holds(verdict->Err_0@, decimal(id as nat)),
        current matches Some(word) && TaskStatus::from_word(word@) is None ==> verdict is Err && holds_in_order(
            verdict->Err_0@,
            seq![decimal(id as nat), current->0@],
        ),
{
    lemma_holds_within("set_task_status denied: task '"@, decimal(id as nat), "' not found in this project"@);
    if let Some(word) = current {
        lemma_two_in_order(
            "set_task_status denied: task '"@,
            decimal(id as nat),
            "' has an unrecognized status '"@,
            word@,
            "'"@,
        );
    }
}

/// Whether a row says each thing of a task under its name, and nothing else.
pub open spec fn row_tells(
    row: Seq<(Seq<char>, FieldView)>,
    id: u64,
    slug: Seq<char>,
    status: Seq<char>,
    title: Seq<char>,
    assignee: Option<String>,
) -> bool {
    &&& row.len() >= 5
    &&& row[0] == ("id"@, FieldView::Count(id))
    &&& row[1] == ("slug"@, FieldView::Text(slug))
    &&& row[2] == ("status"@, FieldView::Text(status))
    &&& row[3] == ("title"@, FieldView::Text(title))
    &&& row[4].0 == "assignee"@
    &&& assignee matches Some(name) ==> row[4].1 == FieldView::Text(name@)
    &&& assignee is None ==> row[4].1 == FieldView::Null
}

/// A board is reported with a row for each of its tasks, in order, and each row says of
/// its task the number, the slug, the status, the title and whom it is assigned to; one
/// task is reported with its body as well.
pub proof fn law_boards_are_reported_row_by_row(
    entries: &Vec<TaskListEntry>,
    board: Payload,
    detail: &TaskDetail,
    one: Payload,
)
    requires
        call_ensures(entries_payload, (entries,), board),
        call_ensures(detail_payload, (detail,), one),
    ensures
        board.deep_view() matches PayloadView::Many(rows) && rows.len() == entries@.len() && forall|i: int|
            0 <= i < entries@.len() ==> (#[trigger] rows[i]).len() == 5 && row_tells(
                rows[i],
                entries@[i].id,
                entries@[i].slug@,
                entries@[i].status@,
                entries@[i].title@,
                entries@[i].assignee,
            ),
        one.deep_view() matches PayloadView::One(row) && row.len() == 6 && row_tells(
            row,
            detail.id,
            detail.slug@,
            detail.status@,
            detail.title@,
            detail.assignee,
        ) && row[5] == ("body"@, FieldView::Text(detail.body@)),
{
}

} // verus!
