//! Collecting what sub-tasks produced: waiting for them, reading their results and
//! merging their work back.

use vstd::prelude::*;
use vstd::string::*;

use crate::json::{Field, FieldView, Payload, PayloadView, Row};
use crate::orchestration::SubtaskId;
use crate::order::StringMap;
use crate::recap::{blocked_commands, files_touched, parse_blocked_commands, parse_files_touched};
use crate::task::TaskStatus;

verus! {

// ---------------------------------------------------------------------------
// Waiting
// ---------------------------------------------------------------------------

/// Whether a run has come to rest: done, failed, waiting for the user or for a
/// review.
pub open spec fn terminal(status: TaskStatus) -> bool {
    status is Done || status is Failed || status is NeedsUser || status is Review
}

/// Whether a run has come to rest.
pub fn is_terminal(status: TaskStatus) -> (rest: bool)
    ensures
        rest == terminal(status),
{
    matches!(status, TaskStatus::Done | TaskStatus::Failed | TaskStatus::NeedsUser | TaskStatus::Review)
}

/// What to do after one look at the sub-tasks that are waited for.
#[derive(Debug, Clone, PartialEq, Eq)]
pub enum Poll<T> {
    /// They have come to rest.
    Settled(T),
    /// They have not, and the time is up.
    TimedOut,
    /// Look again after a pause.
    Again,
}

/// Decides after one look at a sub-task. Times are in milliseconds.
pub fn await_subtask(status: Option<TaskStatus>, elapsed: u64, max_wait: u64) -> (poll: Poll<TaskStatus>)
    ensures
        poll == (if status is Some && terminal(status->0) {
            Poll::Settled(status->0)
        } else if elapsed >= max_wait {
            Poll::TimedOut
        } else {
            Poll::Again
        }),
{
    if let Some(status) = status {
        if is_terminal(status) {
            return Poll::Settled(status);
        }
    }
    if elapsed >= max_wait {
        Poll::TimedOut
    } else {
        Poll::Again
    }
}

/// Whether every one of `statuses` is known and terminal.
pub open spec fn all_settled(statuses: Seq<Option<TaskStatus>>) -> bool {
    forall|i: int| 0 <= i < statuses.len() ==> (#[trigger] statuses[i]) is Some && terminal(statuses[i]->0)
}

/// Each id with its status.
pub open spec fn with_status(ids: Seq<Seq<char>>, statuses: Seq<Option<TaskStatus>>) -> Seq<(Seq<char>, TaskStatus)> {
    Seq::new(ids.len(), |i: int| (ids[i], statuses[i]->0))
}

/// The pairs of ids and statuses without their storage.
pub open spec fn pairs_view(pairs: Seq<(String, TaskStatus)>) -> Seq<(Seq<char>, TaskStatus)> {
    Seq::new(pairs.len(), |i: int| (pairs[i].0@, pairs[i].1))
}

/// Decides after one look at all of a wave of sub-tasks. Times are in
/// milliseconds.
pub fn await_subtasks(ids: &Vec<String>, statuses: &Vec<Option<TaskStatus>>, elapsed: u64, max_wait: u64) -> (poll: Poll<
    Vec<(String, TaskStatus)>,
>)
    requires
        ids@.len() == statuses@.len(),
    ensures
        match poll {
            Poll::Settled(settled) => all_settled(statuses@) && pairs_view(settled@) == with_status(
                ids.deep_view(),
                statuses@,
            ),
            Poll::TimedOut => !all_settled(statuses@) && elapsed >= max_wait,
            Poll::Again => !all_settled(statuses@) && elapsed < max_wait,
        },
{
    let mut settled: Vec<(String, TaskStatus)> = Vec::new();
    let mut i: usize = 0;
    while i < ids.len()
        invariant
            i <= ids@.len(),
            ids@.len() == statuses@.len(),
            settled@.len() <= i,
            settled@.len() == i ==> forall|j: int|
                0 <= j < i ==> (#[trigger] statuses@[j]) is Some && terminal(statuses@[j]->0),
            settled@.len() == i ==> forall|j: int|
                0 <= j < i ==> (#[trigger] settled@[j]).0@ == ids@[j]@ && settled@[j].1 == statuses@[j]->0,
            settled@.len() < i ==> exists|j: int|
                0 <= j < i && !((#[trigger] statuses@[j]) is Some && terminal(statuses@[j]->0)),
        decreases ids@.len() - i,
    {
        let ghost before = settled@;
        if let Some(status) = statuses[i] {
            if is_terminal(status) {
                settled.push((ids[i].clone(), status));
            }
        }
        assert(settled@.len() == before.len() ==> !(statuses@[i as int] is Some && terminal(
            statuses@[i as int]->0,
        )));
        i += 1;
    }
    if settled.len() == ids.len() {
        assert(pairs_view(settled@) =~= with_status(ids.deep_view(), statuses@));
        Poll::Settled(settled)
    } else if elapsed >= max_wait {
        Poll::TimedOut
    } else {
        Poll::Again
    }
}

/// The payload that reports the status of one sub-task.
pub open spec fn status_row(id: Seq<char>, status: TaskStatus) -> Seq<(Seq<char>, FieldView)> {
    seq![("subtask_id"@, FieldView::Text(id)), ("status"@, FieldView::Text(status.word()))]
}

/// The fields that report the status of one sub-task.
pub fn status_fields(id: &str, status: TaskStatus) -> (row: Row)
    ensures
        row.deep_view() == status_row(id@, status),
{
    let mut row: Row = Vec::new();
    row.push(("subtask_id".to_owned(), Field::Text(id.to_owned())));
    row.push(("status".to_owned(), Field::Text(status.as_str().to_owned())));
    assert(row.deep_view() =~= status_row(id@, status));
    row
}

/// The rows that report the statuses of a wave.
pub open spec fn status_rows(pairs: Seq<(Seq<char>, TaskStatus)>) -> Seq<Seq<(Seq<char>, FieldView)>> {
    Seq::new(pairs.len(), |i: int| status_row(pairs[i].0, pairs[i].1))
}

/// The payload that reports the statuses of a wave.
pub fn wave_payload(settled: &Vec<(String, TaskStatus)>) -> (payload: Payload)
    ensures
        payload.deep_view() == PayloadView::Many(status_rows(pairs_view(settled@))),
{
    let mut rows: Vec<Row> = Vec::new();
    let mut i: usize = 0;
    while i < settled.len()
        invariant
            i == rows@.len(),
            i <= settled@.len(),
            forall|j: int| 0 <= j < i ==> (#[trigger] rows@[j]).deep_view() == status_row(
                settled@[j].0@,
                settled@[j].1,
            ),
        decreases settled@.len() - i,
    {
        rows.push(status_fields(settled[i].0.as_str(), settled[i].1));
        i += 1;
    }
    assert(rows.deep_view() =~= status_rows(pairs_view(settled@)));
    Payload::Many(rows)
}

// ---------------------------------------------------------------------------
// Results
// ---------------------------------------------------------------------------

/// The payload that reports a finished sub-task: its status where it is known, what
/// its recap reports, and the recap itself.
pub open spec fn result_row(id: Seq<char>, status: Option<TaskStatus>, recap: Seq<char>) -> Seq<
    (Seq<char>, FieldView),
> {
    seq![
        ("subtask_id"@, FieldView::Text(id)),
        (
            "status"@,
            match status {
                Some(status) => FieldView::Text(status.word()),
                None => FieldView::Null,
            },
        ),
        ("files_touched"@, FieldView::Texts(files_touched(recap))),
        ("blocked_commands"@, FieldView::Texts(blocked_commands(recap))),
        ("recap"@, FieldView::Text(recap)),
    ]
}

/// Reports a finished sub-task.
pub fn subtask_result(id: &str, status: Option<TaskStatus>, recap: &str) -> (row: Row)
    ensures
        row.deep_view() == result_row(id@, status, recap@),
{
    let word = match status {
        Some(status) => Field::Text(status.as_str().to_owned()),
        None => Field::Null,
    };
    let mut row: Row = Vec::new();
    row.push(("subtask_id".to_owned(), Field::Text(id.to_owned())));
    row.push(("status".to_owned(), word));
    row.push(("files_touched".to_owned(), Field::Texts(parse_files_touched(recap))));
    row.push(("blocked_commands".to_owned(), Field::Texts(parse_blocked_commands(recap))));
    row.push(("recap".to_owned(), Field::Text(recap.to_owned())));
    assert(row.deep_view() =~= result_row(id@, status, recap@));
    row
}

// ---------------------------------------------------------------------------
// Merging back
// ---------------------------------------------------------------------------

/// The isolated checkout that a sub-task worked in.
#[derive(Debug, PartialEq, Eq)]
pub struct WorkerCheckout {
    /// Where the checkout lies on the host.
    pub path: String,
    /// The branch that it is on.
    pub branch: String,
}

impl Clone for WorkerCheckout {
    fn clone(&self) -> (copy: Self)
        ensures
            copy == *self,
    {
        WorkerCheckout { path: self.path.clone(), branch: self.branch.clone() }
    }
}

/// The checkouts of the sub-tasks that have one. There is one registry to a run, which its
/// broker owns: what is started is entered there, and what is merged is looked up there.
/// Whoever else needs it borrows it from the broker; there are no copies of it, and
/// nothing is said of any.
#[derive(Debug)]
pub struct WorkerRegistry(StringMap<WorkerCheckout>);

impl View for WorkerRegistry {
    type V = Map<Seq<char>, WorkerCheckout>;

    closed spec fn view(&self) -> Map<Seq<char>, WorkerCheckout> {
        self.0@
    }
}

impl WorkerRegistry {
    /// A registry without checkouts.
    pub fn new() -> (registry: Self)
        ensures
            registry@ == Map::<Seq<char>, WorkerCheckout>::empty(),
    {
        WorkerRegistry(StringMap::new())
    }

    /// Enters the checkout of `id`.
    pub fn record(&mut self, id: SubtaskId, checkout: WorkerCheckout)
        ensures
            final(self)@ == old(self)@.insert(id@, checkout),
    {
        self.0.insert(id, checkout);
    }

    /// The checkout of `id`, where it has one.
    pub fn get(&self, id: &str) -> (checkout: Option<WorkerCheckout>)
        ensures
            checkout == (if self@.dom().contains(id@) {
                Some(self@[id@])
            } else {
                None
            }),
    {
        match self.0.get(id) {
            Some(checkout) => Some(checkout.clone()),
            None => None,
        }
    }
}

/// Of two checkouts that are entered for one id the last one counts, what is entered for
/// one id changes nothing about the others, and nothing is there before it is entered.
pub proof fn law_last_checkout_counts(
    registry: Map<Seq<char>, WorkerCheckout>,
    id: Seq<char>,
    first: WorkerCheckout,
    last: WorkerCheckout,
    other: Seq<char>,
)
    requires
        other != id,
    ensures
        registry.insert(id, first).insert(id, last).dom().contains(id),
        registry.insert(id, first).insert(id, last)[id] == last,
        registry.insert(id, last).dom().contains(other) == registry.dom().contains(other),
        registry.dom().contains(other) ==> registry.insert(id, last)[other] == registry[other],
        !Map::<Seq<char>, WorkerCheckout>::empty().dom().contains(id),
{
}

/// What is merged back of one sub-task.
#[derive(Debug, PartialEq, Eq)]
pub struct WorkerHarvest {
    /// The sub-task.
    pub subtask_id: String,
    /// Its checkout.
    pub checkout: WorkerCheckout,
    /// The files that its recap reports.
    pub files_touched: Vec<String>,
}

/// The ids of a wave that have a checkout, in order.
pub open spec fn registered(ids: Seq<Seq<char>>, checkouts: Map<Seq<char>, WorkerCheckout>) -> Seq<int>
    decreases ids.len(),
{
    if ids.len() == 0 {
        Seq::empty()
    } else {
        let front = registered(ids.drop_last(), checkouts);
        if checkouts.dom().contains(ids.last()) {
            front.push(ids.len() - 1)
        } else {
            front
        }
    }
}

/// The ids of a wave that have no checkout, in order.
pub open spec fn unregistered(ids: Seq<Seq<char>>, checkouts: Map<Seq<char>, WorkerCheckout>) -> Seq<Seq<char>> {
    ids.filter(|id: Seq<char>| !checkouts.dom().contains(id))
}

/// The files that a recap reports, none where there is no recap.
pub open spec fn reported_files(recap: Option<Seq<char>>) -> Seq<Seq<char>> {
    match recap {
        Some(recap) => files_touched(recap),
        None => Seq::empty(),
    }
}

/// Whether `harvest` is what is merged back of the sub-task at position `at`.
pub open spec fn harvested_from(
    harvest: WorkerHarvest,
    at: int,
    ids: Seq<String>,
    recaps: Seq<Option<String>>,
    checkouts: Map<Seq<char>, WorkerCheckout>,
) -> bool {
    &&& 0 <= at < ids.len()
    &&& harvest.subtask_id@ == ids[at]@
    &&& checkouts.dom().contains(ids[at]@)
    &&& harvest.checkout == checkouts[ids[at]@]
    &&& harvest.files_touched.deep_view() == reported_files(recaps[at].deep_view())
}

/// Gathers what is merged back of a wave, and which of its sub-tasks worked on the
/// shared checkout and have nothing to merge. Of the recaps only the reported
/// files are used.
pub fn harvest(registry: &WorkerRegistry, ids: &Vec<String>, recaps: &Vec<Option<String>>) -> (gathered: (
    Vec<WorkerHarvest>,
    Vec<String>,
))
    requires
        ids@.len() == recaps@.len(),
    ensures
        gathered.0@.len() == registered(ids.deep_view(), registry@).len(),
        forall|k: int|
            0 <= k < gathered.0@.len() ==> harvested_from(
                #[trigger] gathered.0@[k],
                registered(ids.deep_view(), registry@)[k],
                ids@,
                recaps@,
                registry@,
            ),
        gathered.1.deep_view() == unregistered(ids.deep_view(), registry@),
{
    let ghost wave = ids.deep_view();
    let ghost absent = |id: Seq<char>| !registry@.dom().contains(id);
    let mut harvested: Vec<WorkerHarvest> = Vec::new();
    let mut skipped: Vec<String> = Vec::new();
    let mut i: usize = 0;
    assert(wave.take(0) =~= Seq::empty());
    assert(skipped.deep_view() =~= Seq::<Seq<char>>::empty().filter(absent)) by {
        reveal(Seq::filter);
    }
    while i < ids.len()
        invariant
            wave == ids.deep_view(),
            absent == (|id: Seq<char>| !registry@.dom().contains(id)),
            i <= ids@.len(),
            ids@.len() == recaps@.len(),
            harvested@.len() == registered(wave.take(i as int), registry@).len(),
            forall|k: int|
                0 <= k < harvested@.len() ==> harvested_from(
                    #[trigger] harvested@[k],
                    registered(wave.take(i as int), registry@)[k],
                    ids@,
                    recaps@,
                    registry@,
                ),
            skipped.deep_view() == wave.take(i as int).filter(absent),
        decreases ids@.len() - i,
    {
        let ghost next = wave.take(i + 1);
        assert(next.drop_last() =~= wave.take(i as int));
        assert(next.last() == ids@[i as int]@);
        let ghost skipped_before = skipped.deep_view();
        assert(next.filter(absent) =~= (if absent(next.last()) {
            skipped_before.push(next.last())
        } else {
            skipped_before
        })) by {
            reveal(Seq::filter);
        }
        match registry.get(ids[i].as_str()) {
            Some(checkout) => {
                let files = match &recaps[i] {
                    Some(recap) => parse_files_touched(recap.as_str()),
                    None => {
                        let none: Vec<String> = Vec::new();
                        assert(none.deep_view() =~= Seq::empty());
                        none
                    },
                };
                let ghost before = harvested@;
                harvested.push(WorkerHarvest { subtask_id: ids[i].clone(), checkout, files_touched: files });
                assert(harvested_from(harvested@.last(), i as int, ids@, recaps@, registry@));
                assert forall|k: int| 0 <= k < harvested@.len() implies harvested_from(
                    #[trigger] harvested@[k],
                    registered(next, registry@)[k],
                    ids@,
                    recaps@,
                    registry@,
                ) by {
                    if k < before.len() {
                        assert(harvested@[k] == before[k]);
                    }
                }
            },
            None => {
                skipped.push(ids[i].clone());
                assert(skipped.deep_view() =~= skipped_before.push(ids@[i as int]@));
            },
        }
        i += 1;
    }
    assert(wave.take(i as int) =~= wave);
    (harvested, skipped)
}

/// What became of merging one sub-task's branch.
#[derive(Debug, PartialEq, Eq)]
pub struct WorkerIntegration {
    /// The branch.
    pub branch: String,
    /// Whether its files were committed.
    pub committed: bool,
    /// Whether the merge was clean, and the files in conflict; nothing where there
    /// was no merge.
    pub merge: Option<(bool, Vec<String>)>,
    /// The dependency manifests that it changes.
    pub dependency_manifests: Vec<String>,
}

/// The row that reports one merge.
pub open spec fn integration_row(id: Seq<char>, integration: WorkerIntegration) -> Seq<(Seq<char>, FieldView)> {
    seq![
        ("subtask_id"@, FieldView::Text(id)),
        ("branch"@, FieldView::Text(integration.branch@)),
        ("committed"@, FieldView::Flag(integration.committed)),
        (
            "clean"@,
            match integration.merge {
                Some(outcome) => FieldView::Flag(outcome.0),
                None => FieldView::Null,
            },
        ),
        (
            "conflicted_files"@,
            match integration.merge {
                Some(outcome) => FieldView::Texts(outcome.1.deep_view()),
                None => FieldView::Texts(Seq::empty()),
            },
        ),
        ("dependency_manifests"@, FieldView::Texts(integration.dependency_manifests.deep_view())),
    ]
}

/// The row that reports a sub-task with nothing to merge.
pub open spec fn skipped_row(id: Seq<char>) -> Seq<(Seq<char>, FieldView)> {
    seq![
        ("subtask_id"@, FieldView::Text(id)),
        ("skipped"@, FieldView::Flag(true)),
        ("reason"@, FieldView::Text("no isolated worktree recorded (ran on the shared mount)"@)),
    ]
}

/// A list of strings that says the same.
pub fn duplicate_strings(list: &Vec<String>) -> (copy: Vec<String>)
    ensures
        copy.deep_view() == list.deep_view(),
{
    let mut copy: Vec<String> = Vec::new();
    let mut i: usize = 0;
    while i < list.len()
        invariant
            i == copy@.len(),
            i <= list@.len(),
            forall|j: int| 0 <= j < i ==> (#[trigger] copy@[j])@ == list@[j]@,
        decreases list@.len() - i,
    {
        copy.push(list[i].clone());
        i += 1;
    }
    assert(copy.deep_view() =~= list.deep_view());
    copy
}

/// Reports one merge.
fn integration_fields(id: &str, integration: &WorkerIntegration) -> (row: Row)
    ensures
        row.deep_view() == integration_row(id@, *integration),
{
    let (clean, conflicted) = match &integration.merge {
        Some(outcome) => (Field::Flag(outcome.0), duplicate_strings(&outcome.1)),
        None => {
            let none: Vec<String> = Vec::new();
            assert(none.deep_view() =~= Seq::empty());
            (Field::Null, none)
        },
    };
    let mut row: Row = Vec::new();
    row.push(("subtask_id".to_owned(), Field::Text(id.to_owned())));
    row.push(("branch".to_owned(), Field::Text(integration.branch.clone())));
    row.push(("committed".to_owned(), Field::Flag(integration.committed)));
    row.push(("clean".to_owned(), clean));
    row.push(("conflicted_files".to_owned(), Field::Texts(conflicted)));
    row.push(
        ("dependency_manifests".to_owned(), Field::Texts(duplicate_strings(&integration.dependency_manifests))),
    );
    assert(row.deep_view() =~= integration_row(id@, *integration));
    row
}

/// Reports a sub-task with nothing to merge.
fn skipped_fields(id: &str) -> (row: Row)
    ensures
        row.deep_view() == skipped_row(id@),
{
    let mut row: Row = Vec::new();
    row.push(("subtask_id".to_owned(), Field::Text(id.to_owned())));
    row.push(("skipped".to_owned(), Field::Flag(true)));
    row.push(
        (
            "reason".to_owned(),
            Field::Text("no isolated worktree recorded (ran on the shared mount)".to_owned()),
        ),
    );
    assert(row.deep_view() =~= skipped_row(id@));
    row
}

/// The rows that report merging back a wave: one for each merge, then one for each
/// sub-task that was skipped.
pub open spec fn integration_rows(
    ids: Seq<Seq<char>>,
    integrations: Seq<WorkerIntegration>,
    skipped: Seq<Seq<char>>,
) -> Seq<Seq<(Seq<char>, FieldView)>> {
    let merged = if ids.len() <= integrations.len() {
        ids.len()
    } else {
        integrations.len()
    };
    Seq::new(merged, |i: int| integration_row(ids[i], integrations[i])) + Seq::new(
        skipped.len(),
        |i: int| skipped_row(skipped[i]),
    )
}

/// The sub-tasks of a harvest.
pub open spec fn harvest_ids(harvested: Seq<WorkerHarvest>) -> Seq<Seq<char>> {
    Seq::new(harvested.len(), |i: int| harvested[i].subtask_id@)
}

/// Reports merging back a wave.
pub fn integration_payload(
    harvested: &Vec<WorkerHarvest>,
    integrations: &Vec<WorkerIntegration>,
    skipped: &Vec<String>,
) -> (payload: Payload)
    ensures
        payload.deep_view() == PayloadView::Under(
            "integrations"@,
            integration_rows(harvest_ids(harvested@), integrations@, skipped.deep_view()),
        ),
{
    let mut rows: Vec<Row> = Vec::new();
    let mut i: usize = 0;
    while i < harvested.len() && i < integrations.len()
        invariant
            i == rows@.len(),
            i <= harvested@.len(),
            i <= integrations@.len(),
            forall|j: int| 0 <= j < i ==> (#[trigger] rows@[j]).deep_view() == integration_row(
                harvested@[j].subtask_id@,
                integrations@[j],
            ),
        decreases harvested@.len() - i,
    {
        rows.push(integration_fields(harvested[i].subtask_id.as_str(), &integrations[i]));
        i += 1;
    }
    let ghost merged = i as int;
    let mut k: usize = 0;
    while k < skipped.len()
        invariant
            rows@.len() == merged + k,
            k <= skipped@.len(),
            0 <= merged <= harvested@.len(),
            merged <= integrations@.len(),
            forall|j: int| 0 <= j < merged ==> (#[trigger] rows@[j]).deep_view() == integration_row(
                harvested@[j].subtask_id@,
                integrations@[j],
            ),
            forall|j: int| merged <= j < merged + k ==> (#[trigger] rows@[j]).deep_view() == skipped_row(
                skipped@[j - merged]@,
            ),
        decreases skipped@.len() - k,
    {
        rows.push(skipped_fields(skipped[k].as_str()));
        k += 1;
    }
    assert(rows.deep_view() =~= integration_rows(
        harvest_ids(harvested@),
        integrations@,
        skipped.deep_view(),
    ));
    Payload::Under("integrations".to_owned(), rows)
}

/// Every sub-task of a wave is either merged or reported as skipped.
pub proof fn law_wave_is_accounted_for(ids: Seq<Seq<char>>, checkouts: Map<Seq<char>, WorkerCheckout>)
    ensures
        registered(ids, checkouts).len() + unregistered(ids, checkouts).len() == ids.len(),
    decreases ids.len(),
{
    reveal(Seq::filter);
    if ids.len() > 0 {
        law_wave_is_accounted_for(ids.drop_last(), checkouts);
    }
}

// ---------------------------------------------------------------------------
// Laws
// ---------------------------------------------------------------------------

/// A run has come to rest where it is done, has failed, waits for the user or for a review,
/// and nowhere else.
pub proof fn law_runs_come_to_rest(status: TaskStatus, rest: bool)
    requires
        call_ensures(is_terminal, (status,), rest),
    ensures
        status is Done ==> rest,
        status is Failed ==> rest,
        status is NeedsUser ==> rest,
        status is Review ==> rest,
        !(status is Done || status is Failed || status is NeedsUser || status is Review) ==> !rest,
{
}

/// A sub-task is waited for until it has come to rest or the time is up. One that has come
/// to rest is reported with its status, however late it is.
pub proof fn law_waiting_ends_at_rest_or_in_time(
    status: Option<TaskStatus>,
    elapsed: u64,
    max_wait: u64,
    poll: Poll<TaskStatus>,
    rest: bool,
)
    requires
        call_ensures(await_subtask, (status, elapsed, max_wait), poll),
        status is Some ==> call_ensures(is_terminal, (status->0,), rest),
        status is None ==> !rest,
    ensures
        rest <==> poll is Settled,
        poll matches Poll::Settled(at) ==> Some(at) == status,
        !rest ==> (poll is TimedOut <==> elapsed >= max_wait),
{
}

/// A wave is waited for until each of its sub-tasks has come to rest or the time is up. Once
/// all have, each is reported with its status, in order.
pub proof fn law_waves_settle_as_a_whole(
    ids: &Vec<String>,
    statuses: &Vec<Option<TaskStatus>>,
    elapsed: u64,
    max_wait: u64,
    poll: Poll<Vec<(String, TaskStatus)>>,
)
    requires
        ids@.len() == statuses@.len(),
        call_ensures(await_subtasks, (ids, statuses, elapsed, max_wait), poll),
    ensures
        poll is Settled <==> forall|i: int|
            0 <= i < statuses@.len() ==> {
                let status = #[trigger] statuses@[i];
                status is Some && (status->0 is Done || status->0 is Failed || status->0 is NeedsUser
                    || status->0 is Review)
            },
        poll is TimedOut ==> elapsed >= max_wait,
        poll is Again ==> elapsed < max_wait,
        poll matches Poll::Settled(settled) ==> settled@.len() == ids@.len() && forall|i: int|
            0 <= i < ids@.len() ==> (#[trigger] settled@[i]).0@ == ids@[i]@ && Some(settled@[i].1) == statuses@[i],
{
    if let Poll::Settled(settled) = poll {
        let pairs = pairs_view(settled@);
        assert(pairs.len() == settled@.len());
        let told = with_status(ids.deep_view(), statuses@);
        assert(told.len() == ids@.len());
        assert forall|i: int| 0 <= i < ids@.len() implies (#[trigger] settled@[i]).0@ == ids@[i]@ && Some(
            settled@[i].1,
        ) == statuses@[i] by {
            assert(pairs[i] == told[i]);
            assert(ids.deep_view()[i] == ids@[i]@);
            assert(statuses@[i] is Some);
        }
    }
}

/// A wave is reported with a row for each of its sub-tasks, in order, that says its name and
/// the word for its status.
pub proof fn law_waves_are_reported_row_by_row(settled: &Vec<(String, TaskStatus)>, payload: Payload)
    requires
        call_ensures(wave_payload, (settled,), payload),
    ensures
        payload.deep_view() matches PayloadView::Many(rows) && rows.len() == settled@.len() && forall|i: int|
            0 <= i < settled@.len() ==> (#[trigger] rows[i]).len() == 2 && rows[i][0] == (
                "subtask_id"@,
                FieldView::Text(settled@[i].0@),
            ) && rows[i][1] == ("status"@, FieldView::Text(settled@[i].1.word())),
{
}

/// A finished sub-task is reported with its name, the word for its status, where that is
/// known, the files and the commands that its recap names, and the recap.
pub proof fn law_results_say_what_the_recap_says(
    id: &str,
    status: Option<TaskStatus>,
    recap: &str,
    row: Row,
    files: Vec<String>,
    commands: Vec<String>,
)
    requires
        call_ensures(subtask_result, (id, status, recap), row),
        call_ensures(parse_files_touched, (recap,), files),
        call_ensures(parse_blocked_commands, (recap,), commands),
    ensures
        ({
            let told = row.deep_view();
            &&& told.len() == 5
            &&& told[0] == ("subtask_id"@, FieldView::Text(id@))
            &&& told[1].0 == "status"@
            &&& status matches Some(status) ==> told[1].1 == FieldView::Text(status.word())
            &&& status is None ==> told[1].1 == FieldView::Null
            &&& told[2] == ("files_touched"@, FieldView::Texts(files.deep_view()))
            &&& told[3] == ("blocked_commands"@, FieldView::Texts(commands.deep_view()))
            &&& told[4] == ("recap"@, FieldView::Text(recap@))
        }),
{
}

/// The places of the sub-tasks that have a checkout.
proof fn lemma_registered(ids: Seq<Seq<char>>, checkouts: Map<Seq<char>, WorkerCheckout>)
    ensures
        ({
            let places = registered(ids, checkouts);
            &&& forall|i: int, j: int| 0 <= i < j < places.len() ==> #[trigger] places[i] < #[trigger] places[j]
            &&& forall|i: int| 0 <= i < places.len() ==> 0 <= #[trigger] places[i] < ids.len()
            &&& forall|k: int| 0 <= k < ids.len() ==> places.contains(k) == checkouts.dom().contains(#[trigger] ids[k])
        }),
    decreases ids.len(),
{
    if ids.len() > 0 {
        let front = ids.drop_last();
        let at = registered(front, checkouts);
        let places = registered(ids, checkouts);
        lemma_registered(front, checkouts);
        assert forall|i: int, j: int| 0 <= i < j < places.len() implies #[trigger] places[i] < #[trigger] places[j] by {
            assert(at[i] < front.len());
            if j < at.len() {
                assert(at[i] < at[j]);
            }
        }
        assert forall|i: int| 0 <= i < places.len() implies 0 <= #[trigger] places[i] < ids.len() by {
            if i < at.len() {
                assert(at[i] < front.len());
            }
        }
        assert forall|k: int| 0 <= k < ids.len() implies places.contains(k) == checkouts.dom().contains(
            #[trigger] ids[k],
        ) by {
            if k < front.len() {
                assert(front[k] == ids[k]);
                if at.contains(k) {
                    let i = choose|i: int| 0 <= i < at.len() && at[i] == k;
                    assert(places[i] == k);
                }
                if places.contains(k) {
                    let i = choose|i: int| 0 <= i < places.len() && places[i] == k;
                    assert(at[i] == k);
                }
            } else if checkouts.dom().contains(ids.last()) {
                assert(places[at.len() as int] == k);
            } else if at.contains(k) {
                let i = choose|i: int| 0 <= i < at.len() && at[i] == k;
                assert(at[i] < front.len());
            }
        }
    }
}

/// Of a wave those sub-tasks are merged back that have a checkout, in order, each from its
/// own checkout and with the files that its own recap names; the others, and they alone, are
/// reported as skipped.
pub proof fn law_checkouts_are_merged_back(
    registry: &WorkerRegistry,
    ids: &Vec<String>,
    recaps: &Vec<Option<String>>,
    gathered: (Vec<WorkerHarvest>, Vec<String>),
)
    requires
        ids@.len() == recaps@.len(),
        call_ensures(harvest, (registry, ids, recaps), gathered),
    ensures
        exists|places: Seq<int>|
            #![trigger places.len()]
            {
                &&& places.len() == gathered.0@.len()
                &&& forall|i: int, j: int| 0 <= i < j < places.len() ==> #[trigger] places[i] < #[trigger] places[j]
                &&& forall|i: int|
                    0 <= i < places.len() ==> {
                        let at = #[trigger] places[i];
                        let merged = gathered.0@[i];
                        &&& 0 <= at < ids@.len()
                        &&& merged.subtask_id@ == ids@[at]@
                        &&& registry@.dom().contains(ids@[at]@) && merged.checkout == registry@[ids@[at]@]
                        &&& recaps@[at] is None ==> merged.files_touched@.len() == 0
                        &&& recaps@[at] is Some ==> merged.files_touched.deep_view() == files_touched(recaps@[at]->0@)
                    }
                &&& forall|k: int|
                    0 <= k < ids@.len() ==> places.contains(k) == registry@.dom().contains(#[trigger] ids@[k]@)
            },
        forall|id: Seq<char>| #[trigger]
            gathered.1.deep_view().contains(id) <==> ids.deep_view().contains(id) && !registry@.dom().contains(id),
        gathered.0@.len() + gathered.1@.len() == ids@.len(),
{
    let wave = ids.deep_view();
    let places = registered(wave, registry@);
    lemma_registered(wave, registry@);
    law_wave_is_accounted_for(wave, registry@);
    assert(gathered.1.deep_view() == unregistered(wave, registry@));
    assert(gathered.1.deep_view().len() == gathered.1@.len());
    assert forall|i: int| 0 <= i < places.len() implies {
        let at = #[trigger] places[i];
        let merged = gathered.0@[i];
        &&& 0 <= at < ids@.len()
        &&& merged.subtask_id@ == ids@[at]@
        &&& registry@.dom().contains(ids@[at]@) && merged.checkout == registry@[ids@[at]@]
        &&& recaps@[at] is None ==> merged.files_touched@.len() == 0
        &&& recaps@[at] is Some ==> merged.files_touched.deep_view() == files_touched(recaps@[at]->0@)
    } by {
        let merged = gathered.0@[i];
        assert(harvested_from(merged, places[i], ids@, recaps@, registry@));
        assert(merged.files_touched.deep_view().len() == merged.files_touched@.len());
    }
    assert forall|k: int| 0 <= k < ids@.len() implies places.contains(k) == registry@.dom().contains(
        #[trigger] ids@[k]@,
    ) by {
        assert(wave[k] == ids@[k]@);
    }
    assert(places.len() == gathered.0@.len());
    let missing = |id: Seq<char>| !registry@.dom().contains(id);
    assert forall|id: Seq<char>| #[trigger] gathered.1.deep_view().contains(id) <==> wave.contains(id)
        && !registry@.dom().contains(id) by {
        if wave.contains(id) && missing(id) {
            let i = choose|i: int| 0 <= i < wave.len() && wave[i] == id;
            wave.lemma_filter_contains(missing, i);
        }
        if wave.filter(missing).contains(id) {
            let i = choose|i: int| 0 <= i < wave.filter(missing).len() && wave.filter(missing)[i] == id;
            wave.lemma_filter_pred(missing, i);
            wave.lemma_filter_contains_rev(missing, id);
        }
    }
}

/// Merging back a wave is reported with a row for each merge, under the name of the sub-task
/// whose branch it is, and then with one for each sub-task that was skipped.
pub proof fn law_merges_are_reported_under_their_subtask(
    harvested: &Vec<WorkerHarvest>,
    integrations: &Vec<WorkerIntegration>,
    skipped: &Vec<String>,
    payload: Payload,
)
    requires
        harvested@.len() == integrations@.len(),
        call_ensures(integration_payload, (harvested, integrations, skipped), payload),
    ensures
        payload.deep_view() matches PayloadView::Under(name, rows) && name == "integrations"@ && rows.len()
            == harvested@.len() + skipped@.len() && (forall|i: int|
            0 <= i < harvested@.len() ==> {
                let row = #[trigger] rows[i];
                let merge = integrations@[i];
                &&& row.len() == 6
                &&& row[0] == ("subtask_id"@, FieldView::Text(harvested@[i].subtask_id@))
                &&& row[1] == ("branch"@, FieldView::Text(merge.branch@))
                &&& row[2] == ("committed"@, FieldView::Flag(merge.committed))
                &&& row[3].0 == "clean"@ && row[4].0 == "conflicted_files"@
                &&& merge.merge matches Some(outcome) ==> row[3].1 == FieldView::Flag(outcome.0) && row[4].1
                    == FieldView::Texts(outcome.1.deep_view())
                &&& merge.merge is None ==> row[3].1 == FieldView::Null && row[4].1 == FieldView::Texts(Seq::empty())
                &&& row[5] == ("dependency_manifests"@, FieldView::Texts(merge.dependency_manifests.deep_view()))
            }) && (forall|i: int|
            harvested@.len() <= i < rows.len() ==> (#[trigger] rows[i]).len() == 3 && rows[i][0] == (
                "subtask_id"@,
                FieldView::Text(skipped@[i - harvested@.len()]@),
            ) && rows[i][1] == ("skipped"@, FieldView::Flag(true))),
{
    let rows = payload.deep_view()->Under_1;
    assert forall|i: int| harvested@.len() <= i < rows.len() implies (#[trigger] rows[i]).len() == 3 && rows[i][0] == (
        "subtask_id"@,
        FieldView::Text(skipped@[i - harvested@.len()]@),
    ) && rows[i][1] == ("skipped"@, FieldView::Flag(true)) by {
        assert(rows[i] == skipped_row(skipped.deep_view()[i - harvested@.len()]));
        assert(skipped.deep_view()[i - harvested@.len()] == skipped@[i - harvested@.len()]@);
    }
}

} // verus!
