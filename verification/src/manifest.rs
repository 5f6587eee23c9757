//! The tools that a sandboxed task is offered.

use vstd::prelude::*;

use crate::json::{array, fields_view, object, object1, object2, object3, words, Json, JsonView};

verus! {

/// Starts a new sub-task.
pub const SPAWN_SUBTASK_TOOL: &'static str = "spawn_subtask";

/// Starts an existing task as a sub-task.
pub const RUN_SUBTASK_TOOL: &'static str = "run_subtask";

/// Waits for one sub-task.
pub const AWAIT_SUBTASK_TOOL: &'static str = "await_subtask";

/// Waits for a wave of sub-tasks.
pub const AWAIT_SUBTASKS_TOOL: &'static str = "await_subtasks";

/// Reads the result of a sub-task.
pub const SUBTASK_RESULT_TOOL: &'static str = "subtask_result";

/// Reads the changes of a sub-task.
pub const SUBTASK_DIFF_TOOL: &'static str = "subtask_diff";

/// Merges the work of a wave of sub-tasks.
pub const INTEGRATE_SUBTASKS_TOOL: &'static str = "integrate_subtasks";

/// Lists the tasks of the caller's own project.
pub const LIST_TASKS_TOOL: &'static str = "list_tasks";

/// Reads one task of the caller's own project.
pub const GET_TASK_TOOL: &'static str = "get_task";

/// Closes the caller's own task.
pub const SET_TASK_STATUS_TOOL: &'static str = "set_task_status";

pub const SPAWN_SUBTASK_DESCRIPTION: &'static str =
    "Request the host to run a sub-task in its own sibling sandbox. Host-mediated and policy-gated; returns the assigned subtask id or a denial reason.";

pub const RUN_SUBTASK_DESCRIPTION: &'static str =
    "Request the host to run an EXISTING task (by id) in its own sibling sandbox, instead of creating a new one from a brief. Use this to run a task you already planned rather than re-describing it (which would duplicate it). Host-mediated and policy-gated identically to spawn_subtask; the task's own route/agent/sandbox are re-validated and its status is reset so any prior state is runnable. Returns the task id or a denial reason.";

pub const AWAIT_SUBTASK_DESCRIPTION: &'static str =
    "Block until a spawned sub-task reaches a terminal status; returns {subtask_id, status}.";

pub const AWAIT_SUBTASKS_DESCRIPTION: &'static str =
    "Block until ALL listed sub-tasks reach a terminal status; returns [{subtask_id, status}]. The wave primitive.";

pub const SUBTASK_RESULT_DESCRIPTION: &'static str =
    "Fetch a finished sub-task's result: {status, files_touched, blocked_commands, recap}.";

pub const SUBTASK_DIFF_DESCRIPTION: &'static str =
    "Fetch the unified DIFF of a finished sub-task's working-tree changes (its actual code output), computed on the host. Use this to CROSS-REVIEW a worker: whoever reviews it cannot `git diff` the reviewed worker itself (its changes are uncommitted in an out-of-tree worktree that is never mounted into the reviewing box), so get the diff here and hand it on in the review brief. Empty string means no changes.";

pub const INTEGRATE_SUBTASKS_DESCRIPTION: &'static str =
    "Merge a wave of finished sub-tasks' isolated worktree branches onto the integration workspace. Commits each worker's files_touched onto its wip/ branch host-side and 3-way merges it, returning per-worker {branch, committed, clean, conflicted_files, dependency_manifests}. A non-clean merge lists the conflicted files for a resolver; dependency_manifests flags Cargo.toml/package.json/lockfile changes (G5). Never pushes (G2/G3). Call after await_subtasks.";

pub const LIST_TASKS_DESCRIPTION: &'static str =
    "List YOUR OWN project's tasks: [{id, slug, status, title, assignee}]. Host-mediated; never crosses into another project. Use this (or `.varda/tasks/*.md` in the workspace) to discover work — there is no GitHub egress and no `varda` CLI inside the box.";

pub const GET_TASK_DESCRIPTION: &'static str =
    "Read one of your project's tasks by id: {id, slug, status, title, assignee, body}. Returns not-found for any id outside your own project (cross-project ids are never distinguishable from unknown ones).";

pub const SET_TASK_STATUS_DESCRIPTION: &'static str =
    "Close out YOUR OWN task once you are finished: set its status to done, needs_user, or failed. Only allowed for the caller's own task id, and only from 'running' — a task in 'review' is a human-only gate and cannot be self-marked done.";

pub const BRIEF_DESCRIPTION: &'static str = "What the sub-task should accomplish (becomes its task body).";

pub const ROUTE_DESCRIPTION: &'static str = "Optional requested route glob (host re-validates).";

pub const AGENT_DESCRIPTION: &'static str = "Optional requested agent (host re-validates).";

pub const SANDBOX_DESCRIPTION: &'static str = "Optional requested sandbox name; must isolate (never `local`).";

pub const TASK_ID_DESCRIPTION: &'static str =
    "Id of an existing task to run, regardless of its current status.";

pub const STATUS_FILTER_DESCRIPTION: &'static str =
    "Optional status filter: backlog, ready, running, review, needs_user, failed, or done.";

pub const NUMERIC_ID_DESCRIPTION: &'static str = "Numeric task id.";

pub const OWN_ID_DESCRIPTION: &'static str = "Must be the caller's own task id.";

/// A property of the type `kind`.
pub open spec fn bare_property(kind: Seq<char>) -> JsonView {
    JsonView::Object(seq![("type"@, JsonView::Text(kind))])
}

/// A property of the type `kind`, described.
pub open spec fn described_property(kind: Seq<char>, description: Seq<char>) -> JsonView {
    JsonView::Object(seq![("type"@, JsonView::Text(kind)), ("description"@, JsonView::Text(description))])
}

/// A property that holds a list of strings.
pub open spec fn string_list_property() -> JsonView {
    JsonView::Object(seq![("type"@, JsonView::Text("array"@)), ("items"@, bare_property("string"@))])
}

/// A list of texts.
pub open spec fn text_list(texts: Seq<Seq<char>>) -> JsonView {
    JsonView::Array(Seq::new(texts.len(), |i: int| JsonView::Text(texts[i])))
}

/// The input schema of a tool that requires some properties.
pub open spec fn schema(required: Seq<Seq<char>>, properties: Seq<(Seq<char>, JsonView)>) -> JsonView {
    JsonView::Object(
        seq![
            ("type"@, JsonView::Text("object"@)),
            ("required"@, text_list(required)),
            ("properties"@, JsonView::Object(properties)),
        ],
    )
}

/// The input schema of a tool that requires no property.
pub open spec fn optional_schema(properties: Seq<(Seq<char>, JsonView)>) -> JsonView {
    JsonView::Object(
        seq![("type"@, JsonView::Text("object"@)), ("properties"@, JsonView::Object(properties))],
    )
}

/// The entry of one tool.
pub open spec fn tool_entry(name: Seq<char>, description: Seq<char>, input: JsonView) -> JsonView {
    JsonView::Object(
        seq![
            ("name"@, JsonView::Text(name)),
            ("description"@, JsonView::Text(description)),
            ("inputSchema"@, input),
        ],
    )
}

/// The entries of all tools.
pub open spec fn tool_entries() -> Seq<JsonView> {
    seq![
        tool_entry(
            SPAWN_SUBTASK_TOOL@,
            SPAWN_SUBTASK_DESCRIPTION@,
            schema(
                seq!["brief"@],
                seq![
                    ("brief"@, described_property("string"@, BRIEF_DESCRIPTION@)),
                    ("route"@, described_property("string"@, ROUTE_DESCRIPTION@)),
                    ("agent"@, described_property("string"@, AGENT_DESCRIPTION@)),
                    ("sandbox"@, described_property("string"@, SANDBOX_DESCRIPTION@)),
                ],
            ),
        ),
        tool_entry(
            RUN_SUBTASK_TOOL@,
            RUN_SUBTASK_DESCRIPTION@,
            schema(seq!["task_id"@], seq![("task_id"@, described_property("string"@, TASK_ID_DESCRIPTION@))]),
        ),
        tool_entry(
            AWAIT_SUBTASK_TOOL@,
            AWAIT_SUBTASK_DESCRIPTION@,
            schema(seq!["subtask_id"@], seq![("subtask_id"@, bare_property("string"@))]),
        ),
        tool_entry(
            AWAIT_SUBTASKS_TOOL@,
            AWAIT_SUBTASKS_DESCRIPTION@,
            schema(seq!["subtask_ids"@], seq![("subtask_ids"@, string_list_property())]),
        ),
        tool_entry(
            SUBTASK_RESULT_TOOL@,
            SUBTASK_RESULT_DESCRIPTION@,
            schema(seq!["subtask_id"@], seq![("subtask_id"@, bare_property("string"@))]),
        ),
        tool_entry(
            SUBTASK_DIFF_TOOL@,
            SUBTASK_DIFF_DESCRIPTION@,
            schema(seq!["subtask_id"@], seq![("subtask_id"@, bare_property("string"@))]),
        ),
        tool_entry(
            INTEGRATE_SUBTASKS_TOOL@,
            INTEGRATE_SUBTASKS_DESCRIPTION@,
            schema(seq!["subtask_ids"@], seq![("subtask_ids"@, string_list_property())]),
        ),
        tool_entry(
            LIST_TASKS_TOOL@,
            LIST_TASKS_DESCRIPTION@,
            optional_schema(seq![("status"@, described_property("string"@, STATUS_FILTER_DESCRIPTION@))]),
        ),
        tool_entry(
            GET_TASK_TOOL@,
            GET_TASK_DESCRIPTION@,
            schema(seq!["id"@], seq![("id"@, described_property("integer"@, NUMERIC_ID_DESCRIPTION@))]),
        ),
        tool_entry(
            SET_TASK_STATUS_TOOL@,
            SET_TASK_STATUS_DESCRIPTION@,
            schema(
                seq!["id"@, "status"@],
                seq![
                    ("id"@, described_property("integer"@, OWN_ID_DESCRIPTION@)),
                    (
                        "status"@,
                        JsonView::Object(
                            seq![
                                ("type"@, JsonView::Text("string"@)),
                                ("enum"@, text_list(seq!["done"@, "needs_user"@, "failed"@])),
                            ],
                        ),
                    ),
                ],
            ),
        ),
    ]
}

/// The list of tools as it is sent.
pub open spec fn manifest_view() -> JsonView {
    JsonView::Object(seq![("tools"@, JsonView::Array(tool_entries()))])
}

/// The names of the tools, in the order of the list.
pub open spec fn tool_names() -> Seq<Seq<char>> {
    seq![
        SPAWN_SUBTASK_TOOL@,
        RUN_SUBTASK_TOOL@,
        AWAIT_SUBTASK_TOOL@,
        AWAIT_SUBTASKS_TOOL@,
        SUBTASK_RESULT_TOOL@,
        SUBTASK_DIFF_TOOL@,
        INTEGRATE_SUBTASKS_TOOL@,
        LIST_TASKS_TOOL@,
        GET_TASK_TOOL@,
        SET_TASK_STATUS_TOOL@,
    ]
}

/// The list offers the spawn tools, the reading tools, the merging tool and the
/// board tools, and nothing else.
pub proof fn law_manifest_offers_these_tools_alone()
    ensures
        tool_entries().len() == tool_names().len(),
        forall|i: int|
            0 <= i < tool_entries().len() ==> (#[trigger] tool_entries()[i]).str_field("name"@) == Some(
                tool_names()[i],
            ),
{
    assert forall|i: int| 0 <= i < tool_entries().len() implies (#[trigger] tool_entries()[i]).str_field(
        "name"@,
    ) == Some(tool_names()[i]) by {
        let fields = tool_entries()[i]->Object_0;
        assert(fields[0].0 == "name"@);
        assert(crate::json::field_index(fields, "name"@) == 0);
    }
}

fn bare_property_json(kind: &str) -> (json: Json)
    ensures
        json@ == bare_property(kind@),
{
    object1("type", words(kind))
}

fn described_property_json(kind: &str, description: &str) -> (json: Json)
    ensures
        json@ == described_property(kind@, description@),
{
    object2("type", words(kind), "description", words(description))
}

fn string_list_property_json() -> (json: Json)
    ensures
        json@ == string_list_property(),
{
    object2("type", words("array"), "items", bare_property_json("string"))
}

fn text_list_json(texts: Vec<&str>) -> (json: Json)
    ensures
        json@ == text_list(texts.deep_view()),
{
    let mut items: Vec<Json> = Vec::new();
    let mut i: usize = 0;
    while i < texts.len()
        invariant
            i == items@.len(),
            i <= texts@.len(),
            forall|j: int| 0 <= j < i ==> (#[trigger] items@[j])@ == JsonView::Text(texts@[j]@),
        decreases texts@.len() - i,
    {
        items.push(words(texts[i]));
        i += 1;
    }
    let json = array(items);
    assert(json@->Array_0 =~= text_list(texts.deep_view())->Array_0);
    json
}

fn schema_json(required: Vec<&str>, properties: Vec<(String, Json)>) -> (json: Json)
    ensures
        json@ == schema(required.deep_view(), fields_view(properties@)),
{
    object3("type", words("object"), "required", text_list_json(required), "properties", object(properties))
}

fn optional_schema_json(properties: Vec<(String, Json)>) -> (json: Json)
    ensures
        json@ == optional_schema(fields_view(properties@)),
{
    object2("type", words("object"), "properties", object(properties))
}

fn tool_entry_json(name: &str, description: &str, input: Json) -> (json: Json)
    ensures
        json@ == tool_entry(name@, description@, input@),
{
    object3("name", words(name), "description", words(description), "inputSchema", input)
}

/// The schema of a tool that takes one required property.
fn single_schema_json(key: &str, property: Json) -> (json: Json)
    ensures
        json@ == schema(seq![key@], seq![(key@, property@)]),
{
    let required: Vec<&str> = vec![key];
    let properties: Vec<(String, Json)> = vec![(key.to_owned(), property)];
    assert(required.deep_view() =~= seq![key@]);
    assert(fields_view(properties@) =~= seq![(key@, property@)]);
    schema_json(required, properties)
}

fn spawn_schema_json() -> (json: Json)
    ensures
        tool_entry(SPAWN_SUBTASK_TOOL@, SPAWN_SUBTASK_DESCRIPTION@, json@) == tool_entries()[0],
{
    let required: Vec<&str> = vec!["brief"];
    let properties: Vec<(String, Json)> = vec![
        ("brief".to_owned(), described_property_json("string", BRIEF_DESCRIPTION)),
        ("route".to_owned(), described_property_json("string", ROUTE_DESCRIPTION)),
        ("agent".to_owned(), described_property_json("string", AGENT_DESCRIPTION)),
        ("sandbox".to_owned(), described_property_json("string", SANDBOX_DESCRIPTION)),
    ];
    assert(required.deep_view() =~= seq!["brief"@]);
    assert(fields_view(properties@) =~= seq![
        ("brief"@, described_property("string"@, BRIEF_DESCRIPTION@)),
        ("route"@, described_property("string"@, ROUTE_DESCRIPTION@)),
        ("agent"@, described_property("string"@, AGENT_DESCRIPTION@)),
        ("sandbox"@, described_property("string"@, SANDBOX_DESCRIPTION@)),
    ]);
    schema_json(required, properties)
}

fn list_schema_json() -> (json: Json)
    ensures
        tool_entry(LIST_TASKS_TOOL@, LIST_TASKS_DESCRIPTION@, json@) == tool_entries()[7],
{
    let properties: Vec<(String, Json)> = vec![
        ("status".to_owned(), described_property_json("string", STATUS_FILTER_DESCRIPTION)),
    ];
    assert(fields_view(properties@) =~= seq![
        ("status"@, described_property("string"@, STATUS_FILTER_DESCRIPTION@)),
    ]);
    optional_schema_json(properties)
}

fn set_status_schema_json() -> (json: Json)
    ensures
        tool_entry(SET_TASK_STATUS_TOOL@, SET_TASK_STATUS_DESCRIPTION@, json@) == tool_entries()[9],
{
    let required: Vec<&str> = vec!["id", "status"];
    let choices: Vec<&str> = vec!["done", "needs_user", "failed"];
    assert(required.deep_view() =~= seq!["id"@, "status"@]);
    assert(choices.deep_view() =~= seq!["done"@, "needs_user"@, "failed"@]);
    let status = object2("type", words("string"), "enum", text_list_json(choices));
    let properties: Vec<(String, Json)> = vec![
        ("id".to_owned(), described_property_json("integer", OWN_ID_DESCRIPTION)),
        ("status".to_owned(), status),
    ];
    assert(fields_view(properties@) =~= seq![
        ("id"@, described_property("integer"@, OWN_ID_DESCRIPTION@)),
        ("status"@, status@),
    ]);
    schema_json(required, properties)
}

/// The list of tools.
pub fn tool_manifest() -> (json: Json)
    ensures
        json@ == manifest_view(),
{
    let tools: Vec<Json> = vec![
        tool_entry_json(SPAWN_SUBTASK_TOOL, SPAWN_SUBTASK_DESCRIPTION, spawn_schema_json()),
        tool_entry_json(
            RUN_SUBTASK_TOOL,
            RUN_SUBTASK_DESCRIPTION,
            single_schema_json("task_id", described_property_json("string", TASK_ID_DESCRIPTION)),
        ),
        tool_entry_json(
            AWAIT_SUBTASK_TOOL,
            AWAIT_SUBTASK_DESCRIPTION,
            single_schema_json("subtask_id", bare_property_json("string")),
        ),
        tool_entry_json(
            AWAIT_SUBTASKS_TOOL,
            AWAIT_SUBTASKS_DESCRIPTION,
            single_schema_json("subtask_ids", string_list_property_json()),
        ),
        tool_entry_json(
            SUBTASK_RESULT_TOOL,
            SUBTASK_RESULT_DESCRIPTION,
            single_schema_json("subtask_id", bare_property_json("string")),
        ),
        tool_entry_json(
            SUBTASK_DIFF_TOOL,
            SUBTASK_DIFF_DESCRIPTION,
            single_schema_json("subtask_id", bare_property_json("string")),
        ),
        tool_entry_json(
            INTEGRATE_SUBTASKS_TOOL,
            INTEGRATE_SUBTASKS_DESCRIPTION,
            single_schema_json("subtask_ids", string_list_property_json()),
        ),
        tool_entry_json(LIST_TASKS_TOOL, LIST_TASKS_DESCRIPTION, list_schema_json()),
        tool_entry_json(
            GET_TASK_TOOL,
            GET_TASK_DESCRIPTION,
            single_schema_json("id", described_property_json("integer", NUMERIC_ID_DESCRIPTION)),
        ),
        tool_entry_json(SET_TASK_STATUS_TOOL, SET_TASK_STATUS_DESCRIPTION, set_status_schema_json()),
    ];
    let list = array(tools);
    assert(list@->Array_0 =~= tool_entries());
    object1("tools", list)
}

} // verus!
