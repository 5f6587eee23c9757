//! The requests that arrive on a broker's channel and the answers to them.
//!
//! A request is read, carried out as far as that needs no waiting, and answered.
//! Waiting for sub-tasks and merging their work is left to the caller, which then
//! asks for the answer with what came of it.

use vstd::prelude::*;
use vstd::string::*;

use crate::board::{detail_payload, detail_row, entries_payload, entry_rows, own_status_denial, ownership_denial};
use crate::broker::{
    answer_view, gated, is_plain_request, launch_answer, launch_view, reservation, status_word, BrokerErrorView, SharedSpawnState, SpawnBroker, SubtaskLauncher,
    SubtaskResults, TaskControlPlane, TaskDetail, TaskListEntry, TreeView, RESULTS_UNAVAILABLE,
};
use crate::collect::{
    pairs_view, result_row, status_fields, status_row, status_rows, subtask_result, wave_payload,
};
use crate::json::{
    array, object0, object1, object2, object3, payload_json, payload_text, words, FieldView, Json, JsonView, Payload,
    PayloadView,
};
use crate::manifest::{
    manifest_view, tool_manifest, AWAIT_SUBTASKS_TOOL, AWAIT_SUBTASK_TOOL, GET_TASK_TOOL,
    INTEGRATE_SUBTASKS_TOOL, LIST_TASKS_TOOL, RUN_SUBTASK_TOOL, SET_TASK_STATUS_TOOL, SPAWN_SUBTASK_TOOL,
    SUBTASK_DIFF_TOOL, SUBTASK_RESULT_TOOL,
};
use crate::orchestration::{SpawnGrant, SpawnRequest, SubtaskId};
use crate::order::{lemma_selection_empty, lemma_selection_push, selection};
use crate::task::{unknown_status_message, unknown_status_text, TaskStatus};
use crate::text::{
    cat, decimal, decimal_of, holds, holds_in_order, lemma_holds_within, lemma_two_in_order, same,
};

verus! {

// ---------------------------------------------------------------------------
// Answers
// ---------------------------------------------------------------------------

/// A tool's answer in words.
pub open spec fn tool_text_view(text: Seq<char>, is_error: bool) -> JsonView {
    JsonView::Object(
        seq![
            (
                "content"@,
                JsonView::Array(
                    seq![
                        JsonView::Object(
                            seq![("type"@, JsonView::Text("text"@)), ("text"@, JsonView::Text(text))],
                        ),
                    ],
                ),
            ),
            ("isError"@, JsonView::Bool(is_error)),
        ],
    )
}

/// The answer to the request `id` that carries `result`.
pub open spec fn rpc_result_view(id: JsonView, result: JsonView) -> JsonView {
    JsonView::Object(seq![("jsonrpc"@, JsonView::Text("2.0"@)), ("id"@, id), ("result"@, result)])
}

/// The answer to the request `id` that reports an error of the request itself. Both
/// codes are negative numbers.
pub open spec fn rpc_error_view(id: JsonView, code: i64, message: Seq<char>) -> JsonView {
    JsonView::Object(
        seq![
            ("jsonrpc"@, JsonView::Text("2.0"@)),
            ("id"@, id),
            (
                "error"@,
                JsonView::Object(seq![("code"@, JsonView::Int(code)), ("message"@, JsonView::Text(message))]),
            ),
        ],
    )
}

/// The answer of a tool to the request `id`.
pub open spec fn tool_answer(id: JsonView, text: Seq<char>, is_error: bool) -> JsonView {
    rpc_result_view(id, tool_text_view(text, is_error))
}

/// A method that is not known.
pub const METHOD_NOT_FOUND: i64 = -32601;

/// Parameters that are not as the method wants them.
pub const INVALID_PARAMS: i64 = -32602;

/// A tool's answer in words.
pub fn tool_text(text: &str, is_error: bool) -> (json: Json)
    ensures
        json@ == tool_text_view(text@, is_error),
{
    let mut content: Vec<Json> = Vec::new();
    content.push(object2("type", words("text"), "text", words(text)));
    let list = array(content);
    assert(list@->Array_0 =~= seq![
        JsonView::Object(seq![("type"@, JsonView::Text("text"@)), ("text"@, JsonView::Text(text@))]),
    ]);
    object2("content", list, "isError", Json::Bool(is_error))
}

/// The answer to the request `id` that carries `result`.
pub fn rpc_result(id: &Json, result: Json) -> (json: Json)
    ensures
        json@ == rpc_result_view(id@, result@),
{
    object3("jsonrpc", words("2.0"), "id", id.duplicate(), "result", result)
}

/// The answer to the request `id` that reports an error of the request itself.
pub fn rpc_error(id: &Json, code: i64, message: &str) -> (json: Json)
    ensures
        json@ == rpc_error_view(id@, code, message@),
{
    object3(
        "jsonrpc",
        words("2.0"),
        "id",
        id.duplicate(),
        "error",
        object2("code", Json::Int(code), "message", words(message)),
    )
}

/// The answer of a tool to the request `id`.
fn answer_text(id: &Json, text: &str, is_error: bool) -> (json: Json)
    ensures
        json@ == tool_answer(id@, text@, is_error),
{
    rpc_result(id, tool_text(text, is_error))
}

// ---------------------------------------------------------------------------
// Reading a tool call
// ---------------------------------------------------------------------------

/// The text argument `key`, where there is one that is not empty.
pub open spec fn text_argument(args: JsonView, key: Seq<char>) -> Option<Seq<char>> {
    match args.str_field(key) {
        Some(text) => if text.len() > 0 {
            Some(text)
        } else {
            None
        },
        None => None,
    }
}

/// The text argument `key`, where there is one that is not empty.
pub fn str_arg(args: &Json, key: &str) -> (text: Option<String>)
    ensures
        text.deep_view() == text_argument(args@, key@),
{
    match args.str_field(key) {
        Some(text) => if text.is_empty() {
            None
        } else {
            Some(text.to_owned())
        },
        None => None,
    }
}

/// The texts among `items`.
pub open spec fn texts_among(items: Seq<JsonView>) -> Seq<Seq<char>>
    decreases items.len(),
{
    if items.len() == 0 {
        Seq::empty()
    } else {
        let front = texts_among(items.drop_last());
        match items.last().as_str() {
            Some(text) => front.push(text),
            None => front,
        }
    }
}

/// The texts of the list argument `key`, none where there is no such list.
pub open spec fn list_argument(args: JsonView, key: Seq<char>) -> Seq<Seq<char>> {
    match args.get(key) {
        Some(JsonView::Array(items)) => texts_among(items),
        _ => Seq::empty(),
    }
}

/// The texts of the list argument `key`.
fn list_arg(args: &Json, key: &str) -> (texts: Vec<String>)
    ensures
        texts.deep_view() == list_argument(args@, key@),
{
    let mut texts: Vec<String> = Vec::new();
    assert(texts.deep_view() =~= Seq::empty());
    let found = args.get(key);
    if let Some(value) = found {
        if let Json::Array(items) = value {
            let ghost views = value@->Array_0;
            let mut i: usize = 0;
            assert(views.take(0) =~= Seq::empty());
            while i < items.len()
                invariant
                    *value == Json::Array(*items),
                    views == value@->Array_0,
                    views.len() == items@.len(),
                    i <= items@.len(),
                    texts.deep_view() == texts_among(views.take(i as int)),
                decreases items@.len() - i,
            {
                let ghost next = views.take(i + 1);
                assert(next.drop_last() =~= views.take(i as int));
                assert(next.last() == items@[i as int]@);
                let ghost before = texts.deep_view();
                if let Some(text) = items[i].as_str() {
                    texts.push(text.to_owned());
                    assert(texts.deep_view() =~= before.push(text@));
                }
                i += 1;
            }
            assert(views.take(i as int) =~= views);
            assert(value@ == JsonView::Array(views));
        }
    }
    texts
}

/// What a [`SpawnRequest`] asks for.
pub struct SpawnRequestView {
    pub brief: Seq<char>,
    pub route: Option<Seq<char>>,
    pub agent: Option<Seq<char>>,
    pub sandbox: Option<Seq<char>>,
    pub approved: bool,
}

impl View for SpawnRequest {
    type V = SpawnRequestView;

    open spec fn view(&self) -> SpawnRequestView {
        SpawnRequestView {
            brief: self.brief@,
            route: self.route.deep_view(),
            agent: self.agent.deep_view(),
            sandbox: self.sandbox.deep_view(),
            approved: self.approved,
        }
    }
}

/// A tool call that has been read.
#[derive(Debug, Clone, PartialEq, Eq)]
pub enum ToolCall {
    Spawn(SpawnRequest),
    Run(String),
    AwaitOne(String),
    AwaitAll(Vec<String>),
    Outcome(String),
    Diff(String),
    Integrate(Vec<String>),
    ListTasks(Option<TaskStatus>),
    GetTask(u64),
    SetStatus(u64, TaskStatus),
    /// The request is faulty: an error code and the reason.
    Faulty(i64, String),
    /// The tool declines: the reason.
    Declined(String),
}

/// What a [`ToolCall`] says.
pub enum ToolCallView {
    Spawn(SpawnRequestView),
    Run(Seq<char>),
    AwaitOne(Seq<char>),
    AwaitAll(Seq<Seq<char>>),
    Outcome(Seq<char>),
    Diff(Seq<char>),
    Integrate(Seq<Seq<char>>),
    ListTasks(Option<TaskStatus>),
    GetTask(u64),
    SetStatus(u64, TaskStatus),
    Faulty(i64, Seq<char>),
    Declined(Seq<char>),
}

impl View for ToolCall {
    type V = ToolCallView;

    open spec fn view(&self) -> ToolCallView {
        match *self {
            ToolCall::Spawn(req) => ToolCallView::Spawn(req@),
            ToolCall::Run(id) => ToolCallView::Run(id@),
            ToolCall::AwaitOne(id) => ToolCallView::AwaitOne(id@),
            ToolCall::AwaitAll(ids) => ToolCallView::AwaitAll(ids.deep_view()),
            ToolCall::Outcome(id) => ToolCallView::Outcome(id@),
            ToolCall::Diff(id) => ToolCallView::Diff(id@),
            ToolCall::Integrate(ids) => ToolCallView::Integrate(ids.deep_view()),
            ToolCall::ListTasks(status) => ToolCallView::ListTasks(status),
            ToolCall::GetTask(id) => ToolCallView::GetTask(id),
            ToolCall::SetStatus(id, status) => ToolCallView::SetStatus(id, status),
            ToolCall::Faulty(code, text) => ToolCallView::Faulty(code, text@),
            ToolCall::Declined(text) => ToolCallView::Declined(text@),
        }
    }
}

/// The arguments of a tool call, an empty object where there are none.
pub open spec fn call_arguments(params: JsonView) -> JsonView {
    match params.get("arguments"@) {
        Some(args) => args,
        None => JsonView::Object(Seq::empty()),
    }
}

/// The name of the tool that is called, empty where there is none.
pub open spec fn call_name(params: JsonView) -> Seq<char> {
    match params.str_field("name"@) {
        Some(name) => name,
        None => Seq::empty(),
    }
}

/// What the parameters of a tool call ask for. Approval is the host's to give: no
/// argument sets it.
pub open spec fn read_call(params: Option<JsonView>) -> ToolCallView {
    match params {
        None => ToolCallView::Faulty(INVALID_PARAMS, "missing params"@),
        Some(params) => {
            let name = call_name(params);
            let args = call_arguments(params);
            if name == SPAWN_SUBTASK_TOOL@ {
                match args.str_field("brief"@) {
                    None => ToolCallView::Faulty(INVALID_PARAMS, "spawn_subtask requires a `brief`"@),
                    Some(brief) => ToolCallView::Spawn(
                        SpawnRequestView {
                            brief,
                            route: text_argument(args, "route"@),
                            agent: text_argument(args, "agent"@),
                            sandbox: text_argument(args, "sandbox"@),
                            approved: false,
                        },
                    ),
                }
            } else if name == RUN_SUBTASK_TOOL@ {
                match args.str_field("task_id"@) {
                    None => ToolCallView::Faulty(INVALID_PARAMS, "run_subtask requires a `task_id`"@),
                    Some(id) => ToolCallView::Run(id),
                }
            } else if name == AWAIT_SUBTASK_TOOL@ {
                match args.str_field("subtask_id"@) {
                    None => ToolCallView::Faulty(INVALID_PARAMS, "await_subtask requires a `subtask_id`"@),
                    Some(id) => ToolCallView::AwaitOne(id),
                }
            } else if name == AWAIT_SUBTASKS_TOOL@ {
                let ids = list_argument(args, "subtask_ids"@);
                if ids.len() == 0 {
                    ToolCallView::Faulty(
                        INVALID_PARAMS,
                        "await_subtasks requires a non-empty `subtask_ids` array"@,
                    )
                } else {
                    ToolCallView::AwaitAll(ids)
                }
            } else if name == SUBTASK_RESULT_TOOL@ {
                match args.str_field("subtask_id"@) {
                    None => ToolCallView::Faulty(INVALID_PARAMS, "subtask_result requires a `subtask_id`"@),
                    Some(id) => ToolCallView::Outcome(id),
                }
            } else if name == SUBTASK_DIFF_TOOL@ {
                match args.str_field("subtask_id"@) {
                    None => ToolCallView::Faulty(INVALID_PARAMS, "subtask_diff requires a `subtask_id`"@),
                    Some(id) => ToolCallView::Diff(id),
                }
            } else if name == INTEGRATE_SUBTASKS_TOOL@ {
                let ids = list_argument(args, "subtask_ids"@);
                if ids.len() == 0 {
                    ToolCallView::Faulty(
                        INVALID_PARAMS,
                        "integrate_subtasks requires a non-empty `subtask_ids` array"@,
                    )
                } else {
                    ToolCallView::Integrate(ids)
                }
            } else if name == LIST_TASKS_TOOL@ {
                match text_argument(args, "status"@) {
                    None => ToolCallView::ListTasks(None),
                    Some(word) => match TaskStatus::from_word(word) {
                        Some(status) => ToolCallView::ListTasks(Some(status)),
                        None => ToolCallView::Declined(unknown_status_text(word)),
                    },
                }
            } else if name == GET_TASK_TOOL@ {
                match number_argument(args, "id"@) {
                    None => ToolCallView::Faulty(INVALID_PARAMS, "get_task requires an integer `id`"@),
                    Some(id) => ToolCallView::GetTask(id),
                }
            } else if name == SET_TASK_STATUS_TOOL@ {
                match number_argument(args, "id"@) {
                    None => ToolCallView::Faulty(INVALID_PARAMS, "set_task_status requires an integer `id`"@),
                    Some(id) => match args.str_field("status"@) {
                        None => ToolCallView::Faulty(INVALID_PARAMS, "set_task_status requires a `status`"@),
                        Some(word) => match TaskStatus::from_word(word) {
                            Some(status) => ToolCallView::SetStatus(id, status),
                            None => ToolCallView::Declined(unknown_status_text(word)),
                        },
                    },
                }
            } else {
                ToolCallView::Faulty(METHOD_NOT_FOUND, "unknown tool: "@ + name)
            }
        },
    }
}

/// The number argument `key`, where there is one.
pub open spec fn number_argument(args: JsonView, key: Seq<char>) -> Option<u64> {
    match args.get(key) {
        Some(value) => value.as_u64(),
        None => None,
    }
}

/// The number argument `key`, where there is one.
fn number_arg(args: &Json, key: &str) -> (number: Option<u64>)
    ensures
        number == number_argument(args@, key@),
{
    match args.get(key) {
        Some(value) => value.as_u64(),
        None => None,
    }
}

/// What an optional JSON value says.
pub open spec fn optional_json(json: Option<&Json>) -> Option<JsonView> {
    match json {
        Some(json) => Some(json@),
        None => None,
    }
}

/// A faulty call.
fn faulty(text: &str) -> (call: ToolCall)
    ensures
        call@ == ToolCallView::Faulty(INVALID_PARAMS, text@),
{
    ToolCall::Faulty(INVALID_PARAMS, text.to_owned())
}

/// Reads the parameters of a tool call.
pub fn parse_tool_call(params: Option<&Json>) -> (call: ToolCall)
    ensures
        call@ == read_call(optional_json(params)),
{
    let params = match params {
        Some(params) => params,
        None => {
            return faulty("missing params");
        },
    };
    let name = match params.str_field("name") {
        Some(name) => name.to_owned(),
        None => {
            let none = String::new();
            none
        },
    };
    assert(name@ == call_name(params@));
    let name = name.as_str();
    let args = match params.get("arguments") {
        Some(args) => args.duplicate(),
        None => object0(),
    };
    assert(args@ == call_arguments(params@));
    if same(name, SPAWN_SUBTASK_TOOL) {
        match args.str_field("brief") {
            None => faulty("spawn_subtask requires a `brief`"),
            Some(brief) => ToolCall::Spawn(
                SpawnRequest {
                    brief: brief.to_owned(),
                    route: str_arg(&args, "route"),
                    agent: str_arg(&args, "agent"),
                    sandbox: str_arg(&args, "sandbox"),
                    approved: false,
                },
            ),
        }
    } else if same(name, RUN_SUBTASK_TOOL) {
        match args.str_field("task_id") {
            None => faulty("run_subtask requires a `task_id`"),
            Some(id) => ToolCall::Run(id.to_owned()),
        }
    } else if same(name, AWAIT_SUBTASK_TOOL) {
        match args.str_field("subtask_id") {
            None => faulty("await_subtask requires a `subtask_id`"),
            Some(id) => ToolCall::AwaitOne(id.to_owned()),
        }
    } else if same(name, AWAIT_SUBTASKS_TOOL) {
        let ids = list_arg(&args, "subtask_ids");
        if ids.len() == 0 {
            faulty("await_subtasks requires a non-empty `subtask_ids` array")
        } else {
            ToolCall::AwaitAll(ids)
        }
    } else if same(name, SUBTASK_RESULT_TOOL) {
        match args.str_field("subtask_id") {
            None => faulty("subtask_result requires a `subtask_id`"),
            Some(id) => ToolCall::Outcome(id.to_owned()),
        }
    } else if same(name, SUBTASK_DIFF_TOOL) {
        match args.str_field("subtask_id") {
            None => faulty("subtask_diff requires a `subtask_id`"),
            Some(id) => ToolCall::Diff(id.to_owned()),
        }
    } else if same(name, INTEGRATE_SUBTASKS_TOOL) {
        let ids = list_arg(&args, "subtask_ids");
        if ids.len() == 0 {
            faulty("integrate_subtasks requires a non-empty `subtask_ids` array")
        } else {
            ToolCall::Integrate(ids)
        }
    } else if same(name, LIST_TASKS_TOOL) {
        match str_arg(&args, "status") {
            None => ToolCall::ListTasks(None),
            Some(word) => match TaskStatus::parse(word.as_str()) {
                Some(status) => ToolCall::ListTasks(Some(status)),
                None => ToolCall::Declined(unknown_status_message(word.as_str())),
            },
        }
    } else if same(name, GET_TASK_TOOL) {
        match number_arg(&args, "id") {
            None => faulty("get_task requires an integer `id`"),
            Some(id) => ToolCall::GetTask(id),
        }
    } else if same(name, SET_TASK_STATUS_TOOL) {
        match number_arg(&args, "id") {
            None => faulty("set_task_status requires an integer `id`"),
            Some(id) => match args.str_field("status") {
                None => faulty("set_task_status requires a `status`"),
                Some(word) => match TaskStatus::parse(word) {
                    Some(status) => ToolCall::SetStatus(id, status),
                    None => ToolCall::Declined(unknown_status_message(word)),
                },
            },
        }
    } else {
        ToolCall::Faulty(METHOD_NOT_FOUND, cat("unknown tool: ", name))
    }
}

/// Whatever a sandboxed task sends, it does not approve its own spawn.
pub proof fn law_a_call_never_approves_itself(params: Option<JsonView>)
    ensures
        read_call(params) matches ToolCallView::Spawn(req) ==> !req.approved,
{
}

// ---------------------------------------------------------------------------
// Carrying out a tool call
// ---------------------------------------------------------------------------

/// What comes of a request.
#[derive(Debug, PartialEq, Eq)]
pub enum RpcStep {
    /// The answer.
    Reply(Json),
    /// Wait for one sub-task and then answer the request `id`.
    AwaitOne { id: Json, subtask_id: String },
    /// Wait for all of a wave and then answer the request `id`.
    AwaitAll { id: Json, subtask_ids: Vec<String> },
    /// Merge the work of a wave and then answer the request `id`.
    Integrate { id: Json, subtask_ids: Vec<String> },
}

impl RpcStep {
    /// Whether this is the answer `view`.
    pub open spec fn replies(&self, view: JsonView) -> bool {
        *self matches RpcStep::Reply(json) && json@ == view
    }
}

/// The answer to a request to start a sub-task.
pub open spec fn launch_reply(id: JsonView, answer: Result<Seq<char>, BrokerErrorView>) -> JsonView {
    match answer {
        Ok(child) => tool_answer(id, "subtask_id: "@ + child, false),
        Err(error) => tool_answer(id, error.text(), true),
    }
}

/// The text where a sub-task has no result.
pub open spec fn no_result_text(subtask: Seq<char>) -> Seq<char> {
    "no result available for subtask '"@ + subtask + "': unknown id or no recap yet"@
}

/// The text where a sub-task has no diff.
pub open spec fn no_diff_text(subtask: Seq<char>) -> Seq<char> {
    "no diff available for subtask '"@ + subtask + "': unknown id or its worktree could not be read"@
}

/// The answer to a question for a task that the board does not have.
pub open spec fn no_task_text(id: u64) -> Seq<char> {
    "no task '"@ + decimal(id as nat) + "' found in this project"@
}

/// The answer to a status that has been set.
pub open spec fn status_set_text(id: u64, status: TaskStatus) -> Seq<char> {
    "task '"@ + decimal(id as nat) + "' set to "@ + status.word()
}

/// The answer to a request to set a status.
pub open spec fn status_reply(id: JsonView, task: u64, status: TaskStatus, answer: Result<(), String>) -> JsonView {
    match answer {
        Ok(()) => tool_answer(id, status_set_text(task, status), false),
        Err(text) => tool_answer(id, text@, true),
    }
}

impl<L: SubtaskLauncher, R: SubtaskResults, C: TaskControlPlane> SpawnBroker<L, R, C> {
    /// Whether `step` answers a question for the result of `subtask`, which can be
    /// read.
    pub open spec fn answers_outcome(&self, id: JsonView, subtask: Seq<char>, step: &RpcStep) -> bool {
        exists|name: &str, recap: Option<String>| {
            &&& name@ == subtask
            &&& #[trigger] call_ensures(R::recap, (&self.results, name), recap)
            &&& match recap {
                None => step.replies(tool_answer(id, no_result_text(subtask), true)),
                Some(recap) => exists|status: Option<TaskStatus>| {
                    &&& #[trigger] call_ensures(R::status, (&self.results, name), status)
                    &&& step.replies(
                        tool_answer(
                            id,
                            payload_json(PayloadView::One(result_row(subtask, status, recap@))),
                            false,
                        ),
                    )
                },
            }
        }
    }

    /// Whether `step` answers a question for the diff of `subtask`, which can be
    /// read.
    pub open spec fn answers_diff(&self, id: JsonView, subtask: Seq<char>, step: &RpcStep) -> bool {
        exists|name: &str, diff: Option<String>| {
            &&& name@ == subtask
            &&& #[trigger] call_ensures(R::diff, (&self.results, name), diff)
            &&& match diff {
                None => step.replies(tool_answer(id, no_diff_text(subtask), true)),
                Some(diff) => step.replies(tool_answer(id, diff@, false)),
            }
        }
    }

    /// Whether `step` and `after` are what comes of `call` by `parent` on `tree`.
    pub open spec fn carries_out(
        &self,
        tree: TreeView,
        parent: Seq<char>,
        id: JsonView,
        call: ToolCallView,
        step: &RpcStep,
        after: TreeView,
    ) -> bool {
        &&& !(call is Spawn || call is Run) ==> after == tree
        &&& match call {
            ToolCallView::Faulty(code, text) => step.replies(rpc_error_view(id, code, text)),
            ToolCallView::Declined(text) => step.replies(tool_answer(id, text, true)),
            ToolCallView::Spawn(req) => exists|request: SpawnRequest, answer: Result<Seq<char>, BrokerErrorView>| {
                &&& request@ == req
                &&& #[trigger] gated(&self.policy, tree, parent, &request, answer, after)
                &&& step.replies(launch_reply(id, answer))
            },
            ToolCallView::Run(_) => exists|
                request: SpawnRequest,
                answer: Result<Seq<char>, BrokerErrorView>,
            | {
                &&& is_plain_request(&request)
                &&& #[trigger] gated(&self.policy, tree, parent, &request, answer, after)
                &&& step.replies(launch_reply(id, answer))
            },
            ToolCallView::AwaitOne(subtask) => exists|available: bool| {
                &&& #[trigger] call_ensures(R::is_available, (&self.results,), available)
                &&& if available {
                    step matches RpcStep::AwaitOne { id: request, subtask_id } && request@ == id && subtask_id@
                        == subtask
                } else {
                    step.replies(tool_answer(id, RESULTS_UNAVAILABLE@, true))
                }
            },
            ToolCallView::AwaitAll(subtasks) => exists|available: bool| {
                &&& #[trigger] call_ensures(R::is_available, (&self.results,), available)
                &&& if available {
                    step matches RpcStep::AwaitAll { id: request, subtask_ids } && request@ == id
                        && subtask_ids.deep_view() == subtasks
                } else {
                    step.replies(tool_answer(id, RESULTS_UNAVAILABLE@, true))
                }
            },
            ToolCallView::Outcome(subtask) => exists|available: bool| {
                &&& #[trigger] call_ensures(R::is_available, (&self.results,), available)
                &&& if available {
                    self.answers_outcome(id, subtask, step)
                } else {
                    step.replies(tool_answer(id, RESULTS_UNAVAILABLE@, true))
                }
            },
            ToolCallView::Diff(subtask) => exists|available: bool| {
                &&& #[trigger] call_ensures(R::is_available, (&self.results,), available)
                &&& if available {
                    self.answers_diff(id, subtask, step)
                } else {
                    step.replies(tool_answer(id, RESULTS_UNAVAILABLE@, true))
                }
            },
            ToolCallView::Integrate(subtasks) => if self.integration_worktree is Some {
                step matches RpcStep::Integrate { id: request, subtask_ids } && request@ == id
                    && subtask_ids.deep_view() == subtasks
            } else {
                step.replies(tool_answer(id, RESULTS_UNAVAILABLE@, true))
            },
            ToolCallView::ListTasks(status) => exists|entries: Vec<TaskListEntry>| {
                &&& #[trigger] self.lists(status, entries)
                &&& step.replies(
                    tool_answer(id, payload_json(PayloadView::Many(entry_rows(entries@))), false),
                )
            },
            ToolCallView::GetTask(task) => if self.task_control_plane_project is None {
                step.replies(tool_answer(id, RESULTS_UNAVAILABLE@, true))
            } else {
                exists|detail: Option<TaskDetail>| {
                    &&& #[trigger] self.gets(task, detail)
                    &&& match detail {
                        None => step.replies(tool_answer(id, no_task_text(task), true)),
                        Some(detail) => step.replies(
                            tool_answer(id, payload_json(PayloadView::One(detail_row(detail))), false),
                        ),
                    }
                }
            },
            ToolCallView::SetStatus(task, status) => exists|answer: Result<(), String>|
                step.replies(#[trigger] status_reply(id, task, status, answer)),
        }
    }

    /// Carries out a tool call by `parent_id`, as far as that needs no waiting.
    pub fn handle_tool_call<H>(
        &mut self,
        state: &mut SharedSpawnState<H>,
        id: &Json,
        parent_id: &str,
        params: Option<&Json>,
    ) -> (step: RpcStep)
        requires
            old(self).policy.enabled && old(state)@.depths.dom().contains(parent_id@) ==> old(
                state,
            )@.depths[parent_id@] < u32::MAX,
        ensures
            old(self).carries_out(
                old(state)@,
                parent_id@,
                id@,
                read_call(optional_json(params)),
                &step,
                final(state)@,
            ),
            match read_call(optional_json(params)) {
                ToolCallView::Spawn(req) => exists|request: SpawnRequest| {
                    &&& request@ == req
                    &&& match #[trigger] reservation(&old(self).policy, old(state)@, parent_id@, &request) {
                        Err(_) => final(self).launcher == old(self).launcher,
                        Ok(child_depth) => exists|asked: &mut L, launched: Result<SubtaskId, String>|
                            *asked == old(self).launcher && *final(asked) == final(self).launcher
                                && #[trigger] call_ensures(
                                L::launch,
                                (asked, &request, &(SpawnGrant { child_depth })),
                                launched,
                            ) && step.replies(launch_reply(id@, launch_answer(launch_view(launched)))),
                    }
                },
                ToolCallView::Run(task) => exists|request: SpawnRequest| {
                    &&& is_plain_request(&request)
                    &&& match #[trigger] reservation(&old(self).policy, old(state)@, parent_id@, &request) {
                        Err(_) => final(self).launcher == old(self).launcher,
                        Ok(child_depth) => exists|asked: &mut L, name: &str, launched: Result<SubtaskId, String>|
                            *asked == old(self).launcher && *final(asked) == final(self).launcher && name@ == task
                                && #[trigger] call_ensures(
                                L::run_existing,
                                (asked, name, &(SpawnGrant { child_depth })),
                                launched,
                            ) && step.replies(launch_reply(id@, launch_answer(launch_view(launched)))),
                    }
                },
                _ => final(self).launcher == old(self).launcher,
            },
            match read_call(optional_json(params)) {
                ToolCallView::SetStatus(task, status) => match ownership_denial(
                    old(self).task_control_plane_project is Some,
                    parent_id@,
                    task,
                ) {
                    Some(text) => {
                        &&& step.replies(tool_answer(id@, text, true))
                        &&& final(self).task_control_plane == old(self).task_control_plane
                    },
                    None => exists|path: &str, detail: Option<TaskDetail>| {
                        &&& path@ == old(self).task_control_plane_project->0@
                        &&& #[trigger] call_ensures(C::get_task, (&old(self).task_control_plane, path, task), detail)
                        &&& match own_status_denial(task, status_word(detail), status) {
                            Some(text) => {
                                &&& step.replies(tool_answer(id@, text, true))
                                &&& final(self).task_control_plane == old(self).task_control_plane
                            },
                            None => exists|asked: &mut C, answer: Result<(), String>|
                                *asked == old(self).task_control_plane && *final(asked) == final(self).task_control_plane
                                    && #[trigger] call_ensures(C::set_task_status, (asked, path, task, status), answer)
                                    && step.replies(status_reply(id@, task, status, answer)),
                        }
                    },
                },
                _ => final(self).task_control_plane == old(self).task_control_plane,
            },
            final(state).handles() == old(state).handles(),
            final(self).same_settings(old(self)),
    {
        match parse_tool_call(params) {
            ToolCall::Faulty(code, text) => RpcStep::Reply(rpc_error(id, code, text.as_str())),
            ToolCall::Declined(text) => RpcStep::Reply(answer_text(id, text.as_str(), true)),
            ToolCall::Spawn(req) => {
                let ghost request = req;
                let answer = self.spawn_subtask(state, parent_id, req);
                assert(gated(
                    &old(self).policy,
                    old(state)@,
                    parent_id@,
                    &request,
                    answer_view(answer),
                    state@,
                ));
                RpcStep::Reply(launch_answer_json(id, answer))
            },
            ToolCall::Run(task_id) => {
                let answer = self.run_subtask(state, parent_id, task_id.as_str());
                RpcStep::Reply(launch_answer_json(id, answer))
            },
            ToolCall::AwaitOne(subtask_id) => {
                if self.results.is_available() {
                    RpcStep::AwaitOne { id: id.duplicate(), subtask_id }
                } else {
                    RpcStep::Reply(answer_text(id, RESULTS_UNAVAILABLE, true))
                }
            },
            ToolCall::AwaitAll(subtask_ids) => {
                if self.results.is_available() {
                    RpcStep::AwaitAll { id: id.duplicate(), subtask_ids }
                } else {
                    RpcStep::Reply(answer_text(id, RESULTS_UNAVAILABLE, true))
                }
            },
            ToolCall::Outcome(subtask) => {
                if self.results.is_available() {
                    self.outcome_step(id, subtask.as_str())
                } else {
                    RpcStep::Reply(answer_text(id, RESULTS_UNAVAILABLE, true))
                }
            },
            ToolCall::Diff(subtask) => {
                if self.results.is_available() {
                    self.diff_step(id, subtask.as_str())
                } else {
                    RpcStep::Reply(answer_text(id, RESULTS_UNAVAILABLE, true))
                }
            },
            ToolCall::Integrate(subtask_ids) => {
                if self.integration_worktree.is_some() {
                    RpcStep::Integrate { id: id.duplicate(), subtask_ids }
                } else {
                    RpcStep::Reply(answer_text(id, RESULTS_UNAVAILABLE, true))
                }
            },
            ToolCall::ListTasks(status) => {
                let entries = self.list_tasks(status);
                let text = payload_text(entries_payload(&entries));
                assert(self.lists(status, entries));
                RpcStep::Reply(answer_text(id, text.as_str(), false))
            },
            ToolCall::GetTask(task) => {
                if self.task_control_plane_project.is_none() {
                    return RpcStep::Reply(answer_text(id, RESULTS_UNAVAILABLE, true));
                }
                let detail = self.get_task(task);
                assert(self.gets(task, detail));
                match detail {
                    Some(detail) => {
                        let text = payload_text(detail_payload(&detail));
                        RpcStep::Reply(answer_text(id, text.as_str(), false))
                    },
                    None => {
                        let text = "no task '".to_owned().concat(decimal_of(task).as_str()).concat(
                            "' found in this project",
                        );
                        RpcStep::Reply(answer_text(id, text.as_str(), true))
                    },
                }
            },
            ToolCall::SetStatus(task, status) => {
                let answer = self.set_task_status(parent_id, task, status);
                RpcStep::Reply(status_answer_json(id, task, status, answer))
            },
        }
    }

    /// Answers a question for the result of a sub-task.
    fn outcome_step(&self, id: &Json, subtask: &str) -> (step: RpcStep)
        ensures
            self.answers_outcome(id@, subtask@, &step),
    {
        match self.results.recap(subtask) {
            None => {
                let text = "no result available for subtask '".to_owned().concat(subtask).concat(
                    "': unknown id or no recap yet",
                );
                RpcStep::Reply(answer_text(id, text.as_str(), true))
            },
            Some(recap) => {
                let status = self.results.status(subtask);
                let text = payload_text(Payload::One(subtask_result(subtask, status, recap.as_str())));
                RpcStep::Reply(answer_text(id, text.as_str(), false))
            },
        }
    }

    /// Answers a question for the diff of a sub-task.
    fn diff_step(&self, id: &Json, subtask: &str) -> (step: RpcStep)
        ensures
            self.answers_diff(id@, subtask@, &step),
    {
        match self.results.diff(subtask) {
            None => {
                let text = "no diff available for subtask '".to_owned().concat(subtask).concat(
                    "': unknown id or its worktree could not be read",
                );
                RpcStep::Reply(answer_text(id, text.as_str(), true))
            },
            Some(diff) => RpcStep::Reply(answer_text(id, diff.as_str(), false)),
        }
    }

    /// Whether `step` and `after` are what comes of `request` by `parent` on `tree`.
    pub open spec fn serves(
        &self,
        tree: TreeView,
        parent: Seq<char>,
        request: JsonView,
        step: &RpcStep,
        after: TreeView,
    ) -> bool {
        let id = request_id(request);
        let method = request_method(request);
        if method == "initialize"@ {
            step.replies(rpc_result_view(id, greeting())) && after == tree
        } else if method == "tools/list"@ {
            step.replies(rpc_result_view(id, manifest_view())) && after == tree
        } else if method == "tools/call"@ {
            self.carries_out(tree, parent, id, read_call(request.get("params"@)), step, after)
        } else {
            step.replies(rpc_error_view(id, METHOD_NOT_FOUND, "method not found: "@ + method)) && after == tree
        }
    }

    /// Serves one request that arrives on the channel of `parent_id`.
    pub fn handle_rpc<H>(&mut self, state: &mut SharedSpawnState<H>, parent_id: &str, request: &Json) -> (step: RpcStep)
        requires
            old(self).policy.enabled && old(state)@.depths.dom().contains(parent_id@) ==> old(
                state,
            )@.depths[parent_id@] < u32::MAX,
        ensures
            old(self).serves(old(state)@, parent_id@, request@, &step, final(state)@),
            if request_method(request@) == "tools/call"@ {
                match read_call(request@.get("params"@)) {
                    ToolCallView::Spawn(req) => exists|asking: SpawnRequest| {
                        &&& asking@ == req
                        &&& match #[trigger] reservation(&old(self).policy, old(state)@, parent_id@, &asking) {
                            Err(_) => final(self).launcher == old(self).launcher,
                            Ok(child_depth) => exists|asked: &mut L, launched: Result<SubtaskId, String>|
                                *asked == old(self).launcher && *final(asked) == final(self).launcher
                                    && #[trigger] call_ensures(
                                    L::launch,
                                    (asked, &asking, &(SpawnGrant { child_depth })),
                                    launched,
                                ) && step.replies(launch_reply(request_id(request@), launch_answer(launch_view(launched)))),
                        }
                    },
                    ToolCallView::Run(task) => exists|asking: SpawnRequest| {
                        &&& is_plain_request(&asking)
                        &&& match #[trigger] reservation(&old(self).policy, old(state)@, parent_id@, &asking) {
                            Err(_) => final(self).launcher == old(self).launcher,
                            Ok(child_depth) => exists|asked: &mut L, name: &str, launched: Result<SubtaskId, String>|
                                *asked == old(self).launcher && *final(asked) == final(self).launcher && name@ == task
                                    && #[trigger] call_ensures(
                                    L::run_existing,
                                    (asked, name, &(SpawnGrant { child_depth })),
                                    launched,
                                ) && step.replies(launch_reply(request_id(request@), launch_answer(launch_view(launched)))),
                        }
                    },
                    _ => final(self).launcher == old(self).launcher,
                }
            } else {
                final(self).launcher == old(self).launcher
            },
            if request_method(request@) == "tools/call"@ {
                match read_call(request@.get("params"@)) {
                    ToolCallView::SetStatus(task, status) => match ownership_denial(
                        old(self).task_control_plane_project is Some,
                        parent_id@,
                        task,
                    ) {
                        Some(text) => {
                            &&& step.replies(tool_answer(request_id(request@), text, true))
                            &&& final(self).task_control_plane == old(self).task_control_plane
                        },
                        None => exists|path: &str, detail: Option<TaskDetail>| {
                            &&& path@ == old(self).task_control_plane_project->0@
                            &&& #[trigger] call_ensures(C::get_task, (&old(self).task_control_plane, path, task), detail)
                            &&& match own_status_denial(task, status_word(detail), status) {
                                Some(text) => {
                                    &&& step.replies(tool_answer(request_id(request@), text, true))
                                    &&& final(self).task_control_plane == old(self).task_control_plane
                                },
                                None => exists|asked: &mut C, answer: Result<(), String>|
                                    *asked == old(self).task_control_plane && *final(asked) == final(self).task_control_plane
                                        && #[trigger] call_ensures(C::set_task_status, (asked, path, task, status), answer)
                                        && step.replies(status_reply(request_id(request@), task, status, answer)),
                            }
                        },
                    },
                    _ => final(self).task_control_plane == old(self).task_control_plane,
                }
            } else {
                final(self).task_control_plane == old(self).task_control_plane
            },
            final(state).handles() == old(state).handles(),
            final(self).same_settings(old(self)),
    {
        let id = match request.get("id") {
            Some(id) => id.duplicate(),
            None => Json::Null,
        };
        let method = match request.str_field("method") {
            Some(method) => method.to_owned(),
            None => String::new(),
        };
        assert(id@ == request_id(request@));
        assert(method@ == request_method(request@));
        proof {
            reveal_strlit("initialize");
            reveal_strlit("tools/list");
            reveal_strlit("tools/call");
            assert("initialize"@[0] != "tools/call"@[0]);
            assert("tools/list"@[6] != "tools/call"@[6]);
        }
        let method = method.as_str();
        if same(method, "initialize") {
            let server = object2("name", words("varda-spawn-broker"), "version", words(SERVER_VERSION));
            let body = object3(
                "protocolVersion",
                words("2024-11-05"),
                "serverInfo",
                server,
                "capabilities",
                object1("tools", object0()),
            );
            RpcStep::Reply(rpc_result(&id, body))
        } else if same(method, "tools/list") {
            RpcStep::Reply(rpc_result(&id, tool_manifest()))
        } else if same(method, "tools/call") {
            let params = request.get("params");
            assert(optional_json(params) == request@.get("params"@));
            self.handle_tool_call(state, &id, parent_id, params)
        } else {
            RpcStep::Reply(rpc_error(&id, METHOD_NOT_FOUND, cat("method not found: ", method).as_str()))
        }
    }

    /// Whether `entries` is what the board lists of the caller's own project.
    pub open spec fn lists(&self, status: Option<TaskStatus>, entries: Vec<TaskListEntry>) -> bool {
        match self.task_control_plane_project {
            None => entries@.len() == 0,
            Some(project) => exists|path: &str|
                path@ == project@ && #[trigger] call_ensures(
                    C::list_tasks,
                    (&self.task_control_plane, path, status),
                    entries,
                ),
        }
    }

    /// Whether `detail` is what the board has of the task `id` of the caller's own
    /// project.
    pub open spec fn gets(&self, id: u64, detail: Option<TaskDetail>) -> bool {
        match self.task_control_plane_project {
            None => detail is None,
            Some(project) => exists|path: &str|
                path@ == project@ && #[trigger] call_ensures(
                    C::get_task,
                    (&self.task_control_plane, path, id),
                    detail,
                ),
        }
    }
}

/// The version that the broker greets with.
pub const SERVER_VERSION: &'static str = "0.1.0";

/// What the broker says of itself.
pub open spec fn greeting() -> JsonView {
    JsonView::Object(
        seq![
            ("protocolVersion"@, JsonView::Text("2024-11-05"@)),
            (
                "serverInfo"@,
                JsonView::Object(
                    seq![
                        ("name"@, JsonView::Text("varda-spawn-broker"@)),
                        ("version"@, JsonView::Text(SERVER_VERSION@)),
                    ],
                ),
            ),
            (
                "capabilities"@,
                JsonView::Object(seq![("tools"@, JsonView::Object(Seq::empty()))]),
            ),
        ],
    )
}

/// The id of a request, null where it has none.
pub open spec fn request_id(request: JsonView) -> JsonView {
    match request.get("id"@) {
        Some(id) => id,
        None => JsonView::Null,
    }
}

/// The method of a request, empty where it has none.
pub open spec fn request_method(request: JsonView) -> Seq<char> {
    match request.str_field("method"@) {
        Some(method) => method,
        None => Seq::empty(),
    }
}

/// The answer to a request to start a sub-task.
fn launch_answer_json(id: &Json, answer: Result<String, crate::broker::BrokerError>) -> (json: Json)
    ensures
        json@ == launch_reply(id@, answer_view(answer)),
{
    match answer {
        Ok(child) => answer_text(id, cat("subtask_id: ", child.as_str()).as_str(), false),
        Err(error) => answer_text(id, error.to_string().as_str(), true),
    }
}

/// The answer to a request to set a status.
fn status_answer_json(id: &Json, task: u64, status: TaskStatus, answer: Result<(), String>) -> (json: Json)
    ensures
        json@ == status_reply(id@, task, status, answer),
{
    match answer {
        Ok(()) => {
            let text = "task '".to_owned().concat(decimal_of(task).as_str()).concat("' set to ").concat(
                status.as_str(),
            );
            answer_text(id, text.as_str(), false)
        },
        Err(text) => answer_text(id, text.as_str(), true),
    }
}

// ---------------------------------------------------------------------------
// Answers after waiting
// ---------------------------------------------------------------------------

/// The answer after waiting for one sub-task: its status, or that the time is up.
pub open spec fn await_one_answer(
    id: JsonView,
    subtask: Seq<char>,
    outcome: Option<TaskStatus>,
    max_wait: u64,
) -> JsonView {
    match outcome {
        Some(status) => tool_answer(id, payload_json(PayloadView::One(status_row(subtask, status))), false),
        None => tool_answer(
            id,
            "await_subtask timed out after "@ + decimal((max_wait / 1000) as nat) + "s waiting for subtask '"@
                + subtask + "' to finish"@,
            true,
        ),
    }
}

/// Answers the request `id` after waiting for one sub-task, at most `max_wait`
/// milliseconds.
pub fn finish_await_subtask(id: &Json, subtask_id: &str, outcome: Option<TaskStatus>, max_wait: u64) -> (json: Json)
    ensures
        json@ == await_one_answer(id@, subtask_id@, outcome, max_wait),
{
    match outcome {
        Some(status) => {
            let text = payload_text(Payload::One(status_fields(subtask_id, status)));
            answer_text(id, text.as_str(), false)
        },
        None => {
            let text = "await_subtask timed out after ".to_owned().concat(decimal_of(max_wait / 1000).as_str()).concat(
                "s waiting for subtask '",
            ).concat(subtask_id).concat("' to finish");
            answer_text(id, text.as_str(), true)
        },
    }
}

/// The answer after waiting for a wave: all statuses, or that the time is up.
pub open spec fn await_all_answer(
    id: JsonView,
    outcome: Option<Seq<(Seq<char>, TaskStatus)>>,
    max_wait: u64,
) -> JsonView {
    match outcome {
        Some(settled) => tool_answer(id, payload_json(PayloadView::Many(status_rows(settled))), false),
        None => tool_answer(
            id,
            "await_subtasks timed out after "@ + decimal((max_wait / 1000) as nat)
                + "s; not all subtasks reached a terminal status"@,
            true,
        ),
    }
}

/// The pairs of an optional wave without their storage.
pub open spec fn optional_pairs(outcome: Option<&Vec<(String, TaskStatus)>>) -> Option<Seq<(Seq<char>, TaskStatus)>> {
    match outcome {
        Some(settled) => Some(pairs_view(settled@)),
        None => None,
    }
}

/// Answers the request `id` after waiting for a wave, at most `max_wait`
/// milliseconds.
pub fn finish_await_subtasks(id: &Json, outcome: Option<&Vec<(String, TaskStatus)>>, max_wait: u64) -> (json: Json)
    ensures
        json@ == await_all_answer(id@, optional_pairs(outcome), max_wait),
{
    match outcome {
        Some(settled) => {
            let text = payload_text(wave_payload(settled));
            answer_text(id, text.as_str(), false)
        },
        None => {
            let text = "await_subtasks timed out after ".to_owned().concat(decimal_of(max_wait / 1000).as_str()).concat(
                "s; not all subtasks reached a terminal status",
            );
            answer_text(id, text.as_str(), true)
        },
    }
}

/// The answer after merging a wave: the report, or why merging failed.
pub open spec fn integration_answer(id: JsonView, outcome: Result<PayloadView, Seq<char>>) -> JsonView {
    match outcome {
        Ok(report) => tool_answer(id, payload_json(report), false),
        Err(reason) => tool_answer(id, "integrate_subtasks failed: "@ + reason, true),
    }
}

/// Answers the request `id` after merging a wave.
pub fn finish_integration(id: &Json, outcome: Result<Payload, &str>) -> (json: Json)
    ensures
        json@ == integration_answer(
            id@,
            match outcome {
                Ok(report) => Ok(report.deep_view()),
                Err(reason) => Err(reason@),
            },
        ),
{
    match outcome {
        Ok(report) => {
            let text = payload_text(report);
            answer_text(id, text.as_str(), false)
        },
        Err(reason) => answer_text(id, cat("integrate_subtasks failed: ", reason).as_str(), true),
    }
}

// ---------------------------------------------------------------------------
// Laws
// ---------------------------------------------------------------------------

/// Whether `json` answers the request `id` with `text`, as an error where `is_error`.
pub open spec fn answers_with(json: JsonView, id: JsonView, text: Seq<char>, is_error: bool) -> bool {
    &&& json is Object
    &&& json->Object_0.len() == 3
    &&& json->Object_0[0] == ("jsonrpc"@, JsonView::Text("2.0"@))
    &&& json->Object_0[1] == ("id"@, id)
    &&& json->Object_0[2].0 == "result"@
    &&& {
        let result = json->Object_0[2].1;
        &&& result is Object
        &&& result->Object_0.len() == 2
        &&& result->Object_0[0].0 == "content"@
        &&& result->Object_0[0].1 is Array
        &&& result->Object_0[0].1->Array_0.len() == 1
        &&& result->Object_0[0].1->Array_0[0] is Object
        &&& result->Object_0[0].1->Array_0[0]->Object_0.len() == 2
        &&& result->Object_0[0].1->Array_0[0]->Object_0[1] == ("text"@, JsonView::Text(text))
        &&& result->Object_0[1] == ("isError"@, JsonView::Bool(is_error))
    }
}

/// Whether `json` tells the request `id` that it is at fault.
pub open spec fn finds_fault(json: JsonView, id: JsonView, code: int, message: Seq<char>) -> bool {
    &&& json is Object
    &&& json->Object_0.len() == 3
    &&& json->Object_0[0] == ("jsonrpc"@, JsonView::Text("2.0"@))
    &&& json->Object_0[1] == ("id"@, id)
    &&& json->Object_0[2].0 == "error"@
    &&& json->Object_0[2].1 is Object
    &&& json->Object_0[2].1->Object_0.len() == 2
    &&& json->Object_0[2].1->Object_0[0].0 == "code"@
    &&& json->Object_0[2].1->Object_0[0].1 is Int
    &&& json->Object_0[2].1->Object_0[0].1->Int_0 == code
    &&& json->Object_0[2].1->Object_0[1] == ("message"@, JsonView::Text(message))
}

/// A tool answers in words, and says whether they report an error.
proof fn lemma_tool_answer(id: JsonView, text: Seq<char>, is_error: bool)
    ensures
        answers_with(tool_answer(id, text, is_error), id, text, is_error),
{
}

proof fn lemma_rpc_error(id: JsonView, code: i64, message: Seq<char>)
    ensures
        finds_fault(rpc_error_view(id, code, message), id, code as int, message),
{
}

/// Which arguments are texts is told by their kind, and empty ones count as none; a list is
/// read for the texts in it, in order.
pub proof fn law_arguments_are_read_by_key(args: &Json, key: &str, text: Option<String>)
    requires
        call_ensures(str_arg, (args, key), text),
    ensures
        text matches Some(text) ==> text@.len() > 0 && args@.get(key@) == Some(JsonView::Text(text@)),
        text is None ==> !(args@.get(key@) matches Some(JsonView::Text(found)) && found.len() > 0),
{
}

/// The texts of a list argument are those items that are texts, in order.
pub proof fn law_lists_are_read_for_their_texts(items: Seq<JsonView>)
    ensures
        selection(
            Seq::new(items.len(), |i: int| items[i]->Text_0),
            |i: int| items[i] is Text,
            texts_among(items),
        ),
    decreases items.len(),
{
    let keep = |i: int| items[i] is Text;
    lemma_texts_among(items, keep);
}

proof fn lemma_texts_among(items: Seq<JsonView>, keep: spec_fn(int) -> bool)
    requires
        forall|i: int| 0 <= i < items.len() ==> #[trigger] keep(i) == (items[i] is Text),
    ensures
        selection(Seq::new(items.len(), |i: int| items[i]->Text_0), keep, texts_among(items)),
    decreases items.len(),
{
    let texts = Seq::new(items.len(), |i: int| items[i]->Text_0);
    if items.len() == 0 {
        lemma_selection_empty::<Seq<char>>(keep);
        assert(texts =~= Seq::empty());
    } else {
        let front = items.drop_last();
        lemma_texts_among(front, keep);
        assert(texts.drop_last() =~= Seq::new(front.len(), |i: int| front[i]->Text_0));
        lemma_selection_push(texts, keep, texts_among(front));
        assert(keep(items.len() - 1) == (items[items.len() - 1] is Text));
    }
}

/// The tool that is called is told by its name, and what is asked of it by the arguments that
/// it takes. A call that lacks one is at fault, with the code for that, and so is a call
/// without parameters; a tool that is not known has a code of its own.
pub proof fn law_tools_are_called_by_name(params: Option<&Json>, call: ToolCall)
    requires
        call_ensures(parse_tool_call, (params,), call),
    ensures
        params is None ==> call@ is Faulty && call@->Faulty_0 == -32602,
        params matches Some(params) ==> {
            let name = if params@.str_field("name"@) is Some {
                params@.str_field("name"@)->0
            } else {
                Seq::<char>::empty()
            };
            let args = if params@.get("arguments"@) is Some {
                params@.get("arguments"@)->0
            } else {
                JsonView::Object(Seq::empty())
            };
            let subtask = args.str_field("subtask_id"@);
            &&& name == "spawn_subtask"@ ==> match args.str_field("brief"@) {
                Some(brief) => call@ is Spawn && call@->Spawn_0.brief == brief && !call@->Spawn_0.approved
                    && call@->Spawn_0.route == text_argument(args, "route"@) && call@->Spawn_0.agent == text_argument(
                    args,
                    "agent"@,
                ) && call@->Spawn_0.sandbox == text_argument(args, "sandbox"@),
                None => call@ is Faulty && call@->Faulty_0 == -32602,
            }
            &&& name == "run_subtask"@ ==> match args.str_field("task_id"@) {
                Some(task) => call@ == ToolCallView::Run(task),
                None => call@ is Faulty && call@->Faulty_0 == -32602,
            }
            &&& name == "await_subtask"@ ==> match subtask {
                Some(subtask) => call@ == ToolCallView::AwaitOne(subtask),
                None => call@ is Faulty && call@->Faulty_0 == -32602,
            }
            &&& name == "subtask_result"@ ==> match subtask {
                Some(subtask) => call@ == ToolCallView::Outcome(subtask),
                None => call@ is Faulty && call@->Faulty_0 == -32602,
            }
            &&& name == "subtask_diff"@ ==> match subtask {
                Some(subtask) => call@ == ToolCallView::Diff(subtask),
                None => call@ is Faulty && call@->Faulty_0 == -32602,
            }
        },
{
    lemma_tool_names();
}

/// Of the tools for waves a list of sub-tasks is asked that is not empty; of those for the
/// board the number of a task, and the word for a status that there is. A tool that is not
/// known has a code of its own.
pub proof fn law_tools_for_waves_and_the_board(params: &Json, call: ToolCall)
    requires
        call_ensures(parse_tool_call, (Some(params),), call),
    ensures
        ({
            let name = if params@.str_field("name"@) is Some {
                params@.str_field("name"@)->0
            } else {
                Seq::<char>::empty()
            };
            let args = if params@.get("arguments"@) is Some {
                params@.get("arguments"@)->0
            } else {
                JsonView::Object(Seq::empty())
            };
            let wave = if args.get("subtask_ids"@) is Some && args.get("subtask_ids"@)->0 is Array {
                texts_among(args.get("subtask_ids"@)->0->Array_0)
            } else {
                Seq::<Seq<char>>::empty()
            };
            let number = if args.get("id"@) is Some && args.get("id"@)->0 is UInt {
                Some(args.get("id"@)->0->UInt_0)
            } else {
                None
            };
            &&& name == "await_subtasks"@ && wave.len() > 0 ==> call@ == ToolCallView::AwaitAll(wave)
            &&& name == "integrate_subtasks"@ && wave.len() > 0 ==> call@ == ToolCallView::Integrate(wave)
            &&& (name == "await_subtasks"@ || name == "integrate_subtasks"@) && wave.len() == 0 ==> call@ is Faulty
                && call@->Faulty_0 == -32602
            &&& name == "get_task"@ && number is Some ==> call@ == ToolCallView::GetTask(number->0)
            &&& (name == "get_task"@ || name == "set_task_status"@) && number is None ==> call@ is Faulty
                && call@->Faulty_0 == -32602
            &&& name == "set_task_status"@ && number is Some ==> match args.str_field("status"@) {
                None => call@ is Faulty && call@->Faulty_0 == -32602,
                Some(word) => match TaskStatus::from_word(word) {
                    Some(status) => call@ == ToolCallView::SetStatus(number->0, status),
                    None => call@ is Declined,
                },
            }
            &&& name == "list_tasks"@ ==> match text_argument(args, "status"@) {
                None => call@ == ToolCallView::ListTasks(None),
                Some(word) => match TaskStatus::from_word(word) {
                    Some(status) => call@ == ToolCallView::ListTasks(Some(status)),
                    None => call@ is Declined,
                },
            }
            &&& call@ is Faulty && call@->Faulty_0 == -32601 ==> name != "spawn_subtask"@ && name != "run_subtask"@ && name
                != "await_subtask"@ && name != "await_subtasks"@ && name != "subtask_result"@ && name
                != "subtask_diff"@ && name != "integrate_subtasks"@ && name != "list_tasks"@ && name != "get_task"@
                && name != "set_task_status"@
        }),
{
    lemma_tool_names();
}

/// The names of the tools are told apart by their lengths, or else by how they begin.
proof fn lemma_tool_names()
    ensures
        SPAWN_SUBTASK_TOOL@.len() == 13 && SPAWN_SUBTASK_TOOL@[0] == 's',
        RUN_SUBTASK_TOOL@.len() == 11,
        AWAIT_SUBTASK_TOOL@.len() == 13 && AWAIT_SUBTASK_TOOL@[0] == 'a',
        AWAIT_SUBTASKS_TOOL@.len() == 14 && AWAIT_SUBTASKS_TOOL@[0] == 'a',
        SUBTASK_RESULT_TOOL@.len() == 14 && SUBTASK_RESULT_TOOL@[0] == 's',
        SUBTASK_DIFF_TOOL@.len() == 12,
        INTEGRATE_SUBTASKS_TOOL@.len() == 18,
        LIST_TASKS_TOOL@.len() == 10,
        GET_TASK_TOOL@.len() == 8,
        SET_TASK_STATUS_TOOL@.len() == 15,
{
    reveal_strlit("spawn_subtask");
    reveal_strlit("run_subtask");
    reveal_strlit("await_subtask");
    reveal_strlit("await_subtasks");
    reveal_strlit("subtask_result");
    reveal_strlit("subtask_diff");
    reveal_strlit("integrate_subtasks");
    reveal_strlit("list_tasks");
    reveal_strlit("get_task");
    reveal_strlit("set_task_status");
}

/// Whatever is asked for, the answer carries the id of the request, and where there is no
/// answer yet, the id is kept for it.
pub proof fn law_answers_carry_the_id_of_their_request<
    L: SubtaskLauncher,
    R: SubtaskResults,
    C: TaskControlPlane,
>(
    broker: &SpawnBroker<L, R, C>,
    tree: TreeView,
    parent: Seq<char>,
    request: JsonView,
    step: &RpcStep,
    after: TreeView,
)
    requires
        broker.serves(tree, parent, request, step, after),
    ensures
        ({
            let id = if request.get("id"@) is Some {
                request.get("id"@)->0
            } else {
                JsonView::Null
            };
            match step {
                RpcStep::Reply(json) => json@ is Object && json@->Object_0.len() == 3 && json@->Object_0[1] == ("id"@, id),
                RpcStep::AwaitOne { id: kept, .. } => kept@ == id,
                RpcStep::AwaitAll { id: kept, .. } => kept@ == id,
                RpcStep::Integrate { id: kept, .. } => kept@ == id,
            }
        }),
{
}

/// A method that is not known is told so, and only a call of a tool changes the tree of
/// tasks.
pub proof fn law_methods_are_told_apart<L: SubtaskLauncher, R: SubtaskResults, C: TaskControlPlane>(
    broker: &SpawnBroker<L, R, C>,
    tree: TreeView,
    parent: Seq<char>,
    request: JsonView,
    step: &RpcStep,
    after: TreeView,
)
    requires
        broker.serves(tree, parent, request, step, after),
    ensures
        ({
            let method = request.str_field("method"@);
            &&& method != Some("tools/call"@) ==> after == tree && step is Reply
            &&& method != Some("initialize"@) && method != Some("tools/list"@) && method != Some("tools/call"@)
                ==> step is Reply && finds_fault(
                step->Reply_0@,
                request_id(request),
                -32601,
                "method not found: "@ + request_method(request),
            )
            &&& method == Some("tools/list"@) ==> step is Reply && step->Reply_0@->Object_0[2] == (
                "result"@,
                manifest_view(),
            )
        }),
{
    reveal_strlit("tools/call");
    reveal_strlit("initialize");
    reveal_strlit("tools/list");
    let method = request_method(request);
    lemma_rpc_error(request_id(request), METHOD_NOT_FOUND, "method not found: "@ + method);
    assert("tools/call"@[6] == 'c');
    assert("tools/list"@[6] == 'l');
    assert("initialize"@[0] == 'i');
    assert("tools/list"@[0] == 't');
}

/// A sub-task that was started is named in the answer, which reports no error; where none was
/// started, the answer reports an error and says why.
pub proof fn law_starting_a_subtask_is_answered(id: JsonView, answer: Result<Seq<char>, BrokerErrorView>)
    ensures
        match answer {
            Ok(child) => answers_with(launch_reply(id, answer), id, "subtask_id: "@ + child, false),
            Err(error) => answers_with(launch_reply(id, answer), id, error.text(), true),
        },
{
    lemma_tool_answer(id, "subtask_id: "@ + answer->Ok_0, false);
    lemma_tool_answer(id, answer->Err_0.text(), true);
}

/// After a wait the answer is the status that was waited for, or reports, as an error, after
/// how many seconds the wait was given up, and for whom.
pub proof fn law_waiting_is_answered(
    id: &Json,
    subtask_id: &str,
    outcome: Option<TaskStatus>,
    max_wait: u64,
    json: Json,
)
    requires
        call_ensures(finish_await_subtask, (id, subtask_id, outcome, max_wait), json),
    ensures
        outcome matches Some(status) ==> answers_with(
            json@,
            id@,
            payload_json(
                PayloadView::One(
                    seq![
                        ("subtask_id"@, FieldView::Text(subtask_id@)),
                        ("status"@, FieldView::Text(status.word())),
                    ],
                ),
            ),
            false,
        ),
        outcome is None ==> exists|text: Seq<char>| #[trigger]
            answers_with(json@, id@, text, true) && holds_in_order(
                text,
                seq![decimal((max_wait / 1000) as nat), subtask_id@],
            ),
{
    match outcome {
        Some(status) => {
            lemma_tool_answer(id@, payload_json(PayloadView::One(status_row(subtask_id@, status))), false);
        },
        None => {
            let seconds = decimal((max_wait / 1000) as nat);
            let text = "await_subtask timed out after "@ + seconds + "s waiting for subtask '"@ + subtask_id@
                + "' to finish"@;
            lemma_two_in_order(
                "await_subtask timed out after "@,
                seconds,
                "s waiting for subtask '"@,
                subtask_id@,
                "' to finish"@,
            );
            lemma_tool_answer(id@, text, true);
            assert(answers_with(json@, id@, text, true));
        },
    }
}

/// After a wait for a wave the answer is the status of each of its sub-tasks, in order, or
/// reports, as an error, after how many seconds the wait was given up.
pub proof fn law_waiting_for_a_wave_is_answered(
    id: &Json,
    outcome: Option<&Vec<(String, TaskStatus)>>,
    max_wait: u64,
    json: Json,
)
    requires
        call_ensures(finish_await_subtasks, (id, outcome, max_wait), json),
    ensures
        outcome matches Some(settled) ==> exists|rows: Seq<Seq<(Seq<char>, FieldView)>>| #[trigger]
            answers_with(json@, id@, payload_json(PayloadView::Many(rows)), false) && rows.len() == settled@.len()
                && forall|i: int|
                0 <= i < rows.len() ==> (#[trigger] rows[i]) == seq![
                    ("subtask_id"@, FieldView::Text(settled@[i].0@)),
                    ("status"@, FieldView::Text(settled@[i].1.word())),
                ],
        outcome is None ==> exists|text: Seq<char>| #[trigger]
            answers_with(json@, id@, text, true) && holds(text, decimal((max_wait / 1000) as nat)),
{
    match outcome {
        Some(settled) => {
            let rows = status_rows(pairs_view(settled@));
            lemma_tool_answer(id@, payload_json(PayloadView::Many(rows)), false);
            assert(answers_with(json@, id@, payload_json(PayloadView::Many(rows)), false));
        },
        None => {
            let seconds = decimal((max_wait / 1000) as nat);
            let tail = "s; not all subtasks reached a terminal status"@;
            let text = "await_subtasks timed out after "@ + seconds + tail;
            lemma_holds_within("await_subtasks timed out after "@, seconds, tail);
            lemma_tool_answer(id@, text, true);
            assert(answers_with(json@, id@, text, true));
        },
    }
}

/// After merging the answer is the report, or, as an error, why merging failed.
pub proof fn law_merging_is_answered(id: &Json, outcome: Result<Payload, &str>, json: Json)
    requires
        call_ensures(finish_integration, (id, outcome), json),
    ensures
        outcome matches Ok(report) ==> answers_with(json@, id@, payload_json(report.deep_view()), false),
        outcome matches Err(reason) ==> exists|text: Seq<char>| #[trigger]
            answers_with(json@, id@, text, true) && holds(text, reason@),
{
    match outcome {
        Ok(report) => {
            lemma_tool_answer(id@, payload_json(report.deep_view()), false);
        },
        Err(reason) => {
            let text = "integrate_subtasks failed: "@ + reason@;
            lemma_holds_within("integrate_subtasks failed: "@, reason@, Seq::empty());
            assert(text + Seq::<char>::empty() =~= text);
            lemma_tool_answer(id@, text, true);
            assert(answers_with(json@, id@, text, true));
        },
    }
}

/// A status that was set is confirmed by the number of the task and the word for the status;
/// one that was not is answered, as an error, with the board's own words.
pub proof fn law_setting_a_status_is_answered(id: JsonView, task: u64, status: TaskStatus, answer: Result<(), String>)
    ensures
        match answer {
            Ok(()) => exists|text: Seq<char>| #[trigger]
                answers_with(status_reply(id, task, status, answer), id, text, false) && holds_in_order(
                    text,
                    seq![decimal(task as nat), status.word()],
                ),
            Err(reason) => answers_with(status_reply(id, task, status, answer), id, reason@, true),
        },
{
    let text = status_set_text(task, status);
    lemma_two_in_order("task '"@, decimal(task as nat), "' set to "@, status.word(), Seq::empty());
    assert(text + Seq::<char>::empty() =~= text);
    match answer {
        Ok(()) => {
            lemma_tool_answer(id, text, false);
            assert(answers_with(status_reply(id, task, status, answer), id, text, false));
        },
        Err(reason) => {
            lemma_tool_answer(id, reason@, true);
        },
    }
}

/// A call that is at fault is told so, one that is declined is answered with the reason, as an
/// error. Waiting is for the sub-tasks that are named, where results can be read; merging is for
/// those that are named, where there is a checkout to merge onto; and the board is asked where
/// there is one. What cannot be had is answered as an error. Only starting a sub-task changes
/// the tree.
pub proof fn law_calls_are_carried_out<L: SubtaskLauncher, R: SubtaskResults, C: TaskControlPlane>(
    broker: &SpawnBroker<L, R, C>,
    tree: TreeView,
    parent: Seq<char>,
    id: JsonView,
    call: ToolCallView,
    step: &RpcStep,
    after: TreeView,
)
    requires
        broker.carries_out(tree, parent, id, call, step, after),
    ensures
        !(call is Spawn || call is Run) ==> after == tree,
        match call {
            ToolCallView::Faulty(code, text) => step is Reply && finds_fault(step->Reply_0@, id, code as int, text),
            ToolCallView::Declined(text) => step is Reply && answers_with(step->Reply_0@, id, text, true),
            ToolCallView::AwaitOne(subtask) => (step is AwaitOne && step->subtask_id@ == subtask) || (step is Reply
                && answers_with(step->Reply_0@, id, RESULTS_UNAVAILABLE@, true)),
            ToolCallView::AwaitAll(subtasks) => (step is AwaitAll && step->AwaitAll_subtask_ids.deep_view() == subtasks)
                || (step is Reply && answers_with(step->Reply_0@, id, RESULTS_UNAVAILABLE@, true)),
            ToolCallView::Integrate(subtasks) => if broker.integration_worktree is Some {
                step is Integrate && step->Integrate_subtask_ids.deep_view() == subtasks
            } else {
                step is Reply && answers_with(step->Reply_0@, id, RESULTS_UNAVAILABLE@, true)
            },
            ToolCallView::GetTask(_) => step is Reply && (broker.task_control_plane_project is None ==> answers_with(
                step->Reply_0@,
                id,
                RESULTS_UNAVAILABLE@,
                true,
            )),
            _ => step is Reply,
        },
{
    match call {
        ToolCallView::Faulty(code, text) => {
            lemma_rpc_error(id, code, text);
        },
        ToolCallView::Declined(text) => {
            lemma_tool_answer(id, text, true);
        },
        _ => {
            lemma_tool_answer(id, RESULTS_UNAVAILABLE@, true);
        },
    }
}

} // verus!
