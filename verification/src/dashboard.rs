//! The board of tasks, in the terminal and in the browser.

use vstd::prelude::*;
use vstd::string::*;
use vstd::utf8::{decode_utf8, encode_utf8, valid_utf8};

use crate::order::{ascending, comes_before, lemma_before_total, lemma_before_transitive};
use crate::paths::{file_name, last_name};
use crate::plan_document::{id_label, shown_id};
use crate::task::{copy_text, TaskDocument, TaskFrontmatter, TaskStatus, TaskSummary};
use crate::text::{
    begins, chars_of, decimal, decimal_of, first_of, holds_in_order, lemma_first_of_bounds, lemma_four_in_order,
    lemma_in_order_empty, lemma_in_order_joined, lemma_in_order_push, lemma_two_in_order, lines, lines_of, position,
    replace, replaced, same, split, split_on, string_of, words, words_of,
};

verus! {

// ---------------------------------------------------------------------------
// Query parameters
// ---------------------------------------------------------------------------

/// The value of a hexadecimal digit.
pub open spec fn hex(byte: u8) -> Option<u8> {
    if 0x30 <= byte <= 0x39 {
        Some((byte - 0x30) as u8)
    } else if 0x61 <= byte <= 0x66 {
        Some((byte - 0x61 + 10) as u8)
    } else if 0x41 <= byte <= 0x46 {
        Some((byte - 0x41 + 10) as u8)
    } else {
        None
    }
}

/// The value of a hexadecimal digit.
pub fn hex_value(byte: u8) -> (value: Option<u8>)
    ensures
        value == hex(byte),
{
    if 0x30 <= byte && byte <= 0x39 {
        Some(byte - 0x30)
    } else if 0x61 <= byte && byte <= 0x66 {
        Some(byte - 0x61 + 10)
    } else if 0x41 <= byte && byte <= 0x46 {
        Some(byte - 0x41 + 10)
    } else {
        None
    }
}

/// Whether bytes begin with a percent sign and two hexadecimal digits.
pub open spec fn escaped(bytes: Seq<u8>) -> bool {
    bytes.len() > 2 && bytes[0] == 0x25 && hex(bytes[1]) is Some && hex(bytes[2]) is Some
}

/// Bytes in which every percent sign with two hexadecimal digits stands for the byte
/// that the digits name.
pub open spec fn unescaped(bytes: Seq<u8>) -> Seq<u8>
    decreases bytes.len(),
{
    if bytes.len() == 0 {
        Seq::empty()
    } else if escaped(bytes) {
        seq![(hex(bytes[1])->0 * 16 + hex(bytes[2])->0) as u8] + unescaped(bytes.skip(3))
    } else {
        seq![bytes[0]] + unescaped(bytes.skip(1))
    }
}

/// Bytes without a percent sign stand for themselves.
pub proof fn law_plain_bytes_stay(bytes: Seq<u8>)
    requires
        forall|i: int| 0 <= i < bytes.len() ==> #[trigger] bytes[i] != 0x25,
    ensures
        unescaped(bytes) == bytes,
    decreases bytes.len(),
{
    if bytes.len() > 0 {
        law_plain_bytes_stay(bytes.skip(1));
        assert(bytes =~= seq![bytes[0]] + bytes.skip(1));
    } else {
        assert(unescaped(bytes) =~= bytes);
    }
}

/// The text that `String::from_utf8_lossy` reads from bytes.
pub uninterp spec fn lossy_text(bytes: Seq<u8>) -> Seq<char>;

/// `String::from_utf8_lossy` reads bytes as UTF-8 and puts a replacement character for
/// what is not. Bytes that are valid are read as they are.
#[verifier::external_body]
fn from_utf8_lossy(bytes: &Vec<u8>) -> (text: String)
    ensures
        text@ == lossy_text(bytes@),
        valid_utf8(bytes@) ==> text@ == decode_utf8(bytes@),
{
    String::from_utf8_lossy(bytes).into_owned()
}

/// The bytes that percent signs stand for, read as text.
pub fn percent_decode(input: &[u8]) -> (text: String)
    ensures
        text@ == lossy_text(unescaped(input@)),
        valid_utf8(unescaped(input@)) ==> text@ == decode_utf8(unescaped(input@)),
{
    from_utf8_lossy(&unescape(input))
}

/// The bytes that percent signs stand for.
pub fn unescape(input: &[u8]) -> (output: Vec<u8>)
    ensures
        output@ == unescaped(input@),
{
    let mut output: Vec<u8> = Vec::new();
    let size: usize = input.len();
    let mut i: usize = 0;
    assert(input@.skip(0) =~= input@);
    assert(unescaped(input@) =~= output@ + unescaped(input@.skip(0)));
    while i < size
        invariant
            size == input@.len(),
            i <= size,
            unescaped(input@) == output@ + unescaped(input@.skip(i as int)),
        decreases size - i,
    {
        let ghost rest = input@.skip(i as int);
        let ghost before = output@;
        assert(rest[0] == input@[i as int]);
        if input[i] == 0x25 && size - i > 2 {
            assert(rest[1] == input@[i + 1]);
            assert(rest[2] == input@[i + 2]);
            if let (Some(high), Some(low)) = (hex_value(input[i + 1]), hex_value(input[i + 2])) {
                output.push(high * 16 + low);
                assert(rest.skip(3) =~= input@.skip(i + 3));
                assert(before + (seq![(high * 16 + low) as u8] + unescaped(rest.skip(3))) =~= output@ + unescaped(
                    rest.skip(3),
                ));
                i += 3;
                continue ;
            }
        }
        output.push(input[i]);
        assert(rest.skip(1) =~= input@.skip(i + 1));
        assert(before + (seq![rest[0]] + unescaped(rest.skip(1))) =~= output@ + unescaped(rest.skip(1)));
        i += 1;
    }
    assert(unescaped(input@.skip(i as int)) =~= Seq::empty());
    assert(output@ =~= output@ + unescaped(input@.skip(i as int)));
    output
}

/// What stands before the first `c` in `text`, and what stands after it, where there
/// is one.
pub open spec fn parted(text: Seq<char>, c: char) -> Option<(Seq<char>, Seq<char>)> {
    let at = first_of(text, c);
    if at < text.len() {
        Some((text.take(at), text.skip(at + 1)))
    } else {
        None
    }
}

/// What stands before the first `c` in `text`, and what stands after it.
pub fn part_at(text: &str, c: char) -> (parts: Option<(String, String)>)
    ensures
        match parts {
            Some((before, after)) => parted(text@, c) == Some((before@, after@)),
            None => parted(text@, c) is None,
        },
{
    let chars = chars_of(text);
    assert(chars@.skip(0) =~= chars@);
    let at = position(&chars, c, 0);
    if at < chars.len() {
        let before = string_of(&chars, 0, at);
        let after = string_of(&chars, at + 1, chars.len());
        assert(before@ =~= chars@.take(at as int));
        assert(after@ =~= chars@.skip(at + 1));
        Some((before, after))
    } else {
        None
    }
}

/// The key and the value of a pair in a query. A pair without an equals sign has an
/// empty value.
pub open spec fn key_and_value(pair: Seq<char>) -> (Seq<char>, Seq<char>) {
    match parted(pair, '=') {
        Some(parts) => parts,
        None => (pair, Seq::empty()),
    }
}

/// The bytes of the first of `pairs` under `name`, in which plus signs stand for
/// spaces.
pub open spec fn first_pair(pairs: Seq<Seq<char>>, name: Seq<char>) -> Option<Seq<u8>>
    decreases pairs.len(),
{
    if pairs.len() == 0 {
        None
    } else if key_and_value(pairs[0]).0 == name {
        Some(unescaped(encode_utf8(replace(key_and_value(pairs[0]).1, "+"@, " "@))))
    } else {
        first_pair(pairs.drop_first(), name)
    }
}

/// The bytes of the parameter `name` of a request's target, where it has it.
pub open spec fn parameter(target: Seq<char>, name: Seq<char>) -> Option<Seq<u8>> {
    match parted(target, '?') {
        Some((_, query)) => first_pair(split(query, '&'), name),
        None => None,
    }
}

/// The parameter `name` of a request's target, where it has it.
pub fn query_param(target: &str, name: &str) -> (value: Option<String>)
    ensures
        value.deep_view() == (match parameter(target@, name@) {
            Some(bytes) => Some(lossy_text(bytes)),
            None => None,
        }),
        value is Some && valid_utf8(parameter(target@, name@)->0) ==> value->0@ == decode_utf8(
            parameter(target@, name@)->0,
        ),
{
    let query = match part_at(target, '?') {
        Some((_, query)) => query,
        None => {
            return None;
        },
    };
    let pairs = split_on(query.as_str(), '&');
    let ghost all = pairs.deep_view();
    let mut i: usize = 0;
    assert(all.skip(0) =~= all);
    while i < pairs.len()
        invariant
            all == pairs.deep_view(),
            parameter(target@, name@) == first_pair(all, name@),
            i <= pairs@.len(),
            first_pair(all, name@) == first_pair(all.skip(i as int), name@),
        decreases pairs@.len() - i,
    {
        assert(all.skip(i as int)[0] == pairs@[i as int]@);
        assert(all.skip(i as int).drop_first() =~= all.skip(i + 1));
        let (key, value) = match part_at(pairs[i].as_str(), '=') {
            Some((key, value)) => (key, value),
            None => (pairs[i].clone(), String::new()),
        };
        assert((key@, value@) == key_and_value(pairs@[i as int]@));
        if same(key.as_str(), name) {
            proof {
                reveal_strlit("+");
            }
            let plain = replaced(value.as_str(), "+", " ");
            return Some(percent_decode(plain.as_str().as_bytes()));
        }
        i += 1;
    }
    None
}

// ---------------------------------------------------------------------------
// Requests
// ---------------------------------------------------------------------------

/// What a browser asks for.
#[derive(Debug, PartialEq, Eq)]
pub enum DashboardRequest {
    Page,
    Tasks,
    /// The task at this path.
    Detail(String),
    /// A task, without a path.
    DetailOfNothing,
    /// To change a status, as this body says.
    SetStatus(String),
    Health,
    Unknown,
}

/// What a [`DashboardRequest`] says.
pub enum DashboardRequestView {
    Page,
    Tasks,
    Detail(Seq<char>),
    DetailOfNothing,
    SetStatus(Seq<char>),
    Health,
    Unknown,
}

impl View for DashboardRequest {
    type V = DashboardRequestView;

    open spec fn view(&self) -> DashboardRequestView {
        match *self {
            DashboardRequest::Page => DashboardRequestView::Page,
            DashboardRequest::Tasks => DashboardRequestView::Tasks,
            DashboardRequest::Detail(path) => DashboardRequestView::Detail(path@),
            DashboardRequest::DetailOfNothing => DashboardRequestView::DetailOfNothing,
            DashboardRequest::SetStatus(body) => DashboardRequestView::SetStatus(body@),
            DashboardRequest::Health => DashboardRequestView::Health,
            DashboardRequest::Unknown => DashboardRequestView::Unknown,
        }
    }
}

/// The first line of a request.
pub open spec fn request_line(request: Seq<char>) -> Seq<char> {
    if lines(request).len() > 0 {
        lines(request)[0]
    } else {
        Seq::empty()
    }
}

/// The method of a request.
pub open spec fn method_of(request: Seq<char>) -> Seq<char> {
    if words(request_line(request)).len() > 0 {
        words(request_line(request))[0]
    } else {
        Seq::empty()
    }
}

/// The target of a request.
pub open spec fn target_of(request: Seq<char>) -> Seq<char> {
    if words(request_line(request)).len() > 1 {
        words(request_line(request))[1]
    } else {
        "/"@
    }
}

/// The path of a target, without its query.
pub open spec fn path_of(target: Seq<char>) -> Seq<char> {
    match parted(target, '?') {
        Some((path, _)) => path,
        None => target,
    }
}

/// The position of the first empty line of a request, or the length of the request.
pub open spec fn head_end(request: Seq<char>) -> int
    decreases request.len(),
{
    if request.len() == 0 || crate::text::begins(request, "\r\n\r\n"@) {
        0
    } else {
        1 + head_end(request.drop_first())
    }
}

/// The body of a request: what follows its first empty line.
pub open spec fn body_of(request: Seq<char>) -> Seq<char> {
    if head_end(request) < request.len() {
        request.skip(head_end(request) + 4)
    } else {
        Seq::empty()
    }
}

/// What a request asks for.
pub open spec fn asked_for(request: Seq<char>) -> DashboardRequestView {
    let method = method_of(request);
    let target = target_of(request);
    let path = path_of(target);
    if method == "GET"@ && (path == "/"@ || path == "/index.html"@) {
        DashboardRequestView::Page
    } else if method == "GET"@ && path == "/api/tasks"@ {
        DashboardRequestView::Tasks
    } else if method == "GET"@ && path == "/api/tasks/detail"@ {
        match parameter(target, "path"@) {
            Some(bytes) => DashboardRequestView::Detail(lossy_text(bytes)),
            None => DashboardRequestView::DetailOfNothing,
        }
    } else if method == "POST"@ && path == "/api/tasks/status"@ {
        DashboardRequestView::SetStatus(body_of(request))
    } else if method == "GET"@ && path == "/healthz"@ {
        DashboardRequestView::Health
    } else {
        DashboardRequestView::Unknown
    }
}

fn request_body(request: &str) -> (body: String)
    ensures
        body@ == body_of(request@),
{
    let chars = chars_of(request);
    let mark = chars_of("\r\n\r\n");
    proof {
        reveal_strlit("\r\n\r\n");
    }
    let size: usize = chars.len();
    let mut at: usize = 0;
    assert(chars@.skip(0) =~= chars@);
    while at < size
        invariant
            size == chars@.len(),
            mark@ == "\r\n\r\n"@,
            mark@.len() == 4,
            mark@[0] == '\r' && mark@[1] == '\n' && mark@[2] == '\r' && mark@[3] == '\n',
            at <= size,
            head_end(chars@) == at + head_end(chars@.skip(at as int)),
            chars@ == request@,
        decreases size - at,
    {
        let ghost rest = chars@.skip(at as int);
        if size - at >= 4 && chars[at] == '\r' && chars[at + 1] == '\n' && chars[at + 2] == '\r' && chars[at + 3]
            == '\n' {
            assert(rest.subrange(0, 4) =~= mark@);
            let body = string_of(&chars, at + 4, size);
            assert(body@ =~= chars@.skip(at + 4));
            return body;
        }
        assert(!crate::text::begins(rest, mark@)) by {
            if crate::text::begins(rest, mark@) {
                assert(rest.subrange(0, 4)[0] == chars@[at as int]);
                assert(rest.subrange(0, 4)[1] == chars@[at + 1]);
                assert(rest.subrange(0, 4)[2] == chars@[at + 2]);
                assert(rest.subrange(0, 4)[3] == chars@[at + 3]);
            }
        }
        assert(rest.drop_first() =~= chars@.skip(at + 1));
        at += 1;
    }
    String::new()
}

/// Reads what a request asks for.
pub fn read_request(request: &str) -> (asked: DashboardRequest)
    ensures
        asked@ == asked_for(request@),
{
    let all_lines = lines_of(request);
    let line = if all_lines.len() > 0 {
        all_lines[0].clone()
    } else {
        String::new()
    };
    assert(line@ == request_line(request@)) by {
        if all_lines@.len() > 0 {
            assert(all_lines.deep_view()[0] == all_lines@[0]@);
        }
    }
    let parts = words_of(line.as_str());
    let method = if parts.len() > 0 {
        parts[0].clone()
    } else {
        String::new()
    };
    let target = if parts.len() > 1 {
        parts[1].clone()
    } else {
        "/".to_owned()
    };
    assert(method@ == method_of(request@) && target@ == target_of(request@)) by {
        if parts@.len() > 0 {
            assert(parts.deep_view()[0] == parts@[0]@);
        }
        if parts@.len() > 1 {
            assert(parts.deep_view()[1] == parts@[1]@);
        }
    }
    let path = match part_at(target.as_str(), '?') {
        Some((path, _)) => path,
        None => target.clone(),
    };
    let get = same(method.as_str(), "GET");
    let path = path.as_str();
    if get && (same(path, "/") || same(path, "/index.html")) {
        DashboardRequest::Page
    } else if get && same(path, "/api/tasks") {
        DashboardRequest::Tasks
    } else if get && same(path, "/api/tasks/detail") {
        match query_param(target.as_str(), "path") {
            Some(path) => DashboardRequest::Detail(path),
            None => DashboardRequest::DetailOfNothing,
        }
    } else if same(method.as_str(), "POST") && same(path, "/api/tasks/status") {
        DashboardRequest::SetStatus(request_body(request))
    } else if get && same(path, "/healthz") {
        DashboardRequest::Health
    } else {
        DashboardRequest::Unknown
    }
}

/// The report of a request for a task without a path.
pub const MISSING_PATH: &'static str = "missing required query parameter 'path'";

/// The answer to a request.
pub fn http_response(status: &str, content_type: &str, body: &str) -> (response: String)
    ensures
        response@ == "HTTP/1.1 "@ + status@ + "\r\nContent-Type: "@ + content_type@
            + "; charset=utf-8\r\nContent-Length: "@ + decimal(encode_utf8(body@).len() as usize as nat)
            + "\r\nCache-Control: no-store\r\nConnection: close\r\n\r\n"@ + body@,
{
    "HTTP/1.1 ".to_owned().concat(status).concat("\r\nContent-Type: ").concat(content_type).concat(
        "; charset=utf-8\r\nContent-Length: ",
    ).concat(decimal_of(body.len() as u64).as_str()).concat(
        "\r\nCache-Control: no-store\r\nConnection: close\r\n\r\n",
    ).concat(body)
}

// ---------------------------------------------------------------------------
// One task
// ---------------------------------------------------------------------------

/// A recap as the board has it.
#[derive(Debug, PartialEq, Eq)]
pub struct DashboardRecap {
    pub path: String,
    pub markdown: String,
}

/// One task as the board has it.
#[derive(Debug, PartialEq, Eq)]
pub struct DashboardTaskDetail {
    pub path: String,
    pub markdown: String,
    pub recaps: Vec<DashboardRecap>,
}

/// What is shown of a recap: what was read of it, or why it could not be read.
pub open spec fn recap_markdown(path: Seq<char>, reading: Result<String, String>) -> Seq<char> {
    match reading {
        Ok(markdown) => markdown@,
        Err(reason) => "# Recap Unavailable\n\nFailed to read "@ + path + ": "@ + reason@,
    }
}

/// One task as the board has it, `readings` holding what became of reading its recaps.
pub fn task_detail(path: &str, markdown: &str, readings: &Vec<(String, Result<String, String>)>) -> (detail:
    DashboardTaskDetail)
    ensures
        detail.path@ == path@,
        detail.markdown@ == markdown@,
        detail.recaps@.len() == readings@.len(),
        forall|i: int|
            0 <= i < readings@.len() ==> (#[trigger] detail.recaps@[i]).path@ == readings@[i].0@
                && detail.recaps@[i].markdown@ == recap_markdown(readings@[i].0@, readings@[i].1),
{
    let mut recaps: Vec<DashboardRecap> = Vec::new();
    let mut i: usize = 0;
    while i < readings.len()
        invariant
            i <= readings@.len(),
            recaps@.len() == i,
            forall|j: int|
                0 <= j < i ==> (#[trigger] recaps@[j]).path@ == readings@[j].0@ && recaps@[j].markdown@
                    == recap_markdown(readings@[j].0@, readings@[j].1),
        decreases readings@.len() - i,
    {
        let path = readings[i].0.as_str();
        let markdown = match &readings[i].1 {
            Ok(markdown) => markdown.clone(),
            Err(reason) => "# Recap Unavailable\n\nFailed to read ".to_owned().concat(path).concat(": ").concat(
                reason.as_str(),
            ),
        };
        recaps.push(DashboardRecap { path: path.to_owned(), markdown });
        i += 1;
    }
    DashboardTaskDetail { path: path.to_owned(), markdown: markdown.to_owned(), recaps }
}

// ---------------------------------------------------------------------------
// Changing a status
// ---------------------------------------------------------------------------

/// The statuses that a task can be given on the board.
pub open spec fn board_status(status: TaskStatus) -> bool {
    status == TaskStatus::Done || status == TaskStatus::Backlog || status == TaskStatus::Ready
}

/// Decides whether a task can be given a status on the board.
pub fn check_board_status(status: TaskStatus) -> (verdict: Result<(), String>)
    ensures
        match verdict {
            Ok(()) => board_status(status),
            Err(text) => !board_status(status) && text@ == "dashboard status updates do not support status '"@
                + status.word() + "'"@,
        },
{
    match status {
        TaskStatus::Done | TaskStatus::Backlog | TaskStatus::Ready => Ok(()),
        _ => Err("dashboard status updates do not support status '".to_owned().concat(status.as_str()).concat("'")),
    }
}

/// Gives a task a status on the board. Where it has it, nothing is done; a task that
/// is done waits for nobody.
pub fn update_dashboard_task_status(task: &mut TaskDocument, status: TaskStatus) -> (changed: Result<bool, String>)
    ensures
        match changed {
            Err(text) => {
                &&& !board_status(status)
                &&& text@ == "dashboard status updates do not support status '"@ + status.word() + "'"@
                &&& *final(task) == *old(task)
            },
            Ok(changed) => {
                &&& board_status(status)
                &&& changed == (old(task).frontmatter.status != status)
                &&& *final(task) == (if changed {
                    TaskDocument {
                        frontmatter: TaskFrontmatter {
                            status,
                            requires_user: old(task).frontmatter.requires_user && status != TaskStatus::Done,
                            ..old(task).frontmatter
                        },
                        ..*old(task)
                    }
                } else {
                    *old(task)
                })
            },
        },
{
    if let Err(text) = check_board_status(status) {
        return Err(text);
    }
    if task.frontmatter.status == status {
        return Ok(false);
    }
    task.set_status(status);
    if status == TaskStatus::Done {
        task.frontmatter.requires_user = false;
    }
    Ok(true)
}

/// The message of the commit that keeps a status given on the board.
pub fn status_message(task_path: &str, status: TaskStatus) -> (message: String)
    ensures
        message@ == "Mark task "@ + task_path@ + " "@ + status.word(),
{
    "Mark task ".to_owned().concat(task_path).concat(" ").concat(status.as_str())
}

// ---------------------------------------------------------------------------
// The board as data
// ---------------------------------------------------------------------------

/// One task on the board.
#[derive(Debug, PartialEq, Eq)]
pub struct DashboardTask {
    pub id: Option<u64>,
    pub status: &'static str,
    pub project: Option<String>,
    pub assignee: Option<String>,
    pub title: String,
    pub path: String,
    /// When its file was last written, where that is known.
    pub completed_at: Option<u64>,
}

/// The board.
#[derive(Debug, PartialEq, Eq)]
pub struct DashboardPayload {
    pub scope: String,
    pub generated_at: u64,
    pub default_project: Option<String>,
    pub home: Option<String>,
    pub tasks: Vec<DashboardTask>,
    pub projects: Vec<String>,
    pub statuses: Vec<&'static str>,
}

/// Whether `shown` is a task as the board has it.
pub open spec fn shows(summary: TaskSummary, completed_at: Option<u64>, shown: DashboardTask) -> bool {
    &&& shown.id == summary.id
    &&& shown.status@ == summary.status.word()
    &&& shown.project.deep_view() == summary.project.deep_view()
    &&& shown.assignee.deep_view() == summary.assignee.deep_view()
    &&& shown.title@ == summary.title@
    &&& shown.path@ == summary.path@
    &&& shown.completed_at == completed_at
}

/// Whether some task is of `project`.
pub open spec fn some_of(summaries: Seq<TaskSummary>, project: Seq<char>) -> bool {
    exists|i: int| 0 <= i < summaries.len() && (#[trigger] summaries[i]).project.deep_view() == Some(project)
}

/// Whether `projects` lists the projects of `summaries`, each once and in order.
pub open spec fn lists_projects(summaries: Seq<TaskSummary>, projects: Seq<Seq<char>>) -> bool {
    &&& ascending(projects)
    &&& forall|p: Seq<char>| #[trigger] projects.contains(p) <==> some_of(summaries, p)
}

/// The words for the statuses, in the order of the columns.
pub open spec fn column_words() -> Seq<Seq<char>> {
    seq!["backlog"@, "ready"@, "running"@, "needs_user"@, "failed"@, "review"@, "done"@]
}

fn insert_project(projects: &mut Vec<String>, project: &String)
    requires
        ascending(old(projects).deep_view()),
    ensures
        ascending(final(projects).deep_view()),
        forall|p: Seq<char>| #[trigger]
            final(projects).deep_view().contains(p) <==> old(projects).deep_view().contains(p) || p == project@,
{
    let ghost before = projects.deep_view();
    let mut at: usize = 0;
    while at < projects.len() && comes_before(projects[at].as_str(), project.as_str())
        invariant
            before == projects.deep_view(),
            at <= projects@.len(),
            forall|j: int| 0 <= j < at ==> crate::order::before(#[trigger] before[j], project@),
        decreases projects@.len() - at,
    {
        assert(before[at as int] == projects@[at as int]@);
        at += 1;
    }
    if at < projects.len() && same(projects[at].as_str(), project.as_str()) {
        assert(before[at as int] == project@);
        return ;
    }
    projects.insert(at, project.clone());
    proof {
        let after = projects.deep_view();
        assert(after =~= before.insert(at as int, project@));
        assert forall|p: Seq<char>| #[trigger] after.contains(p) <==> before.contains(p) || p == project@ by {
            if after.contains(p) {
                let i = choose|i: int| 0 <= i < after.len() && after[i] == p;
                if i < at {
                    assert(before[i] == p);
                } else if i > at {
                    assert(before[i - 1] == p);
                }
            }
            if before.contains(p) {
                let i = choose|i: int| 0 <= i < before.len() && before[i] == p;
                if i < at {
                    assert(after[i] == p);
                } else {
                    assert(after[i + 1] == p);
                }
            }
            assert(after[at as int] == project@);
        }
        if at < before.len() {
            lemma_before_total(before[at as int], project@);
        }
        assert forall|i: int, j: int| 0 <= i < j < after.len() implies crate::order::before(
            #[trigger] after[i],
            #[trigger] after[j],
        ) by {
            let oi = if i < at { i } else { i - 1 };
            let oj = if j < at { j } else { j - 1 };
            if i == at {
                if oj > at {
                    assert(crate::order::before(before[at as int], before[oj]));
                    lemma_before_transitive(project@, before[at as int], before[oj]);
                }
            } else if j == at {
                assert(crate::order::before(before[i], project@));
            } else {
                assert(crate::order::before(before[oi], before[oj]));
            }
        }
    }
}

/// Whether a payload is the board of `summaries`.
pub open spec fn board_of(
    scope: Seq<char>,
    generated_at: u64,
    default_project: Seq<char>,
    home: Option<Seq<char>>,
    summaries: Seq<TaskSummary>,
    completed: Seq<Option<u64>>,
    payload: DashboardPayload,
) -> bool {
    &&& payload.scope@ == scope
    &&& payload.generated_at == generated_at
    &&& payload.default_project.deep_view() == Some(default_project)
    &&& payload.home.deep_view() == home
    &&& payload.tasks@.len() == summaries.len()
    &&& forall|i: int| 0 <= i < summaries.len() ==> shows(summaries[i], completed[i], #[trigger] payload.tasks@[i])
    &&& lists_projects(summaries, payload.projects.deep_view())
    &&& payload.statuses.deep_view() == column_words()
}

/// The board of `summaries`, of which `completed` says when their files were written.
pub fn load_dashboard_payload(
    scope: &str,
    generated_at: u64,
    default_project: &str,
    home: Option<&str>,
    summaries: &Vec<TaskSummary>,
    completed: &Vec<Option<u64>>,
) -> (payload: DashboardPayload)
    requires
        completed@.len() == summaries@.len(),
    ensures
        board_of(
            scope@,
            generated_at,
            default_project@,
            home.deep_view(),
            summaries@,
            completed@,
            payload,
        ),
{
    let mut projects: Vec<String> = Vec::new();
    let mut tasks: Vec<DashboardTask> = Vec::new();
    let mut i: usize = 0;
    assert(projects.deep_view() =~= Seq::empty());
    while i < summaries.len()
        invariant
            completed@.len() == summaries@.len(),
            i <= summaries@.len(),
            tasks@.len() == i,
            forall|j: int| 0 <= j < i ==> shows(summaries@[j], completed@[j], #[trigger] tasks@[j]),
            ascending(projects.deep_view()),
            forall|p: Seq<char>| #[trigger] projects.deep_view().contains(p) <==> some_of(summaries@.take(i as int), p),
        decreases summaries@.len() - i,
    {
        let summary = &summaries[i];
        let ghost before = projects.deep_view();
        if let Some(project) = &summary.project {
            insert_project(&mut projects, project);
        }
        assert forall|p: Seq<char>| #[trigger] projects.deep_view().contains(p) <==> some_of(
            summaries@.take(i + 1),
            p,
        ) by {
            lemma_some_of_step(summaries@, i as int, p);
            assert(before.contains(p) <==> some_of(summaries@.take(i as int), p));
        }
        tasks.push(
            DashboardTask {
                id: summary.id,
                status: summary.status.as_str(),
                project: copy_text(&summary.project),
                assignee: copy_text(&summary.assignee),
                title: summary.title.clone(),
                path: summary.path.clone(),
                completed_at: completed[i],
            },
        );
        i += 1;
    }
    assert(summaries@.take(i as int) =~= summaries@);
    let mut statuses: Vec<&'static str> = Vec::new();
    statuses.push("backlog");
    statuses.push("ready");
    statuses.push("running");
    statuses.push("needs_user");
    statuses.push("failed");
    statuses.push("review");
    statuses.push("done");
    assert(statuses.deep_view() =~= column_words());
    let home = match home {
        Some(home) => Some(home.to_owned()),
        None => None,
    };
    DashboardPayload {
        scope: scope.to_owned(),
        generated_at,
        default_project: Some(default_project.to_owned()),
        home,
        tasks,
        projects,
        statuses,
    }
}

proof fn lemma_some_of_step(summaries: Seq<TaskSummary>, i: int, p: Seq<char>)
    requires
        0 <= i < summaries.len(),
    ensures
        some_of(summaries.take(i + 1), p) == (some_of(summaries.take(i), p) || summaries[i].project.deep_view() == Some(
            p,
        )),
{
    let shorter = summaries.take(i);
    let longer = summaries.take(i + 1);
    if some_of(longer, p) {
        let at = choose|at: int| 0 <= at < longer.len() && (#[trigger] longer[at]).project.deep_view() == Some(p);
        if at < i {
            assert(shorter[at] == longer[at]);
        }
    }
    if some_of(shorter, p) {
        let at = choose|at: int| 0 <= at < shorter.len() && (#[trigger] shorter[at]).project.deep_view() == Some(p);
        assert(longer[at] == shorter[at]);
    }
    assert(longer[i] == summaries[i]);
}

// ---------------------------------------------------------------------------
// The board as text
// ---------------------------------------------------------------------------

/// The name of a project, as a board of several projects shows it with a task.
pub open spec fn chip(project: Option<Seq<char>>) -> Seq<char> {
    match project {
        Some(path) => match last_name(path) {
            Some(name) => " ["@ + name + "]"@,
            None => Seq::empty(),
        },
        None => Seq::empty(),
    }
}

/// The name of a project, as a board of several projects shows it with a task.
pub fn project_chip(project: Option<&str>) -> (text: String)
    ensures
        text@ == chip(project.deep_view()),
{
    match project {
        Some(path) => match file_name(path) {
            Some(name) => " [".to_owned().concat(name.as_str()).concat("]"),
            None => String::new(),
        },
        None => String::new(),
    }
}

/// The line of a task.
pub open spec fn task_line(task: TaskSummary, show_project: bool) -> Seq<char> {
    "- "@ + id_label(task.id) + (if show_project {
        chip(task.project.deep_view())
    } else {
        Seq::empty()
    }) + " "@ + task.title@ + " (assignee: "@ + (match task.assignee {
        Some(assignee) => assignee@,
        None => "-"@,
    }) + ", path: "@ + task.path@ + ")\n"@
}

/// The lines of the tasks at `status`.
pub open spec fn column_lines(tasks: Seq<TaskSummary>, status: TaskStatus, show_project: bool) -> Seq<char>
    decreases tasks.len(),
{
    if tasks.len() == 0 {
        Seq::empty()
    } else if tasks.last().status == status {
        column_lines(tasks.drop_last(), status, show_project) + task_line(tasks.last(), show_project)
    } else {
        column_lines(tasks.drop_last(), status, show_project)
    }
}

/// Whether any task is at `status`.
pub open spec fn any_at(tasks: Seq<TaskSummary>, status: TaskStatus) -> bool {
    exists|i: int| 0 <= i < tasks.len() && (#[trigger] tasks[i]).status == status
}

/// The column of the tasks at `status`.
pub open spec fn column(tasks: Seq<TaskSummary>, status: TaskStatus, show_project: bool) -> Seq<char> {
    "## "@ + status.word() + "\n"@ + (if any_at(tasks, status) {
        column_lines(tasks, status, show_project)
    } else {
        "- none\n"@
    }) + "\n"@
}

/// The board as text.
pub open spec fn dashboard_view(scope: Seq<char>, tasks: Seq<TaskSummary>) -> Seq<char> {
    let all = scope == "all projects"@;
    "# Tasks Dashboard\n\nscope: "@ + scope + "\ntasks: "@ + decimal(tasks.len()) + "\n\n"@ + column(
        tasks,
        TaskStatus::Backlog,
        all,
    ) + column(tasks, TaskStatus::Ready, all) + column(tasks, TaskStatus::Running, all) + column(
        tasks,
        TaskStatus::NeedsUser,
        all,
    ) + column(tasks, TaskStatus::Failed, all) + column(tasks, TaskStatus::Review, all) + column(
        tasks,
        TaskStatus::Done,
        all,
    )
}

fn task_line_of(task: &TaskSummary, show_project: bool) -> (line: String)
    ensures
        line@ == task_line(*task, show_project),
{
    let assignee = match &task.assignee {
        Some(assignee) => assignee.as_str(),
        None => "-",
    };
    let chip = if show_project {
        let project = match &task.project {
            Some(project) => Some(project.as_str()),
            None => None,
        };
        project_chip(project)
    } else {
        String::new()
    };
    "- ".to_owned().concat(shown_id(task.id).as_str()).concat(chip.as_str()).concat(" ").concat(
        task.title.as_str(),
    ).concat(" (assignee: ").concat(assignee).concat(", path: ").concat(task.path.as_str()).concat(")\n")
}

fn column_text(tasks: &Vec<TaskSummary>, status: TaskStatus, show_project: bool) -> (text: String)
    ensures
        text@ == column(tasks@, status, show_project),
{
    let mut rows = String::new();
    let mut found = false;
    let mut i: usize = 0;
    assert(rows@ =~= column_lines(tasks@.take(0), status, show_project));
    while i < tasks.len()
        invariant
            i <= tasks@.len(),
            rows@ == column_lines(tasks@.take(i as int), status, show_project),
            found == (exists|j: int| 0 <= j < i && (#[trigger] tasks@[j]).status == status),
        decreases tasks@.len() - i,
    {
        assert(tasks@.take(i + 1).drop_last() =~= tasks@.take(i as int));
        assert(tasks@.take(i + 1).last() == tasks@[i as int]);
        if tasks[i].status == status {
            rows.append(task_line_of(&tasks[i], show_project).as_str());
            found = true;
        }
        i += 1;
    }
    assert(tasks@.take(i as int) =~= tasks@);
    assert(found == any_at(tasks@, status));
    if !found {
        rows = "- none\n".to_owned();
    }
    "## ".to_owned().concat(status.as_str()).concat("\n").concat(rows.as_str()).concat("\n")
}

/// The board as text.
pub fn dashboard_text(scope: &str, tasks: &Vec<TaskSummary>) -> (text: String)
    ensures
        text@ == dashboard_view(scope@, tasks@),
{
    let all = same(scope, "all projects");
    "# Tasks Dashboard\n\nscope: ".to_owned().concat(scope).concat("\ntasks: ").concat(
        decimal_of(tasks.len() as u64).as_str(),
    ).concat("\n\n").concat(column_text(tasks, TaskStatus::Backlog, all).as_str()).concat(
        column_text(tasks, TaskStatus::Ready, all).as_str(),
    ).concat(column_text(tasks, TaskStatus::Running, all).as_str()).concat(
        column_text(tasks, TaskStatus::NeedsUser, all).as_str(),
    ).concat(column_text(tasks, TaskStatus::Failed, all).as_str()).concat(
        column_text(tasks, TaskStatus::Review, all).as_str(),
    ).concat(column_text(tasks, TaskStatus::Done, all).as_str())
}

// ---------------------------------------------------------------------------
// Starting the board
// ---------------------------------------------------------------------------

/// What is done where a board is asked for.
#[derive(Debug, Clone, Copy, PartialEq, Eq, Structural)]
pub enum DashboardMode {
    Terminal,
    Serve,
    Daemon,
}

/// Decides what is done where a board is asked for.
pub fn dashboard_mode(web: bool, daemon: bool) -> (mode: Result<DashboardMode, String>)
    ensures
        match mode {
            Err(text) => daemon && !web && text@ == "--daemon requires --web"@,
            Ok(mode) => !(daemon && !web) && mode == (if daemon {
                DashboardMode::Daemon
            } else if web {
                DashboardMode::Serve
            } else {
                DashboardMode::Terminal
            }),
        },
{
    if daemon && !web {
        return Err("--daemon requires --web".to_owned());
    }
    if daemon {
        Ok(DashboardMode::Daemon)
    } else if web {
        Ok(DashboardMode::Serve)
    } else {
        Ok(DashboardMode::Terminal)
    }
}

/// The arguments that start a board in the background.
pub open spec fn daemon_words(project: Option<Seq<char>>, all_projects: bool, port: u16) -> Seq<Seq<char>> {
    seq!["task"@, "dashboard"@, "--web"@, "--port"@, decimal(port as nat)] + (if all_projects {
        seq!["--all"@]
    } else {
        Seq::empty()
    }) + (match project {
        Some(project) => seq!["--project"@, project],
        None => Seq::empty(),
    })
}

/// The arguments that start a board in the background.
pub fn daemon_args(project: Option<&str>, all_projects: bool, port: u16) -> (args: Vec<String>)
    ensures
        args.deep_view() == daemon_words(project.deep_view(), all_projects, port),
{
    let mut args: Vec<String> = Vec::new();
    args.push("task".to_owned());
    args.push("dashboard".to_owned());
    args.push("--web".to_owned());
    args.push("--port".to_owned());
    args.push(decimal_of(port as u64));
    assert(args.deep_view() =~= seq!["task"@, "dashboard"@, "--web"@, "--port"@, decimal(port as nat)]);
    let ghost first = args.deep_view();
    if all_projects {
        args.push("--all".to_owned());
        assert(args.deep_view() =~= first + seq!["--all"@]);
    }
    let ghost second = args.deep_view();
    if let Some(project) = project {
        args.push("--project".to_owned());
        args.push(project.to_owned());
        assert(args.deep_view() =~= second + seq!["--project"@, project@]);
    }
    assert(args.deep_view() =~= daemon_words(project.deep_view(), all_projects, port));
    args
}

// ---------------------------------------------------------------------------
// Laws
// ---------------------------------------------------------------------------

/// The digits from zero to nine and the letters from a to f, small or great, are the
/// hexadecimal digits, and each has its value.
pub proof fn law_hexadecimal_digits_have_their_values(byte: u8, value: Option<u8>)
    requires
        call_ensures(hex_value, (byte,), value),
    ensures
        48 <= byte <= 57 ==> value is Some && value->0 as int == byte - 48,
        97 <= byte <= 102 ==> value is Some && value->0 as int == byte - 87,
        65 <= byte <= 70 ==> value is Some && value->0 as int == byte - 55,
        value is Some ==> 48 <= byte <= 57 || 97 <= byte <= 102 || 65 <= byte <= 70,
{
}

/// The hexadecimal digit of a value below sixteen.
pub open spec fn digit_of(value: int) -> u8 {
    if value < 10 {
        (48 + value) as u8
    } else {
        (55 + value) as u8
    }
}

/// Bytes, each written as a percent sign and two digits.
pub open spec fn all_escaped(bytes: Seq<u8>) -> Seq<u8>
    decreases bytes.len(),
{
    if bytes.len() == 0 {
        Seq::empty()
    } else {
        seq![0x25u8, digit_of(bytes[0] as int / 16), digit_of(bytes[0] as int % 16)] + all_escaped(bytes.skip(1))
    }
}

/// Bytes that are written with percent signs are read back; and a percent sign that no two
/// digits follow stands for itself.
pub proof fn law_escaped_bytes_are_read_back(bytes: Seq<u8>)
    ensures
        unescaped(all_escaped(bytes)) == bytes,
    decreases bytes.len(),
{
    if bytes.len() > 0 {
        let rest = bytes.skip(1);
        let high = digit_of(bytes[0] as int / 16);
        let low = digit_of(bytes[0] as int % 16);
        let text = all_escaped(bytes);
        law_escaped_bytes_are_read_back(rest);
        assert(text =~= seq![0x25u8, high, low] + all_escaped(rest));
        assert(text[0] == 0x25 && text[1] == high && text[2] == low);
        assert(hex(high) == Some((bytes[0] / 16) as u8));
        assert(hex(low) == Some((bytes[0] % 16) as u8));
        assert(text.skip(3) =~= all_escaped(rest));
        assert(bytes =~= seq![bytes[0]] + rest);
    } else {
        assert(unescaped(all_escaped(bytes)) =~= bytes);
    }
}

/// Percent signs are read from left to right: bytes before them that hold none stay, and what
/// follows is read for itself.
pub proof fn law_escapes_are_read_in_place(input: &[u8], output: Vec<u8>, first: u8, rest: Seq<u8>)
    requires
        call_ensures(unescape, (input,), output),
        first != 0x25,
        input@ == seq![first] + rest,
    ensures
        output@ == seq![first] + unescaped(rest),
{
    assert(input@[0] == first);
    assert(input@.skip(1) =~= rest);
}

/// A text is parted at the first of a character, which is in neither part; where it does not
/// hold the character it is not parted.
pub proof fn law_texts_are_parted_at_the_first(text: &str, c: char, parts: Option<(String, String)>)
    requires
        call_ensures(part_at, (text, c), parts),
    ensures
        match parts {
            Some((before, after)) => text@ == before@ + seq![c] + after@ && !before@.contains(c),
            None => !text@.contains(c),
        },
{
    lemma_first_of_bounds(text@, c);
    let at = first_of(text@, c);
    match parts {
        Some((before, after)) => {
            assert(text@ =~= before@ + seq![c] + after@);
            if before@.contains(c) {
                let i = choose|i: int| 0 <= i < before@.len() && before@[i] == c;
                assert(text@[i] == c);
            }
        },
        None => {},
    }
}

/// How a text is parted at a character that stands after others.
proof fn lemma_parted(before: Seq<char>, c: char, after: Seq<char>)
    requires
        !before.contains(c),
    ensures
        parted(before + seq![c] + after, c) == Some((before, after)),
        parted(before, c) is None,
{
    let text = before + seq![c] + after;
    assert forall|i: int| 0 <= i < before.len() implies text[i] != c && before[i] != c by {
        if before[i] == c {
            assert(before.contains(c));
        }
    }
    crate::text::lemma_first_of(text, c, before.len() as int);
    crate::text::lemma_first_of(before, c, before.len() as int);
    assert(text.take(before.len() as int) =~= before);
    assert(text.skip(before.len() as int + 1) =~= after);
}

/// A parameter of a target is found by its name after the question mark, between ampersands;
/// its value is what follows the equals sign, in which plus signs stand for spaces. Pairs of
/// other names before it do not matter.
pub proof fn law_parameters_are_found_by_name(
    path: Seq<char>,
    other: Seq<char>,
    other_value: Seq<char>,
    name: Seq<char>,
    value: Seq<char>,
    rest: Seq<char>,
)
    requires
        !path.contains('?'),
        !name.contains('=') && !name.contains('&'),
        !value.contains('&'),
        !other.contains('=') && !other.contains('&') && !other_value.contains('&'),
        other != name,
    ensures
        parameter(path + seq!['?'] + (name + seq!['='] + value), name) == Some(
            unescaped(encode_utf8(replace(value, "+"@, " "@))),
        ),
        parameter(path + seq!['?'] + (name + seq!['='] + value + seq!['&'] + rest), name) == Some(
            unescaped(encode_utf8(replace(value, "+"@, " "@))),
        ),
        parameter(
            path + seq!['?'] + (other + seq!['='] + other_value + seq!['&'] + (name + seq!['='] + value)),
            name,
        ) == Some(unescaped(encode_utf8(replace(value, "+"@, " "@)))),
        parameter(path, name) is None,
{
    let pair = name + seq!['='] + value;
    let first = other + seq!['='] + other_value;
    lemma_parted(path, '?', pair);
    lemma_parted(path, '?', pair + seq!['&'] + rest);
    lemma_parted(path, '?', first + seq!['&'] + pair);
    lemma_parted(name, '=', value);
    lemma_parted(other, '=', other_value);
    lemma_no_ampersand(name, value);
    lemma_no_ampersand(other, other_value);
    crate::text::law_split_takes_the_first_part(pair, rest, '&');
    crate::text::law_split_takes_the_first_part(first, pair, '&');
    assert((seq![pair] + split(rest, '&'))[0] == pair);
    let both = seq![first] + seq![pair];
    assert(both[0] == first);
    assert(both.drop_first() =~= seq![pair]);
    assert(seq![pair][0] == pair);
}

proof fn lemma_no_ampersand(name: Seq<char>, value: Seq<char>)
    requires
        !name.contains('&'),
        !value.contains('&'),
    ensures
        !(name + seq!['='] + value).contains('&'),
{
    let pair = name + seq!['='] + value;
    if pair.contains('&') {
        let i = choose|i: int| 0 <= i < pair.len() && pair[i] == '&';
        if i < name.len() {
            assert(name[i] == '&');
        } else if i > name.len() {
            assert(value[i - name.len() - 1] == '&');
        }
    }
}

/// Where the head of a request ends.
proof fn lemma_head_end(request: Seq<char>)
    ensures
        0 <= head_end(request) <= request.len(),
        head_end(request) < request.len() ==> crate::text::stands_at(request, "\r\n\r\n"@, head_end(request)),
        forall|i: int| 0 <= i < head_end(request) ==> !#[trigger] crate::text::stands_at(request, "\r\n\r\n"@, i),
    decreases request.len(),
{
    if request.len() > 0 && !crate::text::begins(request, "\r\n\r\n"@) {
        let rest = request.drop_first();
        lemma_head_end(rest);
        let mark = "\r\n\r\n"@;
        reveal_strlit("\r\n\r\n");
        assert forall|i: int| 0 <= i < rest.len() implies #[trigger] crate::text::stands_at(request, mark, i + 1)
            == crate::text::stands_at(rest, mark, i) by {
            if i + 4 <= rest.len() {
                assert(request.subrange(i + 1, i + 5) =~= rest.subrange(i, i + 4));
            }
        }
        if head_end(rest) < rest.len() {
            assert(crate::text::stands_at(request, mark, head_end(rest) + 1));
        }
        assert forall|i: int| 0 <= i < head_end(request) implies !#[trigger] crate::text::stands_at(
            request,
            mark,
            i,
        ) by {
            if i > 0 {
                assert(crate::text::stands_at(request, mark, (i - 1) + 1) == crate::text::stands_at(
                    rest,
                    mark,
                    i - 1,
                ));
            }
        }
    }
}

/// A request is told by its method and its path: the page, the tasks, one of them by its path,
/// and the health are got, a status is posted, and what is posted is all that follows the first
/// empty line. Nothing else can be asked for.
pub proof fn law_requests_are_told_by_method_and_path(request: &str, asked: DashboardRequest)
    requires
        call_ensures(read_request, (request,), asked),
    ensures
        ({
            let rows = lines(request@);
            let first = if rows.len() > 0 {
                words(rows[0])
            } else {
                Seq::<Seq<char>>::empty()
            };
            let method = if first.len() > 0 {
                first[0]
            } else {
                Seq::<char>::empty()
            };
            let target = if first.len() > 1 {
                first[1]
            } else {
                "/"@
            };
            let path = if parted(target, '?') is Some {
                (parted(target, '?')->0).0
            } else {
                target
            };
            let gets = method == "GET"@;
            &&& gets && (path == "/"@ || path == "/index.html"@) ==> asked is Page
            &&& gets && path == "/api/tasks"@ ==> asked is Tasks
            &&& gets && path == "/api/tasks/detail"@ && parameter(target, "path"@) is None ==> asked is DetailOfNothing
            &&& gets && path == "/api/tasks/detail"@ && parameter(target, "path"@) is Some ==> asked is Detail
                && asked->Detail_0@ == lossy_text(parameter(target, "path"@)->0)
            &&& method == "POST"@ && path == "/api/tasks/status"@ ==> asked is SetStatus
            &&& gets && path == "/healthz"@ ==> asked is Health
            &&& asked is SetStatus ==> method == "POST"@ && path == "/api/tasks/status"@
            &&& asked is Page || asked is Tasks || asked is Detail || asked is DetailOfNothing || asked is Health ==> gets
        }),
        asked matches DashboardRequest::SetStatus(body) ==> {
            ||| body@.len() == 0
            ||| exists|head: Seq<char>|
                request@ == #[trigger] (head + "\r\n\r\n"@ + body@) && forall|i: int|
                    0 <= i < head.len() ==> !#[trigger] crate::text::stands_at(request@, "\r\n\r\n"@, i)
        },
{
    lemma_request_words();
    if let DashboardRequest::SetStatus(body) = asked {
        reveal_strlit("\r\n\r\n");
        let mark = "\r\n\r\n"@;
        lemma_head_end(request@);
        let at = head_end(request@);
        if at < request@.len() {
            let head = request@.take(at);
            assert(request@.subrange(at, at + 4) =~= mark);
            assert(request@ =~= head + mark + body@);
        }
    }
}

/// The words by which requests are told apart.
proof fn lemma_request_words()
    ensures
        "GET"@ != "POST"@,
        "/"@.len() == 1,
        "/index.html"@.len() == 11,
        "/api/tasks"@.len() == 10,
        "/api/tasks/detail"@.len() == 17 && "/api/tasks/detail"@[11] == 'd',
        "/api/tasks/status"@.len() == 17 && "/api/tasks/status"@[11] == 's',
        "/healthz"@.len() == 8,
{
    reveal_strlit("GET");
    reveal_strlit("POST");
    reveal_strlit("/");
    reveal_strlit("/index.html");
    reveal_strlit("/api/tasks");
    reveal_strlit("/api/tasks/detail");
    reveal_strlit("/api/tasks/status");
    reveal_strlit("/healthz");
    assert("GET"@.len() == 3 && "POST"@.len() == 4);
}

/// An answer says its status, the kind of what it carries and how many bytes that has, and ends
/// with it.
pub proof fn law_answers_end_with_their_body(status: &str, content_type: &str, body: &str, response: String)
    requires
        call_ensures(http_response, (status, content_type, body), response),
    ensures
        body@.is_suffix_of(response@),
        holds_in_order(
            response@,
            seq![status@, content_type@, decimal(encode_utf8(body@).len() as usize as nat), body@],
        ),
{
    assert(response@.subrange(response@.len() - body@.len(), response@.len() as int) =~= body@);
    lemma_four_in_order(
        "HTTP/1.1 "@,
        status@,
        "\r\nContent-Type: "@,
        content_type@,
        "; charset=utf-8\r\nContent-Length: "@,
        decimal(encode_utf8(body@).len() as usize as nat),
        "\r\nCache-Control: no-store\r\nConnection: close\r\n\r\n"@,
        body@,
        Seq::empty(),
    );
    assert(response@ + Seq::<char>::empty() =~= response@);
}

/// On the board a task can be marked as done, put off or made ready, and nothing else. One that
/// is marked as done waits for nobody; nothing else of a task changes, and one that is refused,
/// or has the status already, stays as it is.
pub proof fn law_the_board_sets_few_statuses(
    before: TaskDocument,
    after: TaskDocument,
    status: TaskStatus,
    changed: Result<bool, String>,
)
    requires
        exists|task: &mut TaskDocument|
            *task == before && *final(task) == after && #[trigger] call_ensures(
                update_dashboard_task_status,
                (task, status),
                changed,
            ),
    ensures
        changed is Ok <==> status is Done || status is Backlog || status is Ready,
        changed is Err ==> after == before,
        changed matches Ok(changed) ==> {
            &&& after.frontmatter.status == status
            &&& changed <==> before.frontmatter.status != status
            &&& !changed ==> after == before
            &&& changed && status is Done ==> !after.frontmatter.requires_user
            &&& !(status is Done) ==> after.frontmatter.requires_user == before.frontmatter.requires_user
        },
        (TaskFrontmatter {
            status: before.frontmatter.status,
            requires_user: before.frontmatter.requires_user,
            ..after.frontmatter
        }) == before.frontmatter,
        after.body == before.body,
        after.path == before.path,
{
}

/// The board shows every task, in order, as it is, with the time at which its file was written;
/// it lists each project that a task is of once, in order of their names.
pub proof fn law_the_board_shows_every_task(
    scope: &str,
    generated_at: u64,
    default_project: &str,
    home: Option<&str>,
    summaries: &Vec<TaskSummary>,
    completed: &Vec<Option<u64>>,
    payload: DashboardPayload,
)
    requires
        completed@.len() == summaries@.len(),
        call_ensures(
            load_dashboard_payload,
            (scope, generated_at, default_project, home, summaries, completed),
            payload,
        ),
    ensures
        payload.tasks@.len() == summaries@.len(),
        forall|i: int|
            0 <= i < summaries@.len() ==> {
                let shown = #[trigger] payload.tasks@[i];
                &&& shown.id == summaries@[i].id
                &&& shown.status@ == summaries@[i].status.word()
                &&& shown.project.deep_view() == summaries@[i].project.deep_view()
                &&& shown.assignee.deep_view() == summaries@[i].assignee.deep_view()
                &&& shown.title@ == summaries@[i].title@
                &&& shown.path@ == summaries@[i].path@
                &&& shown.completed_at == completed@[i]
            },
        forall|i: int|
            0 <= i < summaries@.len() && (#[trigger] summaries@[i]).project is Some
                ==> payload.projects.deep_view().contains(summaries@[i].project->0@),
        forall|p: Seq<char>| #[trigger]
            payload.projects.deep_view().contains(p) ==> exists|i: int|
                0 <= i < summaries@.len() && (#[trigger] summaries@[i]).project.deep_view() == Some(p),
        ascending(payload.projects.deep_view()),
        payload.scope@ == scope@,
        payload.generated_at == generated_at,
{
    let projects = payload.projects.deep_view();
    assert forall|i: int| 0 <= i < summaries@.len() && (#[trigger] summaries@[i]).project is Some implies projects.contains(
        summaries@[i].project->0@,
    ) by {
        assert(some_of(summaries@, summaries@[i].project->0@));
    }
    assert forall|p: Seq<char>| #[trigger] projects.contains(p) implies exists|i: int|
        0 <= i < summaries@.len() && (#[trigger] summaries@[i]).project.deep_view() == Some(p) by {
        assert(some_of(summaries@, p));
    }
}

/// The paths of the tasks at a status, in order.
pub open spec fn paths_at(tasks: Seq<TaskSummary>, status: TaskStatus) -> Seq<Seq<char>>
    decreases tasks.len(),
{
    if tasks.len() == 0 {
        Seq::empty()
    } else if tasks.last().status == status {
        paths_at(tasks.drop_last(), status).push(tasks.last().path@)
    } else {
        paths_at(tasks.drop_last(), status)
    }
}

proof fn lemma_column_lines(tasks: Seq<TaskSummary>, status: TaskStatus, show_project: bool)
    ensures
        holds_in_order(column_lines(tasks, status, show_project), paths_at(tasks, status)),
    decreases tasks.len(),
{
    if tasks.len() == 0 {
        lemma_in_order_empty(column_lines(tasks, status, show_project));
    } else {
        let front = tasks.drop_last();
        let task = tasks.last();
        lemma_column_lines(front, status, show_project);
        if task.status == status {
            let line = task_line(task, show_project);
            reveal_strlit(")\n");
            let lead = line.take(line.len() - 2 - task.path@.len());
            assert(line =~= lead + task.path@ + ")\n"@);
            lemma_in_order_push(
                column_lines(front, status, show_project),
                paths_at(front, status),
                lead,
                task.path@,
                ")\n"@,
            );
        }
    }
}

/// The column of a status has its heading and then the tasks at that status, all of them, in
/// order, and no others.
pub proof fn law_columns_list_the_tasks_at_their_status(
    tasks: Seq<TaskSummary>,
    status: TaskStatus,
    show_project: bool,
)
    ensures
        begins(column(tasks, status, show_project), "## "@ + status.word() + "\n"@),
        holds_in_order(column(tasks, status, show_project), paths_at(tasks, status)),
        paths_at(tasks, status).len() == 0 ==> column(tasks, status, show_project) == "## "@ + status.word() + "\n"@
            + "- none\n"@ + "\n"@,
{
    let head = "## "@ + status.word() + "\n"@;
    let all = column(tasks, status, show_project);
    assert(all.subrange(0, head.len() as int) =~= head);
    lemma_paths_at(tasks, status);
    if any_at(tasks, status) {
        let rows = column_lines(tasks, status, show_project);
        lemma_column_lines(tasks, status, show_project);
        lemma_in_order_joined(rows, head, paths_at(tasks, status));
        lemma_in_order_joined(head + rows, "\n"@, paths_at(tasks, status));
    } else {
        lemma_in_order_empty(all);
        assert(paths_at(tasks, status) =~= Seq::empty());
    }
}

proof fn lemma_paths_at(tasks: Seq<TaskSummary>, status: TaskStatus)
    ensures
        any_at(tasks, status) <==> paths_at(tasks, status).len() > 0,
    decreases tasks.len(),
{
    if tasks.len() > 0 {
        let front = tasks.drop_last();
        lemma_paths_at(front, status);
        if any_at(front, status) {
            let i = choose|i: int| 0 <= i < front.len() && (#[trigger] front[i]).status == status;
            assert(tasks[i].status == status);
        }
        if any_at(tasks, status) {
            let i = choose|i: int| 0 <= i < tasks.len() && (#[trigger] tasks[i]).status == status;
            if i < front.len() {
                assert(front[i].status == status);
            }
        }
        if tasks.last().status == status {
            assert(tasks[tasks.len() - 1].status == status);
        }
    }
}

/// The board as text has a column for each status: what is put off, ready, running, waits for
/// the user, has failed, waits for review and is done, in that order. The names of projects are
/// shown exactly where the board is for all of them.
pub proof fn law_the_board_has_its_columns_in_order(scope: &str, tasks: &Vec<TaskSummary>, text: String)
    requires
        call_ensures(dashboard_text, (scope, tasks), text),
    ensures
        ({
            let all = scope@ == "all projects"@;
            let order = seq![
                TaskStatus::Backlog,
                TaskStatus::Ready,
                TaskStatus::Running,
                TaskStatus::NeedsUser,
                TaskStatus::Failed,
                TaskStatus::Review,
                TaskStatus::Done,
            ];
            holds_in_order(text@, Seq::new(7, |i: int| column(tasks@, order[i], all)))
        }),
        holds_in_order(text@, seq![scope@, decimal(tasks@.len())]),
{
    let all = scope@ == "all projects"@;
    let order = seq![
        TaskStatus::Backlog,
        TaskStatus::Ready,
        TaskStatus::Running,
        TaskStatus::NeedsUser,
        TaskStatus::Failed,
        TaskStatus::Review,
        TaskStatus::Done,
    ];
    let count = decimal(tasks@.len());
    let none = Seq::<char>::empty();
    let head = "# Tasks Dashboard\n\nscope: "@ + scope@ + "\ntasks: "@ + count + "\n\n"@;
    let c = |i: int| column(tasks@, order[i], all);
    let parts0 = Seq::<Seq<char>>::empty();
    let scoped = seq![scope@, count];
    lemma_two_in_order("# Tasks Dashboard\n\nscope: "@, scope@, "\ntasks: "@, count, "\n\n"@);
    lemma_in_order_empty(head);
    let t1 = lemma_next_column(head, parts0, scoped, c(0));
    let t2 = lemma_next_column(t1, parts0.push(c(0)), scoped, c(1));
    let t3 = lemma_next_column(t2, parts0.push(c(0)).push(c(1)), scoped, c(2));
    let t4 = lemma_next_column(t3, parts0.push(c(0)).push(c(1)).push(c(2)), scoped, c(3));
    let t5 = lemma_next_column(t4, parts0.push(c(0)).push(c(1)).push(c(2)).push(c(3)), scoped, c(4));
    let t6 = lemma_next_column(t5, parts0.push(c(0)).push(c(1)).push(c(2)).push(c(3)).push(c(4)), scoped, c(5));
    let t7 = lemma_next_column(
        t6,
        parts0.push(c(0)).push(c(1)).push(c(2)).push(c(3)).push(c(4)).push(c(5)),
        scoped,
        c(6),
    );
    assert(text@ == t7);
    assert(parts0.push(c(0)).push(c(1)).push(c(2)).push(c(3)).push(c(4)).push(c(5)).push(c(6)) =~= Seq::new(
        7,
        |i: int| column(tasks@, order[i], all),
    ));
}

/// One column more.
proof fn lemma_next_column(text: Seq<char>, parts: Seq<Seq<char>>, others: Seq<Seq<char>>, column: Seq<char>) -> (next: Seq<
    char,
>)
    requires
        holds_in_order(text, parts),
        holds_in_order(text, others),
    ensures
        next == text + column,
        holds_in_order(next, parts.push(column)),
        holds_in_order(next, others),
{
    let none = Seq::<char>::empty();
    lemma_in_order_push(text, parts, none, column, none);
    lemma_in_order_joined(text, column, others);
    assert(none + column + none =~= column);
    text + column
}

/// A board is shown in the terminal unless it is wanted in the browser, in which case it is
/// served, in the background where that is wanted; only what is served can be in the background.
pub proof fn law_boards_are_shown_as_wanted(web: bool, daemon: bool, mode: Result<DashboardMode, String>)
    requires
        call_ensures(dashboard_mode, (web, daemon), mode),
    ensures
        mode is Err <==> daemon && !web,
        mode matches Ok(mode) ==> {
            &&& mode is Terminal <==> !web
            &&& mode is Serve <==> web && !daemon
            &&& mode is Daemon <==> web && daemon
        },
{
}

/// A board in the background is started for the port, the project and the scope that are asked
/// for.
pub proof fn law_boards_are_started_as_asked(project: Option<&str>, all_projects: bool, port: u16, args: Vec<String>)
    requires
        call_ensures(daemon_args, (project, all_projects, port), args),
    ensures
        ({
            let words = args.deep_view();
            &&& words.len() == 5 + (if all_projects {
                1int
            } else {
                0
            }) + (if project is Some {
                2int
            } else {
                0
            })
            &&& words[3] == "--port"@ && words[4] == decimal(port as nat)
            &&& all_projects ==> words[5] == "--all"@
            &&& project matches Some(project) ==> words[words.len() - 2] == "--project"@ && words.last() == project@
        }),
{
}

/// A task is shown with all that its file says and with each of its recaps, in order: what was
/// read of it, or else, under its path, why it could not be read.
pub proof fn law_details_show_every_recap(
    path: &str,
    markdown: &str,
    readings: &Vec<(String, Result<String, String>)>,
    detail: DashboardTaskDetail,
)
    requires
        call_ensures(task_detail, (path, markdown, readings), detail),
    ensures
        detail.path@ == path@,
        detail.markdown@ == markdown@,
        detail.recaps@.len() == readings@.len(),
        forall|i: int|
            0 <= i < readings@.len() ==> {
                let shown = #[trigger] detail.recaps@[i];
                &&& shown.path@ == readings@[i].0@
                &&& readings@[i].1 is Ok ==> shown.markdown@ == readings@[i].1->Ok_0@
                &&& readings@[i].1 is Err ==> holds_in_order(
                    shown.markdown@,
                    seq![readings@[i].0@, readings@[i].1->Err_0@],
                )
            },
{
    assert forall|i: int| 0 <= i < readings@.len() implies {
        let shown = #[trigger] detail.recaps@[i];
        &&& shown.path@ == readings@[i].0@
        &&& readings@[i].1 is Ok ==> shown.markdown@ == readings@[i].1->Ok_0@
        &&& readings@[i].1 is Err ==> holds_in_order(
            shown.markdown@,
            seq![readings@[i].0@, readings@[i].1->Err_0@],
        )
    } by {
        if let Err(reason) = readings@[i].1 {
            let head = "# Recap Unavailable\n\nFailed to read "@;
            lemma_two_in_order(head, readings@[i].0@, ": "@, reason@, Seq::empty());
            let text = detail.recaps@[i].markdown@;
            assert(text + Seq::<char>::empty() =~= text);
        }
    }
}

} // verus!
