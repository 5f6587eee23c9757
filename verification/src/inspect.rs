//! Everything that is known of one task, as text.

use vstd::prelude::*;
use vstd::string::*;
use vstd::utf8::{decode_utf8, encode_utf8, is_char_boundary};

use crate::config::{AgentConfig, Config};
use crate::order::{lemma_selection_empty, lemma_selection_push, selection};
use crate::routing::{match_route_for_task, prompt_size, task_routed, PromptSizes, RouteMatch};
use crate::task::{TaskDocument, TaskFrontmatter};
use crate::text::{
    begins, cat3, contains, decimal, decimal_of, holds, holds_in_order, join, joined, law_joined_parts_stand_in_order,
    lemma_holds_within, lemma_in_order_empty, lemma_in_order_joined, lemma_in_order_push, lemma_in_order_within, lines,
    lines_of, words, words_of,
};

verus! {

/// A list of strings as `Debug` writes it.
pub uninterp spec fn debug_list(list: Seq<Seq<char>>) -> Seq<char>;

/// `Debug` of `Vec<String>` writes a list in brackets, each string in quotes and
/// escaped. The text is a function of the strings.
#[verifier::external_body]
fn debug_text(list: &Vec<String>) -> (text: String)
    ensures
        text@ == debug_list(list.deep_view()),
{
    format!("{list:?}")
}

/// What became of reading a log.
#[derive(Debug, PartialEq, Eq)]
pub enum LogReading {
    Content(String),
    /// It could not be read, for this reason.
    Unreadable(String),
}

/// The text, or that there is none.
pub open spec fn or_none(text: Option<Seq<char>>) -> Seq<char> {
    match text {
        Some(text) => text,
        None => "(none)"@,
    }
}

fn text_or_none(text: &Option<String>) -> (shown: &str)
    ensures
        shown@ == or_none(text.deep_view()),
{
    match text {
        Some(text) => text.as_str(),
        None => "(none)",
    }
}

/// What is shown of an agent.
pub open spec fn agent_section(name: Seq<char>, agent: AgentConfig) -> Seq<char> {
    "## Agent config: "@ + name + "\n  command:     "@ + agent.command@ + " "@ + debug_list(agent.args.deep_view())
        + "\n"@ + (match agent.interactive_command {
        Some(command) => "  interactive: "@ + command@ + " "@ + debug_list(
            match agent.interactive_args {
                Some(args) => args.deep_view(),
                None => Seq::empty(),
            },
        ) + "  [configured]\n"@,
        None => "  interactive: (not configured — will fall back to pipe mode)\n"@,
    }) + "\n"@
}

fn agent_text(name: &str, agent: &AgentConfig) -> (text: String)
    ensures
        text@ == agent_section(name@, *agent),
{
    let interactive = match &agent.interactive_command {
        Some(command) => {
            let args = match &agent.interactive_args {
                Some(args) => debug_text(args),
                None => {
                    let none: Vec<String> = Vec::new();
                    assert(none.deep_view() =~= Seq::empty());
                    debug_text(&none)
                },
            };
            "  interactive: ".to_owned().concat(command.as_str()).concat(" ").concat(args.as_str()).concat(
                "  [configured]\n",
            )
        },
        None => "  interactive: (not configured — will fall back to pipe mode)\n".to_owned(),
    };
    "## Agent config: ".to_owned().concat(name).concat("\n  command:     ").concat(agent.command.as_str()).concat(
        " ",
    ).concat(debug_text(&agent.args).as_str()).concat("\n").concat(interactive.as_str()).concat("\n")
}

/// What is shown of where a task is routed to.
pub open spec fn route_section(routed: Result<RouteMatch, String>) -> Seq<char> {
    match routed {
        Ok(route) => "## Route\n  glob:   "@ + route.glob@ + "\n  agent:  "@ + route.agent@ + "\n\n"@,
        Err(text) => "## Route\n  (could not resolve: "@ + text@ + ")\n\n"@,
    }
}

fn route_text(routed: &Result<RouteMatch, String>) -> (text: String)
    ensures
        text@ == route_section(*routed),
{
    match routed {
        Ok(route) => "## Route\n  glob:   ".to_owned().concat(route.glob.as_str()).concat("\n  agent:  ").concat(
            route.agent.as_str(),
        ).concat("\n\n"),
        Err(text) => "## Route\n  (could not resolve: ".to_owned().concat(text.as_str()).concat(")\n\n"),
    }
}

/// The numbers of the processes whose lines name the task: the second word of each
/// such line.
pub open spec fn live_pids(lines: Seq<Seq<char>>, task: Seq<char>) -> Seq<Seq<char>>
    decreases lines.len(),
{
    if lines.len() == 0 {
        Seq::empty()
    } else {
        let front = live_pids(lines.drop_last(), task);
        if holds(lines.last(), task) && words(lines.last()).len() > 1 {
            front.push(words(lines.last())[1])
        } else {
            front
        }
    }
}

fn pids_of(ps_output: &str, task_path: &str) -> (pids: Vec<String>)
    ensures
        pids.deep_view() == live_pids(lines(ps_output@), task_path@),
{
    let all_lines = lines_of(ps_output);
    let ghost all = all_lines.deep_view();
    let mut pids: Vec<String> = Vec::new();
    let mut i: usize = 0;
    assert(pids.deep_view() =~= live_pids(all.take(0), task_path@));
    while i < all_lines.len()
        invariant
            all == all_lines.deep_view(),
            i <= all_lines@.len(),
            pids.deep_view() == live_pids(all.take(i as int), task_path@),
        decreases all_lines@.len() - i,
    {
        let ghost before = pids.deep_view();
        assert(all.take(i + 1).drop_last() =~= all.take(i as int));
        assert(all.take(i + 1).last() == all_lines@[i as int]@);
        let line = all_lines[i].as_str();
        if contains(line, task_path) {
            let parts = words_of(line);
            if parts.len() > 1 {
                assert(parts.deep_view()[1] == parts@[1]@);
                pids.push(parts[1].clone());
                assert(pids.deep_view() =~= before.push(words(line@)[1]));
            }
        }
        i += 1;
    }
    assert(all.take(i as int) =~= all);
    pids
}

/// Whether a task is being worked on.
pub open spec fn liveness(pids: Seq<Seq<char>>) -> Seq<char> {
    if pids.len() == 0 {
        "not running"@
    } else {
        "running (pid "@ + join(pids, ", "@) + ")"@
    }
}

/// The first eight bytes of a session's id.
pub open spec fn short_id(id: Seq<char>) -> Seq<char> {
    decode_utf8(encode_utf8(id).subrange(0, 8))
}

/// Whether a session's id has eight bytes that can be shown on their own.
pub open spec fn can_be_shortened(id: Seq<char>) -> bool {
    is_char_boundary(encode_utf8(id), 8)
}

fn shortened(id: &str) -> (short: String)
    requires
        can_be_shortened(id@),
    ensures
        short@ == short_id(id@),
{
    let short = id.split_at(8).0;
    proof {
        vstd::utf8::encode_utf8_decode_utf8(short@);
        assert(encode_utf8(short@) == encode_utf8(id@).subrange(0, 8));
    }
    short.to_owned()
}

/// The lines of a log, each set in.
pub open spec fn indented(lines: Seq<Seq<char>>) -> Seq<char>
    decreases lines.len(),
{
    if lines.len() == 0 {
        Seq::empty()
    } else {
        indented(lines.drop_last()) + ("  "@ + lines.last() + "\n"@)
    }
}

fn indented_text(content: &str) -> (text: String)
    ensures
        text@ == indented(lines(content@)),
{
    let all_lines = lines_of(content);
    let ghost all = all_lines.deep_view();
    let mut text = String::new();
    let mut i: usize = 0;
    assert(text@ =~= indented(all.take(0)));
    while i < all_lines.len()
        invariant
            all == all_lines.deep_view(),
            i <= all_lines@.len(),
            text@ == indented(all.take(i as int)),
        decreases all_lines@.len() - i,
    {
        assert(all.take(i + 1).drop_last() =~= all.take(i as int));
        assert(all.take(i + 1).last() == all_lines@[i as int]@);
        text.append(cat3("  ", all_lines[i].as_str(), "\n").as_str());
        i += 1;
    }
    assert(all.take(i as int) =~= all);
    text
}

/// What is shown of the log of a session.
pub open spec fn log_section(path: Option<Seq<char>>, reading: LogReading) -> Seq<char> {
    match path {
        None => "  (no log path recorded)\n"@,
        Some(path) => "  log: "@ + path + "\n"@ + (match reading {
            LogReading::Content(content) => "  ---\n"@ + indented(lines(content@)) + "  ---\n"@,
            LogReading::Unreadable(reason) => "  (could not read log: "@ + reason@ + ")\n"@,
        }),
    }
}

/// The path of the log of the session at `i`, where one was recorded.
pub open spec fn log_at(task: TaskFrontmatter, i: int) -> Option<Seq<char>> {
    if 0 <= i < task.agent_session_logs@.len() {
        Some(task.agent_session_logs@[i]@)
    } else {
        None
    }
}

/// What is shown of the first `n` sessions of a task.
pub open spec fn session_sections(task: TaskFrontmatter, readings: Seq<LogReading>, live: Seq<char>, n: int) -> Seq<char>
    decreases n,
{
    if n <= 0 {
        Seq::empty()
    } else {
        session_sections(task, readings, live, n - 1) + ("\n### Session "@ + short_id(
            task.agent_session_ids@[n - 1]@,
        ) + " — "@ + live + "\n"@ + log_section(log_at(task, n - 1), readings[n - 1]))
    }
}

/// Everything that is known of a task, `routed` being where it is routed to.
pub open spec fn inspection(
    config: &Config,
    path: Seq<char>,
    task: TaskDocument,
    routed: Result<RouteMatch, String>,
    ps_output: Seq<char>,
    readings: Seq<LogReading>,
) -> Seq<char> {
    let fm = task.frontmatter;
    let assignee = or_none(fm.assignee.deep_view());
    let live = liveness(live_pids(lines(ps_output), path));
    "# Task "@ + path + "\n\nstatus: "@ + fm.status.name() + "  assignee: "@ + assignee + "  project: "@ + or_none(
        fm.project.deep_view(),
    ) + "\n\n"@ + (if config.agents@.dom().contains(assignee) {
        agent_section(assignee, config.agents@[assignee])
    } else {
        Seq::empty()
    }) + route_section(routed) + "## Sessions ("@ + decimal(fm.agent_session_ids@.len()) + ")\n"@
        + (if fm.agent_session_ids@.len() == 0 {
        "  none\n"@
    } else {
        Seq::empty()
    }) + session_sections(fm, readings, live, fm.agent_session_ids@.len() as int)
}

/// Everything that is known of a task. `ps_output` lists the processes of the host;
/// `readings` holds, for each session, what became of reading its log.
pub fn inspect_task(
    config: &Config,
    task_path: &str,
    task: &TaskDocument,
    sizes: &PromptSizes,
    ps_output: &str,
    readings: &Vec<LogReading>,
) -> (text: String)
    requires
        prompt_size(config, task, false, *sizes) <= usize::MAX,
        readings@.len() == task.frontmatter.agent_session_ids@.len(),
        forall|i: int|
            0 <= i < task.frontmatter.agent_session_ids@.len() ==> can_be_shortened(
                (#[trigger] task.frontmatter.agent_session_ids@[i])@,
            ),
    ensures
        exists|routed: Result<RouteMatch, String>| #[trigger]
            task_routed(config, task, false, *sizes, routed) && text@ == inspection(
                config,
                task_path@,
                *task,
                routed,
                ps_output@,
                readings@,
            ),
{
    let fm = &task.frontmatter;
    let assignee = text_or_none(&fm.assignee);
    let agent = match config.agents.get(assignee) {
        Some(agent) => agent_text(assignee, agent),
        None => String::new(),
    };
    let routed = match_route_for_task(config, task, false, sizes);
    assert(task_routed(config, task, false, *sizes, routed));
    let pids = pids_of(ps_output, task_path);
    let live = if pids.len() == 0 {
        "not running".to_owned()
    } else {
        "running (pid ".to_owned().concat(joined(&pids, ", ").as_str()).concat(")")
    };
    assert(live@ == liveness(live_pids(lines(ps_output@), task_path@)));
    let mut sessions = String::new();
    let mut i: usize = 0;
    assert(sessions@ =~= session_sections(*fm, readings@, live@, 0));
    while i < fm.agent_session_ids.len()
        invariant
            *fm == task.frontmatter,
            readings@.len() == fm.agent_session_ids@.len(),
            forall|j: int|
                0 <= j < fm.agent_session_ids@.len() ==> can_be_shortened((#[trigger] fm.agent_session_ids@[j])@),
            i <= fm.agent_session_ids@.len(),
            sessions@ == session_sections(*fm, readings@, live@, i as int),
        decreases fm.agent_session_ids@.len() - i,
    {
        let log = if i < fm.agent_session_logs.len() {
            let rest = match &readings[i] {
                LogReading::Content(content) => "  ---\n".to_owned().concat(
                    indented_text(content.as_str()).as_str(),
                ).concat("  ---\n"),
                LogReading::Unreadable(reason) => "  (could not read log: ".to_owned().concat(
                    reason.as_str(),
                ).concat(")\n"),
            };
            "  log: ".to_owned().concat(fm.agent_session_logs[i].as_str()).concat("\n").concat(rest.as_str())
        } else {
            "  (no log path recorded)\n".to_owned()
        };
        assert(log@ == log_section(log_at(*fm, i as int), readings@[i as int]));
        let section = "\n### Session ".to_owned().concat(
            shortened(fm.agent_session_ids[i].as_str()).as_str(),
        ).concat(" — ").concat(live.as_str()).concat("\n").concat(log.as_str());
        sessions.append(section.as_str());
        i += 1;
    }
    let none = if fm.agent_session_ids.len() == 0 {
        "  none\n"
    } else {
        ""
    };
    proof {
        reveal_strlit("");
        assert(""@ =~= Seq::<char>::empty());
    }
    "# Task ".to_owned().concat(task_path).concat("\n\nstatus: ").concat(fm.status.debug_name()).concat(
        "  assignee: ",
    ).concat(assignee).concat("  project: ").concat(text_or_none(&fm.project)).concat("\n\n").concat(
        agent.as_str(),
    ).concat(route_text(&routed).as_str()).concat("## Sessions (").concat(
        decimal_of(fm.agent_session_ids.len() as u64).as_str(),
    ).concat(")\n").concat(none).concat(sessions.as_str())
}

// ---------------------------------------------------------------------------
// Laws
// ---------------------------------------------------------------------------

/// The processes that work on a task are those whose lines name it: the number of each is the
/// second word of its line, and they come in the order of the lines.
pub proof fn law_processes_are_found_by_the_task(rows: Seq<Seq<char>>, task: Seq<char>)
    ensures
        selection(
            Seq::new(rows.len(), |i: int| words(rows[i])[1]),
            |i: int| holds(rows[i], task) && words(rows[i]).len() > 1,
            live_pids(rows, task),
        ),
{
    let keep = |i: int| holds(rows[i], task) && words(rows[i]).len() > 1;
    lemma_live_pids(rows, task, keep);
}

proof fn lemma_live_pids(rows: Seq<Seq<char>>, task: Seq<char>, keep: spec_fn(int) -> bool)
    requires
        forall|i: int| 0 <= i < rows.len() ==> #[trigger] keep(i) == (holds(rows[i], task) && words(rows[i]).len() > 1),
    ensures
        selection(Seq::new(rows.len(), |i: int| words(rows[i])[1]), keep, live_pids(rows, task)),
    decreases rows.len(),
{
    let all = Seq::new(rows.len(), |i: int| words(rows[i])[1]);
    if rows.len() == 0 {
        lemma_selection_empty::<Seq<char>>(keep);
        assert(all =~= Seq::empty());
    } else {
        let front = rows.drop_last();
        lemma_live_pids(front, task, keep);
        assert(all.drop_last() =~= Seq::new(front.len(), |i: int| words(front[i])[1]));
        lemma_selection_push(all, keep, live_pids(front, task));
        assert(keep(rows.len() - 1) == (holds(rows[rows.len() - 1], task) && words(rows[rows.len() - 1]).len() > 1));
    }
}

/// A task is being worked on exactly where there are such processes, and each is named, in
/// order.
pub proof fn law_live_tasks_name_their_processes(pids: Seq<Seq<char>>)
    ensures
        pids.len() == 0 ==> liveness(pids) == "not running"@,
        pids.len() > 0 ==> begins(liveness(pids), "running"@) && holds_in_order(liveness(pids), pids),
{
    if pids.len() > 0 {
        reveal_strlit("running (pid ");
        reveal_strlit("running");
        law_joined_parts_stand_in_order(pids, ", "@);
        lemma_in_order_within("running (pid "@, join(pids, ", "@), ")"@, pids);
        assert(liveness(pids).subrange(0, 7) =~= "running"@);
    }
}

/// The log of a session is shown under its path, line by line, in order, or else why it could
/// not be read.
pub proof fn law_logs_are_shown_line_by_line(path: Seq<char>, reading: LogReading)
    ensures
        begins(log_section(Some(path), reading), "  log: "@ + path + "\n"@),
        match reading {
            LogReading::Content(content) => holds_in_order(log_section(Some(path), reading), lines(content@)),
            LogReading::Unreadable(reason) => holds(log_section(Some(path), reading), reason@),
        },
{
    let head = "  log: "@ + path + "\n"@;
    let section = log_section(Some(path), reading);
    assert(section.subrange(0, head.len() as int) =~= head);
    match reading {
        LogReading::Content(content) => {
            let rows = lines(content@);
            lemma_indented(rows);
            lemma_in_order_joined(indented(rows), "  ---\n"@, rows);
            lemma_in_order_joined("  ---\n"@ + indented(rows), "  ---\n"@, rows);
            lemma_in_order_joined("  ---\n"@ + indented(rows) + "  ---\n"@, head, rows);
        },
        LogReading::Unreadable(reason) => {
            let lead = head + "  (could not read log: "@;
            lemma_holds_within(lead, reason@, ")\n"@);
            assert(section =~= lead + reason@ + ")\n"@);
        },
    }
}

proof fn lemma_indented(rows: Seq<Seq<char>>)
    ensures
        holds_in_order(indented(rows), rows),
    decreases rows.len(),
{
    if rows.len() == 0 {
        lemma_in_order_empty(indented(rows));
        assert(rows =~= Seq::empty());
    } else {
        let front = rows.drop_last();
        lemma_indented(front);
        lemma_in_order_push(indented(front), front, "  "@, rows.last(), "\n"@);
        assert(front.push(rows.last()) =~= rows);
    }
}

/// What is known of a task begins with its path, its status, whom it is assigned to and its
/// project, and shows each session by the log that was recorded for it, in order.
pub proof fn law_inspections_begin_with_the_task(
    config: &Config,
    path: Seq<char>,
    task: TaskDocument,
    routed: Result<RouteMatch, String>,
    ps_output: Seq<char>,
    readings: Seq<LogReading>,
)
    ensures
        ({
            let text = inspection(config, path, task, routed, ps_output, readings);
            let fm = task.frontmatter;
            &&& begins(text, "# Task "@ + path + "\n\nstatus: "@ + fm.status.name() + "  assignee: "@)
            &&& session_sections(
                fm,
                readings,
                liveness(live_pids(lines(ps_output), path)),
                fm.agent_session_ids@.len() as int,
            ).is_suffix_of(text)
        }),
{
    let text = inspection(config, path, task, routed, ps_output, readings);
    let fm = task.frontmatter;
    let head = "# Task "@ + path + "\n\nstatus: "@ + fm.status.name() + "  assignee: "@;
    let sections = session_sections(
        fm,
        readings,
        liveness(live_pids(lines(ps_output), path)),
        fm.agent_session_ids@.len() as int,
    );
    assert(text.subrange(0, head.len() as int) =~= head);
    assert(text.subrange(text.len() - sections.len(), text.len() as int) =~= sections);
}

/// Each session of a task is shown under the beginning of its id and with what was read of its
/// own log, after the sessions before it.
pub proof fn law_sessions_are_shown_with_their_logs(
    task: TaskFrontmatter,
    readings: Seq<LogReading>,
    live: Seq<char>,
    n: int,
)
    requires
        0 < n <= task.agent_session_ids@.len(),
        readings.len() == task.agent_session_ids@.len(),
    ensures
        ({
            let shown = session_sections(task, readings, live, n);
            let log = if n <= task.agent_session_logs@.len() {
                Some(task.agent_session_logs@[n - 1]@)
            } else {
                None
            };
            &&& begins(shown, session_sections(task, readings, live, n - 1))
            &&& log_section(log, readings[n - 1]).is_suffix_of(shown)
            &&& holds_in_order(shown, seq![short_id(task.agent_session_ids@[n - 1]@), live])
        }),
{
    let shown = session_sections(task, readings, live, n);
    let earlier = session_sections(task, readings, live, n - 1);
    let log = log_section(log_at(task, n - 1), readings[n - 1]);
    let id = short_id(task.agent_session_ids@[n - 1]@);
    assert(shown.subrange(0, earlier.len() as int) =~= earlier);
    assert(shown.subrange(shown.len() - log.len(), shown.len() as int) =~= log);
    crate::text::lemma_two_in_order(earlier + "\n### Session "@, id, " — "@, live, "\n"@ + log);
    assert(shown =~= earlier + "\n### Session "@ + id + " — "@ + live + ("\n"@ + log));
}

} // verus!
