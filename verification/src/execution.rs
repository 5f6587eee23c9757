//! The steps of a run around its sessions: starting it, the requests to the agent,
//! the files that are written and the pass that interprets an interactive session.

use vstd::prelude::*;
use vstd::string::*;

use crate::config::{Config, RECAPS_DIRNAME, RUNS_DIRNAME};
use crate::paths::{below, file_stem, file_stem_of, join_path};
use crate::runner::{AgentRunResult, ResultView};
use crate::task::{copy_frontmatter, FrontmatterView, TaskDocument, TaskFrontmatter, TaskStatus};
use crate::text::{
    begins, cat, cat3, decimal, decimal_of, holds, holds_in_order, lemma_four_in_order, lemma_holds_within,
    lemma_three_in_order, lemma_two_in_order,
};

verus! {

// ---------------------------------------------------------------------------
// Files
// ---------------------------------------------------------------------------

/// The log of a session.
pub open spec fn log_file(operations_dir: Seq<char>, session_id: Seq<char>) -> Seq<char> {
    below(below(operations_dir, RUNS_DIRNAME@), session_id + ".log"@)
}

/// The log of a session.
pub fn session_log_path(config: &Config, session_id: &str) -> (path: String)
    ensures
        path@ == log_file(config.defaults.operations_dir@, session_id@),
{
    let runs = join_path(config.defaults.operations_dir.as_str(), RUNS_DIRNAME);
    join_path(runs.as_str(), cat(session_id, ".log").as_str())
}

/// The file of a recap.
pub open spec fn recap_file(operations_dir: Seq<char>, recap_id: Seq<char>) -> Seq<char> {
    below(below(operations_dir, RECAPS_DIRNAME@), recap_id + ".md"@)
}

/// The file of a recap.
pub fn recap_path(config: &Config, recap_id: &str) -> (path: String)
    ensures
        path@ == recap_file(config.defaults.operations_dir@, recap_id@),
{
    let recaps = join_path(config.defaults.operations_dir.as_str(), RECAPS_DIRNAME);
    join_path(recaps.as_str(), cat(recap_id, ".md").as_str())
}

/// What is written to the file of a recap.
pub fn recap_content(task_path: &str, recap: &str) -> (content: String)
    ensures
        content@ == "---\ntask: "@ + task_path@ + "\n---\n\n"@ + recap@,
{
    "---\ntask: ".to_owned().concat(task_path).concat("\n---\n\n").concat(recap)
}

/// The file of a task's plan.
pub open spec fn plan_file(operations_dir: Seq<char>, task_path: Seq<char>) -> Seq<char> {
    let stem = match file_stem_of(task_path) {
        Some(stem) => stem,
        None => "task"@,
    };
    below(below(operations_dir, "plans"@), stem + "-plan.md"@)
}

/// The file of a task's plan.
pub fn plan_path(config: &Config, task_path: &str) -> (path: String)
    ensures
        path@ == plan_file(config.defaults.operations_dir@, task_path@),
{
    let stem = match file_stem(task_path) {
        Some(stem) => stem,
        None => "task".to_owned(),
    };
    let plans = join_path(config.defaults.operations_dir.as_str(), "plans");
    join_path(plans.as_str(), stem.concat("-plan.md").as_str())
}

// ---------------------------------------------------------------------------
// Starting a run
// ---------------------------------------------------------------------------

/// The report of a task that may not be run.
pub open spec fn not_ready_text(task_path: Seq<char>, status: TaskStatus) -> Seq<char> {
    "task "@ + task_path + " is not ready; current status is "@ + status.name()
}

/// Whether a session has been added to a task: only the lists of its sessions and
/// their logs have grown, and the task is at `status`.
pub open spec fn session_added(
    before: TaskDocument,
    after: TaskDocument,
    status: TaskStatus,
    session_id: Seq<char>,
    log: Seq<char>,
) -> bool {
    &&& after == (TaskDocument {
        frontmatter: TaskFrontmatter {
            status,
            agent_session_ids: after.frontmatter.agent_session_ids,
            agent_session_logs: after.frontmatter.agent_session_logs,
            ..before.frontmatter
        },
        ..before
    })
    &&& after.frontmatter.agent_session_ids.deep_view() == before.frontmatter.agent_session_ids.deep_view().push(
        session_id,
    )
    &&& after.frontmatter.agent_session_logs.deep_view() == before.frontmatter.agent_session_logs.deep_view().push(
        log,
    )
}

/// Adds a session to a task.
pub fn add_session(task: &mut TaskDocument, session_id: &str, session_log_path: &str)
    ensures
        session_added(
            *old(task),
            *final(task),
            old(task).frontmatter.status,
            session_id@,
            session_log_path@,
        ),
{
    let ghost ids = task.frontmatter.agent_session_ids.deep_view();
    let ghost logs = task.frontmatter.agent_session_logs.deep_view();
    task.frontmatter.agent_session_ids.push(session_id.to_owned());
    task.frontmatter.agent_session_logs.push(session_log_path.to_owned());
    assert(task.frontmatter.agent_session_ids.deep_view() =~= ids.push(session_id@));
    assert(task.frontmatter.agent_session_logs.deep_view() =~= logs.push(session_log_path@));
}

/// Starts a run of a task that is ready: the task is running and has one session
/// more. A task that is not ready is left as it is.
pub fn begin_run(task: &mut TaskDocument, task_path: &str, session_id: &str, session_log_path: &str) -> (started: Result<
    (),
    String,
>)
    ensures
        match started {
            Ok(()) => {
                &&& old(task).frontmatter.status == TaskStatus::Ready
                &&& session_added(
                    *old(task),
                    *final(task),
                    TaskStatus::Running,
                    session_id@,
                    session_log_path@,
                )
            },
            Err(text) => {
                &&& old(task).frontmatter.status != TaskStatus::Ready
                &&& text@ == not_ready_text(task_path@, old(task).frontmatter.status)
                &&& *final(task) == *old(task)
            },
        },
{
    if task.frontmatter.status != TaskStatus::Ready {
        return Err(
            "task ".to_owned().concat(task_path).concat(" is not ready; current status is ").concat(
                task.frontmatter.status.debug_name(),
            ),
        );
    }
    task.set_status(TaskStatus::Running);
    add_session(task, session_id, session_log_path);
    Ok(())
}

/// Keeps a command that continues a session.
pub fn keep_resume_command(task: &mut TaskDocument, resume: &str)
    ensures
        *final(task) == (TaskDocument {
            frontmatter: TaskFrontmatter {
                agent_resume_commands: final(task).frontmatter.agent_resume_commands,
                ..old(task).frontmatter
            },
            ..*old(task)
        }),
        final(task).frontmatter.agent_resume_commands.deep_view() == old(
            task,
        ).frontmatter.agent_resume_commands.deep_view().push(resume@),
{
    let ghost before = task.frontmatter.agent_resume_commands.deep_view();
    task.frontmatter.agent_resume_commands.push(resume.to_owned());
    assert(task.frontmatter.agent_resume_commands.deep_view() =~= before.push(resume@));
}

/// How the log of a session begins.
pub open spec fn log_header(session_id: Seq<char>, agent: Seq<char>, task: Seq<char>) -> Seq<char> {
    "session_id="@ + session_id + "\nagent="@ + agent + "\ntask="@ + task + "\n"@
}

/// How the log of a session begins.
pub fn session_log_header(session_id: &str, agent_name: &str, task_path: &str) -> (text: String)
    ensures
        text@ == log_header(session_id@, agent_name@, task_path@),
{
    "session_id=".to_owned().concat(session_id).concat("\nagent=").concat(agent_name).concat("\ntask=").concat(
        task_path,
    ).concat("\n")
}

/// How the log of a session begins that continues another one by hand.
pub fn resumed_log_header(session_id: &str, agent_name: &str, task_path: &str, resume: &str) -> (text: String)
    ensures
        text@ == log_header(session_id@, agent_name@, task_path@) + "resume_command="@ + resume@
            + "\n[interactive_resume]\n"@,
{
    session_log_header(session_id, agent_name, task_path).concat("resume_command=").concat(resume).concat(
        "\n[interactive_resume]\n",
    )
}

/// How the log of a session begins that continues a run.
pub fn continued_log_header(
    session_id: &str,
    agent_name: &str,
    task_path: &str,
    resume: &str,
    hop: u32,
    max_continuations: u32,
) -> (text: String)
    ensures
        text@ == log_header(session_id@, agent_name@, task_path@) + "resume_command="@ + resume@
            + "\n[auto_resume hop="@ + decimal(hop as nat) + "/"@ + decimal(max_continuations as nat) + "]\n"@,
{
    session_log_header(session_id, agent_name, task_path).concat("resume_command=").concat(resume).concat(
        "\n[auto_resume hop=",
    ).concat(decimal_of(hop as u64).as_str()).concat("/").concat(
        decimal_of(max_continuations as u64).as_str(),
    ).concat("]\n")
}

// ---------------------------------------------------------------------------
// Requests
// ---------------------------------------------------------------------------

/// What an agent is asked to do.
#[derive(Debug, PartialEq, Eq)]
pub struct AgentRunRequest {
    pub agent_name: String,
    pub role_instructions: Option<String>,
    pub task_path: String,
    pub frontmatter: TaskFrontmatter,
    pub body: String,
    /// How long the agent is told that it has, in seconds.
    pub timeout: u64,
    pub session_id: String,
    pub session_log_path: Option<String>,
    /// Whether the user takes part.
    pub interactive: bool,
    /// Whether the agent interprets another session.
    pub interpret: bool,
    /// Whether the output is shown as it comes.
    pub stream: bool,
    pub resume_command: Option<String>,
    /// Where the broker of the run listens, once there is one: a socket, or an
    /// address.
    pub orchestration_socket_path: Option<String>,
    pub orchestration_addr: Option<String>,
}

/// What an [`AgentRunRequest`] says.
pub struct RequestView {
    pub agent_name: Seq<char>,
    pub role_instructions: Option<Seq<char>>,
    pub task_path: Seq<char>,
    pub frontmatter: FrontmatterView,
    pub body: Seq<char>,
    pub timeout: u64,
    pub session_id: Seq<char>,
    pub session_log_path: Option<Seq<char>>,
    pub interactive: bool,
    pub interpret: bool,
    pub stream: bool,
    pub resume_command: Option<Seq<char>>,
    pub orchestration_socket_path: Option<Seq<char>>,
    pub orchestration_addr: Option<Seq<char>>,
}

impl View for AgentRunRequest {
    type V = RequestView;

    open spec fn view(&self) -> RequestView {
        RequestView {
            agent_name: self.agent_name@,
            role_instructions: self.role_instructions.deep_view(),
            task_path: self.task_path@,
            frontmatter: self.frontmatter@,
            body: self.body@,
            timeout: self.timeout,
            session_id: self.session_id@,
            session_log_path: self.session_log_path.deep_view(),
            interactive: self.interactive,
            interpret: self.interpret,
            stream: self.stream,
            resume_command: self.resume_command.deep_view(),
            orchestration_socket_path: self.orchestration_socket_path.deep_view(),
            orchestration_addr: self.orchestration_addr.deep_view(),
        }
    }
}

/// An optional string of its own.
fn owned(text: Option<&str>) -> (copy: Option<String>)
    ensures
        copy.deep_view() == text.deep_view(),
{
    match text {
        Some(text) => Some(text.to_owned()),
        None => None,
    }
}

/// The request for the first session of a run.
pub fn run_request(
    agent_name: &str,
    role_instructions: Option<&str>,
    task_path: &str,
    frontmatter: &TaskFrontmatter,
    body: &str,
    timeout: u64,
    session_id: &str,
    session_log_path: &str,
    interactive: bool,
    stream: bool,
) -> (request: AgentRunRequest)
    ensures
        request@ == (RequestView {
            agent_name: agent_name@,
            role_instructions: role_instructions.deep_view(),
            task_path: task_path@,
            frontmatter: frontmatter@,
            body: body@,
            timeout,
            session_id: session_id@,
            session_log_path: Some(session_log_path@),
            interactive,
            interpret: false,
            stream,
            resume_command: None,
            orchestration_socket_path: None,
            orchestration_addr: None,
        }),
{
    AgentRunRequest {
        agent_name: agent_name.to_owned(),
        role_instructions: owned(role_instructions),
        task_path: task_path.to_owned(),
        frontmatter: copy_frontmatter(frontmatter),
        body: body.to_owned(),
        timeout,
        session_id: session_id.to_owned(),
        session_log_path: Some(session_log_path.to_owned()),
        interactive,
        interpret: false,
        stream,
        resume_command: None,
        orchestration_socket_path: None,
        orchestration_addr: None,
    }
}

/// The request for a session that continues another one. The session knows its
/// task, so no body is sent.
pub fn resume_request(
    agent_name: &str,
    role_instructions: Option<&str>,
    task_path: &str,
    frontmatter: &TaskFrontmatter,
    timeout: u64,
    session_id: &str,
    session_log_path: &str,
    interactive: bool,
    stream: bool,
    resume: &str,
) -> (request: AgentRunRequest)
    ensures
        request@ == (RequestView {
            agent_name: agent_name@,
            role_instructions: role_instructions.deep_view(),
            task_path: task_path@,
            frontmatter: frontmatter@,
            body: Seq::empty(),
            timeout,
            session_id: session_id@,
            session_log_path: Some(session_log_path@),
            interactive,
            interpret: false,
            stream,
            resume_command: Some(resume@),
            orchestration_socket_path: None,
            orchestration_addr: None,
        }),
{
    AgentRunRequest {
        agent_name: agent_name.to_owned(),
        role_instructions: owned(role_instructions),
        task_path: task_path.to_owned(),
        frontmatter: copy_frontmatter(frontmatter),
        body: String::new(),
        timeout,
        session_id: session_id.to_owned(),
        session_log_path: Some(session_log_path.to_owned()),
        interactive,
        interpret: false,
        stream,
        resume_command: Some(resume.to_owned()),
        orchestration_socket_path: None,
        orchestration_addr: None,
    }
}

/// The request for planning a task.
pub fn plan_request(
    agent_name: &str,
    role_instructions: Option<&str>,
    task_path: &str,
    frontmatter: &TaskFrontmatter,
    body: &str,
    timeout: u64,
    session_id: &str,
) -> (request: AgentRunRequest)
    ensures
        request@ == (RequestView {
            agent_name: agent_name@,
            role_instructions: role_instructions.deep_view(),
            task_path: task_path@,
            frontmatter: frontmatter@,
            body: body@,
            timeout,
            session_id: session_id@,
            session_log_path: None,
            interactive: false,
            interpret: false,
            stream: false,
            resume_command: None,
            orchestration_socket_path: None,
            orchestration_addr: None,
        }),
{
    AgentRunRequest {
        agent_name: agent_name.to_owned(),
        role_instructions: owned(role_instructions),
        task_path: task_path.to_owned(),
        frontmatter: copy_frontmatter(frontmatter),
        body: body.to_owned(),
        timeout,
        session_id: session_id.to_owned(),
        session_log_path: None,
        interactive: false,
        interpret: false,
        stream: false,
        resume_command: None,
        orchestration_socket_path: None,
        orchestration_addr: None,
    }
}

// ---------------------------------------------------------------------------
// Interpreting an interactive session
// ---------------------------------------------------------------------------

/// The agent that interprets the interactive sessions of an agent: the one that it
/// names, where that is known, or else itself.
pub open spec fn interpreter_of(config: &Config, agent: Seq<char>) -> Seq<char> {
    if config.agents@.dom().contains(agent) {
        match config.agents@[agent].interpreter_agent {
            Some(name) => if config.agents@.dom().contains(name@) {
                name@
            } else {
                agent
            },
            None => agent,
        }
    } else {
        agent
    }
}

/// The agent that interprets the interactive sessions of an agent.
pub fn interpreter_agent<'a>(config: &'a Config, agent_name: &'a str) -> (name: &'a str)
    ensures
        name@ == interpreter_of(config, agent_name@),
{
    match config.agents.get(agent_name) {
        Some(agent) => match &agent.interpreter_agent {
            Some(name) => if config.agents.contains(name.as_str()) {
                name.as_str()
            } else {
                agent_name
            },
            None => agent_name,
        },
        None => agent_name,
    }
}

/// The warning about an agent that names an interpreter which is not known.
pub open spec fn interpreter_fallback(config: &Config, agent: Seq<char>) -> Option<Seq<char>> {
    if config.agents@.dom().contains(agent) {
        match config.agents@[agent].interpreter_agent {
            Some(name) => if config.agents@.dom().contains(name@) {
                None
            } else {
                Some(
                    "warning: interpreter_agent '"@ + name@ + "' configured for agent '"@ + agent
                        + "' is not a known agent; falling back to '"@ + agent + "' for the interpretation pass"@,
                )
            },
            None => None,
        }
    } else {
        None
    }
}

/// The warning about an agent that names an interpreter which is not known.
pub fn interpreter_warning(config: &Config, agent_name: &str) -> (warning: Option<String>)
    ensures
        warning.deep_view() == interpreter_fallback(config, agent_name@),
{
    match config.agents.get(agent_name) {
        Some(agent) => match &agent.interpreter_agent {
            Some(name) => if config.agents.contains(name.as_str()) {
                None
            } else {
                Some(
                    "warning: interpreter_agent '".to_owned().concat(name.as_str()).concat(
                        "' configured for agent '",
                    ).concat(agent_name).concat("' is not a known agent; falling back to '").concat(agent_name).concat(
                        "' for the interpretation pass",
                    ),
                )
            },
            None => None,
        },
        None => None,
    }
}

pub const INTERPRET_BRIEF: &'static str =
    "An interactive Varda session for the task just finished. Read the session log content below AND the embedded external transcript(s) — the transcript holds the agent's actual actions and outcomes — then produce the Varda recap. Varda has already inlined any referenced external transcripts below because the interpreter is sandboxed and may not be able to open them; do NOT try to open files under ~/.copilot or ~/.codex yourself. Do not perform any new work.\n\n## Original task body\n\n";

/// What the interpreting agent is given to read.
pub open spec fn interpretation_brief(
    task_body: Seq<char>,
    log_path: Seq<char>,
    excerpt: Seq<char>,
    transcripts: Seq<char>,
) -> Seq<char> {
    INTERPRET_BRIEF@ + task_body + "\n\n## Session log\n\nPath: "@ + log_path + "\n\n```\n"@ + excerpt
        + "\n```\n"@ + transcripts
}

/// The request for interpreting an interactive session.
pub fn interpretation_request(
    config: &Config,
    agent_name: &str,
    role_instructions: Option<&str>,
    task_path: &str,
    frontmatter: &TaskFrontmatter,
    task_body: &str,
    parent_session_id: &str,
    session_log_path: &str,
    log_excerpt: &str,
    external_transcripts: &str,
    timeout: u64,
) -> (request: AgentRunRequest)
    ensures
        request@ == (RequestView {
            agent_name: interpreter_of(config, agent_name@),
            role_instructions: role_instructions.deep_view(),
            task_path: task_path@,
            frontmatter: frontmatter@,
            body: interpretation_brief(task_body@, session_log_path@, log_excerpt@, external_transcripts@),
            timeout,
            session_id: parent_session_id@ + "-interpret"@,
            session_log_path: Some(session_log_path@),
            interactive: false,
            interpret: true,
            stream: false,
            resume_command: None,
            orchestration_socket_path: None,
            orchestration_addr: None,
        }),
{
    let body = INTERPRET_BRIEF.to_owned().concat(task_body).concat("\n\n## Session log\n\nPath: ").concat(
        session_log_path,
    ).concat("\n\n```\n").concat(log_excerpt).concat("\n```\n").concat(external_transcripts);
    AgentRunRequest {
        agent_name: interpreter_agent(config, agent_name).to_owned(),
        role_instructions: owned(role_instructions),
        task_path: task_path.to_owned(),
        frontmatter: copy_frontmatter(frontmatter),
        body,
        timeout,
        session_id: cat(parent_session_id, "-interpret"),
        session_log_path: Some(session_log_path.to_owned()),
        interactive: false,
        interpret: true,
        stream: false,
        resume_command: None,
        orchestration_socket_path: None,
        orchestration_addr: None,
    }
}

/// The recap of an interactive session that could not be interpreted.
pub open spec fn uninterpreted_recap(resumed: bool, error: Seq<char>, recap: Seq<char>, log: Seq<char>) -> Seq<char> {
    "# Interactive Session Completed\n\nThe "@ + (if resumed {
        "resumed "@
    } else {
        ""@
    })
        + "interactive session ended successfully but Varda's interpreter pass failed: "@
        + error + "\n\nFalling back to the agent's session-end output.\n\n"@ + recap + "\n\nSession log: ["@ + log
        + "]("@ + log + ")\n\nrequires_user: false"@
}

/// The result of an interactive session that could not be interpreted.
pub fn uninterpreted_result(resumed: bool, error: &str, session_recap: &str, session_log_path: &str) -> (result: AgentRunResult)
    ensures
        result@ == (ResultView {
            recap: uninterpreted_recap(resumed, error@, session_recap@, session_log_path@),
            requires_user: false,
            suggested_agent: None,
            resume_command: None,
        }),
{
    let kind = if resumed {
        "resumed "
    } else {
        ""
    };
    let recap = "# Interactive Session Completed\n\nThe ".to_owned().concat(kind).concat(
        "interactive session ended successfully but Varda's interpreter pass failed: ",
    ).concat(error).concat("\n\nFalling back to the agent's session-end output.\n\n").concat(session_recap).concat(
        "\n\nSession log: [",
    ).concat(session_log_path).concat("](").concat(session_log_path).concat(")\n\nrequires_user: false");
    AgentRunResult { recap, requires_user: false, suggested_agent: None, resume_command: None }
}

/// What is added to a log where interpreting failed.
pub fn interpretation_error_log(causes: &str) -> (text: String)
    ensures
        text@ == "\ninterpretation_error:\n"@ + causes@ + "\n"@,
{
    cat3("\ninterpretation_error:\n", causes, "\n")
}

// ---------------------------------------------------------------------------
// Planning
// ---------------------------------------------------------------------------

/// How planning ended.
#[derive(Debug, PartialEq, Eq)]
pub enum PlanEnd {
    /// The agent wrote a plan.
    Planned(String),
    /// The agent failed.
    Failed(String),
    /// The agent took too long.
    TimedOut,
}

/// What is kept as the plan.
pub open spec fn plan_of(end: PlanEnd, task: Seq<char>, timeout_seconds: u64) -> Seq<char> {
    match end {
        PlanEnd::Planned(plan) => plan@,
        PlanEnd::Failed(error) => "# Planning Failed\n\nThe agent failed while planning `"@ + task
            + "`.\n\nError: "@ + error@,
        PlanEnd::TimedOut => "# Planning Timed Out\n\nThe agent exceeded the configured "@ + decimal(
            timeout_seconds as nat,
        ) + " second limit while planning `"@ + task + "`."@,
    }
}

/// What is kept as the plan.
pub fn plan_text(end: PlanEnd, task_path: &str, timeout_seconds: u64) -> (plan: String)
    ensures
        plan@ == plan_of(end, task_path@, timeout_seconds),
{
    match end {
        PlanEnd::Planned(plan) => plan,
        PlanEnd::Failed(error) => "# Planning Failed\n\nThe agent failed while planning `".to_owned().concat(
            task_path,
        ).concat("`.\n\nError: ").concat(error.as_str()),
        PlanEnd::TimedOut => "# Planning Timed Out\n\nThe agent exceeded the configured ".to_owned().concat(
            decimal_of(timeout_seconds).as_str(),
        ).concat(" second limit while planning `").concat(task_path).concat("`."),
    }
}

// ---------------------------------------------------------------------------
// Laws
// ---------------------------------------------------------------------------

/// Below the directory of operations the logs of sessions lie in `runs`, recaps in `recaps`
/// and plans in `plans`, each under its own name; other sessions have other logs, and other
/// recaps other files.
pub proof fn law_files_lie_in_their_directories(
    config: &Config,
    session_id: &str,
    log: String,
    recap_id: &str,
    recap: String,
    task_path: &str,
    stem: Option<String>,
    plan: String,
)
    requires
        call_ensures(session_log_path, (config, session_id), log),
        call_ensures(recap_path, (config, recap_id), recap),
        call_ensures(plan_path, (config, task_path), plan),
        call_ensures(file_stem, (task_path,), stem),
        config.defaults.operations_dir@.len() > 0,
        config.defaults.operations_dir@.last() != '/',
    ensures
        ({
            let dir = config.defaults.operations_dir@;
            &&& session_id@.len() > 0 && session_id@[0] != '/' ==> log@ == dir + "/runs/"@ + session_id@ + ".log"@
            &&& recap_id@.len() > 0 && recap_id@[0] != '/' ==> recap@ == dir + "/recaps/"@ + recap_id@ + ".md"@
            &&& stem is Some && stem->0@.len() > 0 && stem->0@[0] != '/' ==> plan@ == dir + "/plans/"@ + stem->0@
                + "-plan.md"@
        }),
{
    let dir = config.defaults.operations_dir@;
    reveal_strlit("runs");
    reveal_strlit("/runs/");
    reveal_strlit("recaps");
    reveal_strlit("/recaps/");
    reveal_strlit("plans");
    reveal_strlit("/plans/");
    reveal_strlit("task");
    assert(below(dir, "runs"@).last() == 's');
    assert(below(dir, "recaps"@).last() == 's');
    assert(below(dir, "plans"@).last() == 's');
    if session_id@.len() > 0 && session_id@[0] != '/' {
        assert((session_id@ + ".log"@)[0] == session_id@[0]);
        assert(log@ =~= dir + "/runs/"@ + session_id@ + ".log"@);
    }
    if recap_id@.len() > 0 && recap_id@[0] != '/' {
        assert((recap_id@ + ".md"@)[0] == recap_id@[0]);
        assert(recap@ =~= dir + "/recaps/"@ + recap_id@ + ".md"@);
    }
    if stem is Some && stem->0@.len() > 0 && stem->0@[0] != '/' {
        assert((stem->0@ + "-plan.md"@)[0] == stem->0@[0]);
        assert(plan@ =~= dir + "/plans/"@ + stem->0@ + "-plan.md"@);
    }
}

/// The file of a recap names its task and ends with the recap.
pub proof fn law_recap_files_hold_the_recap(task_path: &str, recap: &str, content: String)
    requires
        call_ensures(recap_content, (task_path, recap), content),
    ensures
        recap@.is_suffix_of(content@),
        begins(content@, "---\ntask: "@ + task_path@ + "\n---\n"@),
{
    reveal_strlit("\n---\n\n");
    reveal_strlit("\n---\n");
    let start = "---\ntask: "@ + task_path@ + "\n---\n"@;
    assert(content@.subrange(0, start.len() as int) =~= start);
    assert(content@.subrange(content@.len() - recap@.len(), content@.len() as int) =~= recap@);
}

/// A run begins exactly where its task is ready. The task is then running and has one session
/// more, with its log; nothing else of it changes. A task that is not ready stays as it is.
pub proof fn law_only_ready_tasks_are_run(
    before: TaskDocument,
    after: TaskDocument,
    task_path: &str,
    session_id: &str,
    log: &str,
    started: Result<(), String>,
)
    requires
        exists|task: &mut TaskDocument|
            *task == before && *final(task) == after && #[trigger] call_ensures(
                begin_run,
                (task, task_path, session_id, log),
                started,
            ),
    ensures
        started is Ok <==> before.frontmatter.status is Ready,
        started is Err ==> after == before && holds(started->Err_0@, task_path@),
        started is Ok ==> {
            let ids = after.frontmatter.agent_session_ids@;
            let logs = after.frontmatter.agent_session_logs@;
            &&& after.frontmatter.status is Running
            &&& ids.len() == before.frontmatter.agent_session_ids@.len() + 1
            &&& ids.last()@ == session_id@
            &&& logs.len() == before.frontmatter.agent_session_logs@.len() + 1
            &&& logs.last()@ == log@
            &&& forall|i: int|
                0 <= i < before.frontmatter.agent_session_ids@.len() ==> (#[trigger] ids[i])@
                    == before.frontmatter.agent_session_ids@[i]@
            &&& forall|i: int|
                0 <= i < before.frontmatter.agent_session_logs@.len() ==> (#[trigger] logs[i])@
                    == before.frontmatter.agent_session_logs@[i]@
            &&& (TaskFrontmatter {
                status: before.frontmatter.status,
                agent_session_ids: before.frontmatter.agent_session_ids,
                agent_session_logs: before.frontmatter.agent_session_logs,
                ..after.frontmatter
            }) == before.frontmatter
            &&& after.body == before.body
            &&& after.path == before.path
        },
{
    let tail = " is not ready; current status is "@ + before.frontmatter.status.name();
    lemma_holds_within("task "@, task_path@, tail);
    assert("task "@ + task_path@ + tail =~= not_ready_text(task_path@, before.frontmatter.status));
    if started is Ok {
        let old_ids = before.frontmatter.agent_session_ids.deep_view();
        let old_logs = before.frontmatter.agent_session_logs.deep_view();
        let ids = after.frontmatter.agent_session_ids.deep_view();
        let logs = after.frontmatter.agent_session_logs.deep_view();
        assert(ids.len() == old_ids.len() + 1 && logs.len() == old_logs.len() + 1);
        assert(ids.last() == session_id@ && logs.last() == log@);
        assert forall|i: int| 0 <= i < before.frontmatter.agent_session_ids@.len() implies (
        #[trigger] after.frontmatter.agent_session_ids@[i])@ == before.frontmatter.agent_session_ids@[i]@ by {
            assert(ids[i] == old_ids[i]);
        }
        assert forall|i: int| 0 <= i < before.frontmatter.agent_session_logs@.len() implies (
        #[trigger] after.frontmatter.agent_session_logs@[i])@ == before.frontmatter.agent_session_logs@[i]@ by {
            assert(logs[i] == old_logs[i]);
        }
    }
}

/// A log begins with the session, the agent and the task; where the session continues another
/// one, with the command for that, and where it does so by itself, with how often the run has
/// been continued, and how often it may be.
pub proof fn law_logs_begin_with_their_session(
    session_id: &str,
    agent: &str,
    task: &str,
    resume: &str,
    hop: u32,
    most: u32,
    plain: String,
    resumed: String,
    continued: String,
)
    requires
        call_ensures(session_log_header, (session_id, agent, task), plain),
        call_ensures(resumed_log_header, (session_id, agent, task, resume), resumed),
        call_ensures(continued_log_header, (session_id, agent, task, resume, hop, most), continued),
    ensures
        holds_in_order(plain@, seq![session_id@, agent@, task@]),
        begins(resumed@, plain@),
        holds(resumed@, resume@),
        begins(continued@, plain@),
        holds_in_order(continued@, seq![resume@, decimal(hop as nat), decimal(most as nat)]),
{
    lemma_three_in_order("session_id="@, session_id@, "\nagent="@, agent@, "\ntask="@, task@, "\n"@);
    assert(resumed@.subrange(0, plain@.len() as int) =~= plain@);
    assert(continued@.subrange(0, plain@.len() as int) =~= plain@);
    lemma_holds_within(plain@ + "resume_command="@, resume@, "\n[interactive_resume]\n"@);
    lemma_three_in_order(
        plain@ + "resume_command="@,
        resume@,
        "\n[auto_resume hop="@,
        decimal(hop as nat),
        "/"@,
        decimal(most as nat),
        "]\n"@,
    );
}

/// The interactive sessions of an agent are interpreted by the agent that it names, where
/// that is known, or else by itself; and exactly where it names one that is not known, a
/// warning says so.
pub proof fn law_agents_name_their_interpreter(
    config: &Config,
    agent: &str,
    name: &str,
    warning: Option<String>,
)
    requires
        call_ensures(interpreter_agent, (config, agent), name),
        call_ensures(interpreter_warning, (config, agent), warning),
    ensures
        ({
            let named = if config.agents@.dom().contains(agent@) {
                config.agents@[agent@].interpreter_agent.deep_view()
            } else {
                None
            };
            &&& named is None ==> name@ == agent@ && warning is None
            &&& named is Some && config.agents@.dom().contains(named->0) ==> name@ == named->0 && warning is None
            &&& named is Some && !config.agents@.dom().contains(named->0) ==> name@ == agent@ && warning is Some
                && holds_in_order(warning->0@, seq![named->0, agent@])
        }),
{
    if config.agents@.dom().contains(agent@) {
        if let Some(other) = config.agents@[agent@].interpreter_agent {
            let tail = "' is not a known agent; falling back to '"@ + agent@ + "' for the interpretation pass"@;
            lemma_two_in_order(
                "warning: interpreter_agent '"@,
                other@,
                "' configured for agent '"@,
                agent@,
                tail,
            );
            if !config.agents@.dom().contains(other@) {
                assert(warning->0@ =~= "warning: interpreter_agent '"@ + other@ + "' configured for agent '"@ + agent@
                    + tail);
            }
        }
    }
}

/// An interpreting agent is given the task, the log and the transcripts to read, in that
/// order, and is asked for nothing but that: the user takes no part, and no session is
/// continued.
pub proof fn law_interpreters_read_the_session(
    config: &Config,
    agent: &str,
    role: Option<&str>,
    task_path: &str,
    frontmatter: &TaskFrontmatter,
    body: &str,
    session: &str,
    log: &str,
    excerpt: &str,
    transcripts: &str,
    timeout: u64,
    request: AgentRunRequest,
    interpreter: &str,
)
    requires
        call_ensures(interpreter_agent, (config, agent), interpreter),
        call_ensures(
            interpretation_request,
            (config, agent, role, task_path, frontmatter, body, session, log, excerpt, transcripts, timeout),
            request,
        ),
    ensures
        request.agent_name@ == interpreter@,
        holds_in_order(request.body@, seq![body@, log@, excerpt@, transcripts@]),
        request.interpret && !request.interactive && !request.stream,
        request.resume_command is None,
        begins(request.session_id@, session@),
        request.session_id@ != session@,
        request.session_log_path is Some && request.session_log_path->0@ == log@,
        request.task_path@ == task_path@,
        request.timeout == timeout,
        request.frontmatter@ == frontmatter@,
{
    let view = request@;
    assert(request.body@ == view.body);
    lemma_four_in_order(
        INTERPRET_BRIEF@,
        body@,
        "\n\n## Session log\n\nPath: "@,
        log@,
        "\n\n```\n"@,
        excerpt@,
        "\n```\n"@,
        transcripts@,
        Seq::empty(),
    );
    assert(request.body@ + Seq::<char>::empty() =~= request.body@);
    reveal_strlit("-interpret");
    assert(request.session_id@ == view.session_id);
    assert(request.session_id@.subrange(0, session@.len() as int) =~= session@);
    assert(request.session_id@.len() > session@.len());
    assert(request.agent_name@ == view.agent_name);
    assert(request.session_log_path.deep_view() == view.session_log_path);
    assert(request.resume_command.deep_view() == view.resume_command);
}

/// What an agent is asked for is what it is told: a first session has the body of the task
/// and continues nothing; a session that continues another has the command for that and no
/// body; and planning has the body and no log.
pub proof fn law_requests_say_what_is_asked_for(
    agent: &str,
    role: Option<&str>,
    task_path: &str,
    frontmatter: &TaskFrontmatter,
    body: &str,
    timeout: u64,
    session: &str,
    log: &str,
    interactive: bool,
    stream: bool,
    resume: &str,
    first: AgentRunRequest,
    next: AgentRunRequest,
    plan: AgentRunRequest,
)
    requires
        call_ensures(
            run_request,
            (agent, role, task_path, frontmatter, body, timeout, session, log, interactive, stream),
            first,
        ),
        call_ensures(
            resume_request,
            (agent, role, task_path, frontmatter, timeout, session, log, interactive, stream, resume),
            next,
        ),
        call_ensures(plan_request, (agent, role, task_path, frontmatter, body, timeout, session), plan),
    ensures
        first.body@ == body@ && first.resume_command is None && first.interactive == interactive && first.stream == stream,
        next.body@.len() == 0 && next.resume_command is Some && next.resume_command->0@ == resume@ && next.interactive
            == interactive && next.stream == stream,
        plan.body@ == body@ && plan.session_log_path is None && !plan.interactive && !plan.stream,
        first.session_log_path is Some && first.session_log_path->0@ == log@,
        next.session_log_path is Some && next.session_log_path->0@ == log@,
        first.agent_name@ == agent@ && next.agent_name@ == agent@ && plan.agent_name@ == agent@,
        first.role_instructions.deep_view() == role.deep_view() && next.role_instructions.deep_view() == role.deep_view()
            && plan.role_instructions.deep_view() == role.deep_view(),
        first.session_id@ == session@ && next.session_id@ == session@ && plan.session_id@ == session@,
        first.task_path@ == task_path@ && next.task_path@ == task_path@ && plan.task_path@ == task_path@,
        first.frontmatter@ == frontmatter@ && next.frontmatter@ == frontmatter@ && plan.frontmatter@ == frontmatter@,
        first.timeout == timeout && next.timeout == timeout && plan.timeout == timeout,
        !first.interpret && !next.interpret && !plan.interpret,
{
    assert(first.resume_command.deep_view() == first@.resume_command);
    assert(next.resume_command.deep_view() == next@.resume_command);
    assert(first.session_log_path.deep_view() == first@.session_log_path);
    assert(next.session_log_path.deep_view() == next@.session_log_path);
    assert(plan.session_log_path.deep_view() == plan@.session_log_path);
}

/// An interactive session that could not be interpreted is no failure: its recap holds the
/// error, what the agent said at the end and the log, and the user is not asked for.
pub proof fn law_uninterpreted_sessions_keep_their_recap(
    resumed: bool,
    error: &str,
    recap: &str,
    log: &str,
    result: AgentRunResult,
)
    requires
        call_ensures(uninterpreted_result, (resumed, error, recap, log), result),
    ensures
        holds_in_order(result.recap@, seq![error@, recap@, log@]),
        !result.requires_user,
        result.suggested_agent is None,
        result.resume_command is None,
{
    assert(result@.recap == result.recap@);
    let kind = if resumed {
        "resumed "@
    } else {
        ""@
    };
    let head = "# Interactive Session Completed\n\nThe "@ + kind
        + "interactive session ended successfully but Varda's interpreter pass failed: "@;
    let tail = "]("@ + log@ + ")\n\nrequires_user: false"@;
    lemma_three_in_order(
        head,
        error@,
        "\n\nFalling back to the agent's session-end output.\n\n"@,
        recap@,
        "\n\nSession log: ["@,
        log@,
        tail,
    );
    assert(result.recap@ =~= head + error@ + "\n\nFalling back to the agent's session-end output.\n\n"@ + recap@
        + "\n\nSession log: ["@ + log@ + tail);
    assert(result.suggested_agent.deep_view() == result@.suggested_agent);
    assert(result.resume_command.deep_view() == result@.resume_command);
}

/// What an agent planned is the plan; where it failed the plan names the task and the error,
/// and where it took too long the seconds and the task.
pub proof fn law_plans_are_what_was_planned(end: PlanEnd, task: &str, seconds: u64, plan: String)
    requires
        call_ensures(plan_text, (end, task, seconds), plan),
    ensures
        match end {
            PlanEnd::Planned(text) => plan@ == text@,
            PlanEnd::Failed(error) => holds_in_order(plan@, seq![task@, error@]),
            PlanEnd::TimedOut => holds_in_order(plan@, seq![decimal(seconds as nat), task@]),
        },
{
    match end {
        PlanEnd::Planned(_) => {},
        PlanEnd::Failed(error) => {
            lemma_two_in_order(
                "# Planning Failed\n\nThe agent failed while planning `"@,
                task@,
                "`.\n\nError: "@,
                error@,
                Seq::empty(),
            );
            assert(plan@ + Seq::<char>::empty() =~= plan@);
        },
        PlanEnd::TimedOut => {
            lemma_two_in_order(
                "# Planning Timed Out\n\nThe agent exceeded the configured "@,
                decimal(seconds as nat),
                " second limit while planning `"@,
                task@,
                "`."@,
            );
        },
    }
}

} // verus!
