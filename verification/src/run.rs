//! A run of a task from its start until the task is at rest.
//!
//! The host starts sessions, writes files and makes up ids. A [`Run`] takes in what
//! came of each session and says what the host does next.

use vstd::prelude::*;
use vstd::string::*;

use crate::config::Config;
use crate::execution::{
    add_session, begin_run, continued_log_header, interpretation_brief, interpretation_error_log,
    interpretation_request, interpreter_of, keep_resume_command, log_file, log_header, not_ready_text, recap_content,
    recap_file, recap_path, resume_request, resumed_log_header, run_request, session_added, session_log_header,
    session_log_path, uninterpreted_recap, uninterpreted_result, AgentRunRequest, RequestView,
};
use crate::runner::{
    announced_seconds, announced_timeout, end_log, end_outcome, finish_run, law_a_run_goes_on_while_it_may,
    law_the_end_keeps_every_recap, next_step, rest_status, rested, single_session_outcome, AgentRunResult, EndView, HopStep, Hops, OperationBounds, ResultView, RunOutcome,
    SessionEnd, StepView,
};
use crate::task::{TaskDocument, TaskFrontmatter, TaskStatus};
use crate::text::{cat, decimal, decimal_of, holds, holds_in_order, in_order_at, lemma_holds_within};

verus! {

/// A run that is under way.
#[derive(Debug, PartialEq, Eq)]
pub struct Run {
    pub task: TaskDocument,
    pub task_path: String,
    pub agent_name: String,
    pub role_instructions: Option<String>,
    /// Whether the user takes part.
    pub interactive: bool,
    /// Whether the output is shown as it comes.
    pub stream: bool,
    /// How long the agent is told that it has, in seconds.
    pub timeout: u64,
    pub bounds: OperationBounds,
    /// The session that is under way, and its log.
    pub session_id: String,
    pub session_log_path: String,
    /// The log of the first session.
    pub first_log_path: String,
    pub hops: Hops,
}

/// Whether two tasks differ in nothing but what a run changes: the status, whether the
/// user is asked for, and the lists of sessions, logs, commands and recaps.
pub open spec fn same_task(a: TaskDocument, b: TaskDocument) -> bool {
    a == (TaskDocument {
        frontmatter: TaskFrontmatter {
            status: a.frontmatter.status,
            requires_user: a.frontmatter.requires_user,
            agent_session_ids: a.frontmatter.agent_session_ids,
            agent_session_logs: a.frontmatter.agent_session_logs,
            agent_resume_commands: a.frontmatter.agent_resume_commands,
            recaps: a.frontmatter.recaps,
            ..b.frontmatter
        },
        ..b
    })
}

/// Whether `longer` begins with `shorter`.
pub open spec fn extends(longer: Seq<Seq<char>>, shorter: Seq<Seq<char>>) -> bool {
    longer.len() >= shorter.len() && longer.take(shorter.len() as int) == shorter
}

impl Run {
    /// Whether this is a run of the task that was `start` before: it is the same task,
    /// running, with one session more and another one for each time that the run was
    /// continued, which was no more often than it may be.
    pub open spec fn is_run_of(&self, start: TaskDocument) -> bool {
        &&& same_task(self.task, start)
        &&& self.task.frontmatter.status == TaskStatus::Running
        &&& self.task.frontmatter.requires_user == start.frontmatter.requires_user
        &&& self.task.frontmatter.recaps == start.frontmatter.recaps
        &&& self.hops.hop <= self.bounds.max_continuations
        &&& self.hops.prior_recaps@.len() == self.hops.hop
        &&& extends(
            self.task.frontmatter.agent_session_ids.deep_view(),
            start.frontmatter.agent_session_ids.deep_view(),
        )
        &&& self.task.frontmatter.agent_session_ids@.len() == start.frontmatter.agent_session_ids@.len() + self.hops.hop
            + 1
        &&& extends(
            self.task.frontmatter.agent_session_logs.deep_view(),
            start.frontmatter.agent_session_logs.deep_view(),
        )
        &&& self.task.frontmatter.agent_session_logs@.len() == start.frontmatter.agent_session_logs@.len()
            + self.hops.hop + 1
        &&& extends(
            self.task.frontmatter.agent_resume_commands.deep_view(),
            start.frontmatter.agent_resume_commands.deep_view(),
        )
    }

    /// Whether two runs are of one task by one agent under one set of bounds.
    pub open spec fn same_settings(&self, other: &Run) -> bool {
        &&& self.task_path == other.task_path
        &&& self.agent_name == other.agent_name
        &&& self.role_instructions == other.role_instructions
        &&& self.interactive == other.interactive
        &&& self.stream == other.stream
        &&& self.timeout == other.timeout
        &&& self.bounds == other.bounds
        &&& self.first_log_path == other.first_log_path
    }
}

// ---------------------------------------------------------------------------
// The start
// ---------------------------------------------------------------------------

/// What the host does to start a session: it writes the task and the log, and hands
/// the request to the agent.
#[derive(Debug, PartialEq, Eq)]
pub struct SessionStart {
    /// What the session's log begins with.
    pub log_header: String,
    pub request: AgentRunRequest,
}

/// The bounds of a task's runs.
pub open spec fn bounds_of(config: &Config, task: TaskFrontmatter, bounds: OperationBounds) -> bool {
    &&& bounds.idle_timeout == crate::runner::either(task.bounds.idle_timeout, config.defaults.idle_timeout_seconds)
    &&& bounds.max_seconds == (match task.bounds.max_seconds {
        Some(over) => crate::config::bound_of(over, config.defaults.timeout_seconds),
        None => crate::config::default_bound(config.defaults),
    })
    &&& bounds.max_continuations == crate::runner::either(
        task.bounds.max_continuations,
        config.defaults.max_continuations,
    )
    &&& bounds.max_tool_calls == crate::runner::either(task.bounds.max_tool_calls, config.defaults.max_tool_calls)
}

/// Whether `run` has just been started on `task`: the task is running with one session
/// more, and nothing has been continued.
pub open spec fn begun(
    config: &Config,
    task: TaskDocument,
    task_path: Seq<char>,
    agent: Seq<char>,
    role: Option<Seq<char>>,
    interactive: bool,
    stream: bool,
    session_id: Seq<char>,
    run: &Run,
) -> bool {
    let log = log_file(config.defaults.operations_dir@, session_id);
    &&& session_added(task, run.task, TaskStatus::Running, session_id, log)
    &&& run.task_path@ == task_path
    &&& run.agent_name@ == agent
    &&& run.role_instructions.deep_view() == role
    &&& run.interactive == interactive
    &&& run.stream == stream
    &&& run.timeout == announced_seconds(config)
    &&& bounds_of(config, run.task.frontmatter, run.bounds)
    &&& run.session_id@ == session_id
    &&& run.session_log_path@ == log
    &&& run.first_log_path@ == log
    &&& run.hops.hop == 0
    &&& run.hops.prior_recaps.deep_view() == Seq::<Seq<char>>::empty()
    &&& run.is_run_of(task)
}

fn begin(
    config: &Config,
    task: TaskDocument,
    task_path: &str,
    agent_name: &str,
    role_instructions: Option<&str>,
    interactive: bool,
    stream: bool,
    session_id: &str,
) -> (run: Result<Run, String>)
    ensures
        match run {
            Ok(run) => task.frontmatter.status == TaskStatus::Ready && begun(
                config,
                task,
                task_path@,
                agent_name@,
                role_instructions.deep_view(),
                interactive,
                stream,
                session_id@,
                &run,
            ),
            Err(text) => task.frontmatter.status != TaskStatus::Ready && text@ == not_ready_text(
                task_path@,
                task.frontmatter.status,
            ),
        },
{
    let ghost start = task;
    let mut task = task;
    let log = session_log_path(config, session_id);
    if let Err(text) = begin_run(&mut task, task_path, session_id, log.as_str()) {
        return Err(text);
    }
    let bounds = OperationBounds::resolve(config, &task.frontmatter);
    let role = match role_instructions {
        Some(text) => Some(text.to_owned()),
        None => None,
    };
    let run = Run {
        task,
        task_path: task_path.to_owned(),
        agent_name: agent_name.to_owned(),
        role_instructions: role,
        interactive,
        stream,
        timeout: announced_timeout(config),
        bounds,
        session_id: session_id.to_owned(),
        session_log_path: log.clone(),
        first_log_path: log,
        hops: Hops::start(),
    };
    proof {
        let ids = start.frontmatter.agent_session_ids.deep_view();
        let logs = start.frontmatter.agent_session_logs.deep_view();
        assert(run.task.frontmatter.agent_session_ids.deep_view().take(ids.len() as int) =~= ids);
        assert(run.task.frontmatter.agent_session_logs.deep_view().take(logs.len() as int) =~= logs);
        let commands = start.frontmatter.agent_resume_commands.deep_view();
        assert(commands.take(commands.len() as int) =~= commands);
        assert(run.task.frontmatter.agent_session_ids.deep_view().len() == ids.len() + 1);
        assert(run.task.frontmatter.agent_session_logs.deep_view().len() == logs.len() + 1);
        assert(run.hops.prior_recaps.deep_view().len() == 0);
        assert(run.is_run_of(start));
    }
    Ok(run)
}

/// The request for the first session of a run.
pub open spec fn first_request(run: &Run) -> RequestView {
    RequestView {
        agent_name: run.agent_name@,
        role_instructions: run.role_instructions.deep_view(),
        task_path: run.task_path@,
        frontmatter: run.task.frontmatter@,
        body: run.task.body@,
        timeout: run.timeout,
        session_id: run.session_id@,
        session_log_path: Some(run.session_log_path@),
        interactive: run.interactive,
        interpret: false,
        stream: run.stream,
        resume_command: None,
        orchestration_socket_path: None,
        orchestration_addr: None,
    }
}

/// The request for a session that continues another one.
pub open spec fn continuing_request(run: &Run, resume: Seq<char>) -> RequestView {
    RequestView {
        agent_name: run.agent_name@,
        role_instructions: run.role_instructions.deep_view(),
        task_path: run.task_path@,
        frontmatter: run.task.frontmatter@,
        body: Seq::empty(),
        timeout: run.timeout,
        session_id: run.session_id@,
        session_log_path: Some(run.session_log_path@),
        interactive: run.interactive,
        interpret: false,
        stream: run.stream,
        resume_command: Some(resume),
        orchestration_socket_path: None,
        orchestration_addr: None,
    }
}

/// The request for interpreting the session of a run in which the user took part.
pub open spec fn interpreting_request(
    config: &Config,
    run: &Run,
    excerpt: Seq<char>,
    transcripts: Seq<char>,
) -> RequestView {
    RequestView {
        agent_name: interpreter_of(config, run.agent_name@),
        role_instructions: run.role_instructions.deep_view(),
        task_path: run.task_path@,
        frontmatter: run.task.frontmatter@,
        body: interpretation_brief(run.task.body@, run.session_log_path@, excerpt, transcripts),
        timeout: run.timeout,
        session_id: run.session_id@ + "-interpret"@,
        session_log_path: Some(run.session_log_path@),
        interactive: false,
        interpret: true,
        stream: false,
        resume_command: None,
        orchestration_socket_path: None,
        orchestration_addr: None,
    }
}

fn borrowed(text: &Option<String>) -> (view: Option<&str>)
    ensures
        view.deep_view() == text.deep_view(),
{
    match text {
        Some(text) => Some(text.as_str()),
        None => None,
    }
}

/// Starts a run of a task that is ready. `session_id` is a fresh id.
pub fn start_run(
    config: &Config,
    task: TaskDocument,
    task_path: &str,
    agent_name: &str,
    role_instructions: Option<&str>,
    interactive: bool,
    stream: bool,
    session_id: &str,
) -> (started: Result<(Run, SessionStart), String>)
    ensures
        match started {
            Ok((run, start)) => {
                &&& task.frontmatter.status == TaskStatus::Ready
                &&& begun(
                    config,
                    task,
                    task_path@,
                    agent_name@,
                    role_instructions.deep_view(),
                    interactive,
                    stream,
                    session_id@,
                    &run,
                )
                &&& start.log_header@ == log_header(session_id@, agent_name@, task_path@)
                &&& start.request@ == first_request(&run)
            },
            Err(text) => task.frontmatter.status != TaskStatus::Ready && text@ == not_ready_text(
                task_path@,
                task.frontmatter.status,
            ),
        },
{
    let run = match begin(
        config,
        task,
        task_path,
        agent_name,
        role_instructions,
        interactive,
        stream,
        session_id,
    ) {
        Ok(run) => run,
        Err(text) => {
            return Err(text);
        },
    };
    let start = SessionStart {
        log_header: session_log_header(session_id, agent_name, task_path),
        request: run_request(
            run.agent_name.as_str(),
            borrowed(&run.role_instructions),
            run.task_path.as_str(),
            &run.task.frontmatter,
            run.task.body.as_str(),
            run.timeout,
            run.session_id.as_str(),
            run.session_log_path.as_str(),
            interactive,
            stream,
        ),
    };
    Ok((run, start))
}

/// Starts a run of a task that is ready, in which the user goes on with an earlier
/// session. `session_id` is a fresh id.
pub fn start_resumed_run(
    config: &Config,
    task: TaskDocument,
    task_path: &str,
    agent_name: &str,
    role_instructions: Option<&str>,
    resume_command: &str,
    session_id: &str,
) -> (started: Result<(Run, SessionStart), String>)
    ensures
        match started {
            Ok((run, start)) => {
                &&& task.frontmatter.status == TaskStatus::Ready
                &&& begun(
                    config,
                    task,
                    task_path@,
                    agent_name@,
                    role_instructions.deep_view(),
                    true,
                    false,
                    session_id@,
                    &run,
                )
                &&& start.log_header@ == log_header(session_id@, agent_name@, task_path@) + "resume_command="@
                    + resume_command@ + "\n[interactive_resume]\n"@
                &&& start.request@ == continuing_request(&run, resume_command@)
            },
            Err(text) => task.frontmatter.status != TaskStatus::Ready && text@ == not_ready_text(
                task_path@,
                task.frontmatter.status,
            ),
        },
{
    let run = match begin(config, task, task_path, agent_name, role_instructions, true, false, session_id) {
        Ok(run) => run,
        Err(text) => {
            return Err(text);
        },
    };
    let start = SessionStart {
        log_header: resumed_log_header(session_id, agent_name, task_path, resume_command),
        request: resume_request(
            run.agent_name.as_str(),
            borrowed(&run.role_instructions),
            run.task_path.as_str(),
            &run.task.frontmatter,
            run.timeout,
            run.session_id.as_str(),
            run.session_log_path.as_str(),
            true,
            false,
            resume_command,
        ),
    };
    Ok((run, start))
}

/// The warning about a bound that nothing holds the agent to.
pub open spec fn tool_call_text(max_tool_calls: u64) -> Seq<char> {
    "warning: max_tool_calls="@ + decimal(max_tool_calls as nat)
        + " is configured but NOT yet enforced (no tool-call signal from the agent run); ignoring it. Time bounds still apply."@
}

/// The warning about a bound that nothing holds the agent to, where it is set.
pub fn tool_call_warning(bounds: &OperationBounds) -> (warning: Option<String>)
    ensures
        warning.deep_view() == (if bounds.max_tool_calls > 0 {
            Some(tool_call_text(bounds.max_tool_calls))
        } else {
            None
        }),
{
    if bounds.max_tool_calls > 0 {
        Some(
            "warning: max_tool_calls=".to_owned().concat(decimal_of(bounds.max_tool_calls).as_str()).concat(
                " is configured but NOT yet enforced (no tool-call signal from the agent run); ignoring it. Time bounds still apply.",
            ),
        )
    } else {
        None
    }
}

// ---------------------------------------------------------------------------
// After a session
// ---------------------------------------------------------------------------

/// What the host does once a session has ended.
#[derive(Debug, PartialEq, Eq)]
pub enum Next {
    /// It writes the task and starts another session.
    Continue(SessionStart),
    /// It has the session interpreted, having written the task where a command was
    /// kept. `recap` is what the session ended with.
    Interpret { recap: String, kept_command: bool },
    /// It adds `log` to the log of the session and brings the task to rest.
    Rest { result: AgentRunResult, log: Option<String> },
}

/// Whether a command that continues a session has been kept with a task, where there
/// is one, and nothing else has changed.
pub open spec fn command_kept(before: TaskDocument, after: TaskDocument, command: Option<Seq<char>>) -> bool {
    match command {
        Some(command) => {
            &&& after == (TaskDocument {
                frontmatter: TaskFrontmatter {
                    agent_resume_commands: after.frontmatter.agent_resume_commands,
                    ..before.frontmatter
                },
                ..before
            })
            &&& after.frontmatter.agent_resume_commands.deep_view()
                == before.frontmatter.agent_resume_commands.deep_view().push(command)
        },
        None => after == before,
    }
}

/// What is at the end of a session in which the user took part: a result to be
/// interpreted, or a failure.
pub open spec fn user_session_ended(before: &Run, end: EndView, after: &Run, next: Next) -> bool {
    &&& after.same_settings(before)
    &&& after.session_id == before.session_id
    &&& after.session_log_path == before.session_log_path
    &&& after.hops == before.hops
    &&& match end_outcome(end, before.session_id@, before.session_log_path@, before.task_path@) {
        Ok(result) => {
            &&& next matches Next::Interpret { recap, kept_command } && recap@ == result.recap && kept_command
                == result.resume_command is Some
            &&& command_kept(before.task, after.task, result.resume_command)
        },
        Err(failure) => {
            &&& next matches Next::Rest { result, log } && result@ == failure && log.deep_view() == end_log(end)
            &&& after.task == before.task
        },
    }
}

/// The result of a run, finished or failed.
pub open spec fn result_of(outcome: Result<ResultView, ResultView>) -> ResultView {
    match outcome {
        Ok(result) => result,
        Err(failure) => failure,
    }
}

/// What is added to a log: at the end of the session, or because the run ends with it.
pub open spec fn added_log(end: Option<Seq<char>>, step: Option<Seq<char>>) -> Option<Seq<char>> {
    match end {
        Some(log) => Some(log),
        None => step,
    }
}

/// What is at the end of a session of an agent alone: the run goes on with a fresh
/// session, or it is over. A command that continues the last session is kept.
pub open spec fn agent_session_ended(
    config: &Config,
    before: &Run,
    end: EndView,
    fresh_id: Seq<char>,
    after: &Run,
    next: Next,
) -> bool {
    let outcome = end_outcome(end, before.session_id@, before.session_log_path@, before.task_path@);
    let fresh_log = log_file(config.defaults.operations_dir@, fresh_id);
    &&& after.same_settings(before)
    &&& match next_step(
        before.hops.prior_recaps.deep_view(),
        before.hops.hop,
        before.bounds.max_continuations,
        outcome,
        before.task_path@,
    ) {
        StepView::Continue { resume } => {
            &&& after.session_id@ == fresh_id
            &&& after.session_log_path@ == fresh_log
            &&& after.hops.hop == before.hops.hop + 1
            &&& after.hops.prior_recaps.deep_view() == before.hops.prior_recaps.deep_view().push(outcome->Ok_0.recap)
            &&& session_added(before.task, after.task, before.task.frontmatter.status, fresh_id, fresh_log)
            &&& next matches Next::Continue(start) && start.request@ == continuing_request(after, resume)
                && start.log_header@ == log_header(fresh_id, before.agent_name@, before.task_path@)
                + "resume_command="@ + resume + "\n[auto_resume hop="@ + decimal(after.hops.hop as nat) + "/"@ + decimal(
                before.bounds.max_continuations as nat,
            ) + "]\n"@
        },
        StepView::Finish { outcome, log } => {
            &&& after.session_id == before.session_id
            &&& after.session_log_path == before.session_log_path
            &&& after.hops == before.hops
            &&& next matches Next::Rest { result, log: added } && result@ == result_of(outcome) && added.deep_view()
                == added_log(end_log(end), log)
            &&& command_kept(before.task, after.task, result_of(outcome).resume_command)
        },
    }
}

fn keep_command(task: &mut TaskDocument, command: &Option<String>)
    ensures
        command_kept(*old(task), *final(task), command.deep_view()),
{
    if let Some(command) = command {
        keep_resume_command(task, command.as_str());
    }
}

/// Where one list begins with another, it still does with something added.
proof fn lemma_extends_push(longer: Seq<Seq<char>>, shorter: Seq<Seq<char>>, more: Seq<char>)
    requires
        extends(longer, shorter),
    ensures
        extends(longer.push(more), shorter),
{
    assert(longer.push(more).take(shorter.len() as int) =~= longer.take(shorter.len() as int));
}

/// Keeping a command does not make a run another one.
proof fn lemma_command_kept(before: &Run, after: &Run, command: Option<Seq<char>>, start: TaskDocument)
    requires
        before.is_run_of(start),
        command_kept(before.task, after.task, command),
        after.bounds == before.bounds,
        after.hops == before.hops,
    ensures
        after.is_run_of(start),
{
    if let Some(command) = command {
        lemma_extends_push(
            before.task.frontmatter.agent_resume_commands.deep_view(),
            start.frontmatter.agent_resume_commands.deep_view(),
            command,
        );
    }
}

impl Run {
    /// Takes in the end of a session in which the user took part.
    pub fn user_session_ended(&mut self, end: SessionEnd) -> (next: Next)
        requires
            old(self).interactive,
        ensures
            user_session_ended(old(self), end@, final(self), next),
            forall|start: TaskDocument| #[trigger] old(self).is_run_of(start) ==> final(self).is_run_of(start),
    {
        let ghost before = *self;
        let report = single_session_outcome(
            end,
            self.session_id.as_str(),
            self.session_log_path.as_str(),
            self.task_path.as_str(),
        );
        match report.outcome {
            Ok(result) => {
                keep_command(&mut self.task, &result.resume_command);
                proof {
                    assert forall|start: TaskDocument| #[trigger] before.is_run_of(start) implies self.is_run_of(
                        start,
                    ) by {
                        lemma_command_kept(&before, self, result.resume_command.deep_view(), start);
                    }
                }
                Next::Interpret { kept_command: result.resume_command.is_some(), recap: result.recap }
            },
            Err(failure) => Next::Rest { result: failure, log: report.log },
        }
    }

    /// Takes in the end of a session of an agent alone. `fresh_id` is a fresh id, for
    /// the session that continues this one.
    pub fn agent_session_ended(&mut self, config: &Config, end: SessionEnd, fresh_id: &str) -> (next: Next)
        requires
            !old(self).interactive,
        ensures
            agent_session_ended(config, old(self), end@, fresh_id@, final(self), next),
            forall|start: TaskDocument| #[trigger] old(self).is_run_of(start) ==> final(self).is_run_of(start),
    {
        let ghost before = *self;
        let report = single_session_outcome(
            end,
            self.session_id.as_str(),
            self.session_log_path.as_str(),
            self.task_path.as_str(),
        );
        let step = self.hops.advance(self.bounds.max_continuations, report.outcome, self.task_path.as_str());
        match step {
            HopStep::Continue { resume } => {
                self.session_id = fresh_id.to_owned();
                self.session_log_path = session_log_path(config, fresh_id);
                add_session(&mut self.task, fresh_id, self.session_log_path.as_str());
                proof {
                    let now = self.task.frontmatter;
                    let then = before.task.frontmatter;
                    assert forall|start: TaskDocument| #[trigger] before.is_run_of(start) implies self.is_run_of(
                        start,
                    ) by {
                        lemma_extends_push(
                            then.agent_session_ids.deep_view(),
                            start.frontmatter.agent_session_ids.deep_view(),
                            fresh_id@,
                        );
                        lemma_extends_push(
                            then.agent_session_logs.deep_view(),
                            start.frontmatter.agent_session_logs.deep_view(),
                            self.session_log_path@,
                        );
                        assert(now.agent_session_ids.deep_view().len() == then.agent_session_ids.deep_view().len() + 1);
                        assert(now.agent_session_logs.deep_view().len() == then.agent_session_logs.deep_view().len()
                            + 1);
                        assert(self.hops.prior_recaps.deep_view().len() == before.hops.prior_recaps.deep_view().len()
                            + 1);
                    }
                }
                Next::Continue(
                    SessionStart {
                        log_header: continued_log_header(
                            fresh_id,
                            self.agent_name.as_str(),
                            self.task_path.as_str(),
                            resume.as_str(),
                            self.hops.hop,
                            self.bounds.max_continuations,
                        ),
                        request: resume_request(
                            self.agent_name.as_str(),
                            borrowed(&self.role_instructions),
                            self.task_path.as_str(),
                            &self.task.frontmatter,
                            self.timeout,
                            fresh_id,
                            self.session_log_path.as_str(),
                            self.interactive,
                            self.stream,
                            resume.as_str(),
                        ),
                    },
                )
            },
            HopStep::Finish { outcome, log } => {
                let result = match outcome {
                    Ok(result) => result,
                    Err(failure) => failure,
                };
                keep_command(&mut self.task, &result.resume_command);
                proof {
                    assert forall|start: TaskDocument| #[trigger] before.is_run_of(start) implies self.is_run_of(
                        start,
                    ) by {
                        lemma_command_kept(&before, self, result.resume_command.deep_view(), start);
                    }
                }
                let added = match report.log {
                    Some(log) => Some(log),
                    None => log,
                };
                Next::Rest { result, log: added }
            },
        }
    }

    /// Asks for the interpretation of a session in which the user took part. `excerpt` is
    /// what is shown of its log, `transcripts` what the agent wrote elsewhere.
    pub fn interpretation(&self, config: &Config, excerpt: &str, transcripts: &str) -> (request: AgentRunRequest)
        ensures
            request@ == interpreting_request(config, self, excerpt@, transcripts@),
    {
        interpretation_request(
            config,
            self.agent_name.as_str(),
            borrowed(&self.role_instructions),
            self.task_path.as_str(),
            &self.task.frontmatter,
            self.task.body.as_str(),
            self.session_id.as_str(),
            self.session_log_path.as_str(),
            excerpt,
            transcripts,
            self.timeout,
        )
    }

    /// The result of a session in which the user took part, once it was interpreted or
    /// could not be. `recap` is what the session ended with, `resumed` whether it went
    /// on with an earlier one. What is added to the log comes with it.
    pub fn interpreted(&self, interpretation: Result<AgentRunResult, (String, String)>, recap: &str, resumed: bool) -> (rest: (
        AgentRunResult,
        Option<String>,
    ))
        ensures
            match interpretation {
                Ok(result) => rest.0 == result && rest.1 is None,
                Err((error, causes)) => {
                    &&& rest.0@ == (ResultView {
                        recap: uninterpreted_recap(resumed, error@, recap@, self.session_log_path@),
                        requires_user: false,
                        suggested_agent: None,
                        resume_command: None,
                    })
                    &&& rest.1.deep_view() == Some("\ninterpretation_error:\n"@ + causes@ + "\n"@)
                },
            },
    {
        match interpretation {
            Ok(result) => (result, None),
            Err((error, causes)) => (
                uninterpreted_result(resumed, error.as_str(), recap, self.session_log_path.as_str()),
                Some(interpretation_error_log(causes.as_str())),
            ),
        }
    }

    /// Brings the task to rest with the result of the run. `recap_id` is a fresh id.
    /// What is written as the recap comes with the outcome.
    pub fn rest(&mut self, config: &Config, result: &AgentRunResult, recap_id: &str) -> (ended: (RunOutcome, String))
        ensures
            ({
                let file = recap_file(config.defaults.operations_dir@, recap_id@);
                &&& rested(old(self).task, final(self).task, result@, file)
                &&& ended.0.status == rest_status(result@)
                &&& ended.0.recap_path@ == file
                &&& ended.0.session_log_path@ == old(self).first_log_path@
                &&& ended.0.files_touched.deep_view() == crate::recap::files_touched(result.recap@)
                &&& ended.0.blocked_commands.deep_view() == crate::recap::blocked_commands(result.recap@)
                &&& ended.1@ == "---\ntask: "@ + old(self).task_path@ + "\n---\n\n"@ + result.recap@
            }),
            *final(self) == (Run { task: final(self).task, ..*old(self) }),
            forall|start: TaskDocument| #[trigger]
                old(self).is_run_of(start) ==> same_task(final(self).task, start) && crate::collect::terminal(
                    final(self).task.frontmatter.status,
                ),
    {
        let content = recap_content(self.task_path.as_str(), result.recap.as_str());
        let file = recap_path(config, recap_id);
        let outcome = finish_run(&mut self.task, result, file.as_str(), self.first_log_path.as_str());
        (outcome, content)
    }
}

/// Why going on with an earlier session failed.
pub fn resume_failure(task_path: &str) -> (text: String)
    ensures
        text@ == "failed to resume interactive agent session for "@ + task_path@,
{
    cat("failed to resume interactive agent session for ", task_path)
}

/// Whatever comes of its sessions, a run starts no more of them than one and as many as
/// it may be continued.
pub proof fn law_sessions_are_bounded(run: &Run, start: TaskDocument)
    requires
        run.is_run_of(start),
    ensures
        run.task.frontmatter.agent_session_ids@.len() <= start.frontmatter.agent_session_ids@.len()
            + run.bounds.max_continuations + 1,
        run.task.frontmatter.agent_session_ids@.len() - start.frontmatter.agent_session_ids@.len()
            == run.task.frontmatter.agent_session_logs@.len() - start.frontmatter.agent_session_logs@.len(),
{
}

// ---------------------------------------------------------------------------
// Laws
// ---------------------------------------------------------------------------

/// A run is started exactly where its task is ready. Its task is then running, with the fresh
/// session as its last; it is held to the bounds of the task, nothing of it has been continued,
/// and the agent is asked for its task alone, in the fresh session.
pub proof fn law_runs_are_started_on_ready_tasks(
    config: &Config,
    task: TaskDocument,
    task_path: &str,
    agent: &str,
    role: Option<&str>,
    interactive: bool,
    stream: bool,
    session_id: &str,
    started: Result<(Run, SessionStart), String>,
    log: String,
    bounds: OperationBounds,
    timeout: u64,
)
    requires
        call_ensures(
            start_run,
            (config, task, task_path, agent, role, interactive, stream, session_id),
            started,
        ),
        call_ensures(session_log_path, (config, session_id), log),
        call_ensures(OperationBounds::resolve, (config, &task.frontmatter), bounds),
        call_ensures(announced_timeout, (config,), timeout),
    ensures
        started is Ok <==> task.frontmatter.status is Ready,
        started matches Ok((run, start)) ==> {
            let ids = run.task.frontmatter.agent_session_ids@;
            let logs = run.task.frontmatter.agent_session_logs@;
            &&& run.task.frontmatter.status is Running
            &&& run.task.body == task.body
            &&& run.task.frontmatter.project == task.frontmatter.project
            &&& ids.len() == task.frontmatter.agent_session_ids@.len() + 1 && ids.last()@ == session_id@
            &&& logs.len() == task.frontmatter.agent_session_logs@.len() + 1 && logs.last()@ == log@
            &&& run.bounds == bounds
            &&& run.hops.hop == 0 && run.hops.prior_recaps@.len() == 0
            &&& start.request.agent_name@ == agent@
            &&& start.request.task_path@ == task_path@
            &&& start.request.body@ == task.body@
            &&& start.request.session_id@ == session_id@
            &&& start.request.session_log_path is Some && start.request.session_log_path->0@ == log@
            &&& start.request.resume_command is None
            &&& start.request.interactive == interactive && start.request.stream == stream
            &&& start.request.timeout == timeout
            &&& start.request.role_instructions.deep_view() == role.deep_view()
        },
{
    if let Ok((run, start)) = started {
        let ids = run.task.frontmatter.agent_session_ids.deep_view();
        let logs = run.task.frontmatter.agent_session_logs.deep_view();
        assert(ids.len() == task.frontmatter.agent_session_ids.deep_view().len() + 1);
        assert(logs.len() == task.frontmatter.agent_session_logs.deep_view().len() + 1);
        assert(ids.last() == session_id@ && logs.last() == log@);
        assert(run.hops.prior_recaps.deep_view().len() == 0);
        assert(start.request.resume_command.deep_view() == start.request@.resume_command);
        assert(start.request.session_log_path.deep_view() == start.request@.session_log_path);
    }
}

/// A run in which the user goes on with an earlier session is one in which the user takes part;
/// the agent is asked to continue with the command that is named.
pub proof fn law_resumed_runs_continue_a_session(
    config: &Config,
    task: TaskDocument,
    task_path: &str,
    agent: &str,
    role: Option<&str>,
    resume: &str,
    session_id: &str,
    started: Result<(Run, SessionStart), String>,
)
    requires
        call_ensures(start_resumed_run, (config, task, task_path, agent, role, resume, session_id), started),
    ensures
        started is Ok <==> task.frontmatter.status is Ready,
        started matches Ok((run, start)) ==> {
            &&& run.interactive && !run.stream
            &&& run.task.frontmatter.status is Running
            &&& run.hops.hop == 0
            &&& start.request.interactive
            &&& start.request.resume_command is Some && start.request.resume_command->0@ == resume@
            &&& start.request.session_id@ == session_id@
            &&& start.request.agent_name@ == agent@
            &&& holds(start.log_header@, resume@)
        },
{
    if let Ok((run, start)) = started {
        assert(start.request.resume_command.deep_view() == start.request@.resume_command);
        lemma_holds_within(
            log_header(session_id@, agent@, task_path@) + "resume_command="@,
            resume@,
            "\n[interactive_resume]\n"@,
        );
    }
}

/// After a session of an agent alone the run goes on, in a fresh session with a log of its own,
/// with the command that the agent handed back; or it is over, and its result holds the recap of
/// each of its sessions. It goes on exactly where the session finished with a command, does not
/// ask for the user, and the run may be continued once more.
pub proof fn law_agents_go_on_or_rest(
    config: &Config,
    before: Run,
    after: Run,
    end: SessionEnd,
    fresh_id: &str,
    fresh_log: String,
    next: Next,
)
    requires
        !before.interactive,
        call_ensures(session_log_path, (config, fresh_id), fresh_log),
        exists|run: &mut Run|
            *run == before && *final(run) == after && #[trigger] call_ensures(
                Run::agent_session_ended,
                (run, config, end, fresh_id),
                next,
            ),
    ensures
        ({
            let goes_on = end matches SessionEnd::Finished(result) && result.resume_command is Some
                && !result.requires_user && before.hops.hop < before.bounds.max_continuations;
            &&& next is Continue <==> goes_on
            &&& !goes_on ==> next is Rest
            &&& next matches Next::Continue(start) ==> {
                &&& start.request.resume_command is Some && start.request.resume_command->0@
                    == end->Finished_0.resume_command->0@
                &&& start.request.session_id@ == fresh_id@ && after.session_id@ == fresh_id@
                &&& start.request.session_log_path is Some && start.request.session_log_path->0@ == fresh_log@
                &&& after.hops.hop == before.hops.hop + 1
                &&& after.hops.prior_recaps.deep_view() == before.hops.prior_recaps.deep_view().push(
                    end->Finished_0.recap@,
                )
                &&& after.task.frontmatter.agent_session_ids@.len() == before.task.frontmatter.agent_session_ids@.len() + 1
                &&& after.task.frontmatter.agent_session_ids@.last()@ == fresh_id@
            }
            &&& next matches Next::Rest { result, .. } ==> {
                &&& after.hops == before.hops
                &&& end is Finished ==> holds_in_order(
                    result.recap@,
                    before.hops.prior_recaps.deep_view().push(end->Finished_0.recap@),
                )
                &&& !(end is Finished) ==> holds_in_order(result.recap@, before.hops.prior_recaps.deep_view())
            }
            &&& after.bounds == before.bounds && after.first_log_path == before.first_log_path
        }),
{
    let outcome = end_outcome(end@, before.session_id@, before.session_log_path@, before.task_path@);
    let prior = before.hops.prior_recaps.deep_view();
    law_the_end_keeps_every_recap(
        prior,
        before.hops.hop,
        before.bounds.max_continuations,
        outcome,
        before.task_path@,
    );
    law_a_run_goes_on_while_it_may(
        prior,
        before.hops.hop,
        before.bounds.max_continuations,
        outcome,
        before.task_path@,
    );
    match next {
        Next::Continue(start) => {
            assert(start.request.resume_command.deep_view() == start.request@.resume_command);
            assert(start.request.session_log_path.deep_view() == start.request@.session_log_path);
            let ids = after.task.frontmatter.agent_session_ids.deep_view();
            assert(ids.len() == before.task.frontmatter.agent_session_ids.deep_view().len() + 1);
            assert(ids.last() == fresh_id@);
        },
        Next::Rest { result, log } => {
            if !(end is Finished) {
                let last = outcome->Err_0.recap;
                lemma_in_order_rest(result.recap@, last, prior);
            }
        },
        Next::Interpret { .. } => {},
    }
}

/// What stands in a text after something else stands there without it.
proof fn lemma_in_order_rest(text: Seq<char>, first: Seq<char>, rest: Seq<Seq<char>>)
    requires
        holds_in_order(text, seq![first] + rest),
    ensures
        holds_in_order(text, rest),
{
    let all = seq![first] + rest;
    let at = choose|at: Seq<int>| in_order_at(text, all, at);
    let places = at.drop_first();
    assert forall|i: int| 0 <= i < rest.len() implies 0 <= #[trigger] places[i] && places[i] + rest[i].len()
        <= text.len() && text.subrange(places[i], places[i] + rest[i].len()) == rest[i] by {
        assert(places[i] == at[i + 1]);
        assert(all[i + 1] == rest[i]);
    }
    assert forall|i: int, j: int| 0 <= i < j < rest.len() implies #[trigger] places[i] + rest[i].len()
        <= #[trigger] places[j] by {
        assert(places[i] == at[i + 1] && places[j] == at[j + 1]);
        assert(all[i + 1] == rest[i]);
    }
    assert(in_order_at(text, rest, places));
}

/// A session in which the user took part is interpreted where it finished, with its recap, and
/// its command, where there is one, is kept as the last; otherwise the run is over.
pub proof fn law_sessions_with_the_user_are_interpreted(before: Run, after: Run, end: SessionEnd, next: Next)
    requires
        before.interactive,
        exists|run: &mut Run|
            *run == before && *final(run) == after && #[trigger] call_ensures(
                Run::user_session_ended,
                (run, end),
                next,
            ),
    ensures
        next is Interpret <==> end is Finished,
        end is Finished ==> next->Interpret_recap@ == end->Finished_0.recap@,
        end is Finished ==> next->kept_command == end->Finished_0.resume_command is Some,
        end is Finished && end->Finished_0.resume_command is Some ==> {
            let commands = after.task.frontmatter.agent_resume_commands@;
            commands.len() == before.task.frontmatter.agent_resume_commands@.len() + 1 && commands.last()@
                == end->Finished_0.resume_command->0@
        },
        !(end is Finished) ==> next is Rest && after.task == before.task,
        after.hops == before.hops,
        after.session_id == before.session_id,
{
    if let SessionEnd::Finished(result) = end {
        if let Some(command) = result.resume_command {
            let commands = after.task.frontmatter.agent_resume_commands.deep_view();
            assert(commands.len() == before.task.frontmatter.agent_resume_commands.deep_view().len() + 1);
            assert(commands.last() == command@);
        }
    }
}

/// A run that is brought to rest leaves its recap in a file of its own, which names the task and
/// ends with the recap, and reports the log of its first session.
pub proof fn law_a_run_leaves_its_recap(
    config: &Config,
    before: Run,
    after: Run,
    result: &AgentRunResult,
    recap_id: &str,
    ended: (RunOutcome, String),
    file: String,
)
    requires
        call_ensures(crate::execution::recap_path, (config, recap_id), file),
        exists|run: &mut Run|
            *run == before && *final(run) == after && #[trigger] call_ensures(
                Run::rest,
                (run, config, result, recap_id),
                ended,
            ),
    ensures
        ended.0.recap_path@ == file@,
        ended.0.session_log_path@ == before.first_log_path@,
        after.task.frontmatter.recaps@.len() == before.task.frontmatter.recaps@.len() + 1,
        after.task.frontmatter.recaps@.last()@ == file@,
        after.task.frontmatter.status == ended.0.status,
        result.recap@.is_suffix_of(ended.1@),
        holds(ended.1@, before.task_path@),
        after.hops == before.hops,
{
    crate::runner::law_rest_changes_little(before.task, after.task, result@, file@);
    let head = "---\ntask: "@;
    let tail = "\n---\n\n"@ + result.recap@;
    lemma_holds_within(head, before.task_path@, tail);
    assert(ended.1@ =~= head + before.task_path@ + tail);
    assert(ended.1@.subrange(ended.1@.len() - result.recap@.len(), ended.1@.len() as int) =~= result.recap@);
}

} // verus!
