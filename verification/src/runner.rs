//! Running a task: what bounds a run, when it is stopped, when it is continued and
//! where the task comes to rest.
//!
//! The host starts agents, waits and writes files. Between these steps it asks this
//! module what to do next and what to write.

use vstd::prelude::*;
use vstd::string::*;

use crate::config::{bound_of, default_bound, effective_max_seconds, Config, MaxSeconds};
use crate::recap::{
    asks_for_user, blocked_commands, files_touched, parse_blocked_commands, parse_files_touched,
    recap_requires_user_interaction,
};
use crate::task::{TaskDocument, TaskFrontmatter, TaskStatus};
use crate::text::{
    begins, cat3, decimal, decimal_of, holds, holds_in_order, in_order_at, join, joined, law_joined_parts_stand_in_order,
    lemma_four_in_order, lemma_holds_within, lemma_in_order_within, starts_with,
};

verus! {

// ---------------------------------------------------------------------------
// Bounds
// ---------------------------------------------------------------------------

/// The bounds of a run.
#[derive(Debug, Clone, Copy, PartialEq, Eq, Structural)]
pub struct OperationBounds {
    /// How long the run may be silent, in seconds.
    pub idle_timeout: u64,
    /// How long the run may take in all, in seconds.
    pub max_seconds: Option<u64>,
    /// How often the run may be continued.
    pub max_continuations: u32,
    /// How many tool calls the task may make; zero means any number.
    pub max_tool_calls: u64,
}

/// `over`, or else `default`.
pub open spec fn either<T>(over: Option<T>, default: T) -> T {
    match over {
        Some(value) => value,
        None => default,
    }
}

impl OperationBounds {
    /// The bounds of a task: for each its own, or else the default.
    pub fn resolve(config: &Config, frontmatter: &TaskFrontmatter) -> (bounds: OperationBounds)
        ensures
            bounds.idle_timeout == either(frontmatter.bounds.idle_timeout, config.defaults.idle_timeout_seconds),
            bounds.max_seconds == (match frontmatter.bounds.max_seconds {
                Some(over) => bound_of(over, config.defaults.timeout_seconds),
                None => default_bound(config.defaults),
            }),
            bounds.max_continuations == either(
                frontmatter.bounds.max_continuations,
                config.defaults.max_continuations,
            ),
            bounds.max_tool_calls == either(frontmatter.bounds.max_tool_calls, config.defaults.max_tool_calls),
    {
        let max_seconds = match &frontmatter.bounds.max_seconds {
            Some(over) => effective_max_seconds(over, config.defaults.timeout_seconds),
            None => config.defaults.effective_max_seconds(),
        };
        OperationBounds {
            idle_timeout: frontmatter.bounds.idle_timeout.unwrap_or(config.defaults.idle_timeout_seconds),
            max_seconds,
            max_continuations: frontmatter.bounds.max_continuations.unwrap_or(
                config.defaults.max_continuations,
            ),
            max_tool_calls: frontmatter.bounds.max_tool_calls.unwrap_or(config.defaults.max_tool_calls),
        }
    }
}

/// How long an agent is told that it has, in seconds: the bound of the defaults, or
/// else the timeout.
pub open spec fn announced_seconds(config: &Config) -> u64 {
    either(default_bound(config.defaults), config.defaults.timeout_seconds)
}

/// How long an agent is told that it has, in seconds.
pub fn announced_timeout(config: &Config) -> (seconds: u64)
    ensures
        seconds == announced_seconds(config),
{
    config.defaults.effective_max_seconds().unwrap_or(config.defaults.timeout_seconds)
}

// ---------------------------------------------------------------------------
// Watching a session
// ---------------------------------------------------------------------------

/// How often a session is looked at, in milliseconds.
pub const IDLE_POLL_INTERVAL: u64 = 100;

/// Why a session was stopped.
#[derive(Debug, Clone, Copy, PartialEq, Eq, Structural)]
pub enum SessionKill {
    /// It was silent for so many seconds.
    Idle { idle_secs: u64 },
    /// It took as long as it may.
    Budget { max_secs: u64 },
}

/// The watch over a session. Times are in milliseconds since the session began.
#[derive(Debug, Clone, Copy, PartialEq, Eq, Structural)]
pub struct Watch {
    /// How long the session may be silent, in milliseconds.
    pub idle_timeout: u64,
    /// How long the session may take, in seconds.
    pub max_seconds: Option<u64>,
    /// Whether the agent writes its output as it goes. Where it does not, silence
    /// means nothing.
    pub streams_output: bool,
    /// The size of the session's log when it last changed.
    pub last_size: u64,
    /// When it last changed.
    pub last_activity: u64,
}

impl Watch {
    /// The watch at the start of a session.
    pub fn start(idle_timeout: u64, max_seconds: Option<u64>, streams_output: bool, size: u64) -> (watch: Watch)
        ensures
            watch == (Watch { idle_timeout, max_seconds, streams_output, last_size: size, last_activity: 0 }),
    {
        Watch { idle_timeout, max_seconds, streams_output, last_size: size, last_activity: 0 }
    }

    /// The watch after a look at `now` at a log of `size`.
    pub open spec fn seen(self, now: u64, size: u64) -> Watch {
        if size != self.last_size {
            Watch { last_size: size, last_activity: now, ..self }
        } else {
            self
        }
    }

    /// Why the session is stopped at `now`, if it is. The bound on time goes before
    /// silence.
    pub open spec fn verdict(self, now: u64) -> Option<SessionKill> {
        if self.max_seconds is Some && now / 1000 >= self.max_seconds->0 {
            Some(SessionKill::Budget { max_secs: self.max_seconds->0 })
        } else if self.streams_output && now - self.last_activity >= self.idle_timeout {
            Some(SessionKill::Idle { idle_secs: self.idle_timeout / 1000 })
        } else {
            None
        }
    }

    /// Looks at a session at `now`, with its log at `size`.
    pub fn tick(&mut self, now: u64, size: u64) -> (kill: Option<SessionKill>)
        requires
            old(self).last_activity <= now,
        ensures
            *final(self) == old(self).seen(now, size),
            kill == final(self).verdict(now),
    {
        if size != self.last_size {
            self.last_size = size;
            self.last_activity = now;
        }
        if let Some(seconds) = self.max_seconds {
            if now / 1000 >= seconds {
                return Some(SessionKill::Budget { max_secs: seconds });
            }
        }
        if self.streams_output && now - self.last_activity >= self.idle_timeout {
            return Some(SessionKill::Idle { idle_secs: self.idle_timeout / 1000 });
        }
        None
    }
}

/// An agent that does not write as it goes is never stopped for silence.
pub proof fn law_silence_of_buffered_agents_is_allowed(watch: Watch, now: u64)
    requires
        !watch.streams_output,
    ensures
        !(watch.verdict(now) matches Some(SessionKill::Idle { .. })),
{
}

/// A session whose log grows within the idle time is not stopped for silence.
pub proof fn law_a_growing_log_keeps_a_session(watch: Watch, now: u64, size: u64, later: u64)
    requires
        size != watch.last_size,
        now <= later,
        later - now < watch.idle_timeout,
    ensures
        !(watch.seen(now, size).verdict(later) matches Some(SessionKill::Idle { .. })),
{
}

// ---------------------------------------------------------------------------
// The end of a session
// ---------------------------------------------------------------------------

/// What an agent hands back.
#[derive(Debug, PartialEq, Eq)]
pub struct AgentRunResult {
    pub recap: String,
    /// Whether the agent asks for the user.
    pub requires_user: bool,
    pub suggested_agent: Option<String>,
    /// A command that continues the session.
    pub resume_command: Option<String>,
}

/// What an [`AgentRunResult`] says.
pub struct ResultView {
    pub recap: Seq<char>,
    pub requires_user: bool,
    pub suggested_agent: Option<Seq<char>>,
    pub resume_command: Option<Seq<char>>,
}

impl View for AgentRunResult {
    type V = ResultView;

    open spec fn view(&self) -> ResultView {
        ResultView {
            recap: self.recap@,
            requires_user: self.requires_user,
            suggested_agent: self.suggested_agent.deep_view(),
            resume_command: self.resume_command.deep_view(),
        }
    }
}

/// How a session ended.
#[derive(Debug, PartialEq, Eq)]
pub enum SessionEnd {
    /// The agent finished.
    Finished(AgentRunResult),
    /// The agent failed: the reason, and the reason with all its causes.
    Failed { error: String, causes: String },
    /// The session was stopped.
    Killed(SessionKill),
}

/// How a session ended, without its strings' storage.
pub enum EndView {
    Finished(ResultView),
    Failed { error: Seq<char>, causes: Seq<char> },
    Killed(SessionKill),
}

impl View for SessionEnd {
    type V = EndView;

    open spec fn view(&self) -> EndView {
        match *self {
            SessionEnd::Finished(result) => EndView::Finished(result@),
            SessionEnd::Failed { error, causes } => EndView::Failed { error: error@, causes: causes@ },
            SessionEnd::Killed(kill) => EndView::Killed(kill),
        }
    }
}

/// What comes of the end of a session: whether the agent finished, what is kept as
/// its result and what is added to the session's log.
#[derive(Debug, PartialEq, Eq)]
pub struct SessionReport {
    /// The result, or the report of a failure.
    pub outcome: Result<AgentRunResult, AgentRunResult>,
    /// What is added to the log.
    pub log: Option<String>,
}

/// What an outcome says.
pub open spec fn outcome_view(outcome: Result<AgentRunResult, AgentRunResult>) -> Result<ResultView, ResultView> {
    match outcome {
        Ok(result) => Ok(result@),
        Err(failure) => Err(failure@),
    }
}

/// How the report of a session ends: with its id and its log.
pub open spec fn session_footer(session_id: Seq<char>, log: Seq<char>) -> Seq<char> {
    "\n\nSession ID: `"@ + session_id + "`\n\nSession log: ["@ + log + "]("@ + log + ")"@
}

fn session_footer_text(session_id: &str, log: &str) -> (text: String)
    ensures
        text@ == session_footer(session_id@, log@),
{
    "\n\nSession ID: `".to_owned().concat(session_id).concat("`\n\nSession log: [").concat(log).concat("](").concat(
        log,
    ).concat(")")
}

pub const FAILED_MARK: &'static str = "# Agent Run Failed";

pub const TIMED_OUT_MARK: &'static str = "# Agent Run Timed Out";

pub const IDLE_ADVICE: &'static str =
    "`, so Varda's idle watchdog cancelled the wedged session.\n\nWhat completed: the session log was preserved for inspection.\n\nWhat remains: delegate the unfinished work to a Varda long-running runner task, then resume the agent after the complete runner output is available.\n\nBlockers: the session stalled with no output.\n\nUser interaction required: no.\n\nSuggested next agent: runner.";

pub const BUDGET_ADVICE: &'static str =
    "`. Varda stopped the run gracefully so no edit was interrupted mid-flight.\n\nWhat remains: review the partial progress in the session log and re-run to continue.\n\nUser interaction required: yes.";

/// The recap of a failed session.
pub open spec fn failed_recap(task: Seq<char>, error: Seq<char>, session_id: Seq<char>, log: Seq<char>) -> Seq<char> {
    FAILED_MARK@ + "\n\nThe agent failed while processing `"@ + task + "`.\n\nError: "@ + error + session_footer(
        session_id,
        log,
    )
}

/// The recap of a session that was silent for too long.
pub open spec fn idle_recap(task: Seq<char>, seconds: u64, session_id: Seq<char>, log: Seq<char>) -> Seq<char> {
    TIMED_OUT_MARK@ + "\n\nThe agent produced no output for "@ + decimal(seconds as nat)
        + " seconds while processing `"@ + task + IDLE_ADVICE@ + session_footer(session_id, log)
}

/// The recap of a session that took as long as it may.
pub open spec fn budget_recap(task: Seq<char>, seconds: u64, session_id: Seq<char>, log: Seq<char>) -> Seq<char> {
    "# Operation Budget Reached\n\nThe agent reached the configured "@ + decimal(seconds as nat)
        + " second soft ceiling while processing `"@ + task + BUDGET_ADVICE@ + session_footer(session_id, log)
}

/// The outcome of a session that ended so. A failure and silence are failures; a
/// spent bound asks for the user.
pub open spec fn end_outcome(end: EndView, session_id: Seq<char>, log: Seq<char>, task: Seq<char>) -> Result<
    ResultView,
    ResultView,
> {
    match end {
        EndView::Finished(result) => Ok(result),
        EndView::Failed { error, causes } => Err(
            ResultView {
                recap: failed_recap(task, error, session_id, log),
                requires_user: false,
                suggested_agent: None,
                resume_command: None,
            },
        ),
        EndView::Killed(SessionKill::Idle { idle_secs }) => Err(
            ResultView {
                recap: idle_recap(task, idle_secs, session_id, log),
                requires_user: false,
                suggested_agent: Some("runner"@),
                resume_command: None,
            },
        ),
        EndView::Killed(SessionKill::Budget { max_secs }) => Err(
            ResultView {
                recap: budget_recap(task, max_secs, session_id, log),
                requires_user: true,
                suggested_agent: None,
                resume_command: None,
            },
        ),
    }
}

/// What is added to the log of a session that ended so.
pub open spec fn end_log(end: EndView) -> Option<Seq<char>> {
    match end {
        EndView::Finished(_) => None,
        EndView::Failed { error, causes } => Some("\nerror:\n"@ + causes + "\n"@),
        EndView::Killed(SessionKill::Idle { idle_secs }) => Some(
            "\nidle_watchdog:\nno output for "@ + decimal(idle_secs as nat)
                + " seconds; session cancelled\nlong_running_task_requested=true\n"@,
        ),
        EndView::Killed(SessionKill::Budget { max_secs }) => Some(
            "\nbudget:\nsoft ceiling of "@ + decimal(max_secs as nat)
                + " seconds reached; stopping gracefully for user review\n"@,
        ),
    }
}

/// What comes of the end of a session.
pub fn single_session_outcome(end: SessionEnd, session_id: &str, session_log_path: &str, task_path: &str) -> (report: SessionReport)
    ensures
        outcome_view(report.outcome) == end_outcome(end@, session_id@, session_log_path@, task_path@),
        report.log.deep_view() == end_log(end@),
{
    let footer = session_footer_text(session_id, session_log_path);
    match end {
        SessionEnd::Finished(result) => SessionReport { outcome: Ok(result), log: None },
        SessionEnd::Failed { error, causes } => SessionReport {
            outcome: Err(
                AgentRunResult {
                    recap: FAILED_MARK.to_owned().concat("\n\nThe agent failed while processing `").concat(
                        task_path,
                    ).concat("`.\n\nError: ").concat(error.as_str()).concat(footer.as_str()),
                    requires_user: false,
                    suggested_agent: None,
                    resume_command: None,
                },
            ),
            log: Some(cat3("\nerror:\n", causes.as_str(), "\n")),
        },
        SessionEnd::Killed(SessionKill::Idle { idle_secs }) => SessionReport {
            outcome: Err(
                AgentRunResult {
                    recap: TIMED_OUT_MARK.to_owned().concat("\n\nThe agent produced no output for ").concat(
                        decimal_of(idle_secs).as_str(),
                    ).concat(" seconds while processing `").concat(task_path).concat(IDLE_ADVICE).concat(
                        footer.as_str(),
                    ),
                    requires_user: false,
                    suggested_agent: Some("runner".to_owned()),
                    resume_command: None,
                },
            ),
            log: Some(
                cat3(
                    "\nidle_watchdog:\nno output for ",
                    decimal_of(idle_secs).as_str(),
                    " seconds; session cancelled\nlong_running_task_requested=true\n",
                ),
            ),
        },
        SessionEnd::Killed(SessionKill::Budget { max_secs }) => SessionReport {
            outcome: Err(
                AgentRunResult {
                    recap: "# Operation Budget Reached\n\nThe agent reached the configured ".to_owned().concat(
                        decimal_of(max_secs).as_str(),
                    ).concat(" second soft ceiling while processing `").concat(task_path).concat(
                        BUDGET_ADVICE,
                    ).concat(footer.as_str()),
                    requires_user: true,
                    suggested_agent: None,
                    resume_command: None,
                },
            ),
            log: Some(
                cat3(
                    "\nbudget:\nsoft ceiling of ",
                    decimal_of(max_secs).as_str(),
                    " seconds reached; stopping gracefully for user review\n",
                ),
            ),
        },
    }
}

// ---------------------------------------------------------------------------
// Continuing a run
// ---------------------------------------------------------------------------

/// What stands between two recaps.
pub const RECAP_SEPARATOR: &'static str = "\n\n---\n\n";

/// The recaps of all sessions of a run, in order.
pub open spec fn stitched(prior: Seq<Seq<char>>, last: Seq<char>) -> Seq<char> {
    join(prior.push(last), RECAP_SEPARATOR@)
}

/// The recaps of the earlier sessions and then that of the last one.
pub fn combine_recaps(prior: &Vec<String>, last: &str) -> (text: String)
    ensures
        text@ == stitched(prior.deep_view(), last@),
{
    let mut parts = crate::collect::duplicate_strings(prior);
    let ghost before = parts.deep_view();
    parts.push(last.to_owned());
    assert(parts.deep_view() =~= before.push(last@));
    joined(&parts, RECAP_SEPARATOR)
}

/// How long the next session of a run may take, in seconds: what is left of the
/// bound on the whole run.
pub fn remaining_seconds(max_seconds: Option<u64>, elapsed: u64) -> (remaining: Option<u64>)
    ensures
        remaining == (match max_seconds {
            Some(total) => Some(
                if elapsed < total {
                    (total - elapsed) as u64
                } else {
                    0
                },
            ),
            None => None,
        }),
{
    match max_seconds {
        Some(total) => if elapsed < total {
            Some(total - elapsed)
        } else {
            Some(0)
        },
        None => None,
    }
}

/// The sessions of a run so far.
#[derive(Debug, PartialEq, Eq)]
pub struct Hops {
    /// The recaps of the sessions that were continued, in order.
    pub prior_recaps: Vec<String>,
    /// How often the run has been continued.
    pub hop: u32,
}

/// What comes after a session.
#[derive(Debug, PartialEq, Eq)]
pub enum HopStep {
    /// The run goes on with a session that this command continues.
    Continue { resume: String },
    /// The run is over: its outcome, and what is added to the last session's log.
    Finish { outcome: Result<AgentRunResult, AgentRunResult>, log: Option<String> },
}

/// What comes after a session, without its strings' storage.
pub enum StepView {
    Continue { resume: Seq<char> },
    Finish { outcome: Result<ResultView, ResultView>, log: Option<Seq<char>> },
}

impl View for HopStep {
    type V = StepView;

    open spec fn view(&self) -> StepView {
        match *self {
            HopStep::Continue { resume } => StepView::Continue { resume: resume@ },
            HopStep::Finish { outcome, log } => StepView::Finish {
                outcome: outcome_view(outcome),
                log: log.deep_view(),
            },
        }
    }
}

/// Whether a result says that there is more to do: runs may be continued, there is a
/// command for it, and the agent does not ask for the user.
pub open spec fn more_work(result: ResultView, max_continuations: u32) -> bool {
    max_continuations > 0 && result.resume_command is Some && !result.requires_user
}

/// The recap of a run that was continued as often as it may and is not done.
pub open spec fn limit_recap(hop: nat, task: Seq<char>, max: u32, combined: Seq<char>) -> Seq<char> {
    "# Auto-Resume Limit Reached\n\nVarda stitched "@ + decimal(hop + 1) + " continuation session(s) for `"@
        + task + "` but the agent still reported more work after the max_continuations="@ + decimal(max as nat)
        + " ceiling. Stopping for user review.\n\nUser interaction required: yes.\n\n## Accumulated recaps\n\n"@
        + combined
}

/// What comes after a session with `outcome`.
pub open spec fn next_step(
    prior: Seq<Seq<char>>,
    hop: u32,
    max_continuations: u32,
    outcome: Result<ResultView, ResultView>,
    task: Seq<char>,
) -> StepView {
    match outcome {
        Ok(result) => if more_work(result, max_continuations) {
            if hop < max_continuations {
                StepView::Continue { resume: result.resume_command->0 }
            } else {
                StepView::Finish {
                    outcome: Err(
                        ResultView {
                            recap: limit_recap(
                                hop as nat,
                                task,
                                max_continuations,
                                stitched(prior, result.recap),
                            ),
                            requires_user: true,
                            suggested_agent: result.suggested_agent,
                            resume_command: result.resume_command,
                        },
                    ),
                    log: Some(
                        "\nauto_resume:\nreached max_continuations="@ + decimal(max_continuations as nat)
                            + " with work remaining; stopping for user review\n"@,
                    ),
                }
            }
        } else if prior.len() == 0 {
            StepView::Finish { outcome: Ok(result), log: None }
        } else {
            StepView::Finish {
                outcome: Ok(
                    ResultView {
                        recap: stitched(prior, result.recap),
                        requires_user: result.requires_user,
                        suggested_agent: result.suggested_agent,
                        resume_command: None,
                    },
                ),
                log: None,
            }
        },
        Err(failure) => if prior.len() == 0 {
            StepView::Finish { outcome: Err(failure), log: None }
        } else {
            StepView::Finish {
                outcome: Err(
                    ResultView {
                        recap: failure.recap + "\n\n## Earlier continuation recaps\n\n"@ + join(
                            prior,
                            RECAP_SEPARATOR@,
                        ),
                        ..failure
                    },
                ),
                log: None,
            }
        },
    }
}

impl Hops {
    /// A run before its first session has ended.
    pub fn start() -> (hops: Hops)
        ensures
            hops.prior_recaps.deep_view() == Seq::<Seq<char>>::empty(),
            hops.hop == 0,
    {
        let hops = Hops { prior_recaps: Vec::new(), hop: 0 };
        assert(hops.prior_recaps.deep_view() =~= Seq::empty());
        hops
    }

    /// Enters the outcome of a session and says what comes next. Where the run is
    /// continued, the recap is kept.
    pub fn advance(&mut self, max_continuations: u32, outcome: Result<AgentRunResult, AgentRunResult>, task_path: &str) -> (step: HopStep)
        ensures
            step@ == next_step(
                old(self).prior_recaps.deep_view(),
                old(self).hop,
                max_continuations,
                outcome_view(outcome),
                task_path@,
            ),
            step is Continue ==> {
                &&& final(self).hop == old(self).hop + 1
                &&& final(self).prior_recaps.deep_view() == old(self).prior_recaps.deep_view().push(
                    outcome_view(outcome)->Ok_0.recap,
                )
            },
            step is Finish ==> *final(self) == *old(self),
    {
        match outcome {
            Ok(result) => {
                let more = max_continuations > 0 && result.resume_command.is_some() && !result.requires_user;
                if more && self.hop < max_continuations {
                    let ghost before = self.prior_recaps.deep_view();
                    let ghost recap = result.recap@;
                    let resume = match result.resume_command {
                        Some(resume) => resume,
                        None => String::new(),
                    };
                    self.prior_recaps.push(result.recap);
                    self.hop = self.hop + 1;
                    assert(self.prior_recaps.deep_view() =~= before.push(recap));
                    return HopStep::Continue { resume };
                }
                if more {
                    let combined = combine_recaps(&self.prior_recaps, result.recap.as_str());
                    let recap = "# Auto-Resume Limit Reached\n\nVarda stitched ".to_owned().concat(
                        decimal_of(self.hop as u64 + 1).as_str(),
                    ).concat(" continuation session(s) for `").concat(task_path).concat(
                        "` but the agent still reported more work after the max_continuations=",
                    ).concat(decimal_of(max_continuations as u64).as_str()).concat(
                        " ceiling. Stopping for user review.\n\nUser interaction required: yes.\n\n## Accumulated recaps\n\n",
                    ).concat(combined.as_str());
                    let log = cat3(
                        "\nauto_resume:\nreached max_continuations=",
                        decimal_of(max_continuations as u64).as_str(),
                        " with work remaining; stopping for user review\n",
                    );
                    return HopStep::Finish {
                        outcome: Err(
                            AgentRunResult {
                                recap,
                                requires_user: true,
                                suggested_agent: result.suggested_agent,
                                resume_command: result.resume_command,
                            },
                        ),
                        log: Some(log),
                    };
                }
                if self.prior_recaps.len() == 0 {
                    return HopStep::Finish { outcome: Ok(result), log: None };
                }
                let combined = combine_recaps(&self.prior_recaps, result.recap.as_str());
                HopStep::Finish {
                    outcome: Ok(
                        AgentRunResult {
                            recap: combined,
                            requires_user: result.requires_user,
                            suggested_agent: result.suggested_agent,
                            resume_command: None,
                        },
                    ),
                    log: None,
                }
            },
            Err(failure) => {
                if self.prior_recaps.len() == 0 {
                    return HopStep::Finish { outcome: Err(failure), log: None };
                }
                let recap = failure.recap.concat("\n\n## Earlier continuation recaps\n\n").concat(
                    joined(&self.prior_recaps, RECAP_SEPARATOR).as_str(),
                );
                HopStep::Finish {
                    outcome: Err(
                        AgentRunResult {
                            recap,
                            requires_user: failure.requires_user,
                            suggested_agent: failure.suggested_agent,
                            resume_command: failure.resume_command,
                        },
                    ),
                    log: None,
                }
            },
        }
    }
}

/// The recaps that a run keeps after sessions that all say there is more to do.
pub open spec fn kept_recaps(results: Seq<ResultView>) -> Seq<Seq<char>> {
    Seq::new(results.len(), |i: int| results[i].recap)
}

/// A run is never continued more often than it may be.
pub proof fn law_continuations_are_bounded(
    prior: Seq<Seq<char>>,
    hop: u32,
    max_continuations: u32,
    outcome: Result<ResultView, ResultView>,
    task: Seq<char>,
)
    ensures
        next_step(prior, hop, max_continuations, outcome, task) is Continue ==> hop + 1 <= max_continuations,
{
}

/// Where every session but the last says that there is more to do, and the last
/// does not, the run ends with the recaps of all its sessions in order.
pub proof fn law_recaps_keep_their_order(
    results: Seq<ResultView>,
    last: ResultView,
    max_continuations: u32,
    task: Seq<char>,
)
    requires
        results.len() > 0,
        results.len() <= max_continuations,
        forall|i: int| 0 <= i < results.len() ==> more_work(#[trigger] results[i], max_continuations),
        !more_work(last, max_continuations),
    ensures
        forall|i: int|
            0 <= i < results.len() ==> next_step(
                kept_recaps(results.take(i)),
                i as u32,
                max_continuations,
                Ok(#[trigger] results[i]),
                task,
            ) is Continue,
        next_step(kept_recaps(results), results.len() as u32, max_continuations, Ok(last), task) matches StepView::Finish {
            outcome: Ok(result),
            ..
        } && result.recap == join(kept_recaps(results.push(last)), RECAP_SEPARATOR@),
{
    assert(kept_recaps(results).push(last.recap) =~= kept_recaps(results.push(last)));
}

/// A run without continuations is its one session.
pub proof fn law_single_sessions_pass_through(
    outcome: Result<ResultView, ResultView>,
    task: Seq<char>,
)
    ensures
        next_step(Seq::empty(), 0, 0, outcome, task) == (StepView::Finish { outcome, log: None }),
{
}

/// The bound on time is one for the whole run: a session that begins late has only
/// what is left.
pub proof fn law_time_bound_is_for_the_whole_run(total: u64, elapsed: u64, remaining: u64)
    requires
        remaining == if elapsed < total {
            (total - elapsed) as u64
        } else {
            0
        },
        elapsed <= total,
    ensures
        elapsed + remaining == total,
{
}

// ---------------------------------------------------------------------------
// Where a task comes to rest
// ---------------------------------------------------------------------------

/// What became of a run.
#[derive(Debug, PartialEq, Eq)]
pub struct RunOutcome {
    pub status: TaskStatus,
    pub recap_path: String,
    pub session_log_path: String,
    /// The files that the agent reported.
    pub files_touched: Vec<String>,
    /// The commands that the agent was denied.
    pub blocked_commands: Vec<String>,
}

/// What became of planning.
#[derive(Debug, PartialEq, Eq)]
pub struct PlanOutcome {
    pub plan_path: String,
}

/// Whether a result asks for the user, by itself or in its recap.
pub open spec fn needs_user(result: ResultView) -> bool {
    result.requires_user || asks_for_user(result.recap)
}

/// The status that a task comes to rest at.
pub open spec fn rest_status(result: ResultView) -> TaskStatus {
    if needs_user(result) {
        TaskStatus::NeedsUser
    } else if begins(result.recap, FAILED_MARK@) || begins(result.recap, TIMED_OUT_MARK@) {
        TaskStatus::Failed
    } else {
        TaskStatus::Review
    }
}

/// Whether a task has been brought to rest: only its status, its recaps and whether
/// it asks for the user have changed.
pub open spec fn rested(before: TaskDocument, after: TaskDocument, result: ResultView, recap_path: Seq<char>) -> bool {
    &&& after == (TaskDocument {
        frontmatter: TaskFrontmatter {
            status: rest_status(result),
            requires_user: needs_user(result),
            recaps: after.frontmatter.recaps,
            ..before.frontmatter
        },
        ..before
    })
    &&& after.frontmatter.recaps.deep_view() == before.frontmatter.recaps.deep_view().push(recap_path)
}

/// Brings a task to rest after a run whose recap was written to `recap_path`.
pub fn finish_run(task: &mut TaskDocument, result: &AgentRunResult, recap_path: &str, session_log_path: &str) -> (outcome: RunOutcome)
    ensures
        rested(*old(task), *final(task), result@, recap_path@),
        outcome.status == rest_status(result@),
        outcome.recap_path@ == recap_path@,
        outcome.session_log_path@ == session_log_path@,
        outcome.files_touched.deep_view() == files_touched(result.recap@),
        outcome.blocked_commands.deep_view() == blocked_commands(result.recap@),
{
    let recap = result.recap.as_str();
    let requires_user = result.requires_user || recap_requires_user_interaction(recap);
    let ghost before = task.frontmatter.recaps.deep_view();
    task.set_recap(recap_path.to_owned());
    assert(task.frontmatter.recaps.deep_view() =~= before.push(recap_path@));
    task.frontmatter.requires_user = requires_user;
    let status = if requires_user {
        TaskStatus::NeedsUser
    } else if starts_with(recap, FAILED_MARK) || starts_with(recap, TIMED_OUT_MARK) {
        TaskStatus::Failed
    } else {
        TaskStatus::Review
    };
    task.set_status(status);
    RunOutcome {
        status,
        recap_path: recap_path.to_owned(),
        session_log_path: session_log_path.to_owned(),
        files_touched: parse_files_touched(recap),
        blocked_commands: parse_blocked_commands(recap),
    }
}

/// Whatever an agent hands back, a run brings its task to rest.
pub proof fn law_every_run_comes_to_rest(result: ResultView)
    ensures
        crate::collect::terminal(rest_status(result)),
{
}

/// A run that took as long as it may waits for the user; it has not failed.
pub proof fn law_a_spent_bound_waits_for_the_user(
    seconds: u64,
    session_id: Seq<char>,
    log: Seq<char>,
    task: Seq<char>,
)
    ensures
        end_outcome(
            EndView::Killed(SessionKill::Budget { max_secs: seconds }),
            session_id,
            log,
            task,
        ) matches Err(failure) && rest_status(failure) == TaskStatus::NeedsUser,
{
}

/// A failure in a later session is still known by its mark: the recap of the whole
/// run begins with it.
pub proof fn law_failures_keep_their_mark(
    prior: Seq<Seq<char>>,
    hop: u32,
    max_continuations: u32,
    failure: ResultView,
    task: Seq<char>,
    mark: Seq<char>,
)
    requires
        begins(failure.recap, mark),
    ensures
        next_step(prior, hop, max_continuations, Err(failure), task) matches StepView::Finish {
            outcome: Err(result),
            ..
        } && begins(result.recap, mark),
{
    let step = next_step(prior, hop, max_continuations, Err(failure), task);
    let recap = step->outcome->Err_0.recap;
    assert(recap.subrange(0, mark.len() as int) =~= failure.recap.subrange(0, mark.len() as int));
}

// ---------------------------------------------------------------------------
// Laws of a run
// ---------------------------------------------------------------------------

/// Whatever way a run ends, the recap of its outcome holds the recap of each of its
/// sessions: where the last one finished, also where the run was continued as often as it
/// may be, in the order of the sessions; where the last one failed, the recap of the
/// failure and then those of the earlier sessions in their order.
pub proof fn law_the_end_keeps_every_recap(
    prior: Seq<Seq<char>>,
    hop: u32,
    max_continuations: u32,
    outcome: Result<ResultView, ResultView>,
    task: Seq<char>,
)
    ensures
        next_step(prior, hop, max_continuations, outcome, task) matches StepView::Finish { outcome: end, .. } ==> {
            let recap = match end {
                Ok(result) => result.recap,
                Err(failure) => failure.recap,
            };
            match outcome {
                Ok(last) => holds_in_order(recap, prior.push(last.recap)),
                Err(last) => holds_in_order(recap, seq![last.recap] + prior),
            }
        },
{
    match outcome {
        Ok(last) => {
            let parts = prior.push(last.recap);
            law_joined_parts_stand_in_order(parts, RECAP_SEPARATOR@);
            let combined = join(parts, RECAP_SEPARATOR@);
            if prior.len() == 0 {
                lemma_alone_in_order(last.recap);
                assert(parts =~= seq![last.recap]);
            }
            let full = limit_recap(hop as nat, task, max_continuations, combined);
            let before = limit_recap(hop as nat, task, max_continuations, Seq::empty());
            assert(full =~= before + combined + Seq::<char>::empty());
            lemma_in_order_within(before, combined, Seq::empty(), parts);
        },
        Err(last) => {
            let parts = seq![last.recap] + prior;
            if prior.len() == 0 {
                lemma_alone_in_order(last.recap);
                assert(parts =~= seq![last.recap]);
            } else {
                law_joined_parts_stand_in_order(prior, RECAP_SEPARATOR@);
                let between = "\n\n## Earlier continuation recaps\n\n"@;
                let earlier = join(prior, RECAP_SEPARATOR@);
                let at = choose|at: Seq<int>| in_order_at(earlier, prior, at);
                let whole = last.recap + between + earlier;
                let start = last.recap.len() + between.len();
                let places = seq![0int] + at.map_values(|p: int| p + start);
                assert forall|i: int| 0 <= i < parts.len() implies 0 <= #[trigger] places[i] && places[i]
                    + parts[i].len() <= whole.len() && whole.subrange(places[i], places[i] + parts[i].len())
                    == parts[i] by {
                    if i == 0 {
                        assert(whole.subrange(0, last.recap.len() as int) =~= last.recap);
                    } else {
                        assert(places[i] == at[i - 1] + start);
                        assert(parts[i] == prior[i - 1]);
                        assert(whole.subrange(places[i], places[i] + parts[i].len()) =~= earlier.subrange(
                            at[i - 1],
                            at[i - 1] + prior[i - 1].len(),
                        ));
                    }
                }
                assert forall|i: int, j: int| 0 <= i < j < parts.len() implies #[trigger] places[i] + parts[i].len()
                    <= #[trigger] places[j] by {
                    assert(places[j] == at[j - 1] + start);
                    assert(parts[j] == prior[j - 1]);
                    if i > 0 {
                        assert(places[i] == at[i - 1] + start);
                        assert(parts[i] == prior[i - 1]);
                    }
                }
                assert(in_order_at(whole, parts, places));
            }
        },
    }
}

/// A text stands in itself.
proof fn lemma_alone_in_order(text: Seq<char>)
    ensures
        holds_in_order(text, seq![text]),
{
    assert(text.subrange(0, text.len() as int) =~= text);
    assert(in_order_at(text, seq![text], seq![0int]));
}

/// A run goes on exactly where its last session finished with a command that continues
/// it and without asking for the user, and the run may be continued once more; it goes on
/// with that command. It ends well exactly where the last session finished and asks for
/// the user or has nothing left to do, or where runs are not continued at all.
pub proof fn law_a_run_goes_on_while_it_may(
    prior: Seq<Seq<char>>,
    hop: u32,
    max_continuations: u32,
    outcome: Result<ResultView, ResultView>,
    task: Seq<char>,
)
    ensures
        ({
            let open = outcome matches Ok(result) && result.resume_command is Some && !result.requires_user;
            match next_step(prior, hop, max_continuations, outcome, task) {
                StepView::Continue { resume } => open && hop < max_continuations
                    && outcome->Ok_0.resume_command == Some(resume),
                StepView::Finish { outcome: Ok(end), .. } => outcome is Ok && (!open || max_continuations == 0),
                StepView::Finish { outcome: Err(end), .. } => outcome is Err || open && max_continuations > 0 && hop
                    >= max_continuations,
            }
        }),
{
}

/// A run that ends says of itself what its last session says: whether it asks for the
/// user, and whom it suggests. A run that was continued as often as it may be asks for
/// the user, keeps the command that would continue it, and says so in the log; no other
/// end adds to the log. A run that was continued and is done cannot be continued.
pub proof fn law_the_end_answers_for_the_last_session(
    prior: Seq<Seq<char>>,
    hop: u32,
    max_continuations: u32,
    outcome: Result<ResultView, ResultView>,
    task: Seq<char>,
)
    ensures
        next_step(prior, hop, max_continuations, outcome, task) matches StepView::Finish { outcome: end, log } ==> {
            let last = match outcome {
                Ok(result) => result,
                Err(failure) => failure,
            };
            let result = match end {
                Ok(result) => result,
                Err(failure) => failure,
            };
            let limit = outcome is Ok && end is Err;
            &&& result.suggested_agent == last.suggested_agent
            &&& result.requires_user == (last.requires_user || limit)
            &&& limit || outcome is Err || prior.len() == 0 ==> result.resume_command == last.resume_command
            &&& outcome is Ok && !limit && prior.len() > 0 ==> result.resume_command is None
            &&& log is Some == limit
            &&& limit ==> holds(log->0, "max_continuations="@ + decimal(max_continuations as nat))
            &&& limit ==> begins(result.recap, "# Auto-Resume Limit Reached"@)
            &&& limit ==> holds(result.recap, "max_continuations="@ + decimal(max_continuations as nat))
            &&& limit ==> holds(result.recap, decimal(hop as nat + 1) + " continuation session(s) for `"@ + task + "`"@)
        },
{
    if let Ok(result) = outcome {
        let combined = stitched(prior, result.recap);
        let max = decimal(max_continuations as nat);
        let sessions = decimal(hop as nat + 1);
        let full = limit_recap(hop as nat, task, max_continuations, combined);
        reveal_strlit("# Auto-Resume Limit Reached\n\nVarda stitched ");
        reveal_strlit("# Auto-Resume Limit Reached");
        reveal_strlit("` but the agent still reported more work after the max_continuations=");
        reveal_strlit("max_continuations=");
        reveal_strlit("`");
        reveal_strlit(" but the agent still reported more work after the ");
        reveal_strlit("\nauto_resume:\nreached max_continuations=");
        reveal_strlit("\nauto_resume:\nreached ");
        assert(full.subrange(0, 27) =~= "# Auto-Resume Limit Reached"@);
        let head = "# Auto-Resume Limit Reached\n\nVarda stitched "@;
        let end =
            " ceiling. Stopping for user review.\n\nUser interaction required: yes.\n\n## Accumulated recaps\n\n"@
            + combined;
        let who = sessions + " continuation session(s) for `"@ + task + "`"@;
        let bound = "max_continuations="@ + max;
        let middle = " but the agent still reported more work after the "@;
        assert(full =~= head + who + (middle + bound + end));
        assert(full =~= (head + who + middle) + bound + end);
        lemma_holds_within(head, who, middle + bound + end);
        lemma_holds_within(head + who + middle, bound, end);
        let closing = " with work remaining; stopping for user review\n"@;
        let log = "\nauto_resume:\nreached max_continuations="@ + max + closing;
        assert(log =~= "\nauto_resume:\nreached "@ + bound + closing);
        lemma_holds_within("\nauto_resume:\nreached "@, bound, closing);
    }
}

/// A session that finished hands on its result and adds nothing to the log. One that
/// failed, was silent or took too long is a failure; of the three only the one that took
/// too long asks for the user, and only the silent one suggests a runner. What the log
/// gets holds the causes of the failure, or the seconds that passed.
pub proof fn law_the_end_of_a_session_is_reported(
    end: SessionEnd,
    session_id: &str,
    log: &str,
    task: &str,
    report: SessionReport,
)
    requires
        call_ensures(single_session_outcome, (end, session_id, log, task), report),
    ensures
        match end {
            SessionEnd::Finished(result) => report.outcome matches Ok(kept) && kept.recap@ == result.recap@
                && kept.requires_user == result.requires_user && kept.suggested_agent.deep_view()
                == result.suggested_agent.deep_view() && kept.resume_command.deep_view()
                == result.resume_command.deep_view() && report.log is None,
            SessionEnd::Failed { error, causes } => report.outcome matches Err(failure) && !failure.requires_user
                && failure.suggested_agent is None && report.log is Some && holds(report.log->0@, causes@),
            SessionEnd::Killed(SessionKill::Idle { idle_secs }) => report.outcome matches Err(failure)
                && !failure.requires_user && failure.suggested_agent.deep_view() == Some("runner"@)
                && report.log is Some && holds(report.log->0@, decimal(idle_secs as nat)),
            SessionEnd::Killed(SessionKill::Budget { max_secs }) => report.outcome matches Err(failure)
                && failure.requires_user && failure.suggested_agent is None && report.log is Some && holds(
                report.log->0@,
                decimal(max_secs as nat),
            ),
        },
        report.outcome matches Err(failure) ==> failure.resume_command is None,
{
    match end {
        SessionEnd::Finished(result) => {
            assert(report.outcome->Ok_0@ == result@);
        },
        SessionEnd::Failed { error, causes } => {
            lemma_holds_within("\nerror:\n"@, causes@, "\n"@);
        },
        SessionEnd::Killed(SessionKill::Idle { idle_secs }) => {
            lemma_holds_within(
                "\nidle_watchdog:\nno output for "@,
                decimal(idle_secs as nat),
                " seconds; session cancelled\nlong_running_task_requested=true\n"@,
            );
        },
        SessionEnd::Killed(SessionKill::Budget { max_secs }) => {
            lemma_holds_within(
                "\nbudget:\nsoft ceiling of "@,
                decimal(max_secs as nat),
                " seconds reached; stopping gracefully for user review\n"@,
            );
        },
    }
}

/// The recap of a session that did not finish is known by its mark and names the task,
/// the error or the seconds that passed, the session and its log.
pub proof fn law_the_recap_of_a_failure_names_its_cause(
    end: SessionEnd,
    session_id: &str,
    log: &str,
    task: &str,
    report: SessionReport,
)
    requires
        call_ensures(single_session_outcome, (end, session_id, log, task), report),
    ensures
        report.outcome matches Err(failure) ==> {
            let recap = failure.recap@;
            match end {
                SessionEnd::Finished(result) => false,
                SessionEnd::Failed { error, .. } => begins(recap, "# Agent Run Failed"@) && holds_in_order(
                    recap,
                    seq![task@, error@, session_id@, log@],
                ),
                SessionEnd::Killed(SessionKill::Idle { idle_secs }) => begins(recap, "# Agent Run Timed Out"@)
                    && holds_in_order(recap, seq![decimal(idle_secs as nat), task@, session_id@, log@]),
                SessionEnd::Killed(SessionKill::Budget { max_secs }) => begins(recap, "# Operation Budget Reached"@)
                    && holds_in_order(recap, seq![decimal(max_secs as nat), task@, session_id@, log@]),
            }
        },
{
    match end {
        SessionEnd::Finished(_) => {},
        SessionEnd::Failed { error, causes } => {
            lemma_failed_recap(task@, error@, session_id@, log@);
        },
        SessionEnd::Killed(SessionKill::Idle { idle_secs }) => {
            lemma_idle_recap(task@, idle_secs, session_id@, log@);
        },
        SessionEnd::Killed(SessionKill::Budget { max_secs }) => {
            lemma_budget_recap(task@, max_secs, session_id@, log@);
        },
    }
}

/// What the foot of a recap holds.
proof fn lemma_footer(start: Seq<char>, first: Seq<char>, between: Seq<char>, second: Seq<char>, advice: Seq<char>, session_id: Seq<char>, log: Seq<char>)
    ensures
        holds_in_order(
            start + first + between + second + advice + session_footer(session_id, log),
            seq![first, second, session_id, log],
        ),
{
    let to_id = "\n\nSession ID: `"@;
    let to_log = "`\n\nSession log: ["@;
    let end_of_log = "]("@ + log + ")"@;
    lemma_four_in_order(start, first, between, second, advice + to_id, session_id, to_log, log, end_of_log);
    let head = start + first + between + second;
    assert(head + advice + session_footer(session_id, log) =~= head + (advice + to_id) + session_id + to_log + log
        + end_of_log);
}

proof fn lemma_failed_recap(task: Seq<char>, error: Seq<char>, session_id: Seq<char>, log: Seq<char>)
    ensures
        begins(failed_recap(task, error, session_id, log), FAILED_MARK@),
        holds_in_order(failed_recap(task, error, session_id, log), seq![task, error, session_id, log]),
{
    let recap = failed_recap(task, error, session_id, log);
    let start = FAILED_MARK@ + "\n\nThe agent failed while processing `"@;
    assert(recap.subrange(0, FAILED_MARK@.len() as int) =~= FAILED_MARK@);
    let none = Seq::<char>::empty();
    lemma_footer(start, task, "`.\n\nError: "@, error, none, session_id, log);
    let head = start + task + "`.\n\nError: "@ + error;
    assert(head + none =~= head);
}

proof fn lemma_idle_recap(task: Seq<char>, seconds: u64, session_id: Seq<char>, log: Seq<char>)
    ensures
        begins(idle_recap(task, seconds, session_id, log), TIMED_OUT_MARK@),
        holds_in_order(
            idle_recap(task, seconds, session_id, log),
            seq![decimal(seconds as nat), task, session_id, log],
        ),
{
    let recap = idle_recap(task, seconds, session_id, log);
    let start = TIMED_OUT_MARK@ + "\n\nThe agent produced no output for "@;
    assert(recap.subrange(0, TIMED_OUT_MARK@.len() as int) =~= TIMED_OUT_MARK@);
    lemma_footer(
        start,
        decimal(seconds as nat),
        " seconds while processing `"@,
        task,
        IDLE_ADVICE@,
        session_id,
        log,
    );
}

proof fn lemma_budget_recap(task: Seq<char>, seconds: u64, session_id: Seq<char>, log: Seq<char>)
    ensures
        begins(budget_recap(task, seconds, session_id, log), "# Operation Budget Reached"@),
        holds_in_order(
            budget_recap(task, seconds, session_id, log),
            seq![decimal(seconds as nat), task, session_id, log],
        ),
{
    let recap = budget_recap(task, seconds, session_id, log);
    let start = "# Operation Budget Reached\n\nThe agent reached the configured "@;
    lemma_budget_mark();
    assert(recap.subrange(0, 26) =~= start.subrange(0, 26));
    lemma_footer(
        start,
        decimal(seconds as nat),
        " second soft ceiling while processing `"@,
        task,
        BUDGET_ADVICE@,
        session_id,
        log,
    );
}

/// The recap of a spent bound begins with its mark.
proof fn lemma_budget_mark()
    ensures
        "# Operation Budget Reached"@.len() == 26,
        "# Operation Budget Reached\n\nThe agent reached the configured "@.len() >= 26,
        "# Operation Budget Reached\n\nThe agent reached the configured "@.subrange(0, 26)
            == "# Operation Budget Reached"@,
{
    reveal_strlit("# Operation Budget Reached\n\nThe agent reached the configured ");
    reveal_strlit("# Operation Budget Reached");
    assert("# Operation Budget Reached\n\nThe agent reached the configured "@.subrange(0, 26)
        =~= "# Operation Budget Reached"@);
}

/// A task waits for the user exactly where the result or its recap asks for that. Where
/// neither does, it has failed exactly where the recap begins with the mark of a failure
/// or of a session that was silent, and else it waits for review.
pub proof fn law_tasks_rest_by_their_recap(result: ResultView)
    ensures
        rest_status(result) is NeedsUser <==> result.requires_user || asks_for_user(result.recap),
        !result.requires_user && !asks_for_user(result.recap) ==> {
            &&& begins(result.recap, "# Agent Run Failed"@) ==> rest_status(result) is Failed
            &&& begins(result.recap, "# Agent Run Timed Out"@) ==> rest_status(result) is Failed
            &&& !begins(result.recap, "# Agent Run Failed"@) && !begins(result.recap, "# Agent Run Timed Out"@)
                ==> rest_status(result) is Review
        },
{
}

/// A task that is brought to rest keeps everything but its status, its recaps and
/// whether it asks for the user; to its recaps one is added at the end.
pub proof fn law_rest_changes_little(
    before: TaskDocument,
    after: TaskDocument,
    result: ResultView,
    recap_path: Seq<char>,
)
    requires
        rested(before, after, result, recap_path),
    ensures
        after.path == before.path,
        after.body == before.body,
        (TaskFrontmatter {
            status: before.frontmatter.status,
            requires_user: before.frontmatter.requires_user,
            recaps: before.frontmatter.recaps,
            ..after.frontmatter
        }) == before.frontmatter,
        after.frontmatter.requires_user <==> result.requires_user || asks_for_user(result.recap),
        after.frontmatter.status is NeedsUser <==> after.frontmatter.requires_user,
        after.frontmatter.recaps@.len() == before.frontmatter.recaps@.len() + 1,
        after.frontmatter.recaps@.last()@ == recap_path,
        forall|i: int|
            0 <= i < before.frontmatter.recaps@.len() ==> (#[trigger] after.frontmatter.recaps@[i])@
                == before.frontmatter.recaps@[i]@,
{
    let old_recaps = before.frontmatter.recaps.deep_view();
    let new_recaps = after.frontmatter.recaps.deep_view();
    assert(new_recaps.len() == old_recaps.len() + 1);
    assert(new_recaps.last() == recap_path);
    assert forall|i: int| 0 <= i < before.frontmatter.recaps@.len() implies (
    #[trigger] after.frontmatter.recaps@[i])@ == before.frontmatter.recaps@[i]@ by {
        assert(new_recaps[i] == old_recaps[i]);
    }
}

/// A session is stopped at the first look at which as many whole seconds have passed as
/// it may take, and otherwise, where its agent writes as it goes, at the first at which
/// it has been silent for as long as it may be; and for no other reason.
pub proof fn law_a_session_is_stopped_for_time_or_silence(watch: Watch, now: u64)
    ensures
        match watch.verdict(now) {
            Some(SessionKill::Budget { max_secs }) => watch.max_seconds == Some(max_secs) && now >= 1000 * max_secs,
            Some(SessionKill::Idle { idle_secs }) => watch.streams_output && now >= watch.last_activity
                + watch.idle_timeout && 1000 * idle_secs <= watch.idle_timeout < 1000 * idle_secs + 1000 && (
            watch.max_seconds matches Some(most) ==> now < 1000 * most),
            None => (watch.max_seconds matches Some(most) ==> now < 1000 * most) && (watch.streams_output ==> now
                < watch.last_activity + watch.idle_timeout),
        },
{
}

/// Only a change of the log counts as a sign of life, and it counts from the look at
/// which it is seen.
pub proof fn law_a_changed_log_is_a_sign_of_life(watch: Watch, now: u64, size: u64)
    ensures
        ({
            let next = watch.seen(now, size);
            &&& next.last_size == size
            &&& next.last_activity == (if size == watch.last_size {
                watch.last_activity
            } else {
                now
            })
            &&& next.idle_timeout == watch.idle_timeout
            &&& next.max_seconds == watch.max_seconds
            &&& next.streams_output == watch.streams_output
        }),
{
}

/// What a task says of its bounds goes before the defaults, each bound for itself. The
/// bound on time is none where it is said to be, the one that is given, or else the
/// timeout, where zero means none.
pub proof fn law_a_task_sets_its_own_bounds(config: &Config, frontmatter: &TaskFrontmatter, bounds: OperationBounds)
    requires
        call_ensures(OperationBounds::resolve, (config, frontmatter), bounds),
    ensures
        ({
            let own = frontmatter.bounds;
            let timeout = config.defaults.timeout_seconds;
            let said = if own.max_seconds is Some {
                own.max_seconds
            } else {
                config.defaults.max_seconds
            };
            &&& own.idle_timeout matches Some(idle) ==> bounds.idle_timeout == idle
            &&& own.idle_timeout is None ==> bounds.idle_timeout == config.defaults.idle_timeout_seconds
            &&& own.max_continuations matches Some(most) ==> bounds.max_continuations == most
            &&& own.max_continuations is None ==> bounds.max_continuations == config.defaults.max_continuations
            &&& own.max_tool_calls matches Some(most) ==> bounds.max_tool_calls == most
            &&& own.max_tool_calls is None ==> bounds.max_tool_calls == config.defaults.max_tool_calls
            &&& match said {
                Some(MaxSeconds::Seconds(most)) => bounds.max_seconds == Some(most),
                Some(MaxSeconds::Keyword(word)) => if word@ == "none"@ || timeout == 0 {
                    bounds.max_seconds is None
                } else {
                    bounds.max_seconds == Some(timeout)
                },
                None => if timeout == 0 {
                    bounds.max_seconds is None
                } else {
                    bounds.max_seconds == Some(timeout)
                },
            }
        }),
{
}

/// The bound on time is one for the whole run: what the sessions so far took is taken off
/// it, down to nothing, and where there is no bound there stays none.
pub proof fn law_spent_time_is_taken_off(max_seconds: Option<u64>, elapsed: u64, remaining: Option<u64>)
    requires
        call_ensures(remaining_seconds, (max_seconds, elapsed), remaining),
    ensures
        max_seconds is None <==> remaining is None,
        max_seconds matches Some(total) ==> {
            &&& elapsed <= total ==> elapsed + remaining->0 == total
            &&& elapsed > total ==> remaining->0 == 0
        },
{
}

/// Whatever a run of sessions is told of its last one, the step that follows and the
/// recaps that are kept are tied to it: a run that goes on keeps the recap as its last one,
/// and one that ends has the recaps of all its sessions in the recap of its outcome.
pub proof fn law_no_recap_is_lost(
    before: Hops,
    after: Hops,
    max_continuations: u32,
    outcome: Result<AgentRunResult, AgentRunResult>,
    task_path: &str,
    step: HopStep,
)
    requires
        exists|hops: &mut Hops|
            *hops == before && *final(hops) == after && #[trigger] call_ensures(
                Hops::advance,
                (hops, max_continuations, outcome, task_path),
                step,
            ),
    ensures
        match step {
            HopStep::Continue { resume } => {
                &&& outcome is Ok
                &&& after.hop == before.hop + 1 && after.hop <= max_continuations
                &&& after.prior_recaps.deep_view() == before.prior_recaps.deep_view().push(outcome->Ok_0.recap@)
                &&& outcome->Ok_0.resume_command is Some && resume@ == outcome->Ok_0.resume_command->0@
            },
            HopStep::Finish { outcome: end, .. } => {
                let recap = match end {
                    Ok(result) => result.recap@,
                    Err(failure) => failure.recap@,
                };
                &&& after == before
                &&& match outcome {
                    Ok(last) => holds_in_order(recap, before.prior_recaps.deep_view().push(last.recap@)),
                    Err(last) => holds_in_order(recap, seq![last.recap@] + before.prior_recaps.deep_view()),
                }
            },
        },
{
    law_the_end_keeps_every_recap(
        before.prior_recaps.deep_view(),
        before.hop,
        max_continuations,
        outcome_view(outcome),
        task_path@,
    );
}

/// A look at a session takes a changed log for a sign of life and then stops the session for
/// time, or else for silence, and for nothing else.
pub proof fn law_a_look_stops_for_time_or_silence(
    before: Watch,
    after: Watch,
    now: u64,
    size: u64,
    kill: Option<SessionKill>,
)
    requires
        before.last_activity <= now,
        exists|watch: &mut Watch|
            *watch == before && *final(watch) == after && #[trigger] call_ensures(
                Watch::tick,
                (watch, now, size),
                kill,
            ),
    ensures
        after.last_size == size,
        after.last_activity == (if size == before.last_size {
            before.last_activity
        } else {
            now
        }),
        after.idle_timeout == before.idle_timeout,
        after.max_seconds == before.max_seconds,
        after.streams_output == before.streams_output,
        kill matches Some(SessionKill::Budget { max_secs }) ==> before.max_seconds == Some(max_secs),
        kill is Some && kill->0 is Budget <==> (before.max_seconds matches Some(most) && now >= 1000 * most),
        kill is Some && kill->0 is Idle <==> !(before.max_seconds matches Some(most) && now >= 1000 * most)
            && before.streams_output && now >= after.last_activity + before.idle_timeout,
{
    law_a_session_is_stopped_for_time_or_silence(after, now);
    law_a_changed_log_is_a_sign_of_life(before, now, size);
}

/// A run that is over brings its task to rest at the status that its recap calls for, adds
/// the recap to those of the task and reports the files and the commands that the recap
/// names; nothing else of the task changes.
pub proof fn law_a_run_that_is_over_brings_its_task_to_rest(
    before: TaskDocument,
    after: TaskDocument,
    result: &AgentRunResult,
    recap_path: &str,
    session_log_path: &str,
    outcome: RunOutcome,
    asks: bool,
    recap: &str,
    files: Vec<String>,
    commands: Vec<String>,
)
    requires
        exists|task: &mut TaskDocument|
            *task == before && *final(task) == after && #[trigger] call_ensures(
                finish_run,
                (task, result, recap_path, session_log_path),
                outcome,
            ),
        recap@ == result.recap@,
        call_ensures(recap_requires_user_interaction, (recap,), asks),
        call_ensures(parse_files_touched, (recap,), files),
        call_ensures(parse_blocked_commands, (recap,), commands),
    ensures
        ({
            let needed = result.requires_user || asks;
            let failed = begins(result.recap@, "# Agent Run Failed"@) || begins(
                result.recap@,
                "# Agent Run Timed Out"@,
            );
            &&& after.frontmatter.requires_user == needed
            &&& after.frontmatter.status == outcome.status
            &&& outcome.status is NeedsUser <==> needed
            &&& outcome.status is Failed <==> !needed && failed
            &&& outcome.status is Review <==> !needed && !failed
        }),
        after.frontmatter.recaps@.len() == before.frontmatter.recaps@.len() + 1,
        after.frontmatter.recaps@.last()@ == recap_path@,
        after.body == before.body,
        after.path == before.path,
        after.frontmatter.project == before.frontmatter.project,
        after.frontmatter.assignee == before.frontmatter.assignee,
        outcome.recap_path@ == recap_path@,
        outcome.session_log_path@ == session_log_path@,
        outcome.files_touched.deep_view() == files.deep_view(),
        outcome.blocked_commands.deep_view() == commands.deep_view(),
{
    law_rest_changes_little(before, after, result@, recap_path@);
    law_tasks_rest_by_their_recap(result@);
}

/// An agent is told the bound of the defaults on a run, or, where there is none, the timeout.
pub proof fn law_agents_are_told_their_time(config: &Config, seconds: u64, bound: Option<u64>)
    requires
        call_ensures(announced_timeout, (config,), seconds),
        call_ensures(crate::config::Defaults::effective_max_seconds, (&config.defaults,), bound),
    ensures
        bound matches Some(most) ==> seconds == most,
        bound is None ==> seconds == config.defaults.timeout_seconds,
{
}

/// The recaps of the sessions of a run are put together in order, with the same thing between
/// any two.
pub proof fn law_recaps_are_put_together_in_order(prior: &Vec<String>, last: &str, text: String)
    requires
        call_ensures(combine_recaps, (prior, last), text),
    ensures
        holds_in_order(text@, prior.deep_view().push(last@)),
        prior@.len() == 0 ==> text@ == last@,
{
    let parts = prior.deep_view().push(last@);
    law_joined_parts_stand_in_order(parts, RECAP_SEPARATOR@);
    if prior@.len() == 0 {
        assert(parts =~= seq![last@]);
        reveal_with_fuel(join, 2);
        assert(text@ =~= last@);
    }
}

} // verus!
