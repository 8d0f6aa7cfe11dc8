//! What the memory gate decides.

use vstd::prelude::*;
use vstd::string::*;

use crate::checks::shown;
use crate::load::readiness::{unready, ReadyProbe, ReadyStep, ReadyStepView, Readiness};
use crate::text::{decimal, push_decimal, same_text};

verus! {

pub const EXIT_UNDER_BUDGET: i32 = 0;

pub const EXIT_OVER_BUDGET: i32 = 2;

pub const EXIT_OOM_KILLED: i32 = 3;

pub const EXIT_NOT_MEASURED: i32 = 4;

#[derive(Clone, Copy, Debug, PartialEq, Eq, Structural)]
pub enum Outcome {
    UnderBudget,
    OverBudget,
    OomKilled,
    NotMeasured,
}

impl Outcome {
    pub fn verdict(self) -> (verdict: &'static str)
        ensures
            verdict@ == match self {
                Outcome::UnderBudget => "UNDER_BUDGET"@,
                Outcome::OverBudget => "OVER_BUDGET"@,
                Outcome::OomKilled => "OOM_KILLED"@,
                Outcome::NotMeasured => "NOT_MEASURED"@,
            },
    {
        match self {
            Outcome::UnderBudget => "UNDER_BUDGET",
            Outcome::OverBudget => "OVER_BUDGET",
            Outcome::OomKilled => "OOM_KILLED",
            Outcome::NotMeasured => "NOT_MEASURED",
        }
    }

    pub open spec fn code(self) -> i32 {
        match self {
            Outcome::UnderBudget => EXIT_UNDER_BUDGET,
            Outcome::OverBudget => EXIT_OVER_BUDGET,
            Outcome::OomKilled => EXIT_OOM_KILLED,
            Outcome::NotMeasured => EXIT_NOT_MEASURED,
        }
    }

    pub fn exit_code(self) -> (code: i32)
        ensures
            code == self.code(),
    {
        match self {
            Outcome::UnderBudget => EXIT_UNDER_BUDGET,
            Outcome::OverBudget => EXIT_OVER_BUDGET,
            Outcome::OomKilled => EXIT_OOM_KILLED,
            Outcome::NotMeasured => EXIT_NOT_MEASURED,
        }
    }
}

// ------------------------------------------------------------------ the watch
/// How long the load run may go on once the server is gone, in milliseconds.
pub const HARNESS_GRACE_MS: u64 = 3000;

/// How long a run may take beyond its own duration, in seconds.
pub const DEADLINE_SLACK_SECONDS: u64 = 180;

/// What to do at a look at the load run and the server.
#[derive(Clone, Copy, Debug, PartialEq, Eq, Structural)]
pub enum WatchStep {
    /// The load run is over.
    Finish,
    /// The server is gone: stop the load run and go on to the decision.
    StopLoad,
    /// The run takes too long: stop the load run, and nothing was measured.
    GiveUp,
    Wait,
}

pub open spec fn watch_step_of(
    load_over: bool,
    since_death_ms: Option<u64>,
    past_deadline: bool,
) -> WatchStep {
    if load_over {
        WatchStep::Finish
    } else if since_death_ms matches Some(ms) && ms > HARNESS_GRACE_MS {
        WatchStep::StopLoad
    } else if past_deadline {
        WatchStep::GiveUp
    } else {
        WatchStep::Wait
    }
}

/// What to do while the load run goes on: whether it is over, how long the server
/// has been gone, if it is, and whether the run has passed its deadline.
pub fn watch_step(load_over: bool, since_death_ms: Option<u64>, past_deadline: bool) -> (step:
    WatchStep)
    ensures
        step == watch_step_of(load_over, since_death_ms, past_deadline),
{
    if load_over {
        return WatchStep::Finish;
    }
    if let Some(ms) = since_death_ms {
        if ms > HARNESS_GRACE_MS {
            return WatchStep::StopLoad;
        }
    }
    if past_deadline {
        WatchStep::GiveUp
    } else {
        WatchStep::Wait
    }
}

/// The most seconds that a run may take.
pub fn deadline_seconds(seconds: u64) -> (deadline: u64)
    requires
        seconds + DEADLINE_SLACK_SECONDS <= u64::MAX,
    ensures
        deadline == seconds + DEADLINE_SLACK_SECONDS,
        deadline == seconds + 180,
{
    seconds + DEADLINE_SLACK_SECONDS
}

/// Why a run that passed its deadline measured nothing.
pub fn deadline_passed(seconds: u64) -> (message: String)
    requires
        seconds + DEADLINE_SLACK_SECONDS <= u64::MAX,
    ensures
        message@ == "the run passed its "@ + decimal((seconds + DEADLINE_SLACK_SECONDS) as nat)
            + " s deadline without finishing"@,
{
    let mut message = "the run passed its ".to_owned();
    push_decimal(&mut message, deadline_seconds(seconds));
    message.append(" s deadline without finishing");
    message
}

/// How often a measured server is asked whether it is ready.
pub const GATE_READY_ATTEMPTS: usize = 180;

/// Takes an answer of the server in, and how it exited if it did. A server that
/// exited is not asked again, unless it was ready.
pub fn gate_ready_step(
    readiness: &mut Readiness,
    probe: ReadyProbe,
    exited: Option<&str>,
) -> (step: ReadyStep)
    requires
        old(readiness).left > 0,
    ensures
        final(readiness).left == old(readiness).left - 1,
        step@ == match unready(probe) {
            None => ReadyStepView::Ready,
            Some(reason) => match exited {
                Some(status) => ReadyStepView::GiveUp(
                    "the server exited ("@ + status@ + ") before it was ready"@,
                ),
                None => if old(readiness).left == 1 {
                    ReadyStepView::GiveUp("the server never became ready: "@ + reason)
                } else {
                    ReadyStepView::TryAgain
                },
            },
        },
{
    match (readiness.answered(probe), exited) {
        (ReadyStep::Ready, _) => ReadyStep::Ready,
        (_, Some(status)) => {
            let mut message = "the server exited (".to_owned();
            message.append(status);
            message.append(") before it was ready");
            ReadyStep::GiveUp(message)
        },
        (ReadyStep::GiveUp(reason), None) => {
            let mut message = "the server never became ready: ".to_owned();
            message.append(reason.as_str());
            ReadyStep::GiveUp(message)
        },
        (ReadyStep::TryAgain, None) => ReadyStep::TryAgain,
    }
}

// --------------------------------------------------------------- the decision
/// How much of the workload was delivered.
#[derive(Clone, Copy, Debug, PartialEq, Eq, Structural)]
pub enum Delivery {
    /// So many events were accepted. Nine of ten offered ones have to be.
    Events(u64),
    /// The steady phase says itself whether enough of it was accepted.
    Steady(bool),
}

/// What a run showed.
pub struct Findings {
    /// How often the kernel killed something in the cgroup.
    pub oom_kills: u64,
    /// What the service manager says of the scope.
    pub scope_result: Option<String>,
    pub alive: bool,
    /// The code and the text of the status that the server exited with.
    pub exit_code: Option<i32>,
    pub exit_shown: Option<String>,
    /// Whether the load run left a report.
    pub reported: bool,
    /// Where the report was looked for, and what the load run exited with.
    pub report_path: String,
    pub harness_exit_shown: String,
    pub delivery: Delivery,
    /// What was delivered, as a number and in percent.
    pub delivered_shown: String,
    pub percent_shown: String,
    pub events: u64,
    pub anon_peak: u64,
    pub budget_bytes: u64,
}

/// Whether the server was killed for want of memory. The kernel's count is the
/// first evidence, the service manager's word and the exit code are two more.
pub open spec fn was_killed(findings: Findings) -> bool {
    ||| findings.oom_kills > 0
    ||| shown(findings.scope_result) == Some("oom-kill"@)
    ||| !findings.alive && findings.exit_code == Some(137i32)
}

/// Whether enough of the workload was delivered for the budget to have been tried.
pub open spec fn delivered(delivery: Delivery, events: u64) -> bool {
    match delivery {
        Delivery::Events(accepted) => {
            let offered = if events == 0 {
                1int
            } else {
                events as int
            };
            accepted * 10 >= offered * 9
        },
        Delivery::Steady(enough) => enough,
    }
}

/// What a run comes to: an outcome, or why nothing was measured. A kill comes
/// first, since everything else follows from it.
pub open spec fn decision_of(findings: Findings) -> Result<Outcome, Seq<char>> {
    if was_killed(findings) {
        Ok(Outcome::OomKilled)
    } else if !findings.alive {
        Err(
            "the server exited ("@ + match shown(findings.exit_shown) {
                Some(status) => status,
                None => "unknown"@,
            }
                + ") with no cgroup OOM event, so this run measured a crash rather than a budget; server.log says why"@,
        )
    } else if !findings.reported {
        Err(
            "the harness produced no result at "@ + findings.report_path@ + " (exit "@
                + findings.harness_exit_shown@ + "), so the offered workload is unknown"@,
        )
    } else if !delivered(findings.delivery, findings.events) {
        Err(
            "the engine accepted "@ + findings.delivered_shown@ + " of "@ + decimal(
                findings.events as nat,
            ) + " offered events ("@ + findings.percent_shown@
                + " %), so the budget was never exercised at the offered rate"@,
        )
    } else if findings.anon_peak > findings.budget_bytes {
        Ok(Outcome::OverBudget)
    } else {
        Ok(Outcome::UnderBudget)
    }
}

fn delivered_enough(delivery: Delivery, events: u64) -> (enough: bool)
    ensures
        enough == delivered(delivery, events),
{
    match delivery {
        Delivery::Events(accepted) => {
            let offered: u64 = if events == 0 {
                1
            } else {
                events
            };
            accepted as u128 * 10 >= offered as u128 * 9
        },
        Delivery::Steady(enough) => enough,
    }
}

fn crash_message(findings: &Findings) -> (message: String)
    ensures
        message@ == "the server exited ("@ + match shown(findings.exit_shown) {
            Some(status) => status,
            None => "unknown"@,
        }
            + ") with no cgroup OOM event, so this run measured a crash rather than a budget; server.log says why"@,
{
    let mut message = "the server exited (".to_owned();
    match &findings.exit_shown {
        Some(status) => {
            message.append(status.as_str());
        },
        None => {
            message.append("unknown");
        },
    }
    message.append(
        ") with no cgroup OOM event, so this run measured a crash rather than a budget; server.log says why",
    );
    message
}

/// Decides a run.
pub fn decide(findings: &Findings) -> (out: Result<Outcome, String>)
    ensures
        match out {
            Ok(outcome) => decision_of(*findings) == Ok::<Outcome, Seq<char>>(outcome),
            Err(message) => decision_of(*findings) == Err::<Outcome, Seq<char>>(message@),
        },
{
    let by_manager = match &findings.scope_result {
        Some(result) => same_text(result.as_str(), "oom-kill"),
        None => false,
    };
    let by_code = match findings.exit_code {
        Some(code) => !findings.alive && code == 137,
        None => false,
    };
    if findings.oom_kills > 0 || by_manager || by_code {
        return Ok(Outcome::OomKilled);
    }
    if !findings.alive {
        return Err(crash_message(findings));
    }
    if !findings.reported {
        let mut message = "the harness produced no result at ".to_owned();
        message.append(findings.report_path.as_str());
        message.append(" (exit ");
        message.append(findings.harness_exit_shown.as_str());
        message.append("), so the offered workload is unknown");
        return Err(message);
    }
    if !delivered_enough(findings.delivery, findings.events) {
        let mut message = "the engine accepted ".to_owned();
        message.append(findings.delivered_shown.as_str());
        message.append(" of ");
        push_decimal(&mut message, findings.events);
        message.append(" offered events (");
        message.append(findings.percent_shown.as_str());
        message.append(" %), so the budget was never exercised at the offered rate");
        return Err(message);
    }
    if findings.anon_peak > findings.budget_bytes {
        Ok(Outcome::OverBudget)
    } else {
        Ok(Outcome::UnderBudget)
    }
}

/// The code that a run exits with: that of its outcome, or that nothing was
/// measured.
pub open spec fn exit_of(decision: Result<Outcome, Seq<char>>) -> i32 {
    match decision {
        Ok(outcome) => outcome.code(),
        Err(_) => Outcome::NotMeasured.code(),
    }
}

/// A gate that cannot measure does not pass: success is for a server that lived,
/// was not killed, reported, was given its workload, and stayed within the budget,
/// and for no other.
pub proof fn only_a_measured_run_within_budget_passes(findings: Findings)
    ensures
        exit_of(decision_of(findings)) == 0 <==> {
            &&& !was_killed(findings)
            &&& findings.alive
            &&& findings.reported
            &&& delivered(findings.delivery, findings.events)
            &&& findings.anon_peak <= findings.budget_bytes
        },
{
}

/// Where the kernel enforces the budget, being over it is out of reach: a run whose
/// peak stays under the limit that it ran with, and whose limit is the budget, is
/// never over it.
pub proof fn at_the_limit_a_run_is_never_over_budget(findings: Findings, limit_bytes: u64)
    requires
        limit_bytes == findings.budget_bytes,
        findings.anon_peak <= limit_bytes,
    ensures
        decision_of(findings) != Ok::<Outcome, Seq<char>>(Outcome::OverBudget),
{
}

} // verus!
