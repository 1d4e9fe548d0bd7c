//! The external-process runner as an explicit value.
//!
//! The runner holds, per scaffolding tool, the outcome that spawning it
//! would produce, and a log of every spawn actually made. Running a
//! tool appends to the log and hands back the configured outcome, so
//! contracts can say both which tools were spawned and what each
//! spawn's result classification produced — independently of the other
//! tools' results.

use vstd::prelude::*;

use crate::pathname::copy_bytes;
use crate::report::has_tool_failed;
use crate::report::is_creation_report;
use crate::report::has_tool_not_found;
use crate::report::has_tool_succeeded;
use crate::report::Report;
use crate::report::RunOutcome;
use crate::report::Tool;

verus! {

/// One spawn that was made: which tool, in which working directory.
#[derive(Debug)]
pub struct SpawnRecord {
    pub tool: Tool,
    pub dir: Vec<u8>,
}

#[derive(Debug)]
pub struct Runner {
    pub git_outcome: RunOutcome,
    pub cargo_outcome: RunOutcome,
    pub npm_outcome: RunOutcome,
    pub go_outcome: RunOutcome,
    pub log: Vec<SpawnRecord>,
}

impl Runner {
    /// The outcome spawning `t` yields.
    pub open spec fn outcome_for(&self, t: Tool) -> RunOutcome {
        match t {
            Tool::Git => self.git_outcome,
            Tool::Cargo => self.cargo_outcome,
            Tool::Npm => self.npm_outcome,
            Tool::Go => self.go_outcome,
        }
    }

    /// The per-tool outcomes of `a` and `b` agree.
    pub open spec fn same_outcomes(a: &Runner, b: &Runner) -> bool {
        a.git_outcome == b.git_outcome && a.cargo_outcome == b.cargo_outcome && a.npm_outcome
            == b.npm_outcome && a.go_outcome == b.go_outcome
    }

    /// A runner with the given per-tool outcomes and an empty log.
    pub fn new(
        git_outcome: RunOutcome,
        cargo_outcome: RunOutcome,
        npm_outcome: RunOutcome,
        go_outcome: RunOutcome,
    ) -> (r: Runner)
        ensures
            r.git_outcome == git_outcome,
            r.cargo_outcome == cargo_outcome,
            r.npm_outcome == npm_outcome,
            r.go_outcome == go_outcome,
            r.log@ =~= Seq::<SpawnRecord>::empty(),
    {
        Runner { git_outcome, cargo_outcome, npm_outcome, go_outcome, log: Vec::new() }
    }

    /// A borrow of the outcome spawning `t` yields.
    fn outcome_ref(&self, t: Tool) -> (r: &RunOutcome)
        ensures
            *r == self.outcome_for(t),
    {
        match t {
            Tool::Git => &self.git_outcome,
            Tool::Cargo => &self.cargo_outcome,
            Tool::Npm => &self.npm_outcome,
            Tool::Go => &self.go_outcome,
        }
    }

    /// Records that `t` was spawned in `dir`.
    fn log_spawn(&mut self, t: Tool, dir: &[u8])
        ensures
            Runner::same_outcomes(final(self), old(self)),
            final(self).log@.len() == old(self).log@.len() + 1,
            forall|i: int|
                0 <= i < old(self).log@.len() ==> final(self).log@[i] == old(self).log@[i],
            final(self).log@.last().tool == t,
            final(self).log@.last().dir@ == dir@,
    {
        let owned = copy_bytes(dir);
        self.log.push(SpawnRecord { tool: t, dir: owned });
    }
}

/// The reports that classify one spawn's outcome, per the policy: a
/// zero exit is a success line, with the tool's non-empty output echoed
/// when verbose; a non-zero exit is a failure line with the captured
/// diagnostics; a missing tool is a not-found line, not a hard error; a
/// spawn-level error yields no line here — it propagates.
pub open spec fn outcome_reports(t: Tool, out: RunOutcome, verbose: bool, rs: Seq<Report>) -> bool {
    match out {
        RunOutcome::Success { stdout } => rs.len() >= 1 && (rs[0] matches Report::ToolSucceeded {
            tool,
        } && tool == t) && if verbose && stdout@.len() > 0 {
            rs.len() == 2 && (rs[1] matches Report::ToolOutput { tool, stdout: echoed } && tool == t
                && echoed@ == stdout@)
        } else {
            rs.len() == 1
        },
        RunOutcome::NonZeroExit { stderr } => rs.len() == 1 && (rs[0]
            matches Report::ToolFailed { tool, stderr: diag } && tool == t && diag@ == stderr@),
        RunOutcome::NotFound => rs.len() == 1 && (rs[0] matches Report::ToolNotFound { tool }
            && tool == t),
        RunOutcome::SpawnError { .. } => rs.len() == 0,
    }
}

/// The classification of an outcome never announces a creation event.
pub proof fn lemma_outcome_reports_not_creation(
    t: Tool,
    out: RunOutcome,
    verbose: bool,
    rs: Seq<Report>,
)
    requires
        outcome_reports(t, out, verbose, rs),
    ensures
        forall|i: int| 0 <= i < rs.len() ==> !is_creation_report(#[trigger] rs[i]),
{
    assert forall|i: int| 0 <= i < rs.len() implies !is_creation_report(rs[i]) by {
        match out {
            RunOutcome::Success { stdout } => {
                if i == 0 {
                    assert(rs[0] matches Report::ToolSucceeded { .. });
                } else {
                    assert(rs[1] matches Report::ToolOutput { .. });
                }
            },
            RunOutcome::NonZeroExit { .. } => {
                assert(rs[0] matches Report::ToolFailed { .. });
            },
            RunOutcome::NotFound => {
                assert(rs[0] matches Report::ToolNotFound { .. });
            },
            RunOutcome::SpawnError { .. } => {},
        }
    }
}

/// Classifies one outcome into its reports and, for a spawn-level
/// error, the message that propagates.
pub fn reports_for_outcome(t: Tool, out: &RunOutcome, verbose: bool) -> (r: (
    Vec<Report>,
    Option<String>,
))
    ensures
        outcome_reports(t, *out, verbose, r.0@),
        (r.1 is Some) <==> (*out matches RunOutcome::SpawnError { .. }),
        match (r.1, *out) {
            (Some(msg), RunOutcome::SpawnError { message }) => msg@ == message@,
            _ => true,
        },
{
    let mut rs: Vec<Report> = Vec::new();
    match out {
        RunOutcome::Success { stdout } => {
            rs.push(Report::ToolSucceeded { tool: t });
            if verbose && !stdout.as_str().is_empty() {
                rs.push(Report::ToolOutput { tool: t, stdout: stdout.clone() });
            }
            (rs, None)
        },
        RunOutcome::NonZeroExit { stderr } => {
            rs.push(Report::ToolFailed { tool: t, stderr: stderr.clone() });
            (rs, None)
        },
        RunOutcome::NotFound => {
            rs.push(Report::ToolNotFound { tool: t });
            (rs, None)
        },
        RunOutcome::SpawnError { message } => (rs, Some(message.clone())),
    }
}

/// Spawns tool `t` in `dir`: appends the spawn to the log and
/// classifies the configured outcome.
pub fn run_tool(runner: &mut Runner, t: Tool, dir: &[u8], verbose: bool) -> (r: (
    Vec<Report>,
    Option<String>,
))
    ensures
        Runner::same_outcomes(final(runner), old(runner)),
        final(runner).log@.len() == old(runner).log@.len() + 1,
        forall|i: int|
            0 <= i < old(runner).log@.len() ==> final(runner).log@[i] == old(runner).log@[i],
        final(runner).log@.last().tool == t,
        final(runner).log@.last().dir@ == dir@,
        outcome_reports(t, old(runner).outcome_for(t), verbose, r.0@),
        (r.1 is Some) <==> (old(runner).outcome_for(t) matches RunOutcome::SpawnError { .. }),
        match (r.1, old(runner).outcome_for(t)) {
            (Some(msg), RunOutcome::SpawnError { message }) => msg@ == message@,
            _ => true,
        },
        old(runner).outcome_for(t) matches RunOutcome::Success { .. } ==> has_tool_succeeded(
            r.0@,
            t,
        ),
        old(runner).outcome_for(t) matches RunOutcome::NonZeroExit { .. } ==> has_tool_failed(
            r.0@,
            t,
        ),
        old(runner).outcome_for(t) matches RunOutcome::NotFound ==> has_tool_not_found(r.0@, t),
{
    let classified = {
        let out = runner.outcome_ref(t);
        reports_for_outcome(t, out, verbose)
    };
    runner.log_spawn(t, dir);
    classified
}

} // verus!
