//! Project scaffolding in a freshly made directory.
//!
//! Zero or more external tools run in the directory, in a fixed order:
//! version control first, then each package-manager ecosystem. Each
//! enabled tool is spawned independently — one tool's failure or
//! absence never prevents the others from running — and each outcome is
//! classified and reported on its own. Asking for scaffolding against a
//! plain file is refused with exactly one error report and zero spawns.

use vstd::prelude::*;

use crate::fsmodel::EntryKind;
use crate::fsmodel::Fs;
use crate::pathname::copy_bytes;
use crate::report::has_init_refused;
use crate::report::is_creation_report;
use crate::report::has_tool_failed;
use crate::report::has_tool_not_found;
use crate::report::has_tool_succeeded;
use crate::report::Report;
use crate::report::RunOutcome;
use crate::report::Tool;
use crate::runner::run_tool;
use crate::runner::Runner;
use crate::settings::Settings;

verus! {

/// Tool `t` is enabled by the settings.
pub open spec fn enabled(s: &Settings, t: Tool) -> bool {
    match t {
        Tool::Git => s.git,
        Tool::Cargo => s.cargo,
        Tool::Npm => s.npm,
        Tool::Go => s.go,
    }
}

/// The enabled tools, in the fixed order they run: version control
/// first, then the package-manager ecosystems.
pub open spec fn enabled_tools(s: &Settings) -> Seq<Tool> {
    (if s.git {
        seq![Tool::Git]
    } else {
        Seq::empty()
    }) + (if s.cargo {
        seq![Tool::Cargo]
    } else {
        Seq::empty()
    }) + (if s.npm {
        seq![Tool::Npm]
    } else {
        Seq::empty()
    }) + (if s.go {
        seq![Tool::Go]
    } else {
        Seq::empty()
    })
}

/// The program name a tool spawns.
pub fn tool_program(t: Tool) -> (r: &'static str)
    ensures
        match t {
            Tool::Git => r@ == "git"@,
            Tool::Cargo => r@ == "cargo"@,
            Tool::Npm => r@ == "npm"@,
            Tool::Go => r@ == "go"@,
        },
{
    match t {
        Tool::Git => "git",
        Tool::Cargo => "cargo",
        Tool::Npm => "npm",
        Tool::Go => "go",
    }
}

/// The argument list a tool is spawned with; `base` is the directory's
/// base name, which only the language-module tool needs.
pub fn tool_args(t: Tool, base: &str) -> (r: Vec<String>)
    ensures
        match t {
            Tool::Git => r@.len() == 1 && r@[0]@ == "init"@,
            Tool::Cargo => r@.len() == 1 && r@[0]@ == "init"@,
            Tool::Npm => r@.len() == 2 && r@[0]@ == "init"@ && r@[1]@ == "-y"@,
            Tool::Go => r@.len() == 3 && r@[0]@ == "mod"@ && r@[1]@ == "init"@ && r@[2]@ == base@,
        },
{
    let mut r: Vec<String> = Vec::new();
    match t {
        Tool::Git => {
            r.push("init".to_owned());
        },
        Tool::Cargo => {
            r.push("init".to_owned());
        },
        Tool::Npm => {
            r.push("init".to_owned());
            r.push("-y".to_owned());
        },
        Tool::Go => {
            r.push("mod".to_owned());
            r.push("init".to_owned());
            r.push(base.to_owned());
        },
    }
    r
}

/// The reports for one tool hold the line its outcome calls for: a
/// success line after a zero exit, a failure line after a non-zero
/// exit, a not-found line for an absent tool; a spawn-level error has
/// no line — it propagates instead.
pub open spec fn tool_reported(t: Tool, out: RunOutcome, rs: Seq<Report>) -> bool {
    match out {
        RunOutcome::Success { .. } => has_tool_succeeded(rs, t),
        RunOutcome::NonZeroExit { .. } => has_tool_failed(rs, t),
        RunOutcome::NotFound => has_tool_not_found(rs, t),
        RunOutcome::SpawnError { .. } => true,
    }
}

/// Runs the version-control tool in `dir`.
pub fn run_git(runner: &mut Runner, dir: &[u8], verbose: bool) -> (r: (Vec<Report>, Option<String>))
    ensures
        Runner::same_outcomes(final(runner), old(runner)),
        final(runner).log@.len() == old(runner).log@.len() + 1,
        forall|i: int|
            0 <= i < old(runner).log@.len() ==> final(runner).log@[i] == old(runner).log@[i],
        final(runner).log@.last().tool == Tool::Git,
        final(runner).log@.last().dir@ == dir@,
        crate::runner::outcome_reports(
            Tool::Git,
            old(runner).outcome_for(Tool::Git),
            verbose,
            r.0@,
        ),
        tool_reported(Tool::Git, old(runner).outcome_for(Tool::Git), r.0@),
        (r.1 is Some) <==> (old(runner).outcome_for(Tool::Git) matches RunOutcome::SpawnError {
            ..
        }),
{
    run_tool(runner, Tool::Git, dir, verbose)
}

/// Runs the first package-manager tool in `dir`.
pub fn run_cargo(runner: &mut Runner, dir: &[u8], verbose: bool) -> (r: (
    Vec<Report>,
    Option<String>,
))
    ensures
        Runner::same_outcomes(final(runner), old(runner)),
        final(runner).log@.len() == old(runner).log@.len() + 1,
        forall|i: int|
            0 <= i < old(runner).log@.len() ==> final(runner).log@[i] == old(runner).log@[i],
        final(runner).log@.last().tool == Tool::Cargo,
        final(runner).log@.last().dir@ == dir@,
        crate::runner::outcome_reports(
            Tool::Cargo,
            old(runner).outcome_for(Tool::Cargo),
            verbose,
            r.0@,
        ),
        tool_reported(Tool::Cargo, old(runner).outcome_for(Tool::Cargo), r.0@),
        (r.1 is Some) <==> (old(runner).outcome_for(Tool::Cargo) matches RunOutcome::SpawnError {
            ..
        }),
{
    run_tool(runner, Tool::Cargo, dir, verbose)
}

/// Runs the second package-manager tool in `dir`.
pub fn run_npm(runner: &mut Runner, dir: &[u8], verbose: bool) -> (r: (Vec<Report>, Option<String>))
    ensures
        Runner::same_outcomes(final(runner), old(runner)),
        final(runner).log@.len() == old(runner).log@.len() + 1,
        forall|i: int|
            0 <= i < old(runner).log@.len() ==> final(runner).log@[i] == old(runner).log@[i],
        final(runner).log@.last().tool == Tool::Npm,
        final(runner).log@.last().dir@ == dir@,
        crate::runner::outcome_reports(
            Tool::Npm,
            old(runner).outcome_for(Tool::Npm),
            verbose,
            r.0@,
        ),
        tool_reported(Tool::Npm, old(runner).outcome_for(Tool::Npm), r.0@),
        (r.1 is Some) <==> (old(runner).outcome_for(Tool::Npm) matches RunOutcome::SpawnError {
            ..
        }),
{
    run_tool(runner, Tool::Npm, dir, verbose)
}

/// What the initializer is to do with a target.
#[derive(Clone, Copy, PartialEq, Eq, Structural, Debug)]
pub enum InitDecision {
    /// The target is no directory and a tool is enabled: a user error,
    /// reported once, with nothing spawned.
    RefuseFile,
    /// Nothing is enabled, or nothing is asked of a non-directory.
    Silent,
    /// The target is a directory: run the enabled tools.
    Run,
}

/// The misuse guard: scaffolding runs only in a directory, and asking
/// it of anything else is an error exactly when some tool is enabled.
pub fn init_guard(is_dir: bool, settings: &Settings) -> (r: InitDecision)
    ensures
        r == if is_dir {
            InitDecision::Run
        } else if settings.any_tool() {
            InitDecision::RefuseFile
        } else {
            InitDecision::Silent
        },
{
    if is_dir {
        InitDecision::Run
    } else if settings.git || settings.npm || settings.cargo || settings.go {
        InitDecision::RefuseFile
    } else {
        InitDecision::Silent
    }
}

/// The enabled tools as a list, in their fixed run order.
pub fn tool_list(s: &Settings) -> (r: Vec<Tool>)
    ensures
        r@ == enabled_tools(s),
{
    let mut r: Vec<Tool> = Vec::new();
    if s.git {
        r.push(Tool::Git);
    }
    if s.cargo {
        r.push(Tool::Cargo);
    }
    if s.npm {
        r.push(Tool::Npm);
    }
    if s.go {
        r.push(Tool::Go);
    }
    proof {
        assert(r@ =~= enabled_tools(s));
    }
    r
}

/// Every listed tool is an enabled one, and each enabled tool stands at
/// its fixed position in the list.
proof fn lemma_enabled_tools(s: &Settings)
    ensures
        forall|j: int|
            0 <= j < enabled_tools(s).len() ==> enabled(s, #[trigger] enabled_tools(s)[j]),
        s.git ==> enabled_tools(s)[0] == Tool::Git,
        s.cargo ==> enabled_tools(s)[if s.git {
            1int
        } else {
            0int
        }] == Tool::Cargo,
        s.npm ==> enabled_tools(s)[(if s.git {
            1int
        } else {
            0int
        }) + (if s.cargo {
            1int
        } else {
            0int
        })] == Tool::Npm,
        s.go ==> enabled_tools(s)[(if s.git {
            1int
        } else {
            0int
        }) + (if s.cargo {
            1int
        } else {
            0int
        }) + (if s.npm {
            1int
        } else {
            0int
        })] == Tool::Go,
{
}

/// A valid concatenation for one runner is one for any runner with the
/// same per-tool outcomes: the log plays no part in it.
pub proof fn lemma_reports_for_tools_same_outcomes(
    r1: Runner,
    r2: Runner,
    tools: Seq<Tool>,
    verbose: bool,
    rs: Seq<Report>,
)
    requires
        Runner::same_outcomes(&r1, &r2),
        reports_for_tools(r1, tools, verbose, rs),
    ensures
        reports_for_tools(r2, tools, verbose, rs),
    decreases tools.len(),
{
    if tools.len() > 0 {
        let k = choose|k: int|
            0 <= k <= rs.len() && #[trigger] crate::runner::outcome_reports(
                tools[0],
                r1.outcome_for(tools[0]),
                verbose,
                rs.take(k),
            ) && reports_for_tools(r1, tools.drop_first(), verbose, rs.skip(k));
        assert(r2.outcome_for(tools[0]) == r1.outcome_for(tools[0]));
        lemma_reports_for_tools_same_outcomes(r1, r2, tools.drop_first(), verbose, rs.skip(k));
        assert(crate::runner::outcome_reports(
            tools[0],
            r2.outcome_for(tools[0]),
            verbose,
            rs.take(k),
        ));
    }
}

/// Some enabled tool's spawn produces a spawn-level error — the one
/// condition the initializer hands up as a hard error.
pub open spec fn spawn_trouble(r: &Runner, s: &Settings) -> bool {
    ||| (s.git && r.git_outcome matches RunOutcome::SpawnError { .. })
    ||| (s.cargo && r.cargo_outcome matches RunOutcome::SpawnError { .. })
    ||| (s.npm && r.npm_outcome matches RunOutcome::SpawnError { .. })
    ||| (s.go && r.go_outcome matches RunOutcome::SpawnError { .. })
}

/// Lines already reported stay reported when the report list grows.
proof fn lemma_reports_extend(rs1: Seq<Report>, rs2: Seq<Report>, t: Tool)
    requires
        rs1.len() <= rs2.len(),
        forall|i: int| 0 <= i < rs1.len() ==> rs2[i] == rs1[i],
    ensures
        has_tool_succeeded(rs1, t) ==> has_tool_succeeded(rs2, t),
        has_tool_failed(rs1, t) ==> has_tool_failed(rs2, t),
        has_tool_not_found(rs1, t) ==> has_tool_not_found(rs2, t),
        forall|out: RunOutcome| #![trigger tool_reported(t, out, rs1)]
            tool_reported(t, out, rs1) ==> tool_reported(t, out, rs2),
{
    if has_tool_succeeded(rs1, t) {
        let i = choose|i: int|
            0 <= i < rs1.len() && (#[trigger] rs1[i] matches Report::ToolSucceeded { tool } && tool
                == t);
        assert(rs2[i] matches Report::ToolSucceeded { tool } && tool == t);
    }
    if has_tool_failed(rs1, t) {
        let i = choose|i: int|
            0 <= i < rs1.len() && (#[trigger] rs1[i] matches Report::ToolFailed { tool, .. }
                && tool == t);
        assert(rs2[i] matches Report::ToolFailed { tool, .. } && tool == t);
    }
    if has_tool_not_found(rs1, t) {
        let i = choose|i: int|
            0 <= i < rs1.len() && (#[trigger] rs1[i] matches Report::ToolNotFound { tool } && tool
                == t);
        assert(rs2[i] matches Report::ToolNotFound { tool } && tool == t);
    }
}

/// The report list is exactly the concatenation of each listed tool's
/// outcome classification, in list order: no line is missing and none
/// is spurious; an empty tool list reports nothing.
pub open spec fn reports_for_tools(
    runner: Runner,
    tools: Seq<Tool>,
    verbose: bool,
    rs: Seq<Report>,
) -> bool
    decreases tools.len(),
{
    if tools.len() == 0 {
        rs.len() == 0
    } else {
        exists|k: int|
            0 <= k <= rs.len() && #[trigger] crate::runner::outcome_reports(
                tools[0],
                runner.outcome_for(tools[0]),
                verbose,
                rs.take(k),
            ) && reports_for_tools(runner, tools.drop_first(), verbose, rs.skip(k))
    }
}

/// A valid concatenation stays one when a further tool's classification
/// is appended.
proof fn lemma_reports_for_tools_append(
    runner: Runner,
    tools: Seq<Tool>,
    verbose: bool,
    rs: Seq<Report>,
    t: Tool,
    rs2: Seq<Report>,
)
    requires
        reports_for_tools(runner, tools, verbose, rs),
        crate::runner::outcome_reports(t, runner.outcome_for(t), verbose, rs2),
    ensures
        reports_for_tools(runner, tools.push(t), verbose, rs + rs2),
    decreases tools.len(),
{
    let all = rs + rs2;
    if tools.len() == 0 {
        assert(rs.len() == 0);
        assert(all.take(rs2.len() as int) =~= rs2);
        assert(all.skip(rs2.len() as int) =~= Seq::<Report>::empty());
        assert(tools.push(t).drop_first() =~= Seq::<Tool>::empty());
        assert(crate::runner::outcome_reports(
            tools.push(t)[0],
            runner.outcome_for(tools.push(t)[0]),
            verbose,
            all.take(rs2.len() as int),
        ));
        assert(reports_for_tools(
            runner,
            tools.push(t).drop_first(),
            verbose,
            all.skip(rs2.len() as int),
        ));
        assert(0 <= rs2.len() as int <= all.len());
    } else {
        let k = choose|k: int|
            0 <= k <= rs.len() && #[trigger] crate::runner::outcome_reports(
                tools[0],
                runner.outcome_for(tools[0]),
                verbose,
                rs.take(k),
            ) && reports_for_tools(runner, tools.drop_first(), verbose, rs.skip(k));
        assert(all.take(k) =~= rs.take(k));
        assert(all.skip(k) =~= rs.skip(k) + rs2);
        lemma_reports_for_tools_append(runner, tools.drop_first(), verbose, rs.skip(k), t, rs2);
        assert(tools.push(t).drop_first() =~= tools.drop_first().push(t));
        assert(tools.push(t)[0] == tools[0]);
        assert(crate::runner::outcome_reports(
            tools.push(t)[0],
            runner.outcome_for(tools.push(t)[0]),
            verbose,
            all.take(k),
        ));
        assert(reports_for_tools(runner, tools.push(t).drop_first(), verbose, all.skip(k)));
        assert(0 <= k <= all.len());
    }
}

/// Lines reported for one tool stay reported once earlier lines are
/// put in front of them.
pub(crate) proof fn lemma_reports_prepend(pre: Seq<Report>, rs: Seq<Report>, t: Tool)
    ensures
        has_tool_succeeded(rs, t) ==> has_tool_succeeded(pre + rs, t),
        has_tool_failed(rs, t) ==> has_tool_failed(pre + rs, t),
        has_tool_not_found(rs, t) ==> has_tool_not_found(pre + rs, t),
        forall|out: RunOutcome| #![trigger tool_reported(t, out, rs)]
            tool_reported(t, out, rs) ==> tool_reported(t, out, pre + rs),
{
    if has_tool_succeeded(rs, t) {
        let i = choose|i: int|
            0 <= i < rs.len() && (#[trigger] rs[i] matches Report::ToolSucceeded { tool } && tool
                == t);
        assert((pre + rs)[pre.len() + i] matches Report::ToolSucceeded { tool } && tool == t);
    }
    if has_tool_failed(rs, t) {
        let i = choose|i: int|
            0 <= i < rs.len() && (#[trigger] rs[i] matches Report::ToolFailed { tool, .. } && tool
                == t);
        assert((pre + rs)[pre.len() + i] matches Report::ToolFailed { tool, .. } && tool == t);
    }
    if has_tool_not_found(rs, t) {
        let i = choose|i: int|
            0 <= i < rs.len() && (#[trigger] rs[i] matches Report::ToolNotFound { tool } && tool
                == t);
        assert((pre + rs)[pre.len() + i] matches Report::ToolNotFound { tool } && tool == t);
    }
}

/// Runs the language-module tool in `dir`.
pub fn run_go(runner: &mut Runner, dir: &[u8], verbose: bool) -> (r: (Vec<Report>, Option<String>))
    ensures
        Runner::same_outcomes(final(runner), old(runner)),
        final(runner).log@.len() == old(runner).log@.len() + 1,
        forall|i: int|
            0 <= i < old(runner).log@.len() ==> final(runner).log@[i] == old(runner).log@[i],
        final(runner).log@.last().tool == Tool::Go,
        final(runner).log@.last().dir@ == dir@,
        crate::runner::outcome_reports(
            Tool::Go,
            old(runner).outcome_for(Tool::Go),
            verbose,
            r.0@,
        ),
        tool_reported(Tool::Go, old(runner).outcome_for(Tool::Go), r.0@),
        (r.1 is Some) <==> (old(runner).outcome_for(Tool::Go) matches RunOutcome::SpawnError {
            ..
        }),
{
    run_tool(runner, Tool::Go, dir, verbose)
}

/// Runs each enabled scaffolding tool in `path`, independently and in
/// the fixed order. Against anything but a directory nothing is ever
/// spawned: with some tool enabled that is a user error, reported
/// exactly once (with a verbose companion note); with none enabled it
/// is silence. In a directory every enabled tool runs whatever became
/// of the tools before it; a spawn-level error is handed back only
/// after all of them ran.
#[verifier::rlimit(60)]
pub fn run_initializers(fs: &Fs, runner: &mut Runner, path: &[u8], settings: &Settings) -> (r: (
    Vec<Report>,
    Option<String>,
))
    ensures
        fs.kind_at(path@) != Some(EntryKind::Dir) ==> *final(runner) == *old(runner) && r.1
            is None,
        fs.kind_at(path@) != Some(EntryKind::Dir) && settings.any_tool() && settings.verbose
            ==> r.0@.len() == 2 && (r.0@[0] matches Report::InitSkippedFile { path: noted }
            && noted@ == path@) && (r.0@[1] matches Report::InitRefusedFile { path: refused }
            && refused@ == path@),
        fs.kind_at(path@) != Some(EntryKind::Dir) && settings.any_tool() && !settings.verbose
            ==> r.0@.len() == 1 && (r.0@[0] matches Report::InitRefusedFile { path: refused }
            && refused@ == path@),
        fs.kind_at(path@) != Some(EntryKind::Dir) && settings.any_tool() ==> has_init_refused(
            r.0@,
            path@,
        ),
        fs.kind_at(path@) != Some(EntryKind::Dir) && !settings.any_tool() ==> r.0@.len() == 0,
        forall|i: int| 0 <= i < r.0@.len() ==> !is_creation_report(#[trigger] r.0@[i]),
        fs.kind_at(path@) == Some(EntryKind::Dir) ==> {
            &&& Runner::same_outcomes(final(runner), old(runner))
            &&& final(runner).log@.len() == old(runner).log@.len() + enabled_tools(settings).len()
            &&& forall|i: int|
                0 <= i < old(runner).log@.len() ==> final(runner).log@[i] == old(runner).log@[i]
            &&& forall|k: int|
                0 <= k < enabled_tools(settings).len()
                    ==> final(runner).log@[old(runner).log@.len() + k].tool == #[trigger] enabled_tools(settings)[k]
                    && final(runner).log@[old(runner).log@.len() + k].dir@ == path@
            &&& reports_for_tools(*old(runner), enabled_tools(settings), settings.verbose, r.0@)
            &&& (settings.git ==> tool_reported(Tool::Git, old(runner).git_outcome, r.0@))
            &&& (settings.cargo ==> tool_reported(Tool::Cargo, old(runner).cargo_outcome, r.0@))
            &&& (settings.npm ==> tool_reported(Tool::Npm, old(runner).npm_outcome, r.0@))
            &&& (settings.go ==> tool_reported(Tool::Go, old(runner).go_outcome, r.0@))
            &&& ((r.1 is Some) <==> spawn_trouble(old(runner), settings))
        },
{
    if !fs.is_dir(path) {
        let mut reports: Vec<Report> = Vec::new();
        if settings.git || settings.npm || settings.cargo || settings.go {
            if settings.verbose {
                reports.push(Report::InitSkippedFile { path: copy_bytes(path) });
            }
            reports.push(Report::InitRefusedFile { path: copy_bytes(path) });
            proof {
                assert(reports@[reports@.len() - 1] matches Report::InitRefusedFile {
                    path: refused,
                } && refused@ == path@);
            }
        }
        return (reports, None);
    }
    let tools = tool_list(settings);
    proof {
        lemma_enabled_tools(settings);
    }
    let ghost base = old(runner).log@.len();
    let mut reports: Vec<Report> = Vec::new();
    let mut spawn_err: Option<String> = None;
    let mut k: usize = 0;
    while k < tools.len()
        invariant
            tools@ == enabled_tools(settings),
            k <= tools@.len(),
            base == old(runner).log@.len(),
            Runner::same_outcomes(runner, old(runner)),
            runner.log@.len() == base + k,
            forall|i: int| 0 <= i < base ==> runner.log@[i] == old(runner).log@[i],
            forall|j: int|
                0 <= j < k ==> runner.log@[base + j].tool == #[trigger] tools@[j]
                    && runner.log@[base + j].dir@ == path@,
            forall|j: int|
                0 <= j < k ==> tool_reported(
                    #[trigger] tools@[j],
                    old(runner).outcome_for(tools@[j]),
                    reports@,
                ),
            forall|i: int| 0 <= i < reports@.len() ==> !is_creation_report(#[trigger] reports@[i]),
            reports_for_tools(*old(runner), tools@.take(k as int), settings.verbose, reports@),
            (spawn_err is Some) <==> (exists|j: int|
                0 <= j < k && old(runner).outcome_for(#[trigger] tools@[j])
                    matches RunOutcome::SpawnError { .. }),
        decreases tools@.len() - k,
    {
        let t = tools[k];
        let ghost pre_reports = reports@;
        let (mut rs, e) = run_tool(runner, t, path, settings.verbose);
        let ghost rs_snap = rs@;
        reports.append(&mut rs);
        proof {
            assert forall|j: int| 0 <= j < k implies tool_reported(
                #[trigger] tools@[j],
                old(runner).outcome_for(tools@[j]),
                reports@,
            ) by {
                lemma_reports_extend(pre_reports, reports@, tools@[j]);
            }
            lemma_reports_prepend(pre_reports, rs_snap, t);
            assert(tool_reported(t, old(runner).outcome_for(t), reports@));
            crate::runner::lemma_outcome_reports_not_creation(
                t,
                old(runner).outcome_for(t),
                settings.verbose,
                rs_snap,
            );
            lemma_reports_for_tools_append(
                *old(runner),
                tools@.take(k as int),
                settings.verbose,
                pre_reports,
                t,
                rs_snap,
            );
            assert(tools@.take(k as int).push(t) =~= tools@.take(k + 1 as int));
            assert(reports@ == pre_reports + rs_snap);
            assert forall|i: int| 0 <= i < reports@.len() implies !is_creation_report(
                #[trigger] reports@[i],
            ) by {
                if i >= pre_reports.len() {
                    assert(reports@[i] == rs_snap[i - pre_reports.len()]);
                }
            }
        }
        if spawn_err.is_none() {
            spawn_err = e;
        }
        k = k + 1;
    }
    proof {
        assert(tools@.take(tools@.len() as int) =~= tools@);
        if settings.git {
            assert(tool_reported(
                Tool::Git,
                old(runner).outcome_for(Tool::Git),
                reports@,
            )) by {
                assert(tools@[0] == Tool::Git);
            }
        }
        if settings.cargo {
            assert(tool_reported(
                Tool::Cargo,
                old(runner).outcome_for(Tool::Cargo),
                reports@,
            )) by {
                assert(tools@[if settings.git {
                    1int
                } else {
                    0int
                }] == Tool::Cargo);
            }
        }
        if settings.npm {
            assert(tool_reported(
                Tool::Npm,
                old(runner).outcome_for(Tool::Npm),
                reports@,
            )) by {
                assert(tools@[(if settings.git {
                    1int
                } else {
                    0int
                }) + (if settings.cargo {
                    1int
                } else {
                    0int
                })] == Tool::Npm);
            }
        }
        if settings.go {
            assert(tool_reported(Tool::Go, old(runner).outcome_for(Tool::Go), reports@)) by {
                assert(tools@[(if settings.git {
                    1int
                } else {
                    0int
                }) + (if settings.cargo {
                    1int
                } else {
                    0int
                }) + (if settings.npm {
                    1int
                } else {
                    0int
                })] == Tool::Go);
            }
        }
        if spawn_trouble(old(runner), settings) {
            assert(spawn_err is Some) by {
                if settings.git && old(runner).git_outcome matches RunOutcome::SpawnError { .. } {
                    assert(tools@[0] == Tool::Git);
                } else if settings.cargo && old(runner).cargo_outcome
                    matches RunOutcome::SpawnError { .. } {
                    assert(tools@[if settings.git {
                        1int
                    } else {
                        0int
                    }] == Tool::Cargo);
                } else if settings.npm && old(runner).npm_outcome matches RunOutcome::SpawnError {
                    ..
                } {
                    assert(tools@[(if settings.git {
                        1int
                    } else {
                        0int
                    }) + (if settings.cargo {
                        1int
                    } else {
                        0int
                    })] == Tool::Npm);
                } else {
                    assert(tools@[(if settings.git {
                        1int
                    } else {
                        0int
                    }) + (if settings.cargo {
                        1int
                    } else {
                        0int
                    }) + (if settings.npm {
                        1int
                    } else {
                        0int
                    })] == Tool::Go);
                }
            }
        }
        if spawn_err is Some {
            let j = choose|j: int|
                0 <= j < tools@.len() && old(runner).outcome_for(#[trigger] tools@[j])
                    matches RunOutcome::SpawnError { .. };
            assert(enabled(settings, tools@[j]));
            assert(spawn_trouble(old(runner), settings));
        }
    }
    (reports, spawn_err)
}

} // verus!
