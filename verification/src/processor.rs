//! The path-dispatch and entry-creation engine.
//!
//! For each path of the batch, in order: classify intent by the
//! trailing separator; create the directory (with ancestors) or the
//! file (with its parent chain) idempotently; apply the permission mode
//! when one is configured; and, for a directory, hand over to the
//! initializer. Every failure is caught at the path that caused it: a
//! refusal leaves the filesystem exactly as it was, and the rest of the
//! batch is processed against that same state. [`entry_step`] is the
//! whole per-path contract, and [`process_paths`] chains it along the
//! batch's intermediate states, so the outcome of every slot is owed,
//! not merely possible.

use vstd::prelude::*;

use crate::fsmodel::ensure_file_err;
use crate::fsmodel::EntryKind;
use crate::fsmodel::Fs;
use crate::init::enabled_tools;
use crate::init::run_initializers;
use crate::init::spawn_trouble;
use crate::init::tool_reported;
use crate::pathname::canon;
use crate::pathname::copy_bytes;
use crate::pathname::dir_intent;
use crate::pathname::in_chain;
use crate::pathname::is_boundary;
use crate::pathname::is_dir_intent;
use crate::pathname::parent;
use crate::pathname::parent_of;
use crate::report::has_dir_created;
use crate::report::has_file_created;
use crate::report::has_file_touched;
use crate::report::has_mode_unsupported;
use crate::report::is_creation_report;
use crate::report::CreateError;
use crate::report::FsError;
use crate::report::Report;
use crate::report::Tool;
use crate::runner::Runner;
use crate::settings::Settings;

verus! {

/// The byte string a path argument denotes.
pub open spec fn path_bytes(s: String) -> Seq<u8> {
    vstd::utf8::encode_utf8(s@)
}

/// Creating the directory at `p` (with its ancestors) succeeds on `fs`:
/// a directory already stands there, or no component of the path — the
/// target included — is a plain file.
pub open spec fn dir_create_ok(fs: Fs, p: Seq<u8>) -> bool {
    fs.kind_at(p) == Some(EntryKind::Dir) || (forall|i: int|
        is_boundary(canon(p), i) ==> fs.kind_at(canon(p).take(i)) != Some(EntryKind::File))
}

/// What one path of the batch came to: its error, if any, and the
/// reports its processing produced.
#[derive(Debug)]
pub struct EntryResult {
    pub err: Option<CreateError>,
    pub reports: Vec<Report>,
}

/// The zero-or-one creation line for a directory that was actually made.
pub open spec fn dir_created_lines(made: bool, p: Seq<u8>, rs: Seq<Report>) -> bool {
    if made {
        rs.len() == 1 && (rs[0] matches Report::DirCreated { path } && path@ == p)
    } else {
        rs.len() == 0
    }
}

/// The zero-or-one line for the file at `p`: a creation line for a new
/// file, a verbose touched note for a re-truncated one.
pub open spec fn file_lines(existed: bool, verbose: bool, p: Seq<u8>, rs: Seq<Report>) -> bool {
    if !existed {
        rs.len() == 1 && (rs[0] matches Report::FileCreated { path } && path@ == p)
    } else if verbose {
        rs.len() == 1 && (rs[0] matches Report::FileTouched { path } && path@ == p)
    } else {
        rs.len() == 0
    }
}

/// The zero-or-one verbose note for the mode step: the mode applied, or
/// the advisory that the platform has none.
pub open spec fn mode_lines(s: Settings, supported: bool, p: Seq<u8>, rs: Seq<Report>) -> bool {
    if s.mode is Some && s.verbose {
        if supported {
            rs.len() == 1 && (rs[0] matches Report::ModeSet { path, mode } && path@ == p && Some(
                mode,
            ) == s.mode)
        } else {
            rs.len() == 1 && (rs[0] matches Report::ModeUnsupported { path } && path@ == p)
        }
    } else {
        rs.len() == 0
    }
}

/// Everything one processing step promises, given the filesystem it
/// found (`pre`), the one it leaves (`post`), the runner's configured
/// outcomes, the path and the settings: when the step succeeds, what
/// the error is otherwise, which entries appear, which modes change,
/// and which reports are made. `create_entry` ensures exactly this;
/// `process_paths` chains it along the batch.
pub open spec fn entry_step(
    pre: Fs,
    post: Fs,
    runner: Runner,
    p: Seq<u8>,
    s: Settings,
    err: Option<CreateError>,
    reports: Seq<Report>,
) -> bool {
    &&& post.wf()
    &&& post.modes_supported == pre.modes_supported
    &&& forall|x: Seq<u8>| #![trigger post.kind_at(x)]
        pre.kind_at(x) is Some ==> post.kind_at(x) == pre.kind_at(x)
    &&& forall|x: Seq<u8>| #![trigger post.kind_at(x)]
        post.kind_at(x) != pre.kind_at(x) ==> pre.kind_at(x) is None && in_chain(
            canon(p),
            canon(x),
        )
    &&& ((err matches Some(CreateError::Fs { .. })) ==> post == pre && reports.len() == 0)
    &&& forall|x: Seq<u8>| #![trigger post.mode_at(x)]
        canon(x) != canon(p) ==> post.mode_at(x) == pre.mode_at(x)
    &&& (s.mode is None ==> forall|x: Seq<u8>| #![trigger post.mode_at(x)]
        post.mode_at(x) == pre.mode_at(x))
    &&& (err is None && pre.modes_supported && s.mode is Some ==> post.mode_at(p) == s.mode)
    &&& (err is None && !pre.modes_supported && s.mode is Some && s.verbose
        ==> has_mode_unsupported(reports, p))
    &&& (dir_intent(p) ==> {
        &&& ((err is None) <==> (dir_create_ok(pre, p) && !spawn_trouble(&runner, &s)))
        &&& (err matches Some(CreateError::Fs { err: fe }) ==> fe == FsError::ComponentIsFile
            && !dir_create_ok(pre, p))
        &&& ((err matches Some(CreateError::Spawn { .. })) ==> spawn_trouble(&runner, &s)
            && dir_create_ok(pre, p))
        &&& (!(err matches Some(CreateError::Fs { .. })) ==> post.kind_at(p) == Some(
            EntryKind::Dir,
        ))
        &&& (dir_create_ok(pre, p) && pre.kind_at(p) != Some(EntryKind::Dir) ==> forall|i: int|
            is_boundary(canon(p), i) ==> post.kind_at(canon(p).take(i)) == Some(EntryKind::Dir))
        &&& (has_dir_created(reports, p) <==> (pre.kind_at(p) != Some(EntryKind::Dir)
            && dir_create_ok(pre, p)))
        &&& (!(err matches Some(CreateError::Fs { .. })) ==> {
            &&& (s.git ==> tool_reported(Tool::Git, runner.git_outcome, reports))
            &&& (s.cargo ==> tool_reported(Tool::Cargo, runner.cargo_outcome, reports))
            &&& (s.npm ==> tool_reported(Tool::Npm, runner.npm_outcome, reports))
            &&& (s.go ==> tool_reported(Tool::Go, runner.go_outcome, reports))
        })
        &&& (!(err matches Some(CreateError::Fs { .. })) ==> exists|k1: int, k2: int|
            #![trigger reports.take(k1), reports.skip(k2)]
            0 <= k1 <= k2 <= reports.len() && dir_created_lines(
                pre.kind_at(p) != Some(EntryKind::Dir),
                p,
                reports.take(k1),
            ) && mode_lines(s, pre.modes_supported, p, reports.subrange(k1, k2))
                && crate::init::reports_for_tools(
                runner,
                enabled_tools(&s),
                s.verbose,
                reports.skip(k2),
            ))
    })
    &&& (!dir_intent(p) ==> {
        &&& ((err is None) <==> (ensure_file_err(pre, canon(p)) is None))
        &&& (err is Some ==> (err matches Some(CreateError::Fs { .. })))
        &&& (err matches Some(CreateError::Fs { err: fe }) ==> Some(fe) == ensure_file_err(
            pre,
            canon(p),
        ))
        &&& (pre.kind_at(p) != Some(EntryKind::Dir) ==> post.kind_at(p) != Some(EntryKind::Dir))
        &&& (err is None ==> post.kind_at(p) == Some(EntryKind::File) && (forall|i: int|
            is_boundary(canon(p), i) && i < canon(p).len() ==> post.kind_at(canon(p).take(i))
                == Some(EntryKind::Dir)))
        &&& (err is None ==> (has_file_created(reports, p) <==> pre.kind_at(p) is None))
        &&& (err is None && pre.kind_at(p) == Some(EntryKind::File) ==> (s.verbose
            <==> has_file_touched(reports, p)))
        &&& (pre.kind_at(p) == Some(EntryKind::File) && (forall|i: int|
            is_boundary(canon(p), i) && i < canon(p).len() ==> pre.kind_at(canon(p).take(i))
                == Some(EntryKind::Dir)) ==> err is None && (forall|x: Seq<u8>|
            #![trigger post.kind_at(x)]
            post.kind_at(x) == pre.kind_at(x)) && !has_file_created(reports, p))
        &&& (err is None ==> ((exists|i: int|
            is_boundary(canon(p), i) && i < canon(p).len() && pre.kind_at(canon(p).take(i))
                is None) <==> (parent(p) matches Some(par) && has_dir_created(reports, par))))
        &&& (err is None ==> exists|k1: int, k2: int|
            #![trigger reports.take(k1), reports.skip(k2)]
            0 <= k1 <= k2 <= reports.len() && (match parent(p) {
                Some(par) => dir_created_lines(
                    exists|i: int|
                        is_boundary(canon(p), i) && i < canon(p).len() && pre.kind_at(
                            canon(p).take(i),
                        ) is None,
                    par,
                    reports.take(k1),
                ),
                None => reports.take(k1).len() == 0,
            }) && file_lines(pre.kind_at(p) is Some, s.verbose, p, reports.subrange(k1, k2))
                && mode_lines(s, pre.modes_supported, p, reports.skip(k2)))
    })
}

/// The step relation reads the runner only through its per-tool
/// outcomes, never its log: two runners with the same outcomes satisfy
/// the same steps.
pub proof fn lemma_entry_step_same_outcomes(
    pre: Fs,
    post: Fs,
    r1: Runner,
    r2: Runner,
    p: Seq<u8>,
    s: Settings,
    err: Option<CreateError>,
    reports: Seq<Report>,
)
    requires
        Runner::same_outcomes(&r1, &r2),
        entry_step(pre, post, r1, p, s, err, reports),
    ensures
        entry_step(pre, post, r2, p, s, err, reports),
{
    if dir_intent(p) && !(err matches Some(CreateError::Fs { .. })) {
        let (k1, k2) = choose|k1: int, k2: int|
            #![trigger reports.take(k1), reports.skip(k2)]
            0 <= k1 <= k2 <= reports.len() && dir_created_lines(
                pre.kind_at(p) != Some(EntryKind::Dir),
                p,
                reports.take(k1),
            ) && mode_lines(s, pre.modes_supported, p, reports.subrange(k1, k2))
                && crate::init::reports_for_tools(r1, enabled_tools(&s), s.verbose, reports.skip(k2));
        crate::init::lemma_reports_for_tools_same_outcomes(
            r1,
            r2,
            enabled_tools(&s),
            s.verbose,
            reports.skip(k2),
        );
    }
}

/// Creation lines already reported stay reported, and none appears,
/// when the report list grows only by non-creation lines.
proof fn lemma_creation_reports_extend(rs1: Seq<Report>, rs2: Seq<Report>, p: Seq<u8>)
    requires
        rs1.len() <= rs2.len(),
        forall|i: int| 0 <= i < rs1.len() ==> rs2[i] == rs1[i],
        forall|i: int| rs1.len() <= i < rs2.len() ==> !is_creation_report(#[trigger] rs2[i]),
    ensures
        has_dir_created(rs2, p) <==> has_dir_created(rs1, p),
        has_file_created(rs2, p) <==> has_file_created(rs1, p),
        has_file_touched(rs2, p) <==> has_file_touched(rs1, p),
{
    if has_dir_created(rs1, p) {
        let i = choose|i: int|
            0 <= i < rs1.len() && (#[trigger] rs1[i] matches Report::DirCreated { path } && path@
                == p);
        assert(rs2[i] matches Report::DirCreated { path } && path@ == p);
    }
    if has_dir_created(rs2, p) {
        let i = choose|i: int|
            0 <= i < rs2.len() && (#[trigger] rs2[i] matches Report::DirCreated { path } && path@
                == p);
        assert(i < rs1.len() && rs1[i] == rs2[i]);
    }
    if has_file_created(rs1, p) {
        let i = choose|i: int|
            0 <= i < rs1.len() && (#[trigger] rs1[i] matches Report::FileCreated { path } && path@
                == p);
        assert(rs2[i] matches Report::FileCreated { path } && path@ == p);
    }
    if has_file_created(rs2, p) {
        let i = choose|i: int|
            0 <= i < rs2.len() && (#[trigger] rs2[i] matches Report::FileCreated { path } && path@
                == p);
        assert(i < rs1.len() && rs1[i] == rs2[i]);
    }
    if has_file_touched(rs1, p) {
        let i = choose|i: int|
            0 <= i < rs1.len() && (#[trigger] rs1[i] matches Report::FileTouched { path } && path@
                == p);
        assert(rs2[i] matches Report::FileTouched { path } && path@ == p);
    }
    if has_file_touched(rs2, p) {
        let i = choose|i: int|
            0 <= i < rs2.len() && (#[trigger] rs2[i] matches Report::FileTouched { path } && path@
                == p);
        assert(i < rs1.len() && rs1[i] == rs2[i]);
    }
}

/// The advisory mode note stays reported when lines follow it.
proof fn lemma_mode_note_extend(rs1: Seq<Report>, rs2: Seq<Report>, p: Seq<u8>)
    requires
        rs1.len() <= rs2.len(),
        forall|i: int| 0 <= i < rs1.len() ==> rs2[i] == rs1[i],
    ensures
        has_mode_unsupported(rs1, p) ==> has_mode_unsupported(rs2, p),
{
    if has_mode_unsupported(rs1, p) {
        let i = choose|i: int|
            0 <= i < rs1.len() && (#[trigger] rs1[i] matches Report::ModeUnsupported { path }
                && path@ == p);
        assert(rs2[i] matches Report::ModeUnsupported { path } && path@ == p);
    }
}

/// Processes one path: directory intent creates the directory chain
/// and hands over to the initializer; file intent ensures the parent
/// chain and creates or re-truncates the file; either way the mode is
/// applied afterwards when one is configured. A refusal reports the
/// cause and leaves the filesystem exactly as it was; a path component
/// standing as a plain file refuses either intent.
#[verifier::rlimit(100)]
pub fn create_entry(fs: &mut Fs, runner: &mut Runner, path: &[u8], settings: &Settings) -> (r: (
    Option<CreateError>,
    Vec<Report>,
))
    requires
        old(fs).wf(),
    ensures
        entry_step(*old(fs), *final(fs), *old(runner), path@, *settings, r.0, r.1@),
        Runner::same_outcomes(final(runner), old(runner)),
        !dir_intent(path@) ==> *final(runner) == *old(runner),
        (r.0 matches Some(CreateError::Fs { .. })) ==> *final(runner) == *old(runner),
        dir_intent(path@) && !(r.0 matches Some(CreateError::Fs { .. })) ==> {
            &&& final(runner).log@.len() == old(runner).log@.len() + enabled_tools(settings).len()
            &&& forall|i: int|
                0 <= i < old(runner).log@.len() ==> final(runner).log@[i] == old(runner).log@[i]
            &&& forall|k: int|
                0 <= k < enabled_tools(settings).len()
                    ==> final(runner).log@[old(runner).log@.len() + k].tool == #[trigger] enabled_tools(settings)[k]
                    && final(runner).log@[old(runner).log@.len() + k].dir@ == path@
        },
{
    let mut reports: Vec<Report> = Vec::new();
    if is_dir_intent(path) {
        let already_dir = fs.is_dir(path);
        if !already_dir {
            match fs.create_dir_all(path) {
                Ok(()) => {
                    reports.push(Report::DirCreated { path: copy_bytes(path) });
                    proof {
                        assert(reports@[0] matches Report::DirCreated { path: made } && made@
                            == path@);
                    }
                },
                Err(e) => {
                    return (Some(CreateError::Fs { err: e }), reports);
                },
            }
        }
        let ghost reports1 = reports@;
        proof {
            crate::pathname::lemma_canon_idempotent(path@);
            assert(canon(path@).take(canon(path@).len() as int) =~= canon(path@));
            assert(is_boundary(canon(path@), canon(path@).len() as int));
        }
        if let Some(m) = settings.mode {
            if fs.modes_supported {
                match fs.set_mode(path, m) {
                    Ok(()) => {
                        if settings.verbose {
                            reports.push(Report::ModeSet { path: copy_bytes(path), mode: m });
                        }
                    },
                    Err(e) => {
                        proof {
                            assert(false);
                        }
                        return (Some(CreateError::Fs { err: e }), reports);
                    },
                }
            } else {
                if settings.verbose {
                    reports.push(Report::ModeUnsupported { path: copy_bytes(path) });
                    proof {
                        assert(reports@.last() matches Report::ModeUnsupported { path: noted }
                            && noted@ == path@);
                    }
                }
            }
        }
        let ghost reports2 = reports@;
        proof {
            assert forall|i: int|
                reports1.len() <= i < reports2.len() implies !is_creation_report(
                #[trigger] reports2[i],
            ) by {}
            lemma_creation_reports_extend(reports1, reports2, path@);
            if !already_dir {
                assert(has_dir_created(reports1, path@));
            }
        }
        let (mut irs, spawn) = run_initializers(fs, runner, path, settings);
        let ghost irs_snap = irs@;
        reports.append(&mut irs);
        proof {
            assert forall|i: int| reports2.len() <= i < reports@.len() implies !is_creation_report(
                #[trigger] reports@[i],
            ) by {
                assert(reports@[i] == irs_snap[i - reports2.len()]);
            }
            lemma_creation_reports_extend(reports2, reports@, path@);
            lemma_mode_note_extend(reports2, reports@, path@);
            if settings.git {
                crate::init::lemma_reports_prepend(reports2, irs_snap, Tool::Git);
            }
            if settings.cargo {
                crate::init::lemma_reports_prepend(reports2, irs_snap, Tool::Cargo);
            }
            if settings.npm {
                crate::init::lemma_reports_prepend(reports2, irs_snap, Tool::Npm);
            }
            if settings.go {
                crate::init::lemma_reports_prepend(reports2, irs_snap, Tool::Go);
            }
            // exact report shape: creation prefix, mode note, tool lines
            let k1 = reports1.len() as int;
            let k2 = reports2.len() as int;
            assert(reports@.take(k1) =~= reports1);
            assert(reports@.subrange(k1, k2) =~= reports2.skip(k1));
            assert(reports@.skip(k2) =~= irs_snap);
            assert(dir_created_lines(!already_dir, path@, reports1));
            assert(mode_lines(*settings, old(fs).modes_supported, path@, reports2.skip(k1))) by {
                if settings.mode is Some && settings.verbose {
                    assert(reports2.skip(k1) =~= seq![reports2.last()]);
                } else {
                    assert(reports2.skip(k1) =~= Seq::<Report>::empty());
                }
            }
            assert(0 <= k1 <= k2 <= reports@.len() && dir_created_lines(
                old(fs).kind_at(path@) != Some(EntryKind::Dir),
                path@,
                reports@.take(k1),
            ) && mode_lines(*settings, old(fs).modes_supported, path@, reports@.subrange(k1, k2))
                && crate::init::reports_for_tools(
                *old(runner),
                enabled_tools(settings),
                settings.verbose,
                reports@.skip(k2),
            ));
        }
        match spawn {
            Some(message) => (Some(CreateError::Spawn { message }), reports),
            None => (None, reports),
        }
    } else {
        match fs.ensure_file(path) {
            Err(e) => {
                return (Some(CreateError::Fs { err: e }), reports);
            },
            Ok((created, made_dirs)) => {
                proof {
                    crate::pathname::lemma_canon_idempotent(path@);
                    assert(canon(path@).len() > 0);
                }
                if made_dirs {
                    match parent_of(path) {
                        Some(par) => {
                            reports.push(Report::DirCreated { path: par });
                            proof {
                                assert(reports@.last() matches Report::DirCreated { path: made }
                                    && parent(path@) == Some(made@));
                            }
                        },
                        None => {
                            proof {
                                let j = choose|i: int|
                                    is_boundary(canon(path@), i) && i < canon(path@).len() && old(
                                        fs,
                                    ).kind_at(canon(path@).take(i)) is None;
                                assert(path@[j] == crate::pathname::SEP);
                                assert(false);
                            }
                        },
                    }
                }
                let ghost reports_parent = reports@;
                if created {
                    reports.push(Report::FileCreated { path: copy_bytes(path) });
                    proof {
                        assert(reports@.last() matches Report::FileCreated { path: made } && made@
                            == path@);
                    }
                } else {
                    if settings.verbose {
                        reports.push(Report::FileTouched { path: copy_bytes(path) });
                        proof {
                            assert(reports@.last() matches Report::FileTouched { path: touched }
                                && touched@ == path@);
                        }
                    }
                }
                let ghost reports3 = reports@;
                proof {
                    if made_dirs {
                        match parent(path@) {
                            Some(parv) => {
                                assert(has_dir_created(reports3, parv)) by {
                                    assert(reports3[0] matches Report::DirCreated { path: made }
                                        && made@ == parv);
                                }
                            },
                            None => {},
                        }
                    }
                    if !created {
                        assert(!has_file_created(reports3, path@)) by {
                            assert forall|i: int|
                                0 <= i < reports3.len() implies !(#[trigger] reports3[i]
                                matches Report::FileCreated { path: made } && made@ == path@) by {}
                        }
                    }
                    if !created && !settings.verbose {
                        assert(!has_file_touched(reports3, path@)) by {
                            assert forall|i: int|
                                0 <= i < reports3.len() implies !(#[trigger] reports3[i]
                                matches Report::FileTouched { path: touched } && touched@ == path@)
                                by {}
                        }
                    }
                    if !made_dirs {
                        match parent(path@) {
                            Some(parv) => {
                                assert(!has_dir_created(reports3, parv)) by {
                                    assert forall|i: int|
                                        0 <= i < reports3.len() implies !(#[trigger] reports3[i]
                                        matches Report::DirCreated { path: made } && made@ == parv)
                                        by {}
                                }
                            },
                            None => {},
                        }
                    }
                }
                if let Some(m) = settings.mode {
                    if fs.modes_supported {
                        match fs.set_mode(path, m) {
                            Ok(()) => {
                                if settings.verbose {
                                    reports.push(
                                        Report::ModeSet { path: copy_bytes(path), mode: m },
                                    );
                                }
                            },
                            Err(e) => {
                                proof {
                                    assert(false);
                                }
                                return (Some(CreateError::Fs { err: e }), reports);
                            },
                        }
                    } else {
                        if settings.verbose {
                            reports.push(Report::ModeUnsupported { path: copy_bytes(path) });
                            proof {
                                assert(reports@.last() matches Report::ModeUnsupported {
                                    path: noted,
                                } && noted@ == path@);
                            }
                        }
                    }
                }
                proof {
                    assert forall|i: int|
                        reports3.len() <= i < reports@.len() implies !is_creation_report(
                        #[trigger] reports@[i],
                    ) by {}
                    lemma_creation_reports_extend(reports3, reports@, path@);
                    match parent(path@) {
                        Some(parv) => {
                            lemma_creation_reports_extend(reports3, reports@, parv);
                        },
                        None => {},
                    }
                    // exact report shape: parent line, file line, mode note
                    let k1 = reports_parent.len() as int;
                    let k2 = reports3.len() as int;
                    assert(reports@.take(k1) =~= reports_parent);
                    assert(reports@.subrange(k1, k2) =~= reports3.skip(k1));
                    assert(file_lines(
                        old(fs).kind_at(path@) is Some,
                        settings.verbose,
                        path@,
                        reports3.skip(k1),
                    )) by {
                        if created || settings.verbose {
                            assert(reports3.skip(k1) =~= seq![reports3.last()]);
                        } else {
                            assert(reports3.skip(k1) =~= Seq::<Report>::empty());
                        }
                    }
                    assert(mode_lines(
                        *settings,
                        old(fs).modes_supported,
                        path@,
                        reports@.skip(k2),
                    )) by {
                        if settings.mode is Some && settings.verbose {
                            assert(reports@.skip(k2) =~= seq![reports@.last()]);
                        } else {
                            assert(reports@.skip(k2) =~= Seq::<Report>::empty());
                        }
                    }
                    match parent(path@) {
                        Some(parv) => {
                            assert(dir_created_lines(made_dirs, parv, reports_parent));
                        },
                        None => {
                            assert(reports_parent.len() == 0);
                        },
                    }
                    assert(0 <= k1 <= k2 <= reports@.len());
                    assert(reports@.take(k1) == reports_parent && reports@.subrange(k1, k2)
                        == reports3.skip(k1));
                }
                (None, reports)
            },
        }
    }
}

/// Processes every path of the batch, in the given order. No failure
/// stops the batch: the result list has one entry per path, and the
/// ghost trace of intermediate filesystems pins every slot down —
/// each path's error, entries and reports satisfy [`entry_step`]
/// against exactly the state the paths before it left behind.
pub fn process_paths(fs: &mut Fs, runner: &mut Runner, settings: &Settings) -> (r: (
    Vec<EntryResult>,
    Ghost<Seq<Fs>>,
))
    requires
        old(fs).wf(),
        settings.wf(),
    ensures
        final(fs).wf(),
        final(fs).modes_supported == old(fs).modes_supported,
        Runner::same_outcomes(final(runner), old(runner)),
        r.0@.len() == settings.paths@.len(),
        r.1@.len() == settings.paths@.len() + 1,
        r.1@[0] == *old(fs),
        r.1@[settings.paths@.len() as int] == *final(fs),
        forall|j: int| #![trigger r.0@[j]]
            0 <= j < r.0@.len() ==> entry_step(
                r.1@[j],
                r.1@[j + 1],
                *old(runner),
                path_bytes(settings.paths@[j]),
                *settings,
                r.0@[j].err,
                r.0@[j].reports@,
            ),
        forall|x: Seq<u8>| #![trigger final(fs).kind_at(x)]
            old(fs).kind_at(x) is Some ==> final(fs).kind_at(x) == old(fs).kind_at(x),
        forall|j: int| #![trigger r.0@[j]]
            0 <= j < r.0@.len() && r.0@[j].err is None ==> final(fs).kind_at(
                path_bytes(settings.paths@[j]),
            ) is Some,
        forall|j: int| #![trigger r.0@[j]]
            0 <= j < r.0@.len() && r.0@[j].err is None && !dir_intent(
                path_bytes(settings.paths@[j]),
            ) ==> final(fs).kind_at(path_bytes(settings.paths@[j])) == Some(EntryKind::File),
        forall|j: int| #![trigger r.0@[j]]
            0 <= j < r.0@.len() && r.0@[j].err is None && dir_intent(
                path_bytes(settings.paths@[j]),
            ) ==> final(fs).kind_at(path_bytes(settings.paths@[j])) == Some(EntryKind::Dir),
{
    let mut results: Vec<EntryResult> = Vec::new();
    let ghost mut trace: Seq<Fs> = seq![*fs];
    let mut i: usize = 0;
    while i < settings.paths.len()
        invariant
            fs.wf(),
            fs.modes_supported == old(fs).modes_supported,
            Runner::same_outcomes(runner, old(runner)),
            i <= settings.paths@.len(),
            results@.len() == i,
            trace.len() == i + 1,
            trace[0] == *old(fs),
            trace[i as int] == *fs,
            forall|j: int| #![trigger results@[j]]
                0 <= j < i ==> entry_step(
                    trace[j],
                    trace[j + 1],
                    *old(runner),
                    path_bytes(settings.paths@[j]),
                    *settings,
                    results@[j].err,
                    results@[j].reports@,
                ),
            forall|x: Seq<u8>| #![trigger fs.kind_at(x)]
                old(fs).kind_at(x) is Some ==> fs.kind_at(x) == old(fs).kind_at(x),
            forall|j: int| #![trigger results@[j]]
                0 <= j < i && results@[j].err is None ==> fs.kind_at(
                    path_bytes(settings.paths@[j]),
                ) is Some,
            forall|j: int| #![trigger results@[j]]
                0 <= j < i && results@[j].err is None && !dir_intent(
                    path_bytes(settings.paths@[j]),
                ) ==> fs.kind_at(path_bytes(settings.paths@[j])) == Some(EntryKind::File),
            forall|j: int| #![trigger results@[j]]
                0 <= j < i && results@[j].err is None && dir_intent(
                    path_bytes(settings.paths@[j]),
                ) ==> fs.kind_at(path_bytes(settings.paths@[j])) == Some(EntryKind::Dir),
        decreases settings.paths@.len() - i,
    {
        let pb: &[u8] = settings.paths[i].as_str().as_bytes();
        proof {
            assert(pb@ == path_bytes(settings.paths@[i as int]));
        }
        let ghost fs_pre = *fs;
        let ghost runner_pre = *runner;
        let (err, reports) = create_entry(fs, runner, pb, settings);
        let ghost err_snap = err;
        let ghost reports_snap = reports@;
        proof {
            lemma_entry_step_same_outcomes(
                fs_pre,
                *fs,
                runner_pre,
                *old(runner),
                pb@,
                *settings,
                err_snap,
                reports_snap,
            );
            assert(entry_step(fs_pre, *fs, *old(runner), pb@, *settings, err_snap, reports_snap));
            trace = trace.push(*fs);
        }
        results.push(EntryResult { err, reports });
        i = i + 1;
    }
    (results, Ghost(trace))
}

} // verus!
