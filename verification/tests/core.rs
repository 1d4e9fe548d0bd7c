use maki::fsmodel::EntryKind;
use maki::fsmodel::Fs;
use maki::init::init_guard;
use maki::init::run_initializers;
use maki::init::InitDecision;
use maki::init::tool_args;
use maki::init::tool_list;
use maki::init::tool_program;
use maki::pathname::base_name;
use maki::pathname::canon_of;
use maki::pathname::is_dir_intent;
use maki::pathname::parent_of;
use maki::processor::create_entry;
use maki::processor::process_paths;
use maki::report::CreateError;
use maki::report::FsError;
use maki::report::Report;
use maki::report::RunOutcome;
use maki::report::Tool;
use maki::runner::Runner;
use maki::settings::Settings;

fn plain_settings(paths: Vec<String>) -> Settings {
    Settings {
        verbose: false,
        git: false,
        npm: false,
        cargo: false,
        go: false,
        mode: None,
        paths,
    }
}

fn quiet_runner() -> Runner {
    Runner::new(
        RunOutcome::Success {
            stdout: String::new(),
        },
        RunOutcome::Success {
            stdout: String::new(),
        },
        RunOutcome::Success {
            stdout: String::new(),
        },
        RunOutcome::Success {
            stdout: String::new(),
        },
    )
}

fn count_dir_created(reports: &[Report], path: &[u8]) -> usize {
    reports
        .iter()
        .filter(|r| matches!(r, Report::DirCreated { path: p } if p.as_slice() == path))
        .count()
}

fn count_file_created(reports: &[Report], path: &[u8]) -> usize {
    reports
        .iter()
        .filter(|r| matches!(r, Report::FileCreated { path: p } if p.as_slice() == path))
        .count()
}

#[test]
fn dir_intent_is_trailing_separator() {
    assert!(is_dir_intent(b"build/"));
    assert!(is_dir_intent(b"a/b//"));
    assert!(!is_dir_intent(b"build"));
    assert!(!is_dir_intent(b"a/b.txt"));
    assert!(!is_dir_intent(b""));
}

#[test]
fn canon_drops_trailing_separators() {
    assert_eq!(canon_of(b"a/b//").as_slice(), b"a/b");
    assert_eq!(canon_of(b"a").as_slice(), b"a");
    assert_eq!(canon_of(b"/").as_slice(), b"");
    assert_eq!(canon_of(b"").as_slice(), b"");
}

#[test]
fn parent_is_prefix_before_last_separator() {
    assert_eq!(parent_of(b"a/b/c.rs").unwrap().as_slice(), b"a/b");
    assert_eq!(parent_of(b"src/util.rs").unwrap().as_slice(), b"src");
    assert!(parent_of(b"c.rs").is_none());
    assert_eq!(parent_of(b"/x").unwrap().as_slice(), b"");
}

#[test]
fn base_name_takes_last_component() {
    assert_eq!(base_name(b"proj/").as_slice(), b"proj");
    assert_eq!(base_name(b"a/b/").as_slice(), b"b");
    assert_eq!(base_name(b"a/b").as_slice(), b"b");
    assert_eq!(base_name(b"./a").as_slice(), b"a");
    assert_eq!(base_name(b"a/.b").as_slice(), b".b");
    assert_eq!(base_name(b"a.").as_slice(), b"a.");
    assert_eq!(base_name(b"").as_slice(), b"my-project");
    assert_eq!(base_name(b"/").as_slice(), b"my-project");
    assert_eq!(base_name(b"..").as_slice(), b"my-project");
    assert_eq!(base_name(b"a/..").as_slice(), b"my-project");
    assert_eq!(base_name(b".").as_slice(), b"my-project");
    assert_eq!(base_name(b"./").as_slice(), b"my-project");
}

#[test]
fn base_name_reads_through_trailing_dot_components() {
    assert_eq!(base_name(b"a/.").as_slice(), b"a");
    assert_eq!(base_name(b"a/./").as_slice(), b"a");
    assert_eq!(base_name(b"a/./.").as_slice(), b"a");
    assert_eq!(base_name(b"a/b/./").as_slice(), b"b");
    assert_eq!(base_name(b"a/../.").as_slice(), b"my-project");
}

#[test]
fn command_table_matches_tools() {
    assert_eq!(tool_program(Tool::Git), "git");
    assert_eq!(tool_program(Tool::Cargo), "cargo");
    assert_eq!(tool_program(Tool::Npm), "npm");
    assert_eq!(tool_program(Tool::Go), "go");
    assert_eq!(tool_args(Tool::Git, "x"), vec!["init".to_string()]);
    assert_eq!(tool_args(Tool::Cargo, "x"), vec!["init".to_string()]);
    assert_eq!(
        tool_args(Tool::Npm, "x"),
        vec!["init".to_string(), "-y".to_string()]
    );
    assert_eq!(
        tool_args(Tool::Go, "proj"),
        vec!["mod".to_string(), "init".to_string(), "proj".to_string()]
    );
}

#[test]
fn tool_order_is_fixed() {
    let mut s = plain_settings(vec!["x/".to_string()]);
    s.git = true;
    s.npm = true;
    s.cargo = true;
    s.go = true;
    let tools = tool_list(&s);
    assert_eq!(tools, vec![Tool::Git, Tool::Cargo, Tool::Npm, Tool::Go]);
}

#[test]
fn directory_intent_creates_chain_and_never_a_file() {
    let mut fs = Fs::new(true);
    let mut runner = quiet_runner();
    let settings = plain_settings(vec!["a/b/c/".to_string()]);
    let (results, _) = process_paths(&mut fs, &mut runner, &settings);
    assert_eq!(results.len(), 1);
    assert!(results[0].err.is_none());
    assert!(fs.is_dir(b"a"));
    assert!(fs.is_dir(b"a/b"));
    assert!(fs.is_dir(b"a/b/c"));
    assert_eq!(fs.kind_of(b"a/b/c"), Some(EntryKind::Dir));
}

#[test]
fn file_intent_creates_ancestors_then_file() {
    let mut fs = Fs::new(true);
    let mut runner = quiet_runner();
    let settings = plain_settings(vec!["a/b.txt".to_string()]);
    let (results, _) = process_paths(&mut fs, &mut runner, &settings);
    assert!(results[0].err.is_none());
    assert!(fs.is_dir(b"a"));
    assert_eq!(fs.kind_of(b"a/b.txt"), Some(EntryKind::File));
}

#[test]
fn touching_twice_is_idempotent() {
    let mut fs = Fs::new(true);
    let mut runner = quiet_runner();
    let settings = plain_settings(vec!["a/b.txt".to_string()]);
    let (first, _) = process_paths(&mut fs, &mut runner, &settings);
    assert!(first[0].err.is_none());
    let entries_after_first = fs.entries.len();
    let (second, _) = process_paths(&mut fs, &mut runner, &settings);
    assert!(second[0].err.is_none());
    assert_eq!(fs.entries.len(), entries_after_first);
    assert_eq!(fs.kind_of(b"a/b.txt"), Some(EntryKind::File));
    assert_eq!(count_file_created(&second[0].reports, b"a/b.txt"), 0);
}

#[test]
fn mode_is_applied_to_the_final_entry() {
    let mut fs = Fs::new(true);
    let mut runner = quiet_runner();
    let mut settings = plain_settings(vec!["a/b.txt".to_string()]);
    settings.mode = Some(0o644);
    let (results, _) = process_paths(&mut fs, &mut runner, &settings);
    assert!(results[0].err.is_none());
    assert_eq!(fs.mode_of(b"a/b.txt"), Some(0o644));
    assert_eq!(fs.mode_of(b"a"), None);
}

#[test]
fn mode_is_advisory_without_platform_support() {
    let mut fs = Fs::new(false);
    let mut runner = quiet_runner();
    let mut settings = plain_settings(vec!["b.txt".to_string()]);
    settings.mode = Some(0o600);
    let (results, _) = process_paths(&mut fs, &mut runner, &settings);
    assert!(results[0].err.is_none());
    assert_eq!(fs.mode_of(b"b.txt"), None);
}

#[test]
fn initializer_refuses_a_plain_file_without_spawning() {
    let mut fs = Fs::new(true);
    let mut runner = quiet_runner();
    let mut settings = plain_settings(vec!["f".to_string()]);
    settings.git = true;
    settings.cargo = true;
    let (created, _) = process_paths(&mut fs, &mut runner, &settings);
    assert!(created[0].err.is_none());
    let (reports, spawn_err) = run_initializers(&fs, &mut runner, b"f", &settings);
    assert!(spawn_err.is_none());
    assert_eq!(reports.len(), 1);
    assert!(matches!(&reports[0], Report::InitRefusedFile { path } if path.as_slice() == b"f"));
    assert_eq!(runner.log.len(), 0);
}

#[test]
fn initializer_runs_silently_with_no_tools_enabled() {
    let mut fs = Fs::new(true);
    let mut runner = quiet_runner();
    let settings = plain_settings(vec!["f".to_string()]);
    process_paths(&mut fs, &mut runner, &settings);
    let (reports, spawn_err) = run_initializers(&fs, &mut runner, b"f", &settings);
    assert!(spawn_err.is_none());
    assert!(reports.is_empty());
    assert_eq!(runner.log.len(), 0);
}

#[test]
fn absent_tool_does_not_stop_the_next_one() {
    let mut fs = Fs::new(true);
    let mut runner = Runner::new(
        RunOutcome::NotFound,
        RunOutcome::Success {
            stdout: String::new(),
        },
        RunOutcome::NotFound,
        RunOutcome::NotFound,
    );
    let mut settings = plain_settings(vec!["proj/".to_string()]);
    settings.git = true;
    settings.cargo = true;
    let (results, _) = process_paths(&mut fs, &mut runner, &settings);
    assert!(results[0].err.is_none());
    assert_eq!(runner.log.len(), 2);
    assert_eq!(runner.log[0].tool, Tool::Git);
    assert_eq!(runner.log[1].tool, Tool::Cargo);
    let reports = &results[0].reports;
    assert!(reports
        .iter()
        .any(|r| matches!(r, Report::ToolNotFound { tool: Tool::Git })));
    assert!(reports
        .iter()
        .any(|r| matches!(r, Report::ToolSucceeded { tool: Tool::Cargo })));
}

#[test]
fn batch_isolation_continues_past_a_failing_path() {
    let mut fs = Fs::new(true);
    let mut runner = quiet_runner();
    let plant = plain_settings(vec!["f".to_string()]);
    process_paths(&mut fs, &mut runner, &plant);
    let settings = plain_settings(vec![
        "a/".to_string(),
        "f/x".to_string(),
        "c/".to_string(),
    ]);
    let (results, _) = process_paths(&mut fs, &mut runner, &settings);
    assert_eq!(results.len(), 3);
    assert!(results[0].err.is_none());
    assert!(matches!(
        results[1].err,
        Some(CreateError::Fs {
            err: FsError::ComponentIsFile
        })
    ));
    assert!(results[2].err.is_none());
    assert!(fs.is_dir(b"a"));
    assert!(fs.is_dir(b"c"));
    assert!(fs.kind_of(b"f/x").is_none());
}

#[test]
fn scenario_new_source_file_reports_both_creations() {
    let mut fs = Fs::new(true);
    let mut runner = quiet_runner();
    let settings = plain_settings(vec!["src/util.rs".to_string()]);
    let (results, _) = process_paths(&mut fs, &mut runner, &settings);
    assert!(results[0].err.is_none());
    assert!(fs.is_dir(b"src"));
    assert_eq!(fs.kind_of(b"src/util.rs"), Some(EntryKind::File));
    let reports = &results[0].reports;
    assert_eq!(count_dir_created(reports, b"src"), 1);
    assert_eq!(count_file_created(reports, b"src/util.rs"), 1);
}

#[test]
fn scenario_existing_parent_reports_no_directory_creation() {
    let mut fs = Fs::new(true);
    let mut runner = quiet_runner();
    let mkdir = plain_settings(vec!["src/".to_string()]);
    process_paths(&mut fs, &mut runner, &mkdir);
    let settings = plain_settings(vec!["src/util.rs".to_string()]);
    let (results, _) = process_paths(&mut fs, &mut runner, &settings);
    assert!(results[0].err.is_none());
    let reports = &results[0].reports;
    assert_eq!(count_dir_created(reports, b"src"), 0);
    assert_eq!(count_file_created(reports, b"src/util.rs"), 1);
}

#[test]
fn scenario_directory_with_mode() {
    let mut fs = Fs::new(true);
    let mut runner = quiet_runner();
    let mut settings = plain_settings(vec!["build/".to_string()]);
    settings.mode = Some(0o755);
    let (results, _) = process_paths(&mut fs, &mut runner, &settings);
    assert!(results[0].err.is_none());
    assert!(fs.is_dir(b"build"));
    assert_eq!(fs.mode_of(b"build"), Some(0o755));
    assert_eq!(count_dir_created(&results[0].reports, b"build/"), 1);
}

#[test]
fn scenario_init_with_missing_package_manager() {
    let mut fs = Fs::new(true);
    let mut runner = Runner::new(
        RunOutcome::Success {
            stdout: String::new(),
        },
        RunOutcome::NotFound,
        RunOutcome::NotFound,
        RunOutcome::NotFound,
    );
    let mut settings = plain_settings(vec!["proj/".to_string()]);
    settings.git = true;
    settings.npm = true;
    let (results, _) = process_paths(&mut fs, &mut runner, &settings);
    assert!(results[0].err.is_none());
    assert!(fs.is_dir(b"proj"));
    assert_eq!(runner.log.len(), 2);
    assert_eq!(runner.log[0].tool, Tool::Git);
    assert_eq!(runner.log[0].dir.as_slice(), b"proj/");
    assert_eq!(runner.log[1].tool, Tool::Npm);
    let reports = &results[0].reports;
    assert!(reports
        .iter()
        .any(|r| matches!(r, Report::ToolSucceeded { tool: Tool::Git })));
    assert!(reports
        .iter()
        .any(|r| matches!(r, Report::ToolNotFound { tool: Tool::Npm })));
}

#[test]
fn spawn_error_is_the_paths_hard_error_after_all_tools_ran() {
    let mut fs = Fs::new(true);
    let mut runner = Runner::new(
        RunOutcome::SpawnError {
            message: "exec format error".to_string(),
        },
        RunOutcome::Success {
            stdout: String::new(),
        },
        RunOutcome::NotFound,
        RunOutcome::NotFound,
    );
    let mut settings = plain_settings(vec!["proj/".to_string()]);
    settings.git = true;
    settings.cargo = true;
    let (results, _) = process_paths(&mut fs, &mut runner, &settings);
    assert!(matches!(results[0].err, Some(CreateError::Spawn { .. })));
    assert!(fs.is_dir(b"proj"));
    assert_eq!(runner.log.len(), 2);
    assert!(results[0]
        .reports
        .iter()
        .any(|r| matches!(r, Report::ToolSucceeded { tool: Tool::Cargo })));
}

#[test]
fn empty_path_is_rejected() {
    let mut fs = Fs::new(true);
    let mut runner = quiet_runner();
    let settings = plain_settings(vec!["".to_string()]);
    let (results, _) = process_paths(&mut fs, &mut runner, &settings);
    assert!(matches!(
        results[0].err,
        Some(CreateError::Fs {
            err: FsError::EmptyPath
        })
    ));
}

#[test]
fn file_intent_on_a_directory_is_rejected() {
    let mut fs = Fs::new(true);
    let mut runner = quiet_runner();
    let mkdir = plain_settings(vec!["src/".to_string()]);
    process_paths(&mut fs, &mut runner, &mkdir);
    let settings = plain_settings(vec!["src".to_string()]);
    let (results, _) = process_paths(&mut fs, &mut runner, &settings);
    assert!(matches!(
        results[0].err,
        Some(CreateError::Fs {
            err: FsError::TargetIsDirectory
        })
    ));
    assert!(fs.is_dir(b"src"));
}

#[test]
fn dir_intent_over_an_existing_file_is_rejected() {
    let mut fs = Fs::new(true);
    let mut runner = quiet_runner();
    let plant = plain_settings(vec!["f".to_string()]);
    process_paths(&mut fs, &mut runner, &plant);
    let settings = plain_settings(vec!["f/".to_string()]);
    let (results, _) = process_paths(&mut fs, &mut runner, &settings);
    assert!(matches!(
        results[0].err,
        Some(CreateError::Fs {
            err: FsError::ComponentIsFile
        })
    ));
    assert_eq!(fs.kind_of(b"f"), Some(EntryKind::File));
    assert!(results[0].reports.is_empty());
}

#[test]
fn mode_on_the_root_is_applied() {
    let mut fs = Fs::new(true);
    let mut runner = quiet_runner();
    let mut settings = plain_settings(vec!["/".to_string()]);
    settings.mode = Some(0o755);
    let (results, _) = process_paths(&mut fs, &mut runner, &settings);
    assert!(results[0].err.is_none());
    assert_eq!(fs.mode_of(b"/"), Some(0o755));
}

#[test]
fn verbose_touch_and_output_notes() {
    let mut fs = Fs::new(true);
    let mut runner = Runner::new(
        RunOutcome::Success {
            stdout: "Initialized empty repository".to_string(),
        },
        RunOutcome::NotFound,
        RunOutcome::NotFound,
        RunOutcome::NotFound,
    );
    let mut settings = plain_settings(vec!["proj/".to_string(), "proj/a.txt".to_string()]);
    settings.verbose = true;
    settings.git = true;
    let (results, _) = process_paths(&mut fs, &mut runner, &settings);
    assert!(results[0].err.is_none());
    assert!(results[0].reports.iter().any(
        |r| matches!(r, Report::ToolOutput { tool: Tool::Git, stdout } if stdout.contains("Initialized"))
    ));
    let (second, _) = process_paths(&mut fs, &mut runner, &settings);
    assert!(second[1].err.is_none());
    assert!(second[1]
        .reports
        .iter()
        .any(|r| matches!(r, Report::FileTouched { path } if path.as_slice() == b"proj/a.txt")));
}

#[test]
fn create_entry_reports_nothing_on_refusal() {
    let mut fs = Fs::new(true);
    let mut runner = quiet_runner();
    let plant = plain_settings(vec!["f".to_string()]);
    process_paths(&mut fs, &mut runner, &plant);
    let settings = plain_settings(vec!["x".to_string()]);
    let (err, reports) = create_entry(&mut fs, &mut runner, b"f/deep/file", &settings);
    assert!(matches!(
        err,
        Some(CreateError::Fs {
            err: FsError::ComponentIsFile
        })
    ));
    assert!(reports.is_empty());
    assert!(fs.kind_of(b"f/deep").is_none());
}

#[test]
fn per_tool_runners_log_and_classify() {
    let mut runner = Runner::new(
        RunOutcome::NonZeroExit {
            stderr: "fatal: oops".to_string(),
        },
        RunOutcome::Success {
            stdout: String::new(),
        },
        RunOutcome::NotFound,
        RunOutcome::SpawnError {
            message: "permission denied".to_string(),
        },
    );
    let (reports, err) = maki::init::run_git(&mut runner, b"d", false);
    assert!(err.is_none());
    assert!(matches!(&reports[0], Report::ToolFailed { tool: Tool::Git, stderr } if stderr == "fatal: oops"));
    let (reports, err) = maki::init::run_cargo(&mut runner, b"d", false);
    assert!(err.is_none());
    assert!(matches!(reports[0], Report::ToolSucceeded { tool: Tool::Cargo }));
    let (reports, err) = maki::init::run_npm(&mut runner, b"d", false);
    assert!(err.is_none());
    assert!(matches!(reports[0], Report::ToolNotFound { tool: Tool::Npm }));
    let (reports, err) = maki::init::run_go(&mut runner, b"d", false);
    assert_eq!(err.as_deref(), Some("permission denied"));
    assert!(reports.is_empty());
    assert_eq!(runner.log.len(), 4);
    assert_eq!(runner.log[3].tool, Tool::Go);
    assert_eq!(runner.log[3].dir.as_slice(), b"d");
}

#[test]
fn mode_on_a_missing_entry_is_an_error() {
    let mut fs = Fs::new(true);
    assert_eq!(fs.set_mode(b"missing", 0o644), Err(FsError::NotFound));
}

#[test]
fn misuse_guard_decisions() {
    let mut s = plain_settings(vec!["x".to_string()]);
    assert_eq!(init_guard(false, &s), InitDecision::Silent);
    assert_eq!(init_guard(true, &s), InitDecision::Run);
    s.go = true;
    assert_eq!(init_guard(false, &s), InitDecision::RefuseFile);
    assert_eq!(init_guard(true, &s), InitDecision::Run);
}

#[test]
fn initializer_reports_exactly_one_line_per_run_tool() {
    let mut fs = Fs::new(true);
    let mut runner = quiet_runner();
    let mut settings = plain_settings(vec!["proj/".to_string()]);
    settings.git = true;
    let (results, _) = process_paths(&mut fs, &mut runner, &settings);
    assert!(results[0].err.is_none());
    // one creation line and one tool line, nothing else
    assert_eq!(results[0].reports.len(), 2);
    assert!(matches!(&results[0].reports[0], Report::DirCreated { path } if path.as_slice() == b"proj/"));
    assert!(matches!(results[0].reports[1], Report::ToolSucceeded { tool: Tool::Git }));
    let (reports, spawn_err) = run_initializers(&fs, &mut runner, b"proj/", &settings);
    assert!(spawn_err.is_none());
    assert_eq!(reports.len(), 1);
    assert!(matches!(reports[0], Report::ToolSucceeded { tool: Tool::Git }));
}
