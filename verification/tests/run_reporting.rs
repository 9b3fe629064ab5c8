use swiss::executor::{
    append_missing, append_missing_bytes, contains_slice, git_action, shell_invocation,
    write_action, Executor, GitAction, WriteAction,
};
use swiss::parser::Os;
use swiss::persistence::{Dependency, DependencyStatus, DependencyType, SwissCache, FINGERPRINT_KEY};
use swiss::plan::{Plan, Step};
use swiss::report::{shorten, progress_prefix, Outcome, RunTracker, StepDecision, MAX_LABEL};
use swiss::strmap::StrMap;

fn command_step(program: &str) -> Step {
    Step::Command { program: program.to_owned(), args: vec![], cwd: None, requires_admin: false }
}

/// Drives a plan through the tracker and the executor as the application
/// does, with `results` standing for how each action ended.
fn run(plan: &Plan, results: &[bool], executor: &mut Executor, fingerprint: Option<&str>) -> Outcome {
    let mut tracker = RunTracker::new(&plan.steps);
    let mut next = 0;
    for step in &plan.steps {
        match tracker.decide(step) {
            StepDecision::Skip => {}
            StepDecision::Record => executor.record(step),
            StepDecision::Run => {
                tracker.start_action();
                let ok = results[next];
                next += 1;
                tracker.finish_action(shorten(&step.describe()), ok);
            }
        }
    }
    let outcome = tracker.into_outcome(None);
    executor.finish(&outcome, fingerprint);
    outcome
}

#[test]
fn execute_runs_every_step_and_tallies_failures() {
    let mut executor = Executor::new(SwissCache::default());
    let plan = Plan { steps: vec![command_step("false"), command_step("true")] };

    let outcome = run(&plan, &[false, true], &mut executor, None);
    assert_eq!(outcome.failed, 1);
    assert_eq!(outcome.completed, 1);
    assert!(!outcome.succeeded());
    assert_eq!(outcome.failures, vec!["run: false ".to_owned()]);
}

#[test]
fn record_steps_are_skipped_after_a_failed_action() {
    let mut executor = Executor::new(SwissCache::default());
    let plan = Plan {
        steps: vec![
            command_step("false"),
            Step::RecordDep {
                dep: Dependency::new(
                    "ghost".to_owned(),
                    None,
                    DependencyStatus::UpToDate,
                    DependencyType::Cargo,
                ),
            },
        ],
    };

    let outcome = run(&plan, &[false], &mut executor, None);
    assert_eq!(outcome.failed, 1);
    // The install failed, so the dependency is never recorded as present.
    assert!(executor.cache.get_dep("ghost").is_none());
}

#[test]
fn successful_run_records_dependency_aliases_and_fingerprint() {
    let mut executor = Executor::new(SwissCache::default());
    let mut aliases = StrMap::new();
    aliases.insert("cdi".to_owned(), "__zoxide_zi".to_owned());
    let plan = Plan {
        steps: vec![
            command_step("cargo"),
            Step::RecordDep {
                dep: Dependency::new(
                    "zoxide".to_owned(),
                    Some("*".to_owned()),
                    DependencyStatus::UpToDate,
                    DependencyType::Cargo,
                ),
            },
            Step::RecordAliases { aliases },
        ],
    };
    let outcome = run(&plan, &[true], &mut executor, Some("abc"));
    assert!(outcome.succeeded());
    assert_eq!(outcome.completed, 1);
    assert!(executor.cache.get_dep("zoxide").is_some());
    assert_eq!(executor.cache.aliases().get("cdi").map(|s| s.as_str()), Some("__zoxide_zi"));
    assert_eq!(executor.cache.get(FINGERPRINT_KEY), Some("abc"));
}

#[test]
fn failed_run_keeps_the_previous_fingerprint() {
    let mut executor = Executor::new(SwissCache::default());
    let plan = Plan { steps: vec![command_step("x")] };
    run(&plan, &[false], &mut executor, Some("abc"));
    assert_eq!(executor.cache.get(FINGERPRINT_KEY), None);
}

#[test]
fn tracker_counts_only_actions() {
    let plan = Plan {
        steps: vec![
            command_step("a"),
            Step::RecordAliases { aliases: StrMap::new() },
            Step::EnsureDir { path: "/x".to_owned() },
        ],
    };
    let tracker = RunTracker::new(&plan.steps);
    assert_eq!(tracker.total, 2);
    assert_eq!(progress_prefix(1, tracker.total), "[1/2]");
}

#[test]
fn shorten_caps_long_labels() {
    let long = "x".repeat(200);
    let short = shorten(&long);
    assert!(short.chars().count() <= MAX_LABEL);
    assert!(short.ends_with('…'));
    assert_eq!(short.chars().count(), 72);
}

#[test]
fn shorten_flattens_newlines() {
    assert_eq!(shorten("a\nb"), "a b");
}

#[test]
fn outcome_succeeds_only_without_failures() {
    let mut outcome = Outcome { completed: 3, ..Outcome::default() };
    assert!(outcome.succeeded());
    outcome.failed = 1;
    assert!(!outcome.succeeded());
}

#[test]
fn shells_run_commands_with_their_own_flags() {
    assert_eq!(
        shell_invocation("bash", "echo hi", Os::Linux),
        Ok(("bash".to_owned(), vec!["-c".to_owned(), "echo hi".to_owned()]))
    );
    assert_eq!(
        shell_invocation("nu", "ls", Os::Windows),
        Ok(("nu.exe".to_owned(), vec!["-c".to_owned(), "ls".to_owned()]))
    );
    assert_eq!(
        shell_invocation("powershell", "dir", Os::Windows),
        Ok((
            "powershell".to_owned(),
            vec!["-NoProfile".to_owned(), "-Command".to_owned(), "dir".to_owned()]
        ))
    );
    assert_eq!(
        shell_invocation("cmd", "dir", Os::Windows),
        Ok(("cmd".to_owned(), vec!["/C".to_owned(), "dir".to_owned()]))
    );
    assert_eq!(
        shell_invocation("fish", "ls", Os::Linux),
        Err("Unsupported command shell 'fish'".to_owned())
    );
}

#[test]
fn write_file_appends_only_when_missing() {
    let first = append_missing("", "source swiss\n").unwrap();
    assert_eq!(first, "source swiss\n");
    assert_eq!(append_missing(&first, "source swiss\n"), None);
    assert_eq!(
        append_missing(&first, "other line\n").unwrap(),
        "source swiss\nother line\n"
    );
    assert_eq!(append_missing("no newline", "x").unwrap(), "no newline\nx");
}

#[test]
fn write_file_respects_overwrite_flag() {
    assert_eq!(write_action(false, false, false), WriteAction::Create);
    assert_eq!(write_action(true, false, false), WriteAction::Keep);
    assert_eq!(write_action(true, true, false), WriteAction::Replace { backup: false });
}

#[test]
fn write_file_creates_backup_before_overwrite() {
    assert_eq!(write_action(true, true, true), WriteAction::Replace { backup: true });
}

#[test]
fn privileged_appends_compare_bytes() {
    assert!(contains_slice(&b"abcdef".to_vec(), &b"cde".to_vec()));
    assert!(!contains_slice(&b"abc".to_vec(), &b"abcd".to_vec()));
    assert!(contains_slice(&b"abc".to_vec(), &Vec::new()));
    assert_eq!(append_missing_bytes(&b"a".to_vec(), &b"b".to_vec()), Some(b"a\nb".to_vec()));
    assert_eq!(append_missing_bytes(&b"ab".to_vec(), &b"b".to_vec()), None);
}

#[test]
fn git_checkouts_pull_clone_or_refuse() {
    assert_eq!(git_action(true, true, true), GitAction::Pull { submodules: true });
    assert_eq!(git_action(false, true, false), GitAction::NotARepository);
    assert_eq!(git_action(false, false, false), GitAction::Clone);
}
