use std::time::Duration;

use bonsai::interest::{CommandOutcome, ShellTest, TestResult};
use bonsai::output::OutputTarget;
use bonsai::progress::{ProgressReporter, Verbosity};

#[test]
fn test_empty_command_rejected() {
    let result = ShellTest::new(vec![], Duration::from_secs(5));
    assert!(result.is_err(), "Empty command should be rejected at construction");
    assert_eq!(result.err().unwrap(), "test command cannot be empty");
}

#[test]
fn test_shell_test_invocation_appends_input_path() {
    let test = ShellTest::new(
        vec!["grep".into(), "-q".into(), "hello".into()],
        Duration::from_secs(5),
    )
    .unwrap();
    let (program, args) = test.invocation("/tmp/with spaces/input");
    assert_eq!(program, "grep");
    assert_eq!(args, vec!["-q".to_string(), "hello".to_string(), "/tmp/with spaces/input".to_string()]);
    assert_eq!(test.timeout(), Duration::from_secs(5));
}

#[test]
fn test_shell_test_verdicts() {
    assert_eq!(ShellTest::verdict(CommandOutcome::Exited { success: true }), TestResult::Interesting);
    assert_eq!(ShellTest::verdict(CommandOutcome::Exited { success: false }), TestResult::NotInteresting);
    assert_eq!(ShellTest::verdict(CommandOutcome::TimedOut), TestResult::NotInteresting);
    assert_eq!(
        ShellTest::verdict(CommandOutcome::Failed("failed to spawn 'x'".into())),
        TestResult::Error("failed to spawn 'x'".into())
    );
}

#[test]
fn test_quiet_produces_no_output() {
    let mut reporter = ProgressReporter::new(Verbosity::Quiet, 100);
    assert!(!reporter.update_due(0));
    assert!(reporter.candidate_line("delete", 10, 20, true).is_none());
    assert!(reporter.warning_line("w").is_none());
}

#[test]
fn test_normal_mode_reports() {
    let mut reporter = ProgressReporter::new(Verbosity::Normal, 100);
    assert!(reporter.update_due(5_000));
    assert!(!reporter.update_due(5_500));
    assert!(reporter.update_due(6_000));
    assert!(reporter.candidate_line("delete", 10, 20, false).is_none());
}

#[test]
fn test_verbose_reports_candidates() {
    let reporter = ProgressReporter::new(Verbosity::Verbose, 100);
    assert_eq!(reporter.candidate_line("delete", 10, 20, false).unwrap(), "  delete [10-20]: skip");
    assert_eq!(
        reporter.candidate_line("delete", 10, 20, true).unwrap(),
        "  delete [10-20]: INTERESTING"
    );
}

#[test]
fn test_zero_original_size() {
    let mut reporter = ProgressReporter::new(Verbosity::Normal, 0);
    assert_eq!(reporter.original_size, 0);
    assert!(reporter.update_due(0));
}

#[test]
fn test_on_warning() {
    let reporter = ProgressReporter::new(Verbosity::Normal, 100);
    assert_eq!(reporter.warning_line("test warning").unwrap(), "bonsai: warning: test warning");
}

#[test]
fn test_output_target_variants() {
    let target = OutputTarget::File("out.py".to_string());
    assert!(matches!(target, OutputTarget::File(ref p) if p == "out.py"));
    assert!(matches!(OutputTarget::Stdout, OutputTarget::Stdout));
}
