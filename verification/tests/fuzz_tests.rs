use std::time::Duration;

use bonsai::criteria::{CompiledPattern, InterestCriteria};
use bonsai::target::{FuzzTarget, InputMode, TargetResult};

fn make_result(exit_code: Option<i32>, stderr: &[u8], timed_out: bool) -> TargetResult {
    TargetResult {
        exit_code,
        stderr: stderr.to_vec(),
        timed_out,
        signal: None,
    }
}

fn make_signal_result(signal: i32) -> TargetResult {
    TargetResult {
        exit_code: None,
        stderr: Vec::new(),
        timed_out: false,
        signal: Some(signal),
    }
}

#[test]
fn test_stdin_mode() {
    let target = FuzzTarget::new(vec!["cat".into()], Duration::from_secs(5));
    assert!(matches!(target.input_mode, InputMode::Stdin));
}

#[test]
fn test_arg_replace_auto_detect() {
    let target = FuzzTarget::new(vec!["./my-compiler".into(), "@@".into()], Duration::from_secs(5));
    assert!(matches!(target.input_mode, InputMode::ArgReplace(_)));
}

#[test]
fn test_empty_command() {
    let target = FuzzTarget::new(vec![], Duration::from_secs(5));
    let result = target.invocation("/tmp/input");
    assert!(result.is_err(), "Empty command should return Err");
    assert_eq!(result.err().unwrap().message, "command is empty");
}

#[test]
fn test_invocation_stdin_mode() {
    let target = FuzzTarget::new(vec!["cat".into(), "-n".into()], Duration::from_secs(5));
    let inv = target.invocation("/tmp/in").unwrap();
    assert_eq!(inv.program, "cat");
    assert_eq!(inv.args, vec!["-n".to_string()]);
    assert!(inv.stdin_input);
    assert!(!target.needs_file());
}

#[test]
fn test_invocation_temp_file_mode_appends_path() {
    let target = FuzzTarget::with_input_mode(vec!["cat".into()], InputMode::TempFile, Duration::from_secs(5));
    let inv = target.invocation("/tmp/in").unwrap();
    assert_eq!(inv.program, "cat");
    assert_eq!(inv.args, vec!["/tmp/in".to_string()]);
    assert!(!inv.stdin_input);
    assert!(target.needs_file());
}

#[test]
fn test_invocation_arg_replace_replaces_every_placeholder() {
    let target = FuzzTarget::new(
        vec!["sh".into(), "-c".into(), "cat @@ @@".into(), "--in=@@".into()],
        Duration::from_secs(5),
    );
    let inv = target.invocation("/tmp/x").unwrap();
    assert_eq!(inv.program, "sh");
    assert_eq!(
        inv.args,
        vec!["-c".to_string(), "cat /tmp/x /tmp/x".to_string(), "--in=/tmp/x".to_string()]
    );
    assert!(!inv.stdin_input);
}

#[test]
fn test_any_nonzero_exit() {
    let criteria = InterestCriteria::none().with_any_nonzero_exit();
    assert!(!criteria.is_interesting(&make_result(Some(0), b"", false)));
    assert!(criteria.is_interesting(&make_result(Some(1), b"", false)));
    assert!(criteria.is_interesting(&make_result(Some(139), b"", false)));
}

#[test]
fn test_specific_exit_code() {
    let criteria = InterestCriteria::none().with_exit_code(139);
    assert!(!criteria.is_interesting(&make_result(Some(0), b"", false)));
    assert!(!criteria.is_interesting(&make_result(Some(1), b"", false)));
    assert!(criteria.is_interesting(&make_result(Some(139), b"", false)));
}

#[test]
fn test_any_signal() {
    let criteria = InterestCriteria::none().with_any_signal();
    assert!(!criteria.is_interesting(&make_result(Some(0), b"", false)));
    assert!(criteria.is_interesting(&make_signal_result(11)));
}

#[test]
fn test_stderr_pattern() {
    let criteria = InterestCriteria::none().with_stderr_pattern(CompiledPattern::new("panic").unwrap());
    assert!(!criteria.is_interesting(&make_result(Some(1), b"error occurred", false)));
    assert!(criteria.is_interesting(&make_result(Some(1), b"thread panicked", false)));
}

#[test]
fn test_timeout() {
    let criteria = InterestCriteria::none().with_timeout();
    assert!(!criteria.is_interesting(&make_result(Some(0), b"", false)));
    assert!(criteria.is_interesting(&make_result(None, b"", true)));
}

#[test]
fn test_combined_criteria() {
    let criteria = InterestCriteria::none()
        .with_any_nonzero_exit()
        .with_stderr_pattern(CompiledPattern::new("panic").unwrap());
    assert!(criteria.is_interesting(&make_result(Some(1), b"normal error", false)));
    assert!(criteria.is_interesting(&make_result(Some(0), b"thread panicked", false)));
    assert!(!criteria.is_interesting(&make_result(Some(0), b"all good", false)));
}

#[test]
fn test_any_crash_preset() {
    let criteria = InterestCriteria::any_crash();
    assert!(criteria.is_interesting(&make_result(Some(1), b"", false)));
    assert!(!criteria.is_interesting(&make_result(Some(0), b"", false)));
}

#[test]
fn test_empty_criteria() {
    let criteria = InterestCriteria::none();
    assert!(criteria.is_empty());
    assert!(!criteria.is_interesting(&make_result(Some(1), b"panic", true)));
}

#[test]
fn test_is_interesting_given_pattern_answers() {
    let criteria = InterestCriteria::none()
        .with_exit_code(3)
        .with_stderr_pattern(CompiledPattern::new("x").unwrap());
    let run = make_result(Some(0), b"", false);
    assert!(criteria.is_interesting_given(&run, &vec![false, true]));
    assert!(!criteria.is_interesting_given(&run, &vec![true, false]));
}

#[test]
fn compiled_pattern_keeps_text_and_rejects_invalid() {
    let p = CompiledPattern::new("pan+ic").unwrap();
    assert_eq!(p.as_str(), "pan+ic");
    assert!(CompiledPattern::new("(unclosed").is_none());
    let criteria = InterestCriteria::none().with_stderr_pattern(p.clone());
    assert!(criteria.is_interesting(&make_result(Some(0), b"pannnic here", false)));
    assert!(!criteria.is_interesting(&make_result(Some(0), b"pnic", false)));
}

#[test]
fn stderr_pattern_reads_invalid_utf8_lossily() {
    let criteria = InterestCriteria::none()
        .with_stderr_pattern(CompiledPattern::new("bad\u{FFFD}byte").unwrap());
    assert!(criteria.is_interesting(&make_result(Some(0), b"bad\xffbyte", false)));
}
