use std::cell::Cell;
use std::sync::atomic::{AtomicBool, Ordering};
use std::sync::Arc;
use std::time::Duration;

use bonsai::interest::{InterestingnessTest, TestResult};
use bonsai::languages;
use bonsai::parse;
use bonsai::reducer::{keeps_candidate, reduce, reduce_with, ReducerConfig};
use bonsai::supertype::{EmptyProvider, LanguageApiProvider};
use bonsai::transforms::delete::DeleteTransform;
use bonsai::transforms::unwrap::UnwrapTransform;
use bonsai::validity;

/// Interesting when the input contains a pattern (an empty pattern always matches).
struct ContainsTest {
    pattern: Vec<u8>,
    calls: Cell<usize>,
}

impl ContainsTest {
    fn new(pattern: &[u8]) -> Self {
        ContainsTest { pattern: pattern.to_vec(), calls: Cell::new(0) }
    }

    fn holds(&self, input: &[u8]) -> bool {
        self.pattern.is_empty() || input.windows(self.pattern.len()).any(|w| w == self.pattern.as_slice())
    }
}

impl InterestingnessTest for ContainsTest {
    fn test(&self, input: &[u8]) -> TestResult {
        self.calls.set(self.calls.get() + 1);
        if self.holds(input) {
            TestResult::Interesting
        } else {
            TestResult::NotInteresting
        }
    }
}

fn make_config(lang_name: &str, strict: bool) -> ReducerConfig {
    let language = languages::get_language(lang_name).unwrap();
    let provider = LanguageApiProvider::new(&language);
    ReducerConfig {
        language,
        transforms: vec![Box::new(DeleteTransform), Box::new(UnwrapTransform)],
        provider: Box::new(provider),
        max_tests: 0,
        max_time: Duration::ZERO,
        jobs: 1,
        strict,
        max_test_errors: 3,
        interrupted: Arc::new(AtomicBool::new(false)),
    }
}

fn parses_cleanly(lang_name: &str, source: &[u8]) -> bool {
    let lang = languages::get_language(lang_name).unwrap();
    let tree = parse::parse(source, &lang).unwrap();
    !validity::tree_has_errors(&tree)
}

#[test]
fn test_reduce_removes_unnecessary_code() {
    let source = b"x = 1\ny = 2\nz = 3";
    let test = ContainsTest::new(b"x = 1");
    let result = reduce(source, &test, make_config("python", true), None);
    assert!(result.source.len() < source.len());
    assert!(result.source.windows(5).any(|w| w == b"x = 1"));
    assert!(result.reductions > 0);
    assert!(result.tests_run > 0);
}

#[test]
fn test_reduce_already_minimal() {
    let source = b"x";
    let test = ContainsTest::new(b"x");
    let result = reduce(source, &test, make_config("python", true), None);
    assert_eq!(result.source, source);
    assert_eq!(result.reductions, 0);
}

#[test]
fn test_reduce_respects_max_tests() {
    let source = b"x = 1\ny = 2\nz = 3\nw = 4\na = 5";
    let test = ContainsTest::new(b"x = 1");
    let mut config = make_config("python", true);
    config.max_tests = 3;
    let result = reduce(source, &test, config, None);
    assert!(result.tests_run <= 3, "Should stop after max_tests: ran {}", result.tests_run);
}

#[test]
fn test_reduce_deterministic() {
    let source = b"x = 1\ny = 2\nz = 3";
    let test1 = ContainsTest::new(b"x = 1");
    let test2 = ContainsTest::new(b"x = 1");
    let result1 = reduce(source, &test1, make_config("python", true), None);
    let result2 = reduce(source, &test2, make_config("python", true), None);
    assert_eq!(result1.source, result2.source, "Sequential reduction should be deterministic");
}

#[test]
fn test_reduce_caching_reduces_test_calls() {
    let source = b"x = 1\ny = 2\nz = 3";
    let test = ContainsTest::new(b"x = 1");
    let result = reduce(source, &test, make_config("python", true), None);
    assert!(result.cache_hits <= result.cache_lookups);
    // Every run of the test in the loop follows a cache miss.
    assert!(result.tests_run as u64 <= result.cache_lookups - result.cache_hits);
}

#[test]
fn test_reduce_empty_source() {
    let source = b"";
    let test = ContainsTest::new(b"x");
    let result = reduce(source, &test, make_config("python", true), None);
    assert_eq!(result.source, b"");
}

#[test]
fn test_reduce_final_output_is_verified() {
    let source = b"x = 1\ny = 2";
    let test = ContainsTest::new(b"x = 1");
    let result = reduce(source, &test, make_config("python", true), None);
    assert!(test.holds(&result.source), "Final output must pass the interestingness test");
}

#[test]
fn test_reduce_respects_interrupt() {
    let source = b"x = 1\ny = 2\nz = 3";
    let test = ContainsTest::new(b"x = 1");
    let config = make_config("python", true);
    config.interrupted.store(true, Ordering::Relaxed);
    let result = reduce(source, &test, config, None);
    assert_eq!(result.tests_run, 0);
    assert_eq!(result.source, source);
}

#[test]
fn test_reduce_never_grows_and_counts_reductions() {
    let source = b"a = 1\nb = 2\nc = 3\nd = 4\n";
    let test = ContainsTest::new(b"c = 3");
    let result = reduce(source, &test, make_config("python", true), None);
    assert!(result.source.len() <= source.len());
    assert!(result.source.len() + result.reductions <= source.len());
    assert!(test.holds(&result.source));
}

#[test]
fn test_reduce_falls_back_when_final_check_fails() {
    // A test that accepts every candidate but rejects the final check:
    // the original input comes back with no reduction counted.
    let source = b"x = 1\ny = 2";
    let answers = Cell::new(0usize);
    let flaky = |input: &[u8]| -> TestResult {
        if input.is_empty() {
            return TestResult::NotInteresting;
        }
        answers.set(answers.get() + 1);
        if answers.get() == 1 {
            TestResult::Interesting
        } else {
            TestResult::NotInteresting
        }
    };
    let mut config = make_config("python", true);
    config.max_tests = 2;
    let result = reduce_with(source, &flaky, config, None);
    assert_eq!(result.source, source);
    assert_eq!(result.reductions, 0);
}

#[test]
fn test_reduce_stops_after_consecutive_test_errors() {
    let source = b"x = 1\ny = 2\nz = 3";
    let failing = |_input: &[u8]| -> TestResult { TestResult::Error("boom".to_string()) };
    let mut config = make_config("python", true);
    config.max_test_errors = 2;
    let result = reduce_with(source, &failing, config, None);
    assert_eq!(result.tests_run, 2);
    assert_eq!(result.source, source);
}

#[test]
fn test_reduce_python_keeps_target_line() {
    let source = b"x = 1\ny = 2\nz = 3\nw = 4\n";
    let test = ContainsTest::new(b"x = 1");
    let result = reduce(source, &test, make_config("python", true), None);
    assert!(result.source.len() < source.len());
    let output = String::from_utf8_lossy(&result.source);
    assert!(output.contains("x = 1"), "Reduced output should contain 'x = 1': {}", output);
    assert!(parses_cleanly("python", &result.source));
    assert!(result.reductions > 0);
    assert!(result.tests_run > 0);
}

#[test]
fn test_reduce_javascript() {
    let source = b"function foo() { return 1; }\nfunction bar() { return 2; }\nfunction baz() { return 3; }\n";
    let test = ContainsTest::new(b"function foo");
    let result = reduce(source, &test, make_config("javascript", true), None);
    assert!(result.source.len() < source.len());
    assert!(String::from_utf8_lossy(&result.source).contains("function foo"));
}

#[test]
fn test_reduce_output_is_valid_parse() {
    let source = b"if True:\n  x = 1\n  y = 2\n  z = 3\nelse:\n  w = 4\n";
    let test = ContainsTest::new(b"x = 1");
    let result = reduce(source, &test, make_config("python", true), None);
    assert!(parses_cleanly("python", &result.source));
}

#[test]
fn test_reduce_with_no_supertypes() {
    let language = languages::get_language("python").unwrap();
    let source = b"x = 1\ny = 2\nz = 3\n";
    let test = ContainsTest::new(b"x = 1");
    let config = ReducerConfig {
        language,
        transforms: vec![Box::new(DeleteTransform), Box::new(UnwrapTransform)],
        provider: Box::new(EmptyProvider),
        max_tests: 0,
        max_time: Duration::ZERO,
        jobs: 1,
        strict: true,
        max_test_errors: 3,
        interrupted: Arc::new(AtomicBool::new(false)),
    };
    let result = reduce(source, &test, config, None);
    assert!(result.source.len() < source.len());
    assert!(String::from_utf8_lossy(&result.source).contains("x = 1"));
}

#[test]
fn test_reduce_caching_effectiveness() {
    let source = b"a = 1\nb = 2\nc = 3\nd = 4\ne = 5\n";
    let test = ContainsTest::new(b"a = 1");
    let result = reduce(source, &test, make_config("python", true), None);
    assert!(result.tests_run > 0);
    assert!(result.cache_hits <= result.cache_lookups);
}

#[test]
fn test_reduce_lenient_mode_keeps_preexisting_error() {
    let source = b"x = )\ny = 1\nz = 2\n";
    let test = ContainsTest::new(b"y = 1");
    let result = reduce(source, &test, make_config("python", false), None);
    assert!(result.source.len() < source.len());
    assert!(test.holds(&result.source));
}

#[test]
fn keeps_candidate_follows_cache_then_test() {
    assert!(keeps_candidate(Some(true), &None));
    assert!(!keeps_candidate(Some(false), &Some(TestResult::Interesting)));
    assert!(keeps_candidate(None, &Some(TestResult::Interesting)));
    assert!(!keeps_candidate(None, &Some(TestResult::NotInteresting)));
    assert!(!keeps_candidate(None, &Some(TestResult::Error("spawn failed".to_string()))));
    assert!(!keeps_candidate(None, &None));
}
