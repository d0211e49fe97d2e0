//! Criteria for deciding whether a run of the fuzz target is "interesting".
//! Several criteria can be combined: any one that matches makes the run
//! interesting.
use vstd::prelude::*;

use crate::target::TargetResult;

verus! {

#[verifier::external_type_specification]
#[verifier::external_body]
pub struct ExRegex(regex::Regex);

/// Whether `regex::Regex::new` accepts the pattern text.
pub uninterp spec fn regex_compiles(pattern: Seq<char>) -> bool;

/// Whether the expression `regex::Regex::new` compiles from the pattern
/// text matches somewhere in `text` (`Regex::is_match`).
pub uninterp spec fn regex_matches(pattern: Seq<char>, text: Seq<char>) -> bool;

/// Calls `regex::Regex::new` (default options); `None` when the crate
/// rejects the pattern. Which patterns it accepts is named, not stated.
#[verifier::external_body]
fn regex_new(pattern: &str) -> (r: Option<regex::Regex>)
    ensures
        r is Some <==> regex_compiles(pattern@),
{
    regex::Regex::new(pattern).ok()
}

/// Calls `regex::Regex::is_match` on the text with the expression of `p`,
/// which `CompiledPattern::new` compiled from `p`'s pattern text: the
/// answer is the named match of that text.
#[verifier::external_body]
fn regex_is_match(p: &CompiledPattern, text: &str) -> (r: bool)
    ensures
        r == regex_matches(p@, text@),
{
    p.regex.is_match(text)
}

/// Calls `<regex::Regex as Clone>::clone`; the copy is another handle on
/// the same compiled expression, which Verus cannot see.
#[verifier::external_body]
fn regex_clone(re: &regex::Regex) -> regex::Regex {
    re.clone()
}

/// A regular expression together with the pattern text it was compiled
/// from (with the default options); its view is that text.
pub struct CompiledPattern {
    pattern: String,
    regex: regex::Regex,
}

impl View for CompiledPattern {
    type V = Seq<char>;

    closed spec fn view(&self) -> Seq<char> {
        self.pattern@
    }
}

impl CompiledPattern {
    /// Compile `pattern`; `None` when it is not a valid regular expression.
    pub fn new(pattern: &str) -> (r: Option<Self>)
        ensures
            r is Some <==> regex_compiles(pattern@),
            r matches Some(p) ==> p@ == pattern@,
    {
        match regex_new(pattern) {
            Some(regex) => Some(CompiledPattern { pattern: String::from_str(pattern), regex }),
            None => None,
        }
    }

    /// The pattern text.
    pub fn as_str(&self) -> (r: &str)
        ensures
            r@ == self@,
    {
        self.pattern.as_str()
    }
}

impl Clone for CompiledPattern {
    fn clone(&self) -> (r: Self)
        ensures
            r@ == self@,
    {
        CompiledPattern { pattern: self.pattern.clone(), regex: regex_clone(&self.regex) }
    }
}

/// `String::from_utf8_lossy` of a byte string: its UTF-8 decoding, with
/// each invalid sequence replaced by U+FFFD.
pub uninterp spec fn utf8_lossy(bytes: Seq<u8>) -> Seq<char>;

/// Calls `String::from_utf8_lossy`; the text depends on the bytes alone.
#[verifier::external_body]
fn lossy_text(bytes: &[u8]) -> (r: String)
    ensures
        r@ == utf8_lossy(bytes@),
{
    String::from_utf8_lossy(bytes).into_owned()
}

/// One criterion.
pub enum InterestCheck {
    /// Any non-zero exit code.
    AnyNonZeroExit,
    /// A specific exit code.
    ExitCode(i32),
    /// The target was killed by a signal.
    AnySignal,
    /// Stderr matches this regular expression.
    StderrPattern(CompiledPattern),
    /// The target timed out.
    Timeout,
}

impl Clone for InterestCheck {
    fn clone(&self) -> (r: Self)
        ensures
            match *self {
                InterestCheck::StderrPattern(p) => r matches InterestCheck::StderrPattern(q) && q@
                    == p@,
                _ => r == *self,
            },
    {
        match self {
            InterestCheck::AnyNonZeroExit => InterestCheck::AnyNonZeroExit,
            InterestCheck::ExitCode(c) => InterestCheck::ExitCode(*c),
            InterestCheck::AnySignal => InterestCheck::AnySignal,
            InterestCheck::StderrPattern(p) => InterestCheck::StderrPattern(p.clone()),
            InterestCheck::Timeout => InterestCheck::Timeout,
        }
    }
}

/// Whether criterion `c` matches the run `r`; `pattern_hit` is what the
/// regular expression answered on the run's stderr, for a pattern criterion.
pub open spec fn check_matches(c: InterestCheck, r: TargetResult, pattern_hit: bool) -> bool {
    match c {
        InterestCheck::AnyNonZeroExit => r.exit_code matches Some(code) && code != 0,
        InterestCheck::ExitCode(expected) => r.exit_code == Some(expected),
        InterestCheck::AnySignal => r.signal is Some,
        InterestCheck::StderrPattern(_) => pattern_hit,
        InterestCheck::Timeout => r.timed_out,
    }
}

/// What each criterion's regular expression answers on `text` (false for
/// criteria without one).
pub open spec fn pattern_hits(checks: Seq<InterestCheck>, text: Seq<char>) -> Seq<bool> {
    Seq::new(
        checks.len(),
        |i: int|
            match checks[i] {
                InterestCheck::StderrPattern(p) => regex_matches(p@, text),
                _ => false,
            },
    )
}

/// Some criterion of `checks` matches the run, given the pattern answers.
pub open spec fn any_matches(checks: Seq<InterestCheck>, r: TargetResult, hits: Seq<bool>) -> bool {
    exists|i: int| 0 <= i < checks.len() && #[trigger] check_matches(checks[i], r, hits[i])
}

/// The signal criterion matches a run exactly when the run was killed by a
/// signal; a timeout (signal `None`) never matches it, whatever the rest of
/// the run, and neither does an exit code.
pub proof fn law_signal_criterion_is_signal(r: TargetResult, hit: bool)
    ensures
        check_matches(InterestCheck::AnySignal, r, hit) <==> r.signal is Some,
{
}

/// The timeout criterion matches exactly the runs that timed out, and the
/// exit criteria look at the exit code alone.
pub proof fn law_exit_and_timeout_criteria(r: TargetResult, hit: bool, code: i32)
    ensures
        check_matches(InterestCheck::Timeout, r, hit) <==> r.timed_out,
        check_matches(InterestCheck::ExitCode(code), r, hit) <==> r.exit_code == Some(code),
        check_matches(InterestCheck::AnyNonZeroExit, r, hit) <==> (r.exit_code is Some && r.exit_code
            != Some(0i32)),
{
}

/// The crash preset (non-zero exit or signal) matches a run exactly when it
/// exited with a non-zero code or was killed by a signal: a run that only
/// timed out, with no exit code and no signal, is no crash.
pub proof fn law_crash_preset(r: TargetResult, hits: Seq<bool>)
    requires
        hits.len() == 2,
    ensures
        any_matches(seq![InterestCheck::AnyNonZeroExit, InterestCheck::AnySignal], r, hits) <==> (
        (r.exit_code is Some && r.exit_code != Some(0i32)) || r.signal is Some),
{
    let cs = seq![InterestCheck::AnyNonZeroExit, InterestCheck::AnySignal];
    assert(cs[0] == InterestCheck::AnyNonZeroExit);
    assert(cs[1] == InterestCheck::AnySignal);
    if (r.exit_code is Some && r.exit_code != Some(0i32)) {
        assert(check_matches(cs[0], r, hits[0]));
    }
    if r.signal is Some {
        assert(check_matches(cs[1], r, hits[1]));
    }
}

/// Criteria for determining whether a target execution result is interesting.
pub struct InterestCriteria {
    checks: Vec<InterestCheck>,
}

impl Clone for InterestCriteria {
    fn clone(&self) -> (r: Self)
        ensures
            r.checks_view().len() == self.checks_view().len(),
    {
        let mut checks: Vec<InterestCheck> = Vec::new();
        let mut i: usize = 0;
        while i < self.checks.len()
            invariant
                i <= self.checks@.len(),
                checks@.len() == i,
            decreases self.checks@.len() - i,
        {
            checks.push(self.checks[i].clone());
            i = i + 1;
        }
        InterestCriteria { checks }
    }
}

impl InterestCriteria {
    /// The criteria, in the order they were added.
    pub closed spec fn checks_view(&self) -> Seq<InterestCheck> {
        self.checks@
    }

    /// Criteria that match any non-zero exit code or signal.
    pub fn any_crash() -> (r: Self)
        ensures
            r.checks_view() == seq![InterestCheck::AnyNonZeroExit, InterestCheck::AnySignal],
    {
        let mut checks: Vec<InterestCheck> = Vec::new();
        checks.push(InterestCheck::AnyNonZeroExit);
        checks.push(InterestCheck::AnySignal);
        InterestCriteria { checks }
    }

    /// Empty criteria: nothing is interesting. Use the builder methods to add checks.
    pub fn none() -> (r: Self)
        ensures
            r.checks_view() == Seq::<InterestCheck>::empty(),
    {
        InterestCriteria { checks: Vec::new() }
    }

    /// Add: any non-zero exit code is interesting.
    pub fn with_any_nonzero_exit(self) -> (r: Self)
        ensures
            r.checks_view() == self.checks_view().push(InterestCheck::AnyNonZeroExit),
    {
        let mut checks = self.checks;
        checks.push(InterestCheck::AnyNonZeroExit);
        InterestCriteria { checks }
    }

    /// Add: a specific exit code is interesting.
    pub fn with_exit_code(self, code: i32) -> (r: Self)
        ensures
            r.checks_view() == self.checks_view().push(InterestCheck::ExitCode(code)),
    {
        let mut checks = self.checks;
        checks.push(InterestCheck::ExitCode(code));
        InterestCriteria { checks }
    }

    /// Add: being killed by any signal is interesting.
    pub fn with_any_signal(self) -> (r: Self)
        ensures
            r.checks_view() == self.checks_view().push(InterestCheck::AnySignal),
    {
        let mut checks = self.checks;
        checks.push(InterestCheck::AnySignal);
        InterestCriteria { checks }
    }

    /// Add: stderr matching this regular expression is interesting.
    pub fn with_stderr_pattern(self, pattern: CompiledPattern) -> (r: Self)
        ensures
            r.checks_view() == self.checks_view().push(InterestCheck::StderrPattern(pattern)),
    {
        let mut checks = self.checks;
        checks.push(InterestCheck::StderrPattern(pattern));
        InterestCriteria { checks }
    }

    /// Add: a timeout is interesting.
    pub fn with_timeout(self) -> (r: Self)
        ensures
            r.checks_view() == self.checks_view().push(InterestCheck::Timeout),
    {
        let mut checks = self.checks;
        checks.push(InterestCheck::Timeout);
        InterestCriteria { checks }
    }

    /// The decision, given for each criterion what its regular expression
    /// answered on the run's stderr (ignored for other criteria): whether
    /// any criterion matches.
    pub fn is_interesting_given(&self, result: &TargetResult, pattern_hits: &Vec<bool>) -> (r: bool)
        requires
            pattern_hits@.len() == self.checks_view().len(),
        ensures
            r == any_matches(self.checks_view(), *result, pattern_hits@),
    {
        let mut i: usize = 0;
        while i < self.checks.len()
            invariant
                i <= self.checks@.len(),
                pattern_hits@.len() == self.checks@.len(),
                forall|k: int|
                    0 <= k < i ==> !#[trigger] check_matches(
                        self.checks@[k],
                        *result,
                        pattern_hits@[k],
                    ),
            decreases self.checks@.len() - i,
        {
            let hit = match &self.checks[i] {
                InterestCheck::AnyNonZeroExit => match result.exit_code {
                    Some(code) => code != 0,
                    None => false,
                },
                InterestCheck::ExitCode(expected) => match result.exit_code {
                    Some(code) => code == *expected,
                    None => false,
                },
                InterestCheck::AnySignal => result.signal.is_some(),
                InterestCheck::StderrPattern(_) => pattern_hits[i],
                InterestCheck::Timeout => result.timed_out,
            };
            if hit {
                assert(check_matches(self.checks@[i as int], *result, pattern_hits@[i as int]));
                return true;
            }
            i = i + 1;
        }
        false
    }

    /// Check whether a target result matches any of the criteria. Each
    /// regular expression is asked about the run's stderr, decoded as UTF-8
    /// with invalid sequences replaced.
    pub fn is_interesting(&self, result: &TargetResult) -> (r: bool)
        ensures
            r == any_matches(
                self.checks_view(),
                *result,
                pattern_hits(self.checks_view(), utf8_lossy(result.stderr@)),
            ),
    {
        let text = lossy_text(result.stderr.as_slice());
        let ghost want = pattern_hits(self.checks@, text@);
        let mut hits: Vec<bool> = Vec::new();
        let mut i: usize = 0;
        while i < self.checks.len()
            invariant
                i <= self.checks@.len(),
                want == pattern_hits(self.checks@, text@),
                hits@ == want.take(i as int),
            decreases self.checks@.len() - i,
        {
            let hit = match &self.checks[i] {
                InterestCheck::StderrPattern(p) => regex_is_match(p, text.as_str()),
                _ => false,
            };
            hits.push(hit);
            proof {
                assert(want.take(i + 1) =~= want.take(i as int).push(hit));
            }
            i = i + 1;
        }
        proof {
            assert(want.take(want.len() as int) =~= want);
        }
        self.is_interesting_given(result, &hits)
    }

    /// Returns true if no checks are configured.
    pub fn is_empty(&self) -> (r: bool)
        ensures
            r == (self.checks_view().len() == 0),
    {
        self.checks.len() == 0
    }
}

} // verus!
