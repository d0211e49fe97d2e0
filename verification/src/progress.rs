//! Progress reporting during reduction.
//!
//! The reducer announces events through [`ProgressCallback`]. The
//! [`ProgressReporter`] holds the decisions of the standard reporter: which
//! events are shown at which verbosity, and the rate limit on periodic
//! updates. Writing the lines to stderr is left to the caller.
use vstd::prelude::*;

verus! {

/// Stats passed to the progress callback after each queue entry.
pub struct ProgressStats {
    pub original_size: usize,
    pub current_size: usize,
    pub tests_run: usize,
    pub reductions: usize,
    /// Cache lookups answered from the cache so far.
    pub cache_hits: u64,
    /// Cache lookups made so far.
    pub cache_lookups: u64,
}

/// Receives progress updates during reduction.
pub trait ProgressCallback {
    /// Called after each queue entry is processed.
    fn on_update(&self, stats: &ProgressStats);

    /// Called for each candidate tested (verbose detail).
    fn on_candidate(&self, transform_name: &str, start: usize, end: usize, accepted: bool);

    /// Called when a non-fatal warning occurs (a reparse failure, a test error, ...).
    fn on_warning(&self, msg: &str);
}

/// Verbosity level for progress reporting.
#[derive(Debug, Clone, Copy, PartialEq, Eq, Structural)]
pub enum Verbosity {
    /// No progress output.
    Quiet,
    /// Default: periodic size/percentage updates.
    Normal,
    /// Per-candidate detail.
    Verbose,
}

/// The standard reporter's state: what to show, and when the last periodic
/// update was shown.
pub struct ProgressReporter {
    pub verbosity: Verbosity,
    pub original_size: usize,
    /// When the last update was shown, in milliseconds on the caller's clock.
    pub last_report_ms: Option<u64>,
    /// Least time between two updates in normal mode, in milliseconds.
    pub min_interval_ms: u64,
}

/// Whether an update at `now` is shown, after the last one at `last`.
pub open spec fn update_shown(verbosity: Verbosity, last: Option<u64>, min_interval: u64, now: u64) -> bool {
    match verbosity {
        Verbosity::Quiet => false,
        Verbosity::Verbose => true,
        Verbosity::Normal => match last {
            None => true,
            Some(t) => now < t || now - t >= min_interval,
        },
    }
}

/// The decimal digits of `n`.
pub open spec fn decimal(n: nat) -> Seq<char>
    decreases n,
{
    if n < 10 {
        seq![digit_char(n)]
    } else {
        decimal(n / 10).push(digit_char(n % 10))
    }
}

/// The digit character for `d` in `0..10`.
pub open spec fn digit_char(d: nat) -> char {
    if d == 0 {
        '0'
    } else if d == 1 {
        '1'
    } else if d == 2 {
        '2'
    } else if d == 3 {
        '3'
    } else if d == 4 {
        '4'
    } else if d == 5 {
        '5'
    } else if d == 6 {
        '6'
    } else if d == 7 {
        '7'
    } else if d == 8 {
        '8'
    } else {
        '9'
    }
}

fn digit_str(d: usize) -> (r: &'static str)
    requires
        d < 10,
    ensures
        r@ == seq![digit_char(d as nat)],
{
    proof {
        reveal_strlit("0");
        reveal_strlit("1");
        reveal_strlit("2");
        reveal_strlit("3");
        reveal_strlit("4");
        reveal_strlit("5");
        reveal_strlit("6");
        reveal_strlit("7");
        reveal_strlit("8");
        reveal_strlit("9");
    }
    if d == 0 {
        "0"
    } else if d == 1 {
        "1"
    } else if d == 2 {
        "2"
    } else if d == 3 {
        "3"
    } else if d == 4 {
        "4"
    } else if d == 5 {
        "5"
    } else if d == 6 {
        "6"
    } else if d == 7 {
        "7"
    } else if d == 8 {
        "8"
    } else {
        "9"
    }
}

/// Append the decimal digits of `n` to `out`, as `to_string` writes them.
pub fn push_decimal(out: &mut String, n: usize)
    ensures
        final(out)@ == old(out)@ + decimal(n as nat),
    decreases n,
{
    if n < 10 {
        out.append(digit_str(n));
    } else {
        push_decimal(out, n / 10);
        out.append(digit_str(n % 10));
    }
}

impl ProgressReporter {
    /// A reporter for a reduction of an input of `original_size` bytes;
    /// updates in normal mode are at least one second apart.
    pub fn new(verbosity: Verbosity, original_size: usize) -> (r: Self)
        ensures
            r.verbosity == verbosity,
            r.original_size == original_size,
            r.last_report_ms is None,
            r.min_interval_ms == 1000,
    {
        ProgressReporter { verbosity, original_size, last_report_ms: None, min_interval_ms: 1000 }
    }

    /// Whether the update arriving at `now_ms` is shown: never when quiet,
    /// always when verbose, and in normal mode only when at least the
    /// interval has passed since the last shown update. A shown update
    /// becomes the last one.
    pub fn update_due(&mut self, now_ms: u64) -> (r: bool)
        ensures
            r == update_shown(
                old(self).verbosity,
                old(self).last_report_ms,
                old(self).min_interval_ms,
                now_ms,
            ),
            final(self).verbosity == old(self).verbosity,
            final(self).original_size == old(self).original_size,
            final(self).min_interval_ms == old(self).min_interval_ms,
            final(self).last_report_ms == if r {
                Some(now_ms)
            } else {
                old(self).last_report_ms
            },
    {
        let shown = match self.verbosity {
            Verbosity::Quiet => false,
            Verbosity::Verbose => true,
            Verbosity::Normal => match self.last_report_ms {
                None => true,
                Some(t) => now_ms < t || now_ms - t >= self.min_interval_ms,
            },
        };
        if shown {
            self.last_report_ms = Some(now_ms);
        }
        shown
    }

    /// The line shown for a tested candidate: only in verbose mode,
    /// `  <transform> [<start>-<end>]: INTERESTING` or `... skip`.
    pub fn candidate_line(&self, transform_name: &str, start: usize, end: usize, accepted: bool) -> (r: Option<String>)
        ensures
            self.verbosity != Verbosity::Verbose ==> r is None,
            self.verbosity == Verbosity::Verbose ==> (r matches Some(line) && line@ == "  "@
                + transform_name@ + " ["@ + decimal(start as nat) + "-"@ + decimal(end as nat)
                + "]: "@ + if accepted {
                "INTERESTING"@
            } else {
                "skip"@
            }),
    {
        if self.verbosity != Verbosity::Verbose {
            return None;
        }
        let mut line = String::new();
        line.append("  ");
        line.append(transform_name);
        line.append(" [");
        push_decimal(&mut line, start);
        line.append("-");
        push_decimal(&mut line, end);
        line.append("]: ");
        if accepted {
            line.append("INTERESTING");
        } else {
            line.append("skip");
        }
        Some(line)
    }

    /// The line shown for a warning: in every mode but quiet,
    /// `bonsai: warning: <msg>`.
    pub fn warning_line(&self, msg: &str) -> (r: Option<String>)
        ensures
            self.verbosity == Verbosity::Quiet ==> r is None,
            self.verbosity != Verbosity::Quiet ==> (r matches Some(line) && line@
                == "bonsai: warning: "@ + msg@),
    {
        if self.verbosity == Verbosity::Quiet {
            return None;
        }
        let mut line = String::new();
        line.append("bonsai: warning: ");
        line.append(msg);
        Some(line)
    }
}

} // verus!
