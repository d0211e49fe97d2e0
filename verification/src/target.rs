//! The fuzz target: a program run on generated inputs.
//!
//! Running the program is I/O; this module holds the target's settings, the
//! choice of input mode, and the exact invocation for an input: which
//! program, which arguments, and whether the input goes to stdin.
use vstd::prelude::*;

use crate::text::{occurs_in, replace_all, replaced, str_contains};

verus! {

/// How to pass generated input to the target program.
#[derive(Debug, Clone)]
pub enum InputMode {
    /// Pipe input to the target's stdin (default when `@@` is not in the command).
    Stdin,
    /// Write input to a temp file, pass its path as the last argument.
    TempFile,
    /// Replace `@@` in the command with the temp file path.
    ArgReplace(String),
}

/// Configuration for a fuzz target program.
#[derive(Debug)]
pub struct FuzzTarget {
    /// Command and arguments; run without shell interpolation.
    pub command: Vec<String>,
    /// How to pass input to the target.
    pub input_mode: InputMode,
    /// Maximum time the target is allowed to run per execution.
    pub timeout: std::time::Duration,
}

impl Clone for FuzzTarget {
    fn clone(&self) -> (r: Self)
        ensures
            r.command@ == self.command@,
            r.timeout == self.timeout,
    {
        FuzzTarget {
            command: crate::config::copy_strings(&self.command),
            input_mode: self.input_mode.clone(),
            timeout: self.timeout,
        }
    }
}

/// Result of running the target on an input.
pub struct TargetResult {
    pub exit_code: Option<i32>,
    pub stderr: Vec<u8>,
    pub timed_out: bool,
    /// The signal that killed the target, where the platform has signals.
    pub signal: Option<i32>,
}

/// Error from running the target (an infrastructure failure, not a test result).
#[derive(Debug)]
pub struct TargetError {
    pub message: String,
}

/// A resolved run of the target: the program, its arguments, and whether
/// the input is piped to its stdin (otherwise it is read from the file).
pub struct Invocation {
    pub program: String,
    pub args: Vec<String>,
    pub stdin_input: bool,
}

/// The placeholder that stands for the input file's path.
pub open spec fn placeholder() -> Seq<char> {
    seq!['@', '@']
}

/// Some word of the command holds the placeholder.
pub open spec fn mentions_placeholder(command: Seq<String>) -> bool {
    exists|i: int| 0 <= i < command.len() && occurs_in(command[i]@, placeholder())
}

/// The arguments after the program, as text.
pub open spec fn tail_texts(command: Seq<String>) -> Seq<Seq<char>> {
    command.drop_first().map_values(|a: String| a@)
}

/// The arguments for one run with the input file at `path`.
pub open spec fn resolved_args(command: Seq<String>, mode: InputMode, path: Seq<char>) -> Seq<
    Seq<char>,
> {
    match mode {
        InputMode::Stdin => tail_texts(command),
        InputMode::TempFile => tail_texts(command).push(path),
        InputMode::ArgReplace(_) => tail_texts(command).map_values(
            |a: Seq<char>| replaced(a, placeholder(), path),
        ),
    }
}

/// The placeholder as a string.
fn placeholder_str() -> (r: &'static str)
    ensures
        r@ == placeholder(),
{
    proof {
        reveal_strlit("@@");
    }
    "@@"
}

impl FuzzTarget {
    /// Create a new target, choosing the input mode: if any word of the
    /// command contains `@@`, `ArgReplace("@@")`; otherwise `Stdin`.
    pub fn new(command: Vec<String>, timeout: std::time::Duration) -> (r: Self)
        ensures
            r.command@ == command@,
            r.timeout == timeout,
            mentions_placeholder(command@) ==> (r.input_mode matches InputMode::ArgReplace(p) && p@
                == placeholder()),
            !mentions_placeholder(command@) ==> r.input_mode is Stdin,
    {
        let mut found = false;
        let mut i: usize = 0;
        while i < command.len()
            invariant
                i <= command@.len(),
                found <==> exists|k: int| 0 <= k < i && occurs_in(command@[k]@, placeholder()),
            decreases command@.len() - i,
        {
            if str_contains(command[i].as_str(), placeholder_str()) {
                found = true;
            }
            i = i + 1;
        }
        let input_mode = if found {
            InputMode::ArgReplace(String::from_str(placeholder_str()))
        } else {
            InputMode::Stdin
        };
        FuzzTarget { command, input_mode, timeout }
    }

    /// Create with an explicit input mode.
    pub fn with_input_mode(command: Vec<String>, input_mode: InputMode, timeout: std::time::Duration) -> (r: Self)
        ensures
            r.command@ == command@,
            r.input_mode == input_mode,
            r.timeout == timeout,
    {
        FuzzTarget { command, input_mode, timeout }
    }

    /// Whether a run needs the input written to a file first.
    pub fn needs_file(&self) -> (r: bool)
        ensures
            r == !(self.input_mode is Stdin),
    {
        match self.input_mode {
            InputMode::Stdin => false,
            _ => true,
        }
    }

    /// The run for an input stored at `input_path` (unused in stdin mode):
    /// the first word of the command is the program; the rest are its
    /// arguments, with the path appended in temp-file mode and put in place
    /// of every `@@` in placeholder mode. An empty command is an error.
    pub fn invocation(&self, input_path: &str) -> (r: Result<Invocation, TargetError>)
        ensures
            self.command@.len() == 0 <==> r is Err,
            r matches Err(e) ==> e.message@ == "command is empty"@,
            r matches Ok(inv) ==> {
                &&& inv.program == self.command@[0]
                &&& inv.args@.map_values(|a: String| a@) == resolved_args(
                    self.command@,
                    self.input_mode,
                    input_path@,
                )
                &&& inv.stdin_input == self.input_mode is Stdin
            },
    {
        if self.command.len() == 0 {
            return Err(TargetError { message: String::from_str("command is empty") });
        }
        let program = self.command[0].clone();
        let ghost want = resolved_args(self.command@, self.input_mode, input_path@);
        let ghost tail = tail_texts(self.command@);
        let mut args: Vec<String> = Vec::new();
        let mut i: usize = 1;
        while i < self.command.len()
            invariant
                1 <= i <= self.command@.len(),
                tail == tail_texts(self.command@),
                tail.len() == self.command@.len() - 1,
                args@.len() == i - 1,
                forall|k: int|
                    0 <= k < i - 1 ==> #[trigger] args@[k]@ == match self.input_mode {
                        InputMode::ArgReplace(_) => replaced(tail[k], placeholder(), input_path@),
                        _ => tail[k],
                    },
            decreases self.command@.len() - i,
        {
            let a = match self.input_mode {
                InputMode::ArgReplace(_) => replace_all(
                    self.command[i].as_str(),
                    placeholder_str(),
                    input_path,
                ),
                _ => self.command[i].clone(),
            };
            args.push(a);
            i = i + 1;
        }
        let stdin_input = match self.input_mode {
            InputMode::Stdin => true,
            InputMode::TempFile => {
                args.push(String::from_str(input_path));
                false
            },
            InputMode::ArgReplace(_) => false,
        };
        assert(args@.map_values(|a: String| a@) =~= want);
        Ok(Invocation { program, args, stdin_input })
    }
}

} // verus!
