//! Interestingness tests: the oracle that decides whether a candidate input
//! still shows the behaviour being reduced for.
use vstd::prelude::*;

verus! {

/// Result of an interestingness test.
#[derive(Debug, Clone, PartialEq, Eq)]
pub enum TestResult {
    /// The input does not satisfy the interestingness criterion.
    NotInteresting,
    /// The input satisfies the interestingness criterion.
    Interesting,
    /// The test infrastructure failed (could not spawn a process, write a
    /// temporary file, ...).
    Error(String),
}

/// Decides whether a candidate input is "interesting" (for example, still
/// triggers a bug after reduction). Implemented by users of the library.
pub trait InterestingnessTest {
    /// The test may answer `r` on an input with the bytes `input`. A test
    /// that says nothing of its answers admits every answer.
    open spec fn answers(&self, input: Seq<u8>, r: TestResult) -> bool {
        true
    }

    /// Run the test on `input`.
    fn test(&self, input: &[u8]) -> (r: TestResult)
        ensures
            self.answers(input@, r),
    ;
}

/// Shell-command interestingness test: the input is written to a temporary
/// file, the command runs with the file's path as its last argument (no
/// shell interpolation), and exit code 0 means interesting.
pub struct ShellTest {
    /// Command and arguments; the temporary file's path is appended.
    command: Vec<String>,
    /// Maximum time the command is allowed to run.
    timeout: std::time::Duration,
}

/// How a run of the test command ended.
pub enum CommandOutcome {
    /// The command exited; `success` when its exit status was 0.
    Exited { success: bool },
    /// The command ran past the timeout and was killed.
    TimedOut,
    /// The command could not be run: the message says why.
    Failed(String),
}

impl ShellTest {
    /// The command of the test.
    pub closed spec fn command_view(&self) -> Seq<String> {
        self.command@
    }

    /// The per-run time limit of the test.
    pub closed spec fn timeout_view(&self) -> std::time::Duration {
        self.timeout
    }

    /// A test running `command`; an empty command is rejected.
    pub fn new(command: Vec<String>, timeout: std::time::Duration) -> (r: Result<Self, String>)
        ensures
            command@.len() == 0 <==> r is Err,
            r matches Ok(t) ==> t.command_view() == command@ && t.timeout_view() == timeout,
            r matches Err(m) ==> m@ == "test command cannot be empty"@,
    {
        if command.len() == 0 {
            return Err(String::from_str("test command cannot be empty"));
        }
        Ok(ShellTest { command, timeout })
    }

    /// The per-run time limit.
    pub fn timeout(&self) -> (r: std::time::Duration)
        ensures
            r == self.timeout_view(),
    {
        self.timeout
    }

    /// The program to run and its arguments, for an input stored at
    /// `input_path`: the command's words, then the path.
    pub fn invocation(&self, input_path: &str) -> (r: (String, Vec<String>))
        requires
            self.command_view().len() > 0,
        ensures
            r.0 == self.command_view()[0],
            r.1@ == self.command_view().drop_first().push(r.1@.last()),
            r.1@.last()@ == input_path@,
    {
        let program = self.command[0].clone();
        let mut args: Vec<String> = Vec::new();
        let mut i: usize = 1;
        while i < self.command.len()
            invariant
                1 <= i <= self.command@.len(),
                args@ == self.command@.subrange(1, i as int),
            decreases self.command@.len() - i,
        {
            args.push(self.command[i].clone());
            i = i + 1;
            assert(args@ =~= self.command@.subrange(1, i as int));
        }
        args.push(String::from_str(input_path));
        assert(self.command@.subrange(1, self.command@.len() as int) =~= self.command@.drop_first());
        (program, args)
    }

    /// The test's verdict on a run: exit status 0 is interesting, any other
    /// exit or a timeout is not, and a run that could not happen is an error.
    pub fn verdict(outcome: CommandOutcome) -> (r: TestResult)
        ensures
            match outcome {
                CommandOutcome::Exited { success } => r == if success {
                    TestResult::Interesting
                } else {
                    TestResult::NotInteresting
                },
                CommandOutcome::TimedOut => r == TestResult::NotInteresting,
                CommandOutcome::Failed(m) => r == TestResult::Error(m),
            },
    {
        match outcome {
            CommandOutcome::Exited { success } => if success {
                TestResult::Interesting
            } else {
                TestResult::NotInteresting
            },
            CommandOutcome::TimedOut => TestResult::NotInteresting,
            CommandOutcome::Failed(m) => TestResult::Error(m),
        }
    }
}

} // verus!
