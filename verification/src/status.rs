//! Command statuses: what running one command reports back.

use vstd::prelude::*;

verus! {

/// The outcome of one dispatched command, as the dispatcher records it.
#[derive(Clone, Copy, PartialEq, Eq, Structural, Debug)]
pub struct CommandStatus {
    /// The exit code, when the process exited normally.
    pub code: Option<i32>,
    /// Did the command succeed?
    pub success: bool,
    /// The signal that terminated the process, if one did.
    pub signal: Option<i32>,
    /// Did the process dump core?
    pub core_dumped: bool,
}

/// The status every builtin reports on success.
pub open spec fn success_status() -> CommandStatus {
    CommandStatus { code: Option::Some(0i32), success: true, signal: Option::None, core_dumped: false }
}

/// The status every builtin reports on failure.
pub open spec fn failure_status() -> CommandStatus {
    CommandStatus { code: Option::Some(1i32), success: false, signal: Option::None, core_dumped: false }
}

impl CommandStatus {
    /// The status every builtin reports on success.
    pub fn report_success() -> (r: CommandStatus)
        ensures
            r == success_status(),
    {
        CommandStatus { code: Some(0), success: true, signal: None, core_dumped: false }
    }

    /// The status every builtin reports on failure.
    pub fn report_failure() -> (r: CommandStatus)
        ensures
            r == failure_status(),
    {
        CommandStatus { code: Some(1), success: false, signal: None, core_dumped: false }
    }
}

/// Everything an external run hands back to the interpreter: the status
/// and, when capture was asked for, the two output streams as text.
#[derive(Debug, Clone)]
pub struct CommandOutcome {
    /// The process status.
    pub status: CommandStatus,
    /// Captured standard output.
    pub stdout: String,
    /// Captured standard error.
    pub stderr: String,
}

/// The mathematical form of a `CommandOutcome`.
pub struct GOutcome {
    /// The process status.
    pub status: CommandStatus,
    /// Captured standard output.
    pub stdout: Seq<char>,
    /// Captured standard error.
    pub stderr: Seq<char>,
}

impl View for CommandOutcome {
    type V = GOutcome;

    open spec fn view(&self) -> GOutcome {
        GOutcome { status: self.status, stdout: self.stdout@, stderr: self.stderr@ }
    }
}

impl DeepView for CommandOutcome {
    type V = GOutcome;

    open spec fn deep_view(&self) -> GOutcome {
        self.view()
    }
}

} // verus!
