//! How a run goes on, and how it ends, when a source fails.
//!
//! The sources of a run are taken one after the other. A reader that has
//! gone away is no failure: the run stops at once, writes nothing more and
//! ends well. Any other failure ends the run as a failure, after the
//! terminal has been put in order as far as that is still possible; what
//! fails on the way there changes nothing of how the run ends.

use vstd::prelude::*;

verus! {

/// What reading or writing has failed with.
#[derive(Clone, Copy, PartialEq, Eq, Structural, Debug)]
pub enum Failure {
    /// The reader of the output has gone away.
    BrokenPipe,
    /// Any other failure of input or output.
    Io,
}

/// How a run has ended.
#[derive(Clone, Copy, PartialEq, Eq, Structural, Debug)]
pub enum RunStatus {
    /// All sources were read to their end.
    Success,
    /// A source could not be opened, which has been reported.
    Reported,
    /// The reader of the output has gone away.
    BrokenPipe,
    /// Input or output has failed, which is still to be reported.
    Io,
}

/// What is to be done next in a run.
#[derive(Clone, Copy, PartialEq, Eq, Structural, Debug)]
pub enum Step {
    /// Go on with the next source.
    Continue,
    /// Put the terminal in order, whether that works or not, and end the
    /// run with this status.
    CleanUp(RunStatus),
    /// End the run with this status, and write nothing more.
    End(RunStatus),
}

/// What is to be done when a source has been dealt with: the next source
/// follows a source that was read to its end, a reader that has gone away
/// ends the run at once, and any other failure ends it behind a clean-up.
pub open spec fn next_step(result: Result<(), Failure>) -> Step {
    match result {
        Ok(()) => Step::Continue,
        Err(Failure::BrokenPipe) => Step::End(RunStatus::BrokenPipe),
        Err(Failure::Io) => Step::CleanUp(RunStatus::Io),
    }
}

/// How a run ends whose sources have all been read: well if the terminal
/// was put in order, and as the failure says if it was not.
pub open spec fn final_status(result: Result<(), Failure>) -> RunStatus {
    match result {
        Ok(()) => RunStatus::Success,
        Err(Failure::BrokenPipe) => RunStatus::BrokenPipe,
        Err(Failure::Io) => RunStatus::Io,
    }
}

/// The failure that an error of input or output is, from whether it says
/// that the reader has gone away.
pub fn classify(broken_pipe: bool) -> (failure: Failure)
    ensures
        failure == if broken_pipe {
            Failure::BrokenPipe
        } else {
            Failure::Io
        },
{
    if broken_pipe {
        Failure::BrokenPipe
    } else {
        Failure::Io
    }
}

/// What is to be done when a source could not be opened: the terminal is
/// put in order and the run ends, with the sources behind it unread.
pub fn after_open_failure() -> (step: Step)
    ensures
        step == Step::CleanUp(RunStatus::Reported),
{
    Step::CleanUp(RunStatus::Reported)
}

/// What is to be done when a source has been dealt with.
pub fn after_source(result: Result<(), Failure>) -> (step: Step)
    ensures
        step == next_step(result),
{
    match result {
        Ok(()) => Step::Continue,
        Err(Failure::BrokenPipe) => Step::End(RunStatus::BrokenPipe),
        Err(Failure::Io) => Step::CleanUp(RunStatus::Io),
    }
}

/// How a run ends whose sources have all been read, from what became of
/// putting the terminal in order.
pub fn after_finalize(result: Result<(), Failure>) -> (status: RunStatus)
    ensures
        status == final_status(result),
{
    match result {
        Ok(()) => RunStatus::Success,
        Err(Failure::BrokenPipe) => RunStatus::BrokenPipe,
        Err(Failure::Io) => RunStatus::Io,
    }
}

/// The exit code of the program: 0 for a run that ended well, and a reader
/// that has gone away is such an end; 1 for any failure.
pub open spec fn exit_code_of(status: RunStatus) -> i32 {
    match status {
        RunStatus::Success => 0,
        RunStatus::Reported => 1,
        RunStatus::BrokenPipe => 0,
        RunStatus::Io => 1,
    }
}

/// The exit code of a run that has ended with `status`.
pub fn exit_code(status: RunStatus) -> (code: i32)
    ensures
        code == exit_code_of(status),
{
    match status {
        RunStatus::Success => 0,
        RunStatus::Reported => 1,
        RunStatus::BrokenPipe => 0,
        RunStatus::Io => 1,
    }
}

/// A reader that goes away ends the run well, wherever it happens: while a
/// source is dealt with or at the very end, the exit code is 0.
pub proof fn lemma_broken_pipe_ends_well()
    ensures
        next_step(Err(Failure::BrokenPipe)) matches Step::End(status) && exit_code_of(status)
            == 0,
        exit_code_of(final_status(Err(Failure::BrokenPipe))) == 0,
{
}

} // verus!
