//! The life of a workspace: which step may follow which, and what a failed
//! step leaves behind.

use vstd::prelude::*;
use crate::error::Error;

verus! {

/// How far a workspace has come.
#[derive(Clone, Copy, Debug, PartialEq, Eq, Structural)]
pub enum Stage {
    /// Nothing exists yet.
    Empty,
    /// The directory exists.
    Allocated,
    /// Both links exist.
    Linked,
    /// The archive is complete.
    Archived,
    /// The archive was uploaded.
    Submitted,
}

/// A step from one stage to the next.
#[derive(Clone, Copy, Debug, PartialEq, Eq, Structural)]
pub enum Step {
    /// Make the directory.
    Allocate,
    /// Make the two links.
    Link,
    /// Make the archive and wait for it.
    Archive,
    /// Upload the archive.
    Submit,
}

/// How a step ended.
#[derive(Clone, Copy, Debug, PartialEq, Eq, Structural)]
pub enum Report {
    /// The operation returned without error.
    Done,
    /// The operation returned an error, or the process could not be started
    /// or waited for.
    Failed,
    /// The process ran and exited with this status.
    Exited(i32),
}

impl Report {
    /// The step did what it was for: the operation returned without error,
    /// or the process exited with status 0.
    pub open spec fn went_well(self) -> bool {
        self == Report::Done || self == Report::Exited(0)
    }
}

impl Step {
    /// The error that a failure of this step is reported as.
    pub open spec fn failure(self) -> Error {
        match self {
            Step::Allocate => Error::Io,
            Step::Link => Error::Io,
            Step::Archive => Error::Archive,
            Step::Submit => Error::Submission,
        }
    }
}

impl Stage {
    /// The number of steps that lie behind this stage.
    pub open spec fn rank(self) -> int {
        match self {
            Stage::Empty => 0,
            Stage::Allocated => 1,
            Stage::Linked => 2,
            Stage::Archived => 3,
            Stage::Submitted => 4,
        }
    }

    /// The one step that may be taken in this stage; none after the last.
    pub open spec fn due(self) -> Option<Step> {
        match self {
            Stage::Empty => Some(Step::Allocate),
            Stage::Allocated => Some(Step::Link),
            Stage::Linked => Some(Step::Archive),
            Stage::Archived => Some(Step::Submit),
            Stage::Submitted => None,
        }
    }

    /// The stage that follows this one; the last stage stays.
    pub open spec fn successor(self) -> Stage {
        match self {
            Stage::Empty => Stage::Allocated,
            Stage::Allocated => Stage::Linked,
            Stage::Linked => Stage::Archived,
            Stage::Archived => Stage::Submitted,
            Stage::Submitted => Stage::Submitted,
        }
    }

    /// The step to take next in a run: the step that is due, but no
    /// submission where the run only prepares the workspace.
    pub fn next(self, prepare: bool) -> (step: Option<Step>)
        ensures
            step == if prepare && self == Stage::Archived {
                None
            } else {
                self.due()
            },
    {
        match self {
            Stage::Empty => Some(Step::Allocate),
            Stage::Allocated => Some(Step::Link),
            Stage::Linked => Some(Step::Archive),
            Stage::Archived => if prepare {
                None
            } else {
                Some(Step::Submit)
            },
            Stage::Submitted => None,
        }
    }

    /// Records how `step` ended. A step that is not due in this stage is a
    /// state error. A step that failed is reported with its own error. In
    /// both cases the stage stays as it was. A step that went well leads to
    /// the next stage, and to no other.
    pub fn record(&mut self, step: Step, report: Report) -> (done: Result<(), Error>)
        ensures
            done is Ok <==> old(self).due() == Some(step) && report.went_well(),
            done is Ok ==> *final(self) == old(self).successor() && final(self).rank() == old(
                self,
            ).rank() + 1,
            done is Err ==> *final(self) == *old(self),
            done matches Err(e) ==> e == if old(self).due() == Some(step) {
                step.failure()
            } else {
                Error::State
            },
    {
        let due = match (*self, step) {
            (Stage::Empty, Step::Allocate) => true,
            (Stage::Allocated, Step::Link) => true,
            (Stage::Linked, Step::Archive) => true,
            (Stage::Archived, Step::Submit) => true,
            _ => false,
        };
        if !due {
            return Err(Error::State);
        }
        let well = match report {
            Report::Done => true,
            Report::Exited(status) => status == 0,
            Report::Failed => false,
        };
        if !well {
            return Err(
                match step {
                    Step::Allocate => Error::Io,
                    Step::Link => Error::Io,
                    Step::Archive => Error::Archive,
                    Step::Submit => Error::Submission,
                },
            );
        }
        *self = match *self {
            Stage::Empty => Stage::Allocated,
            Stage::Allocated => Stage::Linked,
            Stage::Linked => Stage::Archived,
            Stage::Archived => Stage::Submitted,
            Stage::Submitted => Stage::Submitted,
        };
        Ok(())
    }
}

} // verus!
