//! The ways in which an operation on a workspace or on the remotes fails.

use vstd::prelude::*;

verus! {

/// What is wrong with the remotes of a configuration.
#[derive(Clone, Copy, Debug, PartialEq, Eq, Structural)]
pub enum ConfigFault {
    /// No remote carries the name.
    Undefined,
    /// More than one remote carries the name.
    Duplicate,
}

/// Why an operation failed.
#[derive(Clone, Copy, Debug, PartialEq, Eq, Structural)]
pub enum Error {
    /// The staging directory or a link could not be read or written.
    Io,
    /// A path is not normalized, or the tracked file does not lie under the
    /// reference directory.
    Path,
    /// The archiving tool could not be started or reported a failure.
    Archive,
    /// The upload could not be made or the remote refused it.
    Submission,
    /// The remotes do not answer the question asked of them.
    Config(ConfigFault),
    /// The workspace has not reached the stage that the operation needs.
    State,
}

} // verus!
