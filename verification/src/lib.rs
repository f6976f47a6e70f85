//! Job workspaces of a submission client: how a workspace is named and laid
//! out, how it is found again and attributed to its owner, and how archiving
//! and submission are sequenced against it.
//!
//! The library works on plain values. Whoever calls it reads the staging
//! directory, resolves links and runs processes, and hands over what came of
//! it.
//!
//! - `path`: normalized paths and their texts.
//! - `layout`: the name and the layout of a new workspace.
//! - `job`: a workspace as it stands, its links, its upload and its label.
//! - `registry`: the workspaces of a user, their order, and those of a
//!   directory.
//! - `stage`: the steps in the life of a workspace.
//! - `remote`: the named remotes that uploads go to.
//! - `laws`: what holds of every workspace.
//! - `host`: the calls into the host that the rest takes on trust.

pub mod error;
pub mod host;
pub mod job;
pub mod laws;
pub mod layout;
pub mod path;
pub mod registry;
pub mod remote;
pub mod seqs;
pub mod stage;
pub mod text;
