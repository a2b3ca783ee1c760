//! Plain data models of the shell: windows, workspaces and their labels.

pub mod model;
pub mod workspace;
