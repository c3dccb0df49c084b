//! The commands of the package manager.
pub mod update;
