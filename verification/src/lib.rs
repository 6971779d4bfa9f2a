//! A package manager that brings the installed packages in line with the
//! declared ones.
//!
//! Packages are declared in groups, one for each bridge: a plugin that
//! knows how to install, update and remove packages of one kind. This
//! library holds the decisions of the program: what a run has to do
//! (`reconcile`), how a bridge is called and its answer read (`bridge`,
//! `invoke`), and how the jobs of a run are carried out (`orchestrate`).
//! It never touches a file, a process or the environment. Where such work
//! is due, it says what is to be done and is told what came of it.
pub mod api;
pub mod bridge;
pub mod cmd;
pub mod config;
pub mod db;
pub mod document;
pub mod fs;
pub mod input;
pub mod invoke;
pub mod model;
pub mod orchestrate;
pub mod reconcile;
pub mod text;

pub use db::{Pkg, PkgType, Version as PkgVersion};
pub use input::Bridge;

use vstd::prelude::*;

verus! {

/// The name of the configuration file, without its extension.
pub const DEFAULT_CONFIG_FILE_NAME: &'static str = ".config";

/// The extension of the configuration file.
pub const DEFAULT_CONFIG_FILE_EXTENSION: &'static str = "kdl";

/// The directory in which each bridge has its log.
pub const DEFAULT_LOG_DIR: &'static str = "/var/log/pkg";

/// The directory below which bridges work.
pub const DEFAULT_WORKING_DIR: &'static str = "/var/tmp/pkg";

} // verus!
