//! Verified core of spf, a small package format and its package manager.
use vstd::prelude::*;

pub mod cli;
pub mod convert;
pub mod inspect;
pub mod install;
pub mod list;
pub mod io_error;
pub mod metadata;
pub mod package;
pub mod paths;
pub mod remove;
pub mod sys;
pub mod template;
pub mod text;

verus! {

/// The version of spf that writes the packages.
pub const VERSION: &'static str = "v0.5.1";

} // verus!
