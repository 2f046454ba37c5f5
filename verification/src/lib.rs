//! Builds `PATH`-like environment variable values from `paths.d` directories.
//!
//! A configuration root holds directories whose names match a pattern such as
//! `(?<env>.*?)paths.d$`. Each matched directory is one [`paths::Pathd`]
//! record: its text files are read in lexicographic filename order, their
//! lines are filtered and expanded, and the surviving lines are joined with
//! `:` into the value of one environment variable.

use vstd::prelude::*;

pub mod chars;
pub mod envmap;
pub mod expand;
pub mod lines;
pub mod paths;
pub mod pattern;

verus! {

/// The error a discovery call can raise on its own: the matching pattern
/// does not compile. Failures to read the filesystem stay with the caller
/// that performs the reads.
#[derive(Debug)]
pub enum PathError {
    RegexCompile(String),
}

} // verus!
