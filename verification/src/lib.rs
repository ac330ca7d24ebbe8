//! Fabricates a synthetic commit history: given an inclusive calendar date
//! range and a schedule configuration, it decides for every day whether to
//! skip it (weekend filter), whether to include it at all (probability gate),
//! and how many commits to place on it, then emits one ordered commit request
//! per planned commit. The caller hands each request to a commit sink (the
//! version-control command) one at a time.

pub mod config;
pub mod date;
pub mod parse;
pub mod random;
pub mod schedule;
