//! A line search tool's library: reading the search from its arguments,
//! deciding which lines match a literal pattern (optionally ignoring case),
//! and the numbered record printed for each match.
use vstd::prelude::*;

pub mod config;
pub mod scan;
pub mod text;

verus! {

} // verus!
