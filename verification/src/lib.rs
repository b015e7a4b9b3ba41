//! Short numeric slots for anything that can be listed: the verified core of
//! `ix` (selection parsing, index building, item formatting and providers'
//! item construction).

pub mod assoc;
pub mod cli;
pub mod display;
pub mod docker;
pub mod env;
pub mod error;
pub mod files;
pub mod git;
pub mod glob;
pub mod grouping;
pub mod index;
pub mod item;
pub mod lines;
pub mod order;
pub mod paths;
pub mod quoting;
pub mod picker;
pub mod port;
pub mod provider;
pub mod selection;
pub mod ssh;
pub mod sys;
pub mod text;
pub mod theme;

use vstd::prelude::*;

verus! {

} // verus!
