//! Core library of an AI assistant: skill files with YAML-style frontmatter,
//! the skill catalogue built from them, and the decisions of the agent loop.
use vstd::prelude::*;

pub mod agent;
pub mod cli;
pub mod frontmatter;
pub mod intent;
pub mod restart;
pub mod rounds;
pub mod skills;
pub mod text;

verus! {

} // verus!
