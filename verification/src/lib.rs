use vstd::prelude::*;

pub mod hooks;
pub mod text;
pub mod namemap;
pub mod config;
pub mod waves;
pub mod check;
pub mod document;
pub mod sync_hooks;
pub mod cache;
pub mod yaml;
pub mod migrate;
pub mod graph;
pub mod order;
pub mod state;
pub mod run;
pub mod completions;
pub mod logger;
pub mod init;
pub mod cli;

verus! {

} // verus!
