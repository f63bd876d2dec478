use vstd::prelude::*;

pub mod text;
pub mod iso8601;
pub mod codec;
pub mod wake;
pub mod kvmap;
pub mod seqs;
pub mod consts;
pub mod errors;
pub mod core_types;
pub mod rpc;
pub mod store;
pub mod lifecycle;
pub mod footprint;
pub mod replies;
pub mod team_api;
pub mod gateway;
pub mod config;
pub mod cli;
pub mod commands;
pub mod packages;

verus! {
} // verus!
