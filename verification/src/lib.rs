//! Status tracking for local Codex sessions and account quotas: the models of
//! sessions, quotas and settings, the rules that turn log records and service
//! replies into those models, and the alerts that changes to them raise.
use vstd::prelude::*;

pub mod text;
pub mod status;
pub mod alerts;
pub mod settings;
pub mod platform;
pub mod json;
pub mod sources;
pub mod records;
pub mod rpc;
pub mod config;
pub mod executable;
pub mod cursor;
pub mod keyed;
pub mod local;
pub mod order;
pub mod paths;

verus! {

} // verus!
