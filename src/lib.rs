//! Scriptable task scheduler: script tasks registered with an embedded Lua
//! interpreter and driven on cron schedules without overlap, native host
//! functions reachable from scripts, and a shared scope of host
//! capabilities. Also the decisions of the AI worker's generation and
//! function-calling loops, and the query language of the analytical store.

pub mod error;
pub mod function_call;
pub mod generation;
pub mod query;
pub mod schedule;
pub mod scope;
pub mod tasks;
pub mod text;
