//! What holds of the framework as a whole, for all inputs.
//!
//! Each law speaks of what goes in and what comes out: of results and errors one by one, of the
//! fields of a scope, of the scopes around it. None of them rests on how an answer is computed.

pub mod building;
pub mod closings;
pub mod errors;
pub mod events;
pub mod hashes;
pub mod lives;
pub mod names;
pub mod notices;
pub(crate) mod numbers;
pub mod schedules;
pub mod scopes;
pub mod services;
pub mod starting;
pub mod stopping;
pub mod tasks;
pub mod texts;
pub mod waiting;
