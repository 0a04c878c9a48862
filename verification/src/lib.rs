//! A plugin framework in three parts: a [`builder`] assembles a scope, a [`context`] looks things up
//! in it, and a [`runtime`] owns its life.
//!
//! Nothing in this crate waits. What takes time is taken step by step: a step says what is to be
//! done next, and is told what came of it. A host drives the steps, with whatever runs its
//! asynchronous code.

pub mod builder;
pub mod closing;
pub mod closing_history;
pub mod context;
pub mod error;
pub mod event;
pub mod hash;
pub mod id;
pub mod laws;
pub mod notify;
pub mod outlet;
pub mod plugin;
pub mod registry;
pub mod runtime;
pub mod schedule;
pub mod scope;
pub mod service;
pub mod tasks;
pub mod text;
pub mod waiters;
