//! Core of a small desktop application shell.
//!
//! Two components: a resolver that computes the project's root directory from
//! the build manifest's path by a purely lexical parent computation, and a
//! bootstrap model that fixes the order in which the capability plugins are
//! registered before the run loop starts.

pub mod bootstrap;
pub mod resolver;
