//! `subprocess`: cross-platform subprocess management — the verified core.
//!
//! This crate holds the pure logic: the error taxonomy, argv quoting and
//! splitting (POSIX and Windows), a command's argument model and what it
//! launches, descriptor wiring rules, `/proc` parsing and process identity,
//! cgroup file parsing, the identity-aware tree-walk filter, containment
//! decisions, deadlines, and the shutdown machine for foreign processes.
//! Operating-system effects live in the companion application crate.

pub mod error;
pub mod quote;
pub mod text;
pub mod identity;
pub mod stdio;
pub mod containment;
pub mod wait;
pub mod process;
pub mod command;
pub mod child;
pub use stdio::Fd;
