//! A small debugger engine built on process tracing: software breakpoints
//! patched into a traced child one machine word at a time, a breakpoint
//! table resolved against a symbol index, and the session that drives
//! them.
//!
//! Beside the debugger the crate holds a few smaller things that stand on
//! their own: a linked list, a line diff, word counts, the rules of hangman,
//! the bookkeeping of a map shared by several workers, and the decisions of
//! a load balancer.

pub mod balancer;
pub mod breakpoints;
mod chance;
pub mod command;
pub mod debugger;
pub mod diff;
pub mod error;
pub mod hangman;
pub mod inferior;
pub mod linked_list;
pub mod location;
pub mod parallel;
pub mod status;
pub mod symbols;
mod trace;
pub mod warmup;
pub mod word;
pub mod wordcount;
