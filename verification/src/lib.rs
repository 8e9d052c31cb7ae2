//! Core logic of a TCP-level reverse-proxy load balancer, together with
//! the data structures and algorithms of the surrounding tooling.
//!
//! The load-balancing core: upstream health tracking ([`health`]), probe
//! verdicts ([`probe`]), upstream selection with failover ([`select`]),
//! per-client rate limiting ([`limiter`]), the per-connection session state
//! machine ([`session`]), and the lock-guarded shared form of the tables
//! ([`shared`]).
//!
//! The tooling: a debugger command parser ([`commands`]) with breakpoint
//! bookkeeping ([`breakpoints`]), a line-diff engine ([`diff`]), word
//! counting ([`wordcount`]), a linked list ([`list`]), reassembly of
//! scattered parallel results ([`parmap`]) and small vector exercises
//! ([`warmup`]).

pub mod breakpoints;
pub mod commands;
pub mod diff;
pub mod health;
pub mod limiter;
pub mod list;
pub mod parmap;
pub mod probe;
pub mod select;
pub mod session;
pub mod shared;
pub mod warmup;
pub mod wordcount;
