//! Core of a keyboard-driven dashboard over organizations, repositories and
//! pull requests: a deterministic state reducer, a navigation-tree builder,
//! search and glob filtering, inbox merging, a TTL cache's bookkeeping, and
//! relative-time formatting. All observable behaviour is stated in contracts.

pub mod models;
pub mod strutil;
pub mod decimal;
pub mod search;
pub mod orgs;
pub mod sequtil;
pub mod navtree;
pub mod state;
pub mod queries;
pub mod actions;
pub mod update;
pub mod clock;
pub mod scheduler;
pub mod inbox;
pub mod cache;
pub mod timefmt;
pub mod config;
pub mod input;
pub mod globpat;
