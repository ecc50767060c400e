//! Orchestration core of a bounded-concurrency file downloader: output path
//! resolution, transfer outcome rules, the retry state machine and the
//! admission scheduler.

pub mod resolve;
pub mod transfer;
pub mod naming;
pub mod retry;
pub mod schedule;
