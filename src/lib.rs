//! A desktop assistant's core: a recurring task scheduler (schedule policies,
//! a keyed task store with an atomic scan-and-advance of due tasks, a bounded
//! log of executions, prompt rendering), the registry of chat agents, and the
//! file categories and keyword ranking used when files are summarised.

pub mod agent;
pub mod category;
pub mod endpoints;
pub mod keywords;
pub mod prompt;
pub mod records;
pub mod schedule;
pub mod scheduler;
pub mod sessions;
pub mod summary;
pub mod task;
pub mod text_stats;
