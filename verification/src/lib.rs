//! Persistence core of a personal productivity application: notes, tasks,
//! projects, tags and pomodoro sessions, kept in an in-memory relational
//! store with verified operations, plus a parameterized partial-update
//! statement builder for the SQL persistence layer around it.

pub mod models;
pub mod store;
mod sys;
pub mod patch;
pub mod order;
pub mod notes;
pub mod tasks;
pub mod projects;
pub mod tags;
pub mod pomodoro;
pub mod laws;

