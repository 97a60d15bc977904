//! A single-user task tracker: tasks with a priority and an optional due
//! time, kept sorted by priority, with a textual persistence format and the
//! decisions of an interactive command loop.

pub mod codec;
pub mod command;
pub mod datetime;
pub mod json;
pub mod manager;
pub mod priority;
pub mod task;
