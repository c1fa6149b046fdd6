//! Verified core of a task-management middleware over Taskchampion.

pub mod tag;
pub mod text;
pub mod models;
pub mod order;
pub mod select;
pub mod handlers;
