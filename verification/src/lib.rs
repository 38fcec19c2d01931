//! tasky: the domain core of a desktop task manager (tasks, projects, tags,
//! recurrence, quick-add parsing, an in-memory repository and the Markdown
//! export), with its behaviour stated in contracts and proved by Verus.

pub mod actions;
pub mod config;
pub mod date;
pub mod domain;
pub mod gitlink;
pub mod icon;
pub mod panels;
pub mod store;
pub mod sync;
pub mod text;
pub mod update;
pub mod views;
