//! Core of a system monitor: kernel counter parsers, a rate engine, rolling
//! metric histories, a process catalog and query layer, and the rule that
//! authorizes signals.

pub mod text;
pub mod procfs;
pub mod users;
pub mod delta;
pub mod ring_buffer;
pub mod models;
pub mod collector;
pub mod catalog;
pub mod processes;
pub mod cache;
pub mod signal;
pub mod errors;
pub mod app_state;
pub mod commands;
