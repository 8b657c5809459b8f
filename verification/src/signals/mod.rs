//! What the service reads of the machine: logs, events, state, and the user's screen.

pub mod discovery;
pub mod event_log;
pub mod feed;
pub mod file_watch;
pub mod journal;
pub mod log_memory;
pub mod log_parser;
pub mod profile;
pub mod screen;
pub mod wmi;
