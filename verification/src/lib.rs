//! The decision core of the Eir machine-care service: what it reads from a machine's
//! signals, which fixes it may run, and what it tells its users.

pub mod clock;
pub mod commands;
pub mod copied;
pub mod cycle;
pub mod execution;
pub mod json;
pub mod keyed;
pub mod metric;
pub mod models;
pub mod notify;
pub mod paths;
pub mod pipe_server;
pub mod policy;
pub mod portable;
pub mod prefs;
pub mod proto;
pub mod routing;
pub mod safety;
pub mod service_install;
pub mod session;
pub mod signals;
pub mod state;
pub mod text;
