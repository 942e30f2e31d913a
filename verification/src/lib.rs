//! A terminal countdown-timer tool: duration and command parsing, the timer
//! state machine, the application state and its reconciliation with an
//! external task list, all verified with Verus.

pub mod alert;
pub mod app;
pub mod cli;
pub mod command;
pub mod config;
pub mod duration;
pub mod task_integration;
pub mod store;
pub mod task_state;
pub mod text;
pub mod timer;
