//! Windows App Blocker: closes selected apps during scheduled hours.
//!
//! This crate holds the rules of the app: blocks on a circular 24-hour day, the schedule and its
//! lock choices, the configuration and its migration, path matching, notifications and the
//! texts handed to Windows tools. Every function here carries a proof of its contract.
pub mod text;

pub mod time;
pub mod config;
pub mod schedule;
pub mod policy;
pub mod notify;
pub mod paths;
pub mod task;
pub mod timeline;
pub mod monitor;
pub mod logger;
pub mod detect;
pub mod install;
pub mod panel;
pub mod winpath;
