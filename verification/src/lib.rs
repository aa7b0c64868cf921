//! Core of a dashboard for processes managed by a runit-style supervisor.
//!
//! The library covers the three failure-prone primitives the dashboard rests
//! on: parsing the free-form output of the supervisor's status command into a
//! typed service state, retrieving the last lines of a large append-only log
//! file by backward chunked scanning, and mapping a symbolic lifecycle action
//! to the external side effect it stands for.  Process spawning and file
//! reads live outside the library; every decision taken on their results is
//! made here, under contract.

pub mod config;
pub mod manage_service;
pub mod service_info;
pub mod service_logs;
pub mod services;
pub mod status_parse;
pub mod tail;
pub mod text;
