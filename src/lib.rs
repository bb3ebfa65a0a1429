//! A declarative configuration-management engine for a YAML automation
//! dialect: an INI inventory of hosts and groups, plays of tasks run per
//! host, a small template language, and idempotent modules.
//!
//! The library holds the engine's logic, each function with a contract that
//! Verus proves: inventory parsing and host resolution (`inventory`,
//! `executor`), the template engine and `when` conditions (`template`), the
//! module protocol and the decisions of the built-in modules (`modules`,
//! `actions`), and the per-host run of a play (`executor::HostRun`).
//! Connections, YAML reading and the command line live outside it.
pub mod actions;
pub mod bridge;
pub mod connection;
pub mod executor;
pub mod inventory;
pub mod modules;
pub mod playbook;
pub mod template;
pub mod text;
pub mod vars;
pub mod words;
