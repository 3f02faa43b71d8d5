//! The logic of a config-driven control deck for robot swarms: configuration
//! and its validation, command templates, target selection, the registry of
//! robots and their sessions, batch runs and workflows, and the small parsers
//! the agents and clients need. Contracts state what each function does, and
//! `laws` collects the properties that span several functions.

pub mod agent;
pub mod api;
pub mod cli;
pub mod config;
pub mod dispatch;
pub mod dispatcher;
pub mod error;
pub mod laws;
pub mod layers;
pub mod listing;
pub mod metrics;
pub mod registry;
pub mod runs;
pub mod strmap;
pub mod template;
pub mod text;
