//! Named OAuth2 clients and the acquisition of their bearer tokens.
//!
//! `types` holds the data model, `config` the client registry, `oauth` the
//! token acquisition engine (a state machine that a driver feeds with the
//! outcomes of HTTP exchanges and credential prompts), and `commands` the
//! computing part of each command-line operation.

pub mod types;
pub mod config;
pub mod oauth;
pub mod commands;
