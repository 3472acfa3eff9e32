//! Executor domain library: identities, policy resolution, search ranking,
//! header parsing, code-mode text passes and the prepaid ledger.

pub mod text;
pub mod owner;
pub mod address;
pub mod error;
pub mod id;
pub mod auth;
pub mod position;
pub mod policy;
pub mod ema;
pub mod limits;
pub mod execution;
pub mod secret;
pub mod toolkit;
pub mod connection;
pub mod integration;
pub mod metrics;
pub mod codemode;
pub mod json;
pub mod www_authenticate;
pub mod scope;
pub mod path;
pub mod search;
pub mod profiles;
pub mod service;
pub mod catalog;
pub mod json_schema;
pub mod json_ts;
pub mod store;
pub mod cli;
pub mod outcome;
pub mod tool;
pub mod engine;
