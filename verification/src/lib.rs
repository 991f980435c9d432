//! Core of the UBL runtime: canonical JSON, content identifiers, cascading
//! policy, receipt chains and the HTTP service's request bookkeeping.
pub mod access;
pub mod adapter;
pub mod assoc;
pub mod bind;
pub mod canon;
pub mod cid;
pub mod digest;
pub mod engine;
pub mod error;
pub mod json;
pub mod jws;
pub mod policy;
pub mod scope;
pub mod text;
pub mod transition;
pub mod receipt;
pub mod idempotency;
pub mod keyring_store;
pub mod audit;
pub mod api_error;
pub mod nrf_canon;
pub mod tdln;
pub mod local_ledger;
pub mod client;
pub mod service;
pub mod rb_bridge;
pub mod md5;
pub mod ledger;
pub mod config;
