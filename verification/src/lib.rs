//! terra-git core: verified parsing, validation and decision logic of the git
//! client engine, its credential helper and its domain model.

pub mod cancel;
pub mod text;
pub mod order;
pub mod domain;
pub mod conflict;
pub mod error;
pub mod status_fast;
pub mod sidecar;
pub mod patch;
pub mod ops;
pub mod rebase;
pub mod status;
pub mod history;
pub mod diff;
pub mod branches;
pub mod ssh;
pub mod credential_helper_proto;
pub mod auth;
pub mod views;
pub mod index_plan;
pub mod refs;
