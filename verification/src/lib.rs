//! Core engine of a presence monitor: it tails an append-only log,
//! classifies lines into presence intents, maintains a roster of
//! participants for the current instance, evaluates a user-editable
//! catalog of advisories against each participant, and decides which
//! notices must fire and which are suppressed.

pub mod advisory;
pub mod api_mode;
pub mod catalog;
pub mod classify;
pub mod engine;
pub mod enrich;
pub mod instance_id;
pub mod log_files;
pub mod log_text;
pub mod notices;
pub mod numfmt;
pub mod roster;
pub mod settle;
pub mod strutil;
pub mod template;
pub mod timeparse;
pub mod trust;
pub mod user;
pub mod xso;

