//! Canonical form and digest of derivatives trading intents.
//!
//! An intent arrives as a JSON document in which keys may stand in any
//! order, words in any case, and numbers in any writing. Its canonical form
//! is the one document that all such writings of the same intent share; its
//! identity is the SHA-256 digest of the canonical form's text, in 64
//! lower-case hexadecimal characters.
//!
//! - [`json`] holds documents, [`codec`] writes and reads them with
//!   `serde_json`, [`digest`] hashes with `sha2`.
//! - [`text`], [`order`], [`decimal`], [`timestamp`] and [`fields`] are the
//!   rules for single values and for the keys of an object.
//! - [`canonicalization`] brings collateral, option, constraints, derivatives
//!   and the intent itself into canonical form; [`pipeline`] goes on to the
//!   canonical text and the digest; [`intent`] is the typed form of an intent.
//! - [`laws`] and [`reorder`] state what holds of every document.
//! - [`host`], [`gating`] and [`events`] are the rules of the host that keeps
//!   intents by their digest: what it records, when it executes, and the
//!   lines it publishes.
//!
//! Every function states in its contract what it returns, over the
//! mathematical models that the modules define: a document is a [`json::Json`],
//! a text a sequence of characters, a rejection an [`error::Failure`].

pub mod canonicalization;
pub mod codec;
pub mod decimal;
pub mod digest;
pub mod error;
pub mod events;
pub mod fields;
pub mod gating;
pub mod host;
pub mod intent;
pub mod json;
pub mod laws;
pub mod order;
pub mod pipeline;
pub mod reorder;
pub mod text;
pub mod timestamp;
