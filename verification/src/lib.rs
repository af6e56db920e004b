//! llmtrim: the parts of a local proxy that compresses requests to language models.
//!
//! - [`codex`] translates requests for a Responses backend and reduces its event stream.
//! - [`provider`] finds the text of a request and shortens tool descriptions.
//! - [`setup`], [`autostart`] decide how the proxy is wired into a system and taken out again.
//! - [`tracking`] keeps the ledger of savings.
//! - [`gateway`] decides what a gateway's filter sends upstream.
//! - [`json`], [`pointer`] and [`text`] are what the others are stated over.
pub mod autostart;
pub mod codex;
pub mod gateway;
pub mod json;
pub mod pointer;
pub mod provider;
pub mod setup;
pub mod text;
pub mod text_laws;
pub mod tracking;
