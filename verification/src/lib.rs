//! Creation handshake of a chunked, resumable file-upload protocol.
//!
//! The crate validates a client's request to begin a new upload, decodes the
//! opaque per-upload metadata block that rides along with it, and shapes the
//! server-side outcome (a created record and its location, or a typed
//! rejection) before any file bytes are transferred.
//!
//! - [`creation`] holds the negotiator that turns raw transport headers into
//!   a validated creation intent, the lenient metadata reader the negotiator
//!   uses, and the orchestrator that shapes the final response.
//! - [`metadata`] holds the strict metadata codec: a wire format of
//!   comma-separated `key[ value]` pairs whose values are standard Base64.
//! - [`strings`] holds the verified string utilities (split, trim, integer
//!   parsing) the other modules are specified and proved with.

pub mod creation;
pub mod metadata;
pub mod strings;
