//! Typed bindings over an embedded chain runner.
//!
//! The crate is organised in three layers.  The [`wire`] module holds a
//! verified codec for the protobuf wire format every operation travels in:
//! a value is framed as a list of numbered fields, each field either a
//! varint or a length-delimited byte string, and the decoder is proved to
//! invert the encoder.  The [`runner`] module holds the embedded runner:
//! an in-memory chain state, an execute entry point that commits one block
//! per accepted transaction, and a query entry point that routes a request
//! by its endpoint path string.  The [`subspaces`] and [`posts`] modules
//! are the per-module bindings: each defines its typed request, response
//! and query messages with their codecs, and each operation pairs a
//! request type with a response type (and, for queries, an endpoint path)
//! at definition time, encodes the request, drives the runner, and decodes
//! the typed response; the caller never handles raw bytes or path
//! strings.

pub mod posts;
pub mod runner;
pub mod subspaces;
pub mod wire;
