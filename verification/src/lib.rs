//! OpenAI-compatible LLM provider.
//!
//! The logic of a capsule that serves `llm.v1.request.generate.openai-compat`
//! requests through any OpenAI-compatible Chat Completions API and publishes
//! standardized `llm.v1.stream.openai-compat` events as the answer streams in.
//! What is read from and sent to the outside (settings, HTTP, the event bus)
//! stays with the caller; everything that is decided or computed on the way is
//! here, with its contract.
//!
//! - [`provider`]: the provider, and what it publishes.
//! - [`settings`]: the configuration, and what follows from it alone.
//! - [`models`]: the model catalogue: discovery and advertisement.
//! - [`message`], [`request`]: the Chat Completions form of a conversation.
//! - [`response`]: the answer to a refused request.
//! - [`sse`]: the state machine that runs one streamed completion.
//! - [`stream`]: from parsed chunks to stream events.
//! - [`error`]: what can go wrong.
//! - [`json`]: JSON values and what they mean.
//! - [`text`], [`lists`]: helpers.
//! - [`laws`]: what holds of the library as a whole; and, of its parts,
//!   [`catalogue_laws`], [`request_laws`], [`line_laws`], [`chunk_laws`],
//!   [`answer_laws`] and [`text_laws`].

pub mod answer_laws;
pub mod catalogue_laws;
pub mod chunk_laws;
pub mod error;
pub mod json;
pub mod laws;
pub mod line_laws;
pub mod lists;
pub mod message;
pub mod models;
pub mod provider;
pub mod request;
pub mod request_laws;
pub mod response;
pub mod settings;
pub mod sse;
pub mod stream;
pub mod text;
pub mod text_laws;
