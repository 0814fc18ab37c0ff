//! Wire adapter between the Responses API and Gemini.
//!
//! A client speaks one wire protocol, `/v1/responses` streamed as server-sent
//! events. This library holds what it takes to serve that protocol on loopback
//! with Gemini behind it: each request becomes a `streamGenerateContent` call, and
//! the parts that Gemini streams become Responses events.
//!
//! - `config`: the `[desk_shim]` table of `config.toml`.
//! - `http`: routing, headers, request bodies, frames of the event stream.
//! - `catalog`: the catalog of models, with extra entries.
//! - `turn`: the key, the attempts and the chunks of a turn.
//! - `translate`: the state machine from parts to events.
//! - `request`, `schema`, `input`, `contents`: the Gemini request.
//! - `blob`: the raw parts that ride along in reasoning items.
//! - `json`, `codec`, `members`, `text`: JSON values, their text, and text itself.
//! - `replay`, `protocol`, `shape`, `events`: what holds of whole streams and of
//!   their events.

pub mod blob;
pub mod catalog;
pub mod codec;
pub mod config;
pub mod contents;
pub mod events;
pub mod http;
pub mod input;
pub mod json;
pub mod members;
pub mod protocol;
pub mod replay;
pub mod request;
pub mod schema;
pub mod shape;
pub mod text;
pub mod translate;
pub mod turn;

pub use config::{ShimConfig, DEFAULT_PORT};
