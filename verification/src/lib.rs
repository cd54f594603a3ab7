//! Translation between the Responses API and the Chat Completions API.
//!
//! [`request`] turns a Responses request and a history into a Chat Completions
//! request, [`response`] turns the answer back, [`tool_names`] keeps the tools
//! of the two sides apart and together, and [`native`] prepares a payload for a
//! Responses endpoint that takes less than others do.
//!
//! The modules whose names end in `_laws` state what holds of all of it:
//! [`tool_laws`], [`call_laws`], [`content_laws`] and [`native_laws`] part by
//! part of what is converted, [`item_laws`] and [`conversation_laws`] of the
//! conversation that is put together, [`transcript_laws`] and [`request_laws`]
//! of what reaches the upstream, [`response_laws`] of what comes back.
pub mod call_laws;
pub mod calls;
pub mod content;
pub mod content_laws;
pub mod conversation;
pub mod conversation_laws;
pub mod env;
pub mod id_laws;
pub mod ids;
pub mod item_laws;
pub mod items;
pub mod json;
pub mod json_laws;
mod literals;
pub mod native;
pub mod native_laws;
pub mod request;
pub mod request_laws;
pub mod response;
pub mod response_laws;
pub mod schema;
pub mod session;
pub mod text;
pub mod text_laws;
pub mod tool_laws;
pub mod tool_names;
pub mod tools;
pub mod transcript_laws;
pub mod types;
