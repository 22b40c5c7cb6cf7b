//! Rove: a server that relays a conversation to a language model and streams
//! the answer back, with a tool loop, an observer tap and voice turns, and a
//! terminal client.
//!
//! This library holds what the two programs decide and compute; sockets,
//! files, processes and clocks' waiting are theirs. Each function's contract
//! says what it does, over the views of the types; the functions whose names
//! begin with `law_` state what holds of several of them together.

pub mod chat;
pub mod client;
pub mod clock;
pub mod command;
pub mod events;
pub mod feed;
pub mod hedge;
pub mod json;
pub mod messages;
pub mod sessions;
pub mod speech;
pub mod speech_turn;
pub mod sse;
pub mod tap;
pub mod text;
pub mod turn;
pub mod voice;
pub mod voice_turn;

pub use messages::{MAX_BYTES, MAX_MESSAGES};
pub use sse::SseDecoder;
