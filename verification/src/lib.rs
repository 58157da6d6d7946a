//! Core of a chat-to-cloud-drive relay bot: filename resolution, the
//! cancellation registry, the per-conversation output queue, the progress
//! reporter and the transfer state machine, with their contracts.

pub mod autodel;
pub mod engine;
pub mod filename;
pub mod links;
pub mod login;
pub mod mimeinfo;
pub mod num;
pub mod queue;
pub mod registry;
pub mod reporter;
pub mod strutil;
pub mod text;
pub mod urlinfo;
pub mod utils;
