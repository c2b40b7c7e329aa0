//! Sign-In with Ethereum messages: the canonical text grammar, address
//! checksums, signature checks, time windows and nonces.

pub mod text;
pub mod address;
pub mod message;
pub mod grammar;
pub mod render;
pub mod parse;
pub mod verify;
pub mod record;
pub mod laws;

pub use message::{Message, SiweError, Version};
pub use record::Parsed;
