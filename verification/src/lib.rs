//! Verified core of an encrypted console chat: message model, commands,
//! key handling, AES-256-GCM framing and the client/server decision logic.
pub mod text;
pub mod hexcodec;
pub mod color;
pub mod command;
pub mod message;
pub mod cipher;
pub mod timestamp;
pub mod address;
pub mod server;
pub mod client;
