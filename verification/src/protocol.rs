//! IPC wire protocol: CRC-protected frames and HMAC frame authentication.

pub mod codec;
pub mod message;
pub mod auth;
pub mod replay_store;
