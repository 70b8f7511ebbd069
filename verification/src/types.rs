//! Shared value types: time newtypes, bounded queues, error and reason enums.

pub mod net;
pub mod ip_network;
pub mod time;
pub mod error;
pub mod util;
pub mod events;
pub mod command;
