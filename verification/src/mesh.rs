//! Fleet federation: the hybrid logical clock that orders blocklist updates
//! across peers.

pub mod hlc;
pub mod aworset;
