//! Unlocking TCG Opal self-encrypting drives before boot.
//!
//! The layers, from the wire up:
//! - `token`: the binary token grammar of method calls and replies;
//! - `frame`: the ComPacket / Packet / SubPacket envelope;
//! - `transport`: the security-protocol commands and completion polling;
//! - `method`: building a call and reading the status and results of a reply;
//! - `session`: the session state machine (start, authenticated Sets, close);
//! - `device`: Level 0 discovery and identify data;
//! - `kdf`: turning a password into a drive credential.
use vstd::prelude::*;

pub mod bytes;
pub mod device;
pub mod frame;
pub mod kdf;
pub mod method;
pub mod session;
pub mod status;
pub mod token;
pub mod transport;
pub mod uid;

verus! {

} // verus!
