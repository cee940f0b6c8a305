//! LTX protocol: frames on the wire, requests, the client state, and the
//! communication channel over it.

pub mod channel;
pub mod client;
pub mod request;
pub mod wire;
