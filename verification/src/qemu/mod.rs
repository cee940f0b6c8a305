//! QEMU communication channel: configuration, the expect loop on the serial
//! console, and the channel itself.

pub mod channel;
pub mod config;
pub mod expect;
