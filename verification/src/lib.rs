//! A verified codec for the Telnet wire protocol: an incremental frame
//! decoder over a growable byte buffer, and the encoders for option
//! negotiation and subnegotiation blocks.

pub mod buffer;
pub mod command;
pub mod frame;
pub mod negotiation;
