//! Protocol engine of an AMQP 0-9-1 client.
//!
//! The crate holds the byte buffers, the frame and method codec, the
//! connection handshake state machine and the bookkeeping that pairs
//! returned messages with publisher confirms. Transport I/O is left to the
//! caller, who hands in what the transport answered.

pub mod buffer;
pub mod channel;
pub mod connection;
pub mod error;
pub mod frame;
pub mod message;
pub mod method;
pub mod pinky_swear;
pub mod returned_messages;
pub mod sasl_plain;
pub mod table;
pub mod wire;
