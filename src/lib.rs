//! Encoding and decoding of MQTT v3.1.1 control packets.

pub mod acks;
pub mod connack;
pub mod connect;
pub mod header;
pub mod message;
pub mod protocol;
pub mod publish;
pub mod subscribe;

pub use protocol::TransportError;
