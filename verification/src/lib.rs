//! Message types of the NearClip device protocol: discovery, pairing and
//! the messages both sides share, with their protobuf wire encoding.
pub mod proto;
pub mod wire;
pub mod text;
pub mod common;
pub mod discovery;
pub mod pairing;
