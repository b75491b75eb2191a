//! Client-side engine for the ZMK Studio RPC protocol.
//!
//! The protocol carries schema-described binary envelopes (requests,
//! correlated responses, and out-of-band notifications) inside a
//! byte-stuffed frame format over a duplex byte transport.

pub mod behavior;
pub mod bridge;
pub mod client;
pub mod envelope;
pub mod framing;
pub mod hid_usage;
pub mod keycode;
pub mod messages;
pub mod wire;

pub use behavior::Behavior;
pub use behavior::BehaviorRole;
pub use behavior::RoleTable;
pub use client::ByteChannel;
pub use client::ClientError;
pub use client::LockState;
pub use client::MemoryChannel;
pub use client::MetaError;
pub use client::StudioClient;
pub use client::TransportError;
pub use framing::FrameDecoder;
pub use framing::FramingError;
pub use keycode::KeyCode;
