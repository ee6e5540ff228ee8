//! A node in a distributed-algorithms testbed: a binary wire codec, the
//! perfect-link and best-effort-broadcast delivery layers, a store of
//! quorum-replicated atomic registers, and the router that drives them.

pub mod broadcast_manager;
pub mod bytestr;
pub mod client;
pub mod codec;
pub mod effect;
pub mod message;
pub mod network_service;
pub mod path;
pub mod perfect_link_manager;
pub mod register_manager;

pub use effect::{Effect, EffectV, Ipv4Octets, ProtocolError, SendInstruction, SendInstructionV};
pub use message::{Envelope, EnvelopeV, Payload, PayloadV, ProcessId, ProcessIdV, RegisterValue};
