//! What a handler asks the runtime to do. Handlers never touch a socket or a
//! queue themselves: they return effects, and the thin runtime around the
//! library performs them in order.

use vstd::prelude::*;

use crate::message::{Envelope, EnvelopeV};

verus! {

/// The four octets of an IPv4 address.
#[derive(Clone, Copy, Debug, PartialEq, Eq, Structural)]
pub struct Ipv4Octets {
    pub a: u8,
    pub b: u8,
    pub c: u8,
    pub d: u8,
}

/// One frame to write over a fresh connection to `ip:port`: the four-byte
/// big-endian length prefix followed by the encoded envelope.
#[derive(Debug, PartialEq)]
pub struct SendInstruction {
    pub ip: Ipv4Octets,
    pub port: u16,
    pub frame: Vec<u8>,
}

/// The mathematical value of a `SendInstruction`.
#[verifier::ext_equal]
pub struct SendInstructionV {
    pub ip: Ipv4Octets,
    pub port: u16,
    pub frame: Seq<u8>,
}

impl View for SendInstruction {
    type V = SendInstructionV;

    open spec fn view(&self) -> SendInstructionV {
        SendInstructionV { ip: self.ip, port: self.port, frame: self.frame@ }
    }
}

/// One action requested by a handler: put an envelope back on the node's own
/// inbound queue, or write a frame to a peer over the network.
#[derive(Debug, PartialEq)]
pub enum Effect {
    Enqueue(Envelope),
    Transmit(SendInstruction),
}

/// The mathematical value of an `Effect`.
#[verifier::ext_equal]
pub enum EffectV {
    Enqueue(EnvelopeV),
    Transmit(SendInstructionV),
}

impl View for Effect {
    type V = EffectV;

    open spec fn view(&self) -> EffectV {
        match self {
            Effect::Enqueue(e) => EffectV::Enqueue(e@),
            Effect::Transmit(t) => EffectV::Transmit(t@),
        }
    }
}

impl DeepView for Effect {
    type V = EffectV;

    open spec fn deep_view(&self) -> EffectV {
        self.view()
    }
}

/// Why a handler gave up. Transport and decode faults end the operation;
/// a counter from the future is a protocol-invariant violation.
#[derive(Clone, Copy, Debug, PartialEq, Eq, Structural)]
pub enum ProtocolError {
    /// The transport was handed an envelope that is not a PL-send.
    NotPlSend,
    /// A delivery layer was handed an envelope that is not its own wrapper.
    NotDeliver,
    /// A destination host is not an IPv4 literal.
    InvalidHost,
    /// An envelope cannot be represented inside the frame's length prefixes.
    EnvelopeTooLarge,
    /// An internal value or ack arrived tagged with a counter strictly above
    /// the register's own: a reply to an operation that was never issued.
    CounterFromFuture,
    /// A register or broadcast message arrived before the membership did.
    NotInitialized,
    /// No member of the system listens on this node's own port.
    UnmatchedPort,
    /// A register route carries no `[name]` part.
    BadRegisterPath,
    /// An operation counter can no longer be advanced.
    CounterExhausted,
}

} // verus!
