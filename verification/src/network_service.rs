//! The pure half of the transport. `send` turns an outbound PL-send envelope
//! into one framed byte string with its destination; `unwrap_network_frame`
//! turns one received frame into the PL-deliver envelope to enqueue. Opening
//! connections, reading and writing sockets is left to the runtime around the
//! library, which performs the returned instructions.

use vstd::prelude::*;

use crate::codec;
use crate::effect::{Ipv4Octets, ProtocolError, SendInstruction};
use crate::message::{Envelope, EnvelopeV, Payload, PayloadV, ProcessIdV};

verus! {

pub struct NetworkService {}

/// The loopback host every network message names as its sender.
pub open spec fn loopback_host() -> Seq<u8> {
    seq![49u8, 50u8, 55u8, 46u8, 48u8, 46u8, 48u8, 46u8, 49u8]
}

fn loopback_host_bytes() -> (r: Vec<u8>)
    ensures
        r@ == loopback_host(),
{
    let mut v: Vec<u8> = Vec::new();
    v.push(49u8);
    v.push(50u8);
    v.push(55u8);
    v.push(46u8);
    v.push(48u8);
    v.push(46u8);
    v.push(48u8);
    v.push(46u8);
    v.push(49u8);
    proof {
        assert(v@ =~= loopback_host());
    }
    v
}

/// One wire frame: the length of the body as four big-endian bytes, then the
/// body.
pub open spec fn frame_spec(body: Seq<u8>) -> Seq<u8> {
    codec::enc_u32(body.len() as u32) + body
}

/// The network-message envelope that `send` builds around the inner message
/// of a PL-send: it keeps the outbound system id and routing path, names the
/// loopback host and the sender's listening port, and draws `uuid` fresh.
pub open spec fn network_wrap_spec(
    system_id: Seq<u8>,
    to_abstraction_id: Seq<u8>,
    inner: EnvelopeV,
    reply_port: u16,
    uuid: Seq<u8>,
) -> EnvelopeV {
    EnvelopeV {
        system_id,
        from_abstraction_id: Seq::<u8>::empty(),
        to_abstraction_id,
        message_uuid: uuid,
        payload: PayloadV::NetworkMessage {
            sender_host: loopback_host(),
            sender_listening_port: reply_port,
            message: Box::new(inner),
        },
    }
}

/// Whether `frame` is a wire frame of the network wrapper that `send` builds
/// for `message` (a PL-send) under some fresh correlation id.
pub open spec fn frames_pl_send(frame: Seq<u8>, message: EnvelopeV, reply_port: u16, uuid: Seq<u8>)
    -> bool {
    &&& uuid.len() == 36
    &&& message.payload matches PayloadV::PlSend { message: inner, .. }
    &&& frame == frame_spec(
        codec::enc_env(
            network_wrap_spec(
                message.system_id,
                message.to_abstraction_id,
                *(message.payload->PlSend_message),
                reply_port,
                uuid,
            ),
        ),
    )
}

/// Everything `send` promises of a successful result: the frame wraps the
/// PL-send's inner message as a network message under some fresh correlation
/// id, bound for the given address.
pub open spec fn send_ok_spec(
    si: crate::effect::SendInstructionV,
    message: EnvelopeV,
    ip: Ipv4Octets,
    port: u16,
    reply_port: u16,
) -> bool {
    &&& si.ip == ip
    &&& si.port == port
    &&& send_encodable(message)
    &&& exists|u: Seq<u8>| #[trigger] frames_pl_send(si.frame, message, reply_port, u)
}

/// Whether the network wrapper `send` builds for `message` (a PL-send) fits
/// the frame's four-byte length prefix. The drawn correlation id is always
/// 36 bytes, so the stand-in id gives the exact encoded size.
pub open spec fn network_frame_fits(message: EnvelopeV, reply_port: u16) -> bool {
    codec::enc_env(
        network_wrap_spec(
            message.system_id,
            message.to_abstraction_id,
            *(message.payload->PlSend_message),
            reply_port,
            crate::message::blank_uuid(),
        ),
    ).len() <= u32::MAX
}

/// The parts of `send`'s success condition that do not depend on the drawn
/// correlation id: the envelope is a PL-send whose pieces fit the frame's
/// length prefixes.
pub open spec fn send_encodable(message: EnvelopeV) -> bool {
    &&& message.payload matches PayloadV::PlSend { message: inner, .. }
    &&& codec::wf_bytes(message.system_id)
    &&& codec::wf_bytes(message.to_abstraction_id)
    &&& codec::wf_env(*(message.payload->PlSend_message))
}

impl NetworkService {
    /// Strips the PL-send wrapper off `message`, wraps the inner message as a
    /// network message naming `reply_port`, and frames its encoding for one
    /// TCP write to `ip:port`. An envelope that is no PL-send is refused; one
    /// whose pieces cannot fit the length prefixes is refused as too large.
    pub fn send(ip: Ipv4Octets, port: u16, message: Envelope, reply_port: u16) -> (r: Result<
        SendInstruction,
        ProtocolError,
    >)
        ensures
            (r is Ok) == (message@.payload is PlSend && send_encodable(message@)
                && network_frame_fits(message@, reply_port)),
            (r == Err::<SendInstruction, ProtocolError>(ProtocolError::NotPlSend)) == !(
            message@.payload is PlSend),
            r matches Err(e) ==> (e == ProtocolError::NotPlSend || e
                == ProtocolError::EnvelopeTooLarge),
            message@.payload is PlSend && !send_encodable(message@) ==> r == Err::<
                SendInstruction,
                ProtocolError,
            >(ProtocolError::EnvelopeTooLarge),
            r matches Ok(si) ==> send_ok_spec(si@, message@, ip, port, reply_port),
    {
        let Envelope { system_id, from_abstraction_id: _, to_abstraction_id, message_uuid: _, payload } =
            message;
        match payload {
            Payload::PlSend { destination: _, message: inner } => {
                let wrapper = Envelope {
                    system_id,
                    from_abstraction_id: Vec::new(),
                    to_abstraction_id,
                    message_uuid: crate::message::fresh_uuid_bytes(),
                    payload: Payload::NetworkMessage {
                        sender_host: loopback_host_bytes(),
                        sender_listening_port: reply_port,
                        message: inner,
                    },
                };
                proof {
                    let w0 = network_wrap_spec(
                        message@.system_id,
                        message@.to_abstraction_id,
                        *(message@.payload->PlSend_message),
                        reply_port,
                        crate::message::blank_uuid(),
                    );
                    assert(wrapper@ =~= network_wrap_spec(
                        message@.system_id,
                        message@.to_abstraction_id,
                        *(message@.payload->PlSend_message),
                        reply_port,
                        wrapper@.message_uuid,
                    ));
                    assert(crate::message::scrub(wrapper@) =~~= crate::message::scrub(w0));
                    crate::message::lemma_similar_refl(
                        *(message@.payload->PlSend_message),
                    );
                    assert(crate::message::similar_env(wrapper@, w0));
                    codec::lemma_similar_same_size(wrapper@, w0);
                    assert(codec::wf_env(wrapper@) == send_encodable(message@));
                }
                if !codec::is_wf(&wrapper) {
                    return Err(ProtocolError::EnvelopeTooLarge);
                }
                let encoded = codec::encode(&wrapper);
                if encoded.len() > u32::MAX as usize {
                    return Err(ProtocolError::EnvelopeTooLarge);
                }
                let mut frame = codec::u32_to_be(encoded.len() as u32);
                crate::bytestr::append_bytes(&mut frame, &encoded);
                proof {
                    assert(wrapper@ =~= network_wrap_spec(
                        message@.system_id,
                        message@.to_abstraction_id,
                        *(message@.payload->PlSend_message),
                        reply_port,
                        wrapper@.message_uuid,
                    ));
                    assert(frame@ =~= frame_spec(codec::enc_env(wrapper@)));
                    assert(frames_pl_send(frame@, message@, reply_port, wrapper@.message_uuid));
                }
                let si = SendInstruction { ip, port, frame };
                proof {
                    assert(si@.ip == ip);
                    assert(si@.port == port);
                    assert(send_encodable(message@));
                    assert(si@.frame == frame_spec(codec::enc_env(wrapper@)));
                    assert(frames_pl_send(si@.frame, message@, reply_port, wrapper@.message_uuid));
                    assert(exists|u: Seq<u8>| #[trigger] frames_pl_send(
                        si@.frame,
                        message@,
                        reply_port,
                        u,
                    ));
                    assert(send_ok_spec(si@, message@, ip, port, reply_port));
                }
                Ok(si)
            },
            other => {
                proof {
                    assert(!(message@.payload is PlSend));
                }
                Err(ProtocolError::NotPlSend)
            },
        }
    }

    /// Boxes a value as an optional payload part.
    pub fn wrap_envelope_contents<T>(contents: T) -> (r: Option<Box<T>>)
        ensures
            r matches Some(b) && *b == contents,
    {
        Some(Box::new(contents))
    }

    /// The PL-deliver envelope for one received frame body, already stripped
    /// of its length prefix: the body must decode to a network message, whose
    /// inner message is re-wrapped for the router with the sender's identity
    /// (loopback-relative host and listening port) attached. Anything else is
    /// dropped.
    pub fn unwrap_network_frame(body: &Vec<u8>) -> (r: Option<Envelope>)
        ensures
            match r {
                Some(out) => {
                    &&& codec::decode_spec(body@) matches Some(env)
                    &&& env.payload matches PayloadV::NetworkMessage {
                        sender_host,
                        sender_listening_port,
                        message,
                    }
                    &&& out@ == (EnvelopeV {
                        system_id: env.system_id,
                        from_abstraction_id: Seq::<u8>::empty(),
                        to_abstraction_id: env.to_abstraction_id,
                        message_uuid: Seq::<u8>::empty(),
                        payload: PayloadV::PlDeliver {
                            sender: ProcessIdV {
                                host: sender_host,
                                port: sender_listening_port,
                                owner: Seq::<u8>::empty(),
                                index: 0u32,
                                rank: 0u32,
                            },
                            message,
                        },
                    })
                },
                None => !(codec::decode_spec(body@) matches Some(env)
                    && env.payload is NetworkMessage),
            },
    {
        match codec::decode(body) {
            Some(env) => {
                let Envelope { system_id, from_abstraction_id: _, to_abstraction_id, message_uuid: _, payload } =
                    env;
                match payload {
                    Payload::NetworkMessage { sender_host, sender_listening_port, message } => {
                        let sender = crate::message::ProcessId {
                            host: sender_host,
                            port: sender_listening_port,
                            owner: Vec::new(),
                            index: 0,
                            rank: 0,
                        };
                        Some(
                            Envelope {
                                system_id,
                                from_abstraction_id: Vec::new(),
                                to_abstraction_id,
                                message_uuid: Vec::new(),
                                payload: Payload::PlDeliver { sender, message },
                            },
                        )
                    },
                    _ => None,
                }
            },
            None => None,
        }
    }
}

} // verus!
