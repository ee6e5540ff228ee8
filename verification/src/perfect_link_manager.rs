//! The perfect-link layer: point-to-point reliable delivery over the
//! transport. Delivery strips one PL wrapper; sending appends the `.pl` layer
//! to the routing path, stamps the running system id, and resolves the
//! destination to an address for the transport.

use vstd::prelude::*;

use crate::effect::{ProtocolError, SendInstruction};
use crate::message::{similar_env, Envelope, EnvelopeV, Payload, PayloadV};
use crate::network_service::{network_frame_fits, send_encodable, send_ok_spec, NetworkService};
use crate::path;

verus! {

pub struct PerfectLinkManager {}

/// Exactly when `handle_pl_send` succeeds: the envelope is a PL-send, its
/// destination host is an IPv4 literal, and the stamped envelope fits the
/// frame's length prefixes. All of it is a function of the inputs alone.
pub open spec fn pl_send_ok(message: EnvelopeV, my_system_id: Seq<u8>, my_port: u16) -> bool {
    &&& message.payload is PlSend
    &&& path::parse_ipv4_spec(message.payload->PlSend_destination.host) is Some
    &&& send_encodable(pl_stamped_spec(message, my_system_id))
    &&& network_frame_fits(pl_stamped_spec(message, my_system_id), my_port)
}

/// Envelopes that differ only in their correlation ids succeed or fail alike
/// under `handle_pl_send`.
pub proof fn lemma_pl_send_ok_similar(
    a: EnvelopeV,
    b: EnvelopeV,
    my_system_id: Seq<u8>,
    my_port: u16,
)
    requires
        similar_env(a, b),
    ensures
        pl_send_ok(a, my_system_id, my_port) == pl_send_ok(b, my_system_id, my_port),
{
    let sa = crate::message::scrub(a);
    let sb = crate::message::scrub(b);
    assert(sa.payload == sb.payload);
    if a.payload is PlSend {
        let ia = *(a.payload->PlSend_message);
        let ib = *(b.payload->PlSend_message);
        assert(a.payload->PlSend_destination == b.payload->PlSend_destination);
        assert(similar_env(ia, ib));
        crate::codec::lemma_similar_same_size(ia, ib);
        let wa = crate::network_service::network_wrap_spec(
            my_system_id,
            a.to_abstraction_id + path::pl_suffix(),
            ia,
            my_port,
            crate::message::blank_uuid(),
        );
        let wb = crate::network_service::network_wrap_spec(
            my_system_id,
            b.to_abstraction_id + path::pl_suffix(),
            ib,
            my_port,
            crate::message::blank_uuid(),
        );
        assert(crate::message::scrub(wa) =~~= crate::message::scrub(wb));
        assert(similar_env(wa, wb));
        crate::codec::lemma_similar_same_size(wa, wb);
    }
}

/// The envelope `handle_pl_send` hands to the transport: the original one
/// with `.pl` appended to its routing path and the running system id stamped.
pub open spec fn pl_stamped_spec(message: crate::message::EnvelopeV, system_id: Seq<u8>)
    -> crate::message::EnvelopeV {
    crate::message::EnvelopeV {
        system_id,
        from_abstraction_id: message.from_abstraction_id,
        to_abstraction_id: message.to_abstraction_id + path::pl_suffix(),
        message_uuid: message.message_uuid,
        payload: message.payload,
    }
}

impl PerfectLinkManager {
    /// Strips one PL-deliver wrapper and returns the inner message for
    /// re-dispatch. Anything that is no PL-deliver is refused.
    pub fn handle_pl_deliver(message: Envelope) -> (r: Result<Envelope, ProtocolError>)
        ensures
            (r is Ok) == (message@.payload is PlDeliver),
            r matches Ok(inner) ==> message@.payload matches PayloadV::PlDeliver {
                message: m,
                ..
            } && inner@ == *m,
            r matches Err(e) ==> e == ProtocolError::NotDeliver,
    {
        match message.payload {
            Payload::PlDeliver { sender: _, message: inner } => Ok(*inner),
            _ => Err(ProtocolError::NotDeliver),
        }
    }

    /// Sends one message to one destination: appends the `.pl` layer, stamps
    /// the running system id, resolves the PL-send's destination (its host
    /// must be an IPv4 literal), and builds the frame to write, with the
    /// node's own listening port as the reply port.
    pub fn handle_pl_send(message: Envelope, my_system_id: &Vec<u8>, my_port: u16) -> (r: Result<
        SendInstruction,
        ProtocolError,
    >)
        ensures
            (r is Ok) == pl_send_ok(message@, my_system_id@, my_port),
            (r == Err::<SendInstruction, ProtocolError>(ProtocolError::NotPlSend)) == !(
            message@.payload is PlSend),
            message@.payload matches PayloadV::PlSend { destination, .. } ==> ((r == Err::<
                SendInstruction,
                ProtocolError,
            >(ProtocolError::InvalidHost)) == (path::parse_ipv4_spec(destination.host) is None)),
            r matches Err(e) ==> (e == ProtocolError::NotPlSend || e == ProtocolError::InvalidHost
                || e == ProtocolError::EnvelopeTooLarge),
            r matches Ok(si) ==> (message@.payload matches PayloadV::PlSend { destination, .. }
                && path::parse_ipv4_spec(destination.host) == Some(si@.ip) && si@.port
                == destination.port && send_ok_spec(
                si@,
                pl_stamped_spec(message@, my_system_id@),
                si@.ip,
                destination.port,
                my_port,
            )),
    {
        let (ip, dest_port) = match &message.payload {
            Payload::PlSend { destination, .. } => {
                match path::parse_ipv4(&destination.host) {
                    Some(ip) => (ip, destination.port),
                    None => {
                        return Err(ProtocolError::InvalidHost);
                    },
                }
            },
            _ => {
                return Err(ProtocolError::NotPlSend);
            },
        };
        let to_be_sent = Envelope {
            system_id: crate::bytestr::clone_bytes(my_system_id),
            from_abstraction_id: message.from_abstraction_id,
            to_abstraction_id: path::with_pl_suffix(&message.to_abstraction_id),
            message_uuid: message.message_uuid,
            payload: message.payload,
        };
        proof {
            assert(to_be_sent@ =~= pl_stamped_spec(message@, my_system_id@));
        }
        NetworkService::send(ip, dest_port, to_be_sent, my_port)
    }
}

} // verus!
