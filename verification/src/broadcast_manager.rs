//! The best-effort broadcast layer: one independent PL-send per member, each
//! wrapping its own copy of the payload, with `.beb` appended to the routing
//! path. Delivery strips the BEB wrapper and surfaces the sender's identity.

use vstd::prelude::*;

use crate::effect::{Effect, EffectV, ProtocolError};
use crate::message::{Envelope, EnvelopeV, Payload, PayloadV, ProcessId, ProcessIdV};
use crate::path;

verus! {

pub struct BroadcastManager {}

/// What the broadcast enqueues for the member `node`: a PL-send around a copy
/// of `message`, routed one `.beb` layer deeper, stamped with the system id.
/// Only the wrapper's correlation id is left open, being drawn fresh.
pub open spec fn beb_wrapper_spec(
    effect: EffectV,
    message: EnvelopeV,
    node: ProcessIdV,
    system_id: Seq<u8>,
) -> bool {
    &&& effect matches EffectV::Enqueue(w)
    &&& w.system_id == system_id
    &&& w.from_abstraction_id == Seq::<u8>::empty()
    &&& w.to_abstraction_id == message.to_abstraction_id + path::beb_suffix()
    &&& w.message_uuid.len() == 36
    &&& w.payload matches PayloadV::PlSend { destination, message: m }
    &&& w.payload->PlSend_destination == node
    &&& *(w.payload->PlSend_message) == message
}

impl BroadcastManager {
    /// Strips one BEB-deliver wrapper and returns the inner message for
    /// re-dispatch. Anything that is no BEB-deliver is refused.
    pub fn handle_beb_deliver(message: Envelope) -> (r: Result<Envelope, ProtocolError>)
        ensures
            (r is Ok) == (message@.payload is BebDeliver),
            r matches Ok(inner) ==> message@.payload matches PayloadV::BebDeliver {
                message: m,
                ..
            } && inner@ == *m,
            r matches Err(e) ==> e == ProtocolError::NotDeliver,
    {
        match message.payload {
            Payload::BebDeliver { sender: _, message: inner } => Ok(*inner),
            _ => Err(ProtocolError::NotDeliver),
        }
    }

    /// Broadcasts `message` to every member: for each, an independent PL-send
    /// wrapping its own copy of `message`, enqueued in member order.
    pub fn do_beb_broadcast(message: Envelope, nodes: &Vec<ProcessId>, system_id: &Vec<u8>) -> (r:
        Vec<Effect>)
        ensures
            r@.len() == nodes@.len(),
            forall|i: int|
                0 <= i < nodes@.len() ==> beb_wrapper_spec(
                    #[trigger] r@[i]@,
                    message@,
                    nodes.deep_view()[i],
                    system_id@,
                ),
    {
        let mut out: Vec<Effect> = Vec::new();
        let mut i: usize = 0;
        while i < nodes.len()
            invariant
                i <= nodes@.len(),
                out@.len() == i,
                forall|k: int|
                    0 <= k < i ==> beb_wrapper_spec(
                        #[trigger] out@[k]@,
                        message@,
                        nodes.deep_view()[k],
                        system_id@,
                    ),
            decreases nodes@.len() - i,
        {
            let pl_send = Payload::PlSend {
                destination: nodes[i].duplicate(),
                message: Box::new(message.duplicate()),
            };
            let wrapper = Envelope {
                system_id: crate::bytestr::clone_bytes(system_id),
                from_abstraction_id: Vec::new(),
                to_abstraction_id: path::with_beb_suffix(&message.to_abstraction_id),
                message_uuid: crate::message::fresh_uuid_bytes(),
                payload: pl_send,
            };
            proof {
                assert(beb_wrapper_spec(
                    EffectV::Enqueue(wrapper@),
                    message@,
                    nodes.deep_view()[i as int],
                    system_id@,
                ));
            }
            out.push(Effect::Enqueue(wrapper));
            i += 1;
        }
        out
    }
}

} // verus!
