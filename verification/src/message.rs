//! The data model of the protocol: process identities, register values, and
//! the recursively nested message envelopes exchanged between nodes, the hub,
//! and the abstraction layers inside one node.

use vstd::prelude::*;

verus! {

/// A register value; `defined == false` stands for "nothing written yet".
#[derive(Clone, Copy, Debug, PartialEq, Eq, Structural)]
pub struct RegisterValue {
    pub defined: bool,
    pub v: i32,
}

impl RegisterValue {
    /// The value of a register before any write completes.
    pub fn unwritten() -> (r: RegisterValue)
        ensures
            r == (RegisterValue { defined: false, v: 0 }),
    {
        RegisterValue { defined: false, v: 0 }
    }
}

/// The identity of one member process: where it listens, who owns it, and the
/// rank that breaks ties between concurrent writers.
#[derive(Debug)]
pub struct ProcessId {
    pub host: Vec<u8>,
    pub port: u16,
    pub owner: Vec<u8>,
    pub index: u32,
    pub rank: u32,
}

/// The mathematical value of a `ProcessId`.
#[verifier::ext_equal]
pub struct ProcessIdV {
    pub host: Seq<u8>,
    pub port: u16,
    pub owner: Seq<u8>,
    pub index: u32,
    pub rank: u32,
}

impl View for ProcessId {
    type V = ProcessIdV;

    open spec fn view(&self) -> ProcessIdV {
        ProcessIdV {
            host: self.host@,
            port: self.port,
            owner: self.owner@,
            index: self.index,
            rank: self.rank,
        }
    }
}

impl DeepView for ProcessId {
    type V = ProcessIdV;

    open spec fn deep_view(&self) -> ProcessIdV {
        self.view()
    }
}

impl ProcessId {
    /// A process identity with every field empty or zero: the placeholder a
    /// register holds before any sender is known.
    pub fn blank() -> (r: ProcessId)
        ensures
            r@.host == Seq::<u8>::empty(),
            r@.port == 0u16,
            r@.owner == Seq::<u8>::empty(),
            r@.index == 0u32,
            r@.rank == 0u32,
    {
        ProcessId { host: Vec::new(), port: 0, owner: Vec::new(), index: 0, rank: 0 }
    }

    /// A deep copy, equal to `self` as a mathematical value.
    pub fn duplicate(&self) -> (r: ProcessId)
        ensures
            r@ == self@,
    {
        ProcessId {
            host: crate::bytestr::clone_bytes(&self.host),
            port: self.port,
            owner: crate::bytestr::clone_bytes(&self.owner),
            index: self.index,
            rank: self.rank,
        }
    }
}

impl PartialEq for ProcessId {
    fn eq(&self, other: &ProcessId) -> (r: bool) {
        crate::bytestr::bytes_eq(&self.host, &other.host) && self.port == other.port
            && crate::bytestr::bytes_eq(&self.owner, &other.owner) && self.index == other.index
            && self.rank == other.rank
    }
}

impl vstd::std_specs::cmp::PartialEqSpecImpl for ProcessId {
    open spec fn obeys_eq_spec() -> bool {
        true
    }

    open spec fn eq_spec(&self, other: &ProcessId) -> bool {
        self@ == other@
    }
}

impl Eq for ProcessId {}

/// The payload of an envelope, selected by the envelope's type discriminant.
/// Link- and broadcast-layer variants own a full inner envelope: every layer
/// strips one wrapper and hands the remainder to the next layer up.
#[derive(Debug, PartialEq)]
pub enum Payload {
    NetworkMessage { sender_host: Vec<u8>, sender_listening_port: u16, message: Box<Envelope> },
    PlSend { destination: ProcessId, message: Box<Envelope> },
    PlDeliver { sender: ProcessId, message: Box<Envelope> },
    BebBroadcast { message: Box<Envelope> },
    BebDeliver { sender: ProcessId, message: Box<Envelope> },
    ProcRegistration { owner: Vec<u8>, index: u32 },
    ProcInitializeSystem { processes: Vec<ProcessId> },
    AppBroadcast { value: RegisterValue },
    AppValue { value: RegisterValue },
    AppRead { register: Vec<u8> },
    AppWrite { register: Vec<u8>, value: RegisterValue },
    AppReadReturn { register: Vec<u8>, value: RegisterValue },
    AppWriteReturn { register: Vec<u8> },
    NnarRead,
    NnarWrite { value: RegisterValue },
    NnarReadReturn { value: RegisterValue },
    NnarWriteReturn,
    NnarInternalRead { read_id: u64 },
    NnarInternalValue { read_id: u64, timestamp: u64, writer_rank: u32, value: RegisterValue },
    NnarInternalWrite { read_id: u64, timestamp: u64, writer_rank: u32, value: RegisterValue },
    NnarInternalAck { read_id: u64 },
}

/// One message: routing metadata plus exactly one payload.
#[derive(Debug, PartialEq)]
pub struct Envelope {
    pub system_id: Vec<u8>,
    pub from_abstraction_id: Vec<u8>,
    pub to_abstraction_id: Vec<u8>,
    pub message_uuid: Vec<u8>,
    pub payload: Payload,
}

/// The mathematical value of a `Payload`.
#[verifier::ext_equal]
pub enum PayloadV {
    NetworkMessage { sender_host: Seq<u8>, sender_listening_port: u16, message: Box<EnvelopeV> },
    PlSend { destination: ProcessIdV, message: Box<EnvelopeV> },
    PlDeliver { sender: ProcessIdV, message: Box<EnvelopeV> },
    BebBroadcast { message: Box<EnvelopeV> },
    BebDeliver { sender: ProcessIdV, message: Box<EnvelopeV> },
    ProcRegistration { owner: Seq<u8>, index: u32 },
    ProcInitializeSystem { processes: Seq<ProcessIdV> },
    AppBroadcast { value: RegisterValue },
    AppValue { value: RegisterValue },
    AppRead { register: Seq<u8> },
    AppWrite { register: Seq<u8>, value: RegisterValue },
    AppReadReturn { register: Seq<u8>, value: RegisterValue },
    AppWriteReturn { register: Seq<u8> },
    NnarRead,
    NnarWrite { value: RegisterValue },
    NnarReadReturn { value: RegisterValue },
    NnarWriteReturn,
    NnarInternalRead { read_id: u64 },
    NnarInternalValue { read_id: u64, timestamp: u64, writer_rank: u32, value: RegisterValue },
    NnarInternalWrite { read_id: u64, timestamp: u64, writer_rank: u32, value: RegisterValue },
    NnarInternalAck { read_id: u64 },
}

/// The mathematical value of an `Envelope`.
#[verifier::ext_equal]
pub struct EnvelopeV {
    pub system_id: Seq<u8>,
    pub from_abstraction_id: Seq<u8>,
    pub to_abstraction_id: Seq<u8>,
    pub message_uuid: Seq<u8>,
    pub payload: PayloadV,
}

pub open spec fn view_payload(p: Payload) -> PayloadV
    decreases p,
{
    match p {
        Payload::NetworkMessage { sender_host, sender_listening_port, message } => {
            PayloadV::NetworkMessage {
                sender_host: sender_host@,
                sender_listening_port,
                message: Box::new(view_env(*message)),
            }
        },
        Payload::PlSend { destination, message } => {
            PayloadV::PlSend { destination: destination@, message: Box::new(view_env(*message)) }
        },
        Payload::PlDeliver { sender, message } => {
            PayloadV::PlDeliver { sender: sender@, message: Box::new(view_env(*message)) }
        },
        Payload::BebBroadcast { message } => {
            PayloadV::BebBroadcast { message: Box::new(view_env(*message)) }
        },
        Payload::BebDeliver { sender, message } => {
            PayloadV::BebDeliver { sender: sender@, message: Box::new(view_env(*message)) }
        },
        Payload::ProcRegistration { owner, index } => {
            PayloadV::ProcRegistration { owner: owner@, index }
        },
        Payload::ProcInitializeSystem { processes } => {
            PayloadV::ProcInitializeSystem { processes: processes.deep_view() }
        },
        Payload::AppBroadcast { value } => PayloadV::AppBroadcast { value },
        Payload::AppValue { value } => PayloadV::AppValue { value },
        Payload::AppRead { register } => PayloadV::AppRead { register: register@ },
        Payload::AppWrite { register, value } => {
            PayloadV::AppWrite { register: register@, value }
        },
        Payload::AppReadReturn { register, value } => {
            PayloadV::AppReadReturn { register: register@, value }
        },
        Payload::AppWriteReturn { register } => {
            PayloadV::AppWriteReturn { register: register@ }
        },
        Payload::NnarRead => PayloadV::NnarRead,
        Payload::NnarWrite { value } => PayloadV::NnarWrite { value },
        Payload::NnarReadReturn { value } => PayloadV::NnarReadReturn { value },
        Payload::NnarWriteReturn => PayloadV::NnarWriteReturn,
        Payload::NnarInternalRead { read_id } => PayloadV::NnarInternalRead { read_id },
        Payload::NnarInternalValue { read_id, timestamp, writer_rank, value } => {
            PayloadV::NnarInternalValue { read_id, timestamp, writer_rank, value }
        },
        Payload::NnarInternalWrite { read_id, timestamp, writer_rank, value } => {
            PayloadV::NnarInternalWrite { read_id, timestamp, writer_rank, value }
        },
        Payload::NnarInternalAck { read_id } => PayloadV::NnarInternalAck { read_id },
    }
}

pub open spec fn view_env(e: Envelope) -> EnvelopeV
    decreases e,
{
    EnvelopeV {
        system_id: e.system_id@,
        from_abstraction_id: e.from_abstraction_id@,
        to_abstraction_id: e.to_abstraction_id@,
        message_uuid: e.message_uuid@,
        payload: view_payload(e.payload),
    }
}

impl View for Payload {
    type V = PayloadV;

    open spec fn view(&self) -> PayloadV {
        view_payload(*self)
    }
}

impl View for Envelope {
    type V = EnvelopeV;

    open spec fn view(&self) -> EnvelopeV {
        view_env(*self)
    }
}

/// An envelope value with every correlation id erased, at every nesting
/// level. Message uuids are drawn at random; `similar_env` uses this erasure
/// to say that two envelopes agree everywhere but in their correlation ids.
pub open spec fn scrub(e: EnvelopeV) -> EnvelopeV
    decreases e,
{
    EnvelopeV {
        system_id: e.system_id,
        from_abstraction_id: e.from_abstraction_id,
        to_abstraction_id: e.to_abstraction_id,
        message_uuid: Seq::<u8>::empty(),
        payload: scrub_payload(e.payload),
    }
}

pub open spec fn scrub_payload(p: PayloadV) -> PayloadV
    decreases p,
{
    match p {
        PayloadV::NetworkMessage { sender_host, sender_listening_port, message } => {
            PayloadV::NetworkMessage {
                sender_host,
                sender_listening_port,
                message: Box::new(scrub(*message)),
            }
        },
        PayloadV::PlSend { destination, message } => {
            PayloadV::PlSend { destination, message: Box::new(scrub(*message)) }
        },
        PayloadV::PlDeliver { sender, message } => {
            PayloadV::PlDeliver { sender, message: Box::new(scrub(*message)) }
        },
        PayloadV::BebBroadcast { message } => {
            PayloadV::BebBroadcast { message: Box::new(scrub(*message)) }
        },
        PayloadV::BebDeliver { sender, message } => {
            PayloadV::BebDeliver { sender, message: Box::new(scrub(*message)) }
        },
        _ => p,
    }
}

impl Payload {
    /// A deep copy, equal to `self` as a mathematical value.
    pub fn duplicate(&self) -> (r: Payload)
        ensures
            r@ == self@,
        decreases *self,
    {
        match self {
            Payload::NetworkMessage { sender_host, sender_listening_port, message } => {
                Payload::NetworkMessage {
                    sender_host: crate::bytestr::clone_bytes(sender_host),
                    sender_listening_port: *sender_listening_port,
                    message: Box::new(message.duplicate()),
                }
            },
            Payload::PlSend { destination, message } => {
                Payload::PlSend {
                    destination: destination.duplicate(),
                    message: Box::new(message.duplicate()),
                }
            },
            Payload::PlDeliver { sender, message } => {
                Payload::PlDeliver {
                    sender: sender.duplicate(),
                    message: Box::new(message.duplicate()),
                }
            },
            Payload::BebBroadcast { message } => {
                Payload::BebBroadcast { message: Box::new(message.duplicate()) }
            },
            Payload::BebDeliver { sender, message } => {
                Payload::BebDeliver {
                    sender: sender.duplicate(),
                    message: Box::new(message.duplicate()),
                }
            },
            Payload::ProcRegistration { owner, index } => {
                Payload::ProcRegistration {
                    owner: crate::bytestr::clone_bytes(owner),
                    index: *index,
                }
            },
            Payload::ProcInitializeSystem { processes } => {
                let mut ps: Vec<ProcessId> = Vec::new();
                let mut i: usize = 0;
                while i < processes.len()
                    invariant
                        i <= processes@.len(),
                        ps.deep_view() == processes.deep_view().take(i as int),
                    decreases processes@.len() - i,
                {
                    let ghost prev = ps.deep_view();
                    ps.push(processes[i].duplicate());
                    proof {
                        assert(ps.deep_view() =~= prev.push(processes.deep_view()[i as int]));
                        assert(processes.deep_view().take(i as int + 1) =~= processes.deep_view()
                            .take(i as int).push(processes.deep_view()[i as int]));
                    }
                    i += 1;
                }
                proof {
                    assert(processes.deep_view().take(processes@.len() as int)
                        =~= processes.deep_view());
                    assert((Payload::ProcInitializeSystem { processes: ps })@ =~= self@);
                }
                Payload::ProcInitializeSystem { processes: ps }
            },
            Payload::AppBroadcast { value } => Payload::AppBroadcast { value: *value },
            Payload::AppValue { value } => Payload::AppValue { value: *value },
            Payload::AppRead { register } => {
                Payload::AppRead { register: crate::bytestr::clone_bytes(register) }
            },
            Payload::AppWrite { register, value } => {
                Payload::AppWrite {
                    register: crate::bytestr::clone_bytes(register),
                    value: *value,
                }
            },
            Payload::AppReadReturn { register, value } => {
                Payload::AppReadReturn {
                    register: crate::bytestr::clone_bytes(register),
                    value: *value,
                }
            },
            Payload::AppWriteReturn { register } => {
                Payload::AppWriteReturn { register: crate::bytestr::clone_bytes(register) }
            },
            Payload::NnarRead => Payload::NnarRead,
            Payload::NnarWrite { value } => Payload::NnarWrite { value: *value },
            Payload::NnarReadReturn { value } => Payload::NnarReadReturn { value: *value },
            Payload::NnarWriteReturn => Payload::NnarWriteReturn,
            Payload::NnarInternalRead { read_id } => {
                Payload::NnarInternalRead { read_id: *read_id }
            },
            Payload::NnarInternalValue { read_id, timestamp, writer_rank, value } => {
                Payload::NnarInternalValue {
                    read_id: *read_id,
                    timestamp: *timestamp,
                    writer_rank: *writer_rank,
                    value: *value,
                }
            },
            Payload::NnarInternalWrite { read_id, timestamp, writer_rank, value } => {
                Payload::NnarInternalWrite {
                    read_id: *read_id,
                    timestamp: *timestamp,
                    writer_rank: *writer_rank,
                    value: *value,
                }
            },
            Payload::NnarInternalAck { read_id } => {
                Payload::NnarInternalAck { read_id: *read_id }
            },
        }
    }
}

/// A correlation id of the length every freshly drawn one has, used as the
/// stand-in when a contract must speak of an envelope whose real ids are
/// random: its encoded size and well-formedness are those of the real one.
pub open spec fn blank_uuid() -> Seq<u8> {
    Seq::new(36, |i: int| 0u8)
}

/// Whether two envelopes agree everywhere except in their correlation ids,
/// which must at least have equal lengths, at every nesting level. Such
/// envelopes encode to the same number of bytes and are equally well formed.
pub open spec fn similar_env(a: EnvelopeV, b: EnvelopeV) -> bool
    decreases a,
{
    &&& scrub(a) == scrub(b)
    &&& a.message_uuid.len() == b.message_uuid.len()
    &&& match a.payload {
        PayloadV::NetworkMessage { message: ma, .. } => b.payload matches
            PayloadV::NetworkMessage { message: mb, .. } && similar_env(*ma, *mb),
        PayloadV::PlSend { message: ma, .. } => b.payload matches PayloadV::PlSend {
            message: mb,
            ..
        } && similar_env(*ma, *mb),
        PayloadV::PlDeliver { message: ma, .. } => b.payload matches PayloadV::PlDeliver {
            message: mb,
            ..
        } && similar_env(*ma, *mb),
        PayloadV::BebBroadcast { message: ma } => b.payload matches PayloadV::BebBroadcast {
            message: mb,
        } && similar_env(*ma, *mb),
        PayloadV::BebDeliver { message: ma, .. } => b.payload matches PayloadV::BebDeliver {
            message: mb,
            ..
        } && similar_env(*ma, *mb),
        _ => true,
    }
}

/// Every envelope is similar to itself.
pub proof fn lemma_similar_refl(e: EnvelopeV)
    ensures
        similar_env(e, e),
    decreases e,
{
    match e.payload {
        PayloadV::NetworkMessage { message, .. } => lemma_similar_refl(*message),
        PayloadV::PlSend { message, .. } => lemma_similar_refl(*message),
        PayloadV::PlDeliver { message, .. } => lemma_similar_refl(*message),
        PayloadV::BebBroadcast { message } => lemma_similar_refl(*message),
        PayloadV::BebDeliver { message, .. } => lemma_similar_refl(*message),
        _ => {},
    }
}

/// Relies on `uuid::Uuid::new_v4` and its hyphenated rendering: a freshly
/// generated version-4 UUID renders as exactly 36 ASCII characters. The value
/// itself is random, so nothing more is promised of it.
#[verifier::external_body]
pub(crate) fn fresh_uuid_bytes() -> (r: Vec<u8>)
    ensures
        r@.len() == 36,
{
    uuid::Uuid::new_v4().to_string().into_bytes()
}

impl Envelope {
    /// A deep copy, equal to `self` as a mathematical value.
    pub fn duplicate(&self) -> (r: Envelope)
        ensures
            r@ == self@,
        decreases *self,
    {
        Envelope {
            system_id: crate::bytestr::clone_bytes(&self.system_id),
            from_abstraction_id: crate::bytestr::clone_bytes(&self.from_abstraction_id),
            to_abstraction_id: crate::bytestr::clone_bytes(&self.to_abstraction_id),
            message_uuid: crate::bytestr::clone_bytes(&self.message_uuid),
            payload: self.payload.duplicate(),
        }
    }

    /// A new envelope around `payload` with a freshly drawn correlation id and
    /// every routing field still empty.
    pub fn with_shipping_label(payload: Payload) -> (r: Envelope)
        ensures
            r@.system_id == Seq::<u8>::empty(),
            r@.from_abstraction_id == Seq::<u8>::empty(),
            r@.to_abstraction_id == Seq::<u8>::empty(),
            r@.message_uuid.len() == 36,
            r@.payload == payload@,
    {
        Envelope {
            system_id: Vec::new(),
            from_abstraction_id: Vec::new(),
            to_abstraction_id: Vec::new(),
            message_uuid: fresh_uuid_bytes(),
            payload,
        }
    }
}

} // verus!
