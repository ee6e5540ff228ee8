//! The binary wire codec: a deterministic encoding of envelopes into bytes
//! and the decoder that inverts it. Integers travel big-endian; byte strings
//! and the member list are length-prefixed; the payload variant is a one-byte
//! tag. `lemma_encode_decode` proves that decoding an encoding gives back the
//! original envelope.

use vstd::prelude::*;

use crate::message::{Envelope, EnvelopeV, Payload, PayloadV, ProcessId, ProcessIdV, RegisterValue};

verus! {

// ---------------------------------------------------------------------------
// Specification: encoding
// ---------------------------------------------------------------------------
pub open spec fn enc_u16(n: u16) -> Seq<u8> {
    seq![(n >> 8) as u8, n as u8]
}

pub open spec fn enc_u32(n: u32) -> Seq<u8> {
    seq![(n >> 24) as u8, (n >> 16) as u8, (n >> 8) as u8, n as u8]
}

pub open spec fn enc_u64(n: u64) -> Seq<u8> {
    seq![
        (n >> 56) as u8,
        (n >> 48) as u8,
        (n >> 40) as u8,
        (n >> 32) as u8,
        (n >> 24) as u8,
        (n >> 16) as u8,
        (n >> 8) as u8,
        n as u8,
    ]
}

pub open spec fn enc_i32(n: i32) -> Seq<u8> {
    enc_u32(n as u32)
}

pub open spec fn enc_bool(b: bool) -> Seq<u8> {
    seq![if b { 1u8 } else { 0u8 }]
}

pub open spec fn enc_bytes(s: Seq<u8>) -> Seq<u8> {
    enc_u32(s.len() as u32) + s
}

pub open spec fn enc_value(v: RegisterValue) -> Seq<u8> {
    enc_bool(v.defined) + enc_i32(v.v)
}

pub open spec fn enc_pid(p: ProcessIdV) -> Seq<u8> {
    enc_bytes(p.host) + enc_u16(p.port) + enc_bytes(p.owner) + enc_u32(p.index) + enc_u32(p.rank)
}

pub open spec fn enc_pid_list(ps: Seq<ProcessIdV>) -> Seq<u8>
    decreases ps.len(),
{
    if ps.len() == 0 {
        Seq::<u8>::empty()
    } else {
        enc_pid(ps[0]) + enc_pid_list(ps.skip(1))
    }
}

/// The one-byte tag that selects a payload variant on the wire.
pub open spec fn tag_of(p: PayloadV) -> u8 {
    match p {
        PayloadV::NetworkMessage { .. } => 0u8,
        PayloadV::PlSend { .. } => 1u8,
        PayloadV::PlDeliver { .. } => 2u8,
        PayloadV::BebBroadcast { .. } => 3u8,
        PayloadV::BebDeliver { .. } => 4u8,
        PayloadV::ProcRegistration { .. } => 5u8,
        PayloadV::ProcInitializeSystem { .. } => 6u8,
        PayloadV::AppBroadcast { .. } => 7u8,
        PayloadV::AppValue { .. } => 8u8,
        PayloadV::AppRead { .. } => 9u8,
        PayloadV::AppWrite { .. } => 10u8,
        PayloadV::AppReadReturn { .. } => 11u8,
        PayloadV::AppWriteReturn { .. } => 12u8,
        PayloadV::NnarRead => 13u8,
        PayloadV::NnarWrite { .. } => 14u8,
        PayloadV::NnarReadReturn { .. } => 15u8,
        PayloadV::NnarWriteReturn => 16u8,
        PayloadV::NnarInternalRead { .. } => 17u8,
        PayloadV::NnarInternalValue { .. } => 18u8,
        PayloadV::NnarInternalWrite { .. } => 19u8,
        PayloadV::NnarInternalAck { .. } => 20u8,
    }
}

pub open spec fn enc_payload_fields(p: PayloadV) -> Seq<u8>
    decreases p,
{
    match p {
        PayloadV::NetworkMessage { sender_host, sender_listening_port, message } => enc_bytes(
            sender_host,
        ) + enc_u16(sender_listening_port) + enc_env(*message),
        PayloadV::PlSend { destination, message } => enc_pid(destination) + enc_env(*message),
        PayloadV::PlDeliver { sender, message } => enc_pid(sender) + enc_env(*message),
        PayloadV::BebBroadcast { message } => enc_env(*message),
        PayloadV::BebDeliver { sender, message } => enc_pid(sender) + enc_env(*message),
        PayloadV::ProcRegistration { owner, index } => enc_bytes(owner) + enc_u32(index),
        PayloadV::ProcInitializeSystem { processes } => enc_u32(processes.len() as u32)
            + enc_pid_list(processes),
        PayloadV::AppBroadcast { value } => enc_value(value),
        PayloadV::AppValue { value } => enc_value(value),
        PayloadV::AppRead { register } => enc_bytes(register),
        PayloadV::AppWrite { register, value } => enc_bytes(register) + enc_value(value),
        PayloadV::AppReadReturn { register, value } => enc_bytes(register) + enc_value(value),
        PayloadV::AppWriteReturn { register } => enc_bytes(register),
        PayloadV::NnarRead => Seq::<u8>::empty(),
        PayloadV::NnarWrite { value } => enc_value(value),
        PayloadV::NnarReadReturn { value } => enc_value(value),
        PayloadV::NnarWriteReturn => Seq::<u8>::empty(),
        PayloadV::NnarInternalRead { read_id } => enc_u64(read_id),
        PayloadV::NnarInternalValue { read_id, timestamp, writer_rank, value } => enc_u64(read_id)
            + enc_u64(timestamp) + enc_u32(writer_rank) + enc_value(value),
        PayloadV::NnarInternalWrite { read_id, timestamp, writer_rank, value } => enc_u64(read_id)
            + enc_u64(timestamp) + enc_u32(writer_rank) + enc_value(value),
        PayloadV::NnarInternalAck { read_id } => enc_u64(read_id),
    }
}

pub open spec fn enc_env(e: EnvelopeV) -> Seq<u8>
    decreases e,
{
    enc_bytes(e.system_id) + enc_bytes(e.from_abstraction_id) + enc_bytes(e.to_abstraction_id)
        + enc_bytes(e.message_uuid) + seq![tag_of(e.payload)] + enc_payload_fields(e.payload)
}

// ---------------------------------------------------------------------------
// Specification: well-formedness (every length-prefixed piece fits its prefix)
// ---------------------------------------------------------------------------
pub open spec fn wf_bytes(s: Seq<u8>) -> bool {
    s.len() <= u32::MAX
}

pub open spec fn wf_pid(p: ProcessIdV) -> bool {
    wf_bytes(p.host) && wf_bytes(p.owner)
}

pub open spec fn wf_payload(p: PayloadV) -> bool
    decreases p,
{
    match p {
        PayloadV::NetworkMessage { sender_host, message, .. } => wf_bytes(sender_host) && wf_env(
            *message,
        ),
        PayloadV::PlSend { destination, message } => wf_pid(destination) && wf_env(*message),
        PayloadV::PlDeliver { sender, message } => wf_pid(sender) && wf_env(*message),
        PayloadV::BebBroadcast { message } => wf_env(*message),
        PayloadV::BebDeliver { sender, message } => wf_pid(sender) && wf_env(*message),
        PayloadV::ProcRegistration { owner, .. } => wf_bytes(owner),
        PayloadV::ProcInitializeSystem { processes } => processes.len() <= u32::MAX && (forall|
            i: int,
        |
            0 <= i < processes.len() ==> wf_pid(#[trigger] processes[i])),
        PayloadV::AppRead { register } => wf_bytes(register),
        PayloadV::AppWrite { register, .. } => wf_bytes(register),
        PayloadV::AppReadReturn { register, .. } => wf_bytes(register),
        PayloadV::AppWriteReturn { register } => wf_bytes(register),
        _ => true,
    }
}

pub open spec fn wf_env(e: EnvelopeV) -> bool
    decreases e,
{
    wf_bytes(e.system_id) && wf_bytes(e.from_abstraction_id) && wf_bytes(e.to_abstraction_id)
        && wf_bytes(e.message_uuid) && wf_payload(e.payload)
}

// ---------------------------------------------------------------------------
// Specification: decoding. Each piece takes the input and a start index and
// yields the decoded value with the index just past it, or nothing.
// ---------------------------------------------------------------------------
pub open spec fn comb16(b0: u8, b1: u8) -> u16 {
    ((b0 as u16) << 8) | (b1 as u16)
}

pub open spec fn comb32(b0: u8, b1: u8, b2: u8, b3: u8) -> u32 {
    ((b0 as u32) << 24) | ((b1 as u32) << 16) | ((b2 as u32) << 8) | (b3 as u32)
}

pub open spec fn comb64(b0: u8, b1: u8, b2: u8, b3: u8, b4: u8, b5: u8, b6: u8, b7: u8) -> u64 {
    ((b0 as u64) << 56) | ((b1 as u64) << 48) | ((b2 as u64) << 40) | ((b3 as u64) << 32) | ((
    b4 as u64) << 24) | ((b5 as u64) << 16) | ((b6 as u64) << 8) | (b7 as u64)
}

pub open spec fn dec_u8(s: Seq<u8>, i: int) -> Option<(u8, int)> {
    if 0 <= i && i + 1 <= s.len() {
        Some((s[i], i + 1))
    } else {
        None
    }
}

pub open spec fn dec_u16(s: Seq<u8>, i: int) -> Option<(u16, int)> {
    if 0 <= i && i + 2 <= s.len() {
        Some((comb16(s[i], s[i + 1]), i + 2))
    } else {
        None
    }
}

pub open spec fn dec_u32(s: Seq<u8>, i: int) -> Option<(u32, int)> {
    if 0 <= i && i + 4 <= s.len() {
        Some((comb32(s[i], s[i + 1], s[i + 2], s[i + 3]), i + 4))
    } else {
        None
    }
}

pub open spec fn dec_u64(s: Seq<u8>, i: int) -> Option<(u64, int)> {
    if 0 <= i && i + 8 <= s.len() {
        Some(
            (
                comb64(s[i], s[i + 1], s[i + 2], s[i + 3], s[i + 4], s[i + 5], s[i + 6], s[i + 7]),
                i + 8,
            ),
        )
    } else {
        None
    }
}

pub open spec fn dec_i32(s: Seq<u8>, i: int) -> Option<(i32, int)> {
    match dec_u32(s, i) {
        Some((n, j)) => Some((n as i32, j)),
        None => None,
    }
}

pub open spec fn dec_bool(s: Seq<u8>, i: int) -> Option<(bool, int)> {
    match dec_u8(s, i) {
        Some((b, j)) => if b == 0 {
            Some((false, j))
        } else if b == 1 {
            Some((true, j))
        } else {
            None
        },
        None => None,
    }
}

pub open spec fn dec_bytes(s: Seq<u8>, i: int) -> Option<(Seq<u8>, int)> {
    match dec_u32(s, i) {
        Some((n, j)) => if j + n <= s.len() {
            Some((s.subrange(j, j + n), j + n))
        } else {
            None
        },
        None => None,
    }
}

pub open spec fn dec_value(s: Seq<u8>, i: int) -> Option<(RegisterValue, int)> {
    match dec_bool(s, i) {
        Some((defined, j)) => match dec_i32(s, j) {
            Some((v, k)) => Some((RegisterValue { defined, v }, k)),
            None => None,
        },
        None => None,
    }
}

pub open spec fn dec_pid(s: Seq<u8>, i: int) -> Option<(ProcessIdV, int)> {
    match dec_bytes(s, i) {
        Some((host, j1)) => match dec_u16(s, j1) {
            Some((port, j2)) => match dec_bytes(s, j2) {
                Some((owner, j3)) => match dec_u32(s, j3) {
                    Some((index, j4)) => match dec_u32(s, j4) {
                        Some((rank, j5)) => Some(
                            (ProcessIdV { host, port, owner, index, rank }, j5),
                        ),
                        None => None,
                    },
                    None => None,
                },
                None => None,
            },
            None => None,
        },
        None => None,
    }
}

pub open spec fn dec_pid_list(s: Seq<u8>, i: int, count: nat) -> Option<(Seq<ProcessIdV>, int)>
    decreases count,
{
    if count == 0 {
        if 0 <= i <= s.len() {
            Some((Seq::<ProcessIdV>::empty(), i))
        } else {
            None
        }
    } else {
        match dec_pid(s, i) {
            Some((p, j)) => match dec_pid_list(s, j, (count - 1) as nat) {
                Some((ps, k)) => Some((seq![p] + ps, k)),
                None => None,
            },
            None => None,
        }
    }
}

/// Decodes one envelope starting at `i`. Terminates because the four
/// length-prefixed header strings and the tag take at least seventeen bytes,
/// so a nested envelope always starts strictly deeper in the input.
pub open spec fn dec_env(s: Seq<u8>, i: int) -> Option<(EnvelopeV, int)>
    decreases s.len() - i, 0int,
{
    match dec_bytes(s, i) {
        Some((system_id, i1)) => match dec_bytes(s, i1) {
            Some((from_abstraction_id, i2)) => match dec_bytes(s, i2) {
                Some((to_abstraction_id, i3)) => match dec_bytes(s, i3) {
                    Some((message_uuid, i4)) => match dec_u8(s, i4) {
                        Some((tag, i5)) => match dec_payload_fields(s, i5, tag) {
                            Some((payload, i6)) => Some(
                                (
                                    EnvelopeV {
                                        system_id,
                                        from_abstraction_id,
                                        to_abstraction_id,
                                        message_uuid,
                                        payload,
                                    },
                                    i6,
                                ),
                            ),
                            None => None,
                        },
                        None => None,
                    },
                    None => None,
                },
                None => None,
            },
            None => None,
        },
        None => None,
    }
}

pub open spec fn dec_payload_fields(s: Seq<u8>, i: int, tag: u8) -> Option<(PayloadV, int)>
    decreases s.len() - i, 1int,
{
    if tag == 0 {
        match dec_bytes(s, i) {
            Some((sender_host, j1)) => match dec_u16(s, j1) {
                Some((sender_listening_port, j2)) => match dec_env(s, j2) {
                    Some((m, j3)) => Some(
                        (
                            PayloadV::NetworkMessage {
                                sender_host,
                                sender_listening_port,
                                message: Box::new(m),
                            },
                            j3,
                        ),
                    ),
                    None => None,
                },
                None => None,
            },
            None => None,
        }
    } else if tag == 1 {
        match dec_pid(s, i) {
            Some((destination, j1)) => match dec_env(s, j1) {
                Some((m, j2)) => Some(
                    (PayloadV::PlSend { destination, message: Box::new(m) }, j2),
                ),
                None => None,
            },
            None => None,
        }
    } else if tag == 2 {
        match dec_pid(s, i) {
            Some((sender, j1)) => match dec_env(s, j1) {
                Some((m, j2)) => Some((PayloadV::PlDeliver { sender, message: Box::new(m) }, j2)),
                None => None,
            },
            None => None,
        }
    } else if tag == 3 {
        match dec_env(s, i) {
            Some((m, j1)) => Some((PayloadV::BebBroadcast { message: Box::new(m) }, j1)),
            None => None,
        }
    } else if tag == 4 {
        match dec_pid(s, i) {
            Some((sender, j1)) => match dec_env(s, j1) {
                Some((m, j2)) => Some((PayloadV::BebDeliver { sender, message: Box::new(m) }, j2)),
                None => None,
            },
            None => None,
        }
    } else if tag == 5 {
        match dec_bytes(s, i) {
            Some((owner, j1)) => match dec_u32(s, j1) {
                Some((index, j2)) => Some((PayloadV::ProcRegistration { owner, index }, j2)),
                None => None,
            },
            None => None,
        }
    } else if tag == 6 {
        match dec_u32(s, i) {
            Some((count, j1)) => match dec_pid_list(s, j1, count as nat) {
                Some((processes, j2)) => Some(
                    (PayloadV::ProcInitializeSystem { processes }, j2),
                ),
                None => None,
            },
            None => None,
        }
    } else if tag == 7 {
        match dec_value(s, i) {
            Some((value, j1)) => Some((PayloadV::AppBroadcast { value }, j1)),
            None => None,
        }
    } else if tag == 8 {
        match dec_value(s, i) {
            Some((value, j1)) => Some((PayloadV::AppValue { value }, j1)),
            None => None,
        }
    } else if tag == 9 {
        match dec_bytes(s, i) {
            Some((register, j1)) => Some((PayloadV::AppRead { register }, j1)),
            None => None,
        }
    } else if tag == 10 {
        match dec_bytes(s, i) {
            Some((register, j1)) => match dec_value(s, j1) {
                Some((value, j2)) => Some((PayloadV::AppWrite { register, value }, j2)),
                None => None,
            },
            None => None,
        }
    } else if tag == 11 {
        match dec_bytes(s, i) {
            Some((register, j1)) => match dec_value(s, j1) {
                Some((value, j2)) => Some((PayloadV::AppReadReturn { register, value }, j2)),
                None => None,
            },
            None => None,
        }
    } else if tag == 12 {
        match dec_bytes(s, i) {
            Some((register, j1)) => Some((PayloadV::AppWriteReturn { register }, j1)),
            None => None,
        }
    } else if tag == 13 {
        if 0 <= i <= s.len() {
            Some((PayloadV::NnarRead, i))
        } else {
            None
        }
    } else if tag == 14 {
        match dec_value(s, i) {
            Some((value, j1)) => Some((PayloadV::NnarWrite { value }, j1)),
            None => None,
        }
    } else if tag == 15 {
        match dec_value(s, i) {
            Some((value, j1)) => Some((PayloadV::NnarReadReturn { value }, j1)),
            None => None,
        }
    } else if tag == 16 {
        if 0 <= i <= s.len() {
            Some((PayloadV::NnarWriteReturn, i))
        } else {
            None
        }
    } else if tag == 17 {
        match dec_u64(s, i) {
            Some((read_id, j1)) => Some((PayloadV::NnarInternalRead { read_id }, j1)),
            None => None,
        }
    } else if tag == 18 {
        match dec_internal_triple(s, i) {
            Some(((read_id, timestamp, writer_rank, value), j1)) => Some(
                (PayloadV::NnarInternalValue { read_id, timestamp, writer_rank, value }, j1),
            ),
            None => None,
        }
    } else if tag == 19 {
        match dec_internal_triple(s, i) {
            Some(((read_id, timestamp, writer_rank, value), j1)) => Some(
                (PayloadV::NnarInternalWrite { read_id, timestamp, writer_rank, value }, j1),
            ),
            None => None,
        }
    } else if tag == 20 {
        match dec_u64(s, i) {
            Some((read_id, j1)) => Some((PayloadV::NnarInternalAck { read_id }, j1)),
            None => None,
        }
    } else {
        None
    }
}

pub open spec fn dec_internal_triple(s: Seq<u8>, i: int) -> Option<
    ((u64, u64, u32, RegisterValue), int),
> {
    match dec_u64(s, i) {
        Some((read_id, j1)) => match dec_u64(s, j1) {
            Some((timestamp, j2)) => match dec_u32(s, j2) {
                Some((writer_rank, j3)) => match dec_value(s, j3) {
                    Some((value, j4)) => Some(((read_id, timestamp, writer_rank, value), j4)),
                    None => None,
                },
                None => None,
            },
            None => None,
        },
        None => None,
    }
}

// ---------------------------------------------------------------------------
// Executable encoder
// ---------------------------------------------------------------------------
fn push_u16(out: &mut Vec<u8>, n: u16)
    ensures
        final(out)@ == old(out)@ + enc_u16(n),
{
    out.push((n >> 8) as u8);
    out.push(n as u8);
    proof {
        assert(out@ =~= old(out)@ + enc_u16(n));
    }
}

fn push_u32(out: &mut Vec<u8>, n: u32)
    ensures
        final(out)@ == old(out)@ + enc_u32(n),
{
    out.push((n >> 24) as u8);
    out.push((n >> 16) as u8);
    out.push((n >> 8) as u8);
    out.push(n as u8);
    proof {
        assert(out@ =~= old(out)@ + enc_u32(n));
    }
}

fn push_u64(out: &mut Vec<u8>, n: u64)
    ensures
        final(out)@ == old(out)@ + enc_u64(n),
{
    out.push((n >> 56) as u8);
    out.push((n >> 48) as u8);
    out.push((n >> 40) as u8);
    out.push((n >> 32) as u8);
    out.push((n >> 24) as u8);
    out.push((n >> 16) as u8);
    out.push((n >> 8) as u8);
    out.push(n as u8);
    proof {
        assert(out@ =~= old(out)@ + enc_u64(n));
    }
}

fn push_i32(out: &mut Vec<u8>, n: i32)
    ensures
        final(out)@ == old(out)@ + enc_i32(n),
{
    push_u32(out, n as u32);
}

fn push_bool(out: &mut Vec<u8>, b: bool)
    ensures
        final(out)@ == old(out)@ + enc_bool(b),
{
    out.push(if b { 1u8 } else { 0u8 });
    proof {
        assert(out@ =~= old(out)@ + enc_bool(b));
    }
}

fn push_bytes(out: &mut Vec<u8>, v: &Vec<u8>)
    requires
        wf_bytes(v@),
    ensures
        final(out)@ == old(out)@ + enc_bytes(v@),
{
    push_u32(out, v.len() as u32);
    crate::bytestr::append_bytes(out, v);
    proof {
        assert(out@ =~= old(out)@ + enc_bytes(v@));
    }
}

fn push_value(out: &mut Vec<u8>, v: &RegisterValue)
    ensures
        final(out)@ == old(out)@ + enc_value(*v),
{
    push_bool(out, v.defined);
    push_i32(out, v.v);
    proof {
        assert(out@ =~= old(out)@ + enc_value(*v));
    }
}

fn push_pid(out: &mut Vec<u8>, p: &ProcessId)
    requires
        wf_pid(p@),
    ensures
        final(out)@ == old(out)@ + enc_pid(p@),
{
    push_bytes(out, &p.host);
    push_u16(out, p.port);
    push_bytes(out, &p.owner);
    push_u32(out, p.index);
    push_u32(out, p.rank);
    proof {
        assert(out@ =~= old(out)@ + enc_pid(p@));
    }
}

proof fn lemma_enc_pid_list_snoc(ps: Seq<ProcessIdV>, p: ProcessIdV)
    ensures
        enc_pid_list(ps.push(p)) == enc_pid_list(ps) + enc_pid(p),
    decreases ps.len(),
{
    if ps.len() == 0 {
        assert(ps.push(p)[0] == p);
        assert(ps.push(p).skip(1) =~= Seq::<ProcessIdV>::empty());
        assert(enc_pid_list(Seq::<ProcessIdV>::empty()) == Seq::<u8>::empty());
        assert(enc_pid_list(ps.push(p)) =~= enc_pid_list(ps) + enc_pid(p));
    } else {
        assert(ps.push(p).skip(1) =~= ps.skip(1).push(p));
        lemma_enc_pid_list_snoc(ps.skip(1), p);
        assert(ps.push(p)[0] == ps[0]);
        assert(enc_pid_list(ps.push(p)) =~= enc_pid_list(ps) + enc_pid(p));
    }
}

fn push_pid_list(out: &mut Vec<u8>, ps: &Vec<ProcessId>)
    requires
        ps@.len() <= u32::MAX,
        forall|i: int| 0 <= i < ps@.len() ==> wf_pid(#[trigger] ps.deep_view()[i]),
    ensures
        final(out)@ == old(out)@ + enc_u32(ps@.len() as u32) + enc_pid_list(ps.deep_view()),
{
    push_u32(out, ps.len() as u32);
    let mut i: usize = 0;
    while i < ps.len()
        invariant
            i <= ps@.len(),
            ps@.len() <= u32::MAX,
            forall|k: int| 0 <= k < ps@.len() ==> wf_pid(#[trigger] ps.deep_view()[k]),
            out@ == old(out)@ + enc_u32(ps@.len() as u32) + enc_pid_list(
                ps.deep_view().take(i as int),
            ),
        decreases ps@.len() - i,
    {
        proof {
            assert(ps.deep_view().take(i as int).push(ps.deep_view()[i as int]) =~= ps.deep_view()
                .take(i as int + 1));
            lemma_enc_pid_list_snoc(ps.deep_view().take(i as int), ps.deep_view()[i as int]);
        }
        push_pid(out, &ps[i]);
        i += 1;
    }
    proof {
        assert(ps.deep_view().take(ps@.len() as int) =~= ps.deep_view());
    }
}

/// Appends the tag and field encoding of `p` to `out`.
fn encode_payload_into(p: &Payload, out: &mut Vec<u8>)
    requires
        wf_payload(p@),
    ensures
        final(out)@ == old(out)@ + seq![tag_of(p@)] + enc_payload_fields(p@),
    decreases *p,
{
    match p {
        Payload::NetworkMessage { sender_host, sender_listening_port, message } => {
            out.push(0u8);
            push_bytes(out, sender_host);
            push_u16(out, *sender_listening_port);
            encode_env_into(message, out);
            proof {
                assert(out@ =~= old(out)@ + seq![tag_of(p@)] + enc_payload_fields(p@));
            }
        },
        Payload::PlSend { destination, message } => {
            out.push(1u8);
            push_pid(out, destination);
            encode_env_into(message, out);
            proof {
                assert(out@ =~= old(out)@ + seq![tag_of(p@)] + enc_payload_fields(p@));
            }
        },
        Payload::PlDeliver { sender, message } => {
            out.push(2u8);
            push_pid(out, sender);
            encode_env_into(message, out);
            proof {
                assert(out@ =~= old(out)@ + seq![tag_of(p@)] + enc_payload_fields(p@));
            }
        },
        Payload::BebBroadcast { message } => {
            out.push(3u8);
            encode_env_into(message, out);
            proof {
                assert(out@ =~= old(out)@ + seq![tag_of(p@)] + enc_payload_fields(p@));
            }
        },
        Payload::BebDeliver { sender, message } => {
            out.push(4u8);
            push_pid(out, sender);
            encode_env_into(message, out);
            proof {
                assert(out@ =~= old(out)@ + seq![tag_of(p@)] + enc_payload_fields(p@));
            }
        },
        Payload::ProcRegistration { owner, index } => {
            out.push(5u8);
            push_bytes(out, owner);
            push_u32(out, *index);
            proof {
                assert(out@ =~= old(out)@ + seq![tag_of(p@)] + enc_payload_fields(p@));
            }
        },
        Payload::ProcInitializeSystem { processes } => {
            out.push(6u8);
            push_pid_list(out, processes);
            proof {
                assert(out@ =~= old(out)@ + seq![tag_of(p@)] + enc_payload_fields(p@));
            }
        },
        Payload::AppBroadcast { value } => {
            out.push(7u8);
            push_value(out, value);
            proof {
                assert(out@ =~= old(out)@ + seq![tag_of(p@)] + enc_payload_fields(p@));
            }
        },
        Payload::AppValue { value } => {
            out.push(8u8);
            push_value(out, value);
            proof {
                assert(out@ =~= old(out)@ + seq![tag_of(p@)] + enc_payload_fields(p@));
            }
        },
        Payload::AppRead { register } => {
            out.push(9u8);
            push_bytes(out, register);
            proof {
                assert(out@ =~= old(out)@ + seq![tag_of(p@)] + enc_payload_fields(p@));
            }
        },
        Payload::AppWrite { register, value } => {
            out.push(10u8);
            push_bytes(out, register);
            push_value(out, value);
            proof {
                assert(out@ =~= old(out)@ + seq![tag_of(p@)] + enc_payload_fields(p@));
            }
        },
        Payload::AppReadReturn { register, value } => {
            out.push(11u8);
            push_bytes(out, register);
            push_value(out, value);
            proof {
                assert(out@ =~= old(out)@ + seq![tag_of(p@)] + enc_payload_fields(p@));
            }
        },
        Payload::AppWriteReturn { register } => {
            out.push(12u8);
            push_bytes(out, register);
            proof {
                assert(out@ =~= old(out)@ + seq![tag_of(p@)] + enc_payload_fields(p@));
            }
        },
        Payload::NnarRead => {
            out.push(13u8);
            proof {
                assert(out@ =~= old(out)@ + seq![tag_of(p@)] + enc_payload_fields(p@));
            }
        },
        Payload::NnarWrite { value } => {
            out.push(14u8);
            push_value(out, value);
            proof {
                assert(out@ =~= old(out)@ + seq![tag_of(p@)] + enc_payload_fields(p@));
            }
        },
        Payload::NnarReadReturn { value } => {
            out.push(15u8);
            push_value(out, value);
            proof {
                assert(out@ =~= old(out)@ + seq![tag_of(p@)] + enc_payload_fields(p@));
            }
        },
        Payload::NnarWriteReturn => {
            out.push(16u8);
            proof {
                assert(out@ =~= old(out)@ + seq![tag_of(p@)] + enc_payload_fields(p@));
            }
        },
        Payload::NnarInternalRead { read_id } => {
            out.push(17u8);
            push_u64(out, *read_id);
            proof {
                assert(out@ =~= old(out)@ + seq![tag_of(p@)] + enc_payload_fields(p@));
            }
        },
        Payload::NnarInternalValue { read_id, timestamp, writer_rank, value } => {
            out.push(18u8);
            push_u64(out, *read_id);
            push_u64(out, *timestamp);
            push_u32(out, *writer_rank);
            push_value(out, value);
            proof {
                assert(out@ =~= old(out)@ + seq![tag_of(p@)] + enc_payload_fields(p@));
            }
        },
        Payload::NnarInternalWrite { read_id, timestamp, writer_rank, value } => {
            out.push(19u8);
            push_u64(out, *read_id);
            push_u64(out, *timestamp);
            push_u32(out, *writer_rank);
            push_value(out, value);
            proof {
                assert(out@ =~= old(out)@ + seq![tag_of(p@)] + enc_payload_fields(p@));
            }
        },
        Payload::NnarInternalAck { read_id } => {
            out.push(20u8);
            push_u64(out, *read_id);
            proof {
                assert(out@ =~= old(out)@ + seq![tag_of(p@)] + enc_payload_fields(p@));
            }
        },
    }
}

/// Appends the encoding of `e` to `out`.
fn encode_env_into(e: &Envelope, out: &mut Vec<u8>)
    requires
        wf_env(e@),
    ensures
        final(out)@ == old(out)@ + enc_env(e@),
    decreases *e,
{
    push_bytes(out, &e.system_id);
    push_bytes(out, &e.from_abstraction_id);
    push_bytes(out, &e.to_abstraction_id);
    push_bytes(out, &e.message_uuid);
    encode_payload_into(&e.payload, out);
    proof {
        assert(out@ =~= old(out)@ + enc_env(e@));
    }
}

// ---------------------------------------------------------------------------
// Round trip: decoding an encoding yields the original envelope.
// ---------------------------------------------------------------------------
proof fn lemma_split(s: Seq<u8>, i: int, x: Seq<u8>, y: Seq<u8>)
    requires
        0 <= i,
        i + x.len() + y.len() <= s.len(),
        s.subrange(i, i + x.len() + y.len()) == x + y,
    ensures
        s.subrange(i, i + x.len()) == x,
        s.subrange(i + x.len(), i + x.len() + y.len()) == y,
{
    assert(s.subrange(i, i + x.len()) =~= x) by {
        assert(forall|j: int|
            0 <= j < x.len() ==> s.subrange(i, i + x.len() + y.len())[j] == (x + y)[j]);
    }
    assert forall|j: int| 0 <= j < y.len() implies s.subrange(
        i + x.len(),
        i + x.len() + y.len(),
    )[j] == y[j] by {
        assert((x + y)[x.len() + j] == y[j]);
        assert(s.subrange(i, i + x.len() + y.len())[x.len() + j] == s[i + x.len() + j]);
        assert(s.subrange(i + x.len(), i + x.len() + y.len())[j] == s[i + x.len() + j]);
    }
    assert(s.subrange(i + x.len(), i + x.len() + y.len()) =~= y);
}

proof fn lemma_step_u16(s: Seq<u8>, i: int, n: u16, rest: Seq<u8>)
    requires
        0 <= i,
        i + 2 + rest.len() <= s.len(),
        s.subrange(i, i + 2 + rest.len()) == enc_u16(n) + rest,
    ensures
        dec_u16(s, i) == Some((n, i + 2)),
        s.subrange(i + 2, i + 2 + rest.len()) == rest,
{
    lemma_split(s, i, enc_u16(n), rest);
    assert(s[i] == enc_u16(n)[0] && s[i + 1] == enc_u16(n)[1]) by {
        assert(s.subrange(i, i + 2)[0] == s[i] && s.subrange(i, i + 2)[1] == s[i + 1]);
    }
    assert(comb16((n >> 8) as u8, n as u8) == n) by (bit_vector);
}

proof fn lemma_step_u32(s: Seq<u8>, i: int, n: u32, rest: Seq<u8>)
    requires
        0 <= i,
        i + 4 + rest.len() <= s.len(),
        s.subrange(i, i + 4 + rest.len()) == enc_u32(n) + rest,
    ensures
        dec_u32(s, i) == Some((n, i + 4)),
        s.subrange(i + 4, i + 4 + rest.len()) == rest,
{
    lemma_split(s, i, enc_u32(n), rest);
    assert(forall|j: int| 0 <= j < 4 ==> s[i + j] == #[trigger] enc_u32(n)[j]) by {
        assert(forall|j: int| 0 <= j < 4 ==> #[trigger] s.subrange(i, i + 4)[j] == s[i + j]);
    }
    assert(s[i] == enc_u32(n)[0] && s[i + 1] == enc_u32(n)[1] && s[i + 2] == enc_u32(n)[2] && s[i
        + 3] == enc_u32(n)[3]);
    assert(comb32((n >> 24) as u8, (n >> 16) as u8, (n >> 8) as u8, n as u8) == n) by (bit_vector);
}

proof fn lemma_step_u64(s: Seq<u8>, i: int, n: u64, rest: Seq<u8>)
    requires
        0 <= i,
        i + 8 + rest.len() <= s.len(),
        s.subrange(i, i + 8 + rest.len()) == enc_u64(n) + rest,
    ensures
        dec_u64(s, i) == Some((n, i + 8)),
        s.subrange(i + 8, i + 8 + rest.len()) == rest,
{
    lemma_split(s, i, enc_u64(n), rest);
    assert(forall|j: int| 0 <= j < 8 ==> s[i + j] == #[trigger] enc_u64(n)[j]) by {
        assert(forall|j: int| 0 <= j < 8 ==> #[trigger] s.subrange(i, i + 8)[j] == s[i + j]);
    }
    assert(s[i] == enc_u64(n)[0] && s[i + 1] == enc_u64(n)[1] && s[i + 2] == enc_u64(n)[2] && s[i
        + 3] == enc_u64(n)[3] && s[i + 4] == enc_u64(n)[4] && s[i + 5] == enc_u64(n)[5] && s[i + 6]
        == enc_u64(n)[6] && s[i + 7] == enc_u64(n)[7]);
    assert(comb64(
        (n >> 56) as u8,
        (n >> 48) as u8,
        (n >> 40) as u8,
        (n >> 32) as u8,
        (n >> 24) as u8,
        (n >> 16) as u8,
        (n >> 8) as u8,
        n as u8,
    ) == n) by (bit_vector);
}

proof fn lemma_step_i32(s: Seq<u8>, i: int, n: i32, rest: Seq<u8>)
    requires
        0 <= i,
        i + 4 + rest.len() <= s.len(),
        s.subrange(i, i + 4 + rest.len()) == enc_i32(n) + rest,
    ensures
        dec_i32(s, i) == Some((n, i + 4)),
        s.subrange(i + 4, i + 4 + rest.len()) == rest,
{
    lemma_step_u32(s, i, n as u32, rest);
    assert(forall|m: i32| #[trigger] ((m as u32) as i32) == m) by (bit_vector);
}

proof fn lemma_step_bool(s: Seq<u8>, i: int, b: bool, rest: Seq<u8>)
    requires
        0 <= i,
        i + 1 + rest.len() <= s.len(),
        s.subrange(i, i + 1 + rest.len()) == enc_bool(b) + rest,
    ensures
        dec_bool(s, i) == Some((b, i + 1)),
        s.subrange(i + 1, i + 1 + rest.len()) == rest,
{
    lemma_split(s, i, enc_bool(b), rest);
    assert(s[i] == enc_bool(b)[0]) by {
        assert(s.subrange(i, i + 1)[0] == s[i]);
    }
}

proof fn lemma_step_tag(s: Seq<u8>, i: int, t: u8, rest: Seq<u8>)
    requires
        0 <= i,
        i + 1 + rest.len() <= s.len(),
        s.subrange(i, i + 1 + rest.len()) == seq![t] + rest,
    ensures
        dec_u8(s, i) == Some((t, i + 1)),
        s.subrange(i + 1, i + 1 + rest.len()) == rest,
{
    lemma_split(s, i, seq![t], rest);
    assert(s[i] == t) by {
        assert(s.subrange(i, i + 1)[0] == s[i]);
    }
}

proof fn lemma_step_bytes(s: Seq<u8>, i: int, b: Seq<u8>, rest: Seq<u8>)
    requires
        wf_bytes(b),
        0 <= i,
        i + 4 + b.len() + rest.len() <= s.len(),
        s.subrange(i, i + 4 + b.len() + rest.len()) == enc_bytes(b) + rest,
    ensures
        dec_bytes(s, i) == Some((b, i + 4 + b.len())),
        s.subrange(i + 4 + b.len(), i + 4 + b.len() + rest.len()) == rest,
{
    assert(enc_bytes(b) + rest =~= enc_u32(b.len() as u32) + (b + rest));
    lemma_step_u32(s, i, b.len() as u32, b + rest);
    lemma_split(s, i + 4, b, rest);
}

proof fn lemma_step_value(s: Seq<u8>, i: int, v: RegisterValue, rest: Seq<u8>)
    requires
        0 <= i,
        i + 5 + rest.len() <= s.len(),
        s.subrange(i, i + 5 + rest.len()) == enc_value(v) + rest,
    ensures
        dec_value(s, i) == Some((v, i + 5)),
        s.subrange(i + 5, i + 5 + rest.len()) == rest,
{
    assert(enc_value(v) + rest =~= enc_bool(v.defined) + (enc_i32(v.v) + rest));
    lemma_step_bool(s, i, v.defined, enc_i32(v.v) + rest);
    lemma_step_i32(s, i + 1, v.v, rest);
}

proof fn lemma_step_pid(s: Seq<u8>, i: int, p: ProcessIdV, rest: Seq<u8>)
    requires
        wf_pid(p),
        0 <= i,
        i + enc_pid(p).len() + rest.len() <= s.len(),
        s.subrange(i, i + enc_pid(p).len() + rest.len()) == enc_pid(p) + rest,
    ensures
        dec_pid(s, i) == Some((p, i + enc_pid(p).len())),
        s.subrange(i + enc_pid(p).len(), i + enc_pid(p).len() + rest.len()) == rest,
{
    let r4 = enc_u32(p.rank) + rest;
    let r3 = enc_u32(p.index) + r4;
    let r2 = enc_bytes(p.owner) + r3;
    let r1 = enc_u16(p.port) + r2;
    assert(enc_pid(p) + rest =~= enc_bytes(p.host) + r1);
    lemma_step_bytes(s, i, p.host, r1);
    let i1 = i + 4 + p.host.len();
    lemma_step_u16(s, i1, p.port, r2);
    let i2 = i1 + 2;
    lemma_step_bytes(s, i2, p.owner, r3);
    let i3 = i2 + 4 + p.owner.len();
    lemma_step_u32(s, i3, p.index, r4);
    let i4 = i3 + 4;
    lemma_step_u32(s, i4, p.rank, rest);
    assert(dec_pid(s, i) == Some((p, i + enc_pid(p).len()))) by {
        assert(ProcessIdV { host: p.host, port: p.port, owner: p.owner, index: p.index, rank: p.rank }
            =~= p);
    }
}

proof fn lemma_step_pid_list(s: Seq<u8>, i: int, ps: Seq<ProcessIdV>, rest: Seq<u8>)
    requires
        forall|k: int| 0 <= k < ps.len() ==> wf_pid(#[trigger] ps[k]),
        0 <= i,
        i + enc_pid_list(ps).len() + rest.len() <= s.len(),
        s.subrange(i, i + enc_pid_list(ps).len() + rest.len()) == enc_pid_list(ps) + rest,
    ensures
        dec_pid_list(s, i, ps.len()) == Some((ps, i + enc_pid_list(ps).len())),
        s.subrange(i + enc_pid_list(ps).len(), i + enc_pid_list(ps).len() + rest.len()) == rest,
    decreases ps.len(),
{
    if ps.len() == 0 {
        assert(enc_pid_list(ps) == Seq::<u8>::empty());
        assert(dec_pid_list(s, i, 0) == Some((Seq::<ProcessIdV>::empty(), i)));
        assert(Seq::<ProcessIdV>::empty() =~= ps);
        assert(s.subrange(i, i + rest.len()) == rest);
    } else {
        let tail = ps.skip(1);
        assert(enc_pid_list(ps) == enc_pid(ps[0]) + enc_pid_list(tail));
        assert(enc_pid_list(ps) + rest =~= enc_pid(ps[0]) + (enc_pid_list(tail) + rest));
        lemma_step_pid(s, i, ps[0], enc_pid_list(tail) + rest);
        let i1 = i + enc_pid(ps[0]).len();
        assert(forall|k: int| 0 <= k < tail.len() ==> wf_pid(#[trigger] tail[k])) by {
            assert(forall|k: int| 0 <= k < tail.len() ==> tail[k] == ps[k + 1]);
        }
        lemma_step_pid_list(s, i1, tail, rest);
        assert(seq![ps[0]] + tail =~= ps);
    }
}

/// Decoding an encoding of a well-formed envelope, found at position `i` of
/// `s`, yields exactly that envelope and stops exactly after it.
pub proof fn lemma_dec_enc_env(s: Seq<u8>, i: int, e: EnvelopeV)
    requires
        wf_env(e),
        0 <= i,
        i + enc_env(e).len() <= s.len(),
        s.subrange(i, i + enc_env(e).len()) == enc_env(e),
    ensures
        dec_env(s, i) == Some((e, i + enc_env(e).len())),
    decreases e, 0int,
{
    let b1 = enc_bytes(e.system_id);
    let b2 = enc_bytes(e.from_abstraction_id);
    let b3 = enc_bytes(e.to_abstraction_id);
    let b4 = enc_bytes(e.message_uuid);
    let t = seq![tag_of(e.payload)];
    let p = enc_payload_fields(e.payload);
    let r4 = t + p;
    let r3 = b4 + r4;
    let r2 = b3 + r3;
    let r1 = b2 + r2;
    assert(enc_env(e) =~= b1 + r1);
    assert(s.subrange(i, i + b1.len() + r1.len()) == b1 + r1);
    lemma_step_bytes(s, i, e.system_id, r1);
    let i1 = i + 4 + e.system_id.len();
    lemma_step_bytes(s, i1, e.from_abstraction_id, r2);
    let i2 = i1 + 4 + e.from_abstraction_id.len();
    lemma_step_bytes(s, i2, e.to_abstraction_id, r3);
    let i3 = i2 + 4 + e.to_abstraction_id.len();
    lemma_step_bytes(s, i3, e.message_uuid, r4);
    let i4 = i3 + 4 + e.message_uuid.len();
    lemma_step_tag(s, i4, tag_of(e.payload), p);
    let i5 = i4 + 1;
    lemma_dec_enc_payload(s, i5, e.payload);
    assert(dec_env(s, i) == Some((e, i + enc_env(e).len()))) by {
        let d = dec_env(s, i)->Some_0.0;
        assert(d =~= e);
    }
}

proof fn lemma_dec_enc_payload_nested(
    s: Seq<u8>,
    i: int,
    p: PayloadV,
    lead: Seq<u8>,
    inner: EnvelopeV,
)
    requires
        wf_env(inner),
        0 <= i,
        enc_payload_fields(p) == lead + enc_env(inner),
        i + enc_payload_fields(p).len() <= s.len(),
        s.subrange(i, i + enc_payload_fields(p).len()) == enc_payload_fields(p),
        s.subrange(i + lead.len(), i + enc_payload_fields(p).len()) == enc_env(inner),
    ensures
        dec_env(s, i + lead.len()) == Some((inner, i + enc_payload_fields(p).len())),
    decreases inner, 1int,
{
    lemma_dec_enc_env(s, i + lead.len(), inner);
}

proof fn lemma_dec_enc_payload_net(s: Seq<u8>, i: int, p: PayloadV)
    requires
        wf_payload(p),
        0 <= i,
        i + enc_payload_fields(p).len() <= s.len(),
        s.subrange(i, i + enc_payload_fields(p).len()) == enc_payload_fields(p),
        p is NetworkMessage,
    ensures
        dec_payload_fields(s, i, tag_of(p)) == Some((p, i + enc_payload_fields(p).len())),
    decreases p, 1int,
{
    let whole = enc_payload_fields(p);
    match p {
        PayloadV::NetworkMessage { sender_host, sender_listening_port, message } => {
            let b = enc_bytes(sender_host);
            let u = enc_u16(sender_listening_port);
            let m = enc_env(*message);
            assert(whole =~= b + (u + m));
            lemma_step_bytes(s, i, sender_host, u + m);
            let i1 = i + 4 + sender_host.len();
            lemma_step_u16(s, i1, sender_listening_port, m);
            let i2 = i1 + 2;
            assert(whole =~= (b + u) + m);
            assert(s.subrange(i2, i + whole.len()) == m);
            lemma_dec_enc_payload_nested(s, i, p, b + u, *message);
            assert(dec_payload_fields(s, i, tag_of(p)) == Some((p, i + whole.len()))) by {
                let d = dec_payload_fields(s, i, tag_of(p))->Some_0.0;
                assert(d =~= p);
            }
        },
        _ => {
        },
    }
}

proof fn lemma_dec_enc_payload_link(s: Seq<u8>, i: int, p: PayloadV)
    requires
        wf_payload(p),
        0 <= i,
        i + enc_payload_fields(p).len() <= s.len(),
        s.subrange(i, i + enc_payload_fields(p).len()) == enc_payload_fields(p),
        p is PlSend || p is PlDeliver || p is BebDeliver,
    ensures
        dec_payload_fields(s, i, tag_of(p)) == Some((p, i + enc_payload_fields(p).len())),
    decreases p, 1int,
{
    let whole = enc_payload_fields(p);
    match p {
        PayloadV::PlSend { destination, message } => {
            let b = enc_pid(destination);
            let m = enc_env(*message);
            assert(whole =~= b + m);
            lemma_step_pid(s, i, destination, m);
            let i1 = i + b.len();
            assert(s.subrange(i1, i + whole.len()) == m);
            lemma_dec_enc_payload_nested(s, i, p, b, *message);
            assert(dec_payload_fields(s, i, tag_of(p)) == Some((p, i + whole.len()))) by {
                let d = dec_payload_fields(s, i, tag_of(p))->Some_0.0;
                assert(d =~= p);
            }
        },
        PayloadV::PlDeliver { sender, message } => {
            let b = enc_pid(sender);
            let m = enc_env(*message);
            assert(whole =~= b + m);
            lemma_step_pid(s, i, sender, m);
            let i1 = i + b.len();
            assert(s.subrange(i1, i + whole.len()) == m);
            lemma_dec_enc_payload_nested(s, i, p, b, *message);
            assert(dec_payload_fields(s, i, tag_of(p)) == Some((p, i + whole.len()))) by {
                let d = dec_payload_fields(s, i, tag_of(p))->Some_0.0;
                assert(d =~= p);
            }
        },
        PayloadV::BebDeliver { sender, message } => {
            let b = enc_pid(sender);
            let m = enc_env(*message);
            assert(whole =~= b + m);
            lemma_step_pid(s, i, sender, m);
            let i1 = i + b.len();
            assert(s.subrange(i1, i + whole.len()) == m);
            lemma_dec_enc_payload_nested(s, i, p, b, *message);
            assert(dec_payload_fields(s, i, tag_of(p)) == Some((p, i + whole.len()))) by {
                let d = dec_payload_fields(s, i, tag_of(p))->Some_0.0;
                assert(d =~= p);
            }
        },
        _ => {
        },
    }
}

proof fn lemma_dec_enc_payload_bcast(s: Seq<u8>, i: int, p: PayloadV)
    requires
        wf_payload(p),
        0 <= i,
        i + enc_payload_fields(p).len() <= s.len(),
        s.subrange(i, i + enc_payload_fields(p).len()) == enc_payload_fields(p),
        p is BebBroadcast,
    ensures
        dec_payload_fields(s, i, tag_of(p)) == Some((p, i + enc_payload_fields(p).len())),
    decreases p, 1int,
{
    let whole = enc_payload_fields(p);
    match p {
        PayloadV::BebBroadcast { message } => {
            let m = enc_env(*message);
            assert(whole =~= Seq::<u8>::empty() + m);
            assert(s.subrange(i + 0, i + whole.len()) == m);
            lemma_dec_enc_payload_nested(s, i, p, Seq::<u8>::empty(), *message);
            assert(dec_payload_fields(s, i, tag_of(p)) == Some((p, i + whole.len()))) by {
                let d = dec_payload_fields(s, i, tag_of(p))->Some_0.0;
                assert(d =~= p);
            }
        },
        _ => {
        },
    }
}

proof fn lemma_dec_enc_payload(s: Seq<u8>, i: int, p: PayloadV)
    requires
        wf_payload(p),
        0 <= i,
        i + enc_payload_fields(p).len() <= s.len(),
        s.subrange(i, i + enc_payload_fields(p).len()) == enc_payload_fields(p),
    ensures
        dec_payload_fields(s, i, tag_of(p)) == Some((p, i + enc_payload_fields(p).len())),
    decreases p, 2int,
{
    match p {
        PayloadV::NetworkMessage { .. } => {
            lemma_dec_enc_payload_net(s, i, p);
        },
        PayloadV::PlSend { .. } | PayloadV::PlDeliver { .. } | PayloadV::BebDeliver { .. } => {
            lemma_dec_enc_payload_link(s, i, p);
        },
        PayloadV::BebBroadcast { .. } => {
            lemma_dec_enc_payload_bcast(s, i, p);
        },
        PayloadV::NnarRead | PayloadV::NnarWrite { .. } | PayloadV::NnarReadReturn { .. }
            | PayloadV::NnarWriteReturn | PayloadV::NnarInternalRead { .. }
            | PayloadV::NnarInternalValue { .. } | PayloadV::NnarInternalWrite { .. }
            | PayloadV::NnarInternalAck { .. } => {
            lemma_dec_enc_payload_nnar(s, i, p);
        },
        PayloadV::AppBroadcast { .. } | PayloadV::AppValue { .. } | PayloadV::AppRead { .. }
            | PayloadV::AppWrite { .. } | PayloadV::AppReadReturn { .. }
            | PayloadV::AppWriteReturn { .. } => {
            lemma_dec_enc_payload_app(s, i, p);
        },
        _ => {
            lemma_dec_enc_payload_plain(s, i, p);
        },
    }
}

#[verifier::rlimit(100)]
proof fn lemma_dec_enc_payload_plain(s: Seq<u8>, i: int, p: PayloadV)
    requires
        wf_payload(p),
        0 <= i,
        i + enc_payload_fields(p).len() <= s.len(),
        s.subrange(i, i + enc_payload_fields(p).len()) == enc_payload_fields(p),
        p is ProcRegistration || p is ProcInitializeSystem,
    ensures
        dec_payload_fields(s, i, tag_of(p)) == Some((p, i + enc_payload_fields(p).len())),
{
    let whole = enc_payload_fields(p);
    match p {
        PayloadV::ProcRegistration { owner, index } => {
            let u = enc_u32(index);
            assert(whole =~= enc_bytes(owner) + u);
            lemma_step_bytes(s, i, owner, u);
            let i1 = i + 4 + owner.len();
            lemma_step_u32(s, i1, index, Seq::<u8>::empty());
        },
        PayloadV::ProcInitializeSystem { processes } => {
            let c = enc_u32(processes.len() as u32);
            let l = enc_pid_list(processes);
            assert(whole =~= c + (l + Seq::<u8>::empty()));
            lemma_step_u32(s, i, processes.len() as u32, l + Seq::<u8>::empty());
            assert(l + Seq::<u8>::empty() =~= l);
            let i1 = i + 4;
            lemma_step_pid_list(s, i1, processes, Seq::<u8>::empty());
            assert((processes.len() as u32) as nat == processes.len());
        },
        _ => {
        },
    }
}

#[verifier::rlimit(100)]
proof fn lemma_dec_enc_payload_app(s: Seq<u8>, i: int, p: PayloadV)
    requires
        wf_payload(p),
        0 <= i,
        i + enc_payload_fields(p).len() <= s.len(),
        s.subrange(i, i + enc_payload_fields(p).len()) == enc_payload_fields(p),
        p is AppBroadcast || p is AppValue || p is AppRead || p is AppWrite || p is AppReadReturn
            || p is AppWriteReturn,
    ensures
        dec_payload_fields(s, i, tag_of(p)) == Some((p, i + enc_payload_fields(p).len())),
{
    let whole = enc_payload_fields(p);
    match p {
        PayloadV::AppBroadcast { value } => {
            assert(whole =~= enc_value(value) + Seq::<u8>::empty());
            lemma_step_value(s, i, value, Seq::<u8>::empty());
        },
        PayloadV::AppValue { value } => {
            assert(whole =~= enc_value(value) + Seq::<u8>::empty());
            lemma_step_value(s, i, value, Seq::<u8>::empty());
        },
        PayloadV::AppRead { register } => {
            assert(whole =~= enc_bytes(register) + Seq::<u8>::empty());
            lemma_step_bytes(s, i, register, Seq::<u8>::empty());
        },
        PayloadV::AppWrite { register, value } => {
            let v = enc_value(value);
            assert(whole =~= enc_bytes(register) + v);
            lemma_step_bytes(s, i, register, v);
            let i1 = i + 4 + register.len();
            lemma_step_value(s, i1, value, Seq::<u8>::empty());
        },
        PayloadV::AppReadReturn { register, value } => {
            let v = enc_value(value);
            assert(whole =~= enc_bytes(register) + v);
            lemma_step_bytes(s, i, register, v);
            let i1 = i + 4 + register.len();
            lemma_step_value(s, i1, value, Seq::<u8>::empty());
        },
        PayloadV::AppWriteReturn { register } => {
            assert(whole =~= enc_bytes(register) + Seq::<u8>::empty());
            lemma_step_bytes(s, i, register, Seq::<u8>::empty());
        },
        _ => {
        },
    }
}

#[verifier::rlimit(100)]
proof fn lemma_dec_enc_payload_nnar(s: Seq<u8>, i: int, p: PayloadV)
    requires
        wf_payload(p),
        0 <= i,
        i + enc_payload_fields(p).len() <= s.len(),
        s.subrange(i, i + enc_payload_fields(p).len()) == enc_payload_fields(p),
        p is NnarRead || p is NnarWrite || p is NnarReadReturn || p is NnarWriteReturn
            || p is NnarInternalRead || p is NnarInternalValue || p is NnarInternalWrite
            || p is NnarInternalAck,
    ensures
        dec_payload_fields(s, i, tag_of(p)) == Some((p, i + enc_payload_fields(p).len())),
{
    let whole = enc_payload_fields(p);
    match p {
        PayloadV::NnarRead => {
        },
        PayloadV::NnarWrite { value } => {
            assert(whole =~= enc_value(value) + Seq::<u8>::empty());
            lemma_step_value(s, i, value, Seq::<u8>::empty());
        },
        PayloadV::NnarReadReturn { value } => {
            assert(whole =~= enc_value(value) + Seq::<u8>::empty());
            lemma_step_value(s, i, value, Seq::<u8>::empty());
        },
        PayloadV::NnarWriteReturn => {
        },
        PayloadV::NnarInternalRead { read_id } => {
            assert(whole =~= enc_u64(read_id) + Seq::<u8>::empty());
            lemma_step_u64(s, i, read_id, Seq::<u8>::empty());
        },
        PayloadV::NnarInternalValue { read_id, timestamp, writer_rank, value } => {
            let r3 = enc_value(value);
            let r2 = enc_u32(writer_rank) + r3;
            let r1 = enc_u64(timestamp) + r2;
            assert(whole =~= enc_u64(read_id) + r1);
            lemma_step_u64(s, i, read_id, r1);
            lemma_step_u64(s, i + 8, timestamp, r2);
            lemma_step_u32(s, i + 16, writer_rank, r3);
            lemma_step_value(s, i + 20, value, Seq::<u8>::empty());
        },
        PayloadV::NnarInternalWrite { read_id, timestamp, writer_rank, value } => {
            let r3 = enc_value(value);
            let r2 = enc_u32(writer_rank) + r3;
            let r1 = enc_u64(timestamp) + r2;
            assert(whole =~= enc_u64(read_id) + r1);
            lemma_step_u64(s, i, read_id, r1);
            lemma_step_u64(s, i + 8, timestamp, r2);
            lemma_step_u32(s, i + 16, writer_rank, r3);
            lemma_step_value(s, i + 20, value, Seq::<u8>::empty());
        },
        PayloadV::NnarInternalAck { read_id } => {
            assert(whole =~= enc_u64(read_id) + Seq::<u8>::empty());
            lemma_step_u64(s, i, read_id, Seq::<u8>::empty());
        },
        _ => {
        },
    }
}
/// The wire round trip: for any well-formed envelope value, decoding its
/// encoding reproduces it, field for field, consuming every byte.
pub proof fn lemma_round_trip(e: EnvelopeV)
    requires
        wf_env(e),
    ensures
        dec_env(enc_env(e), 0) == Some((e, enc_env(e).len() as int)),
{
    let s = enc_env(e);
    assert(s.subrange(0, s.len() as int) =~= s);
    lemma_dec_enc_env(s, 0, e);
}

// ---------------------------------------------------------------------------
// Executable decoder
// ---------------------------------------------------------------------------
fn take_bytes(s: &Vec<u8>, start: usize, n: usize) -> (r: Vec<u8>)
    requires
        start + n <= s@.len(),
    ensures
        r@ == s@.subrange(start as int, start as int + n as int),
{
    let mut r: Vec<u8> = Vec::new();
    let mut k: usize = 0;
    let slen = s.len();
    while k < n
        invariant
            k <= n,
            start + n <= s@.len(),
            s@.len() <= usize::MAX,
            r@ == s@.subrange(start as int, start as int + k as int),
        decreases n - k,
    {
        proof {
            assert(s@.subrange(start as int, start as int + k as int + 1) =~= s@.subrange(
                start as int,
                start as int + k as int,
            ).push(s@[start as int + k as int]));
        }
        r.push(s[start + k]);
        k += 1;
    }
    r
}

fn read_u8(s: &Vec<u8>, i: usize) -> (r: Option<(u8, usize)>)
    ensures
        match r {
            Some((v, j)) => dec_u8(s@, i as int) == Some((v, j as int)) && i < j <= s@.len(),
            None => dec_u8(s@, i as int) is None,
        },
{
    if i < s.len() {
        Some((s[i], i + 1))
    } else {
        None
    }
}

fn read_u16(s: &Vec<u8>, i: usize) -> (r: Option<(u16, usize)>)
    ensures
        match r {
            Some((v, j)) => dec_u16(s@, i as int) == Some((v, j as int)) && i < j <= s@.len(),
            None => dec_u16(s@, i as int) is None,
        },
{
    if s.len() >= 2 && i <= s.len() - 2 {
        let v = ((s[i] as u16) << 8u16) | (s[i + 1] as u16);
        Some((v, i + 2))
    } else {
        None
    }
}

fn read_u32(s: &Vec<u8>, i: usize) -> (r: Option<(u32, usize)>)
    ensures
        match r {
            Some((v, j)) => dec_u32(s@, i as int) == Some((v, j as int)) && i < j <= s@.len(),
            None => dec_u32(s@, i as int) is None,
        },
{
    if s.len() >= 4 && i <= s.len() - 4 {
        let v = ((s[i] as u32) << 24u32) | ((s[i + 1] as u32) << 16u32) | ((s[i + 2] as u32)
            << 8u32) | (s[i + 3] as u32);
        Some((v, i + 4))
    } else {
        None
    }
}

fn read_u64(s: &Vec<u8>, i: usize) -> (r: Option<(u64, usize)>)
    ensures
        match r {
            Some((v, j)) => dec_u64(s@, i as int) == Some((v, j as int)) && i < j <= s@.len(),
            None => dec_u64(s@, i as int) is None,
        },
{
    if s.len() >= 8 && i <= s.len() - 8 {
        let v = ((s[i] as u64) << 56u64) | ((s[i + 1] as u64) << 48u64) | ((s[i + 2] as u64)
            << 40u64) | ((s[i + 3] as u64) << 32u64) | ((s[i + 4] as u64) << 24u64) | ((s[i
            + 5] as u64) << 16u64) | ((s[i + 6] as u64) << 8u64) | (s[i + 7] as u64);
        Some((v, i + 8))
    } else {
        None
    }
}

fn read_i32(s: &Vec<u8>, i: usize) -> (r: Option<(i32, usize)>)
    ensures
        match r {
            Some((v, j)) => dec_i32(s@, i as int) == Some((v, j as int)) && i < j <= s@.len(),
            None => dec_i32(s@, i as int) is None,
        },
{
    match read_u32(s, i) {
        Some((v, j)) => Some((v as i32, j)),
        None => None,
    }
}

fn read_bool(s: &Vec<u8>, i: usize) -> (r: Option<(bool, usize)>)
    ensures
        match r {
            Some((v, j)) => dec_bool(s@, i as int) == Some((v, j as int)) && i < j <= s@.len(),
            None => dec_bool(s@, i as int) is None,
        },
{
    match read_u8(s, i) {
        Some((b, j)) => {
            if b == 0 {
                Some((false, j))
            } else if b == 1 {
                Some((true, j))
            } else {
                None
            }
        },
        None => None,
    }
}

fn read_bytes(s: &Vec<u8>, i: usize) -> (r: Option<(Vec<u8>, usize)>)
    ensures
        match r {
            Some((v, j)) => dec_bytes(s@, i as int) == Some((v@, j as int)) && i < j <= s@.len(),
            None => dec_bytes(s@, i as int) is None,
        },
{
    match read_u32(s, i) {
        Some((n, j)) => {
            let n_us = n as usize;
            if n_us <= s.len() - j {
                let v = take_bytes(s, j, n_us);
                Some((v, j + n_us))
            } else {
                None
            }
        },
        None => None,
    }
}

fn read_value(s: &Vec<u8>, i: usize) -> (r: Option<(RegisterValue, usize)>)
    ensures
        match r {
            Some((v, j)) => dec_value(s@, i as int) == Some((v, j as int)) && i < j <= s@.len(),
            None => dec_value(s@, i as int) is None,
        },
{
    match read_bool(s, i) {
        Some((defined, j)) => match read_i32(s, j) {
            Some((v, k)) => Some((RegisterValue { defined, v }, k)),
            None => None,
        },
        None => None,
    }
}

fn read_pid(s: &Vec<u8>, i: usize) -> (r: Option<(ProcessId, usize)>)
    ensures
        match r {
            Some((v, j)) => dec_pid(s@, i as int) == Some((v@, j as int)) && i < j <= s@.len(),
            None => dec_pid(s@, i as int) is None,
        },
{
    match read_bytes(s, i) {
        Some((host, j1)) => match read_u16(s, j1) {
            Some((port, j2)) => match read_bytes(s, j2) {
                Some((owner, j3)) => match read_u32(s, j3) {
                    Some((index, j4)) => match read_u32(s, j4) {
                        Some((rank, j5)) => Some((ProcessId { host, port, owner, index, rank }, j5)),
                        None => None,
                    },
                    None => None,
                },
                None => None,
            },
            None => None,
        },
        None => None,
    }
}

fn read_pid_list(s: &Vec<u8>, i: usize, count: u32) -> (r: Option<(Vec<ProcessId>, usize)>)
    requires
        i <= s@.len(),
    ensures
        match r {
            Some((v, j)) => dec_pid_list(s@, i as int, count as nat) == Some(
                (v.deep_view(), j as int),
            ) && i <= j <= s@.len(),
            None => dec_pid_list(s@, i as int, count as nat) is None,
        },
{
    let mut acc: Vec<ProcessId> = Vec::new();
    let mut cur: usize = i;
    let mut rem: u32 = count;
    while rem > 0
        invariant
            cur <= s@.len(),
            i <= cur,
            match dec_pid_list(s@, cur as int, rem as nat) {
                Some((ps, j)) => dec_pid_list(s@, i as int, count as nat) == Some(
                    (acc.deep_view() + ps, j),
                ),
                None => dec_pid_list(s@, i as int, count as nat) is None,
            },
        decreases rem,
    {
        match read_pid(s, cur) {
            Some((p, j)) => {
                let ghost prev = acc.deep_view();
                acc.push(p);
                proof {
                    assert(acc.deep_view() =~= prev.push(p@));
                    let tail = dec_pid_list(s@, j as int, (rem - 1) as nat);
                    if tail is Some {
                        let (ps, k) = tail->Some_0;
                        assert(dec_pid_list(s@, cur as int, rem as nat) == Some(
                            (seq![p@] + ps, k),
                        ));
                        assert(prev.push(p@) + ps =~= prev + (seq![p@] + ps));
                    } else {
                        assert(dec_pid_list(s@, cur as int, rem as nat) is None);
                    }
                }
                cur = j;
                rem = rem - 1;
            },
            None => {
                proof {
                    assert(dec_pid_list(s@, cur as int, rem as nat) is None);
                }
                return None;
            },
        }
    }
    proof {
        assert(dec_pid_list(s@, cur as int, 0) == Some((Seq::<ProcessIdV>::empty(), cur as int)));
        assert(acc.deep_view() + Seq::<ProcessIdV>::empty() =~= acc.deep_view());
    }
    Some((acc, cur))
}

/// Parses one envelope starting at `i`.
fn parse_env(s: &Vec<u8>, i: usize) -> (r: Option<(Envelope, usize)>)
    ensures
        match r {
            Some((e, j)) => dec_env(s@, i as int) == Some((e@, j as int)) && i < j <= s@.len(),
            None => dec_env(s@, i as int) is None,
        },
    decreases s@.len() - i, 0int,
{
    match read_bytes(s, i) {
        Some((system_id, i1)) => match read_bytes(s, i1) {
            Some((from_abstraction_id, i2)) => match read_bytes(s, i2) {
                Some((to_abstraction_id, i3)) => match read_bytes(s, i3) {
                    Some((message_uuid, i4)) => match read_u8(s, i4) {
                        Some((tag, i5)) => match parse_payload(s, i5, tag) {
                            Some((payload, i6)) => Some(
                                (
                                    Envelope {
                                        system_id,
                                        from_abstraction_id,
                                        to_abstraction_id,
                                        message_uuid,
                                        payload,
                                    },
                                    i6,
                                ),
                            ),
                            None => None,
                        },
                        None => None,
                    },
                    None => None,
                },
                None => None,
            },
            None => None,
        },
        None => None,
    }
}

/// Parses the fields of the payload variant selected by `tag`.
fn parse_payload(s: &Vec<u8>, i: usize, tag: u8) -> (r: Option<(Payload, usize)>)
    ensures
        match r {
            Some((p, j)) => dec_payload_fields(s@, i as int, tag) == Some((p@, j as int)) && i <= j
                <= s@.len(),
            None => dec_payload_fields(s@, i as int, tag) is None,
        },
    decreases s@.len() - i, 1int,
{
    if tag == 0 {
        match read_bytes(s, i) {
            Some((sender_host, j1)) => match read_u16(s, j1) {
                Some((sender_listening_port, j2)) => match parse_env(s, j2) {
                    Some((m, j3)) => Some(
                        (
                            Payload::NetworkMessage {
                                sender_host,
                                sender_listening_port,
                                message: Box::new(m),
                            },
                            j3,
                        ),
                    ),
                    None => None,
                },
                None => None,
            },
            None => None,
        }
    } else if tag == 1 {
        match read_pid(s, i) {
            Some((destination, j1)) => match parse_env(s, j1) {
                Some((m, j2)) => Some((Payload::PlSend { destination, message: Box::new(m) }, j2)),
                None => None,
            },
            None => None,
        }
    } else if tag == 2 {
        match read_pid(s, i) {
            Some((sender, j1)) => match parse_env(s, j1) {
                Some((m, j2)) => Some((Payload::PlDeliver { sender, message: Box::new(m) }, j2)),
                None => None,
            },
            None => None,
        }
    } else if tag == 3 {
        match parse_env(s, i) {
            Some((m, j1)) => Some((Payload::BebBroadcast { message: Box::new(m) }, j1)),
            None => None,
        }
    } else if tag == 4 {
        match read_pid(s, i) {
            Some((sender, j1)) => match parse_env(s, j1) {
                Some((m, j2)) => Some((Payload::BebDeliver { sender, message: Box::new(m) }, j2)),
                None => None,
            },
            None => None,
        }
    } else {
        parse_payload_plain(s, i, tag)
    }
}

/// Parses the fields of the payload variants that carry no nested envelope.
fn parse_payload_plain(s: &Vec<u8>, i: usize, tag: u8) -> (r: Option<(Payload, usize)>)
    requires
        5 <= tag,
    ensures
        match r {
            Some((p, j)) => dec_payload_fields(s@, i as int, tag) == Some((p@, j as int)) && i <= j
                <= s@.len(),
            None => dec_payload_fields(s@, i as int, tag) is None,
        },
{
    if tag == 5 {
        match read_bytes(s, i) {
            Some((owner, j1)) => match read_u32(s, j1) {
                Some((index, j2)) => Some((Payload::ProcRegistration { owner, index }, j2)),
                None => None,
            },
            None => None,
        }
    } else if tag == 6 {
        match read_u32(s, i) {
            Some((count, j1)) => match read_pid_list(s, j1, count) {
                Some((processes, j2)) => Some((Payload::ProcInitializeSystem { processes }, j2)),
                None => None,
            },
            None => None,
        }
    } else if tag == 7 {
        match read_value(s, i) {
            Some((value, j1)) => Some((Payload::AppBroadcast { value }, j1)),
            None => None,
        }
    } else if tag == 8 {
        match read_value(s, i) {
            Some((value, j1)) => Some((Payload::AppValue { value }, j1)),
            None => None,
        }
    } else if tag == 9 {
        match read_bytes(s, i) {
            Some((register, j1)) => Some((Payload::AppRead { register }, j1)),
            None => None,
        }
    } else if tag == 10 {
        match read_bytes(s, i) {
            Some((register, j1)) => match read_value(s, j1) {
                Some((value, j2)) => Some((Payload::AppWrite { register, value }, j2)),
                None => None,
            },
            None => None,
        }
    } else if tag == 11 {
        match read_bytes(s, i) {
            Some((register, j1)) => match read_value(s, j1) {
                Some((value, j2)) => Some((Payload::AppReadReturn { register, value }, j2)),
                None => None,
            },
            None => None,
        }
    } else if tag == 12 {
        match read_bytes(s, i) {
            Some((register, j1)) => Some((Payload::AppWriteReturn { register }, j1)),
            None => None,
        }
    } else if tag == 13 {
        if i <= s.len() {
            Some((Payload::NnarRead, i))
        } else {
            None
        }
    } else if tag == 14 {
        match read_value(s, i) {
            Some((value, j1)) => Some((Payload::NnarWrite { value }, j1)),
            None => None,
        }
    } else if tag == 15 {
        match read_value(s, i) {
            Some((value, j1)) => Some((Payload::NnarReadReturn { value }, j1)),
            None => None,
        }
    } else if tag == 16 {
        if i <= s.len() {
            Some((Payload::NnarWriteReturn, i))
        } else {
            None
        }
    } else if tag == 17 {
        match read_u64(s, i) {
            Some((read_id, j1)) => Some((Payload::NnarInternalRead { read_id }, j1)),
            None => None,
        }
    } else if tag == 18 {
        match read_u64(s, i) {
            Some((read_id, j1)) => match read_u64(s, j1) {
                Some((timestamp, j2)) => match read_u32(s, j2) {
                    Some((writer_rank, j3)) => match read_value(s, j3) {
                        Some((value, j4)) => Some(
                            (
                                Payload::NnarInternalValue {
                                    read_id,
                                    timestamp,
                                    writer_rank,
                                    value,
                                },
                                j4,
                            ),
                        ),
                        None => None,
                    },
                    None => None,
                },
                None => None,
            },
            None => None,
        }
    } else if tag == 19 {
        match read_u64(s, i) {
            Some((read_id, j1)) => match read_u64(s, j1) {
                Some((timestamp, j2)) => match read_u32(s, j2) {
                    Some((writer_rank, j3)) => match read_value(s, j3) {
                        Some((value, j4)) => Some(
                            (
                                Payload::NnarInternalWrite {
                                    read_id,
                                    timestamp,
                                    writer_rank,
                                    value,
                                },
                                j4,
                            ),
                        ),
                        None => None,
                    },
                    None => None,
                },
                None => None,
            },
            None => None,
        }
    } else if tag == 20 {
        match read_u64(s, i) {
            Some((read_id, j1)) => Some((Payload::NnarInternalAck { read_id }, j1)),
            None => None,
        }
    } else {
        None
    }
}

/// Whether every length-prefixed piece of `e` fits its four-byte prefix, so
/// that `encode` represents it exactly.
pub fn is_wf(e: &Envelope) -> (r: bool)
    ensures
        r == wf_env(e@),
    decreases *e,
{
    if !bytes_fit(&e.system_id) || !bytes_fit(&e.from_abstraction_id) || !bytes_fit(
        &e.to_abstraction_id,
    ) || !bytes_fit(&e.message_uuid) {
        return false;
    }
    match &e.payload {
        Payload::NetworkMessage { sender_host, message, .. } => bytes_fit(sender_host) && is_wf(
            message,
        ),
        Payload::PlSend { destination, message } => pid_fits(destination) && is_wf(message),
        Payload::PlDeliver { sender, message } => pid_fits(sender) && is_wf(message),
        Payload::BebBroadcast { message } => is_wf(message),
        Payload::BebDeliver { sender, message } => pid_fits(sender) && is_wf(message),
        Payload::ProcRegistration { owner, .. } => bytes_fit(owner),
        Payload::ProcInitializeSystem { processes } => pid_list_fits(processes),
        Payload::AppRead { register } => bytes_fit(register),
        Payload::AppWrite { register, .. } => bytes_fit(register),
        Payload::AppReadReturn { register, .. } => bytes_fit(register),
        Payload::AppWriteReturn { register } => bytes_fit(register),
        _ => true,
    }
}

fn bytes_fit(v: &Vec<u8>) -> (r: bool)
    ensures
        r == wf_bytes(v@),
{
    v.len() <= u32::MAX as usize
}

fn pid_fits(p: &ProcessId) -> (r: bool)
    ensures
        r == wf_pid(p@),
{
    bytes_fit(&p.host) && bytes_fit(&p.owner)
}

fn pid_list_fits(ps: &Vec<ProcessId>) -> (r: bool)
    ensures
        r == (ps@.len() <= u32::MAX && (forall|i: int|
            0 <= i < ps@.len() ==> wf_pid(#[trigger] ps.deep_view()[i]))),
{
    if ps.len() > u32::MAX as usize {
        return false;
    }
    let mut i: usize = 0;
    while i < ps.len()
        invariant
            i <= ps@.len(),
            ps@.len() <= u32::MAX,
            forall|k: int| 0 <= k < i ==> wf_pid(#[trigger] ps.deep_view()[k]),
        decreases ps@.len() - i,
    {
        if !pid_fits(&ps[i]) {
            proof {
                assert(!wf_pid(ps.deep_view()[i as int]));
            }
            return false;
        }
        i += 1;
    }
    true
}

/// The four-byte big-endian length prefix that frames one encoded envelope on
/// a connection.
pub fn u32_to_be(n: u32) -> (r: Vec<u8>)
    ensures
        r@ == enc_u32(n),
{
    let mut out: Vec<u8> = Vec::new();
    push_u32(&mut out, n);
    proof {
        assert(out@ =~= enc_u32(n));
    }
    out
}

/// Reads a four-byte big-endian length prefix.
pub fn u32_from_be(s: &Vec<u8>) -> (r: Option<u32>)
    ensures
        match r {
            Some(n) => s@.len() == 4 && dec_u32(s@, 0) == Some((n, 4int)) && s@ == enc_u32(n),
            None => s@.len() != 4,
        },
{
    if s.len() != 4 {
        return None;
    }
    match read_u32(s, 0) {
        Some((n, _)) => {
            proof {
                lemma_u32_be_inverse(n);
                assert(s@ =~= enc_u32(n)) by {
                    assert(s@.len() == 4);
                    assert(enc_u32(comb32(s@[0], s@[1], s@[2], s@[3])) =~= s@);
                }
            }
            Some(n)
        },
        None => None,
    }
}

proof fn lemma_u32_be_inverse(n: u32)
    ensures
        comb32((n >> 24) as u8, (n >> 16) as u8, (n >> 8) as u8, n as u8) == n,
        forall|b0: u8, b1: u8, b2: u8, b3: u8|
            enc_u32(#[trigger] comb32(b0, b1, b2, b3)) == seq![b0, b1, b2, b3],
{
    assert(comb32((n >> 24) as u8, (n >> 16) as u8, (n >> 8) as u8, n as u8) == n) by (bit_vector);
    assert forall|b0: u8, b1: u8, b2: u8, b3: u8|
        enc_u32(#[trigger] comb32(b0, b1, b2, b3)) == seq![b0, b1, b2, b3] by {
        assert((comb32(b0, b1, b2, b3) >> 24) as u8 == b0 && (comb32(b0, b1, b2, b3) >> 16) as u8
            == b1 && (comb32(b0, b1, b2, b3) >> 8) as u8 == b2 && comb32(b0, b1, b2, b3) as u8
            == b3) by (bit_vector);
        assert(enc_u32(comb32(b0, b1, b2, b3)) =~= seq![b0, b1, b2, b3]);
    }
}

/// What `decode` computes: the envelope at the start of `s`, accepted only if
/// it covers `s` exactly.
pub open spec fn decode_spec(s: Seq<u8>) -> Option<EnvelopeV> {
    match dec_env(s, 0) {
        Some((e, j)) => if j == s.len() {
            Some(e)
        } else {
            None
        },
        None => None,
    }
}

/// Decodes a whole buffer into an envelope. Fails on anything that is not
/// exactly one encoded envelope.
pub fn decode(s: &Vec<u8>) -> (r: Option<Envelope>)
    ensures
        (r is Some) == (decode_spec(s@) is Some),
        r matches Some(e) ==> decode_spec(s@) == Some(e@),
{
    match parse_env(s, 0) {
        Some((e, j)) => {
            if j == s.len() {
                Some(e)
            } else {
                None
            }
        },
        None => None,
    }
}

// ---------------------------------------------------------------------------
// Soundness: the decoder accepts only encodings. Whatever it yields is a
// well-formed envelope whose encoding is exactly the bytes consumed.
// ---------------------------------------------------------------------------
proof fn lemma_subrange_glue(s: Seq<u8>, i: int, m: int, j: int)
    requires
        0 <= i <= m <= j <= s.len(),
    ensures
        s.subrange(i, j) == s.subrange(i, m) + s.subrange(m, j),
{
    assert(s.subrange(i, j) =~= s.subrange(i, m) + s.subrange(m, j));
}

proof fn lemma_sound_u16(s: Seq<u8>, i: int, n: u16, j: int)
    requires
        dec_u16(s, i) == Some((n, j)),
    ensures
        0 <= i,
        j == i + 2,
        j <= s.len(),
        s.subrange(i, j) == enc_u16(n),
{
    let b0 = s[i];
    let b1 = s[i + 1];
    assert((comb16(b0, b1) >> 8) as u8 == b0 && comb16(b0, b1) as u8 == b1) by (bit_vector);
    assert(s.subrange(i, j) =~= enc_u16(n));
}

proof fn lemma_sound_u32(s: Seq<u8>, i: int, n: u32, j: int)
    requires
        dec_u32(s, i) == Some((n, j)),
    ensures
        0 <= i,
        j == i + 4,
        j <= s.len(),
        s.subrange(i, j) == enc_u32(n),
{
    lemma_u32_be_inverse(n);
    assert(s.subrange(i, j) =~= seq![s[i], s[i + 1], s[i + 2], s[i + 3]]);
}

proof fn lemma_sound_u64(s: Seq<u8>, i: int, n: u64, j: int)
    requires
        dec_u64(s, i) == Some((n, j)),
    ensures
        0 <= i,
        j == i + 8,
        j <= s.len(),
        s.subrange(i, j) == enc_u64(n),
{
    let b0 = s[i];
    let b1 = s[i + 1];
    let b2 = s[i + 2];
    let b3 = s[i + 3];
    let b4 = s[i + 4];
    let b5 = s[i + 5];
    let b6 = s[i + 6];
    let b7 = s[i + 7];
    assert((comb64(b0, b1, b2, b3, b4, b5, b6, b7) >> 56) as u8 == b0 && (comb64(
        b0,
        b1,
        b2,
        b3,
        b4,
        b5,
        b6,
        b7,
    ) >> 48) as u8 == b1 && (comb64(b0, b1, b2, b3, b4, b5, b6, b7) >> 40) as u8 == b2 && (comb64(
        b0,
        b1,
        b2,
        b3,
        b4,
        b5,
        b6,
        b7,
    ) >> 32) as u8 == b3 && (comb64(b0, b1, b2, b3, b4, b5, b6, b7) >> 24) as u8 == b4 && (comb64(
        b0,
        b1,
        b2,
        b3,
        b4,
        b5,
        b6,
        b7,
    ) >> 16) as u8 == b5 && (comb64(b0, b1, b2, b3, b4, b5, b6, b7) >> 8) as u8 == b6 && comb64(
        b0,
        b1,
        b2,
        b3,
        b4,
        b5,
        b6,
        b7,
    ) as u8 == b7) by (bit_vector);
    assert(s.subrange(i, j) =~= enc_u64(n));
}

proof fn lemma_sound_i32(s: Seq<u8>, i: int, v: i32, j: int)
    requires
        dec_i32(s, i) == Some((v, j)),
    ensures
        0 <= i,
        j == i + 4,
        j <= s.len(),
        s.subrange(i, j) == enc_i32(v),
{
    let n = dec_u32(s, i)->Some_0.0;
    lemma_sound_u32(s, i, n, j);
    assert(forall|m: u32| #[trigger] (((m as i32) as u32)) == m) by (bit_vector);
}

proof fn lemma_sound_bool(s: Seq<u8>, i: int, b: bool, j: int)
    requires
        dec_bool(s, i) == Some((b, j)),
    ensures
        0 <= i,
        j == i + 1,
        j <= s.len(),
        s.subrange(i, j) == enc_bool(b),
{
    assert(s.subrange(i, j) =~= enc_bool(b));
}

proof fn lemma_sound_bytes(s: Seq<u8>, i: int, b: Seq<u8>, j: int)
    requires
        dec_bytes(s, i) == Some((b, j)),
    ensures
        0 <= i,
        i + 4 <= j <= s.len(),
        j == i + 4 + b.len(),
        wf_bytes(b),
        s.subrange(i, j) == enc_bytes(b),
{
    let n = dec_u32(s, i)->Some_0.0;
    lemma_sound_u32(s, i, n, i + 4);
    assert(b.len() == n);
    assert((b.len() as u32) == n);
    lemma_subrange_glue(s, i, i + 4, j);
}

proof fn lemma_sound_value(s: Seq<u8>, i: int, v: RegisterValue, j: int)
    requires
        dec_value(s, i) == Some((v, j)),
    ensures
        0 <= i,
        j == i + 5,
        j <= s.len(),
        s.subrange(i, j) == enc_value(v),
{
    lemma_sound_bool(s, i, v.defined, i + 1);
    lemma_sound_i32(s, i + 1, v.v, j);
    lemma_subrange_glue(s, i, i + 1, j);
}

proof fn lemma_sound_pid(s: Seq<u8>, i: int, p: ProcessIdV, j: int)
    requires
        dec_pid(s, i) == Some((p, j)),
    ensures
        0 <= i,
        i < j <= s.len(),
        j == i + enc_pid(p).len(),
        wf_pid(p),
        s.subrange(i, j) == enc_pid(p),
{
    let j1 = dec_bytes(s, i)->Some_0.1;
    let j2 = dec_u16(s, j1)->Some_0.1;
    let j3 = dec_bytes(s, j2)->Some_0.1;
    let j4 = dec_u32(s, j3)->Some_0.1;
    lemma_sound_bytes(s, i, p.host, j1);
    lemma_sound_u16(s, j1, p.port, j2);
    lemma_sound_bytes(s, j2, p.owner, j3);
    lemma_sound_u32(s, j3, p.index, j4);
    lemma_sound_u32(s, j4, p.rank, j);
    lemma_subrange_glue(s, j3, j4, j);
    lemma_subrange_glue(s, j2, j3, j);
    lemma_subrange_glue(s, j1, j2, j);
    lemma_subrange_glue(s, i, j1, j);
    assert(s.subrange(i, j) =~= enc_pid(p));
}

proof fn lemma_sound_pid_list(s: Seq<u8>, i: int, count: nat, ps: Seq<ProcessIdV>, j: int)
    requires
        dec_pid_list(s, i, count) == Some((ps, j)),
    ensures
        0 <= i <= j <= s.len(),
        ps.len() == count,
        forall|k: int| 0 <= k < ps.len() ==> wf_pid(#[trigger] ps[k]),
        j == i + enc_pid_list(ps).len(),
        s.subrange(i, j) == enc_pid_list(ps),
    decreases count,
{
    if count == 0 {
        assert(s.subrange(i, j) =~= enc_pid_list(ps));
    } else {
        let p = dec_pid(s, i)->Some_0.0;
        let j1 = dec_pid(s, i)->Some_0.1;
        let tail = dec_pid_list(s, j1, (count - 1) as nat)->Some_0.0;
        lemma_sound_pid(s, i, p, j1);
        lemma_sound_pid_list(s, j1, (count - 1) as nat, tail, j);
        assert(ps == seq![p] + tail);
        assert(ps[0] == p);
        assert(ps.skip(1) =~= tail);
        assert(forall|k: int| 0 <= k < tail.len() ==> #[trigger] tail[k] == ps[k + 1]);
        lemma_subrange_glue(s, i, j1, j);
        assert(enc_pid_list(ps) == enc_pid(p) + enc_pid_list(tail));
    }
}

/// Whatever the decoder yields at `i` is well formed, and the bytes from `i`
/// to where it stopped are exactly that envelope's encoding.
pub proof fn lemma_dec_env_sound(s: Seq<u8>, i: int, e: EnvelopeV, j: int)
    requires
        dec_env(s, i) == Some((e, j)),
    ensures
        0 <= i < j <= s.len(),
        wf_env(e),
        j == i + enc_env(e).len(),
        s.subrange(i, j) == enc_env(e),
    decreases s.len() - i, 0int,
{
    let i1 = dec_bytes(s, i)->Some_0.1;
    let i2 = dec_bytes(s, i1)->Some_0.1;
    let i3 = dec_bytes(s, i2)->Some_0.1;
    let i4 = dec_bytes(s, i3)->Some_0.1;
    let i5 = dec_u8(s, i4)->Some_0.1;
    let tag = dec_u8(s, i4)->Some_0.0;
    lemma_sound_bytes(s, i, e.system_id, i1);
    lemma_sound_bytes(s, i1, e.from_abstraction_id, i2);
    lemma_sound_bytes(s, i2, e.to_abstraction_id, i3);
    lemma_sound_bytes(s, i3, e.message_uuid, i4);
    assert(s.subrange(i4, i5) =~= seq![tag]);
    lemma_dec_payload_sound(s, i5, tag, e.payload, j);
    lemma_subrange_glue(s, i4, i5, j);
    lemma_subrange_glue(s, i3, i4, j);
    lemma_subrange_glue(s, i2, i3, j);
    lemma_subrange_glue(s, i1, i2, j);
    lemma_subrange_glue(s, i, i1, j);
    assert(s.subrange(i, j) =~= enc_env(e));
}

proof fn lemma_dec_env_sound_nested(s: Seq<u8>, i: int, e: EnvelopeV, j: int)
    requires
        dec_env(s, i) == Some((e, j)),
    ensures
        0 <= i < j <= s.len(),
        wf_env(e),
        j == i + enc_env(e).len(),
        s.subrange(i, j) == enc_env(e),
    decreases s.len() - i, 1int,
{
    lemma_dec_env_sound(s, i, e, j);
}

#[verifier::rlimit(100)]
proof fn lemma_dec_payload_sound(s: Seq<u8>, i: int, tag: u8, p: PayloadV, j: int)
    requires
        dec_payload_fields(s, i, tag) == Some((p, j)),
    ensures
        0 <= i <= j <= s.len(),
        tag == tag_of(p),
        wf_payload(p),
        j == i + enc_payload_fields(p).len(),
        s.subrange(i, j) == enc_payload_fields(p),
    decreases s.len() - i, 2int,
{
    if tag == 0 {
        let j1 = dec_bytes(s, i)->Some_0.1;
        let j2 = dec_u16(s, j1)->Some_0.1;
        let host = dec_bytes(s, i)->Some_0.0;
        let port = dec_u16(s, j1)->Some_0.0;
        let m = dec_env(s, j2)->Some_0.0;
        lemma_sound_bytes(s, i, host, j1);
        lemma_sound_u16(s, j1, port, j2);
        lemma_dec_env_sound_nested(s, j2, m, j);
        lemma_subrange_glue(s, j1, j2, j);
        lemma_subrange_glue(s, i, j1, j);
        assert(s.subrange(i, j) =~= enc_payload_fields(p));
    } else if tag == 1 || tag == 2 || tag == 4 {
        let d = dec_pid(s, i)->Some_0.0;
        let j1 = dec_pid(s, i)->Some_0.1;
        let m = dec_env(s, j1)->Some_0.0;
        lemma_sound_pid(s, i, d, j1);
        lemma_dec_env_sound_nested(s, j1, m, j);
        lemma_subrange_glue(s, i, j1, j);
        assert(s.subrange(i, j) =~= enc_payload_fields(p));
    } else if tag == 3 {
        let m = dec_env(s, i)->Some_0.0;
        lemma_dec_env_sound_nested(s, i, m, j);
    } else {
        lemma_dec_payload_sound_plain(s, i, tag, p, j);
    }
}

#[verifier::rlimit(100)]
proof fn lemma_dec_payload_sound_plain(s: Seq<u8>, i: int, tag: u8, p: PayloadV, j: int)
    requires
        dec_payload_fields(s, i, tag) == Some((p, j)),
        5 <= tag,
    ensures
        0 <= i <= j <= s.len(),
        tag == tag_of(p),
        wf_payload(p),
        j == i + enc_payload_fields(p).len(),
        s.subrange(i, j) == enc_payload_fields(p),
{
    if tag == 5 {
        let owner = dec_bytes(s, i)->Some_0.0;
        let j1 = dec_bytes(s, i)->Some_0.1;
        lemma_sound_bytes(s, i, owner, j1);
        lemma_sound_u32(s, j1, dec_u32(s, j1)->Some_0.0, j);
        lemma_subrange_glue(s, i, j1, j);
        assert(s.subrange(i, j) =~= enc_payload_fields(p));
    } else if tag == 6 {
        let count = dec_u32(s, i)->Some_0.0;
        let ps = dec_pid_list(s, i + 4, count as nat)->Some_0.0;
        lemma_sound_u32(s, i, count, i + 4);
        lemma_sound_pid_list(s, i + 4, count as nat, ps, j);
        assert((ps.len() as u32) == count);
        lemma_subrange_glue(s, i, i + 4, j);
        assert(s.subrange(i, j) =~= enc_payload_fields(p));
    } else if tag == 7 || tag == 8 || tag == 14 || tag == 15 {
        lemma_sound_value(s, i, dec_value(s, i)->Some_0.0, j);
    } else if tag == 9 || tag == 12 {
        let register = dec_bytes(s, i)->Some_0.0;
        lemma_sound_bytes(s, i, register, j);
    } else if tag == 10 || tag == 11 {
        let register = dec_bytes(s, i)->Some_0.0;
        let j1 = dec_bytes(s, i)->Some_0.1;
        lemma_sound_bytes(s, i, register, j1);
        lemma_sound_value(s, j1, dec_value(s, j1)->Some_0.0, j);
        lemma_subrange_glue(s, i, j1, j);
        assert(s.subrange(i, j) =~= enc_payload_fields(p));
    } else if tag == 13 || tag == 16 {
        assert(s.subrange(i, j) =~= enc_payload_fields(p));
    } else if tag == 17 || tag == 20 {
        lemma_sound_u64(s, i, dec_u64(s, i)->Some_0.0, j);
    } else if tag == 18 || tag == 19 {
        let j1 = dec_u64(s, i)->Some_0.1;
        let j2 = dec_u64(s, j1)->Some_0.1;
        let j3 = dec_u32(s, j2)->Some_0.1;
        lemma_sound_u64(s, i, dec_u64(s, i)->Some_0.0, j1);
        lemma_sound_u64(s, j1, dec_u64(s, j1)->Some_0.0, j2);
        lemma_sound_u32(s, j2, dec_u32(s, j2)->Some_0.0, j3);
        lemma_sound_value(s, j3, dec_value(s, j3)->Some_0.0, j);
        lemma_subrange_glue(s, j2, j3, j);
        lemma_subrange_glue(s, j1, j2, j);
        lemma_subrange_glue(s, i, j1, j);
        assert(s.subrange(i, j) =~= enc_payload_fields(p));
    }
}

/// Envelopes that agree everywhere except in their correlation ids, of equal
/// lengths, encode to the same number of bytes and are equally well formed.
/// Correlation ids are drawn at random but always 36 bytes long, so whether
/// an envelope fits its frame is a function of the rest of it alone.
pub proof fn lemma_similar_same_size(a: EnvelopeV, b: EnvelopeV)
    requires
        crate::message::similar_env(a, b),
    ensures
        enc_env(a).len() == enc_env(b).len(),
        wf_env(a) == wf_env(b),
    decreases a,
{
    let sa = crate::message::scrub(a);
    let sb = crate::message::scrub(b);
    assert(sa.payload == sb.payload);
    match a.payload {
        PayloadV::NetworkMessage { sender_host, sender_listening_port, message } => {
            let mb = b.payload->NetworkMessage_message;
            lemma_similar_same_size(*message, *mb);
        },
        PayloadV::PlSend { destination, message } => {
            let mb = b.payload->PlSend_message;
            lemma_similar_same_size(*message, *mb);
        },
        PayloadV::PlDeliver { sender, message } => {
            let mb = b.payload->PlDeliver_message;
            lemma_similar_same_size(*message, *mb);
        },
        PayloadV::BebBroadcast { message } => {
            let mb = b.payload->BebBroadcast_message;
            lemma_similar_same_size(*message, *mb);
        },
        PayloadV::BebDeliver { sender, message } => {
            let mb = b.payload->BebDeliver_message;
            lemma_similar_same_size(*message, *mb);
        },
        _ => {
            assert(a.payload == b.payload);
        },
    }
}

/// The encoding is injective: two well-formed envelopes with the same bytes
/// on the wire are the same envelope, field for field.
pub proof fn lemma_encoding_injective(a: EnvelopeV, b: EnvelopeV)
    requires
        wf_env(a),
        wf_env(b),
        enc_env(a) == enc_env(b),
    ensures
        a == b,
{
    lemma_round_trip(a);
    lemma_round_trip(b);
}

/// Encodes `e` into a fresh byte vector.
pub fn encode(e: &Envelope) -> (r: Vec<u8>)
    requires
        wf_env(e@),
    ensures
        r@ == enc_env(e@),
{
    let mut out: Vec<u8> = Vec::new();
    encode_env_into(e, &mut out);
    proof {
        assert(out@ =~= enc_env(e@));
    }
    out
}

} // verus!
