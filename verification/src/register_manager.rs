//! The register store: one atomic register per name, each running the
//! read-impose write-consult majority protocol. A register adopts a write
//! only if its `(timestamp, writer rank)` pair strictly exceeds its own under
//! lexicographic order; an operation completes only once strictly more than
//! half the membership has answered.

use vstd::prelude::*;

use crate::broadcast_manager::{beb_wrapper_spec, BroadcastManager};
use crate::client::{ClientState, ClientStateV};
use crate::effect::{Effect, EffectV, ProtocolError};
use crate::message::{Envelope, EnvelopeV, Payload, PayloadV, ProcessId, ProcessIdV, RegisterValue};
use crate::network_service::send_ok_spec;
use crate::path;
use crate::message::{blank_uuid, scrub, similar_env};
use crate::perfect_link_manager::{pl_send_ok, pl_stamped_spec, PerfectLinkManager};

verus! {

/// One member's answer to an internal read: the triple it holds.
#[derive(Clone, Copy, Debug, PartialEq, Eq, Structural)]
pub struct Receipt {
    pub timestamp: u64,
    pub writer_rank: u32,
    pub value: RegisterValue,
}

/// Whether the write pair `(t2, w2)` strictly exceeds `(t1, w1)` under
/// lexicographic order with the writer's rank as tie-break. This relation
/// totally orders all writes system-wide; on a full tie nothing is adopted.
pub open spec fn prevails(t2: u64, w2: u32, t1: u64, w1: u32) -> bool {
    t2 > t1 || (t2 == t1 && w2 > w1)
}

/// The write pairs are totally ordered: of any two, the second prevails over
/// the first, or the first over the second, or they are equal in both
/// fields — and never two of these at once. A register therefore adopts an
/// incoming triple exactly when it is strictly newer, and on a full tie
/// (impossible while writer ranks are unique) nothing is adopted.
pub proof fn lemma_write_order_total(t1: u64, w1: u32, t2: u64, w2: u32)
    ensures
        prevails(t2, w2, t1, w1) || prevails(t1, w1, t2, w2) || (t1 == t2 && w1 == w2),
        !(prevails(t2, w2, t1, w1) && prevails(t1, w1, t2, w2)),
        (t1 == t2 && w1 == w2) ==> !prevails(t2, w2, t1, w1) && !prevails(t1, w1, t2, w2),
{
}

/// The order on write pairs carries over: a pair that prevails over a second
/// one, which prevails over a third, prevails over that third.
pub proof fn lemma_write_order_transitive(
    t1: u64,
    w1: u32,
    t2: u64,
    w2: u32,
    t3: u64,
    w3: u32,
)
    requires
        prevails(t1, w1, t2, w2),
        prevails(t2, w2, t3, w3),
    ensures
        prevails(t1, w1, t3, w3),
{
}

/// Completion needs strictly more than half the membership, so any two
/// completed phases heard from a common member: two counts that each exceed
/// `n / 2` add up to more than `n`. With `n` members, `n / 2 + 1` answers
/// complete a phase and `n / 2` do not.
pub proof fn lemma_quorums_intersect(n: nat, a: nat, b: nat)
    requires
        a <= n,
        b <= n,
        a > n / 2,
        b > n / 2,
    ensures
        a + b > n,
{
}

/// Of two receipts, the one whose write pair prevails; `a` on a full tie.
pub open spec fn best_of(a: Receipt, b: Receipt) -> Receipt {
    if prevails(b.timestamp, b.writer_rank, a.timestamp, a.writer_rank) {
        b
    } else {
        a
    }
}

/// The receipt holding the maximum write pair, ties resolved toward the
/// earliest entry.
pub open spec fn best_receipt(rs: Seq<(ProcessIdV, Receipt)>) -> Receipt
    recommends
        rs.len() > 0,
    decreases rs.len(),
{
    if rs.len() <= 1 {
        rs[0].1
    } else {
        best_of(best_receipt(rs.drop_last()), rs.last().1)
    }
}

/// The selected receipt is one of the entries, and no entry's write pair
/// strictly exceeds its own: the quorum phase picks a maximal triple.
pub proof fn lemma_best_receipt_max(rs: Seq<(ProcessIdV, Receipt)>)
    requires
        rs.len() > 0,
    ensures
        exists|i: int| 0 <= i < rs.len() && #[trigger] rs[i].1 == best_receipt(rs),
        forall|i: int|
            0 <= i < rs.len() ==> !prevails(
                (#[trigger] rs[i].1).timestamp,
                rs[i].1.writer_rank,
                best_receipt(rs).timestamp,
                best_receipt(rs).writer_rank,
            ),
    decreases rs.len(),
{
    if rs.len() <= 1 {
        assert(rs[0].1 == best_receipt(rs));
    } else {
        lemma_best_receipt_max(rs.drop_last());
        let b = best_receipt(rs);
        let prev = best_receipt(rs.drop_last());
        assert(rs[rs.len() - 1] == rs.last());
        assert forall|i: int| 0 <= i < rs.len() implies !prevails(
            (#[trigger] rs[i].1).timestamp,
            rs[i].1.writer_rank,
            b.timestamp,
            b.writer_rank,
        ) by {
            if i < rs.len() - 1 {
                assert(rs.drop_last()[i] == rs[i]);
            }
        }
        if b == prev {
            let wit = choose|i: int|
                0 <= i < rs.drop_last().len() && #[trigger] rs.drop_last()[i].1 == prev;
            assert(rs.drop_last()[wit] == rs[wit]);
            assert(rs[wit].1 == b);
        } else {
            assert(rs[rs.len() - 1].1 == b);
        }
    }
}

/// Replaces the entry keyed `k`, or appends one when no entry has that key.
pub open spec fn upsert_spec(rs: Seq<(ProcessIdV, Receipt)>, k: ProcessIdV, v: Receipt) -> Seq<
    (ProcessIdV, Receipt),
>
    decreases rs.len(),
{
    if rs.len() == 0 {
        seq![(k, v)]
    } else if rs[0].0 == k {
        seq![(k, v)] + rs.skip(1)
    } else {
        seq![rs[0]] + upsert_spec(rs.skip(1), k, v)
    }
}

/// Whether some entry is keyed `k`.
pub open spec fn has_key(rs: Seq<(ProcessIdV, Receipt)>, k: ProcessIdV) -> bool {
    exists|i: int| 0 <= i < rs.len() && rs[i].0 == k
}

/// Whether no two entries share a key: then the entry count is the number of
/// distinct members that have answered.
pub open spec fn distinct_keys(rs: Seq<(ProcessIdV, Receipt)>) -> bool {
    forall|i: int, j: int| 0 <= i < j < rs.len() ==> rs[i].0 != rs[j].0
}

proof fn lemma_upsert_distinct(rs: Seq<(ProcessIdV, Receipt)>, k: ProcessIdV, v: Receipt)
    requires
        distinct_keys(rs),
    ensures
        distinct_keys(upsert_spec(rs, k, v)),
    decreases rs.len(),
{
    if rs.len() == 0 {
    } else if rs[0].0 == k {
        assert forall|i: int, j: int|
            0 <= i < j < upsert_spec(rs, k, v).len() implies upsert_spec(rs, k, v)[i].0
            != upsert_spec(rs, k, v)[j].0 by {
            if i > 0 {
                assert(upsert_spec(rs, k, v)[i] == rs[i]);
            }
            assert(upsert_spec(rs, k, v)[j] == rs[j]);
        }
    } else {
        assert(distinct_keys(rs.skip(1))) by {
            assert(forall|i: int|
                0 <= i < rs.skip(1).len() ==> #[trigger] rs.skip(1)[i] == rs[i + 1]);
        }
        lemma_upsert_distinct(rs.skip(1), k, v);
        let out = upsert_spec(rs, k, v);
        let tail = upsert_spec(rs.skip(1), k, v);
        assert forall|i: int, j: int| 0 <= i < j < out.len() implies out[i].0 != out[j].0 by {
            if i == 0 {
                assert(out[0] == rs[0]);
                assert(out[j] == tail[j - 1]);
                lemma_upsert_member(rs.skip(1), k, v, j - 1);
            } else {
                assert(out[i] == tail[i - 1]);
                assert(out[j] == tail[j - 1]);
            }
        }
    }
}

proof fn lemma_upsert_at_index(rs: Seq<(ProcessIdV, Receipt)>, k: ProcessIdV, v: Receipt, i: int)
    requires
        distinct_keys(rs),
        0 <= i < rs.len(),
        rs[i].0 == k,
    ensures
        upsert_spec(rs, k, v) == rs.update(i, (k, v)),
    decreases rs.len(),
{
    if i == 0 {
        assert(upsert_spec(rs, k, v) =~= rs.update(0, (k, v)));
    } else {
        assert(rs[0].0 != k);
        assert(distinct_keys(rs.skip(1))) by {
            assert(forall|m: int|
                0 <= m < rs.skip(1).len() ==> #[trigger] rs.skip(1)[m] == rs[m + 1]);
        }
        assert(rs.skip(1)[i - 1] == rs[i]);
        lemma_upsert_at_index(rs.skip(1), k, v, i - 1);
        assert(upsert_spec(rs, k, v) =~= rs.update(i, (k, v))) by {
            assert(forall|m: int|
                0 <= m < rs.skip(1).len() ==> #[trigger] rs.skip(1).update(i - 1, (k, v))[m] == (
                if m == i - 1 {
                    (k, v)
                } else {
                    rs[m + 1]
                }));
        }
    }
}

proof fn lemma_upsert_absent(rs: Seq<(ProcessIdV, Receipt)>, k: ProcessIdV, v: Receipt)
    requires
        !has_key(rs, k),
    ensures
        upsert_spec(rs, k, v) == rs.push((k, v)),
    decreases rs.len(),
{
    if rs.len() == 0 {
        assert(upsert_spec(rs, k, v) =~= rs.push((k, v)));
    } else {
        assert(rs[0].0 != k);
        assert(!has_key(rs.skip(1), k)) by {
            if has_key(rs.skip(1), k) {
                let i = choose|i: int| 0 <= i < rs.skip(1).len() && rs.skip(1)[i].0 == k;
                assert(rs[i + 1] == rs.skip(1)[i]);
            }
        }
        lemma_upsert_absent(rs.skip(1), k, v);
        assert(upsert_spec(rs, k, v) =~= rs.push((k, v))) by {
            assert(forall|m: int|
                0 <= m < rs.skip(1).len() ==> #[trigger] rs.skip(1).push((k, v))[m] == (if m
                    < rs.skip(1).len() {
                    rs[m + 1]
                } else {
                    (k, v)
                }));
        }
    }
}

/// Every key in an upsert result is the new key or one already present.
proof fn lemma_upsert_member(rs: Seq<(ProcessIdV, Receipt)>, k: ProcessIdV, v: Receipt, i: int)
    requires
        0 <= i < upsert_spec(rs, k, v).len(),
    ensures
        upsert_spec(rs, k, v)[i].0 == k || has_key(rs, upsert_spec(rs, k, v)[i].0),
    decreases rs.len(),
{
    let out = upsert_spec(rs, k, v);
    if rs.len() == 0 {
    } else if rs[0].0 == k {
        if i > 0 {
            assert(out[i] == rs[i]);
        }
    } else {
        if i == 0 {
            assert(out[0] == rs[0]);
        } else {
            assert(out[i] == upsert_spec(rs.skip(1), k, v)[i - 1]);
            lemma_upsert_member(rs.skip(1), k, v, i - 1);
            if has_key(rs.skip(1), out[i].0) {
                let w = choose|w: int| 0 <= w < rs.skip(1).len() && rs.skip(1)[w].0 == out[i].0;
                assert(rs[w + 1] == rs.skip(1)[w]);
            }
        }
    }
}

/// One atomic register. `(timestamp, writer_rank)` orders all writes;
/// `read_tracking_counter` is the epoch of the one operation in flight;
/// `reply_to` is the sender of the most recent PL- or BEB-delivered message,
/// the implicit reply address.
#[derive(Debug)]
pub struct Register {
    pub timestamp: u64,
    pub writer_rank: u32,
    pub value: RegisterValue,
    pub ack_count: usize,
    pub my_value_for_writing: RegisterValue,
    pub my_value_for_reading: RegisterValue,
    pub read_tracking_counter: u64,
    pub read_receipts: Vec<(ProcessId, Receipt)>,
    pub am_i_reading: bool,
    pub reply_to: ProcessId,
    pub my_name: Vec<u8>,
}

/// The mathematical value of a `Register`.
#[verifier::ext_equal]
pub struct RegisterV {
    pub timestamp: u64,
    pub writer_rank: u32,
    pub value: RegisterValue,
    pub ack_count: usize,
    pub my_value_for_writing: RegisterValue,
    pub my_value_for_reading: RegisterValue,
    pub read_tracking_counter: u64,
    pub read_receipts: Seq<(ProcessIdV, Receipt)>,
    pub am_i_reading: bool,
    pub reply_to: ProcessIdV,
    pub my_name: Seq<u8>,
}

pub open spec fn receipts_view(rs: Seq<(ProcessId, Receipt)>) -> Seq<(ProcessIdV, Receipt)> {
    Seq::new(rs.len(), |i: int| (rs[i].0@, rs[i].1))
}

impl View for Register {
    type V = RegisterV;

    open spec fn view(&self) -> RegisterV {
        RegisterV {
            timestamp: self.timestamp,
            writer_rank: self.writer_rank,
            value: self.value,
            ack_count: self.ack_count,
            my_value_for_writing: self.my_value_for_writing,
            my_value_for_reading: self.my_value_for_reading,
            read_tracking_counter: self.read_tracking_counter,
            read_receipts: receipts_view(self.read_receipts@),
            am_i_reading: self.am_i_reading,
            reply_to: self.reply_to@,
            my_name: self.my_name@,
        }
    }
}

impl DeepView for Register {
    type V = RegisterV;

    open spec fn deep_view(&self) -> RegisterV {
        self.view()
    }
}

/// The state of a register that no write has reached yet.
pub open spec fn fresh_register_spec(name: Seq<u8>) -> RegisterV {
    RegisterV {
        timestamp: 0u64,
        writer_rank: 0u32,
        value: RegisterValue { defined: false, v: 0 },
        ack_count: 0usize,
        my_value_for_writing: RegisterValue { defined: false, v: 0 },
        my_value_for_reading: RegisterValue { defined: false, v: 0 },
        read_tracking_counter: 0u64,
        read_receipts: Seq::<(ProcessIdV, Receipt)>::empty(),
        am_i_reading: false,
        reply_to: ProcessIdV {
            host: Seq::<u8>::empty(),
            port: 0u16,
            owner: Seq::<u8>::empty(),
            index: 0u32,
            rank: 0u32,
        },
        my_name: name,
    }
}

impl Register {
    /// A register called `name` in its initial state: timestamp zero, writer
    /// rank zero, and no value written yet.
    pub fn new(name: Vec<u8>) -> (r: Register)
        ensures
            r@ == fresh_register_spec(name@),
    {
        let r = Register {
            timestamp: 0,
            writer_rank: 0,
            value: RegisterValue::unwritten(),
            ack_count: 0,
            my_value_for_writing: RegisterValue::unwritten(),
            my_value_for_reading: RegisterValue::unwritten(),
            read_tracking_counter: 0,
            read_receipts: Vec::new(),
            am_i_reading: false,
            reply_to: ProcessId::blank(),
            my_name: name,
        };
        proof {
            assert(r@ =~= fresh_register_spec(r.my_name@));
        }
        r
    }
}

/// Replaces the receipt of sender `key`, or records a new one.
fn upsert_receipt(rs: &mut Vec<(ProcessId, Receipt)>, key: ProcessId, val: Receipt)
    requires
        distinct_keys(receipts_view(old(rs)@)),
    ensures
        receipts_view(final(rs)@) == upsert_spec(receipts_view(old(rs)@), key@, val),
        distinct_keys(receipts_view(final(rs)@)),
{
    proof {
        lemma_upsert_distinct(receipts_view(rs@), key@, val);
    }
    let mut i: usize = 0;
    while i < rs.len()
        invariant
            i <= rs@.len(),
            rs@ == old(rs)@,
            distinct_keys(receipts_view(rs@)),
            forall|j: int| 0 <= j < i ==> (#[trigger] receipts_view(rs@)[j]).0 != key@,
        decreases rs@.len() - i,
    {
        if rs[i].0 == key {
            proof {
                assert(receipts_view(rs@)[i as int].0 == key@);
                lemma_upsert_at_index(receipts_view(rs@), key@, val, i as int);
            }
            let ghost before = receipts_view(rs@);
            rs.remove(i);
            rs.insert(i, (key, val));
            proof {
                assert(receipts_view(rs@) =~= before.update(i as int, (key@, val)));
            }
            return ;
        }
        i += 1;
    }
    proof {
        assert(!has_key(receipts_view(rs@), key@));
        lemma_upsert_absent(receipts_view(rs@), key@, val);
    }
    let ghost before = receipts_view(rs@);
    rs.push((key, val));
    proof {
        assert(receipts_view(rs@) =~= before.push((key@, val)));
    }
}

/// The receipt with the maximum `(timestamp, writer rank)` pair; on a full
/// tie the earliest recorded entry is kept.
fn select_best(rs: &Vec<(ProcessId, Receipt)>) -> (r: Receipt)
    requires
        rs@.len() > 0,
    ensures
        r == best_receipt(receipts_view(rs@)),
{
    let mut acc = rs[0].1;
    let mut i: usize = 1;
    while i < rs.len()
        invariant
            1 <= i <= rs@.len(),
            acc == best_receipt(receipts_view(rs@).take(i as int)),
        decreases rs@.len() - i,
    {
        let c = rs[i].1;
        proof {
            let v = receipts_view(rs@);
            assert(v.take(i as int + 1).drop_last() =~= v.take(i as int));
            assert(v.take(i as int + 1).last() == v[i as int]);
            assert(best_receipt(v.take(i as int + 1)) == best_of(
                best_receipt(v.take(i as int)),
                v[i as int].1,
            ));
        }
        if c.timestamp > acc.timestamp || (c.timestamp == acc.timestamp && c.writer_rank
            > acc.writer_rank) {
            acc = c;
        }
        i += 1;
    }
    proof {
        assert(receipts_view(rs@).take(rs@.len() as int) =~= receipts_view(rs@));
    }
    acc
}

// ---------------------------------------------------------------------------
// What each handler promises, as predicates over the register value before
// and after, the node state, and the returned effects.
// ---------------------------------------------------------------------------
/// The result of a handler, as a mathematical value.
pub open spec fn res_view(r: Result<Vec<Effect>, ProtocolError>) -> Result<
    Seq<EffectV>,
    ProtocolError,
> {
    match r {
        Ok(v) => Ok(v.deep_view()),
        Err(e) => Err(e),
    }
}

/// A register is well formed when no member holds two receipt entries.
pub open spec fn reg_wf(r: RegisterV) -> bool {
    distinct_keys(r.read_receipts)
}

/// A broadcast of `msg`: one PL-send wrapper per member, in member order.
pub open spec fn is_beb_of(
    effects: Seq<EffectV>,
    msg: EnvelopeV,
    nodes: Seq<ProcessIdV>,
    sys: Seq<u8>,
) -> bool {
    &&& effects.len() == nodes.len()
    &&& forall|i: int|
        0 <= i < nodes.len() ==> beb_wrapper_spec(#[trigger] effects[i], msg, nodes[i], sys)
}

/// An envelope fresh off `with_shipping_label`, with its routing fields then
/// set to `from` and `to`.
pub open spec fn labelled_env_spec(
    from: Seq<u8>,
    to: Seq<u8>,
    uuid: Seq<u8>,
    payload: PayloadV,
) -> EnvelopeV {
    EnvelopeV {
        system_id: Seq::<u8>::empty(),
        from_abstraction_id: from,
        to_abstraction_id: to,
        message_uuid: uuid,
        payload,
    }
}

/// The internal-read request a register broadcasts to start a phase.
pub open spec fn internal_read_env_spec(name: Seq<u8>, read_id: u64, uuid: Seq<u8>) -> EnvelopeV {
    labelled_env_spec(
        path::nnar_path_spec(name),
        path::nnar_path_spec(name),
        uuid,
        PayloadV::NnarInternalRead { read_id },
    )
}

/// The effects broadcast an internal-read request tagged `read_id`, under
/// some fresh correlation id shared by every member's copy.
pub open spec fn broadcasts_internal_read(
    effects: Seq<EffectV>,
    name: Seq<u8>,
    read_id: u64,
    cs: ClientStateV,
) -> bool {
    exists|u: Seq<u8>|
        #![trigger internal_read_env_spec(name, read_id, u)]
        {
            &&& u.len() == 36
            &&& is_beb_of(
                effects,
                internal_read_env_spec(name, read_id, u),
                cs.nodes,
                cs.system_id,
            )
        }
}

/// The internal-write a register broadcasts once its read phase completes.
pub open spec fn internal_write_env_spec(
    name: Seq<u8>,
    read_id: u64,
    t: u64,
    w: u32,
    v: RegisterValue,
    uuid: Seq<u8>,
) -> EnvelopeV {
    labelled_env_spec(
        path::nnar_path_spec(name),
        path::nnar_path_spec(name),
        uuid,
        PayloadV::NnarInternalWrite { read_id, timestamp: t, writer_rank: w, value: v },
    )
}

/// The effects broadcast an internal-write carrying `(t, w, v)` under
/// `read_id`, with some fresh correlation id.
pub open spec fn broadcasts_internal_write(
    effects: Seq<EffectV>,
    name: Seq<u8>,
    read_id: u64,
    t: u64,
    w: u32,
    v: RegisterValue,
    cs: ClientStateV,
) -> bool {
    exists|u: Seq<u8>|
        #![trigger internal_write_env_spec(name, read_id, t, w, v, u)]
        {
            &&& u.len() == 36
            &&& is_beb_of(
                effects,
                internal_write_env_spec(name, read_id, t, w, v, u),
                cs.nodes,
                cs.system_id,
            )
        }
}

/// The effect writes the frame of `w` (stamped with the system id and one
/// more `.pl` layer) to `w`'s own destination.
pub open spec fn transmits_wrapper(effect: EffectV, w: EnvelopeV, cs: ClientStateV) -> bool {
    &&& effect matches EffectV::Transmit(si)
    &&& w.payload matches PayloadV::PlSend { destination, .. }
    &&& path::parse_ipv4_spec(w.payload->PlSend_destination.host) == Some(
        effect->Transmit_0.ip,
    )
    &&& effect->Transmit_0.port == w.payload->PlSend_destination.port
    &&& send_ok_spec(
        effect->Transmit_0,
        pl_stamped_spec(w, cs.system_id),
        effect->Transmit_0.ip,
        effect->Transmit_0.port,
        cs.own_port,
    )
}

/// The PL-send wrapper around an internal-value reply: the current triple,
/// tagged with the request's counter, addressed to the asking process.
pub open spec fn internal_value_wrapper_env(
    pre: RegisterV,
    read_id: u64,
    u_inner: Seq<u8>,
    u_wrap: Seq<u8>,
) -> EnvelopeV {
    labelled_env_spec(
        Seq::<u8>::empty(),
        path::nnar_path_spec(pre.my_name),
        u_wrap,
        PayloadV::PlSend {
            destination: pre.reply_to,
            message: Box::new(
                labelled_env_spec(
                    Seq::<u8>::empty(),
                    Seq::<u8>::empty(),
                    u_inner,
                    PayloadV::NnarInternalValue {
                        read_id,
                        timestamp: pre.timestamp,
                        writer_rank: pre.writer_rank,
                        value: pre.value,
                    },
                ),
            ),
        },
    )
}

/// The effects reply with an internal-value message to `pre.reply_to`.
pub open spec fn replies_internal_value(
    effects: Seq<EffectV>,
    pre: RegisterV,
    read_id: u64,
    cs: ClientStateV,
) -> bool {
    &&& effects.len() == 1
    &&& exists|u1: Seq<u8>, u2: Seq<u8>|
        #![trigger internal_value_wrapper_env(pre, read_id, u1, u2)]
        {
            &&& u1.len() == 36
            &&& u2.len() == 36
            &&& transmits_wrapper(effects[0], internal_value_wrapper_env(pre, read_id, u1, u2), cs)
        }
}

/// The PL-send wrapper around an internal-ack, addressed to the writer.
pub open spec fn internal_ack_wrapper_env(
    name: Seq<u8>,
    reply_to: ProcessIdV,
    read_id: u64,
    u_inner: Seq<u8>,
    u_wrap: Seq<u8>,
) -> EnvelopeV {
    labelled_env_spec(
        Seq::<u8>::empty(),
        path::nnar_path_spec(name),
        u_wrap,
        PayloadV::PlSend {
            destination: reply_to,
            message: Box::new(
                labelled_env_spec(
                    Seq::<u8>::empty(),
                    path::nnar_path_spec(name),
                    u_inner,
                    PayloadV::NnarInternalAck { read_id },
                ),
            ),
        },
    )
}

/// The effects acknowledge an internal-write back to `reply_to`.
pub open spec fn sends_internal_ack(
    effects: Seq<EffectV>,
    name: Seq<u8>,
    reply_to: ProcessIdV,
    read_id: u64,
    cs: ClientStateV,
) -> bool {
    &&& effects.len() == 1
    &&& exists|u1: Seq<u8>, u2: Seq<u8>|
        #![trigger internal_ack_wrapper_env(name, reply_to, read_id, u1, u2)]
        {
            &&& u1.len() == 36
            &&& u2.len() == 36
            &&& transmits_wrapper(
                effects[0],
                internal_ack_wrapper_env(name, reply_to, read_id, u1, u2),
                cs,
            )
        }
}

/// The process identity the completion replies are addressed to: the hub.
pub open spec fn hub_pid_spec(cs: ClientStateV) -> ProcessIdV {
    ProcessIdV {
        host: cs.hub_host,
        port: cs.hub_port,
        owner: Seq::<u8>::empty(),
        index: 0u32,
        rank: 0u32,
    }
}

/// The PL-send wrapper that returns a completed read to the hub.
pub open spec fn read_return_wrapper_env(
    name: Seq<u8>,
    value: RegisterValue,
    cs: ClientStateV,
    u_inner: Seq<u8>,
    u_wrap: Seq<u8>,
) -> EnvelopeV {
    labelled_env_spec(
        Seq::<u8>::empty(),
        Seq::<u8>::empty(),
        u_wrap,
        PayloadV::PlSend {
            destination: hub_pid_spec(cs),
            message: Box::new(
                labelled_env_spec(
                    Seq::<u8>::empty(),
                    Seq::<u8>::empty(),
                    u_inner,
                    PayloadV::AppReadReturn { register: name, value },
                ),
            ),
        },
    )
}

/// The effects enqueue a read-return to the hub carrying `value`.
pub open spec fn enqueues_read_return(
    effects: Seq<EffectV>,
    name: Seq<u8>,
    value: RegisterValue,
    cs: ClientStateV,
) -> bool {
    &&& effects.len() == 1
    &&& exists|u1: Seq<u8>, u2: Seq<u8>|
        #![trigger read_return_wrapper_env(name, value, cs, u1, u2)]
        {
            &&& u1.len() == 36
            &&& u2.len() == 36
            &&& effects[0] == EffectV::Enqueue(read_return_wrapper_env(name, value, cs, u1, u2))
        }
}

/// The PL-send wrapper that returns a completed write to the hub.
pub open spec fn write_return_wrapper_env(
    name: Seq<u8>,
    cs: ClientStateV,
    u_inner: Seq<u8>,
    u_wrap: Seq<u8>,
) -> EnvelopeV {
    labelled_env_spec(
        Seq::<u8>::empty(),
        Seq::<u8>::empty(),
        u_wrap,
        PayloadV::PlSend {
            destination: hub_pid_spec(cs),
            message: Box::new(
                labelled_env_spec(
                    Seq::<u8>::empty(),
                    Seq::<u8>::empty(),
                    u_inner,
                    PayloadV::AppWriteReturn { register: name },
                ),
            ),
        },
    )
}

/// The effects enqueue a write-return to the hub.
pub open spec fn enqueues_write_return(
    effects: Seq<EffectV>,
    name: Seq<u8>,
    cs: ClientStateV,
) -> bool {
    &&& effects.len() == 1
    &&& exists|u1: Seq<u8>, u2: Seq<u8>|
        #![trigger write_return_wrapper_env(name, cs, u1, u2)]
        {
            &&& u1.len() == 36
            &&& u2.len() == 36
            &&& effects[0] == EffectV::Enqueue(write_return_wrapper_env(name, cs, u1, u2))
        }
}

/// An application read: the counter advances to a new epoch, the trackers
/// reset, the reading flag rises, and an internal-read goes to every member.
pub open spec fn read_post(
    pre: RegisterV,
    post: RegisterV,
    cs: ClientStateV,
    r: Result<Seq<EffectV>, ProtocolError>,
) -> bool {
    if pre.read_tracking_counter == u64::MAX {
        r == Err::<Seq<EffectV>, ProtocolError>(ProtocolError::CounterExhausted) && post == pre
    } else {
        &&& r matches Ok(effects)
        &&& post == (RegisterV {
            read_tracking_counter: (pre.read_tracking_counter + 1) as u64,
            ack_count: 0usize,
            read_receipts: Seq::<(ProcessIdV, Receipt)>::empty(),
            am_i_reading: true,
            ..pre
        })
        &&& broadcasts_internal_read(
            r->Ok_0,
            pre.my_name,
            (pre.read_tracking_counter + 1) as u64,
            cs,
        )
    }
}

/// An application write: as a read, but the value to impose is stored and
/// the reading flag is left as it was (the write-consult phase first learns
/// the highest timestamp before imposing a higher one).
pub open spec fn write_post(
    pre: RegisterV,
    post: RegisterV,
    cs: ClientStateV,
    value: RegisterValue,
    r: Result<Seq<EffectV>, ProtocolError>,
) -> bool {
    if pre.read_tracking_counter == u64::MAX {
        r == Err::<Seq<EffectV>, ProtocolError>(ProtocolError::CounterExhausted) && post == pre
    } else {
        &&& r matches Ok(effects)
        &&& post == (RegisterV {
            read_tracking_counter: (pre.read_tracking_counter + 1) as u64,
            ack_count: 0usize,
            read_receipts: Seq::<(ProcessIdV, Receipt)>::empty(),
            my_value_for_writing: value,
            ..pre
        })
        &&& broadcasts_internal_read(
            r->Ok_0,
            pre.my_name,
            (pre.read_tracking_counter + 1) as u64,
            cs,
        )
    }
}

/// Exactly when the internal-value reply can be produced: the reply address
/// parses and the reply envelope, whose correlation ids are always 36 bytes,
/// fits the frame. A function of the register and node state alone.
pub open spec fn internal_value_reply_ok(pre: RegisterV, read_id: u64, cs: ClientStateV) -> bool {
    pl_send_ok(
        internal_value_wrapper_env(pre, read_id, blank_uuid(), blank_uuid()),
        cs.system_id,
        cs.own_port,
    )
}

/// Exactly when the internal-ack can be produced, on the same grounds.
pub open spec fn internal_ack_reply_ok(pre: RegisterV, read_id: u64, cs: ClientStateV) -> bool {
    pl_send_ok(
        internal_ack_wrapper_env(pre.my_name, pre.reply_to, read_id, blank_uuid(), blank_uuid()),
        cs.system_id,
        cs.own_port,
    )
}

/// An internal read: the register replies with its current triple to the
/// asking process, and changes nothing.
pub open spec fn internal_read_post(
    pre: RegisterV,
    cs: ClientStateV,
    read_id: u64,
    r: Result<Seq<EffectV>, ProtocolError>,
) -> bool {
    &&& (r is Ok) == internal_value_reply_ok(pre, read_id, cs)
    &&& (r == Err::<Seq<EffectV>, ProtocolError>(ProtocolError::InvalidHost)) == (
    path::parse_ipv4_spec(pre.reply_to.host) is None)
    &&& r matches Err(e) ==> (e == ProtocolError::InvalidHost || e
        == ProtocolError::EnvelopeTooLarge)
    &&& r matches Ok(es) ==> replies_internal_value(es, pre, read_id, cs)
}

/// An internal value arriving while its counter matches: recorded by sender;
/// on a strict majority the phase completes with the maximal triple.
pub open spec fn internal_value_post(
    pre: RegisterV,
    post: RegisterV,
    cs: ClientStateV,
    read_id: u64,
    t: u64,
    w: u32,
    v: RegisterValue,
    r: Result<Seq<EffectV>, ProtocolError>,
) -> bool {
    if read_id < pre.read_tracking_counter {
        r == Ok::<Seq<EffectV>, ProtocolError>(Seq::<EffectV>::empty()) && post == pre
    } else if read_id > pre.read_tracking_counter {
        r == Err::<Seq<EffectV>, ProtocolError>(ProtocolError::CounterFromFuture) && post == pre
    } else {
        let rs2 = upsert_spec(
            pre.read_receipts,
            pre.reply_to,
            Receipt { timestamp: t, writer_rank: w, value: v },
        );
        if rs2.len() <= cs.nodes.len() / 2 {
            r == Ok::<Seq<EffectV>, ProtocolError>(Seq::<EffectV>::empty()) && post == (RegisterV {
                read_receipts: rs2,
                ..pre
            })
        } else {
            let best = best_receipt(rs2);
            if !pre.am_i_reading && best.timestamp == u64::MAX {
                r == Err::<Seq<EffectV>, ProtocolError>(ProtocolError::CounterExhausted) && post
                    == (RegisterV { read_receipts: rs2, ..pre })
            } else {
                &&& post == (RegisterV {
                    my_value_for_reading: best.value,
                    read_receipts: Seq::<(ProcessIdV, Receipt)>::empty(),
                    ..pre
                })
                &&& r matches Ok(es)
                &&& if pre.am_i_reading {
                    broadcasts_internal_write(
                        r->Ok_0,
                        pre.my_name,
                        pre.read_tracking_counter,
                        best.timestamp,
                        best.writer_rank,
                        best.value,
                        cs,
                    )
                } else {
                    broadcasts_internal_write(
                        r->Ok_0,
                        pre.my_name,
                        pre.read_tracking_counter,
                        (best.timestamp + 1) as u64,
                        cs.rank,
                        pre.my_value_for_writing,
                        cs,
                    )
                }
            }
        }
    }
}

/// An internal write: the incoming triple is adopted exactly when it
/// prevails over the local one, and an ack goes back either way.
pub open spec fn internal_write_post(
    pre: RegisterV,
    post: RegisterV,
    cs: ClientStateV,
    read_id: u64,
    t: u64,
    w: u32,
    v: RegisterValue,
    r: Result<Seq<EffectV>, ProtocolError>,
) -> bool {
    let adopted = prevails(t, w, pre.timestamp, pre.writer_rank);
    &&& post == (RegisterV {
        timestamp: if adopted {
            t
        } else {
            pre.timestamp
        },
        writer_rank: if adopted {
            w
        } else {
            pre.writer_rank
        },
        value: if adopted {
            v
        } else {
            pre.value
        },
        ..pre
    })
    &&& (r is Ok) == internal_ack_reply_ok(pre, read_id, cs)
    &&& (r == Err::<Seq<EffectV>, ProtocolError>(ProtocolError::InvalidHost)) == (
    path::parse_ipv4_spec(pre.reply_to.host) is None)
    &&& r matches Err(e) ==> (e == ProtocolError::InvalidHost || e
        == ProtocolError::EnvelopeTooLarge)
    &&& r matches Ok(es) ==> sends_internal_ack(es, pre.my_name, pre.reply_to, read_id, cs)
}

/// An internal ack arriving while its counter matches: counted; on a strict
/// majority the operation completes and its return goes to the hub.
pub open spec fn internal_ack_post(
    pre: RegisterV,
    post: RegisterV,
    cs: ClientStateV,
    read_id: u64,
    r: Result<Seq<EffectV>, ProtocolError>,
) -> bool {
    if read_id < pre.read_tracking_counter {
        r == Ok::<Seq<EffectV>, ProtocolError>(Seq::<EffectV>::empty()) && post == pre
    } else if read_id > pre.read_tracking_counter {
        r == Err::<Seq<EffectV>, ProtocolError>(ProtocolError::CounterFromFuture) && post == pre
    } else if pre.ack_count == usize::MAX {
        r == Err::<Seq<EffectV>, ProtocolError>(ProtocolError::CounterExhausted) && post == pre
    } else {
        let acks = (pre.ack_count + 1) as usize;
        if acks <= cs.nodes.len() / 2 {
            r == Ok::<Seq<EffectV>, ProtocolError>(Seq::<EffectV>::empty()) && post == (RegisterV {
                ack_count: acks,
                ..pre
            })
        } else if pre.am_i_reading {
            &&& post == (RegisterV { ack_count: 0usize, am_i_reading: false, ..pre })
            &&& r matches Ok(es)
            &&& enqueues_read_return(r->Ok_0, pre.my_name, pre.my_value_for_reading, cs)
        } else {
            &&& post == (RegisterV { ack_count: 0usize, ..pre })
            &&& r matches Ok(es)
            &&& enqueues_write_return(r->Ok_0, pre.my_name, cs)
        }
    }
}

/// What `Register::handle_message` does for any envelope: each delivery
/// wrapper is stripped while the sender becomes the reply address, and the
/// protocol messages step the state machine as the predicates above say.
/// Unrecognized messages are dropped without effect.
pub open spec fn register_post(
    pre: RegisterV,
    post: RegisterV,
    cs: ClientStateV,
    msg: EnvelopeV,
    r: Result<Seq<EffectV>, ProtocolError>,
) -> bool
    decreases msg,
{
    match msg.payload {
        PayloadV::NnarRead => read_post(pre, post, cs, r),
        PayloadV::NnarWrite { value } => write_post(pre, post, cs, value, r),
        PayloadV::NnarInternalRead { read_id } => post == pre && internal_read_post(
            pre,
            cs,
            read_id,
            r,
        ),
        PayloadV::NnarInternalValue { read_id, timestamp, writer_rank, value } => {
            internal_value_post(pre, post, cs, read_id, timestamp, writer_rank, value, r)
        },
        PayloadV::NnarInternalWrite { read_id, timestamp, writer_rank, value } => {
            internal_write_post(pre, post, cs, read_id, timestamp, writer_rank, value, r)
        },
        PayloadV::NnarInternalAck { read_id } => internal_ack_post(pre, post, cs, read_id, r),
        PayloadV::NnarReadReturn { value } => {
            &&& post == pre
            &&& r matches Ok(es)
            &&& enqueues_read_return(r->Ok_0, pre.my_name, value, cs)
        },
        PayloadV::NnarWriteReturn => {
            &&& post == pre
            &&& r matches Ok(es)
            &&& enqueues_write_return(r->Ok_0, pre.my_name, cs)
        },
        PayloadV::BebDeliver { sender, message } => register_post(
            RegisterV { reply_to: sender, ..pre },
            post,
            cs,
            *message,
            r,
        ),
        PayloadV::PlDeliver { sender, message } => register_post(
            RegisterV { reply_to: sender, ..pre },
            post,
            cs,
            *message,
            r,
        ),
        PayloadV::BebBroadcast { .. } => {
            &&& post == pre
            &&& r matches Ok(es)
            &&& is_beb_of(r->Ok_0, msg, cs.nodes, cs.system_id)
        },
        PayloadV::PlSend { destination, .. } => {
            &&& post == pre
            &&& (r is Ok) == pl_send_ok(msg, cs.system_id, cs.own_port)
            &&& (r == Err::<Seq<EffectV>, ProtocolError>(ProtocolError::InvalidHost)) == (
            path::parse_ipv4_spec(destination.host) is None)
            &&& r matches Err(e) ==> (e == ProtocolError::InvalidHost || e
                == ProtocolError::EnvelopeTooLarge)
            &&& r matches Ok(es) ==> es.len() == 1 && transmits_wrapper(es[0], msg, cs)
        },
        _ => post == pre && r == Ok::<Seq<EffectV>, ProtocolError>(Seq::<EffectV>::empty()),
    }
}

impl Register {
    /// Starts an application read: a new operation epoch, cleared trackers,
    /// and an internal-read request broadcast to every member.
    pub fn handle_nnar_read(&mut self, cs: &ClientState) -> (r: Result<Vec<Effect>, ProtocolError>)
        ensures
            read_post(old(self)@, final(self)@, cs@, res_view(r)),
    {
        if self.read_tracking_counter == u64::MAX {
            return Err(ProtocolError::CounterExhausted);
        }
        self.read_tracking_counter = self.read_tracking_counter + 1;
        self.ack_count = 0;
        self.read_receipts.clear();
        self.am_i_reading = true;
        let payload = Payload::NnarInternalRead { read_id: self.read_tracking_counter };
        let mut env = Envelope::with_shipping_label(payload);
        env.from_abstraction_id = path::nnar_path(&self.my_name);
        env.to_abstraction_id = path::nnar_path(&self.my_name);
        let effects = BroadcastManager::do_beb_broadcast(env, &cs.nodes, &cs.system_id);
        proof {
            assert(self@ =~= (RegisterV {
                read_tracking_counter: (old(self)@.read_tracking_counter + 1) as u64,
                ack_count: 0usize,
                read_receipts: Seq::<(ProcessIdV, Receipt)>::empty(),
                am_i_reading: true,
                ..old(self)@
            }));
            let u = env@.message_uuid;
            assert(env@ =~= internal_read_env_spec(
                old(self)@.my_name,
                self@.read_tracking_counter,
                u,
            ));
            assert(forall|i: int|
                0 <= i < effects@.len() ==> #[trigger] effects.deep_view()[i] == effects@[i]@);
            assert(is_beb_of(effects.deep_view(), env@, cs@.nodes, cs@.system_id));
        }
        Ok(effects)
    }

    /// Starts an application write: stores the value to impose, then first
    /// consults every member with an internal-read, as a read does.
    pub fn handle_nnar_write(&mut self, value: RegisterValue, cs: &ClientState) -> (r: Result<
        Vec<Effect>,
        ProtocolError,
    >)
        ensures
            write_post(old(self)@, final(self)@, cs@, value, res_view(r)),
    {
        if self.read_tracking_counter == u64::MAX {
            return Err(ProtocolError::CounterExhausted);
        }
        self.read_tracking_counter = self.read_tracking_counter + 1;
        self.my_value_for_writing = value;
        self.ack_count = 0;
        self.read_receipts.clear();
        let payload = Payload::NnarInternalRead { read_id: self.read_tracking_counter };
        let mut env = Envelope::with_shipping_label(payload);
        env.from_abstraction_id = path::nnar_path(&self.my_name);
        env.to_abstraction_id = path::nnar_path(&self.my_name);
        let effects = BroadcastManager::do_beb_broadcast(env, &cs.nodes, &cs.system_id);
        proof {
            assert(self@ =~= (RegisterV {
                read_tracking_counter: (old(self)@.read_tracking_counter + 1) as u64,
                ack_count: 0usize,
                read_receipts: Seq::<(ProcessIdV, Receipt)>::empty(),
                my_value_for_writing: value,
                ..old(self)@
            }));
            let u = env@.message_uuid;
            assert(env@ =~= internal_read_env_spec(
                old(self)@.my_name,
                self@.read_tracking_counter,
                u,
            ));
            assert(forall|i: int|
                0 <= i < effects@.len() ==> #[trigger] effects.deep_view()[i] == effects@[i]@);
            assert(is_beb_of(effects.deep_view(), env@, cs@.nodes, cs@.system_id));
        }
        Ok(effects)
    }

    /// Answers an internal-read request: a PL send back to the asking
    /// process carrying this register's current triple and the request's
    /// counter. The register itself does not change.
    pub fn handle_nnar_internal_read(&mut self, read_id: u64, cs: &ClientState) -> (r: Result<
        Vec<Effect>,
        ProtocolError,
    >)
        ensures
            final(self)@ == old(self)@,
            internal_read_post(old(self)@, cs@, read_id, res_view(r)),
    {
        let value_payload = Payload::NnarInternalValue {
            read_id,
            timestamp: self.timestamp,
            writer_rank: self.writer_rank,
            value: self.value,
        };
        let value_env = Envelope::with_shipping_label(value_payload);
        let ghost u1 = value_env@.message_uuid;
        let pl_send = Payload::PlSend {
            destination: self.reply_to.duplicate(),
            message: Box::new(value_env),
        };
        let mut wrapper = Envelope::with_shipping_label(pl_send);
        wrapper.to_abstraction_id = path::nnar_path(&self.my_name);
        proof {
            assert(wrapper@ =~= internal_value_wrapper_env(
                self@,
                read_id,
                u1,
                wrapper@.message_uuid,
            ));
        }
        let ghost w = wrapper@;
        proof {
            let w0 = internal_value_wrapper_env(self@, read_id, blank_uuid(), blank_uuid());
            assert(scrub(*(w.payload->PlSend_message)) =~~= scrub(*(w0.payload->PlSend_message)));
            assert(similar_env(*(w.payload->PlSend_message), *(w0.payload->PlSend_message)));
            assert(scrub(w) =~~= scrub(w0));
            assert(similar_env(w, w0));
            crate::perfect_link_manager::lemma_pl_send_ok_similar(
                w,
                w0,
                cs@.system_id,
                cs@.own_port,
            );
        }
        match PerfectLinkManager::handle_pl_send(wrapper, &cs.system_id, cs.own_port) {
            Ok(si) => {
                let mut out: Vec<Effect> = Vec::new();
                out.push(Effect::Transmit(si));
                proof {
                    assert(out.deep_view() =~= seq![out@[0]@]);
                    assert(transmits_wrapper(out.deep_view()[0], w, cs@));
                    assert(replies_internal_value(out.deep_view(), self@, read_id, cs@));
                }
                Ok(out)
            },
            Err(e) => Err(e),
        }
    }

    /// Adopts an incoming internal-write exactly when its `(timestamp,
    /// writer rank)` pair strictly prevails over the local one; either way
    /// acknowledges back to the sender under the write's counter.
    pub fn handle_nnar_internal_write(
        &mut self,
        read_id: u64,
        timestamp: u64,
        writer_rank: u32,
        value: RegisterValue,
        cs: &ClientState,
    ) -> (r: Result<Vec<Effect>, ProtocolError>)
        ensures
            internal_write_post(
                old(self)@,
                final(self)@,
                cs@,
                read_id,
                timestamp,
                writer_rank,
                value,
                res_view(r),
            ),
    {
        if timestamp > self.timestamp || (timestamp == self.timestamp && writer_rank
            > self.writer_rank) {
            self.timestamp = timestamp;
            self.writer_rank = writer_rank;
            self.value = value;
        }
        proof {
            let adopted = prevails(
                timestamp,
                writer_rank,
                old(self)@.timestamp,
                old(self)@.writer_rank,
            );
            assert(self@ =~= (RegisterV {
                timestamp: if adopted {
                    timestamp
                } else {
                    old(self)@.timestamp
                },
                writer_rank: if adopted {
                    writer_rank
                } else {
                    old(self)@.writer_rank
                },
                value: if adopted {
                    value
                } else {
                    old(self)@.value
                },
                ..old(self)@
            }));
        }
        let ack_payload = Payload::NnarInternalAck { read_id };
        let mut ack_env = Envelope::with_shipping_label(ack_payload);
        ack_env.to_abstraction_id = path::nnar_path(&self.my_name);
        let ghost u1 = ack_env@.message_uuid;
        let pl_send = Payload::PlSend {
            destination: self.reply_to.duplicate(),
            message: Box::new(ack_env),
        };
        let mut wrapper = Envelope::with_shipping_label(pl_send);
        wrapper.to_abstraction_id = path::nnar_path(&self.my_name);
        proof {
            assert(wrapper@ =~= internal_ack_wrapper_env(
                old(self)@.my_name,
                old(self)@.reply_to,
                read_id,
                u1,
                wrapper@.message_uuid,
            ));
        }
        let ghost w = wrapper@;
        proof {
            let w0 = internal_ack_wrapper_env(
                old(self)@.my_name,
                old(self)@.reply_to,
                read_id,
                blank_uuid(),
                blank_uuid(),
            );
            assert(scrub(*(w.payload->PlSend_message)) =~~= scrub(*(w0.payload->PlSend_message)));
            assert(similar_env(*(w.payload->PlSend_message), *(w0.payload->PlSend_message)));
            assert(scrub(w) =~~= scrub(w0));
            assert(similar_env(w, w0));
            crate::perfect_link_manager::lemma_pl_send_ok_similar(
                w,
                w0,
                cs@.system_id,
                cs@.own_port,
            );
        }
        match PerfectLinkManager::handle_pl_send(wrapper, &cs.system_id, cs.own_port) {
            Ok(si) => {
                let mut out: Vec<Effect> = Vec::new();
                out.push(Effect::Transmit(si));
                proof {
                    assert(out.deep_view() =~= seq![out@[0]@]);
                    assert(transmits_wrapper(out.deep_view()[0], w, cs@));
                    assert(sends_internal_ack(
                        out.deep_view(),
                        old(self)@.my_name,
                        old(self)@.reply_to,
                        read_id,
                        cs@,
                    ));
                }
                Ok(out)
            },
            Err(e) => Err(e),
        }
    }

    /// Collects one internal value. A value from a superseded operation is
    /// ignored; one from the future is a protocol violation. Once strictly
    /// more than half the membership has answered the current counter, the
    /// maximal triple wins and an internal-write goes out: an echo of that
    /// triple when reading, or a higher-stamped own write when writing.
    pub fn handle_nnar_internal_value(
        &mut self,
        read_id: u64,
        timestamp: u64,
        writer_rank: u32,
        value: RegisterValue,
        cs: &ClientState,
    ) -> (r: Result<Vec<Effect>, ProtocolError>)
        requires
            reg_wf(old(self)@),
        ensures
            reg_wf(final(self)@),
            internal_value_post(
                old(self)@,
                final(self)@,
                cs@,
                read_id,
                timestamp,
                writer_rank,
                value,
                res_view(r),
            ),
    {
        if read_id < self.read_tracking_counter {
            let out: Vec<Effect> = Vec::new();
            proof {
                assert(out.deep_view() =~= Seq::<EffectV>::empty());
            }
            return Ok(out);
        }
        if read_id > self.read_tracking_counter {
            return Err(ProtocolError::CounterFromFuture);
        }
        let receipt = Receipt { timestamp, writer_rank, value };
        upsert_receipt(&mut self.read_receipts, self.reply_to.duplicate(), receipt);
        proof {
            assert(self@ =~= (RegisterV {
                read_receipts: upsert_spec(old(self)@.read_receipts, old(self)@.reply_to, receipt),
                ..old(self)@
            }));
        }
        if self.read_receipts.len() <= cs.nodes.len() / 2 {
            proof {
                assert(cs@.nodes.len() == cs.nodes@.len());
            }
            let out: Vec<Effect> = Vec::new();
            proof {
                assert(out.deep_view() =~= Seq::<EffectV>::empty());
            }
            return Ok(out);
        }
        let best = select_best(&self.read_receipts);
        let (new_timestamp, new_writer_rank, new_value) = if self.am_i_reading {
            (best.timestamp, best.writer_rank, best.value)
        } else {
            if best.timestamp == u64::MAX {
                return Err(ProtocolError::CounterExhausted);
            }
            (best.timestamp + 1, cs.rank, self.my_value_for_writing)
        };
        self.my_value_for_reading = best.value;
        self.read_receipts.clear();
        let payload = Payload::NnarInternalWrite {
            read_id: self.read_tracking_counter,
            timestamp: new_timestamp,
            writer_rank: new_writer_rank,
            value: new_value,
        };
        let mut env = Envelope::with_shipping_label(payload);
        env.from_abstraction_id = path::nnar_path(&self.my_name);
        env.to_abstraction_id = path::nnar_path(&self.my_name);
        let effects = BroadcastManager::do_beb_broadcast(env, &cs.nodes, &cs.system_id);
        proof {
            assert(self@ =~= (RegisterV {
                my_value_for_reading: best.value,
                read_receipts: Seq::<(ProcessIdV, Receipt)>::empty(),
                ..old(self)@
            }));
            let u = env@.message_uuid;
            assert(env@ =~= internal_write_env_spec(
                old(self)@.my_name,
                old(self)@.read_tracking_counter,
                new_timestamp,
                new_writer_rank,
                new_value,
                u,
            ));
            assert(forall|i: int|
                0 <= i < effects@.len() ==> #[trigger] effects.deep_view()[i] == effects@[i]@);
            assert(is_beb_of(effects.deep_view(), env@, cs@.nodes, cs@.system_id));
        }
        Ok(effects)
    }

    /// Counts one internal ack, under the same stale and future rules. Once
    /// strictly more than half the membership has acknowledged, the pending
    /// operation completes and its return is enqueued for the hub.
    pub fn handle_nnar_internal_ack(&mut self, read_id: u64, cs: &ClientState) -> (r: Result<
        Vec<Effect>,
        ProtocolError,
    >)
        ensures
            internal_ack_post(old(self)@, final(self)@, cs@, read_id, res_view(r)),
    {
        if read_id < self.read_tracking_counter {
            let out: Vec<Effect> = Vec::new();
            proof {
                assert(out.deep_view() =~= Seq::<EffectV>::empty());
            }
            return Ok(out);
        }
        if read_id > self.read_tracking_counter {
            return Err(ProtocolError::CounterFromFuture);
        }
        if self.ack_count == usize::MAX {
            return Err(ProtocolError::CounterExhausted);
        }
        self.ack_count = self.ack_count + 1;
        if self.ack_count <= cs.nodes.len() / 2 {
            proof {
                assert(self@ =~= (RegisterV {
                    ack_count: (old(self)@.ack_count + 1) as usize,
                    ..old(self)@
                }));
            }
            let out: Vec<Effect> = Vec::new();
            proof {
                assert(out.deep_view() =~= Seq::<EffectV>::empty());
            }
            return Ok(out);
        }
        self.ack_count = 0;
        if self.am_i_reading {
            self.am_i_reading = false;
            let out = self.handle_nnar_read_return(self.my_value_for_reading, cs);
            proof {
                assert(self@ =~= (RegisterV {
                    ack_count: 0usize,
                    am_i_reading: false,
                    ..old(self)@
                }));
            }
            Ok(out)
        } else {
            let out = self.handle_nnar_write_return(cs);
            proof {
                assert(self@ =~= (RegisterV { ack_count: 0usize, ..old(self)@ }));
            }
            Ok(out)
        }
    }

    /// Steps this register by one envelope. Delivery wrappers are stripped
    /// one layer at a time, recording their sender as the reply address; the
    /// protocol messages run the state machine; PL-sends and broadcasts pass
    /// to the lower layers; anything else is dropped without effect.
    pub fn handle_message(&mut self, message: Envelope, cs: &ClientState) -> (r: Result<
        Vec<Effect>,
        ProtocolError,
    >)
        requires
            reg_wf(old(self)@),
        ensures
            reg_wf(final(self)@),
            final(self)@.my_name == old(self)@.my_name,
            register_post(old(self)@, final(self)@, cs@, message@, res_view(r)),
        decreases message,
    {
        let Envelope { system_id, from_abstraction_id, to_abstraction_id, message_uuid, payload } =
            message;
        match payload {
            Payload::NnarRead => self.handle_nnar_read(cs),
            Payload::NnarWrite { value } => self.handle_nnar_write(value, cs),
            Payload::NnarInternalRead { read_id } => self.handle_nnar_internal_read(read_id, cs),
            Payload::NnarInternalValue { read_id, timestamp, writer_rank, value } => {
                self.handle_nnar_internal_value(read_id, timestamp, writer_rank, value, cs)
            },
            Payload::NnarInternalWrite { read_id, timestamp, writer_rank, value } => {
                self.handle_nnar_internal_write(read_id, timestamp, writer_rank, value, cs)
            },
            Payload::NnarInternalAck { read_id } => self.handle_nnar_internal_ack(read_id, cs),
            Payload::NnarReadReturn { value } => {
                let out = self.handle_nnar_read_return(value, cs);
                Ok(out)
            },
            Payload::NnarWriteReturn => {
                let out = self.handle_nnar_write_return(cs);
                Ok(out)
            },
            Payload::BebDeliver { sender, message: inner } => {
                self.reply_to = sender;
                proof {
                    assert(self@ =~= (RegisterV {
                        reply_to: message@.payload->BebDeliver_sender,
                        ..old(self)@
                    }));
                }
                self.handle_message(*inner, cs)
            },
            Payload::PlDeliver { sender, message: inner } => {
                self.reply_to = sender;
                proof {
                    assert(self@ =~= (RegisterV {
                        reply_to: message@.payload->PlDeliver_sender,
                        ..old(self)@
                    }));
                }
                self.handle_message(*inner, cs)
            },
            Payload::BebBroadcast { message: inner } => {
                let whole = Envelope {
                    system_id,
                    from_abstraction_id,
                    to_abstraction_id,
                    message_uuid,
                    payload: Payload::BebBroadcast { message: inner },
                };
                proof {
                    assert(whole@ =~= message@);
                }
                let effects = BroadcastManager::do_beb_broadcast(whole, &cs.nodes, &cs.system_id);
                proof {
                    assert(forall|i: int|
                        0 <= i < effects@.len() ==> #[trigger] effects.deep_view()[i]
                            == effects@[i]@);
                    assert(is_beb_of(effects.deep_view(), message@, cs@.nodes, cs@.system_id));
                }
                Ok(effects)
            },
            Payload::PlSend { destination, message: inner } => {
                let whole = Envelope {
                    system_id,
                    from_abstraction_id,
                    to_abstraction_id,
                    message_uuid,
                    payload: Payload::PlSend { destination, message: inner },
                };
                proof {
                    assert(whole@ =~= message@);
                }
                match PerfectLinkManager::handle_pl_send(whole, &cs.system_id, cs.own_port) {
                    Ok(si) => {
                        let mut out: Vec<Effect> = Vec::new();
                        out.push(Effect::Transmit(si));
                        proof {
                            assert(out.deep_view() =~= seq![out@[0]@]);
                            assert(transmits_wrapper(out.deep_view()[0], message@, cs@));
                        }
                        Ok(out)
                    },
                    Err(e) => Err(e),
                }
            },
            _ => {
                let out: Vec<Effect> = Vec::new();
                proof {
                    assert(out.deep_view() =~= Seq::<EffectV>::empty());
                }
                Ok(out)
            },
        }
    }

    /// Translates a completed read into an application read-return bound for
    /// the hub.
    pub fn handle_nnar_read_return(&self, value: RegisterValue, cs: &ClientState) -> (r: Vec<
        Effect,
    >)
        ensures
            enqueues_read_return(r.deep_view(), self@.my_name, value, cs@),
    {
        let app_payload = Payload::AppReadReturn {
            register: crate::bytestr::clone_bytes(&self.my_name),
            value,
        };
        let app_env = Envelope::with_shipping_label(app_payload);
        let ghost u1 = app_env@.message_uuid;
        let hub = ProcessId {
            host: crate::bytestr::clone_bytes(&cs.hub_host),
            port: cs.hub_port,
            owner: Vec::new(),
            index: 0,
            rank: 0,
        };
        let wrapper = Envelope::with_shipping_label(
            Payload::PlSend { destination: hub, message: Box::new(app_env) },
        );
        proof {
            assert(wrapper@ =~= read_return_wrapper_env(
                self@.my_name,
                value,
                cs@,
                u1,
                wrapper@.message_uuid,
            ));
        }
        let mut out: Vec<Effect> = Vec::new();
        out.push(Effect::Enqueue(wrapper));
        proof {
            assert(out.deep_view() =~= seq![out@[0]@]);
        }
        out
    }

    /// Translates a completed write into an application write-return bound
    /// for the hub.
    pub fn handle_nnar_write_return(&self, cs: &ClientState) -> (r: Vec<Effect>)
        ensures
            enqueues_write_return(r.deep_view(), self@.my_name, cs@),
    {
        let app_payload = Payload::AppWriteReturn {
            register: crate::bytestr::clone_bytes(&self.my_name),
        };
        let app_env = Envelope::with_shipping_label(app_payload);
        let ghost u1 = app_env@.message_uuid;
        let hub = ProcessId {
            host: crate::bytestr::clone_bytes(&cs.hub_host),
            port: cs.hub_port,
            owner: Vec::new(),
            index: 0,
            rank: 0,
        };
        let wrapper = Envelope::with_shipping_label(
            Payload::PlSend { destination: hub, message: Box::new(app_env) },
        );
        proof {
            assert(wrapper@ =~= write_return_wrapper_env(
                self@.my_name,
                cs@,
                u1,
                wrapper@.message_uuid,
            ));
        }
        let mut out: Vec<Effect> = Vec::new();
        out.push(Effect::Enqueue(wrapper));
        proof {
            assert(out.deep_view() =~= seq![out@[0]@]);
        }
        out
    }
}

/// The store of registers, keyed by name, created lazily on first use and
/// never destroyed.
#[derive(Debug)]
pub struct RegisterManager {
    pub registers: Vec<(Vec<u8>, Register)>,
}

impl View for RegisterManager {
    type V = Seq<(Seq<u8>, RegisterV)>;

    open spec fn view(&self) -> Seq<(Seq<u8>, RegisterV)> {
        Seq::new(self.registers@.len(), |i: int| (self.registers@[i].0@, self.registers@[i].1@))
    }
}

/// The store is well formed when no name owns two registers, every register
/// carries the name it is stored under, and each register is well formed.
pub open spec fn mgr_wf(v: Seq<(Seq<u8>, RegisterV)>) -> bool {
    &&& forall|i: int, j: int| 0 <= i < j < v.len() ==> (#[trigger] v[i]).0 != (#[trigger] v[j]).0
    &&& forall|i: int| 0 <= i < v.len() ==> (#[trigger] v[i]).1.my_name == v[i].0
    &&& forall|i: int| 0 <= i < v.len() ==> reg_wf((#[trigger] v[i]).1)
}

/// The position of the register called `name`, scanning from `i`.
pub open spec fn reg_idx(v: Seq<(Seq<u8>, RegisterV)>, name: Seq<u8>, i: int) -> Option<int>
    decreases v.len() - i,
{
    if i < 0 || i >= v.len() {
        None
    } else if v[i].0 == name {
        Some(i)
    } else {
        reg_idx(v, name, i + 1)
    }
}

/// When no scan from `i` finds `name`, no entry at or after `i` has it.
proof fn lemma_reg_idx_none(v: Seq<(Seq<u8>, RegisterV)>, name: Seq<u8>, i: int)
    requires
        0 <= i,
        reg_idx(v, name, i) is None,
    ensures
        forall|j: int| i <= j < v.len() ==> (#[trigger] v[j]).0 != name,
    decreases v.len() - i,
{
    if 0 <= i < v.len() {
        lemma_reg_idx_none(v, name, i + 1);
    }
}

/// What routing one envelope does to the store: a bad route changes
/// nothing; otherwise exactly the named register steps, created fresh first
/// if the name is new, and every other entry stays as it was.
pub open spec fn mgr_step_post(
    pre: Seq<(Seq<u8>, RegisterV)>,
    post: Seq<(Seq<u8>, RegisterV)>,
    cs: ClientStateV,
    msg: EnvelopeV,
    r: Result<Seq<EffectV>, ProtocolError>,
) -> bool {
    match path::register_name_spec(msg.to_abstraction_id) {
        None => r == Err::<Seq<EffectV>, ProtocolError>(ProtocolError::BadRegisterPath) && post
            == pre,
        Some(name) => match reg_idx(pre, name, 0) {
            Some(k) => {
                &&& post.len() == pre.len()
                &&& forall|j: int| 0 <= j < pre.len() && j != k ==> post[j] == pre[j]
                &&& post[k].0 == name
                &&& register_post(pre[k].1, post[k].1, cs, msg, r)
            },
            None => {
                &&& post.len() == pre.len() + 1
                &&& forall|j: int| 0 <= j < pre.len() ==> post[j] == pre[j]
                &&& post[pre.len() as int].0 == name
                &&& register_post(fresh_register_spec(name), post[pre.len() as int].1, cs, msg, r)
            },
        },
    }
}

impl RegisterManager {
    /// An empty store.
    pub fn new() -> (r: RegisterManager)
        ensures
            r@ == Seq::<(Seq<u8>, RegisterV)>::empty(),
            mgr_wf(r@),
    {
        let r = RegisterManager { registers: Vec::new() };
        proof {
            assert(r@ =~= Seq::<(Seq<u8>, RegisterV)>::empty());
        }
        r
    }

    /// Routes one envelope to the register its path names, creating that
    /// register on first use — at most once per name, however many messages
    /// address it. A route without a complete `[name]` part is refused.
    pub fn handle_message(&mut self, message: Envelope, cs: &ClientState) -> (r: Result<
        Vec<Effect>,
        ProtocolError,
    >)
        requires
            mgr_wf(old(self)@),
        ensures
            mgr_wf(final(self)@),
            mgr_step_post(old(self)@, final(self)@, cs@, message@, res_view(r)),
    {
        let name = match path::extract_register_name(&message.to_abstraction_id) {
            Some(n) => n,
            None => {
                return Err(ProtocolError::BadRegisterPath);
            },
        };
        let mut i: usize = 0;
        while i < self.registers.len()
            invariant
                i <= self.registers@.len(),
                self == old(self),
                mgr_wf(self@),
                path::register_name_spec(message@.to_abstraction_id) == Some(name@),
                reg_idx(self@, name@, 0) == reg_idx(self@, name@, i as int),
            decreases self.registers@.len() - i,
        {
            if crate::bytestr::bytes_eq(&self.registers[i].0, &name) {
                proof {
                    assert(self@[i as int].0 == name@);
                    assert(reg_idx(self@, name@, i as int) == Some(i as int));
                }
                proof {
                    assert(reg_idx(old(self)@, name@, 0) == Some(i as int));
                }
                let ghost pre_entry = self@[i as int];
                let mut entry = self.registers.remove(i);
                proof {
                    assert(entry.0@ == pre_entry.0 && entry.1@ == pre_entry.1);
                }
                let res = entry.1.handle_message(message, cs);
                let ghost stepped = entry.1@;
                self.registers.insert(i, entry);
                proof {
                    assert(self@ =~= old(self)@.update(i as int, (pre_entry.0, stepped)));
                    assert(self@.len() == old(self)@.len());
                    assert(forall|j: int|
                        0 <= j < old(self)@.len() && j != i as int ==> #[trigger] self@[j] == old(
                            self,
                        )@[j]);
                    assert(self@[i as int].0 == name@);
                    assert(register_post(
                        old(self)@[i as int].1,
                        self@[i as int].1,
                        cs@,
                        message@,
                        res_view(res),
                    ));
                    assert(mgr_wf(self@));
                    assert(mgr_step_post(old(self)@, self@, cs@, message@, res_view(res))) by {
                        let nm = path::register_name_spec(message@.to_abstraction_id)->Some_0;
                        assert(nm == name@);
                        let k = reg_idx(old(self)@, nm, 0)->Some_0;
                        assert(k == i as int);
                        assert(old(self)@[k].1 == old(self)@[i as int].1);
                        assert(self@[k].1 == self@[i as int].1);
                        assert(self@[k].0 == nm);
                        assert(self@.len() == old(self)@.len());
                        assert(forall|j: int|
                            0 <= j < old(self)@.len() && j != k ==> #[trigger] self@[j] == old(
                                self,
                            )@[j]);
                        assert(register_post(
                            old(self)@[k].1,
                            self@[k].1,
                            cs@,
                            message@,
                            res_view(res),
                        ));
                    }
                }
                return res;
            }
            proof {
                assert(reg_idx(self@, name@, i as int) == reg_idx(self@, name@, i as int + 1));
            }
            i += 1;
        }
        proof {
            assert(reg_idx(self@, name@, self@.len() as int) is None);
        }
        let mut fresh = Register::new(crate::bytestr::clone_bytes(&name));
        let res = fresh.handle_message(message, cs);
        let ghost stepped = fresh@;
        self.registers.push((name, fresh));
        proof {
            assert(self@ =~= old(self)@.push((name@, stepped)));
            assert(reg_idx(old(self)@, name@, 0) is None);
            assert(self@.len() == old(self)@.len() + 1);
            assert(forall|j: int|
                0 <= j < old(self)@.len() ==> #[trigger] self@[j] == old(self)@[j]);
            assert(self@[old(self)@.len() as int].0 == name@);
            assert(register_post(
                fresh_register_spec(name@),
                self@[old(self)@.len() as int].1,
                cs@,
                message@,
                res_view(res),
            ));
            assert(mgr_wf(self@)) by {
                assert(forall|j: int|
                    0 <= j < old(self)@.len() ==> (#[trigger] self@[j]).0 != name@) by {
                    assert(reg_idx(old(self)@, name@, old(self)@.len() as int) is None);
                    lemma_reg_idx_none(old(self)@, name@, 0);
                }
            }
            assert(mgr_step_post(old(self)@, self@, cs@, message@, res_view(res)));
        }
        res
    }
}

} // verus!
