use dp_algo::codec::{decode, encode, is_wf, u32_from_be, u32_to_be};
use dp_algo::{Envelope, Payload, ProcessId, RegisterValue};

fn b(s: &str) -> Vec<u8> {
    s.as_bytes().to_vec()
}

fn pid(host: &str, port: u16, owner: &str, index: u32, rank: u32) -> ProcessId {
    ProcessId { host: b(host), port, owner: b(owner), index, rank }
}

fn env(system_id: &str, from: &str, to: &str, uuid: &str, payload: Payload) -> Envelope {
    Envelope {
        system_id: b(system_id),
        from_abstraction_id: b(from),
        to_abstraction_id: b(to),
        message_uuid: b(uuid),
        payload,
    }
}

fn assert_round_trip(e: &Envelope) {
    assert!(is_wf(e));
    let bytes = encode(e);
    let back = decode(&bytes).expect("a fresh encoding must decode");
    assert_eq!(&back, e);
}

#[test]
fn round_trip_every_plain_payload() {
    let val = RegisterValue { defined: true, v: -17 };
    let cases = vec![
        Payload::ProcRegistration { owner: b("uwu"), index: 2 },
        Payload::ProcInitializeSystem {
            processes: vec![pid("127.0.0.1", 5004, "hub", 0, 0), pid("10.0.0.7", 5005, "n", 1, 2)],
        },
        Payload::AppBroadcast { value: val },
        Payload::AppValue { value: val },
        Payload::AppRead { register: b("x") },
        Payload::AppWrite { register: b("x"), value: val },
        Payload::AppReadReturn { register: b("x"), value: val },
        Payload::AppWriteReturn { register: b("x") },
        Payload::NnarRead,
        Payload::NnarWrite { value: val },
        Payload::NnarReadReturn { value: val },
        Payload::NnarWriteReturn,
        Payload::NnarInternalRead { read_id: 7 },
        Payload::NnarInternalValue { read_id: 7, timestamp: 3, writer_rank: 2, value: val },
        Payload::NnarInternalWrite { read_id: 8, timestamp: 4, writer_rank: 1, value: val },
        Payload::NnarInternalAck { read_id: 9 },
    ];
    for payload in cases {
        let e = env("sys", "app", "app.nnar[x]", "id-123", payload);
        assert_round_trip(&e);
    }
}

#[test]
fn round_trip_nested_wrappers() {
    let inner = env("s", "", "app.nnar[x]", "u1", Payload::NnarInternalRead { read_id: 1 });
    let pl = env(
        "s",
        "",
        "app.nnar[x].beb",
        "u2",
        Payload::PlSend { destination: pid("127.0.0.1", 5001, "", 0, 1), message: Box::new(inner) },
    );
    let net = env(
        "s",
        "",
        "app.nnar[x].beb.pl",
        "u3",
        Payload::NetworkMessage {
            sender_host: b("127.0.0.1"),
            sender_listening_port: 5002,
            message: Box::new(pl),
        },
    );
    assert_round_trip(&net);

    let deliver = env(
        "s",
        "",
        "x",
        "u4",
        Payload::PlDeliver {
            sender: pid("127.0.0.1", 5001, "", 0, 1),
            message: Box::new(env("s", "", "", "u5", Payload::NnarRead)),
        },
    );
    assert_round_trip(&deliver);

    let beb = env(
        "s",
        "",
        "app",
        "u6",
        Payload::BebBroadcast {
            message: Box::new(env("s", "", "app", "u7", Payload::NnarWriteReturn)),
        },
    );
    assert_round_trip(&beb);

    let bdel = env(
        "s",
        "",
        "app",
        "u8",
        Payload::BebDeliver {
            sender: pid("10.1.2.3", 9, "o", 3, 4),
            message: Box::new(env("s", "", "app", "u9", Payload::NnarRead)),
        },
    );
    assert_round_trip(&bdel);
}

#[test]
fn round_trip_boundary_values() {
    let e = env(
        "",
        "",
        "",
        "",
        Payload::NnarInternalValue {
            read_id: u64::MAX,
            timestamp: u64::MAX,
            writer_rank: u32::MAX,
            value: RegisterValue { defined: false, v: i32::MIN },
        },
    );
    assert_round_trip(&e);
    let e2 = env("", "", "", "", Payload::NnarInternalAck { read_id: 0 });
    assert_round_trip(&e2);
}

#[test]
fn decode_rejects_garbage_and_truncation() {
    assert!(decode(&Vec::new()).is_none());
    assert!(decode(&vec![0u8; 3]).is_none());
    let e = env("sys", "a", "b", "c", Payload::NnarRead);
    let mut bytes = encode(&e);
    // trailing garbage is refused
    bytes.push(0);
    assert!(decode(&bytes).is_none());
    bytes.pop();
    // truncation is refused
    bytes.pop();
    assert!(decode(&bytes).is_none());
    // an unknown payload tag is refused
    let mut tagged = encode(&e);
    let n = tagged.len();
    tagged[n - 1] = 99;
    assert!(decode(&tagged).is_none());
}

#[test]
fn encoding_is_length_prefixed_big_endian() {
    let four = u32_to_be(0x01020304);
    assert_eq!(four, vec![1, 2, 3, 4]);
    assert_eq!(u32_from_be(&four), Some(0x01020304));
    assert_eq!(u32_from_be(&vec![1, 2, 3]), None);
    assert_eq!(u32_from_be(&vec![0, 0, 0, 9]), Some(9));

    // a byte string travels as its four-byte length, then its bytes
    let e = env("", "", "", "", Payload::AppRead { register: b("xy") });
    let bytes = encode(&e);
    let tail = &bytes[bytes.len() - 7..];
    assert_eq!(tail, &[9, 0, 0, 0, 2, b'x', b'y']);
}
