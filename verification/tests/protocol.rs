use dp_algo::client::{Client, ClientState};
use dp_algo::effect::{Effect, ProtocolError};
use dp_algo::path::{extract_register_name, is_register_route, parse_ipv4};
use dp_algo::broadcast_manager::BroadcastManager;
use dp_algo::network_service::NetworkService;
use dp_algo::perfect_link_manager::PerfectLinkManager;
use dp_algo::register_manager::{Receipt, Register, RegisterManager};
use dp_algo::{Envelope, Ipv4Octets, Payload, ProcessId, RegisterValue};

fn b(s: &str) -> Vec<u8> {
    s.as_bytes().to_vec()
}

fn pid(port: u16, rank: u32) -> ProcessId {
    ProcessId { host: b("127.0.0.1"), port, owner: b("n"), index: rank, rank }
}

fn members(n: u16) -> Vec<ProcessId> {
    (0..n).map(|k| pid(5001 + k, (k + 1) as u32)).collect()
}

fn state(n: u16) -> ClientState {
    ClientState {
        own_port: 5001,
        hub_host: b("127.0.0.1"),
        hub_port: 5000,
        nodes: members(n),
        system_id: b("sys"),
        rank: 1,
        initialized: true,
    }
}

fn undefined() -> RegisterValue {
    RegisterValue { defined: false, v: 0 }
}

fn defined(v: i32) -> RegisterValue {
    RegisterValue { defined: true, v }
}

// --- quorum arithmetic -----------------------------------------------------
#[test]
fn three_members_need_two_receipts() {
    let cs = state(3);
    let mut reg = Register::new(b("x"));
    reg.read_tracking_counter = 1;
    reg.am_i_reading = true;
    reg.reply_to = pid(5001, 1);
    let es = reg.handle_nnar_internal_value(1, 0, 0, undefined(), &cs).unwrap();
    assert!(es.is_empty(), "one receipt out of three is below the quorum");
    assert_eq!(reg.read_receipts.len(), 1);
    reg.reply_to = pid(5002, 2);
    let es = reg.handle_nnar_internal_value(1, 0, 0, undefined(), &cs).unwrap();
    assert_eq!(es.len(), 3, "two receipts out of three complete the phase");
    assert!(reg.read_receipts.is_empty(), "receipts are cleared on completion");
}

#[test]
fn five_members_need_three_acks() {
    let cs = ClientState { nodes: members(5), ..state(5) };
    let mut reg = Register::new(b("x"));
    reg.read_tracking_counter = 1;
    reg.am_i_reading = false;
    assert!(reg.handle_nnar_internal_ack(1, &cs).unwrap().is_empty());
    assert!(reg.handle_nnar_internal_ack(1, &cs).unwrap().is_empty());
    assert_eq!(reg.ack_count, 2);
    let es = reg.handle_nnar_internal_ack(1, &cs).unwrap();
    assert_eq!(es.len(), 1, "the third ack of five completes the operation");
    assert_eq!(reg.ack_count, 0);
}

#[test]
fn repeated_receipts_from_one_sender_count_once() {
    let cs = state(3);
    let mut reg = Register::new(b("x"));
    reg.read_tracking_counter = 1;
    reg.am_i_reading = true;
    reg.reply_to = pid(5001, 1);
    assert!(reg.handle_nnar_internal_value(1, 0, 0, undefined(), &cs).unwrap().is_empty());
    // the same sender answering twice replaces its receipt, adding nothing
    let es = reg.handle_nnar_internal_value(1, 1, 1, defined(4), &cs).unwrap();
    assert!(es.is_empty());
    assert_eq!(reg.read_receipts.len(), 1);
}

// --- total order of writes -------------------------------------------------
#[test]
fn internal_write_adopts_only_strictly_newer_triples() {
    let cs = state(3);
    let mut reg = Register::new(b("x"));
    reg.reply_to = pid(5002, 2);
    reg.timestamp = 5;
    reg.writer_rank = 2;
    reg.value = defined(10);

    // higher timestamp wins
    reg.handle_nnar_internal_write(1, 6, 1, defined(11), &cs).unwrap();
    assert_eq!((reg.timestamp, reg.writer_rank, reg.value), (6, 1, defined(11)));
    // equal timestamp, higher writer rank wins
    reg.handle_nnar_internal_write(1, 6, 3, defined(12), &cs).unwrap();
    assert_eq!((reg.timestamp, reg.writer_rank, reg.value), (6, 3, defined(12)));
    // equal timestamp, lower writer rank loses
    reg.handle_nnar_internal_write(1, 6, 2, defined(13), &cs).unwrap();
    assert_eq!((reg.timestamp, reg.writer_rank, reg.value), (6, 3, defined(12)));
    // lower timestamp loses
    reg.handle_nnar_internal_write(1, 5, 9, defined(14), &cs).unwrap();
    assert_eq!((reg.timestamp, reg.writer_rank, reg.value), (6, 3, defined(12)));
    // a full tie adopts nothing
    reg.handle_nnar_internal_write(1, 6, 3, defined(15), &cs).unwrap();
    assert_eq!((reg.timestamp, reg.writer_rank, reg.value), (6, 3, defined(12)));
}

#[test]
fn internal_write_always_acknowledges() {
    let cs = state(3);
    let mut reg = Register::new(b("x"));
    reg.reply_to = pid(5002, 2);
    let es = reg.handle_nnar_internal_write(4, 0, 0, undefined(), &cs).unwrap();
    assert_eq!(es.len(), 1, "even a losing write is acknowledged");
    match &es[0] {
        Effect::Transmit(si) => {
            assert_eq!(si.ip, Ipv4Octets { a: 127, b: 0, c: 0, d: 1 });
            assert_eq!(si.port, 5002);
        },
        other => panic!("expected a transmit, got {:?}", other),
    }
}

// --- stale-response immunity -----------------------------------------------
#[test]
fn stale_internal_value_changes_nothing() {
    let cs = state(3);
    let mut reg = Register::new(b("x"));
    reg.read_tracking_counter = 5;
    reg.ack_count = 1;
    reg.reply_to = pid(5002, 2);
    let es = reg.handle_nnar_internal_value(4, 9, 9, defined(9), &cs).unwrap();
    assert!(es.is_empty());
    assert!(reg.read_receipts.is_empty());
    assert_eq!(reg.ack_count, 1);
    assert_eq!(reg.read_tracking_counter, 5);
    assert_eq!(reg.value, undefined());
}

#[test]
fn stale_internal_ack_changes_nothing() {
    let cs = state(3);
    let mut reg = Register::new(b("x"));
    reg.read_tracking_counter = 5;
    reg.ack_count = 1;
    let es = reg.handle_nnar_internal_ack(4, &cs).unwrap();
    assert!(es.is_empty());
    assert_eq!(reg.ack_count, 1);
}

#[test]
fn future_counter_is_a_protocol_violation() {
    let cs = state(3);
    let mut reg = Register::new(b("x"));
    reg.read_tracking_counter = 1;
    assert_eq!(
        reg.handle_nnar_internal_value(2, 0, 0, undefined(), &cs),
        Err(ProtocolError::CounterFromFuture)
    );
    assert_eq!(reg.handle_nnar_internal_ack(2, &cs), Err(ProtocolError::CounterFromFuture));
}

// --- idempotent routing ----------------------------------------------------
#[test]
fn register_created_at_most_once_per_name() {
    let cs = state(3);
    let mut mgr = RegisterManager::new();
    let addressed = |to: &str| Envelope {
        system_id: b("sys"),
        from_abstraction_id: b(""),
        to_abstraction_id: b(to),
        message_uuid: b("u"),
        payload: Payload::NnarInternalAck { read_id: 0 },
    };
    mgr.handle_message(addressed("app.nnar[x]"), &cs).unwrap();
    assert_eq!(mgr.registers.len(), 1);
    mgr.handle_message(addressed("app.nnar[x].beb"), &cs).unwrap();
    mgr.handle_message(addressed("app.nnar[x].beb.pl"), &cs).unwrap();
    assert_eq!(mgr.registers.len(), 1, "three routes naming x yield one register");
    mgr.handle_message(addressed("app.nnar[y]"), &cs).unwrap();
    assert_eq!(mgr.registers.len(), 2);
    assert_eq!(mgr.registers[0].0, b("x"));
    assert_eq!(mgr.registers[1].0, b("y"));
}

#[test]
fn route_without_name_is_refused() {
    let cs = state(3);
    let mut mgr = RegisterManager::new();
    let bad = Envelope {
        system_id: b("sys"),
        from_abstraction_id: b(""),
        to_abstraction_id: b("app.nnar"),
        message_uuid: b("u"),
        payload: Payload::NnarRead,
    };
    assert_eq!(mgr.handle_message(bad, &cs), Err(ProtocolError::BadRegisterPath));
    assert_eq!(mgr.registers.len(), 0);
}

// --- path parsing ----------------------------------------------------------
#[test]
fn register_names_come_from_brackets() {
    assert_eq!(extract_register_name(&b("app.nnar[x]")), Some(b("x")));
    assert_eq!(extract_register_name(&b("app.nnar[reg-7].beb.pl")), Some(b("reg-7")));
    assert_eq!(extract_register_name(&b("app.nnar[]")), Some(b("")));
    assert_eq!(extract_register_name(&b("app.nnar")), None);
    assert_eq!(extract_register_name(&b("app.nnar[x")), None);
    assert!(is_register_route(&b("app.nnar[x].beb")));
    assert!(!is_register_route(&b("app.pl")));
}

#[test]
fn ipv4_literals_parse_strictly() {
    let ok = |s: &str, a: u8, bb: u8, c: u8, d: u8| {
        assert_eq!(parse_ipv4(&b(s)), Some(Ipv4Octets { a, b: bb, c, d }), "{}", s);
    };
    ok("127.0.0.1", 127, 0, 0, 1);
    ok("0.0.0.0", 0, 0, 0, 0);
    ok("255.255.255.255", 255, 255, 255, 255);
    ok("10.42.7.200", 10, 42, 7, 200);
    for bad in ["", "1.2.3", "1.2.3.4.5", "256.0.0.1", "01.2.3.4", "1.2.3.04", "a.b.c.d",
        "1..2.3", "1.2.3.4 ", " 1.2.3.4", "1.2.3.4."] {
        assert_eq!(parse_ipv4(&b(bad)), None, "{:?} must be refused", bad);
    }
}

// --- client routing --------------------------------------------------------
#[test]
fn initialization_derives_rank_from_own_port() {
    let mut c = Client::new(5002, b("127.0.0.1"), 5000);
    let r = c.handle_proc_initialize_system(b("sys"), members(3));
    assert!(r.unwrap().is_empty());
    assert!(c.initialized);
    assert_eq!(c.rank, 2);
    assert_eq!(c.system_id, b("sys"));
    assert_eq!(c.nodes.len(), 3);
}

#[test]
fn initialization_without_matching_port_is_fatal() {
    let mut c = Client::new(6000, b("127.0.0.1"), 5000);
    assert_eq!(
        c.handle_proc_initialize_system(b("sys"), members(3)),
        Err(ProtocolError::UnmatchedPort)
    );
    assert!(!c.initialized);
}

#[test]
fn register_traffic_before_initialization_is_refused() {
    let mut c = Client::new(5001, b("127.0.0.1"), 5000);
    let msg = Envelope {
        system_id: b(""),
        from_abstraction_id: b(""),
        to_abstraction_id: b("app.nnar[x]"),
        message_uuid: b(""),
        payload: Payload::NnarRead,
    };
    assert_eq!(c.handle_message(msg), Err(ProtocolError::NotInitialized));
}

#[test]
fn app_write_becomes_a_register_write_request() {
    let mut c = Client::new(5001, b("127.0.0.1"), 5000);
    c.handle_proc_initialize_system(b("sys"), members(3)).unwrap();
    let msg = Envelope {
        system_id: b("sys"),
        from_abstraction_id: b(""),
        to_abstraction_id: b("app"),
        message_uuid: b("u"),
        payload: Payload::AppWrite { register: b("x"), value: defined(5) },
    };
    let es = c.handle_message(msg).unwrap();
    assert_eq!(es.len(), 1);
    match &es[0] {
        Effect::Enqueue(e) => {
            assert_eq!(e.to_abstraction_id, b("app.nnar[x]"));
            assert_eq!(e.payload, Payload::NnarWrite { value: defined(5) });
        },
        other => panic!("expected an enqueue, got {:?}", other),
    }
}

#[test]
fn non_pl_send_is_refused_by_the_transport() {
    let e = Envelope {
        system_id: b("s"),
        from_abstraction_id: b(""),
        to_abstraction_id: b("app"),
        message_uuid: b("u"),
        payload: Payload::NnarRead,
    };
    let ip = Ipv4Octets { a: 127, b: 0, c: 0, d: 1 };
    assert!(matches!(
        NetworkService::send(ip, 5000, e, 5001),
        Err(ProtocolError::NotPlSend)
    ));
}

#[test]
fn pl_send_to_a_bad_host_is_refused() {
    let mut c = Client::new(5001, b("127.0.0.1"), 5000);
    c.handle_proc_initialize_system(b("sys"), members(3)).unwrap();
    let msg = Envelope {
        system_id: b("sys"),
        from_abstraction_id: b(""),
        to_abstraction_id: b("app"),
        message_uuid: b("u"),
        payload: Payload::PlSend {
            destination: ProcessId { host: b("nowhere"), port: 1, owner: b(""), index: 0, rank: 0 },
            message: Box::new(Envelope {
                system_id: b(""),
                from_abstraction_id: b(""),
                to_abstraction_id: b(""),
                message_uuid: b(""),
                payload: Payload::NnarRead,
            }),
        },
    };
    assert_eq!(c.handle_message(msg), Err(ProtocolError::InvalidHost));
}

#[test]
fn connection_message_registers_with_the_hub() {
    let e = dp_algo::client::make_connection_message(2, &b("127.0.0.1"), 5000);
    assert_eq!(e.system_id, b("uwu"));
    assert_eq!(e.to_abstraction_id, b("app.pl"));
    match &e.payload {
        Payload::PlSend { destination, message } => {
            assert_eq!(destination.host, b("127.0.0.1"));
            assert_eq!(destination.port, 5000);
            match &message.payload {
                Payload::ProcRegistration { owner, index } => {
                    assert_eq!(owner, &b("uwu"));
                    assert_eq!(*index, 2);
                },
                other => panic!("expected a registration, got {:?}", other),
            }
        },
        other => panic!("expected a PL-send, got {:?}", other),
    }
}

#[test]
fn delivery_layers_strip_one_wrapper_each() {
    let inner = || Envelope {
        system_id: b("s"),
        from_abstraction_id: b(""),
        to_abstraction_id: b("app"),
        message_uuid: b("in"),
        payload: Payload::NnarRead,
    };
    let pl = Envelope {
        system_id: b("s"),
        from_abstraction_id: b(""),
        to_abstraction_id: b(""),
        message_uuid: b("w"),
        payload: Payload::PlDeliver { sender: pid(5002, 2), message: Box::new(inner()) },
    };
    assert_eq!(PerfectLinkManager::handle_pl_deliver(pl), Ok(inner()));
    let beb = Envelope {
        system_id: b("s"),
        from_abstraction_id: b(""),
        to_abstraction_id: b(""),
        message_uuid: b("w"),
        payload: Payload::BebDeliver { sender: pid(5002, 2), message: Box::new(inner()) },
    };
    assert_eq!(BroadcastManager::handle_beb_deliver(beb), Ok(inner()));
    assert_eq!(PerfectLinkManager::handle_pl_deliver(inner()), Err(ProtocolError::NotDeliver));
    assert_eq!(BroadcastManager::handle_beb_deliver(inner()), Err(ProtocolError::NotDeliver));
}

#[test]
fn transport_send_wraps_and_receive_unwraps() {
    let inner = Envelope {
        system_id: b("sys"),
        from_abstraction_id: b(""),
        to_abstraction_id: b("app.nnar[x]"),
        message_uuid: b("in"),
        payload: Payload::NnarInternalRead { read_id: 3 },
    };
    let pl_send = Envelope {
        system_id: b("sys"),
        from_abstraction_id: b(""),
        to_abstraction_id: b("app.nnar[x].beb"),
        message_uuid: b("w"),
        payload: Payload::PlSend {
            destination: pid(5002, 2),
            message: Box::new(Envelope {
                system_id: inner.system_id.clone(),
                from_abstraction_id: inner.from_abstraction_id.clone(),
                to_abstraction_id: inner.to_abstraction_id.clone(),
                message_uuid: inner.message_uuid.clone(),
                payload: Payload::NnarInternalRead { read_id: 3 },
            }),
        },
    };
    let ip = Ipv4Octets { a: 127, b: 0, c: 0, d: 1 };
    let si = NetworkService::send(ip, 5002, pl_send, 5001).unwrap();
    assert_eq!(si.ip, ip);
    assert_eq!(si.port, 5002);
    // the frame starts with the body's length, big endian
    let body: Vec<u8> = si.frame[4..].to_vec();
    assert_eq!(dp_algo::codec::u32_from_be(&si.frame[..4].to_vec()), Some(body.len() as u32));
    // what comes back off the wire is the inner message, as a PL-deliver
    // whose sender names the reply port
    let delivered = NetworkService::unwrap_network_frame(&body).unwrap();
    assert_eq!(delivered.to_abstraction_id, b("app.nnar[x].beb"));
    match delivered.payload {
        Payload::PlDeliver { sender, message } => {
            assert_eq!(sender.host, b("127.0.0.1"));
            assert_eq!(sender.port, 5001);
            assert_eq!(*message, inner);
        },
        other => panic!("expected a PL-deliver, got {:?}", other),
    }
}

#[test]
fn envelope_contents_are_wrapped_boxed() {
    let boxed = NetworkService::wrap_envelope_contents(7u32);
    assert_eq!(boxed, Some(Box::new(7u32)));
}

#[test]
fn fresh_register_holds_no_value() {
    let reg = Register::new(b("x"));
    assert_eq!(reg.value, undefined());
    assert_eq!(reg.timestamp, 0);
    assert_eq!(reg.writer_rank, 0);
    assert_eq!(reg.read_tracking_counter, 0);
    assert!(!reg.am_i_reading);
    assert!(reg.read_receipts.is_empty());
    let _ = Receipt { timestamp: 0, writer_rank: 0, value: undefined() };
}
