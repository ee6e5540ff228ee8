//! Three-node runs of the whole stack. Envelopes flow through the real
//! router, register store, broadcast and link layers, and the real wire
//! codec: a transmit effect's frame is decoded again at its destination, as
//! the listener would do with bytes off a socket.

use dp_algo::client::Client;
use dp_algo::effect::Effect;
use dp_algo::network_service::NetworkService;
use dp_algo::{Envelope, Payload, ProcessId, RegisterValue};

const HUB_PORT: u16 = 5000;
const PORTS: [u16; 3] = [5001, 5002, 5003];

fn b(s: &str) -> Vec<u8> {
    s.as_bytes().to_vec()
}

fn members() -> Vec<ProcessId> {
    PORTS
        .iter()
        .enumerate()
        .map(|(k, &port)| ProcessId {
            host: b("127.0.0.1"),
            port,
            owner: b("n"),
            index: (k + 1) as u32,
            rank: (k + 1) as u32,
        })
        .collect()
}

struct World {
    clients: Vec<Client>,
    queues: Vec<Vec<Envelope>>,
    hub_inbox: Vec<Envelope>,
}

fn boot() -> World {
    let mut clients = Vec::new();
    for &port in PORTS.iter() {
        let mut c = Client::new(port, b("127.0.0.1"), HUB_PORT);
        c.handle_proc_initialize_system(b("sys"), members()).unwrap();
        clients.push(c);
    }
    World { clients, queues: vec![Vec::new(), Vec::new(), Vec::new()], hub_inbox: Vec::new() }
}

/// Runs every queued envelope to quiescence, moving transmitted frames to
/// the node that listens on the destination port, through the codec.
fn settle(w: &mut World) {
    loop {
        let Some(node) = (0..w.queues.len()).find(|&i| !w.queues[i].is_empty()) else {
            return;
        };
        let env = w.queues[node].remove(0);
        let effects = w.clients[node].handle_message(env).expect("a handler step failed");
        for effect in effects {
            match effect {
                Effect::Enqueue(e) => w.queues[node].push(e),
                Effect::Transmit(si) => {
                    assert_eq!((si.ip.a, si.ip.b, si.ip.c, si.ip.d), (127, 0, 0, 1));
                    let body: Vec<u8> = si.frame[4..].to_vec();
                    let delivered = NetworkService::unwrap_network_frame(&body)
                        .expect("a transmitted frame must carry a network message");
                    if si.port == HUB_PORT {
                        w.hub_inbox.push(delivered);
                    } else {
                        let target = PORTS.iter().position(|&p| p == si.port).unwrap();
                        w.queues[target].push(delivered);
                    }
                },
            }
        }
    }
}

fn ask(w: &mut World, node: usize, payload: Payload) {
    w.queues[node].push(Envelope {
        system_id: b("sys"),
        from_abstraction_id: b(""),
        to_abstraction_id: b("app"),
        message_uuid: b("req"),
        payload,
    });
    settle(w);
}

/// The application-level returns the hub received, unwrapped.
fn hub_returns(w: &World) -> Vec<&Payload> {
    w.hub_inbox
        .iter()
        .map(|e| match &e.payload {
            Payload::PlDeliver { message, .. } => &message.payload,
            other => other,
        })
        .collect()
}

fn register_state(w: &World, node: usize, name: &str) -> (u64, u32, RegisterValue) {
    let regs = &w.clients[node].register_manager.registers;
    let entry = regs.iter().find(|(n, _)| n == &b(name)).expect("register missing");
    (entry.1.timestamp, entry.1.writer_rank, entry.1.value)
}

#[test]
fn write_reaches_every_node_and_returns() {
    let mut w = boot();
    ask(&mut w, 0, Payload::AppWrite {
        register: b("x"),
        value: RegisterValue { defined: true, v: 5 },
    });
    for node in 0..3 {
        assert_eq!(
            register_state(&w, node, "x"),
            (1, 1, RegisterValue { defined: true, v: 5 }),
            "node {} did not adopt the write",
            node
        );
    }
    let returns = hub_returns(&w);
    assert_eq!(returns.len(), 1);
    assert_eq!(returns[0], &Payload::AppWriteReturn { register: b("x") });
}

#[test]
fn read_after_write_returns_the_written_value() {
    let mut w = boot();
    ask(&mut w, 0, Payload::AppWrite {
        register: b("x"),
        value: RegisterValue { defined: true, v: 5 },
    });
    ask(&mut w, 1, Payload::AppRead { register: b("x") });
    let returns = hub_returns(&w);
    assert_eq!(returns.len(), 2);
    assert_eq!(
        returns[1],
        &Payload::AppReadReturn { register: b("x"), value: RegisterValue { defined: true, v: 5 } }
    );
}

#[test]
fn read_returns_latest_completed_write() {
    let mut w = boot();
    ask(&mut w, 0, Payload::AppWrite {
        register: b("x"),
        value: RegisterValue { defined: true, v: 5 },
    });
    ask(&mut w, 0, Payload::AppWrite {
        register: b("x"),
        value: RegisterValue { defined: true, v: 9 },
    });
    ask(&mut w, 2, Payload::AppRead { register: b("x") });
    let returns = hub_returns(&w);
    assert_eq!(returns.len(), 3);
    assert_eq!(
        returns[2],
        &Payload::AppReadReturn { register: b("x"), value: RegisterValue { defined: true, v: 9 } }
    );
}

#[test]
fn read_with_no_prior_write_returns_undefined() {
    let mut w = boot();
    ask(&mut w, 1, Payload::AppRead { register: b("y") });
    let returns = hub_returns(&w);
    assert_eq!(returns.len(), 1);
    assert_eq!(
        returns[0],
        &Payload::AppReadReturn { register: b("y"), value: RegisterValue { defined: false, v: 0 } }
    );
}

#[test]
fn registers_are_independent() {
    let mut w = boot();
    ask(&mut w, 0, Payload::AppWrite {
        register: b("x"),
        value: RegisterValue { defined: true, v: 1 },
    });
    ask(&mut w, 1, Payload::AppWrite {
        register: b("z"),
        value: RegisterValue { defined: true, v: 2 },
    });
    for node in 0..3 {
        assert_eq!(register_state(&w, node, "x").2, RegisterValue { defined: true, v: 1 });
        assert_eq!(register_state(&w, node, "z").2, RegisterValue { defined: true, v: 2 });
        assert_eq!(w.clients[node].register_manager.registers.len(), 2);
    }
    // the second write consulted first, so its timestamp also starts at 1,
    // imposed by a different writer
    assert_eq!(register_state(&w, 0, "z"), (1, 2, RegisterValue { defined: true, v: 2 }));
}
