//! The per-node router: the single consumer of the inbound queue. It
//! demultiplexes every envelope by routing path and type, drives the
//! membership handshake, and feeds the register store and the lower layers.
//! The worker around the library owns one `Client`, feeds it envelopes one at
//! a time, and performs the effects each step returns.

use vstd::prelude::*;

use crate::broadcast_manager::BroadcastManager;
use crate::effect::{Effect, EffectV, ProtocolError};
use crate::message::{Envelope, EnvelopeV, Payload, PayloadV, ProcessId, ProcessIdV, RegisterValue};
use crate::path;
use crate::perfect_link_manager::PerfectLinkManager;
use crate::register_manager::{mgr_step_post, mgr_wf, res_view, RegisterManager, RegisterV};

verus! {

/// A snapshot of the node-wide state the register handlers read.
#[derive(Debug)]
pub struct ClientState {
    pub own_port: u16,
    pub hub_host: Vec<u8>,
    pub hub_port: u16,
    pub nodes: Vec<ProcessId>,
    pub system_id: Vec<u8>,
    pub rank: u32,
    pub initialized: bool,
}

/// The mathematical value of a `ClientState`.
#[verifier::ext_equal]
pub struct ClientStateV {
    pub own_port: u16,
    pub hub_host: Seq<u8>,
    pub hub_port: u16,
    pub nodes: Seq<ProcessIdV>,
    pub system_id: Seq<u8>,
    pub rank: u32,
    pub initialized: bool,
}

impl View for ClientState {
    type V = ClientStateV;

    open spec fn view(&self) -> ClientStateV {
        ClientStateV {
            own_port: self.own_port,
            hub_host: self.hub_host@,
            hub_port: self.hub_port,
            nodes: self.nodes.deep_view(),
            system_id: self.system_id@,
            rank: self.rank,
            initialized: self.initialized,
        }
    }
}

/// One node: its own address data, the membership the hub assigned, and the
/// store of registers. Until the hub's initialization arrives, membership is
/// empty and register or broadcast traffic is refused.
#[derive(Debug)]
pub struct Client {
    pub own_port: u16,
    pub hub_host: Vec<u8>,
    pub hub_port: u16,
    pub nodes: Vec<ProcessId>,
    pub system_id: Vec<u8>,
    pub rank: u32,
    pub initialized: bool,
    pub register_manager: RegisterManager,
}

/// The mathematical value of a `Client`.
#[verifier::ext_equal]
pub struct ClientV {
    pub own_port: u16,
    pub hub_host: Seq<u8>,
    pub hub_port: u16,
    pub nodes: Seq<ProcessIdV>,
    pub system_id: Seq<u8>,
    pub rank: u32,
    pub initialized: bool,
    pub registers: Seq<(Seq<u8>, RegisterV)>,
}

impl View for Client {
    type V = ClientV;

    open spec fn view(&self) -> ClientV {
        ClientV {
            own_port: self.own_port,
            hub_host: self.hub_host@,
            hub_port: self.hub_port,
            nodes: self.nodes.deep_view(),
            system_id: self.system_id@,
            rank: self.rank,
            initialized: self.initialized,
            registers: self.register_manager@,
        }
    }
}

/// The snapshot of a client's node-wide state.
pub open spec fn state_of(c: ClientV) -> ClientStateV {
    ClientStateV {
        own_port: c.own_port,
        hub_host: c.hub_host,
        hub_port: c.hub_port,
        nodes: c.nodes,
        system_id: c.system_id,
        rank: c.rank,
        initialized: c.initialized,
    }
}

/// The rank of the first member listening on `port`, scanning from `i`.
pub open spec fn find_rank(nodes: Seq<ProcessIdV>, port: u16, i: int) -> Option<u32>
    decreases nodes.len() - i,
{
    if i < 0 || i >= nodes.len() {
        None
    } else if nodes[i].port == port {
        Some(nodes[i].rank)
    } else {
        find_rank(nodes, port, i + 1)
    }
}

/// The application layer's own route.
pub open spec fn app_route() -> Seq<u8> {
    seq![97u8, 112u8, 112u8]
}

/// What the hub's initialization does: membership and system id arrive once,
/// and the node's rank is read off the member matching its own port. A
/// membership naming no such member is fatal and changes nothing.
pub open spec fn init_post(
    pre: ClientV,
    post: ClientV,
    sys: Seq<u8>,
    procs: Seq<ProcessIdV>,
    r: Result<Seq<EffectV>, ProtocolError>,
) -> bool {
    match find_rank(procs, pre.own_port, 0) {
        Some(rk) => {
            &&& r == Ok::<Seq<EffectV>, ProtocolError>(Seq::<EffectV>::empty())
            &&& post == (ClientV {
                nodes: procs,
                system_id: sys,
                rank: rk,
                initialized: true,
                ..pre
            })
        },
        None => {
            r == Err::<Seq<EffectV>, ProtocolError>(ProtocolError::UnmatchedPort) && post == pre
        },
    }
}

/// What routing one envelope through the client does, for every envelope:
/// register routes go to the register store; PL-delivers are unwrapped and
/// re-dispatched; the rest switch on the type as the arms below say, and
/// unrecognized types are dropped.
pub open spec fn client_post(
    pre: ClientV,
    post: ClientV,
    msg: EnvelopeV,
    r: Result<Seq<EffectV>, ProtocolError>,
) -> bool
    decreases msg,
{
    if path::routes_to_register(msg.to_abstraction_id) {
        if !pre.initialized {
            r == Err::<Seq<EffectV>, ProtocolError>(ProtocolError::NotInitialized) && post == pre
        } else {
            &&& post == (ClientV { registers: post.registers, ..pre })
            &&& mgr_step_post(pre.registers, post.registers, state_of(pre), msg, r)
        }
    } else {
        match msg.payload {
            PayloadV::PlDeliver { message, .. } => client_post(pre, post, *message, r),
            PayloadV::PlSend { destination, .. } => {
                &&& post == pre
                &&& (r is Ok) == crate::perfect_link_manager::pl_send_ok(
                    msg,
                    pre.system_id,
                    pre.own_port,
                )
                &&& (r == Err::<Seq<EffectV>, ProtocolError>(ProtocolError::InvalidHost)) == (
                path::parse_ipv4_spec(destination.host) is None)
                &&& r matches Err(e) ==> (e == ProtocolError::InvalidHost || e
                    == ProtocolError::EnvelopeTooLarge)
                &&& r matches Ok(es) ==> es.len() == 1
                    && crate::register_manager::transmits_wrapper(es[0], msg, state_of(pre))
            },
            PayloadV::ProcInitializeSystem { processes } => init_post(
                pre,
                post,
                msg.system_id,
                processes,
                r,
            ),
            PayloadV::BebBroadcast { .. } => {
                if !pre.initialized {
                    r == Err::<Seq<EffectV>, ProtocolError>(ProtocolError::NotInitialized) && post
                        == pre
                } else {
                    &&& post == pre
                    &&& r matches Ok(es)
                    &&& crate::register_manager::is_beb_of(r->Ok_0, msg, pre.nodes, pre.system_id)
                }
            },
            PayloadV::BebDeliver { message, .. } => {
                &&& post == pre
                &&& r == Ok::<Seq<EffectV>, ProtocolError>(seq![EffectV::Enqueue(*message)])
            },
            PayloadV::AppBroadcast { value } => {
                if !pre.initialized {
                    r == Err::<Seq<EffectV>, ProtocolError>(ProtocolError::NotInitialized) && post
                        == pre
                } else {
                    &&& post == pre
                    &&& r matches Ok(es)
                    &&& exists|u: Seq<u8>|
                        #![trigger app_value_env_spec(value, u)]
                        {
                            &&& u.len() == 36
                            &&& crate::register_manager::is_beb_of(
                                r->Ok_0,
                                app_value_env_spec(value, u),
                                pre.nodes,
                                pre.system_id,
                            )
                        }
                }
            },
            PayloadV::AppValue { .. } => {
                &&& post == pre
                &&& r matches Ok(es)
                &&& es.len() == 1
                &&& exists|u: Seq<u8>|
                    #![trigger app_value_forward_env_spec(msg, pre, u)]
                    {
                        &&& u.len() == 36
                        &&& r->Ok_0[0] == EffectV::Enqueue(app_value_forward_env_spec(msg, pre, u))
                    }
            },
            PayloadV::AppRead { register } => {
                &&& post == pre
                &&& r matches Ok(es)
                &&& es.len() == 1
                &&& exists|u: Seq<u8>|
                    #![trigger nnar_read_env_spec(register, u)]
                    {
                        &&& u.len() == 36
                        &&& r->Ok_0[0] == EffectV::Enqueue(nnar_read_env_spec(register, u))
                    }
            },
            PayloadV::AppWrite { register, value } => {
                &&& post == pre
                &&& r matches Ok(es)
                &&& es.len() == 1
                &&& exists|u: Seq<u8>|
                    #![trigger nnar_write_env_spec(register, value, u)]
                    {
                        &&& u.len() == 36
                        &&& r->Ok_0[0] == EffectV::Enqueue(nnar_write_env_spec(register, value, u))
                    }
            },
            _ => post == pre && r == Ok::<Seq<EffectV>, ProtocolError>(Seq::<EffectV>::empty()),
        }
    }
}

/// The application-value envelope broadcast in answer to an app-broadcast.
pub open spec fn app_value_env_spec(value: RegisterValue, uuid: Seq<u8>) -> EnvelopeV {
    EnvelopeV {
        system_id: Seq::<u8>::empty(),
        from_abstraction_id: Seq::<u8>::empty(),
        to_abstraction_id: app_route(),
        message_uuid: uuid,
        payload: PayloadV::AppValue { value },
    }
}

/// The PL-send wrapper that forwards a delivered application value to the
/// hub.
pub open spec fn app_value_forward_env_spec(msg: EnvelopeV, pre: ClientV, uuid: Seq<u8>)
    -> EnvelopeV {
    EnvelopeV {
        system_id: Seq::<u8>::empty(),
        from_abstraction_id: Seq::<u8>::empty(),
        to_abstraction_id: Seq::<u8>::empty(),
        message_uuid: uuid,
        payload: PayloadV::PlSend {
            destination: ProcessIdV {
                host: pre.hub_host,
                port: pre.hub_port,
                owner: Seq::<u8>::empty(),
                index: 0u32,
                rank: 0u32,
            },
            message: Box::new(msg),
        },
    }
}

/// The register-read request an app-read is translated into.
pub open spec fn nnar_read_env_spec(register: Seq<u8>, uuid: Seq<u8>) -> EnvelopeV {
    EnvelopeV {
        system_id: Seq::<u8>::empty(),
        from_abstraction_id: Seq::<u8>::empty(),
        to_abstraction_id: path::nnar_path_spec(register),
        message_uuid: uuid,
        payload: PayloadV::NnarRead,
    }
}

/// The register-write request an app-write is translated into.
pub open spec fn nnar_write_env_spec(register: Seq<u8>, value: RegisterValue, uuid: Seq<u8>)
    -> EnvelopeV {
    EnvelopeV {
        system_id: Seq::<u8>::empty(),
        from_abstraction_id: Seq::<u8>::empty(),
        to_abstraction_id: path::nnar_path_spec(register),
        message_uuid: uuid,
        payload: PayloadV::NnarWrite { value },
    }
}

/// The owner label this testbed node registers under.
pub open spec fn owner_label() -> Seq<u8> {
    seq![117u8, 119u8, 117u8]
}

/// The registration envelope a node sends the hub at startup: a
/// process-registration wrapped in a PL-send to the hub's address, under
/// fresh correlation ids `u_inner` and `u_wrap`.
pub open spec fn connection_message_spec(
    index: u32,
    hub_host: Seq<u8>,
    hub_port: u16,
    u_inner: Seq<u8>,
    u_wrap: Seq<u8>,
) -> EnvelopeV {
    EnvelopeV {
        system_id: owner_label(),
        from_abstraction_id: seq![97u8, 112u8, 112u8, 46u8, 112u8, 108u8],
        to_abstraction_id: seq![97u8, 112u8, 112u8, 46u8, 112u8, 108u8],
        message_uuid: u_wrap,
        payload: PayloadV::PlSend {
            destination: ProcessIdV {
                host: hub_host,
                port: hub_port,
                owner: seq![114u8, 101u8, 102u8],
                index: 0u32,
                rank: 0u32,
            },
            message: Box::new(
                EnvelopeV {
                    system_id: Seq::<u8>::empty(),
                    from_abstraction_id: Seq::<u8>::empty(),
                    to_abstraction_id: app_route(),
                    message_uuid: u_inner,
                    payload: PayloadV::ProcRegistration { owner: owner_label(), index },
                },
            ),
        },
    }
}

/// Builds the registration envelope for startup: handed to
/// `PerfectLinkManager::handle_pl_send`, it announces this node to the hub.
pub fn make_connection_message(index: u32, hub_host: &Vec<u8>, hub_port: u16) -> (r: Envelope)
    ensures
        exists|u1: Seq<u8>, u2: Seq<u8>|
            {
                &&& u1.len() == 36
                &&& u2.len() == 36
                &&& r@ == #[trigger] connection_message_spec(index, hub_host@, hub_port, u1, u2)
            },
{
    let mut owner: Vec<u8> = Vec::new();
    owner.push(117u8);
    owner.push(119u8);
    owner.push(117u8);
    proof {
        assert(owner@ =~= owner_label());
    }
    let mut registration = Envelope::with_shipping_label(
        Payload::ProcRegistration { owner, index },
    );
    registration.to_abstraction_id = app_route_bytes();
    let ghost u1 = registration@.message_uuid;
    let mut ref_owner: Vec<u8> = Vec::new();
    ref_owner.push(114u8);
    ref_owner.push(101u8);
    ref_owner.push(102u8);
    proof {
        assert(ref_owner@ =~= seq![114u8, 101u8, 102u8]);
    }
    let destination = ProcessId {
        host: crate::bytestr::clone_bytes(hub_host),
        port: hub_port,
        owner: ref_owner,
        index: 0,
        rank: 0,
    };
    let mut wrapper = Envelope::with_shipping_label(
        Payload::PlSend { destination, message: Box::new(registration) },
    );
    let mut sys: Vec<u8> = Vec::new();
    sys.push(117u8);
    sys.push(119u8);
    sys.push(117u8);
    proof {
        assert(sys@ =~= owner_label());
    }
    wrapper.system_id = sys;
    let mut route: Vec<u8> = Vec::new();
    route.push(97u8);
    route.push(112u8);
    route.push(112u8);
    route.push(46u8);
    route.push(112u8);
    route.push(108u8);
    proof {
        assert(route@ =~= seq![97u8, 112u8, 112u8, 46u8, 112u8, 108u8]);
    }
    wrapper.from_abstraction_id = crate::bytestr::clone_bytes(&route);
    wrapper.to_abstraction_id = route;
    proof {
        assert(wrapper@ =~~= connection_message_spec(
            index,
            hub_host@,
            hub_port,
            u1,
            wrapper@.message_uuid,
        ));
    }
    wrapper
}

/// The application layer's own route, as bytes.
fn app_route_bytes() -> (r: Vec<u8>)
    ensures
        r@ == app_route(),
{
    let mut v: Vec<u8> = Vec::new();
    v.push(97u8);
    v.push(112u8);
    v.push(112u8);
    proof {
        assert(v@ =~= app_route());
    }
    v
}

/// The rank of the first member listening on `port`, if any.
fn find_rank_exec(processes: &Vec<ProcessId>, port: u16) -> (r: Option<u32>)
    ensures
        match r {
            Some(rk) => find_rank(processes.deep_view(), port, 0) == Some(rk),
            None => find_rank(processes.deep_view(), port, 0) is None,
        },
{
    let mut i: usize = 0;
    while i < processes.len()
        invariant
            i <= processes@.len(),
            find_rank(processes.deep_view(), port, 0) == find_rank(
                processes.deep_view(),
                port,
                i as int,
            ),
        decreases processes@.len() - i,
    {
        if processes[i].port == port {
            proof {
                assert(processes.deep_view()[i as int].port == port);
                assert(find_rank(processes.deep_view(), port, i as int) == Some(
                    processes.deep_view()[i as int].rank,
                ));
            }
            return Some(processes[i].rank);
        }
        proof {
            assert(find_rank(processes.deep_view(), port, i as int) == find_rank(
                processes.deep_view(),
                port,
                i as int + 1,
            ));
        }
        i += 1;
    }
    proof {
        assert(find_rank(processes.deep_view(), port, i as int) is None);
    }
    None
}

impl Client {
    /// A node that listens on `own_port` and reports to the hub at
    /// `hub_host:hub_port`, before any membership has arrived.
    pub fn new(own_port: u16, hub_host: Vec<u8>, hub_port: u16) -> (r: Client)
        ensures
            r@ == (ClientV {
                own_port,
                hub_host: hub_host@,
                hub_port,
                nodes: Seq::<ProcessIdV>::empty(),
                system_id: Seq::<u8>::empty(),
                rank: 0u32,
                initialized: false,
                registers: Seq::<(Seq<u8>, RegisterV)>::empty(),
            }),
            mgr_wf(r@.registers),
    {
        let r = Client {
            own_port,
            hub_host,
            hub_port,
            nodes: Vec::new(),
            system_id: Vec::new(),
            rank: 0,
            initialized: false,
            register_manager: RegisterManager::new(),
        };
        proof {
            assert(r@.nodes =~= Seq::<ProcessIdV>::empty());
            assert(r@ =~= (ClientV {
                own_port: r.own_port,
                hub_host: r.hub_host@,
                hub_port: r.hub_port,
                nodes: Seq::<ProcessIdV>::empty(),
                system_id: Seq::<u8>::empty(),
                rank: 0u32,
                initialized: false,
                registers: Seq::<(Seq<u8>, RegisterV)>::empty(),
            }));
        }
        r
    }

    /// A snapshot of the node-wide state, for the register handlers.
    pub fn clone_state(&self) -> (r: ClientState)
        ensures
            r@ == state_of(self@),
    {
        let mut nodes: Vec<ProcessId> = Vec::new();
        let mut i: usize = 0;
        while i < self.nodes.len()
            invariant
                i <= self.nodes@.len(),
                nodes.deep_view() == self.nodes.deep_view().take(i as int),
            decreases self.nodes@.len() - i,
        {
            let ghost prev = nodes.deep_view();
            nodes.push(self.nodes[i].duplicate());
            proof {
                assert(nodes.deep_view() =~= prev.push(self.nodes.deep_view()[i as int]));
                assert(self.nodes.deep_view().take(i as int + 1) =~= self.nodes.deep_view().take(
                    i as int,
                ).push(self.nodes.deep_view()[i as int]));
            }
            i += 1;
        }
        proof {
            assert(self.nodes.deep_view().take(self.nodes@.len() as int)
                =~= self.nodes.deep_view());
        }
        let r = ClientState {
            own_port: self.own_port,
            hub_host: crate::bytestr::clone_bytes(&self.hub_host),
            hub_port: self.hub_port,
            nodes,
            system_id: crate::bytestr::clone_bytes(&self.system_id),
            rank: self.rank,
            initialized: self.initialized,
        };
        proof {
            assert(r@ =~= state_of(self@));
        }
        r
    }

    /// Routes one envelope: register routes go to the register store,
    /// PL-delivers are unwrapped and re-dispatched, and every other type is
    /// switched on as the layers require. Unrecognized types are dropped.
    pub fn handle_message(&mut self, message: Envelope) -> (r: Result<Vec<Effect>, ProtocolError>)
        requires
            mgr_wf(old(self)@.registers),
        ensures
            mgr_wf(final(self)@.registers),
            client_post(old(self)@, final(self)@, message@, res_view(r)),
        decreases message,
    {
        if path::is_register_route(&message.to_abstraction_id) {
            if !self.initialized {
                return Err(ProtocolError::NotInitialized);
            }
            let cs = self.clone_state();
            let res = self.register_manager.handle_message(message, &cs);
            proof {
                assert(self@ =~= (ClientV { registers: self@.registers, ..old(self)@ }));
            }
            return res;
        }
        let Envelope { system_id, from_abstraction_id, to_abstraction_id, message_uuid, payload } =
            message;
        match payload {
            Payload::PlDeliver { sender: _, message: inner } => self.handle_message(*inner),
            Payload::PlSend { destination, message: inner } => {
                let whole = Envelope {
                    system_id,
                    from_abstraction_id,
                    to_abstraction_id,
                    message_uuid,
                    payload: Payload::PlSend { destination, message: inner },
                };
                proof {
                    assert(whole@ =~= message@);
                }
                match PerfectLinkManager::handle_pl_send(whole, &self.system_id, self.own_port) {
                    Ok(si) => {
                        let mut out: Vec<Effect> = Vec::new();
                        out.push(Effect::Transmit(si));
                        proof {
                            assert(out.deep_view() =~= seq![out@[0]@]);
                            assert(crate::register_manager::transmits_wrapper(
                                out.deep_view()[0],
                                message@,
                                state_of(old(self)@),
                            ));
                        }
                        Ok(out)
                    },
                    Err(e) => Err(e),
                }
            },
            Payload::ProcInitializeSystem { processes } => {
                self.handle_proc_initialize_system(system_id, processes)
            },
            Payload::BebBroadcast { message: inner } => {
                if !self.initialized {
                    return Err(ProtocolError::NotInitialized);
                }
                let whole = Envelope {
                    system_id,
                    from_abstraction_id,
                    to_abstraction_id,
                    message_uuid,
                    payload: Payload::BebBroadcast { message: inner },
                };
                proof {
                    assert(whole@ =~= message@);
                }
                let effects = BroadcastManager::do_beb_broadcast(
                    whole,
                    &self.nodes,
                    &self.system_id,
                );
                proof {
                    assert(forall|i: int|
                        0 <= i < effects@.len() ==> #[trigger] effects.deep_view()[i]
                            == effects@[i]@);
                    assert(crate::register_manager::is_beb_of(
                        effects.deep_view(),
                        message@,
                        old(self)@.nodes,
                        old(self)@.system_id,
                    ));
                }
                Ok(effects)
            },
            Payload::BebDeliver { sender, message: inner } => {
                let whole = Envelope {
                    system_id,
                    from_abstraction_id,
                    to_abstraction_id,
                    message_uuid,
                    payload: Payload::BebDeliver { sender, message: inner },
                };
                proof {
                    assert(whole@ =~= message@);
                }
                match BroadcastManager::handle_beb_deliver(whole) {
                    Ok(delivered) => {
                        let mut out: Vec<Effect> = Vec::new();
                        out.push(Effect::Enqueue(delivered));
                        proof {
                            assert(out.deep_view() =~= seq![
                                EffectV::Enqueue(*(message@.payload->BebDeliver_message)),
                            ]);
                        }
                        Ok(out)
                    },
                    Err(e) => Err(e),
                }
            },
            Payload::AppBroadcast { value } => {
                if !self.initialized {
                    return Err(ProtocolError::NotInitialized);
                }
                let mut env = Envelope::with_shipping_label(Payload::AppValue { value });
                env.to_abstraction_id = app_route_bytes();
                proof {
                    assert(env@ =~= app_value_env_spec(value, env@.message_uuid));
                }
                let effects = BroadcastManager::do_beb_broadcast(env, &self.nodes, &self.system_id);
                proof {
                    assert(forall|i: int|
                        0 <= i < effects@.len() ==> #[trigger] effects.deep_view()[i]
                            == effects@[i]@);
                    assert(crate::register_manager::is_beb_of(
                        effects.deep_view(),
                        app_value_env_spec(value, env@.message_uuid),
                        old(self)@.nodes,
                        old(self)@.system_id,
                    ));
                }
                Ok(effects)
            },
            Payload::AppValue { value } => {
                let whole = Envelope {
                    system_id,
                    from_abstraction_id,
                    to_abstraction_id,
                    message_uuid,
                    payload: Payload::AppValue { value },
                };
                proof {
                    assert(whole@ =~= message@);
                }
                let hub = ProcessId {
                    host: crate::bytestr::clone_bytes(&self.hub_host),
                    port: self.hub_port,
                    owner: Vec::new(),
                    index: 0,
                    rank: 0,
                };
                let wrapper = Envelope::with_shipping_label(
                    Payload::PlSend { destination: hub, message: Box::new(whole) },
                );
                proof {
                    assert(wrapper@ =~= app_value_forward_env_spec(
                        message@,
                        old(self)@,
                        wrapper@.message_uuid,
                    ));
                }
                let mut out: Vec<Effect> = Vec::new();
                out.push(Effect::Enqueue(wrapper));
                proof {
                    assert(out.deep_view() =~= seq![out@[0]@]);
                }
                Ok(out)
            },
            Payload::AppRead { register } => {
                let mut env = Envelope::with_shipping_label(Payload::NnarRead);
                env.to_abstraction_id = path::nnar_path(&register);
                proof {
                    assert(env@ =~= nnar_read_env_spec(
                        message@.payload->AppRead_register,
                        env@.message_uuid,
                    ));
                }
                let mut out: Vec<Effect> = Vec::new();
                out.push(Effect::Enqueue(env));
                proof {
                    assert(out.deep_view() =~= seq![out@[0]@]);
                }
                Ok(out)
            },
            Payload::AppWrite { register, value } => {
                let mut env = Envelope::with_shipping_label(Payload::NnarWrite { value });
                env.to_abstraction_id = path::nnar_path(&register);
                proof {
                    assert(env@ =~= nnar_write_env_spec(
                        message@.payload->AppWrite_register,
                        value,
                        env@.message_uuid,
                    ));
                }
                let mut out: Vec<Effect> = Vec::new();
                out.push(Effect::Enqueue(env));
                proof {
                    assert(out.deep_view() =~= seq![out@[0]@]);
                }
                Ok(out)
            },
            _ => {
                let out: Vec<Effect> = Vec::new();
                proof {
                    assert(out.deep_view() =~= Seq::<EffectV>::empty());
                }
                Ok(out)
            },
        }
    }

    /// Adopts the hub's membership: stores the member list and system id and
    /// derives this node's rank by matching its own listening port against
    /// the list. No member with that port is fatal.
    pub fn handle_proc_initialize_system(
        &mut self,
        system_id: Vec<u8>,
        processes: Vec<ProcessId>,
    ) -> (r: Result<Vec<Effect>, ProtocolError>)
        ensures
            init_post(
                old(self)@,
                final(self)@,
                system_id@,
                processes.deep_view(),
                res_view(r),
            ),
    {
        let rank = find_rank_exec(&processes, self.own_port);
        match rank {
            Some(rk) => {
                self.system_id = system_id;
                self.nodes = processes;
                self.rank = rk;
                self.initialized = true;
                let out: Vec<Effect> = Vec::new();
                proof {
                    assert(out.deep_view() =~= Seq::<EffectV>::empty());
                    assert(self@ =~= (ClientV {
                        nodes: processes.deep_view(),
                        system_id: system_id@,
                        rank: rk,
                        initialized: true,
                        ..old(self)@
                    }));
                }
                Ok(out)
            },
            None => Err(ProtocolError::UnmatchedPort),
        }
    }
}

} // verus!
