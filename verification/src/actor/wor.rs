//! A server holding a single register that can be written at most once.
//!
//! The server speaks the register message union: the first `Put` fixes the
//! value, later `Put`s are ignored, and a `Get` is answered with `Respond`
//! once a value is held.  It is the domain-specific server that the register
//! wrapper composes with, and the protocol that the checker's scenarios
//! explore.

use vstd::prelude::*;

use crate::actor::register::RegisterCfg;
use crate::actor::register::RegisterMsg;
use crate::actor::ActorInput;
use crate::actor::ActorResult;
use crate::actor::Command;

verus! {

/// Server-to-server traffic of the write-once register.  The protocol needs
/// none, so the type has a single placeholder value; it still travels the
/// wire as an `Internal` payload, which keeps the nested decode path honest.
#[derive(Clone, Copy, PartialEq, Eq, Structural, Debug)]
pub enum WorMsg {
    Nop,
}

/// The server's state: either no value has been written yet, or the single
/// value the register will hold forever.
#[derive(Clone, Copy, PartialEq, Eq, Structural, Debug)]
pub enum WorState {
    Empty,
    Holding(char),
}

/// Configuration of a write-once-register server.  It carries no data: the
/// behaviour is fixed by the protocol.
#[derive(Clone, Copy, Debug)]
pub struct WorCfg;

impl WorCfg {
    /// The server's initial state and boot-time outputs: an empty register,
    /// sending nothing.
    pub open spec fn start_spec(&self) -> (WorState, Seq<Command<RegisterMsg<char, WorMsg>>>) {
        (WorState::Empty, Seq::empty())
    }

    /// The server's reaction to one delivered message: the first `Put` fixes
    /// the value; a `Get` is answered to the sender once a value is held;
    /// everything else is ignored.
    pub open spec fn advance_spec(
        &self,
        state: WorState,
        src: usize,
        msg: RegisterMsg<char, WorMsg>,
    ) -> Option<(WorState, Seq<Command<RegisterMsg<char, WorMsg>>>)> {
        match msg {
            RegisterMsg::Put { value } => match state {
                WorState::Empty => Some((WorState::Holding(value), Seq::empty())),
                WorState::Holding(_) => None,
            },
            RegisterMsg::Get => match state {
                WorState::Empty => None,
                WorState::Holding(value) => Some(
                    (state, seq![Command { dst: src, msg: RegisterMsg::Respond { value } }]),
                ),
            },
            _ => None,
        }
    }

    pub fn start(&self) -> (r: ActorResult<RegisterMsg<char, WorMsg>, WorState>)
        ensures
            r.state == self.start_spec().0,
            r.outputs@ == self.start_spec().1,
    {
        ActorResult { state: WorState::Empty, outputs: Vec::new() }
    }

    pub fn advance(
        &self,
        state: &WorState,
        input: &ActorInput<RegisterMsg<char, WorMsg>>,
    ) -> (r: Option<ActorResult<RegisterMsg<char, WorMsg>, WorState>>)
        ensures
            crate::actor::result_matches(
                r,
                self.advance_spec(*state, input.spec_src(), input.spec_msg()),
            ),
    {
        let ActorInput::Deliver { src, msg } = input;
        match msg {
            RegisterMsg::Put { value } => match state {
                WorState::Empty => Some(
                    ActorResult { state: WorState::Holding(*value), outputs: Vec::new() },
                ),
                WorState::Holding(_) => None,
            },
            RegisterMsg::Get => match state {
                WorState::Empty => None,
                WorState::Holding(value) => {
                    let mut outputs: Vec<Command<RegisterMsg<char, WorMsg>>> = Vec::new();
                    outputs.push(Command { dst: *src, msg: RegisterMsg::Respond { value: *value } });
                    assert(outputs@ =~= self.advance_spec(
                        *state, input.spec_src(), input.spec_msg()).unwrap().1);
                    Some(ActorResult { state: *state, outputs })
                },
            },
            _ => None,
        }
    }
}

/// A register system in the write-once shape: the actor with id 0 is a
/// server, every other actor is a client.  Nothing is assumed of the client
/// count or of the values they propose.
pub open spec fn wor_shaped(sys: crate::actor::system::ActorSystem) -> bool {
    &&& sys.actors@.len() >= 1
    &&& sys.actors@[0] is Server
    &&& forall|k: int| 1 <= k < sys.actors@.len() ==> #[trigger] sys.actors@[k] is Client
}

/// No pending envelope is a response.
pub open spec fn responses_free(net: Seq<crate::actor::system::Envelope>) -> bool {
    forall|i: int|
        0 <= i < net.len() ==> crate::actor::register::respond_value(#[trigger] net[i].msg) is None
}

/// Every pending response carries the value `v`.
pub open spec fn responses_bounded(net: Seq<crate::actor::system::Envelope>, v: char) -> bool {
    forall|i: int|
        0 <= i < net.len() ==> match crate::actor::register::respond_value(#[trigger] net[i].msg) {
            Option::Some(w) => w == v,
            Option::None => true,
        }
}

/// All pending responses agree: the set of distinct observed values is empty
/// or a singleton.
pub open spec fn responses_agree(net: Seq<crate::actor::system::Envelope>) -> bool {
    forall|i: int, j: int|
        0 <= i < net.len() && 0 <= j < net.len() ==> match (
        crate::actor::register::respond_value(#[trigger] net[i].msg),
        crate::actor::register::respond_value(#[trigger] net[j].msg),
    ) {
            (Option::Some(a), Option::Some(b)) => a == b,
            _ => true,
        }
}

/// The write-once invariant: the server's register determines every pending
/// response — none while the register is empty, only the held value after.
pub open spec fn wor_inv(s: crate::actor::system::SnapV) -> bool {
    &&& s.states.len() >= 1
    &&& match s.states[0] {
        crate::actor::register::RegisterState::Server(WorState::Empty) => responses_free(
            s.network,
        ),
        crate::actor::register::RegisterState::Server(WorState::Holding(v)) => responses_bounded(
            s.network,
            v,
        ),
        crate::actor::register::RegisterState::Client => false,
    }
}

/// The largest client count the demo front end accepts: one distinct
/// proposed value per letter of the alphabet.
pub const MAX_CLIENT_COUNT: u8 = 26;

/// Clamps a requested client count into the supported range, for usability
/// in the demo front end.
pub fn clamp_client_count(requested: u8) -> (r: u8)
    ensures
        r == if requested > MAX_CLIENT_COUNT {
            MAX_CLIENT_COUNT
        } else {
            requested
        },
{
    if requested > MAX_CLIENT_COUNT {
        MAX_CLIENT_COUNT
    } else {
        requested
    }
}

/// A write-once-register system over a lossy network: one server with id 0,
/// and `client_count` clients each proposing its own distinct value, the
/// letters from `'A'` on.
pub fn wor_system(client_count: u8) -> (sys: crate::actor::system::ActorSystem)
    requires
        client_count <= MAX_CLIENT_COUNT,
    ensures
        sys.actors@.len() == client_count + 1,
        sys.actors@[0] is Server,
        forall|k: int|
            1 <= k <= client_count ==> match #[trigger] sys.actors@[k] {
                crate::actor::register::RegisterCfg::Client { server_ids, desired_value } => {
                    &&& server_ids@ == seq![0usize]
                    &&& desired_value as u32 == 'A' as u32 + k - 1
                },
                _ => false,
            },
        sys.init_network@.len() == 0,
        sys.lossy_network == crate::actor::system::LossyNetwork::Yes,
{
    let mut actors: Vec<crate::actor::system::Cfg> = Vec::new();
    actors.push(crate::actor::register::RegisterCfg::Server(WorCfg));
    let mut i: u8 = 0;
    while i < client_count
        invariant
            i <= client_count,
            client_count <= MAX_CLIENT_COUNT,
            actors@.len() == i + 1,
            actors@[0] is Server,
            forall|k: int|
                1 <= k <= i ==> match #[trigger] actors@[k] {
                    crate::actor::register::RegisterCfg::Client { server_ids, desired_value } => {
                        &&& server_ids@ == seq![0usize]
                        &&& desired_value as u32 == 'A' as u32 + k - 1
                    },
                    _ => false,
                },
        decreases client_count - i,
    {
        let code: u8 = 65 + i;
        let value = code as char;
        let mut ids: Vec<usize> = Vec::new();
        ids.push(0);
        proof {
            assert(ids@ =~= seq![0usize]);
            assert(value as u32 == 65 + i as u32);
        }
        actors.push(
            crate::actor::register::RegisterCfg::Client { server_ids: ids, desired_value: value },
        );
        i += 1;
    }
    crate::actor::system::ActorSystem {
        actors,
        init_network: Vec::new(),
        lossy_network: crate::actor::system::LossyNetwork::Yes,
    }
}

/// An element of a network with one envelope merged is that envelope or an
/// element of the network.
proof fn lemma_net_insert_elem(
    net: Seq<crate::actor::system::Envelope>,
    e: crate::actor::system::Envelope,
    x: crate::actor::system::Envelope,
)
    requires
        crate::actor::system::net_insert(net, e).contains(x),
    ensures
        x == e || net.contains(x),
{
    let t = crate::actor::system::net_insert(net, e);
    if t != net {
        let i = crate::actor::system::insert_pos(net, e);
        lemma_insert_pos_in_range(net, e);
        let k = choose|k: int| 0 <= k < t.len() && t[k] == x;
        if k < i {
            assert(net[k] == x);
        } else if k > i {
            assert(net[k - 1] == x);
        }
    }
}

proof fn lemma_insert_pos_in_range(
    net: Seq<crate::actor::system::Envelope>,
    e: crate::actor::system::Envelope,
)
    ensures
        0 <= crate::actor::system::insert_pos(net, e) <= net.len(),
    decreases net.len(),
{
    if net.len() > 0 && crate::actor::system::env_lt(net[0], e) {
        lemma_insert_pos_in_range(net.drop_first(), e);
    }
}

/// An element of a network with an actor's commands merged is an element of
/// the network or carries one of the commands' messages.
proof fn lemma_net_insert_all_elem(
    net: Seq<crate::actor::system::Envelope>,
    src: usize,
    outs: Seq<crate::actor::Command<crate::actor::system::Msg>>,
    x: crate::actor::system::Envelope,
)
    requires
        crate::actor::system::net_insert_all(net, src, outs).contains(x),
    ensures
        net.contains(x) || exists|j: int| 0 <= j < outs.len() && x.msg == (#[trigger] outs[j]).msg,
    decreases outs.len(),
{
    if outs.len() > 0 {
        let e = crate::actor::system::Envelope { src, dst: outs[0].dst, msg: outs[0].msg };
        let net2 = crate::actor::system::net_insert(net, e);
        lemma_net_insert_all_elem(net2, src, outs.drop_first(), x);
        if net2.contains(x) {
            lemma_net_insert_elem(net, e, x);
            if x == e {
                assert(x.msg == outs[0].msg);
            }
        } else {
            let j = choose|j: int|
                0 <= j < outs.drop_first().len() && x.msg == (#[trigger] outs.drop_first()[j]).msg;
            assert(x.msg == outs[j + 1].msg);
        }
    }
}

/// An element of a network with one envelope removed is an element of the
/// network.
proof fn lemma_net_remove_elem(
    net: Seq<crate::actor::system::Envelope>,
    i: int,
    x: crate::actor::system::Envelope,
)
    requires
        0 <= i < net.len(),
        net.remove(i).contains(x),
    ensures
        net.contains(x),
{
    let t = net.remove(i);
    let k = choose|k: int| 0 <= k < t.len() && t[k] == x;
    if k < i {
        assert(net[k] == x);
    } else {
        assert(net[k + 1] == x);
    }
}

/// A client's boot-time outputs hold proposals and reads, never a response.
proof fn lemma_client_outputs_respond_free(ids: Seq<usize>, v: char)
    ensures
        forall|j: int|
            0 <= j < crate::actor::register::client_outputs(ids, v).len()
                ==> crate::actor::register::respond_value(
                #[trigger] crate::actor::register::client_outputs(ids, v)[j].msg,
            ) is None,
    decreases ids.len(),
{
    if ids.len() > 0 {
        lemma_client_outputs_respond_free(ids.drop_last(), v);
    }
}

/// One step of a write-once-register system preserves the write-once
/// invariant.
proof fn lemma_wor_step(
    sys: crate::actor::system::ActorSystem,
    s: crate::actor::system::SnapV,
    t: crate::actor::system::SnapV,
)
    requires
        wor_shaped(sys),
        wor_inv(s),
        crate::actor::system::successors(sys, s).contains(t),
    ensures
        wor_inv(t),
{
    lemma_succ_elem(sys, s, s.network.len() as int, t);
    let n = s.network.len() as int;
    assert(exists|i: int|
        0 <= i < n && (t == crate::actor::system::drop_succ(s, i)
            || crate::actor::system::deliver_succ(sys, s, i) == Option::Some(t)));
    let i = choose|i: int|
        0 <= i < n && (t == crate::actor::system::drop_succ(s, i)
            || crate::actor::system::deliver_succ(sys, s, i) == Option::Some(t));
    if t == crate::actor::system::drop_succ(s, i) {
        assert forall|k: int|
            0 <= k < t.network.len() implies s.network.contains(#[trigger] t.network[k]) by {
            lemma_net_remove_elem(s.network, i, t.network[k]);
        }
        assert(wor_inv(t)) by {
            if let crate::actor::register::RegisterState::Server(WorState::Holding(v)) = s.states[0] {
                assert forall|k: int|
                    0 <= k < t.network.len() implies match crate::actor::register::respond_value(
                    (#[trigger] t.network[k]).msg,
                ) {
                    Option::Some(w) => w == v,
                    Option::None => true,
                } by {
                    let m = choose|m: int| 0 <= m < s.network.len() && s.network[m] == t.network[k];
                }
            }
        }
    } else {
        let e = s.network[i];
        assert(crate::actor::system::deliver_succ(sys, s, i) == Option::Some(t));
        assert(e.dst < s.states.len() && e.dst < sys.actors@.len());
        if e.dst != 0 {
            assert(sys.actors@[e.dst as int] is Client);
            assert(crate::actor::system::deliver_succ(sys, s, i) is None);
        }
        assert(e.dst == 0);
        let cfg = sys.actors@[0];
        let server_cfg = cfg->Server_0;
        let ss = s.states[0]->Server_0;
        let (st2, outs) = server_cfg.advance_spec(ss, e.src, e.msg).unwrap();
        assert(t.states[0] == crate::actor::register::RegisterState::<WorState>::Server(st2));
        assert(t.states.len() == s.states.len());
        assert(t.network == crate::actor::system::net_insert_all(s.network, 0, outs));
        match e.msg {
            RegisterMsg::Put { value } => {
                assert(ss is Empty && st2 == WorState::Holding(value) && outs.len() == 0);
                assert(t.network == s.network);
                assert(responses_bounded(t.network, value));
            },
            RegisterMsg::Get => {
                assert(ss matches WorState::Holding(v) && st2 == ss);
                let v = ss->Holding_0;
                assert(crate::actor::register::respond_value(outs[0].msg) == Option::Some(v));
                assert forall|k: int|
                    0 <= k < t.network.len() implies match crate::actor::register::respond_value(
                    (#[trigger] t.network[k]).msg,
                ) {
                    Option::Some(w) => w == v,
                    Option::None => true,
                } by {
                    lemma_net_insert_all_elem(s.network, 0, outs, t.network[k]);
                    if s.network.contains(t.network[k]) {
                        let m = choose|m: int|
                            0 <= m < s.network.len() && s.network[m] == t.network[k];
                    }
                }
            },
            _ => {
                assert(false);
            },
        }
    }
}

/// A member of the successor enumeration up to `n` is the drop or the
/// delivery of some envelope below `n`.
proof fn lemma_succ_elem(
    sys: crate::actor::system::ActorSystem,
    s: crate::actor::system::SnapV,
    n: int,
    t: crate::actor::system::SnapV,
)
    requires
        crate::actor::system::succs_upto(sys, s, n).contains(t),
    ensures
        exists|i: int|
            0 <= i < n && (t == crate::actor::system::drop_succ(s, i)
                || crate::actor::system::deliver_succ(sys, s, i) == Option::Some(t)),
    decreases n,
{
    if n > 0 {
        let prev = crate::actor::system::succs_upto(sys, s, n - 1);
        if prev.contains(t) {
            lemma_succ_elem(sys, s, n - 1, t);
        } else if t == crate::actor::system::drop_succ(s, n - 1) {
            assert(0 <= n - 1 < n && t == crate::actor::system::drop_succ(s, n - 1));
        } else {
            let cur = crate::actor::system::succs_upto(sys, s, n);
            let k = choose|k: int| 0 <= k < cur.len() && cur[k] == t;
            if k < prev.len() {
                assert(prev[k] == t);
                assert(prev.contains(t));
            }
            assert(crate::actor::system::deliver_succ(sys, s, n - 1) == Option::Some(t));
        }
    }
}

/// The initial snapshot of a write-once-register system satisfies the
/// write-once invariant: an empty register and no pending responses.
proof fn lemma_wor_init(sys: crate::actor::system::ActorSystem)
    requires
        wor_shaped(sys),
        responses_free(sys.init_network@),
    ensures
        wor_inv(sys.init_snapshot_spec()),
{
    let n = sys.actors@.len() as int;
    lemma_init_states_first(sys, n);
    lemma_init_net_respond_free(sys, n);
}

proof fn lemma_init_states_first(sys: crate::actor::system::ActorSystem, n: int)
    requires
        wor_shaped(sys),
        1 <= n <= sys.actors@.len(),
    ensures
        sys.init_states(n).len() == n,
        sys.init_states(n)[0] == crate::actor::register::RegisterState::<WorState>::Server(
            WorState::Empty,
        ),
    decreases n,
{
    if n > 1 {
        lemma_init_states_first(sys, n - 1);
        assert(sys.init_states(n) == sys.init_states(n - 1).push(
            sys.actors@[n - 1].start_spec().0,
        ));
    } else {
        assert(sys.actors@[0] is Server);
        assert(sys.init_states(0) =~= Seq::<crate::actor::system::State>::empty());
        assert(sys.init_states(1) == sys.init_states(0).push(sys.actors@[0].start_spec().0));
        let cfg = sys.actors@[0];
        assert(cfg.start_spec().0 == crate::actor::register::RegisterState::<WorState>::Server(
            WorState::Empty,
        ));
    }
}

proof fn lemma_net_canon_respond_free(
    net: Seq<crate::actor::system::Envelope>,
    envs: Seq<crate::actor::system::Envelope>,
)
    requires
        responses_free(net),
        responses_free(envs),
    ensures
        responses_free(crate::actor::system::net_insert_envs(net, envs)),
    decreases envs.len(),
{
    if envs.len() > 0 {
        let net2 = crate::actor::system::net_insert(net, envs[0]);
        assert forall|k: int|
            0 <= k < net2.len() implies crate::actor::register::respond_value(
            (#[trigger] net2[k]).msg,
        ) is None by {
            lemma_net_insert_elem(net, envs[0], net2[k]);
            if net.contains(net2[k]) {
                let m = choose|m: int| 0 <= m < net.len() && net[m] == net2[k];
            }
        }
        assert(responses_free(envs.drop_first()));
        lemma_net_canon_respond_free(net2, envs.drop_first());
    }
}

proof fn lemma_init_net_respond_free(sys: crate::actor::system::ActorSystem, n: int)
    requires
        wor_shaped(sys),
        responses_free(sys.init_network@),
        0 <= n <= sys.actors@.len(),
    ensures
        responses_free(sys.init_net(n)),
    decreases n,
{
    if n == 0 {
        lemma_net_canon_respond_free(Seq::empty(), sys.init_network@);
    } else {
        lemma_init_net_respond_free(sys, n - 1);
        let prev = sys.init_net(n - 1);
        let outs = sys.actors@[n - 1].start_spec().1;
        assert forall|j: int|
            0 <= j < outs.len() implies crate::actor::register::respond_value(
            (#[trigger] outs[j]).msg,
        ) is None by {
            match sys.actors@[n - 1] {
                RegisterCfg::Client { server_ids, desired_value } => {
                    lemma_client_outputs_respond_free(server_ids@, desired_value);
                },
                RegisterCfg::Server(_) => {},
            }
        }
        let cur = sys.init_net(n);
        assert forall|k: int|
            0 <= k < cur.len() implies crate::actor::register::respond_value(
            (#[trigger] cur[k]).msg,
        ) is None by {
            lemma_net_insert_all_elem(prev, (n - 1) as usize, outs, cur[k]);
            if prev.contains(cur[k]) {
                let m = choose|m: int| 0 <= m < prev.len() && prev[m] == cur[k];
            }
        }
    }
}

/// The write-once register is write-once, for any client count and any
/// proposed values: in every snapshot reachable from the initial one of a
/// system in the write-once shape, over a lossy or a reliable network, the
/// distinct pending `Respond` values are empty or a singleton.
pub proof fn lemma_wor_register_write_once(
    sys: crate::actor::system::ActorSystem,
    t: crate::actor::system::SnapV,
    n: nat,
)
    requires
        wor_shaped(sys),
        responses_free(sys.init_network@),
        crate::checker::reachable_within(sys, sys.init_snapshot_spec(), t, n),
    ensures
        responses_agree(t.network),
{
    lemma_wor_init(sys);
    lemma_wor_reachable_inv(sys, sys.init_snapshot_spec(), t, n);
}

proof fn lemma_wor_reachable_inv(
    sys: crate::actor::system::ActorSystem,
    from: crate::actor::system::SnapV,
    to: crate::actor::system::SnapV,
    n: nat,
)
    requires
        wor_shaped(sys),
        wor_inv(from),
        crate::checker::reachable_within(sys, from, to, n),
    ensures
        wor_inv(to),
        responses_agree(to.network),
    decreases n,
{
    if n == 0 || from == to {
        assert(wor_inv(to));
    } else {
        let mid = choose|mid: crate::actor::system::SnapV|
            #[trigger] crate::actor::system::successors(sys, from).contains(mid)
                && crate::checker::reachable_within(sys, mid, to, (n - 1) as nat);
        lemma_wor_step(sys, from, mid);
        lemma_wor_reachable_inv(sys, mid, to, (n - 1) as nat);
    }
}

} // verus!
