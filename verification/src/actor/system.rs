//! The system model: an ordered list of actor configurations connected by a
//! network of in-flight envelopes, and the enumeration of every legal
//! successor of a snapshot.
//!
//! The network is the multiset of messages an unordered transport may still
//! deliver, kept as a canonically ordered, duplicate-free list so that
//! structural equality of snapshots coincides with equality of network
//! contents.  Delivering an envelope does not consume it — the transport may
//! duplicate — so a delivery replaces the destination's state and merges the
//! emitted envelopes into the network.  Under a lossy network each pending
//! envelope additionally offers a "drop" successor that removes it without
//! any delivery.

use vstd::prelude::*;

use crate::actor::register::RegisterCfg;
use crate::actor::register::RegisterMsg;
use crate::actor::register::RegisterState;
use crate::actor::wor::WorCfg;
use crate::actor::wor::WorMsg;
use crate::actor::wor::WorState;
use crate::actor::ActorInput;
use crate::actor::Command;

verus! {

/// The message type the model exchanges.
pub type Msg = RegisterMsg<char, WorMsg>;

/// The state of one actor of the model.
pub type State = RegisterState<WorState>;

/// The configuration of one actor of the model.
pub type Cfg = RegisterCfg<usize, char, WorCfg>;

/// One in-flight message with its source and destination actor ids.
/// Immutable once created; owned by the network collection.
#[derive(Clone, Copy, PartialEq, Eq, Structural, Debug)]
pub struct Envelope {
    pub src: usize,
    pub dst: usize,
    pub msg: Msg,
}

/// Whether the network may drop a pending envelope instead of delivering it.
#[derive(Clone, Copy, PartialEq, Eq, Structural, Debug)]
pub enum LossyNetwork {
    Yes,
    No,
}

/// The immutable configuration of a check run: the ordered actor instances,
/// the initial network, and the network's reliability class.  An actor's id
/// is its position in `actors`.
#[derive(Clone, Debug)]
pub struct ActorSystem {
    pub actors: Vec<Cfg>,
    pub init_network: Vec<Envelope>,
    pub lossy_network: LossyNetwork,
}

/// All actor states plus the in-flight network contents at one point in
/// exploration: the unit of search, compared by structural equality.
#[derive(Clone, PartialEq, Debug)]
pub struct ActorSystemSnapshot {
    pub actor_states: Vec<State>,
    pub network: Vec<Envelope>,
}

/// The mathematical value of a snapshot: the sequence of actor states and
/// the canonical sequence of in-flight envelopes.
#[verifier::ext_equal]
pub ghost struct SnapV {
    pub states: Seq<State>,
    pub network: Seq<Envelope>,
}

impl View for ActorSystemSnapshot {
    type V = SnapV;

    open spec fn view(&self) -> SnapV {
        SnapV { states: self.actor_states@, network: self.network@ }
    }
}

/// The sequence of snapshot values under a sequence of snapshots.
pub open spec fn views(v: Seq<ActorSystemSnapshot>) -> Seq<SnapV> {
    v.map_values(|s: ActorSystemSnapshot| s@)
}

/// A numeric tag ordering the variants of the message union.
pub open spec fn msg_tag(m: Msg) -> int {
    match m {
        RegisterMsg::Put { .. } => 0,
        RegisterMsg::Get => 1,
        RegisterMsg::Respond { .. } => 2,
        RegisterMsg::Internal(_) => 3,
    }
}

/// The value a message carries, as an integer; tags and values together
/// distinguish any two distinct messages.
pub open spec fn msg_val(m: Msg) -> u32 {
    match m {
        RegisterMsg::Put { value } => value as u32,
        RegisterMsg::Get => 0,
        RegisterMsg::Respond { value } => value as u32,
        RegisterMsg::Internal(_) => 0,
    }
}

/// The canonical strict order on envelopes: by source, then destination,
/// then message tag, then message value.
pub open spec fn env_lt(a: Envelope, b: Envelope) -> bool {
    ||| a.src < b.src
    ||| (a.src == b.src && a.dst < b.dst)
    ||| (a.src == b.src && a.dst == b.dst && msg_tag(a.msg) < msg_tag(b.msg))
    ||| (a.src == b.src && a.dst == b.dst && msg_tag(a.msg) == msg_tag(b.msg) && msg_val(a.msg)
        < msg_val(b.msg))
}

/// The position at which an envelope belongs in a canonically ordered
/// network: the first index whose envelope is not below it.
pub open spec fn insert_pos(net: Seq<Envelope>, e: Envelope) -> int
    decreases net.len(),
{
    if net.len() == 0 {
        0
    } else if !env_lt(net[0], e) {
        0
    } else {
        1 + insert_pos(net.drop_first(), e)
    }
}

/// Merging one envelope into a canonically ordered network: a duplicate
/// leaves the network unchanged, otherwise the envelope enters at its
/// canonical position.
pub open spec fn net_insert(net: Seq<Envelope>, e: Envelope) -> Seq<Envelope> {
    let i = insert_pos(net, e);
    if i < net.len() && net[i] == e {
        net
    } else {
        net.subrange(0, i) + seq![e] + net.subrange(i, net.len() as int)
    }
}

/// A linear scan that stopped at the first non-smaller element has found the
/// canonical insertion position.
proof fn lemma_insert_pos_of_scan(net: Seq<Envelope>, e: Envelope, i: int)
    requires
        0 <= i <= net.len(),
        forall|j: int| 0 <= j < i ==> env_lt(#[trigger] net[j], e),
        i < net.len() ==> !env_lt(net[i], e),
    ensures
        insert_pos(net, e) == i,
    decreases net.len(),
{
    if net.len() > 0 && env_lt(net[0], e) {
        assert(i > 0);
        lemma_insert_pos_of_scan(net.drop_first(), e, i - 1);
    }
}

/// Merging a sequence of emitted commands, sent by actor `src`, into the
/// network, in emission order.
pub open spec fn net_insert_all(
    net: Seq<Envelope>,
    src: usize,
    outs: Seq<Command<Msg>>,
) -> Seq<Envelope>
    decreases outs.len(),
{
    if outs.len() == 0 {
        net
    } else {
        net_insert_all(
            net_insert(net, Envelope { src, dst: outs[0].dst, msg: outs[0].msg }),
            src,
            outs.drop_first(),
        )
    }
}

/// Merging a sequence of ready-made envelopes into the network, in order.
pub open spec fn net_insert_envs(net: Seq<Envelope>, envs: Seq<Envelope>) -> Seq<Envelope>
    decreases envs.len(),
{
    if envs.len() == 0 {
        net
    } else {
        net_insert_envs(net_insert(net, envs[0]), envs.drop_first())
    }
}

/// The successor of a snapshot when envelope `i` is dropped without
/// delivery: the envelope leaves the network and no state changes.
pub open spec fn drop_succ(s: SnapV, i: int) -> SnapV {
    SnapV { states: s.states, network: s.network.remove(i) }
}

/// The successor of a snapshot when envelope `i` is delivered, if the
/// destination actor reacts: its state is replaced and the emitted envelopes
/// are merged into the network.  An ignored input yields no successor.
pub open spec fn deliver_succ(sys: ActorSystem, s: SnapV, i: int) -> Option<SnapV> {
    let e = s.network[i];
    if e.dst < s.states.len() && e.dst < sys.actors@.len() {
        match sys.actors@[e.dst as int].advance_spec(s.states[e.dst as int], e.src, e.msg) {
            Option::None => Option::None,
            Option::Some((st, outs)) => Option::Some(
                SnapV {
                    states: s.states.update(e.dst as int, st),
                    network: net_insert_all(s.network, e.dst, outs),
                },
            ),
        }
    } else {
        Option::None
    }
}

/// Every legal successor arising from the first `n` pending envelopes: for
/// each envelope, the drop alternative under a lossy network, then the
/// delivery if the destination reacts.
pub open spec fn succs_upto(sys: ActorSystem, s: SnapV, n: int) -> Seq<SnapV>
    decreases n,
{
    if n <= 0 {
        Seq::empty()
    } else {
        let prev = succs_upto(sys, s, n - 1);
        let with_drop = if sys.lossy_network == LossyNetwork::Yes {
            prev.push(drop_succ(s, n - 1))
        } else {
            prev
        };
        match deliver_succ(sys, s, n - 1) {
            Option::None => with_drop,
            Option::Some(t) => with_drop.push(t),
        }
    }
}

/// Every legal successor of a snapshot: one choice per pending envelope and
/// delivery outcome.
pub open spec fn successors(sys: ActorSystem, s: SnapV) -> Seq<SnapV> {
    succs_upto(sys, s, s.network.len() as int)
}

/// An ignored input mints no snapshot: when the destination actor declines
/// the envelope at position `i`, that envelope contributes no delivery
/// successor — under a lossy network only its drop remains, under a reliable
/// one nothing at all — so a declined input can never grow the visited set.
pub proof fn lemma_ignored_input_mints_nothing(sys: ActorSystem, s: SnapV, i: int)
    requires
        0 <= i < s.network.len(),
        deliver_succ(sys, s, i) is None,
    ensures
        succs_upto(sys, s, i + 1) == if sys.lossy_network == LossyNetwork::Yes {
            succs_upto(sys, s, i).push(drop_succ(s, i))
        } else {
            succs_upto(sys, s, i)
        },
{
}

/// Copies a vector of copyable values.
pub fn copy_vec<T: Copy>(v: &Vec<T>) -> (r: Vec<T>)
    ensures
        r@ == v@,
{
    let mut r: Vec<T> = Vec::new();
    let mut i: usize = 0;
    while i < v.len()
        invariant
            i <= v.len(),
            r@ == v@.take(i as int),
        decreases v.len() - i,
    {
        r.push(v[i]);
        proof {
            assert(v@.take(i + 1) =~= v@.take(i as int).push(v@[i as int]));
        }
        i += 1;
    }
    proof {
        assert(v@.take(v@.len() as int) =~= v@);
    }
    r
}

/// Compares two envelopes in the canonical order.
fn env_before(a: &Envelope, b: &Envelope) -> (r: bool)
    ensures
        r == env_lt(*a, *b),
{
    if a.src != b.src {
        return a.src < b.src;
    }
    if a.dst != b.dst {
        return a.dst < b.dst;
    }
    let ta = match a.msg {
        RegisterMsg::Put { .. } => 0u8,
        RegisterMsg::Get => 1u8,
        RegisterMsg::Respond { .. } => 2u8,
        RegisterMsg::Internal(_) => 3u8,
    };
    let tb = match b.msg {
        RegisterMsg::Put { .. } => 0u8,
        RegisterMsg::Get => 1u8,
        RegisterMsg::Respond { .. } => 2u8,
        RegisterMsg::Internal(_) => 3u8,
    };
    if ta != tb {
        return ta < tb;
    }
    let va = match a.msg {
        RegisterMsg::Put { value } => value as u32,
        RegisterMsg::Get => 0u32,
        RegisterMsg::Respond { value } => value as u32,
        RegisterMsg::Internal(_) => 0u32,
    };
    let vb = match b.msg {
        RegisterMsg::Put { value } => value as u32,
        RegisterMsg::Get => 0u32,
        RegisterMsg::Respond { value } => value as u32,
        RegisterMsg::Internal(_) => 0u32,
    };
    va < vb
}

/// Merges one envelope into a canonically ordered network.
pub fn net_insert_exec(net: &Vec<Envelope>, e: Envelope) -> (r: Vec<Envelope>)
    ensures
        r@ == net_insert(net@, e),
{
    let mut i: usize = 0;
    while i < net.len() && env_before(&net[i], &e)
        invariant
            i <= net.len(),
            forall|j: int| 0 <= j < i ==> env_lt(#[trigger] net@[j], e),
        decreases net.len() - i,
    {
        i += 1;
    }
    proof {
        lemma_insert_pos_of_scan(net@, e, i as int);
    }
    if i < net.len() && net[i] == e {
        let r = copy_vec(net);
        return r;
    }
    let mut r: Vec<Envelope> = Vec::new();
    let mut j: usize = 0;
    while j < i
        invariant
            j <= i,
            i <= net.len(),
            r@ == net@.take(j as int),
        decreases i - j,
    {
        r.push(net[j]);
        proof {
            assert(net@.take(j + 1) =~= net@.take(j as int).push(net@[j as int]));
        }
        j += 1;
    }
    r.push(e);
    let mut k: usize = i;
    while k < net.len()
        invariant
            i <= k <= net.len(),
            r@ == net@.take(i as int) + seq![e] + net@.subrange(i as int, k as int),
        decreases net.len() - k,
    {
        r.push(net[k]);
        proof {
            assert(net@.take(i as int) + seq![e] + net@.subrange(i as int, k + 1) =~= (net@.take(
                i as int,
            ) + seq![e] + net@.subrange(i as int, k as int)).push(net@[k as int]));
        }
        k += 1;
    }
    proof {
        assert(r@ =~= net_insert(net@, e));
    }
    r
}

/// Merges the commands an actor emitted into the network, as envelopes
/// sourced at that actor.
fn net_insert_all_exec(net: Vec<Envelope>, src: usize, outs: &Vec<Command<Msg>>) -> (r: Vec<
    Envelope,
>)
    ensures
        r@ == net_insert_all(net@, src, outs@),
{
    let ghost net0 = net@;
    let mut cur = net;
    let mut i: usize = 0;
    proof {
        assert(outs@.skip(0) =~= outs@);
    }
    while i < outs.len()
        invariant
            i <= outs.len(),
            net_insert_all(cur@, src, outs@.skip(i as int)) == net_insert_all(net0, src, outs@),
        decreases outs.len() - i,
    {
        let c = outs[i];
        proof {
            assert(outs@.skip(i as int).drop_first() =~= outs@.skip(i + 1));
            assert(outs@.skip(i as int)[0] == outs@[i as int]);
        }
        cur = net_insert_exec(&cur, Envelope { src, dst: c.dst, msg: c.msg });
        i += 1;
    }
    proof {
        assert(outs@.skip(outs@.len() as int) =~= Seq::<Command<Msg>>::empty());
    }
    cur
}

/// Replaces one element of a vector of copyable values, leaving the input
/// untouched.
fn vec_update_copy<T: Copy>(v: &Vec<T>, at: usize, x: T) -> (r: Vec<T>)
    requires
        at < v@.len(),
    ensures
        r@ == v@.update(at as int, x),
{
    let mut r: Vec<T> = Vec::new();
    let mut i: usize = 0;
    while i < v.len()
        invariant
            i <= v.len(),
            at < v@.len(),
            r@.len() == i,
            forall|k: int|
                0 <= k < i ==> #[trigger] r@[k] == if k == at as int {
                    x
                } else {
                    v@[k]
                },
        decreases v.len() - i,
    {
        if i == at {
            r.push(x);
        } else {
            r.push(v[i]);
        }
        i += 1;
    }
    proof {
        assert(r@ =~= v@.update(at as int, x));
    }
    r
}

impl ActorSystem {
    /// The states after every actor in order was started, up to actor `n`.
    pub open spec fn init_states(&self, n: int) -> Seq<State>
        decreases n,
    {
        if n <= 0 {
            Seq::empty()
        } else {
            self.init_states(n - 1).push(self.actors@[n - 1].start_spec().0)
        }
    }

    /// The network after the initial envelopes were merged and every actor
    /// up to `n`, in order, contributed its boot-time outputs.
    pub open spec fn init_net(&self, n: int) -> Seq<Envelope>
        decreases n,
    {
        if n <= 0 {
            net_insert_envs(Seq::empty(), self.init_network@)
        } else {
            net_insert_all(self.init_net(n - 1), (n - 1) as usize, self.actors@[n - 1].start_spec().1)
        }
    }

    /// The initial snapshot: every actor started in order, all boot-time
    /// outputs concatenated with the system's initial network.
    pub open spec fn init_snapshot_spec(&self) -> SnapV {
        SnapV {
            states: self.init_states(self.actors@.len() as int),
            network: self.init_net(self.actors@.len() as int),
        }
    }

    /// Builds the initial snapshot by invoking `start` for every actor in
    /// order.
    pub fn init_snapshot(&self) -> (r: ActorSystemSnapshot)
        ensures
            r@ == self.init_snapshot_spec(),
    {
        let mut net: Vec<Envelope> = Vec::new();
        let mut i: usize = 0;
        let ghost base = self.init_network@;
        proof {
            assert(base.skip(0) =~= base);
        }
        while i < self.init_network.len()
            invariant
                i <= self.init_network@.len(),
                net_insert_envs(net@, base.skip(i as int)) == net_insert_envs(Seq::empty(), base),
                base == self.init_network@,
            decreases self.init_network@.len() - i,
        {
            proof {
                assert(base.skip(i as int).drop_first() =~= base.skip(i + 1));
                assert(base.skip(i as int)[0] == base[i as int]);
            }
            net = net_insert_exec(&net, self.init_network[i]);
            i += 1;
        }
        proof {
            assert(base.skip(base.len() as int) =~= Seq::<Envelope>::empty());
        }
        let mut states: Vec<State> = Vec::new();
        let mut a: usize = 0;
        while a < self.actors.len()
            invariant
                a <= self.actors@.len(),
                states@ == self.init_states(a as int),
                net@ == self.init_net(a as int),
            decreases self.actors@.len() - a,
        {
            let res = self.actors[a].start();
            states.push(res.state);
            net = net_insert_all_exec(net, a, &res.outputs);
            a += 1;
        }
        ActorSystemSnapshot { actor_states: states, network: net }
    }

    /// Enumerates every legal successor of a snapshot: for each pending
    /// envelope, the drop alternative under a lossy network and the delivery
    /// if the destination actor reacts.
    pub fn successors_exec(&self, s: &ActorSystemSnapshot) -> (r: Vec<ActorSystemSnapshot>)
        ensures
            views(r@) == successors(*self, s@),
    {
        let mut r: Vec<ActorSystemSnapshot> = Vec::new();
        let mut i: usize = 0;
        while i < s.network.len()
            invariant
                i <= s.network@.len(),
                views(r@) == succs_upto(*self, s@, i as int),
            decreases s.network@.len() - i,
        {
            let e = s.network[i];
            if self.lossy_network == LossyNetwork::Yes {
                let mut net2 = copy_vec(&s.network);
                net2.remove(i);
                let t = ActorSystemSnapshot {
                    actor_states: copy_vec(&s.actor_states),
                    network: net2,
                };
                proof {
                    assert(t@ =~= drop_succ(s@, i as int));
                }
                r.push(t);
            }
            if e.dst < s.actor_states.len() && e.dst < self.actors.len() {
                let input = ActorInput::Deliver { src: e.src, msg: e.msg };
                if let Option::Some(res) = self.actors[e.dst].advance(&s.actor_states[e.dst], &input) {
                    let t = ActorSystemSnapshot {
                        actor_states: vec_update_copy(&s.actor_states, e.dst, res.state),
                        network: net_insert_all_exec(copy_vec(&s.network), e.dst, &res.outputs),
                    };
                    proof {
                        assert(t@ =~= deliver_succ(*self, s@, i as int).unwrap());
                    }
                    r.push(t);
                }
            }
            proof {
                assert(views(r@) =~= succs_upto(*self, s@, i + 1));
            }
            i += 1;
        }
        r
    }
}

} // verus!
