//! The register protocol wrapper: a reusable composition that layers a
//! "client proposes a value and expects a response" shape over a
//! domain-specific server actor.
//!
//! A client, on start, sends `Put` with its desired value followed by `Get`
//! to each configured server id, and never reacts to further input.  A
//! server forwards start and advance to the wrapped server actor.  The
//! message union carries client traffic (`Put`, `Get`, `Respond`) and
//! server-internal traffic (`Internal`) on one channel; the wire format
//! carries no discriminant for the nested server payload, so decoding first
//! attempts the inner server-message decode and only then the outer union.

use vstd::bytes::lemma_auto_spec_u32_to_from_le_bytes;
use vstd::bytes::spec_u32_from_le_bytes;
use vstd::bytes::spec_u32_to_le_bytes;
use vstd::bytes::u32_from_le_bytes;
use vstd::bytes::u32_to_le_bytes;
use vstd::prelude::*;

use crate::actor::system::ActorSystemSnapshot;
use crate::actor::wor::WorCfg;
use crate::actor::wor::WorMsg;
use crate::actor::wor::WorState;
use crate::actor::ActorInput;
use crate::actor::ActorResult;
use crate::actor::Command;

verus! {

/// A wrapper configuration for model checking a register-like actor.
#[derive(Clone, Debug)]
pub enum RegisterCfg<Id, Value, ServerCfg> {
    Client { server_ids: Vec<Id>, desired_value: Value },
    Server(ServerCfg),
}

/// The message union of a register-like protocol.
#[derive(Clone, Copy, PartialEq, Eq, Structural, Debug)]
pub enum RegisterMsg<Value, ServerMsg> {
    Put { value: Value },
    Get,
    Respond { value: Value },
    Internal(ServerMsg),
}

/// A wrapper state for model checking a register-like actor.
#[derive(Clone, Copy, PartialEq, Eq, Structural, Debug)]
pub enum RegisterState<ServerState> {
    Client,
    Server(ServerState),
}

/// The boot-time outputs of a client: to each server id in order, a `Put`
/// carrying the desired value followed by a `Get`.
pub open spec fn client_outputs(ids: Seq<usize>, v: char) -> Seq<
    Command<RegisterMsg<char, WorMsg>>,
>
    decreases ids.len(),
{
    if ids.len() == 0 {
        Seq::empty()
    } else {
        client_outputs(ids.drop_last(), v) + seq![
            Command { dst: ids.last(), msg: RegisterMsg::Put { value: v } },
            Command { dst: ids.last(), msg: RegisterMsg::Get },
        ]
    }
}

impl RegisterCfg<usize, char, WorCfg> {
    /// The initial state and boot-time outputs of this actor: a client emits
    /// its proposals, a server starts its wrapped actor.
    pub open spec fn start_spec(&self) -> (RegisterState<WorState>, Seq<
        Command<RegisterMsg<char, WorMsg>>,
    >) {
        match self {
            RegisterCfg::Client { server_ids, desired_value } => (
                RegisterState::Client,
                client_outputs(server_ids@, *desired_value),
            ),
            RegisterCfg::Server(cfg) => {
                let (st, outs) = cfg.start_spec();
                (RegisterState::Server(st), outs)
            },
        }
    }

    /// The reaction to one delivered input: a server forwards to the wrapped
    /// actor; a client never reacts, and a server in a client's state cannot
    /// arise.
    pub open spec fn advance_spec(
        &self,
        state: RegisterState<WorState>,
        src: usize,
        msg: RegisterMsg<char, WorMsg>,
    ) -> Option<(RegisterState<WorState>, Seq<Command<RegisterMsg<char, WorMsg>>>)> {
        match (self, state) {
            (RegisterCfg::Server(cfg), RegisterState::Server(server_state)) => {
                match cfg.advance_spec(server_state, src, msg) {
                    Option::None => Option::None,
                    Option::Some((st, outs)) => Option::Some((RegisterState::Server(st), outs)),
                }
            },
            _ => Option::None,
        }
    }

    /// Produces the initial state and any boot-time outputs; invoked once per
    /// actor id when a fresh snapshot is initialized.
    pub fn start(&self) -> (r: ActorResult<RegisterMsg<char, WorMsg>, RegisterState<WorState>>)
        ensures
            r.state == self.start_spec().0,
            r.outputs@ == self.start_spec().1,
    {
        match self {
            RegisterCfg::Client { server_ids, desired_value } => {
                let mut outputs: Vec<Command<RegisterMsg<char, WorMsg>>> = Vec::new();
                let mut i: usize = 0;
                while i < server_ids.len()
                    invariant
                        i <= server_ids.len(),
                        outputs@ == client_outputs(server_ids@.take(i as int), *desired_value),
                    decreases server_ids.len() - i,
                {
                    let id = server_ids[i];
                    outputs.push(Command { dst: id, msg: RegisterMsg::Put { value: *desired_value } });
                    outputs.push(Command { dst: id, msg: RegisterMsg::Get });
                    proof {
                        assert(server_ids@.take(i + 1).drop_last() =~= server_ids@.take(i as int));
                        assert(server_ids@.take(i + 1).last() == server_ids@[i as int]);
                    }
                    i += 1;
                }
                proof {
                    assert(server_ids@.take(server_ids@.len() as int) =~= server_ids@);
                }
                ActorResult { state: RegisterState::Client, outputs }
            },
            RegisterCfg::Server(cfg) => {
                let r = cfg.start();
                ActorResult { state: RegisterState::Server(r.state), outputs: r.outputs }
            },
        }
    }

    /// Given the current state and exactly one delivered input, returns a new
    /// transition, or nothing if the input is a no-op.  A declined input must
    /// leave the snapshot set unaffected, which keeps the explored state
    /// space finite for protocols with many ignorable messages.
    pub fn advance(
        &self,
        state: &RegisterState<WorState>,
        input: &ActorInput<RegisterMsg<char, WorMsg>>,
    ) -> (r: Option<ActorResult<RegisterMsg<char, WorMsg>, RegisterState<WorState>>>)
        ensures
            crate::actor::result_matches(
                r,
                self.advance_spec(*state, input.spec_src(), input.spec_msg()),
            ),
    {
        if let RegisterCfg::Server(server_cfg) = self {
            if let RegisterState::Server(server_state) = state {
                if let Option::Some(server_result) = server_cfg.advance(server_state, input) {
                    return Option::Some(ActorResult {
                        state: RegisterState::Server(server_result.state),
                        outputs: server_result.outputs,
                    });
                }
                return Option::None;
            }
        }
        Option::None
    }
}

/// Relies on `char::from_u32` of std: it returns the character with the
/// given code point, and declines exactly the values that are no Unicode
/// scalar value.
pub assume_specification[ char::from_u32 ](v: u32) -> (r: Option<char>)
    ensures
        match r {
            Option::Some(c) => c as u32 == v && vstd::utf8::is_scalar(v),
            Option::None => !vstd::utf8::is_scalar(v),
        },
;

/// The canonical encoding of the server's internal message: its single
/// value is one reserved byte.
pub open spec fn encode_wor_msg(m: WorMsg) -> Seq<u8> {
    seq![78u8]
}

/// The server's decode: exactly its own encodings are accepted.
pub open spec fn decode_wor_msg(b: Seq<u8>) -> Option<WorMsg> {
    if b == seq![78u8] {
        Option::Some(WorMsg::Nop)
    } else {
        Option::None
    }
}

/// The canonical wire encoding of the message union: one tag byte, then the
/// carried value's code point in four little-endian bytes.  A nested server
/// message is encoded by the server's own codec, with no outer discriminant;
/// the tag bytes of the outer union are disjoint from every server encoding.
pub open spec fn encode_msg(m: RegisterMsg<char, WorMsg>) -> Seq<u8> {
    match m {
        RegisterMsg::Put { value } => seq![80u8] + vstd::bytes::spec_u32_to_le_bytes(
            value as u32,
        ),
        RegisterMsg::Get => seq![71u8],
        RegisterMsg::Respond { value } => seq![82u8] + vstd::bytes::spec_u32_to_le_bytes(
            value as u32,
        ),
        RegisterMsg::Internal(w) => encode_wor_msg(w),
    }
}

/// Decoding first attempts the inner server-message decode and falls back to
/// the outer union decode, so servers can multiplex implementation traffic
/// and client traffic on one channel.
pub open spec fn decode_msg(b: Seq<u8>) -> Option<RegisterMsg<char, WorMsg>> {
    match decode_wor_msg(b) {
        Option::Some(w) => Option::Some(RegisterMsg::Internal(w)),
        Option::None => {
            if b.len() == 5 && (b[0] == 80 || b[0] == 82) {
                let v = vstd::bytes::spec_u32_from_le_bytes(b.subrange(1, 5));
                if vstd::utf8::is_scalar(v) {
                    if b[0] == 80 {
                        Option::Some(RegisterMsg::Put { value: v as char })
                    } else {
                        Option::Some(RegisterMsg::Respond { value: v as char })
                    }
                } else {
                    Option::None
                }
            } else if b.len() == 1 && b[0] == 71 {
                Option::Some(RegisterMsg::Get)
            } else {
                Option::None
            }
        },
    }
}

/// Round trip: decoding the encoding of every message value of the union,
/// nested server-internal payloads included, reproduces the value exactly.
pub proof fn lemma_codec_round_trip(m: RegisterMsg<char, WorMsg>)
    ensures
        decode_msg(encode_msg(m)) == Option::Some(m),
{
    lemma_auto_spec_u32_to_from_le_bytes();
    match m {
        RegisterMsg::Put { value } => {
            let b = encode_msg(m);
            assert(b.len() == 5 && b[0] == 80);
            assert(b != seq![78u8]);
            assert(b.subrange(1, 5) =~= spec_u32_to_le_bytes(value as u32));
            assert(spec_u32_from_le_bytes(b.subrange(1, 5)) == value as u32);
            vstd::utf8::char_is_scalar(value);
            vstd::utf8::char_u32_cast(value, value as u32);
        },
        RegisterMsg::Get => {
            let b = encode_msg(m);
            assert(b.len() == 1 && b[0] == 71);
            assert(b != seq![78u8]);
        },
        RegisterMsg::Respond { value } => {
            let b = encode_msg(m);
            assert(b.len() == 5 && b[0] == 82);
            assert(b != seq![78u8]);
            assert(b.subrange(1, 5) =~= spec_u32_to_le_bytes(value as u32));
            assert(spec_u32_from_le_bytes(b.subrange(1, 5)) == value as u32);
            vstd::utf8::char_is_scalar(value);
            vstd::utf8::char_u32_cast(value, value as u32);
        },
        RegisterMsg::Internal(w) => {
            assert(encode_msg(m) == seq![78u8]);
        },
    }
}

impl RegisterCfg<usize, char, WorCfg> {
    /// Encodes one message for the wire: the bridge to the real-network
    /// runtime, one encoded message per datagram.
    pub fn serialize(&self, msg: &RegisterMsg<char, WorMsg>) -> (r: Vec<u8>)
        ensures
            r@ == encode_msg(*msg),
    {
        let mut out: Vec<u8> = Vec::new();
        match msg {
            RegisterMsg::Put { value } => {
                out.push(80);
                let tail = u32_to_le_bytes(*value as u32);
                let mut k: usize = 0;
                while k < tail.len()
                    invariant
                        k <= tail@.len(),
                        out@ == seq![80u8] + tail@.take(k as int),
                    decreases tail@.len() - k,
                {
                    out.push(tail[k]);
                    proof {
                        assert(tail@.take(k + 1) =~= tail@.take(k as int).push(tail@[k as int]));
                        assert(out@.drop_last().push(tail@[k as int]) =~= out@);
                    }
                    k += 1;
                }
                proof {
                    assert(tail@.take(tail@.len() as int) =~= tail@);
                }
            },
            RegisterMsg::Get => {
                out.push(71);
            },
            RegisterMsg::Respond { value } => {
                out.push(82);
                let tail = u32_to_le_bytes(*value as u32);
                let mut k: usize = 0;
                while k < tail.len()
                    invariant
                        k <= tail@.len(),
                        out@ == seq![82u8] + tail@.take(k as int),
                    decreases tail@.len() - k,
                {
                    out.push(tail[k]);
                    proof {
                        assert(tail@.take(k + 1) =~= tail@.take(k as int).push(tail@[k as int]));
                        assert(out@.drop_last().push(tail@[k as int]) =~= out@);
                    }
                    k += 1;
                }
                proof {
                    assert(tail@.take(tail@.len() as int) =~= tail@);
                }
            },
            RegisterMsg::Internal(_) => {
                out.push(78);
            },
        }
        proof {
            assert(out@ =~= encode_msg(*msg));
        }
        out
    }

    /// Decodes one datagram, attempting the inner server-message decode
    /// before the outer union; malformed bytes are declined, never a panic.
    pub fn deserialize(&self, bytes: &Vec<u8>) -> (r: Option<RegisterMsg<char, WorMsg>>)
        ensures
            r == decode_msg(bytes@),
    {
        if bytes.len() == 1 {
            let b0 = bytes[0];
            if b0 == 78 {
                proof {
                    assert(bytes@ =~= seq![78u8]);
                }
                return Option::Some(RegisterMsg::Internal(WorMsg::Nop));
            }
            proof {
                assert(bytes@ != seq![78u8]);
            }
            if b0 == 71 {
                return Option::Some(RegisterMsg::Get);
            }
            return Option::None;
        }
        proof {
            if bytes@ == seq![78u8] {
                assert(bytes@.len() == 1);
            }
        }
        if bytes.len() == 5 {
            let b0 = bytes[0];
            if b0 == 80 || b0 == 82 {
                let mut tail: Vec<u8> = Vec::new();
                tail.push(bytes[1]);
                tail.push(bytes[2]);
                tail.push(bytes[3]);
                tail.push(bytes[4]);
                proof {
                    assert(tail@ =~= bytes@.subrange(1, 5));
                }
                let v = u32_from_le_bytes(tail.as_slice());
                match char::from_u32(v) {
                    Option::Some(c) => {
                        proof {
                            vstd::utf8::char_u32_cast(c, v);
                        }
                        if b0 == 80 {
                            return Option::Some(RegisterMsg::Put { value: c });
                        }
                        return Option::Some(RegisterMsg::Respond { value: c });
                    },
                    Option::None => {
                        return Option::None;
                    },
                }
            }
        }
        Option::None
    }
}

/// The value a `Respond` message carries, if the message is one.
pub open spec fn respond_value(m: RegisterMsg<char, WorMsg>) -> Option<char> {
    match m {
        RegisterMsg::Respond { value } => Option::Some(value),
        _ => Option::None,
    }
}

/// Whether some pending envelope carries `Respond` with value `c`.
pub open spec fn observed(net: Seq<crate::actor::system::Envelope>, c: char) -> bool {
    exists|i: int| 0 <= i < net.len() && respond_value(#[trigger] net[i].msg) == Option::Some(c)
}

/// Strictly ascending by code point: sorted and free of duplicates.
pub open spec fn strictly_sorted(s: Seq<char>) -> bool {
    forall|a: int, b: int| 0 <= a < b < s.len() ==> (s[a] as u32) < (s[b] as u32)
}

/// Two characters with one code point are one character.
proof fn lemma_char_code_injective(a: char, b: char)
    requires
        a as u32 == b as u32,
    ensures
        a == b,
{
}

proof fn lemma_insert_char_contains(s: Seq<char>, pos: int, v: char)
    requires
        0 <= pos <= s.len(),
    ensures
        forall|c: char| #[trigger] s.insert(pos, v).contains(c) <==> (c == v || s.contains(c)),
{
    let t = s.insert(pos, v);
    assert(t =~= s.subrange(0, pos) + seq![v] + s.subrange(pos, s.len() as int));
    assert forall|c: char| #[trigger] t.contains(c) implies (c == v || s.contains(c)) by {
        let k = choose|k: int| 0 <= k < t.len() && t[k] == c;
        if k < pos {
            assert(s[k] == c);
        } else if k > pos {
            assert(s[k - 1] == c);
        }
    }
    assert forall|c: char| (c == v || s.contains(c)) implies #[trigger] t.contains(c) by {
        if c == v {
            assert(t[pos] == c);
        } else {
            let k = choose|k: int| 0 <= k < s.len() && s[k] == c;
            if k < pos {
                assert(t[k] == c);
            } else {
                assert(t[k + 1] == c);
            }
        }
    }
}

/// Indicates unique values with which the server has responded: the distinct
/// values of all pending `Respond` envelopes, in ascending order, free of
/// duplicates — the natural basis for invariants such as "at most one
/// distinct value is ever observed".
pub fn response_values(state: &ActorSystemSnapshot) -> (r: Vec<char>)
    ensures
        strictly_sorted(r@),
        forall|c: char| #[trigger] r@.contains(c) <==> observed(state@.network, c),
{
    let net = &state.network;
    let mut values: Vec<char> = Vec::new();
    let mut i: usize = 0;
    while i < net.len()
        invariant
            i <= net@.len(),
            strictly_sorted(values@),
            forall|c: char| #[trigger] values@.contains(c) <==> observed(net@.take(i as int), c),
        decreases net@.len() - i,
    {
        let ghost pre = values@;
        if let RegisterMsg::Respond { value } = net[i].msg {
            let mut pos: usize = 0;
            while pos < values.len() && (values[pos] as u32) < (value as u32)
                invariant
                    pos <= values@.len(),
                    forall|j: int| 0 <= j < pos ==> ((#[trigger] values@[j]) as u32) < (value
                        as u32),
                    strictly_sorted(values@),
                    values@ == pre,
                decreases values@.len() - pos,
            {
                pos += 1;
            }
            let mut duplicate = false;
            if pos < values.len() {
                let at_pos = values[pos];
                if (at_pos as u32) == (value as u32) {
                    proof {
                        lemma_char_code_injective(at_pos, value);
                    }
                    duplicate = true;
                }
            }
            if !duplicate {
                proof {
                    assert(pos < pre.len() ==> ((pre[pos as int] as u32) > (value as u32)));
                }
                values.insert(pos, value);
                proof {
                    lemma_insert_char_contains(pre, pos as int, value);
                    let t = pre.insert(pos as int, value);
                    assert(t =~= pre.subrange(0, pos as int) + seq![value] + pre.subrange(
                        pos as int,
                        pre.len() as int,
                    ));
                    assert forall|a: int, b: int| 0 <= a < b < t.len() implies (t[a] as u32) < (
                    t[b] as u32) by {
                        if b < pos {
                            assert(t[a] == pre[a] && t[b] == pre[b]);
                        } else if b == pos {
                            assert(t[a] == pre[a] && t[b] == value);
                        } else {
                            assert(t[b] == pre[b - 1]);
                            if a < pos {
                                assert(t[a] == pre[a]);
                            } else if a == pos {
                                assert(t[a] == value);
                                assert((pre[pos as int] as u32) > (value as u32));
                                assert((pre[b - 1] as u32) >= (pre[pos as int] as u32));
                            } else {
                                assert(t[a] == pre[a - 1]);
                            }
                        }
                    }
                }
            }
            proof {
                assert(values@.contains(value));
            }
        }
        proof {
            assert(net@.take(i + 1) =~= net@.take(i as int).push(net@[i as int]));
            assert forall|c: char| #[trigger] values@.contains(c) implies observed(
                net@.take(i + 1),
                c,
            ) by {
                if pre.contains(c) {
                    let k = choose|k: int|
                        0 <= k < i && respond_value(#[trigger] net@.take(i as int)[k].msg)
                            == Option::Some(c);
                    assert(respond_value(net@.take(i + 1)[k].msg) == Option::Some(c));
                } else {
                    assert(respond_value(net@.take(i + 1)[i as int].msg) == Option::Some(c));
                }
            }
            assert forall|c: char| observed(net@.take(i + 1), c) implies #[trigger] values@.contains(
                c,
            ) by {
                let k = choose|k: int|
                    0 <= k < i + 1 && respond_value(#[trigger] net@.take(i + 1)[k].msg)
                        == Option::Some(c);
                if k < i {
                    assert(respond_value(net@.take(i as int)[k].msg) == Option::Some(c));
                    assert(pre.contains(c));
                }
            }
        }
        i += 1;
    }
    proof {
        assert(net@.take(net@.len() as int) =~= net@);
    }
    values
}

} // verus!
