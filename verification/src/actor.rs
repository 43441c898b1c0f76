//! The actor abstraction: inputs delivered to an actor and the results of a
//! transition.
//!
//! An actor reacts to a start event once, and then to each delivered input,
//! by returning an [`ActorResult`]: a replacement state together with
//! commands naming the messages to send next.  All nondeterminism (message
//! ordering, loss, interleaving) is injected by the surrounding system
//! model; the reactions themselves are pure functions, which is what lets
//! the checker deduplicate snapshots soundly.

pub mod register;
pub mod system;
pub mod wor;

use vstd::prelude::*;

verus! {

/// One input delivered to an actor: a message together with the id of the
/// actor that sent it.
#[derive(Clone, Copy, PartialEq, Eq, Structural, Debug)]
pub enum ActorInput<M> {
    Deliver { src: usize, msg: M },
}

impl<M> ActorInput<M> {
    /// The id of the sending actor.
    pub open spec fn spec_src(&self) -> usize {
        match *self {
            ActorInput::Deliver { src, .. } => src,
        }
    }

    /// The delivered message.
    pub open spec fn spec_msg(&self) -> M {
        match *self {
            ActorInput::Deliver { msg, .. } => msg,
        }
    }
}

/// A request to send one message to the actor with id `dst`.
#[derive(Clone, Copy, PartialEq, Eq, Structural, Debug)]
pub struct Command<M> {
    pub dst: usize,
    pub msg: M,
}

/// The output of one actor transition: the actor's next state and the
/// messages it asks the system to send.  A result is folded into the next
/// snapshot by the system model and never retained by the actor itself.
#[derive(Clone, Debug)]
pub struct ActorResult<M, S> {
    pub state: S,
    pub outputs: Vec<Command<M>>,
}

/// Relates the value an actor's transition function returns to the
/// transition a specification names: both decline, or both produce the same
/// state and the same outputs.
pub open spec fn result_matches<M, S>(
    r: Option<ActorResult<M, S>>,
    t: Option<(S, Seq<Command<M>>)>,
) -> bool {
    match (r, t) {
        (Option::None, Option::None) => true,
        (Option::Some(a), Option::Some(b)) => a.state == b.0 && a.outputs@ == b.1,
        _ => false,
    }
}

} // verus!
