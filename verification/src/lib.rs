//! An actor library with an exhaustive model checker.
//!
//! Protocols are written as actors: deterministic reactions to a start event
//! and to delivered messages.  An [`actor::system::ActorSystem`] places actor
//! configurations in an ordered list and connects them with a network of
//! in-flight envelopes, which may be reliable or lossy.  The
//! [`checker::Checker`] explores every system snapshot reachable within a
//! bound, deduplicating snapshots by value and holding a property against
//! each one.

pub mod actor;
pub mod checker;
