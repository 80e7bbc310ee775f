//! A small distributed fabric: a registry node that assigns ids to peer
//! processes, tracks their liveness, and drives them through single-decree
//! Paxos; processes answer as acceptors and message each other.
//!
//! This crate holds the state machines and the wire codec.  The network
//! plumbing around them (sockets, threads, timers) lives with the caller,
//! which hands each incoming buffer to [`handle_buffer`] and performs the
//! sends that the state machines ask for.
use vstd::prelude::*;

pub mod codec;
pub mod events;
pub mod membership;
pub mod process;
pub mod registry;
mod rng;

use events::{spec_dec_event, Event};

verus! {

/// Size of a quorum among `n` acceptors: strictly more than half of them.
pub open spec fn spec_majority(n: nat) -> nat {
    n / 2 + 1
}

/// Computes the quorum size for `n` acceptors.
pub fn majority(n: usize) -> (m: usize)
    ensures
        m == spec_majority(n as nat),
{
    n / 2 + 1
}

/// Decodes the first `data_size` bytes of a receive buffer into an event.
pub fn handle_buffer(buffer: &[u8], data_size: usize) -> (r: Option<Event>)
    requires
        data_size <= buffer@.len(),
    ensures
        r is Some <==> spec_dec_event(buffer@.subrange(0, data_size as int)) is Some,
        r matches Some(e) ==> spec_dec_event(buffer@.subrange(0, data_size as int)) == Some(e@),
{
    let data = vstd::slice::slice_subrange(buffer, 0, data_size);
    Event::parse_event_type(data)
}

} // verus!
