//! The registry: membership authority and Paxos proposer.
//!
//! The registry assigns strictly increasing ids to connecting processes,
//! evicts the ones its heartbeat finds dead, and drives one single-decree
//! Paxos instance at a time over the current membership.  Every membership
//! change invalidates an in-flight instance.
//!
//! Each handler here is a pure state transition: it mutates the registry
//! and hands back the event, if any, that the caller must put on the wire.
use vstd::prelude::*;

use crate::codec::spec_endpoint;
use crate::events::{
    PaxosAcceptedValue, PaxosAcceptorEvent, PaxosProposerEvent, ProcessEvent, ProcessEventV,
    RegistryEvent, RegistryEventV,
};
use crate::membership::{alive_pred, lemma_filter_member_index, MembershipView};
use crate::rng::gen_range_usize;
use crate::{majority, spec_majority};

verus! {

/// Where the proposer stands in its current consensus instance.
#[derive(Clone, Copy, PartialEq, Eq, Structural, Debug)]
pub enum PaxosStatus {
    NoConsensus,
    Phase1,
    Phase2,
    ConsensusReached(PaxosAcceptedValue),
}

/// The largest count either counter can hold between two events: one more
/// than half the largest possible membership.
pub const COUNT_CEILING: u32 = 0x8000_0001;

/// The registry's whole state.
pub struct Registry {
    pub last_registered_id: u32,
    pub processes: MembershipView,
    pub paxos_seq_number: u32,
    pub promises_received: u32,
    pub accepted_received: u32,
    pub accepted_values_received: Vec<Option<PaxosAcceptedValue>>,
    pub paxos_status: PaxosStatus,
}

impl Registry {
    /// Every id in the view was assigned, so lies in `1 ..= last_registered_id`;
    /// the view is well-formed; the vote counters never outgrow a majority.
    pub open spec fn wf(&self) -> bool {
        &&& self.processes.wf()
        &&& forall|i: int|
            0 <= i < self.processes@.len() ==> 1 <= (#[trigger] self.processes@[i]).0
                <= self.last_registered_id
        &&& self.promises_received <= COUNT_CEILING
        &&& self.accepted_received <= COUNT_CEILING
    }
}

/// A freshly started registry: empty view, no consensus under way.
pub open spec fn spec_init(r: Registry) -> bool {
    &&& r.last_registered_id == 0
    &&& r.processes@ == Seq::<(u32, Seq<char>)>::empty()
    &&& r.paxos_seq_number == 0
    &&& r.promises_received == 0
    &&& r.accepted_received == 0
    &&& r.accepted_values_received@ == Seq::<Option<PaxosAcceptedValue>>::empty()
    &&& r.paxos_status is NoConsensus
}

/// Registration: the next id is granted, the endpoint is filed under it,
/// any in-flight consensus is invalidated, and the reply to send back
/// carries the new id and the whole view.
pub open spec fn spec_register(
    pre: Registry,
    addr: Seq<char>,
    post: Registry,
    id: u32,
    reply: RegistryEventV,
) -> bool {
    &&& id == pre.last_registered_id + 1
    &&& post.last_registered_id == id
    &&& post.processes@ == pre.processes@ + seq![(id, addr)]
    &&& post.paxos_status is NoConsensus
    &&& post.paxos_seq_number == pre.paxos_seq_number
    &&& post.promises_received == pre.promises_received
    &&& post.accepted_received == pre.accepted_received
    &&& post.accepted_values_received@ == pre.accepted_values_received@
    &&& reply == (RegistryEventV::Registered { given_id: id, registered_processes: post.processes@ })
}

/// Eviction: the named ids leave the view; if any id at all was named,
/// any in-flight consensus is invalidated.
pub open spec fn spec_evict(pre: Registry, dead: Seq<u32>, post: Registry) -> bool {
    &&& post.processes@ == pre.processes@.filter(alive_pred(dead))
    &&& post.paxos_status == (if dead.len() > 0 {
        PaxosStatus::NoConsensus
    } else {
        pre.paxos_status
    })
    &&& post.last_registered_id == pre.last_registered_id
    &&& post.paxos_seq_number == pre.paxos_seq_number
    &&& post.promises_received == pre.promises_received
    &&& post.accepted_received == pre.accepted_received
    &&& post.accepted_values_received@ == pre.accepted_values_received@
}

/// The prior accepted value to propose again: among all values carried
/// back in promises, the one with the greatest sequence number, the
/// later of two equals winning; nothing if every promise was empty.
pub open spec fn spec_choose_value(avs: Seq<Option<PaxosAcceptedValue>>) -> Option<
    PaxosAcceptedValue,
>
    decreases avs.len(),
{
    if avs.len() == 0 {
        None
    } else {
        match (spec_choose_value(avs.drop_last()), avs.last()) {
            (None, last) => last,
            (Some(b), None) => Some(b),
            (Some(b), Some(x)) => if x.seq_number >= b.seq_number {
                Some(x)
            } else {
                Some(b)
            },
        }
    }
}

/// Everything but the counters, the vote list and the status is unchanged.
pub open spec fn spec_frame(pre: Registry, post: Registry) -> bool {
    &&& post.last_registered_id == pre.last_registered_id
    &&& post.processes@ == pre.processes@
    &&& post.paxos_seq_number == pre.paxos_seq_number
}

/// Nothing at all changed.
pub open spec fn spec_same(pre: Registry, post: Registry) -> bool {
    &&& spec_frame(pre, post)
    &&& post.promises_received == pre.promises_received
    &&& post.accepted_received == pre.accepted_received
    &&& post.accepted_values_received@ == pre.accepted_values_received@
    &&& post.paxos_status == pre.paxos_status
}

/// How one acceptor event moves the proposer, and what is broadcast.
///
/// A `Promise` counts only in phase one; on a majority the proposer
/// broadcasts a `RequestAccept` carrying the chosen prior value, or an
/// invented one with a payload in `100 .. 1000` when every promise was
/// empty, and moves to phase two with cleared counts.  An `Accepted`
/// carrying a value counts only in phase two; on a majority consensus is
/// reached on that value.  Everything else is dropped without a trace.
pub open spec fn spec_accept_step(
    pre: Registry,
    ev: PaxosAcceptorEvent,
    post: Registry,
    action: Option<PaxosProposerEvent>,
) -> bool {
    let maj = spec_majority(pre.processes@.len());
    match ev {
        PaxosAcceptorEvent::Promise { seq_number, value } => {
            if pre.paxos_status is Phase1 {
                let cnt = pre.promises_received + 1;
                let avs = pre.accepted_values_received@.push(value);
                if cnt >= maj {
                    &&& spec_frame(pre, post)
                    &&& post.promises_received == 0
                    &&& post.accepted_received == pre.accepted_received
                    &&& post.accepted_values_received@ == Seq::<
                        Option<PaxosAcceptedValue>,
                    >::empty()
                    &&& post.paxos_status is Phase2
                    &&& (match spec_choose_value(avs) {
                        Some(av) => action == Some(
                            (PaxosProposerEvent::RequestAccept { seq_number, value: av }),
                        ),
                        None => (action matches Some(PaxosProposerEvent::RequestAccept {
                            seq_number: psn,
                            value: pav,
                        }) && psn == pre.paxos_seq_number && pav.seq_number == pre.paxos_seq_number
                            && 100 <= pav.value < 1000),
                    })
                } else {
                    &&& spec_frame(pre, post)
                    &&& post.promises_received == cnt
                    &&& post.accepted_received == pre.accepted_received
                    &&& post.accepted_values_received@ == avs
                    &&& post.paxos_status is Phase1
                    &&& action is None
                }
            } else {
                spec_same(pre, post) && action is None
            }
        },
        PaxosAcceptorEvent::Accepted { seq_number: _, value } => {
            if pre.paxos_status is Phase2 && value is Some {
                let cnt = pre.accepted_received + 1;
                if cnt >= maj {
                    &&& spec_frame(pre, post)
                    &&& post.promises_received == pre.promises_received
                    &&& post.accepted_received == 0
                    &&& post.accepted_values_received@ == pre.accepted_values_received@
                    &&& post.paxos_status == PaxosStatus::ConsensusReached(value.unwrap())
                    &&& action is None
                } else {
                    &&& spec_frame(pre, post)
                    &&& post.promises_received == pre.promises_received
                    &&& post.accepted_received == cnt
                    &&& post.accepted_values_received@ == pre.accepted_values_received@
                    &&& post.paxos_status is Phase2
                    &&& action is None
                }
            } else {
                spec_same(pre, post) && action is None
            }
        },
        PaxosAcceptorEvent::KO => spec_same(pre, post) && action is None,
    }
}

/// Starting an instance: with strictly more than two peers the proposer
/// enters phase one and broadcasts `Prepare`; otherwise nothing happens.
pub open spec fn spec_start(
    pre: Registry,
    post: Registry,
    action: Option<PaxosProposerEvent>,
) -> bool {
    if pre.processes@.len() > 2 {
        &&& spec_frame(pre, post)
        &&& post.promises_received == pre.promises_received
        &&& post.accepted_received == pre.accepted_received
        &&& post.accepted_values_received@ == pre.accepted_values_received@
        &&& post.paxos_status is Phase1
        &&& action == Some(
            (PaxosProposerEvent::Prepare { seq_number: pre.paxos_seq_number }),
        )
    } else {
        spec_same(pre, post) && action is None
    }
}

/// In a well-formed view with ids at least 1, the id at place `i` is at
/// least `i + 1`.
proof fn lemma_ids_lower(s: Seq<(u32, Seq<char>)>, i: int)
    requires
        crate::membership::ids_increasing(s),
        forall|k: int| 0 <= k < s.len() ==> (#[trigger] s[k]).0 >= 1,
        0 <= i < s.len(),
    ensures
        s[i].0 >= i + 1,
    decreases i,
{
    if i > 0 {
        lemma_ids_lower(s, i - 1);
    }
}

/// A well-formed registry cannot hold more members than there are ids.
pub proof fn lemma_view_len_bound(r: Registry)
    requires
        r.wf(),
    ensures
        r.processes@.len() <= u32::MAX,
{
    let s = r.processes@;
    if s.len() > 0 {
        lemma_ids_lower(s, s.len() - 1);
    }
}

impl Registry {
    /// A freshly started registry.
    pub fn new() -> (r: Self)
        ensures
            spec_init(r),
            r.wf(),
    {
        Registry {
            last_registered_id: 0,
            processes: MembershipView::new(),
            paxos_seq_number: 0,
            promises_received: 0,
            accepted_received: 0,
            accepted_values_received: Vec::new(),
            paxos_status: PaxosStatus::NoConsensus,
        }
    }

    /// Files `addr` under the next id and builds the `Registered` reply
    /// that the caller must send to that endpoint.
    pub fn register_process(&mut self, addr: String) -> (r: (u32, RegistryEvent))
        requires
            old(self).wf(),
            old(self).last_registered_id < u32::MAX,
        ensures
            final(self).wf(),
            spec_register(*old(self), addr@, *final(self), r.0, r.1@),
    {
        let next_id = self.last_registered_id + 1;
        self.processes.push_entry(next_id, addr);
        self.paxos_status = PaxosStatus::NoConsensus;
        self.last_registered_id = next_id;
        let reply = RegistryEvent::Registered {
            given_id: next_id,
            registered_processes: self.processes.clone(),
        };
        (next_id, reply)
    }

    /// Dispatches an event a process sent.  `ConnectOnPort` registers the
    /// sender under `source_ip:port` and yields the endpoint to reply to
    /// with the `Registered` reply; a peer message changes nothing.
    pub fn handle_process_event(&mut self, source_ip: &str, ev: ProcessEvent) -> (r: Option<
        (String, RegistryEvent),
    >)
        requires
            old(self).wf(),
            old(self).last_registered_id < u32::MAX,
        ensures
            final(self).wf(),
            (match ev@ {
                ProcessEventV::ConnectOnPort { port } => r matches Some(p) && p.0@ == spec_endpoint(
                    source_ip@,
                    port,
                ) && spec_register(
                    *old(self),
                    spec_endpoint(source_ip@, port),
                    *final(self),
                    (old(self).last_registered_id + 1) as u32,
                    p.1@,
                ),
                ProcessEventV::Message { .. } => r is None && spec_same(*old(self), *final(self))
                    && final(self).paxos_status == old(self).paxos_status,
            }),
    {
        match ev {
            ProcessEvent::ConnectOnPort { port } => {
                let endpoint = crate::codec::endpoint_of(source_ip, port);
                let target = endpoint.clone();
                let (_, reply) = self.register_process(endpoint);
                Some((target, reply))
            },
            ProcessEvent::Message { .. } => None,
        }
    }

    /// Removes the processes whose probe failed; any eviction at all
    /// invalidates an in-flight consensus instance.
    pub fn evict_dead_processes(&mut self, dead: &Vec<u32>)
        requires
            old(self).wf(),
        ensures
            final(self).wf(),
            spec_evict(*old(self), dead@, *final(self)),
    {
        let ghost pre = self.processes@;
        self.processes.remove_ids(dead);
        if dead.len() > 0 {
            self.paxos_status = PaxosStatus::NoConsensus;
        }
        proof {
            let post = self.processes@;
            assert forall|i: int| 0 <= i < post.len() implies 1 <= (#[trigger] post[i]).0
                <= self.last_registered_id by {
                lemma_filter_member_index(pre, alive_pred(dead@), i);
            }
        }
    }

    /// Counts one acceptor answer against the current phase; see
    /// `spec_accept_step` for the whole transition.
    pub fn handle_acceptor_event(&mut self, ev: PaxosAcceptorEvent) -> (r: Option<
        PaxosProposerEvent,
    >)
        requires
            old(self).wf(),
        ensures
            final(self).wf(),
            spec_accept_step(*old(self), ev, *final(self), r),
    {
        proof {
            lemma_view_len_bound(*self);
        }
        let n = self.processes.len();
        let maj = majority(n);
        match ev {
            PaxosAcceptorEvent::Promise { seq_number, value } => {
                match self.paxos_status {
                    PaxosStatus::Phase1 => {
                        self.promises_received = self.promises_received + 1;
                        self.accepted_values_received.push(value);
                        if self.promises_received as usize >= maj {
                            let chosen = choose_accepted_value(&self.accepted_values_received);
                            let action = match chosen {
                                Some(av) => (PaxosProposerEvent::RequestAccept {
                                    seq_number,
                                    value: av,
                                }),
                                None => {
                                    let invented = gen_range_usize(100, 1000);
                                    PaxosProposerEvent::RequestAccept {
                                        seq_number: self.paxos_seq_number,
                                        value: PaxosAcceptedValue {
                                            seq_number: self.paxos_seq_number,
                                            value: invented as u32,
                                        },
                                    }
                                },
                            };
                            self.paxos_status = PaxosStatus::Phase2;
                            self.promises_received = 0;
                            self.accepted_values_received.clear();
                            Some(action)
                        } else {
                            None
                        }
                    },
                    _ => None,
                }
            },
            PaxosAcceptorEvent::Accepted { seq_number: _, value } => {
                match (self.paxos_status, value) {
                    (PaxosStatus::Phase2, Some(v)) => {
                        self.accepted_received = self.accepted_received + 1;
                        if self.accepted_received as usize >= maj {
                            self.paxos_status = PaxosStatus::ConsensusReached(v);
                            self.accepted_received = 0;
                        }
                        None
                    },
                    _ => None,
                }
            },
            PaxosAcceptorEvent::KO => None,
        }
    }

    /// Enters phase one and yields the `Prepare` to broadcast, provided
    /// strictly more than two peers are registered.
    pub fn start_consensus_instance(&mut self) -> (r: Option<PaxosProposerEvent>)
        requires
            old(self).wf(),
        ensures
            final(self).wf(),
            spec_start(*old(self), *final(self), r),
    {
        if self.processes.len() > 2 {
            self.paxos_status = PaxosStatus::Phase1;
            Some(PaxosProposerEvent::Prepare { seq_number: self.paxos_seq_number })
        } else {
            None
        }
    }

    /// One tick of the consensus driver: only from `NoConsensus` is a new
    /// instance started; a running or finished instance is left alone.
    pub fn consensus_driver_tick(&mut self) -> (r: Option<PaxosProposerEvent>)
        requires
            old(self).wf(),
        ensures
            final(self).wf(),
            old(self).paxos_status is NoConsensus ==> spec_start(*old(self), *final(self), r),
            !(old(self).paxos_status is NoConsensus) ==> spec_same(*old(self), *final(self))
                && r is None,
    {
        match self.paxos_status {
            PaxosStatus::NoConsensus => self.start_consensus_instance(),
            _ => None,
        }
    }

    /// The periodic view update to broadcast, when anyone is registered.
    pub fn broadcast_registered_processes(&self) -> (r: Option<RegistryEvent>)
        ensures
            r is Some <==> self.processes@.len() > 0,
            r matches Some(e) ==> e@ == RegistryEventV::UpdateRegisteredProcesses(self.processes@),
    {
        if self.processes.len() > 0 {
            Some(RegistryEvent::UpdateRegisteredProcesses(self.processes.clone()))
        } else {
            None
        }
    }
}

/// After `k` registrations from a fresh registry, the last id is `k`.
proof fn lemma_last_id_counts(
    states: Seq<Registry>,
    addrs: Seq<Seq<char>>,
    ids: Seq<u32>,
    replies: Seq<RegistryEventV>,
    k: int,
)
    requires
        states.len() == ids.len() + 1,
        addrs.len() == ids.len(),
        replies.len() == ids.len(),
        spec_init(states[0]),
        forall|i: int|
            0 <= i < ids.len() ==> spec_register(
                #[trigger] states[i],
                addrs[i],
                states[i + 1],
                ids[i],
                replies[i],
            ),
        0 <= k <= ids.len(),
    ensures
        states[k].last_registered_id == k,
    decreases k,
{
    if k > 0 {
        lemma_last_id_counts(states, addrs, ids, replies, k - 1);
    }
}

/// Id monotonicity: over any run of successful registrations from a fresh
/// registry, the granted ids are exactly 1, 2, 3, ... — strictly
/// increasing from 1.
pub proof fn lemma_id_monotonicity(
    states: Seq<Registry>,
    addrs: Seq<Seq<char>>,
    ids: Seq<u32>,
    replies: Seq<RegistryEventV>,
)
    requires
        states.len() == ids.len() + 1,
        addrs.len() == ids.len(),
        replies.len() == ids.len(),
        spec_init(states[0]),
        forall|i: int|
            0 <= i < ids.len() ==> spec_register(
                #[trigger] states[i],
                addrs[i],
                states[i + 1],
                ids[i],
                replies[i],
            ),
    ensures
        forall|i: int| 0 <= i < ids.len() ==> ids[i] == i + 1,
        forall|i: int, j: int| 0 <= i < j < ids.len() ==> ids[i] < ids[j],
        ids.len() > 0 ==> ids[0] == 1,
{
    assert forall|i: int| 0 <= i < ids.len() implies ids[i] == i + 1 by {
        lemma_last_id_counts(states, addrs, ids, replies, i);
    }
}

/// Membership invalidates consensus: a registration while the proposer
/// stands in phase one or two leaves the status at `NoConsensus`.
pub proof fn lemma_register_invalidates_consensus(
    pre: Registry,
    addr: Seq<char>,
    post: Registry,
    id: u32,
    reply: RegistryEventV,
)
    requires
        spec_register(pre, addr, post, id, reply),
        pre.paxos_status is Phase1 || pre.paxos_status is Phase2,
    ensures
        post.paxos_status is NoConsensus,
{
}

/// Membership invalidates consensus: an eviction of at least one process
/// while the proposer stands in phase one or two leaves the status at
/// `NoConsensus`.
pub proof fn lemma_eviction_invalidates_consensus(pre: Registry, dead: Seq<u32>, post: Registry)
    requires
        spec_evict(pre, dead, post),
        dead.len() > 0,
        pre.paxos_status is Phase1 || pre.paxos_status is Phase2,
    ensures
        post.paxos_status is NoConsensus,
{
}

/// Majority safety: the only step that reaches `ConsensusReached(v)` is
/// an `Accepted` carrying `v`, taken in phase two at the moment the
/// count of `Accepted` answers reaches a majority of the current view.
pub proof fn lemma_majority_safety(
    pre: Registry,
    ev: PaxosAcceptorEvent,
    post: Registry,
    action: Option<PaxosProposerEvent>,
    v: PaxosAcceptedValue,
)
    requires
        spec_accept_step(pre, ev, post, action),
        post.paxos_status == PaxosStatus::ConsensusReached(v),
        pre.paxos_status != post.paxos_status,
    ensures
        pre.paxos_status is Phase2,
        ev matches PaxosAcceptorEvent::Accepted { value, .. } && value == Some(v),
        pre.accepted_received + 1 >= spec_majority(pre.processes@.len()),
{
}

/// Scans the carried-back values for the one to propose again, as
/// `spec_choose_value` describes.
fn choose_accepted_value(avs: &Vec<Option<PaxosAcceptedValue>>) -> (r: Option<PaxosAcceptedValue>)
    ensures
        r == spec_choose_value(avs@),
{
    let n = avs.len();
    let mut best: Option<PaxosAcceptedValue> = None;
    let mut i: usize = 0;
    while i < n
        invariant
            0 <= i <= n,
            n == avs@.len(),
            best == spec_choose_value(avs@.subrange(0, i as int)),
        decreases n - i,
    {
        let ghost prefix2 = avs@.subrange(0, i + 1);
        proof {
            assert(prefix2.drop_last() =~= avs@.subrange(0, i as int));
            assert(prefix2.last() == avs@[i as int]);
        }
        match (best, avs[i]) {
            (None, x) => {
                best = x;
            },
            (Some(b), Some(x)) => {
                if x.seq_number >= b.seq_number {
                    best = Some(x);
                }
            },
            (Some(..), None) => {},
        }
        i = i + 1;
    }
    proof {
        assert(avs@.subrange(0, n as int) =~= avs@);
    }
    best
}

} // verus!
