//! The process: membership client, Paxos acceptor, peer messaging.
//!
//! A process registers with the registry, caches the membership view the
//! registry sends, answers the proposer as a Paxos acceptor, and messages
//! its peers.  As in the registry, each handler is a pure state
//! transition that hands back what the caller must put on the wire.
use vstd::prelude::*;

use crate::events::{
    PaxosAcceptedValue, PaxosAcceptorEvent, PaxosProposerEvent, ProcessEvent, ProcessEventV,
    RegistryEvent, RegistryEventV,
};
use crate::membership::{alive_pred, MembershipView};
use crate::rng::gen_range_usize;

verus! {

/// The process's whole state.
pub struct Process {
    pub id: u32,
    pub port: u32,
    pub registry_address: String,
    pub registered_processes: MembershipView,
    pub paxos_sn: u32,
    pub paxos_av: Option<PaxosAcceptedValue>,
}

impl Process {
    pub open spec fn wf(&self) -> bool {
        self.registered_processes.wf()
    }
}

/// A freshly started process: no id yet, empty cached view, acceptor
/// state at its initial values.
pub open spec fn spec_process_init(p: Process, port: u32, registry_address: Seq<char>) -> bool {
    &&& p.id == 0
    &&& p.port == port
    &&& p.registry_address@ == registry_address
    &&& p.registered_processes@ == Seq::<(u32, Seq<char>)>::empty()
    &&& p.paxos_sn == 0
    &&& p.paxos_av is None
}

/// The fields no registry event may touch.
pub open spec fn spec_peer_frame(pre: Process, post: Process) -> bool {
    &&& post.port == pre.port
    &&& post.registry_address@ == pre.registry_address@
    &&& post.paxos_sn == pre.paxos_sn
    &&& post.paxos_av == pre.paxos_av
}

/// How a registry event moves the process: `Registered` grants the id and
/// replaces the cached view; an update replaces the cached view alone.
pub open spec fn spec_registry_step(pre: Process, ev: RegistryEventV, post: Process) -> bool {
    match ev {
        RegistryEventV::Registered { given_id, registered_processes } => {
            &&& spec_peer_frame(pre, post)
            &&& post.id == given_id
            &&& post.registered_processes@ == registered_processes
        },
        RegistryEventV::UpdateRegisteredProcesses(es) => {
            &&& spec_peer_frame(pre, post)
            &&& post.id == pre.id
            &&& post.registered_processes@ == es
        },
    }
}

/// The fields no proposer event may touch.
pub open spec fn spec_acceptor_frame(pre: Process, post: Process) -> bool {
    &&& post.id == pre.id
    &&& post.port == pre.port
    &&& post.registry_address@ == pre.registry_address@
    &&& post.registered_processes@ == pre.registered_processes@
}

/// How a proposer event moves the acceptor.  A `Prepare` at or above the
/// promised number raises it and is answered with a `Promise` carrying
/// the last accepted value; a `RequestAccept` at or above the promised
/// number replaces the accepted value and is answered with `Accepted`;
/// anything below the promised number is answered with `KO` and changes
/// nothing.
pub open spec fn spec_acceptor_step(
    pre: Process,
    ev: PaxosProposerEvent,
    post: Process,
    reply: PaxosAcceptorEvent,
) -> bool {
    match ev {
        PaxosProposerEvent::Prepare { seq_number } => {
            if seq_number >= pre.paxos_sn {
                &&& spec_acceptor_frame(pre, post)
                &&& post.paxos_sn == seq_number
                &&& post.paxos_av == pre.paxos_av
                &&& reply == (PaxosAcceptorEvent::Promise { seq_number, value: pre.paxos_av })
            } else {
                &&& spec_acceptor_frame(pre, post)
                &&& post.paxos_sn == pre.paxos_sn
                &&& post.paxos_av == pre.paxos_av
                &&& reply == PaxosAcceptorEvent::KO
            }
        },
        PaxosProposerEvent::RequestAccept { seq_number, value } => {
            if seq_number >= pre.paxos_sn {
                &&& spec_acceptor_frame(pre, post)
                &&& post.paxos_sn == pre.paxos_sn
                &&& post.paxos_av == Some(value)
                &&& reply == (PaxosAcceptorEvent::Accepted { seq_number, value: Some(value) })
            } else {
                &&& spec_acceptor_frame(pre, post)
                &&& post.paxos_sn == pre.paxos_sn
                &&& post.paxos_av == pre.paxos_av
                &&& reply == PaxosAcceptorEvent::KO
            }
        },
    }
}

impl Process {
    /// A freshly started process that will listen on `port` and report to
    /// the registry at `registry_address`.
    pub fn new(port: u32, registry_address: String) -> (r: Self)
        ensures
            spec_process_init(r, port, registry_address@),
            r.wf(),
    {
        Process {
            id: 0,
            port,
            registry_address,
            registered_processes: MembershipView::new(),
            paxos_sn: 0,
            paxos_av: None,
        }
    }

    /// The registration request to send to the registry at startup; a
    /// caller that cannot deliver it must give up and exit.
    pub fn connect_to_registry(&self) -> (ev: ProcessEvent)
        ensures
            ev@ == (ProcessEventV::ConnectOnPort { port: self.port }),
    {
        ProcessEvent::ConnectOnPort { port: self.port }
    }

    /// Takes over the id grant or the view update the registry sent.
    pub fn handle_registry_event(&mut self, ev: RegistryEvent)
        requires
            ev@.wf(),
        ensures
            final(self).wf(),
            spec_registry_step(*old(self), ev@, *final(self)),
    {
        match ev {
            RegistryEvent::Registered { given_id, registered_processes } => {
                self.registered_processes = registered_processes;
                self.id = given_id;
            },
            RegistryEvent::UpdateRegisteredProcesses(registered_processes) => {
                self.registered_processes = registered_processes;
            },
        }
    }

    /// Unpacks a peer message for the caller to log; registration
    /// requests are not for a process and are dropped.
    pub fn handle_process_event(&self, ev: ProcessEvent) -> (r: Option<(u32, String)>)
        ensures
            (match ev@ {
                ProcessEventV::Message { from, msg } => r matches Some(p) && p.0 == from && p.1@
                    == msg,
                ProcessEventV::ConnectOnPort { .. } => r is None,
            }),
    {
        match ev {
            ProcessEvent::Message { from, msg } => Some((from, msg)),
            ProcessEvent::ConnectOnPort { .. } => None,
        }
    }

    /// Answers the proposer as an acceptor; see `spec_acceptor_step`.
    /// The promised number never goes down.  The caller sends the reply
    /// to the proposer's address.
    pub fn handle_proposer_event(&mut self, ev: PaxosProposerEvent) -> (reply: PaxosAcceptorEvent)
        ensures
            final(self).wf() == old(self).wf(),
            spec_acceptor_step(*old(self), ev, *final(self), reply),
            final(self).paxos_sn >= old(self).paxos_sn,
    {
        match ev {
            PaxosProposerEvent::Prepare { seq_number } => {
                if seq_number >= self.paxos_sn {
                    self.paxos_sn = seq_number;
                    PaxosAcceptorEvent::Promise { seq_number, value: self.paxos_av }
                } else {
                    PaxosAcceptorEvent::KO
                }
            },
            PaxosProposerEvent::RequestAccept { seq_number, value } => {
                if seq_number >= self.paxos_sn {
                    self.paxos_av = Some(value);
                    PaxosAcceptorEvent::Accepted { seq_number, value: Some(value) }
                } else {
                    PaxosAcceptorEvent::KO
                }
            },
        }
    }

    /// The endpoint filed under `id` in the given view, if any.
    pub fn get_process_addr(id: u32, processes: &MembershipView) -> (r: Option<String>)
        ensures
            r is Some <==> processes.spec_contains_id(id),
            r matches Some(a) ==> processes.spec_get(id) == Some(a@),
    {
        processes.get(id)
    }

    /// Picks one peer other than this process, uniformly among them, and
    /// builds the message to send it; nothing to do with fewer than two
    /// cached entries.
    pub fn send_to_random_process(&self) -> (r: Option<(String, ProcessEvent)>)
        requires
            self.wf(),
        ensures
            r is Some <==> self.registered_processes@.len() > 1,
            r matches Some(p) ==> (exists|i: int|
                0 <= i < self.registered_processes@.len()
                    && (#[trigger] self.registered_processes@[i]).0 != self.id
                    && self.registered_processes@[i].1 == p.0@) && p.1@ == (ProcessEventV::Message {
                from: self.id,
                msg: "P2P message"@,
            }),
    {
        let view = &self.registered_processes;
        let n = view.len();
        if n <= 1 {
            return None;
        }
        let mut candidates: Vec<usize> = Vec::new();
        let mut i: usize = 0;
        while i < n
            invariant
                0 <= i <= n,
                n == view@.len(),
                view == &self.registered_processes,
                self.wf(),
                forall|k: int|
                    0 <= k < candidates@.len() ==> (#[trigger] candidates@[k]) < i && view@[
                        candidates@[k] as int
                    ].0 != self.id,
                (exists|j: int| 0 <= j < i && (#[trigger] view@[j]).0 == self.id)
                    ==> candidates@.len() == i - 1,
                (forall|j: int| 0 <= j < i ==> (#[trigger] view@[j]).0 != self.id)
                    ==> candidates@.len() == i,
            decreases n - i,
        {
            if view.id_at(i) != self.id {
                candidates.push(i);
            } else {
                proof {
                    // ids are unique, so this is the first and only match
                    assert forall|j: int| 0 <= j < i implies (#[trigger] view@[j]).0 != self.id by {
                        assert(view@[j].0 < view@[i as int].0);
                    }
                }
            }
            i = i + 1;
        }
        let idx = gen_range_usize(0, candidates.len());
        let at = candidates[idx];
        let addr = view.addr_at(at).clone();
        let msg = ProcessEvent::Message { from: self.id, msg: "P2P message".to_owned() };
        Some((addr, msg))
    }

    /// The peers to broadcast to — every cached entry but this process —
    /// and the message for them; nothing to do with fewer than two
    /// cached entries.
    pub fn broadcast_to_processes(&self, processes: &MembershipView) -> (r: Option<
        (MembershipView, ProcessEvent),
    >)
        requires
            processes.wf(),
        ensures
            r is Some <==> processes@.len() > 1,
            r matches Some(p) ==> p.0@ == processes@.filter(alive_pred(seq![self.id])) && p.0.wf()
                && p.1@ == (ProcessEventV::Message { from: self.id, msg: "Broadcast message"@ }),
    {
        if processes.len() > 1 {
            let others = processes.others(self.id);
            let msg = ProcessEvent::Message { from: self.id, msg: "Broadcast message".to_owned() };
            Some((others, msg))
        } else {
            None
        }
    }
}

/// Over one step, the promised number does not go down.
proof fn lemma_acceptor_step_monotonic(
    pre: Process,
    ev: PaxosProposerEvent,
    post: Process,
    reply: PaxosAcceptorEvent,
)
    requires
        spec_acceptor_step(pre, ev, post, reply),
    ensures
        post.paxos_sn >= pre.paxos_sn,
{
}

/// Acceptor monotonicity: over any run of proposer events, the promised
/// number never goes down.
pub proof fn lemma_acceptor_monotonic(
    states: Seq<Process>,
    events: Seq<PaxosProposerEvent>,
    replies: Seq<PaxosAcceptorEvent>,
)
    requires
        states.len() == events.len() + 1,
        replies.len() == events.len(),
        forall|i: int|
            0 <= i < events.len() ==> spec_acceptor_step(
                #[trigger] states[i],
                events[i],
                states[i + 1],
                replies[i],
            ),
    ensures
        forall|i: int, j: int| 0 <= i <= j < states.len() ==> states[i].paxos_sn
            <= states[j].paxos_sn,
{
    assert forall|i: int, j: int| 0 <= i <= j < states.len() implies states[i].paxos_sn
        <= states[j].paxos_sn by {
        lemma_sn_reaches(states, events, replies, i, j);
    }
}

proof fn lemma_sn_reaches(
    states: Seq<Process>,
    events: Seq<PaxosProposerEvent>,
    replies: Seq<PaxosAcceptorEvent>,
    i: int,
    j: int,
)
    requires
        states.len() == events.len() + 1,
        replies.len() == events.len(),
        forall|k: int|
            0 <= k < events.len() ==> spec_acceptor_step(
                #[trigger] states[k],
                events[k],
                states[k + 1],
                replies[k],
            ),
        0 <= i <= j < states.len(),
    ensures
        states[i].paxos_sn <= states[j].paxos_sn,
    decreases j - i,
{
    if i < j {
        lemma_sn_reaches(states, events, replies, i, j - 1);
        lemma_acceptor_step_monotonic(states[j - 1], events[j - 1], states[j], replies[j - 1]);
    }
}

/// View convergence: when a process receives and handles the update the
/// registry broadcasts — the update carrying the registry's view,
/// encoded for the wire and decoded again — its cached view equals the
/// registry's view.
pub proof fn lemma_view_convergence(reg: crate::registry::Registry, pre: Process, post: Process)
    requires
        reg.wf(),
        crate::events::view_encodable(reg.processes@),
        (match crate::events::spec_dec_registry(
            crate::events::spec_enc_registry(
                RegistryEventV::UpdateRegisteredProcesses(reg.processes@),
            ),
        ) {
            Some(ev) => spec_registry_step(pre, ev, post),
            None => false,
        }),
    ensures
        post.registered_processes@ == reg.processes@,
{
    crate::events::lemma_registry_round_trip(
        RegistryEventV::UpdateRegisteredProcesses(reg.processes@),
    );
}

} // verus!
