//! The wire events and their codec.
//!
//! Every message on the wire is one event from one of four families.  An
//! event is encoded as a single self-describing tag byte followed by its
//! fields, using the primitives of `codec`; decoding is strict, and bytes
//! that fit no event decode to nothing and are dropped by the caller.
use vstd::prelude::*;

use crate::codec::{
    dec_enc, parse_num, parse_str_field, push_num, push_str_field, sp_num, sp_str, str_enc,
    NUM_WIDTH,
};
use crate::membership::{ids_increasing, view_of, MembershipView};

verus! {

use vstd::utf8::encode_utf8;

pub const TAG_CONNECT: u8 = 67;

pub const TAG_MESSAGE: u8 = 77;

pub const TAG_REGISTERED: u8 = 82;

pub const TAG_UPDATE: u8 = 85;

pub const TAG_PREPARE: u8 = 80;

pub const TAG_REQUEST_ACCEPT: u8 = 65;

pub const TAG_PROMISE: u8 = 112;

pub const TAG_ACCEPTED: u8 = 97;

pub const TAG_KO: u8 = 75;

/// A `(sequence number, value)` pair that an acceptor has accepted.
#[derive(Clone, Copy, PartialEq, Eq, Structural, Debug)]
pub struct PaxosAcceptedValue {
    pub seq_number: u32,
    pub value: u32,
}

/// What a process sends: its registration, or a peer-to-peer message.
pub enum ProcessEvent {
    ConnectOnPort { port: u32 },
    Message { from: u32, msg: String },
}

/// What the registry sends: an id grant, or a fresh membership view.
pub enum RegistryEvent {
    Registered { given_id: u32, registered_processes: MembershipView },
    UpdateRegisteredProcesses(MembershipView),
}

/// What the proposer sends to the acceptors.
#[derive(Clone, Copy, PartialEq, Eq, Debug)]
pub enum PaxosProposerEvent {
    Prepare { seq_number: u32 },
    RequestAccept { seq_number: u32, value: PaxosAcceptedValue },
}

/// What an acceptor sends back to the proposer.
#[derive(Clone, Copy, PartialEq, Eq, Debug)]
pub enum PaxosAcceptorEvent {
    Promise { seq_number: u32, value: Option<PaxosAcceptedValue> },
    Accepted { seq_number: u32, value: Option<PaxosAcceptedValue> },
    KO,
}

/// Any event of the four families.
pub enum Event {
    ProcessEvent(ProcessEvent),
    RegistryEvent(RegistryEvent),
    PaxosAcceptorEvent(PaxosAcceptorEvent),
    PaxosProposerEvent(PaxosProposerEvent),
}

/// The mathematical value of a `ProcessEvent`.
#[verifier::ext_equal]
pub enum ProcessEventV {
    ConnectOnPort { port: u32 },
    Message { from: u32, msg: Seq<char> },
}

/// The mathematical value of a `RegistryEvent`.
#[verifier::ext_equal]
pub enum RegistryEventV {
    Registered { given_id: u32, registered_processes: Seq<(u32, Seq<char>)> },
    UpdateRegisteredProcesses(Seq<(u32, Seq<char>)>),
}

/// The mathematical value of an `Event`.
#[verifier::ext_equal]
pub enum EventV {
    ProcessEvent(ProcessEventV),
    RegistryEvent(RegistryEventV),
    PaxosAcceptorEvent(PaxosAcceptorEvent),
    PaxosProposerEvent(PaxosProposerEvent),
}

impl View for ProcessEvent {
    type V = ProcessEventV;

    open spec fn view(&self) -> ProcessEventV {
        match self {
            ProcessEvent::ConnectOnPort { port } => (ProcessEventV::ConnectOnPort { port: *port }),
            ProcessEvent::Message { from, msg } => (ProcessEventV::Message {
                from: *from,
                msg: msg@,
            }),
        }
    }
}

impl View for RegistryEvent {
    type V = RegistryEventV;

    open spec fn view(&self) -> RegistryEventV {
        match self {
            RegistryEvent::Registered { given_id, registered_processes } => (
            RegistryEventV::Registered {
                given_id: *given_id,
                registered_processes: registered_processes@,
            }),
            RegistryEvent::UpdateRegisteredProcesses(v) => RegistryEventV::UpdateRegisteredProcesses(
                v@,
            ),
        }
    }
}

impl View for Event {
    type V = EventV;

    open spec fn view(&self) -> EventV {
        match self {
            Event::ProcessEvent(e) => EventV::ProcessEvent(e@),
            Event::RegistryEvent(e) => EventV::RegistryEvent(e@),
            Event::PaxosAcceptorEvent(e) => EventV::PaxosAcceptorEvent(*e),
            Event::PaxosProposerEvent(e) => EventV::PaxosProposerEvent(*e),
        }
    }
}

// ---------------------------------------------------------------------------
// Encodings, as sequences of bytes.
// ---------------------------------------------------------------------------
/// One membership entry on the wire: the id, then the endpoint text.
pub open spec fn spec_enc_entry(e: (u32, Seq<char>)) -> Seq<u8> {
    dec_enc(e.0 as nat, NUM_WIDTH as nat) + str_enc(e.1)
}

/// All entries, in view order.
pub open spec fn spec_enc_entries(es: Seq<(u32, Seq<char>)>) -> Seq<u8>
    decreases es.len(),
{
    if es.len() == 0 {
        Seq::empty()
    } else {
        spec_enc_entries(es.drop_last()) + spec_enc_entry(es.last())
    }
}

/// A whole membership view on the wire: the entry count, then the entries.
pub open spec fn spec_enc_view(es: Seq<(u32, Seq<char>)>) -> Seq<u8> {
    dec_enc(es.len(), NUM_WIDTH as nat) + spec_enc_entries(es)
}

pub open spec fn spec_enc_process(e: ProcessEventV) -> Seq<u8> {
    match e {
        ProcessEventV::ConnectOnPort { port } => seq![TAG_CONNECT] + dec_enc(
            port as nat,
            NUM_WIDTH as nat,
        ),
        ProcessEventV::Message { from, msg } => seq![TAG_MESSAGE] + dec_enc(
            from as nat,
            NUM_WIDTH as nat,
        ) + str_enc(msg),
    }
}

pub open spec fn spec_enc_registry(e: RegistryEventV) -> Seq<u8> {
    match e {
        RegistryEventV::Registered { given_id, registered_processes } => seq![TAG_REGISTERED]
            + dec_enc(given_id as nat, NUM_WIDTH as nat) + spec_enc_view(registered_processes),
        RegistryEventV::UpdateRegisteredProcesses(es) => seq![TAG_UPDATE] + spec_enc_view(es),
    }
}

pub open spec fn spec_enc_av(av: PaxosAcceptedValue) -> Seq<u8> {
    dec_enc(av.seq_number as nat, NUM_WIDTH as nat) + dec_enc(av.value as nat, NUM_WIDTH as nat)
}

pub open spec fn spec_enc_opt_av(v: Option<PaxosAcceptedValue>) -> Seq<u8> {
    match v {
        Some(av) => seq![49u8] + spec_enc_av(av),
        None => seq![48u8],
    }
}

pub open spec fn spec_enc_proposer(e: PaxosProposerEvent) -> Seq<u8> {
    match e {
        PaxosProposerEvent::Prepare { seq_number } => seq![TAG_PREPARE] + dec_enc(
            seq_number as nat,
            NUM_WIDTH as nat,
        ),
        PaxosProposerEvent::RequestAccept { seq_number, value } => seq![TAG_REQUEST_ACCEPT]
            + dec_enc(seq_number as nat, NUM_WIDTH as nat) + spec_enc_av(value),
    }
}

pub open spec fn spec_enc_acceptor(e: PaxosAcceptorEvent) -> Seq<u8> {
    match e {
        PaxosAcceptorEvent::Promise { seq_number, value } => seq![TAG_PROMISE] + dec_enc(
            seq_number as nat,
            NUM_WIDTH as nat,
        ) + spec_enc_opt_av(value),
        PaxosAcceptorEvent::Accepted { seq_number, value } => seq![TAG_ACCEPTED] + dec_enc(
            seq_number as nat,
            NUM_WIDTH as nat,
        ) + spec_enc_opt_av(value),
        PaxosAcceptorEvent::KO => seq![TAG_KO],
    }
}

pub open spec fn spec_enc_event(e: EventV) -> Seq<u8> {
    match e {
        EventV::ProcessEvent(p) => spec_enc_process(p),
        EventV::RegistryEvent(r) => spec_enc_registry(r),
        EventV::PaxosAcceptorEvent(a) => spec_enc_acceptor(a),
        EventV::PaxosProposerEvent(p) => spec_enc_proposer(p),
    }
}

// ---------------------------------------------------------------------------
// Decoding, as a strict function of the whole byte sequence.
// ---------------------------------------------------------------------------
/// Parses `k` membership entries starting at `i`.
pub open spec fn sp_entries(s: Seq<u8>, i: int, k: nat) -> Option<(Seq<(u32, Seq<char>)>, int)>
    decreases k,
{
    if k == 0 {
        Some((Seq::empty(), i))
    } else {
        match sp_num(s, i) {
            Some((id, j)) => match sp_str(s, j) {
                Some((a, j2)) => match sp_entries(s, j2, (k - 1) as nat) {
                    Some((es, j3)) => Some((seq![(id, a)] + es, j3)),
                    None => None,
                },
                None => None,
            },
            None => None,
        }
    }
}

/// Parses a membership view at `i`: entry count, entries, strictly
/// increasing ids.
pub open spec fn sp_view(s: Seq<u8>, i: int) -> Option<(Seq<(u32, Seq<char>)>, int)> {
    match sp_num(s, i) {
        Some((k, j)) => match sp_entries(s, j, k as nat) {
            Some((es, j2)) => if ids_increasing(es) {
                Some((es, j2))
            } else {
                None
            },
            None => None,
        },
        None => None,
    }
}

pub open spec fn spec_dec_process(s: Seq<u8>) -> Option<ProcessEventV> {
    if s.len() == 0 {
        None
    } else if s[0] == TAG_CONNECT {
        match sp_num(s, 1) {
            Some((port, j)) => if j == s.len() {
                Some(ProcessEventV::ConnectOnPort { port })
            } else {
                None
            },
            None => None,
        }
    } else if s[0] == TAG_MESSAGE {
        match sp_num(s, 1) {
            Some((from, j)) => match sp_str(s, j) {
                Some((msg, j2)) => if j2 == s.len() {
                    Some(ProcessEventV::Message { from, msg })
                } else {
                    None
                },
                None => None,
            },
            None => None,
        }
    } else {
        None
    }
}

pub open spec fn spec_dec_registry(s: Seq<u8>) -> Option<RegistryEventV> {
    if s.len() == 0 {
        None
    } else if s[0] == TAG_REGISTERED {
        match sp_num(s, 1) {
            Some((given_id, j)) => match sp_view(s, j) {
                Some((es, j2)) => if j2 == s.len() {
                    Some(
                        (RegistryEventV::Registered { given_id, registered_processes: es }),
                    )
                } else {
                    None
                },
                None => None,
            },
            None => None,
        }
    } else if s[0] == TAG_UPDATE {
        match sp_view(s, 1) {
            Some((es, j)) => if j == s.len() {
                Some(RegistryEventV::UpdateRegisteredProcesses(es))
            } else {
                None
            },
            None => None,
        }
    } else {
        None
    }
}

/// Parses an optional accepted value at `i`: a presence byte, then the pair.
pub open spec fn sp_opt_av(s: Seq<u8>, i: int) -> Option<(Option<PaxosAcceptedValue>, int)> {
    if 0 <= i < s.len() && s[i] == 48 {
        Some((None, i + 1))
    } else if 0 <= i < s.len() && s[i] == 49 {
        match sp_num(s, i + 1) {
            Some((sn, j)) => match sp_num(s, j) {
                Some((v, j2)) => Some(
                    (Some(PaxosAcceptedValue { seq_number: sn, value: v }), j2),
                ),
                None => None,
            },
            None => None,
        }
    } else {
        None
    }
}

pub open spec fn spec_dec_proposer(s: Seq<u8>) -> Option<PaxosProposerEvent> {
    if s.len() == 0 {
        None
    } else if s[0] == TAG_PREPARE {
        match sp_num(s, 1) {
            Some((sn, j)) => if j == s.len() {
                Some(PaxosProposerEvent::Prepare { seq_number: sn })
            } else {
                None
            },
            None => None,
        }
    } else if s[0] == TAG_REQUEST_ACCEPT {
        match sp_num(s, 1) {
            Some((sn, j)) => match sp_num(s, j) {
                Some((avsn, j2)) => match sp_num(s, j2) {
                    Some((avv, j3)) => if j3 == s.len() {
                        Some(
                            (PaxosProposerEvent::RequestAccept {
                                seq_number: sn,
                                value: PaxosAcceptedValue { seq_number: avsn, value: avv },
                            }),
                        )
                    } else {
                        None
                    },
                    None => None,
                },
                None => None,
            },
            None => None,
        }
    } else {
        None
    }
}

pub open spec fn spec_dec_acceptor(s: Seq<u8>) -> Option<PaxosAcceptorEvent> {
    if s.len() == 0 {
        None
    } else if s[0] == TAG_PROMISE {
        match sp_num(s, 1) {
            Some((sn, j)) => match sp_opt_av(s, j) {
                Some((v, j2)) => if j2 == s.len() {
                    Some(PaxosAcceptorEvent::Promise { seq_number: sn, value: v })
                } else {
                    None
                },
                None => None,
            },
            None => None,
        }
    } else if s[0] == TAG_ACCEPTED {
        match sp_num(s, 1) {
            Some((sn, j)) => match sp_opt_av(s, j) {
                Some((v, j2)) => if j2 == s.len() {
                    Some(PaxosAcceptorEvent::Accepted { seq_number: sn, value: v })
                } else {
                    None
                },
                None => None,
            },
            None => None,
        }
    } else if s[0] == TAG_KO {
        if s.len() == 1 {
            Some(PaxosAcceptorEvent::KO)
        } else {
            None
        }
    } else {
        None
    }
}

/// Decoding an arbitrary buffer: each family is tried in turn, and the
/// first that accepts the bytes wins.
pub open spec fn spec_dec_event(s: Seq<u8>) -> Option<EventV> {
    match spec_dec_process(s) {
        Some(e) => Some(EventV::ProcessEvent(e)),
        None => match spec_dec_registry(s) {
            Some(e) => Some(EventV::RegistryEvent(e)),
            None => match spec_dec_acceptor(s) {
                Some(e) => Some(EventV::PaxosAcceptorEvent(e)),
                None => match spec_dec_proposer(s) {
                    Some(e) => Some(EventV::PaxosProposerEvent(e)),
                    None => None,
                },
            },
        },
    }
}

// ---------------------------------------------------------------------------
// Size limits forced by the ten-digit wire numbers.
// ---------------------------------------------------------------------------
/// An endpoint entry whose text fits behind a ten-digit length.
pub open spec fn entry_encodable(e: (u32, Seq<char>)) -> bool {
    encode_utf8(e.1).len() <= u32::MAX
}

/// A view whose count and entries fit the wire format.
pub open spec fn view_encodable(es: Seq<(u32, Seq<char>)>) -> bool {
    es.len() <= u32::MAX && forall|i: int| 0 <= i < es.len() ==> entry_encodable(#[trigger] es[i])
}

impl ProcessEventV {
    pub open spec fn encodable(self) -> bool {
        match self {
            ProcessEventV::ConnectOnPort { .. } => true,
            ProcessEventV::Message { msg, .. } => encode_utf8(msg).len() <= u32::MAX,
        }
    }
}

impl RegistryEventV {
    pub open spec fn encodable(self) -> bool {
        match self {
            RegistryEventV::Registered { registered_processes, .. } => view_encodable(
                registered_processes,
            ),
            RegistryEventV::UpdateRegisteredProcesses(es) => view_encodable(es),
        }
    }

    /// Both variants carry a view with strictly increasing ids.
    pub open spec fn wf(self) -> bool {
        match self {
            RegistryEventV::Registered { registered_processes, .. } => ids_increasing(
                registered_processes,
            ),
            RegistryEventV::UpdateRegisteredProcesses(es) => ids_increasing(es),
        }
    }
}

impl EventV {
    pub open spec fn encodable(self) -> bool {
        match self {
            EventV::ProcessEvent(p) => p.encodable(),
            EventV::RegistryEvent(r) => r.encodable() && r.wf(),
            EventV::PaxosAcceptorEvent(..) => true,
            EventV::PaxosProposerEvent(..) => true,
        }
    }
}

// ---------------------------------------------------------------------------
// Executable encoding.
// ---------------------------------------------------------------------------
/// Appends a whole membership view to `out`.
fn push_view(out: &mut Vec<u8>, v: &MembershipView)
    requires
        view_encodable(v@),
    ensures
        final(out)@ == old(out)@ + spec_enc_view(v@),
{
    let n = v.len();
    push_num(out, n as u32);
    let mut i: usize = 0;
    while i < n
        invariant
            0 <= i <= n,
            n == v@.len(),
            n <= u32::MAX,
            view_encodable(v@),
            out@ == old(out)@ + dec_enc(v@.len(), NUM_WIDTH as nat) + spec_enc_entries(
                v@.subrange(0, i as int),
            ),
        decreases n - i,
    {
        let ghost pre = out@;
        push_num(out, v.id_at(i));
        push_str_field(out, v.addr_at(i).as_str());
        proof {
            let sub2 = v@.subrange(0, i + 1);
            assert(sub2.drop_last() =~= v@.subrange(0, i as int));
            assert(sub2.last() == v@[i as int]);
            assert(out@ =~= old(out)@ + dec_enc(v@.len(), NUM_WIDTH as nat) + spec_enc_entries(
                sub2,
            ));
        }
        i = i + 1;
    }
    proof {
        assert(v@.subrange(0, n as int) =~= v@);
    }
}

impl ProcessEvent {
    /// Encodes the event for the wire.
    pub fn as_bytes_vec(self) -> (r: Vec<u8>)
        requires
            self@.encodable(),
        ensures
            r@ == spec_enc_process(self@),
    {
        let ghost sv = self@;
        let mut out: Vec<u8> = Vec::new();
        match self {
            ProcessEvent::ConnectOnPort { port } => {
                out.push(TAG_CONNECT);
                push_num(&mut out, port);
            },
            ProcessEvent::Message { from, msg } => {
                out.push(TAG_MESSAGE);
                push_num(&mut out, from);
                push_str_field(&mut out, msg.as_str());
            },
        }
        proof {
            assert(out@ =~= spec_enc_process(sv));
        }
        out
    }
}

impl RegistryEvent {
    /// Encodes the event for the wire.
    pub fn as_bytes_vec(self) -> (r: Vec<u8>)
        requires
            self@.encodable(),
        ensures
            r@ == spec_enc_registry(self@),
    {
        let ghost sv = self@;
        let mut out: Vec<u8> = Vec::new();
        match self {
            RegistryEvent::Registered { given_id, registered_processes } => {
                out.push(TAG_REGISTERED);
                push_num(&mut out, given_id);
                push_view(&mut out, &registered_processes);
            },
            RegistryEvent::UpdateRegisteredProcesses(v) => {
                out.push(TAG_UPDATE);
                push_view(&mut out, &v);
            },
        }
        proof {
            assert(out@ =~= spec_enc_registry(sv));
        }
        out
    }
}

impl PaxosProposerEvent {
    /// Encodes the event for the wire.
    pub fn as_bytes_vec(self) -> (r: Vec<u8>)
        ensures
            r@ == spec_enc_proposer(self),
    {
        let mut out: Vec<u8> = Vec::new();
        match self {
            PaxosProposerEvent::Prepare { seq_number } => {
                out.push(TAG_PREPARE);
                push_num(&mut out, seq_number);
            },
            PaxosProposerEvent::RequestAccept { seq_number, value } => {
                out.push(TAG_REQUEST_ACCEPT);
                push_num(&mut out, seq_number);
                push_num(&mut out, value.seq_number);
                push_num(&mut out, value.value);
            },
        }
        proof {
            assert(out@ =~= spec_enc_proposer(self));
        }
        out
    }
}

impl PaxosAcceptorEvent {
    /// Encodes the event for the wire.
    pub fn as_bytes_vec(self) -> (r: Vec<u8>)
        ensures
            r@ == spec_enc_acceptor(self),
    {
        let mut out: Vec<u8> = Vec::new();
        match self {
            PaxosAcceptorEvent::Promise { seq_number, value } => {
                out.push(TAG_PROMISE);
                push_num(&mut out, seq_number);
                push_opt_av(&mut out, value);
            },
            PaxosAcceptorEvent::Accepted { seq_number, value } => {
                out.push(TAG_ACCEPTED);
                push_num(&mut out, seq_number);
                push_opt_av(&mut out, value);
            },
            PaxosAcceptorEvent::KO => {
                out.push(TAG_KO);
            },
        }
        proof {
            assert(out@ =~= spec_enc_acceptor(self));
        }
        out
    }
}

/// Appends an optional accepted value to `out`.
fn push_opt_av(out: &mut Vec<u8>, v: Option<PaxosAcceptedValue>)
    ensures
        final(out)@ == old(out)@ + spec_enc_opt_av(v),
{
    match v {
        Some(av) => {
            out.push(49);
            push_num(out, av.seq_number);
            push_num(out, av.value);
        },
        None => {
            out.push(48);
        },
    }
    proof {
        assert(final(out)@ =~= old(out)@ + spec_enc_opt_av(v));
    }
}

// ---------------------------------------------------------------------------
// Executable decoding.
// ---------------------------------------------------------------------------
/// Reads a membership view at offset `i`, as `sp_view` describes.
fn parse_view(s: &[u8], i: usize) -> (r: Option<(MembershipView, usize)>)
    ensures
        match r {
            Some((v, j)) => sp_view(s@, i as int) == Some((v@, j as int)) && i < j <= s@.len()
                && v.wf(),
            None => sp_view(s@, i as int) is None,
        },
{
    let (k, j0) = match parse_num(s, i) {
        Some(p) => p,
        None => {
            return None;
        },
    };
    let mut entries: Vec<(u32, String)> = Vec::new();
    let mut j = j0;
    let mut rem = k;
    while rem > 0
        invariant
            j0 <= j <= s@.len(),
            rem <= k,
            i < j0,
            sp_num(s@, i as int) == Some((k, j0 as int)),
            sp_entries(s@, j0 as int, k as nat) == (match sp_entries(s@, j as int, rem as nat) {
                Some((rest, e)) => Some((view_of(entries@) + rest, e)),
                None => None::<(Seq<(u32, Seq<char>)>, int)>,
            }),
        decreases rem,
    {
        let (id, j1) = match parse_num(s, j) {
            Some(p) => p,
            None => {
                return None;
            },
        };
        let (addr, j2) = match parse_str_field(s, j1) {
            Some(p) => p,
            None => {
                return None;
            },
        };
        let ghost pre = view_of(entries@);
        entries.push((id, addr));
        proof {
            assert(view_of(entries@) =~= pre + seq![(id, entries@.last().1@)]);
            assert forall|rest: Seq<(u32, Seq<char>)>|
                true implies (pre + (seq![(id, entries@.last().1@)] + rest)) =~= (view_of(entries@)
                + rest) by {}
        }
        j = j2;
        rem = rem - 1;
    }
    // All entries read: `sp_entries` at `j0` yields exactly what was built.
    proof {
        assert(view_of(entries@) + Seq::<(u32, Seq<char>)>::empty() =~= view_of(entries@));
    }
    let ghost es = view_of(entries@);
    match MembershipView::from_entries(entries) {
        Some(v) => Some((v, j)),
        None => None,
    }
}

/// Reads an optional accepted value at offset `i`, as `sp_opt_av` describes.
fn parse_opt_av(s: &[u8], i: usize) -> (r: Option<(Option<PaxosAcceptedValue>, usize)>)
    ensures
        match r {
            Some((v, j)) => sp_opt_av(s@, i as int) == Some((v, j as int)) && i < j <= s@.len(),
            None => sp_opt_av(s@, i as int) is None,
        },
{
    if i >= s.len() {
        return None;
    }
    let b = s[i];
    if b == 48 {
        Some((None, i + 1))
    } else if b == 49 {
        let (sn, j) = match parse_num(s, i + 1) {
            Some(p) => p,
            None => {
                return None;
            },
        };
        let (v, j2) = match parse_num(s, j) {
            Some(p) => p,
            None => {
                return None;
            },
        };
        Some((Some(PaxosAcceptedValue { seq_number: sn, value: v }), j2))
    } else {
        None
    }
}

impl ProcessEvent {
    /// Decodes the buffer, strictly: the whole of it must be one event.
    pub fn parse_bytes(bytes: &[u8]) -> (r: Option<Self>)
        ensures
            r is Some <==> spec_dec_process(bytes@) is Some,
            r matches Some(e) ==> spec_dec_process(bytes@) == Some(e@),
    {
        if bytes.len() == 0 {
            return None;
        }
        let tag = bytes[0];
        if tag == TAG_CONNECT {
            match parse_num(bytes, 1) {
                Some((port, j)) => if j == bytes.len() {
                    Some(ProcessEvent::ConnectOnPort { port })
                } else {
                    None
                },
                None => None,
            }
        } else if tag == TAG_MESSAGE {
            match parse_num(bytes, 1) {
                Some((from, j)) => match parse_str_field(bytes, j) {
                    Some((msg, j2)) => if j2 == bytes.len() {
                        Some(ProcessEvent::Message { from, msg })
                    } else {
                        None
                    },
                    None => None,
                },
                None => None,
            }
        } else {
            None
        }
    }
}

impl RegistryEvent {
    /// Decodes the buffer, strictly: the whole of it must be one event.
    /// A decoded view always has strictly increasing ids.
    pub fn parse_bytes(bytes: &[u8]) -> (r: Option<Self>)
        ensures
            r is Some <==> spec_dec_registry(bytes@) is Some,
            r matches Some(e) ==> spec_dec_registry(bytes@) == Some(e@) && e@.wf(),
    {
        if bytes.len() == 0 {
            return None;
        }
        let tag = bytes[0];
        if tag == TAG_REGISTERED {
            match parse_num(bytes, 1) {
                Some((given_id, j)) => match parse_view(bytes, j) {
                    Some((v, j2)) => if j2 == bytes.len() {
                        Some(RegistryEvent::Registered { given_id, registered_processes: v })
                    } else {
                        None
                    },
                    None => None,
                },
                None => None,
            }
        } else if tag == TAG_UPDATE {
            match parse_view(bytes, 1) {
                Some((v, j)) => if j == bytes.len() {
                    Some(RegistryEvent::UpdateRegisteredProcesses(v))
                } else {
                    None
                },
                None => None,
            }
        } else {
            None
        }
    }
}

impl PaxosProposerEvent {
    /// Decodes the buffer, strictly: the whole of it must be one event.
    pub fn parse_bytes(bytes: &[u8]) -> (r: Option<Self>)
        ensures
            r is Some <==> spec_dec_proposer(bytes@) is Some,
            r matches Some(e) ==> spec_dec_proposer(bytes@) == Some(e),
    {
        if bytes.len() == 0 {
            return None;
        }
        let tag = bytes[0];
        if tag == TAG_PREPARE {
            match parse_num(bytes, 1) {
                Some((sn, j)) => if j == bytes.len() {
                    Some(PaxosProposerEvent::Prepare { seq_number: sn })
                } else {
                    None
                },
                None => None,
            }
        } else if tag == TAG_REQUEST_ACCEPT {
            match parse_num(bytes, 1) {
                Some((sn, j)) => match parse_num(bytes, j) {
                    Some((avsn, j2)) => match parse_num(bytes, j2) {
                        Some((avv, j3)) => if j3 == bytes.len() {
                            Some(
                                (PaxosProposerEvent::RequestAccept {
                                    seq_number: sn,
                                    value: PaxosAcceptedValue { seq_number: avsn, value: avv },
                                }),
                            )
                        } else {
                            None
                        },
                        None => None,
                    },
                    None => None,
                },
                None => None,
            }
        } else {
            None
        }
    }
}

impl PaxosAcceptorEvent {
    /// Decodes the buffer, strictly: the whole of it must be one event.
    pub fn parse_bytes(bytes: &[u8]) -> (r: Option<Self>)
        ensures
            r is Some <==> spec_dec_acceptor(bytes@) is Some,
            r matches Some(e) ==> spec_dec_acceptor(bytes@) == Some(e),
    {
        if bytes.len() == 0 {
            return None;
        }
        let tag = bytes[0];
        if tag == TAG_PROMISE {
            match parse_num(bytes, 1) {
                Some((sn, j)) => match parse_opt_av(bytes, j) {
                    Some((v, j2)) => if j2 == bytes.len() {
                        Some(PaxosAcceptorEvent::Promise { seq_number: sn, value: v })
                    } else {
                        None
                    },
                    None => None,
                },
                None => None,
            }
        } else if tag == TAG_ACCEPTED {
            match parse_num(bytes, 1) {
                Some((sn, j)) => match parse_opt_av(bytes, j) {
                    Some((v, j2)) => if j2 == bytes.len() {
                        Some(PaxosAcceptorEvent::Accepted { seq_number: sn, value: v })
                    } else {
                        None
                    },
                    None => None,
                },
                None => None,
            }
        } else if tag == TAG_KO {
            if bytes.len() == 1 {
                Some(PaxosAcceptorEvent::KO)
            } else {
                None
            }
        } else {
            None
        }
    }
}

impl Event {
    /// Decodes the buffer by trying each family in turn.
    pub fn parse_event_type(bytes: &[u8]) -> (r: Option<Event>)
        ensures
            r is Some <==> spec_dec_event(bytes@) is Some,
            r matches Some(e) ==> spec_dec_event(bytes@) == Some(e@),
    {
        match ProcessEvent::parse_bytes(bytes) {
            Some(e) => Some(Event::ProcessEvent(e)),
            None => match RegistryEvent::parse_bytes(bytes) {
                Some(e) => Some(Event::RegistryEvent(e)),
                None => match PaxosAcceptorEvent::parse_bytes(bytes) {
                    Some(e) => Some(Event::PaxosAcceptorEvent(e)),
                    None => match PaxosProposerEvent::parse_bytes(bytes) {
                        Some(e) => Some(Event::PaxosProposerEvent(e)),
                        None => None,
                    },
                },
            },
        }
    }
}

// ---------------------------------------------------------------------------
// The codec round trip: decoding an encoding returns the event.
// ---------------------------------------------------------------------------
/// The entry list encoding, read from the front: first entry, then the rest.
proof fn lemma_enc_entries_front(es: Seq<(u32, Seq<char>)>)
    requires
        es.len() > 0,
    ensures
        spec_enc_entries(es) == spec_enc_entry(es[0]) + spec_enc_entries(es.drop_first()),
    decreases es.len(),
{
    if es.len() == 1 {
        assert(es.drop_last() =~= Seq::<(u32, Seq<char>)>::empty());
        assert(es.drop_first() =~= Seq::<(u32, Seq<char>)>::empty());
        assert(spec_enc_entries(es) =~= spec_enc_entry(es[0]) + spec_enc_entries(es.drop_first()));
    } else {
        let head = es.drop_last();
        lemma_enc_entries_front(head);
        assert(head.drop_first() =~= es.drop_first().drop_last());
        assert(es.drop_first().last() == es.last());
        assert(es.drop_first()[0] == es[1]);
        assert(spec_enc_entries(es) == spec_enc_entries(head) + spec_enc_entry(es.last()));
        assert(spec_enc_entries(es.drop_first()) == spec_enc_entries(es.drop_first().drop_last())
            + spec_enc_entry(es.drop_first().last()));
        assert(spec_enc_entries(es) =~= spec_enc_entry(es[0]) + spec_enc_entries(es.drop_first()));
    }
}

/// An encoded entry list parses back to itself, wherever it stands.
proof fn lemma_sp_entries_enc(s: Seq<u8>, i: int, es: Seq<(u32, Seq<char>)>)
    requires
        0 <= i,
        forall|t: int| 0 <= t < es.len() ==> entry_encodable(#[trigger] es[t]),
        i + spec_enc_entries(es).len() <= s.len(),
        s.subrange(i, i + spec_enc_entries(es).len()) == spec_enc_entries(es),
    ensures
        sp_entries(s, i, es.len()) == Some((es, i + spec_enc_entries(es).len())),
    decreases es.len(),
{
    if es.len() == 0 {
        assert(sp_entries(s, i, 0) == Some((Seq::<(u32, Seq<char>)>::empty(), i)));
        assert(es =~= Seq::<(u32, Seq<char>)>::empty());
    } else {
        lemma_enc_entries_front(es);
        let e0 = es[0];
        let rest = es.drop_first();
        let w = NUM_WIDTH as int;
        let blen = encode_utf8(e0.1).len() as int;
        let elen = spec_enc_entry(e0).len() as int;
        let total = spec_enc_entries(es).len() as int;
        crate::codec::lemma_dec_enc_len(e0.0 as nat, NUM_WIDTH as nat);
        crate::codec::lemma_str_enc_len(e0.1);
        assert(elen == w + w + blen);
        // the id
        assert(s.subrange(i, i + w) =~= s.subrange(i, i + total).subrange(0, w));
        assert(s.subrange(i, i + w) =~= dec_enc(e0.0 as nat, NUM_WIDTH as nat));
        crate::codec::lemma_sp_num_enc(s, i, e0.0);
        // the endpoint text
        assert(s.subrange(i + w, i + elen) =~= s.subrange(i, i + total).subrange(w, elen));
        assert(s.subrange(i + w, i + w + w + blen) =~= str_enc(e0.1));
        crate::codec::lemma_sp_str_enc(s, i + w, e0.1);
        // the remaining entries
        assert(s.subrange(i + elen, i + total) =~= s.subrange(i, i + total).subrange(elen, total));
        assert(s.subrange(i + elen, i + total) =~= spec_enc_entries(rest));
        lemma_sp_entries_enc(s, i + elen, rest);
        assert(seq![(e0.0, e0.1)] + rest =~= es);
    }
}

/// An encoded membership view with strictly increasing ids parses back to
/// itself, wherever it stands.
proof fn lemma_sp_view_enc(s: Seq<u8>, i: int, es: Seq<(u32, Seq<char>)>)
    requires
        0 <= i,
        view_encodable(es),
        ids_increasing(es),
        i + spec_enc_view(es).len() <= s.len(),
        s.subrange(i, i + spec_enc_view(es).len()) == spec_enc_view(es),
    ensures
        sp_view(s, i) == Some((es, i + spec_enc_view(es).len())),
{
    let w = NUM_WIDTH as int;
    let total = spec_enc_view(es).len() as int;
    crate::codec::lemma_dec_enc_len(es.len(), NUM_WIDTH as nat);
    assert(s.subrange(i, i + w) =~= s.subrange(i, i + total).subrange(0, w));
    assert(s.subrange(i, i + w) =~= dec_enc(es.len(), NUM_WIDTH as nat));
    crate::codec::lemma_sp_num_enc(s, i, es.len() as u32);
    assert(s.subrange(i + w, i + total) =~= s.subrange(i, i + total).subrange(w, total));
    assert(s.subrange(i + w, i + total) =~= spec_enc_entries(es));
    lemma_sp_entries_enc(s, i + w, es);
}

/// The round trip for process events.
pub proof fn lemma_process_round_trip(e: ProcessEventV)
    requires
        e.encodable(),
    ensures
        spec_dec_process(spec_enc_process(e)) == Some(e),
{
    let s = spec_enc_process(e);
    let w = NUM_WIDTH as int;
    match e {
        ProcessEventV::ConnectOnPort { port } => {
            crate::codec::lemma_dec_enc_len(port as nat, NUM_WIDTH as nat);
            assert(s[0] == TAG_CONNECT);
            assert(s.subrange(1, 1 + w) =~= dec_enc(port as nat, NUM_WIDTH as nat));
            crate::codec::lemma_sp_num_enc(s, 1, port);
        },
        ProcessEventV::Message { from, msg } => {
            let blen = encode_utf8(msg).len() as int;
            crate::codec::lemma_dec_enc_len(from as nat, NUM_WIDTH as nat);
            crate::codec::lemma_str_enc_len(msg);
            assert(s[0] == TAG_MESSAGE);
            assert(s.subrange(1, 1 + w) =~= dec_enc(from as nat, NUM_WIDTH as nat));
            crate::codec::lemma_sp_num_enc(s, 1, from);
            assert(s.subrange(1 + w, 1 + w + w + blen) =~= str_enc(msg));
            crate::codec::lemma_sp_str_enc(s, 1 + w, msg);
        },
    }
}

/// The round trip for registry events, whose views must be well-formed.
pub proof fn lemma_registry_round_trip(e: RegistryEventV)
    requires
        e.encodable(),
        e.wf(),
    ensures
        spec_dec_registry(spec_enc_registry(e)) == Some(e),
{
    let s = spec_enc_registry(e);
    let w = NUM_WIDTH as int;
    match e {
        RegistryEventV::Registered { given_id, registered_processes } => {
            let vlen = spec_enc_view(registered_processes).len() as int;
            crate::codec::lemma_dec_enc_len(given_id as nat, NUM_WIDTH as nat);
            assert(s[0] == TAG_REGISTERED);
            assert(s.subrange(1, 1 + w) =~= dec_enc(given_id as nat, NUM_WIDTH as nat));
            crate::codec::lemma_sp_num_enc(s, 1, given_id);
            assert(s.subrange(1 + w, 1 + w + vlen) =~= spec_enc_view(registered_processes));
            lemma_sp_view_enc(s, 1 + w, registered_processes);
        },
        RegistryEventV::UpdateRegisteredProcesses(es) => {
            let vlen = spec_enc_view(es).len() as int;
            assert(s[0] == TAG_UPDATE);
            assert(s.subrange(1, 1 + vlen) =~= spec_enc_view(es));
            lemma_sp_view_enc(s, 1, es);
        },
    }
}

/// The length of an encoded optional accepted value.
proof fn lemma_opt_av_len(v: Option<PaxosAcceptedValue>)
    ensures
        spec_enc_opt_av(v).len() == (match v {
            Some(..) => 1 + 2 * NUM_WIDTH,
            None => 1int,
        }),
{
    match v {
        Some(av) => {
            crate::codec::lemma_dec_enc_len(av.seq_number as nat, NUM_WIDTH as nat);
            crate::codec::lemma_dec_enc_len(av.value as nat, NUM_WIDTH as nat);
        },
        None => {},
    }
}

/// An encoded optional accepted value parses back to itself.
proof fn lemma_sp_opt_av_enc(s: Seq<u8>, i: int, v: Option<PaxosAcceptedValue>)
    requires
        0 <= i,
        i + spec_enc_opt_av(v).len() <= s.len(),
        s.subrange(i, i + spec_enc_opt_av(v).len()) == spec_enc_opt_av(v),
    ensures
        sp_opt_av(s, i) == Some((v, i + spec_enc_opt_av(v).len())),
{
    let w = NUM_WIDTH as int;
    let alen = spec_enc_opt_av(v).len() as int;
    lemma_opt_av_len(v);
    assert(s[i] == s.subrange(i, i + alen)[0]);
    match v {
        Some(av) => {
            crate::codec::lemma_dec_enc_len(av.seq_number as nat, NUM_WIDTH as nat);
            crate::codec::lemma_dec_enc_len(av.value as nat, NUM_WIDTH as nat);
            assert(s[i] == 49);
            assert(s.subrange(i + 1, i + 1 + w) =~= s.subrange(i, i + alen).subrange(1, 1 + w));
            assert(s.subrange(i + 1, i + 1 + w) =~= dec_enc(av.seq_number as nat, NUM_WIDTH as nat));
            crate::codec::lemma_sp_num_enc(s, i + 1, av.seq_number);
            assert(s.subrange(i + 1 + w, i + 1 + w + w) =~= s.subrange(i, i + alen).subrange(
                1 + w,
                1 + w + w,
            ));
            assert(s.subrange(i + 1 + w, i + 1 + w + w) =~= dec_enc(av.value as nat, NUM_WIDTH as nat));
            crate::codec::lemma_sp_num_enc(s, i + 1 + w, av.value);
        },
        None => {
            assert(s[i] == 48);
        },
    }
}

/// The round trip for proposer events.
pub proof fn lemma_proposer_round_trip(e: PaxosProposerEvent)
    ensures
        spec_dec_proposer(spec_enc_proposer(e)) == Some(e),
{
    let s = spec_enc_proposer(e);
    let w = NUM_WIDTH as int;
    match e {
        PaxosProposerEvent::Prepare { seq_number } => {
            crate::codec::lemma_dec_enc_len(seq_number as nat, NUM_WIDTH as nat);
            assert(s[0] == TAG_PREPARE);
            assert(s.subrange(1, 1 + w) =~= dec_enc(seq_number as nat, NUM_WIDTH as nat));
            crate::codec::lemma_sp_num_enc(s, 1, seq_number);
        },
        PaxosProposerEvent::RequestAccept { seq_number, value } => {
            crate::codec::lemma_dec_enc_len(seq_number as nat, NUM_WIDTH as nat);
            crate::codec::lemma_dec_enc_len(value.seq_number as nat, NUM_WIDTH as nat);
            crate::codec::lemma_dec_enc_len(value.value as nat, NUM_WIDTH as nat);
            assert(s[0] == TAG_REQUEST_ACCEPT);
            assert(s.subrange(1, 1 + w) =~= dec_enc(seq_number as nat, NUM_WIDTH as nat));
            crate::codec::lemma_sp_num_enc(s, 1, seq_number);
            assert(s.subrange(1 + w, 1 + 2 * w) =~= dec_enc(value.seq_number as nat, NUM_WIDTH as nat));
            crate::codec::lemma_sp_num_enc(s, 1 + w, value.seq_number);
            assert(s.subrange(1 + 2 * w, 1 + 3 * w) =~= dec_enc(value.value as nat, NUM_WIDTH as nat));
            crate::codec::lemma_sp_num_enc(s, 1 + 2 * w, value.value);
        },
    }
}

/// The round trip for acceptor events.
pub proof fn lemma_acceptor_round_trip(e: PaxosAcceptorEvent)
    ensures
        spec_dec_acceptor(spec_enc_acceptor(e)) == Some(e),
{
    let s = spec_enc_acceptor(e);
    let w = NUM_WIDTH as int;
    match e {
        PaxosAcceptorEvent::Promise { seq_number, value } => {
            let alen = spec_enc_opt_av(value).len() as int;
            lemma_opt_av_len(value);
            crate::codec::lemma_dec_enc_len(seq_number as nat, NUM_WIDTH as nat);
            assert(s[0] == TAG_PROMISE);
            assert(s.subrange(1, 1 + w) =~= dec_enc(seq_number as nat, NUM_WIDTH as nat));
            crate::codec::lemma_sp_num_enc(s, 1, seq_number);
            assert(s.subrange(1 + w, 1 + w + alen) =~= spec_enc_opt_av(value));
            lemma_sp_opt_av_enc(s, 1 + w, value);
        },
        PaxosAcceptorEvent::Accepted { seq_number, value } => {
            let alen = spec_enc_opt_av(value).len() as int;
            lemma_opt_av_len(value);
            crate::codec::lemma_dec_enc_len(seq_number as nat, NUM_WIDTH as nat);
            assert(s[0] == TAG_ACCEPTED);
            assert(s.subrange(1, 1 + w) =~= dec_enc(seq_number as nat, NUM_WIDTH as nat));
            crate::codec::lemma_sp_num_enc(s, 1, seq_number);
            assert(s.subrange(1 + w, 1 + w + alen) =~= spec_enc_opt_av(value));
            lemma_sp_opt_av_enc(s, 1 + w, value);
        },
        PaxosAcceptorEvent::KO => {
            assert(s[0] == TAG_KO);
        },
    }
}

/// The codec round trip: decoding the encoding of any encodable event
/// returns exactly that event, whichever family it belongs to.
pub proof fn lemma_event_round_trip(e: EventV)
    requires
        e.encodable(),
    ensures
        spec_dec_event(spec_enc_event(e)) == Some(e),
{
    let s = spec_enc_event(e);
    match e {
        EventV::ProcessEvent(p) => {
            lemma_process_round_trip(p);
        },
        EventV::RegistryEvent(r) => {
            lemma_registry_round_trip(r);
            match r {
                RegistryEventV::Registered { .. } => {
                    assert(s[0] == TAG_REGISTERED);
                },
                RegistryEventV::UpdateRegisteredProcesses(..) => {
                    assert(s[0] == TAG_UPDATE);
                },
            }
            assert(spec_dec_process(s) is None);
        },
        EventV::PaxosAcceptorEvent(a) => {
            lemma_acceptor_round_trip(a);
            match a {
                PaxosAcceptorEvent::Promise { .. } => {
                    assert(s[0] == TAG_PROMISE);
                },
                PaxosAcceptorEvent::Accepted { .. } => {
                    assert(s[0] == TAG_ACCEPTED);
                },
                PaxosAcceptorEvent::KO => {
                    assert(s[0] == TAG_KO);
                },
            }
            assert(spec_dec_process(s) is None);
            assert(spec_dec_registry(s) is None);
        },
        EventV::PaxosProposerEvent(p) => {
            lemma_proposer_round_trip(p);
            match p {
                PaxosProposerEvent::Prepare { .. } => {
                    assert(s[0] == TAG_PREPARE);
                },
                PaxosProposerEvent::RequestAccept { .. } => {
                    assert(s[0] == TAG_REQUEST_ACCEPT);
                },
            }
            assert(spec_dec_process(s) is None);
            assert(spec_dec_registry(s) is None);
            assert(spec_dec_acceptor(s) is None);
        },
    }
}

} // verus!
