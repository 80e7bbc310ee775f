//! Whole-fabric runs at the state-machine level: the registry and the
//! processes exchange the very bytes they would put on the wire.
use processes::events::{Event, PaxosAcceptorEvent, PaxosProposerEvent, ProcessEvent, RegistryEvent};
use processes::handle_buffer;
use processes::process::Process;
use processes::registry::{PaxosStatus, Registry};

/// Delivers encoded bytes the way the server loop would: through a fixed
/// receive buffer.
fn deliver(bytes: Vec<u8>) -> Event {
    assert!(bytes.len() <= 1000, "one event per connection, up to the read bound");
    let mut buffer = [0u8; 1000];
    buffer[..bytes.len()].copy_from_slice(&bytes);
    handle_buffer(&buffer, bytes.len()).expect("the fabric's own bytes must decode")
}

/// Registers `p` at `r` over the wire and hands the reply back to `p`.
fn register_over_the_wire(r: &mut Registry, p: &mut Process, ip: &str) {
    let connect = match deliver(p.connect_to_registry().as_bytes_vec()) {
        Event::ProcessEvent(ev) => ev,
        _ => panic!("wrong family"),
    };
    let (_, reply) = r.handle_process_event(ip, connect).expect("connect must be answered");
    match deliver(reply.as_bytes_vec()) {
        Event::RegistryEvent(ev) => p.handle_registry_event(ev),
        _ => panic!("wrong family"),
    }
}

/// Broadcasts the registry's view to every given process over the wire.
fn broadcast_view(r: &Registry, peers: &mut [&mut Process]) {
    let update = r.broadcast_registered_processes().expect("the view is not empty");
    let bytes = update.as_bytes_vec();
    for p in peers.iter_mut() {
        match deliver(bytes.clone()) {
            Event::RegistryEvent(ev) => p.handle_registry_event(ev),
            _ => panic!("wrong family"),
        }
    }
}

#[test]
fn registration_handshake() {
    let mut r = Registry::new();
    let mut p = Process::new(8090, "127.0.0.1:8080".to_owned());
    register_over_the_wire(&mut r, &mut p, "127.0.0.1");
    assert_eq!(p.id, 1);
    assert_eq!(p.registered_processes.len(), 1);
    assert_eq!(p.registered_processes.get(1), Some("127.0.0.1:8090".to_owned()));
}

#[test]
fn three_peer_views_converge() {
    let mut r = Registry::new();
    let mut p1 = Process::new(8090, "127.0.0.1:8080".to_owned());
    let mut p2 = Process::new(8091, "127.0.0.1:8080".to_owned());
    let mut p3 = Process::new(8092, "127.0.0.1:8080".to_owned());
    register_over_the_wire(&mut r, &mut p1, "127.0.0.1");
    register_over_the_wire(&mut r, &mut p2, "127.0.0.1");
    register_over_the_wire(&mut r, &mut p3, "127.0.0.1");
    broadcast_view(&r, &mut [&mut p1, &mut p2, &mut p3]);
    for p in [&p1, &p2, &p3] {
        assert_eq!(p.registered_processes.len(), 3);
        for id in 1..=3 {
            assert_eq!(p.registered_processes.get(id), r.processes.get(id));
        }
    }
    assert_eq!(p1.id, 1);
    assert_eq!(p2.id, 2);
    assert_eq!(p3.id, 3);
}

#[test]
fn death_eviction_reaches_the_survivors() {
    let mut r = Registry::new();
    let mut p1 = Process::new(8090, "127.0.0.1:8080".to_owned());
    let mut p2 = Process::new(8091, "127.0.0.1:8080".to_owned());
    let mut p3 = Process::new(8092, "127.0.0.1:8080".to_owned());
    register_over_the_wire(&mut r, &mut p1, "127.0.0.1");
    register_over_the_wire(&mut r, &mut p2, "127.0.0.1");
    register_over_the_wire(&mut r, &mut p3, "127.0.0.1");

    // the heartbeat finds the process with id 2 dead
    r.evict_dead_processes(&vec![2]);
    assert_eq!(r.processes.get(2), None);

    broadcast_view(&r, &mut [&mut p1, &mut p3]);
    for p in [&p1, &p3] {
        assert_eq!(p.registered_processes.len(), 2);
        assert_eq!(p.registered_processes.get(2), None);
    }
}

#[test]
fn consensus_runs_over_the_wire() {
    let mut r = Registry::new();
    let mut peers = vec![
        Process::new(8090, "127.0.0.1:8080".to_owned()),
        Process::new(8091, "127.0.0.1:8080".to_owned()),
        Process::new(8092, "127.0.0.1:8080".to_owned()),
    ];
    for p in peers.iter_mut() {
        register_over_the_wire(&mut r, p, "127.0.0.1");
    }

    // phase one: prepare goes out, every acceptor answers
    let prepare = r.start_consensus_instance().expect("three peers are enough");
    let mut replies: Vec<PaxosAcceptorEvent> = Vec::new();
    for p in peers.iter_mut() {
        match deliver(prepare.as_bytes_vec()) {
            Event::PaxosProposerEvent(ev) => replies.push(p.handle_proposer_event(ev)),
            _ => panic!("wrong family"),
        }
    }

    // the registry counts the promises until a majority acts
    let mut request = None;
    for reply in replies {
        match deliver(reply.as_bytes_vec()) {
            Event::PaxosAcceptorEvent(ev) => {
                if let Some(action) = r.handle_acceptor_event(ev) {
                    request = Some(action);
                    break;
                }
            }
            _ => panic!("wrong family"),
        }
    }
    let request = request.expect("a majority of promises must act");
    let value = match request {
        PaxosProposerEvent::RequestAccept { value, .. } => value,
        _ => panic!("wrong action"),
    };
    assert!((100..1000).contains(&value.value));
    assert_eq!(r.paxos_status, PaxosStatus::Phase2);

    // phase two: the acceptors accept, the registry reaches consensus
    let mut replies: Vec<PaxosAcceptorEvent> = Vec::new();
    for p in peers.iter_mut() {
        match deliver(request.as_bytes_vec()) {
            Event::PaxosProposerEvent(ev) => replies.push(p.handle_proposer_event(ev)),
            _ => panic!("wrong family"),
        }
        assert_eq!(p.paxos_av, Some(value));
    }
    for reply in replies {
        match deliver(reply.as_bytes_vec()) {
            Event::PaxosAcceptorEvent(ev) => {
                r.handle_acceptor_event(ev);
            }
            _ => panic!("wrong family"),
        }
    }
    assert_eq!(r.paxos_status, PaxosStatus::ConsensusReached(value));
}

#[test]
fn peer_messages_cross_the_wire() {
    let mut r = Registry::new();
    let mut p1 = Process::new(8090, "127.0.0.1:8080".to_owned());
    let mut p2 = Process::new(8091, "127.0.0.1:8080".to_owned());
    register_over_the_wire(&mut r, &mut p1, "127.0.0.1");
    register_over_the_wire(&mut r, &mut p2, "127.0.0.1");
    broadcast_view(&r, &mut [&mut p1, &mut p2]);

    let (target, message) = p1.send_to_random_process().expect("another peer is there");
    assert_eq!(target, "127.0.0.1:8091");
    match deliver(message.as_bytes_vec()) {
        Event::ProcessEvent(ev) => {
            assert_eq!(p2.handle_process_event(ev), Some((1, "P2P message".to_owned())));
        }
        _ => panic!("wrong family"),
    }
}
