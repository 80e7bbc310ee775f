use processes::events::{
    PaxosAcceptedValue, PaxosAcceptorEvent, PaxosProposerEvent, ProcessEvent, RegistryEvent,
};
use processes::membership::MembershipView;
use processes::process::Process;

fn view_of(entries: Vec<(u32, &str)>) -> MembershipView {
    let owned: Vec<(u32, String)> = entries.into_iter().map(|(id, a)| (id, a.to_owned())).collect();
    MembershipView::from_entries(owned).expect("entries must be sorted by id")
}

#[test]
fn new_process_starts_blank() {
    let p = Process::new(8090, "127.0.0.1:8080".to_owned());
    assert_eq!(p.id, 0);
    assert_eq!(p.port, 8090);
    assert_eq!(p.registry_address, "127.0.0.1:8080");
    assert_eq!(p.registered_processes.len(), 0);
    assert_eq!(p.paxos_sn, 0);
    assert_eq!(p.paxos_av, None);
}

#[test]
fn startup_sends_connect_on_own_port() {
    let p = Process::new(8090, "127.0.0.1:8080".to_owned());
    match p.connect_to_registry() {
        ProcessEvent::ConnectOnPort { port } => assert_eq!(port, 8090),
        _ => panic!("wrong event"),
    }
}

#[test]
fn registered_grants_id_and_view() {
    let mut p = Process::new(8090, "127.0.0.1:8080".to_owned());
    let view = view_of(vec![(1, "127.0.0.1:8090")]);
    p.handle_registry_event(RegistryEvent::Registered { given_id: 1, registered_processes: view });
    assert_eq!(p.id, 1);
    assert_eq!(p.registered_processes.len(), 1);
    assert_eq!(p.registered_processes.get(1), Some("127.0.0.1:8090".to_owned()));
}

#[test]
fn update_replaces_the_cached_view_only() {
    let mut p = Process::new(8090, "127.0.0.1:8080".to_owned());
    p.handle_registry_event(RegistryEvent::Registered {
        given_id: 1,
        registered_processes: view_of(vec![(1, "a")]),
    });
    let fresh = view_of(vec![(1, "a"), (3, "c")]);
    p.handle_registry_event(RegistryEvent::UpdateRegisteredProcesses(fresh));
    assert_eq!(p.id, 1);
    assert_eq!(p.registered_processes.len(), 2);
    assert_eq!(p.registered_processes.get(2), None);
    assert_eq!(p.registered_processes.get(3), Some("c".to_owned()));
}

#[test]
fn peer_message_is_handed_out_for_logging() {
    let p = Process::new(8090, "r".to_owned());
    let r = p.handle_process_event(ProcessEvent::Message { from: 2, msg: "hi".to_owned() });
    assert_eq!(r, Some((2, "hi".to_owned())));
    assert!(p.handle_process_event(ProcessEvent::ConnectOnPort { port: 1 }).is_none());
}

#[test]
fn prepare_at_or_above_promised_number_is_promised() {
    let mut p = Process::new(8090, "r".to_owned());
    let reply = p.handle_proposer_event(PaxosProposerEvent::Prepare { seq_number: 5 });
    assert_eq!(reply, PaxosAcceptorEvent::Promise { seq_number: 5, value: None });
    assert_eq!(p.paxos_sn, 5);
    // equality is enough: the comparison is `>=`, not `>`
    let reply = p.handle_proposer_event(PaxosProposerEvent::Prepare { seq_number: 5 });
    assert_eq!(reply, PaxosAcceptorEvent::Promise { seq_number: 5, value: None });
    assert_eq!(p.paxos_sn, 5);
}

#[test]
fn stale_prepare_gets_ko() {
    let mut p = Process::new(8090, "r".to_owned());
    p.handle_proposer_event(PaxosProposerEvent::Prepare { seq_number: 5 });
    let reply = p.handle_proposer_event(PaxosProposerEvent::Prepare { seq_number: 3 });
    assert_eq!(reply, PaxosAcceptorEvent::KO);
    assert_eq!(p.paxos_sn, 5);
}

#[test]
fn promised_number_never_goes_down() {
    let mut p = Process::new(8090, "r".to_owned());
    let mut last = 0;
    for sn in [3, 1, 7, 7, 2, 9] {
        p.handle_proposer_event(PaxosProposerEvent::Prepare { seq_number: sn });
        assert!(p.paxos_sn >= last);
        last = p.paxos_sn;
    }
    assert_eq!(p.paxos_sn, 9);
}

#[test]
fn request_accept_stores_and_echoes_the_value() {
    let mut p = Process::new(8090, "r".to_owned());
    let value = PaxosAcceptedValue { seq_number: 0, value: 42 };
    let reply = p.handle_proposer_event(PaxosProposerEvent::RequestAccept { seq_number: 0, value });
    assert_eq!(reply, PaxosAcceptorEvent::Accepted { seq_number: 0, value: Some(value) });
    assert_eq!(p.paxos_av, Some(value));
    assert_eq!(p.paxos_sn, 0);
}

#[test]
fn stale_request_accept_gets_ko() {
    let mut p = Process::new(8090, "r".to_owned());
    p.handle_proposer_event(PaxosProposerEvent::Prepare { seq_number: 5 });
    let value = PaxosAcceptedValue { seq_number: 3, value: 42 };
    let reply = p.handle_proposer_event(PaxosProposerEvent::RequestAccept { seq_number: 3, value });
    assert_eq!(reply, PaxosAcceptorEvent::KO);
    assert_eq!(p.paxos_av, None);
}

#[test]
fn promise_carries_the_last_accepted_value() {
    let mut p = Process::new(8090, "r".to_owned());
    let value = PaxosAcceptedValue { seq_number: 7, value: 42 };
    p.handle_proposer_event(PaxosProposerEvent::RequestAccept { seq_number: 7, value });
    let reply = p.handle_proposer_event(PaxosProposerEvent::Prepare { seq_number: 8 });
    assert_eq!(reply, PaxosAcceptorEvent::Promise { seq_number: 8, value: Some(value) });
}

#[test]
fn get_process_addr_looks_up_by_id() {
    let view = view_of(vec![(1, "a"), (2, "b")]);
    assert_eq!(Process::get_process_addr(2, &view), Some("b".to_owned()));
    assert_eq!(Process::get_process_addr(9, &view), None);
}

#[test]
fn random_peer_is_never_self() {
    let mut p = Process::new(8090, "r".to_owned());
    p.handle_registry_event(RegistryEvent::Registered {
        given_id: 1,
        registered_processes: view_of(vec![(1, "self"), (2, "peer-b"), (3, "peer-c")]),
    });
    for _ in 0..50 {
        let (addr, event) = p.send_to_random_process().expect("two peers are there");
        assert!(addr == "peer-b" || addr == "peer-c", "picked {}", addr);
        match event {
            ProcessEvent::Message { from, msg } => {
                assert_eq!(from, 1);
                assert_eq!(msg, "P2P message");
            }
            _ => panic!("wrong event"),
        }
    }
}

#[test]
fn no_random_send_without_a_second_entry() {
    let mut p = Process::new(8090, "r".to_owned());
    assert!(p.send_to_random_process().is_none());
    p.handle_registry_event(RegistryEvent::Registered {
        given_id: 1,
        registered_processes: view_of(vec![(1, "self")]),
    });
    assert!(p.send_to_random_process().is_none());
}

#[test]
fn broadcast_goes_to_everyone_but_self() {
    let mut p = Process::new(8091, "r".to_owned());
    let view = view_of(vec![(1, "a"), (2, "self"), (3, "c")]);
    p.handle_registry_event(RegistryEvent::Registered {
        given_id: 2,
        registered_processes: view,
    });
    let again = view_of(vec![(1, "a"), (2, "self"), (3, "c")]);
    let (targets, event) = p.broadcast_to_processes(&again).expect("peers are there");
    assert_eq!(targets.len(), 2);
    assert_eq!(targets.get(1), Some("a".to_owned()));
    assert_eq!(targets.get(2), None);
    assert_eq!(targets.get(3), Some("c".to_owned()));
    match event {
        ProcessEvent::Message { from, msg } => {
            assert_eq!(from, 2);
            assert_eq!(msg, "Broadcast message");
        }
        _ => panic!("wrong event"),
    }
}

#[test]
fn no_broadcast_without_a_second_entry() {
    let p = Process::new(8090, "r".to_owned());
    let solo = view_of(vec![(1, "self")]);
    assert!(p.broadcast_to_processes(&solo).is_none());
}
