use processes::events::{
    Event, PaxosAcceptedValue, PaxosAcceptorEvent, PaxosProposerEvent, ProcessEvent, RegistryEvent,
};
use processes::handle_buffer;
use processes::membership::MembershipView;

fn view_of(entries: Vec<(u32, &str)>) -> MembershipView {
    let owned: Vec<(u32, String)> = entries.into_iter().map(|(id, a)| (id, a.to_owned())).collect();
    MembershipView::from_entries(owned).expect("entries must be sorted by id")
}

#[test]
fn round_trip_connect_on_port() {
    let bytes = ProcessEvent::ConnectOnPort { port: 8090 }.as_bytes_vec();
    match ProcessEvent::parse_bytes(&bytes) {
        Some(ProcessEvent::ConnectOnPort { port }) => assert_eq!(port, 8090),
        other => panic!("wrong decode: {:?}", other.is_some()),
    }
}

#[test]
fn connect_wire_shape_is_tag_and_ten_digits() {
    let bytes = ProcessEvent::ConnectOnPort { port: 8090 }.as_bytes_vec();
    assert_eq!(bytes, b"C0000008090".to_vec());
}

#[test]
fn round_trip_message() {
    let bytes = ProcessEvent::Message { from: 3, msg: "P2P message".to_owned() }.as_bytes_vec();
    match ProcessEvent::parse_bytes(&bytes) {
        Some(ProcessEvent::Message { from, msg }) => {
            assert_eq!(from, 3);
            assert_eq!(msg, "P2P message");
        }
        _ => panic!("wrong decode"),
    }
}

#[test]
fn round_trip_message_with_multibyte_text() {
    let text = "héllo — ✓ message";
    let bytes = ProcessEvent::Message { from: 7, msg: text.to_owned() }.as_bytes_vec();
    match ProcessEvent::parse_bytes(&bytes) {
        Some(ProcessEvent::Message { from, msg }) => {
            assert_eq!(from, 7);
            assert_eq!(msg, text);
        }
        _ => panic!("wrong decode"),
    }
}

#[test]
fn round_trip_registered() {
    let view = view_of(vec![(1, "127.0.0.1:8090"), (2, "127.0.0.1:8091")]);
    let bytes = RegistryEvent::Registered { given_id: 2, registered_processes: view }
        .as_bytes_vec();
    match RegistryEvent::parse_bytes(&bytes) {
        Some(RegistryEvent::Registered { given_id, registered_processes }) => {
            assert_eq!(given_id, 2);
            assert_eq!(registered_processes.len(), 2);
            assert_eq!(registered_processes.get(1), Some("127.0.0.1:8090".to_owned()));
            assert_eq!(registered_processes.get(2), Some("127.0.0.1:8091".to_owned()));
        }
        _ => panic!("wrong decode"),
    }
}

#[test]
fn round_trip_update_registered_processes() {
    let view = view_of(vec![(1, "a"), (2, "b"), (3, "c")]);
    let bytes = RegistryEvent::UpdateRegisteredProcesses(view).as_bytes_vec();
    match RegistryEvent::parse_bytes(&bytes) {
        Some(RegistryEvent::UpdateRegisteredProcesses(v)) => {
            assert_eq!(v.len(), 3);
            assert_eq!(v.get(3), Some("c".to_owned()));
        }
        _ => panic!("wrong decode"),
    }
}

#[test]
fn round_trip_empty_view() {
    let view = view_of(vec![]);
    let bytes = RegistryEvent::UpdateRegisteredProcesses(view).as_bytes_vec();
    match RegistryEvent::parse_bytes(&bytes) {
        Some(RegistryEvent::UpdateRegisteredProcesses(v)) => assert_eq!(v.len(), 0),
        _ => panic!("wrong decode"),
    }
}

#[test]
fn round_trip_prepare() {
    let bytes = PaxosProposerEvent::Prepare { seq_number: 9 }.as_bytes_vec();
    assert_eq!(
        PaxosProposerEvent::parse_bytes(&bytes),
        Some(PaxosProposerEvent::Prepare { seq_number: 9 })
    );
}

#[test]
fn round_trip_request_accept() {
    let ev = PaxosProposerEvent::RequestAccept {
        seq_number: 4,
        value: PaxosAcceptedValue { seq_number: 7, value: 42 },
    };
    let bytes = ev.as_bytes_vec();
    assert_eq!(PaxosProposerEvent::parse_bytes(&bytes), Some(ev));
}

#[test]
fn round_trip_promise_with_and_without_value() {
    let with = PaxosAcceptorEvent::Promise {
        seq_number: 1,
        value: Some(PaxosAcceptedValue { seq_number: 7, value: 42 }),
    };
    let without = PaxosAcceptorEvent::Promise { seq_number: 1, value: None };
    assert_eq!(PaxosAcceptorEvent::parse_bytes(&with.as_bytes_vec()), Some(with));
    assert_eq!(PaxosAcceptorEvent::parse_bytes(&without.as_bytes_vec()), Some(without));
}

#[test]
fn round_trip_accepted_and_ko() {
    let accepted = PaxosAcceptorEvent::Accepted {
        seq_number: 0,
        value: Some(PaxosAcceptedValue { seq_number: 0, value: 500 }),
    };
    assert_eq!(PaxosAcceptorEvent::parse_bytes(&accepted.as_bytes_vec()), Some(accepted));
    assert_eq!(
        PaxosAcceptorEvent::parse_bytes(&PaxosAcceptorEvent::KO.as_bytes_vec()),
        Some(PaxosAcceptorEvent::KO)
    );
}

#[test]
fn parse_event_type_picks_the_right_family() {
    let bytes = PaxosAcceptorEvent::KO.as_bytes_vec();
    match Event::parse_event_type(&bytes) {
        Some(Event::PaxosAcceptorEvent(PaxosAcceptorEvent::KO)) => {}
        _ => panic!("wrong family"),
    }
    let bytes = ProcessEvent::ConnectOnPort { port: 1 }.as_bytes_vec();
    match Event::parse_event_type(&bytes) {
        Some(Event::ProcessEvent(ProcessEvent::ConnectOnPort { port: 1 })) => {}
        _ => panic!("wrong family"),
    }
}

#[test]
fn malformed_bytes_decode_to_nothing() {
    assert!(Event::parse_event_type(&[]).is_none());
    assert!(Event::parse_event_type(b"garbage!").is_none());
    assert!(Event::parse_event_type(b"Z0000000001").is_none());
    // a truncated number
    assert!(Event::parse_event_type(b"C123").is_none());
    // non-digits where digits belong
    assert!(Event::parse_event_type(b"Cxxxxxxxxxx").is_none());
}

#[test]
fn trailing_bytes_are_refused() {
    let mut bytes = PaxosProposerEvent::Prepare { seq_number: 9 }.as_bytes_vec();
    bytes.push(b' ');
    assert!(Event::parse_event_type(&bytes).is_none());
    assert!(PaxosProposerEvent::parse_bytes(&bytes).is_none());
}

#[test]
fn view_with_unsorted_ids_is_refused() {
    // U, count 2, then entries 5 and 3: ids out of order
    let mut bytes = Vec::new();
    bytes.extend_from_slice(b"U0000000002");
    bytes.extend_from_slice(b"00000000050000000001x");
    bytes.extend_from_slice(b"00000000030000000001y");
    assert!(RegistryEvent::parse_bytes(&bytes).is_none());
}

#[test]
fn view_with_repeated_id_is_refused_by_builder() {
    assert!(MembershipView::from_entries(vec![(1, "a".to_owned()), (1, "b".to_owned())]).is_none());
    assert!(MembershipView::from_entries(vec![(2, "a".to_owned()), (1, "b".to_owned())]).is_none());
}

#[test]
fn handle_buffer_reads_only_the_received_prefix() {
    let event_bytes = ProcessEvent::ConnectOnPort { port: 8090 }.as_bytes_vec();
    let mut buffer = [0u8; 1000];
    buffer[..event_bytes.len()].copy_from_slice(&event_bytes);
    match handle_buffer(&buffer, event_bytes.len()) {
        Some(Event::ProcessEvent(ProcessEvent::ConnectOnPort { port })) => assert_eq!(port, 8090),
        _ => panic!("wrong decode"),
    }
    // the whole buffer, zero padding included, is no event
    assert!(handle_buffer(&buffer, 1000).is_none());
}
