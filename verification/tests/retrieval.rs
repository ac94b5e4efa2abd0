use q_bridge::flight::{FlightMethod, FlightReply, MyFlightService};
use q_bridge::group::{bytes_contain, group_setup_outcome, GroupSetup, GroupSetupFailed};
use q_bridge::lifecycle::{may_be_delivered, next_state, EntryEvent, EntryState};
use q_bridge::request::InternalRequest;
use q_bridge::retrieval::{
    on_poll, payload_of, plan_batch, process_message, EntryField, Handling, LogEntry, NextStep,
    PollOutcome, EMPTY_BACKOFF_MILLIS, ERROR_BACKOFF_MILLIS, POLL_COUNT,
};
use q_bridge::wire::{encode, DecodeError};

fn request(id: &str, agent: &str, payload: &[u8]) -> InternalRequest {
    InternalRequest {
        request_id: id.to_string(),
        agent_id: agent.to_string(),
        payload: payload.to_vec(),
        metadata: Default::default(),
    }
}

fn entry(id: &str, fields: &[(&str, Vec<u8>)]) -> LogEntry {
    LogEntry {
        entry_id: id.to_string(),
        fields: fields
            .iter()
            .map(|(n, v)| EntryField { name: n.to_string(), value: v.clone() })
            .collect(),
    }
}

#[test]
fn empty_poll_is_waited_out() {
    assert_eq!(on_poll(PollOutcome::Entries(Vec::new())), NextStep::Backoff { millis: 500 });
    assert_eq!(EMPTY_BACKOFF_MILLIS, 500);
    assert_eq!(POLL_COUNT, 1);
}

#[test]
fn failed_poll_is_waited_out_longer() {
    assert_eq!(on_poll(PollOutcome::Failed), NextStep::Backoff { millis: 1000 });
    assert_eq!(ERROR_BACKOFF_MILLIS, 1000);
}

#[test]
fn valid_entry_is_decoded_and_acknowledged() {
    let req = request("r1", "a1", b"hello world");
    let h = process_message("1-0".to_string(), &encode(&req));
    assert_eq!(h, Handling { acknowledge: "1-0".to_string(), decoded: Ok(req) });
}

#[test]
fn poison_entry_is_acknowledged_and_blocks_nothing() {
    let good = request("r2", "a1", b"x");
    let entries = vec![
        entry("1-0", &[("payload", vec![0x0A, 9, 1])]),
        entry("2-0", &[("payload", encode(&good))]),
    ];
    let next = on_poll(PollOutcome::Entries(entries));
    assert_eq!(
        next,
        NextStep::Handle(vec![
            Handling { acknowledge: "1-0".to_string(), decoded: Err(DecodeError) },
            Handling { acknowledge: "2-0".to_string(), decoded: Ok(good) },
        ])
    );
}

#[test]
fn entry_without_payload_field_is_passed_over() {
    let good = request("r3", "", b"");
    let entries = vec![
        entry("1-0", &[("other", vec![1])]),
        entry("2-0", &[("payload", encode(&good))]),
        entry("3-0", &[]),
    ];
    let plan = plan_batch(&entries);
    assert_eq!(plan, vec![Handling { acknowledge: "2-0".to_string(), decoded: Ok(good) }]);
    assert_eq!(
        on_poll(PollOutcome::Entries(vec![entry("1-0", &[("other", vec![1])])])),
        NextStep::Handle(Vec::new())
    );
}

#[test]
fn payload_of_takes_the_last_field_of_that_name() {
    let e = entry("1-0", &[("payload", vec![1]), ("x", vec![2]), ("payload", vec![3]), ("y", vec![4])]);
    assert_eq!(payload_of(&e), Some(&vec![3u8]));
    assert_eq!(payload_of(&entry("1-0", &[("Payload", vec![1])])), None);
}

#[test]
fn group_setup_twice_is_no_error() {
    assert_eq!(group_setup_outcome(None), Ok(GroupSetup::Created));
    assert_eq!(
        group_setup_outcome(Some("BUSYGROUP: Consumer Group name already exists")),
        Ok(GroupSetup::AlreadyExists)
    );
    assert_eq!(
        group_setup_outcome(Some("An error was signalled by the server - BUSYGROUP")),
        Ok(GroupSetup::AlreadyExists)
    );
}

#[test]
fn other_group_setup_errors_are_fatal() {
    assert_eq!(group_setup_outcome(Some("Connection refused")), Err(GroupSetupFailed));
    assert_eq!(group_setup_outcome(Some("")), Err(GroupSetupFailed));
    assert_eq!(group_setup_outcome(Some("BUSYGROU")), Err(GroupSetupFailed));
    assert_eq!(group_setup_outcome(Some("busygroup")), Err(GroupSetupFailed));
}

#[test]
fn bytes_contain_finds_a_run_anywhere() {
    assert!(bytes_contain(b"abcabd", b"abd"));
    assert!(bytes_contain(b"abc", b""));
    assert!(bytes_contain(b"", b""));
    assert!(bytes_contain(b"aab", b"ab"));
    assert!(!bytes_contain(b"ab", b"abc"));
    assert!(!bytes_contain(b"abcabc", b"cc"));
}

#[test]
fn flight_service_is_a_placeholder() {
    let service = MyFlightService::default();
    assert_eq!(service.respond(FlightMethod::DoGet), FlightReply::EmptyStream);
    let others = [
        (FlightMethod::Handshake, "handshake"),
        (FlightMethod::ListFlights, "list_flights"),
        (FlightMethod::GetFlightInfo, "get_flight_info"),
        (FlightMethod::PollFlightInfo, "poll_flight_info"),
        (FlightMethod::GetSchema, "get_schema"),
        (FlightMethod::DoPut, "do_put"),
        (FlightMethod::DoExchange, "do_exchange"),
        (FlightMethod::DoAction, "do_action"),
        (FlightMethod::ListActions, "list_actions"),
    ];
    for (method, name) in others {
        assert_eq!(service.clone().respond(method), FlightReply::Unimplemented(name.to_string()));
    }
}

#[test]
fn acknowledged_entry_is_never_delivered_again() {
    let mut state = EntryState::Unseen;
    assert!(may_be_delivered(state));
    state = next_state(state, EntryEvent::Delivered);
    assert_eq!(state, EntryState::Pending);
    state = next_state(state, EntryEvent::AckConfirmed);
    assert_eq!(state, EntryState::Acknowledged);
    for event in [
        EntryEvent::Delivered,
        EntryEvent::AckConfirmed,
        EntryEvent::AckFailed,
        EntryEvent::ConsumerLost,
    ] {
        state = next_state(state, event);
        assert_eq!(state, EntryState::Acknowledged);
        assert!(!may_be_delivered(state));
    }
}

#[test]
fn unacknowledged_entry_stays_open_to_redelivery() {
    let mut state = next_state(EntryState::Unseen, EntryEvent::Delivered);
    for event in [EntryEvent::ConsumerLost, EntryEvent::Delivered, EntryEvent::AckFailed] {
        state = next_state(state, event);
        assert_eq!(state, EntryState::Pending);
        assert!(may_be_delivered(state));
    }
    assert_eq!(next_state(EntryState::Unseen, EntryEvent::AckConfirmed), EntryState::Unseen);
}
