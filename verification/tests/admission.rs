use q_bridge::admission::{
    assign_request_id, conclude_submission, payload_field, prepare_submission, rest_request,
    rest_status, rest_submit_request, with_request_id, AppendOutcome, SubmitError, SubmitRequestResponse,
};
use q_bridge::request::InternalRequest;
use q_bridge::wire::decode;

fn request(id: &str, agent: &str, payload: &[u8]) -> InternalRequest {
    InternalRequest {
        request_id: id.to_string(),
        agent_id: agent.to_string(),
        payload: payload.to_vec(),
        metadata: Default::default(),
    }
}

fn looks_generated(id: &str) -> bool {
    id.len() == 36
        && id.chars().enumerate().all(|(i, c)| {
            if i == 8 || i == 13 || i == 18 || i == 23 {
                c == '-'
            } else {
                c.is_ascii_digit() || ('a'..='f').contains(&c)
            }
        })
}

#[test]
fn test_process_request_success() {
    let request = InternalRequest {
        request_id: "test-req-123".to_string(),
        agent_id: "test-agent".to_string(),
        payload: b"hello world".to_vec(),
        metadata: Default::default(),
    };

    let submission = prepare_submission(request);
    let result = conclude_submission(submission.request_id.clone(), AppendOutcome::Appended);
    assert!(result.is_ok());

    let response = result.unwrap();
    assert_eq!(response.request_id, "test-req-123");
    assert_eq!(response.status, "accepted");

    assert_eq!(payload_field(), "payload");
    let req: InternalRequest = decode(submission.entry_payload.as_slice()).unwrap();
    assert_eq!(req.request_id, "test-req-123");
    assert_eq!(req.payload, b"hello world".to_vec());
}

#[test]
fn empty_request_id_gets_a_generated_one() {
    let submission = prepare_submission(request("", "a1", b"hello world"));
    assert!(!submission.request_id.is_empty());
    assert!(looks_generated(&submission.request_id));
}

#[test]
fn generated_ids_differ_between_calls() {
    let mut seen = std::collections::HashSet::new();
    for _ in 0..200 {
        let id = prepare_submission(request("", "a1", b"x")).request_id;
        assert!(seen.insert(id));
    }
}

#[test]
fn preset_request_id_is_kept() {
    let named = assign_request_id(request("mine", "a1", b"x"));
    assert_eq!(named, request("mine", "a1", b"x"));
    let submission = prepare_submission(request("mine", "a1", b"x"));
    assert_eq!(submission.request_id, "mine");
}

#[test]
fn with_request_id_fills_only_an_empty_identity() {
    assert_eq!(
        with_request_id(request("", "a", b"p"), "fresh".to_string()),
        request("fresh", "a", b"p")
    );
    assert_eq!(
        with_request_id(request("old", "a", b"p"), "fresh".to_string()),
        request("old", "a", b"p")
    );
}

#[test]
fn submission_without_id_is_accepted_and_logged_whole() {
    let submission = prepare_submission(request("", "a1", b"hello world"));
    let response = conclude_submission(submission.request_id.clone(), AppendOutcome::Appended)
        .expect("the log took the entry");
    assert_eq!(response.status, "accepted");
    assert!(looks_generated(&response.request_id));
    let logged = decode(&submission.entry_payload).expect("the entry holds a request");
    assert_eq!(logged, request(&response.request_id, "a1", b"hello world"));
}

#[test]
fn failed_append_is_reported_to_the_caller() {
    assert_eq!(
        conclude_submission("id".to_string(), AppendOutcome::ConnectFailed),
        Err(SubmitError::ConnectFailed)
    );
    assert_eq!(
        conclude_submission("id".to_string(), AppendOutcome::Rejected),
        Err(SubmitError::AppendRejected)
    );
    assert_eq!(SubmitError::ConnectFailed.message(), "Failed to connect to buffer");
    assert_eq!(SubmitError::SerializeFailed.message(), "Failed to serialize request");
    assert_eq!(SubmitError::AppendRejected.message(), "Failed to write to buffer");
}

#[test]
fn rest_request_takes_what_the_body_has() {
    let r = rest_request(Some("a1".to_string()), Some("hello world".to_string()));
    assert!(looks_generated(&r.request_id));
    assert_eq!(r.agent_id, "a1");
    assert_eq!(r.payload, b"hello world".to_vec());
    assert!(r.metadata.is_empty());
    let r = rest_request(None, None);
    assert!(looks_generated(&r.request_id));
    assert_eq!(r.agent_id, "");
    assert!(r.payload.is_empty());
}

#[test]
fn rest_status_is_202_or_500() {
    let ok: Result<SubmitRequestResponse, SubmitError> = Ok(SubmitRequestResponse {
        request_id: "id".to_string(),
        status: "accepted".to_string(),
    });
    assert_eq!(rest_status(&ok), 202);
    assert_eq!(rest_status(&Err(SubmitError::AppendRejected)), 500);
}

#[test]
fn rest_submit_request_reads_the_two_texts() {
    let body: serde_json::Value =
        serde_json::from_str("{\"agent_id\":\"a1\",\"payload\":\"hello world\",\"x\":1}")
            .unwrap();
    let r = rest_submit_request(&body);
    assert!(looks_generated(&r.request_id));
    assert_eq!(r.agent_id, "a1");
    assert_eq!(r.payload, b"hello world".to_vec());
    assert!(r.metadata.is_empty());
}

#[test]
fn rest_submit_request_takes_missing_or_other_values_as_empty() {
    for text in ["{}", "{\"agent_id\":7,\"payload\":[1]}", "[\"agent_id\"]", "null", "\"payload\""] {
        let body: serde_json::Value = serde_json::from_str(text).unwrap();
        let r = rest_submit_request(&body);
        assert!(looks_generated(&r.request_id));
        assert_eq!(r.agent_id, "");
        assert!(r.payload.is_empty());
        assert!(r.metadata.is_empty());
    }
}
