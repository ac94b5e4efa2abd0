//! The admission side: give a request its identity, frame it for the log,
//! and tell the caller what became of it.

use crate::request::{InternalRequest, RequestView};
use crate::wire::{decode_spec, encode, encode_spec, fits_wire};
use vstd::prelude::*;

verus! {

/// What the caller is told once the log has taken the entry.
#[derive(Clone, Debug, PartialEq, Eq)]
pub struct SubmitRequestResponse {
    pub request_id: String,
    pub status: String,
}

/// Why a submission failed.
#[derive(Clone, Copy, Debug, PartialEq, Eq)]
pub enum SubmitError {
    /// The log could not be reached.
    ConnectFailed,
    /// The request could not be put into bytes. `prepare_submission` never
    /// reports this: every request held in memory has bytes. It names the
    /// failure for callers that frame requests by other means.
    SerializeFailed,
    /// The log refused the entry.
    AppendRejected,
}

/// How the attempt to append an entry ended.
#[derive(Clone, Copy, Debug, PartialEq, Eq)]
pub enum AppendOutcome {
    /// The log confirmed the entry.
    Appended,
    /// No connection to the log could be had.
    ConnectFailed,
    /// The log was reached and refused the entry.
    Rejected,
}

/// A request ready for the log: its identity and the value of the entry's
/// single field.
#[derive(Clone, Debug, PartialEq, Eq)]
pub struct Submission {
    pub request_id: String,
    pub entry_payload: Vec<u8>,
}

/// The status text of an accepted submission.
pub open spec fn accepted_text() -> Seq<char> {
    "accepted"@
}

/// The name of the entry field that carries the request.
pub open spec fn payload_field_name() -> Seq<char> {
    "payload"@
}

/// Whether `c` is a lower-case hexadecimal digit.
pub open spec fn is_lower_hex(c: char) -> bool {
    ('0' <= c && c <= '9') || ('a' <= c && c <= 'f')
}

/// The shape of a generated identifier: 36 characters, hyphens after the
/// groups of 8, 4, 4 and 4 digits, lower-case hexadecimal digits elsewhere.
pub open spec fn is_generated_id(id: Seq<char>) -> bool {
    &&& id.len() == 36
    &&& forall|i: int|
        0 <= i < 36 ==> if i == 8 || i == 13 || i == 18 || i == 23 {
            #[trigger] id[i] == '-'
        } else {
            is_lower_hex(id[i])
        }
}

/// How the identity `out` of a submission follows from the identity `given`
/// by the caller: kept if there was one, generated if not.
pub open spec fn identity_rule(given: Seq<char>, out: Seq<char>) -> bool {
    if given.len() == 0 {
        is_generated_id(out)
    } else {
        out == given
    }
}

/// `Uuid::new_v4` of uuid, rendered with `to_string`: a random identifier in
/// hyphenated lower-case hexadecimal form. Only the shape is claimed; which
/// identifier comes back is a matter of chance.
#[verifier::external_body]
fn fresh_request_id() -> (id: String)
    ensures
        is_generated_id(id@),
{
    uuid::Uuid::new_v4().to_string()
}

/// `req` under the identity `fresh`, unless it already has one.
pub fn with_request_id(req: InternalRequest, fresh: String) -> (r: InternalRequest)
    ensures
        r@ == (RequestView {
            request_id: if req@.request_id.len() == 0 {
                fresh@
            } else {
                req@.request_id
            },
            ..req@
        }),
{
    if req.request_id.as_str().is_empty() {
        InternalRequest {
            request_id: fresh,
            agent_id: req.agent_id,
            payload: req.payload,
            metadata: req.metadata,
        }
    } else {
        req
    }
}

/// Gives `req` an identity if it has none: a caller's identifier is kept, an
/// empty one is replaced by a generated one. Nothing else changes.
pub fn assign_request_id(req: InternalRequest) -> (r: InternalRequest)
    ensures
        identity_rule(req@.request_id, r@.request_id),
        r@ == (RequestView { request_id: r@.request_id, ..req@ }),
        r@.request_id.len() > 0,
{
    if req.request_id.as_str().is_empty() {
        with_request_id(req, fresh_request_id())
    } else {
        req
    }
}

/// Makes `req` ready for the log: assigns the identity, then frames the
/// whole request as the value of the entry's field. A consumer that reads
/// the entry gets the request with that identity, field for field.
pub fn prepare_submission(req: InternalRequest) -> (s: Submission)
    ensures
        identity_rule(req@.request_id, s.request_id@),
        s.request_id@.len() > 0,
        s.entry_payload@ == encode_spec(RequestView { request_id: s.request_id@, ..req@ }),
        fits_wire(RequestView { request_id: s.request_id@, ..req@ }),
        req.wf() ==> decode_spec(s.entry_payload@) == Some(
            RequestView { request_id: s.request_id@, ..req@ },
        ),
{
    let named = assign_request_id(req);
    let entry_payload = encode(&named);
    Submission { request_id: named.request_id, entry_payload }
}

/// The name of the entry field under which the request is appended.
pub fn payload_field() -> (name: String)
    ensures
        name@ == payload_field_name(),
{
    "payload".to_owned()
}

/// What the caller is told: "accepted" under the request's identity once
/// the log has confirmed the entry, the matching error otherwise.
pub fn conclude_submission(request_id: String, outcome: AppendOutcome) -> (r: Result<
    SubmitRequestResponse,
    SubmitError,
>)
    ensures
        match outcome {
            AppendOutcome::Appended => r matches Ok(resp) && resp.request_id@ == request_id@
                && resp.status@ == accepted_text(),
            AppendOutcome::ConnectFailed => r == Err::<SubmitRequestResponse, SubmitError>(
                SubmitError::ConnectFailed,
            ),
            AppendOutcome::Rejected => r == Err::<SubmitRequestResponse, SubmitError>(
                SubmitError::AppendRejected,
            ),
        },
{
    match outcome {
        AppendOutcome::Appended => Ok(
            SubmitRequestResponse { request_id, status: "accepted".to_owned() },
        ),
        AppendOutcome::ConnectFailed => Err(SubmitError::ConnectFailed),
        AppendOutcome::Rejected => Err(SubmitError::AppendRejected),
    }
}

impl SubmitError {
    /// The text shown to the caller.
    pub open spec fn message_text(self) -> Seq<char> {
        match self {
            SubmitError::ConnectFailed => "Failed to connect to buffer"@,
            SubmitError::SerializeFailed => "Failed to serialize request"@,
            SubmitError::AppendRejected => "Failed to write to buffer"@,
        }
    }

    /// The text shown to the caller.
    pub fn message(&self) -> (text: String)
        ensures
            text@ == self.message_text(),
    {
        match self {
            SubmitError::ConnectFailed => "Failed to connect to buffer".to_owned(),
            SubmitError::SerializeFailed => "Failed to serialize request".to_owned(),
            SubmitError::AppendRejected => "Failed to write to buffer".to_owned(),
        }
    }
}

/// The request that the HTTP transport builds from a JSON body: always a
/// generated identity, the agent and the payload text where the body has
/// them as strings, no metadata.
pub fn rest_request(agent_id: Option<String>, payload: Option<String>) -> (r: InternalRequest)
    ensures
        is_generated_id(r@.request_id),
        r@.agent_id == (match agent_id {
            Some(a) => a@,
            None => Seq::<char>::empty(),
        }),
        r@.payload == (match payload {
            Some(p) => vstd::utf8::encode_utf8(p@),
            None => Seq::<u8>::empty(),
        }),
        r@.metadata == Seq::<(Seq<char>, Seq<char>)>::empty(),
        r.wf(),
{
    let agent = match agent_id {
        Some(a) => a,
        None => String::new(),
    };
    let bytes: Vec<u8> = match &payload {
        Some(p) => vstd::slice::slice_to_vec(p.as_str().as_bytes()),
        None => Vec::new(),
    };
    let r = InternalRequest {
        request_id: fresh_request_id(),
        agent_id: agent,
        payload: bytes,
        metadata: Vec::new(),
    };
    assert(r@.metadata =~= Seq::empty());
    r
}

/// A JSON document as serde_json holds it.
#[verifier::external_type_specification]
#[verifier::external_body]
pub struct ExJsonValue(serde_json::Value);

/// The text of `value` where it is a JSON string, `None` where it is
/// anything else: what `Value::as_str` of serde_json tells of it.
pub uninterp spec fn json_string(value: serde_json::Value) -> Option<Seq<char>>;

/// What `body` holds as text: the members of a JSON object whose value is a
/// JSON string, each name with its text; nothing where it is no object.
pub uninterp spec fn json_text_members(body: serde_json::Value) -> Map<Seq<char>, Seq<char>>;

/// The text that `body` holds under `name`, if it holds one there.
pub open spec fn member_text(body: serde_json::Value, name: Seq<char>) -> Option<Seq<char>> {
    if json_text_members(body).contains_key(name) {
        Some(json_text_members(body)[name])
    } else {
        None
    }
}

/// The text that `body` holds under `name`, if it is an object with a string
/// there.
fn text_member(body: &serde_json::Value, name: &str) -> (r: Option<String>)
    ensures
        match member_text(*body, name@) {
            Some(t) => r matches Some(s) && s@ == t,
            None => r is None,
        },
{
    match json_member(body, name) {
        Some(v) => json_text(v),
        None => None,
    }
}

/// `Value::get` of serde_json with a text key: the member of that name where
/// `body` is an object that has one, `None` where it has none or is no
/// object. An object has at most one member of a name, so a member that is a
/// string is the text held under that name, and one that is no string means
/// that no text is held under it.
#[verifier::external_body]
fn json_member<'a>(body: &'a serde_json::Value, name: &str) -> (r: Option<&'a serde_json::Value>)
    ensures
        match r {
            Some(m) => match json_string(*m) {
                Some(t) => json_text_members(*body).contains_key(name@) && json_text_members(
                    *body,
                )[name@] == t,
                None => !json_text_members(*body).contains_key(name@),
            },
            None => !json_text_members(*body).contains_key(name@),
        },
{
    body.get(name)
}

/// `Value::as_str` of serde_json: the text where `value` is a JSON string,
/// `None` where it is anything else.
#[verifier::external_body]
fn json_text(value: &serde_json::Value) -> (r: Option<String>)
    ensures
        match json_string(*value) {
            Some(t) => r matches Some(s) && s@ == t,
            None => r is None,
        },
{
    match value.as_str() {
        Some(s) => Some(s.to_owned()),
        None => None,
    }
}

/// The text of `t`, or no text where there is none.
pub open spec fn text_or_empty(t: Option<Seq<char>>) -> Seq<char> {
    match t {
        Some(s) => s,
        None => Seq::empty(),
    }
}

/// The request that the HTTP transport builds from a JSON body: a generated
/// identity, as agent the text under "agent_id", as payload the bytes of the
/// text under "payload", each empty where the body holds no text under that
/// name, and no metadata.
pub fn rest_submit_request(body: &serde_json::Value) -> (r: InternalRequest)
    ensures
        is_generated_id(r@.request_id),
        r@.agent_id == text_or_empty(member_text(*body, "agent_id"@)),
        r@.payload == vstd::utf8::encode_utf8(text_or_empty(member_text(*body, "payload"@))),
        r@.metadata == Seq::<(Seq<char>, Seq<char>)>::empty(),
        r.wf(),
{
    let agent_id = text_member(body, "agent_id");
    let payload = text_member(body, "payload");
    let r = rest_request(agent_id, payload);
    assert(vstd::utf8::encode_utf8(Seq::<char>::empty()) =~= Seq::<u8>::empty());
    r
}

/// The HTTP status of a submission: 202 once accepted, 500 on any error.
pub fn rest_status(result: &Result<SubmitRequestResponse, SubmitError>) -> (code: u16)
    ensures
        code == (if result is Ok {
            202u16
        } else {
            500u16
        }),
{
    match result {
        Ok(_) => 202,
        Err(_) => 500,
    }
}

} // verus!
