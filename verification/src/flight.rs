//! The columnar transfer service: a placeholder that serves no data yet.

use vstd::prelude::*;

verus! {

/// The calls that the transfer service can receive.
#[derive(Clone, Copy, Debug, PartialEq, Eq)]
pub enum FlightMethod {
    DoGet,
    Handshake,
    ListFlights,
    GetFlightInfo,
    PollFlightInfo,
    GetSchema,
    DoPut,
    DoExchange,
    DoAction,
    ListActions,
}

/// What the transfer service answers.
#[derive(Clone, Debug, PartialEq, Eq)]
pub enum FlightReply {
    /// A stream that ends at once.
    EmptyStream,
    /// The call is not implemented; the text names it.
    Unimplemented(String),
}

impl FlightMethod {
    /// The name of the call as the service reports it.
    pub open spec fn name_text(self) -> Seq<char> {
        match self {
            FlightMethod::DoGet => "do_get"@,
            FlightMethod::Handshake => "handshake"@,
            FlightMethod::ListFlights => "list_flights"@,
            FlightMethod::GetFlightInfo => "get_flight_info"@,
            FlightMethod::PollFlightInfo => "poll_flight_info"@,
            FlightMethod::GetSchema => "get_schema"@,
            FlightMethod::DoPut => "do_put"@,
            FlightMethod::DoExchange => "do_exchange"@,
            FlightMethod::DoAction => "do_action"@,
            FlightMethod::ListActions => "list_actions"@,
        }
    }

    /// The name of the call as the service reports it.
    pub fn name(&self) -> (text: String)
        ensures
            text@ == self.name_text(),
    {
        match self {
            FlightMethod::DoGet => "do_get".to_owned(),
            FlightMethod::Handshake => "handshake".to_owned(),
            FlightMethod::ListFlights => "list_flights".to_owned(),
            FlightMethod::GetFlightInfo => "get_flight_info".to_owned(),
            FlightMethod::PollFlightInfo => "poll_flight_info".to_owned(),
            FlightMethod::GetSchema => "get_schema".to_owned(),
            FlightMethod::DoPut => "do_put".to_owned(),
            FlightMethod::DoExchange => "do_exchange".to_owned(),
            FlightMethod::DoAction => "do_action".to_owned(),
            FlightMethod::ListActions => "list_actions".to_owned(),
        }
    }
}

/// The transfer service. It holds no state.
#[derive(Clone, Default)]
pub struct MyFlightService {}

impl MyFlightService {
    /// Answers a call: a fetch gets an empty stream, every other call is
    /// reported as not implemented, under its own name.
    pub fn respond(&self, method: FlightMethod) -> (reply: FlightReply)
        ensures
            match method {
                FlightMethod::DoGet => reply == FlightReply::EmptyStream,
                _ => reply matches FlightReply::Unimplemented(text) && text@ == method.name_text(),
            },
    {
        match method {
            FlightMethod::DoGet => FlightReply::EmptyStream,
            _ => FlightReply::Unimplemented(method.name()),
        }
    }
}

} // verus!
