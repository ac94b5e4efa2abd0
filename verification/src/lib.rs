//! Durable request buffering: the admission side gives each request an
//! identity and frames it for an append-only log, the retrieval side decides
//! what to do with every entry that a consumer group hands out.

pub mod admission;
pub mod flight;
pub mod group;
pub mod lifecycle;
pub mod request;
pub mod retrieval;
pub mod roundtrip;
pub mod varint;
pub mod wire;
