//! An authoritative DNS responder for rebinding: names that embed two IPv4
//! addresses resolve, at random, to one or the other with a one-second TTL.

pub mod address;
pub mod codec;
pub mod envelope;
pub mod laws;
pub mod numeric;
pub mod resolver;
pub mod text;

pub use address::Ipv4;
pub use codec::{decode, encode, DecodeError};
pub use envelope::{respond, Response, Warning};
pub use numeric::port_in_range;
pub use resolver::{normalize, resolve, resolve_query, AnswerRecord, Query, QueryType, Resolution, ServerConfig};
