//! Typed event envelopes, an in-process subscriber registry and the naming
//! rules of the NATS transports, each function with a proved contract.
use vstd::prelude::*;

pub mod text;
pub mod envelop;
pub mod nats;
pub mod local;

pub use envelop::{Event, EventMetaData, Identifier, Uuid};
pub use local::LocalEventStream;
pub use nats::{NatsAloStream, NatsEventStream};

verus! {

/// A payload type that travels on the bus. Each such type names the
/// subject on which its events are published.
pub trait EventType: Send + Sync + 'static {
    const SUBJECT: &'static str;
}

/// A receiver of raw messages: it is handed the subject and the bytes of
/// each message delivered to its subscription and answers with the work of
/// handling it, which completes with `Ok` or with a failure.
pub trait Handler: Send + Sync + 'static {
    /// Why handling a message failed.
    type Failure;

    /// The work of handling one message.
    type Handling: std::future::Future<Output = Result<(), Self::Failure>> + Send + 'static;

    fn handle(&self, subject: String, message: Vec<u8>) -> Self::Handling;
}

} // verus!
