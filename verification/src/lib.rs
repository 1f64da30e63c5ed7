//! A minimal runtime core for nodes in a simulated distributed system that
//! talk line-delimited JSON over their standard streams: the wire envelope
//! and its codec, the initialization handshake, a Lamport logical clock,
//! and a collision-resistant unique-id generator.

pub mod clock;
pub mod json;
pub mod message;
pub mod net;
pub mod node;
pub mod nodes;
pub mod snowflake;
pub mod wire;

pub use clock::LamportClock;
pub use message::Body;
pub use message::Init;
pub use message::InitMessageType;
pub use message::Message;
pub use message::Payload;
pub use message::ResponseBody;
pub use net::LogLevel;
pub use node::Node;
