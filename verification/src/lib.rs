//! A single node of a simulated distributed system, driven by a harness that
//! feeds newline-delimited JSON envelopes to its standard input and reads the
//! envelopes it emits on standard output.
//!
//! This crate holds the verified core: the message envelope and its builder,
//! and three node state machines — a gossip-based broadcast node, an echo
//! node and a unique-id node — each written as a pure function from the
//! current state and one inbound envelope to the next state and the ordered
//! list of outbound envelopes. Reading stdin, writing stdout, JSON framing
//! and the gossip timer live outside the verified core and hand plain values
//! in and out.

pub mod broadcast;
pub mod echo;
pub mod protocol;
pub mod unique;
pub mod valset;

pub use broadcast::BroadcastNode;
pub use broadcast::BroadcastPayload;
pub use echo::EchoNode;
pub use echo::EchoPayload;
pub use unique::UniqueNode;
pub use unique::UniquePayload;

pub use protocol::InitPayload;
pub use protocol::Message;
pub use protocol::MessageBuilder;
pub use protocol::MsgBody;
pub use protocol::Node;
pub use protocol::NodeError;
pub use protocol::Payload;
