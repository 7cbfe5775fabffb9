//! The message envelope shared by every node, the builder that assembles
//! outbound envelopes, the init handshake payload, and the `Node` trait that
//! each state machine implements.

use vstd::prelude::*;

verus! {

/// Why a node refuses an inbound envelope. Every such refusal is fatal: the
/// process around the node is expected to exit rather than continue with
/// inconsistent state.
#[derive(Debug, Clone, Copy, PartialEq, Eq, Structural)]
pub enum NodeError {
    /// The first envelope handed to a node did not carry an `init` payload.
    NotInit,
    /// A `topology` mapping had no entry for this node's own id.
    SelfNotInTopology,
}

/// The body of an envelope: an optional outgoing sequence number, an optional
/// correlation number naming the `msg_id` of the envelope this one answers,
/// and the payload. On the wire the payload's tag and fields sit flattened
/// beside `msg_id` and `in_reply_to`; that framing happens outside the
/// verified core.
pub struct MsgBody<P> {
    pub msg_id: Option<usize>,
    pub in_reply_to: Option<usize>,
    pub payload: P,
}

/// One envelope: a source address, a destination address, and a body.
pub struct Message<P> {
    pub src: String,
    pub dest: String,
    pub body: MsgBody<P>,
}

/// A partially assembled envelope. `build` demands that all three parts have
/// been supplied; the node state machines always supply them.
pub struct MessageBuilder<P> {
    pub src: Option<String>,
    pub dest: Option<String>,
    pub body: Option<MsgBody<P>>,
}

impl<P> Message<P> {
    /// Derives a reply to this envelope: source and destination swap, the
    /// reply's `in_reply_to` names this envelope's `msg_id`, and the caller
    /// supplies the fresh `msg_id` and the payload. This envelope is read,
    /// not changed.
    pub fn into_reply(&self, id: Option<usize>, payload: P) -> (r: MessageBuilder<P>)
        ensures
            r.src == Some(self.dest),
            r.dest == Some(self.src),
            (r.body matches Some(b)
                && b.msg_id == id
                && b.in_reply_to == self.body.msg_id
                && b.payload == payload),
    {
        MessageBuilder::empty()
            .src(self.dest.clone())
            .send_to(self.src.clone())
            .with_body(id, self.body.msg_id, payload)
    }
}

impl<P> MessageBuilder<P> {
    /// A builder with no part supplied yet.
    pub fn empty() -> (r: Self)
        ensures
            r.src is None,
            r.dest is None,
            r.body is None,
    {
        MessageBuilder { src: None, dest: None, body: None }
    }

    /// Sets the destination address. Redirecting a derived reply to a third
    /// address — as gossip fan-out does — is a second call of this method.
    pub fn send_to(self, dest: String) -> (r: Self)
        ensures
            r.dest == Some(dest),
            r.src == self.src,
            r.body == self.body,
    {
        let mut b = self;
        b.dest = Some(dest);
        b
    }

    /// Sets the source address.
    pub fn src(self, src: String) -> (r: Self)
        ensures
            r.src == Some(src),
            r.dest == self.dest,
            r.body == self.body,
    {
        let mut b = self;
        b.src = Some(src);
        b
    }

    /// Sets the body from its three parts.
    pub fn with_body(self, msg_id: Option<usize>, in_reply_to: Option<usize>, payload: P) -> (r:
        Self)
        ensures
            r.src == self.src,
            r.dest == self.dest,
            (r.body matches Some(b)
                && b.msg_id == msg_id
                && b.in_reply_to == in_reply_to
                && b.payload == payload),
    {
        let mut b = self;
        b.body = Some(MsgBody { msg_id, in_reply_to, payload });
        b
    }

    /// Finishes the envelope. All three parts must have been supplied.
    pub fn build(self) -> (r: Message<P>)
        requires
            self.src is Some,
            self.dest is Some,
            self.body is Some,
        ensures
            r.src == self.src->0,
            r.dest == self.dest->0,
            r.body == self.body->0,
    {
        let MessageBuilder { src, dest, body } = self;
        Message { src: src.unwrap(), dest: dest.unwrap(), body: body.unwrap() }
    }
}

/// Marker for the payload unions that can ride in an envelope body.
pub trait Payload {}

/// The handshake payload. The harness opens every run with one `init`; the
/// node answers `init_ok` and only then handles anything else.
pub enum InitPayload {
    Init { node_id: String, node_ids: Vec<String> },
    InitOk,
    Empty,
}

impl Payload for InitPayload {
}

/// A node state machine. `new` consumes the single `init` envelope and
/// returns the initial state together with the `init_ok` reply (which always
/// carries `msg_id` 0); `reply` consumes one inbound envelope and returns the
/// outbound envelopes it provokes, in the order they must be written.
///
/// Each implementation pins its behaviour down in its own `new_ens`,
/// `reply_req` and `reply_ens`; the two executable methods are verified
/// against those.
pub trait Node: Sized {
    type Payload: Payload;

    /// What `new` returns for a given init envelope.
    spec fn new_ens(msg: Message<InitPayload>, r: Result<(Self, Message<InitPayload>), NodeError>) -> bool;

    /// What an inbound envelope demands of the current state — only bounds
    /// that keep the sequence-number counter within the machine's integers.
    spec fn reply_req(&self, input: Message<Self::Payload>) -> bool;

    /// How the state after `reply` and the emitted envelopes relate to the
    /// state before and the inbound envelope.
    spec fn reply_ens(
        pre: Self,
        input: Message<Self::Payload>,
        post: Self,
        r: Result<Vec<Message<Self::Payload>>, NodeError>,
    ) -> bool;

    fn new(msg: Message<InitPayload>) -> (r: Result<(Self, Message<InitPayload>), NodeError>)
        ensures
            Self::new_ens(msg, r),
    ;

    fn reply(&mut self, input: Message<Self::Payload>) -> (r: Result<
        Vec<Message<Self::Payload>>,
        NodeError,
    >)
        requires
            old(self).reply_req(input),
        ensures
            Self::reply_ens(*old(self), input, *final(self), r),
    ;
}

} // verus!
