//! The echo node: answers every `echo` with an `echo_ok` carrying the same
//! text back, numbering its replies from 1.

use vstd::prelude::*;

use crate::protocol::InitPayload;
use crate::protocol::Message;
use crate::protocol::Node;
use crate::protocol::NodeError;
use crate::protocol::Payload;

verus! {

/// The payload union of the echo protocol.
pub enum EchoPayload {
    Echo { echo: String },
    EchoOk { echo: String },
    Empty,
}

impl Payload for EchoPayload {
}

/// The echo node's state: nothing but the sequence-number counter.
pub struct EchoNode {
    pub id: usize,
}

impl Node for EchoNode {
    type Payload = EchoPayload;

    /// Echo replies `init_ok` to whatever envelope opens the run and starts
    /// counting at 1.
    open spec fn new_ens(
        msg: Message<InitPayload>,
        r: Result<(Self, Message<InitPayload>), NodeError>,
    ) -> bool {
        r matches Ok((n, init_ok)) && {
            &&& n.id == 1
            &&& init_ok.src == msg.dest
            &&& init_ok.dest == msg.src
            &&& (init_ok.body.msg_id matches Some(z) && z == 0)
            &&& init_ok.body.in_reply_to == msg.body.msg_id
            &&& init_ok.body.payload is InitOk
        }
    }

    /// Room in the counter for one more reply.
    open spec fn reply_req(&self, input: Message<EchoPayload>) -> bool {
        input.body.payload is Echo ==> self.id < usize::MAX
    }

    /// An `echo` provokes exactly one `echo_ok` back to the sender with the
    /// same text; anything else is ignored.
    open spec fn reply_ens(
        pre: Self,
        input: Message<EchoPayload>,
        post: Self,
        r: Result<Vec<Message<EchoPayload>>, NodeError>,
    ) -> bool {
        match input.body.payload {
            EchoPayload::Echo { echo } => r matches Ok(out) && {
                &&& post.id == pre.id + 1
                &&& out@.len() == 1
                &&& out@[0].src == input.dest
                &&& out@[0].dest == input.src
                &&& (out@[0].body.msg_id matches Some(n) && n == pre.id)
                &&& out@[0].body.in_reply_to == input.body.msg_id
                &&& (out@[0].body.payload matches EchoPayload::EchoOk { echo: back } && back
                    == echo)
            },
            _ => (r matches Ok(out) && out@.len() == 0 && post == pre),
        }
    }

    fn new(msg: Message<InitPayload>) -> (r: Result<(Self, Message<InitPayload>), NodeError>) {
        let init_ok = msg.into_reply(Some(0), InitPayload::InitOk).build();
        Ok((EchoNode { id: 1 }, init_ok))
    }

    fn reply(&mut self, input: Message<EchoPayload>) -> (r: Result<
        Vec<Message<EchoPayload>>,
        NodeError,
    >) {
        match &input.body.payload {
            EchoPayload::Echo { echo } => {
                let back = echo.clone();
                let mut out: Vec<Message<EchoPayload>> = Vec::new();
                out.push(
                    input.into_reply(Some(self.id), EchoPayload::EchoOk { echo: back }).build(),
                );
                self.id = self.id + 1;
                Ok(out)
            },
            _ => Ok(Vec::new()),
        }
    }
}

} // verus!
