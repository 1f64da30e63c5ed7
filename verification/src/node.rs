//! The node runtime's decision logic: the initialization handshake and the
//! per-line dispatch step. The surrounding process (reading lines, writing
//! lines, the background reader thread) lives outside the library and only
//! feeds lines in and carries reply lines out.

use vstd::prelude::*;

use crate::message::Body;
use crate::message::BodyV;
use crate::message::Init;
use crate::message::InitMessageType;
use crate::message::Message;
use crate::message::MessageV;
use crate::message::Payload;
use crate::message::PayloadV;
use crate::wire::decode_message;
use crate::wire::encode_message;
use crate::wire::sp_decode_message;
use crate::wire::sp_encode_message;
use crate::wire::WireError;

verus! {

/// Why a node rejects a message or its own construction.
#[derive(Debug, Clone, Copy, PartialEq, Eq, Structural)]
pub enum NodeError {
    /// The message's variant is not one this node answers.
    UnexpectedMessage,
    /// The node's name does not encode a usable worker id.
    InvalidNodeId,
    /// The id generator detected a clock regression and yields no value.
    IdExhausted,
}

impl NodeError {
    /// A short description for the diagnostic stream.
    pub fn text(&self) -> &'static str {
        match self {
            NodeError::UnexpectedMessage => "got invalid message type",
            NodeError::InvalidNodeId => "error could not create seed",
            NodeError::IdExhausted => "error generating id",
        }
    }
}

/// Why the runtime gives up on a line: every case is fatal to the process.
#[derive(Debug, Clone, Copy, PartialEq, Eq, Structural)]
pub enum RuntimeError {
    /// The line failed to decode (a protocol violation).
    Wire(WireError),
    /// The first message carried something other than the init payload.
    NotInit,
    /// The node's handler failed on a message.
    Handler(NodeError),
}

/// A node behavior: how to build the node from the handshake payload, and
/// how to answer one inbound message with zero or more replies. Both may
/// fail, and a failure is fatal to the process.
pub trait Node<MessageType>: Sized {
    /// Builds the node instance from the handshake payload.
    fn from_init(init: Init) -> Result<Self, NodeError>;

    /// Handles one inbound message, yielding the replies to send, in order.
    fn process_message(&mut self, message: Message<MessageType>) -> Result<
        Vec<Message<MessageType>>,
        NodeError,
    >;
}

/// The acknowledgement a handshake message gets: addressed back to the
/// sender, from the name the handshake addressed, answering its `msg_id`.
pub open spec fn ack_of(m: MessageV<PayloadV>) -> MessageV<PayloadV> {
    MessageV {
        src: m.dst,
        dst: m.src,
        body: BodyV {
            msg_id: Some(0u64),
            in_reply_to: m.body.msg_id,
            message: PayloadV::InitOk,
        },
    }
}

/// The acknowledgement envelope for a decoded handshake message: `src` is
/// the name the handshake was addressed to, `dst` its sender, and
/// `in_reply_to` answers the handshake's `msg_id` (absent if none came).
pub fn init_ack(m: &Message<InitMessageType>) -> (r: Message<InitMessageType>)
    ensures
        r@.src == m@.dst,
        r@.dst == m@.src,
        r@.body.msg_id == Some(0u64),
        r@.body.in_reply_to == m@.body.msg_id,
        r@.body.message is InitOk,
{
    Message {
        src: m.dst.clone(),
        dst: m.src.clone(),
        body: Body {
            msg_id: Some(0),
            in_reply_to: m.body.msg_id,
            message: InitMessageType::InitOk,
        },
    }
}

/// Runs the decision half of the handshake on the first line read: the
/// line must decode to an envelope carrying the init payload — anything
/// else is a fatal protocol violation. Yields the init payload and the
/// encoded acknowledgement line to emit before any further output.
pub fn handshake_line(line: &str) -> (r: Result<(Init, String), RuntimeError>)
    ensures
        ({
            let sp = sp_decode_message(line@);
            match r {
                Ok((init, ack_line)) => sp is Ok && sp->Ok_0.body.message is Init && init@
                    == sp->Ok_0.body.message->Init_0 && ack_line@ == sp_encode_message(
                    ack_of(sp->Ok_0),
                ),
                Err(RuntimeError::NotInit) => sp is Ok && !(sp->Ok_0.body.message is Init),
                Err(RuntimeError::Wire(e)) => sp == Err::<MessageV<PayloadV>, WireError>(e),
                Err(RuntimeError::Handler(_)) => false,
            }
        }),
{
    match decode_message(line) {
        Err(e) => Err(RuntimeError::Wire(e)),
        Ok(m) => {
            let Message { src, dst, body } = m;
            let Body { msg_id, in_reply_to: _, message } = body;
            match message {
                Payload::Init(init) => {
                    let ack = Message {
                        src: dst,
                        dst: src,
                        body: Body { msg_id: Some(0), in_reply_to: msg_id, message: Payload::InitOk },
                    };
                    let ack_line = encode_message(&ack);
                    Ok((init, ack_line))
                },
                _ => Err(RuntimeError::NotInit),
            }
        },
    }
}

/// Encodes each reply envelope, in order, as its canonical line of text.
pub fn encode_replies(replies: &Vec<Message<Payload>>) -> (r: Vec<String>)
    ensures
        r@.len() == replies@.len(),
        forall|i: int|
            0 <= i < replies@.len() ==> #[trigger] r@[i]@ == sp_encode_message(replies@[i]@),
{
    let mut lines: Vec<String> = Vec::new();
    let mut i: usize = 0;
    while i < replies.len()
        invariant
            i <= replies@.len(),
            lines@.len() == i,
            forall|k: int| 0 <= k < i ==> #[trigger] lines@[k]@ == sp_encode_message(replies@[k]@),
        decreases replies@.len() - i,
    {
        lines.push(encode_message(&replies[i]));
        i = i + 1;
    }
    lines
}

/// Text that is the canonical encoding of some envelope.
pub open spec fn is_encoded_message(l: Seq<char>) -> bool {
    exists|mv: MessageV<PayloadV>| l == #[trigger] sp_encode_message(mv)
}

/// Runs one step of the dispatch loop on one post-handshake line: decodes
/// it (a failure is fatal — the stream is likely desynchronized), hands
/// the message to the node, and encodes each of the node's replies in
/// order. Every returned line is the canonical encoding of some envelope;
/// what the lines say is up to the node behavior, which carries its own
/// contract.
pub fn process_line<N: Node<Payload>>(node: &mut N, line: &str) -> (r: Result<
    Vec<String>,
    RuntimeError,
>)
    ensures
        ({
            let sp = sp_decode_message(line@);
            match r {
                Ok(lines) => sp is Ok && (forall|i: int|
                    0 <= i < lines@.len() ==> #[trigger] is_encoded_message(lines@[i]@)),
                Err(RuntimeError::Wire(e)) => sp == Err::<MessageV<PayloadV>, WireError>(e),
                Err(RuntimeError::Handler(_)) => sp is Ok,
                Err(RuntimeError::NotInit) => false,
            }
        }),
{
    let message = match decode_message(line) {
        Err(e) => {
            return Err(RuntimeError::Wire(e));
        },
        Ok(m) => m,
    };
    let replies = match node.process_message(message) {
        Err(e) => {
            return Err(RuntimeError::Handler(e));
        },
        Ok(r) => r,
    };
    let lines = encode_replies(&replies);
    proof {
        assert forall|i: int| 0 <= i < lines@.len() implies #[trigger] is_encoded_message(
            lines@[i]@,
        ) by {
            assert(lines@[i]@ == sp_encode_message(replies@[i]@));
        }
    }
    Ok(lines)
}

} // verus!
