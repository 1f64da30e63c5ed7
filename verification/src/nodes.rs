//! The example node behaviors the harness drives: answering echo requests,
//! and handing out unique ids. Each implements the runtime's `Node`
//! capability over the wire payload.

use vstd::prelude::*;

use crate::json::number_at;
use crate::json::sp_number;
use crate::json::str_chars;
use crate::message::Body;
use crate::message::BodyV;
use crate::message::Init;
use crate::message::Message;
use crate::message::MessageV;
use crate::message::Payload;
use crate::message::PayloadV;
use crate::node::Node;
use crate::node::NodeError;
use crate::snowflake::snow_step;
use crate::snowflake::next_follows_step;
use crate::snowflake::Snowflake;
use crate::snowflake::SnowflakeV;
use crate::snowflake::MAX_WORKER_ID;

verus! {

/// True when the node name is an `n` followed by the decimal worker number
/// `v`, and `v` fits the id layout.
pub open spec fn is_worker_id(s: Seq<char>, v: u64) -> bool {
    s.len() >= 1 && s[0] == 'n' && sp_number(s, 1) == Some((v, s.len() as int)) && v
        <= MAX_WORKER_ID
}

/// Derives the worker id from the node's assigned name: an `n` prefix
/// followed by the worker number. A name of any other shape, or a number
/// beyond the layout's 0 to 31 range, is a fatal construction error.
pub fn worker_id_of(node_id: &str) -> (r: Result<u64, NodeError>)
    ensures
        ({
            match r {
                Ok(v) => is_worker_id(node_id@, v),
                Err(e) => e == NodeError::InvalidNodeId && !(exists|v: u64|
                    is_worker_id(node_id@, v)),
            }
        }),
{
    let cs = str_chars(node_id);
    if cs.len() == 0 {
        return Err(NodeError::InvalidNodeId);
    }
    if cs[0] != 'n' {
        return Err(NodeError::InvalidNodeId);
    }
    match number_at(&cs, 1) {
        Some((v, e)) => {
            if e == cs.len() && v <= MAX_WORKER_ID {
                Ok(v)
            } else {
                Err(NodeError::InvalidNodeId)
            }
        },
        None => Err(NodeError::InvalidNodeId),
    }
}

/// A node that answers every echo request with the same text.
pub struct EchoNode {
    pub id: String,
}

impl EchoNode {
    /// The reply an echo request gets: the same `echo` text back, from this
    /// node to the requester, answering the request's id. Any other
    /// variant is a handler failure.
    pub fn reply(&self, message: &Message<Payload>) -> (r: Result<Message<Payload>, NodeError>)
        ensures
            r is Ok <==> message@.body.message is Echo,
            r is Ok ==> r->Ok_0@ == (MessageV {
                src: self.id@,
                dst: message@.src,
                body: BodyV {
                    msg_id: Some(0u64),
                    in_reply_to: message@.body.msg_id,
                    message: PayloadV::EchoOk(message@.body.message->Echo_0),
                },
            }),
            r is Err ==> r->Err_0 == NodeError::UnexpectedMessage,
    {
        match &message.body.message {
            Payload::Echo(echo) => Ok(
                Message {
                    src: self.id.clone(),
                    dst: message.src.clone(),
                    body: Body {
                        msg_id: Some(0),
                        in_reply_to: message.body.msg_id,
                        message: Payload::EchoOk(echo.clone()),
                    },
                },
            ),
            _ => Err(NodeError::UnexpectedMessage),
        }
    }
}

impl Node<Payload> for EchoNode {
    /// Construction never fails: the node keeps its assigned name.
    fn from_init(init: Init) -> (r: Result<Self, NodeError>)
        ensures
            r is Ok,
            r->Ok_0.id@ == init@.node_id,
    {
        Ok(EchoNode { id: init.node_id })
    }

    /// Exactly one reply per echo request — the text returned verbatim,
    /// addressed back to the requester, answering its id; any other variant
    /// is a handler failure. The node's state never changes.
    fn process_message(&mut self, message: Message<Payload>) -> (r: Result<
        Vec<Message<Payload>>,
        NodeError,
    >)
        ensures
            r is Ok <==> message@.body.message is Echo,
            r is Ok ==> r->Ok_0@.len() == 1 && r->Ok_0@[0]@ == (MessageV {
                src: old(self).id@,
                dst: message@.src,
                body: BodyV {
                    msg_id: Some(0u64),
                    in_reply_to: message@.body.msg_id,
                    message: PayloadV::EchoOk(message@.body.message->Echo_0),
                },
            }),
            r is Err ==> r->Err_0 == NodeError::UnexpectedMessage,
            *final(self) == *old(self),
    {
        let reply = self.reply(&message)?;
        let mut out: Vec<Message<Payload>> = Vec::new();
        out.push(reply);
        Ok(out)
    }
}

/// The reply a generate request gets, once an id has been drawn: the fresh
/// id, from this node to the requester, answering the request's id. Any
/// other variant is a handler failure.
pub fn generate_reply(node_id: &String, id: u64, message: &Message<Payload>) -> (r: Result<
    Message<Payload>,
    NodeError,
>)
    ensures
        r is Ok <==> message@.body.message is Generate,
        r is Ok ==> r->Ok_0@ == (MessageV {
            src: node_id@,
            dst: message@.src,
            body: BodyV {
                msg_id: Some(0u64),
                in_reply_to: message@.body.msg_id,
                message: PayloadV::GenerateOk(id),
            },
        }),
        r is Err ==> r->Err_0 == NodeError::UnexpectedMessage,
{
    match &message.body.message {
        Payload::Generate => Ok(
            Message {
                src: node_id.clone(),
                dst: message.src.clone(),
                body: Body {
                    msg_id: Some(0),
                    in_reply_to: message.body.msg_id,
                    message: Payload::GenerateOk(id),
                },
            },
        ),
        _ => Err(NodeError::UnexpectedMessage),
    }
}

/// A node that hands out one globally unique id per generate request.
pub struct GenerateNode {
    pub id: String,
    pub generator: Snowflake,
}

/// What one generate dispatch does, given the wall-clock second `ts` the
/// generator read: on a failed tick (backward clock or spent second) the
/// generator is unchanged and the exhaustion error is surfaced; on a
/// successful tick the generator has advanced by that one tick and a
/// generate request gets exactly one reply carrying the fresh id, while
/// any other variant is a handler failure.
pub open spec fn generate_follows(
    pre: SnowflakeV,
    post: SnowflakeV,
    node_id: Seq<char>,
    message: MessageV<PayloadV>,
    r: Result<Vec<Message<Payload>>, NodeError>,
    ts: u64,
) -> bool {
    match snow_step(pre, ts) {
        None => post == pre && r is Err && r->Err_0 == NodeError::IdExhausted,
        Some((stepped, id)) => post == stepped && (if message.body.message is Generate {
            r is Ok && r->Ok_0@.len() == 1 && r->Ok_0@[0]@ == (MessageV {
                src: node_id,
                dst: message.src,
                body: BodyV {
                    msg_id: Some(0u64),
                    in_reply_to: message.body.msg_id,
                    message: PayloadV::GenerateOk(id),
                },
            })
        } else {
            r is Err && r->Err_0 == NodeError::UnexpectedMessage
        }),
    }
}

impl Node<Payload> for GenerateNode {
    /// Construction succeeds exactly when the assigned name encodes a
    /// worker id; the node then keeps the name and starts a fresh
    /// generator seeded with that id.
    fn from_init(init: Init) -> (r: Result<Self, NodeError>)
        ensures
            r is Ok <==> (exists|v: u64| is_worker_id(init@.node_id, v)),
            r is Ok ==> r->Ok_0.id@ == init@.node_id,
            r is Ok ==> is_worker_id(init@.node_id, r->Ok_0.generator@.seed)
                && r->Ok_0.generator@.sequence == 0 && r->Ok_0.generator@.last_timestamp == 0,
            r is Err ==> r->Err_0 == NodeError::InvalidNodeId,
    {
        let seed = worker_id_of(init.node_id.as_str())?;
        proof {
            assert(is_worker_id(init@.node_id, seed));
        }
        Ok(GenerateNode { id: init.node_id, generator: Snowflake::new(seed) })
    }

    /// One generator tick is consumed per call; the result and the new
    /// generator state follow `generate_follows` for the second the tick
    /// read. The node's name never changes.
    fn process_message(&mut self, message: Message<Payload>) -> (r: Result<
        Vec<Message<Payload>>,
        NodeError,
    >)
        ensures
            final(self).id@ == old(self).id@,
            (exists|ts: u64| #[trigger] generate_follows(
                old(self).generator@,
                final(self).generator@,
                old(self).id@,
                message@,
                r,
                ts,
            )),
    {
        let ghost pre = self.generator@;
        let idr = self.generator.next();
        let ghost post = self.generator@;
        let ghost ts = choose|t: u64| next_follows_step(pre, post, idr, t);
        let id = match idr {
            None => {
                let r: Result<Vec<Message<Payload>>, NodeError> = Err(NodeError::IdExhausted);
                proof {
                    assert(generate_follows(pre, post, self.id@, message@, r, ts));
                }
                return r;
            },
            Some(id) => id,
        };
        match generate_reply(&self.id, id, &message) {
            Ok(reply) => {
                let mut out: Vec<Message<Payload>> = Vec::new();
                out.push(reply);
                let r: Result<Vec<Message<Payload>>, NodeError> = Ok(out);
                proof {
                    assert(r->Ok_0@ =~= seq![reply]);
                    assert(generate_follows(pre, post, self.id@, message@, r, ts));
                }
                r
            },
            Err(e) => {
                let r: Result<Vec<Message<Payload>>, NodeError> = Err(e);
                proof {
                    assert(generate_follows(pre, post, self.id@, message@, r, ts));
                }
                r
            },
        }
    }
}

} // verus!
