//! The wire envelope: the `{src, dst, body}` message shape every node
//! exchanges, with the body's tagged payload variants.

use vstd::prelude::*;

verus! {

/// The handshake payload: this process's identity and the full cluster
/// membership (self included).
#[derive(Debug, Clone, PartialEq)]
pub struct Init {
    pub node_id: String,
    pub node_ids: Vec<String>,
}

/// Mathematical model of `Init`.
pub struct InitV {
    pub node_id: Seq<char>,
    pub node_ids: Seq<Seq<char>>,
}

impl View for Init {
    type V = InitV;

    open spec fn view(&self) -> InitV {
        InitV { node_id: self.node_id@, node_ids: self.node_ids.deep_view() }
    }
}

/// The two handshake body variants: the request that assigns the node its
/// identity, and the acknowledgement sent back.
#[derive(Debug, Clone, PartialEq)]
pub enum InitMessageType {
    Init(Init),
    InitOk,
}

/// Mathematical model of `InitMessageType`.
pub enum InitMessageTypeV {
    Init(InitV),
    InitOk,
}

impl View for InitMessageType {
    type V = InitMessageTypeV;

    open spec fn view(&self) -> InitMessageTypeV {
        match self {
            InitMessageType::Init(i) => InitMessageTypeV::Init(i@),
            InitMessageType::InitOk => InitMessageTypeV::InitOk,
        }
    }
}

/// Every tagged body variant the wire codec understands: the handshake pair
/// and the example application pairs (echo, unique-id generation).
#[derive(Debug, Clone, PartialEq)]
pub enum Payload {
    Init(Init),
    InitOk,
    Echo(String),
    EchoOk(String),
    Generate,
    GenerateOk(u64),
}

/// Mathematical model of `Payload`.
pub enum PayloadV {
    Init(InitV),
    InitOk,
    Echo(Seq<char>),
    EchoOk(Seq<char>),
    Generate,
    GenerateOk(u64),
}

impl View for Payload {
    type V = PayloadV;

    open spec fn view(&self) -> PayloadV {
        match self {
            Payload::Init(i) => PayloadV::Init(i@),
            Payload::InitOk => PayloadV::InitOk,
            Payload::Echo(e) => PayloadV::Echo(e@),
            Payload::EchoOk(e) => PayloadV::EchoOk(e@),
            Payload::Generate => PayloadV::Generate,
            Payload::GenerateOk(id) => PayloadV::GenerateOk(*id),
        }
    }
}

/// The per-message payload: an optional fresh message id, an optional
/// reference to the id being answered, and the tagged variant. On the wire
/// the variant's fields are flattened into the same JSON object.
#[derive(Debug, Clone, PartialEq)]
pub struct Body<MessageType> {
    pub msg_id: Option<u64>,
    pub in_reply_to: Option<u64>,
    pub message: MessageType,
}

/// Mathematical model of `Body`.
pub struct BodyV<PV> {
    pub msg_id: Option<u64>,
    pub in_reply_to: Option<u64>,
    pub message: PV,
}

impl<MessageType: View> View for Body<MessageType> {
    type V = BodyV<MessageType::V>;

    open spec fn view(&self) -> BodyV<MessageType::V> {
        BodyV { msg_id: self.msg_id, in_reply_to: self.in_reply_to, message: self.message@ }
    }
}

/// A reply body; the same shape as `Body`, kept as its own name so that a
/// response's role is visible in signatures.
#[derive(Debug, Clone, PartialEq)]
pub struct ResponseBody<T> {
    pub msg_id: Option<u64>,
    pub in_reply_to: Option<u64>,
    pub message: T,
}

impl<T: View> View for ResponseBody<T> {
    type V = BodyV<T::V>;

    open spec fn view(&self) -> BodyV<T::V> {
        BodyV { msg_id: self.msg_id, in_reply_to: self.in_reply_to, message: self.message@ }
    }
}

/// One wire message: opaque source and destination node names (the wire
/// field name for `dst` is `"dest"`) around a body.
#[derive(Debug, Clone, PartialEq)]
pub struct Message<MessageType> {
    pub src: String,
    pub dst: String,
    pub body: Body<MessageType>,
}

/// Mathematical model of `Message`.
pub struct MessageV<PV> {
    pub src: Seq<char>,
    pub dst: Seq<char>,
    pub body: BodyV<PV>,
}

impl<MessageType: View> View for Message<MessageType> {
    type V = MessageV<MessageType::V>;

    open spec fn view(&self) -> MessageV<MessageType::V> {
        MessageV { src: self.src@, dst: self.dst@, body: self.body@ }
    }
}

} // verus!
