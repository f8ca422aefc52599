//! One codec for whole messages: the payload text of each message kind,
//! wrapped in the envelope.  `JSON` is the one concrete encoding; the
//! `Encoding` trait is what a second wire format would implement.

use vstd::prelude::*;

use crate::envelope::{encode_envelope, env_text, Envelope, MessageKind};
use crate::method::{decode_method, encode_method, method_text, Method, MethodError};
use crate::reply::{encode_exception, encode_reply, encode_signal, exception_text, reply_text,
    signal_text, Exception, Reply, Signal};

verus! {

/// Any one message of the protocol.
#[derive(Debug)]
pub enum Message {
    Method(Method),
    Reply(Reply),
    Signal(Signal),
    Exception(Exception),
}

/// The envelope kind a message travels under.
pub open spec fn message_kind(m: Message) -> MessageKind {
    match m {
        Message::Method(..) => MessageKind::Method,
        Message::Reply(..) => MessageKind::Reply,
        Message::Signal(..) => MessageKind::Signal,
        Message::Exception(..) => MessageKind::Exception,
    }
}

/// The payload text of a message, before the envelope.
pub open spec fn payload_text(m: Message) -> Seq<u8> {
    match m {
        Message::Method(x) => method_text(x@),
        Message::Reply(r) => reply_text(r),
        Message::Signal(sg) => signal_text(sg),
        Message::Exception(e) => exception_text(e),
    }
}

/// The full wire text of a message: its payload inside its envelope.
pub open spec fn message_text(m: Message) -> Seq<u8> {
    env_text(message_kind(m), payload_text(m))
}

/// Encodes a whole message: the payload text wrapped in the envelope.
pub fn encode_message(m: &Message) -> (v: Vec<u8>)
    ensures
        v@ == message_text(*m),
{
    let (kind, data): (MessageKind, Vec<u8>) = match m {
        Message::Method(x) => (MessageKind::Method, encode_method(x)),
        Message::Reply(r) => (MessageKind::Reply, encode_reply(r)),
        Message::Signal(sg) => (MessageKind::Signal, encode_signal(sg)),
        Message::Exception(e) => (MessageKind::Exception, encode_exception(e)),
    };
    let env = Envelope::new(kind, data);
    encode_envelope(&env)
}

/// A wire format for the protocol's messages.  The module needs to write
/// every kind and to read the one job request it is handed.
pub trait Encoding: Sized {
    fn new() -> Self;

    fn encode_message(&self, m: &Message) -> Vec<u8>;

    fn encode_method(&self, m: &Method) -> Vec<u8>;

    fn decode_method(&self, data: &[u8]) -> Result<Method, MethodError>;

    fn encode_reply(&self, r: &Reply) -> Vec<u8>;

    fn encode_signal(&self, sg: &Signal) -> Vec<u8>;

    fn encode_exception(&self, e: &Exception) -> Vec<u8>;
}

/// The one concrete encoding: the JSON wire text defined in this crate.
#[derive(Debug)]
pub struct JSON {}

impl Encoding for JSON {
    fn new() -> Self {
        JSON {  }
    }

    fn encode_message(&self, m: &Message) -> Vec<u8> {
        encode_message(m)
    }

    fn encode_method(&self, m: &Method) -> Vec<u8> {
        encode_method(m)
    }

    fn decode_method(&self, data: &[u8]) -> Result<Method, MethodError> {
        decode_method(data)
    }

    fn encode_reply(&self, r: &Reply) -> Vec<u8> {
        encode_reply(r)
    }

    fn encode_signal(&self, sg: &Signal) -> Vec<u8> {
        encode_signal(sg)
    }

    fn encode_exception(&self, e: &Exception) -> Vec<u8> {
        encode_exception(e)
    }
}

} // verus!
