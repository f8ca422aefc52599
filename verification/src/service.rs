//! The module service: one channel, one job request, any number of progress
//! signals, then exactly one terminal message.  The state machine here holds
//! the protocol to that shape; the channel itself is a trait the I/O side
//! implements.

use vstd::prelude::*;

use crate::checksum::ChecksumKey;
use crate::envelope::{decode_envelope, env_text, MessageKind};
use crate::errors::ErrorKind;
use crate::method::{decode_method, parse_method, Method, MethodError, MethodParse};
use crate::reply::Exception;

verus! {

/// A point-to-point channel to the host.  A transport moves opaque bytes
/// and knows nothing of the messages; implementations do I/O and so live
/// outside the library.
pub trait Transport: Sized {
    fn send(&mut self, data: &Vec<u8>) -> Result<(), ErrorKind>;

    fn recv(&mut self) -> Result<Vec<u8>, ErrorKind>;

    fn close(&mut self);
}

/// A module process: built from its cache directory and channel address,
/// then run to completion.  Implementations construct a transport, so they
/// live with the I/O, outside the library.
pub trait Service: Sized {
    fn from_args(cache: &str, path: &str) -> Result<Self, ErrorKind>;

    fn main(&mut self);
}

/// A module kind that resolves content by checksum key.
pub trait Source {
    spec fn inv(&self) -> bool;

    spec fn cached_spec(&self, key: ChecksumKey) -> bool;

    /// Whether the content addressed by `key` is already in the cache.
    fn cached(&self, key: &ChecksumKey) -> (r: bool)
        requires
            self.inv(),
            key.wf(),
        ensures
            r == self.cached_spec(*key),
    ;
}

/// The states of one module run.
#[derive(Clone, Copy, PartialEq, Eq, Structural, Debug)]
pub enum ServiceState {
    /// Channel and encoding chosen; nothing exchanged yet.
    Constructed,
    /// Waiting for the one job request.
    AwaitingMethod,
    /// The job runs; progress signals may be sent.
    Running,
    /// The one terminal message is decided; nothing more may be sent.
    Terminated,
}

/// How the one received envelope was answered.
#[derive(Debug)]
pub enum JobStart {
    /// A well-formed job request: the job may run.
    Job(Method),
    /// Anything else: the run ends with this exception.
    Refused(Exception),
}

/// Whether a request parse failed its schema (rather than not parsing).
pub open spec fn is_schema_err(p: MethodParse) -> bool {
    match p {
        MethodParse::Missing => true,
        MethodParse::Extra => true,
        MethodParse::BadKey => true,
        MethodParse::DupKey => true,
        _ => false,
    }
}

/// The state machine of one module run.  Exactly one job request is ever
/// accepted; a terminal message is decided exactly once; after it, no
/// transition remains, so no signal or second terminal can follow it.
#[derive(Debug)]
pub struct ServiceMachine {
    pub state: ServiceState,
}

impl ServiceMachine {
    pub fn new() -> (m: ServiceMachine)
        ensures
            m.state == ServiceState::Constructed,
    {
        ServiceMachine { state: ServiceState::Constructed }
    }

    /// The channel is connected and the encoding chosen: the run now waits
    /// for its one job request.
    pub fn connect(&mut self)
        requires
            old(self).state == ServiceState::Constructed,
        ensures
            final(self).state == ServiceState::AwaitingMethod,
    {
        self.state = ServiceState::AwaitingMethod;
    }

    /// Answers the one envelope received while awaiting the job.  A method
    /// envelope whose payload meets the schema starts the job; a method
    /// envelope failing its schema refuses the run with a schema exception
    /// before any fetch work; every other byte sequence — an envelope of
    /// another kind included — refuses it with a protocol exception.
    pub fn accept(&mut self, bytes: &[u8]) -> (r: JobStart)
        requires
            old(self).state == ServiceState::AwaitingMethod,
        ensures
            match r {
                JobStart::Job(m) => {
                    &&& final(self).state == ServiceState::Running
                    &&& m.wf()
                    &&& exists|d: Seq<u8>|
                        bytes@ == env_text(MessageKind::Method, d) && parse_method(d)
                            == MethodParse::Parsed(m@)
                },
                JobStart::Refused(e) => {
                    &&& final(self).state == ServiceState::Terminated
                    &&& !e.kind.is_item_scoped()
                    &&& e.message@ == e.kind.tag_spec()
                    &&& (e.kind == ErrorKind::Protocol || e.kind == ErrorKind::Schema)
                    &&& (e.kind == ErrorKind::Protocol ==> (forall|mk: MessageKind, d: Seq<u8>|
                        bytes@ != env_text(mk, d)) || (exists|mk: MessageKind, d: Seq<u8>|
                        mk != MessageKind::Method && bytes@ == env_text(mk, d)) || (exists|
                        d: Seq<u8>,
                    |
                        bytes@ == env_text(MessageKind::Method, d) && parse_method(d)
                            == MethodParse::Bad))
                    &&& (e.kind == ErrorKind::Schema ==> exists|d: Seq<u8>|
                        bytes@ == env_text(MessageKind::Method, d) && is_schema_err(
                            parse_method(d),
                        ))
                },
            },
    {
        match decode_envelope(bytes) {
            Err(k) => {
                self.state = ServiceState::Terminated;
                JobStart::Refused(Exception { kind: k, message: k.tag_vec() })
            },
            Ok(env) => {
                if !matches!(env.kind, MessageKind::Method) {
                    self.state = ServiceState::Terminated;
                    proof {
                        assert(exists|mk: MessageKind, d: Seq<u8>|
                            mk != MessageKind::Method && bytes@ == env_text(mk, d)) by {
                            assert(bytes@ == env_text(env.kind, env.data@));
                        }
                    }
                    return JobStart::Refused(
                        Exception {
                            kind: ErrorKind::Protocol,
                            message: ErrorKind::Protocol.tag_vec(),
                        },
                    );
                }
                match decode_method(env.data.as_slice()) {
                    Ok(m) => {
                        self.state = ServiceState::Running;
                        proof {
                            assert(exists|d: Seq<u8>|
                                bytes@ == env_text(MessageKind::Method, d) && parse_method(d)
                                    == MethodParse::Parsed(m@)) by {
                                assert(bytes@ == env_text(MessageKind::Method, env.data@));
                            }
                        }
                        JobStart::Job(m)
                    },
                    Err(me) => {
                        self.state = ServiceState::Terminated;
                        let kind = match me {
                            MethodError::Malformed => ErrorKind::Protocol,
                            _ => ErrorKind::Schema,
                        };
                        proof {
                            assert(bytes@ == env_text(MessageKind::Method, env.data@));
                        }
                        JobStart::Refused(Exception { kind, message: kind.tag_vec() })
                    },
                }
            },
        }
    }

    /// The one terminal message has been sent: the run is over.
    pub fn terminate(&mut self)
        requires
            old(self).state == ServiceState::Running,
        ensures
            final(self).state == ServiceState::Terminated,
    {
        self.state = ServiceState::Terminated;
    }
}

} // verus!
