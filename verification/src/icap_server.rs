//! The adaptation service: what it does with the bytes of one connection.
//!
//! A connection waits for a request, has the embedded message inspected,
//! sends one reply and is closed. `IcapServer::step` takes the decisions;
//! the caller reads, dispatches and writes as the returned action says, and
//! reports what came of it as the next event.

use vstd::prelude::*;
use vstd::slice::*;
use crate::codec::{
    Method, AdaptationRequest, embedded_parts, encoded_response, decoded_request, derive_offsets,
    encode_response, decode_request,
};
use crate::header::{framed, find_blank_line};
use crate::http::{head_length, split_point};
use crate::verdict::{Verdict, VerdictView};
use crate::zmq_client::ZmqClient;
use crate::bytes::append;

verus! {

/// The adaptation service: where it listens, and its dispatcher.
pub struct IcapServer {
    pub listen_addr: String,
    pub zmq_client: ZmqClient,
}

/// Where one connection of the service stands.
#[derive(Clone, Debug, PartialEq, Eq)]
pub enum ServiceState {
    /// Reading, until the empty line that ends the request's header block
    /// has come. The envelope is read and the payload handed to the
    /// dispatcher as soon as it has.
    AwaitRequest { received: Vec<u8> },
    /// Waiting for the verdict on the payload of a request of `method`.
    AwaitVerdict { method: Method },
    /// The reply is being written.
    SendResponse,
    /// Nothing more happens on this connection.
    Closed,
}

/// What happened on a connection.
#[derive(Clone, Debug, PartialEq, Eq)]
pub enum ServiceEvent {
    /// These bytes were read.
    Received(Vec<u8>),
    /// The peer closed the connection, reading failed, or nothing came for
    /// too long.
    PeerGone,
    /// The dispatcher returned this verdict.
    Inspected(Verdict),
    /// The dispatcher failed or ran out of time.
    DispatchFailed,
    /// The reply was written, or writing it failed.
    ResponseSent,
}

/// What the caller is to do next.
#[derive(Clone, Debug, PartialEq, Eq)]
pub enum ServiceAction {
    /// Read more bytes.
    Read,
    /// Hand this payload to the dispatcher.
    Inspect(Vec<u8>),
    /// Write these bytes to the peer.
    Send(Vec<u8>),
    /// Close the connection without writing anything.
    Close,
}

pub ghost enum ServiceStateView {
    AwaitRequest { received: Seq<u8> },
    AwaitVerdict { method: Method },
    SendResponse,
    Closed,
}

pub ghost enum ServiceEventView {
    Received(Seq<u8>),
    PeerGone,
    Inspected(VerdictView),
    DispatchFailed,
    ResponseSent,
}

pub ghost enum ServiceActionView {
    Read,
    Inspect(Seq<u8>),
    Send(Seq<u8>),
    Close,
}

impl View for ServiceState {
    type V = ServiceStateView;

    open spec fn view(&self) -> ServiceStateView {
        match self {
            ServiceState::AwaitRequest { received } => ServiceStateView::AwaitRequest {
                received: received@,
            },
            ServiceState::AwaitVerdict { method } => ServiceStateView::AwaitVerdict {
                method: *method,
            },
            ServiceState::SendResponse => ServiceStateView::SendResponse,
            ServiceState::Closed => ServiceStateView::Closed,
        }
    }
}

impl View for ServiceEvent {
    type V = ServiceEventView;

    open spec fn view(&self) -> ServiceEventView {
        match self {
            ServiceEvent::Received(bytes) => ServiceEventView::Received(bytes@),
            ServiceEvent::PeerGone => ServiceEventView::PeerGone,
            ServiceEvent::Inspected(verdict) => ServiceEventView::Inspected(verdict@),
            ServiceEvent::DispatchFailed => ServiceEventView::DispatchFailed,
            ServiceEvent::ResponseSent => ServiceEventView::ResponseSent,
        }
    }
}

impl View for ServiceAction {
    type V = ServiceActionView;

    open spec fn view(&self) -> ServiceActionView {
        match self {
            ServiceAction::Read => ServiceActionView::Read,
            ServiceAction::Inspect(payload) => ServiceActionView::Inspect(payload@),
            ServiceAction::Send(bytes) => ServiceActionView::Send(bytes@),
            ServiceAction::Close => ServiceActionView::Close,
        }
    }
}

/// The reply that carries a verdict on the payload of a request of `method`:
/// 204 and nothing else for `Allow`; 200 and the new bytes for `Modify`,
/// with offsets derived from where their header block ends; 403 and the
/// reason for `Block`.
pub open spec fn reply_to_verdict(method: Method, verdict: VerdictView) -> Seq<u8> {
    match verdict {
        VerdictView::Allow => encoded_response(204, None, Seq::empty()),
        VerdictView::Modify(bytes) => encoded_response(
            200,
            Some(
                embedded_parts(
                    method,
                    head_length(bytes),
                    (bytes.len() - head_length(bytes)) as nat,
                ),
            ),
            bytes,
        ),
        VerdictView::Block(reason) => encoded_response(403, None, reason),
    }
}

/// The reply to a request that could not be read or not be inspected: 500.
pub open spec fn failure_reply() -> Seq<u8> {
    encoded_response(500, None, Seq::empty())
}

/// What the service does once the header block of a request has ended: it
/// has the payload of a `REQMOD` or `RESPMOD` request inspected, and answers
/// anything else, and anything it cannot read, with 500.
pub open spec fn on_envelope(received: Seq<u8>) -> (ServiceStateView, ServiceActionView) {
    match decoded_request(received) {
        Ok(request) if request.method != Method::Options => (
            ServiceStateView::AwaitVerdict { method: request.method },
            ServiceActionView::Inspect(request.payload),
        ),
        _ => (ServiceStateView::SendResponse, ServiceActionView::Send(failure_reply())),
    }
}

/// The next state of a connection and what to do, for each state and event.
pub open spec fn service_step(state: ServiceStateView, event: ServiceEventView) -> (
    ServiceStateView,
    ServiceActionView,
) {
    match (state, event) {
        (ServiceStateView::AwaitRequest { received }, ServiceEventView::Received(bytes)) => {
            if framed(received + bytes) is None {
                (
                    ServiceStateView::AwaitRequest { received: received + bytes },
                    ServiceActionView::Read,
                )
            } else {
                on_envelope(received + bytes)
            }
        },
        (ServiceStateView::AwaitVerdict { method }, ServiceEventView::Inspected(verdict)) => (
            ServiceStateView::SendResponse,
            ServiceActionView::Send(reply_to_verdict(method, verdict)),
        ),
        (ServiceStateView::AwaitVerdict { method }, ServiceEventView::DispatchFailed) => (
            ServiceStateView::SendResponse,
            ServiceActionView::Send(failure_reply()),
        ),
        _ => (ServiceStateView::Closed, ServiceActionView::Close),
    }
}

impl IcapServer {
    /// A service that is to listen at `listen_addr` and to dispatch through `zmq_client`.
    pub fn new(listen_addr: String, zmq_client: ZmqClient) -> (server: IcapServer)
        ensures
            server.listen_addr == listen_addr,
            server.zmq_client == zmq_client,
    {
        IcapServer { listen_addr, zmq_client }
    }

    /// A connection was accepted: nothing is read yet, and reading is next.
    pub fn accept() -> (r: (ServiceState, ServiceAction))
        ensures
            r.0@ == (ServiceStateView::AwaitRequest { received: Seq::empty() }),
            r.1@ == ServiceActionView::Read,
    {
        (ServiceState::AwaitRequest { received: Vec::new() }, ServiceAction::Read)
    }

    /// The reply that carries a verdict on the payload of a request of `method`.
    pub fn respond(method: Method, verdict: Verdict) -> (reply: Vec<u8>)
        ensures
            reply@ == reply_to_verdict(method, verdict@),
    {
        match verdict {
            Verdict::Allow => {
                let nothing: Vec<u8> = Vec::new();
                encode_response(204, None, nothing.as_slice())
            },
            Verdict::Modify(bytes) => {
                let at = split_point(bytes.as_slice());
                let offsets = derive_offsets(method, at, bytes.len() - at);
                encode_response(200, Some(&offsets), bytes.as_slice())
            },
            Verdict::Block(reason) => encode_response(403, None, reason.as_slice()),
        }
    }

    /// The reply to a request that could not be read or not be inspected.
    pub fn failure() -> (reply: Vec<u8>)
        ensures
            reply@ == failure_reply(),
    {
        let nothing: Vec<u8> = Vec::new();
        encode_response(500, None, nothing.as_slice())
    }

    /// Takes one step on a connection: given where it stands and what
    /// happened, says where it stands now and what to do next.
    ///
    /// A connection that lost its peer before a request was complete is
    /// closed without a reply. A request is answered exactly once, and the
    /// connection is closed when the reply is out. An event that cannot
    /// happen in the given state closes the connection.
    pub fn step(state: ServiceState, event: ServiceEvent) -> (r: (ServiceState, ServiceAction))
        ensures
            (r.0@, r.1@) == service_step(state@, event@),
    {
        match state {
            ServiceState::AwaitRequest { received } => match event {
                ServiceEvent::Received(bytes) => {
                    let mut all = received;
                    append(&mut all, bytes.as_slice());
                    if find_blank_line(all.as_slice()).is_none() {
                        return (ServiceState::AwaitRequest { received: all }, ServiceAction::Read);
                    }
                    match decode_request(all.as_slice()) {
                        Ok(request) => match request.method {
                            Method::Options => (
                                ServiceState::SendResponse,
                                ServiceAction::Send(Self::failure()),
                            ),
                            _ => {
                                let AdaptationRequest { method, payload, .. } = request;
                                (
                                    ServiceState::AwaitVerdict { method },
                                    ServiceAction::Inspect(payload),
                                )
                            },
                        },
                        Err(_) => (
                            ServiceState::SendResponse,
                            ServiceAction::Send(Self::failure()),
                        ),
                    }
                },
                _ => (ServiceState::Closed, ServiceAction::Close),
            },
            ServiceState::AwaitVerdict { method } => match event {
                ServiceEvent::Inspected(verdict) => (
                    ServiceState::SendResponse,
                    ServiceAction::Send(Self::respond(method, verdict)),
                ),
                ServiceEvent::DispatchFailed => (
                    ServiceState::SendResponse,
                    ServiceAction::Send(Self::failure()),
                ),
                _ => (ServiceState::Closed, ServiceAction::Close),
            },
            _ => (ServiceState::Closed, ServiceAction::Close),
        }
    }
}

} // verus!
