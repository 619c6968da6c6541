//! The proxy front-end: what it does with one client connection.
//!
//! A connection reads the head of a request, has the request adapted,
//! connects to the origin, relays the request and relays the response back.
//! Adaptation always ends, by success, by fallback or by refusal, before a
//! byte goes to the origin. `Proxy::step` takes the decisions; the caller
//! carries out the returned action and reports the outcome as the next event.

use vstd::prelude::*;
use vstd::string::*;
use vstd::slice::*;
use crate::bytes::{
    text, first_occurrence, occurs_at, has_prefix, trimmed, ascii, find, trim, starts_with,
    append, lemma_first_occurrence_exists,
};
use crate::config::Config;
use crate::decimal::{number, parse_decimal};
use crate::header::{Header, HeaderView, colon, header_value, message, lookup, write_message};
use crate::http::{HttpError, read_message, parse_message};
use crate::icap_client::{IcapClient, Adapted, AdaptedView, AdaptError};

verus! {

/// The proxy: its adaptation client, and its policy for a failing adaptation.
pub struct Proxy {
    pub icap_client: IcapClient,
    /// Fail open: pass the request on unadapted when adaptation fails.
    pub fail_open: bool,
}

impl Clone for Proxy {
    /// A proxy with a client for the same service and the same policy.
    fn clone(&self) -> (copy: Self)
        ensures
            copy.icap_client.server_addr@ == self.icap_client.server_addr@,
            copy.icap_client.timeout_ms == self.icap_client.timeout_ms,
            copy.fail_open == self.fail_open,
    {
        Proxy { icap_client: self.icap_client.clone(), fail_open: self.fail_open }
    }
}

/// What the bytes read from a client so far amount to.
#[derive(Clone, Debug, PartialEq, Eq)]
pub enum Examined {
    /// The request is not complete yet.
    Incomplete,
    /// A `CONNECT` request, which the proxy does not serve.
    Tunnel,
    /// No HTTP request, or one without a `Host` header.
    Bad,
    /// A request for this origin.
    Forward { host: Vec<u8>, port: u16 },
}

pub ghost enum ExaminedView {
    Incomplete,
    Tunnel,
    Bad,
    Forward { host: Seq<u8>, port: u16 },
}

impl View for Examined {
    type V = ExaminedView;

    open spec fn view(&self) -> ExaminedView {
        match self {
            Examined::Incomplete => ExaminedView::Incomplete,
            Examined::Tunnel => ExaminedView::Tunnel,
            Examined::Bad => ExaminedView::Bad,
            Examined::Forward { host, port } => ExaminedView::Forward { host: host@, port: *port },
        }
    }
}

/// The port that is used where the `Host` header names none that can be read.
pub open spec fn default_port() -> u16 {
    80
}

/// The port written in `s`: digits, with or without a `+` before them, that
/// make a number of at most 65535.
pub open spec fn port_number(s: Seq<u8>) -> Option<u16> {
    let digits = if s.len() > 0 && s[0] == 0x2b {
        s.skip(1)
    } else {
        s
    };
    match number(digits) {
        Some(n) if n <= 65535 => Some(n as u16),
        _ => None,
    }
}

/// The origin that the value of a `Host` header names: the host up to the
/// first colon and the port behind it, blanks around either dropped; the
/// whole value and the default port where there is no colon.
pub open spec fn origin_of(value: Seq<u8>) -> (Seq<u8>, u16) {
    match first_occurrence(value, colon()) {
        Some(at) if 0 <= at < value.len() => (
            trimmed(value.take(at)),
            match port_number(trimmed(value.skip(at + 1))) {
                Some(port) => port,
                None => default_port(),
            },
        ),
        _ => (value, default_port()),
    }
}

/// What the bytes read from a client so far amount to.
pub open spec fn examined(received: Seq<u8>) -> ExaminedView {
    if has_prefix(received, text("CONNECT ")) {
        ExaminedView::Tunnel
    } else {
        match read_message(received) {
            Err(HttpError::Incomplete) => ExaminedView::Incomplete,
            Err(_) => ExaminedView::Bad,
            Ok(request) => match header_value(request.headers, text("Host")) {
                Some(value) => ExaminedView::Forward {
                    host: origin_of(value).0,
                    port: origin_of(value).1,
                },
                None => ExaminedView::Bad,
            },
        }
    }
}

/// The status line that the proxy answers with when it does not relay an
/// origin's response.
pub open spec fn status_text(status: u16) -> Seq<u8> {
    if status == 400 {
        text("HTTP/1.1 400 Bad Request")
    } else if status == 403 {
        text("HTTP/1.1 403 Forbidden")
    } else if status == 501 {
        text("HTTP/1.1 501 Not Implemented")
    } else if status == 502 {
        text("HTTP/1.1 502 Bad Gateway")
    } else {
        text("HTTP/1.1 500 Internal Server Error")
    }
}

/// The proxy's own answer to a client: a status line, an empty line, and
/// what there is to say.
pub open spec fn client_reply(status: u16, body: Seq<u8>) -> Seq<u8> {
    message(status_text(status), Seq::empty(), body)
}

/// Where one client connection stands.
#[derive(Clone, Debug, PartialEq, Eq)]
pub enum ProxyState {
    /// Reading the request.
    ReadRequestHead { received: Vec<u8> },
    /// Waiting for the adaptation of `request`, which is for `host:port`.
    Adapt { request: Vec<u8>, host: Vec<u8>, port: u16 },
    /// Connecting to the origin, to send it `outbound`.
    ConnectOrigin { outbound: Vec<u8> },
    /// Writing the request to the origin.
    RelayRequest,
    /// Reading the origin's response.
    RelayResponse,
    /// Nothing more happens on this connection.
    Closed,
}

/// What happened on a connection.
#[derive(Debug, PartialEq, Eq)]
pub enum ProxyEvent {
    /// These bytes were read from the client.
    Received(Vec<u8>),
    /// The client closed the connection, or reading from it failed.
    ClientGone,
    /// The adaptation client returned.
    Adapted(Result<Adapted, AdaptError>),
    /// The origin accepted the connection.
    Connected,
    /// The request was written to the origin.
    RequestSent,
    /// The origin's response was read to its end.
    Response(Vec<u8>),
    /// Connecting to the origin, writing to it or reading from it failed.
    OriginFailed,
}

/// What the caller is to do next.
#[derive(Clone, Debug, PartialEq, Eq)]
pub enum ProxyAction {
    /// Read more bytes from the client.
    ReadClient,
    /// Have these bytes adapted as a request.
    Adapt(Vec<u8>),
    /// Connect to the origin. `degraded` says that adaptation failed and
    /// the request goes out as it came, which is worth a line in the log.
    Connect { host: Vec<u8>, port: u16, degraded: bool },
    /// Write these bytes to the origin.
    SendToOrigin(Vec<u8>),
    /// Read the origin's response to its end.
    ReadOrigin,
    /// Write these bytes to the client and close the connection.
    Reply(Vec<u8>),
    /// Close the connection without writing anything.
    Close,
}

pub ghost enum ProxyStateView {
    ReadRequestHead { received: Seq<u8> },
    Adapt { request: Seq<u8>, host: Seq<u8>, port: u16 },
    ConnectOrigin { outbound: Seq<u8> },
    RelayRequest,
    RelayResponse,
    Closed,
}

pub ghost enum ProxyEventView {
    Received(Seq<u8>),
    ClientGone,
    Adapted(Result<AdaptedView, AdaptError>),
    Connected,
    RequestSent,
    Response(Seq<u8>),
    OriginFailed,
}

pub ghost enum ProxyActionView {
    ReadClient,
    Adapt(Seq<u8>),
    Connect { host: Seq<u8>, port: u16, degraded: bool },
    SendToOrigin(Seq<u8>),
    ReadOrigin,
    Reply(Seq<u8>),
    Close,
}

impl View for ProxyState {
    type V = ProxyStateView;

    open spec fn view(&self) -> ProxyStateView {
        match self {
            ProxyState::ReadRequestHead { received } => ProxyStateView::ReadRequestHead {
                received: received@,
            },
            ProxyState::Adapt { request, host, port } => ProxyStateView::Adapt {
                request: request@,
                host: host@,
                port: *port,
            },
            ProxyState::ConnectOrigin { outbound } => ProxyStateView::ConnectOrigin {
                outbound: outbound@,
            },
            ProxyState::RelayRequest => ProxyStateView::RelayRequest,
            ProxyState::RelayResponse => ProxyStateView::RelayResponse,
            ProxyState::Closed => ProxyStateView::Closed,
        }
    }
}

impl View for ProxyEvent {
    type V = ProxyEventView;

    open spec fn view(&self) -> ProxyEventView {
        match self {
            ProxyEvent::Received(bytes) => ProxyEventView::Received(bytes@),
            ProxyEvent::ClientGone => ProxyEventView::ClientGone,
            ProxyEvent::Adapted(outcome) => ProxyEventView::Adapted(
                match outcome {
                    Ok(adapted) => Ok(adapted@),
                    Err(e) => Err(*e),
                },
            ),
            ProxyEvent::Connected => ProxyEventView::Connected,
            ProxyEvent::RequestSent => ProxyEventView::RequestSent,
            ProxyEvent::Response(bytes) => ProxyEventView::Response(bytes@),
            ProxyEvent::OriginFailed => ProxyEventView::OriginFailed,
        }
    }
}

impl View for ProxyAction {
    type V = ProxyActionView;

    open spec fn view(&self) -> ProxyActionView {
        match self {
            ProxyAction::ReadClient => ProxyActionView::ReadClient,
            ProxyAction::Adapt(bytes) => ProxyActionView::Adapt(bytes@),
            ProxyAction::Connect { host, port, degraded } => ProxyActionView::Connect {
                host: host@,
                port: *port,
                degraded: *degraded,
            },
            ProxyAction::SendToOrigin(bytes) => ProxyActionView::SendToOrigin(bytes@),
            ProxyAction::ReadOrigin => ProxyActionView::ReadOrigin,
            ProxyAction::Reply(bytes) => ProxyActionView::Reply(bytes@),
            ProxyAction::Close => ProxyActionView::Close,
        }
    }
}

/// What the proxy does with the bytes read from a client so far: it reads
/// on while the request is incomplete, answers `CONNECT` with 501 and what
/// is no request for a named host with 400, and has anything else adapted.
pub open spec fn on_request_bytes(received: Seq<u8>) -> (ProxyStateView, ProxyActionView) {
    match examined(received) {
        ExaminedView::Incomplete => (
            ProxyStateView::ReadRequestHead { received },
            ProxyActionView::ReadClient,
        ),
        ExaminedView::Tunnel => (
            ProxyStateView::Closed,
            ProxyActionView::Reply(client_reply(501, Seq::empty())),
        ),
        ExaminedView::Bad => (
            ProxyStateView::Closed,
            ProxyActionView::Reply(client_reply(400, Seq::empty())),
        ),
        ExaminedView::Forward { host, port } => (
            ProxyStateView::Adapt { request: received, host, port },
            ProxyActionView::Adapt(received),
        ),
    }
}

/// What the proxy does when adaptation has ended: it sends the adapted
/// bytes to the origin, refuses the client with 403 where the request was
/// blocked, and where adaptation failed either sends the request as it came
/// (fail open) or refuses the client with 500 (fail closed).
pub open spec fn on_adapted(
    fail_open: bool,
    request: Seq<u8>,
    host: Seq<u8>,
    port: u16,
    outcome: Result<AdaptedView, AdaptError>,
) -> (ProxyStateView, ProxyActionView) {
    match outcome {
        Ok(AdaptedView::Bytes(bytes)) => (
            ProxyStateView::ConnectOrigin { outbound: bytes },
            ProxyActionView::Connect { host, port, degraded: false },
        ),
        Ok(AdaptedView::Blocked(reason)) => (
            ProxyStateView::Closed,
            ProxyActionView::Reply(client_reply(403, reason)),
        ),
        Err(_) => if fail_open {
            (
                ProxyStateView::ConnectOrigin { outbound: request },
                ProxyActionView::Connect { host, port, degraded: true },
            )
        } else {
            (ProxyStateView::Closed, ProxyActionView::Reply(client_reply(500, Seq::empty())))
        },
    }
}

/// The next state of a connection and what to do, for each state and event.
pub open spec fn proxy_step(fail_open: bool, state: ProxyStateView, event: ProxyEventView) -> (
    ProxyStateView,
    ProxyActionView,
) {
    match (state, event) {
        (ProxyStateView::ReadRequestHead { received }, ProxyEventView::Received(bytes)) => {
            on_request_bytes(received + bytes)
        },
        (ProxyStateView::Adapt { request, host, port }, ProxyEventView::Adapted(outcome)) => {
            on_adapted(fail_open, request, host, port, outcome)
        },
        (ProxyStateView::ConnectOrigin { outbound }, ProxyEventView::Connected) => (
            ProxyStateView::RelayRequest,
            ProxyActionView::SendToOrigin(outbound),
        ),
        (ProxyStateView::RelayRequest, ProxyEventView::RequestSent) => (
            ProxyStateView::RelayResponse,
            ProxyActionView::ReadOrigin,
        ),
        (ProxyStateView::RelayResponse, ProxyEventView::Response(bytes)) => (
            ProxyStateView::Closed,
            ProxyActionView::Reply(bytes),
        ),
        (ProxyStateView::ConnectOrigin { outbound }, ProxyEventView::OriginFailed) => (
            ProxyStateView::Closed,
            ProxyActionView::Reply(client_reply(502, Seq::empty())),
        ),
        (ProxyStateView::RelayRequest, ProxyEventView::OriginFailed) => (
            ProxyStateView::Closed,
            ProxyActionView::Reply(client_reply(502, Seq::empty())),
        ),
        (ProxyStateView::RelayResponse, ProxyEventView::OriginFailed) => (
            ProxyStateView::Closed,
            ProxyActionView::Reply(client_reply(502, Seq::empty())),
        ),
        _ => (ProxyStateView::Closed, ProxyActionView::Close),
    }
}

/// Reads a port.
pub fn parse_port(s: &[u8]) -> (r: Option<u16>)
    ensures
        r == port_number(s@),
{
    let digits = if s.len() > 0 && s[0] == 0x2b {
        slice_subrange(s, 1, s.len())
    } else {
        s
    };
    assert(s@.len() > 0 && s@[0] == 0x2b ==> digits@ == s@.skip(1));
    match parse_decimal(digits, 65535) {
        Some(n) => Some(n as u16),
        None => None,
    }
}

/// The origin that the value of a `Host` header names.
pub fn parse_origin(value: &[u8]) -> (r: (Vec<u8>, u16))
    ensures
        (r.0@, r.1) == origin_of(value@),
{
    let mark: [u8; 1] = [0x3a];
    assert(mark@ == colon());
    match find(value, mark.as_slice()) {
        Some(at) => {
            proof {
                lemma_first_occurrence_exists(value@, colon());
                assert(occurs_at(value@, colon(), at as int));
            }
            let end: usize = value.len();
            let host = trim(slice_subrange(value, 0, at));
            let behind = slice_subrange(value, at + 1, end);
            assert(behind@ == value@.skip(at + 1));
            let port = match parse_port(trim(behind)) {
                Some(port) => port,
                None => 80,
            };
            (slice_to_vec(host), port)
        },
        None => (slice_to_vec(value), 80),
    }
}

/// Says what the bytes read from a client so far amount to.
pub fn examine(received: &[u8]) -> (r: Examined)
    ensures
        r@ == examined(received@),
{
    proof {
        reveal_strlit("CONNECT ");
        reveal_strlit("Host");
    }
    if starts_with(received, ascii("CONNECT ")) {
        return Examined::Tunnel;
    }
    match parse_message(received) {
        Ok(request) => match lookup(&request.headers, ascii("Host")) {
            Some(value) => {
                let (host, port) = parse_origin(value.as_slice());
                Examined::Forward { host, port }
            },
            None => Examined::Bad,
        },
        Err(HttpError::Incomplete) => Examined::Incomplete,
        Err(_) => Examined::Bad,
    }
}

/// The proxy's own answer to a client.
pub fn reply_with(status: u16, body: &[u8]) -> (bytes: Vec<u8>)
    ensures
        bytes@ == client_reply(status, body@),
{
    proof {
        reveal_strlit("HTTP/1.1 400 Bad Request");
        reveal_strlit("HTTP/1.1 403 Forbidden");
        reveal_strlit("HTTP/1.1 501 Not Implemented");
        reveal_strlit("HTTP/1.1 502 Bad Gateway");
        reveal_strlit("HTTP/1.1 500 Internal Server Error");
    }
    let line = if status == 400 {
        ascii("HTTP/1.1 400 Bad Request")
    } else if status == 403 {
        ascii("HTTP/1.1 403 Forbidden")
    } else if status == 501 {
        ascii("HTTP/1.1 501 Not Implemented")
    } else if status == 502 {
        ascii("HTTP/1.1 502 Bad Gateway")
    } else {
        ascii("HTTP/1.1 500 Internal Server Error")
    };
    let headers: Vec<Header> = Vec::new();
    assert(crate::header::header_views(headers@) =~= Seq::<HeaderView>::empty());
    write_message(line, &headers, body)
}

impl Proxy {
    /// A proxy that has requests adapted by the service that `config` names
    /// and fails open or closed as `config` says.
    pub fn new(config: &Config) -> (proxy: Proxy)
        ensures
            proxy.icap_client.server_addr@ == config.icap_server_addr@,
            proxy.icap_client.timeout_ms == 5000,
            proxy.fail_open == config.fallback_mode,
    {
        Proxy {
            icap_client: IcapClient::new(config.icap_server_addr.clone(), 5000),
            fail_open: config.fallback_mode,
        }
    }

    /// A client was accepted: nothing is read yet, and reading is next.
    pub fn accept() -> (r: (ProxyState, ProxyAction))
        ensures
            r.0@ == (ProxyStateView::ReadRequestHead { received: Seq::empty() }),
            r.1@ == ProxyActionView::ReadClient,
    {
        (ProxyState::ReadRequestHead { received: Vec::new() }, ProxyAction::ReadClient)
    }

    /// Takes one step on a connection: given where it stands and what
    /// happened, says where it stands now and what to do next.
    ///
    /// The origin is connected to only after adaptation has ended, and never
    /// for a request that was blocked. Whatever fails after the request was
    /// read, the client is answered with a status line. An event that cannot
    /// happen in the given state closes the connection.
    pub fn step(&self, state: ProxyState, event: ProxyEvent) -> (r: (ProxyState, ProxyAction))
        ensures
            (r.0@, r.1@) == proxy_step(self.fail_open, state@, event@),
    {
        let nothing: Vec<u8> = Vec::new();
        match state {
            ProxyState::ReadRequestHead { received } => match event {
                ProxyEvent::Received(bytes) => {
                    let mut all = received;
                    append(&mut all, bytes.as_slice());
                    match examine(all.as_slice()) {
                        Examined::Incomplete => (
                            ProxyState::ReadRequestHead { received: all },
                            ProxyAction::ReadClient,
                        ),
                        Examined::Tunnel => (
                            ProxyState::Closed,
                            ProxyAction::Reply(reply_with(501, nothing.as_slice())),
                        ),
                        Examined::Bad => (
                            ProxyState::Closed,
                            ProxyAction::Reply(reply_with(400, nothing.as_slice())),
                        ),
                        Examined::Forward { host, port } => {
                            let copy = slice_to_vec(all.as_slice());
                            (
                                ProxyState::Adapt { request: all, host, port },
                                ProxyAction::Adapt(copy),
                            )
                        },
                    }
                },
                _ => (ProxyState::Closed, ProxyAction::Close),
            },
            ProxyState::Adapt { request, host, port } => match event {
                ProxyEvent::Adapted(outcome) => match outcome {
                    Ok(Adapted::Bytes(bytes)) => (
                        ProxyState::ConnectOrigin { outbound: bytes },
                        ProxyAction::Connect { host, port, degraded: false },
                    ),
                    Ok(Adapted::Blocked(reason)) => (
                        ProxyState::Closed,
                        ProxyAction::Reply(reply_with(403, reason.as_slice())),
                    ),
                    Err(_) => if self.fail_open {
                        (
                            ProxyState::ConnectOrigin { outbound: request },
                            ProxyAction::Connect { host, port, degraded: true },
                        )
                    } else {
                        (
                            ProxyState::Closed,
                            ProxyAction::Reply(reply_with(500, nothing.as_slice())),
                        )
                    },
                },
                _ => (ProxyState::Closed, ProxyAction::Close),
            },
            ProxyState::ConnectOrigin { outbound } => match event {
                ProxyEvent::Connected => (
                    ProxyState::RelayRequest,
                    ProxyAction::SendToOrigin(outbound),
                ),
                ProxyEvent::OriginFailed => (
                    ProxyState::Closed,
                    ProxyAction::Reply(reply_with(502, nothing.as_slice())),
                ),
                _ => (ProxyState::Closed, ProxyAction::Close),
            },
            ProxyState::RelayRequest => match event {
                ProxyEvent::RequestSent => (ProxyState::RelayResponse, ProxyAction::ReadOrigin),
                ProxyEvent::OriginFailed => (
                    ProxyState::Closed,
                    ProxyAction::Reply(reply_with(502, nothing.as_slice())),
                ),
                _ => (ProxyState::Closed, ProxyAction::Close),
            },
            ProxyState::RelayResponse => match event {
                ProxyEvent::Response(bytes) => (ProxyState::Closed, ProxyAction::Reply(bytes)),
                ProxyEvent::OriginFailed => (
                    ProxyState::Closed,
                    ProxyAction::Reply(reply_with(502, nothing.as_slice())),
                ),
                _ => (ProxyState::Closed, ProxyAction::Close),
            },
            ProxyState::Closed => (ProxyState::Closed, ProxyAction::Close),
        }
    }
}

} // verus!
