use icap_gateway::codec::{encode_response, CodecError, Method, Part, PartName};
use icap_gateway::config::Config;
use icap_gateway::icap_client::{AdaptError, Adapted, IcapClient};
use icap_gateway::icap_server::{IcapServer, ServiceAction, ServiceEvent, ServiceState};
use icap_gateway::proxy::{
    examine, parse_origin, parse_port, reply_with, Examined, Proxy, ProxyAction, ProxyEvent,
    ProxyState,
};
use icap_gateway::verdict::{decode_reply, Verdict};
use icap_gateway::worker::Worker;

const GET: &[u8] = b"GET / HTTP/1.1\r\nHost: example.com\r\n\r\n";

fn proxy(fail_open: bool) -> Proxy {
    Proxy::new(&Config { fallback_mode: fail_open, ..Config::load() })
}

fn adapting(request: &[u8]) -> ProxyState {
    ProxyState::Adapt { request: request.to_vec(), host: b"example.com".to_vec(), port: 80 }
}

/// Carries a request through the adaptation service and a worker, as the
/// client, the service and the dispatcher would, and reads the reply.
fn adapt_through_service(client: &IcapClient, request: &[u8]) -> Result<Adapted, AdaptError> {
    let wire = client.reqmod_request(request).unwrap();
    let (state, action) = IcapServer::accept();
    assert_eq!(action, ServiceAction::Read);
    let (state, action) = IcapServer::step(state, ServiceEvent::Received(wire));
    let payload = match action {
        ServiceAction::Inspect(payload) => payload,
        other => panic!("no dispatch: {:?}", other),
    };
    assert_eq!(state, ServiceState::AwaitVerdict { method: Method::Reqmod });
    assert_eq!(payload, request);
    let worker = Worker::new("tcp://*:5555".to_string());
    let verdict = decode_reply(&payload, worker.reply(&payload));
    let (state, action) = IcapServer::step(state, ServiceEvent::Inspected(verdict));
    assert_eq!(state, ServiceState::SendResponse);
    let reply = match action {
        ServiceAction::Send(reply) => reply,
        other => panic!("no reply: {:?}", other),
    };
    assert_eq!(
        IcapServer::step(state, ServiceEvent::ResponseSent),
        (ServiceState::Closed, ServiceAction::Close)
    );
    IcapClient::adapt(Method::Reqmod, request, &reply)
}

/// Runs one client connection against an origin that answers `response`,
/// and returns what the origin was sent and what the client was sent.
fn relay(proxy: &Proxy, request: &[u8], response: &[u8]) -> (Option<Vec<u8>>, Vec<u8>) {
    let (state, action) = Proxy::accept();
    assert_eq!(action, ProxyAction::ReadClient);
    let (state, action) = proxy.step(state, ProxyEvent::Received(request.to_vec()));
    let to_adapt = match action {
        ProxyAction::Adapt(bytes) => bytes,
        ProxyAction::Reply(bytes) => return (None, bytes),
        other => panic!("unexpected: {:?}", other),
    };
    assert_eq!(to_adapt, request);
    let outcome = adapt_through_service(&proxy.icap_client, &to_adapt);
    let (state, action) = proxy.step(state, ProxyEvent::Adapted(outcome));
    match action {
        ProxyAction::Connect { host, port, degraded } => {
            assert_eq!(host, b"example.com");
            assert_eq!(port, 80);
            assert!(!degraded);
        },
        ProxyAction::Reply(bytes) => {
            assert_eq!(state, ProxyState::Closed);
            return (None, bytes);
        },
        other => panic!("unexpected: {:?}", other),
    }
    let (state, action) = proxy.step(state, ProxyEvent::Connected);
    assert_eq!(state, ProxyState::RelayRequest);
    let sent = match action {
        ProxyAction::SendToOrigin(bytes) => bytes,
        other => panic!("unexpected: {:?}", other),
    };
    let (state, action) = proxy.step(state, ProxyEvent::RequestSent);
    assert_eq!((&state, &action), (&ProxyState::RelayResponse, &ProxyAction::ReadOrigin));
    let (state, action) = proxy.step(state, ProxyEvent::Response(response.to_vec()));
    assert_eq!(state, ProxyState::Closed);
    match action {
        ProxyAction::Reply(bytes) => (Some(sent), bytes),
        other => panic!("unexpected: {:?}", other),
    }
}

#[test]
fn test_unchanged_request_is_relayed_byte_for_byte() {
    let response = b"HTTP/1.1 200 OK\r\nContent-Length: 2\r\n\r\nhi";
    let (sent, answered) = relay(&proxy(false), GET, response);
    assert_eq!(sent, Some(GET.to_vec()));
    assert_eq!(answered, response);
    let raw: &[u8] = &[0, 1, 2, 255, 13, 10];
    let (sent, answered) = relay(&proxy(true), GET, raw);
    assert_eq!(sent, Some(GET.to_vec()));
    assert_eq!(answered, raw);
}

#[test]
fn test_rewritten_body_reaches_origin() {
    let request = b"POST /notes HTTP/1.1\r\nHost: example.com\r\n\r\nplease editme, then editme again";
    let (sent, answered) = relay(&proxy(false), request, b"HTTP/1.1 204 No Content\r\n\r\n");
    let expected: &[u8] =
        b"POST /notes HTTP/1.1\r\nHost: example.com\r\n\r\nplease [MODIFIED], then [MODIFIED] again";
    assert_eq!(sent, Some(expected.to_vec()));
    assert_eq!(answered, b"HTTP/1.1 204 No Content\r\n\r\n");
}

#[test]
fn test_rewritten_request_that_mentions_the_block_token_is_relayed() {
    let request = b"POST /notes HTTP/1.1\r\nHost: example.com\r\n\r\neditme BLOCKED";
    let (sent, answered) = relay(&proxy(false), request, b"HTTP/1.1 200 OK\r\n\r\n");
    let expected: &[u8] = b"POST /notes HTTP/1.1\r\nHost: example.com\r\n\r\n[MODIFIED] BLOCKED";
    assert_eq!(sent, Some(expected.to_vec()));
    assert_eq!(answered, b"HTTP/1.1 200 OK\r\n\r\n");
}

#[test]
fn test_service_answers_200_for_changed_reply_that_mentions_the_block_token() {
    let payload = b"editme BLOCKED";
    let verdict = decode_reply(payload, b"[MODIFIED] BLOCKED".to_vec());
    let (state, action) = IcapServer::step(
        ServiceState::AwaitVerdict { method: Method::Reqmod },
        ServiceEvent::Inspected(verdict),
    );
    assert_eq!(state, ServiceState::SendResponse);
    assert_eq!(
        action,
        ServiceAction::Send(
            b"ICAP/1.0 200 OK\r\nEncapsulated: req-body=0\r\n\r\n[MODIFIED] BLOCKED".to_vec()
        )
    );
    let verdict = decode_reply(payload, b"BLOCKED".to_vec());
    let (_, action) = IcapServer::step(
        ServiceState::AwaitVerdict { method: Method::Reqmod },
        ServiceEvent::Inspected(verdict),
    );
    assert_eq!(
        action,
        ServiceAction::Send(b"ICAP/1.0 403 Forbidden\r\n\r\nBlocked by policy".to_vec())
    );
}

#[test]
fn test_blocked_request_never_reaches_origin() {
    let request = b"POST /upload HTTP/1.1\r\nHost: example.com\r\n\r\nsome malware here";
    let (sent, answered) = relay(&proxy(true), request, b"unused");
    assert_eq!(sent, None);
    assert_eq!(answered, b"HTTP/1.1 403 Forbidden\r\n\r\nBlocked by policy");
}

#[test]
fn test_service_replies() {
    assert_eq!(IcapServer::respond(Method::Reqmod, Verdict::Allow), b"ICAP/1.0 204 No Content\r\n\r\n");
    assert_eq!(
        IcapServer::respond(Method::Reqmod, Verdict::Block(b"Blocked by policy".to_vec())),
        b"ICAP/1.0 403 Forbidden\r\n\r\nBlocked by policy"
    );
    assert_eq!(
        IcapServer::respond(Method::Reqmod, Verdict::Modify(b"GET /\r\n\r\nnew".to_vec())),
        b"ICAP/1.0 200 OK\r\nEncapsulated: req-hdr=0, req-body=9\r\n\r\nGET /\r\n\r\nnew"
    );
    assert_eq!(
        IcapServer::respond(Method::Respmod, Verdict::Modify(b"HTTP/1.1 200 OK\r\n\r\n".to_vec())),
        b"ICAP/1.0 200 OK\r\nEncapsulated: res-hdr=0, null-body=19\r\n\r\nHTTP/1.1 200 OK\r\n\r\n"
    );
    assert_eq!(
        IcapServer::respond(Method::Respmod, Verdict::Modify(b"just bytes".to_vec())),
        b"ICAP/1.0 200 OK\r\nEncapsulated: res-body=0\r\n\r\njust bytes"
    );
    assert_eq!(
        IcapServer::respond(Method::Reqmod, Verdict::Modify(Vec::new())),
        b"ICAP/1.0 200 OK\r\nEncapsulated: null-body=0\r\n\r\n"
    );
    assert_eq!(IcapServer::failure(), b"ICAP/1.0 500 Server Error\r\n\r\n");
}

fn await_request(received: &[u8]) -> ServiceState {
    ServiceState::AwaitRequest { received: received.to_vec() }
}

#[test]
fn test_service_reads_until_header_block_ends() {
    let wire = IcapClient::new("svc".to_string(), 1).reqmod_request(GET).unwrap();
    let (first, second) = wire.split_at(20);
    let (state, action) = IcapServer::step(await_request(b""), ServiceEvent::Received(first.to_vec()));
    assert_eq!(state, await_request(first));
    assert_eq!(action, ServiceAction::Read);
    let (state, action) = IcapServer::step(state, ServiceEvent::Received(second.to_vec()));
    assert_eq!(state, ServiceState::AwaitVerdict { method: Method::Reqmod });
    assert_eq!(action, ServiceAction::Inspect(GET.to_vec()));
    let (state, action) = IcapServer::step(await_request(b""), ServiceEvent::Received(Vec::new()));
    assert_eq!((state, action), (await_request(b""), ServiceAction::Read));
}

#[test]
fn test_service_closes_without_reply_when_peer_is_gone() {
    assert_eq!(
        IcapServer::step(await_request(b"REQMOD icap"), ServiceEvent::PeerGone),
        (ServiceState::Closed, ServiceAction::Close)
    );
    assert_eq!(
        IcapServer::step(ServiceState::SendResponse, ServiceEvent::PeerGone),
        (ServiceState::Closed, ServiceAction::Close)
    );
}

#[test]
fn test_service_answers_500() {
    let failure = ServiceAction::Send(b"ICAP/1.0 500 Server Error\r\n\r\n".to_vec());
    for wire in [
        &b"GET / HTTP/1.1\r\n\r\n"[..],
        b"REQMOD icap://svc/reqmod ICAP/1.0\r\n\r\nno offsets",
        b"REQMOD icap://svc/reqmod ICAP/1.0\r\nEncapsulated: req-hdr=5, req-body=2\r\n\r\n0123456",
        b"REQMOD icap://svc/reqmod ICAP/1.0\r\nEncapsulated: req-body=9\r\n\r\n0123456",
        b"OPTIONS icap://svc/options ICAP/1.0\r\nEncapsulated: null-body=0\r\n\r\n",
        b"\r\n\r\n",
    ] {
        assert_eq!(
            IcapServer::step(await_request(b""), ServiceEvent::Received(wire.to_vec())),
            (ServiceState::SendResponse, failure.clone())
        );
    }
    assert_eq!(
        IcapServer::step(
            ServiceState::AwaitVerdict { method: Method::Respmod },
            ServiceEvent::DispatchFailed
        ),
        (ServiceState::SendResponse, failure)
    );
}

#[test]
fn test_service_ignores_events_out_of_turn() {
    let closed = (ServiceState::Closed, ServiceAction::Close);
    assert_eq!(IcapServer::step(await_request(b""), ServiceEvent::Inspected(Verdict::Allow)), closed);
    assert_eq!(IcapServer::step(await_request(b""), ServiceEvent::ResponseSent), closed);
    assert_eq!(
        IcapServer::step(
            ServiceState::AwaitVerdict { method: Method::Reqmod },
            ServiceEvent::Received(b"more".to_vec())
        ),
        closed
    );
    assert_eq!(
        IcapServer::step(ServiceState::SendResponse, ServiceEvent::Inspected(Verdict::Allow)),
        closed
    );
    assert_eq!(IcapServer::step(ServiceState::Closed, ServiceEvent::Received(GET.to_vec())), closed);
    assert_eq!(IcapServer::step(ServiceState::Closed, ServiceEvent::DispatchFailed), closed);
}

#[test]
fn test_client_request() {
    let client = IcapClient::new("127.0.0.1:1344".to_string(), 5000);
    let mut expected = b"REQMOD icap://127.0.0.1:1344/reqmod ICAP/1.0\r\nHost: 127.0.0.1:1344\r\n\
                         Allow: 204\r\nEncapsulated: req-hdr=0, req-body=37\r\n\r\n"
        .to_vec();
    expected.extend_from_slice(GET);
    expected.extend_from_slice(b"body");
    assert_eq!(client.reqmod_request(&[GET, b"body"].concat()), Ok(expected));
    let wire = client.respmod_request(b"no head").unwrap();
    let text = String::from_utf8(wire).unwrap();
    assert!(text.starts_with("RESPMOD icap://127.0.0.1:1344/respmod ICAP/1.0\r\n"));
    assert!(text.ends_with("Encapsulated: res-body=0\r\n\r\nno head"));
    assert_eq!(
        client.request(Method::Options, b"").unwrap(),
        b"OPTIONS icap://127.0.0.1:1344/options ICAP/1.0\r\nHost: 127.0.0.1:1344\r\nAllow: 204\r\n\
          Encapsulated: null-body=0\r\n\r\n"
    );
    assert_eq!(client.request(Method::Options, GET), Err(CodecError::UnexpectedPayload));
    let unnamed = IcapClient::new(String::new(), 5000);
    assert_eq!(unnamed.reqmod_request(GET), Err(CodecError::InvalidService));
    let odd = IcapClient::new("h\u{e9}te".to_string(), 5000);
    assert_eq!(odd.reqmod_request(GET), Err(CodecError::InvalidService));
}

#[test]
fn test_client_reads_replies() {
    let adapt = |reply: &[u8]| IcapClient::adapt(Method::Reqmod, GET, reply);
    assert_eq!(adapt(b"ICAP/1.0 204 No Content\r\n\r\n"), Ok(Adapted::Bytes(GET.to_vec())));
    assert_eq!(adapt(b"ICAP/1.0 204 No Content\r\n\r\nignored"), Ok(Adapted::Bytes(GET.to_vec())));
    assert_eq!(
        adapt(b"ICAP/1.0 200 OK\r\nEncapsulated: req-body=0\r\n\r\nnew"),
        Ok(Adapted::Bytes(b"new".to_vec()))
    );
    assert_eq!(
        adapt(b"ICAP/1.0 200 OK\r\nEncapsulated: null-body=0\r\n\r\n"),
        Ok(Adapted::Bytes(Vec::new()))
    );
    assert_eq!(adapt(b"ICAP/1.0 200 OK\r\n\r\nHTTP/1.1 200 OK\r\n\r\nbody"),
        Ok(Adapted::Bytes(b"HTTP/1.1 200 OK\r\n\r\nbody".to_vec())));
    assert_eq!(adapt(b"ICAP/1.0 200 OK\r\n\r\n"), Err(AdaptError::MissingBody));
    assert_eq!(
        adapt(b"ICAP/1.0 403 Forbidden\r\n\r\nBlocked by policy"),
        Ok(Adapted::Blocked(b"Blocked by policy".to_vec()))
    );
    assert_eq!(adapt(b"ICAP/1.0 403 Forbidden\r\n\r\n"), Ok(Adapted::Blocked(Vec::new())));
    assert_eq!(adapt(b"ICAP/1.0 500 Server Error\r\n\r\n"), Err(AdaptError::Status(500)));
    assert_eq!(adapt(b"ICAP/1.0 404 Not Found\r\n\r\nx"), Err(AdaptError::Status(404)));
    assert_eq!(adapt(b"ICAP/1.0 204"), Err(AdaptError::Malformed(CodecError::Truncated)));
    assert_eq!(adapt(b""), Err(AdaptError::Malformed(CodecError::Truncated)));
    assert_eq!(adapt(b"nonsense\r\n\r\n"), Err(AdaptError::Malformed(CodecError::MalformedStartLine)));
    assert_eq!(
        adapt(b"ICAP/1.0 200 OK\r\nEncapsulated: req-body=7\r\n\r\nnew"),
        Err(AdaptError::Malformed(CodecError::MalformedEncapsulation))
    );
    assert_eq!(
        adapt(b"ICAP/1.0 204 No Content\r\nbroken\r\n\r\n"),
        Err(AdaptError::Malformed(CodecError::MalformedHeader))
    );
}

#[test]
fn test_client_concludes() {
    let conclude = |received| IcapClient::conclude(Method::Reqmod, GET, received);
    assert_eq!(conclude(None), Err(AdaptError::Transport));
    assert_eq!(
        conclude(Some(b"ICAP/1.0 204 No Content".to_vec())),
        Err(AdaptError::Malformed(CodecError::Truncated))
    );
    assert_eq!(conclude(Some(Vec::new())), Err(AdaptError::Malformed(CodecError::Truncated)));
    assert_eq!(
        conclude(Some(b"ICAP/1.0 204 No Content\r\n\r\n".to_vec())),
        Ok(Adapted::Bytes(GET.to_vec()))
    );
    assert_eq!(
        conclude(Some(b"ICAP/1.0 403 Forbidden\r\n\r\nno".to_vec())),
        Ok(Adapted::Blocked(b"no".to_vec()))
    );
    assert_eq!(
        conclude(Some(b"ICAP/1.0 500 Server Error\r\n\r\n".to_vec())),
        Err(AdaptError::Status(500))
    );
}

#[test]
fn test_request_is_opening_and_message() {
    let client = IcapClient::new("127.0.0.1:1344".to_string(), 5000);
    for message in [&b""[..], GET, b"no head at all", b"a\r\n\r\nb\r\n\r\nc", &[0xff, 0x00, 0x0d]] {
        for (wire, line) in [
            (client.reqmod_request(message).unwrap(), "REQMOD icap://127.0.0.1:1344/reqmod ICAP/1.0\r\n"),
            (client.respmod_request(message).unwrap(), "RESPMOD icap://127.0.0.1:1344/respmod ICAP/1.0\r\n"),
        ] {
            assert!(wire.ends_with(message));
            let opening = &wire[..wire.len() - message.len()];
            assert!(opening.is_ascii());
            assert!(opening.starts_with(line.as_bytes()));
            assert!(opening.ends_with(b"\r\n\r\n"));
            let text = std::str::from_utf8(opening).unwrap();
            assert_eq!(text.find("\r\n\r\n"), Some(opening.len() - 4));
            assert!(text.contains("\r\nHost: 127.0.0.1:1344\r\n"));
            assert!(text.contains("\r\nAllow: 204\r\n"));
            assert!(text.contains("\r\nEncapsulated: "));
        }
    }
}

#[test]
fn test_client_reads_what_the_service_writes() {
    let original = b"orig";
    let read = |method, verdict| {
        IcapClient::adapt(method, original, &IcapServer::respond(method, verdict))
    };
    for method in [Method::Reqmod, Method::Respmod] {
        assert_eq!(read(method, Verdict::Allow), Ok(Adapted::Bytes(original.to_vec())));
        for bytes in [&b""[..], b"x", GET, b"\r\n\r\n", b"a\r\n\r\nb\r\n\r\nc"] {
            assert_eq!(
                read(method, Verdict::Modify(bytes.to_vec())),
                Ok(Adapted::Bytes(bytes.to_vec()))
            );
        }
        assert_eq!(read(method, Verdict::Block(b"no".to_vec())), Ok(Adapted::Blocked(b"no".to_vec())));
        assert_eq!(read(method, Verdict::Block(Vec::new())), Ok(Adapted::Blocked(Vec::new())));
        assert_eq!(
            IcapClient::adapt(method, original, &IcapServer::failure()),
            Err(AdaptError::Status(500))
        );
    }
}

#[test]
fn test_unmodified_reply_forwards_request() {
    for fail_open in [false, true] {
        let proxy = proxy(fail_open);
        let outcome = IcapClient::adapt(Method::Reqmod, GET, &encode_response(204, None, b""));
        let (state, action) = proxy.step(adapting(GET), ProxyEvent::Adapted(outcome));
        assert_eq!(state, ProxyState::ConnectOrigin { outbound: GET.to_vec() });
        assert_eq!(
            action,
            ProxyAction::Connect { host: b"example.com".to_vec(), port: 80, degraded: false }
        );
        assert_eq!(
            proxy.step(state, ProxyEvent::Connected),
            (ProxyState::RelayRequest, ProxyAction::SendToOrigin(GET.to_vec()))
        );
    }
}

#[test]
fn test_blocked_reply_rejects_client() {
    for fail_open in [false, true] {
        let proxy = proxy(fail_open);
        let outcome = IcapClient::adapt(Method::Reqmod, GET, &encode_response(403, None, b"bad"));
        let (state, action) = proxy.step(adapting(GET), ProxyEvent::Adapted(outcome));
        assert_eq!(state, ProxyState::Closed);
        assert_eq!(action, ProxyAction::Reply(b"HTTP/1.1 403 Forbidden\r\n\r\nbad".to_vec()));
        assert_eq!(
            proxy.step(state, ProxyEvent::Connected),
            (ProxyState::Closed, ProxyAction::Close)
        );
    }
}

#[test]
fn test_failed_adaptation_follows_policy() {
    for error in [
        AdaptError::Transport,
        AdaptError::Status(500),
        AdaptError::MissingBody,
        AdaptError::Malformed(CodecError::Truncated),
    ] {
        let (state, action) = proxy(true).step(adapting(GET), ProxyEvent::Adapted(Err(error)));
        assert_eq!(state, ProxyState::ConnectOrigin { outbound: GET.to_vec() });
        assert_eq!(
            action,
            ProxyAction::Connect { host: b"example.com".to_vec(), port: 80, degraded: true }
        );
        assert_eq!(
            proxy(true).step(state, ProxyEvent::Connected),
            (ProxyState::RelayRequest, ProxyAction::SendToOrigin(GET.to_vec()))
        );
        let (state, action) = proxy(false).step(adapting(GET), ProxyEvent::Adapted(Err(error)));
        assert_eq!(state, ProxyState::Closed);
        assert_eq!(
            action,
            ProxyAction::Reply(b"HTTP/1.1 500 Internal Server Error\r\n\r\n".to_vec())
        );
    }
}

#[test]
fn test_adapted_bytes_go_to_the_origin_of_the_request() {
    let outcome = Ok(Adapted::Bytes(b"GET /other HTTP/1.1\r\nHost: elsewhere\r\n\r\n".to_vec()));
    let state = ProxyState::Adapt { request: GET.to_vec(), host: b"example.com".to_vec(), port: 8080 };
    let (state, action) = proxy(false).step(state, ProxyEvent::Adapted(outcome));
    assert_eq!(
        action,
        ProxyAction::Connect { host: b"example.com".to_vec(), port: 8080, degraded: false }
    );
    assert_eq!(
        state,
        ProxyState::ConnectOrigin {
            outbound: b"GET /other HTTP/1.1\r\nHost: elsewhere\r\n\r\n".to_vec()
        }
    );
}

#[test]
fn test_connect_is_not_implemented() {
    let (state, action) = proxy(true)
        .step(Proxy::accept().0, ProxyEvent::Received(b"CONNECT example.com:443 HTTP/1.1\r\n\r\n".to_vec()));
    assert_eq!(state, ProxyState::Closed);
    assert_eq!(action, ProxyAction::Reply(b"HTTP/1.1 501 Not Implemented\r\n\r\n".to_vec()));
    assert_eq!(examine(b"CONNECT "), Examined::Tunnel);
    assert_eq!(examine(b"CONNECT"), Examined::Incomplete);
    assert_eq!(examine(b"connect x HTTP/1.1\r\nHost: x\r\n\r\n"),
        Examined::Forward { host: b"x".to_vec(), port: 80 });
}

#[test]
fn test_missing_host_is_a_bad_request() {
    let bad = ProxyAction::Reply(b"HTTP/1.1 400 Bad Request\r\n\r\n".to_vec());
    for request in [
        &b"GET / HTTP/1.1\r\n\r\n"[..],
        b"GET / HTTP/1.1\r\nAccept: */*\r\n\r\n",
        b"GET / HTTP/1.1\r\nHost example.com\r\n\r\n",
        b"GET / HTTP/1.1\r\nAccept: */*\r\n\r\nHost: in-the-body\r\n\r\n",
        b"POST / HTTP/1.1\r\nHost: h\r\nContent-Length: 1\r\n\r\ntoo long",
        b"POST / HTTP/1.1\r\nHost: h\r\nContent-Length: one\r\n\r\n",
        b"\r\n\r\n",
    ] {
        assert_eq!(
            proxy(true).step(Proxy::accept().0, ProxyEvent::Received(request.to_vec())),
            (ProxyState::Closed, bad.clone())
        );
    }
}

#[test]
fn test_proxy_reads_until_request_is_complete() {
    let proxy = proxy(false);
    let request = b"POST /x HTTP/1.1\r\nhOsT:  example.org : 8081 \r\nContent-Length: 5\r\n\r\nhello";
    let (state, action) = proxy.step(Proxy::accept().0, ProxyEvent::Received(request[..10].to_vec()));
    assert_eq!(state, ProxyState::ReadRequestHead { received: request[..10].to_vec() });
    assert_eq!(action, ProxyAction::ReadClient);
    let (state, action) = proxy.step(state, ProxyEvent::Received(request[10..70].to_vec()));
    assert_eq!(state, ProxyState::ReadRequestHead { received: request[..70].to_vec() });
    assert_eq!(action, ProxyAction::ReadClient);
    let (state, action) = proxy.step(state, ProxyEvent::Received(request[70..].to_vec()));
    assert_eq!(
        state,
        ProxyState::Adapt { request: request.to_vec(), host: b"example.org".to_vec(), port: 8081 }
    );
    assert_eq!(action, ProxyAction::Adapt(request.to_vec()));
}

#[test]
fn test_client_gone_closes_silently() {
    let proxy = proxy(true);
    assert_eq!(
        proxy.step(Proxy::accept().0, ProxyEvent::ClientGone),
        (ProxyState::Closed, ProxyAction::Close)
    );
    assert_eq!(
        proxy.step(adapting(GET), ProxyEvent::ClientGone),
        (ProxyState::Closed, ProxyAction::Close)
    );
    assert_eq!(
        proxy.step(ProxyState::RelayResponse, ProxyEvent::ClientGone),
        (ProxyState::Closed, ProxyAction::Close)
    );
}

#[test]
fn test_origin_failure_is_a_bad_gateway() {
    let proxy = proxy(true);
    let bad_gateway = ProxyAction::Reply(b"HTTP/1.1 502 Bad Gateway\r\n\r\n".to_vec());
    for state in [
        ProxyState::ConnectOrigin { outbound: GET.to_vec() },
        ProxyState::RelayRequest,
        ProxyState::RelayResponse,
    ] {
        assert_eq!(
            proxy.step(state, ProxyEvent::OriginFailed),
            (ProxyState::Closed, bad_gateway.clone())
        );
    }
    assert_eq!(
        proxy.step(adapting(GET), ProxyEvent::OriginFailed),
        (ProxyState::Closed, ProxyAction::Close)
    );
}

#[test]
fn test_proxy_ignores_events_out_of_turn() {
    let proxy = proxy(true);
    let closed = (ProxyState::Closed, ProxyAction::Close);
    assert_eq!(proxy.step(Proxy::accept().0, ProxyEvent::Connected), closed);
    assert_eq!(proxy.step(adapting(GET), ProxyEvent::Connected), closed);
    assert_eq!(proxy.step(adapting(GET), ProxyEvent::Received(GET.to_vec())), closed);
    assert_eq!(
        proxy.step(ProxyState::ConnectOrigin { outbound: GET.to_vec() }, ProxyEvent::RequestSent),
        closed
    );
    assert_eq!(proxy.step(ProxyState::RelayRequest, ProxyEvent::Response(Vec::new())), closed);
    assert_eq!(proxy.step(ProxyState::RelayResponse, ProxyEvent::RequestSent), closed);
    assert_eq!(proxy.step(ProxyState::Closed, ProxyEvent::Received(GET.to_vec())), closed);
    assert_eq!(
        proxy.step(ProxyState::Closed, ProxyEvent::Adapted(Ok(Adapted::Bytes(GET.to_vec())))),
        closed
    );
}

#[test]
fn test_origin() {
    assert_eq!(parse_origin(b"example.com"), (b"example.com".to_vec(), 80));
    assert_eq!(parse_origin(b"example.com:8080"), (b"example.com".to_vec(), 8080));
    assert_eq!(parse_origin(b"example.com : 8080"), (b"example.com".to_vec(), 8080));
    assert_eq!(parse_origin(b"example.com:"), (b"example.com".to_vec(), 80));
    assert_eq!(parse_origin(b"example.com:http"), (b"example.com".to_vec(), 80));
    assert_eq!(parse_origin(b"example.com:65536"), (b"example.com".to_vec(), 80));
    assert_eq!(parse_origin(b"example.com:65535"), (b"example.com".to_vec(), 65535));
    assert_eq!(parse_origin(b"example.com:0"), (b"example.com".to_vec(), 0));
    assert_eq!(parse_origin(b"example.com:+8080"), (b"example.com".to_vec(), 8080));
    assert_eq!(parse_origin(b"example.com:1:2"), (b"example.com".to_vec(), 80));
    assert_eq!(parse_origin(b":8080"), (Vec::new(), 8080));
    assert_eq!(parse_origin(b""), (Vec::new(), 80));
    assert_eq!(parse_port(b"443"), Some(443));
    assert_eq!(parse_port(b"+443"), Some(443));
    assert_eq!(parse_port(b"00443"), Some(443));
    assert_eq!(parse_port(b"+"), None);
    assert_eq!(parse_port(b"++1"), None);
    assert_eq!(parse_port(b"-1"), None);
    assert_eq!(parse_port(b""), None);
    assert_eq!(parse_port(b"4 43"), None);
}

#[test]
fn test_examine() {
    assert_eq!(examine(b""), Examined::Incomplete);
    assert_eq!(examine(b"GET / HTTP/1.1\r\nHost: a\r\n"), Examined::Incomplete);
    assert_eq!(
        examine(b"POST / HTTP/1.1\r\nHost: a\r\nContent-Length: 3\r\n\r\nab"),
        Examined::Incomplete
    );
    assert_eq!(
        examine(b"GET / HTTP/1.1\r\nHost: first\r\nHost: second:81\r\n\r\n"),
        Examined::Forward { host: b"first".to_vec(), port: 80 }
    );
    assert_eq!(
        examine(b"GET / HTTP/1.1\r\nHost:\r\n\r\n"),
        Examined::Forward { host: Vec::new(), port: 80 }
    );
    assert_eq!(examine(b"GET / HTTP/1.1\r\nX: y\r\n\r\n"), Examined::Bad);
}

#[test]
fn test_reply_with() {
    assert_eq!(reply_with(400, b""), b"HTTP/1.1 400 Bad Request\r\n\r\n");
    assert_eq!(reply_with(403, b"why"), b"HTTP/1.1 403 Forbidden\r\n\r\nwhy");
    assert_eq!(reply_with(500, b""), b"HTTP/1.1 500 Internal Server Error\r\n\r\n");
    assert_eq!(reply_with(501, b""), b"HTTP/1.1 501 Not Implemented\r\n\r\n");
    assert_eq!(reply_with(502, b""), b"HTTP/1.1 502 Bad Gateway\r\n\r\n");
    assert_eq!(reply_with(200, b""), b"HTTP/1.1 500 Internal Server Error\r\n\r\n");
}

#[test]
fn test_reply_with_part_list_is_read_by_client() {
    let parts = vec![
        Part { name: PartName::ReqHdr, offset: 0 },
        Part { name: PartName::ReqBody, offset: 37 },
    ];
    let payload = [GET, b"changed"].concat();
    let reply = encode_response(200, Some(&parts), &payload);
    assert_eq!(IcapClient::adapt(Method::Reqmod, GET, &reply), Ok(Adapted::Bytes(payload)));
}
