//! What holds across the components: how a verdict travels from the worker
//! to the proxy, and what the proxy does with it.

use vstd::prelude::*;
use vstd::string::*;
use vstd::utf8::encode_utf8;
use crate::bytes::{
    text, contains, occurs_at, first_occurrence, has_prefix, replaced, occurrences,
    lemma_first_occurrence_exists, lemma_occurs_at_bytes, lemma_replaced_len,
    lemma_replaced_lacks_pattern, lemma_concatenation,
};
use crate::codec::{
    Method, PartName, CodecError, decoded_response, embedded_parts, rank, request_line,
    request_opening, encoded_request,
};
use crate::header::{blank_line, crlf, framed};
use crate::http::head_length;
use crate::icap_client::{
    AdaptedView, AdaptError, adapted, concluded, adaptation_request, adaptation_opening,
};
use crate::icap_server::{reply_to_verdict, failure_reply};
use crate::proxy::{
    ProxyStateView, ProxyEventView, ProxyActionView, proxy_step, client_reply,
};
use crate::round_trip::{
    all_ascii, lemma_response_round_trip, lemma_embedded_parts_well_formed, lemma_request_shape,
};
use crate::verdict::{
    VerdictView, verdict_for, reply_for, verdict_of_reply, has_block_marker, rewrite_marker,
    rewrite_replacement, block_token,
};

verus! {

/// The actions that a connection of the proxy takes, one for each event, from `state` on.
pub open spec fn proxy_actions(fail_open: bool, state: ProxyStateView, events: Seq<ProxyEventView>) -> Seq<
    ProxyActionView,
>
    decreases events.len(),
{
    if events.len() == 0 {
        Seq::empty()
    } else {
        let (next, action) = proxy_step(fail_open, state, events[0]);
        seq![action] + proxy_actions(fail_open, next, events.skip(1))
    }
}

/// A closed connection stays closed: whatever happens, nothing is done on it.
pub proof fn lemma_closed_is_final(fail_open: bool, events: Seq<ProxyEventView>)
    ensures
        proxy_actions(fail_open, ProxyStateView::Closed, events).len() == events.len(),
        forall|i: int|
            0 <= i < events.len() ==> #[trigger] proxy_actions(
                fail_open,
                ProxyStateView::Closed,
                events,
            )[i] == ProxyActionView::Close,
    decreases events.len(),
{
    if events.len() > 0 {
        lemma_closed_is_final(fail_open, events.skip(1));
    }
}

/// The origin is connected to only when adaptation has ended, with bytes to
/// send or, under fail open, with an error; and bytes go to the origin only
/// from the state that a connect leads to, and are the bytes kept there.
pub proof fn lemma_origin_only_after_adaptation(
    fail_open: bool,
    state: ProxyStateView,
    event: ProxyEventView,
)
    ensures
        proxy_step(fail_open, state, event).1 is Connect ==> state is Adapt && (event matches ProxyEventView::Adapted(
            outcome,
        ) && (outcome matches Ok(AdaptedView::Bytes(_)) || (outcome is Err && fail_open))),
        proxy_step(fail_open, state, event).0 is ConnectOrigin <==> proxy_step(
            fail_open,
            state,
            event,
        ).1 is Connect,
        proxy_step(fail_open, state, event).1 matches ProxyActionView::SendToOrigin(bytes)
            ==> state == (ProxyStateView::ConnectOrigin { outbound: bytes }),
{
}

/// When the adaptation service answers 204, the proxy connects to the
/// origin that the request names and sends it the client's request, byte
/// for byte as it came.
pub proof fn lemma_unmodified_is_forwarded(
    fail_open: bool,
    request: Seq<u8>,
    host: Seq<u8>,
    port: u16,
    reply: Seq<u8>,
)
    requires
        decoded_response(reply, Method::Reqmod) matches Ok(response) && response.status == 204,
    ensures
        adapted(Method::Reqmod, request, reply) == Ok::<AdaptedView, AdaptError>(
            AdaptedView::Bytes(request),
        ),
        proxy_actions(
            fail_open,
            ProxyStateView::Adapt { request, host, port },
            seq![
                ProxyEventView::Adapted(adapted(Method::Reqmod, request, reply)),
                ProxyEventView::Connected,
            ],
        ) == seq![
            ProxyActionView::Connect { host, port, degraded: false },
            ProxyActionView::SendToOrigin(request),
        ],
{
    let state = ProxyStateView::Adapt { request, host, port };
    let events = seq![
        ProxyEventView::Adapted(adapted(Method::Reqmod, request, reply)),
        ProxyEventView::Connected,
    ];
    reveal_with_fuel(proxy_actions, 3);
    assert(events.skip(1) =~= seq![ProxyEventView::Connected]);
    assert(events.skip(1).skip(1) =~= Seq::<ProxyEventView>::empty());
    assert(proxy_actions(fail_open, state, events) =~= seq![
        ProxyActionView::Connect { host, port, degraded: false },
        ProxyActionView::SendToOrigin(request),
    ]);
}

/// When the adaptation service answers 403, the proxy answers the client
/// with 403 and the reason, and at no time after that connects to an origin
/// or does anything else on the connection.
pub proof fn lemma_blocked_never_reaches_origin(
    fail_open: bool,
    request: Seq<u8>,
    host: Seq<u8>,
    port: u16,
    reply: Seq<u8>,
    later: Seq<ProxyEventView>,
)
    requires
        decoded_response(reply, Method::Reqmod) matches Ok(response) && response.status == 403,
    ensures
        adapted(Method::Reqmod, request, reply) matches Ok(AdaptedView::Blocked(reason))
            && proxy_actions(
            fail_open,
            ProxyStateView::Adapt { request, host, port },
            seq![ProxyEventView::Adapted(adapted(Method::Reqmod, request, reply))] + later,
        )[0] == ProxyActionView::Reply(client_reply(403, reason)),
        forall|i: int|
            1 <= i <= later.len() ==> #[trigger] proxy_actions(
                fail_open,
                ProxyStateView::Adapt { request, host, port },
                seq![ProxyEventView::Adapted(adapted(Method::Reqmod, request, reply))] + later,
            )[i] == ProxyActionView::Close,
{
    let state = ProxyStateView::Adapt { request, host, port };
    let events = seq![ProxyEventView::Adapted(adapted(Method::Reqmod, request, reply))] + later;
    assert(events.skip(1) =~= later);
    lemma_closed_is_final(fail_open, later);
    let actions = proxy_actions(fail_open, state, events);
    assert forall|i: int| 1 <= i <= later.len() implies #[trigger] actions[i]
        == ProxyActionView::Close by {
        assert(actions[i] == proxy_actions(fail_open, ProxyStateView::Closed, later)[i - 1]);
    }
}

/// When adaptation fails, the policy decides. Fail open: the proxy connects
/// to the origin and sends the request as it came. Fail closed: it answers
/// the client with 500 and at no time connects to an origin.
pub proof fn lemma_failed_adaptation_follows_policy(
    request: Seq<u8>,
    host: Seq<u8>,
    port: u16,
    error: AdaptError,
    later: Seq<ProxyEventView>,
)
    ensures
        proxy_actions(
            true,
            ProxyStateView::Adapt { request, host, port },
            seq![ProxyEventView::Adapted(Err(error)), ProxyEventView::Connected],
        ) == seq![
            ProxyActionView::Connect { host, port, degraded: true },
            ProxyActionView::SendToOrigin(request),
        ],
        proxy_actions(
            false,
            ProxyStateView::Adapt { request, host, port },
            seq![ProxyEventView::Adapted(Err(error))] + later,
        )[0] == ProxyActionView::Reply(client_reply(500, Seq::empty())),
        forall|i: int|
            1 <= i <= later.len() ==> #[trigger] proxy_actions(
                false,
                ProxyStateView::Adapt { request, host, port },
                seq![ProxyEventView::Adapted(Err(error))] + later,
            )[i] == ProxyActionView::Close,
{
    let state = ProxyStateView::Adapt { request, host, port };
    let open = seq![ProxyEventView::Adapted(Err(error)), ProxyEventView::Connected];
    assert(proxy_actions(true, state, open) =~= seq![
        ProxyActionView::Connect { host, port, degraded: true },
        ProxyActionView::SendToOrigin(request),
    ]) by {
        reveal_with_fuel(proxy_actions, 3);
        assert(open.skip(1) =~= seq![ProxyEventView::Connected]);
        assert(open.skip(1).skip(1) =~= Seq::<ProxyEventView>::empty());
    }
    let events = seq![ProxyEventView::Adapted(Err(error))] + later;
    assert(events.skip(1) =~= later);
    lemma_closed_is_final(false, later);
    let actions = proxy_actions(false, state, events);
    assert forall|i: int| 1 <= i <= later.len() implies #[trigger] actions[i]
        == ProxyActionView::Close by {
        assert(actions[i] == proxy_actions(false, ProxyStateView::Closed, later)[i - 1]);
    }
}

/// The client reads the service's reply for a verdict as that verdict. It
/// gets the embedded message unchanged for `Allow`, the new bytes for
/// `Modify`, and a refusal with the reason for `Block`. A failure of the service is read as
/// an error, never as bytes to use.
#[verifier::rlimit(50)]
pub proof fn lemma_verdict_reaches_client(method: Method, original: Seq<u8>, verdict: VerdictView)
    requires
        method != Method::Options,
        verdict matches VerdictView::Modify(bytes) ==> bytes.len() <= usize::MAX,
    ensures
        adapted(method, original, reply_to_verdict(method, verdict)) == Ok::<
            AdaptedView,
            AdaptError,
        >(
            match verdict {
                VerdictView::Allow => AdaptedView::Bytes(original),
                VerdictView::Modify(bytes) => AdaptedView::Bytes(bytes),
                VerdictView::Block(reason) => AdaptedView::Blocked(reason),
            },
        ),
        adapted(method, original, failure_reply()) == Err::<AdaptedView, AdaptError>(
            AdaptError::Status(500),
        ),
{
    lemma_response_round_trip(method, 500, None, Seq::empty());
    match verdict {
        VerdictView::Allow => {
            lemma_response_round_trip(method, 204, None, Seq::empty());
        },
        VerdictView::Modify(bytes) => {
            let head_len = head_length(bytes);
            if first_occurrence(bytes, blank_line()) is Some {
                lemma_first_occurrence_exists(bytes, blank_line());
            }
            let body_len = (bytes.len() - head_len) as nat;
            lemma_embedded_parts_well_formed(method, head_len, body_len);
            lemma_response_round_trip(
                method,
                200,
                Some(embedded_parts(method, head_len, body_len)),
                bytes,
            );
        },
        VerdictView::Block(reason) => {
            lemma_response_round_trip(method, 403, None, reason);
            if reason.len() == 0 {
                assert(reason =~= Seq::<u8>::empty());
            }
        },
    }
}

/// Rewriting changes the payload wherever there is a marker to rewrite, and
/// what it makes of the payload is never the block token.
pub proof fn lemma_rewrite_changes(payload: Seq<u8>)
    requires
        contains(payload, rewrite_marker()),
    ensures
        replaced(payload, rewrite_marker(), rewrite_replacement()) != payload,
        replaced(payload, rewrite_marker(), rewrite_replacement()) != block_token(),
{
    reveal_strlit("editme");
    reveal_strlit("[MODIFIED]");
    reveal_strlit("BLOCKED");
    lemma_first_occurrence_exists(payload, rewrite_marker());
    let at = first_occurrence(payload, rewrite_marker())->0;
    lemma_occurs_at_bytes(payload, rewrite_marker(), at);
    let rewritten = replaced(payload, rewrite_marker(), rewrite_replacement());
    assert(payload[at + 0] == rewrite_marker()[0]);
    assert(rewritten[at] == rewrite_replacement()[0]);
    assert(rewritten.len() >= at + rewrite_replacement().len());
}

/// The verdict of the reference policy survives the channel: the reply
/// that a worker sends for a payload is read by the dispatcher as the
/// verdict that the worker reached.
pub proof fn lemma_verdict_survives_channel(payload: Seq<u8>)
    ensures
        verdict_of_reply(payload, reply_for(verdict_for(payload), payload)) == verdict_for(payload),
{
    reveal_strlit("BLOCKED");
    reveal_strlit("malware");
    reveal_strlit("phishing");
    if has_block_marker(payload) {
        let token = block_token();
        if payload == token {
            if contains(token, text("malware")) {
                let at = choose|at: int| occurs_at(token, text("malware"), at);
                lemma_occurs_at_bytes(token, text("malware"), at);
                assert(token[at + 0] == text("malware")[0]);
            }
        }
    } else if contains(payload, rewrite_marker()) {
        lemma_rewrite_changes(payload);
    }
}

/// Only the block token blocks: a reply is read as a refusal where it is
/// the token and not the payload itself, and a reply that merely holds the
/// token is the replacement that the worker made.
pub proof fn lemma_only_the_token_blocks(payload: Seq<u8>, reply: Seq<u8>)
    ensures
        verdict_of_reply(payload, reply) is Block <==> reply == block_token() && reply != payload,
        reply != payload && reply != block_token() ==> verdict_of_reply(payload, reply)
            == VerdictView::Modify(reply),
{
}

/// What the reference policy makes of a payload that it rewrites: every
/// marker, found from the left without overlap, has given way to the
/// replacement, which is 4 bytes longer, and no marker is left.
pub proof fn lemma_rewritten(payload: Seq<u8>)
    ensures
        verdict_for(payload) matches VerdictView::Modify(bytes) ==> {
            &&& bytes == replaced(payload, rewrite_marker(), rewrite_replacement())
            &&& occurrences(payload, rewrite_marker()) >= 1
            &&& bytes.len() == payload.len() + 4 * occurrences(payload, rewrite_marker())
            &&& !contains(bytes, rewrite_marker())
        },
{
    reveal_strlit("editme");
    reveal_strlit("[MODIFIED]");
    if verdict_for(payload) is Modify {
        let k = occurrences(payload, rewrite_marker());
        lemma_first_occurrence_exists(payload, rewrite_marker());
        lemma_replaced_len(payload, rewrite_marker(), rewrite_replacement());
        lemma_replaced_lacks_pattern(payload, rewrite_marker(), rewrite_replacement());
        assert(k * 6 + 4 * k == k * 10) by (nonlinear_arith);
    }
}

/// The adaptation client never puts the message it sent in the place of an
/// answer. Where the exchange brought no reply, or a reply without an empty
/// line, the adaptation ends in an error; and it ends in the bytes of the
/// message only where the service answered 204 or sent those bytes itself.
pub proof fn lemma_failure_is_no_answer(
    method: Method,
    original: Seq<u8>,
    received: Option<Seq<u8>>,
)
    ensures
        received is None ==> concluded(method, original, received) == Err::<
            AdaptedView,
            AdaptError,
        >(AdaptError::Transport),
        received matches Some(reply) && framed(reply) is None ==> concluded(
            method,
            original,
            received,
        ) == Err::<AdaptedView, AdaptError>(AdaptError::Malformed(CodecError::Truncated)),
        concluded(method, original, received) == Ok::<AdaptedView, AdaptError>(
            AdaptedView::Bytes(original),
        ) ==> ({
            &&& received matches Some(reply)
            &&& decoded_response(reply, method) matches Ok(response)
            &&& response.status == 204 || (response.status == 200 && response.payload == Some(
                original,
            ))
        }),
{
}

/// The offsets that a request declares name the parts of the message that
/// its method embeds, and exactly one of them, the last, is a body part: a
/// `REQMOD` request names `req-hdr`, `req-body` and `null-body` only, a
/// `RESPMOD` request `res-hdr`, `res-body` and `null-body` only.
pub proof fn lemma_embedded_part_names(method: Method, head_len: nat, body_len: nat)
    ensures
        ({
            let parts = embedded_parts(method, head_len, body_len);
            &&& 1 <= parts.len() <= 2
            &&& parts.len() == 2 <==> head_len > 0
            &&& rank(parts.last().name) == 2
            &&& forall|i: int| 0 <= i < parts.len() - 1 ==> rank(#[trigger] parts[i].name) < 2
            &&& method == Method::Reqmod ==> forall|i: int|
                0 <= i < parts.len() ==> (#[trigger] parts[i]).name == PartName::ReqHdr
                    || parts[i].name == PartName::ReqBody || parts[i].name == PartName::NullBody
            &&& method == Method::Respmod ==> forall|i: int|
                0 <= i < parts.len() ==> (#[trigger] parts[i]).name == PartName::ResHdr
                    || parts[i].name == PartName::ResBody || parts[i].name == PartName::NullBody
        }),
{
}

/// What the adaptation client sends for a message: an opening of ASCII
/// text that begins with the request line for the method and the service,
/// holds the empty line as its last four bytes and nowhere before, and
/// behind it the message, byte for byte.
#[verifier::rlimit(50)]
pub proof fn lemma_adaptation_request_shape(
    method: Method,
    server_addr: Seq<char>,
    message: Seq<u8>,
)
    requires
        adaptation_request(method, server_addr, message) is Ok,
    ensures
        adaptation_request(method, server_addr, message)->Ok_0 == adaptation_opening(
            method,
            server_addr,
            message,
        ) + message,
        has_prefix(
            adaptation_opening(method, server_addr, message),
            request_line(method, encode_utf8(server_addr)) + crlf(),
        ),
        all_ascii(adaptation_opening(method, server_addr, message)),
        first_occurrence(adaptation_opening(method, server_addr, message), blank_line()) == Some(
            adaptation_opening(method, server_addr, message).len() - 4,
        ),
{
    lemma_whole_message_shape(method, encode_utf8(server_addr), message);
}

/// The same, for a service address given as bytes.
#[verifier::rlimit(50)]
proof fn lemma_whole_message_shape(method: Method, host: Seq<u8>, message: Seq<u8>)
    requires
        encoded_request(
            method,
            host,
            message.take(head_length(message) as int),
            message.skip(head_length(message) as int),
        ) is Ok,
    ensures
        ({
            let opening = request_opening(
                method,
                host,
                head_length(message),
                (message.len() - head_length(message)) as nat,
            );
            &&& encoded_request(
                method,
                host,
                message.take(head_length(message) as int),
                message.skip(head_length(message) as int),
            )->Ok_0 == opening + message
            &&& has_prefix(opening, request_line(method, host) + crlf())
            &&& all_ascii(opening)
            &&& first_occurrence(opening, blank_line()) == Some(opening.len() - 4)
        }),
{
    if first_occurrence(message, blank_line()) is Some {
        lemma_first_occurrence_exists(message, blank_line());
    }
    let at = head_length(message) as int;
    let head = message.take(at);
    let body = message.skip(at);
    assert(head.len() == head_length(message));
    assert(body.len() == message.len() - head_length(message));
    assert(head + body =~= message);
    lemma_request_shape(method, host, head, body);
    lemma_concatenation(request_opening(method, host, head.len(), body.len()), head, body);
}

} // verus!
