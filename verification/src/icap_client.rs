//! The adaptation client: wraps an HTTP message for the adaptation service
//! and reads what the service made of it. Connecting, writing and reading
//! are the caller's part.

use vstd::prelude::*;
use vstd::string::*;
use vstd::slice::*;
use vstd::utf8::encode_utf8;
use crate::codec::{
    Method, CodecError, AdaptationResponse, encoded_request, request_opening, decoded_response,
    encode_request, decode_response,
};
use crate::http::{head_length, split_point};

verus! {

/// The adaptation client: the address of the service, and how long to wait for it.
pub struct IcapClient {
    pub server_addr: String,
    pub timeout_ms: u64,
}

impl Clone for IcapClient {
    /// A client for the same service, with the same timeout.
    fn clone(&self) -> (copy: Self)
        ensures
            copy.server_addr@ == self.server_addr@,
            copy.timeout_ms == self.timeout_ms,
    {
        IcapClient { server_addr: self.server_addr.clone(), timeout_ms: self.timeout_ms }
    }
}

/// What the adaptation service made of a message.
#[derive(Clone, Debug, PartialEq, Eq)]
pub enum Adapted {
    /// These bytes are to be used: the message itself where the service
    /// changed nothing, else the message it put in its place.
    Bytes(Vec<u8>),
    /// The message is refused, for the reason given. It must not be passed on.
    Blocked(Vec<u8>),
}

pub ghost enum AdaptedView {
    Bytes(Seq<u8>),
    Blocked(Seq<u8>),
}

impl View for Adapted {
    type V = AdaptedView;

    open spec fn view(&self) -> AdaptedView {
        match self {
            Adapted::Bytes(bytes) => AdaptedView::Bytes(bytes@),
            Adapted::Blocked(reason) => AdaptedView::Blocked(reason@),
        }
    }
}

/// Why there is no adapted message. The client never puts the unadapted
/// message in its place: what to do then is for its caller to decide.
#[derive(Clone, Copy, Debug, PartialEq, Eq, Structural)]
pub enum AdaptError {
    /// The service could not be reached, or did not answer in time.
    Transport,
    /// The reply could not be read.
    Malformed(CodecError),
    /// The reply says that adapted content follows, and none does.
    MissingBody,
    /// The reply has a status other than 200, 204 and 403.
    Status(u16),
}

/// How a reply to a request of `method` that embedded `original` reads:
/// 204 gives the bytes that were sent, 200 the embedded bytes, 403 a refusal with
/// what follows the header block as its reason; anything else is an error.
pub open spec fn adapted(method: Method, original: Seq<u8>, reply: Seq<u8>) -> Result<
    AdaptedView,
    AdaptError,
> {
    match decoded_response(reply, method) {
        Err(e) => Err(AdaptError::Malformed(e)),
        Ok(response) => if response.status == 204 {
            Ok(AdaptedView::Bytes(original))
        } else if response.status == 200 {
            match response.payload {
                Some(bytes) => Ok(AdaptedView::Bytes(bytes)),
                None => Err(AdaptError::MissingBody),
            }
        } else if response.status == 403 {
            match response.payload {
                Some(reason) => Ok(AdaptedView::Blocked(reason)),
                None => Ok(AdaptedView::Blocked(Seq::empty())),
            }
        } else {
            Err(AdaptError::Status(response.status))
        },
    }
}

/// The request that asks for `message` to be adapted by the service at
/// `server_addr`: the message is embedded whole, cut into header block and
/// body where its first empty line ends.
pub open spec fn adaptation_request(method: Method, server_addr: Seq<char>, message: Seq<u8>) -> Result<
    Seq<u8>,
    CodecError,
> {
    encoded_request(
        method,
        encode_utf8(server_addr),
        message.take(head_length(message) as int),
        message.skip(head_length(message) as int),
    )
}

/// What a request for `message` opens with: the request line and the
/// headers, up to and with the empty line. The message follows it.
pub open spec fn adaptation_opening(method: Method, server_addr: Seq<char>, message: Seq<u8>) -> Seq<
    u8,
> {
    request_opening(
        method,
        encode_utf8(server_addr),
        head_length(message),
        (message.len() - head_length(message)) as nat,
    )
}

/// What one adaptation comes to, given what the exchange with the service
/// brought: its whole reply, or nothing, where connecting, writing or
/// reading failed or took too long. Without a reply there is only an error.
pub open spec fn concluded(method: Method, original: Seq<u8>, received: Option<Seq<u8>>) -> Result<
    AdaptedView,
    AdaptError,
> {
    match received {
        Some(reply) => adapted(method, original, reply),
        None => Err(AdaptError::Transport),
    }
}

impl IcapClient {
    /// A client for the service at `server_addr`.
    pub fn new(server_addr: String, timeout_ms: u64) -> (client: IcapClient)
        ensures
            client.server_addr == server_addr,
            client.timeout_ms == timeout_ms,
    {
        IcapClient { server_addr, timeout_ms }
    }

    /// The bytes to send to the service to have `message` adapted.
    ///
    /// Fails as `encode_request` does: with `InvalidService` where the
    /// address of the service cannot be written into a request, and with
    /// `UnexpectedPayload` for `OPTIONS` with a message.
    pub fn request(&self, method: Method, message: &[u8]) -> (r: Result<Vec<u8>, CodecError>)
        ensures
            match r {
                Ok(wire) => adaptation_request(method, self.server_addr@, message@) == Ok::<
                    Seq<u8>,
                    CodecError,
                >(wire@),
                Err(e) => adaptation_request(method, self.server_addr@, message@) == Err::<
                    Seq<u8>,
                    CodecError,
                >(e),
            },
            r matches Ok(wire) ==> wire@ == adaptation_opening(method, self.server_addr@, message@)
                + message@,
    {
        let at = split_point(message);
        let head = slice_subrange(message, 0, at);
        let body = slice_subrange(message, at, message.len());
        assert(body@ == message@.skip(at as int));
        assert(head@ + body@ =~= message@);
        encode_request(method, self.server_addr.as_str().as_bytes(), head, body)
    }

    /// The bytes to send to have an HTTP request adapted.
    pub fn reqmod_request(&self, http_request: &[u8]) -> (r: Result<Vec<u8>, CodecError>)
        ensures
            match r {
                Ok(wire) => adaptation_request(Method::Reqmod, self.server_addr@, http_request@)
                    == Ok::<Seq<u8>, CodecError>(wire@),
                Err(e) => adaptation_request(Method::Reqmod, self.server_addr@, http_request@)
                    == Err::<Seq<u8>, CodecError>(e),
            },
            r matches Ok(wire) ==> wire@ == adaptation_opening(
                Method::Reqmod,
                self.server_addr@,
                http_request@,
            ) + http_request@,
    {
        self.request(Method::Reqmod, http_request)
    }

    /// The bytes to send to have an HTTP response adapted.
    pub fn respmod_request(&self, http_response: &[u8]) -> (r: Result<Vec<u8>, CodecError>)
        ensures
            match r {
                Ok(wire) => adaptation_request(Method::Respmod, self.server_addr@, http_response@)
                    == Ok::<Seq<u8>, CodecError>(wire@),
                Err(e) => adaptation_request(Method::Respmod, self.server_addr@, http_response@)
                    == Err::<Seq<u8>, CodecError>(e),
            },
            r matches Ok(wire) ==> wire@ == adaptation_opening(
                Method::Respmod,
                self.server_addr@,
                http_response@,
            ) + http_response@,
    {
        self.request(Method::Respmod, http_response)
    }

    /// Reads the service's reply to a request of `method` that embedded `original`.
    ///
    /// Returns the bytes that were sent for 204, the embedded bytes for 200, and a
    /// refusal for 403. Fails with `Malformed` where the reply cannot be
    /// read, with `MissingBody` for 200 with nothing behind the header
    /// block, and with `Status` for every other status.
    pub fn adapt(method: Method, original: &[u8], reply: &[u8]) -> (r: Result<Adapted, AdaptError>)
        ensures
            match r {
                Ok(outcome) => adapted(method, original@, reply@) == Ok::<AdaptedView, AdaptError>(
                    outcome@,
                ),
                Err(e) => adapted(method, original@, reply@) == Err::<AdaptedView, AdaptError>(e),
            },
    {
        let response = match decode_response(reply, method) {
            Ok(response) => response,
            Err(e) => {
                return Err(AdaptError::Malformed(e));
            },
        };
        let AdaptationResponse { status, payload, .. } = response;
        if status == 204 {
            Ok(Adapted::Bytes(slice_to_vec(original)))
        } else if status == 200 {
            match payload {
                Some(bytes) => Ok(Adapted::Bytes(bytes)),
                None => Err(AdaptError::MissingBody),
            }
        } else if status == 403 {
            match payload {
                Some(reason) => Ok(Adapted::Blocked(reason)),
                None => Ok(Adapted::Blocked(Vec::new())),
            }
        } else {
            Err(AdaptError::Status(status))
        }
    }

    /// Ends one adaptation, given what the exchange with the service
    /// brought: the whole reply, or nothing where the service could not be
    /// reached, or writing to it or reading from it failed or took too long.
    ///
    /// Without a reply the result is `Transport`; with one it is what
    /// `adapt` makes of it. The message that was sent comes back only for a
    /// reply of 204: a failure never puts it in the place of an answer.
    pub fn conclude(method: Method, original: &[u8], received: Option<Vec<u8>>) -> (r: Result<
        Adapted,
        AdaptError,
    >)
        ensures
            match r {
                Ok(outcome) => concluded(
                    method,
                    original@,
                    match received {
                        Some(reply) => Some(reply@),
                        None => None,
                    },
                ) == Ok::<AdaptedView, AdaptError>(outcome@),
                Err(e) => concluded(
                    method,
                    original@,
                    match received {
                        Some(reply) => Some(reply@),
                        None => None,
                    },
                ) == Err::<AdaptedView, AdaptError>(e),
            },
            received is None ==> r == Err::<Adapted, AdaptError>(AdaptError::Transport),
    {
        match received {
            Some(reply) => Self::adapt(method, original, reply.as_slice()),
            None => Err(AdaptError::Transport),
        }
    }
}

} // verus!
