//! As much of HTTP as the gateway reads: where a message's header block
//! ends, what its headers are, and whether its body has the declared length.

use vstd::prelude::*;
use vstd::string::*;
use vstd::slice::*;
use crate::bytes::{text, first_occurrence, ascii};
use crate::decimal::{number, parse_decimal};
use crate::header::{
    Header, HeaderView, Head, header_views, header_value, head_of_block, framed, blank_line,
    find_blank_line, parse_head, lookup,
};

verus! {

/// An HTTP message: its first line, its headers in the order received,
/// duplicates included, and its body.
#[derive(Clone, Debug, PartialEq, Eq)]
pub struct HttpMessage {
    pub start_line: Vec<u8>,
    pub headers: Vec<Header>,
    pub body: Vec<u8>,
}

/// An HTTP message over mathematical byte sequences.
pub ghost struct HttpMessageView {
    pub start_line: Seq<u8>,
    pub headers: Seq<HeaderView>,
    pub body: Seq<u8>,
}

impl View for HttpMessage {
    type V = HttpMessageView;

    open spec fn view(&self) -> HttpMessageView {
        HttpMessageView {
            start_line: self.start_line@,
            headers: header_views(self.headers@),
            body: self.body@,
        }
    }
}

/// Why bytes are no HTTP message.
#[derive(Clone, Copy, Debug, PartialEq, Eq, Structural)]
pub enum HttpError {
    /// The header block has not ended, or the body is shorter than declared:
    /// more bytes may complete the message.
    Incomplete,
    /// A line of the header block holds no header, or the declared length
    /// is no number.
    Malformed,
    /// The body is longer than the header block declares.
    LengthMismatch,
}

/// The name of the header that declares the length of the body.
pub open spec fn content_length_name() -> Seq<u8> {
    text("Content-Length")
}

/// The message that `bytes` hold. Where a `Content-Length` header is
/// present, the body has exactly that length.
pub open spec fn read_message(bytes: Seq<u8>) -> Result<HttpMessageView, HttpError> {
    match framed(bytes) {
        None => Err(HttpError::Incomplete),
        Some((block, body)) => match head_of_block(block) {
            None => Err(HttpError::Malformed),
            Some(head) => {
                let message = HttpMessageView {
                    start_line: head.start_line,
                    headers: head.headers,
                    body,
                };
                match header_value(head.headers, content_length_name()) {
                    None => Ok(message),
                    Some(value) => match number(value) {
                        Some(n) if n <= usize::MAX => if body.len() < n {
                            Err(HttpError::Incomplete)
                        } else if body.len() > n {
                            Err(HttpError::LengthMismatch)
                        } else {
                            Ok(message)
                        },
                        _ => Err(HttpError::Malformed),
                    },
                }
            },
        }
    }
}

/// The length of the header block of a message, the empty line that ends
/// it included; 0 where no empty line is found, so that all is body.
pub open spec fn head_length(message: Seq<u8>) -> nat {
    match first_occurrence(message, blank_line()) {
        Some(at) => (at + 4) as nat,
        None => 0,
    }
}

/// Where the body of a message begins.
pub fn split_point(message: &[u8]) -> (at: usize)
    ensures
        at == head_length(message@),
        at <= message@.len(),
{
    match find_blank_line(message) {
        Some(at) => at + 4,
        None => 0,
    }
}

/// Reads an HTTP message.
///
/// Fails with `Incomplete` where the header block has not ended or the body
/// is shorter than its `Content-Length`, with `Malformed` where a header
/// line or the declared length cannot be read, and with `LengthMismatch`
/// where the body is longer than declared.
pub fn parse_message(bytes: &[u8]) -> (r: Result<HttpMessage, HttpError>)
    ensures
        match r {
            Ok(message) => read_message(bytes@) == Ok::<HttpMessageView, HttpError>(message@),
            Err(e) => read_message(bytes@) == Err::<HttpMessageView, HttpError>(e),
        },
{
    let at = match find_blank_line(bytes) {
        Some(at) => at,
        None => {
            return Err(HttpError::Incomplete);
        },
    };
    let end: usize = bytes.len();
    let block = slice_subrange(bytes, 0, at);
    let rest = slice_subrange(bytes, at + 4, end);
    assert(rest@ == bytes@.skip(at + 4));
    let head = match parse_head(block) {
        Some(head) => head,
        None => {
            return Err(HttpError::Malformed);
        },
    };
    let Head { start_line, headers } = head;
    proof {
        reveal_strlit("Content-Length");
    }
    match lookup(&headers, ascii("Content-Length")) {
        Some(value) => match parse_decimal(value.as_slice(), usize::MAX) {
            Some(n) => {
                if rest.len() < n {
                    return Err(HttpError::Incomplete);
                }
                if rest.len() > n {
                    return Err(HttpError::LengthMismatch);
                }
            },
            None => {
                return Err(HttpError::Malformed);
            },
        },
        None => {},
    }
    Ok(HttpMessage { start_line, headers, body: slice_to_vec(rest) })
}

} // verus!
