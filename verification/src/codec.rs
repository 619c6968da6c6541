//! The adaptation wire protocol: a text header block, an `Encapsulated`
//! header that says where the parts of the embedded message begin, and the
//! embedded message itself as opaque bytes.

use vstd::prelude::*;
use vstd::string::*;
use vstd::slice::*;
use crate::bytes::{
    text, first_occurrence, occurs_at, pieces, joined, views, trimmed, all_visible, ascii,
    same_bytes, find, split, trim, append, is_all_visible, lemma_first_occurrence_exists,
    lemma_joined_push,
};
use crate::decimal::{number, decimal, parse_decimal, write_decimal};
use crate::header::{
    Header, HeaderView, Head, header_views, header_value, head_of_block, head_block, blank_line,
    framed, message, find_blank_line, parse_head, lookup, write_message,
};

verus! {

/// What the sender asks of the adaptation service.
#[derive(Clone, Copy, Debug, PartialEq, Eq, Structural)]
pub enum Method {
    /// Adapt an HTTP request.
    Reqmod,
    /// Adapt an HTTP response.
    Respmod,
    /// Ask what the service offers.
    Options,
}

/// The kind of one part of an embedded message.
#[derive(Clone, Copy, Debug, PartialEq, Eq, Structural)]
pub enum PartName {
    ReqHdr,
    ReqBody,
    ResHdr,
    ResBody,
    NullBody,
}

/// One entry of the `Encapsulated` header: a part and the offset in the
/// payload at which it begins. A part ends where the next one begins, the
/// last one at the end of the payload.
#[derive(Clone, Copy, Debug, PartialEq, Eq, Structural)]
pub struct Part {
    pub name: PartName,
    pub offset: usize,
}

/// Why a message could not be written or read.
#[derive(Clone, Copy, Debug, PartialEq, Eq, Structural)]
pub enum CodecError {
    /// There is no empty line that ends the header block.
    Truncated,
    /// The first line is no request line, or no status line.
    MalformedStartLine,
    /// A line of the header block holds no header.
    MalformedHeader,
    /// The `Encapsulated` header is missing or unreadable, or its offsets
    /// are out of range, not increasing, or do not fit the method.
    MalformedEncapsulation,
    /// The service address is empty or holds a blank or a control byte.
    InvalidService,
    /// An `OPTIONS` request was given a message to embed.
    UnexpectedPayload,
}

/// The `=` between a part's name and its offset.
pub open spec fn equals_sign() -> Seq<u8> {
    seq![0x3du8]
}

/// The `,` between two entries of the `Encapsulated` header.
pub open spec fn comma() -> Seq<u8> {
    seq![0x2cu8]
}

/// The name of a part as it is written.
pub open spec fn part_token(name: PartName) -> Seq<u8> {
    match name {
        PartName::ReqHdr => text("req-hdr"),
        PartName::ReqBody => text("req-body"),
        PartName::ResHdr => text("res-hdr"),
        PartName::ResBody => text("res-body"),
        PartName::NullBody => text("null-body"),
    }
}

/// The part that a written name means.
pub open spec fn part_of_token(token: Seq<u8>) -> Option<PartName> {
    if token == text("req-hdr") {
        Some(PartName::ReqHdr)
    } else if token == text("req-body") {
        Some(PartName::ReqBody)
    } else if token == text("res-hdr") {
        Some(PartName::ResHdr)
    } else if token == text("res-body") {
        Some(PartName::ResBody)
    } else if token == text("null-body") {
        Some(PartName::NullBody)
    } else {
        None
    }
}

/// The entry written as `name=offset`.
pub open spec fn part_of_entry(entry: Seq<u8>) -> Option<Part> {
    match first_occurrence(entry, equals_sign()) {
        Some(at) if 0 <= at < entry.len() => match (
            part_of_token(entry.take(at)),
            number(entry.skip(at + 1)),
        ) {
            (Some(name), Some(n)) if n <= usize::MAX => Some(Part { name, offset: n as usize }),
            _ => None,
        },
        _ => None,
    }
}

/// The entries written in the value of an `Encapsulated` header, separated
/// by commas, with or without blanks around them.
pub open spec fn parts_of_value(value: Seq<u8>) -> Option<Seq<Part>> {
    let entries = pieces(value, comma());
    if forall|i: int|
        0 <= i < entries.len() ==> part_of_entry(trimmed(#[trigger] entries[i])) is Some {
        Some(Seq::new(entries.len(), |i: int| part_of_entry(trimmed(entries[i]))->0))
    } else {
        None
    }
}

/// Headers come before bodies, the request's before the response's.
pub open spec fn rank(name: PartName) -> int {
    match name {
        PartName::ReqHdr => 0,
        PartName::ResHdr => 1,
        PartName::ReqBody => 2,
        PartName::ResBody => 2,
        PartName::NullBody => 2,
    }
}

/// Whether a message of this method may hold this part. A request holds
/// what is to be adapted; the reply to `REQMOD` may hold the request or a
/// response made in its place.
pub open spec fn part_allowed(method: Method, name: PartName, reply: bool) -> bool {
    match method {
        Method::Reqmod => reply || name == PartName::ReqHdr || name == PartName::ReqBody || name
            == PartName::NullBody,
        Method::Respmod => name == PartName::ResHdr || name == PartName::ResBody || name
            == PartName::NullBody || (!reply && name == PartName::ReqHdr),
        Method::Options => name == PartName::NullBody,
    }
}

/// Every offset is smaller than the ones behind it.
pub open spec fn strictly_increasing(parts: Seq<Part>) -> bool {
    forall|i: int, j: int| 0 <= i < j < parts.len() ==> parts[i].offset < parts[j].offset
}

/// No offset lies behind the end of the payload.
pub open spec fn in_range(parts: Seq<Part>, payload_len: nat) -> bool {
    forall|i: int| 0 <= i < parts.len() ==> parts[i].offset <= payload_len
}

/// The parts fit the method: each is allowed, headers come first and at
/// most once each, and exactly one body part ends the list.
pub open spec fn fits_method(method: Method, parts: Seq<Part>, reply: bool) -> bool {
    &&& parts.len() > 0
    &&& rank(parts.last().name) == 2
    &&& forall|i: int| 0 <= i < parts.len() ==> part_allowed(method, parts[i].name, reply)
    &&& forall|i: int, j: int|
        0 <= i < j < parts.len() ==> rank(parts[i].name) < rank(parts[j].name)
}

/// An offset list that a decoder accepts for a payload of the given length.
pub open spec fn well_formed(method: Method, parts: Seq<Part>, payload_len: nat, reply: bool) -> bool {
    &&& strictly_increasing(parts)
    &&& in_range(parts, payload_len)
    &&& fits_method(method, parts, reply)
}

/// Reads the name of a part.
pub fn parse_part_name(token: &[u8]) -> (r: Option<PartName>)
    ensures
        r == part_of_token(token@),
{
    proof {
        reveal_strlit("req-hdr");
        reveal_strlit("req-body");
        reveal_strlit("res-hdr");
        reveal_strlit("res-body");
        reveal_strlit("null-body");
    }
    if same_bytes(token, ascii("req-hdr")) {
        Some(PartName::ReqHdr)
    } else if same_bytes(token, ascii("req-body")) {
        Some(PartName::ReqBody)
    } else if same_bytes(token, ascii("res-hdr")) {
        Some(PartName::ResHdr)
    } else if same_bytes(token, ascii("res-body")) {
        Some(PartName::ResBody)
    } else if same_bytes(token, ascii("null-body")) {
        Some(PartName::NullBody)
    } else {
        None
    }
}

/// Reads one entry of the `Encapsulated` header.
pub fn parse_part(entry: &[u8]) -> (r: Option<Part>)
    ensures
        r == part_of_entry(entry@),
{
    let mark: [u8; 1] = [0x3d];
    assert(mark@ == equals_sign());
    match find(entry, mark.as_slice()) {
        Some(at) => {
            proof {
                lemma_first_occurrence_exists(entry@, equals_sign());
                assert(occurs_at(entry@, equals_sign(), at as int));
            }
            let end: usize = entry.len();
            let token = slice_subrange(entry, 0, at);
            let digits = slice_subrange(entry, at + 1, end);
            assert(digits@ == entry@.skip(at + 1));
            match (parse_part_name(token), parse_decimal(digits, usize::MAX)) {
                (Some(name), Some(offset)) => Some(Part { name, offset }),
                _ => None,
            }
        },
        None => None,
    }
}

/// Reads the value of an `Encapsulated` header.
pub fn parse_encapsulated(value: &[u8]) -> (r: Option<Vec<Part>>)
    ensures
        match r {
            Some(parts) => parts_of_value(value@) == Some(parts@),
            None => parts_of_value(value@) is None,
        },
{
    let mark: [u8; 1] = [0x2c];
    assert(mark@ == comma());
    let entries = split(value, mark.as_slice());
    let ghost list = pieces(value@, comma());
    let mut parts: Vec<Part> = Vec::new();
    let mut i: usize = 0;
    while i < entries.len()
        invariant
            i <= entries@.len(),
            list == pieces(value@, comma()),
            views(entries@) == list,
            parts@.len() == i,
            forall|k: int| 0 <= k < i ==> part_of_entry(trimmed(#[trigger] list[k])) == Some(parts@[k]),
        decreases entries@.len() - i,
    {
        assert(list[i as int] == entries@[i as int]@);
        match parse_part(trim(entries[i].as_slice())) {
            Some(part) => {
                parts.push(part);
            },
            None => {
                return None;
            },
        }
        i += 1;
    }
    assert(parts@ == Seq::new(list.len(), |k: int| part_of_entry(trimmed(list[k]))->0));
    Some(parts)
}

/// The place of a part's kind in the order of the header.
pub fn rank_of(name: PartName) -> (r: u8)
    ensures
        r == rank(name),
{
    match name {
        PartName::ReqHdr => 0,
        PartName::ResHdr => 1,
        PartName::ReqBody => 2,
        PartName::ResBody => 2,
        PartName::NullBody => 2,
    }
}

/// Whether a message of this method may hold this part.
pub fn allows_part(method: Method, name: PartName, reply: bool) -> (r: bool)
    ensures
        r == part_allowed(method, name, reply),
{
    match method {
        Method::Reqmod => reply || match name {
            PartName::ReqHdr => true,
            PartName::ReqBody => true,
            PartName::NullBody => true,
            _ => false,
        },
        Method::Respmod => match name {
            PartName::ResHdr => true,
            PartName::ResBody => true,
            PartName::NullBody => true,
            PartName::ReqHdr => !reply,
            PartName::ReqBody => false,
        },
        Method::Options => match name {
            PartName::NullBody => true,
            _ => false,
        },
    }
}

/// Checks an offset list against the method and the length of the payload.
pub fn check_offsets(method: Method, parts: &Vec<Part>, payload_len: usize, reply: bool) -> (r:
    Result<(), CodecError>)
    ensures
        r is Ok <==> well_formed(method, parts@, payload_len as nat, reply),
        r is Err ==> r == Err::<(), CodecError>(CodecError::MalformedEncapsulation),
        !strictly_increasing(parts@) ==> r == Err::<(), CodecError>(
            CodecError::MalformedEncapsulation,
        ),
{
    if parts.len() == 0 {
        return Err(CodecError::MalformedEncapsulation);
    }
    let mut i: usize = 0;
    while i < parts.len()
        invariant
            i <= parts@.len(),
            parts@.len() > 0,
            strictly_increasing(parts@.take(i as int)),
            in_range(parts@.take(i as int), payload_len as nat),
            forall|k: int| 0 <= k < i ==> part_allowed(method, parts@[k].name, reply),
            forall|k: int, l: int| 0 <= k < l < i ==> rank(parts@[k].name) < rank(parts@[l].name),
        decreases parts@.len() - i,
    {
        let part = parts[i];
        if part.offset > payload_len {
            assert(!in_range(parts@, payload_len as nat));
            return Err(CodecError::MalformedEncapsulation);
        }
        if !allows_part(method, part.name, reply) {
            return Err(CodecError::MalformedEncapsulation);
        }
        if i > 0 {
            let before = parts[i - 1];
            if before.offset >= part.offset {
                assert(!strictly_increasing(parts@));
                return Err(CodecError::MalformedEncapsulation);
            }
            if rank_of(before.name) >= rank_of(part.name) {
                return Err(CodecError::MalformedEncapsulation);
            }
        }
        proof {
            let next = parts@.take(i + 1);
            assert forall|k: int, l: int| 0 <= k < l < next.len() implies next[k].offset
                < next[l].offset by {
                if l < i {
                    assert(parts@.take(i as int)[k].offset < parts@.take(i as int)[l].offset);
                } else if k < i - 1 {
                    assert(parts@.take(i as int)[k].offset < parts@.take(i as int)[i - 1].offset);
                }
            }
            assert forall|k: int| 0 <= k < next.len() implies next[k].offset <= payload_len by {
                if k < i {
                    assert(parts@.take(i as int)[k].offset <= payload_len);
                }
            }
        }
        i += 1;
    }
    assert(parts@.take(i as int) == parts@);
    if rank_of(parts[parts.len() - 1].name) != 2 {
        return Err(CodecError::MalformedEncapsulation);
    }
    Ok(())
}

/// The blank between the fields of a start line.
pub open spec fn space() -> Seq<u8> {
    seq![0x20u8]
}

/// The protocol version that opens a status line and closes a request line.
pub open spec fn version() -> Seq<u8> {
    text("ICAP/1.0")
}

/// The name of the header that holds the offsets.
pub open spec fn encapsulated_name() -> Seq<u8> {
    text("Encapsulated")
}

/// The method as it is written.
pub open spec fn method_token(method: Method) -> Seq<u8> {
    match method {
        Method::Reqmod => text("REQMOD"),
        Method::Respmod => text("RESPMOD"),
        Method::Options => text("OPTIONS"),
    }
}

/// The method that a written word means.
pub open spec fn method_of_token(token: Seq<u8>) -> Option<Method> {
    if token == text("REQMOD") {
        Some(Method::Reqmod)
    } else if token == text("RESPMOD") {
        Some(Method::Respmod)
    } else if token == text("OPTIONS") {
        Some(Method::Options)
    } else {
        None
    }
}

/// The method and the service address of a request line: three fields with
/// one blank between them, the last of which is the version.
pub open spec fn request_line_of(line: Seq<u8>) -> Option<(Method, Seq<u8>)> {
    let fields = pieces(line, space());
    if fields.len() == 3 && fields[1].len() > 0 && fields[2] == version() {
        match method_of_token(fields[0]) {
            Some(method) => Some((method, fields[1])),
            None => None,
        }
    } else {
        None
    }
}

/// The status code of a status line: the version, a blank, and a number
/// from 100 to 999; what follows the next blank is a phrase for people.
pub open spec fn status_of_line(line: Seq<u8>) -> Option<u16> {
    let fields = pieces(line, space());
    if fields.len() >= 2 && fields[0] == version() {
        match number(fields[1]) {
            Some(n) if 100 <= n <= 999 => Some(n as u16),
            _ => None,
        }
    } else {
        None
    }
}

/// A request to the adaptation service.
#[derive(Clone, Debug, PartialEq, Eq)]
pub struct AdaptationRequest {
    pub method: Method,
    pub service_uri: Vec<u8>,
    /// Every header of the request, in the order received.
    pub headers: Vec<Header>,
    /// Where the parts of `payload` begin.
    pub offsets: Vec<Part>,
    /// The embedded message.
    pub payload: Vec<u8>,
}

/// A request over mathematical byte sequences.
pub ghost struct AdaptationRequestView {
    pub method: Method,
    pub service_uri: Seq<u8>,
    pub headers: Seq<HeaderView>,
    pub offsets: Seq<Part>,
    pub payload: Seq<u8>,
}

impl View for AdaptationRequest {
    type V = AdaptationRequestView;

    open spec fn view(&self) -> AdaptationRequestView {
        AdaptationRequestView {
            method: self.method,
            service_uri: self.service_uri@,
            headers: header_views(self.headers@),
            offsets: self.offsets@,
            payload: self.payload@,
        }
    }
}

impl AdaptationRequestView {
    /// The offsets fit the method and the payload.
    pub open spec fn wf(self) -> bool {
        well_formed(self.method, self.offsets, self.payload.len(), false)
    }

    /// The embedded header block: what comes before the body part.
    pub open spec fn head(self) -> Seq<u8> {
        self.payload.take(self.offsets.last().offset as int)
    }

    /// The embedded body: the last part.
    pub open spec fn body(self) -> Seq<u8> {
        self.payload.skip(self.offsets.last().offset as int)
    }
}

impl AdaptationRequest {
    /// The embedded header block.
    pub fn head(&self) -> (r: &[u8])
        requires
            self@.wf(),
        ensures
            r@ == self@.head(),
    {
        let at: usize = self.offsets[self.offsets.len() - 1].offset;
        slice_subrange(self.payload.as_slice(), 0, at)
    }

    /// The embedded body.
    pub fn body(&self) -> (r: &[u8])
        requires
            self@.wf(),
        ensures
            r@ == self@.body(),
    {
        let at: usize = self.offsets[self.offsets.len() - 1].offset;
        slice_subrange(self.payload.as_slice(), at, self.payload.len())
    }
}

/// A reply of the adaptation service.
#[derive(Clone, Debug, PartialEq, Eq)]
pub struct AdaptationResponse {
    /// 204: nothing was changed. 200: adapted content follows. 403: blocked.
    /// 500 and up: the service failed.
    pub status: u16,
    /// Every header of the reply, in the order received.
    pub headers: Vec<Header>,
    /// Where the parts of `payload` begin, if the reply embeds a message.
    pub offsets: Option<Vec<Part>>,
    /// What follows the header block, if anything does.
    pub payload: Option<Vec<u8>>,
}

/// A reply over mathematical byte sequences.
pub ghost struct AdaptationResponseView {
    pub status: u16,
    pub headers: Seq<HeaderView>,
    pub offsets: Option<Seq<Part>>,
    pub payload: Option<Seq<u8>>,
}

impl View for AdaptationResponse {
    type V = AdaptationResponseView;

    open spec fn view(&self) -> AdaptationResponseView {
        AdaptationResponseView {
            status: self.status,
            headers: header_views(self.headers@),
            offsets: match self.offsets {
                Some(parts) => Some(parts@),
                None => None,
            },
            payload: match self.payload {
                Some(bytes) => Some(bytes@),
                None => None,
            },
        }
    }
}

/// What a decoder makes of the bytes of a request.
pub open spec fn decoded_request(wire: Seq<u8>) -> Result<AdaptationRequestView, CodecError> {
    match framed(wire) {
        None => Err(CodecError::Truncated),
        Some((block, payload)) => match head_of_block(block) {
            None => Err(CodecError::MalformedHeader),
            Some(head) => match request_line_of(head.start_line) {
                None => Err(CodecError::MalformedStartLine),
                Some((method, service_uri)) => match request_offsets(head.headers) {
                    Some(offsets) if well_formed(method, offsets, payload.len(), false) => Ok(
                        AdaptationRequestView {
                            method,
                            service_uri,
                            headers: head.headers,
                            offsets,
                            payload,
                        },
                    ),
                    _ => Err(CodecError::MalformedEncapsulation),
                },
            },
        },
    }
}

/// The offset list that a header block declares, if it declares one that can be read.
pub open spec fn request_offsets(headers: Seq<HeaderView>) -> Option<Seq<Part>> {
    match header_value(headers, encapsulated_name()) {
        Some(value) => parts_of_value(value),
        None => None,
    }
}

/// What a decoder makes of the bytes of a reply to a request of `method`.
pub open spec fn decoded_response(wire: Seq<u8>, method: Method) -> Result<
    AdaptationResponseView,
    CodecError,
> {
    match framed(wire) {
        None => Err(CodecError::Truncated),
        Some((block, payload)) => match head_of_block(block) {
            None => Err(CodecError::MalformedHeader),
            Some(head) => match status_of_line(head.start_line) {
                None => Err(CodecError::MalformedStartLine),
                Some(status) => match header_value(head.headers, encapsulated_name()) {
                    None => Ok(
                        AdaptationResponseView {
                            status,
                            headers: head.headers,
                            offsets: None,
                            payload: if payload.len() > 0 {
                                Some(payload)
                            } else {
                                None
                            },
                        },
                    ),
                    Some(value) => match parts_of_value(value) {
                        Some(offsets) if well_formed(method, offsets, payload.len(), true) => Ok(
                            AdaptationResponseView {
                                status,
                                headers: head.headers,
                                offsets: Some(offsets),
                                payload: Some(payload),
                            },
                        ),
                        _ => Err(CodecError::MalformedEncapsulation),
                    },
                },
            },
        },
    }
}

/// Reads a method.
pub fn parse_method(token: &[u8]) -> (r: Option<Method>)
    ensures
        r == method_of_token(token@),
{
    proof {
        reveal_strlit("REQMOD");
        reveal_strlit("RESPMOD");
        reveal_strlit("OPTIONS");
    }
    if same_bytes(token, ascii("REQMOD")) {
        Some(Method::Reqmod)
    } else if same_bytes(token, ascii("RESPMOD")) {
        Some(Method::Respmod)
    } else if same_bytes(token, ascii("OPTIONS")) {
        Some(Method::Options)
    } else {
        None
    }
}

/// Reads a request line.
pub fn parse_request_line(line: &[u8]) -> (r: Option<(Method, Vec<u8>)>)
    ensures
        match r {
            Some((method, uri)) => request_line_of(line@) == Some((method, uri@)),
            None => request_line_of(line@) is None,
        },
{
    let mark: [u8; 1] = [0x20];
    assert(mark@ == space());
    let fields = split(line, mark.as_slice());
    proof {
        reveal_strlit("ICAP/1.0");
        assert(forall|i: int| 0 <= i < fields@.len() ==> views(fields@)[i] == fields@[i]@);
    }
    if fields.len() != 3 || fields[1].len() == 0 || !same_bytes(
        fields[2].as_slice(),
        ascii("ICAP/1.0"),
    ) {
        return None;
    }
    match parse_method(fields[0].as_slice()) {
        Some(method) => Some((method, slice_to_vec(fields[1].as_slice()))),
        None => None,
    }
}

/// Reads a status line.
pub fn parse_status_line(line: &[u8]) -> (r: Option<u16>)
    ensures
        r == status_of_line(line@),
{
    let mark: [u8; 1] = [0x20];
    assert(mark@ == space());
    let fields = split(line, mark.as_slice());
    proof {
        reveal_strlit("ICAP/1.0");
        assert(forall|i: int| 0 <= i < fields@.len() ==> views(fields@)[i] == fields@[i]@);
    }
    if fields.len() < 2 || !same_bytes(fields[0].as_slice(), ascii("ICAP/1.0")) {
        return None;
    }
    match parse_decimal(fields[1].as_slice(), 999) {
        Some(n) => if n >= 100 {
            Some(n as u16)
        } else {
            None
        },
        None => None,
    }
}

/// Reads a request from the wire.
///
/// Fails with `Truncated` where no empty line ends the header block, with
/// `MalformedHeader` where a line behind the first holds no header, with
/// `MalformedStartLine` where the first line is no request line, and with
/// `MalformedEncapsulation` where the offsets are missing, unreadable, out
/// of range, not strictly increasing, or do not fit the method.
pub fn decode_request(wire: &[u8]) -> (r: Result<AdaptationRequest, CodecError>)
    ensures
        match r {
            Ok(request) => decoded_request(wire@) == Ok::<AdaptationRequestView, CodecError>(
                request@,
            ) && request@.wf() && strictly_increasing(request@.offsets),
            Err(e) => decoded_request(wire@) == Err::<AdaptationRequestView, CodecError>(e),
        },
{
    let at = match find_blank_line(wire) {
        Some(at) => at,
        None => {
            return Err(CodecError::Truncated);
        },
    };
    let end: usize = wire.len();
    let block = slice_subrange(wire, 0, at);
    let rest = slice_subrange(wire, at + 4, end);
    assert(rest@ == wire@.skip(at + 4));
    let head = match parse_head(block) {
        Some(head) => head,
        None => {
            return Err(CodecError::MalformedHeader);
        },
    };
    let Head { start_line, headers } = head;
    let (method, service_uri) = match parse_request_line(start_line.as_slice()) {
        Some(fields) => fields,
        None => {
            return Err(CodecError::MalformedStartLine);
        },
    };
    proof {
        reveal_strlit("Encapsulated");
    }
    let offsets = match lookup(&headers, ascii("Encapsulated")) {
        Some(value) => match parse_encapsulated(value.as_slice()) {
            Some(offsets) => offsets,
            None => {
                return Err(CodecError::MalformedEncapsulation);
            },
        },
        None => {
            return Err(CodecError::MalformedEncapsulation);
        },
    };
    match check_offsets(method, &offsets, rest.len(), false) {
        Ok(()) => Ok(
            AdaptationRequest { method, service_uri, headers, offsets, payload: slice_to_vec(rest) },
        ),
        Err(e) => Err(e),
    }
}

/// Reads the reply to a request of `method` from the wire.
///
/// Fails as `decode_request` does. A reply without an `Encapsulated` header
/// is accepted: it embeds no message, and what follows its header block, if
/// anything, is text for people.
pub fn decode_response(wire: &[u8], method: Method) -> (r: Result<AdaptationResponse, CodecError>)
    ensures
        match r {
            Ok(response) => decoded_response(wire@, method) == Ok::<
                AdaptationResponseView,
                CodecError,
            >(response@),
            Err(e) => decoded_response(wire@, method) == Err::<AdaptationResponseView, CodecError>(
                e,
            ),
        },
{
    let at = match find_blank_line(wire) {
        Some(at) => at,
        None => {
            return Err(CodecError::Truncated);
        },
    };
    let end: usize = wire.len();
    let block = slice_subrange(wire, 0, at);
    let rest = slice_subrange(wire, at + 4, end);
    assert(rest@ == wire@.skip(at + 4));
    let head = match parse_head(block) {
        Some(head) => head,
        None => {
            return Err(CodecError::MalformedHeader);
        },
    };
    let Head { start_line, headers } = head;
    let status = match parse_status_line(start_line.as_slice()) {
        Some(status) => status,
        None => {
            return Err(CodecError::MalformedStartLine);
        },
    };
    proof {
        reveal_strlit("Encapsulated");
    }
    let declared = match lookup(&headers, ascii("Encapsulated")) {
        Some(value) => match parse_encapsulated(value.as_slice()) {
            Some(offsets) => Some(offsets),
            None => {
                return Err(CodecError::MalformedEncapsulation);
            },
        },
        None => None,
    };
    match declared {
        Some(offsets) => match check_offsets(method, &offsets, rest.len(), true) {
            Ok(()) => Ok(
                AdaptationResponse {
                    status,
                    headers,
                    offsets: Some(offsets),
                    payload: Some(slice_to_vec(rest)),
                },
            ),
            Err(e) => Err(e),
        },
        None => {
            let payload = if rest.len() > 0 {
                Some(slice_to_vec(rest))
            } else {
                None
            };
            Ok(AdaptationResponse { status, headers, offsets: None, payload })
        },
    }
}

/// A service address that can be written into a request: not empty, and
/// printing ASCII characters without a blank.
pub open spec fn valid_service(host: Seq<u8>) -> bool {
    host.len() > 0 && all_visible(host)
}

/// The name of the service that answers a method.
pub open spec fn service_name(method: Method) -> Seq<u8> {
    match method {
        Method::Reqmod => text("reqmod"),
        Method::Respmod => text("respmod"),
        Method::Options => text("options"),
    }
}

/// The address of the service that answers `method` at `host`.
pub open spec fn service_uri(method: Method, host: Seq<u8>) -> Seq<u8> {
    text("icap://") + host + text("/") + service_name(method)
}

/// The first line of a request.
pub open spec fn request_line(method: Method, host: Seq<u8>) -> Seq<u8> {
    method_token(method) + space() + service_uri(method, host) + space() + version()
}

/// The part that holds the header block of the message a method embeds.
pub open spec fn head_part(method: Method) -> PartName {
    match method {
        Method::Respmod => PartName::ResHdr,
        _ => PartName::ReqHdr,
    }
}

/// The part that holds the body of the message a method embeds.
pub open spec fn body_part(method: Method) -> PartName {
    match method {
        Method::Reqmod => PartName::ReqBody,
        Method::Respmod => PartName::ResBody,
        Method::Options => PartName::NullBody,
    }
}

/// The offsets of an embedded message, derived from the lengths of its
/// header block and of its body: the header block, if there is one, begins
/// at 0, and the body, or the mark that there is none, where it ends.
pub open spec fn embedded_parts(method: Method, head_len: nat, body_len: nat) -> Seq<Part> {
    let last = Part {
        name: if body_len == 0 {
            PartName::NullBody
        } else {
            body_part(method)
        },
        offset: head_len as usize,
    };
    if head_len > 0 {
        seq![Part { name: head_part(method), offset: 0 }, last]
    } else {
        seq![last]
    }
}

/// A method may embed a message of these lengths: `OPTIONS` embeds nothing.
pub open spec fn can_embed(method: Method, head_len: nat, body_len: nat) -> bool {
    method == Method::Options ==> head_len == 0 && body_len == 0
}

/// One entry of the `Encapsulated` header as it is written.
pub open spec fn entry_text(part: Part) -> Seq<u8> {
    part_token(part.name) + equals_sign() + decimal(part.offset as nat)
}

/// What stands between two entries when they are written.
pub open spec fn comma_space() -> Seq<u8> {
    seq![0x2cu8, 0x20u8]
}

/// The value of the `Encapsulated` header for an offset list.
pub open spec fn encapsulated_value(parts: Seq<Part>) -> Seq<u8> {
    joined(parts.map_values(|part: Part| entry_text(part)), comma_space())
}

/// The headers of a request that embeds a message of the given lengths.
pub open spec fn request_headers(method: Method, host: Seq<u8>, head_len: nat, body_len: nat) -> Seq<
    HeaderView,
> {
    seq![
        HeaderView { name: text("Host"), value: host },
        HeaderView { name: text("Allow"), value: text("204") },
        HeaderView {
            name: encapsulated_name(),
            value: encapsulated_value(embedded_parts(method, head_len, body_len)),
        },
    ]
}

/// What a request opens with, before the embedded message: the request
/// line, the `Host`, `Allow` and `Encapsulated` headers, and the empty line.
pub open spec fn request_opening(method: Method, host: Seq<u8>, head_len: nat, body_len: nat) -> Seq<
    u8,
> {
    head_block(request_line(method, host), request_headers(method, host, head_len, body_len))
        + blank_line()
}

/// The bytes of a request that embeds the message `head + body`, or why it
/// cannot be written.
pub open spec fn encoded_request(method: Method, host: Seq<u8>, head: Seq<u8>, body: Seq<u8>) -> Result<
    Seq<u8>,
    CodecError,
> {
    if !valid_service(host) {
        Err(CodecError::InvalidService)
    } else if !can_embed(method, head.len(), body.len()) {
        Err(CodecError::UnexpectedPayload)
    } else {
        Ok(
            message(
                request_line(method, host),
                request_headers(method, host, head.len(), body.len()),
                head + body,
            ),
        )
    }
}

/// The method as it is written.
pub fn method_text(method: Method) -> (r: &'static [u8])
    ensures
        r@ == method_token(method),
{
    proof {
        reveal_strlit("REQMOD");
        reveal_strlit("RESPMOD");
        reveal_strlit("OPTIONS");
    }
    match method {
        Method::Reqmod => ascii("REQMOD"),
        Method::Respmod => ascii("RESPMOD"),
        Method::Options => ascii("OPTIONS"),
    }
}

/// The name of the service that answers a method.
pub fn service_text(method: Method) -> (r: &'static [u8])
    ensures
        r@ == service_name(method),
{
    proof {
        reveal_strlit("reqmod");
        reveal_strlit("respmod");
        reveal_strlit("options");
    }
    match method {
        Method::Reqmod => ascii("reqmod"),
        Method::Respmod => ascii("respmod"),
        Method::Options => ascii("options"),
    }
}

/// The name of a part as it is written.
pub fn part_text(name: PartName) -> (r: &'static [u8])
    ensures
        r@ == part_token(name),
{
    proof {
        reveal_strlit("req-hdr");
        reveal_strlit("req-body");
        reveal_strlit("res-hdr");
        reveal_strlit("res-body");
        reveal_strlit("null-body");
    }
    match name {
        PartName::ReqHdr => ascii("req-hdr"),
        PartName::ReqBody => ascii("req-body"),
        PartName::ResHdr => ascii("res-hdr"),
        PartName::ResBody => ascii("res-body"),
        PartName::NullBody => ascii("null-body"),
    }
}

/// Derives the offsets of an embedded message from the lengths of its
/// header block and of its body.
pub fn derive_offsets(method: Method, head_len: usize, body_len: usize) -> (parts: Vec<Part>)
    ensures
        parts@ == embedded_parts(method, head_len as nat, body_len as nat),
{
    let body_name = if body_len == 0 {
        PartName::NullBody
    } else {
        match method {
            Method::Reqmod => PartName::ReqBody,
            Method::Respmod => PartName::ResBody,
            Method::Options => PartName::NullBody,
        }
    };
    let mut parts: Vec<Part> = Vec::new();
    if head_len > 0 {
        let head_name = match method {
            Method::Respmod => PartName::ResHdr,
            _ => PartName::ReqHdr,
        };
        parts.push(Part { name: head_name, offset: 0 });
    }
    parts.push(Part { name: body_name, offset: head_len });
    assert(parts@ =~= embedded_parts(method, head_len as nat, body_len as nat));
    parts
}

/// Writes the value of the `Encapsulated` header for an offset list.
pub fn write_encapsulated(parts: &Vec<Part>) -> (out: Vec<u8>)
    ensures
        out@ == encapsulated_value(parts@),
{
    let separator: [u8; 2] = [0x2c, 0x20];
    let equals: [u8; 1] = [0x3d];
    assert(separator@ == comma_space());
    assert(equals@ == equals_sign());
    let ghost entries = parts@.map_values(|part: Part| entry_text(part));
    let mut out: Vec<u8> = Vec::new();
    let mut i: usize = 0;
    assert(entries.take(0) =~= Seq::<Seq<u8>>::empty());
    while i < parts.len()
        invariant
            i <= parts@.len(),
            separator@ == comma_space(),
            equals@ == equals_sign(),
            entries == parts@.map_values(|part: Part| entry_text(part)),
            out@ == joined(entries.take(i as int), comma_space()),
        decreases parts@.len() - i,
    {
        let part = parts[i];
        let ghost before = entries.take(i as int);
        if i > 0 {
            append(&mut out, separator.as_slice());
        }
        append(&mut out, part_text(part.name));
        append(&mut out, equals.as_slice());
        write_decimal(&mut out, part.offset);
        proof {
            lemma_joined_push(before, comma_space(), entry_text(part));
            assert(entries.take(i + 1) =~= before.push(entry_text(part)));
            assert(out@ =~= joined(entries.take(i + 1), comma_space()));
        }
        i += 1;
    }
    assert(entries.take(i as int) == entries);
    out
}

/// Writes a request that embeds the message `head + body`.
///
/// Fails with `InvalidService` where `host` is empty or holds a blank or a
/// control byte, and with `UnexpectedPayload` where the method is `OPTIONS`
/// and there is anything to embed.
pub fn encode_request(method: Method, host: &[u8], head: &[u8], body: &[u8]) -> (r: Result<
    Vec<u8>,
    CodecError,
>)
    ensures
        match r {
            Ok(wire) => encoded_request(method, host@, head@, body@) == Ok::<Seq<u8>, CodecError>(
                wire@,
            ),
            Err(e) => encoded_request(method, host@, head@, body@) == Err::<Seq<u8>, CodecError>(e),
        },
{
    if host.len() == 0 || !is_all_visible(host) {
        return Err(CodecError::InvalidService);
    }
    let nothing_embedded = head.len() == 0 && body.len() == 0;
    match method {
        Method::Options => {
            if !nothing_embedded {
                return Err(CodecError::UnexpectedPayload);
            }
        },
        _ => {},
    }
    proof {
        reveal_strlit("icap://");
        reveal_strlit("/");
        reveal_strlit("ICAP/1.0");
        reveal_strlit("Host");
        reveal_strlit("Allow");
        reveal_strlit("204");
        reveal_strlit("Encapsulated");
    }
    let blank: [u8; 1] = [0x20];
    assert(blank@ == space());
    let mut start_line: Vec<u8> = Vec::new();
    append(&mut start_line, method_text(method));
    append(&mut start_line, blank.as_slice());
    append(&mut start_line, ascii("icap://"));
    append(&mut start_line, host);
    append(&mut start_line, ascii("/"));
    append(&mut start_line, service_text(method));
    append(&mut start_line, blank.as_slice());
    append(&mut start_line, ascii("ICAP/1.0"));
    assert(start_line@ =~= request_line(method, host@));
    let parts = derive_offsets(method, head.len(), body.len());
    let mut headers: Vec<Header> = Vec::new();
    headers.push(Header { name: slice_to_vec(ascii("Host")), value: slice_to_vec(host) });
    headers.push(Header { name: slice_to_vec(ascii("Allow")), value: slice_to_vec(ascii("204")) });
    headers.push(
        Header { name: slice_to_vec(ascii("Encapsulated")), value: write_encapsulated(&parts) },
    );
    assert(header_views(headers@) =~= request_headers(
        method,
        host@,
        head@.len(),
        body@.len(),
    ));
    let mut payload: Vec<u8> = Vec::new();
    append(&mut payload, head);
    append(&mut payload, body);
    Ok(write_message(start_line.as_slice(), &headers, payload.as_slice()))
}

/// The words that follow a status code on the status line.
pub open spec fn reason_phrase(status: u16) -> Seq<u8> {
    if status == 200 {
        text("OK")
    } else if status == 204 {
        text("No Content")
    } else if status == 403 {
        text("Forbidden")
    } else if status == 500 {
        text("Server Error")
    } else {
        text("Status")
    }
}

/// The first line of a reply.
pub open spec fn status_line(status: u16) -> Seq<u8> {
    version() + space() + decimal(status as nat) + space() + reason_phrase(status)
}

/// The headers of a reply: the offsets, where it embeds a message.
pub open spec fn response_headers(offsets: Option<Seq<Part>>) -> Seq<HeaderView> {
    match offsets {
        Some(parts) => seq![
            HeaderView { name: encapsulated_name(), value: encapsulated_value(parts) },
        ],
        None => Seq::empty(),
    }
}

/// The bytes of a reply.
pub open spec fn encoded_response(status: u16, offsets: Option<Seq<Part>>, payload: Seq<u8>) -> Seq<
    u8,
> {
    message(status_line(status), response_headers(offsets), payload)
}

/// The words that follow a status code on the status line.
pub fn reason_text(status: u16) -> (r: &'static [u8])
    ensures
        r@ == reason_phrase(status),
{
    proof {
        reveal_strlit("OK");
        reveal_strlit("No Content");
        reveal_strlit("Forbidden");
        reveal_strlit("Server Error");
        reveal_strlit("Status");
    }
    if status == 200 {
        ascii("OK")
    } else if status == 204 {
        ascii("No Content")
    } else if status == 403 {
        ascii("Forbidden")
    } else if status == 500 {
        ascii("Server Error")
    } else {
        ascii("Status")
    }
}

/// Writes a reply with the given status. With `offsets`, the payload is an
/// embedded message and the reply declares where its parts begin; without,
/// the payload is text for people.
pub fn encode_response(status: u16, offsets: Option<&Vec<Part>>, payload: &[u8]) -> (wire: Vec<u8>)
    ensures
        wire@ == encoded_response(
            status,
            match offsets {
                Some(parts) => Some(parts@),
                None => None,
            },
            payload@,
        ),
{
    proof {
        reveal_strlit("ICAP/1.0");
        reveal_strlit("Encapsulated");
    }
    let blank: [u8; 1] = [0x20];
    assert(blank@ == space());
    let mut start_line: Vec<u8> = Vec::new();
    append(&mut start_line, ascii("ICAP/1.0"));
    append(&mut start_line, blank.as_slice());
    write_decimal(&mut start_line, status as usize);
    append(&mut start_line, blank.as_slice());
    append(&mut start_line, reason_text(status));
    assert(start_line@ =~= status_line(status));
    let mut headers: Vec<Header> = Vec::new();
    match offsets {
        Some(parts) => {
            headers.push(
                Header {
                    name: slice_to_vec(ascii("Encapsulated")),
                    value: write_encapsulated(parts),
                },
            );
            assert(header_views(headers@) =~= response_headers(Some(parts@)));
        },
        None => {
            assert(header_views(headers@) =~= response_headers(None));
        },
    }
    write_message(start_line.as_slice(), &headers, payload)
}

} // verus!
