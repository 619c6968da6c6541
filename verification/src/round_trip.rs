//! What the encoder writes, the decoder reads back.

use vstd::prelude::*;
use vstd::string::*;
use crate::bytes::{
    text, pieces, joined, trimmed, trimmed_start, is_blank, free_of, all_visible, is_visible,
    first_occurrence, has_prefix, lemma_first_behind_prefix, lemma_pieces_of_joined,
    lemma_occurs_at_bytes, lemma_concatenation,
};
use crate::decimal::{decimal, is_digit, lemma_number_of_decimal};
use crate::header::{
    HeaderView, header_value, head_of_block, head_block, header_line, lines_of, blank_line, crlf,
    framed,
    message, is_line, is_writable, is_first_named, lemma_message_read_back,
    lemma_header_value_unique, lemma_header_of_line, lemma_blank_line_behind,
};
use crate::codec::{
    Method, PartName, Part, CodecError, AdaptationRequestView, method_token, method_of_token,
    service_name, service_uri, request_line, request_line_of, request_headers, request_offsets,
    part_token, part_of_token, part_of_entry, parts_of_value, entry_text, encapsulated_value,
    encapsulated_name, embedded_parts, can_embed, well_formed, encoded_request, decoded_request,
    valid_service, request_opening, AdaptationResponseView, status_line, status_of_line, reason_phrase,
    response_headers, encoded_response, decoded_response, strictly_increasing, in_range,
    equals_sign, comma, comma_space, space, version,
};

verus! {

/// Every byte is a printing ASCII character or a blank.
pub open spec fn all_printable(s: Seq<u8>) -> bool {
    forall|k: int| 0 <= k < s.len() ==> 0x20 <= #[trigger] s[k] <= 0x7e
}

/// Each part with a blank before it.
pub open spec fn padded(parts: Seq<Seq<u8>>) -> Seq<Seq<u8>> {
    parts.map_values(|part: Seq<u8>| seq![0x20u8] + part)
}

/// The words for the methods are told apart, and hold no blank.
pub proof fn lemma_method_words(method: Method)
    ensures
        method_token(method).len() > 0,
        all_visible(method_token(method)),
        all_visible(service_name(method)),
        method_of_token(method_token(method)) == Some(method),
{
    reveal_strlit("REQMOD");
    reveal_strlit("RESPMOD");
    reveal_strlit("OPTIONS");
    reveal_strlit("reqmod");
    reveal_strlit("respmod");
    reveal_strlit("options");
    assert(text("RESPMOD")[0] != text("OPTIONS")[0]);
}

/// The words for the parts are told apart, and hold no blank, `=` or `,`.
pub proof fn lemma_part_words(name: PartName)
    ensures
        part_token(name).len() > 0,
        all_visible(part_token(name)),
        free_of(part_token(name), 0x3d),
        free_of(part_token(name), 0x2c),
        part_of_token(part_token(name)) == Some(name),
{
    reveal_strlit("req-hdr");
    reveal_strlit("req-body");
    reveal_strlit("res-hdr");
    reveal_strlit("res-body");
    reveal_strlit("null-body");
    assert(text("req-hdr")[2] != text("res-hdr")[2]);
    assert(text("req-body")[2] != text("res-body")[2]);
}

/// A written entry is read back as it was, with or without a blank before it.
pub proof fn lemma_entry_read_back(part: Part)
    ensures
        entry_text(part).len() > 0,
        all_visible(entry_text(part)),
        free_of(entry_text(part), 0x2c),
        part_of_entry(trimmed(entry_text(part))) == Some(part),
        part_of_entry(trimmed(seq![0x20u8] + entry_text(part))) == Some(part),
{
    let word = part_token(part.name);
    let digits = decimal(part.offset as nat);
    let entry = entry_text(part);
    lemma_part_words(part.name);
    lemma_number_of_decimal(part.offset as nat);
    assert forall|k: int| 0 <= k < entry.len() implies is_visible(#[trigger] entry[k]) && entry[k]
        != 0x2c by {
        if k < word.len() {
            assert(entry[k] == word[k]);
        } else if k > word.len() {
            assert(entry[k] == digits[k - word.len() - 1]);
            assert(is_digit(digits[k - word.len() - 1]));
        }
    }
    lemma_first_behind_prefix(word, equals_sign(), digits);
    assert(entry.take(word.len() as int) =~= word);
    assert(entry.skip(word.len() as int + 1) =~= digits);
    assert(part_of_entry(entry) == Some(part));
    assert(is_visible(entry[0]));
    assert(is_visible(entry.last()));
    assert(trimmed_start(entry) == entry);
    assert(trimmed(entry) == entry);
    let wide = seq![0x20u8] + entry;
    assert(wide.skip(1) =~= entry);
    assert(trimmed_start(wide) == trimmed_start(entry));
    assert(trimmed(wide) == entry);
}

/// Joined by a comma and a blank, or each with a blank before it and joined
/// by a comma: the same bytes behind the first blank.
pub proof fn lemma_padded_joined(parts: Seq<Seq<u8>>)
    requires
        parts.len() > 0,
    ensures
        joined(padded(parts), comma()) == seq![0x20u8] + joined(parts, comma_space()),
    decreases parts.len(),
{
    if parts.len() > 1 {
        let tail = parts.skip(1);
        lemma_padded_joined(tail);
        assert(padded(parts).skip(1) =~= padded(tail));
        assert(joined(padded(parts), comma()) =~= seq![0x20u8] + joined(parts, comma_space()));
    }
}

/// What is joined from printable parts is printable, and begins and ends as
/// its first and last part do.
pub proof fn lemma_joined_printable(parts: Seq<Seq<u8>>, sep: Seq<u8>)
    requires
        parts.len() > 0,
        all_printable(sep),
        forall|i: int| 0 <= i < parts.len() ==> (#[trigger] parts[i]).len() > 0 && all_printable(
            parts[i],
        ),
    ensures
        all_printable(joined(parts, sep)),
        joined(parts, sep).len() > 0,
        joined(parts, sep)[0] == parts[0][0],
        joined(parts, sep).last() == parts.last().last(),
    decreases parts.len(),
{
    assert(parts[0].len() > 0 && all_printable(parts[0]));
    if parts.len() > 1 {
        let tail = parts.skip(1);
        assert forall|i: int| 0 <= i < tail.len() implies (#[trigger] tail[i]).len() > 0
            && all_printable(tail[i]) by {
            assert(tail[i] == parts[i + 1]);
        }
        lemma_joined_printable(tail, sep);
        let rest = joined(tail, sep);
        let whole = joined(parts, sep);
        assert(whole == parts[0] + sep + rest);
        assert forall|k: int| 0 <= k < whole.len() implies 0x20 <= #[trigger] whole[k] <= 0x7e by {
            if k < parts[0].len() {
                assert(whole[k] == parts[0][k]);
            } else if k < parts[0].len() + sep.len() {
                assert(whole[k] == sep[k - parts[0].len()]);
            } else {
                assert(whole[k] == rest[k - parts[0].len() - sep.len()]);
            }
        }
        assert(whole.last() == rest.last());
        assert(tail.last() == parts.last());
    }
}

/// A written offset list is read back as it was.
#[verifier::rlimit(50)]
pub proof fn lemma_offsets_read_back(parts: Seq<Part>)
    requires
        parts.len() > 0,
    ensures
        parts_of_value(encapsulated_value(parts)) == Some(parts),
        encapsulated_value(parts).len() > 0,
        all_printable(encapsulated_value(parts)),
        !is_blank(encapsulated_value(parts)[0]),
        !is_blank(encapsulated_value(parts).last()),
{
    let entries = parts.map_values(|part: Part| entry_text(part));
    let value = encapsulated_value(parts);
    assert forall|i: int| 0 <= i < entries.len() implies (#[trigger] entries[i]).len() > 0
        && all_printable(entries[i]) by {
        lemma_entry_read_back(parts[i]);
        assert(forall|k: int|
            0 <= k < entries[i].len() ==> is_visible(#[trigger] entries[i][k]));
    }
    lemma_joined_printable(entries, comma_space());
    lemma_entry_read_back(parts[0]);
    lemma_entry_read_back(parts.last());
    assert(is_visible(entries[0][0]));
    assert(is_visible(entries.last().last()));
    // The same bytes, seen as parts joined by commas alone.
    let written = if entries.len() == 1 {
        entries
    } else {
        seq![entries[0]] + padded(entries.skip(1))
    };
    if entries.len() > 1 {
        let tail = entries.skip(1);
        lemma_padded_joined(tail);
        assert(written.skip(1) =~= padded(tail));
        assert(value == entries[0] + comma_space() + joined(tail, comma_space()));
        assert(joined(written, comma()) == entries[0] + comma() + joined(padded(tail), comma()));
        assert(value =~= joined(written, comma()));
    }
    assert(written.len() == parts.len());
    assert forall|i: int| 0 <= i < written.len() implies free_of(#[trigger] written[i], comma()[0])
        && part_of_entry(trimmed(written[i])) == Some(parts[i]) by {
        lemma_entry_read_back(parts[i]);
        if i > 0 {
            assert(written[i] == seq![0x20u8] + entries[i]);
            assert forall|k: int| 0 <= k < written[i].len() implies written[i][k] != 0x2c by {
                if k > 0 {
                    assert(written[i][k] == entries[i][k - 1]);
                }
            }
        }
    }
    lemma_pieces_of_joined(written, comma());
    assert(Seq::new(written.len(), |i: int| part_of_entry(trimmed(written[i]))->0) =~= parts);
}

/// The offsets that the encoder derives fit the method and the payload.
pub proof fn lemma_embedded_parts_well_formed(method: Method, head_len: nat, body_len: nat)
    requires
        can_embed(method, head_len, body_len),
        head_len + body_len <= usize::MAX,
    ensures
        well_formed(method, embedded_parts(method, head_len, body_len), head_len + body_len, false),
        well_formed(method, embedded_parts(method, head_len, body_len), head_len + body_len, true),
        embedded_parts(method, head_len, body_len).len() > 0,
        embedded_parts(method, head_len, body_len).last().offset == head_len,
{
}

/// A written request line is read back as the method and the service
/// address that went into it.
#[verifier::rlimit(50)]
pub proof fn lemma_request_line_read_back(method: Method, host: Seq<u8>)
    requires
        valid_service(host),
    ensures
        is_line(request_line(method, host)),
        all_printable(request_line(method, host)),
        request_line_of(request_line(method, host)) == Some((method, service_uri(method, host))),
{
    let line = request_line(method, host);
    let uri = service_uri(method, host);
    let word = method_token(method);
    lemma_method_words(method);
    assert(all_visible(uri) && uri.len() > 0) by {
        reveal_strlit("icap://");
        reveal_strlit("/");
    }
    assert(all_visible(version()) && version().len() > 0) by {
        reveal_strlit("ICAP/1.0");
    }
    let fields = seq![word, uri, version()];
    assert(joined(fields, space()) =~= line) by {
        reveal_with_fuel(joined, 3);
        assert(fields.skip(1) =~= seq![uri, version()]);
        assert(fields.skip(1).skip(1) =~= seq![version()]);
    }
    assert forall|i: int| 0 <= i < fields.len() implies free_of(#[trigger] fields[i], space()[0]) by {
        assert(all_visible(fields[i]));
    }
    lemma_pieces_of_joined(fields, space());
    assert forall|k: int| 0 <= k < line.len() implies 0x20 <= #[trigger] line[k] <= 0x7e by {
        let a = word.len();
        if k < a {
            assert(is_visible(word[k]));
        } else if k == a {
        } else if k < a + 1 + uri.len() {
            assert(line[k] == uri[k - a - 1]);
            assert(is_visible(uri[k - a - 1]));
        } else if k == a + 1 + uri.len() {
        } else {
            assert(line[k] == version()[k - a - 2 - uri.len()]);
            assert(is_visible(version()[k - a - 2 - uri.len()]));
        }
    }
}

/// The headers of a written request can be read back, and declare the
/// offsets that were derived for it.
#[verifier::rlimit(50)]
pub proof fn lemma_request_headers_read_back(
    method: Method,
    host: Seq<u8>,
    head_len: nat,
    body_len: nat,
)
    requires
        valid_service(host),
    ensures
        forall|i: int|
            0 <= i < request_headers(method, host, head_len, body_len).len() ==> is_writable(
                #[trigger] request_headers(method, host, head_len, body_len)[i],
            ),
        forall|i: int|
            0 <= i < request_headers(method, host, head_len, body_len).len() ==> all_printable(
                header_line(#[trigger] request_headers(method, host, head_len, body_len)[i]),
            ),
        request_offsets(request_headers(method, host, head_len, body_len)) == Some(
            embedded_parts(method, head_len, body_len),
        ),
{
    let headers = request_headers(method, host, head_len, body_len);
    let parts = embedded_parts(method, head_len, body_len);
    let value = encapsulated_value(parts);
    reveal_strlit("Host");
    reveal_strlit("Allow");
    reveal_strlit("204");
    reveal_strlit("Encapsulated");
    lemma_offsets_read_back(parts);
    assert(is_writable(headers[0])) by {
        assert(is_visible(host[0]));
        assert(is_visible(host.last()));
    }
    assert(is_writable(headers[1]));
    assert(is_writable(headers[2]));
    assert forall|i: int| 0 <= i < headers.len() implies all_printable(
        header_line(#[trigger] headers[i]),
    ) by {
        let h = headers[i];
        let line = header_line(h);
        assert forall|k: int| 0 <= k < line.len() implies 0x20 <= #[trigger] line[k] <= 0x7e by {
            if k < h.name.len() {
                assert(line[k] == h.name[k]);
            } else if k >= h.name.len() + 2 {
                assert(line[k] == h.value[k - h.name.len() - 2]);
                if i == 0 {
                    assert(is_visible(h.value[k - h.name.len() - 2]));
                }
            }
        }
    }
    assert(is_first_named(headers, encapsulated_name(), 2));
    lemma_header_value_unique(headers, encapsulated_name(), 2);
}

/// Round trip: a request written for a method, a valid service address and
/// an embedded header block and body is read back with that method, with
/// offsets derived from the two lengths, and with the header block and the
/// body byte for byte as they were given.
#[verifier::rlimit(50)]
pub proof fn lemma_request_round_trip(method: Method, host: Seq<u8>, head: Seq<u8>, body: Seq<u8>)
    requires
        encoded_request(method, host, head, body) is Ok,
        head.len() + body.len() <= usize::MAX,
    ensures
        decoded_request(encoded_request(method, host, head, body)->Ok_0) == Ok::<
            AdaptationRequestView,
            CodecError,
        >(
            AdaptationRequestView {
                method,
                service_uri: service_uri(method, host),
                headers: request_headers(method, host, head.len(), body.len()),
                offsets: embedded_parts(method, head.len(), body.len()),
                payload: head + body,
            },
        ),
        decoded_request(encoded_request(method, host, head, body)->Ok_0)->Ok_0.head() == head,
        decoded_request(encoded_request(method, host, head, body)->Ok_0)->Ok_0.body() == body,
{
    let line = request_line(method, host);
    let headers = request_headers(method, host, head.len(), body.len());
    let payload = head + body;
    lemma_request_line_read_back(method, host);
    lemma_request_headers_read_back(method, host, head.len(), body.len());
    lemma_embedded_parts_well_formed(method, head.len(), body.len());
    lemma_message_read_back(line, headers, payload);
    assert(payload.take(head.len() as int) =~= head);
    assert(payload.skip(head.len() as int) =~= body);
}

/// A written status line is read back as the status that went into it.
pub proof fn lemma_status_line_read_back(status: u16)
    requires
        100 <= status <= 999,
    ensures
        is_line(status_line(status)),
        status_of_line(status_line(status)) == Some(status),
{
    let line = status_line(status);
    let digits = decimal(status as nat);
    let phrase = reason_phrase(status);
    lemma_number_of_decimal(status as nat);
    assert(all_visible(version()) && version().len() > 0) by {
        reveal_strlit("ICAP/1.0");
    }
    assert(all_printable(phrase)) by {
        reveal_strlit("OK");
        reveal_strlit("No Content");
        reveal_strlit("Forbidden");
        reveal_strlit("Server Error");
        reveal_strlit("Status");
    }
    assert forall|k: int| 0 <= k < digits.len() implies digits[k] != 0x20 by {
        assert(is_digit(digits[k]));
    }
    let behind = digits + space() + phrase;
    assert(line =~= version() + space() + behind);
    lemma_first_behind_prefix(version(), space(), behind);
    assert(line.take(version().len() as int) =~= version());
    assert(line.skip(version().len() as int + 1) =~= behind);
    lemma_first_behind_prefix(digits, space(), phrase);
    assert(behind.take(digits.len() as int) =~= digits);
    let fields = pieces(line, space());
    assert(fields =~= seq![version()] + pieces(behind, space()));
    assert(pieces(behind, space()) =~= seq![digits] + pieces(
        behind.skip(digits.len() as int + 1),
        space(),
    ));
    assert(fields[0] == version());
    assert(fields[1] == digits);
    assert forall|k: int| 0 <= k < line.len() implies line[k] != 0x0d by {
        let a = version().len();
        if k < a {
            assert(is_visible(version()[k]));
        } else if k == a {
        } else if k < a + 1 + digits.len() {
            assert(line[k] == digits[k - a - 1]);
            assert(is_digit(digits[k - a - 1]));
        } else if k == a + 1 + digits.len() {
        } else {
            assert(line[k] == phrase[k - a - 2 - digits.len()]);
        }
    }
}

/// Round trip for replies: a reply written with a status from 100 to 999
/// and, where it embeds a message, offsets that fit the method and the
/// payload, is read back with that status, those offsets and that payload.
#[verifier::rlimit(50)]
pub proof fn lemma_response_round_trip(
    method: Method,
    status: u16,
    offsets: Option<Seq<Part>>,
    payload: Seq<u8>,
)
    requires
        100 <= status <= 999,
        offsets matches Some(parts) ==> well_formed(method, parts, payload.len(), true),
    ensures
        decoded_response(encoded_response(status, offsets, payload), method) == Ok::<
            AdaptationResponseView,
            CodecError,
        >(
            AdaptationResponseView {
                status,
                headers: response_headers(offsets),
                offsets,
                payload: if offsets is None && payload.len() == 0 {
                    None
                } else {
                    Some(payload)
                },
            },
        ),
{
    let line = status_line(status);
    let headers = response_headers(offsets);
    lemma_status_line_read_back(status);
    reveal_strlit("Encapsulated");
    match offsets {
        Some(parts) => {
            lemma_offsets_read_back(parts);
            assert(is_writable(headers[0]));
            assert(is_first_named(headers, encapsulated_name(), 0));
            lemma_header_value_unique(headers, encapsulated_name(), 0);
        },
        None => {
            assert(header_value(headers, encapsulated_name()) is None);
        },
    }
    lemma_message_read_back(line, headers, payload);
}

/// The offsets that the bytes of a request declare, where the bytes can be
/// read that far.
pub open spec fn declared_offsets(wire: Seq<u8>) -> Option<Seq<Part>> {
    match framed(wire) {
        Some((block, payload)) => match head_of_block(block) {
            Some(head) => if request_line_of(head.start_line) is Some {
                request_offsets(head.headers)
            } else {
                None
            },
            None => None,
        },
        None => None,
    }
}

/// Offsets are strictly increasing: a request that the decoder accepts has
/// such offsets, and one that declares any other list is refused with
/// `MalformedEncapsulation`.
pub proof fn lemma_offsets_strictly_increasing(wire: Seq<u8>)
    ensures
        decoded_request(wire) matches Ok(request) ==> strictly_increasing(request.offsets)
            && in_range(request.offsets, request.payload.len()) && declared_offsets(wire) == Some(
            request.offsets,
        ),
        declared_offsets(wire) matches Some(parts) && !strictly_increasing(parts)
            ==> decoded_request(wire) == Err::<AdaptationRequestView, CodecError>(
            CodecError::MalformedEncapsulation,
        ),
{
}

/// Every byte is an ASCII character.
pub open spec fn all_ascii(s: Seq<u8>) -> bool {
    forall|k: int| 0 <= k < s.len() ==> #[trigger] s[k] <= 0x7f
}

/// What is joined from ASCII parts with an ASCII separator is ASCII.
pub proof fn lemma_joined_ascii(parts: Seq<Seq<u8>>, sep: Seq<u8>)
    requires
        all_ascii(sep),
        forall|i: int| 0 <= i < parts.len() ==> all_ascii(#[trigger] parts[i]),
    ensures
        all_ascii(joined(parts, sep)),
    decreases parts.len(),
{
    if parts.len() == 1 {
        assert(all_ascii(parts[0]));
    } else if parts.len() > 1 {
        let tail = parts.skip(1);
        assert forall|i: int| 0 <= i < tail.len() implies all_ascii(#[trigger] tail[i]) by {
            assert(tail[i] == parts[i + 1]);
        }
        lemma_joined_ascii(tail, sep);
        let rest = joined(tail, sep);
        let whole = joined(parts, sep);
        assert(all_ascii(parts[0]));
        assert forall|k: int| 0 <= k < whole.len() implies #[trigger] whole[k] <= 0x7f by {
            if k < parts[0].len() {
                assert(whole[k] == parts[0][k]);
            } else if k < parts[0].len() + sep.len() {
                assert(whole[k] == sep[k - parts[0].len()]);
            } else {
                assert(whole[k] == rest[k - parts[0].len() - sep.len()]);
            }
        }
    }
}

/// In a written message the empty line is found first where the header
/// block ends, whatever follows it.
pub proof fn lemma_blank_line_ends_block(
    start_line: Seq<u8>,
    headers: Seq<HeaderView>,
    payload: Seq<u8>,
)
    requires
        is_line(start_line),
        forall|i: int| 0 <= i < headers.len() ==> is_writable(#[trigger] headers[i]),
    ensures
        first_occurrence(head_block(start_line, headers) + blank_line() + payload, blank_line())
            == Some(head_block(start_line, headers).len() as int),
{
    let lines = lines_of(start_line, headers);
    assert forall|i: int| 0 <= i < lines.len() implies is_line(#[trigger] lines[i]) by {
        if i > 0 {
            assert(lines[i] == header_line(headers[i - 1]));
            lemma_header_of_line(headers[i - 1]);
        }
    }
    lemma_blank_line_behind(lines, payload);
}

/// A written header block begins with its start line, ended by CR LF.
pub proof fn lemma_block_begins_with_start_line(start_line: Seq<u8>, headers: Seq<HeaderView>)
    ensures
        has_prefix(head_block(start_line, headers) + blank_line(), start_line + crlf()),
{
    let lines = lines_of(start_line, headers);
    let block = head_block(start_line, headers);
    let opening = block + blank_line();
    let first = start_line + crlf();
    assert(lines[0] == start_line);
    if lines.len() == 1 {
        assert(block == start_line);
    } else {
        assert(block == start_line + crlf() + joined(lines.skip(1), crlf()));
    }
    assert forall|j: int| 0 <= j < first.len() implies opening[0 + j] == first[j] by {}
    lemma_occurs_at_bytes(opening, first, 0);
}

/// A header block of ASCII lines, and the empty line behind it, are ASCII.
pub proof fn lemma_opening_ascii(start_line: Seq<u8>, headers: Seq<HeaderView>)
    requires
        all_ascii(start_line),
        forall|i: int| 0 <= i < headers.len() ==> all_ascii(header_line(#[trigger] headers[i])),
    ensures
        all_ascii(head_block(start_line, headers) + blank_line()),
{
    let lines = lines_of(start_line, headers);
    let block = head_block(start_line, headers);
    assert forall|i: int| 0 <= i < lines.len() implies all_ascii(#[trigger] lines[i]) by {
        if i > 0 {
            assert(lines[i] == header_line(headers[i - 1]));
        }
    }
    lemma_joined_ascii(lines, crlf());
    let opening = block + blank_line();
    assert forall|k: int| 0 <= k < opening.len() implies #[trigger] opening[k] <= 0x7f by {
        if k < block.len() {
            assert(opening[k] == block[k]);
        } else {
            assert(opening[k] == blank_line()[k - block.len()]);
        }
    }
}

/// The shape of a written request: an opening of ASCII text that begins
/// with the request line and holds the empty line as its last four bytes
/// and nowhere before, and behind it the embedded message as it was given.
#[verifier::rlimit(50)]
pub proof fn lemma_request_shape(method: Method, host: Seq<u8>, head: Seq<u8>, body: Seq<u8>)
    requires
        encoded_request(method, host, head, body) is Ok,
    ensures
        encoded_request(method, host, head, body)->Ok_0 == request_opening(
            method,
            host,
            head.len(),
            body.len(),
        ) + head + body,
        has_prefix(
            request_opening(method, host, head.len(), body.len()),
            request_line(method, host) + crlf(),
        ),
        all_ascii(request_opening(method, host, head.len(), body.len())),
        first_occurrence(request_opening(method, host, head.len(), body.len()), blank_line())
            == Some(request_opening(method, host, head.len(), body.len()).len() - 4),
        first_occurrence(encoded_request(method, host, head, body)->Ok_0, blank_line()) == Some(
            request_opening(method, host, head.len(), body.len()).len() - 4,
        ),
{
    let line = request_line(method, host);
    let headers = request_headers(method, host, head.len(), body.len());
    let block = head_block(line, headers);
    let opening = request_opening(method, host, head.len(), body.len());
    let wire = encoded_request(method, host, head, body)->Ok_0;
    assert(is_line(line) && all_ascii(line)) by {
        lemma_request_line_read_back(method, host);
        assert(all_printable(line));
    }
    assert(forall|i: int| 0 <= i < headers.len() ==> is_writable(#[trigger] headers[i])) by {
        lemma_request_headers_read_back(method, host, head.len(), body.len());
    }
    assert(forall|i: int|
        0 <= i < headers.len() ==> all_ascii(header_line(#[trigger] headers[i]))) by {
        lemma_request_headers_read_back(method, host, head.len(), body.len());
        assert forall|i: int| 0 <= i < headers.len() implies all_ascii(
            header_line(#[trigger] headers[i]),
        ) by {
            assert(all_printable(header_line(headers[i])));
        }
    }
    lemma_block_begins_with_start_line(line, headers);
    lemma_opening_ascii(line, headers);
    lemma_blank_line_ends_block(line, headers, Seq::empty());
    lemma_blank_line_ends_block(line, headers, head + body);
    lemma_concatenation(opening, head, body);
    assert(opening == block + blank_line());
    assert(opening.len() == block.len() + 4);
    assert(wire == block + blank_line() + (head + body));
}

} // verus!
