//! The header block that opens a message of either protocol: a start line
//! and `Name: value` lines, each ended by CR LF, closed by an empty line.

use vstd::prelude::*;
use vstd::slice::*;
use crate::bytes::{
    first_occurrence, occurs_at, pieces, joined, views, trimmed, trimmed_start, is_blank, free_of,
    same_ignoring_case, find, split, trim, append, eq_ignoring_case, lemma_first_occurrence_exists,
    lemma_first_occurrence_unique, lemma_occurs_at_bytes, lemma_first_byte,
    lemma_first_behind_prefix, lemma_pieces_of_joined, lemma_joined_push, lemma_pieces_nonempty,
};

verus! {

/// One header line.
#[derive(Clone, Debug, PartialEq, Eq)]
pub struct Header {
    pub name: Vec<u8>,
    pub value: Vec<u8>,
}

/// A header over mathematical byte sequences.
pub ghost struct HeaderView {
    pub name: Seq<u8>,
    pub value: Seq<u8>,
}

impl View for Header {
    type V = HeaderView;

    open spec fn view(&self) -> HeaderView {
        HeaderView { name: self.name@, value: self.value@ }
    }
}

/// The contents of a list of headers.
pub open spec fn header_views(list: Seq<Header>) -> Seq<HeaderView> {
    list.map_values(|h: Header| h@)
}

/// CR LF, the end of a line.
pub open spec fn crlf() -> Seq<u8> {
    seq![0x0du8, 0x0au8]
}

/// CR LF CR LF: the end of the last header line and the empty line behind it.
pub open spec fn blank_line() -> Seq<u8> {
    seq![0x0du8, 0x0au8, 0x0du8, 0x0au8]
}

/// The colon between a header's name and its value.
pub open spec fn colon() -> Seq<u8> {
    seq![0x3au8]
}

/// The header written on one line: a name, which is not empty, up to the
/// first colon, and behind it the value, without the blanks around it.
pub open spec fn header_of_line(line: Seq<u8>) -> Option<HeaderView> {
    match first_occurrence(line, colon()) {
        Some(at) if 0 < at < line.len() => Some(
            HeaderView { name: line.take(at), value: trimmed(line.skip(at + 1)) },
        ),
        _ => None,
    }
}

/// The headers written on `lines`, if every line holds one.
pub open spec fn headers_of_lines(lines: Seq<Seq<u8>>) -> Option<Seq<HeaderView>> {
    if forall|i: int| 0 <= i < lines.len() ==> (#[trigger] header_of_line(lines[i])) is Some {
        Some(Seq::new(lines.len(), |i: int| header_of_line(lines[i])->0))
    } else {
        None
    }
}

/// `headers[at]` is the first header called `name`, whatever the case of the letters.
pub open spec fn is_first_named(headers: Seq<HeaderView>, name: Seq<u8>, at: int) -> bool {
    &&& 0 <= at < headers.len()
    &&& same_ignoring_case(headers[at].name, name)
    &&& forall|k: int| 0 <= k < at ==> !same_ignoring_case((#[trigger] headers[k]).name, name)
}

/// The value of the first header called `name`.
pub open spec fn header_value(headers: Seq<HeaderView>, name: Seq<u8>) -> Option<Seq<u8>> {
    if exists|at: int| is_first_named(headers, name, at) {
        Some(headers[choose|at: int| is_first_named(headers, name, at)].value)
    } else {
        None
    }
}

/// The first header called `name` is the only one that `header_value` can mean.
pub proof fn lemma_header_value_unique(headers: Seq<HeaderView>, name: Seq<u8>, at: int)
    requires
        is_first_named(headers, name, at),
    ensures
        header_value(headers, name) == Some(headers[at].value),
{
    let chosen = choose|k: int| is_first_named(headers, name, k);
    assert(is_first_named(headers, name, chosen));
    if chosen < at {
        assert(!same_ignoring_case(headers[chosen].name, name));
    } else if at < chosen {
        assert(!same_ignoring_case(headers[at].name, name));
    }
}

/// A start line and the headers behind it.
#[derive(Clone, Debug, PartialEq, Eq)]
pub struct Head {
    pub start_line: Vec<u8>,
    pub headers: Vec<Header>,
}

/// A head over mathematical byte sequences.
pub ghost struct HeadView {
    pub start_line: Seq<u8>,
    pub headers: Seq<HeaderView>,
}

impl View for Head {
    type V = HeadView;

    open spec fn view(&self) -> HeadView {
        HeadView { start_line: self.start_line@, headers: header_views(self.headers@) }
    }
}

/// The head written in a header block (the bytes before the empty line): the
/// first line is the start line, every other line holds a header.
pub open spec fn head_of_block(block: Seq<u8>) -> Option<HeadView> {
    let lines = pieces(block, crlf());
    match headers_of_lines(lines.skip(1)) {
        Some(headers) => Some(HeadView { start_line: lines[0], headers }),
        None => None,
    }
}

/// A message cut at its empty line: the header block and what follows it.
pub open spec fn framed(wire: Seq<u8>) -> Option<(Seq<u8>, Seq<u8>)> {
    match first_occurrence(wire, blank_line()) {
        Some(at) => Some((wire.take(at), wire.skip(at + 4))),
        None => None,
    }
}

/// Where the empty line that closes the header block begins.
pub fn find_blank_line(wire: &[u8]) -> (r: Option<usize>)
    ensures
        match r {
            Some(at) => first_occurrence(wire@, blank_line()) == Some(at as int) && at + 4
                <= wire@.len() <= usize::MAX,
            None => first_occurrence(wire@, blank_line()) is None,
        },
{
    if wire.len() < 4 {
        assert(forall|at: int| !occurs_at(wire@, blank_line(), at));
        return None;
    }
    let mark: [u8; 4] = [0x0d, 0x0a, 0x0d, 0x0a];
    assert(mark@ == blank_line());
    let r = find(wire, mark.as_slice());
    proof {
        if r is Some {
            lemma_first_occurrence_exists(wire@, blank_line());
        }
    }
    r
}

/// Reads one header line.
pub fn parse_header_line(line: &[u8]) -> (r: Option<Header>)
    ensures
        match r {
            Some(h) => header_of_line(line@) == Some(h@),
            None => header_of_line(line@) is None,
        },
{
    let mark: [u8; 1] = [0x3a];
    assert(mark@ == colon());
    match find(line, mark.as_slice()) {
        Some(at) => {
            proof {
                lemma_first_occurrence_exists(line@, colon());
            }
            if at == 0 {
                return None;
            }
            let end: usize = line.len();
            assert(occurs_at(line@, colon(), at as int));
            let name = slice_to_vec(slice_subrange(line, 0, at));
            let rest = slice_subrange(line, at + 1, end);
            assert(rest@ == line@.skip(at + 1));
            let value = slice_to_vec(trim(rest));
            Some(Header { name, value })
        },
        None => None,
    }
}

/// Reads header lines, one header from each.
pub fn parse_header_lines(lines: &[Vec<u8>]) -> (r: Option<Vec<Header>>)
    ensures
        match r {
            Some(headers) => headers_of_lines(views(lines@)) == Some(header_views(headers@)),
            None => headers_of_lines(views(lines@)) is None,
        },
{
    let ghost all = views(lines@);
    let mut headers: Vec<Header> = Vec::new();
    let mut i: usize = 0;
    while i < lines.len()
        invariant
            i <= lines@.len(),
            all == views(lines@),
            headers@.len() == i,
            forall|k: int| 0 <= k < i ==> header_of_line(#[trigger] all[k]) == Some(headers@[k]@),
        decreases lines@.len() - i,
    {
        assert(all[i as int] == lines@[i as int]@);
        match parse_header_line(lines[i].as_slice()) {
            Some(h) => {
                headers.push(h);
            },
            None => {
                return None;
            },
        }
        i += 1;
    }
    assert(header_views(headers@) == Seq::new(all.len(), |k: int| header_of_line(all[k])->0));
    Some(headers)
}

/// The value of the first header called `name`, whatever the case of the letters.
pub fn lookup<'a>(headers: &'a Vec<Header>, name: &[u8]) -> (r: Option<&'a Vec<u8>>)
    ensures
        match r {
            Some(value) => header_value(header_views(headers@), name@) == Some(value@),
            None => header_value(header_views(headers@), name@) is None,
        },
{
    let mut i: usize = 0;
    while i < headers.len()
        invariant
            i <= headers@.len(),
            forall|k: int|
                0 <= k < i ==> !same_ignoring_case(
                    (#[trigger] header_views(headers@)[k]).name,
                    name@,
                ),
        decreases headers@.len() - i,
    {
        if eq_ignoring_case(headers[i].name.as_slice(), name) {
            proof {
                assert(header_views(headers@)[i as int] == headers@[i as int]@);
                lemma_header_value_unique(header_views(headers@), name@, i as int);
            }
            return Some(&headers[i].value);
        }
        assert(header_views(headers@)[i as int] == headers@[i as int]@);
        i += 1;
    }
    None
}

/// Reads a header block.
pub fn parse_head(block: &[u8]) -> (r: Option<Head>)
    ensures
        match r {
            Some(head) => head_of_block(block@) == Some(head@),
            None => head_of_block(block@) is None,
        },
{
    let mark: [u8; 2] = [0x0d, 0x0a];
    assert(mark@ == crlf());
    let lines = split(block, mark.as_slice());
    proof {
        lemma_pieces_nonempty(block@, crlf());
    }
    let behind = slice_subrange(lines.as_slice(), 1, lines.len());
    assert(views(behind@) =~= views(lines@).skip(1));
    match parse_header_lines(behind) {
        Some(headers) => {
            let start_line = slice_to_vec(lines[0].as_slice());
            assert(views(lines@)[0] == lines@[0]@);
            Some(Head { start_line, headers })
        },
        None => None,
    }
}

/// What stands between a header's name and its value when it is written.
pub open spec fn colon_space() -> Seq<u8> {
    seq![0x3au8, 0x20u8]
}

/// A header as it is written on its line.
pub open spec fn header_line(h: HeaderView) -> Seq<u8> {
    h.name + colon_space() + h.value
}

/// The lines of a header block.
pub open spec fn lines_of(start_line: Seq<u8>, headers: Seq<HeaderView>) -> Seq<Seq<u8>> {
    seq![start_line] + headers.map_values(|h: HeaderView| header_line(h))
}

/// A header block as it is written, up to the end of its last line.
pub open spec fn head_block(start_line: Seq<u8>, headers: Seq<HeaderView>) -> Seq<u8> {
    joined(lines_of(start_line, headers), crlf())
}

/// A message as it is written: the header block, the empty line, the payload.
pub open spec fn message(start_line: Seq<u8>, headers: Seq<HeaderView>, payload: Seq<u8>) -> Seq<
    u8,
> {
    head_block(start_line, headers) + blank_line() + payload
}

/// A line that can be read back: not empty, and without a CR.
pub open spec fn is_line(line: Seq<u8>) -> bool {
    line.len() > 0 && free_of(line, 0x0d)
}

/// A header that can be read back: a name without a colon, a value without
/// blanks at its ends, and no CR in either.
pub open spec fn is_writable(h: HeaderView) -> bool {
    &&& h.name.len() > 0
    &&& free_of(h.name, 0x3a)
    &&& free_of(h.name, 0x0d)
    &&& free_of(h.value, 0x0d)
    &&& h.value.len() > 0 ==> !is_blank(h.value[0]) && !is_blank(h.value.last())
}

/// A written header is read back as it was.
pub proof fn lemma_header_of_line(h: HeaderView)
    requires
        is_writable(h),
    ensures
        header_of_line(header_line(h)) == Some(h),
        is_line(header_line(h)),
{
    let line = header_line(h);
    let rest = seq![0x20u8] + h.value;
    assert(line =~= h.name + colon() + rest);
    lemma_first_behind_prefix(h.name, colon(), rest);
    assert(line.take(h.name.len() as int) =~= h.name);
    assert(line.skip(h.name.len() as int + 1) =~= rest);
    assert(rest.skip(1) =~= h.value);
    assert(trimmed_start(rest) == trimmed_start(h.value));
    assert(trimmed(rest) == h.value);
}

/// The empty line is found first right behind the last of the lines.
pub proof fn lemma_blank_line_behind(lines: Seq<Seq<u8>>, rest: Seq<u8>)
    requires
        lines.len() > 0,
        forall|i: int| 0 <= i < lines.len() ==> is_line(#[trigger] lines[i]),
    ensures
        first_occurrence(joined(lines, crlf()) + blank_line() + rest, blank_line()) == Some(
            joined(lines, crlf()).len() as int,
        ),
        joined(lines, crlf()).len() > 0,
        joined(lines, crlf())[0] != 0x0d,
    decreases lines.len(),
{
    let block = joined(lines, crlf());
    let wire = block + blank_line() + rest;
    let first = lines[0];
    assert(is_line(first));
    if lines.len() == 1 {
        lemma_occurs_at_bytes(wire, blank_line(), block.len() as int);
        assert forall|k: int| 0 <= k < block.len() implies !occurs_at(wire, blank_line(), k) by {
            if occurs_at(wire, blank_line(), k) {
                lemma_first_byte(wire, blank_line(), k);
            }
        }
        lemma_first_occurrence_unique(wire, blank_line(), block.len() as int);
    } else {
        let tail = lines.skip(1);
        let tail_block = joined(tail, crlf());
        let tail_wire = tail_block + blank_line() + rest;
        assert forall|i: int| 0 <= i < tail.len() implies is_line(#[trigger] tail[i]) by {
            assert(tail[i] == lines[i + 1]);
        }
        lemma_blank_line_behind(tail, rest);
        lemma_first_occurrence_exists(tail_wire, blank_line());
        let shift = first.len() + 2;
        assert(block == first + crlf() + tail_block);
        assert(wire =~= first + crlf() + tail_wire);
        lemma_occurs_at_bytes(tail_wire, blank_line(), tail_block.len() as int);
        lemma_occurs_at_bytes(wire, blank_line(), block.len() as int);
        assert forall|j: int| 0 <= j < 4 implies wire[block.len() + j] == blank_line()[j] by {
            assert(wire[block.len() + j] == tail_wire[tail_block.len() + j]);
        }
        assert forall|k: int| 0 <= k < block.len() implies !occurs_at(wire, blank_line(), k) by {
            if occurs_at(wire, blank_line(), k) {
                lemma_occurs_at_bytes(wire, blank_line(), k);
                assert(wire[k + 0] == 0x0d);
                assert(wire[k + 2] == 0x0d);
                if k < first.len() {
                    assert(wire[k] == first[k]);
                } else if k == first.len() {
                    assert(wire[k + 2] == tail_wire[0]);
                    assert(tail_wire[0] == tail_block[0]);
                } else if k == first.len() + 1 {
                    assert(wire[k] == 0x0a);
                } else {
                    lemma_occurs_at_bytes(tail_wire, blank_line(), k - shift);
                    assert forall|j: int| 0 <= j < 4 implies tail_wire[k - shift + j]
                        == blank_line()[j] by {
                        assert(wire[k + j] == tail_wire[k - shift + j]);
                    }
                    assert(occurs_at(tail_wire, blank_line(), k - shift));
                }
            }
        }
        lemma_first_occurrence_unique(wire, blank_line(), block.len() as int);
    }
}

/// A written message is cut where its payload begins, and its header block
/// is read back as the start line and the headers that were written.
pub proof fn lemma_message_read_back(start_line: Seq<u8>, headers: Seq<HeaderView>, payload: Seq<u8>)
    requires
        is_line(start_line),
        forall|i: int| 0 <= i < headers.len() ==> is_writable(#[trigger] headers[i]),
    ensures
        framed(message(start_line, headers, payload)) == Some(
            (head_block(start_line, headers), payload),
        ),
        head_of_block(head_block(start_line, headers)) == Some(HeadView { start_line, headers }),
{
    let lines = lines_of(start_line, headers);
    let block = head_block(start_line, headers);
    let wire = message(start_line, headers, payload);
    assert forall|i: int| 0 <= i < lines.len() implies is_line(#[trigger] lines[i]) && free_of(
        lines[i],
        crlf()[0],
    ) by {
        if i > 0 {
            assert(lines[i] == header_line(headers[i - 1]));
            lemma_header_of_line(headers[i - 1]);
        }
    }
    lemma_blank_line_behind(lines, payload);
    assert(wire.take(block.len() as int) =~= block);
    assert(wire.skip(block.len() as int + 4) =~= payload);
    lemma_pieces_of_joined(lines, crlf());
    let tail = lines.skip(1);
    assert forall|i: int| 0 <= i < tail.len() implies (#[trigger] header_of_line(tail[i])) == Some(
        headers[i],
    ) by {
        assert(tail[i] == header_line(headers[i]));
        lemma_header_of_line(headers[i]);
    }
    assert(Seq::new(tail.len(), |i: int| header_of_line(tail[i])->0) =~= headers);
}

/// Writes a message: the start line, the headers in their order, the empty
/// line, and the payload behind it.
pub fn write_message(start_line: &[u8], headers: &Vec<Header>, payload: &[u8]) -> (wire: Vec<u8>)
    ensures
        wire@ == message(start_line@, header_views(headers@), payload@),
{
    let end_of_line: [u8; 2] = [0x0d, 0x0a];
    let separator: [u8; 2] = [0x3a, 0x20];
    assert(end_of_line@ == crlf());
    assert(separator@ == colon_space());
    let ghost all = header_views(headers@);
    let mut wire: Vec<u8> = Vec::new();
    append(&mut wire, start_line);
    let mut i: usize = 0;
    assert(lines_of(start_line@, all.take(0)) =~= seq![start_line@]);
    while i < headers.len()
        invariant
            i <= headers@.len(),
            all == header_views(headers@),
            end_of_line@ == crlf(),
            separator@ == colon_space(),
            wire@ == head_block(start_line@, all.take(i as int)),
        decreases headers@.len() - i,
    {
        let ghost before = lines_of(start_line@, all.take(i as int));
        let h = &headers[i];
        append(&mut wire, end_of_line.as_slice());
        append(&mut wire, h.name.as_slice());
        append(&mut wire, separator.as_slice());
        append(&mut wire, h.value.as_slice());
        proof {
            assert(all[i as int] == h@);
            lemma_joined_push(before, crlf(), header_line(h@));
            assert(lines_of(start_line@, all.take(i + 1)) =~= before.push(header_line(h@)));
            assert(wire@ =~= joined(before, crlf()) + crlf() + header_line(h@));
        }
        i += 1;
    }
    assert(all.take(i as int) == all);
    append(&mut wire, end_of_line.as_slice());
    append(&mut wire, end_of_line.as_slice());
    append(&mut wire, payload);
    assert(wire@ =~= head_block(start_line@, all) + blank_line() + payload@);
    wire
}

} // verus!
