//! Searching and rewriting byte strings.

use vstd::prelude::*;
use vstd::string::*;
use vstd::slice::*;

verus! {

/// The bytes of an ASCII text.
pub open spec fn text(s: &str) -> Seq<u8> {
    Seq::new(s@.len(), |i: int| s@[i] as u8)
}

/// `needle` stands in `hay` at index `at`.
pub open spec fn occurs_at(hay: Seq<u8>, needle: Seq<u8>, at: int) -> bool {
    &&& 0 <= at
    &&& at + needle.len() <= hay.len()
    &&& hay.subrange(at, at + needle.len()) == needle
}

/// `needle` stands somewhere in `hay`.
pub open spec fn contains(hay: Seq<u8>, needle: Seq<u8>) -> bool {
    exists|at: int| occurs_at(hay, needle, at)
}

/// `needle` stands in `hay` at `at` and nowhere before.
pub open spec fn is_first_occurrence(hay: Seq<u8>, needle: Seq<u8>, at: int) -> bool {
    &&& occurs_at(hay, needle, at)
    &&& forall|k: int| 0 <= k < at ==> !occurs_at(hay, needle, k)
}

/// The least index at which `needle` stands in `hay`.
pub open spec fn first_occurrence(hay: Seq<u8>, needle: Seq<u8>) -> Option<int> {
    if contains(hay, needle) {
        Some(choose|at: int| is_first_occurrence(hay, needle, at))
    } else {
        None
    }
}

/// `hay` begins with `prefix`.
pub open spec fn has_prefix(hay: Seq<u8>, prefix: Seq<u8>) -> bool {
    occurs_at(hay, prefix, 0)
}

/// A least index is the only one: whoever finds it has found `first_occurrence`.
pub proof fn lemma_first_occurrence_unique(hay: Seq<u8>, needle: Seq<u8>, at: int)
    requires
        is_first_occurrence(hay, needle, at),
    ensures
        first_occurrence(hay, needle) == Some(at),
{
    let chosen = choose|k: int| is_first_occurrence(hay, needle, k);
    assert(is_first_occurrence(hay, needle, chosen));
    if chosen < at {
        assert(!occurs_at(hay, needle, chosen));
    } else if at < chosen {
        assert(!occurs_at(hay, needle, at));
    }
}

/// Nothing before `start` matches, so a match at or after `start` has a least one.
proof fn lemma_least_from(hay: Seq<u8>, needle: Seq<u8>, start: int, witness: int)
    requires
        0 <= start <= witness,
        occurs_at(hay, needle, witness),
        forall|k: int| 0 <= k < start ==> !occurs_at(hay, needle, k),
    ensures
        exists|at: int| is_first_occurrence(hay, needle, at),
    decreases witness - start,
{
    if occurs_at(hay, needle, start) {
        assert(is_first_occurrence(hay, needle, start));
    } else {
        lemma_least_from(hay, needle, start + 1, witness);
    }
}

/// Where `needle` occurs at all, `first_occurrence` names its least index.
pub proof fn lemma_first_occurrence_exists(hay: Seq<u8>, needle: Seq<u8>)
    requires
        contains(hay, needle),
    ensures
        first_occurrence(hay, needle) is Some,
        is_first_occurrence(hay, needle, first_occurrence(hay, needle)->0),
{
    let witness = choose|at: int| occurs_at(hay, needle, at);
    lemma_least_from(hay, needle, 0, witness);
}

/// Appends `src` to `dst`.
pub fn append(dst: &mut Vec<u8>, src: &[u8])
    ensures
        final(dst)@ == old(dst)@ + src@,
{
    dst.extend_from_slice(src);
    assert(dst@ =~= old(dst)@ + src@);
}

/// The bytes of a text in UTF-8: for an ASCII text, one byte for each character.
pub fn ascii(s: &str) -> (b: &[u8])
    ensures
        b@ == s.spec_bytes(),
        is_ascii(s) ==> b@ == text(s),
{
    proof {
        is_ascii_spec_bytes(s);
    }
    s.as_bytes()
}

/// Whether two byte strings are equal.
pub fn same_bytes(a: &[u8], b: &[u8]) -> (r: bool)
    ensures
        r == (a@ == b@),
{
    if a.len() != b.len() {
        return false;
    }
    let mut i: usize = 0;
    while i < a.len()
        invariant
            i <= a.len(),
            a.len() == b.len(),
            forall|k: int| 0 <= k < i ==> a@[k] == b@[k],
        decreases a.len() - i,
    {
        if a[i] != b[i] {
            return false;
        }
        i += 1;
    }
    assert(a@ =~= b@);
    true
}

/// Whether `needle` stands in `hay` at index `at`.
pub fn matches_at(hay: &[u8], needle: &[u8], at: usize) -> (r: bool)
    ensures
        r == occurs_at(hay@, needle@, at as int),
{
    if needle.len() > hay.len() || at > hay.len() - needle.len() {
        return false;
    }
    let window = slice_subrange(hay, at, at + needle.len());
    same_bytes(window, needle)
}

/// Whether `hay` begins with `prefix`.
pub fn starts_with(hay: &[u8], prefix: &[u8]) -> (r: bool)
    ensures
        r == has_prefix(hay@, prefix@),
{
    matches_at(hay, prefix, 0)
}

/// The least index at which `needle` stands in `hay`, if it stands anywhere.
pub fn find(hay: &[u8], needle: &[u8]) -> (r: Option<usize>)
    ensures
        match r {
            Some(at) => first_occurrence(hay@, needle@) == Some(at as int),
            None => first_occurrence(hay@, needle@) is None,
        },
{
    if needle.len() > hay.len() {
        return None;
    }
    let last: usize = hay.len() - needle.len();
    let mut at: usize = 0;
    loop
        invariant
            last == hay.len() - needle.len(),
            at <= last,
            forall|k: int| 0 <= k < at ==> !occurs_at(hay@, needle@, k),
        decreases last - at,
    {
        if matches_at(hay, needle, at) {
            proof {
                lemma_first_occurrence_unique(hay@, needle@, at as int);
            }
            return Some(at);
        }
        if at == last {
            return None;
        }
        at += 1;
    }
}

/// `hay` with every occurrence of `pat` replaced by `rep`, scanning from the
/// left and resuming behind each occurrence. An empty `pat` replaces nothing.
pub open spec fn replaced(hay: Seq<u8>, pat: Seq<u8>, rep: Seq<u8>) -> Seq<u8>
    decreases hay.len(),
{
    match first_occurrence(hay, pat) {
        Some(at) if pat.len() > 0 && 0 <= at && at + pat.len() <= hay.len() => hay.take(at) + rep
            + replaced(hay.skip(at + pat.len()), pat, rep),
        _ => hay,
    }
}

/// The parts of `s` between the occurrences of `sep`, scanning from the left.
/// There is always at least one part; an empty `sep` splits nothing.
pub open spec fn pieces(s: Seq<u8>, sep: Seq<u8>) -> Seq<Seq<u8>>
    decreases s.len(),
{
    match first_occurrence(s, sep) {
        Some(at) if sep.len() > 0 && 0 <= at && at + sep.len() <= s.len() => seq![s.take(at)]
            + pieces(s.skip(at + sep.len()), sep),
        _ => seq![s],
    }
}

/// The parts put together again, with `sep` between neighbours.
pub open spec fn joined(parts: Seq<Seq<u8>>, sep: Seq<u8>) -> Seq<u8>
    decreases parts.len(),
{
    if parts.len() == 0 {
        Seq::empty()
    } else if parts.len() == 1 {
        parts[0]
    } else {
        parts[0] + sep + joined(parts.skip(1), sep)
    }
}

/// The contents of a list of byte strings.
pub open spec fn views(list: Seq<Vec<u8>>) -> Seq<Seq<u8>> {
    list.map_values(|item: Vec<u8>| item@)
}

/// Space or horizontal tab.
pub open spec fn is_blank(b: u8) -> bool {
    b == 0x20 || b == 0x09
}

/// `s` without the blanks at its start.
pub open spec fn trimmed_start(s: Seq<u8>) -> Seq<u8>
    decreases s.len(),
{
    if s.len() > 0 && is_blank(s[0]) {
        trimmed_start(s.skip(1))
    } else {
        s
    }
}

/// `s` without the blanks at its end.
pub open spec fn trimmed_end(s: Seq<u8>) -> Seq<u8>
    decreases s.len(),
{
    if s.len() > 0 && is_blank(s.last()) {
        trimmed_end(s.drop_last())
    } else {
        s
    }
}

/// `s` without the blanks at either end.
pub open spec fn trimmed(s: Seq<u8>) -> Seq<u8> {
    trimmed_end(trimmed_start(s))
}

/// An ASCII letter in lower case; any other byte as it is.
pub open spec fn lower(b: u8) -> u8 {
    if 0x41 <= b <= 0x5a {
        (b + 0x20) as u8
    } else {
        b
    }
}

/// Equal but for the case of ASCII letters.
pub open spec fn same_ignoring_case(a: Seq<u8>, b: Seq<u8>) -> bool {
    &&& a.len() == b.len()
    &&& forall|i: int| 0 <= i < a.len() ==> lower(a[i]) == lower(b[i])
}

/// The least index at or after `from` at which `needle` stands in `hay`;
/// `None` where `from` lies behind the end of `hay`.
pub fn find_from(hay: &[u8], needle: &[u8], from: usize) -> (r: Option<usize>)
    ensures
        from > hay@.len() ==> r is None,
        from <= hay@.len() ==> match r {
            Some(at) => from <= at && first_occurrence(hay@.skip(from as int), needle@) == Some(
                at - from,
            ),
            None => first_occurrence(hay@.skip(from as int), needle@) is None,
        },
{
    if from > hay.len() {
        return None;
    }
    let rest = slice_subrange(hay, from, hay.len());
    assert(rest@ == hay@.skip(from as int));
    match find(rest, needle) {
        Some(at) => {
            proof {
                lemma_first_occurrence_exists(rest@, needle@);
            }
            Some(at + from)
        },
        None => None,
    }
}

/// Whether `needle` stands somewhere in `hay`.
pub fn includes(hay: &[u8], needle: &[u8]) -> (r: bool)
    ensures
        r == contains(hay@, needle@),
{
    find(hay, needle).is_some()
}

/// Replaces every occurrence of `pat` in `hay` by `rep`.
pub fn replace_all(hay: &[u8], pat: &[u8], rep: &[u8]) -> (out: Vec<u8>)
    ensures
        out@ == replaced(hay@, pat@, rep@),
{
    let mut out: Vec<u8> = Vec::new();
    if pat.len() == 0 {
        append(&mut out, hay);
        return out;
    }
    let mut pos: usize = 0;
    let end: usize = hay.len();
    assert(hay@.skip(0) == hay@);
    loop
        invariant
            pat@.len() > 0,
            end == hay@.len(),
            pos <= end,
            replaced(hay@, pat@, rep@) == out@ + replaced(hay@.skip(pos as int), pat@, rep@),
        decreases hay@.len() - pos,
    {
        let ghost rest = hay@.skip(pos as int);
        match find_from(hay, pat, pos) {
            Some(at) => {
                proof {
                    lemma_first_occurrence_exists(rest, pat@);
                    assert(occurs_at(rest, pat@, at - pos));
                    assert(rest.take(at - pos) == hay@.subrange(pos as int, at as int));
                    assert(rest.skip(at - pos + pat@.len()) == hay@.skip(at + pat@.len()));
                }
                append(&mut out, slice_subrange(hay, pos, at));
                append(&mut out, rep);
                pos = at + pat.len();
            },
            None => {
                append(&mut out, slice_subrange(hay, pos, end));
                assert(hay@.subrange(pos as int, hay@.len() as int) == rest);
                return out;
            },
        }
    }
}

/// Splits `hay` at every occurrence of `sep`.
pub fn split(hay: &[u8], sep: &[u8]) -> (out: Vec<Vec<u8>>)
    ensures
        views(out@) == pieces(hay@, sep@),
{
    let mut out: Vec<Vec<u8>> = Vec::new();
    if sep.len() == 0 {
        out.push(slice_to_vec(hay));
        assert(views(out@) == seq![hay@]);
        return out;
    }
    let mut pos: usize = 0;
    assert(hay@.skip(0) == hay@);
    assert(views(out@) == Seq::<Seq<u8>>::empty());
    let end: usize = hay.len();
    loop
        invariant
            sep@.len() > 0,
            end == hay@.len(),
            pos <= end,
            pieces(hay@, sep@) == views(out@) + pieces(hay@.skip(pos as int), sep@),
        decreases hay@.len() - pos,
    {
        let ghost rest = hay@.skip(pos as int);
        let ghost before = out@;
        match find_from(hay, sep, pos) {
            Some(at) => {
                proof {
                    lemma_first_occurrence_exists(rest, sep@);
                    assert(occurs_at(rest, sep@, at - pos));
                    assert(rest.take(at - pos) == hay@.subrange(pos as int, at as int));
                    assert(rest.skip(at - pos + sep@.len()) == hay@.skip(at + sep@.len()));
                }
                out.push(slice_to_vec(slice_subrange(hay, pos, at)));
                assert(views(out@) == views(before) + seq![rest.take(at - pos)]);
                pos = at + sep.len();
            },
            None => {
                out.push(slice_to_vec(slice_subrange(hay, pos, end)));
                assert(hay@.subrange(pos as int, hay@.len() as int) == rest);
                assert(views(out@) == views(before) + seq![rest]);
                return out;
            },
        }
    }
}

/// The part of `s` that is left when the blanks at both ends are dropped.
pub fn trim(s: &[u8]) -> (out: &[u8])
    ensures
        out@ == trimmed(s@),
{
    let mut start: usize = 0;
    assert(s@.skip(0) == s@);
    while start < s.len() && (s[start] == 0x20 || s[start] == 0x09)
        invariant
            start <= s@.len(),
            trimmed_start(s@) == trimmed_start(s@.skip(start as int)),
        decreases s@.len() - start,
    {
        assert(s@.skip(start as int).skip(1) == s@.skip(start + 1));
        start += 1;
    }
    let mut end: usize = s.len();
    let ghost kept = s@.skip(start as int);
    assert(trimmed_start(s@) == kept);
    while end > start && (s[end - 1] == 0x20 || s[end - 1] == 0x09)
        invariant
            start <= end <= s@.len(),
            trimmed_end(kept) == trimmed_end(s@.subrange(start as int, end as int)),
        decreases end - start,
    {
        assert(s@.subrange(start as int, end as int).drop_last() == s@.subrange(
            start as int,
            end - 1,
        ));
        end -= 1;
    }
    slice_subrange(s, start, end)
}

/// An ASCII letter in lower case; any other byte as it is.
pub fn to_lower(b: u8) -> (r: u8)
    ensures
        r == lower(b),
{
    if 0x41 <= b && b <= 0x5a {
        b + 0x20
    } else {
        b
    }
}

/// Whether two byte strings are equal but for the case of ASCII letters.
pub fn eq_ignoring_case(a: &[u8], b: &[u8]) -> (r: bool)
    ensures
        r == same_ignoring_case(a@, b@),
{
    if a.len() != b.len() {
        return false;
    }
    let mut i: usize = 0;
    while i < a.len()
        invariant
            i <= a.len(),
            a.len() == b.len(),
            forall|k: int| 0 <= k < i ==> lower(a@[k]) == lower(b@[k]),
        decreases a.len() - i,
    {
        if to_lower(a[i]) != to_lower(b[i]) {
            return false;
        }
        i += 1;
    }
    true
}

/// No byte of `s` is `b`.
pub open spec fn free_of(s: Seq<u8>, b: u8) -> bool {
    forall|k: int| 0 <= k < s.len() ==> s[k] != b
}

/// An occurrence, byte by byte.
pub proof fn lemma_occurs_at_bytes(hay: Seq<u8>, needle: Seq<u8>, at: int)
    ensures
        occurs_at(hay, needle, at) <==> (0 <= at && at + needle.len() <= hay.len() && forall|
            j: int,
        | 0 <= j < needle.len() ==> hay[at + j] == needle[j]),
{
    if 0 <= at && at + needle.len() <= hay.len() {
        let window = hay.subrange(at, at + needle.len());
        if window == needle {
            assert forall|j: int| 0 <= j < needle.len() implies hay[at + j] == needle[j] by {
                assert(window[j] == hay[at + j]);
            }
        }
        if forall|j: int| 0 <= j < needle.len() ==> hay[at + j] == needle[j] {
            assert(window =~= needle);
        }
    }
}

/// A needle cannot stand where its first byte does not.
pub proof fn lemma_first_byte(hay: Seq<u8>, needle: Seq<u8>, at: int)
    requires
        needle.len() > 0,
        occurs_at(hay, needle, at),
    ensures
        0 <= at < hay.len(),
        hay[at] == needle[0],
{
    lemma_occurs_at_bytes(hay, needle, at);
}

/// There is always a first piece.
pub proof fn lemma_pieces_nonempty(s: Seq<u8>, sep: Seq<u8>)
    ensures
        pieces(s, sep).len() >= 1,
{
}

/// A needle does not occur in a string that lacks its first byte.
pub proof fn lemma_absent(hay: Seq<u8>, needle: Seq<u8>)
    requires
        needle.len() > 0,
        free_of(hay, needle[0]),
    ensures
        !contains(hay, needle),
        first_occurrence(hay, needle) is None,
        pieces(hay, needle) == seq![hay],
{
    assert forall|at: int| !occurs_at(hay, needle, at) by {
        if occurs_at(hay, needle, at) {
            lemma_first_byte(hay, needle, at);
        }
    }
}

/// Behind a prefix that lacks the needle's first byte, the needle is found
/// first where it stands right behind the prefix.
pub proof fn lemma_first_behind_prefix(prefix: Seq<u8>, needle: Seq<u8>, rest: Seq<u8>)
    requires
        needle.len() > 0,
        free_of(prefix, needle[0]),
    ensures
        first_occurrence(prefix + needle + rest, needle) == Some(prefix.len() as int),
{
    let hay = prefix + needle + rest;
    let at = prefix.len() as int;
    lemma_occurs_at_bytes(hay, needle, at);
    assert forall|k: int| 0 <= k < at implies !occurs_at(hay, needle, k) by {
        if occurs_at(hay, needle, k) {
            lemma_first_byte(hay, needle, k);
            assert(hay[k] == prefix[k]);
        }
    }
    lemma_first_occurrence_unique(hay, needle, at);
}

/// Splitting undoes joining, where no part holds the first byte of the separator.
pub proof fn lemma_pieces_of_joined(parts: Seq<Seq<u8>>, sep: Seq<u8>)
    requires
        parts.len() > 0,
        sep.len() > 0,
        forall|i: int| 0 <= i < parts.len() ==> free_of(#[trigger] parts[i], sep[0]),
    ensures
        pieces(joined(parts, sep), sep) == parts,
    decreases parts.len(),
{
    if parts.len() == 1 {
        lemma_absent(parts[0], sep);
        assert(pieces(joined(parts, sep), sep) =~= parts);
    } else {
        let tail = parts.skip(1);
        let rest = joined(tail, sep);
        let whole = joined(parts, sep);
        assert forall|i: int| 0 <= i < tail.len() implies free_of(#[trigger] tail[i], sep[0]) by {
            assert(tail[i] == parts[i + 1]);
        }
        lemma_pieces_of_joined(tail, sep);
        lemma_first_behind_prefix(parts[0], sep, rest);
        assert(whole == parts[0] + sep + rest);
        assert(whole.take(parts[0].len() as int) =~= parts[0]);
        assert(whole.skip((parts[0].len() + sep.len()) as int) =~= rest);
        assert(pieces(whole, sep) =~= seq![parts[0]] + pieces(rest, sep));
        assert(seq![parts[0]] + tail =~= parts);
    }
}

/// Joining one part more.
pub proof fn lemma_joined_push(parts: Seq<Seq<u8>>, sep: Seq<u8>, last: Seq<u8>)
    ensures
        joined(parts.push(last), sep) == if parts.len() == 0 {
            last
        } else {
            joined(parts, sep) + sep + last
        },
    decreases parts.len(),
{
    let more = parts.push(last);
    if parts.len() == 0 {
    } else if parts.len() == 1 {
        assert(more.skip(1) =~= seq![last]);
        assert(joined(more.skip(1), sep) == last);
    } else {
        lemma_joined_push(parts.skip(1), sep, last);
        assert(more.skip(1) =~= parts.skip(1).push(last));
        assert(joined(more, sep) =~= joined(parts, sep) + sep + last);
    }
}

/// A printing ASCII character other than the blank.
pub open spec fn is_visible(b: u8) -> bool {
    0x21 <= b <= 0x7e
}

/// Every byte is a printing ASCII character other than the blank.
pub open spec fn all_visible(s: Seq<u8>) -> bool {
    forall|k: int| 0 <= k < s.len() ==> is_visible(#[trigger] s[k])
}

/// Whether every byte is a printing ASCII character other than the blank.
pub fn is_all_visible(s: &[u8]) -> (r: bool)
    ensures
        r == all_visible(s@),
{
    let mut i: usize = 0;
    while i < s.len()
        invariant
            i <= s@.len(),
            forall|k: int| 0 <= k < i ==> is_visible(#[trigger] s@[k]),
        decreases s@.len() - i,
    {
        if s[i] < 0x21 || s[i] > 0x7e {
            assert(!is_visible(s@[i as int]));
            return false;
        }
        i += 1;
    }
    true
}

/// How often `pat` stands in `hay`, counting from the left and resuming
/// behind each occurrence, so that occurrences that are counted do not
/// overlap. These are the occurrences that `replaced` replaces.
pub open spec fn occurrences(hay: Seq<u8>, pat: Seq<u8>) -> nat
    decreases hay.len(),
{
    match first_occurrence(hay, pat) {
        Some(at) if pat.len() > 0 && 0 <= at && at + pat.len() <= hay.len() => 1 + occurrences(
            hay.skip(at + pat.len()),
            pat,
        ),
        _ => 0,
    }
}

/// No byte of `a` is a byte of `b`.
pub open spec fn share_no_byte(a: Seq<u8>, b: Seq<u8>) -> bool {
    forall|i: int, j: int| 0 <= i < a.len() && 0 <= j < b.len() ==> a[i] != b[j]
}

/// Replacing trades the length of the pattern for the length of the
/// replacement, once for each occurrence.
pub proof fn lemma_replaced_len(hay: Seq<u8>, pat: Seq<u8>, rep: Seq<u8>)
    ensures
        replaced(hay, pat, rep).len() + occurrences(hay, pat) * pat.len() == hay.len()
            + occurrences(hay, pat) * rep.len(),
    decreases hay.len(),
{
    let count = occurrences(hay, pat);
    let n = pat.len();
    let m = rep.len();
    match first_occurrence(hay, pat) {
        Some(at) if pat.len() > 0 && 0 <= at && at + pat.len() <= hay.len() => {
            let rest = hay.skip(at + pat.len());
            let k = occurrences(rest, pat);
            lemma_replaced_len(rest, pat, rep);
            assert(count == 1 + k);
            assert(replaced(hay, pat, rep) == hay.take(at) + rep + replaced(rest, pat, rep));
            assert(replaced(hay, pat, rep).len() == at + m + replaced(rest, pat, rep).len());
            assert(rest.len() == hay.len() - at - n);
            assert(count * n == n + k * n) by (nonlinear_arith)
                requires
                    count == 1 + k,
            ;
            assert(count * m == m + k * m) by (nonlinear_arith)
                requires
                    count == 1 + k,
            ;
        },
        _ => {
            assert(count == 0);
            assert(replaced(hay, pat, rep) == hay);
            assert(count * n == 0) by (nonlinear_arith)
                requires
                    count == 0,
            ;
            assert(count * m == 0) by (nonlinear_arith)
                requires
                    count == 0,
            ;
        },
    }
}

/// Where the replacement shares no byte with the pattern, nothing of the
/// pattern is left after replacing.
pub proof fn lemma_replaced_lacks_pattern(hay: Seq<u8>, pat: Seq<u8>, rep: Seq<u8>)
    requires
        rep.len() > 0,
        share_no_byte(rep, pat),
    ensures
        pat.len() > 0 ==> !contains(replaced(hay, pat, rep), pat),
    decreases hay.len(),
{
    if pat.len() == 0 {
        return ;
    }
    if !contains(hay, pat) {
        return ;
    }
    lemma_first_occurrence_exists(hay, pat);
    let at = first_occurrence(hay, pat)->0;
    let n = pat.len() as int;
    let before = hay.take(at);
    let rest = hay.skip(at + n);
    let behind = replaced(rest, pat, rep);
    let whole = replaced(hay, pat, rep);
    lemma_replaced_lacks_pattern(rest, pat, rep);
    assert(whole == before + rep + behind);
    assert forall|k: int| !occurs_at(whole, pat, k) by {
        if occurs_at(whole, pat, k) {
            lemma_occurs_at_bytes(whole, pat, k);
            if k + n <= at {
                lemma_occurs_at_bytes(hay, pat, k);
                assert forall|j: int| 0 <= j < n implies hay[k + j] == pat[j] by {
                    assert(whole[k + j] == before[k + j]);
                }
                assert(occurs_at(hay, pat, k));
            } else if k >= at + rep.len() {
                let shift = at + rep.len();
                lemma_occurs_at_bytes(behind, pat, k - shift);
                assert forall|j: int| 0 <= j < n implies behind[k - shift + j] == pat[j] by {
                    assert(whole[k + j] == behind[k - shift + j]);
                }
                assert(occurs_at(behind, pat, k - shift));
            } else {
                let j = if k < at {
                    at - k
                } else {
                    0
                };
                assert(whole[k + j] == rep[k + j - at]);
                assert(whole[k + j] == pat[j]);
            }
        }
    }
}

/// Putting three byte strings together gives the same, whichever two are
/// joined first; and nothing put behind a byte string leaves it as it is.
pub proof fn lemma_concatenation(a: Seq<u8>, b: Seq<u8>, c: Seq<u8>)
    ensures
        a + b + c == a + (b + c),
        a + Seq::<u8>::empty() == a,
{
    assert(a + b + c =~= a + (b + c));
    assert(a + Seq::<u8>::empty() =~= a);
}

} // verus!
