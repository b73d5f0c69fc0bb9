//! The `media://` protocol the user interface loads media files through.
//!
//! A request names a file by its percent-encoded path; the answer is the whole
//! file, or the byte range a `Range: bytes=START-END` header asks for (video
//! seeking). The application opens and reads the file; this module works out
//! the path and the response.

use vstd::prelude::*;
use crate::text::{chars_of, string_of, concat, concat3, decimal, decimal_string, digit_char, owned};

verus! {

/// `s` starts with `p`.
pub open spec fn has_prefix(s: Seq<char>, p: Seq<char>) -> bool {
    p.len() <= s.len() && s.take(p.len() as int) == p
}

/// `s` without the prefix `p`, if it has it (`str::strip_prefix`).
pub fn strip_prefix(s: &str, p: &str) -> (res: Option<String>)
    ensures
        match res {
            Some(r) => has_prefix(s@, p@) && r@ == s@.skip(p@.len() as int),
            None => !has_prefix(s@, p@),
        },
{
    let sc = chars_of(s);
    let pc = chars_of(p);
    if pc.len() > sc.len() {
        return None;
    }
    let mut i: usize = 0;
    while i < pc.len()
        invariant
            sc@ == s@,
            pc@ == p@,
            pc.len() <= sc.len(),
            i <= pc.len(),
            forall|j: int| 0 <= j < i ==> sc@[j] == pc@[j],
        decreases pc.len() - i,
    {
        if sc[i] != pc[i] {
            assert(s@.take(p@.len() as int)[i as int] != p@[i as int]);
            return None;
        }
        i += 1;
    }
    assert(s@.take(p@.len() as int) =~= p@);
    let mut rest: Vec<char> = Vec::new();
    let mut k = pc.len();
    while k < sc.len()
        invariant
            pc.len() <= k <= sc.len(),
            rest@ == sc@.subrange(pc.len() as int, k as int),
        decreases sc.len() - k,
    {
        rest.push(sc[k]);
        k += 1;
        assert(rest@ =~= sc@.subrange(pc.len() as int, k as int));
    }
    assert(sc@.subrange(pc.len() as int, sc.len() as int) =~= s@.skip(p@.len() as int));
    Some(string_of(&rest))
}

/// What percent-decoding a text (and reading the bytes as UTF-8, replacing
/// invalid sequences) gives.
pub uninterp spec fn percent_decoded(s: Seq<char>) -> Seq<char>;

/// `percent_encoding::percent_decode_str(s).decode_utf8_lossy()`: every `%`
/// followed by two hex digits becomes that byte. A text without `%` comes
/// back as it is.
#[verifier::external_body]
fn percent_decode(s: &str) -> (res: String)
    ensures
        res@ == percent_decoded(s@),
        !s@.contains('%') ==> res@ == s@,
{
    percent_encoding::percent_decode_str(s).decode_utf8_lossy().to_string()
}

/// The path part of a request URI: what follows `media://localhost` (or
/// `http://media.localhost`, the form some platforms use); empty otherwise.
pub open spec fn request_path_part(uri: Seq<char>) -> Seq<char> {
    if has_prefix(uri, "media://localhost"@) {
        uri.skip(("media://localhost"@).len() as int)
    } else if has_prefix(uri, "http://media.localhost"@) {
        uri.skip(("http://media.localhost"@).len() as int)
    } else {
        Seq::empty()
    }
}

/// The file path a `media://` request names, percent-decoded.
pub fn media_request_path(uri: &str) -> (res: String)
    ensures
        res@ == percent_decoded(request_path_part(uri@)),
        !request_path_part(uri@).contains('%') ==> res@ == request_path_part(uri@),
{
    let part = match strip_prefix(uri, "media://localhost") {
        Some(p) => p,
        None => match strip_prefix(uri, "http://media.localhost") {
            Some(p) => p,
            None => String::new(),
        },
    };
    assert(part@ == request_path_part(uri@));
    percent_decode(part.as_str())
}

// ---------------------------------------------------------------------------
// Numbers
// ---------------------------------------------------------------------------

pub open spec fn is_digit(c: char) -> bool {
    ('0' as int) <= (c as int) <= ('9' as int)
}

/// The value of a string of decimal digits.
pub open spec fn digits_value(s: Seq<char>) -> nat
    decreases s.len(),
{
    if s.len() == 0 {
        0
    } else {
        digits_value(s.drop_last()) * 10 + ((s.last() as int) - ('0' as int)) as nat
    }
}

/// A number's text without its leading `+`, if it has one.
pub open spec fn unsigned_digits(s: Seq<char>) -> Seq<char> {
    if s.len() > 0 && s[0] == '+' { s.drop_first() } else { s }
}

/// What `str::parse::<u64>` accepts: an optional `+`, then one or more
/// decimal digits, with a value that fits in 64 bits.
pub open spec fn parsed_u64(s: Seq<char>) -> Option<u64> {
    let body = unsigned_digits(s);
    if body.len() > 0 && (forall|i: int| 0 <= i < body.len() ==> is_digit(#[trigger] body[i]))
        && digits_value(body) <= u64::MAX {
        Some(digits_value(body) as u64)
    } else {
        None
    }
}

proof fn lemma_digits_value_grows(s: Seq<char>, c: char)
    requires
        is_digit(c),
    ensures
        digits_value(s.push(c)) >= digits_value(s),
        digits_value(s.push(c)) == digits_value(s) * 10 + ((c as int) - ('0' as int)),
{
    assert(s.push(c).drop_last() =~= s);
}

/// A decimal number (`str::parse::<u64>`).
pub fn parse_u64(s: &str) -> (res: Option<u64>)
    ensures
        res == parsed_u64(s@),
{
    let cs = chars_of(s);
    let start: usize = if cs.len() > 0 && cs[0] == '+' { 1 } else { 0 };
    let ghost body = unsigned_digits(s@);
    assert(body =~= cs@.subrange(start as int, cs.len() as int));
    if start >= cs.len() {
        return None;
    }
    let mut i = start;
    while i < cs.len()
        invariant
            start <= i <= cs.len(),
            cs@ == s@,
            body == unsigned_digits(s@),
            body == cs@.subrange(start as int, cs.len() as int),
            forall|j: int| start <= j < i ==> is_digit(#[trigger] cs@[j]),
        decreases cs.len() - i,
    {
        let c = cs[i];
        if !('0' <= c && c <= '9') {
            assert(body[i - start] == c);
            assert(!is_digit(body[i - start]));
            return None;
        }
        i += 1;
    }
    assert forall|j: int| 0 <= j < body.len() implies is_digit(#[trigger] body[j]) by {
        assert(body[j] == cs@[start + j]);
    }
    let mut value: u64 = 0;
    let mut i = start;
    assert(body.take(0) =~= Seq::<char>::empty());
    while i < cs.len()
        invariant
            start <= i <= cs.len(),
            cs@ == s@,
            body == unsigned_digits(s@),
            body == cs@.subrange(start as int, cs.len() as int),
            forall|j: int| 0 <= j < body.len() ==> is_digit(#[trigger] body[j]),
            value as nat == digits_value(body.take(i - start)),
        decreases cs.len() - i,
    {
        let c = cs[i];
        assert(body[i - start] == c);
        assert(is_digit(body[i - start]));
        let d = (c as u32 - '0' as u32) as u64;
        let ghost prefix = body.take(i - start);
        assert(body.take(i - start + 1) =~= prefix.push(c));
        proof {
            lemma_digits_value_grows(prefix, c);
        }
        if value > (u64::MAX - d) / 10 {
            proof {
                lemma_prefix_bound(body, i - start + 1);
                assert(value * 10 + d > u64::MAX) by (nonlinear_arith)
                    requires
                        value > (u64::MAX - d) / 10,
                        d <= 9,
                ;
            }
            return None;
        }
        assert(value * 10 + d <= u64::MAX) by (nonlinear_arith)
            requires
                value <= (u64::MAX - d) / 10,
                d <= 9,
        ;
        value = value * 10 + d;
        i += 1;
    }
    assert(body.take(body.len() as int) =~= body);
    Some(value)
}

/// Once a digit string's prefix is too large, so is the whole string.
proof fn lemma_prefix_bound(s: Seq<char>, k: int)
    requires
        0 <= k <= s.len(),
        forall|i: int| 0 <= i < s.len() ==> is_digit(#[trigger] s[i]),
    ensures
        digits_value(s) >= digits_value(s.take(k)),
    decreases s.len(),
{
    if k < s.len() {
        let d = s.drop_last();
        assert forall|i: int| 0 <= i < d.len() implies is_digit(#[trigger] d[i]) by {
            assert(d[i] == s[i]);
        }
        lemma_prefix_bound(d, k);
        assert(d.take(k) =~= s.take(k));
        assert(s =~= d.push(s.last()));
        lemma_digits_value_grows(d, s.last());
    } else {
        assert(s.take(k) =~= s);
    }
}

// ---------------------------------------------------------------------------
// Byte ranges
// ---------------------------------------------------------------------------

/// The index of the first `c` in `s` at or after `from`; `s.len()` if none.
pub open spec fn first_index_from(s: Seq<char>, c: char, from: int) -> int
    decreases s.len() - from,
{
    if from < 0 || from >= s.len() {
        s.len() as int
    } else if s[from] == c {
        from
    } else {
        first_index_from(s, c, from + 1)
    }
}

proof fn lemma_first_index_bounds(s: Seq<char>, c: char, from: int)
    requires
        0 <= from,
    ensures
        from <= first_index_from(s, c, from) || from > s.len(),
        first_index_from(s, c, from) <= s.len(),
    decreases s.len() - from,
{
    if from < s.len() && s[from] != c {
        lemma_first_index_bounds(s, c, from + 1);
    }
}

/// The index of the first `c` in `cs` at or after `from`, or `cs.len()`.
fn find_char_from(cs: &Vec<char>, c: char, from: usize) -> (res: usize)
    requires
        from <= cs.len(),
    ensures
        res == first_index_from(cs@, c, from as int),
        from <= res <= cs.len(),
{
    let mut i = from;
    while i < cs.len()
        invariant
            from <= i <= cs.len(),
            first_index_from(cs@, c, i as int) == first_index_from(cs@, c, from as int),
        decreases cs.len() - i,
    {
        if cs[i] == c {
            return i;
        }
        i += 1;
    }
    i
}

/// The characters of `cs` from `lo` up to `hi`.
fn slice_string(cs: &Vec<char>, lo: usize, hi: usize) -> (res: String)
    requires
        lo <= hi <= cs.len(),
    ensures
        res@ == cs@.subrange(lo as int, hi as int),
{
    let mut part: Vec<char> = Vec::new();
    let mut k = lo;
    while k < hi
        invariant
            lo <= k <= hi <= cs.len(),
            part@ == cs@.subrange(lo as int, k as int),
        decreases hi - k,
    {
        part.push(cs[k]);
        k += 1;
        assert(part@ =~= cs@.subrange(lo as int, k as int));
    }
    string_of(&part)
}

/// A `Range` header's value without its `bytes=` unit, if it has one.
pub open spec fn range_spec_text(range: Seq<char>) -> Seq<char> {
    if has_prefix(range, "bytes="@) {
        range.skip(("bytes="@).len() as int)
    } else {
        range
    }
}

/// The text before the first `-` of a range.
pub open spec fn range_first_field(r: Seq<char>) -> Seq<char> {
    r.take(first_index_from(r, '-', 0))
}

/// The text between the first and the second `-` of a range, if it has a `-`.
pub open spec fn range_second_field(r: Seq<char>) -> Option<Seq<char>> {
    let k = first_index_from(r, '-', 0);
    if k < r.len() {
        Some(r.subrange(k + 1, first_index_from(r, '-', k + 1)))
    } else {
        None
    }
}

/// The first byte a range asks for: its first field as a number, else 0.
pub open spec fn range_start(range: Seq<char>) -> u64 {
    match parsed_u64(range_first_field(range_spec_text(range))) {
        Some(v) => v,
        None => 0,
    }
}

/// The last byte a range asks for in a file of `size > 0` bytes: its second
/// field as a number, else the last byte; never past the last byte.
pub open spec fn range_end(range: Seq<char>, size: u64) -> u64 {
    let last = (size - 1) as u64;
    let asked = match range_second_field(range_spec_text(range)) {
        Some(t) => if t.len() == 0 {
            last
        } else {
            match parsed_u64(t) {
                Some(v) => v,
                None => last,
            }
        },
        None => last,
    };
    if asked < last { asked } else { last }
}

/// What a request for a file of `size` bytes is answered with.
#[derive(Debug, Clone, Copy, PartialEq, Eq, Structural)]
pub enum RangeAnswer {
    /// No `Range` header: the whole file, status 200.
    Whole,
    /// A range of an empty file: status 416, nothing sent.
    NotSatisfiable,
    /// The bytes `start..=end`, status 206.
    Partial { start: u64, end: u64 },
}

impl RangeAnswer {
    /// The HTTP status of the answer.
    pub fn status(&self) -> (res: u16)
        ensures
            res == match *self {
                RangeAnswer::Whole => 200u16,
                RangeAnswer::NotSatisfiable => 416u16,
                RangeAnswer::Partial { .. } => 206u16,
            },
    {
        match self {
            RangeAnswer::Whole => 200,
            RangeAnswer::NotSatisfiable => 416,
            RangeAnswer::Partial { .. } => 206,
        }
    }
}

/// The answer to a request with the given `Range` header for a file of
/// `size` bytes; `None` where the range starts past its end, which the
/// protocol cannot answer.
pub open spec fn range_answer(range: Option<Seq<char>>, size: u64) -> Option<RangeAnswer> {
    match range {
        None => Some(RangeAnswer::Whole),
        Some(r) => if size == 0 {
            Some(RangeAnswer::NotSatisfiable)
        } else if range_start(r) <= range_end(r, size) {
            Some(RangeAnswer::Partial { start: range_start(r), end: range_end(r, size) })
        } else {
            None
        },
    }
}

/// Works out how to answer a request: `range` is the `Range` header's value,
/// if the request has one, and `size` the file's length in bytes.
pub fn plan_range(range: Option<&str>, size: u64) -> (res: Option<RangeAnswer>)
    ensures
        res == range_answer(
            match range {
                Some(r) => Some(r@),
                None => None,
            },
            size,
        ),
{
    let header = match range {
        None => return Some(RangeAnswer::Whole),
        Some(h) => h,
    };
    if size == 0 {
        return Some(RangeAnswer::NotSatisfiable);
    }
    let text = match strip_prefix(header, "bytes=") {
        Some(t) => t,
        None => owned(header),
    };
    let ghost r = range_spec_text(header@);
    assert(text@ == r);
    let cs = chars_of(text.as_str());
    let k0 = find_char_from(&cs, '-', 0);
    let first = slice_string(&cs, 0, k0);
    assert(first@ == range_first_field(r));
    let start: u64 = match parse_u64(first.as_str()) {
        Some(v) => v,
        None => 0,
    };
    let last = size - 1;
    let asked: u64 = if k0 < cs.len() {
        let k1 = find_char_from(&cs, '-', k0 + 1);
        let second = slice_string(&cs, k0 + 1, k1);
        assert(range_second_field(r) == Some(second@));
        if k1 == k0 + 1 {
            last
        } else {
            match parse_u64(second.as_str()) {
                Some(v) => v,
                None => last,
            }
        }
    } else {
        last
    };
    let end = if asked < last { asked } else { last };
    assert(start == range_start(header@));
    assert(end == range_end(header@, size));
    if start <= end {
        Some(RangeAnswer::Partial { start, end })
    } else {
        None
    }
}

/// Every range the protocol answers lies inside the file: it starts no later
/// than it ends, and ends before the file does.
pub proof fn law_partial_answer_within_file(range: Seq<char>, size: u64)
    ensures
        match range_answer(Some(range), size) {
            Some(RangeAnswer::Partial { start, end }) => start <= end && end < size,
            _ => true,
        },
{
}

/// A request without a `Range` header gets the whole file, whatever its size.
pub proof fn law_no_range_is_whole(size: u64)
    ensures
        range_answer(None, size) == Some(RangeAnswer::Whole),
{
}

/// The number of bytes a partial answer sends (its `end` is below the file's
/// size, so below `u64::MAX`).
pub fn partial_length(start: u64, end: u64) -> (res: u64)
    requires
        start <= end < u64::MAX,
    ensures
        res == end - start + 1,
{
    end - start + 1
}

/// The `Content-Range` header of a partial answer: `bytes START-END/SIZE`.
pub fn content_range(start: u64, end: u64, size: u64) -> (res: String)
    ensures
        res@ == "bytes "@ + decimal(start as nat) + "-"@ + decimal(end as nat) + "/"@
            + decimal(size as nat),
{
    let a = concat("bytes ", decimal_string(start).as_str());
    let b = concat3(a.as_str(), "-", decimal_string(end).as_str());
    concat3(b.as_str(), "/", decimal_string(size).as_str())
}

/// The `Content-Range` header of an answer to a range of a file that cannot
/// satisfy it: `bytes */SIZE`.
pub fn unsatisfied_content_range(size: u64) -> (res: String)
    ensures
        res@ == "bytes */"@ + decimal(size as nat),
{
    concat("bytes */", decimal_string(size).as_str())
}

/// The MIME type `mime_guess` gives a path.
pub uninterp spec fn guessed_mime(path: Seq<char>) -> Seq<char>;

/// `mime_guess::from_path(path).first_or_octet_stream().to_string()`: the
/// MIME type known for the path's extension, `application/octet-stream`
/// where there is none. A path without a `.` has no extension.
#[verifier::external_body]
fn mime_of_path(path: &str) -> (res: String)
    ensures
        res@ == guessed_mime(path@),
        !path@.contains('.') ==> res@ == "application/octet-stream"@,
{
    mime_guess::from_path(path).first_or_octet_stream().to_string()
}

/// The `Content-Type` a media file is served with.
pub fn media_content_type(path: &str) -> (res: String)
    ensures
        res@ == guessed_mime(path@),
        !path@.contains('.') ==> res@ == "application/octet-stream"@,
{
    mime_of_path(path)
}

// ---------------------------------------------------------------------------
// Numbers and ranges written the usual way
// ---------------------------------------------------------------------------

proof fn lemma_decimal_digits(n: nat)
    ensures
        decimal(n).len() > 0,
        forall|i: int| 0 <= i < decimal(n).len() ==> is_digit(#[trigger] decimal(n)[i]),
        digits_value(decimal(n)) == n,
    decreases n,
{
    if n >= 10 {
        lemma_decimal_digits(n / 10);
        let prev = decimal(n / 10);
        let c = digit_char(n % 10);
        assert(decimal(n) == prev.push(c));
        assert(is_digit(c));
        assert((c as int) - ('0' as int) == n % 10);
        lemma_digits_value_grows(prev, c);
        assert((n / 10) * 10 + n % 10 == n) by (nonlinear_arith);
        assert forall|i: int| 0 <= i < decimal(n).len() implies is_digit(#[trigger] decimal(n)[i]) by {
            if i < prev.len() {
                assert(decimal(n)[i] == prev[i]);
            }
        }
    } else {
        let c = digit_char(n);
        assert(decimal(n) == seq![c]);
        assert(seq![c].drop_last() =~= Seq::<char>::empty());
        assert((c as int) - ('0' as int) == n);
        assert(digits_value(seq![c]) == digits_value(Seq::<char>::empty()) * 10 + ((c as int) - ('0' as int)));
    }
}

/// Reading a number back from its decimal form gives the number.
pub proof fn law_parse_reads_decimal(n: u64)
    ensures
        parsed_u64(decimal(n as nat)) == Some(n),
{
    lemma_decimal_digits(n as nat);
    let d = decimal(n as nat);
    assert(is_digit(d[0]));
    assert(unsigned_digits(d) == d);
}

proof fn lemma_first_index_at(s: Seq<char>, c: char, from: int, i: int)
    requires
        0 <= from <= i <= s.len(),
        i < s.len() ==> s[i] == c,
        forall|j: int| from <= j < i ==> s[j] != c,
    ensures
        first_index_from(s, c, from) == i,
    decreases i - from,
{
    if from < i {
        lemma_first_index_at(s, c, from + 1, i);
    }
}

/// A `Range` header asking for bytes `start` to `end` (both written in
/// decimal) of a file that holds them is answered with exactly those bytes;
/// one asking for bytes from `start` on (`bytes=START-`) gets the rest of the
/// file.
pub proof fn law_range_request(start: u64, end: u64, size: u64)
    requires
        start <= end < size,
    ensures
        range_answer(Some("bytes="@ + decimal(start as nat) + "-"@ + decimal(end as nat)), size)
            == Some(RangeAnswer::Partial { start, end }),
        range_answer(Some("bytes="@ + decimal(start as nat) + "-"@), size) == Some(
            RangeAnswer::Partial { start, end: (size - 1) as u64 },
        ),
{
    reveal_strlit("bytes=");
    reveal_strlit("-");
    lemma_decimal_digits(start as nat);
    lemma_decimal_digits(end as nat);
    law_parse_reads_decimal(start);
    law_parse_reads_decimal(end);
    let a = decimal(start as nat);
    let b = decimal(end as nat);
    let p = "bytes="@;
    // Closed range.
    let h = p + a + "-"@ + b;
    let r = a + "-"@ + b;
    assert(h.take(p.len() as int) =~= p);
    assert(h.skip(p.len() as int) =~= r);
    assert(range_spec_text(h) == r);
    assert forall|j: int| 0 <= j < a.len() implies r[j] != '-' by {
        assert(r[j] == a[j]);
        assert(is_digit(a[j]));
    }
    assert(r[a.len() as int] == '-');
    lemma_first_index_at(r, '-', 0, a.len() as int);
    assert forall|j: int| a.len() + 1 <= j < r.len() implies r[j] != '-' by {
        assert(r[j] == b[j - a.len() - 1]);
        assert(is_digit(b[j - a.len() - 1]));
    }
    lemma_first_index_at(r, '-', a.len() as int + 1, r.len() as int);
    assert(r.take(a.len() as int) =~= a);
    assert(r.subrange(a.len() as int + 1, r.len() as int) =~= b);
    assert(range_first_field(r) == a);
    assert(range_second_field(r) == Some(b));
    assert(range_start(h) == start);
    assert(range_end(h, size) == end);
    // Open range.
    let h2 = p + a + "-"@;
    let r2 = a + "-"@;
    assert(h2.take(p.len() as int) =~= p);
    assert(h2.skip(p.len() as int) =~= r2);
    assert(range_spec_text(h2) == r2);
    assert forall|j: int| 0 <= j < a.len() implies r2[j] != '-' by {
        assert(r2[j] == a[j]);
        assert(is_digit(a[j]));
    }
    assert(r2[a.len() as int] == '-');
    lemma_first_index_at(r2, '-', 0, a.len() as int);
    lemma_first_index_at(r2, '-', a.len() as int + 1, r2.len() as int);
    assert(r2.take(a.len() as int) =~= a);
    assert(r2.subrange(a.len() as int + 1, r2.len() as int) =~= Seq::<char>::empty());
    assert(range_start(h2) == start);
    assert(range_end(h2, size) == size - 1);
}

} // verus!
