//! Character-level helpers on strings.

use vstd::prelude::*;

verus! {

/// Appends one character to a string (`String::push`).
#[verifier::external_body]
pub fn push_char(s: &mut String, c: char)
    ensures
        final(s)@ == old(s)@.push(c),
{
    s.push(c);
}

/// Whether two string slices hold the same characters (`str == str`).
#[verifier::external_body]
pub fn str_eq(a: &str, b: &str) -> (res: bool)
    ensures
        res == (a@ == b@),
{
    a == b
}

/// The characters of a string, in order.
pub fn chars_of(s: &str) -> (res: Vec<char>)
    ensures
        res@ == s@,
{
    let mut res: Vec<char> = Vec::new();
    for c in it: s.chars()
        invariant
            res@ == it.seq().take(it.index() as int),
    {
        res.push(c);
    }
    res
}

/// A string made of the given characters.
pub fn string_of(cs: &Vec<char>) -> (res: String)
    ensures
        res@ == cs@,
{
    let mut res = String::new();
    let mut i: usize = 0;
    while i < cs.len()
        invariant
            i <= cs.len(),
            res@ == cs@.take(i as int),
        decreases cs.len() - i,
    {
        push_char(&mut res, cs[i]);
        i += 1;
        assert(res@ =~= cs@.take(i as int));
    }
    assert(cs@.take(cs.len() as int) =~= cs@);
    res
}

/// An owned copy of a string slice.
pub fn owned(s: &str) -> (res: String)
    ensures
        res@ == s@,
{
    s.to_owned()
}

/// Appends an owned copy of `a` to a list of strings (a command line).
pub fn push_arg(args: &mut Vec<String>, a: &str)
    ensures
        final(args).deep_view() == old(args).deep_view().push(a@),
{
    args.push(owned(a));
}

/// `a` followed by `b`.
pub fn concat(a: &str, b: &str) -> (res: String)
    ensures
        res@ == a@ + b@,
{
    let mut res = a.to_owned();
    res.append(b);
    res
}

/// `a`, `b` and `c` one after another.
pub fn concat3(a: &str, b: &str, c: &str) -> (res: String)
    ensures
        res@ == a@ + b@ + c@,
{
    let mut res = a.to_owned();
    res.append(b);
    res.append(c);
    res
}

/// Whether `t` occurs in `s` at position `i`.
pub open spec fn occurs_at(s: Seq<char>, t: Seq<char>, i: int) -> bool {
    0 <= i && i + t.len() <= s.len() && s.subrange(i, i + t.len()) == t
}

/// Whether `t` occurs anywhere in `s`.
pub open spec fn has_substring(s: Seq<char>, t: Seq<char>) -> bool {
    exists|i: int| occurs_at(s, t, i)
}

fn matches_at(s: &Vec<char>, t: &Vec<char>, i: usize) -> (res: bool)
    requires
        i + t.len() <= s.len(),
    ensures
        res == occurs_at(s@, t@, i as int),
{
    let mut j: usize = 0;
    while j < t.len()
        invariant
            i + t.len() <= s.len(),
            j <= t.len(),
            forall|k: int| 0 <= k < j ==> s@[i + k] == t@[k],
        decreases t.len() - j,
    {
        if s[i + j] != t[j] {
            assert(s@.subrange(i as int, i + t.len())[j as int] != t@[j as int]);
            return false;
        }
        j += 1;
    }
    assert(s@.subrange(i as int, i + t.len()) =~= t@);
    true
}

/// Whether `t` occurs in `s` (`str::contains`).
pub fn contains_substring(s: &str, t: &str) -> (res: bool)
    ensures
        res == has_substring(s@, t@),
{
    let sc = chars_of(s);
    let tc = chars_of(t);
    if tc.len() > sc.len() {
        proof {
            assert forall|i: int| !occurs_at(s@, t@, i) by {}
        }
        return false;
    }
    let last = sc.len() - tc.len();
    let mut i: usize = 0;
    while i < last
        invariant
            last == sc.len() - tc.len(),
            tc.len() <= sc.len(),
            sc@ == s@,
            tc@ == t@,
            i <= last,
            forall|k: int| 0 <= k < i ==> !occurs_at(s@, t@, k),
        decreases last - i,
    {
        if matches_at(&sc, &tc, i) {
            return true;
        }
        i += 1;
    }
    if matches_at(&sc, &tc, last) {
        return true;
    }
    proof {
        assert forall|k: int| !occurs_at(s@, t@, k) by {
            if 0 <= k < i {
            }
        }
    }
    false
}

/// `parts` with `sep` between consecutive parts.
pub open spec fn join(parts: Seq<Seq<char>>, sep: Seq<char>) -> Seq<char>
    decreases parts.len(),
{
    if parts.len() == 0 {
        Seq::empty()
    } else if parts.len() == 1 {
        parts[0]
    } else {
        join(parts.drop_last(), sep) + sep + parts.last()
    }
}

/// Joins strings with a separator.
pub fn join_strings(parts: &Vec<String>, sep: &str) -> (res: String)
    ensures
        res@ == join(parts.deep_view(), sep@),
{
    let mut res = String::new();
    let n = parts.len();
    for j in 0..n
        invariant
            n == parts.len(),
            res@ == join(parts.deep_view().take(j as int), sep@),
    {
        let ghost before = parts.deep_view().take(j as int);
        assert(parts.deep_view().take(j + 1).drop_last() =~= before);
        if j > 0 {
            res.append(sep);
        }
        res.append(parts[j].as_str());
        proof {
            if j == 0 {
                assert(res@ =~= parts.deep_view().take(1)[0]);
            } else {
                assert(res@ =~= join(before, sep@) + sep@ + parts.deep_view()[j as int]);
            }
        }
    }
    assert(parts.deep_view().take(n as int) =~= parts.deep_view());
    res
}

/// Whether `c` is white space (the Unicode `White_Space` property, which
/// `char::is_whitespace` follows).
pub open spec fn is_white_space(c: char) -> bool {
    let x = c as int;
    ||| 0x9 <= x <= 0xd
    ||| x == 0x20
    ||| x == 0x85
    ||| x == 0xa0
    ||| x == 0x1680
    ||| 0x2000 <= x <= 0x200a
    ||| x == 0x2028
    ||| x == 0x2029
    ||| x == 0x202f
    ||| x == 0x205f
    ||| x == 0x3000
}

/// `s` without its trailing white space (`str::trim_end`).
pub open spec fn trim_end(s: Seq<char>) -> Seq<char>
    decreases s.len(),
{
    if s.len() > 0 && is_white_space(s.last()) {
        trim_end(s.drop_last())
    } else {
        s
    }
}

/// `s` without its leading white space (`str::trim_start`).
pub open spec fn trim_start(s: Seq<char>) -> Seq<char>
    decreases s.len(),
{
    if s.len() > 0 && is_white_space(s[0]) {
        trim_start(s.drop_first())
    } else {
        s
    }
}

/// `s` without leading and trailing white space (`str::trim`).
pub open spec fn trim(s: Seq<char>) -> Seq<char> {
    trim_start(trim_end(s))
}

/// `s` cut at each `\n`: one more piece than there are line feeds.
pub open spec fn split_at_newlines(s: Seq<char>) -> Seq<Seq<char>>
    decreases s.len(),
{
    if s.len() == 0 {
        seq![Seq::<char>::empty()]
    } else {
        let prev = split_at_newlines(s.drop_last());
        if s.last() == '\n' {
            prev.push(Seq::<char>::empty())
        } else {
            prev.update(prev.len() - 1, prev.last().push(s.last()))
        }
    }
}

/// A line without the `\r` of a `\r\n` ending.
pub open spec fn strip_cr(l: Seq<char>) -> Seq<char> {
    if l.len() > 0 && l.last() == '\r' {
        l.drop_last()
    } else {
        l
    }
}

/// The lines of a text that does not end in a line feed, as `str::lines`
/// gives them: split at `\n`, a `\r` before a `\n` dropped; no lines for an
/// empty text.
pub open spec fn text_lines(t: Seq<char>) -> Seq<Seq<char>> {
    if t.len() == 0 {
        Seq::empty()
    } else {
        let ps = split_at_newlines(t);
        ps.take(ps.len() - 1).map_values(|l: Seq<char>| strip_cr(l)).push(ps.last())
    }
}

pub fn is_whitespace_char(c: char) -> (res: bool)
    ensures
        res == is_white_space(c),
{
    let x = c as u32;
    (0x9 <= x && x <= 0xd) || x == 0x20 || x == 0x85 || x == 0xa0 || x == 0x1680 || (0x2000 <= x
        && x <= 0x200a) || x == 0x2028 || x == 0x2029 || x == 0x202f || x == 0x205f || x == 0x3000
}

proof fn lemma_split_nonempty(s: Seq<char>)
    ensures
        split_at_newlines(s).len() >= 1,
    decreases s.len(),
{
    if s.len() > 0 {
        lemma_split_nonempty(s.drop_last());
    }
}

/// The lines of `s` once its trailing white space is removed
/// (`s.trim_end().lines()`).
pub fn trimmed_lines(s: &str) -> (res: Vec<String>)
    ensures
        res.deep_view() == text_lines(trim_end(s@)),
{
    let cs = chars_of(s);
    let mut end = cs.len();
    assert(cs@.take(end as int) =~= cs@);
    while end > 0 && is_whitespace_char(cs[end - 1])
        invariant
            end <= cs.len(),
            trim_end(cs@) == trim_end(cs@.take(end as int)),
        decreases end,
    {
        assert(cs@.take(end as int).drop_last() =~= cs@.take(end - 1));
        end -= 1;
    }
    let ghost t = cs@.take(end as int);
    proof {
        if end > 0 {
            assert(t.last() == cs@[end - 1]);
        }
        assert(trim_end(t) == t);
    }
    let mut lines: Vec<String> = Vec::new();
    let mut cur: Vec<char> = Vec::new();
    let mut i: usize = 0;
    proof { lemma_split_nonempty(t.take(0)); }
    assert(t.take(0) =~= Seq::<char>::empty());
    while i < end
        invariant
            end <= cs.len(),
            t == cs@.take(end as int),
            i <= end,
            split_at_newlines(t.take(i as int)).len() >= 1,
            lines.deep_view() == split_at_newlines(t.take(i as int)).take(
                split_at_newlines(t.take(i as int)).len() - 1,
            ).map_values(|l: Seq<char>| strip_cr(l)),
            cur@ == split_at_newlines(t.take(i as int)).last(),
        decreases end - i,
    {
        let c = cs[i];
        let ghost p0 = split_at_newlines(t.take(i as int));
        assert(t.take(i + 1).drop_last() =~= t.take(i as int));
        assert(t.take(i + 1).last() == c);
        if c == '\n' {
            let ghost before = lines.deep_view();
            let line = if cur.len() > 0 && cur[cur.len() - 1] == '\r' {
                let mut trimmed = cur.clone();
                trimmed.pop();
                assert(trimmed@ =~= cur@.drop_last());
                string_of(&trimmed)
            } else {
                string_of(&cur)
            };
            assert(line@ == strip_cr(p0.last()));
            lines.push(line);
            cur = Vec::new();
            let ghost p1 = split_at_newlines(t.take(i + 1));
            assert(p1 == p0.push(Seq::<char>::empty()));
            assert(p1.take(p1.len() - 1) =~= p0);
            assert(lines.deep_view() =~= before.push(strip_cr(p0.last())));
            assert(p0.map_values(|l: Seq<char>| strip_cr(l)) =~= p0.take(p0.len() - 1).map_values(
                |l: Seq<char>| strip_cr(l),
            ).push(strip_cr(p0.last())));
            assert(lines.deep_view() =~= p1.take(p1.len() - 1).map_values(|l: Seq<char>| strip_cr(l)));
        } else {
            cur.push(c);
            let ghost p1 = split_at_newlines(t.take(i + 1));
            assert(p1 == p0.update(p0.len() - 1, p0.last().push(c)));
            assert(p1.take(p1.len() - 1) =~= p0.take(p0.len() - 1));
        }
        i += 1;
    }
    assert(t.take(end as int) =~= t);
    if end > 0 {
        lines.push(string_of(&cur));
        proof {
            let ps = split_at_newlines(t);
            assert(lines.deep_view() =~= ps.take(ps.len() - 1).map_values(|l: Seq<char>| strip_cr(l)).push(ps.last()));
        }
    } else {
        assert(lines.deep_view() =~= Seq::<Seq<char>>::empty());
    }
    lines
}

/// The decimal digit for `d < 10`.
pub open spec fn digit_char(d: nat) -> char {
    if d == 0 { '0' } else if d == 1 { '1' } else if d == 2 { '2' } else if d == 3 { '3' } else if d == 4 { '4' }
    else if d == 5 { '5' } else if d == 6 { '6' } else if d == 7 { '7' } else if d == 8 { '8' } else { '9' }
}

/// `n` written in decimal, without leading zeros.
pub open spec fn decimal(n: nat) -> Seq<char>
    decreases n,
{
    if n < 10 {
        seq![digit_char(n)]
    } else {
        decimal(n / 10).push(digit_char(n % 10))
    }
}

fn digit(d: u64) -> (c: char)
    requires
        d < 10,
    ensures
        c == digit_char(d as nat),
{
    if d == 0 { '0' } else if d == 1 { '1' } else if d == 2 { '2' } else if d == 3 { '3' } else if d == 4 { '4' }
    else if d == 5 { '5' } else if d == 6 { '6' } else if d == 7 { '7' } else if d == 8 { '8' } else { '9' }
}

/// `n` in decimal (what `format!("{n}")` prints).
pub fn decimal_string(n: u64) -> (res: String)
    ensures
        res@ == decimal(n as nat),
    decreases n,
{
    if n < 10 {
        let mut s = String::new();
        push_char(&mut s, digit(n));
        assert(s@ =~= seq![digit_char(n as nat)]);
        s
    } else {
        let mut s = decimal_string(n / 10);
        push_char(&mut s, digit(n % 10));
        s
    }
}

/// `s` without leading and trailing white space (`str::trim`).
pub fn trimmed(s: &str) -> (res: String)
    ensures
        res@ == trim(s@),
{
    let cs = chars_of(s);
    let mut end = cs.len();
    assert(cs@.take(end as int) =~= cs@);
    while end > 0 && is_whitespace_char(cs[end - 1])
        invariant
            end <= cs.len(),
            trim_end(cs@) == trim_end(cs@.take(end as int)),
        decreases end,
    {
        assert(cs@.take(end as int).drop_last() =~= cs@.take(end - 1));
        end -= 1;
    }
    let ghost t = cs@.take(end as int);
    proof {
        if end > 0 {
            assert(t.last() == cs@[end - 1]);
        }
        assert(trim_end(t) == t);
    }
    let mut start: usize = 0;
    assert(t.skip(0) =~= t);
    while start < end && is_whitespace_char(cs[start])
        invariant
            start <= end <= cs.len(),
            t == cs@.take(end as int),
            trim_start(t) == trim_start(t.skip(start as int)),
        decreases end - start,
    {
        assert(t.skip(start as int)[0] == cs@[start as int]);
        assert(t.skip(start as int).drop_first() =~= t.skip(start + 1));
        start += 1;
    }
    proof {
        if start < end {
            assert(t.skip(start as int)[0] == cs@[start as int]);
        }
        assert(trim_start(t.skip(start as int)) == t.skip(start as int));
    }
    let mut part: Vec<char> = Vec::new();
    let mut k = start;
    while k < end
        invariant
            start <= k <= end <= cs.len(),
            part@ == cs@.subrange(start as int, k as int),
        decreases end - k,
    {
        part.push(cs[k]);
        k += 1;
        assert(part@ =~= cs@.subrange(start as int, k as int));
    }
    assert(part@ =~= t.skip(start as int));
    string_of(&part)
}

} // verus!
