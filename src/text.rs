//! Character-level helpers on `str` and `String`.
use vstd::prelude::*;
use vstd::string::{StringExecFns, StringSliceAdditionalSpecFns};
use crate::decimal::{decimal_digits, u64_string};

verus! {

/// Relies on `String::push`: appends one character at the end.
#[verifier::external_body]
pub(crate) fn push_char(s: &mut String, c: char)
    ensures
        final(s)@ == old(s)@.push(c),
{
    s.push(c)
}

/// The characters with the Unicode `White_Space` property, which
/// `char::is_whitespace` tests for.
pub open spec fn white_space(c: char) -> bool {
    let u = c as u32;
    (0x9 <= u && u <= 0xd) || u == 0x20 || u == 0x85 || u == 0xa0 || u == 0x1680
        || (0x2000 <= u && u <= 0x200a) || u == 0x2028 || u == 0x2029 || u == 0x202f
        || u == 0x205f || u == 0x3000
}

/// Whether `c` separates words.
pub fn is_whitespace(c: char) -> (r: bool)
    ensures
        r == white_space(c),
{
    let u = c as u32;
    (0x9 <= u && u <= 0xd) || u == 0x20 || u == 0x85 || u == 0xa0 || u == 0x1680
        || (0x2000 <= u && u <= 0x200a) || u == 0x2028 || u == 0x2029 || u == 0x202f
        || u == 0x205f || u == 0x3000
}

/// The text that `str::to_lowercase` makes of `s`.
pub uninterp spec fn lower_of(s: Seq<char>) -> Seq<char>;

/// Relies on `str::to_lowercase`: the result depends on the characters alone.
#[verifier::external_body]
pub(crate) fn lowercase(s: &str) -> (r: String)
    ensures
        r@ == lower_of(s@),
{
    s.to_lowercase()
}

/// Relies on `std::str::from_utf8`: the text that `b` encodes where `b` is
/// valid UTF-8, else nothing.
#[verifier::external_body]
pub(crate) fn utf8_text(b: &[u8]) -> (r: Option<&str>)
    ensures
        r is Some <==> vstd::utf8::valid_utf8(b@),
        r matches Some(s) ==> s.spec_bytes() == b@,
{
    std::str::from_utf8(b).ok()
}

/// The characters of `s`, in order.
pub fn chars_of(s: &str) -> (r: Vec<char>)
    ensures
        r@ == s@,
{
    let mut r: Vec<char> = Vec::new();
    for c in it: s.chars()
        invariant
            r@ == it.seq().take(it.index() as int),
    {
        r.push(c);
    }
    r
}

/// Index of the first `c` in `t` (its length where there is none).
pub open spec fn index_of(t: Seq<char>, c: char) -> nat
    decreases t.len(),
{
    if t.len() == 0 {
        0
    } else if t[0] == c {
        0
    } else {
        1 + index_of(t.skip(1), c)
    }
}

/// Index of the first `c` in `cs[a..b]`, counted from `a`.
pub(crate) fn index_in(cs: &Vec<char>, a: usize, b: usize, c: char) -> (r: usize)
    requires
        a <= b <= cs@.len(),
    ensures
        r == index_of(cs@.subrange(a as int, b as int), c),
        r <= b - a,
{
    let mut j: usize = a;
    while j < b && cs[j] != c
        invariant
            a <= j <= b <= cs@.len(),
            index_of(cs@.subrange(a as int, b as int), c) == (j - a) + index_of(cs@.subrange(j as int, b as int), c),
        decreases b - j,
    {
        assert(cs@.subrange(j as int, b as int).skip(1) =~= cs@.subrange(j + 1, b as int));
        j = j + 1;
    }
    j - a
}

/// The characters `cs[a..b]` as a `String`.
pub(crate) fn string_of(cs: &Vec<char>, a: usize, b: usize) -> (r: String)
    requires
        a <= b <= cs@.len(),
    ensures
        r@ == cs@.subrange(a as int, b as int),
{
    let mut r = String::new();
    let mut j: usize = a;
    while j < b
        invariant
            a <= j <= b <= cs@.len(),
            r@ == cs@.subrange(a as int, j as int),
        decreases b - j,
    {
        push_char(&mut r, cs[j]);
        assert(cs@.subrange(a as int, j + 1) =~= cs@.subrange(a as int, j as int).push(cs[j as int]));
        j = j + 1;
    }
    r
}

/// The lines of a text as a line reader gives them: split at each newline,
/// the newline and a carriage return just before it dropped; text after the
/// last newline is a line too, kept as it is.
pub open spec fn lines_of(s: Seq<char>) -> Seq<Seq<char>>
    decreases s.len(),
{
    if s.len() == 0 {
        Seq::empty()
    } else {
        let k = index_of(s, '\n');
        if k >= s.len() {
            seq![s]
        } else {
            let line = s.take(k as int);
            let line = if k > 0 && line.last() == '\r' { line.drop_last() } else { line };
            proof {
                lemma_index_of_bound(s, '\n');
            }
            seq![line] + lines_of(s.skip((k + 1) as int))
        }
    }
}

pub proof fn lemma_index_of_bound(t: Seq<char>, c: char)
    ensures
        index_of(t, c) <= t.len(),
        index_of(t, c) < t.len() ==> t[index_of(t, c) as int] == c,
    decreases t.len(),
{
    if t.len() > 0 && t[0] != c {
        lemma_index_of_bound(t.skip(1), c);
    }
}

pub open spec fn string_views(v: Seq<String>) -> Seq<Seq<char>> {
    v.map_values(|s: String| s@)
}

/// The lines of `text`, as a line reader gives them.
pub fn lines(text: &str) -> (r: Vec<String>)
    ensures
        string_views(r@) == lines_of(text@),
{
    let cs = chars_of(text);
    let n = cs.len();
    let mut out: Vec<String> = Vec::new();
    let mut start: usize = 0;
    assert(cs@.skip(0) =~= cs@);
    while start < n
        invariant
            start <= n,
            n == cs@.len(),
            cs@ == text@,
            lines_of(text@) == string_views(out@) + lines_of(cs@.skip(start as int)),
        decreases n - start,
    {
        let ghost rest = cs@.skip(start as int);
        let k = index_in(&cs, start, n, '\n');
        assert(cs@.subrange(start as int, n as int) =~= rest);
        let ghost prev = out@;
        if start + k == n {
            out.push(string_of(&cs, start, n));
            assert(cs@.subrange(start as int, n as int) == rest);
            assert(lines_of(rest) == seq![rest]);
            assert(cs@.skip(n as int) =~= Seq::<char>::empty());
            assert(string_views(out@) =~= string_views(prev) + seq![rest]);
            start = n;
        } else {
            proof {
                lemma_index_of_bound(rest, '\n');
            }
            let end = if k > 0 && cs[start + k - 1] == '\r' { start + k - 1 } else { start + k };
            out.push(string_of(&cs, start, end));
            proof {
                let line = rest.take(k as int);
                assert(rest.skip(k + 1) =~= cs@.skip(start + k + 1));
                if k > 0 && line.last() == '\r' {
                    assert(line.drop_last() =~= cs@.subrange(start as int, end as int));
                } else {
                    assert(line =~= cs@.subrange(start as int, end as int));
                }
                assert(string_views(out@) =~= string_views(prev).push(cs@.subrange(start as int, end as int)));
            }
            start = start + k + 1;
            proof {
                assert(lines_of(text@) =~= string_views(out@) + lines_of(cs@.skip(start as int)));
            }
        }
    }
    assert(cs@.skip(n as int) =~= Seq::<char>::empty());
    assert(string_views(out@) + Seq::<Seq<char>>::empty() =~= string_views(out@));
    out
}

/// `s` without the white space at its start.
pub open spec fn trim_start(s: Seq<char>) -> Seq<char>
    decreases s.len(),
{
    if s.len() > 0 && white_space(s[0]) {
        trim_start(s.skip(1))
    } else {
        s
    }
}

/// `s` without the white space at its end.
pub open spec fn trim_end(s: Seq<char>) -> Seq<char>
    decreases s.len(),
{
    if s.len() > 0 && white_space(s.last()) {
        trim_end(s.drop_last())
    } else {
        s
    }
}

/// `s` without white space at either end, as `str::trim` gives it.
pub open spec fn trimmed(s: Seq<char>) -> Seq<char> {
    trim_end(trim_start(s))
}

/// The bounds of `cs[a..b]` without white space at either end.
pub(crate) fn trim_bounds(cs: &Vec<char>, a: usize, b: usize) -> (r: (usize, usize))
    requires
        a <= b <= cs@.len(),
    ensures
        a <= r.0 <= r.1 <= b,
        cs@.subrange(r.0 as int, r.1 as int) == trimmed(cs@.subrange(a as int, b as int)),
{
    let mut i: usize = a;
    while i < b && is_whitespace(cs[i])
        invariant
            a <= i <= b <= cs@.len(),
            trim_start(cs@.subrange(a as int, b as int)) == trim_start(cs@.subrange(i as int, b as int)),
        decreases b - i,
    {
        assert(cs@.subrange(i as int, b as int).skip(1) =~= cs@.subrange(i + 1, b as int));
        i = i + 1;
    }
    let mut j: usize = b;
    while j > i && is_whitespace(cs[j - 1])
        invariant
            a <= i <= j <= b <= cs@.len(),
            trim_end(cs@.subrange(i as int, b as int)) == trim_end(cs@.subrange(i as int, j as int)),
        decreases j - i,
    {
        assert(cs@.subrange(i as int, j as int).drop_last() =~= cs@.subrange(i as int, j - 1));
        j = j - 1;
    }
    (i, j)
}

/// The pieces of `s` between the occurrences of `c`.
pub open spec fn split_on(s: Seq<char>, c: char) -> Seq<Seq<char>>
    decreases s.len(),
{
    let k = index_of(s, c);
    if k >= s.len() {
        seq![s]
    } else {
        proof {
            lemma_index_of_bound(s, c);
        }
        seq![s.take(k as int)] + split_on(s.skip((k + 1) as int), c)
    }
}

pub open spec fn spaces(n: nat) -> Seq<char> {
    Seq::new(n, |i: int| ' ')
}

pub(crate) fn push_spaces(s: &mut String, n: usize)
    ensures
        final(s)@ == old(s)@ + spaces(n as nat),
{
    let mut i: usize = 0;
    while i < n
        invariant
            i <= n,
            s@ == old(s)@ + spaces(i as nat),
        decreases n - i,
    {
        push_char(s, ' ');
        assert(old(s)@ + spaces((i + 1) as nat) =~= (old(s)@ + spaces(i as nat)).push(' '));
        i = i + 1;
    }
}

/// `s` right-aligned in a field of `w` characters, as the `{:>w}` format
/// gives it.
pub open spec fn right_aligned(s: Seq<char>, w: nat) -> Seq<char> {
    if s.len() >= w {
        s
    } else {
        spaces((w - s.len()) as nat) + s
    }
}

/// `n` in decimal, right-aligned in a field of `w` characters.
pub(crate) fn right_aligned_number(n: u64, w: usize) -> (r: String)
    ensures
        r@ == right_aligned(decimal_digits(n as nat), w as nat),
{
    let digits = u64_string(n);
    let len = chars_of(digits.as_str()).len();
    let mut r = String::new();
    if len < w {
        push_spaces(&mut r, w - len);
    }
    r.append(digits.as_str());
    r
}

} // verus!
