//! Range lists such as `1,3-5,7-`: their grammar, their reading into
//! zero-based half-open ranges, and the errors that a bad list gives.
use vstd::prelude::*;
use std::ops::Range;
use vstd::string::{StringExecFns, StringSliceAdditionalSpecFns};
use crate::decimal::{decimal_digits, digit_value, is_digit, u64_string};
use crate::text::{chars_of, index_in, index_of, string_of};

verus! {

/// Ranges of zero-based indices, in the order in which the list gave them.
pub type PositionList = Vec<Range<usize>>;

/// Why a range list or a delimiter was refused.
#[derive(Debug)]
pub enum CutError {
    /// A piece of the list that is not a position (the piece is kept).
    InvalidListValue(String),
    /// A range whose first position exceeds its second (both one-based).
    InvalidRangeOrder(usize, usize),
    /// A delimiter that is not exactly one byte.
    InvalidDelimiter(String),
}

/// A `CutError` with its texts as sequences of characters.
pub enum CutErrorView {
    InvalidListValue(Seq<char>),
    InvalidRangeOrder(usize, usize),
    InvalidDelimiter(Seq<char>),
}

impl View for CutError {
    type V = CutErrorView;

    open spec fn view(&self) -> CutErrorView {
        match self {
            CutError::InvalidListValue(s) => CutErrorView::InvalidListValue(s@),
            CutError::InvalidRangeOrder(a, b) => CutErrorView::InvalidRangeOrder(*a, *b),
            CutError::InvalidDelimiter(s) => CutErrorView::InvalidDelimiter(s@),
        }
    }
}

pub open spec fn is_decimal_char(c: char) -> bool {
    is_digit(c) || c == '_'
}

/// A number as the list writes it: a digit, then digits and underscores.
pub open spec fn is_decimal(d: Seq<char>) -> bool {
    &&& d.len() > 0
    &&& is_digit(d[0])
    &&& forall|i: int| 0 <= i < d.len() ==> is_decimal_char(#[trigger] d[i])
}

/// The value of a written number; underscores do not count.
pub open spec fn decimal_number(d: Seq<char>) -> nat
    decreases d.len(),
{
    if d.len() == 0 {
        0
    } else if d.last() == '_' {
        decimal_number(d.drop_last())
    } else {
        decimal_number(d.drop_last()) * 10 + digit_value(d.last())
    }
}

/// Length of the longest prefix made of digits and underscores.
pub open spec fn run_len(s: Seq<char>) -> nat
    decreases s.len(),
{
    if s.len() > 0 && is_decimal_char(s[0]) {
        1 + run_len(s.skip(1))
    } else {
        0
    }
}

/// Length of the written number at the start of `s` (0 where none starts there).
pub open spec fn decimal_len(s: Seq<char>) -> nat {
    if s.len() > 0 && is_digit(s[0]) {
        run_len(s)
    } else {
        0
    }
}

/// Length of the range at the start of `s`: `N-M`, `N-`, `-N` or `N`,
/// tried in that order (0 where none starts there).
pub open spec fn token_len(s: Seq<char>) -> nat {
    let a = decimal_len(s);
    if a > 0 {
        if a < s.len() && s[a as int] == '-' {
            a + 1 + decimal_len(s.skip((a + 1) as int))
        } else {
            a
        }
    } else if s.len() > 0 && s[0] == '-' && decimal_len(s.skip(1)) > 0 {
        1 + decimal_len(s.skip(1))
    } else {
        0
    }
}

pub proof fn lemma_run_len_bound(s: Seq<char>)
    ensures
        run_len(s) <= s.len(),
        forall|i: int| 0 <= i < run_len(s) ==> is_decimal_char(#[trigger] s[i]),
    decreases s.len(),
{
    if s.len() > 0 && is_decimal_char(s[0]) {
        lemma_run_len_bound(s.skip(1));
        assert forall|i: int| 0 <= i < run_len(s) implies is_decimal_char(#[trigger] s[i]) by {
            if i > 0 {
                assert(s[i] == s.skip(1)[i - 1]);
            }
        }
    }
}

pub proof fn lemma_token_len_bound(s: Seq<char>)
    ensures
        token_len(s) <= s.len(),
{
    lemma_run_len_bound(s);
    if s.len() > 0 {
        lemma_run_len_bound(s.skip(1));
    }
    let a = decimal_len(s);
    if a > 0 && a < s.len() {
        lemma_run_len_bound(s.skip((a + 1) as int));
    }
}

/// The ranges after the first, each led by a comma, and what follows them.
pub open spec fn more_tokens(s: Seq<char>) -> (Seq<Seq<char>>, Seq<char>)
    decreases s.len(),
{
    if s.len() > 0 && s[0] == ',' && token_len(s.skip(1)) > 0 {
        let t = token_len(s.skip(1));
        proof {
            lemma_token_len_bound(s.skip(1));
        }
        let next = more_tokens(s.skip((1 + t) as int));
        (seq![s.subrange(1, (1 + t) as int)] + next.0, next.1)
    } else {
        (Seq::empty(), s)
    }
}

/// The comma-separated ranges at the start of `s`, and the text left after them.
pub open spec fn list_tokens(s: Seq<char>) -> (Seq<Seq<char>>, Seq<char>) {
    let t = token_len(s);
    if t == 0 {
        (Seq::empty(), s)
    } else {
        let next = more_tokens(s.skip(t as int));
        (seq![s.take(t as int)] + next.0, next.1)
    }
}

/// A one-based position: a written number from 1 up.
pub open spec fn number_result(d: Seq<char>) -> Result<usize, CutErrorView> {
    if is_decimal(d) && 1 <= decimal_number(d) <= usize::MAX {
        Ok(decimal_number(d) as usize)
    } else {
        Err(CutErrorView::InvalidListValue(d))
    }
}

pub open spec fn half_open(start: usize, end: usize) -> Range<usize> {
    Range { start, end }
}

/// The zero-based half-open range that one piece of a list stands for:
/// `N` is `N-1..N`, `-N` is `0..N`, `N-` is `N-1..` (to the end), `M-N` is `M-1..N`.
pub open spec fn token_range(t: Seq<char>) -> Result<Range<usize>, CutErrorView> {
    let k = index_of(t, '-');
    if k >= t.len() {
        match number_result(t) {
            Ok(n) => Ok(half_open((n - 1) as usize, n)),
            Err(e) => Err(e),
        }
    } else {
        let from = t.take(k as int);
        let to = t.skip((k + 1) as int);
        if index_of(to, '-') < to.len() {
            Err(CutErrorView::InvalidListValue(t))
        } else if from.len() == 0 {
            match number_result(to) {
                Ok(n) => Ok(half_open(0, n)),
                Err(e) => Err(e),
            }
        } else if to.len() == 0 {
            match number_result(from) {
                Ok(n) => Ok(half_open((n - 1) as usize, usize::MAX)),
                Err(e) => Err(e),
            }
        } else {
            match number_result(from) {
                Err(e) => Err(e),
                Ok(m) => match number_result(to) {
                    Err(e) => Err(e),
                    Ok(n) => if m > n {
                        Err(CutErrorView::InvalidRangeOrder(m, n))
                    } else {
                        Ok(half_open((m - 1) as usize, n))
                    },
                },
            }
        }
    }
}

/// The ranges of the pieces in order, or the error of the first bad piece.
pub open spec fn ranges_of(ts: Seq<Seq<char>>) -> Result<Seq<Range<usize>>, CutErrorView>
    decreases ts.len(),
{
    if ts.len() == 0 {
        Ok(Seq::empty())
    } else {
        match ranges_of(ts.drop_last()) {
            Err(e) => Err(e),
            Ok(rs) => match token_range(ts.last()) {
                Ok(r) => Ok(rs.push(r)),
                Err(e) => Err(e),
            },
        }
    }
}

/// What a whole range list reads as: text left after the ranges is refused
/// as it stands; otherwise the pieces are read one by one.
pub open spec fn positions(s: Seq<char>) -> Result<Seq<Range<usize>>, CutErrorView> {
    let (tokens, rest) = list_tokens(s);
    if rest.len() > 0 {
        Err(CutErrorView::InvalidListValue(rest))
    } else {
        ranges_of(tokens)
    }
}

pub open spec fn number_view(r: Result<usize, CutError>) -> Result<usize, CutErrorView> {
    match r {
        Ok(n) => Ok(n),
        Err(e) => Err(e@),
    }
}

pub open spec fn range_view(r: Result<Range<usize>, CutError>) -> Result<Range<usize>, CutErrorView> {
    match r {
        Ok(x) => Ok(x),
        Err(e) => Err(e@),
    }
}

pub open spec fn list_view(r: Result<PositionList, CutError>) -> Result<Seq<Range<usize>>, CutErrorView> {
    match r {
        Ok(v) => Ok(v@),
        Err(e) => Err(e@),
    }
}

fn run_len_at(cs: &Vec<char>, i: usize) -> (r: usize)
    requires
        i <= cs@.len(),
    ensures
        r == run_len(cs@.skip(i as int)),
        i + r <= cs@.len(),
{
    let mut j: usize = i;
    while j < cs.len() && (('0' <= cs[j] && cs[j] <= '9') || cs[j] == '_')
        invariant
            i <= j <= cs@.len(),
            run_len(cs@.skip(i as int)) == (j - i) + run_len(cs@.skip(j as int)),
        decreases cs@.len() - j,
    {
        assert(cs@.skip(j as int).skip(1) =~= cs@.skip(j + 1));
        j = j + 1;
    }
    j - i
}

/// Length of the written number that starts at `cs[i]`.
fn decimal_len_at(cs: &Vec<char>, i: usize) -> (r: usize)
    requires
        i <= cs@.len(),
    ensures
        r == decimal_len(cs@.skip(i as int)),
        i + r <= cs@.len(),
{
    if i < cs.len() && '0' <= cs[i] && cs[i] <= '9' {
        run_len_at(cs, i)
    } else {
        0
    }
}

/// Length of the range that starts at `cs[i]`.
fn range_input_len(cs: &Vec<char>, i: usize) -> (r: usize)
    requires
        i <= cs@.len(),
    ensures
        r == token_len(cs@.skip(i as int)),
        i + r <= cs@.len(),
{
    let ghost s = cs@.skip(i as int);
    let n = cs.len();
    let a = decimal_len_at(cs, i);
    if a > 0 {
        if i + a < n && cs[i + a] == '-' {
            assert(s.skip((a + 1) as int) =~= cs@.skip(i + a + 1));
            let b = decimal_len_at(cs, i + a + 1);
            a + 1 + b
        } else {
            a
        }
    } else if i < cs.len() && cs[i] == '-' {
        assert(s.skip(1) =~= cs@.skip(i + 1));
        let b = decimal_len_at(cs, i + 1);
        if b > 0 {
            1 + b
        } else {
            0
        }
    } else {
        0
    }
}

proof fn lemma_decimal_number_prefix(d: Seq<char>, n: nat)
    requires
        forall|i: int| 0 <= i < d.len() ==> is_decimal_char(#[trigger] d[i]),
        n <= d.len(),
    ensures
        decimal_number(d.take(n as int)) <= decimal_number(d),
    decreases d.len() - n,
{
    if n < d.len() {
        let e = d.drop_last();
        assert(e.take(n as int) =~= d.take(n as int));
        assert forall|i: int| 0 <= i < e.len() implies is_decimal_char(#[trigger] e[i]) by {
            assert(e[i] == d[i]);
        }
        lemma_decimal_number_prefix(e, n);
    } else {
        assert(d.take(n as int) =~= d);
    }
}

/// Reads `cs[a..b]` as a one-based position.
fn number_of_span(cs: &Vec<char>, a: usize, b: usize) -> (r: Result<usize, CutError>)
    requires
        a <= b <= cs@.len(),
    ensures
        number_view(r) == number_result(cs@.subrange(a as int, b as int)),
{
    let ghost d = cs@.subrange(a as int, b as int);
    if a == b || !('0' <= cs[a] && cs[a] <= '9') {
        return Err(CutError::InvalidListValue(string_of(cs, a, b)));
    }
    let mut j: usize = a;
    let mut acc: usize = 0;
    while j < b
        invariant
            a <= j <= b <= cs@.len(),
            d == cs@.subrange(a as int, b as int),
            forall|i: int| a <= i < j ==> is_decimal_char(#[trigger] cs@[i]),
            acc == decimal_number(cs@.subrange(a as int, j as int)),
        decreases b - j,
    {
        let c = cs[j];
        let ghost prev = cs@.subrange(a as int, j as int);
        assert(cs@.subrange(a as int, j + 1).drop_last() =~= prev);
        if c == '_' {
        } else if '0' <= c && c <= '9' {
            let dv: usize = (c as u32 - '0' as u32) as usize;
            if acc > (usize::MAX - dv) / 10 {
                proof {
                    assert(decimal_number(cs@.subrange(a as int, j + 1)) > usize::MAX);
                    if is_decimal(d) {
                        assert(d.take(j + 1 - a) =~= cs@.subrange(a as int, j + 1));
                        lemma_decimal_number_prefix(d, (j + 1 - a) as nat);
                    }
                }
                return Err(CutError::InvalidListValue(string_of(cs, a, b)));
            }
            acc = acc * 10 + dv;
        } else {
            proof {
                assert(d[j - a] == c);
            }
            return Err(CutError::InvalidListValue(string_of(cs, a, b)));
        }
        j = j + 1;
    }
    assert(cs@.subrange(a as int, j as int) =~= d);
    if acc == 0 {
        return Err(CutError::InvalidListValue(string_of(cs, a, b)));
    }
    Ok(acc)
}

/// Reads `cs[a..b]` as one piece of a range list.
fn range_of_span(cs: &Vec<char>, a: usize, b: usize) -> (r: Result<Range<usize>, CutError>)
    requires
        a <= b <= cs@.len(),
    ensures
        range_view(r) == token_range(cs@.subrange(a as int, b as int)),
{
    let ghost t = cs@.subrange(a as int, b as int);
    let k = index_in(cs, a, b, '-');
    if k == b - a {
        match number_of_span(cs, a, b) {
            Ok(n) => Ok(n - 1..n),
            Err(e) => Err(e),
        }
    } else {
        let m = a + k;
        assert(t.take(k as int) =~= cs@.subrange(a as int, m as int));
        assert(t.skip(k + 1) =~= cs@.subrange(m + 1, b as int));
        let k2 = index_in(cs, m + 1, b, '-');
        if k2 < b - (m + 1) {
            Err(CutError::InvalidListValue(string_of(cs, a, b)))
        } else if k == 0 {
            match number_of_span(cs, m + 1, b) {
                Ok(n) => Ok(0..n),
                Err(e) => Err(e),
            }
        } else if m + 1 == b {
            match number_of_span(cs, a, m) {
                Ok(n) => Ok(n - 1..usize::MAX),
                Err(e) => Err(e),
            }
        } else {
            match number_of_span(cs, a, m) {
                Err(e) => Err(e),
                Ok(from) => match number_of_span(cs, m + 1, b) {
                    Err(e) => Err(e),
                    Ok(to) => {
                        if from > to {
                            Err(CutError::InvalidRangeOrder(from, to))
                        } else {
                            Ok(from - 1..to)
                        }
                    },
                },
            }
        }
    }
}

/// Reads one position: a number from 1 up, written with digits and
/// underscores, which do not count (`1_0` is 10).
pub fn parse(input: &str) -> (r: Result<usize, CutError>)
    ensures
        number_view(r) == number_result(input@),
{
    let cs = chars_of(input);
    assert(cs@.subrange(0, cs@.len() as int) =~= cs@);
    number_of_span(&cs, 0, cs.len())
}

/// Reads one piece of a range list (`N`, `-N`, `N-` or `M-N`) into a
/// zero-based half-open range.
pub fn parsed_to_range(parsed: &str) -> (r: Result<Range<usize>, CutError>)
    ensures
        range_view(r) == token_range(parsed@),
{
    let cs = chars_of(parsed);
    assert(cs@.subrange(0, cs@.len() as int) =~= cs@);
    range_of_span(&cs, 0, cs.len())
}

pub open spec fn span_texts(s: Seq<char>, spans: Seq<Range<usize>>) -> Seq<Seq<char>> {
    spans.map_values(|sp: Range<usize>| s.subrange(sp.start as int, sp.end as int))
}

proof fn lemma_ranges_of_error_stays(ts: Seq<Seq<char>>, n: nat)
    requires
        n <= ts.len(),
        ranges_of(ts.take(n as int)) is Err,
    ensures
        ranges_of(ts) == ranges_of(ts.take(n as int)),
    decreases ts.len() - n,
{
    if n < ts.len() {
        let e = ts.drop_last();
        assert(e.take(n as int) =~= ts.take(n as int));
        lemma_ranges_of_error_stays(e, n);
    } else {
        assert(ts.take(n as int) =~= ts);
    }
}

/// Splits `cs` into the ranges of a list and finds where the list ends.
fn split_list(cs: &Vec<char>) -> (r: (Vec<Range<usize>>, usize))
    ensures
        r.1 <= cs@.len(),
        forall|k: int| 0 <= k < r.0@.len() ==> r.0@[k].start <= #[trigger] r.0@[k].end <= cs@.len(),
        list_tokens(cs@).0 == span_texts(cs@, r.0@),
        list_tokens(cs@).1 == cs@.skip(r.1 as int),
{
    let ghost s = cs@;
    let mut spans: Vec<Range<usize>> = Vec::new();
    let t0 = range_input_len(cs, 0);
    assert(s.skip(0) =~= s);
    if t0 == 0 {
        assert(span_texts(s, spans@) =~= Seq::<Seq<char>>::empty());
        return (spans, 0);
    }
    spans.push(0..t0);
    let mut p: usize = t0;
    assert(span_texts(s, spans@) =~= seq![s.take(t0 as int)]);
    loop
        invariant
            s == cs@,
            p <= s.len(),
            forall|k: int| 0 <= k < spans@.len() ==> spans@[k].start <= #[trigger] spans@[k].end <= s.len(),
            list_tokens(s).0 == span_texts(s, spans@) + more_tokens(s.skip(p as int)).0,
            list_tokens(s).1 == more_tokens(s.skip(p as int)).1,
        ensures
            p <= s.len(),
            forall|k: int| 0 <= k < spans@.len() ==> spans@[k].start <= #[trigger] spans@[k].end <= s.len(),
            list_tokens(s).0 == span_texts(s, spans@),
            list_tokens(s).1 == s.skip(p as int),
        decreases s.len() - p,
    {
        let ghost rest = s.skip(p as int);
        if p < cs.len() && cs[p] == ',' {
            let t = range_input_len(cs, p + 1);
            assert(rest.skip(1) =~= s.skip(p + 1));
            if t > 0 {
                let ghost old_spans = spans@;
                spans.push(p + 1..p + 1 + t);
                assert(rest.skip((1 + t) as int) =~= s.skip(p + 1 + t));
                assert(rest.subrange(1, (1 + t) as int) =~= s.subrange(p + 1, p + 1 + t));
                assert(span_texts(s, spans@) =~= span_texts(s, old_spans).push(s.subrange(p + 1, p + 1 + t)));
                assert(span_texts(s, spans@) + more_tokens(s.skip(p + 1 + t)).0 =~=
                    span_texts(s, old_spans) + more_tokens(rest).0);
                p = p + 1 + t;
                continue;
            }
        }
        assert(more_tokens(rest).0 =~= Seq::<Seq<char>>::empty());
        assert(more_tokens(rest).1 == rest);
        assert(span_texts(s, spans@) + more_tokens(rest).0 =~= span_texts(s, spans@));
        break;
    }
    (spans, p)
}

/// Reads a range list such as `1,3-5,7-` into zero-based half-open ranges,
/// in the order given. The empty list is accepted; text that does not fit
/// the grammar, a position below 1 and a reversed range are refused.
pub fn parse_position(input: &str) -> (r: Result<PositionList, CutError>)
    ensures
        list_view(r) == positions(input@),
{
    let cs = chars_of(input);
    let (spans, end) = split_list(&cs);
    let ghost tokens = list_tokens(cs@).0;
    if end < cs.len() {
        assert(cs@.skip(end as int) =~= cs@.subrange(end as int, cs@.len() as int));
        return Err(CutError::InvalidListValue(string_of(&cs, end, cs.len())));
    }
    assert(list_tokens(cs@).1.len() == 0);
    let mut out: PositionList = Vec::new();
    let mut k: usize = 0;
    assert(tokens.take(0) =~= Seq::<Seq<char>>::empty());
    while k < spans.len()
        invariant
            k <= spans@.len(),
            cs@ == input@,
            list_tokens(cs@).1.len() == 0,
            tokens == list_tokens(cs@).0,
            tokens == span_texts(cs@, spans@),
            forall|j: int| 0 <= j < spans@.len() ==> spans@[j].start <= #[trigger] spans@[j].end <= cs@.len(),
            ranges_of(tokens.take(k as int)) == Ok::<Seq<Range<usize>>, CutErrorView>(out@),
        decreases spans@.len() - k,
    {
        let a = spans[k].start;
        let b = spans[k].end;
        assert(tokens.take(k + 1).drop_last() =~= tokens.take(k as int));
        assert(tokens.take(k + 1).last() == cs@.subrange(a as int, b as int));
        match range_of_span(&cs, a, b) {
            Ok(rg) => {
                out.push(rg);
            },
            Err(e) => {
                proof {
                    assert(ranges_of(tokens.take(k + 1)) == Err::<Seq<Range<usize>>, CutErrorView>(e@));
                    lemma_ranges_of_error_stays(tokens, (k + 1) as nat);
                }
                return Err(e);
            },
        }
        k = k + 1;
    }
    assert(tokens.take(k as int) =~= tokens);
    Ok(out)
}

pub open spec fn val_err_text(val: Seq<char>) -> Seq<char> {
    "illegal list value: \""@ + val + "\""@
}

pub open spec fn range_err_text(from: usize, to: usize) -> Seq<char> {
    "First number in range ("@ + decimal_digits(from as nat) + ") must be lower than second number ("@
        + decimal_digits(to as nat) + ")"@
}

pub open spec fn delim_err_text(val: Seq<char>) -> Seq<char> {
    "Invalid delimiter: \""@ + val + "\""@
}

/// The message for a range whose first position exceeds the second.
pub fn format_range_err(from: usize, to: usize) -> (r: String)
    ensures
        r@ == range_err_text(from, to),
{
    let mut r = String::from_str("First number in range (");
    r.append(u64_string(from as u64).as_str());
    r.append(") must be lower than second number (");
    r.append(u64_string(to as u64).as_str());
    r.append(")");
    r
}

/// The message for a delimiter that is not one byte.
pub fn format_delim_err(val: &str) -> (r: String)
    ensures
        r@ == delim_err_text(val@),
{
    let mut r = String::from_str("Invalid delimiter: \"");
    r.append(val);
    r.append("\"");
    r
}

/// The message for a piece of a range list that is not a position.
pub fn format_val_err(val: &str) -> (r: String)
    ensures
        r@ == val_err_text(val@),
{
    let mut r = String::from_str("illegal list value: \"");
    r.append(val);
    r.append("\"");
    r
}

pub open spec fn error_text(e: CutErrorView) -> Seq<char> {
    match e {
        CutErrorView::InvalidListValue(v) => val_err_text(v),
        CutErrorView::InvalidRangeOrder(a, b) => range_err_text(a, b),
        CutErrorView::InvalidDelimiter(v) => delim_err_text(v),
    }
}

impl CutError {
    /// The message shown for this error.
    pub fn to_string(&self) -> (r: String)
        ensures
            r@ == error_text(self@),
    {
        match self {
            CutError::InvalidListValue(v) => format_val_err(v.as_str()),
            CutError::InvalidRangeOrder(a, b) => format_range_err(*a, *b),
            CutError::InvalidDelimiter(v) => format_delim_err(v.as_str()),
        }
    }
}

/// Reads a field delimiter, which must be exactly one byte.
pub fn parse_delimiter(delim: &str) -> (r: Result<u8, CutError>)
    ensures
        delim.spec_bytes().len() == 1 ==> r == Ok::<u8, CutError>(delim.spec_bytes()[0]),
        delim.spec_bytes().len() != 1 ==> (r matches Err(e) && e@ == CutErrorView::InvalidDelimiter(delim@)),
{
    let bytes = delim.as_bytes();
    if bytes.len() == 1 {
        Ok(bytes[0])
    } else {
        Err(CutError::InvalidDelimiter(String::from_str(delim)))
    }
}

/// A range written back in one-based form: its first and last position
/// (the last is `usize::MAX` where the range runs to the end).
pub open spec fn one_based(r: Range<usize>) -> (int, int) {
    (r.start + 1, r.end as int)
}

/// The first and last position that a piece of a list names, as written:
/// `-N` starts at 1 and `N-` runs to `usize::MAX`.
pub open spec fn token_bounds(t: Seq<char>) -> (int, int) {
    let k = index_of(t, '-');
    if k >= t.len() {
        (decimal_number(t) as int, decimal_number(t) as int)
    } else if k == 0 {
        (1, decimal_number(t.skip(1)) as int)
    } else if k + 1 == t.len() {
        (decimal_number(t.take(k as int)) as int, usize::MAX as int)
    } else {
        (decimal_number(t.take(k as int)) as int, decimal_number(t.skip((k + 1) as int)) as int)
    }
}

proof fn lemma_token_round_trip(t: Seq<char>)
    requires
        token_range(t) is Ok,
    ensures
        one_based(token_range(t)->Ok_0) == token_bounds(t),
{
}

proof fn lemma_ranges_of_pointwise(ts: Seq<Seq<char>>)
    requires
        ranges_of(ts) is Ok,
    ensures
        ranges_of(ts)->Ok_0.len() == ts.len(),
        forall|i: int| 0 <= i < ts.len() ==> token_range(#[trigger] ts[i]) == Ok::<Range<usize>, CutErrorView>(ranges_of(ts)->Ok_0[i]),
    decreases ts.len(),
{
    if ts.len() > 0 {
        let e = ts.drop_last();
        lemma_ranges_of_pointwise(e);
        assert forall|i: int| 0 <= i < ts.len() implies token_range(#[trigger] ts[i]) == Ok::<Range<usize>, CutErrorView>(ranges_of(ts)->Ok_0[i]) by {
            if i < ts.len() - 1 {
                assert(ts[i] == e[i]);
            }
        }
    }
}

/// Reading a range list and writing each range back in one-based form gives
/// the numbers that the list wrote, piece by piece (leading zeros and
/// underscores aside).
pub proof fn lemma_positions_round_trip(s: Seq<char>)
    requires
        positions(s) is Ok,
    ensures
        positions(s)->Ok_0.len() == list_tokens(s).0.len(),
        forall|i: int| 0 <= i < list_tokens(s).0.len()
            ==> one_based(#[trigger] positions(s)->Ok_0[i]) == token_bounds(list_tokens(s).0[i]),
{
    let ts = list_tokens(s).0;
    lemma_ranges_of_pointwise(ts);
    assert forall|i: int| 0 <= i < ts.len()
        implies one_based(#[trigger] positions(s)->Ok_0[i]) == token_bounds(ts[i]) by {
        lemma_token_round_trip(ts[i]);
    }
}

} // verus!
