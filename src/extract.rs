//! Applying a range list to a line: by bytes, by characters or by fields.
use vstd::prelude::*;
use std::ops::Range;
use vstd::string::StringSliceAdditionalSpecFns;
use crate::positions::PositionList;
use crate::text::{chars_of, push_char};

verus! {

/// Which units of a line a range list selects.
#[derive(Debug)]
pub enum Extract {
    Fields(PositionList),
    Bytes(PositionList),
    Chars(PositionList),
}

pub open spec fn min_len(a: usize, b: nat) -> int {
    if (a as int) < (b as int) { a as int } else { b as int }
}

/// The units of `s` whose indices fall in `r`, in index order.
pub open spec fn select<A>(s: Seq<A>, r: Range<usize>) -> Seq<A> {
    if r.start < r.end && r.start < s.len() {
        s.subrange(r.start as int, min_len(r.end, s.len()))
    } else {
        Seq::empty()
    }
}

/// The units that each range selects, range after range, in the order of the list.
pub open spec fn select_all<A>(s: Seq<A>, rs: Seq<Range<usize>>) -> Seq<A>
    decreases rs.len(),
{
    if rs.len() == 0 {
        Seq::empty()
    } else {
        select_all(s, rs.drop_last()) + select(s, rs.last())
    }
}

/// The text that `String::from_utf8_lossy` makes of `b`: each invalid
/// sequence becomes U+FFFD.
pub uninterp spec fn lossy_text(b: Seq<u8>) -> Seq<char>;

/// Relies on `String::from_utf8_lossy`: the characters depend on the bytes
/// alone, and valid UTF-8 decodes as it stands.
#[verifier::external_body]
fn from_utf8_lossy(b: &[u8]) -> (r: String)
    ensures
        r@ == lossy_text(b@),
        vstd::utf8::valid_utf8(b@) ==> r@ == vstd::utf8::decode_utf8(b@),
{
    String::from_utf8_lossy(b).into_owned()
}

/// The fields of a CSV record, in order.
pub uninterp spec fn record_fields(r: csv::StringRecord) -> Seq<Seq<char>>;

#[verifier::external_type_specification]
#[verifier::external_body]
pub struct ExStringRecord(csv::StringRecord);

/// Relies on `csv::StringRecord::len`: the number of fields.
pub assume_specification[ csv::StringRecord::len ](r: &csv::StringRecord) -> (n: usize)
    ensures
        n == record_fields(*r).len(),
;

/// Relies on `csv::StringRecord::get`: field `i` where there is one, else `None`.
pub assume_specification[ csv::StringRecord::get ](r: &csv::StringRecord, i: usize) -> (f: Option<&str>)
    ensures
        i < record_fields(*r).len() <==> f is Some,
        f matches Some(x) ==> x@ == record_fields(*r)[i as int],
;

proof fn lemma_select_step<A>(s: Seq<A>, r: Range<usize>, j: int)
    requires
        r.start <= j < r.end,
        j < s.len(),
    ensures
        s.subrange(r.start as int, j + 1) == s.subrange(r.start as int, j).push(s[j]),
{
    assert(s.subrange(r.start as int, j + 1) =~= s.subrange(r.start as int, j).push(s[j]));
}

/// The characters of `line` that the ranges select, range after range.
pub fn extract_chars(line: &str, chars_pos: &[Range<usize>]) -> (r: String)
    ensures
        r@ == select_all(line@, chars_pos@),
{
    let cs = chars_of(line);
    let n = cs.len();
    let mut buffer = String::new();
    let mut k: usize = 0;
    while k < chars_pos.len()
        invariant
            k <= chars_pos@.len(),
            cs@ == line@,
            n == cs@.len(),
            buffer@ == select_all(line@, chars_pos@.take(k as int)),
        decreases chars_pos@.len() - k,
    {
        let cp = &chars_pos[k];
        let stop = if cp.end < n { cp.end } else { n };
        let ghost before = buffer@;
        if cp.start < stop {
            let mut j: usize = cp.start;
            assert(cs@.subrange(cp.start as int, j as int) =~= Seq::<char>::empty());
            while j < stop
                invariant
                    cp.start <= j <= stop,
                    stop <= n,
                    stop <= cp.end,
                    n == cs@.len(),
                    buffer@ == before + cs@.subrange(cp.start as int, j as int),
                decreases stop - j,
            {
                proof {
                    lemma_select_step(cs@, *cp, j as int);
                }
                push_char(&mut buffer, cs[j]);
                j = j + 1;
            }
        }
        proof {
            assert(chars_pos@.take(k + 1).drop_last() =~= chars_pos@.take(k as int));
            assert(chars_pos@.take(k + 1).last() == *cp);
            assert(buffer@ =~= before + select(line@, *cp));
        }
        k = k + 1;
    }
    assert(chars_pos@.take(k as int) =~= chars_pos@);
    buffer
}

/// The bytes of `line` that the ranges select, range after range, as text;
/// a multi-byte character cut apart becomes U+FFFD.
pub fn extract_bytes(line: &str, chars_pos: &[Range<usize>]) -> (r: String)
    ensures
        r@ == lossy_text(select_all(line.spec_bytes(), chars_pos@)),
{
    let bs = line.as_bytes();
    let n = bs.len();
    let mut buffer: Vec<u8> = Vec::new();
    let mut k: usize = 0;
    while k < chars_pos.len()
        invariant
            k <= chars_pos@.len(),
            bs@ == line.spec_bytes(),
            n == bs@.len(),
            buffer@ == select_all(bs@, chars_pos@.take(k as int)),
        decreases chars_pos@.len() - k,
    {
        let cp = &chars_pos[k];
        let stop = if cp.end < n { cp.end } else { n };
        let ghost before = buffer@;
        if cp.start < stop {
            let mut j: usize = cp.start;
            assert(bs@.subrange(cp.start as int, j as int) =~= Seq::<u8>::empty());
            while j < stop
                invariant
                    cp.start <= j <= stop,
                    stop <= n,
                    stop <= cp.end,
                    n == bs@.len(),
                    buffer@ == before + bs@.subrange(cp.start as int, j as int),
                decreases stop - j,
            {
                proof {
                    lemma_select_step(bs@, *cp, j as int);
                }
                buffer.push(bs[j]);
                j = j + 1;
            }
        }
        proof {
            assert(chars_pos@.take(k + 1).drop_last() =~= chars_pos@.take(k as int));
            assert(chars_pos@.take(k + 1).last() == *cp);
            assert(buffer@ =~= before + select(bs@, *cp));
        }
        k = k + 1;
    }
    assert(chars_pos@.take(k as int) =~= chars_pos@);
    from_utf8_lossy(buffer.as_slice())
}

pub open spec fn texts(v: Seq<&str>) -> Seq<Seq<char>> {
    v.map_values(|f: &str| f@)
}

/// The fields of `line` that the ranges select, range after range.
pub fn extract_fields<'a>(line: &'a csv::StringRecord, chars_pos: &[Range<usize>]) -> (r: Vec<&'a str>)
    ensures
        texts(r@) == select_all(record_fields(*line), chars_pos@),
{
    let ghost fs = record_fields(*line);
    let n = line.len();
    let mut buffer: Vec<&'a str> = Vec::new();
    let mut k: usize = 0;
    while k < chars_pos.len()
        invariant
            k <= chars_pos@.len(),
            fs == record_fields(*line),
            n == fs.len(),
            texts(buffer@) == select_all(fs, chars_pos@.take(k as int)),
        decreases chars_pos@.len() - k,
    {
        let cp = &chars_pos[k];
        let stop = if cp.end < n { cp.end } else { n };
        let ghost before = texts(buffer@);
        if cp.start < stop {
            let mut j: usize = cp.start;
            assert(fs.subrange(cp.start as int, j as int) =~= Seq::<Seq<char>>::empty());
            while j < stop
                invariant
                    cp.start <= j <= stop,
                    stop <= n,
                    stop <= cp.end,
                    fs == record_fields(*line),
                    n == fs.len(),
                    texts(buffer@) == before + fs.subrange(cp.start as int, j as int),
                decreases stop - j,
            {
                proof {
                    lemma_select_step(fs, *cp, j as int);
                }
                match line.get(j) {
                    Some(f) => {
                        let ghost prev = buffer@;
                        buffer.push(f);
                        assert(texts(buffer@) =~= texts(prev).push(f@));
                    },
                    None => {},
                }
                j = j + 1;
            }
        }
        proof {
            assert(chars_pos@.take(k + 1).drop_last() =~= chars_pos@.take(k as int));
            assert(chars_pos@.take(k + 1).last() == *cp);
            assert(texts(buffer@) =~= before + select(fs, *cp));
        }
        k = k + 1;
    }
    assert(chars_pos@.take(k as int) =~= chars_pos@);
    buffer
}

} // verus!
