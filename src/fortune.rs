//! Arguments and fortune records of `fortune`.
use vstd::prelude::*;
use vstd::string::StringExecFns;
use crate::decimal::{parse_u64_text, u64_text};
use crate::text::{chars_of, index_in, index_of, lemma_index_of_bound, split_on, string_of, trim_bounds, trimmed};
use rand::SeedableRng;
use rand::seq::SliceRandom;

verus! {

pub open spec fn u64_err_text(val: Seq<char>) -> Seq<char> {
    "'"@ + val + "' not a valid integer"@
}

/// Reads a random seed: any `u64`.
pub fn parse_u64(val: &str) -> (r: Result<u64, String>)
    ensures
        u64_text(val@) matches Some(n) ==> r == Ok::<u64, String>(n),
        u64_text(val@) is None ==> (r matches Err(e) && e@ == u64_err_text(val@)),
{
    match parse_u64_text(val) {
        Some(n) => Ok(n),
        None => {
            let mut e = String::from_str("'");
            e.append(val);
            e.append("' not a valid integer");
            Err(e)
        },
    }
}

/// One fortune and the name of the file it came from.
#[derive(Debug)]
pub struct Fortune {
    pub source: String,
    pub text: String,
}

/// The texts of a fortune file: the pieces between `%` lines, trimmed, the
/// empty ones left out.
pub open spec fn fortune_texts(pieces: Seq<Seq<char>>) -> Seq<Seq<char>>
    decreases pieces.len(),
{
    if pieces.len() == 0 {
        Seq::empty()
    } else {
        let rest = fortune_texts(pieces.drop_last());
        let t = trimmed(pieces.last());
        if t.len() > 0 { rest.push(t) } else { rest }
    }
}

pub open spec fn fortune_views(v: Seq<Fortune>) -> Seq<Seq<char>> {
    v.map_values(|f: Fortune| f.text@)
}

proof fn lemma_fortune_texts_append(pieces: Seq<Seq<char>>, more: Seq<Seq<char>>)
    ensures
        fortune_texts(pieces + more) == fortune_texts(pieces) + fortune_texts(more),
    decreases more.len(),
{
    if more.len() == 0 {
        assert(pieces + more =~= pieces);
        assert(fortune_texts(pieces) + fortune_texts(more) =~= fortune_texts(pieces));
    } else {
        lemma_fortune_texts_append(pieces, more.drop_last());
        assert((pieces + more).drop_last() =~= pieces + more.drop_last());
        let t = trimmed(more.last());
        if t.len() > 0 {
            assert(fortune_texts(pieces) + fortune_texts(more) =~=
                (fortune_texts(pieces) + fortune_texts(more.drop_last())).push(t));
        }
    }
}

proof fn lemma_fortune_texts_single(x: Seq<char>)
    ensures
        fortune_texts(seq![x]) == (if trimmed(x).len() > 0 { seq![trimmed(x)] } else { Seq::<Seq<char>>::empty() }),
{
    let e = seq![x].drop_last();
    assert(e.len() == 0);
    assert(fortune_texts(e) =~= Seq::<Seq<char>>::empty());
    assert(seq![x].last() == x);
    if trimmed(x).len() > 0 {
        assert(Seq::<Seq<char>>::empty().push(trimmed(x)) =~= seq![trimmed(x)]);
    }
}

/// The fortunes of one file, each tagged with `source`.
pub fn fortunes_of(source: &str, content: &str) -> (r: Vec<Fortune>)
    ensures
        fortune_views(r@) == fortune_texts(split_on(content@, '%')),
        forall|i: int| 0 <= i < r@.len() ==> (#[trigger] r@[i]).source@ == source@,
{
    let cs = chars_of(content);
    let n = cs.len();
    let mut out: Vec<Fortune> = Vec::new();
    let mut start: usize = 0;
    let ghost s = cs@;
    assert(s.skip(0) =~= s);
    loop
        invariant
            start <= n,
            n == s.len(),
            s == cs@,
            s == content@,
            fortune_texts(split_on(s, '%')) == fortune_views(out@) + fortune_texts(split_on(s.skip(start as int), '%')),
            forall|i: int| 0 <= i < out@.len() ==> (#[trigger] out@[i]).source@ == source@,
        decreases n - start,
    {
        let ghost rest = s.skip(start as int);
        let k = index_in(&cs, start, n, '%');
        assert(cs@.subrange(start as int, n as int) =~= rest);
        let end = start + k;
        let (a, b) = trim_bounds(&cs, start, end);
        let ghost prev = out@;
        assert(rest.take(k as int) =~= cs@.subrange(start as int, end as int));
        proof {
            lemma_fortune_texts_single(rest.take(k as int));
        }
        if a < b {
            out.push(Fortune { source: String::from_str(source), text: string_of(&cs, a, b) });
            assert(fortune_views(out@) =~= fortune_views(prev).push(trimmed(rest.take(k as int))));
        } else {
            assert(fortune_views(out@) =~= fortune_views(prev));
        }
        if end == n {
            proof {
                assert(split_on(rest, '%') == seq![rest]);
                assert(seq![rest].drop_last() =~= Seq::<Seq<char>>::empty());
                assert(rest.take(k as int) =~= rest);
                assert(fortune_views(prev) + fortune_texts(seq![rest]) =~= fortune_views(out@));
            }
            return out;
        }
        proof {
            lemma_index_of_bound(rest, '%');
            assert(rest.skip(k + 1) =~= s.skip(end + 1));
            let head = seq![rest.take(k as int)];
            let tail = split_on(s.skip(end + 1), '%');
            assert(split_on(rest, '%') == head + tail);
            lemma_fortune_texts_append(head, tail);
            assert(fortune_views(prev) + fortune_texts(head) =~= fortune_views(out@));
            assert(fortune_views(prev) + (fortune_texts(head) + fortune_texts(tail)) =~=
                fortune_views(out@) + fortune_texts(tail));
        }
        start = end + 1;
    }
}

/// Relies on `rand`'s `SliceRandom::choose` with `StdRng::seed_from_u64`: one
/// of the fortunes, none only where there are none.
#[verifier::external_body]
fn choose_seeded(fortunes: &[Fortune], seed: u64) -> (r: Option<&Fortune>)
    ensures
        r is Some <==> fortunes@.len() > 0,
        r matches Some(f) ==> exists|i: int| 0 <= i < fortunes@.len() && fortunes@[i] == *f,
{
    fortunes.choose(&mut rand::rngs::StdRng::seed_from_u64(seed))
}

/// Relies on `rand`'s `SliceRandom::choose` with `rand::thread_rng`: one of
/// the fortunes, none only where there are none.
#[verifier::external_body]
fn choose_any(fortunes: &[Fortune]) -> (r: Option<&Fortune>)
    ensures
        r is Some <==> fortunes@.len() > 0,
        r matches Some(f) ==> exists|i: int| 0 <= i < fortunes@.len() && fortunes@[i] == *f,
{
    fortunes.choose(&mut rand::thread_rng())
}

/// The text of a fortune picked at random (the same one for the same seed),
/// or nothing where there are no fortunes.
pub fn pick_fortune(fortunes: &[Fortune], seed: Option<u64>) -> (r: Option<String>)
    ensures
        r is Some <==> fortunes@.len() > 0,
        r matches Some(t) ==> exists|i: int| 0 <= i < fortunes@.len() && fortunes@[i].text@ == t@,
{
    let fortune = match seed {
        None => choose_any(fortunes),
        Some(number) => choose_seeded(fortunes, number),
    };
    match fortune {
        Some(f) => Some(f.text.clone()),
        None => None,
    }
}

} // verus!
