//! Counting lines, words, bytes and characters, as `wc` does.
use vstd::prelude::*;
use vstd::string::{StringExecFns, StringSliceAdditionalSpecFns};
use crate::text::{chars_of, is_whitespace, right_aligned, right_aligned_number, utf8_text, white_space};
use crate::decimal::decimal_digits;

verus! {

/// The counts of one input, or of several added up.
#[derive(Debug, PartialEq, Eq, Structural)]
pub struct FileInfo {
    pub num_lines: usize,
    pub num_words: usize,
    pub num_bytes: usize,
    pub num_chars: usize,
}

impl FileInfo {
    /// All counts zero.
    pub fn new() -> (r: FileInfo)
        ensures
            r == (FileInfo { num_lines: 0, num_words: 0, num_bytes: 0, num_chars: 0 }),
    {
        FileInfo { num_lines: 0, num_words: 0, num_bytes: 0, num_chars: 0 }
    }

    /// Adds the counts of `other` to these, count by count.
    pub fn add_assign(&mut self, other: FileInfo)
        requires
            old(self).num_lines + other.num_lines <= usize::MAX,
            old(self).num_words + other.num_words <= usize::MAX,
            old(self).num_bytes + other.num_bytes <= usize::MAX,
            old(self).num_chars + other.num_chars <= usize::MAX,
        ensures
            final(self).num_lines == old(self).num_lines + other.num_lines,
            final(self).num_words == old(self).num_words + other.num_words,
            final(self).num_bytes == old(self).num_bytes + other.num_bytes,
            final(self).num_chars == old(self).num_chars + other.num_chars,
    {
        *self = FileInfo {
            num_lines: self.num_lines + other.num_lines,
            num_words: self.num_words + other.num_words,
            num_bytes: self.num_bytes + other.num_bytes,
            num_chars: self.num_chars + other.num_chars,
        };
    }
}

impl Default for FileInfo {
    fn default() -> (r: FileInfo)
        ensures
            r == (FileInfo { num_lines: 0, num_words: 0, num_bytes: 0, num_chars: 0 }),
    {
        FileInfo::new()
    }
}

/// The number of newlines in `s`.
pub open spec fn newline_count(s: Seq<char>) -> nat
    decreases s.len(),
{
    if s.len() == 0 {
        0
    } else {
        newline_count(s.drop_last()) + if s.last() == '\n' { 1nat } else { 0nat }
    }
}

/// The number of lines: each newline ends one, and text after the last
/// newline makes one more.
pub open spec fn line_count(s: Seq<char>) -> nat {
    newline_count(s) + if s.len() > 0 && s.last() != '\n' { 1nat } else { 0nat }
}

/// Whether a word starts at `s[i]`: a character that is not white space,
/// at the start or after white space.
pub open spec fn word_starts_at(s: Seq<char>, i: int) -> bool {
    !white_space(s[i]) && (i == 0 || white_space(s[i - 1]))
}

/// The number of words: maximal runs of characters that are not white space.
pub open spec fn word_count(s: Seq<char>) -> nat
    decreases s.len(),
{
    if s.len() == 0 {
        0
    } else {
        word_count(s.drop_last()) + if word_starts_at(s, s.len() - 1) { 1nat } else { 0nat }
    }
}

/// The counts of a text.
pub open spec fn counts_of(s: Seq<char>, num_bytes: nat) -> FileInfo {
    FileInfo {
        num_lines: line_count(s) as usize,
        num_words: word_count(s) as usize,
        num_bytes: num_bytes as usize,
        num_chars: s.len() as usize,
    }
}

/// Counts the lines, words, bytes and characters of an input. Input that is
/// not UTF-8 is refused, as a line-by-line reader refuses it.
pub fn count(bytes: &[u8]) -> (r: Result<FileInfo, String>)
    ensures
        vstd::utf8::valid_utf8(bytes@) <==> r is Ok,
        r matches Ok(info) ==> info == counts_of(vstd::utf8::decode_utf8(bytes@), bytes@.len()),
{
    let text = match utf8_text(bytes) {
        Some(t) => t,
        None => {
            return Err(String::from_str("stream did not contain valid UTF-8"));
        },
    };
    proof {
        vstd::utf8::encode_utf8_decode_utf8(text@);
    }
    let num_bytes = text.len();
    let cs = chars_of(text);
    let n = cs.len();
    let mut newlines: usize = 0;
    let mut words: usize = 0;
    let mut i: usize = 0;
    while i < n
        invariant
            i <= n,
            n == cs@.len(),
            newlines == newline_count(cs@.take(i as int)),
            words == word_count(cs@.take(i as int)),
            newlines <= i,
            i > 0 && cs@[i - 1] != '\n' ==> newlines < i,
            words <= i,
        decreases n - i,
    {
        let c = cs[i];
        let ghost t = cs@.take(i + 1);
        assert(t.drop_last() =~= cs@.take(i as int));
        assert(t.last() == c);
        if c == '\n' {
            newlines = newlines + 1;
        }
        let starts = !is_whitespace(c) && (i == 0 || is_whitespace(cs[i - 1]));
        proof {
            if i > 0 {
                assert(t[i - 1] == cs@[i - 1]);
            }
            assert(starts == word_starts_at(t, i as int));
        }
        if starts {
            words = words + 1;
        }
        i = i + 1;
    }
    assert(cs@.take(n as int) =~= cs@);
    let num_lines = if n > 0 && cs[n - 1] != '\n' { newlines + 1 } else { newlines };
    Ok(FileInfo { num_lines, num_words: words, num_bytes, num_chars: n })
}

/// Which counts to show.
#[derive(Debug, Clone, Copy, PartialEq, Eq, Structural)]
pub struct CountFlags {
    pub lines: bool,
    pub words: bool,
    pub bytes: bool,
    pub chars: bool,
}

pub open spec fn column(show: bool, n: usize) -> Seq<char> {
    if show { right_aligned(decimal_digits(n as nat), 8) } else { Seq::empty() }
}

/// The report line of one input: the counts asked for, each in eight
/// columns, in the order lines, words, bytes, characters; then the name,
/// except for standard input (`-`).
pub open spec fn display_text(info: FileInfo, flags: CountFlags, filename: Seq<char>) -> Seq<char> {
    column(flags.lines, info.num_lines) + column(flags.words, info.num_words)
        + column(flags.bytes, info.num_bytes) + column(flags.chars, info.num_chars)
        + if filename == "-"@ { Seq::empty() } else { " "@ + filename }
}

/// The report line of one input, without its line end.
pub fn display(info: &FileInfo, flags: CountFlags, filename: &str) -> (r: String)
    ensures
        r@ == display_text(*info, flags, filename@),
{
    let mut r = String::new();
    if flags.lines {
        r.append(right_aligned_number(info.num_lines as u64, 8).as_str());
    }
    assert(r@ =~= column(flags.lines, info.num_lines));
    let ghost p1 = r@;
    if flags.words {
        r.append(right_aligned_number(info.num_words as u64, 8).as_str());
    }
    assert(r@ =~= p1 + column(flags.words, info.num_words));
    let ghost p2 = r@;
    if flags.bytes {
        r.append(right_aligned_number(info.num_bytes as u64, 8).as_str());
    }
    assert(r@ =~= p2 + column(flags.bytes, info.num_bytes));
    let ghost p3 = r@;
    if flags.chars {
        r.append(right_aligned_number(info.num_chars as u64, 8).as_str());
    }
    assert(r@ =~= p3 + column(flags.chars, info.num_chars));
    let ghost p4 = r@;
    let stdin_name = String::from_str("-");
    let fname = String::from_str(filename);
    if fname != stdin_name {
        r.append(" ");
        r.append(filename);
        assert(r@ =~= p4 + (" "@ + filename@));
    } else {
        assert(r@ =~= p4 + Seq::<char>::empty());
    }
    r
}

} // verus!
