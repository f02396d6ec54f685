//! Text as sequences of characters: lines, whitespace-separated tokens,
//! prefixes and replacement.

use vstd::prelude::*;
use vstd::std_specs::iter::IteratorSpec;
use vstd::string::*;

verus! {

/// Whether `c` has the Unicode property White_Space.
pub open spec fn is_space(c: char) -> bool {
    let u = c as u32;
    ||| 0x09 <= u <= 0x0D
    ||| u == 0x20
    ||| u == 0x85
    ||| u == 0xA0
    ||| u == 0x1680
    ||| 0x2000 <= u <= 0x200A
    ||| u == 0x2028
    ||| u == 0x2029
    ||| u == 0x202F
    ||| u == 0x205F
    ||| u == 0x3000
}

/// The number of characters from position `from` up to the next `stop` or
/// the end of the text.
pub open spec fn span_len(s: Seq<char>, from: int, stop: char) -> nat
    decreases s.len() - from,
{
    if from < 0 || from >= s.len() || s[from] == stop {
        0
    } else {
        1 + span_len(s, from + 1, stop)
    }
}

/// The line that occupies positions `from..end`, where `end` is a line feed
/// or the end of the text. A carriage return directly before the line feed
/// belongs to the line ending.
pub open spec fn line_text(s: Seq<char>, from: int, end: int) -> Seq<char> {
    if from < end < s.len() && s[end - 1] == '\r' {
        s.subrange(from, end - 1)
    } else {
        s.subrange(from, end)
    }
}

/// The lines of the text that starts at position `from`.
pub open spec fn lines_from(s: Seq<char>, from: int) -> Seq<Seq<char>>
    decreases s.len() - from,
{
    if from < 0 || from >= s.len() {
        Seq::empty()
    } else {
        let end = from + span_len(s, from, '\n');
        let rest = if end < s.len() {
            lines_from(s, end + 1)
        } else {
            Seq::empty()
        };
        seq![line_text(s, from, end)] + rest
    }
}

/// The lines of a text. Lines end in a line feed, or in a carriage return and
/// a line feed; the last line may end with the text. A text that ends in a
/// line ending has no empty line after it.
pub open spec fn lines_of(s: Seq<char>) -> Seq<Seq<char>> {
    lines_from(s, 0)
}

/// The character sequences that a sequence of strings holds.
pub open spec fn texts(v: Seq<String>) -> Seq<Seq<char>> {
    Seq::new(v.len(), |i: int| v[i]@)
}

/// The length of `s` without the whitespace at its end.
pub open spec fn trimmed_len(s: Seq<char>) -> nat
    decreases s.len(),
{
    if s.len() == 0 {
        0
    } else if is_space(s.last()) {
        trimmed_len(s.drop_last())
    } else {
        s.len()
    }
}

/// Where the run of characters that are no whitespace and end before
/// position `end` begins.
pub open spec fn token_start(s: Seq<char>, end: int) -> int
    decreases end,
{
    if end <= 0 || end > s.len() {
        0
    } else if is_space(s[end - 1]) {
        end
    } else {
        token_start(s, end - 1)
    }
}

/// The last of the tokens that whitespace separates in `s`; empty where `s`
/// holds nothing but whitespace.
pub open spec fn last_token(s: Seq<char>) -> Seq<char> {
    let end = trimmed_len(s) as int;
    s.subrange(token_start(s, end), end)
}

/// `s` with every occurrence of `pat` replaced by `with`, the occurrences
/// taken from the left and not overlapping.
pub open spec fn replaced(s: Seq<char>, pat: Seq<char>, with: Seq<char>) -> Seq<char>
    decreases s.len(),
{
    if pat.len() == 0 || s.len() < pat.len() {
        s
    } else if pat.is_prefix_of(s) {
        with + replaced(s.subrange(pat.len() as int, s.len() as int), pat, with)
    } else {
        seq![s[0]] + replaced(s.drop_first(), pat, with)
    }
}

/// Whether `c` is whitespace.
pub fn char_is_space(c: char) -> (r: bool)
    ensures
        r == is_space(c),
{
    let u: u32 = c as u32;
    (0x09 <= u && u <= 0x0D) || u == 0x20 || u == 0x85 || u == 0xA0 || u == 0x1680 || (0x2000 <= u
        && u <= 0x200A) || u == 0x2028 || u == 0x2029 || u == 0x202F || u == 0x205F || u == 0x3000
}

/// The characters of a text.
pub fn chars_of(s: &str) -> (chars: Vec<char>)
    ensures
        chars@ == s@,
{
    broadcast use vstd::string::axiom_spec_iter;
    broadcast use vstd::string::next_postcondition;

    let mut chars: Vec<char> = Vec::new();
    for c in it: s.chars()
        invariant
            it.seq() == s@,
            chars@ == s@.subrange(0, it.index() as int),
    {
        assert(chars@.push(c) =~= s@.subrange(0, it.index() + 1));
        chars.push(c);
    }
    assert(chars@ =~= s@);
    chars
}

/// Splits a text into its lines.
pub fn split_lines(s: &str) -> (out: Vec<String>)
    ensures
        texts(out@) == lines_of(s@),
{
    let chars = chars_of(s);
    let n = chars.len();
    let mut out: Vec<String> = Vec::new();
    let mut start: usize = 0;
    while start < n
        invariant
            n == s@.len(),
            chars@ == s@,
            start <= n,
            texts(out@) + lines_from(s@, start as int) == lines_of(s@),
        decreases n - start,
    {
        let mut end: usize = start;
        while end < n && chars[end] != '\n'
            invariant
                n == s@.len(),
                chars@ == s@,
                start <= end <= n,
                end + span_len(s@, end as int, '\n') == start + span_len(s@, start as int, '\n'),
            decreases n - end,
        {
            end += 1;
        }
        let stop: usize = if start < end && end < n && chars[end - 1] == '\r' {
            end - 1
        } else {
            end
        };
        let line = s.substring_char(start, stop).to_owned();
        let next: usize = if end < n {
            end + 1
        } else {
            n
        };
        proof {
            assert(line@ == line_text(s@, start as int, end as int));
            assert(texts(out@.push(line)) =~= texts(out@) + seq![line@]);
            assert(texts(out@.push(line)) + lines_from(s@, next as int) =~= texts(out@)
                + lines_from(s@, start as int));
        }
        out.push(line);
        start = next;
    }
    proof {
        assert(texts(out@) + lines_from(s@, start as int) =~= texts(out@));
    }
    out
}

/// Whether `line` begins with `prefix`.
pub fn starts_with(line: &str, prefix: &str) -> (r: bool)
    ensures
        r == prefix@.is_prefix_of(line@),
{
    let n = prefix.unicode_len();
    if line.unicode_len() < n {
        return false;
    }
    let mut i: usize = 0;
    while i < n
        invariant
            n == prefix@.len(),
            n <= line@.len(),
            i <= n,
            forall|k: int| 0 <= k < i ==> line@[k] == prefix@[k],
        decreases n - i,
    {
        if line.get_char(i) != prefix.get_char(i) {
            assert(line@.subrange(0, n as int)[i as int] != prefix@[i as int]);
            return false;
        }
        i += 1;
    }
    assert(line@.subrange(0, n as int) =~= prefix@);
    true
}

/// Whether two texts hold the same characters.
pub fn same_text(a: &str, b: &str) -> (r: bool)
    ensures
        r == (a@ == b@),
{
    let n = a.unicode_len();
    if b.unicode_len() != n {
        return false;
    }
    let mut i: usize = 0;
    while i < n
        invariant
            n == a@.len(),
            n == b@.len(),
            i <= n,
            forall|k: int| 0 <= k < i ==> a@[k] == b@[k],
        decreases n - i,
    {
        if a.get_char(i) != b.get_char(i) {
            return false;
        }
        i += 1;
    }
    assert(a@ =~= b@);
    true
}

/// Appends the strings of `src` to `dst`.
pub fn append_all(dst: &mut Vec<String>, src: Vec<String>)
    ensures
        texts(final(dst)@) == texts(old(dst)@) + texts(src@),
{
    let n = src.len();
    let mut i: usize = 0;
    while i < n
        invariant
            i <= n,
            n == src@.len(),
            texts(dst@) == texts(old(dst)@) + texts(src@.subrange(0, i as int)),
        decreases n - i,
    {
        let item = src[i].clone();
        proof {
            assert(texts(dst@.push(item)) =~= texts(dst@) + seq![item@]);
            assert(texts(src@.subrange(0, i + 1)) =~= texts(src@.subrange(0, i as int)) + seq![
                item@,
            ]);
        }
        dst.push(item);
        i += 1;
    }
    proof {
        assert(src@.subrange(0, n as int) =~= src@);
    }
}

/// The last whitespace-separated token of a line.
pub fn last_token_of(line: &str) -> (out: String)
    ensures
        out@ == last_token(line@),
{
    let mut end: usize = line.unicode_len();
    assert(line@.subrange(0, end as int) =~= line@);
    while end > 0 && char_is_space(line.get_char(end - 1))
        invariant
            end <= line@.len(),
            trimmed_len(line@.subrange(0, end as int)) == trimmed_len(line@),
        decreases end,
    {
        proof {
            let cur = line@.subrange(0, end as int);
            assert(cur.drop_last() =~= line@.subrange(0, end - 1));
        }
        end -= 1;
    }
    let mut begin: usize = end;
    while begin > 0 && !char_is_space(line.get_char(begin - 1))
        invariant
            begin <= end <= line@.len(),
            token_start(line@, begin as int) == token_start(line@, end as int),
        decreases begin,
    {
        begin -= 1;
    }
    line.substring_char(begin, end).to_owned()
}

} // verus!
