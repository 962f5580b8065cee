//! Text as sequences of characters: lines, white space, joining and case.
//!
//! Every contract in this crate speaks of a string through its view, a
//! `Seq<char>`. The functions here split a text into lines, trim it and join
//! lines back together, each against a spec function of the same meaning.

use vstd::prelude::*;
use vstd::slice::slice_subrange;

verus! {

/// Whether `c` is white space. This is the answer of `char::is_whitespace`,
/// which tells whether Unicode counts the character as `White_Space`; the
/// set of such characters is not spelled out here.
pub uninterp spec fn is_whitespace(c: char) -> bool;

/// The lower-case form of `text`. This is the string that `str::to_lowercase`
/// returns for it, by the rules of Unicode; it is not spelled out here.
pub uninterp spec fn lowercased(text: Seq<char>) -> Seq<char>;

/// The views of a sequence of strings, in order.
pub open spec fn texts(strings: Seq<String>) -> Seq<Seq<char>> {
    Seq::new(strings.len(), |i: int| strings[i]@)
}

/// `text` without its leading and trailing white space.
pub open spec fn trimmed(text: Seq<char>) -> Seq<char>
    decreases text.len(),
{
    if text.len() == 0 {
        text
    } else if is_whitespace(text.first()) {
        trimmed(text.drop_first())
    } else if is_whitespace(text.last()) {
        trimmed(text.drop_last())
    } else {
        text
    }
}

/// Index of the first line feed in `text`, or the length of `text` when it
/// holds none.
pub open spec fn first_newline(text: Seq<char>) -> nat
    decreases text.len(),
{
    if text.len() == 0 || text.first() == '\n' {
        0
    } else {
        1 + first_newline(text.drop_first())
    }
}

/// `line` without the carriage return that ends it, if one does.
pub open spec fn without_carriage_return(line: Seq<char>) -> Seq<char> {
    if line.len() > 0 && line.last() == '\r' {
        line.drop_last()
    } else {
        line
    }
}

/// The lines of `text`. A line ends at a line feed; a carriage return directly
/// before that line feed belongs to the line ending. What follows the last
/// line feed is a line of its own unless it is empty, so a final line feed
/// adds no empty line.
pub open spec fn lines_of(text: Seq<char>) -> Seq<Seq<char>>
    decreases text.len(),
{
    let n = first_newline(text);
    if text.len() == 0 {
        Seq::empty()
    } else if n >= text.len() {
        seq![text]
    } else {
        seq![without_carriage_return(text.take(n as int))] + lines_of(text.skip(n + 1 as int))
    }
}

/// `lines` joined into one text with a line feed between neighbours.
pub open spec fn joined(lines: Seq<Seq<char>>) -> Seq<char>
    decreases lines.len(),
{
    if lines.len() == 0 {
        Seq::empty()
    } else if lines.len() == 1 {
        lines.first()
    } else {
        joined(lines.drop_last()) + seq!['\n'] + lines.last()
    }
}

/// `trimmed(text)` is the stretch between the first and the last character of
/// `text` that is not white space.
pub proof fn lemma_trimmed_is_subrange(text: Seq<char>, start: int, end: int)
    requires
        0 <= start <= end <= text.len(),
        forall|i: int| 0 <= i < start ==> is_whitespace(#[trigger] text[i]),
        forall|i: int| end <= i < text.len() ==> is_whitespace(#[trigger] text[i]),
        start < end ==> !is_whitespace(text[start]) && !is_whitespace(text[end - 1]),
    ensures
        trimmed(text) == text.subrange(start, end),
    decreases text.len(),
{
    if text.len() == 0 {
        assert(text.subrange(start, end) =~= text);
    } else if is_whitespace(text.first()) {
        let rest = text.drop_first();
        if start > 0 {
            lemma_trimmed_is_subrange(rest, start - 1, end - 1);
            assert(rest.subrange(start - 1, end - 1) =~= text.subrange(start, end));
        } else {
            lemma_trimmed_is_subrange(rest, 0, 0);
            assert(rest.subrange(0, 0) =~= text.subrange(start, end));
        }
    } else if is_whitespace(text.last()) {
        let rest = text.drop_last();
        assert(start == 0);
        assert(end < text.len());
        lemma_trimmed_is_subrange(rest, start, end);
        assert(rest.subrange(start, end) =~= text.subrange(start, end));
    } else {
        assert(start == 0);
        assert(end == text.len());
        assert(text.subrange(start, end) =~= text);
    }
}

/// `first_newline(text)` is `n` when no line feed stands before `n` and one
/// stands at `n`, or the text ends there.
pub proof fn lemma_first_newline_is(text: Seq<char>, n: int)
    requires
        0 <= n <= text.len(),
        forall|i: int| 0 <= i < n ==> #[trigger] text[i] != '\n',
        n < text.len() ==> text[n] == '\n',
    ensures
        first_newline(text) == n,
    decreases text.len(),
{
    if n > 0 {
        let rest = text.drop_first();
        assert forall|i: int| 0 <= i < n - 1 implies #[trigger] rest[i] != '\n' by {
            assert(rest[i] == text[i + 1]);
        }
        lemma_first_newline_is(rest, n - 1);
    }
}

/// A character is white space exactly when `is_whitespace` holds of it.
/// Calls `char::is_whitespace`.
#[verifier::external_body]
pub(crate) fn char_is_whitespace(c: char) -> (white: bool)
    ensures
        white == is_whitespace(c),
{
    c.is_whitespace()
}

/// The lower-case form of `text`, which `lowercased` names.
/// Calls `str::to_lowercase`.
#[verifier::external_body]
pub(crate) fn to_lowercase(text: &str) -> (lower: String)
    ensures
        lower@ == lowercased(text@),
{
    text.to_lowercase()
}

/// A string made of the characters of `chars`, in their order.
/// Calls `String::from_iter` on the characters.
#[verifier::external_body]
pub(crate) fn string_from_chars(chars: &[char]) -> (text: String)
    ensures
        text@ == chars@,
{
    String::from_iter(chars)
}

/// The characters of `text`, in order.
pub fn to_chars(text: &str) -> (chars: Vec<char>)
    ensures
        chars@ == text@,
{
    let mut chars: Vec<char> = Vec::new();
    for c in it: text.chars()
        invariant
            chars@ == it.seq().take(it.index() as int),
    {
        chars.push(c);
    }
    chars
}

/// Whether `a` and `b` hold the same characters.
pub fn same_text(a: &str, b: &str) -> (same: bool)
    ensures
        same == (a@ == b@),
{
    a.to_owned() == b.to_owned()
}

/// The part of `chars` that is left when the white space at both ends is
/// taken away.
pub fn trim(chars: &[char]) -> (kept: &[char])
    ensures
        kept@ == trimmed(chars@),
{
    let mut start: usize = 0;
    while start < chars.len() && char_is_whitespace(chars[start])
        invariant
            start <= chars.len(),
            forall|i: int| 0 <= i < start ==> is_whitespace(#[trigger] chars@[i]),
        decreases chars.len() - start,
    {
        start += 1;
    }
    let mut end: usize = chars.len();
    while end > start && char_is_whitespace(chars[end - 1])
        invariant
            start <= end <= chars.len(),
            forall|i: int| end <= i < chars.len() ==> is_whitespace(#[trigger] chars@[i]),
        decreases end,
    {
        end -= 1;
    }
    proof {
        lemma_trimmed_is_subrange(chars@, start as int, end as int);
    }
    slice_subrange(chars, start, end)
}

/// Splits `text` into its lines.
pub fn split_lines(text: &str) -> (lines: Vec<String>)
    ensures
        texts(lines@) == lines_of(text@),
{
    let chars = to_chars(text);
    let mut lines: Vec<String> = Vec::new();
    let mut start: usize = 0;
    let mut i: usize = 0;
    proof {
        assert(text@.skip(0) =~= text@);
        assert(texts(lines@) + lines_of(text@) =~= lines_of(text@));
    }
    while i < chars.len()
        invariant
            chars@ == text@,
            start <= i <= chars.len(),
            forall|k: int| start <= k < i ==> #[trigger] chars@[k] != '\n',
            lines_of(text@) == texts(lines@) + lines_of(text@.skip(start as int)),
        decreases chars.len() - i,
    {
        if chars[i] == '\n' {
            let end: usize = if i > start && chars[i - 1] == '\r' {
                i - 1
            } else {
                i
            };
            let line = string_from_chars(slice_subrange(chars.as_slice(), start, end));
            proof {
                let rest = text@.skip(start as int);
                lemma_first_newline_is(rest, i - start);
                assert(rest.take(i - start) =~= text@.subrange(start as int, i as int));
                assert(without_carriage_return(text@.subrange(start as int, i as int)) =~= line@);
                assert(rest.skip(i - start + 1) =~= text@.skip(i + 1));
                assert(texts(lines@.push(line)) =~= texts(lines@) + seq![line@]);
            }
            lines.push(line);
            start = i + 1;
        }
        i += 1;
    }
    if start < chars.len() {
        let line = string_from_chars(slice_subrange(chars.as_slice(), start, chars.len()));
        proof {
            let rest = text@.skip(start as int);
            lemma_first_newline_is(rest, chars.len() - start);
            assert(rest =~= line@);
            assert(texts(lines@.push(line)) =~= texts(lines@) + seq![line@]);
        }
        lines.push(line);
    }
    lines
}

/// Joins `lines` into one string, with a line feed between neighbours.
pub fn join_lines(lines: &Vec<String>) -> (text: String)
    ensures
        text@ == joined(texts(lines@)),
{
    let mut text = String::new();
    let mut i: usize = 0;
    while i < lines.len()
        invariant
            i <= lines.len(),
            text@ == joined(texts(lines@).take(i as int)),
        decreases lines.len() - i,
    {
        proof {
            reveal_strlit("\n");
            assert("\n"@ =~= seq!['\n']);
            assert(texts(lines@).take(i + 1).drop_last() =~= texts(lines@).take(i as int));
        }
        if i > 0 {
            text.append("\n");
        }
        text.append(lines[i].as_str());
        i += 1;
    }
    assert(texts(lines@).take(lines.len() as int) =~= texts(lines@));
    text
}

} // verus!
