//! Regular-expression matching, delegated to the `regex` crate, and the
//! conversion of its byte offsets to character offsets.

use vstd::prelude::*;

verus! {

/// Where one match of a pattern lies in a text: the whole match and its
/// first two capture groups. The `regex` crate reports offsets in bytes of
/// the UTF-8 form of the text; [`char_captures`] turns them into offsets in
/// characters, which is what the rest of the library works with.
#[derive(Debug, Clone, Copy, PartialEq, Eq)]
pub struct Capture {
    pub start: usize,
    pub end: usize,
    /// Span of group 1, if it took part in the match.
    pub first: Option<(usize, usize)>,
    /// Span of group 2, if it took part in the match.
    pub second: Option<(usize, usize)>,
}

/// The successive non-overlapping matches of `pattern` in `text` as the
/// `regex` crate finds them, in byte offsets, or `None` where `pattern` does
/// not compile.
pub uninterp spec fn regex_captures(pattern: Seq<char>, text: Seq<char>) -> Option<Seq<Capture>>;

/// Whether `span`, if present, is an ordered range inside `lo..=hi`.
pub open spec fn span_within(span: Option<(usize, usize)>, lo: int, hi: int) -> bool {
    span matches Some((a, b)) ==> lo <= a <= b <= hi
}

/// Whether `found` lists ordered, non-overlapping matches that end at or
/// before `len`, each group inside its match.
pub open spec fn captures_ordered(found: Seq<Capture>, len: int) -> bool {
    &&& forall|i: int|
        #![trigger found[i]]
        0 <= i < found.len() ==> {
            &&& found[i].start <= found[i].end <= len
            &&& span_within(found[i].first, found[i].start as int, found[i].end as int)
            &&& span_within(found[i].second, found[i].start as int, found[i].end as int)
        }
    &&& forall|i: int, j: int|
        #![trigger found[i], found[j]]
        0 <= i < j < found.len() ==> found[i].end <= found[j].start
}

/// Whether `found` lists ordered, non-overlapping matches, each group
/// inside its match.
pub open spec fn spans_ordered(found: Seq<Capture>) -> bool {
    captures_ordered(found, usize::MAX as int)
}

/// Compiles `pattern` with `regex::Regex::new` and walks
/// `Regex::captures_iter` over `text`, taking from each match the byte
/// offsets of the whole match and of groups 1 and 2.
///
/// Trusted: the result is the value that [`regex_captures`] names, that is a
/// function of the two strings alone. Of its shape the contract claims that
/// the matches come in order and do not overlap, which the crate documents
/// of the iterator, that a match starts no later than it ends, and that a
/// capture group lies inside the match it belongs to. The last is not
/// documented in so many words: the engine has no look-around, so a group
/// can only span text that its match spans.
#[verifier::external_body]
pub(crate) fn captures(pattern: &str, text: &str) -> (found: Option<Vec<Capture>>)
    ensures
        found is Some <==> regex_captures(pattern@, text@) is Some,
        found matches Some(v) ==> regex_captures(pattern@, text@) == Some(v@),
        found matches Some(v) ==> spans_ordered(v@),
{
    let re = regex::Regex::new(pattern).ok()?;
    let found = re.captures_iter(text).map(|caps| {
        let span = |group: usize| caps.get(group).map(|m| (m.start(), m.end()));
        let whole = caps.get_match();
        Capture { start: whole.start(), end: whole.end(), first: span(1), second: span(2) }
    });
    Some(found.collect())
}

/// Number of bytes that a character takes in UTF-8.
pub open spec fn utf8_width(c: char) -> int {
    let code = c as u32;
    if code < 0x80 {
        1
    } else if code < 0x800 {
        2
    } else if code < 0x10000 {
        3
    } else {
        4
    }
}

/// Number of bytes that `c` takes in UTF-8.
pub fn char_width(c: char) -> (width: usize)
    ensures
        width == utf8_width(c),
{
    let code: u32 = c as u32;
    if code < 0x80 {
        1
    } else if code < 0x800 {
        2
    } else if code < 0x10000 {
        3
    } else {
        4
    }
}

/// The character offset that stands for the byte offset `byte` in the UTF-8
/// form of `text`: the number of characters that start in front of it. For
/// an offset at which a character starts, that is the index of the
/// character; beyond the end of the text it is the length of the text.
pub open spec fn chars_before(text: Seq<char>, byte: int) -> int
    decreases text.len(),
{
    if text.len() == 0 || byte <= 0 {
        0
    } else {
        1 + chars_before(text.drop_first(), byte - utf8_width(text[0]))
    }
}

/// Character offsets lie inside the text and keep the order of the byte
/// offsets.
pub proof fn lemma_chars_before(text: Seq<char>, a: int, b: int)
    requires
        a <= b,
    ensures
        0 <= chars_before(text, a) <= chars_before(text, b) <= text.len(),
    decreases text.len(),
{
    if text.len() > 0 && b > 0 {
        lemma_chars_before(
            text.drop_first(),
            a - utf8_width(text[0]),
            b - utf8_width(text[0]),
        );
    }
}

/// The character offset for a byte offset (see [`chars_before`]).
pub fn char_offset(chars: &Vec<char>, byte: usize) -> (index: usize)
    ensures
        index == chars_before(chars@, byte as int),
        index <= chars.len(),
{
    let mut index: usize = 0;
    let mut left: usize = byte;
    proof {
        assert(chars@.skip(0) =~= chars@);
    }
    while index < chars.len() && left > 0
        invariant
            index <= chars.len(),
            chars_before(chars@, byte as int) == index + chars_before(
                chars@.skip(index as int),
                left as int,
            ),
        decreases chars.len() - index,
    {
        let width = char_width(chars[index]);
        proof {
            let rest = chars@.skip(index as int);
            assert(rest[0] == chars@[index as int]);
            assert(rest.drop_first() =~= chars@.skip(index + 1));
            if left <= width {
                lemma_chars_before(rest.drop_first(), left - width, 0);
            }
        }
        left = if left <= width {
            0
        } else {
            left - width
        };
        index += 1;
    }
    index
}

/// A span of byte offsets in character offsets.
pub open spec fn span_in_chars(text: Seq<char>, span: Option<(usize, usize)>) -> Option<
    (usize, usize),
> {
    match span {
        Some((a, b)) => Some(
            (chars_before(text, a as int) as usize, chars_before(text, b as int) as usize),
        ),
        None => None,
    }
}

/// A match given in byte offsets, in character offsets.
pub open spec fn capture_in_chars(text: Seq<char>, found: Capture) -> Capture {
    Capture {
        start: chars_before(text, found.start as int) as usize,
        end: chars_before(text, found.end as int) as usize,
        first: span_in_chars(text, found.first),
        second: span_in_chars(text, found.second),
    }
}

/// Matches given in byte offsets, in character offsets.
pub open spec fn captures_in_chars(text: Seq<char>, found: Seq<Capture>) -> Seq<Capture> {
    Seq::new(found.len(), |i: int| capture_in_chars(text, found[i]))
}

/// Ordered matches stay ordered in character offsets, and lie inside the
/// text.
pub proof fn lemma_captures_in_chars(text: Seq<char>, found: Seq<Capture>)
    requires
        spans_ordered(found),
        text.len() <= usize::MAX,
    ensures
        captures_ordered(captures_in_chars(text, found), text.len() as int),
{
    let out = captures_in_chars(text, found);
    assert forall|i: int| #![trigger out[i]] 0 <= i < out.len() implies {
        &&& out[i].start <= out[i].end <= text.len()
        &&& span_within(out[i].first, out[i].start as int, out[i].end as int)
        &&& span_within(out[i].second, out[i].start as int, out[i].end as int)
    } by {
        let c = found[i];
        lemma_chars_before(text, c.start as int, c.end as int);
        match c.first {
            Some((a, b)) => {
                lemma_chars_before(text, c.start as int, a as int);
                lemma_chars_before(text, a as int, b as int);
                lemma_chars_before(text, b as int, c.end as int);
            },
            None => {},
        }
        match c.second {
            Some((a, b)) => {
                lemma_chars_before(text, c.start as int, a as int);
                lemma_chars_before(text, a as int, b as int);
                lemma_chars_before(text, b as int, c.end as int);
            },
            None => {},
        }
    }
    assert forall|i: int, j: int| #![trigger out[i], out[j]] 0 <= i < j < out.len() implies out[i].end
        <= out[j].start by {
        assert(found[i].end <= found[j].start);
        lemma_chars_before(text, found[i].end as int, found[j].start as int);
        lemma_chars_before(text, found[i].start as int, found[i].end as int);
        lemma_chars_before(text, found[j].start as int, found[j].end as int);
    }
}

fn span_chars(chars: &Vec<char>, span: Option<(usize, usize)>) -> (out: Option<(usize, usize)>)
    ensures
        out == span_in_chars(chars@, span),
{
    match span {
        Some((a, b)) => Some((char_offset(chars, a), char_offset(chars, b))),
        None => None,
    }
}

/// Turns matches given in byte offsets of the UTF-8 form of `chars` into
/// matches in character offsets.
pub fn char_captures(chars: &Vec<char>, found: &Vec<Capture>) -> (out: Vec<Capture>)
    ensures
        out@ == captures_in_chars(chars@, found@),
        spans_ordered(found@) ==> captures_ordered(out@, chars.len() as int),
{
    let mut out: Vec<Capture> = Vec::new();
    let mut k: usize = 0;
    while k < found.len()
        invariant
            k <= found.len(),
            out.len() == k,
            forall|i: int| 0 <= i < k ==> #[trigger] out@[i] == capture_in_chars(chars@, found@[i]),
        decreases found.len() - k,
    {
        let one = found[k];
        out.push(
            Capture {
                start: char_offset(chars, one.start),
                end: char_offset(chars, one.end),
                first: span_chars(chars, one.first),
                second: span_chars(chars, one.second),
            },
        );
        k += 1;
    }
    proof {
        assert(out@ =~= captures_in_chars(chars@, found@));
        if spans_ordered(found@) {
            assert(chars@.len() == chars.len());
            lemma_captures_in_chars(chars@, found@);
        }
    }
    out
}

} // verus!
