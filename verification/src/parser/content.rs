//! Extraction of ordered, typed content blocks from a message body.

use crate::json::{json_pretty, pretty, JsonTree, JsonValue};
use crate::models::{ContentBlock, ContentBlockType, ContentBlockView};
use crate::parser::jsonl::{RawContent, RawContentBlock, RawContentBlockView, RawContentView};
use crate::pattern::{
    captures, captures_in_chars, captures_ordered, char_captures, regex_captures, Capture,
};
use crate::text::{
    append_chars, chars_of, is_blank, lemma_trim_empty_iff_blank, slice_chars, str_equal,
    string_of, trim_chars, trim_end_chars, trim_end_spec, trim_spec,
};
use vstd::prelude::*;

verus! {

/// A fenced region: three backticks, an optional language tag of word
/// characters, a line break, the shortest body, three backticks. Group 1 is
/// the language tag, group 2 the body.
pub const CODE_FENCE_PATTERN: &'static str = "```(\\w*)\\n([\\s\\S]*?)```";

/// Longest preview, in characters, that is returned unshortened.
pub const PREVIEW_LIMIT: usize = 100;

/// Language given to a fenced region that names none.
pub open spec fn default_language() -> Seq<char> {
    "text"@
}

/// Marker appended to a shortened preview.
pub open spec fn ellipsis() -> Seq<char> {
    "..."@
}

/// The text block with the given content.
pub open spec fn text_block(content: Seq<char>) -> ContentBlockView {
    ContentBlockView {
        block_type: ContentBlockType::Text,
        content,
        language: None,
        tool_name: None,
    }
}

/// The blocks that a span of plain text contributes: its trimmed content as
/// one text block, or nothing where the span is blank.
pub open spec fn span_blocks(span: Seq<char>) -> Seq<ContentBlockView> {
    if trim_spec(span).len() == 0 {
        Seq::empty()
    } else {
        seq![text_block(trim_spec(span))]
    }
}

/// The part of `text` that a capture group spans; empty for a group that
/// took no part in the match.
pub open spec fn group_text(text: Seq<char>, span: Option<(usize, usize)>) -> Seq<char> {
    match span {
        Some((a, b)) => text.subrange(a as int, b as int),
        None => Seq::empty(),
    }
}

/// The code block of one fenced region of `text`.
pub open spec fn code_block(text: Seq<char>, fence: Capture) -> ContentBlockView {
    let tag = group_text(text, fence.first);
    ContentBlockView {
        block_type: ContentBlockType::Code,
        content: trim_end_spec(group_text(text, fence.second)),
        language: Some(
            if tag.len() == 0 {
                default_language()
            } else {
                tag
            },
        ),
        tool_name: None,
    }
}

/// Where the text before fence `k` begins: the end of the fence before it.
pub open spec fn gap_start(fences: Seq<Capture>, k: int) -> int {
    if k <= 0 {
        0
    } else {
        fences[k - 1].end as int
    }
}

/// The blocks of the plain text between two positions of `text`.
pub open spec fn gap_blocks(text: Seq<char>, from: int, to: int) -> Seq<ContentBlockView> {
    if from < to {
        span_blocks(text.subrange(from, to))
    } else {
        Seq::empty()
    }
}

/// The blocks that the first `k` fences of `text` give, each preceded by the
/// plain text in front of it.
pub open spec fn fenced_blocks(text: Seq<char>, fences: Seq<Capture>, k: int) -> Seq<
    ContentBlockView,
>
    decreases k,
{
    if k <= 0 {
        Seq::empty()
    } else {
        fenced_blocks(text, fences, k - 1) + gap_blocks(
            text,
            gap_start(fences, k - 1),
            fences[k - 1].start as int,
        ).push(code_block(text, fences[k - 1]))
    }
}

/// The ordered blocks of a text body whose fenced regions are `fences`:
/// trimmed text blocks for the non-blank spans around the fences, one code
/// block for each fence. An empty body has no blocks.
pub open spec fn text_blocks(text: Seq<char>, fences: Seq<Capture>) -> Seq<ContentBlockView> {
    if text.len() == 0 {
        Seq::empty()
    } else {
        fenced_blocks(text, fences, fences.len() as int) + gap_blocks(
            text,
            gap_start(fences, fences.len() as int),
            text.len() as int,
        )
    }
}

/// The fenced regions of `text`: the matches of [`CODE_FENCE_PATTERN`], in
/// character offsets.
pub open spec fn code_fences(text: Seq<char>) -> Seq<Capture> {
    match regex_captures(CODE_FENCE_PATTERN@, text) {
        Some(found) => captures_in_chars(text, found),
        None => Seq::empty(),
    }
}

/// A body without fences is one trimmed text block, or nothing if blank.
pub proof fn lemma_unfenced_text(text: Seq<char>)
    ensures
        text_blocks(text, Seq::empty()) == if is_blank(text) {
            Seq::<ContentBlockView>::empty()
        } else {
            seq![text_block(trim_spec(text))]
        },
{
    lemma_trim_empty_iff_blank(text);
    if text.len() > 0 {
        assert(text.subrange(0, text.len() as int) =~= text);
        assert(fenced_blocks(text, Seq::<Capture>::empty(), 0) =~= Seq::empty());
        assert(text_blocks(text, Seq::empty()) =~= span_blocks(text));
    }
}

fn push_block(blocks: &mut Vec<ContentBlock>, block: ContentBlock)
    ensures
        final(blocks).deep_view() == old(blocks).deep_view().push(block.deep_view()),
{
    blocks.push(block);
    assert(blocks.deep_view() =~= old(blocks).deep_view().push(block.deep_view()));
}

/// Appends the blocks of the plain text `chars[from..to]`.
fn push_span(blocks: &mut Vec<ContentBlock>, chars: &Vec<char>, from: usize, to: usize)
    requires
        to <= chars.len(),
    ensures
        final(blocks).deep_view() == old(blocks).deep_view() + gap_blocks(
            chars@,
            from as int,
            to as int,
        ),
{
    if from < to {
        let trimmed = trim_chars(&slice_chars(chars, from, to));
        if trimmed.len() > 0 {
            push_block(
                blocks,
                ContentBlock {
                    block_type: ContentBlockType::Text,
                    content: string_of(&trimmed),
                    language: None,
                    tool_name: None,
                },
            );
        }
    }
    assert(blocks.deep_view() =~= old(blocks).deep_view() + gap_blocks(
        chars@,
        from as int,
        to as int,
    ));
}

/// The characters of `chars` that a capture group spans.
fn group_chars(chars: &Vec<char>, span: Option<(usize, usize)>) -> (out: Vec<char>)
    requires
        span matches Some((a, b)) ==> a <= b <= chars.len(),
    ensures
        out@ == group_text(chars@, span),
{
    match span {
        Some((a, b)) => slice_chars(chars, a, b),
        None => Vec::new(),
    }
}

/// Assembles the blocks of `text` from the fenced regions found in it.
///
/// `fences` must list ordered, non-overlapping regions inside `text`. The
/// result holds, in order, a trimmed text block for each non-blank span
/// outside the fences and a code block for each fence; a fence without a
/// language tag gets the language `text`, and the body of a fence loses its
/// trailing whitespace only.
pub fn blocks_from_fences(text: &str, fences: &Vec<Capture>) -> (blocks: Vec<ContentBlock>)
    requires
        captures_ordered(fences@, text@.len() as int),
    ensures
        blocks.deep_view() == text_blocks(text@, fences@),
{
    let chars = chars_of(text);
    let mut blocks: Vec<ContentBlock> = Vec::new();
    if chars.len() == 0 {
        assert(blocks.deep_view() =~= Seq::empty());
        return blocks;
    }
    let mut last_end: usize = 0;
    let mut k: usize = 0;
    assert(blocks.deep_view() =~= fenced_blocks(text@, fences@, 0));
    while k < fences.len()
        invariant
            k <= fences.len(),
            chars@ == text@,
            captures_ordered(fences@, text@.len() as int),
            last_end == gap_start(fences@, k as int),
            last_end <= chars.len(),
            blocks.deep_view() == fenced_blocks(text@, fences@, k as int),
        decreases fences.len() - k,
    {
        let fence = fences[k];
        push_span(&mut blocks, &chars, last_end, fence.start);
        let tag = group_chars(&chars, fence.first);
        let body = group_chars(&chars, fence.second);
        let language = if tag.len() == 0 {
            "text".to_owned()
        } else {
            string_of(&tag)
        };
        push_block(
            &mut blocks,
            ContentBlock {
                block_type: ContentBlockType::Code,
                content: string_of(&trim_end_chars(&body)),
                language: Some(language),
                tool_name: None,
            },
        );
        assert(blocks.deep_view() =~= fenced_blocks(text@, fences@, k + 1));
        last_end = fence.end;
        k += 1;
    }
    push_span(&mut blocks, &chars, last_end, chars.len());
    blocks
}

/// Splits a plain-text body into text and code blocks.
///
/// The fenced regions are the matches of [`CODE_FENCE_PATTERN`]; an
/// unterminated fence is no match, so it stays part of the surrounding text.
pub fn parse_text_content(text: &str) -> (blocks: Vec<ContentBlock>)
    ensures
        blocks.deep_view() == text_blocks(text@, code_fences(text@)),
{
    match captures(CODE_FENCE_PATTERN, text) {
        Some(found) => {
            let fences = char_captures(&chars_of(text), &found);
            blocks_from_fences(text, &fences)
        },
        None => {
            let none: Vec<Capture> = Vec::new();
            blocks_from_fences(text, &none)
        },
    }
}

/// The text shown for a tool invocation: its input as indented JSON, or
/// nothing where it has no input.
pub open spec fn tool_input_text(input: Option<JsonTree>) -> Seq<char> {
    match input {
        Some(tree) => json_pretty(tree),
        None => Seq::empty(),
    }
}

/// The text shown for a tool result: a string result as it is, any other
/// result as indented JSON, nothing where there is no result.
pub open spec fn tool_result_text(content: Option<JsonTree>) -> Seq<char> {
    match content {
        Some(JsonTree::String(s)) => s,
        Some(tree) => json_pretty(tree),
        None => Seq::empty(),
    }
}

/// The blocks that one sub-block of a structured body gives.
///
/// A `text` sub-block goes through the fence scan; `tool_use` and
/// `tool_result` give one block each; a sub-block of any other type gives a
/// text block from its text field, taken as it is. A sub-block whose text is
/// needed and is absent or empty gives nothing.
pub open spec fn sub_blocks(raw: RawContentBlockView) -> Seq<ContentBlockView> {
    if raw.block_type == "text"@ {
        match raw.text {
            Some(text) => text_blocks(text, code_fences(text)),
            None => Seq::empty(),
        }
    } else if raw.block_type == "tool_use"@ {
        seq![
            ContentBlockView {
                block_type: ContentBlockType::ToolUse,
                content: tool_input_text(raw.input),
                language: None,
                tool_name: raw.name,
            },
        ]
    } else if raw.block_type == "tool_result"@ {
        seq![
            ContentBlockView {
                block_type: ContentBlockType::ToolResult,
                content: tool_result_text(raw.content),
                language: None,
                tool_name: raw.tool_use_id,
            },
        ]
    } else {
        match raw.text {
            Some(text) => if text.len() == 0 {
                Seq::empty()
            } else {
                seq![text_block(text)]
            },
            None => Seq::empty(),
        }
    }
}

/// The blocks of the first `k` sub-blocks of a structured body, in order.
pub open spec fn block_array_blocks(raw: Seq<RawContentBlockView>, k: int) -> Seq<
    ContentBlockView,
>
    decreases k,
{
    if k <= 0 {
        Seq::empty()
    } else {
        block_array_blocks(raw, k - 1) + sub_blocks(raw[k - 1])
    }
}

/// The ordered display blocks of a message body.
pub open spec fn content_blocks(raw: RawContentView) -> Seq<ContentBlockView> {
    match raw {
        RawContentView::Text(text) => text_blocks(text, code_fences(text)),
        RawContentView::Blocks(blocks) => block_array_blocks(blocks, blocks.len() as int),
    }
}

fn clone_name(name: &Option<String>) -> (copy: Option<String>)
    ensures
        copy.deep_view() == name.deep_view(),
{
    match name {
        Some(text) => Some(text.clone()),
        None => None,
    }
}

/// The blocks of one sub-block of a structured body.
fn parse_sub_block(raw: &RawContentBlock) -> (blocks: Vec<ContentBlock>)
    ensures
        blocks.deep_view() == sub_blocks(raw.deep_view()),
{
    let mut blocks: Vec<ContentBlock> = Vec::new();
    assert(blocks.deep_view() =~= Seq::empty());
    if str_equal(raw.block_type.as_str(), "text") {
        match &raw.text {
            Some(text) => parse_text_content(text.as_str()),
            None => blocks,
        }
    } else if str_equal(raw.block_type.as_str(), "tool_use") {
        let content = match &raw.input {
            Some(input) => pretty(input),
            None => String::new(),
        };
        push_block(
            &mut blocks,
            ContentBlock {
                block_type: ContentBlockType::ToolUse,
                content,
                language: None,
                tool_name: clone_name(&raw.name),
            },
        );
        assert(blocks.deep_view() =~= sub_blocks(raw.deep_view()));
        blocks
    } else if str_equal(raw.block_type.as_str(), "tool_result") {
        let content = match &raw.content {
            Some(JsonValue::String(s)) => s.clone(),
            Some(other) => pretty(other),
            None => String::new(),
        };
        push_block(
            &mut blocks,
            ContentBlock {
                block_type: ContentBlockType::ToolResult,
                content,
                language: None,
                tool_name: clone_name(&raw.tool_use_id),
            },
        );
        assert(blocks.deep_view() =~= sub_blocks(raw.deep_view()));
        blocks
    } else {
        match &raw.text {
            Some(text) => {
                if !text.as_str().is_empty() {
                    push_block(
                        &mut blocks,
                        ContentBlock {
                            block_type: ContentBlockType::Text,
                            content: text.clone(),
                            language: None,
                            tool_name: None,
                        },
                    );
                    assert(blocks.deep_view() =~= sub_blocks(raw.deep_view()));
                }
                blocks
            },
            None => blocks,
        }
    }
}

/// Converts the sub-blocks of a structured body into display blocks, in
/// order (see [`sub_blocks`]).
pub fn parse_block_array(raw_blocks: &[RawContentBlock]) -> (blocks: Vec<ContentBlock>)
    ensures
        blocks.deep_view() == block_array_blocks(
            raw_blocks.deep_view(),
            raw_blocks.len() as int,
        ),
{
    let mut blocks: Vec<ContentBlock> = Vec::new();
    assert(blocks.deep_view() =~= Seq::empty());
    let mut k: usize = 0;
    while k < raw_blocks.len()
        invariant
            k <= raw_blocks.len(),
            blocks.deep_view() == block_array_blocks(raw_blocks.deep_view(), k as int),
        decreases raw_blocks.len() - k,
    {
        let mut part = parse_sub_block(&raw_blocks[k]);
        let ghost before = blocks.deep_view();
        let ghost added = part.deep_view();
        blocks.append(&mut part);
        assert(blocks.deep_view() =~= before + added);
        assert(raw_blocks.deep_view()[k as int] == raw_blocks@[k as int].deep_view());
        k += 1;
    }
    blocks
}

/// Turns a message body into its ordered display blocks: a plain-text body
/// through the fence scan, a structured body block by block.
pub fn parse_content_blocks(raw_content: &RawContent) -> (blocks: Vec<ContentBlock>)
    ensures
        blocks.deep_view() == content_blocks(raw_content.deep_view()),
{
    match raw_content {
        RawContent::Text(text) => parse_text_content(text.as_str()),
        RawContent::Blocks(raw_blocks) => parse_block_array(raw_blocks.as_slice()),
    }
}

/// Position of the last occurrence of `c` in `s`.
pub open spec fn last_index_of(s: Seq<char>, c: char) -> Option<int>
    decreases s.len(),
{
    if s.len() == 0 {
        None
    } else if s.last() == c {
        Some(s.len() - 1)
    } else {
        last_index_of(s.drop_last(), c)
    }
}

/// The preview of one text: the text itself if it has at most
/// [`PREVIEW_LIMIT`] characters; otherwise its first `PREVIEW_LIMIT`
/// characters, cut before the last space among them if there is one,
/// followed by an ellipsis.
pub open spec fn preview_of(content: Seq<char>) -> Seq<char> {
    if content.len() <= PREVIEW_LIMIT {
        content
    } else {
        let head = content.take(PREVIEW_LIMIT as int);
        match last_index_of(head, ' ') {
            Some(cut) => head.take(cut) + ellipsis(),
            None => head + ellipsis(),
        }
    }
}

/// The content of the first non-empty text block among the first `k`.
pub open spec fn first_text(blocks: Seq<ContentBlockView>, k: int) -> Option<Seq<char>>
    decreases k,
{
    if k <= 0 {
        None
    } else {
        match first_text(blocks, k - 1) {
            Some(content) => Some(content),
            None => if blocks[k - 1].block_type == ContentBlockType::Text && blocks[k
                - 1].content.len() > 0 {
                Some(blocks[k - 1].content)
            } else {
                None
            },
        }
    }
}

/// The preview of a list of blocks: that of its first non-empty text block,
/// or the empty string where it has none.
pub open spec fn preview_spec(blocks: Seq<ContentBlockView>) -> Seq<char> {
    match first_text(blocks, blocks.len() as int) {
        Some(content) => preview_of(content),
        None => Seq::empty(),
    }
}

/// A preview is never longer than the limit plus the ellipsis.
pub proof fn lemma_preview_len(content: Seq<char>)
    ensures
        preview_of(content).len() <= PREVIEW_LIMIT + ellipsis().len(),
        content.len() <= PREVIEW_LIMIT ==> preview_of(content) == content,
{
    if content.len() > PREVIEW_LIMIT {
        let head = content.take(PREVIEW_LIMIT as int);
        lemma_last_index_in_range(head, ' ');
    }
}

/// The last occurrence, where there is one, is an index of the sequence at
/// which the character stands, and the character does not occur after it.
pub proof fn lemma_last_index_in_range(s: Seq<char>, c: char)
    ensures
        match last_index_of(s, c) {
            Some(at) => 0 <= at < s.len() && s[at] == c && forall|j: int|
                at < j < s.len() ==> s[j] != c,
            None => forall|j: int| 0 <= j < s.len() ==> s[j] != c,
        },
    decreases s.len(),
{
    if s.len() > 0 && s.last() != c {
        let front = s.drop_last();
        lemma_last_index_in_range(front, c);
        match last_index_of(front, c) {
            Some(at) => {
                assert(s[at] == front[at]);
                assert forall|j: int| at < j < s.len() implies s[j] != c by {
                    if j < front.len() {
                        assert(s[j] == front[j]);
                    }
                }
            },
            None => {
                assert forall|j: int| 0 <= j < s.len() implies s[j] != c by {
                    if j < front.len() {
                        assert(s[j] == front[j]);
                    }
                }
            },
        }
    }
}

/// Index of the last occurrence of `c` among the first `upto` characters.
fn find_last(chars: &Vec<char>, upto: usize, c: char) -> (at: Option<usize>)
    requires
        upto <= chars.len(),
    ensures
        at matches Some(i) ==> last_index_of(chars@.take(upto as int), c) == Some(i as int),
        at is None ==> last_index_of(chars@.take(upto as int), c) is None,
{
    let mut i: usize = upto;
    while i > 0
        invariant
            i <= upto <= chars.len(),
            last_index_of(chars@.take(upto as int), c) == last_index_of(chars@.take(i as int), c),
        decreases i,
    {
        if chars[i - 1] == c {
            return Some(i - 1);
        }
        proof {
            assert(chars@.take(i as int).drop_last() =~= chars@.take(i - 1));
        }
        i -= 1;
    }
    None
}

/// The preview of the characters of one text block.
fn preview_chars(chars: &Vec<char>) -> (out: Vec<char>)
    ensures
        out@ == preview_of(chars@),
{
    if chars.len() <= PREVIEW_LIMIT {
        return slice_chars(chars, 0, chars.len());
    }
    let cut = match find_last(chars, PREVIEW_LIMIT, ' ') {
        Some(at) => at,
        None => PREVIEW_LIMIT,
    };
    proof {
        lemma_last_index_in_range(chars@.take(PREVIEW_LIMIT as int), ' ');
        assert(chars@.take(PREVIEW_LIMIT as int).take(cut as int) =~= chars@.subrange(
            0,
            cut as int,
        ));
    }
    let mut out = slice_chars(chars, 0, cut);
    let dots = chars_of("...");
    append_chars(&mut out, &dots);
    out
}

/// Preview of a message: its first non-empty text block, shortened to
/// [`PREVIEW_LIMIT`] characters at a word boundary where there is one.
pub fn extract_preview(blocks: &[ContentBlock]) -> (preview: String)
    ensures
        preview@ == preview_spec(blocks.deep_view()),
{
    let mut k: usize = 0;
    while k < blocks.len()
        invariant
            k <= blocks.len(),
            first_text(blocks.deep_view(), k as int) is None,
        decreases blocks.len() - k,
    {
        let block = &blocks[k];
        let is_text = match block.block_type {
            ContentBlockType::Text => true,
            _ => false,
        };
        if is_text {
            let chars = chars_of(block.content.as_str());
            if chars.len() > 0 {
                let out = preview_chars(&chars);
                proof {
                    lemma_first_text_found(blocks.deep_view(), k as int, blocks.len() as int);
                }
                return string_of(&out);
            }
        }
        k += 1;
    }
    String::new()
}

/// Once a non-empty text block is found at `k` with none before it, it is
/// the first text of every longer prefix.
pub proof fn lemma_first_text_found(blocks: Seq<ContentBlockView>, k: int, n: int)
    requires
        0 <= k < n <= blocks.len(),
        first_text(blocks, k) is None,
        blocks[k].block_type == ContentBlockType::Text,
        blocks[k].content.len() > 0,
    ensures
        first_text(blocks, n) == Some(blocks[k].content),
    decreases n - k,
{
    if n > k + 1 {
        lemma_first_text_found(blocks, k, n - 1);
    }
}

} // verus!
