//! Fenced `dataview` blocks: where they stand in a text, and the text with
//! each of them replaced by a one-line comment.

use crate::text::{
    byte_len, is_part, is_part_of, lemma_slice_join, lemma_slice_whole, slice_text, text_slice,
};
use crate::whitespace::{normalize_query, normalized};
use regex::Regex;
use vstd::prelude::*;
use vstd::string::StringExecFns;
use vstd::utf8::encode_utf8;

verus! {

/// A range of byte offsets into a text, the end not included.
#[derive(Clone, Copy, Debug, PartialEq, Eq)]
pub struct Span {
    pub start: usize,
    pub end: usize,
}

/// One occurrence of a pattern in a text: the range of the whole occurrence
/// and the range of one of its capture groups, where that group took part.
#[derive(Clone, Copy, Debug, PartialEq, Eq)]
pub struct FenceMatch {
    pub whole: Span,
    pub body: Option<Span>,
}

/// The pattern of a fenced block that is tagged as a `dataview` query. Its
/// first group is the body of the block, which may span lines and ends at the
/// nearest closing fence.
pub const FENCE_PATTERN: &'static str = "(?ms)```dataview(.*?)```";

/// The group of `FENCE_PATTERN` that holds the body of a block.
pub const BODY_GROUP: usize = 1;

/// `regex::Error`, which says why a pattern did not compile. It is handed
/// through as it comes; nothing inside it is read.
#[verifier::external_type_specification]
#[verifier::external_body]
pub struct ExRegexError(regex::Error);

/// What the `regex` crate finds when it compiles `pattern` and searches
/// `haystack` from left to right for occurrences that do not overlap: `None`
/// where the pattern does not compile, else the occurrences in the order in
/// which they are found, each with the range of group number `group`.
pub uninterp spec fn regex_captures(pattern: Seq<char>, haystack: Seq<char>, group: int) -> Option<
    Seq<FenceMatch>,
>;

/// Compiles `pattern` with `regex::Regex::new` and walks
/// `regex::Regex::captures_iter` over `haystack`; the ranges are read with
/// `Captures::get_match`, `Captures::get`, `Match::start` and `Match::end`.
/// Nothing is claimed of what is found but that it is `regex_captures` of the
/// same arguments: the same pattern, text and group always give the same
/// answer, and the answer is an error exactly where the pattern does not
/// compile. That the ranges fit into the text is not taken on trust:
/// `rewrite_fences` tests it.
#[verifier::external_body]
fn find_captures(pattern: &str, haystack: &str, group: usize) -> (found: Result<
    Vec<FenceMatch>,
    regex::Error,
>)
    ensures
        found is Ok <==> regex_captures(pattern@, haystack@, group as int) is Some,
        found matches Ok(list) ==> regex_captures(pattern@, haystack@, group as int) == Some(
            list@,
        ),
{
    let re = Regex::new(pattern)?;
    let mut found = Vec::new();
    for caps in re.captures_iter(haystack) {
        let whole = caps.get_match();
        let body = caps.get(group).map(|m| Span { start: m.start(), end: m.end() });
        found.push(FenceMatch { whole: Span { start: whole.start(), end: whole.end() }, body });
    }
    Ok(found)
}

/// The comment line that stands for a block with the given body.
pub open spec fn comment_line(body: Seq<char>) -> Seq<char> {
    "<!-- QueryToSerialize: "@ + normalized(body) + " -->"@
}

/// The offset at which the text before occurrence number `n` begins: the
/// start of the text, or the end of the occurrence before it.
pub open spec fn cursor_after(found: Seq<FenceMatch>, n: int) -> int {
    if n <= 0 {
        0
    } else {
        found[n - 1].whole.end as int
    }
}

/// The occurrence `m` fits into `input` behind offset `cursor`: its group
/// took part, and the text from `cursor` to the occurrence, what the
/// occurrence holds before its body, its body, and what it holds behind its
/// body are four parts of `input` that follow one another.
pub open spec fn well_placed(input: Seq<char>, m: FenceMatch, cursor: int) -> bool {
    &&& m.body is Some
    &&& is_part(input, cursor, m.whole.start as int)
    &&& is_part(input, m.whole.start as int, m.body->0.start as int)
    &&& is_part(input, m.body->0.start as int, m.body->0.end as int)
    &&& is_part(input, m.body->0.end as int, m.whole.end as int)
}

/// Every occurrence fits into `input` behind the one before it.
pub open spec fn well_formed(input: Seq<char>, found: Seq<FenceMatch>) -> bool {
    forall|i: int|
        0 <= i < found.len() ==> well_placed(input, #[trigger] found[i], cursor_after(found, i))
}

/// The text of `input` up to the end of occurrence number `n - 1`, with each
/// occurrence `m` before that point replaced by `replacement(m)`.
pub open spec fn spliced_upto(
    input: Seq<char>,
    found: Seq<FenceMatch>,
    replacement: spec_fn(FenceMatch) -> Seq<char>,
    n: int,
) -> Seq<char>
    decreases n,
{
    if n <= 0 {
        Seq::empty()
    } else {
        spliced_upto(input, found, replacement, n - 1) + text_slice(
            input,
            cursor_after(found, n - 1),
            found[n - 1].whole.start as int,
        ) + replacement(found[n - 1])
    }
}

/// The text of `input` with each occurrence `m` replaced by `replacement(m)`
/// and everything between, before and behind the occurrences kept.
pub open spec fn spliced(
    input: Seq<char>,
    found: Seq<FenceMatch>,
    replacement: spec_fn(FenceMatch) -> Seq<char>,
) -> Seq<char> {
    spliced_upto(input, found, replacement, found.len() as int) + text_slice(
        input,
        cursor_after(found, found.len() as int),
        byte_len(input),
    )
}

/// The comment line for an occurrence in `input`.
pub open spec fn comment_of(input: Seq<char>) -> spec_fn(FenceMatch) -> Seq<char> {
    |m: FenceMatch| comment_line(text_slice(input, m.body->0.start as int, m.body->0.end as int))
}

/// The text that an occurrence in `input` covers.
pub open spec fn matched_text(input: Seq<char>) -> spec_fn(FenceMatch) -> Seq<char> {
    |m: FenceMatch| text_slice(input, m.whole.start as int, m.whole.end as int)
}

/// The text of `input` with each block replaced by its comment line.
pub open spec fn rewritten(input: Seq<char>, found: Seq<FenceMatch>) -> Seq<char> {
    spliced(input, found, comment_of(input))
}

/// What rewriting gives for a text and the blocks found in it: nothing where
/// no block was found or where the blocks do not fit into the text, else the
/// text with each block replaced.
pub open spec fn rewrite_of(input: Seq<char>, found: Seq<FenceMatch>) -> Option<Seq<char>> {
    if found.len() > 0 && well_formed(input, found) {
        Some(rewritten(input, found))
    } else {
        None
    }
}

/// The characters of a text that may be absent.
pub open spec fn text_of(output: Option<String>) -> Option<Seq<char>> {
    match output {
        Some(text) => Some(text@),
        None => None,
    }
}

/// Writes the comment line that stands for a block with the given body.
pub fn render_comment(body: &str) -> (line: String)
    ensures
        line@ == comment_line(body@),
{
    let mut line = String::from_str("<!-- QueryToSerialize: ");
    let query = normalize_query(body);
    line.append(query.as_str());
    line.append(" -->");
    line
}

/// Replaces each of the blocks `found` in `input` by its comment line. The
/// answer is `None` where there is no block, and where the blocks do not fit
/// into the text one behind the other; else it is the text with every block
/// replaced and all that stands outside the blocks unchanged.
pub fn rewrite_fences(input: &str, found: &Vec<FenceMatch>) -> (output: Option<String>)
    ensures
        text_of(output) == rewrite_of(input@, found@),
        found@.len() == 0 ==> output is None,
{
    if found.len() == 0 {
        return None;
    }
    let mut text = String::new();
    let mut cursor: usize = 0;
    let mut i: usize = 0;
    while i < found.len()
        invariant
            0 <= i <= found.len(),
            cursor as int == cursor_after(found@, i as int),
            forall|j: int|
                0 <= j < i ==> well_placed(input@, #[trigger] found@[j], cursor_after(found@, j)),
            text@ == spliced_upto(input@, found@, comment_of(input@), i as int),
        decreases found.len() - i,
    {
        let m = found[i];
        let fits = match m.body {
            Some(body) => is_part_of(input, cursor, m.whole.start) && is_part_of(
                input,
                m.whole.start,
                body.start,
            ) && is_part_of(input, body.start, body.end) && is_part_of(
                input,
                body.end,
                m.whole.end,
            ),
            None => false,
        };
        if !fits {
            assert(!well_placed(input@, found@[i as int], cursor_after(found@, i as int)));
            return None;
        }
        let body = m.body.unwrap();
        text.append(slice_text(input, cursor, m.whole.start));
        let line = render_comment(slice_text(input, body.start, body.end));
        text.append(line.as_str());
        cursor = m.whole.end;
        i = i + 1;
    }
    let end = input.as_bytes().len();
    proof {
        lemma_slice_whole(input@);
        if i > 0 {
            let last = found@[i - 1];
            assert(well_placed(input@, last, cursor_after(found@, i - 1)));
        }
    }
    text.append(slice_text(input, cursor, end));
    Some(text)
}

/// Rewrites every fenced `dataview` block of `input` into a comment line
/// that holds the query in one-line form. The answer is `None` where the text
/// holds no such block, so that a caller can leave the text alone.
pub fn transform_dataview_queries(input: &str) -> (output: Option<String>)
    ensures
        text_of(output) == match regex_captures(FENCE_PATTERN@, input@, BODY_GROUP as int) {
            Some(found) => rewrite_of(input@, found),
            None => None,
        },
        regex_captures(FENCE_PATTERN@, input@, BODY_GROUP as int) == Some(
            Seq::<FenceMatch>::empty(),
        ) ==> output is None,
{
    match find_captures(FENCE_PATTERN, input, BODY_GROUP) {
        Ok(found) => rewrite_fences(input, &found),
        Err(_) => None,
    }
}

/// Putting back, for each block, the text that it covered gives the input
/// again: the blocks and what stands between, before and behind them make up
/// the whole text, each part once and in its order. So a rewritten text
/// differs from its input in the replaced blocks alone.
pub proof fn lemma_splice_restores(input: Seq<char>, found: Seq<FenceMatch>)
    requires
        well_formed(input, found),
    ensures
        spliced(input, found, matched_text(input)) == input,
{
    lemma_splice_upto_restores(input, found, found.len() as int);
    lemma_slice_whole(input);
    let n = found.len() as int;
    if n > 0 {
        assert(well_placed(input, found[n - 1], cursor_after(found, n - 1)));
    }
    lemma_slice_join(input, 0, cursor_after(found, n), byte_len(input));
}

proof fn lemma_splice_upto_restores(input: Seq<char>, found: Seq<FenceMatch>, n: int)
    requires
        well_formed(input, found),
        0 <= n <= found.len(),
    ensures
        is_part(input, 0, cursor_after(found, n)),
        spliced_upto(input, found, matched_text(input), n) == text_slice(
            input,
            0,
            cursor_after(found, n),
        ),
    decreases n,
{
    lemma_slice_whole(input);
    if n > 0 {
        lemma_splice_upto_restores(input, found, n - 1);
        let m = found[n - 1];
        let from = cursor_after(found, n - 1);
        assert(well_placed(input, m, from));
        let body = m.body->0;
        lemma_slice_join(input, m.whole.start as int, body.start as int, body.end as int);
        lemma_slice_join(input, m.whole.start as int, body.end as int, m.whole.end as int);
        lemma_slice_join(input, 0, from, m.whole.start as int);
        lemma_slice_join(input, 0, m.whole.start as int, m.whole.end as int);
    } else {
        assert(encode_utf8(input).subrange(0, 0) == Seq::<u8>::empty());
    }
}

} // verus!
