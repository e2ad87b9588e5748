//! Parts of a text, addressed by byte offsets into its UTF-8 encoding.

use vstd::prelude::*;
use vstd::string::StringSliceAdditionalSpecFns;
use vstd::utf8::*;

verus! {

/// The number of bytes that the UTF-8 encoding of `s` takes.
pub open spec fn byte_len(s: Seq<char>) -> int {
    encode_utf8(s).len() as int
}

/// The byte offset `at` lies between two characters of `s`, at its start or
/// at its end.
pub open spec fn on_boundary(s: Seq<char>, at: int) -> bool {
    is_char_boundary(encode_utf8(s), at)
}

/// `from` and `to` bound a part of `s` that is made of whole characters.
pub open spec fn is_part(s: Seq<char>, from: int, to: int) -> bool {
    &&& 0 <= from <= to <= byte_len(s)
    &&& on_boundary(s, from)
    &&& on_boundary(s, to)
}

/// The characters of `s` whose encoding takes the bytes from offset `from`
/// up to, and without, offset `to`.
pub open spec fn text_slice(s: Seq<char>, from: int, to: int) -> Seq<char> {
    decode_utf8(encode_utf8(s).subrange(from, to))
}

proof fn lemma_boundary_in_prefix(bytes: Seq<u8>, from: int, to: int)
    requires
        valid_utf8(bytes),
        0 <= from <= to <= bytes.len(),
        is_char_boundary(bytes, to),
    ensures
        valid_utf8(bytes.subrange(0, to)),
        is_char_boundary(bytes.subrange(0, to), from) == is_char_boundary(bytes, from),
{
    let head = bytes.subrange(0, to);
    valid_utf8_split(bytes, to);
    if from == to {
        is_char_boundary_start_end_of_seq(head);
    } else {
        is_char_boundary_iff_not_is_continuation_byte(head, from);
        is_char_boundary_iff_not_is_continuation_byte(bytes, from);
    }
}

/// A part of a text is itself a text: its bytes are valid UTF-8.
proof fn lemma_part_valid(s: Seq<char>, from: int, to: int)
    requires
        is_part(s, from, to),
    ensures
        valid_utf8(encode_utf8(s).subrange(from, to)),
        encode_utf8(text_slice(s, from, to)) == encode_utf8(s).subrange(from, to),
{
    let bytes = encode_utf8(s);
    encode_utf8_valid_utf8(s);
    lemma_boundary_in_prefix(bytes, from, to);
    let head = bytes.subrange(0, to);
    valid_utf8_split(head, from);
    assert(head.subrange(from, head.len() as int) == bytes.subrange(from, to));
    decode_utf8_encode_utf8(bytes.subrange(from, to));
}

/// The part of `s` between two byte offsets, which must lie between
/// characters.
pub fn slice_text<'a>(s: &'a str, from: usize, to: usize) -> (part: &'a str)
    requires
        is_part(s@, from as int, to as int),
    ensures
        part@ == text_slice(s@, from as int, to as int),
{
    proof {
        encode_utf8_valid_utf8(s@);
        lemma_boundary_in_prefix(s.spec_bytes(), from as int, to as int);
    }
    let (head, _) = s.split_at(to);
    let (_, part) = head.split_at(from);
    proof {
        assert(part.spec_bytes() == s.spec_bytes().subrange(from as int, to as int));
        encode_utf8_decode_utf8(part@);
    }
    part
}

/// Tells whether `from` and `to` bound a part of `s` made of whole
/// characters.
pub fn is_part_of(s: &str, from: usize, to: usize) -> (ok: bool)
    ensures
        ok == is_part(s@, from as int, to as int),
{
    proof {
        encode_utf8_valid_utf8(s@);
    }
    from <= to && to <= s.as_bytes().len() && s.is_char_boundary(from) && s.is_char_boundary(to)
}

/// The whole of a text is the part from offset zero to its length.
pub proof fn lemma_slice_whole(s: Seq<char>)
    ensures
        is_part(s, 0, byte_len(s)),
        text_slice(s, 0, byte_len(s)) == s,
{
    let bytes = encode_utf8(s);
    encode_utf8_valid_utf8(s);
    is_char_boundary_start_end_of_seq(bytes);
    assert(bytes.subrange(0, bytes.len() as int) == bytes);
    encode_utf8_decode_utf8(s);
}

/// Two parts that meet at an offset make up the part that spans both.
pub proof fn lemma_slice_join(s: Seq<char>, from: int, mid: int, to: int)
    requires
        is_part(s, from, mid),
        is_part(s, mid, to),
    ensures
        is_part(s, from, to),
        text_slice(s, from, mid) + text_slice(s, mid, to) == text_slice(s, from, to),
{
    let bytes = encode_utf8(s);
    let span = bytes.subrange(from, to);
    lemma_part_valid(s, from, to);
    encode_utf8_valid_utf8(s);
    if mid == to {
        is_char_boundary_start_end_of_seq(span);
    } else {
        is_char_boundary_iff_not_is_continuation_byte(span, mid - from);
        is_char_boundary_iff_not_is_continuation_byte(bytes, mid);
    }
    decode_utf8_split(span, mid - from);
    assert(span.subrange(0, mid - from) == bytes.subrange(from, mid));
    assert(span.subrange(mid - from, span.len() as int) == bytes.subrange(mid, to));
}

} // verus!
