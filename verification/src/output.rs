//! Bytes as text: what a process printed, kept within bounds.
use crate::limits;
use vstd::prelude::*;
use vstd::slice::slice_subrange;
use vstd::string::*;
use vstd::utf8::{decode_utf8, encode_utf8, valid_utf8};

verus! {

/// The text that `String::from_utf8_lossy` makes of bytes: their characters,
/// with U+FFFD in place of what is no UTF-8.
pub uninterp spec fn utf8_lossy(bytes: Seq<u8>) -> Seq<char>;

/// `String::from_utf8_lossy`. The text is a function of the bytes. Valid UTF-8
/// is decoded as it is. Each character stands for at least one byte, and takes
/// at most three bytes for each that it stands for.
#[verifier::external_body]
pub(crate) fn lossy_text(bytes: &[u8]) -> (r: String)
    ensures
        r@ == utf8_lossy(bytes@),
        valid_utf8(bytes@) ==> r@ == decode_utf8(bytes@),
        r@.len() <= bytes@.len(),
        encode_utf8(r@).len() <= 3 * bytes@.len(),
{
    String::from_utf8_lossy(bytes).into_owned()
}

/// Bytes that are valid UTF-8 are read as the text that they encode.
pub open spec fn reads_utf8(bytes: Seq<u8>) -> bool {
    valid_utf8(bytes) ==> utf8_lossy(bytes) == decode_utf8(bytes)
}

/// What is put after an output that was cut.
pub open spec fn truncation_mark() -> Seq<char> {
    "\n[output truncated by MCP Exec]\n"@
}

/// The bytes of an output that are kept.
pub open spec fn kept_bytes(bytes: Seq<u8>, limit: nat) -> Seq<u8> {
    if bytes.len() <= limit {
        bytes
    } else {
        bytes.take(limit as int)
    }
}

/// The text of the bytes that were kept, with a mark where others were cut.
pub open spec fn marked_text(text: Seq<char>, truncated: bool) -> Seq<char> {
    if truncated {
        text + truncation_mark()
    } else {
        text
    }
}

proof fn lemma_truncation_mark()
    ensures
        truncation_mark().len() == 32,
        limits::utf8_len(truncation_mark()) == 32,
{
    reveal_strlit("\n[output truncated by MCP Exec]\n");
    assert(vstd::utf8::is_ascii_chars(truncation_mark()));
    vstd::utf8::is_ascii_chars_encode_utf8(truncation_mark());
}

/// Adds the mark to a text whose output was cut.
pub fn mark_truncation(text: String, truncated: bool) -> (r: String)
    ensures
        r@ == marked_text(text@, truncated),
{
    let mut r = text;
    if truncated {
        r.append("\n[output truncated by MCP Exec]\n");
    }
    r
}

/// The text of an output as reported.
pub open spec fn bounded_text(bytes: Seq<u8>, limit: nat) -> Seq<char> {
    marked_text(utf8_lossy(kept_bytes(bytes, limit)), bytes.len() > limit)
}

/// An output as text, cut after `limit` bytes, and whether it was cut.
pub fn bounded_utf8(bytes: Vec<u8>, limit: usize) -> (r: (String, bool))
    ensures
        r.0@ == bounded_text(bytes@, limit as nat),
        r.1 == (bytes@.len() > limit),
        valid_utf8(kept_bytes(bytes@, limit as nat)) ==> r.0@ == marked_text(
            decode_utf8(kept_bytes(bytes@, limit as nat)),
            r.1,
        ),
        reads_utf8(kept_bytes(bytes@, limit as nat)),
        r.0@.len() <= limit + 32,
        limits::utf8_len(r.0@) <= 3 * limit + 32,
{
    let n = bytes.len();
    proof {
        lemma_truncation_mark();
    }
    if n <= limit {
        let text = lossy_text(bytes.as_slice());
        return (mark_truncation(text, false), false);
    }
    let kept = slice_subrange(bytes.as_slice(), 0, limit);
    assert(kept@ == bytes@.take(limit as int));
    let text = lossy_text(kept);
    proof {
        limits::lemma_utf8_concat(text@, truncation_mark());
    }
    (mark_truncation(text, true), true)
}

/// An output within the limit is reported whole and without a mark; a longer one
/// is cut after exactly the limit, whatever it holds, and marked.
pub proof fn law_outputs_are_cut_at_the_limit(bytes: Seq<u8>, more: Seq<u8>)
    ensures
        bounded_text(bytes, bytes.len()) == utf8_lossy(bytes),
        forall|limit: nat| limit >= bytes.len() ==> #[trigger] bounded_text(bytes, limit)
            == utf8_lossy(bytes),
        more.len() > 0 ==> bounded_text(bytes + more, bytes.len()) == utf8_lossy(bytes)
            + "\n[output truncated by MCP Exec]\n"@,
{
    assert((bytes + more).take(bytes.len() as int) == bytes);
}

} // verus!
