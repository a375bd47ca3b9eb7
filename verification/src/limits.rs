//! How long texts may be and what they may hold.
use crate::text;
use vstd::prelude::*;
use vstd::string::*;
use vstd::utf8::encode_utf8;

verus! {

/// How many arguments a command may have.
pub const MAX_ARGS: usize = 1024;

/// How many bytes an argument or the value of a variable may have.
pub const MAX_ARG_BYTES: usize = 65536;

/// How many bytes the standard input of a command may have.
pub const MAX_STDIN_BYTES: usize = 1048576;

/// How many bytes a path or the name of a program may have.
pub const MAX_PATH_BYTES: usize = 4096;

/// A result with the text of its message.
pub open spec fn told<T>(r: Result<T, String>) -> Result<T, Seq<char>> {
    match r {
        Ok(v) => Ok(v),
        Err(e) => Err(e@),
    }
}

/// The texts of a result.
pub open spec fn told_text(r: Result<String, String>) -> Result<Seq<char>, Seq<char>> {
    match r {
        Ok(v) => Ok(v@),
        Err(e) => Err(e@),
    }
}

/// How many bytes a text takes in UTF-8.
pub open spec fn utf8_len(s: Seq<char>) -> nat {
    encode_utf8(s).len()
}

/// How many bytes a string takes.
pub fn byte_len(s: &str) -> (r: usize)
    ensures
        r == utf8_len(s@),
{
    s.as_bytes().len()
}

/// The bytes of two texts in a row are those of the one and then the other.
pub proof fn lemma_utf8_concat(a: Seq<char>, b: Seq<char>)
    ensures
        encode_utf8(a + b) == encode_utf8(a) + encode_utf8(b),
        utf8_len(a + b) == utf8_len(a) + utf8_len(b),
    decreases a.len(),
{
    if a.len() == 0 {
        assert(a + b == b);
        assert(encode_utf8(a + b) == encode_utf8(a) + encode_utf8(b));
    } else {
        let rest = a.drop_first();
        lemma_utf8_concat(rest, b);
        assert((a + b).drop_first() == rest + b);
        assert(encode_utf8(a + b) == encode_utf8(a) + encode_utf8(b));
    }
}

/// The text is not empty, short enough, and free of NUL and CR.
pub open spec fn is_line_text(value: Seq<char>, max_bytes: nat) -> bool {
    value.len() != 0 && utf8_len(value) <= max_bytes && !value.contains('\0') && !value.contains(
        '\r',
    )
}

/// What is said of a text that `is_line_text` excludes.
pub open spec fn line_text_message(kind: Seq<char>, max_bytes: nat) -> Seq<char> {
    kind + " must be non-empty, at most "@ + text::decimal(max_bytes)
        + " bytes, and contain neither NUL nor CR"@
}

/// The check of a text that must not be empty.
pub open spec fn line_text_check(
    kind: Seq<char>,
    value: Seq<char>,
    max_bytes: nat,
) -> Result<(), Seq<char>> {
    if is_line_text(value, max_bytes) {
        Ok(())
    } else {
        Err(line_text_message(kind, max_bytes))
    }
}

/// Checks a text that must not be empty, too long, or hold NUL or CR.
pub fn validate_nonempty_text(kind: &str, value: &str, max_bytes: usize) -> (r: Result<(), String>)
    ensures
        told(r) == line_text_check(kind@, value@, max_bytes as nat),
{
    let chars = text::chars_of(value);
    if chars.len() == 0 || byte_len(value) > max_bytes || text::has_char(chars.as_slice(), '\0')
        || text::has_char(chars.as_slice(), '\r') {
        let mut message = kind.to_owned();
        message.append(" must be non-empty, at most ");
        message.append(text::decimal_text(max_bytes as u64).as_str());
        message.append(" bytes, and contain neither NUL nor CR");
        return Err(message);
    }
    Ok(())
}

/// The text is short enough and free of NUL.
pub open spec fn is_bounded(value: Seq<char>, max_bytes: nat) -> bool {
    utf8_len(value) <= max_bytes && !value.contains('\0')
}

/// Whether a text is short enough and free of NUL.
pub fn bounded(value: &str, max_bytes: usize) -> (r: bool)
    ensures
        r == is_bounded(value@, max_bytes as nat),
{
    byte_len(value) <= max_bytes && !text::has_char(text::chars_of(value).as_slice(), '\0')
}

/// What is said of an argument that is too long or holds NUL.
pub open spec fn argument_message() -> Seq<char> {
    "each argument must be at most "@ + text::decimal(MAX_ARG_BYTES as nat)
        + " bytes and must not contain NUL"@
}

/// The check of an argument.
pub open spec fn argument_check(value: Seq<char>) -> Result<(), Seq<char>> {
    if is_bounded(value, MAX_ARG_BYTES as nat) {
        Ok(())
    } else {
        Err(argument_message())
    }
}

/// Checks one argument of a command.
pub fn validate_argument(value: &str) -> (r: Result<(), String>)
    ensures
        told(r) == argument_check(value@),
{
    if !bounded(value, MAX_ARG_BYTES) {
        let mut message = "each argument must be at most ".to_owned();
        message.append(text::decimal_text(MAX_ARG_BYTES as u64).as_str());
        message.append(" bytes and must not contain NUL");
        return Err(message);
    }
    Ok(())
}

/// A text passes exactly where it is not empty, takes no more bytes than it may,
/// and holds neither NUL nor CR anywhere; otherwise the message names its kind
/// and the bound.
pub proof fn law_line_texts(kind: Seq<char>, value: Seq<char>, max_bytes: nat)
    ensures
        line_text_check(kind, value, max_bytes) is Ok <==> value.len() > 0 && encode_utf8(
            value,
        ).len() <= max_bytes && (forall|i: int|
            0 <= i < value.len() ==> #[trigger] value[i] != '\0' && value[i] != '\r'),
        line_text_check(kind, value, max_bytes) matches Err(e) ==> e == kind
            + " must be non-empty, at most "@ + text::decimal(max_bytes)
            + " bytes, and contain neither NUL nor CR"@,
{
    if line_text_check(kind, value, max_bytes) is Ok {
        assert forall|i: int| 0 <= i < value.len() implies #[trigger] value[i] != '\0' && value[i]
            != '\r' by {
            assert(value.contains(value[i]));
        }
    }
}

/// An argument passes exactly where it takes at most 65536 bytes and holds no
/// NUL anywhere.
pub proof fn law_arguments(value: Seq<char>)
    ensures
        argument_check(value) is Ok <==> encode_utf8(value).len() <= 65536 && (forall|i: int|
            0 <= i < value.len() ==> #[trigger] value[i] != '\0'),
        argument_check(value) matches Err(e) ==> e == "each argument must be at most "@
            + text::decimal(65536) + " bytes and must not contain NUL"@,
{
    if argument_check(value) is Ok {
        assert forall|i: int| 0 <= i < value.len() implies #[trigger] value[i] != '\0' by {
            assert(value.contains(value[i]));
        }
    }
}

} // verus!
