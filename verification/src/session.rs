//! Terminal sessions: the checks on what the frontend asks of a session,
//! and the table of running sessions.
use vstd::prelude::*;
use vstd::string::StringSliceAdditionalSpecFns;
use vstd::utf8::{
    encode_scalar, encode_utf8, leading_byte_width_1, leading_byte_width_2, leading_byte_width_3,
    leading_byte_width_4,
};
use crate::text::{decimal, push_decimal, string_of};

verus! {

/// Largest number of bytes that a terminal session ID may have.
pub const MAX_TERMINAL_ID_LEN: usize = 100;

/// Largest number of bytes that one write to a terminal may carry.
pub const MAX_INPUT_BYTES: usize = 64 * 1024;

/// Smallest number of rows or columns that a terminal is given.
pub const MIN_PTY_DIMENSION: u16 = 2;

/// Largest number of rows or columns that a terminal is given.
pub const MAX_PTY_DIMENSION: u16 = 500;

/// A byte that may appear in a session ID: an ASCII letter or digit, `_` or `-`.
pub open spec fn is_session_id_byte(b: u8) -> bool {
    ||| 0x30 <= b <= 0x39
    ||| 0x41 <= b <= 0x5a
    ||| 0x61 <= b <= 0x7a
    ||| b == 0x5f
    ||| b == 0x2d
}

/// A session ID is 1 to 100 bytes, each an ASCII letter or digit, `_` or `-`.
pub open spec fn valid_session_id(bytes: Seq<u8>) -> bool {
    &&& 0 < bytes.len() <= MAX_TERMINAL_ID_LEN
    &&& forall|i: int| 0 <= i < bytes.len() ==> #[trigger] is_session_id_byte(bytes[i])
}

/// The error for a session ID that is refused.
pub open spec fn invalid_session_id_message() -> Seq<char> {
    "Invalid terminal session ID"@
}

/// The error for terminal input that is too large.
pub open spec fn input_too_large_message() -> Seq<char> {
    "Terminal input was too large"@
}

/// Accepts a session ID that is safe to use in file names and events.
pub fn validate_session_id(session_id: &str) -> (r: Result<(), String>)
    ensures
        r is Ok <==> valid_session_id(session_id.spec_bytes()),
        r matches Err(e) ==> e@ == invalid_session_id_message(),
{
    let bytes = session_id.as_bytes();
    let n = bytes.len();
    let mut ok = 0 < n && n <= MAX_TERMINAL_ID_LEN;
    let mut i: usize = 0;
    while ok && i < n
        invariant
            n == bytes@.len(),
            bytes@ == session_id.spec_bytes(),
            i <= n,
            ok ==> 0 < n <= MAX_TERMINAL_ID_LEN,
            ok ==> forall|j: int| 0 <= j < i ==> #[trigger] is_session_id_byte(bytes@[j]),
            !ok ==> !valid_session_id(bytes@),
        decreases n - i,
    {
        let b = bytes[i];
        if !((0x30 <= b && b <= 0x39) || (0x41 <= b && b <= 0x5a) || (0x61 <= b && b <= 0x7a) || b
            == 0x5f || b == 0x2d) {
            assert(!is_session_id_byte(bytes@[i as int]));
            ok = false;
        }
        i = i + 1;
    }
    if ok {
        Ok(())
    } else {
        Err(string_of("Invalid terminal session ID"))
    }
}

/// Checks a write to a terminal: the session ID first, then the size of the
/// input.
pub fn check_terminal_input(session_id: &str, data: &str) -> (r: Result<(), String>)
    ensures
        r is Ok <==> valid_session_id(session_id.spec_bytes()) && data.spec_bytes().len()
            <= MAX_INPUT_BYTES,
        r matches Err(e) ==> e@ == (if valid_session_id(session_id.spec_bytes()) {
            input_too_large_message()
        } else {
            invalid_session_id_message()
        }),
{
    if let Err(e) = validate_session_id(session_id) {
        return Err(e);
    }
    if data.as_bytes().len() > MAX_INPUT_BYTES {
        return Err(string_of("Terminal input was too large"));
    }
    Ok(())
}

/// A requested number of rows or columns, brought into 2..=500.
pub open spec fn clamped_dimension(requested: u16) -> u16 {
    if requested < MIN_PTY_DIMENSION {
        MIN_PTY_DIMENSION
    } else if requested > MAX_PTY_DIMENSION {
        MAX_PTY_DIMENSION
    } else {
        requested
    }
}

/// The number of rows or columns that a terminal is given for a request.
pub fn pty_dimension(requested: u16) -> (r: u16)
    ensures
        r == clamped_dimension(requested),
        MIN_PTY_DIMENSION <= r <= MAX_PTY_DIMENSION,
{
    if requested < MIN_PTY_DIMENSION {
        MIN_PTY_DIMENSION
    } else if requested > MAX_PTY_DIMENSION {
        MAX_PTY_DIMENSION
    } else {
        requested
    }
}

/// A char that may appear in a session ID: an ASCII letter or digit, `_` or `-`.
pub open spec fn is_session_id_char(c: char) -> bool {
    is_session_id_byte_value(c as u32)
}

/// The code of an ASCII letter or digit, `_` or `-`.
pub open spec fn is_session_id_byte_value(v: u32) -> bool {
    ||| 0x30 <= v <= 0x39
    ||| 0x41 <= v <= 0x5a
    ||| 0x61 <= v <= 0x7a
    ||| v == 0x5f
    ||| v == 0x2d
}

proof fn lemma_leading_bytes_not_ascii(v: u32)
    ensures
        leading_byte_width_2(v) >= 0xC0,
        leading_byte_width_3(v) >= 0xC0,
        leading_byte_width_4(v) >= 0xC0,
        v <= 0x7F ==> leading_byte_width_1(v) == v,
{
    assert((0xC0u8 | (((v >> 6u32) & 0x1Fu32) as u8)) >= 0xC0u8) by (bit_vector);
    assert((0xE0u8 | (((v >> 12u32) & 0x0Fu32) as u8)) >= 0xC0u8) by (bit_vector);
    assert((0xF0u8 | (((v >> 18u32) & 0x7u32) as u8)) >= 0xC0u8) by (bit_vector);
    assert(v <= 0x7Fu32 ==> ((v & 0x7Fu32) as u8) as u32 == v) by (bit_vector);
}

proof fn lemma_session_id_bytes_are_chars(s: Seq<char>)
    requires
        forall|i: int| 0 <= i < encode_utf8(s).len() ==> #[trigger] is_session_id_byte(
            encode_utf8(s)[i],
        ),
    ensures
        encode_utf8(s).len() == s.len(),
        forall|i: int| 0 <= i < s.len() ==> #[trigger] is_session_id_char(s[i]),
    decreases s.len(),
{
    if s.len() > 0 {
        let v = s[0] as u32;
        let head = encode_scalar(v);
        let enc = encode_utf8(s);
        assert(enc == head + encode_utf8(s.drop_first()));
        lemma_leading_bytes_not_ascii(v);
        assert(head.len() >= 1);
        assert(enc[0] == head[0]);
        assert(is_session_id_byte(enc[0]));
        assert(v <= 0x7F);
        assert(head =~= seq![leading_byte_width_1(v)]);
        assert forall|i: int| 0 <= i < encode_utf8(s.drop_first()).len() implies #[trigger] is_session_id_byte(
            encode_utf8(s.drop_first())[i],
        ) by {
            assert(enc[i + 1] == encode_utf8(s.drop_first())[i]);
        }
        lemma_session_id_bytes_are_chars(s.drop_first());
        assert forall|i: int| 0 <= i < s.len() implies #[trigger] is_session_id_char(s[i]) by {
            if i > 0 {
                assert(s[i] == s.drop_first()[i - 1]);
            } else {
                let b = enc[0];
                assert(b == leading_byte_width_1(v));
                assert(v == b as u32);
                assert(is_session_id_byte_value(v));
            }
        }
    }
}

/// An accepted session ID is 1 to 100 ASCII letters, digits, `_` and `-`:
/// it holds no path separator, dot or space, so the names built from it
/// stay plain file names.
pub proof fn lemma_valid_session_id_chars(s: Seq<char>)
    requires
        valid_session_id(encode_utf8(s)),
    ensures
        0 < s.len() <= MAX_TERMINAL_ID_LEN,
        forall|i: int| 0 <= i < s.len() ==> #[trigger] is_session_id_char(s[i]),
{
    lemma_session_id_bytes_are_chars(s);
}

/// The stem of the files that a session's shell integration writes:
/// `termdeck-<session ID>-<generation>`.
pub open spec fn session_file_stem_spec(session_id: Seq<char>, generation: u64) -> Seq<char> {
    "termdeck-"@ + session_id + "-"@ + decimal(generation as nat)
}

/// The stem of the files that a session's shell integration writes.
pub fn session_file_stem(session_id: &str, generation: u64) -> (r: String)
    ensures
        r@ == session_file_stem_spec(session_id@, generation),
{
    let mut r = string_of("termdeck-");
    r.append(session_id);
    r.append("-");
    push_decimal(&mut r, generation);
    r
}


/// The session IDs accepted are exactly the strings of 1 to 100 chars, each
/// an ASCII letter, an ASCII digit, `_` or `-` (compared by code point).
pub proof fn lemma_session_id_accepted_iff(s: Seq<char>)
    ensures
        valid_session_id(encode_utf8(s)) <==> (0 < s.len() <= 100 && forall|i: int|
            0 <= i < s.len() ==> {
                let c = #[trigger] s[i] as u32;
                ||| '0' as u32 <= c <= '9' as u32
                ||| 'A' as u32 <= c <= 'Z' as u32
                ||| 'a' as u32 <= c <= 'z' as u32
                ||| c == '_' as u32
                ||| c == '-' as u32
            }),
{
    if valid_session_id(encode_utf8(s)) {
        lemma_session_id_bytes_are_chars(s);
        assert forall|i: int| 0 <= i < s.len() implies is_session_id_byte_value(
            #[trigger] s[i] as u32,
        ) by {
            assert(is_session_id_char(s[i]));
        }
    }
    if forall|i: int| 0 <= i < s.len() ==> is_session_id_byte_value(#[trigger] s[i] as u32) {
        lemma_session_id_chars_are_bytes(s);
    }
}

proof fn lemma_session_id_chars_are_bytes(s: Seq<char>)
    requires
        forall|i: int| 0 <= i < s.len() ==> is_session_id_byte_value(#[trigger] s[i] as u32),
    ensures
        encode_utf8(s).len() == s.len(),
        forall|i: int| 0 <= i < encode_utf8(s).len() ==> #[trigger] is_session_id_byte(
            encode_utf8(s)[i],
        ),
    decreases s.len(),
{
    if s.len() > 0 {
        let v = s[0] as u32;
        assert(is_session_id_byte_value(v));
        lemma_leading_bytes_not_ascii(v);
        let rest = s.drop_first();
        assert forall|i: int| 0 <= i < rest.len() implies is_session_id_byte_value(
            #[trigger] rest[i] as u32,
        ) by {
            assert(rest[i] == s[i + 1]);
        }
        lemma_session_id_chars_are_bytes(rest);
        let enc = encode_utf8(s);
        assert(encode_scalar(v) =~= seq![leading_byte_width_1(v)]);
        assert(enc == encode_scalar(v) + encode_utf8(rest));
        assert forall|i: int| 0 <= i < enc.len() implies #[trigger] is_session_id_byte(enc[i]) by {
            if i == 0 {
                assert(enc[0] == leading_byte_width_1(v));
            } else {
                assert(enc[i] == encode_utf8(rest)[i - 1]);
            }
        }
    }
}

} // verus!
