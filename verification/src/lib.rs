//! Encoding of string literals with backslash escapes into UTF-16 code units.
//!
//! The crate decodes the escape sequences `\n`, `\t`, `\r`, `\\`, `\'`, `\"`,
//! `\0`, `\xHH` and `\u{HHHHH}` found in a literal's text, rejects malformed
//! ones with a precise error kind, and encodes the resolved characters as
//! UTF-16 code units, optionally with one trailing zero unit.

pub mod char_escape;
pub mod utf16;

use vstd::prelude::*;

verus! {

use vstd::slice::slice_subrange;
use vstd::utf8::{
    char_is_scalar, char_u32_cast, decode_first_scalar, decode_utf8, decode_utf8_encode_utf8,
    encode_utf8_first_scalar, encode_utf8_decode_utf8, encode_utf8_valid_utf8, is_scalar,
    is_leading_byte_width_1, length_of_first_scalar, pop_first_scalar, valid_first_scalar,
    valid_utf8,
};
use crate::char_escape::{decode_escapes, decode_ok, first_error, unescaped, EscapeError};
use crate::utf16::{encode_utf16, utf16_encode};

/// The UTF-16 length of a character sequence: one unit per scalar value in the
/// Basic Multilingual Plane, two above it.
pub open spec fn spec_utf16_length(s: Seq<char>) -> int {
    utf16_encode(s).len() as int
}

/// Relies on char::from_u32: it returns the character with the given scalar
/// value, and None exactly when the value is no Unicode scalar value.
pub assume_specification[ char::from_u32 ](u: u32) -> (r: Option<char>)
    ensures
        r is Some <==> is_scalar(u),
        r matches Some(c) ==> c as u32 == u,
;

/// Reads the first Unicode scalar value out of a valid UTF-8 byte sequence and
/// returns it together with the bytes that follow its encoding; `None` exactly
/// on empty input.
pub fn next_code_point<'a>(utf8: &'a [u8]) -> (r: Option<(u32, &'a [u8])>)
    requires
        valid_utf8(utf8@),
    ensures
        r is Some <==> utf8@.len() > 0,
        r matches Some((scalar, rest)) ==> {
            &&& scalar == decode_first_scalar(utf8@)
            &&& rest@ == pop_first_scalar(utf8@)
            &&& valid_utf8(rest@)
        },
{
    let n = utf8.len();
    if n == 0 {
        return None;
    }
    proof {
        assert(valid_first_scalar(utf8@));
    }
    let b0 = utf8[0];
    if b0 < 0x80 {
        proof {
            assert(b0 & 0x7F == b0) by (bit_vector)
                requires b0 < 0x80;
        }
        Some((b0 as u32, slice_subrange(utf8, 1, n)))
    } else if b0 < 0xE0 {
        let b1 = utf8[1];
        Some(((((b0 & 0x1F) as u32) << 6) | ((b1 & 0x3F) as u32), slice_subrange(utf8, 2, n)))
    } else if b0 < 0xF0 {
        let b1 = utf8[1];
        let b2 = utf8[2];
        Some((
            (((b0 & 0x0F) as u32) << 12) | (((b1 & 0x3F) as u32) << 6) | ((b2 & 0x3F) as u32),
            slice_subrange(utf8, 3, n),
        ))
    } else {
        let b1 = utf8[1];
        let b2 = utf8[2];
        let b3 = utf8[3];
        Some((
            (((b0 & 0x07) as u32) << 18) | (((b1 & 0x3F) as u32) << 12) | (((b2 & 0x3F) as u32)
                << 6) | ((b3 & 0x3F) as u32),
            slice_subrange(utf8, 4, n),
        ))
    }
}

/// Collects the characters of a string into a vector, in order.
pub fn str_to_chars(s: &str) -> (out: Vec<char>)
    ensures
        out@ == s@,
{
    proof {
        encode_utf8_valid_utf8(s@);
        encode_utf8_decode_utf8(s@);
    }
    let mut rest: &[u8] = s.as_bytes();
    let mut out: Vec<char> = Vec::new();
    while rest.len() > 0
        invariant
            valid_utf8(rest@),
            out@ + decode_utf8(rest@) == s@,
        decreases rest@.len(),
    {
        let (u, r2) = match next_code_point(rest) {
            Some(pair) => pair,
            None => vstd::pervasive::unreached(),
        };
        proof {
            let cs = decode_utf8(rest@);
            decode_utf8_encode_utf8(rest@);
            encode_utf8_first_scalar(cs);
            char_is_scalar(cs[0]);
            char_u32_cast(cs[0], u);
        }
        let c = match char::from_u32(u) {
            Some(c) => c,
            None => vstd::pervasive::unreached(),
        };
        proof {
            char_u32_cast(c, u);
            assert(out@.push(c) + decode_utf8(r2@) =~= out@ + decode_utf8(rest@));
        }
        out.push(c);
        rest = r2;
    }
    proof {
        assert(out@ =~= s@);
    }
    out
}

/// Counts the UTF-16 code units that the string's characters encode to,
/// without resolving any escape sequence.
pub fn length_as_utf16(s: &str) -> (len: usize)
    ensures
        len == spec_utf16_length(s@),
{
    proof {
        encode_utf8_valid_utf8(s@);
        encode_utf8_decode_utf8(s@);
    }
    let bytes: &[u8] = s.as_bytes();
    let total: usize = bytes.len();
    let mut rest: &[u8] = bytes;
    let mut len: usize = 0;
    while rest.len() > 0
        invariant
            total == bytes@.len(),
            valid_utf8(rest@),
            len + utf16_encode(decode_utf8(rest@)).len() == utf16_encode(s@).len(),
            len <= total - rest@.len(),
        decreases rest@.len(),
    {
        let (u, r2) = match next_code_point(rest) {
            Some(pair) => pair,
            None => vstd::pervasive::unreached(),
        };
        proof {
            let cs = decode_utf8(rest@);
            decode_utf8_encode_utf8(rest@);
            encode_utf8_first_scalar(cs);
            char_is_scalar(cs[0]);
            assert(cs.drop_first() =~= decode_utf8(pop_first_scalar(rest@)));
            let b0 = rest@[0];
            assert(b0 & 0x7F <= 0x7F) by (bit_vector);
            assert(is_leading_byte_width_1(b0) ==> length_of_first_scalar(rest@) == 1);
            assert(!is_leading_byte_width_1(b0) ==> length_of_first_scalar(rest@) >= 2);
        }
        if u <= 0xFFFF {
            len = len + 1;
        } else {
            len = len + 2;
        }
        rest = r2;
    }
    proof {
        assert(utf16_encode(decode_utf8(rest@)).len() == 0);
    }
    len
}

/// What the whole pipeline yields for an input: the UTF-16 encoding of the
/// resolved characters (with one zero unit appended when requested), or the
/// first escape error.
pub open spec fn transform(s: Seq<char>, null_terminate: bool) -> Result<Seq<u16>, EscapeError> {
    if decode_ok(s) {
        Ok(
            utf16_encode(unescaped(s)) + (if null_terminate {
                seq![0u16]
            } else {
                Seq::<u16>::empty()
            }),
        )
    } else {
        Err(first_error(s))
    }
}

/// Decodes the escape sequences of `text` and encodes the resolved characters
/// as UTF-16 code units; any malformed escape fails the whole call with its
/// error kind.
pub fn to_utf16(text: &str) -> (r: Result<Vec<u16>, EscapeError>)
    ensures
        r is Ok <==> decode_ok(text@),
        match r {
            Ok(v) => transform(text@, false) == Ok::<Seq<u16>, EscapeError>(v@),
            Err(e) => transform(text@, false) == Err::<Seq<u16>, EscapeError>(e),
        },
{
    let chars = str_to_chars(text);
    match decode_escapes(chars) {
        Ok(v) => {
            let units = encode_utf16(&v, false);
            proof {
                assert(units@ =~= utf16_encode(unescaped(text@)));
            }
            Ok(units)
        },
        Err(e) => Err(e),
    }
}

/// Like [`to_utf16`], with one trailing zero unit appended on success.
pub fn to_utf16_null_terminated(text: &str) -> (r: Result<Vec<u16>, EscapeError>)
    ensures
        r is Ok <==> decode_ok(text@),
        match r {
            Ok(v) => transform(text@, true) == Ok::<Seq<u16>, EscapeError>(v@),
            Err(e) => transform(text@, true) == Err::<Seq<u16>, EscapeError>(e),
        },
{
    let chars = str_to_chars(text);
    match decode_escapes(chars) {
        Ok(v) => Ok(encode_utf16(&v, true)),
        Err(e) => Err(e),
    }
}

/// A string without a backslash passes the decoder unchanged, so the pipeline
/// yields exactly the standard UTF-16 encoding of its characters, and the
/// null-terminated form that encoding with one zero unit appended.
pub proof fn lemma_plain_text_transform(s: Seq<char>)
    requires
        forall|j: int| 0 <= j < s.len() ==> s[j] != '\\',
    ensures
        transform(s, false) == Ok::<Seq<u16>, EscapeError>(utf16_encode(s)),
        transform(s, true) == Ok::<Seq<u16>, EscapeError>(utf16_encode(s) + seq![0u16]),
{
    crate::char_escape::lemma_no_backslash_decodes_to_self(s);
    assert(utf16_encode(s) + Seq::<u16>::empty() =~= utf16_encode(s));
}

/// The pipeline is deterministic: equal inputs yield equal results, whatever
/// the input and however often it is transformed.
pub proof fn lemma_transform_deterministic(s1: Seq<char>, s2: Seq<char>, null_terminate: bool)
    requires
        s1 == s2,
    ensures
        transform(s1, null_terminate) == transform(s2, null_terminate),
{
}

/// On every input the pipeline accepts, the null-terminated form is exactly
/// one unit longer than the plain form and ends in a zero unit.
pub proof fn lemma_null_terminated_shape(s: Seq<char>)
    requires
        decode_ok(s),
    ensures
        transform(s, false) is Ok,
        transform(s, true) is Ok,
        transform(s, true)->Ok_0.len() == transform(s, false)->Ok_0.len() + 1,
        transform(s, true)->Ok_0.last() == 0u16,
        transform(s, true)->Ok_0.take(transform(s, false)->Ok_0.len() as int) == transform(
            s,
            false,
        )->Ok_0,
{
    let plain = utf16_encode(unescaped(s));
    assert(plain + Seq::<u16>::empty() =~= plain);
    assert((plain + seq![0u16]).take(plain.len() as int) =~= plain);
}

} // verus!
