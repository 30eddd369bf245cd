//! UTF-16 encoding of Unicode scalar values.
//!
//! A scalar value in the Basic Multilingual Plane (at most 0xFFFF) becomes one
//! code unit; a value above it becomes a surrogate pair: a high unit in
//! 0xD800..=0xDBFF followed by a low unit in 0xDC00..=0xDFFF.

use vstd::prelude::*;

verus! {

/// The UTF-16 code units that encode one Unicode scalar value: a single unit
/// for a value in the Basic Multilingual Plane, a surrogate pair above it.
pub open spec fn utf16_units(c: char) -> Seq<u16> {
    let v = c as u32;
    if v <= 0xFFFF {
        seq![v as u16]
    } else {
        seq![
            (0xD800 + (v - 0x10000) / 0x400) as u16,
            (0xDC00 + (v - 0x10000) % 0x400) as u16,
        ]
    }
}

/// The UTF-16 encoding of a sequence of Unicode scalar values, in order.
pub open spec fn utf16_encode(s: Seq<char>) -> Seq<u16>
    decreases s.len(),
{
    if s.len() == 0 {
        Seq::empty()
    } else {
        utf16_units(s[0]) + utf16_encode(s.drop_first())
    }
}

/// Appending one character to the input appends its units to the output.
pub proof fn lemma_utf16_encode_push(s: Seq<char>, c: char)
    ensures
        utf16_encode(s.push(c)) == utf16_encode(s) + utf16_units(c),
    decreases s.len(),
{
    if s.len() == 0 {
        assert(s.push(c)[0] == c);
        assert(s.push(c).drop_first() =~= Seq::<char>::empty());
        assert(utf16_encode(s.push(c)) == utf16_units(c) + utf16_encode(Seq::<char>::empty()));
        assert(utf16_units(c) + Seq::<u16>::empty() =~= utf16_units(c));
        assert(utf16_encode(s) + utf16_units(c) =~= utf16_units(c));
    } else {
        assert(s.push(c).drop_first() =~= s.drop_first().push(c));
        lemma_utf16_encode_push(s.drop_first(), c);
        assert(utf16_encode(s.push(c)) =~= utf16_encode(s) + utf16_units(c));
    }
}

/// Surrogate-pair correctness: a scalar value above the Basic Multilingual
/// Plane is encoded as exactly two units, a high surrogate followed by a low
/// surrogate, and the standard decoding formula recovers the value.
pub proof fn lemma_surrogate_pair(c: char)
    requires
        0x10000 <= c as u32,
    ensures
        utf16_units(c).len() == 2,
        0xD800 <= utf16_units(c)[0] <= 0xDBFF,
        0xDC00 <= utf16_units(c)[1] <= 0xDFFF,
        0x10000 + (utf16_units(c)[0] - 0xD800) * 0x400 + (utf16_units(c)[1] - 0xDC00) == c as u32,
{
    vstd::utf8::char_is_scalar(c);
    let v = (c as u32) - 0x10000;
    vstd::arithmetic::div_mod::lemma_fundamental_div_mod(v as int, 0x400);
    assert(0 <= v <= 0xFFFFF);
    assert(0 <= v % 0x400 < 0x400);
    assert(0 <= v / 0x400 <= 0x3FF);
}

/// Encodes the scalar values into UTF-16 code units, in order, appending one
/// zero unit when `null_terminate` is set.
pub fn encode_utf16(chars: &Vec<char>, null_terminate: bool) -> (out: Vec<u16>)
    ensures
        out@ == utf16_encode(chars@) + (if null_terminate {
            seq![0u16]
        } else {
            Seq::<u16>::empty()
        }),
{
    let mut out: Vec<u16> = Vec::new();
    let n = chars.len();
    let mut i: usize = 0;
    while i < n
        invariant
            n == chars@.len(),
            i <= n,
            out@ == utf16_encode(chars@.take(i as int)),
        decreases n - i,
    {
        let c = chars[i];
        proof {
            vstd::utf8::char_is_scalar(c);
            lemma_utf16_encode_push(chars@.take(i as int), c);
            assert(chars@.take(i + 1) =~= chars@.take(i as int).push(c));
        }
        let u = c as u32;
        if u <= 0xFFFF {
            out.push(u as u16);
        } else {
            let v = u - 0x10000;
            out.push((0xD800 + v / 0x400) as u16);
            out.push((0xDC00 + v % 0x400) as u16);
        }
        proof {
            assert(out@ =~= utf16_encode(chars@.take(i as int)) + utf16_units(c));
        }
        i = i + 1;
    }
    proof {
        assert(chars@.take(n as int) =~= chars@);
    }
    if null_terminate {
        out.push(0u16);
    }
    proof {
        if !null_terminate {
            assert(out@ =~= utf16_encode(chars@) + Seq::<u16>::empty());
        }
    }
    out
}

} // verus!
