//! Decoding of backslash escape sequences in a character sequence.
//!
//! The decoder walks the input one logical unit at a time: a plain character,
//! or one whole escape sequence. Every step classifies what it saw and says
//! how many input characters it consumed, so the cursor advances
//! deterministically whether or not the escape was well formed. A malformed
//! `\u{...}` escape still consumes everything up to and including the closing
//! brace when one exists.

use vstd::prelude::*;

verus! {

use vstd::arithmetic::power::pow;
use vstd::pervasive::arbitrary;
use vstd::utf8::is_scalar;

/// One decoding step's classification: a character that was no part of an
/// escape, a character resolved from an escape, a malformed escape (tagged
/// with its introducer), or a backslash that ends the input.
#[derive(Debug, Clone, Copy, PartialEq, Eq, Structural)]
pub enum CharEscape {
    Literal(char),
    Escaped(char),
    Improper(char),
    DanglingBackslash,
}

/// Why an input was rejected as a whole.
#[derive(Debug, Clone, Copy, PartialEq, Eq, Structural)]
pub enum EscapeError {
    MalformedHexEscape,
    MalformedUnicodeEscape,
    UnknownEscape(char),
    TrailingBackslash,
}

/// True for the results that resolve to a character.
pub open spec fn is_proper(r: CharEscape) -> bool {
    r is Literal || r is Escaped
}

/// The character a proper result resolves to.
pub open spec fn resolved(r: CharEscape) -> char
    recommends
        is_proper(r),
{
    match r {
        CharEscape::Literal(c) => c,
        CharEscape::Escaped(c) => c,
        _ => arbitrary(),
    }
}

/// The error kind a malformed result is reported as.
pub open spec fn error_of(r: CharEscape) -> EscapeError
    recommends
        !is_proper(r),
{
    match r {
        CharEscape::Improper(tag) => if tag == 'x' {
            EscapeError::MalformedHexEscape
        } else if tag == 'u' {
            EscapeError::MalformedUnicodeEscape
        } else {
            EscapeError::UnknownEscape(tag)
        },
        _ => EscapeError::TrailingBackslash,
    }
}

/// True for the characters `0`..`9`, `a`..`f` and `A`..`F`.
pub open spec fn is_hex_digit(c: char) -> bool {
    let u = c as u32;
    (48 <= u && u <= 57) || (97 <= u && u <= 102) || (65 <= u && u <= 70)
}

/// The numeric value of one hexadecimal digit.
pub open spec fn hex_value(c: char) -> int
    recommends
        is_hex_digit(c),
{
    let u = c as u32;
    if 48 <= u && u <= 57 {
        u - 48
    } else if 97 <= u && u <= 102 {
        u - 87
    } else {
        u - 55
    }
}

/// The numeric value of a sequence of hexadecimal digits, most significant
/// digit first.
pub open spec fn hex_seq_value(ds: Seq<char>) -> int
    decreases ds.len(),
{
    if ds.len() == 0 {
        0
    } else {
        hex_seq_value(ds.drop_last()) * 16 + hex_value(ds.last())
    }
}

/// True when every character of the sequence is a hexadecimal digit.
pub open spec fn all_hex_digits(ds: Seq<char>) -> bool {
    forall|j: int| 0 <= j < ds.len() ==> is_hex_digit(#[trigger] ds[j])
}

/// The index of the first closing brace at or after position `j`, or the
/// sequence's length when there is none.
pub open spec fn scan_close(s: Seq<char>, j: int) -> int
    recommends
        0 <= j <= s.len(),
    decreases s.len() - j,
    when j <= s.len()
{
    if j >= s.len() {
        s.len() as int
    } else if s[j] == '}' {
        j
    } else {
        scan_close(s, j + 1)
    }
}

/// One step of decoding a `\x` escape, at position `i` of the backslash.
pub open spec fn hex_step(s: Seq<char>, i: int) -> (CharEscape, int)
    recommends
        0 <= i,
        i + 1 < s.len(),
        s[i] == '\\',
        s[i + 1] == 'x',
{
    let n = s.len() as int;
    if i + 3 >= n {
        (CharEscape::Improper('x'), n - i)
    } else {
        let d1 = s[i + 2];
        let d2 = s[i + 3];
        if is_hex_digit(d1) && is_hex_digit(d2) && hex_value(d1) * 16 + hex_value(d2) < 128 {
            (CharEscape::Escaped(((hex_value(d1) * 16 + hex_value(d2)) as u32) as char), 4)
        } else {
            (CharEscape::Improper('x'), 4)
        }
    }
}

/// One step of decoding a `\u` escape, at position `i` of the backslash.
pub open spec fn unicode_step(s: Seq<char>, i: int) -> (CharEscape, int)
    recommends
        0 <= i,
        i + 1 < s.len(),
        s[i] == '\\',
        s[i + 1] == 'u',
{
    let n = s.len() as int;
    if i + 2 >= n {
        (CharEscape::Improper('u'), 2)
    } else if s[i + 2] != '{' {
        (CharEscape::Improper('u'), 3)
    } else {
        let close = scan_close(s, i + 3);
        if close == n {
            (CharEscape::Improper('u'), n - i)
        } else {
            let digits = s.subrange(i + 3, close);
            let consumed = close + 1 - i;
            if 1 <= digits.len() <= 6 && all_hex_digits(digits) && is_scalar(
                hex_seq_value(digits) as u32,
            ) {
                (CharEscape::Escaped((hex_seq_value(digits) as u32) as char), consumed)
            } else {
                (CharEscape::Improper('u'), consumed)
            }
        }
    }
}

/// One decoding step at position `i`: the result it classifies and the number
/// of input characters it consumes.
pub open spec fn decode_step(s: Seq<char>, i: int) -> (CharEscape, int)
    recommends
        0 <= i < s.len(),
{
    let n = s.len() as int;
    if s[i] != '\\' {
        (CharEscape::Literal(s[i]), 1)
    } else if i + 1 >= n {
        (CharEscape::DanglingBackslash, 1)
    } else {
        let f = s[i + 1];
        if f == '0' {
            (CharEscape::Escaped('\0'), 2)
        } else if f == 'n' {
            (CharEscape::Escaped('\n'), 2)
        } else if f == 'r' {
            (CharEscape::Escaped('\r'), 2)
        } else if f == 't' {
            (CharEscape::Escaped('\t'), 2)
        } else if f == '\\' {
            (CharEscape::Escaped('\\'), 2)
        } else if f == '\'' {
            (CharEscape::Escaped('\''), 2)
        } else if f == '"' {
            (CharEscape::Escaped('"'), 2)
        } else if f == 'x' {
            hex_step(s, i)
        } else if f == 'u' {
            unicode_step(s, i)
        } else {
            (CharEscape::Improper(f), 2)
        }
    }
}

proof fn lemma_scan_close_bounds(s: Seq<char>, j: int)
    requires
        0 <= j <= s.len(),
    ensures
        j <= scan_close(s, j) <= s.len(),
        scan_close(s, j) < s.len() ==> s[scan_close(s, j)] == '}',
    decreases s.len() - j,
{
    if j < s.len() && s[j] != '}' {
        lemma_scan_close_bounds(s, j + 1);
    }
}

/// Every decoding step consumes at least one character and never runs past the
/// end of the input.
pub proof fn lemma_decode_step_bounds(s: Seq<char>, i: int)
    requires
        0 <= i < s.len(),
    ensures
        1 <= decode_step(s, i).1,
        i + decode_step(s, i).1 <= s.len(),
{
    let n = s.len() as int;
    if s[i] == '\\' && i + 1 < n {
        let f = s[i + 1];
        if f == 'u' && i + 2 < n && s[i + 2] == '{' {
            lemma_scan_close_bounds(s, i + 3);
        }
    }
}

/// True when every decoding step from position `i` to the end of the input
/// yields a proper result.
pub open spec fn decode_ok_from(s: Seq<char>, i: int) -> bool
    decreases s.len() - i,
    when 0 <= i
{
    if i >= s.len() {
        true
    } else {
        proof {
            if 0 <= i && i < s.len() {
                lemma_decode_step_bounds(s, i);
            }
        }
        let step = decode_step(s, i);
        is_proper(step.0) && decode_ok_from(s, i + step.1)
    }
}

/// The characters the decoding steps from position `i` resolve to, in order.
pub open spec fn unescaped_from(s: Seq<char>, i: int) -> Seq<char>
    recommends
        decode_ok_from(s, i),
    decreases s.len() - i,
    when 0 <= i
{
    if i >= s.len() {
        Seq::empty()
    } else {
        proof {
            if 0 <= i && i < s.len() {
                lemma_decode_step_bounds(s, i);
            }
        }
        let step = decode_step(s, i);
        seq![resolved(step.0)] + unescaped_from(s, i + step.1)
    }
}

/// The error the first malformed decoding step from position `i` is reported
/// as.
pub open spec fn first_error_from(s: Seq<char>, i: int) -> EscapeError
    recommends
        !decode_ok_from(s, i),
    decreases s.len() - i,
    when 0 <= i
{
    if i >= s.len() {
        arbitrary()
    } else {
        proof {
            if 0 <= i && i < s.len() {
                lemma_decode_step_bounds(s, i);
            }
        }
        let step = decode_step(s, i);
        if is_proper(step.0) {
            first_error_from(s, i + step.1)
        } else {
            error_of(step.0)
        }
    }
}

/// True when the whole input decodes without a malformed escape or a trailing
/// backslash.
pub open spec fn decode_ok(s: Seq<char>) -> bool {
    decode_ok_from(s, 0)
}

/// The characters the whole input resolves to.
pub open spec fn unescaped(s: Seq<char>) -> Seq<char>
    recommends
        decode_ok(s),
{
    unescaped_from(s, 0)
}

/// The error the whole input is rejected with.
pub open spec fn first_error(s: Seq<char>) -> EscapeError
    recommends
        !decode_ok(s),
{
    first_error_from(s, 0)
}

proof fn lemma_no_backslash_from(s: Seq<char>, i: int)
    requires
        0 <= i <= s.len(),
        forall|j: int| 0 <= j < s.len() ==> s[j] != '\\',
    ensures
        decode_ok_from(s, i),
        unescaped_from(s, i) == s.skip(i),
    decreases s.len() - i,
{
    if i < s.len() {
        lemma_no_backslash_from(s, i + 1);
        assert(seq![s[i]] + s.skip(i + 1) =~= s.skip(i));
    } else {
        assert(s.skip(i) =~= Seq::<char>::empty());
    }
}

/// A character sequence without a backslash decodes to itself: every step is a
/// literal, so the pipeline built on this decoder reproduces the standard
/// encoding of such an input.
pub proof fn lemma_no_backslash_decodes_to_self(s: Seq<char>)
    requires
        forall|j: int| 0 <= j < s.len() ==> s[j] != '\\',
    ensures
        decode_ok(s),
        unescaped(s) == s,
{
    lemma_no_backslash_from(s, 0);
    assert(s.skip(0) =~= s);
}

proof fn lemma_scan_close_found(s: Seq<char>, j: int, k: int)
    requires
        0 <= j <= k <= s.len(),
        forall|m: int| j <= m < k ==> s[m] != '}',
        k == s.len() || s[k] == '}',
    ensures
        scan_close(s, j) == k,
    decreases k - j,
{
    if j < k {
        lemma_scan_close_found(s, j + 1, k);
    }
}

proof fn lemma_pow16_values()
    ensures
        pow(16, 0) == 1,
        pow(16, 1) == 16,
        pow(16, 2) == 0x100,
        pow(16, 3) == 0x1000,
        pow(16, 4) == 0x10000,
        pow(16, 5) == 0x100000,
        pow(16, 6) == 0x1000000,
{
    reveal(pow);
    assert(pow(16, 0) == 1);
    assert(pow(16, 1) == 16);
    assert(pow(16, 2) == 0x100);
    assert(pow(16, 3) == 0x1000);
    assert(pow(16, 4) == 0x10000);
    assert(pow(16, 5) == 0x100000);
    assert(pow(16, 6) == 0x1000000);
}

proof fn lemma_hex_seq_value_bound(ds: Seq<char>)
    requires
        all_hex_digits(ds),
    ensures
        0 <= hex_seq_value(ds) < pow(16, ds.len()),
    decreases ds.len(),
{
    reveal(pow);
    if ds.len() == 0 {
    } else {
        assert(all_hex_digits(ds.drop_last())) by {
            assert(forall|j: int|
                0 <= j < ds.len() - 1 ==> #[trigger] ds.drop_last()[j] == ds[j]);
        }
        lemma_hex_seq_value_bound(ds.drop_last());
        assert(is_hex_digit(ds.last()));
        assert(pow(16, ds.len()) == 16 * pow(16, (ds.len() - 1) as nat));
    }
}

/// The numeric value of one hexadecimal digit character, `None` for any other
/// character.
fn hex_digit_value(c: char) -> (r: Option<u32>)
    ensures
        r is Some <==> is_hex_digit(c),
        r matches Some(v) ==> v == hex_value(c),
{
    let u = c as u32;
    if 48 <= u && u <= 57 {
        Some(u - 48)
    } else if 97 <= u && u <= 102 {
        Some(u - 87)
    } else if 65 <= u && u <= 70 {
        Some(u - 55)
    } else {
        None
    }
}

/// Pull-based decoder over a character sequence: each call to `next` consumes
/// one logical unit of input, a plain character or one whole escape sequence,
/// and classifies it.
pub struct CharEscapeIterator {
    chars: Vec<char>,
    pos: usize,
}

impl CharEscapeIterator {
    /// The input being decoded.
    pub closed spec fn input(&self) -> Seq<char> {
        self.chars@
    }

    /// How many input characters have been consumed so far.
    pub closed spec fn cursor(&self) -> int {
        self.pos as int
    }

    /// The cursor never runs past the end of the input.
    pub open spec fn wf(&self) -> bool {
        0 <= self.cursor() <= self.input().len()
    }

    /// Starts a decoder at the beginning of the given input.
    pub fn new(chars: Vec<char>) -> (it: Self)
        ensures
            it.wf(),
            it.input() == chars@,
            it.cursor() == 0,
    {
        CharEscapeIterator { chars, pos: 0 }
    }

    /// Decodes the next logical unit of input: `None` at the end, otherwise
    /// the classified result, with the cursor advanced over everything the
    /// step consumed.
    pub fn next(&mut self) -> (r: Option<CharEscape>)
        requires
            old(self).wf(),
        ensures
            final(self).wf(),
            final(self).input() == old(self).input(),
            old(self).cursor() == old(self).input().len() ==> r is None && final(self).cursor()
                == old(self).cursor(),
            old(self).cursor() < old(self).input().len() ==> {
                let step = decode_step(old(self).input(), old(self).cursor());
                &&& r == Some(step.0)
                &&& final(self).cursor() == old(self).cursor() + step.1
            },
    {
        let n = self.chars.len();
        let i = self.pos;
        if i == n {
            return None;
        }
        proof {
            lemma_decode_step_bounds(self.chars@, i as int);
        }
        let ch = self.chars[i];
        if ch != '\\' {
            self.pos = i + 1;
            return Some(CharEscape::Literal(ch));
        }
        if n - i == 1 {
            self.pos = i + 1;
            return Some(CharEscape::DanglingBackslash);
        }
        let f = self.chars[i + 1];
        match f {
            '0' => {
                self.pos = i + 2;
                Some(CharEscape::Escaped('\0'))
            },
            'n' => {
                self.pos = i + 2;
                Some(CharEscape::Escaped('\n'))
            },
            'r' => {
                self.pos = i + 2;
                Some(CharEscape::Escaped('\r'))
            },
            't' => {
                self.pos = i + 2;
                Some(CharEscape::Escaped('\t'))
            },
            '\\' => {
                self.pos = i + 2;
                Some(CharEscape::Escaped('\\'))
            },
            '\'' => {
                self.pos = i + 2;
                Some(CharEscape::Escaped('\''))
            },
            '"' => {
                self.pos = i + 2;
                Some(CharEscape::Escaped('"'))
            },
            'x' => self.next_hex(i, n),
            'u' => self.next_unicode(i, n),
            other => {
                self.pos = i + 2;
                Some(CharEscape::Improper(other))
            },
        }
    }

    fn next_hex(&mut self, i: usize, n: usize) -> (r: Option<CharEscape>)
        requires
            old(self).wf(),
            n == old(self).input().len(),
            i == old(self).cursor(),
            i + 1 < n,
            old(self).input()[i as int] == '\\',
            old(self).input()[i + 1] == 'x',
        ensures
            final(self).input() == old(self).input(),
            r == Some(hex_step(old(self).input(), i as int).0),
            final(self).cursor() == i + hex_step(old(self).input(), i as int).1,
    {
        if n - i < 4 {
            self.pos = n;
            Some(CharEscape::Improper('x'))
        } else {
            let d1 = self.chars[i + 2];
            let d2 = self.chars[i + 3];
            self.pos = i + 4;
            match (hex_digit_value(d1), hex_digit_value(d2)) {
                (Some(a), Some(b)) => {
                    let val = a * 16 + b;
                    if val < 128 {
                        match char::from_u32(val) {
                            Some(c) => {
                                proof {
                                    vstd::utf8::char_u32_cast(c, val);
                                }
                                Some(CharEscape::Escaped(c))
                            },
                            None => vstd::pervasive::unreached(),
                        }
                    } else {
                        Some(CharEscape::Improper('x'))
                    }
                },
                _ => Some(CharEscape::Improper('x')),
            }
        }
    }

    fn next_unicode(&mut self, i: usize, n: usize) -> (r: Option<CharEscape>)
        requires
            old(self).wf(),
            n == old(self).input().len(),
            i == old(self).cursor(),
            i + 1 < n,
            old(self).input()[i as int] == '\\',
            old(self).input()[i + 1] == 'u',
        ensures
            final(self).input() == old(self).input(),
            r == Some(unicode_step(old(self).input(), i as int).0),
            final(self).cursor() == i + unicode_step(old(self).input(), i as int).1,
    {
        let ghost s = self.chars@;
        if n - i == 2 {
            self.pos = i + 2;
            return Some(CharEscape::Improper('u'));
        }
        if self.chars[i + 2] != '{' {
            self.pos = i + 3;
            return Some(CharEscape::Improper('u'));
        }
        let mut k = i + 3;
        while k < n && self.chars[k] != '}'
            invariant
                self.chars@ == s,
                self.pos == i,
                n == s.len(),
                i + 3 <= k <= n,
                forall|m: int| i + 3 <= m < k ==> s[m] != '}',
            decreases n - k,
        {
            k = k + 1;
        }
        proof {
            lemma_scan_close_found(s, i + 3, k as int);
        }
        if k == n {
            self.pos = n;
            return Some(CharEscape::Improper('u'));
        }
        let count = k - (i + 3);
        self.pos = k + 1;
        if count == 0 || count > 6 {
            return Some(CharEscape::Improper('u'));
        }
        let ghost digits = s.subrange(i + 3, k as int);
        let mut val: u32 = 0;
        let mut j = i + 3;
        let mut ok = true;
        while j < k
            invariant
                self.chars@ == s,
                self.pos == k + 1,
                n == s.len(),
                i + 3 <= j <= k < n,
                count == k - (i + 3),
                count <= 6,
                digits == s.subrange(i + 3, k as int),
                ok ==> all_hex_digits(digits.take(j - (i + 3))),
                ok ==> val == hex_seq_value(digits.take(j - (i + 3))),
                !ok ==> !all_hex_digits(digits),
            decreases k - j,
    {
            let d = self.chars[j];
            proof {
                assert(digits[j - (i + 3)] == s[j as int]);
            }
            match hex_digit_value(d) {
                Some(h) => {
                    if ok {
                        proof {
                            let m = j - (i + 3);
                            let pref = digits.take(m);
                            lemma_hex_seq_value_bound(pref);
                            lemma_pow16_values();
                            vstd::arithmetic::power::lemma_pow_increases(16, pref.len(), 5);
                            assert(digits.take(m + 1).drop_last() =~= pref);
                            assert(digits.take(m + 1).last() == digits[m]);
                        }
                        val = val * 16 + h;
                    }
                },
                None => {
                    proof {
                        assert(!is_hex_digit(digits[j - (i + 3)]));
                    }
                    ok = false;
                },
            }
            j = j + 1;
        }
        if !ok {
            return Some(CharEscape::Improper('u'));
        }
        proof {
            assert(digits.take(count as int) =~= digits);
            lemma_hex_seq_value_bound(digits);
            lemma_pow16_values();
            vstd::arithmetic::power::lemma_pow_increases(16, digits.len(), 6);
        }
        match char::from_u32(val) {
            Some(c) => {
                proof {
                    vstd::utf8::char_u32_cast(c, val);
                }
                Some(CharEscape::Escaped(c))
            },
            None => Some(CharEscape::Improper('u')),
        }
    }
}

/// Resolves every escape sequence in the input into its character, or reports
/// the first malformed escape; `Ok` exactly when the whole input is well
/// formed.
pub fn decode_escapes(chars: Vec<char>) -> (r: Result<Vec<char>, EscapeError>)
    ensures
        match r {
            Ok(v) => decode_ok(chars@) && v@ == unescaped(chars@),
            Err(e) => !decode_ok(chars@) && e == first_error(chars@),
        },
{
    let ghost input = chars@;
    let mut it = CharEscapeIterator::new(chars);
    let mut out: Vec<char> = Vec::new();
    loop
        invariant
            input == chars@,
            it.wf(),
            it.input() == input,
            decode_ok(input) <==> decode_ok_from(input, it.cursor()),
            decode_ok(input) ==> unescaped(input) == out@ + unescaped_from(input, it.cursor()),
            !decode_ok(input) ==> first_error(input) == first_error_from(input, it.cursor()),
        decreases input.len() - it.cursor(),
    {
        let ghost p = it.cursor();
        proof {
            if p < input.len() {
                lemma_decode_step_bounds(input, p);
                let step = decode_step(input, p);
                assert(decode_ok_from(input, p) == (is_proper(step.0) && decode_ok_from(
                    input,
                    p + step.1,
                )));
                assert(unescaped_from(input, p) == seq![resolved(step.0)] + unescaped_from(
                    input,
                    p + step.1,
                ));
                if is_proper(step.0) && !decode_ok_from(input, p + step.1) {
                    assert(first_error_from(input, p) == first_error_from(input, p + step.1));
                }
                if !is_proper(step.0) {
                    assert(first_error_from(input, p) == error_of(step.0));
                }
            } else {
                assert(decode_ok_from(input, p));
                assert(unescaped_from(input, p) == Seq::<char>::empty());
            }
        }
        match it.next() {
            None => {
                proof {
                    assert(out@ + unescaped_from(input, p) =~= out@);
                }
                return Ok(out);
            },
            Some(step) => {
                match step {
                    CharEscape::Literal(c) => {
                        proof {
                            assert(out@.push(c) + unescaped_from(input, it.cursor()) =~= out@
                                + unescaped_from(input, p));
                        }
                        out.push(c);
                    },
                    CharEscape::Escaped(c) => {
                        proof {
                            assert(out@.push(c) + unescaped_from(input, it.cursor()) =~= out@
                                + unescaped_from(input, p));
                        }
                        out.push(c);
                    },
                    CharEscape::Improper(tag) => {
                        return Err(
                            if tag == 'x' {
                                EscapeError::MalformedHexEscape
                            } else if tag == 'u' {
                                EscapeError::MalformedUnicodeEscape
                            } else {
                                EscapeError::UnknownEscape(tag)
                            },
                        );
                    },
                    CharEscape::DanglingBackslash => {
                        return Err(EscapeError::TrailingBackslash);
                    },
                }
            },
        }
    }
}

/// Resolves every escape sequence in the string into its character, for an
/// input already known to be free of malformed escapes.
pub fn perform_the_escaping(line: &str) -> (out: Vec<char>)
    requires
        decode_ok(line@),
    ensures
        out@ == unescaped(line@),
{
    let chars = crate::str_to_chars(line);
    match decode_escapes(chars) {
        Ok(v) => v,
        Err(_) => vstd::pervasive::unreached(),
    }
}

} // verus!
