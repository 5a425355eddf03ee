//! The grammar of a numeric cell.
//!
//! A cell is numeric when its whole text is a floating-point literal:
//!
//! ```text
//! Literal  ::= Sign? ( 'inf' | 'infinity' | Number )
//! Number   ::= ( Digit+ | Digit+ '.' Digit* | Digit* '.' Digit+ ) Exponent?
//! Exponent ::= 'e' Sign? Digit+
//! Sign     ::= [+-]
//! Digit    ::= [0-9]
//! ```
//!
//! Letters match in either case. The spelling of a not-a-number value is
//! deliberately no literal: such a cell counts as missing, so every numeric
//! cell denotes a value that can be ordered.

use vstd::prelude::*;

verus! {

/// `Digit`
pub open spec fn is_digit(c: char) -> bool {
    '0' <= c <= '9'
}

/// `Sign`
pub open spec fn is_sign(c: char) -> bool {
    c == '+' || c == '-'
}

/// The letter `c` in lower case; any other character unchanged.
pub open spec fn lower(c: char) -> char {
    if 'A' <= c <= 'Z' {
        ((c as u8) + 32) as char
    } else {
        c
    }
}

/// `Digit*` spans `text[lo..hi]`.
pub open spec fn digits(text: Seq<char>, lo: int, hi: int) -> bool {
    forall|i: int| lo <= i < hi ==> is_digit(#[trigger] text[i])
}

/// `Digit+ | Digit+ '.' Digit* | Digit* '.' Digit+` spans `text[lo..hi]`.
pub open spec fn mantissa(text: Seq<char>, lo: int, hi: int) -> bool {
    ||| lo < hi && digits(text, lo, hi)
    ||| exists|dot: int|
        lo <= dot < hi && #[trigger] text[dot] == '.' && hi - lo >= 2 && digits(text, lo, dot)
            && digits(text, dot + 1, hi)
}

/// Where the digits of an exponent that starts at `lo` begin: behind the
/// letter and the sign, if there is one.
pub open spec fn exponent_digits_start(text: Seq<char>, lo: int, hi: int) -> int {
    if lo + 1 < hi && is_sign(text[lo + 1]) {
        lo + 2
    } else {
        lo + 1
    }
}

/// `'e' Sign? Digit+` spans `text[lo..hi]`.
pub open spec fn exponent(text: Seq<char>, lo: int, hi: int) -> bool {
    &&& lo < hi
    &&& lower(text[lo]) == 'e'
    &&& exponent_digits_start(text, lo, hi) < hi
    &&& digits(text, exponent_digits_start(text, lo, hi), hi)
}

/// `Number` spans `text[lo..hi]`.
pub open spec fn number(text: Seq<char>, lo: int, hi: int) -> bool {
    exists|e: int|
        lo <= e <= hi && #[trigger] mantissa(text, lo, e) && (e == hi || exponent(text, e, hi))
}

/// `text[lo..hi]` spells `word`, in either case.
pub open spec fn spells(text: Seq<char>, lo: int, hi: int, word: Seq<char>) -> bool {
    &&& hi - lo == word.len()
    &&& forall|i: int| 0 <= i < word.len() ==> lower(#[trigger] text[lo + i]) == word[i]
}

/// `'inf'`
pub open spec fn short_infinity() -> Seq<char> {
    seq!['i', 'n', 'f']
}

/// `'infinity'`
pub open spec fn long_infinity() -> Seq<char> {
    seq!['i', 'n', 'f', 'i', 'n', 'i', 't', 'y']
}

/// Where the literal's body begins: behind the sign, if there is one.
pub open spec fn body_start(text: Seq<char>) -> int {
    if text.len() > 0 && is_sign(text[0]) {
        1
    } else {
        0
    }
}

/// The whole of `text` is a floating-point literal that denotes a number.
pub open spec fn is_float_literal(text: Seq<char>) -> bool {
    let lo = body_start(text);
    let hi = text.len() as int;
    ||| number(text, lo, hi)
    ||| spells(text, lo, hi, short_infinity())
    ||| spells(text, lo, hi, long_infinity())
}

/// Whether the whole of `s` is a floating-point literal that denotes a
/// number: whether a cell with this text is numeric.
pub fn is_numeric_text(s: &str) -> (r: bool)
    ensures
        r == is_float_literal(s@),
{
    if !s.is_ascii() {
        proof {
            if is_float_literal(s@) {
                lemma_literal_is_ascii(s@);
            }
        }
        return false;
    }
    let n = s.unicode_len();
    let mut lo: usize = 0;
    if n > 0 {
        let c = char_at(s, 0);
        if c == '+' || c == '-' {
            lo = 1;
        }
    }
    if scan_number(s, lo, n) {
        return true;
    }
    proof {
        reveal_strlit("inf");
        reveal_strlit("infinity");
        assert("inf"@ =~= short_infinity());
        assert("infinity"@ =~= long_infinity());
    }
    scan_word(s, lo, n, "inf") || scan_word(s, lo, n, "infinity")
}

/// Whether `s[lo..n]` spells `word`, in either case.
fn scan_word(s: &str, lo: usize, n: usize, word: &str) -> (r: bool)
    requires
        s.is_ascii(),
        n == s@.len(),
        lo <= n,
        word.is_ascii(),
        forall|i: int| 0 <= i < word@.len() ==> 'a' <= #[trigger] word@[i] <= 'z',
    ensures
        r == spells(s@, lo as int, n as int, word@),
{
    let len = word.unicode_len();
    if n - lo != len {
        return false;
    }
    let mut i: usize = 0;
    while i < len
        invariant
            s.is_ascii(),
            word.is_ascii(),
            n == s@.len(),
            len == word@.len(),
            n - lo == len,
            i <= len,
            forall|k: int| 0 <= k < word@.len() ==> 'a' <= #[trigger] word@[k] <= 'z',
            forall|k: int| 0 <= k < i ==> lower(#[trigger] s@[lo + k]) == word@[k],
        decreases len - i,
    {
        if !is_letter(char_at(s, lo + i), char_at(word, i)) {
            assert(lower(s@[lo + i]) != word@[i as int]);
            return false;
        }
        i += 1;
    }
    true
}

/// Every character of a literal is an ASCII character.
pub proof fn lemma_literal_is_ascii(text: Seq<char>)
    requires
        is_float_literal(text),
    ensures
        vstd::utf8::is_ascii_chars(text),
{
    let lo = body_start(text);
    let hi = text.len() as int;
    let short = short_infinity();
    let long = long_infinity();
    assert forall|i: int| 0 <= i < text.len() implies '\0' <= #[trigger] text[i] <= '\u{7f}' by {
        if i < lo {
        } else if number(text, lo, hi) {
            let e = choose|e: int|
                lo <= e <= hi && #[trigger] mantissa(text, lo, e) && (e == hi || exponent(
                    text,
                    e,
                    hi,
                ));
            if i < e {
                if lo < e && digits(text, lo, e) {
                    assert(is_digit(text[i]));
                } else {
                    let d = choose|d: int|
                        lo <= d < e && #[trigger] text[d] == '.' && e - lo >= 2 && digits(
                            text,
                            lo,
                            d,
                        ) && digits(text, d + 1, e);
                    if i != d {
                        assert(is_digit(text[i]));
                    }
                }
            } else if i >= exponent_digits_start(text, e, hi) {
                assert(is_digit(text[i]));
            }
        } else if spells(text, lo, hi, short) {
            assert(lower(text[lo + (i - lo)]) == short[i - lo]);
        } else {
            assert(lower(text[lo + (i - lo)]) == long[i - lo]);
        }
    }
}

/// The character at position `i` of an ASCII text.
fn char_at(s: &str, i: usize) -> (c: char)
    requires
        s.is_ascii(),
        i < s@.len(),
    ensures
        c == s@[i as int],
{
    let b: u8 = s.get_ascii(i);
    b as char
}

/// Whether `c` is the lower-case letter `small`, in either case.
fn is_letter(c: char, small: char) -> (r: bool)
    requires
        'a' <= small <= 'z',
    ensures
        r == (lower(c) == small),
{
    c == small || ('A' <= c && c <= 'Z' && (c as u8) + 32 == small as u8)
}

/// The end of the longest run of digits that starts at `from`.
fn scan_digits(s: &str, from: usize, n: usize) -> (end: usize)
    requires
        s.is_ascii(),
        n == s@.len(),
        from <= n,
    ensures
        from <= end <= n,
        digits(s@, from as int, end as int),
        end < n ==> !is_digit(s@[end as int]),
{
    let mut end: usize = from;
    while end < n
        invariant
            s.is_ascii(),
            n == s@.len(),
            from <= end <= n,
            digits(s@, from as int, end as int),
        decreases n - end,
    {
        let c = char_at(s, end);
        if !('0' <= c && c <= '9') {
            return end;
        }
        end += 1;
    }
    end
}

/// Whether `s[lo..n]` is an exponent.
fn scan_exponent(s: &str, lo: usize, n: usize) -> (r: bool)
    requires
        s.is_ascii(),
        n == s@.len(),
        lo < n,
    ensures
        r == exponent(s@, lo as int, n as int),
{
    if !is_letter(char_at(s, lo), 'e') {
        return false;
    }
    let mut start: usize = lo + 1;
    if start < n {
        let c = char_at(s, start);
        if c == '+' || c == '-' {
            start += 1;
        }
    }
    if start >= n {
        return false;
    }
    let end = scan_digits(s, start, n);
    end == n
}

/// Whether `s[lo..n]` is a number.
fn scan_number(s: &str, lo: usize, n: usize) -> (r: bool)
    requires
        s.is_ascii(),
        n == s@.len(),
        lo <= n,
    ensures
        r == number(s@, lo as int, n as int),
{
    let whole = scan_digits(s, lo, n);
    if whole < n && char_at(s, whole) == '.' {
        let end = scan_digits(s, whole + 1, n);
        let r = end - lo >= 2 && (end == n || scan_exponent(s, end, n));
        proof {
            lemma_number_with_point(s@, lo as int, whole as int, end as int, n as int);
        }
        r
    } else {
        let r = whole > lo && (whole == n || scan_exponent(s, whole, n));
        proof {
            lemma_number_without_point(s@, lo as int, whole as int, n as int);
        }
        r
    }
}

/// A number whose digits from `lo` stop at a point, at `dot`, and whose
/// digits behind the point stop at `end`, is the mantissa `text[lo..end]`
/// and what follows it.
proof fn lemma_number_with_point(text: Seq<char>, lo: int, dot: int, end: int, hi: int)
    requires
        0 <= lo <= dot < end <= hi <= text.len(),
        digits(text, lo, dot),
        text[dot] == '.',
        digits(text, dot + 1, end),
        end < hi ==> !is_digit(text[end]),
    ensures
        number(text, lo, hi) <==> end - lo >= 2 && (end == hi || exponent(text, end, hi)),
{
    if end - lo >= 2 && (end == hi || exponent(text, end, hi)) {
        assert(mantissa(text, lo, end));
    }
    if number(text, lo, hi) {
        let e = choose|e: int|
            lo <= e <= hi && #[trigger] mantissa(text, lo, e) && (e == hi || exponent(
                text,
                e,
                hi,
            ));
        if lo < e && digits(text, lo, e) {
            assert(e <= dot) by {
                if e > dot {
                    assert(is_digit(text[dot]));
                }
            }
            assert(false);
        }
        let d = choose|d: int|
            lo <= d < e && #[trigger] text[d] == '.' && e - lo >= 2 && digits(text, lo, d)
                && digits(text, d + 1, e);
        assert(d == dot) by {
            if d < dot {
                assert(is_digit(text[d]));
            }
            if d > dot {
                assert(is_digit(text[dot]));
            }
        }
        assert(e <= end) by {
            if e > end {
                assert(is_digit(text[end]));
            }
        }
        if e < end {
            assert(is_digit(text[e]));
        }
    }
}

/// A number whose digits from `lo` stop at `end`, before anything but a
/// point, is the mantissa `text[lo..end]` and what follows it.
proof fn lemma_number_without_point(text: Seq<char>, lo: int, end: int, hi: int)
    requires
        0 <= lo <= end <= hi <= text.len(),
        digits(text, lo, end),
        end < hi ==> !is_digit(text[end]) && text[end] != '.',
    ensures
        number(text, lo, hi) <==> end > lo && (end == hi || exponent(text, end, hi)),
{
    if end > lo && (end == hi || exponent(text, end, hi)) {
        assert(mantissa(text, lo, end));
    }
    if number(text, lo, hi) {
        let e = choose|e: int|
            lo <= e <= hi && #[trigger] mantissa(text, lo, e) && (e == hi || exponent(
                text,
                e,
                hi,
            ));
        if lo < e && digits(text, lo, e) {
            assert(e <= end) by {
                if e > end {
                    assert(is_digit(text[end]));
                }
            }
            if e < end {
                assert(is_digit(text[e]));
            }
        } else {
            let d = choose|d: int|
                lo <= d < e && #[trigger] text[d] == '.' && e - lo >= 2 && digits(text, lo, d)
                    && digits(text, d + 1, e);
            if d < end {
                assert(is_digit(text[d]));
            }
            if d > end {
                assert(is_digit(text[end]));
            }
            assert(false);
        }
    }
}

} // verus!
