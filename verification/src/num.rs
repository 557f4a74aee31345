//! Decimal numerals: what a digit string denotes, which strings are integer
//! literals, and verified conversions in both directions, matching how the
//! record codec reads and writes its integer fields.

use vstd::prelude::*;
use crate::text::is_space;

verus! {

/// Whether `c` is a decimal digit.
pub open spec fn is_digit(c: char) -> bool {
    0x30 <= c as u32 && c as u32 <= 0x39
}

/// The value of the digit `c`.
pub open spec fn digit_val(c: char) -> int {
    c as u32 - 0x30
}

/// The digit character for a value below ten.
pub open spec fn digit_char(d: int) -> char {
    if d == 0 {
        '0'
    } else if d == 1 {
        '1'
    } else if d == 2 {
        '2'
    } else if d == 3 {
        '3'
    } else if d == 4 {
        '4'
    } else if d == 5 {
        '5'
    } else if d == 6 {
        '6'
    } else if d == 7 {
        '7'
    } else if d == 8 {
        '8'
    } else {
        '9'
    }
}

pub open spec fn all_digits(s: Seq<char>) -> bool {
    forall|k: int| 0 <= k < s.len() ==> is_digit(s[k])
}

/// The number that a digit string denotes, most significant digit first.
pub open spec fn digits_val(s: Seq<char>) -> int
    decreases s.len(),
{
    if s.len() == 0 {
        0
    } else {
        digits_val(s.drop_last()) * 10 + digit_val(s.last())
    }
}

/// The canonical digit string of a nonnegative number: no sign, no leading
/// zero except for zero itself.
pub open spec fn dec_digits(n: nat) -> Seq<char>
    decreases n,
{
    if n < 10 {
        seq![digit_char(n as int)]
    } else {
        dec_digits(n / 10).push(digit_char((n % 10) as int))
    }
}

/// The canonical decimal rendering of an integer, `-` first when negative.
pub open spec fn int_to_dec(n: int) -> Seq<char> {
    if n >= 0 {
        dec_digits(n as nat)
    } else {
        seq!['-'] + dec_digits((-n) as nat)
    }
}

/// Whether a literal starts with a minus sign.
pub open spec fn lit_neg(s: Seq<char>) -> bool {
    s.len() > 0 && s[0] == '-'
}

/// The digit portion of a literal: everything after an optional single sign.
pub open spec fn lit_digits(s: Seq<char>) -> Seq<char> {
    if s.len() > 0 && (s[0] == '+' || s[0] == '-') {
        s.drop_first()
    } else {
        s
    }
}

/// Whether `s` is a well-formed integer literal: an optional single sign
/// followed by at least one digit, a minus sign only where `signed` allows it.
pub open spec fn is_int_lit(s: Seq<char>, signed: bool) -> bool {
    &&& lit_digits(s).len() > 0
    &&& all_digits(lit_digits(s))
    &&& (lit_neg(s) ==> signed)
}

/// The value that a well-formed literal denotes.
pub open spec fn lit_val(s: Seq<char>) -> int {
    if lit_neg(s) {
        -digits_val(lit_digits(s))
    } else {
        digits_val(lit_digits(s))
    }
}

/// What parsing `s` as an integer of range `lo..=hi` yields: the denoted
/// value for a well-formed in-range literal, nothing otherwise.
pub open spec fn parse_int_spec(s: Seq<char>, signed: bool, lo: int, hi: int) -> Option<int> {
    if is_int_lit(s, signed) && lo <= lit_val(s) <= hi {
        Some(lit_val(s))
    } else {
        None
    }
}

pub proof fn lemma_digits_val_nonneg(s: Seq<char>)
    requires
        all_digits(s),
    ensures
        digits_val(s) >= 0,
    decreases s.len(),
{
    if s.len() > 0 {
        let t = s.drop_last();
        assert(forall|k: int| 0 <= k < t.len() ==> is_digit(#[trigger] t[k]));
        lemma_digits_val_nonneg(t);
    }
}

/// A digit string denotes at least what any of its prefixes denotes.
pub proof fn lemma_digits_val_take_le(s: Seq<char>, i: int)
    requires
        all_digits(s),
        0 <= i <= s.len(),
    ensures
        digits_val(s.take(i)) <= digits_val(s),
    decreases s.len() - i,
{
    if i == s.len() {
        assert(s.take(i) =~= s);
    } else {
        let t = s.take(i + 1);
        assert(t.drop_last() =~= s.take(i));
        assert(is_digit(t.last()));
        assert(forall|k: int| 0 <= k < i ==> is_digit(#[trigger] s.take(i)[k]));
        lemma_digits_val_nonneg(s.take(i));
        assert(digits_val(s.take(i)) <= digits_val(t));
        lemma_digits_val_take_le(s, i + 1);
    }
}

pub proof fn lemma_digit_char_val(d: int)
    requires
        0 <= d < 10,
    ensures
        is_digit(digit_char(d)),
        digit_val(digit_char(d)) == d,
{
}

/// Digits are not signs, separators or whitespace.
pub proof fn lemma_digit_not_special(c: char)
    requires
        is_digit(c),
    ensures
        c != '-',
        c != '+',
        c != ',',
        !is_space(c),
{
}

/// The canonical digit string of `n` is nonempty, all digits, and denotes `n`.
pub proof fn lemma_dec_digits(n: nat)
    ensures
        dec_digits(n).len() >= 1,
        all_digits(dec_digits(n)),
        digits_val(dec_digits(n)) == n,
    decreases n,
{
    if n < 10 {
        lemma_digit_char_val(n as int);
        let s = dec_digits(n);
        assert(s.drop_last() =~= Seq::<char>::empty());
        assert(digits_val(Seq::<char>::empty()) == 0);
        assert(s.last() == digit_char(n as int));
        assert(digits_val(s) == digit_val(digit_char(n as int)));
    } else {
        lemma_dec_digits(n / 10);
        lemma_digit_char_val((n % 10) as int);
        let p = dec_digits(n / 10);
        let s = dec_digits(n);
        assert(s.drop_last() =~= p);
        assert(s.last() == digit_char((n % 10) as int));
        assert(digits_val(s) == (n / 10) * 10 + n % 10);
        assert(forall|k: int| 0 <= k < s.len() ==> is_digit(#[trigger] s[k]));
    }
}

/// Every character of a decimal rendering is a digit or a leading minus.
pub proof fn lemma_int_to_dec_clean(n: int)
    ensures
        int_to_dec(n).len() >= 1,
        forall|k: int|
            0 <= k < int_to_dec(n).len() ==> (is_digit(#[trigger] int_to_dec(n)[k])
                || int_to_dec(n)[k] == '-'),
        is_digit(int_to_dec(n).last()),
        int_to_dec(n)[0] == '-' || is_digit(int_to_dec(n)[0]),
{
    if n >= 0 {
        lemma_dec_digits(n as nat);
    } else {
        lemma_dec_digits((-n) as nat);
        let d = dec_digits((-n) as nat);
        let s = int_to_dec(n);
        assert(s.last() == d.last());
        assert(forall|k: int| 1 <= k < s.len() ==> s[k] == #[trigger] d[k - 1]);
    }
}

/// Parsing the canonical rendering of an in-range integer gives it back.
pub proof fn lemma_parse_of_dec(n: int, signed: bool, lo: int, hi: int)
    requires
        lo <= n <= hi,
        n < 0 ==> signed,
    ensures
        parse_int_spec(int_to_dec(n), signed, lo, hi) == Some(n),
{
    if n >= 0 {
        lemma_dec_digits(n as nat);
        let s = int_to_dec(n);
        assert(is_digit(s[0]));
        lemma_digit_not_special(s[0]);
        assert(lit_digits(s) == s);
        assert(!lit_neg(s));
    } else {
        lemma_dec_digits((-n) as nat);
        let s = int_to_dec(n);
        assert(s[0] == '-');
        assert(lit_neg(s));
        assert(lit_digits(s) =~= dec_digits((-n) as nat));
    }
}

fn digit_of_char(c: char) -> (r: Option<u8>)
    ensures
        match r {
            Some(d) => is_digit(c) && d < 10 && d as int == digit_val(c),
            None => !is_digit(c),
        },
{
    let n = c as u32;
    if 0x30 <= n && n <= 0x39 {
        Some((n - 0x30) as u8)
    } else {
        None
    }
}

fn char_of_digit(d: u8) -> (c: char)
    requires
        d < 10,
    ensures
        c == digit_char(d as int),
{
    if d == 0 {
        '0'
    } else if d == 1 {
        '1'
    } else if d == 2 {
        '2'
    } else if d == 3 {
        '3'
    } else if d == 4 {
        '4'
    } else if d == 5 {
        '5'
    } else if d == 6 {
        '6'
    } else if d == 7 {
        '7'
    } else if d == 8 {
        '8'
    } else {
        '9'
    }
}

/// Reads the digits of `v` from position `from` to the end as a number;
/// nothing on an empty or non-digit tail, or on one denoting more than
/// `u64::MAX`.
fn parse_digits(v: &Vec<char>, from: usize) -> (r: Option<u64>)
    requires
        from <= v@.len(),
    ensures
        ({
            let d = v@.skip(from as int);
            &&& (r is Some <==> d.len() > 0 && all_digits(d) && digits_val(d) <= u64::MAX)
            &&& (r is Some ==> r->0 as int == digits_val(d))
        }),
{
    let ghost d = v@.skip(from as int);
    if v.len() == from {
        return None;
    }
    let mut acc: u64 = 0;
    let mut i: usize = from;
    assert(d.take(0) =~= Seq::<char>::empty());
    while i < v.len()
        invariant
            from <= i <= v@.len(),
            d == v@.skip(from as int),
            all_digits(d.take(i - from)),
            acc as int == digits_val(d.take(i - from)),
        decreases v@.len() - i,
    {
        let ghost j = i - from;
        proof {
            assert(d[j] == v@[i as int]);
            assert(d.take(j + 1).drop_last() =~= d.take(j));
            assert(d.take(j + 1).last() == d[j]);
        }
        match digit_of_char(v[i]) {
            None => {
                return None;
            },
            Some(dg) => {
                proof {
                    assert(forall|k: int| 0 <= k < j + 1 ==> is_digit(#[trigger] d.take(j + 1)[k]));
                }
                let m = match acc.checked_mul(10) {
                    Some(m) => m,
                    None => {
                        proof {
                            if all_digits(d) && digits_val(d) <= u64::MAX {
                                lemma_digits_val_take_le(d, j + 1);
                            }
                        }
                        return None;
                    },
                };
                acc = match m.checked_add(dg as u64) {
                    Some(a) => a,
                    None => {
                        proof {
                            if all_digits(d) && digits_val(d) <= u64::MAX {
                                lemma_digits_val_take_le(d, j + 1);
                            }
                        }
                        return None;
                    },
                };
            },
        }
        i += 1;
    }
    assert(d.take(v@.len() - from) =~= d);
    Some(acc)
}

/// Parses a signed 64-bit integer literal, as the minutes field is read.
pub fn parse_i64_chars(v: &Vec<char>) -> (r: Option<i64>)
    ensures
        ({
            let p = parse_int_spec(v@, true, i64::MIN as int, i64::MAX as int);
            match r {
                Some(x) => p == Some(x as int),
                None => p is None,
            }
        }),
{
    if v.len() == 0 {
        return None;
    }
    let c0 = v[0];
    let (neg, from): (bool, usize) = if c0 == '-' {
        (true, 1)
    } else if c0 == '+' {
        (false, 1)
    } else {
        (false, 0)
    };
    proof {
        assert(lit_digits(v@) =~= v@.skip(from as int));
    }
    match parse_digits(v, from) {
        None => None,
        Some(mag) => {
            if neg {
                if mag <= 9223372036854775808u64 {
                    let x: i64 = if mag == 9223372036854775808u64 {
                        i64::MIN
                    } else {
                        -(mag as i64)
                    };
                    Some(x)
                } else {
                    None
                }
            } else {
                if mag <= 9223372036854775807u64 {
                    Some(mag as i64)
                } else {
                    None
                }
            }
        },
    }
}

/// Parses a signed 32-bit integer literal, as the id and year fields are read.
pub fn parse_i32_chars(v: &Vec<char>) -> (r: Option<i32>)
    ensures
        ({
            let p = parse_int_spec(v@, true, i32::MIN as int, i32::MAX as int);
            match r {
                Some(x) => p == Some(x as int),
                None => p is None,
            }
        }),
{
    if v.len() == 0 {
        return None;
    }
    let c0 = v[0];
    let (neg, from): (bool, usize) = if c0 == '-' {
        (true, 1)
    } else if c0 == '+' {
        (false, 1)
    } else {
        (false, 0)
    };
    proof {
        assert(lit_digits(v@) =~= v@.skip(from as int));
    }
    match parse_digits(v, from) {
        None => None,
        Some(mag) => {
            if neg {
                if mag <= 2147483648u64 {
                    let x: i64 = -(mag as i64);
                    Some(x as i32)
                } else {
                    None
                }
            } else {
                if mag <= 2147483647u64 {
                    Some(mag as i32)
                } else {
                    None
                }
            }
        },
    }
}

/// Parses an unsigned 8-bit integer literal, as the day field is read; a
/// minus sign is not accepted.
pub fn parse_u8_chars(v: &Vec<char>) -> (r: Option<u8>)
    ensures
        ({
            let p = parse_int_spec(v@, false, 0, u8::MAX as int);
            match r {
                Some(x) => p == Some(x as int),
                None => p is None,
            }
        }),
{
    if v.len() == 0 {
        return None;
    }
    let c0 = v[0];
    if c0 == '-' {
        return None;
    }
    let from: usize = if c0 == '+' {
        1
    } else {
        0
    };
    proof {
        assert(lit_digits(v@) =~= v@.skip(from as int));
    }
    match parse_digits(v, from) {
        None => None,
        Some(mag) => {
            if mag <= 255u64 {
                Some(mag as u8)
            } else {
                None
            }
        },
    }
}

/// The canonical digit string of `n`.
pub fn fmt_u64(n: u64) -> (r: Vec<char>)
    ensures
        r@ == dec_digits(n as nat),
    decreases n,
{
    if n < 10 {
        let mut r: Vec<char> = Vec::new();
        r.push(char_of_digit(n as u8));
        assert(r@ =~= seq![digit_char(n as int)]);
        r
    } else {
        let mut r = fmt_u64(n / 10);
        r.push(char_of_digit((n % 10) as u8));
        assert(r@ =~= dec_digits((n / 10) as nat).push(digit_char((n % 10) as int)));
        r
    }
}

/// The canonical decimal rendering of `n`.
pub fn fmt_i64(n: i64) -> (r: Vec<char>)
    ensures
        r@ == int_to_dec(n as int),
{
    if n >= 0 {
        fmt_u64(n as u64)
    } else {
        let mag: u64 = if n == i64::MIN {
            9223372036854775808u64
        } else {
            (-n) as u64
        };
        assert(mag as int == -(n as int));
        let digits = fmt_u64(mag);
        let mut r: Vec<char> = Vec::new();
        r.push('-');
        let mut i: usize = 0;
        while i < digits.len()
            invariant
                i <= digits@.len(),
                digits@ == dec_digits(mag as nat),
                r@ == seq!['-'] + digits@.take(i as int),
            decreases digits@.len() - i,
        {
            r.push(digits[i]);
            assert(r@ =~= seq!['-'] + digits@.take(i + 1));
            i += 1;
        }
        assert(digits@.take(digits@.len() as int) =~= digits@);
        r
    }
}

/// The canonical decimal rendering of `n`.
pub fn fmt_i32(n: i32) -> (r: Vec<char>)
    ensures
        r@ == int_to_dec(n as int),
{
    fmt_i64(n as i64)
}

} // verus!
