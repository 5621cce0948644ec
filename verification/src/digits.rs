//! Decimal ASCII helpers shared by the wire-protocol codec and the
//! configuration parser: digit classification, zero-padded rendering of
//! unsigned values, and parsing of unsigned decimal numerals.

use vstd::prelude::*;

verus! {

/// Numeric value of an ASCII digit character; 10 marks a non-digit.
pub open spec fn char_val(c: char) -> int {
    if c == '0' {
        0
    } else if c == '1' {
        1
    } else if c == '2' {
        2
    } else if c == '3' {
        3
    } else if c == '4' {
        4
    } else if c == '5' {
        5
    } else if c == '6' {
        6
    } else if c == '7' {
        7
    } else if c == '8' {
        8
    } else if c == '9' {
        9
    } else {
        10
    }
}

pub open spec fn is_digit(c: char) -> bool {
    char_val(c) < 10
}

pub open spec fn digit_char(d: int) -> char {
    if d == 0 {
        '0'
    } else if d == 1 {
        '1'
    } else if d == 2 {
        '2'
    } else if d == 3 {
        '3'
    } else if d == 4 {
        '4'
    } else if d == 5 {
        '5'
    } else if d == 6 {
        '6'
    } else if d == 7 {
        '7'
    } else if d == 8 {
        '8'
    } else {
        '9'
    }
}

pub open spec fn all_digits(s: Seq<char>) -> bool {
    forall|i: int| 0 <= i < s.len() ==> is_digit(#[trigger] s[i])
}

/// The number denoted by a digit string, most significant digit first.
pub open spec fn digits_val(s: Seq<char>) -> int
    decreases s.len(),
{
    if s.len() == 0 {
        0
    } else {
        digits_val(s.drop_last()) * 10 + char_val(s.last())
    }
}

pub open spec fn pow10(n: nat) -> int
    decreases n,
{
    if n == 0 {
        1
    } else {
        10 * pow10((n - 1) as nat)
    }
}

/// `n` rendered as exactly `width` decimal digits, zero padded; only the
/// lowest `width` digits of `n` are kept.
pub open spec fn dec_seq(n: int, width: nat) -> Seq<char>
    decreases width,
{
    if width == 0 {
        Seq::empty()
    } else {
        dec_seq(n / 10, (width - 1) as nat).push(digit_char(n % 10))
    }
}

pub proof fn lemma_dec_seq_len(n: int, width: nat)
    ensures
        dec_seq(n, width).len() == width,
    decreases width,
{
    if width > 0 {
        lemma_dec_seq_len(n / 10, (width - 1) as nat);
    }
}

pub proof fn lemma_dec_seq_digits(n: int, width: nat)
    requires
        n >= 0,
    ensures
        all_digits(dec_seq(n, width)),
    decreases width,
{
    if width > 0 {
        lemma_dec_seq_digits(n / 10, (width - 1) as nat);
        let s = dec_seq(n, width);
        let t = dec_seq(n / 10, (width - 1) as nat);
        assert forall|i: int| 0 <= i < s.len() implies is_digit(#[trigger] s[i]) by {
            if i < t.len() {
                assert(s[i] == t[i]);
            }
        }
    }
}

pub proof fn lemma_pow10_values()
    ensures
        pow10(2) == 100,
        pow10(3) == 1000,
        pow10(5) == 100000,
        pow10(6) == 1000000,
        pow10(9) == 1000000000,
{
    assert(pow10(0) == 1);
    assert(pow10(1) == 10);
    assert(pow10(2) == 100);
    assert(pow10(3) == 1000);
    assert(pow10(4) == 10000);
    assert(pow10(5) == 100000);
    assert(pow10(6) == 1000000);
    assert(pow10(7) == 10000000);
    assert(pow10(8) == 100000000);
    assert(pow10(9) == 1000000000);
}

pub proof fn lemma_pow10_pos(n: nat)
    ensures
        pow10(n) >= 1,
    decreases n,
{
    if n > 0 {
        lemma_pow10_pos((n - 1) as nat);
    }
}

/// Rendering then reading a number gives the number back, modulo the width.
pub proof fn lemma_digits_val_dec_seq(n: int, width: nat)
    requires
        n >= 0,
    ensures
        digits_val(dec_seq(n, width)) == n % pow10(width),
    decreases width,
{
    if width == 0 {
        assert(n % 1 == 0) by (nonlinear_arith)
            requires n >= 0;
    } else {
        let w1 = (width - 1) as nat;
        lemma_digits_val_dec_seq(n / 10, w1);
        let s = dec_seq(n, width);
        let t = dec_seq(n / 10, w1);
        assert(s.drop_last() =~= t);
        assert(char_val(digit_char(n % 10)) == n % 10) by {
            assert(0 <= n % 10 < 10) by (nonlinear_arith)
                requires n >= 0;
        }
        lemma_pow10_pos(w1);
        let p = pow10(w1);
        vstd::arithmetic::div_mod::lemma_breakdown(n, 10, p);
        assert(((n / 10) % p) * 10 == 10 * ((n / 10) % p)) by (nonlinear_arith);
    }
}

pub proof fn lemma_digits_val_nonneg(s: Seq<char>)
    requires
        all_digits(s),
    ensures
        digits_val(s) >= 0,
    decreases s.len(),
{
    if s.len() > 0 {
        assert(all_digits(s.drop_last()));
        lemma_digits_val_nonneg(s.drop_last());
    }
}

/// A digit string denotes at least as much as any of its prefixes.
pub proof fn lemma_digits_val_prefix_le(s: Seq<char>, k: int)
    requires
        all_digits(s),
        0 <= k <= s.len(),
    ensures
        digits_val(s.subrange(0, k)) <= digits_val(s),
    decreases s.len() - k,
{
    if k < s.len() {
        lemma_digits_val_prefix_le(s, k + 1);
        let a = s.subrange(0, k);
        let b = s.subrange(0, k + 1);
        assert(b.drop_last() =~= a);
        assert(all_digits(a));
        lemma_digits_val_nonneg(a);
        assert(digits_val(b) == digits_val(a) * 10 + char_val(b.last()));
        assert(digits_val(a) * 10 >= digits_val(a)) by (nonlinear_arith)
            requires digits_val(a) >= 0;
    } else {
        assert(s.subrange(0, k) =~= s);
    }
}

pub fn exec_is_digit(c: char) -> (r: bool)
    ensures
        r == is_digit(c),
{
    c >= '0' && c <= '9'
}

pub fn exec_char_val(c: char) -> (d: u64)
    requires
        is_digit(c),
    ensures
        d == char_val(c),
{
    if c == '0' {
        0
    } else if c == '1' {
        1
    } else if c == '2' {
        2
    } else if c == '3' {
        3
    } else if c == '4' {
        4
    } else if c == '5' {
        5
    } else if c == '6' {
        6
    } else if c == '7' {
        7
    } else if c == '8' {
        8
    } else {
        9
    }
}

pub fn exec_digit_char(d: u64) -> (c: char)
    requires
        d < 10,
    ensures
        c == digit_char(d as int),
{
    if d == 0 {
        '0'
    } else if d == 1 {
        '1'
    } else if d == 2 {
        '2'
    } else if d == 3 {
        '3'
    } else if d == 4 {
        '4'
    } else if d == 5 {
        '5'
    } else if d == 6 {
        '6'
    } else if d == 7 {
        '7'
    } else if d == 8 {
        '8'
    } else {
        '9'
    }
}

/// `n` as exactly `width` zero-padded decimal digit characters.
pub fn dec_chars(n: u64, width: usize) -> (v: Vec<char>)
    ensures
        v@ == dec_seq(n as int, width as nat),
    decreases width,
{
    if width == 0 {
        let v: Vec<char> = Vec::new();
        assert(v@ =~= dec_seq(n as int, 0));
        v
    } else {
        let mut v = dec_chars(n / 10, width - 1);
        v.push(exec_digit_char(n % 10));
        v
    }
}

/// An unsigned decimal numeral, optionally with a leading plus sign.
pub open spec fn uns_ok(t: Seq<char>) -> bool {
    if t.len() > 0 && t[0] == '+' {
        t.len() > 1 && all_digits(t.skip(1))
    } else {
        t.len() > 0 && all_digits(t)
    }
}

pub open spec fn uns_val(t: Seq<char>) -> int {
    if t.len() > 0 && t[0] == '+' {
        digits_val(t.skip(1))
    } else {
        digits_val(t)
    }
}

/// Parse the digit characters of `s@` between `from` and `to` as an
/// unsigned decimal number. `None` when the range is empty, holds a
/// non-digit, or denotes more than `u64::MAX`.
pub fn parse_u64_range(s: &str, from: usize, to: usize) -> (r: Option<u64>)
    requires
        from <= to <= s@.len(),
    ensures
        ({
            let t = s@.subrange(from as int, to as int);
            match r {
                Some(v) => all_digits(t) && t.len() > 0 && digits_val(t) == v,
                None => !(all_digits(t) && t.len() > 0 && digits_val(t) <= u64::MAX),
            }
        }),
{
    let ghost t = s@.subrange(from as int, to as int);
    if from == to {
        return None;
    }
    let mut acc: u64 = 0;
    let mut i: usize = from;
    while i < to
        invariant
            from <= i <= to <= s@.len(),
            t == s@.subrange(from as int, to as int),
            all_digits(t.subrange(0, i - from)),
            acc == digits_val(t.subrange(0, i - from)),
        decreases to - i,
    {
        let c = s.get_char(i);
        assert(c == t[i - from]);
        if !exec_is_digit(c) {
            assert(!all_digits(t));
            return None;
        }
        let d = exec_char_val(c);
        let ghost pre = t.subrange(0, i - from);
        let ghost pre1 = t.subrange(0, i + 1 - from);
        assert(pre1.drop_last() =~= pre);
        if acc > (u64::MAX - d) / 10 {
            // The prefix up to and including this digit already exceeds
            // u64::MAX, so the whole numeral does as well.
            proof {
                assert(acc * 10 + d > u64::MAX) by (nonlinear_arith)
                    requires
                        acc > (u64::MAX - d) / 10,
                        0 <= d < 10,
                        acc >= 0;
                assert(digits_val(pre1) == acc * 10 + d);
                if all_digits(t) {
                    lemma_digits_val_prefix_le(t, i + 1 - from);
                }
            }
            return None;
        }
        assert(acc * 10 + d <= u64::MAX) by (nonlinear_arith)
            requires
                acc <= (u64::MAX - d) / 10,
                0 <= d < 10,
                acc >= 0;
        acc = acc * 10 + d;
        i = i + 1;
    }
    assert(t.subrange(0, to - from) =~= t);
    Some(acc)
}

/// Parses an unsigned numeral, optionally led by a plus sign, out of
/// `s@[from..to]`; `None` when malformed or above `max`.
pub fn parse_uns(s: &str, from: usize, to: usize, max: u64) -> (r: Option<u64>)
    requires
        from <= to <= s@.len(),
    ensures
        ({
            let t = s@.subrange(from as int, to as int);
            match r {
                Some(v) => uns_ok(t) && uns_val(t) == v && v <= max,
                None => !(uns_ok(t) && uns_val(t) <= max),
            }
        }),
{
    let ghost t = s@.subrange(from as int, to as int);
    let digits = if from < to && s.get_char(from) == '+' {
        proof {
            assert(t.skip(1) =~= s@.subrange(from + 1, to as int));
        }
        parse_u64_range(s, from + 1, to)
    } else {
        parse_u64_range(s, from, to)
    };
    match digits {
        Some(v) => if v <= max {
            Some(v)
        } else {
            None
        },
        None => None,
    }
}

} // verus!
