//! Decimal formatting and parsing of integers, text comparisons, and the
//! text of integral floats.
use vstd::prelude::*;
use vstd::arithmetic::power2::{pow2, lemma_pow2_unfold};
use vstd::arithmetic::div_mod::lemma_div_denominator;

verus! {

/// The ASCII digit for a value below ten.
pub open spec fn digit_char(d: nat) -> char {
    if d == 0 { '0' }
    else if d == 1 { '1' }
    else if d == 2 { '2' }
    else if d == 3 { '3' }
    else if d == 4 { '4' }
    else if d == 5 { '5' }
    else if d == 6 { '6' }
    else if d == 7 { '7' }
    else if d == 8 { '8' }
    else { '9' }
}

/// Decimal notation of a natural number, without leading zeros.
pub open spec fn decimal(n: nat) -> Seq<char>
    decreases n,
{
    if n < 10 {
        seq![digit_char(n)]
    } else {
        decimal(n / 10).push(digit_char(n % 10))
    }
}

/// Decimal notation of an integer: a minus sign before negative values.
pub open spec fn signed_decimal(v: int) -> Seq<char> {
    if v < 0 {
        seq!['-'] + decimal((-v) as nat)
    } else {
        decimal(v as nat)
    }
}

fn digit_str(d: u128) -> (s: &'static str)
    requires
        d < 10,
    ensures
        s@ == seq![digit_char(d as nat)],
{
    proof {
        reveal_strlit("0");
        reveal_strlit("1");
        reveal_strlit("2");
        reveal_strlit("3");
        reveal_strlit("4");
        reveal_strlit("5");
        reveal_strlit("6");
        reveal_strlit("7");
        reveal_strlit("8");
        reveal_strlit("9");
    }
    if d == 0 { "0" }
    else if d == 1 { "1" }
    else if d == 2 { "2" }
    else if d == 3 { "3" }
    else if d == 4 { "4" }
    else if d == 5 { "5" }
    else if d == 6 { "6" }
    else if d == 7 { "7" }
    else if d == 8 { "8" }
    else { "9" }
}

/// Appends the decimal notation of `n` to `out`.
pub fn push_decimal(out: &mut String, n: u128)
    ensures
        final(out)@ == old(out)@ + decimal(n as nat),
    decreases n,
{
    if n >= 10 {
        push_decimal(out, n / 10);
    }
    out.append(digit_str(n % 10));
    proof {
        if n >= 10 {
            assert(decimal(n as nat) == decimal((n / 10) as nat).push(digit_char((n % 10) as nat)));
        }
    }
}

/// The decimal notation of `n` as a new string (what `n.to_string()` gives).
pub fn u64_to_decimal(n: u64) -> (s: String)
    ensures
        s@ == decimal(n as nat),
{
    let mut s = String::new();
    push_decimal(&mut s, n as u128);
    s
}


/// Appends the decimal notation of `v`, with a leading minus sign when negative.
pub fn push_signed_decimal(out: &mut String, v: i64)
    ensures
        final(out)@ == old(out)@ + signed_decimal(v as int),
{
    if v < 0 {
        proof { reveal_strlit("-"); }
        out.append("-");
        let magnitude: u64 = (0i128 - (v as i128)) as u64;
        push_decimal(out, magnitude as u128);
        assert(final(out)@ =~= old(out)@ + signed_decimal(v as int));
    } else {
        push_decimal(out, v as u128);
    }
}

/// Whether `c` is an ASCII decimal digit.
pub open spec fn is_digit(c: char) -> bool {
    '0' <= c && c <= '9'
}

/// The value of an ASCII digit.
pub open spec fn digit_value(c: char) -> nat {
    (c as int - '0' as int) as nat
}

/// The value of a nonempty string of ASCII digits, read in base ten.
pub open spec fn digits_value(s: Seq<char>) -> nat
    decreases s.len(),
{
    if s.len() == 0 {
        0
    } else {
        digits_value(s.drop_last()) * 10 + digit_value(s.last())
    }
}

/// Whether every character of `s` is an ASCII digit.
pub open spec fn all_digits(s: Seq<char>) -> bool {
    forall|i: int| 0 <= i < s.len() ==> #[trigger] is_digit(s[i])
}

/// What `str::parse::<i64>` accepts and yields: an optional `+` or `-` sign,
/// then one or more ASCII digits, whose signed value fits in an `i64`.
pub open spec fn parse_i64_spec(s: Seq<char>) -> Option<i64> {
    let negative = s.len() > 0 && s[0] == '-';
    let body = if s.len() > 0 && (s[0] == '-' || s[0] == '+') { s.drop_first() } else { s };
    if body.len() > 0 && all_digits(body) {
        let v: int = if negative { -(digits_value(body) as int) } else { digits_value(body) as int };
        if i64::MIN <= v && v <= i64::MAX {
            Some(v as i64)
        } else {
            None
        }
    } else {
        None
    }
}

/// Parses a signed decimal integer the way `str::parse::<i64>` does.
pub fn parse_i64(s: &str) -> (r: Option<i64>)
    ensures
        r == parse_i64_spec(s@),
{
    let len = s.unicode_len();
    if len == 0 {
        return None;
    }
    let first = s.get_char(0);
    let negative = first == '-';
    let start: usize = if first == '-' || first == '+' { 1 } else { 0 };
    if start == len {
        return None;
    }
    let ghost body = if first == '-' || first == '+' { s@.drop_first() } else { s@ };
    let limit: u128 = 9223372036854775808;
    let mut acc: u128 = 0;
    let mut over = false;
    let mut i = start;
    while i < len
        invariant
            len == s@.len(),
            start <= i <= len,
            len > 0,
            first == s@[0],
            negative == (first == '-'),
            start == (if first == '-' || first == '+' { 1usize } else { 0usize }),
            limit == 9223372036854775808,
            body == s@.subrange(start as int, len as int),
            all_digits(s@.subrange(start as int, i as int)),
            !over ==> acc == digits_value(s@.subrange(start as int, i as int)),
            !over ==> acc <= limit,
            over ==> digits_value(s@.subrange(start as int, i as int)) > limit,
        decreases len - i,
    {
        let c = s.get_char(i);
        if !('0' <= c && c <= '9') {
            assert(body[i - start] == c);
            assert(!is_digit(body[i - start]));
            assert(!all_digits(body));
            assert(first == s@[0]);
            return None;
        }
        let ghost prev = s@.subrange(start as int, i as int);
        let ghost next = s@.subrange(start as int, i + 1);
        assert(next.drop_last() =~= prev);
        assert(next.last() == c);
        let d = (c as u32 - '0' as u32) as u128;
        if !over {
            acc = acc * 10 + d;
            if acc > limit {
                over = true;
            }
        }
        i = i + 1;
    }
    assert(s@.subrange(start as int, len as int) =~= body);
    if over {
        return None;
    }
    if negative {
        Some((0i128 - acc as i128) as i64)
    } else if acc <= 9223372036854775807 {
        Some(acc as i64)
    } else {
        None
    }
}


/// The digit characters stand for their values.
pub proof fn lemma_digit_char(d: nat)
    requires
        d < 10,
    ensures
        is_digit(digit_char(d)),
        digit_value(digit_char(d)) == d,
{
}

/// Decimal notation is a nonempty string of digits whose value is the number.
pub proof fn lemma_decimal_digits(n: nat)
    ensures
        decimal(n).len() > 0,
        all_digits(decimal(n)),
        digits_value(decimal(n)) == n,
    decreases n,
{
    if n < 10 {
        lemma_digit_char(n);
        let s = decimal(n);
        assert(s.drop_last() =~= Seq::<char>::empty());
        assert(digits_value(s.drop_last()) == 0);
    } else {
        lemma_decimal_digits(n / 10);
        lemma_digit_char(n % 10);
        let s = decimal(n);
        assert(s.drop_last() =~= decimal(n / 10));
        assert forall|i: int| 0 <= i < s.len() implies #[trigger] is_digit(s[i]) by {
            if i < s.len() - 1 {
                assert(s[i] == decimal(n / 10)[i]);
            }
        }
    }
}

/// Parsing undoes decimal formatting: the text of an `i64` parses back to it.
pub proof fn lemma_parse_signed_decimal(v: i64)
    ensures
        parse_i64_spec(signed_decimal(v as int)) == Some(v),
{
    let s = signed_decimal(v as int);
    if v < 0 {
        let m = (-(v as int)) as nat;
        lemma_decimal_digits(m);
        assert(s.drop_first() =~= decimal(m));
        assert(s[0] == '-');
    } else {
        lemma_decimal_digits(v as nat);
        assert(is_digit(s[0]));
    }
}

/// Whether `s` ends with `suffix`.
pub open spec fn has_suffix(s: Seq<char>, suffix: Seq<char>) -> bool {
    s.len() >= suffix.len() && s.skip(s.len() - suffix.len()) == suffix
}

/// Whether two texts are equal, character by character.
pub fn str_eq(a: &str, b: &str) -> (r: bool)
    ensures
        r == (a@ == b@),
{
    let la = a.unicode_len();
    let lb = b.unicode_len();
    if la != lb {
        return false;
    }
    let mut i: usize = 0;
    while i < la
        invariant
            la == a@.len(),
            lb == b@.len(),
            la == lb,
            i <= la,
            forall|k: int| 0 <= k < i ==> a@[k] == b@[k],
        decreases la - i,
    {
        if a.get_char(i) != b.get_char(i) {
            return false;
        }
        i = i + 1;
    }
    assert(a@ =~= b@);
    true
}

/// Whether `s` ends with `suffix` (what `str::ends_with` answers).
pub fn ends_with(s: &str, suffix: &str) -> (r: bool)
    ensures
        r == has_suffix(s@, suffix@),
{
    let ls = s.unicode_len();
    let lt = suffix.unicode_len();
    if ls < lt {
        return false;
    }
    let off = ls - lt;
    let mut i: usize = 0;
    while i < lt
        invariant
            ls == s@.len(),
            lt == suffix@.len(),
            off == ls - lt,
            i <= lt,
            forall|k: int| 0 <= k < i ==> s@[off + k] == suffix@[k],
        decreases lt - i,
    {
        if s.get_char(off + i) != suffix.get_char(i) {
            assert(s@.skip(off as int)[i as int] != suffix@[i as int]);
            return false;
        }
        i = i + 1;
    }
    assert(s@.skip(off as int) =~= suffix@);
    true
}


/// How many low bits of `n` an `f64` cannot hold: the shift that brings `n`
/// below 2^53, the width of an `f64` significand.
pub open spec fn f64_shift(n: nat) -> nat
    decreases n,
{
    if n < 0x20_0000_0000_0000 {
        0
    } else {
        1 + f64_shift(n / 2)
    }
}

/// The `f64` nearest to `n`, ties to an even significand: the value of `n as f64`.
pub open spec fn f64_nearest(n: nat) -> nat {
    let s = f64_shift(n);
    if s == 0 {
        n
    } else {
        let p = pow2(s);
        let q = n / p;
        let r = n % p;
        let half = p / 2;
        let q2 = if r > half || (r == half && q % 2 == 1) { q + 1 } else { q };
        q2 * p
    }
}

/// The text of `format!("{:.4}", n as f64)`: the integral value of the float,
/// then four zero decimals.
pub open spec fn f64_fixed4_text(n: nat) -> Seq<char> {
    decimal(f64_nearest(n)) + ".0000"@
}

/// Below 2^53 every integer is an `f64`, and its text is the integer's own.
pub proof fn lemma_f64_text_exact(n: nat)
    requires
        n < 0x20_0000_0000_0000,
    ensures
        f64_nearest(n) == n,
        f64_fixed4_text(n) == decimal(n) + ".0000"@,
{
}

/// Appends the text of `n as f64` with four decimals.
pub fn push_f64_fixed4(out: &mut String, n: u64)
    ensures
        final(out)@ == old(out)@ + f64_fixed4_text(n as nat),
{
    let nn = n as u128;
    let mut p: u128 = 1;
    let mut s: u64 = 0;
    proof {
        assert(pow2(0) == 1) by {
            vstd::arithmetic::power2::lemma2_to64();
        }
        assert(nn / 1 == nn);
    }
    while nn / p >= 0x20_0000_0000_0000
        invariant
            nn == n as u128,
            p == pow2(s as nat),
            p >= 1,
            p <= 0x1_0000_0000_0000_0000,
            s <= 64,
            f64_shift(n as nat) == s + f64_shift((nn / p) as nat),
        decreases 64 - s,
    {
        proof {
            let q = (nn / p) as nat;
            assert(p <= nn) by (nonlinear_arith)
                requires
                    nn / p >= 1,
                    p >= 1,
            ;
            assert(p * 0x20_0000_0000_0000 <= nn) by (nonlinear_arith)
                requires
                    nn / p >= 0x20_0000_0000_0000,
                    p >= 1,
            ;
            lemma_div_denominator(nn as int, p as int, 2);
            lemma_pow2_unfold((s + 1) as nat);
            assert(q / 2 == (nn as int) / (p as int * 2));
            if s >= 64 {
                assert(pow2(64) == 0x1_0000_0000_0000_0000) by {
                    vstd::arithmetic::power2::lemma2_to64();
                }
                assert(false) by (nonlinear_arith)
                    requires
                        p == 0x1_0000_0000_0000_0000,
                        p <= nn,
                        nn < 0x1_0000_0000_0000_0000,
                ;
            }
        }
        p = p * 2;
        s = s + 1;
    }
    let q = nn / p;
    let r = nn % p;
    let value: u128 = if s == 0 {
        nn
    } else {
        let half = p / 2;
        let q2 = if r > half || (r == half && q % 2 == 1) { q + 1 } else { q };
        proof {
            assert(q * p <= nn) by (nonlinear_arith)
                requires
                    q == nn / p,
                    p >= 1,
            ;
            assert(q2 * p <= nn + p) by (nonlinear_arith)
                requires
                    q2 <= q + 1,
                    q * p <= nn,
                    p >= 1,
            ;
        }
        q2 * p
    };
    proof {
        if s == 0 {
            assert(p == 1) by {
                vstd::arithmetic::power2::lemma2_to64();
            }
        }
    }
    assert(value == f64_nearest(n as nat));
    push_decimal(out, value);
    proof { reveal_strlit(".0000"); }
    out.append(".0000");
    assert(final(out)@ =~= old(out)@ + f64_fixed4_text(n as nat));
}

} // verus!
