//! Decimal digits and prefixes in text.
use vstd::prelude::*;
use vstd::string::StrSliceExecFns;

verus! {

pub open spec fn is_digit(c: char) -> bool {
    '0' <= c && c <= '9'
}

pub open spec fn digit_value(c: char) -> nat {
    (c as int - '0' as int) as nat
}

pub open spec fn all_digits(s: Seq<char>) -> bool {
    forall|i: int| 0 <= i < s.len() ==> is_digit(#[trigger] s[i])
}

/// The number that a string of decimal digits writes.
pub open spec fn digits_value(s: Seq<char>) -> nat
    decreases s.len(),
{
    if s.len() == 0 {
        0
    } else {
        digits_value(s.drop_last()) * 10 + digit_value(s.last())
    }
}

/// The unsigned integer that `s` writes: one or more decimal digits whose
/// value fits in 64 bits.
pub open spec fn decimal_spec(s: Seq<char>) -> Option<u64> {
    if s.len() > 0 && all_digits(s) && digits_value(s) <= u64::MAX {
        Some(digits_value(s) as u64)
    } else {
        None
    }
}

/// The unsigned integer that `s` writes with an optional leading `+`.
pub open spec fn unsigned_spec(s: Seq<char>) -> Option<u64> {
    if s.len() > 0 && s[0] == '+' {
        decimal_spec(s.subrange(1, s.len() as int))
    } else {
        decimal_spec(s)
    }
}

/// The length of the run of digits that `s` starts with.
pub open spec fn digit_run(s: Seq<char>) -> nat
    decreases s.len(),
{
    if s.len() > 0 && is_digit(s[0]) {
        1 + digit_run(s.subrange(1, s.len() as int))
    } else {
        0
    }
}

/// Whether `s` begins with `prefix`.
pub open spec fn starts_with(s: Seq<char>, prefix: Seq<char>) -> bool {
    prefix.len() <= s.len() && s.subrange(0, prefix.len() as int) == prefix
}

/// A longer string of digits writes a number at least as large.
pub proof fn lemma_digits_value_prefix(s: Seq<char>, j: int, k: int)
    requires
        0 <= j <= k <= s.len(),
        all_digits(s.subrange(0, k)),
    ensures
        digits_value(s.subrange(0, j)) <= digits_value(s.subrange(0, k)),
    decreases k - j,
{
    if j < k {
        lemma_digits_value_prefix(s, j, k - 1);
        assert(s.subrange(0, k).drop_last() =~= s.subrange(0, k - 1));
    }
}

/// 10 to the power `n`.
pub open spec fn pow10(n: nat) -> nat
    decreases n,
{
    if n == 0 {
        1
    } else {
        10 * pow10((n - 1) as nat)
    }
}

/// The whole part of the number whose decimal digits are `d`, with the point
/// after the first `p` of them (before them where `p` is not positive).
pub open spec fn shifted_floor(d: Seq<char>, p: int) -> nat {
    if p <= 0 {
        0
    } else if p <= d.len() {
        digits_value(d.subrange(0, p))
    } else {
        digits_value(d) * pow10((p - d.len()) as nat)
    }
}

pub proof fn lemma_pow10_add(a: nat, b: nat)
    ensures
        pow10(a + b) == pow10(a) * pow10(b),
    decreases a,
{
    if a == 0 {
        assert(pow10(0) == 1);
    } else {
        lemma_pow10_add((a - 1) as nat, b);
        assert(((a - 1) as nat + b) as nat == (a + b - 1) as nat);
        assert(pow10(a + b) == 10 * pow10((a + b - 1) as nat));
        assert(pow10(a) == 10 * pow10((a - 1) as nat));
        assert(10 * (pow10((a - 1) as nat) * pow10(b)) == (10 * pow10((a - 1) as nat)) * pow10(b))
            by (nonlinear_arith);
    }
}

pub proof fn lemma_pow10_positive(n: nat)
    ensures
        pow10(n) >= 1,
        n >= 1 ==> pow10(n) >= 10,
    decreases n,
{
    if n > 0 {
        lemma_pow10_positive((n - 1) as nat);
    }
}

/// Ten to the twentieth power and beyond exceeds every 64-bit value.
pub proof fn lemma_pow10_large(n: nat)
    requires
        n >= 20,
    ensures
        pow10(n) > u64::MAX,
{
    reveal_with_fuel(pow10, 21);
    assert(pow10(20) == 100000000000000000000nat);
    lemma_pow10_add(20, (n - 20) as nat);
    lemma_pow10_positive((n - 20) as nat);
    assert(pow10(20) * pow10((n - 20) as nat) >= pow10(20)) by (nonlinear_arith)
        requires
            pow10((n - 20) as nat) >= 1,
    ;
}

/// Reads the unsigned decimal number written in `s[from..to]`.
pub fn parse_decimal(s: &str, from: usize, to: usize) -> (r: Option<u64>)
    requires
        from <= to <= s@.len(),
    ensures
        r == decimal_spec(s@.subrange(from as int, to as int)),
{
    let ghost t = s@.subrange(from as int, to as int);
    if from == to {
        return None;
    }
    let mut acc: u64 = 0;
    let mut i: usize = from;
    while i < to
        invariant
            from <= i <= to <= s@.len(),
            t == s@.subrange(from as int, to as int),
            all_digits(s@.subrange(from as int, i as int)),
            acc == digits_value(s@.subrange(from as int, i as int)),
        decreases to - i,
    {
        let c = s.get_char(i);
        assert(s@.subrange(from as int, i + 1).drop_last() =~= s@.subrange(from as int, i as int));
        if c < '0' || c > '9' {
            assert(t[i - from] == c);
            return None;
        }
        let d: u64 = (c as u32 - '0' as u32) as u64;
        if acc > (u64::MAX - d) / 10 {
            proof {
                assert(all_digits(t.subrange(0, (i + 1 - from) as int)));
                assert(t.subrange(0, (i + 1 - from) as int) =~= s@.subrange(from as int, i + 1));
                assert(digits_value(s@.subrange(from as int, i + 1)) > u64::MAX) by (nonlinear_arith)
                    requires
                        digits_value(s@.subrange(from as int, i + 1)) == acc * 10 + d,
                        acc > (u64::MAX - d) / 10,
                        d <= 9,
                ;
                assert(decimal_spec(t) is None) by {
                    if all_digits(t) {
                        lemma_digits_value_prefix(t, (i + 1 - from) as int, t.len() as int);
                        assert(t.subrange(0, t.len() as int) =~= t);
                    }
                }
            }
            return None;
        }
        assert(acc * 10 + d <= u64::MAX) by (nonlinear_arith)
            requires
                acc <= (u64::MAX - d) / 10,
                d <= 9,
        ;
        acc = acc * 10 + d;
        i = i + 1;
    }
    assert(s@.subrange(from as int, i as int) =~= t);
    Some(acc)
}

/// Reads the unsigned number, with an optional leading `+`, written in
/// `s[from..to]`.
pub fn parse_unsigned(s: &str, from: usize, to: usize) -> (r: Option<u64>)
    requires
        from <= to <= s@.len(),
    ensures
        r == unsigned_spec(s@.subrange(from as int, to as int)),
{
    let ghost t = s@.subrange(from as int, to as int);
    if from < to && s.get_char(from) == '+' {
        assert(t.subrange(1, t.len() as int) =~= s@.subrange(from + 1, to as int));
        parse_decimal(s, from + 1, to)
    } else {
        parse_decimal(s, from, to)
    }
}

/// Whether `s` begins with `prefix`.
pub fn has_prefix(s: &str, prefix: &str) -> (r: bool)
    ensures
        r == starts_with(s@, prefix@),
{
    let n = prefix.unicode_len();
    if n > s.unicode_len() {
        return false;
    }
    let mut i: usize = 0;
    while i < n
        invariant
            n == prefix@.len() <= s@.len(),
            i <= n,
            forall|j: int| 0 <= j < i ==> s@[j] == prefix@[j],
        decreases n - i,
    {
        if s.get_char(i) != prefix.get_char(i) {
            assert(s@.subrange(0, n as int)[i as int] != prefix@[i as int]);
            return false;
        }
        i = i + 1;
    }
    assert(s@.subrange(0, n as int) =~= prefix@);
    true
}

/// The end of the run of digits in `s` that starts at `from`.
pub fn digit_run_end(s: &str, from: usize) -> (r: usize)
    requires
        from <= s@.len(),
    ensures
        r == from + digit_run(s@.subrange(from as int, s@.len() as int)),
        r <= s@.len(),
{
    let n = s.unicode_len();
    let mut i: usize = from;
    while i < n
        invariant
            n == s@.len(),
            from <= i <= n,
            digit_run(s@.subrange(from as int, n as int)) == (i - from) + digit_run(
                s@.subrange(i as int, n as int),
            ),
        decreases n - i,
    {
        let c = s.get_char(i);
        if c < '0' || c > '9' {
            return i;
        }
        assert(s@.subrange(i as int, n as int).subrange(1, n - i) =~= s@.subrange(i + 1, n as int));
        i = i + 1;
    }
    i
}

/// A run of digits covers the whole string exactly when all of it is digits.
pub proof fn lemma_digit_run(s: Seq<char>)
    ensures
        digit_run(s) <= s.len(),
        digit_run(s) == s.len() <==> all_digits(s),
        forall|j: int| 0 <= j < digit_run(s) ==> is_digit(#[trigger] s[j]),
        digit_run(s) < s.len() ==> !is_digit(s[digit_run(s) as int]),
    decreases s.len(),
{
    if s.len() > 0 && is_digit(s[0]) {
        let rest = s.subrange(1, s.len() as int);
        lemma_digit_run(rest);
        assert forall|j: int| 0 <= j < digit_run(s) implies is_digit(#[trigger] s[j]) by {
            if j > 0 {
                assert(s[j] == rest[j - 1]);
            }
        }
        if all_digits(s) {
            assert forall|j: int| 0 <= j < rest.len() implies is_digit(#[trigger] rest[j]) by {
                assert(rest[j] == s[j + 1]);
            }
        }
        if all_digits(rest) {
            assert forall|j: int| 0 <= j < s.len() implies is_digit(#[trigger] s[j]) by {
                if j > 0 {
                    assert(s[j] == rest[j - 1]);
                }
            }
        }
    }
}

} // verus!
