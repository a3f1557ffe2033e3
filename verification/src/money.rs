//! Exact monetary values.
//!
//! A `Money` is a fixed-point decimal: an `i128` holding the amount scaled
//! by `10^10`.  All arithmetic on it is exact; an addition that cannot be
//! represented is reported, never rounded.

use vstd::prelude::*;
use crate::error::ReportError;
use crate::text::{chars_of, digit_val, digit_val_c, is_digit, is_digit_c, string_from_chars, trim_chars, trim_spec, trim_str};

verus! {

/// Ten to the `n`-th power.
pub open spec fn pow10(n: nat) -> int
    decreases n,
{
    if n == 0 {
        1
    } else {
        10 * pow10((n - 1) as nat)
    }
}

/// The values of the small powers of ten that the arithmetic here uses.
pub proof fn lemma_pow10_values()
    ensures
        pow10(0) == 1,
        pow10(1) == 10,
        pow10(2) == 100,
        pow10(3) == 1000,
        pow10(4) == 10000,
        pow10(5) == 100000,
        pow10(6) == 1000000,
        pow10(7) == 10000000,
        pow10(8) == 100000000,
        pow10(9) == 1000000000,
        pow10(10) == 10000000000,
        pow10(27) == 0x33b2e3c9fd0803ce8000000,
        pow10(28) == 0x204fce5e3e25026110000000,
        pow10(38) == 0x4b3b4ca85a86c47a098a224000000000,
{
    assert(pow10(0) == 1);
    assert(pow10(1) == 10);
    assert(pow10(2) == 100);
    assert(pow10(3) == 1000);
    assert(pow10(4) == 10000);
    assert(pow10(5) == 100000);
    assert(pow10(6) == 1000000);
    assert(pow10(7) == 10000000);
    assert(pow10(8) == 100000000);
    assert(pow10(9) == 1000000000);
    assert(pow10(10) == 10000000000);
    assert(pow10(11) == 100000000000);
    assert(pow10(12) == 1000000000000);
    assert(pow10(13) == 10000000000000);
    assert(pow10(14) == 100000000000000);
    assert(pow10(15) == 1000000000000000);
    assert(pow10(16) == 10000000000000000);
    assert(pow10(17) == 100000000000000000);
    assert(pow10(18) == 1000000000000000000);
    assert(pow10(19) == 10000000000000000000);
    assert(pow10(20) == 100000000000000000000);
    assert(pow10(21) == 1000000000000000000000);
    assert(pow10(22) == 10000000000000000000000);
    assert(pow10(23) == 100000000000000000000000);
    assert(pow10(24) == 1000000000000000000000000);
    assert(pow10(25) == 10000000000000000000000000);
    assert(pow10(26) == 100000000000000000000000000);
    assert(pow10(27) == 1000000000000000000000000000);
    assert(pow10(28) == 10000000000000000000000000000);
    assert(pow10(29) == 100000000000000000000000000000);
    assert(pow10(30) == 1000000000000000000000000000000);
    assert(pow10(31) == 10000000000000000000000000000000);
    assert(pow10(32) == 100000000000000000000000000000000);
    assert(pow10(33) == 1000000000000000000000000000000000);
    assert(pow10(34) == 10000000000000000000000000000000000);
    assert(pow10(35) == 100000000000000000000000000000000000);
    assert(pow10(36) == 1000000000000000000000000000000000000);
    assert(pow10(37) == 10000000000000000000000000000000000000);
    assert(pow10(38) == 100000000000000000000000000000000000000);
}

/// Powers of ten are positive.
pub proof fn lemma_pow10_pos(n: nat)
    ensures
        pow10(n) >= 1,
    decreases n,
{
    if n > 0 {
        lemma_pow10_pos((n - 1) as nat);
    }
}

/// Powers of ten do not shrink as the exponent grows.
pub proof fn lemma_pow10_le(a: nat, b: nat)
    requires
        a <= b,
    ensures
        pow10(a) <= pow10(b),
        pow10(a) >= 1,
    decreases b,
{
    lemma_pow10_pos(a);
    if a < b {
        lemma_pow10_le(a, (b - 1) as nat);
        lemma_pow10_pos((b - 1) as nat);
    }
}

/// Computes a small power of ten.
pub fn pow10_exec(n: u32) -> (r: i128)
    requires
        n <= 37,
    ensures
        r == pow10(n as nat),
{
    proof {
        lemma_pow10_values();
    }
    let mut r: i128 = 1;
    let mut i: u32 = 0;
    while i < n
        invariant
            i <= n <= 37,
            r == pow10(i as nat),
        decreases n - i,
    {
        proof {
            lemma_pow10_le((i + 1) as nat, 37);
            lemma_pow10_values();
        }
        r = r * 10;
        i += 1;
    }
    r
}

/// An exact monetary value: the amount multiplied by `10^10`.
///
/// Two `Money` values are equal exactly when they denote the same amount;
/// trailing zeros of the source text do not matter.
#[derive(Debug, Clone, Copy, PartialEq, Eq, Structural)]
pub struct Money {
    /// The amount scaled by `10^10`.
    pub scaled: i128,
}

impl Money {
    /// The zero amount.
    pub fn zero() -> (r: Money)
        ensures
            r.scaled == 0,
    {
        Money { scaled: 0 }
    }

    /// The amount `units / 10^scale`, for example `new(123, 2)` for `1.23`.
    pub fn new(units: i64, scale: u32) -> (r: Money)
        requires
            scale <= 10,
        ensures
            r.scaled == units * pow10((10 - scale) as nat),
    {
        let f = pow10_exec(10 - scale);
        proof {
            lemma_pow10_values();
            lemma_pow10_le((10 - scale) as nat, 10);
            assert(units * f <= i64::MAX * pow10(10)) by (nonlinear_arith)
                requires
                    f <= pow10(10),
                    f >= 1,
                    units <= i64::MAX,
            ;
            assert(units * f >= i64::MIN * pow10(10)) by (nonlinear_arith)
                requires
                    f <= pow10(10),
                    f >= 1,
                    units >= i64::MIN,
            ;
        }
        Money { scaled: (units as i128) * f }
    }

    /// Exact sum, or `None` when the sum does not fit the representation.
    pub fn checked_add(self, other: Money) -> (r: Option<Money>)
        ensures
            match r {
                Some(m) => m.scaled == self.scaled + other.scaled,
                None => !(i128::MIN <= self.scaled + other.scaled <= i128::MAX),
            },
    {
        match self.scaled.checked_add(other.scaled) {
            Some(v) => Some(Money { scaled: v }),
            None => None,
        }
    }

    /// True for the zero amount.
    pub fn is_zero(&self) -> (r: bool)
        ensures
            r == (self.scaled == 0),
    {
        self.scaled == 0
    }
}

/// Plain mathematical sum of a sequence of integers.
pub open spec fn sum_ints(s: Seq<int>) -> int
    decreases s.len(),
{
    if s.len() == 0 {
        0
    } else {
        sum_ints(s.drop_last()) + s.last()
    }
}

/// Checked left-to-right sum: `None` as soon as a partial sum leaves the
/// representation.
pub open spec fn sum_money(s: Seq<int>) -> Option<int>
    decreases s.len(),
{
    if s.len() == 0 {
        Some(0)
    } else {
        match sum_money(s.drop_last()) {
            None => None,
            Some(a) => if i128::MIN <= a + s.last() <= i128::MAX {
                Some(a + s.last())
            } else {
                None
            },
        }
    }
}

/// When the checked sum succeeds it is the plain mathematical sum, which
/// does not depend on the order of addition.
pub proof fn lemma_sum_money_exact(s: Seq<int>)
    requires
        sum_money(s) is Some,
    ensures
        sum_money(s).unwrap() == sum_ints(s),
    decreases s.len(),
{
    if s.len() > 0 {
        lemma_sum_money_exact(s.drop_last());
    }
}

/// The characters that number normalization strips: plain space,
/// non-breaking space, narrow no-break space and the plus sign.
pub open spec fn is_money_noise(c: char) -> bool {
    c == ' ' || c == '\u{a0}' || c == '\u{202f}' || c == '+'
}

/// The text with all noise characters removed.
pub open spec fn strip_money_noise(s: Seq<char>) -> Seq<char>
    decreases s.len(),
{
    if s.len() == 0 {
        Seq::empty()
    } else if is_money_noise(s.last()) {
        strip_money_noise(s.drop_last())
    } else {
        strip_money_noise(s.drop_last()).push(s.last())
    }
}

/// A numeric cell after normalization: noise characters removed, then the
/// remainder trimmed of surrounding whitespace.
pub open spec fn normalize_number_spec(s: Seq<char>) -> Seq<char> {
    trim_spec(strip_money_noise(s))
}

/// Strips spaces, non-breaking spaces, narrow no-break spaces and plus
/// signs, and trims the remainder.
pub fn normalize_number(input: &str) -> (r: String)
    ensures
        r@ == normalize_number_spec(input@),
{
    let v = chars_of(input);
    let mut kept: Vec<char> = Vec::new();
    let mut i: usize = 0;
    while i < v.len()
        invariant
            i <= v@.len(),
            kept@ == strip_money_noise(v@.take(i as int)),
        decreases v@.len() - i,
    {
        let c = v[i];
        proof {
            assert(v@.take(i + 1 as int).drop_last() =~= v@.take(i as int));
            assert(v@.take(i + 1 as int).last() == v@[i as int]);
        }
        if !(c == ' ' || c == '\u{a0}' || c == '\u{202f}' || c == '+') {
            kept.push(c);
        }
        i += 1;
    }
    proof {
        assert(v@.take(v@.len() as int) =~= v@);
    }
    let t = trim_chars(&kept);
    string_from_chars(&t)
}

/// Every character of `s` is an ASCII digit.
pub open spec fn all_digits(s: Seq<char>) -> bool {
    forall|i: int| 0 <= i < s.len() ==> is_digit_c(s[i])
}

/// The number written by a run of ASCII digits.
pub open spec fn digits_val(s: Seq<char>) -> int
    decreases s.len(),
{
    if s.len() == 0 {
        0
    } else {
        digits_val(s.drop_last()) * 10 + digit_val_c(s.last())
    }
}

/// A digit run's value is below ten to its length.
pub proof fn lemma_digits_val_bound(s: Seq<char>)
    ensures
        0 <= digits_val(s) < pow10(s.len()),
    decreases s.len(),
{
    if s.len() > 0 {
        lemma_digits_val_bound(s.drop_last());
        assert(digits_val(s.drop_last()) * 10 <= (pow10((s.len() - 1) as nat) - 1) * 10)
            by (nonlinear_arith)
            requires
                digits_val(s.drop_last()) <= pow10((s.len() - 1) as nat) - 1,
        ;
    }
}

/// Leading zeros do not change a digit run's value.
pub proof fn lemma_digits_leading_zeros(s: Seq<char>, k: int)
    requires
        0 <= k <= s.len(),
        forall|i: int| 0 <= i < k ==> s[i] == '0',
    ensures
        digits_val(s) == digits_val(s.subrange(k, s.len() as int)),
    decreases s.len(),
{
    if k == 0 {
        assert(s.subrange(0, s.len() as int) =~= s);
    } else if s.len() == k {
        lemma_digits_leading_zeros(s.drop_last(), k - 1);
        assert(s.last() == '0');
        assert(s.drop_last().subrange(k - 1, s.drop_last().len() as int) =~= Seq::<char>::empty());
        assert(s.subrange(k, s.len() as int) =~= Seq::<char>::empty());
    } else {
        lemma_digits_leading_zeros(s.drop_last(), k);
        assert(s.drop_last().subrange(k, s.drop_last().len() as int) =~= s.subrange(
            k,
            s.len() as int,
        ).drop_last());
        assert(s.subrange(k, s.len() as int).last() == s.last());
    }
}

/// First position of `c` in `s`, or the length of `s` when `c` is absent.
pub open spec fn find_char_spec(s: Seq<char>, c: char) -> int
    decreases s.len(),
{
    if s.len() == 0 {
        0
    } else if s[0] == c {
        0
    } else {
        1 + find_char_spec(s.subrange(1, s.len() as int), c)
    }
}

proof fn lemma_find_char_characterize(s: Seq<char>, c: char, k: int)
    requires
        0 <= k <= s.len(),
        forall|i: int| 0 <= i < k ==> s[i] != c,
        k == s.len() || s[k] == c,
    ensures
        find_char_spec(s, c) == k,
    decreases s.len(),
{
    if s.len() == 0 {
    } else if s[0] == c {
    } else {
        let t = s.subrange(1, s.len() as int);
        assert(forall|i: int| 0 <= i < k - 1 ==> t[i] == s[i + 1]);
        lemma_find_char_characterize(t, c, k - 1);
    }
}

/// Number of leading `'0'` characters of `s`.
pub open spec fn lead_zeros_spec(s: Seq<char>) -> int
    decreases s.len(),
{
    if s.len() == 0 {
        0
    } else if s[0] != '0' {
        0
    } else {
        1 + lead_zeros_spec(s.subrange(1, s.len() as int))
    }
}

proof fn lemma_lead_zeros_characterize(s: Seq<char>, k: int)
    requires
        0 <= k <= s.len(),
        forall|i: int| 0 <= i < k ==> s[i] == '0',
        k == s.len() || s[k] != '0',
    ensures
        lead_zeros_spec(s) == k,
    decreases s.len(),
{
    if s.len() == 0 {
    } else if s[0] != '0' {
    } else {
        let t = s.subrange(1, s.len() as int);
        assert(forall|i: int| 0 <= i < k - 1 ==> t[i] == s[i + 1]);
        lemma_lead_zeros_characterize(t, k - 1);
    }
}

/// The exact scaled value of a normalized decimal literal: an optional
/// minus sign, at least one integer digit, and at most one point followed
/// by at least one fraction digit.  `None` when the text is not such a
/// literal, or when it needs more precision than the representation
/// carries: more than 27 significant integer digits or more than 10
/// fraction digits.
pub open spec fn decimal_of(s: Seq<char>) -> Option<int> {
    let neg = s.len() > 0 && s[0] == '-';
    let b = if neg {
        s.subrange(1, s.len() as int)
    } else {
        s
    };
    let k = find_char_spec(b, '.');
    let ip = b.subrange(0, k);
    let fp = if k < b.len() {
        b.subrange(k + 1, b.len() as int)
    } else {
        Seq::empty()
    };
    if ip.len() >= 1 && all_digits(ip) && (k == b.len() || (fp.len() >= 1 && all_digits(fp)))
        && ip.len() - lead_zeros_spec(ip) <= 27 && fp.len() <= 10 {
        let v = digits_val(ip) * pow10(10) + digits_val(fp) * pow10((10 - fp.len()) as nat);
        if neg {
            Some(-v)
        } else {
            Some(v)
        }
    } else {
        None
    }
}

/// A digit run that starts with a nonzero digit is at least ten to one
/// less than its length.
pub proof fn lemma_digits_val_lower(s: Seq<char>)
    requires
        all_digits(s),
        s.len() >= 1,
        s[0] != '0',
    ensures
        digits_val(s) >= pow10((s.len() - 1) as nat),
    decreases s.len(),
{
    if s.len() == 1 {
        assert(digit_val_c(s[0]) >= 1);
    } else {
        lemma_digits_val_lower(s.drop_last());
        assert(s.drop_last()[0] == s[0]);
        assert(digits_val(s) >= digits_val(s.drop_last()) * 10) by (nonlinear_arith)
            requires
                digits_val(s) == digits_val(s.drop_last()) * 10 + digit_val_c(s.last()),
                digit_val_c(s.last()) >= 0,
        ;
        assert(digits_val(s.drop_last()) * 10 >= pow10((s.len() - 2) as nat) * 10)
            by (nonlinear_arith)
            requires
                digits_val(s.drop_last()) >= pow10((s.len() - 2) as nat),
        ;
    }
}

/// Reads the value of the ASCII digit run `t[from..to]`.
pub(crate) fn digits_value_exec(t: &Vec<char>, from: usize, to: usize) -> (r: i128)
    requires
        from <= to <= t@.len(),
        to - from <= 27,
        forall|i: int| from <= i < to ==> is_digit_c(t@[i]),
    ensures
        r == digits_val(t@.subrange(from as int, to as int)),
        0 <= r < pow10((to - from) as nat),
{
    proof {
        lemma_pow10_values();
    }
    let mut acc: i128 = 0;
    let mut m: usize = from;
    while m < to
        invariant
            from <= m <= to <= t@.len(),
            to - from <= 27,
            forall|i: int| from <= i < to ==> is_digit_c(t@[i]),
            acc == digits_val(t@.subrange(from as int, m as int)),
            0 <= acc < pow10((m - from) as nat),
        decreases to - m,
    {
        let d = digit_val(t[m]);
        proof {
            lemma_pow10_le((m + 1 - from) as nat, 27);
            lemma_pow10_values();
            assert(acc * 10 + 9 < pow10((m + 1 - from) as nat)) by (nonlinear_arith)
                requires
                    acc < pow10((m - from) as nat),
                    acc >= 0,
                    pow10((m + 1 - from) as nat) == 10 * pow10((m - from) as nat),
            ;
            assert(t@.subrange(from as int, m + 1 as int).drop_last() =~= t@.subrange(
                from as int,
                m as int,
            ));
            assert(t@.subrange(from as int, m + 1 as int).last() == t@[m as int]);
        }
        acc = acc * 10 + (d as i128);
        m += 1;
    }
    acc
}

/// Parses a normalized decimal literal into its exact scaled value.
#[verifier::rlimit(60)]
#[verifier::loop_isolation(false)]
fn parse_decimal(t: &Vec<char>) -> (r: Option<i128>)
    ensures
        match decimal_of(t@) {
            Some(v) => r matches Some(x) && x == v,
            None => r is None,
        },
{
    let n = t.len();
    let neg = n > 0 && t[0] == '-';
    let start: usize = if neg {
        1
    } else {
        0
    };
    let ghost b = if neg {
        t@.subrange(1, n as int)
    } else {
        t@
    };
    proof {
        assert(b =~= t@.subrange(start as int, n as int));
    }
    // Find the decimal point, or the end.
    let mut j: usize = start;
    while j < n && t[j] != '.'
        invariant
            start <= j <= n,
            n == t@.len(),
            forall|i: int| start <= i < j ==> t@[i] != '.',
        decreases n - j,
    {
        j += 1;
    }
    proof {
        assert(forall|i: int| 0 <= i < j - start ==> b[i] != '.');
        if j < n {
            assert(b[j - start] == '.');
        }
        lemma_find_char_characterize(b, '.', j - start);
    }
    let ghost k = (j - start) as int;
    let ghost ip = b.subrange(0, k);
    let ghost fp = if k < b.len() {
        b.subrange(k + 1, b.len() as int)
    } else {
        Seq::<char>::empty()
    };
    proof {
        assert(ip =~= t@.subrange(start as int, j as int));
        if k < b.len() {
            assert(fp =~= t@.subrange(j + 1 as int, n as int));
        }
    }
    if j == start {
        // No integer digits.
        proof {
            assert(find_char_spec(b, '.') == j - start);
            assert(ip.len() == 0);
            assert(decimal_of(t@) is None);
        }
        return None;
    }
    // Every integer-part character must be a digit.
    let mut m: usize = start;
    while m < j
        invariant
            start <= m <= j <= n,
            n == t@.len(),
            ip == t@.subrange(start as int, j as int),
            forall|i: int| start <= i < m ==> is_digit_c(t@[i]),
        decreases j - m,
    {
        if !is_digit(t[m]) {
            proof {
                assert(ip[m - start] == t@[m as int]);
                assert(!all_digits(ip));
            }
            return None;
        }
        m += 1;
    }
    proof {
        assert(forall|i: int| 0 <= i < ip.len() ==> is_digit_c(ip[i]));
    }
    // Count leading zeros of the integer part.
    let mut z: usize = start;
    while z < j && t[z] == '0'
        invariant
            start <= z <= j,
            j <= n == t@.len(),
            forall|i: int| start <= i < z ==> t@[i] == '0',
        decreases j - z,
    {
        z += 1;
    }
    proof {
        assert(forall|i: int| 0 <= i < z - start ==> ip[i] == '0');
        if z < j {
            assert(ip[z - start] == t@[z as int]);
        }
        lemma_lead_zeros_characterize(ip, z - start);
    }
    if j - z > 27 {
        return None;
    }
    // The fraction part, if a point is present: one to ten digits.
    let mut flen: usize = 0;
    if j < n {
        if n - j - 1 < 1 || n - j - 1 > 10 {
            return None;
        }
        flen = n - j - 1;
        let mut m2: usize = j + 1;
        while m2 < n
            invariant
                j + 1 <= m2 <= n == t@.len(),
                fp == t@.subrange(j + 1 as int, n as int),
                forall|i: int| j + 1 <= i < m2 ==> is_digit_c(t@[i]),
            decreases n - m2,
        {
            if !is_digit(t[m2]) {
                proof {
                    assert(fp[m2 - j - 1] == t@[m2 as int]);
                    assert(!all_digits(fp));
                }
                return None;
            }
            m2 += 1;
        }
        proof {
            assert(forall|i: int| 0 <= i < fp.len() ==> is_digit_c(fp[i]));
        }
    }
    proof {
        assert(fp.len() == flen);
    }
    // Exact scaled value.
    proof {
        lemma_digits_leading_zeros(ip, (z - start) as int);
        assert(ip.subrange((z - start) as int, ip.len() as int) =~= t@.subrange(
            z as int,
            j as int,
        ));
    }
    let ipval = digits_value_exec(t, z, j);
    proof {
        lemma_pow10_values();
        lemma_pow10_le((j - z) as nat, 27);
        assert(ipval * pow10(10) <= (pow10(27) - 1) * pow10(10)) by (nonlinear_arith)
            requires
                0 <= ipval <= pow10(27) - 1,
                pow10(10) >= 1,
        ;
        assert((pow10(27) - 1) * pow10(10) == pow10(27) * pow10(10) - pow10(10))
            by (nonlinear_arith);
        lemma_pow10_mul(27, 10);
        assert(ipval * pow10(10) >= 0) by (nonlinear_arith)
            requires
                ipval >= 0,
                pow10(10) >= 1,
        ;
    }
    let scale10 = pow10_exec(10);
    let vi: i128 = ipval * scale10;
    let fpval: i128 = if flen > 0 {
        digits_value_exec(t, j + 1, n)
    } else {
        0
    };
    proof {
        assert(fpval == digits_val(fp));
        lemma_pow10_le((10 - flen) as nat, 10);
        lemma_pow10_le(flen as nat, 10);
        lemma_pow10_values();
        lemma_pow10_mul(flen as nat, (10 - flen) as nat);
        assert(fpval * pow10((10 - flen) as nat) < pow10(10)) by (nonlinear_arith)
            requires
                0 <= fpval < pow10(flen as nat),
                pow10((10 - flen) as nat) >= 1,
                pow10(flen as nat) * pow10((10 - flen) as nat) == pow10(10),
        ;
        assert(fpval * pow10((10 - flen) as nat) >= 0) by (nonlinear_arith)
            requires
                fpval >= 0,
                pow10((10 - flen) as nat) >= 1,
        ;
    }
    let fscale = pow10_exec(10 - (flen as u32));
    let vf: i128 = fpval * fscale;
    let v: i128 = vi + vf;
    if neg {
        Some(-v)
    } else {
        Some(v)
    }
}

/// `pow10` turns addition of exponents into multiplication.
pub proof fn lemma_pow10_mul(a: nat, b: nat)
    ensures
        pow10(a) * pow10(b) == pow10(a + b),
    decreases a,
{
    if a == 0 {
    } else {
        lemma_pow10_mul((a - 1) as nat, b);
        assert(pow10(a) * pow10(b) == 10 * (pow10((a - 1) as nat) * pow10(b)))
            by (nonlinear_arith)
            requires
                pow10(a) == 10 * pow10((a - 1) as nat),
        ;
    }
}

/// Parses a money cell.  Blank cells, once normalized, mean "no movement"
/// and yield exact zero; any other text must be a decimal literal.
pub fn parse_money_or_zero(value: &str, column: &'static str) -> (r: Result<Money, ReportError>)
    ensures
        normalize_number_spec(value@).len() == 0 ==> (r matches Ok(m) && m.scaled == 0),
        normalize_number_spec(value@).len() > 0 ==> match decimal_of(
            normalize_number_spec(value@),
        ) {
            Some(v) => r matches Ok(m) && m.scaled == v,
            None => r matches Err(e) && (e matches ReportError::Number { value: t, column: c }
                && t@ == trim_spec(value@) && c@ == column@),
        },
{
    let norm = normalize_number(value);
    let nv = chars_of(norm.as_str());
    if nv.len() == 0 {
        return Ok(Money::zero());
    }
    match parse_decimal(&nv) {
        Some(v) => Ok(Money { scaled: v }),
        None => Err(ReportError::Number { value: trim_str(value), column }),
    }
}

} // verus!
