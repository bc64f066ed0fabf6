use vstd::prelude::*;
use vstd::string::*;
use vstd::string::StringExecFns;
use vstd::arithmetic::div_mod::lemma_fundamental_div_mod;
use vstd::arithmetic::div_mod::lemma_fundamental_div_mod_converse;

verus! {

/// Largest number of fractional digits a `Decimal` carries.
pub const MAX_SCALE: u32 = 18;

/// A non-negative decimal number: `digits / 10^scale`.
#[derive(Clone, Copy, Debug, PartialEq, Eq, Structural)]
pub struct Decimal {
    pub digits: u64,
    pub scale: u32,
}

impl Decimal {
    pub open spec fn wf(self) -> bool {
        self.scale <= MAX_SCALE
    }
}

pub open spec fn pow10(n: nat) -> nat
    decreases n,
{
    if n == 0 {
        1
    } else {
        10 * pow10((n - 1) as nat)
    }
}

pub open spec fn is_digit(c: char) -> bool {
    '0' <= c && c <= '9'
}

pub open spec fn digit_of(c: char) -> nat {
    (c as u32 - '0' as u32) as nat
}

pub open spec fn all_digits(s: Seq<char>) -> bool {
    forall|i: int| 0 <= i < s.len() ==> #[trigger] is_digit(s[i])
}

/// The number that a run of decimal digits spells.
pub open spec fn digits_value(s: Seq<char>) -> nat
    decreases s.len(),
{
    if s.len() == 0 {
        0
    } else {
        digits_value(s.drop_last()) * 10 + digit_of(s.last())
    }
}

/// `s` reads `int` or `int '.' frac`, both non-empty runs of digits, and the
/// integer part ends at `k`.
pub open spec fn decimal_split(s: Seq<char>, k: int) -> bool {
    &&& 0 < k <= s.len()
    &&& all_digits(s.subrange(0, k))
    &&& (k == s.len() || (s[k] == '.' && k + 1 < s.len() && all_digits(s.subrange(k + 1, s.len() as int))))
}

/// The fractional digits of `s` when its integer part ends at `k`.
pub open spec fn fraction(s: Seq<char>, k: int) -> Seq<char> {
    if k == s.len() {
        seq![]
    } else {
        s.subrange(k + 1, s.len() as int)
    }
}

/// The decimal that the text `s` denotes, when it is one and fits a `Decimal`.
pub open spec fn decimal_of(s: Seq<char>) -> Option<Decimal> {
    if exists|k: int| decimal_split(s, k) {
        let k = choose|k: int| decimal_split(s, k);
        let frac = fraction(s, k);
        let v = digits_value(s.subrange(0, k) + frac);
        if v <= u64::MAX && frac.len() <= MAX_SCALE {
            Some(Decimal { digits: v as u64, scale: frac.len() as u32 })
        } else {
            None
        }
    } else {
        None
    }
}

proof fn lemma_split_unique(s: Seq<char>, k1: int, k2: int)
    requires
        decimal_split(s, k1),
        decimal_split(s, k2),
    ensures
        k1 == k2,
{
    if k1 < k2 {
        assert(is_digit(s.subrange(0, k2)[k1]));
    } else if k2 < k1 {
        assert(is_digit(s.subrange(0, k1)[k2]));
    }
}

/// Every character but the point is a digit.
proof fn lemma_split_char(s: Seq<char>, k: int, j: int)
    requires
        decimal_split(s, k),
        0 <= j < s.len(),
        j != k,
    ensures
        is_digit(s[j]),
{
    if j < k {
        assert(is_digit(s.subrange(0, k)[j]));
    } else {
        assert(is_digit(s.subrange(k + 1, s.len() as int)[j - k - 1]));
    }
}

/// Appending digits never makes the value smaller.
proof fn lemma_value_prefix(a: Seq<char>, b: Seq<char>)
    ensures
        digits_value(a + b) >= digits_value(a),
    decreases b.len(),
{
    if b.len() > 0 {
        assert((a + b).drop_last() =~= a + b.drop_last());
        lemma_value_prefix(a, b.drop_last());
    } else {
        assert(a + b =~= a);
    }
}

proof fn lemma_value_push(a: Seq<char>, c: char)
    ensures
        digits_value(a.push(c)) == digits_value(a) * 10 + digit_of(c),
{
    assert(a.push(c).drop_last() =~= a);
}

/// Reads a decimal such as `184.83` or `7`: digits, optionally followed by a
/// point and more digits. Signs, exponents and more than eighteen fractional
/// digits are not accepted.
pub fn parse_decimal(s: &str) -> (r: Option<Decimal>)
    ensures
        r == decimal_of(s@),
        r matches Some(d) ==> d.wf(),
{
    let n = s.unicode_len();
    let mut value: u64 = 0;
    let mut seen_point = false;
    let mut k: usize = 0;
    let mut i: usize = 0;
    while i < n
        invariant
            n == s@.len(),
            i <= n,
            !seen_point ==> all_digits(s@.subrange(0, i as int)) && value == digits_value(
                s@.subrange(0, i as int),
            ),
            seen_point ==> 0 < k < i && s@[k as int] == '.' && all_digits(s@.subrange(0, k as int))
                && all_digits(s@.subrange(k + 1, i as int)) && value == digits_value(
                s@.subrange(0, k as int) + s@.subrange(k + 1, i as int),
            ),
        decreases n - i,
    {
        let c = s.get_char(i);
        let ghost t = if seen_point {
            s@.subrange(0, k as int) + s@.subrange(k + 1, i as int)
        } else {
            s@.subrange(0, i as int)
        };
        if '0' <= c && c <= '9' {
            let d = (c as u32 - '0' as u32) as u64;
            proof {
                lemma_value_push(t, c);
            }
            if value > (u64::MAX - d) / 10 {
                proof {
                    assert(digits_value(t.push(c)) > u64::MAX);
                    assert forall|k2: int| decimal_split(s@, k2) implies digits_value(
                        s@.subrange(0, k2) + fraction(s@, k2),
                    ) > u64::MAX by {
                        let whole = s@.subrange(0, k2) + fraction(s@, k2);
                        if seen_point {
                            if k2 != k as int {
                                lemma_split_char(s@, k2, k as int);
                            }
                            assert(whole =~= t.push(c) + s@.subrange(i + 1, s@.len() as int));
                        } else {
                            if k2 <= i {
                                if k2 < s@.len() {
                                    assert(s@[k2] == '.');
                                    if k2 < i {
                                        assert(is_digit(s@.subrange(0, i as int)[k2]));
                                    }
                                }
                            }
                            assert(k2 > i);
                            assert(whole =~= t.push(c) + (s@.subrange(i + 1, k2) + fraction(
                                s@,
                                k2,
                            )));
                        }
                        let head = t.push(c);
                        let rest = whole.subrange(head.len() as int, whole.len() as int);
                        assert(whole =~= head + rest);
                        lemma_value_prefix(head, rest);
                    }
                }
                return None;
            }
            value = value * 10 + d;
            proof {
                if seen_point {
                    assert(s@.subrange(0, k as int) + s@.subrange(k + 1, i + 1) =~= t.push(c));
                    assert(all_digits(s@.subrange(k + 1, i + 1))) by {
                        assert forall|j: int| 0 <= j < i + 1 - (k + 1) implies is_digit(
                            #[trigger] s@.subrange(k + 1, i + 1)[j],
                        ) by {
                            if j < i - (k + 1) {
                                assert(s@.subrange(k + 1, i + 1)[j] == s@.subrange(
                                    k + 1,
                                    i as int,
                                )[j]);
                            }
                        }
                    }
                } else {
                    assert(s@.subrange(0, i + 1) =~= t.push(c));
                    assert(all_digits(s@.subrange(0, i + 1))) by {
                        assert forall|j: int| 0 <= j < i + 1 implies is_digit(
                            #[trigger] s@.subrange(0, i + 1)[j],
                        ) by {
                            if j < i {
                                assert(s@.subrange(0, i + 1)[j] == s@.subrange(0, i as int)[j]);
                            }
                        }
                    }
                }
            }
        } else if c == '.' && !seen_point && i > 0 {
            seen_point = true;
            k = i;
            assert(s@.subrange(k + 1, i + 1) =~= Seq::<char>::empty());
            assert(s@.subrange(0, k as int) + s@.subrange(k + 1, i + 1) =~= t);
        } else {
            proof {
                assert forall|k2: int| !decimal_split(s@, k2) by {
                    if decimal_split(s@, k2) {
                        if c == '.' {
                            if seen_point {
                                if k2 != k as int {
                                    lemma_split_char(s@, k2, k as int);
                                }
                                lemma_split_char(s@, k2, i as int);
                            } else {
                                lemma_split_char(s@, k2, i as int);
                            }
                        } else {
                            if i as int != k2 {
                                lemma_split_char(s@, k2, i as int);
                            }
                        }
                    }
                }
            }
            return None;
        }
        i = i + 1;
    }
    if n == 0 || (seen_point && k + 1 == n) {
        proof {
            assert forall|k2: int| !decimal_split(s@, k2) by {
                if decimal_split(s@, k2) && seen_point {
                    if k2 != k as int {
                        lemma_split_char(s@, k2, k as int);
                    }
                }
            }
        }
        return None;
    }
    let ghost kk: int = if seen_point { k as int } else { n as int };
    let scale: usize = if seen_point { n - k - 1 } else { 0 };
    proof {
        if !seen_point {
            assert(s@.subrange(0, n as int) =~= s@);
        } else {
            assert(s@.subrange(k + 1, n as int) =~= s@.subrange(k + 1, s@.len() as int));
        }
        assert(decimal_split(s@, kk));
        let k2 = choose|k2: int| decimal_split(s@, k2);
        lemma_split_unique(s@, kk, k2);
        if !seen_point {
            assert(s@.subrange(0, kk) + fraction(s@, kk) =~= s@.subrange(0, n as int));
        }
    }
    if scale > MAX_SCALE as usize {
        return None;
    }
    Some(Decimal { digits: value, scale: scale as u32 })
}

/// `n / d` rounded to the nearest integer, halves rounding up.
pub open spec fn round_half_up(n: nat, d: nat) -> nat {
    ((2 * n + d) / (2 * d)) as nat
}

/// `round_half_up(n, d)` is the integer nearest to `n / d`, a half going up:
/// `r - 1/2 <= n / d < r + 1/2`.
pub proof fn lemma_round_half_up_nearest(n: nat, d: nat)
    requires
        d > 0,
    ensures
        (2 * round_half_up(n, d) - 1) * d <= 2 * n,
        2 * n < (2 * round_half_up(n, d) + 1) * d,
{
    let x = 2 * n + d;
    let m = 2 * d;
    lemma_fundamental_div_mod(x as int, m as int);
    let q = x / m;
    let r = x % m;
    assert(0 <= r < m);
    assert(x == m * q + r);
    assert((2 * q - 1) * d <= 2 * n && 2 * n < (2 * q + 1) * d) by (nonlinear_arith)
        requires
            x == m * q + r,
            0 <= r < m,
            m == 2 * d,
            x == 2 * n + d,
    ;
}

/// `a × b` rounded to two decimals, counted in hundredths.
pub open spec fn product_hundredths(a: Decimal, b: Decimal) -> nat {
    round_half_up((100 * a.digits * b.digits) as nat, pow10((a.scale + b.scale) as nat))
}

proof fn lemma_pow10_add(a: nat, b: nat)
    ensures
        pow10(a + b) == pow10(a) * pow10(b),
        pow10(a) >= 1,
    decreases a,
{
    if a > 0 {
        lemma_pow10_add((a - 1) as nat, b);
        assert((a + b - 1) as nat == ((a - 1) as nat + b) as nat);
        let x = pow10((a - 1) as nat);
        let y = pow10(b);
        assert(pow10(a + b) == 10 * pow10((a + b - 1) as nat));
        assert(pow10(a) == 10 * x);
        assert(10 * (x * y) == (10 * x) * y) by (nonlinear_arith);
        assert(x * y >= 0) by (nonlinear_arith) requires x >= 1, y >= 0;
        assert(pow10(((a - 1) as nat + b) as nat) == x * y);
        assert(pow10(a + b) == (10 * x) * y);
    } else {
        assert(pow10(a) == 1);
        assert(a + b == b);
    }
}

proof fn lemma_pow10_38()
    ensures
        pow10(38) == 100_000_000_000_000_000_000_000_000_000_000_000_000,
{
    assert(pow10(0) == 1);
    assert(pow10(1) == 10);
    assert(pow10(2) == 100);
    assert(pow10(3) == 1000);
    assert(pow10(4) == 10000);
    assert(pow10(5) == 100000);
    assert(pow10(6) == 1000000);
    assert(pow10(7) == 10000000);
    assert(pow10(8) == 100000000);
    assert(pow10(9) == 1000000000);
    assert(pow10(10) == 10000000000);
    assert(pow10(11) == 100000000000);
    assert(pow10(12) == 1000000000000);
    assert(pow10(13) == 10000000000000);
    assert(pow10(14) == 100000000000000);
    assert(pow10(15) == 1000000000000000);
    assert(pow10(16) == 10000000000000000);
    assert(pow10(17) == 100000000000000000);
    assert(pow10(18) == 1000000000000000000);
    assert(pow10(19) == 10000000000000000000);
    assert(pow10(20) == 100000000000000000000);
    assert(pow10(21) == 1000000000000000000000);
    assert(pow10(22) == 10000000000000000000000);
    assert(pow10(23) == 100000000000000000000000);
    assert(pow10(24) == 1000000000000000000000000);
    assert(pow10(25) == 10000000000000000000000000);
    assert(pow10(26) == 100000000000000000000000000);
    assert(pow10(27) == 1000000000000000000000000000);
    assert(pow10(28) == 10000000000000000000000000000);
    assert(pow10(29) == 100000000000000000000000000000);
    assert(pow10(30) == 1000000000000000000000000000000);
    assert(pow10(31) == 10000000000000000000000000000000);
    assert(pow10(32) == 100000000000000000000000000000000);
    assert(pow10(33) == 1000000000000000000000000000000000);
    assert(pow10(34) == 10000000000000000000000000000000000);
    assert(pow10(35) == 100000000000000000000000000000000000);
    assert(pow10(36) == 1000000000000000000000000000000000000);
    assert(pow10(37) == 10000000000000000000000000000000000000);
    assert(pow10(38) == 100000000000000000000000000000000000000);
}

proof fn lemma_pow10_bound(n: nat)
    requires
        n <= 38,
    ensures
        1 <= pow10(n) <= 100_000_000_000_000_000_000_000_000_000_000_000_000,
{
    lemma_pow10_38();
    lemma_pow10_add(n, (38 - n) as nat);
    lemma_pow10_add((38 - n) as nat, 0);
    let x = pow10(n);
    let y = pow10((38 - n) as nat);
    assert(x * y >= x) by (nonlinear_arith)
        requires
            y >= 1,
            x >= 1,
    ;
}

/// `10^n`.
fn pow10_exec(n: u32) -> (r: u128)
    requires
        n <= 38,
    ensures
        r == pow10(n as nat),
{
    let mut r: u128 = 1;
    let mut i: u32 = 0;
    while i < n
        invariant
            i <= n <= 38,
            r == pow10(i as nat),
        decreases n - i,
    {
        proof {
            lemma_pow10_bound((i + 1) as nat);
        }
        r = r * 10;
        i = i + 1;
    }
    r
}

/// Multiplies two decimals and rounds the product to two decimals, halves up;
/// `None` when the result does not fit a `Decimal`.
pub fn multiply_rounded(a: Decimal, b: Decimal) -> (r: Option<Decimal>)
    requires
        a.wf(),
        b.wf(),
    ensures
        r is Some <==> product_hundredths(a, b) <= u64::MAX,
        r matches Some(d) ==> d.scale == 2 && d.digits == product_hundredths(a, b),
{
    proof {
        let x = a.digits as int;
        let y = b.digits as int;
        assert(x * y <= 0xffff_ffff_ffff_fffe_0000_0000_0000_0001) by (nonlinear_arith)
            requires
                0 <= x <= 0xffff_ffff_ffff_ffff,
                0 <= y <= 0xffff_ffff_ffff_ffff,
        ;
    }
    let p: u128 = (a.digits as u128) * (b.digits as u128);
    let s: u32 = a.scale + b.scale;
    let ghost pp: int = p as int;
    let ghost big: int = pow10(s as nat) as int;
    proof {
        assert(100 * a.digits * b.digits == 100 * pp) by (nonlinear_arith)
            requires
                pp == a.digits * b.digits,
        ;
    }
    let hundredths: u128;
    if s >= 2 {
        let d = pow10_exec(s - 2);
        proof {
            lemma_pow10_bound((s - 2) as nat);
        }
        let q = p / d;
        let rem = p % d;
        proof {
            lemma_pow10_add(2, (s - 2) as nat);
            reveal_with_fuel(pow10, 3);
            assert(big == 100 * d);
            lemma_fundamental_div_mod(pp, d as int);
        }
        let up: u128 = if 2 * rem >= d { 1 } else { 0 };
        hundredths = q + up;
        proof {
            let r2: int = if up == 1 { 2 * rem - d } else { 2 * rem + d };
            assert(0 <= r2 < 2 * d);
            assert(2 * (100 * pp) + big == (q + up) * (2 * big) + 100 * r2) by (nonlinear_arith)
                requires
                    pp == d * q + rem,
                    big == 100 * d,
                    r2 == if up == 1 { 2 * rem - d } else { 2 * rem + d },
                    up == 0 || up == 1,
            ;
            assert(0 <= 100 * r2 < 2 * big);
            lemma_fundamental_div_mod_converse(2 * (100 * pp) + big, 2 * big, (q + up) as int, 100 * r2);
        }
    } else {
        if p > u64::MAX as u128 {
            proof {
                reveal_with_fuel(pow10, 3);
                assert(big == 1 || big == 10);
                assert((2 * (100 * pp) + big) / (2 * big) >= pp) by (nonlinear_arith)
                    requires
                        big == 1 || big == 10,
                        pp >= 0,
                ;
            }
            return None;
        }
        let m = pow10_exec(2 - s);
        proof {
            reveal_with_fuel(pow10, 3);
            assert(m <= 100);
            assert(p * m <= 0xffff_ffff_ffff_ffff * 100) by (nonlinear_arith)
                requires
                    p <= 0xffff_ffff_ffff_ffff,
                    m <= 100,
            ;
        }
        hundredths = p * m;
        proof {
            reveal_with_fuel(pow10, 3);
            assert(m * big == 100);
            assert(2 * (100 * pp) + big == (pp * m) * (2 * big) + big) by (nonlinear_arith)
                requires
                    m * big == 100,
            ;
            lemma_fundamental_div_mod_converse(2 * (100 * pp) + big, 2 * big, pp * m, big);
        }
    }
    if hundredths > u64::MAX as u128 {
        return None;
    }
    Some(Decimal { digits: hundredths as u64, scale: 2 })
}

/// The character of the digit `d`.
pub open spec fn digit_char(d: nat) -> char {
    ((48 + d) as u8) as char
}

/// The decimal numeral of `n`, without leading zeros.
pub open spec fn numeral(n: nat) -> Seq<char>
    decreases n,
{
    if n < 10 {
        seq![digit_char(n)]
    } else {
        numeral(n / 10).push(digit_char(n % 10))
    }
}

/// `n` copies of the digit zero.
pub open spec fn zeros(n: nat) -> Seq<char> {
    Seq::new(n, |i: int| '0')
}

/// How a `Decimal` is written: its digits, padded with leading zeros so that
/// at least one stands before the point, then the last `scale` of them after a
/// point (no point when `scale` is zero).
pub open spec fn decimal_text(d: Decimal) -> Seq<char> {
    let t = numeral(d.digits as nat);
    if d.scale == 0 {
        t
    } else {
        let padded = if t.len() <= d.scale {
            zeros((d.scale + 1 - t.len()) as nat) + t
        } else {
            t
        };
        let cut = padded.len() - d.scale;
        padded.subrange(0, cut) + seq!['.'] + padded.subrange(cut, padded.len() as int)
    }
}

/// Relies on the `Display` of `u64` (through `to_string`): the decimal
/// numeral, without sign or leading zeros.
#[verifier::external_body]
fn numeral_text(n: u64) -> (r: String)
    ensures
        r@ == numeral(n as nat),
{
    n.to_string()
}

impl Decimal {
    /// The decimal written out, as in `121.6` or `0.05`.
    pub fn to_text(&self) -> (r: String)
        requires
            self.wf(),
        ensures
            r@ == decimal_text(*self),
    {
        let t = numeral_text(self.digits);
        if self.scale == 0 {
            return t;
        }
        let len = t.as_str().unicode_len();
        let scale = self.scale as usize;
        let mut padded = String::new();
        let mut pad: usize = 0;
        let want: usize = if len <= scale { scale + 1 - len } else { 0 };
        proof {
            reveal_strlit("0");
        }
        while pad < want
            invariant
                pad <= want,
                padded@ == zeros(pad as nat),
            decreases want - pad,
        {
            proof {
                reveal_strlit("0");
            }
            padded.append("0");
            pad = pad + 1;
            assert(padded@ =~= zeros(pad as nat));
        }
        padded.append(t.as_str());
        let total = padded.as_str().unicode_len();
        let cut = total - scale;
        let head = padded.as_str().substring_char(0, cut);
        let tail = padded.as_str().substring_char(cut, total);
        let mut out = String::new();
        out.append(head);
        proof {
            reveal_strlit(".");
        }
        out.append(".");
        out.append(tail);
        proof {
            if len > scale {
                assert(zeros(0) + t@ =~= t@);
            }
            assert(out@ =~= decimal_text(*self));
        }
        out
    }
}

} // verus!
