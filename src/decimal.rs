//! Exact decimal numbers: a signed mantissa and a count of fraction digits.
use vstd::prelude::*;
use crate::text::{
    all_digits, decimal_digits, digits_of, digits_value, is_digit, lemma_all_digits_push, parse_usize,
};

verus! {

/// Fraction digits kept by a quotient.
pub const QUOTIENT_DIGITS: u32 = 16;

/// The number `mantissa / 10^scale`.
#[derive(Clone, Copy, Debug, PartialEq, Eq, Structural)]
pub struct Decimal {
    pub mantissa: i128,
    pub scale: u32,
}

/// `10^n`.
pub open spec fn pow10(n: nat) -> nat
    decreases n,
{
    if n == 0 {
        1
    } else {
        10 * pow10((n - 1) as nat)
    }
}

/// Whether `x` is a value of `i128`.
pub open spec fn fits(x: int) -> bool {
    i128::MIN <= x <= i128::MAX
}

pub open spec fn abs(x: int) -> nat {
    if x < 0 {
        (-x) as nat
    } else {
        x as nat
    }
}

pub open spec fn max_scale(a: Decimal, b: Decimal) -> nat {
    if a.scale >= b.scale {
        a.scale as nat
    } else {
        b.scale as nat
    }
}

/// The mantissa of `a` brought to the scale `s`.
pub open spec fn rescaled(a: Decimal, s: nat) -> int {
    a.mantissa * pow10((s - a.scale) as nat)
}

/// Drops trailing zero fraction digits of the magnitude `m` at scale `s`.
pub open spec fn strip(m: nat, s: nat) -> (nat, nat)
    decreases s,
{
    if s > 0 && m % 10 == 0 {
        strip(m / 10, (s - 1) as nat)
    } else {
        (m, s)
    }
}

/// The mantissa and scale of `m / 10^s` with no trailing zero fraction digits.
pub open spec fn normal_form(m: int, s: nat) -> (int, nat) {
    let (k, t) = strip(abs(m), s);
    (if m < 0 { -k } else { k as int }, t)
}

/// Whether `d` is the normal form of `m / 10^s`.
pub open spec fn is_normal_of(d: Decimal, m: int, s: nat) -> bool {
    normal_form(m, s) == (d.mantissa as int, d.scale as nat)
}

/// The mantissa of an exact product.
pub open spec fn product_mantissa(a: Decimal, b: Decimal) -> int {
    a.mantissa * b.mantissa
}

/// The dividend of a quotient, at `QUOTIENT_DIGITS` fraction digits.
pub open spec fn quotient_dividend(a: Decimal, b: Decimal) -> int {
    a.mantissa * pow10((b.scale + QUOTIENT_DIGITS) as nat)
}

/// The divisor of a quotient.
pub open spec fn quotient_divisor(a: Decimal, b: Decimal) -> int {
    b.mantissa * pow10(a.scale as nat)
}

/// Integer division rounding toward zero.
pub open spec fn div_toward_zero(x: int, y: int) -> int {
    let q = (abs(x) / abs(y)) as int;
    if (x < 0) != (y < 0) {
        -q
    } else {
        q
    }
}

/// `a <= b` as numbers.
pub open spec fn le_value(a: Decimal, b: Decimal) -> bool {
    a.mantissa * pow10(b.scale as nat) <= b.mantissa * pow10(a.scale as nat)
}

proof fn lemma_pow10_positive(n: nat)
    ensures
        pow10(n) >= 1,
    decreases n,
{
    if n > 0 {
        lemma_pow10_positive((n - 1) as nat);
    }
}

proof fn lemma_pow10_add(a: nat, b: nat)
    ensures
        pow10(a + b) == pow10(a) * pow10(b),
    decreases a,
{
    if a > 0 {
        let a1 = (a - 1) as nat;
        lemma_pow10_add(a1, b);
        assert((a + b - 1) as nat == a1 + b);
        assert(pow10(a + b) == 10 * pow10(a1 + b));
        assert(pow10(a) == 10 * pow10(a1));
        assert(10 * (pow10(a1) * pow10(b)) == (10 * pow10(a1)) * pow10(b)) by (nonlinear_arith);
    } else {
        assert(pow10(a) == 1);
        assert(a + b == b);
        assert(1 * pow10(b) == pow10(b));
    }
}

proof fn lemma_not_fits_grows(x: int, p: nat)
    requires
        !fits(x),
        p >= 1,
    ensures
        !fits(x * p),
{
    if x > 0 {
        assert(x * p >= x) by (nonlinear_arith)
            requires
                x > 0,
                p >= 1,
        ;
    } else {
        assert(x * p <= x) by (nonlinear_arith)
            requires
                x < 0,
                p >= 1,
        ;
    }
}

impl Decimal {
    /// The number `0`.
    pub fn zero() -> (r: Decimal)
        ensures
            r.mantissa == 0,
            r.scale == 0,
    {
        Decimal { mantissa: 0, scale: 0 }
    }

    /// The whole number `n`.
    pub fn from_u64(n: u64) -> (r: Decimal)
        ensures
            r.mantissa == n,
            r.scale == 0,
    {
        Decimal { mantissa: n as i128, scale: 0 }
    }
}

/// `m * 10^k`, or `None` where that is not an `i128`.
pub fn scale_up(m: i128, k: u32) -> (r: Option<i128>)
    ensures
        r matches Some(x) ==> x == m * pow10(k as nat),
        r is None ==> !fits(m * pow10(k as nat)),
{
    let mut x = m;
    let mut i: u32 = 0;
    assert(pow10(0) == 1);
    assert(m * 1 == m);
    while i < k
        invariant
            i <= k,
            x == m * pow10(i as nat),
        decreases k - i,
    {
        match x.checked_mul(10) {
            Some(y) => {
                proof {
                    assert(pow10((i + 1) as nat) == 10 * pow10(i as nat));
                    assert(m * (10 * pow10(i as nat)) == (m * pow10(i as nat)) * 10)
                        by (nonlinear_arith);
                }
                x = y;
            },
            None => {
                proof {
                    let j = (i + 1) as nat;
                    assert(pow10(j) == 10 * pow10(i as nat));
                    assert(m * (10 * pow10(i as nat)) == (m * pow10(i as nat)) * 10)
                        by (nonlinear_arith);
                    assert(!fits(m * pow10(j)));
                    lemma_pow10_add(j, (k - j) as nat);
                    lemma_pow10_positive((k - j) as nat);
                    lemma_not_fits_grows(m * pow10(j), pow10((k - j) as nat));
                    assert((m * pow10(j)) * pow10((k - j) as nat) == m * (pow10(j) * pow10(
                        (k - j) as nat,
                    ))) by (nonlinear_arith);
                    assert((j + (k - j)) as nat == k as nat);
                }
                return None;
            },
        }
        i += 1;
    }
    Some(x)
}

/// The magnitude of `m`.
fn magnitude(m: i128) -> (r: u128)
    ensures
        r == abs(m as int),
{
    if m < 0 {
        ((-(m + 1)) as u128) + 1
    } else {
        m as u128
    }
}

proof fn lemma_strip_le(m: nat, s: nat)
    ensures
        strip(m, s).0 <= m,
        strip(m, s).0 == m && m > 0 ==> strip(m, s).1 == s,
    decreases s,
{
    if s > 0 && m % 10 == 0 {
        lemma_strip_le(m / 10, (s - 1) as nat);
    }
}

/// The normal form of `m / 10^s`: trailing zero fraction digits dropped.
pub fn normalize(m: i128, s: u32) -> (r: Decimal)
    ensures
        is_normal_of(r, m as int, s as nat),
{
    let orig = magnitude(m);
    let mut mag = orig;
    let mut sc = s;
    while sc > 0 && mag % 10 == 0
        invariant
            strip(mag as nat, sc as nat) == strip(orig as nat, s as nat),
            mag <= orig,
        decreases sc,
    {
        mag = mag / 10;
        sc = sc - 1;
    }
    proof {
        lemma_strip_le(orig as nat, s as nat);
    }
    if m < 0 {
        if mag == orig {
            Decimal { mantissa: m, scale: sc }
        } else {
            Decimal { mantissa: -(mag as i128), scale: sc }
        }
    } else {
        Decimal { mantissa: mag as i128, scale: sc }
    }
}

/// `a + b`, where it fits.
pub open spec fn plus(a: Decimal, b: Decimal) -> Option<Decimal> {
    let s = max_scale(a, b);
    let m = rescaled(a, s) + rescaled(b, s);
    if fits(rescaled(a, s)) && fits(rescaled(b, s)) && fits(m) {
        Some(Decimal { mantissa: m as i128, scale: s as u32 })
    } else {
        None
    }
}

/// The decimal with the normal form of `m / 10^s`.
pub open spec fn normal_decimal(m: int, s: nat) -> Decimal {
    Decimal { mantissa: normal_form(m, s).0 as i128, scale: normal_form(m, s).1 as u32 }
}

/// `a - b` at the larger of the two scales (meaningful where it fits).
pub open spec fn minus(a: Decimal, b: Decimal) -> Decimal {
    Decimal {
        mantissa: (rescaled(a, max_scale(a, b)) - rescaled(b, max_scale(a, b))) as i128,
        scale: max_scale(a, b) as u32,
    }
}

/// `a * b` in normal form (meaningful where it fits).
pub open spec fn times(a: Decimal, b: Decimal) -> Decimal {
    normal_decimal(product_mantissa(a, b), (a.scale + b.scale) as nat)
}

/// `a / b` rounded toward zero at `QUOTIENT_DIGITS` fraction digits, in normal form.
pub open spec fn divided(a: Decimal, b: Decimal) -> Decimal {
    normal_decimal(
        div_toward_zero(quotient_dividend(a, b), quotient_divisor(a, b)),
        QUOTIENT_DIGITS as nat,
    )
}

/// `a - b`, where every step fits.
pub open spec fn minus_opt(a: Decimal, b: Decimal) -> Option<Decimal> {
    let s = max_scale(a, b);
    if fits(rescaled(a, s)) && fits(rescaled(b, s)) && fits(rescaled(a, s) - rescaled(b, s)) {
        Some(minus(a, b))
    } else {
        None
    }
}

/// `a * b`, where it fits.
pub open spec fn times_opt(a: Decimal, b: Decimal) -> Option<Decimal> {
    if fits(product_mantissa(a, b)) && a.scale + b.scale <= u32::MAX {
        Some(times(a, b))
    } else {
        None
    }
}

/// `a / b` (for `b` not zero), where every step fits.
pub open spec fn divided_opt(a: Decimal, b: Decimal) -> Option<Decimal> {
    if b.scale + QUOTIENT_DIGITS <= u32::MAX && fits(quotient_dividend(a, b)) && fits(
        quotient_divisor(a, b),
    ) && fits(div_toward_zero(quotient_dividend(a, b), quotient_divisor(a, b))) {
        Some(divided(a, b))
    } else {
        None
    }
}

/// `a + b`, exact, at the larger of the two scales.
pub fn add(a: Decimal, b: Decimal) -> (r: Option<Decimal>)
    ensures
        r == plus(a, b),
        r matches Some(d) ==> d.scale == max_scale(a, b) && d.mantissa == rescaled(
            a,
            max_scale(a, b),
        ) + rescaled(b, max_scale(a, b)),
        r is None ==> !fits(rescaled(a, max_scale(a, b))) || !fits(rescaled(b, max_scale(a, b)))
            || !fits(rescaled(a, max_scale(a, b)) + rescaled(b, max_scale(a, b))),
{
    let s = if a.scale >= b.scale { a.scale } else { b.scale };
    let x = scale_up(a.mantissa, s - a.scale)?;
    let y = scale_up(b.mantissa, s - b.scale)?;
    let m = x.checked_add(y)?;
    let r = Decimal { mantissa: m, scale: s };
    assert(plus(a, b) == Some(r));
    Some(r)
}

/// `a - b`, exact, at the larger of the two scales.
pub fn sub(a: Decimal, b: Decimal) -> (r: Option<Decimal>)
    ensures
        r == minus_opt(a, b),
        r matches Some(d) ==> d == minus(a, b),
        r matches Some(d) ==> d.scale == max_scale(a, b) && d.mantissa == rescaled(
            a,
            max_scale(a, b),
        ) - rescaled(b, max_scale(a, b)),
        r is None ==> !fits(rescaled(a, max_scale(a, b))) || !fits(rescaled(b, max_scale(a, b)))
            || !fits(rescaled(a, max_scale(a, b)) - rescaled(b, max_scale(a, b))),
{
    let s = if a.scale >= b.scale { a.scale } else { b.scale };
    let x = scale_up(a.mantissa, s - a.scale)?;
    let y = scale_up(b.mantissa, s - b.scale)?;
    let m = x.checked_sub(y)?;
    Some(Decimal { mantissa: m, scale: s })
}

/// `a * b`, exact, in normal form.
pub fn mul(a: Decimal, b: Decimal) -> (r: Option<Decimal>)
    ensures
        r == times_opt(a, b),
        r matches Some(d) ==> d == times(a, b),
        r matches Some(d) ==> is_normal_of(d, product_mantissa(a, b), (a.scale + b.scale) as nat),
        r is None ==> !fits(product_mantissa(a, b)) || a.scale + b.scale > u32::MAX,
{
    let m = a.mantissa.checked_mul(b.mantissa)?;
    let s = a.scale.checked_add(b.scale)?;
    Some(normalize(m, s))
}

/// `a / b` rounded toward zero at `QUOTIENT_DIGITS` fraction digits, in normal form.
pub fn div(a: Decimal, b: Decimal) -> (r: Option<Decimal>)
    requires
        b.mantissa != 0,
    ensures
        r == divided_opt(a, b),
        r matches Some(d) ==> d == divided(a, b),
        r matches Some(d) ==> is_normal_of(
            d,
            div_toward_zero(quotient_dividend(a, b), quotient_divisor(a, b)),
            QUOTIENT_DIGITS as nat,
        ),
        r is None ==> b.scale + QUOTIENT_DIGITS > u32::MAX || !fits(quotient_dividend(a, b))
            || !fits(quotient_divisor(a, b)) || !fits(
            div_toward_zero(quotient_dividend(a, b), quotient_divisor(a, b)),
        ),
{
    let k = b.scale.checked_add(QUOTIENT_DIGITS)?;
    let x = scale_up(a.mantissa, k)?;
    let y = scale_up(b.mantissa, a.scale)?;
    proof {
        lemma_pow10_positive(a.scale as nat);
        assert(y != 0) by (nonlinear_arith)
            requires
                y == b.mantissa * pow10(a.scale as nat),
                b.mantissa != 0,
                pow10(a.scale as nat) >= 1,
        ;
    }
    let q = magnitude(x) / magnitude(y);
    let negative = (x < 0) != (y < 0);
    if negative {
        if q > 170141183460469231731687303715884105728u128 {
            return None;
        }
        let m: i128 = if q == 170141183460469231731687303715884105728u128 {
            i128::MIN
        } else {
            -(q as i128)
        };
        Some(normalize(m, QUOTIENT_DIGITS))
    } else {
        if q > 170141183460469231731687303715884105727u128 {
            return None;
        }
        Some(normalize(q as i128, QUOTIENT_DIGITS))
    }
}

proof fn lemma_cross(x: int, y: int, p: int)
    requires
        p > 0,
    ensures
        (x * p <= y * p) == (x <= y),
{
    if x <= y {
        assert(x * p <= y * p) by (nonlinear_arith)
            requires
                x <= y,
                p > 0,
        ;
    } else {
        assert(x * p > y * p) by (nonlinear_arith)
            requires
                x > y,
                p > 0,
        ;
    }
}

proof fn lemma_sign_of_product(x: int, p: int)
    requires
        p > 0,
    ensures
        x * p > 0 ==> x > 0,
        x * p < 0 ==> x < 0,
{
    if x <= 0 {
        assert(x * p <= 0) by (nonlinear_arith)
            requires
                x <= 0,
                p > 0,
        ;
    }
    if x >= 0 {
        assert(x * p >= 0) by (nonlinear_arith)
            requires
                x >= 0,
                p > 0,
        ;
    }
}

/// Whether `a <= b`. Where rescaling the mantissa of the smaller scale leaves
/// `i128`, that number is larger in size than the other, so its sign decides.
pub fn le(a: Decimal, b: Decimal) -> (r: bool)
    ensures
        r == le_value(a, b),
{
    if a.scale <= b.scale {
        let k = b.scale - a.scale;
        proof {
            lemma_pow10_add(k as nat, a.scale as nat);
            lemma_pow10_positive(a.scale as nat);
            lemma_pow10_positive(k as nat);
            assert((k + a.scale) as nat == b.scale as nat);
            let x = a.mantissa * pow10(k as nat);
            assert(a.mantissa * pow10(b.scale as nat) == x * pow10(a.scale as nat)) by (nonlinear_arith)
                requires
                    pow10(b.scale as nat) == pow10(k as nat) * pow10(a.scale as nat),
                    x == a.mantissa * pow10(k as nat),
            ;
            lemma_cross(x, b.mantissa as int, pow10(a.scale as nat) as int);
            lemma_sign_of_product(a.mantissa as int, pow10(k as nat) as int);
        }
        match scale_up(a.mantissa, k) {
            Some(x) => x <= b.mantissa,
            None => a.mantissa < 0,
        }
    } else {
        let k = a.scale - b.scale;
        proof {
            lemma_pow10_add(k as nat, b.scale as nat);
            lemma_pow10_positive(b.scale as nat);
            lemma_pow10_positive(k as nat);
            assert((k + b.scale) as nat == a.scale as nat);
            let y = b.mantissa * pow10(k as nat);
            assert(b.mantissa * pow10(a.scale as nat) == y * pow10(b.scale as nat)) by (nonlinear_arith)
                requires
                    pow10(a.scale as nat) == pow10(k as nat) * pow10(b.scale as nat),
                    y == b.mantissa * pow10(k as nat),
            ;
            lemma_cross(a.mantissa as int, y, pow10(b.scale as nat) as int);
            lemma_sign_of_product(b.mantissa as int, pow10(k as nat) as int);
        }
        match scale_up(b.mantissa, k) {
            Some(y) => a.mantissa <= y,
            None => b.mantissa > 0,
        }
    }
}

/// `n` zero digits.
pub open spec fn zeros(n: nat) -> Seq<char> {
    Seq::new(n, |i: int| '0')
}

/// `ds` with leading zeros up to length `len`.
pub open spec fn padded(ds: Seq<char>, len: nat) -> Seq<char> {
    if ds.len() < len {
        zeros((len - ds.len()) as nat) + ds
    } else {
        ds
    }
}

/// `ds` with a decimal point before its last `s` digits (none when `s` is zero).
pub open spec fn with_point(ds: Seq<char>, s: nat) -> Seq<char> {
    if s == 0 {
        ds
    } else {
        ds.subrange(0, ds.len() - s) + seq!['.'] + ds.subrange(ds.len() - s, ds.len() as int)
    }
}

/// The text of `m / 10^s`, written with all `s` fraction digits.
pub open spec fn number_text(m: int, s: nat) -> Seq<char> {
    let body = with_point(padded(decimal_digits(abs(m)), s + 1), s);
    if m < 0 {
        seq!['-'] + body
    } else {
        body
    }
}

/// The text of a number: shortest form, no trailing fraction zeros, no point for
/// whole numbers (`3`, `0.3`, `-12.25`).
pub open spec fn decimal_text(d: Decimal) -> Seq<char> {
    number_text(normal_form(d.mantissa as int, d.scale as nat).0, normal_form(d.mantissa as int, d.scale as nat).1)
}

/// Appends `src[from..to]` to `out`.
fn append_range(out: &mut Vec<char>, src: &Vec<char>, from: usize, to: usize)
    requires
        from <= to <= src.len(),
    ensures
        final(out)@ == old(out)@ + src@.subrange(from as int, to as int),
{
    let mut i = from;
    while i < to
        invariant
            from <= i <= to <= src.len(),
            out@ == old(out)@ + src@.subrange(from as int, i as int),
        decreases to - i,
    {
        out.push(src[i]);
        assert(src@.subrange(from as int, i + 1) =~= src@.subrange(from as int, i as int).push(
            src@[i as int],
        ));
        i += 1;
    }
}

impl Decimal {
    /// The text of this number, as `decimal_text` gives it.
    pub fn to_text(&self) -> (r: Vec<char>)
        ensures
            r@ == decimal_text(*self),
    {
        let n = normalize(self.mantissa, self.scale);
        let s = n.scale as usize;
        let mut ds = digits_of(magnitude(n.mantissa));
        let ghost d0 = ds@;
        while ds.len() <= s
            invariant
                padded(d0, (s + 1) as nat) == padded(ds@, (s + 1) as nat),
            decreases s + 1 - ds.len(),
        {
            let ghost before = ds@;
            ds.insert(0, '0');
            assert(ds@ =~= seq!['0'] + before);
            assert(zeros((s + 1 - before.len()) as nat) + before =~= zeros(
                (s + 1 - ds@.len()) as nat,
            ) + ds@);
        }
        assert(padded(ds@, (s + 1) as nat) == ds@);
        let mut out: Vec<char> = Vec::new();
        if n.mantissa < 0 {
            out.push('-');
        }
        let cut = ds.len() - s;
        append_range(&mut out, &ds, 0, cut);
        if s > 0 {
            out.push('.');
        }
        append_range(&mut out, &ds, cut, ds.len());
        proof {
            if s > 0 {
                assert(with_point(ds@, s as nat) =~= ds@.subrange(0, cut as int) + seq!['.']
                    + ds@.subrange(cut as int, ds.len() as int));
            } else {
                assert(ds@.subrange(0, cut as int) + ds@.subrange(cut as int, ds.len() as int)
                    =~= ds@);
            }
            if n.mantissa < 0 {
                assert(out@ =~= seq!['-'] + with_point(ds@, s as nat));
            } else {
                assert(out@ =~= with_point(ds@, s as nat));
            }
        }
        out
    }
}

/// Whether `s` holds a decimal point.
pub open spec fn has_point(s: Seq<char>) -> bool {
    exists|i: int| 0 <= i < s.len() && s[i] == '.'
}

/// The digits of a number body read as one whole number, the point skipped.
pub open spec fn body_mantissa(s: Seq<char>) -> nat
    decreases s.len(),
{
    if s.len() == 0 {
        0
    } else if s.last() == '.' {
        body_mantissa(s.drop_last())
    } else {
        body_mantissa(s.drop_last()) * 10 + (s.last() as u32 - '0' as u32) as nat
    }
}

/// The count of digits after the point of a number body.
pub open spec fn body_scale(s: Seq<char>) -> nat
    decreases s.len(),
{
    if s.len() == 0 {
        0
    } else if s.last() == '.' {
        0
    } else if has_point(s.drop_last()) {
        body_scale(s.drop_last()) + 1
    } else {
        0
    }
}

/// Digits with at most one point, and at least one digit.
pub open spec fn is_number_body(s: Seq<char>) -> bool {
    &&& forall|i: int| 0 <= i < s.len() ==> is_digit(#[trigger] s[i]) || s[i] == '.'
    &&& forall|i: int, j: int| 0 <= i < j < s.len() ==> !(#[trigger] s[i] == '.' && #[trigger] s[j] == '.')
    &&& exists|i: int| 0 <= i < s.len() && is_digit(#[trigger] s[i])
}

pub open spec fn has_sign(s: Seq<char>) -> bool {
    s.len() > 0 && (s[0] == '+' || s[0] == '-')
}

/// The length of the sign of `s` (zero or one).
pub open spec fn sign_len(s: Seq<char>) -> int {
    if has_sign(s) {
        1
    } else {
        0
    }
}

/// The position of the first `e` or `E` in `s` from `i` (the length if none).
pub open spec fn exponent_at(s: Seq<char>, i: int) -> int
    decreases s.len() - i,
{
    if 0 <= i < s.len() && s[i] != 'e' && s[i] != 'E' {
        exponent_at(s, i + 1)
    } else {
        i
    }
}

/// The digits and point of a number text: after the sign, before the exponent.
pub open spec fn number_head(s: Seq<char>) -> Seq<char> {
    s.subrange(sign_len(s), exponent_at(s, sign_len(s)))
}

/// The exponent of a number text: zero without one; after `e` or `E` an
/// optional sign and digits whose value is at most `u32::MAX`; `None` otherwise.
pub open spec fn number_exponent(s: Seq<char>) -> Option<int> {
    let p = exponent_at(s, sign_len(s));
    if p >= s.len() {
        Some(0)
    } else {
        let t = s.subrange(p + 1, s.len() as int);
        let ds = t.subrange(sign_len(t), t.len() as int);
        if ds.len() > 0 && all_digits(ds) && digits_value(ds) <= u32::MAX {
            Some(
                if has_sign(t) && t[0] == '-' {
                    -(digits_value(ds) as int)
                } else {
                    digits_value(ds) as int
                },
            )
        } else {
            None
        }
    }
}

/// The signed mantissa that the digits of a number text spell.
pub open spec fn text_mantissa(s: Seq<char>) -> int {
    let m = body_mantissa(number_head(s));
    if has_sign(s) && s[0] == '-' {
        -m
    } else {
        m as int
    }
}

/// The number that the text `s` spells: an optional sign, digits with at most
/// one point, and an optional exponent (`e` or `E`, an optional sign, digits),
/// as `mantissa * 10^(exponent - fraction digits)`; `None` for any other text,
/// or where it leaves the range of `Decimal`.
pub open spec fn parsed_number(s: Seq<char>) -> Option<Decimal> {
    match number_exponent(s) {
        Some(e) => if !is_number_body(number_head(s)) {
            None
        } else {
            let m = text_mantissa(s);
            let sc = body_scale(number_head(s)) - e;
            if sc >= 0 {
                if fits(m) && sc <= u32::MAX {
                    Some(Decimal { mantissa: m as i128, scale: sc as u32 })
                } else {
                    None
                }
            } else if fits(m * pow10((-sc) as nat)) {
                Some(Decimal { mantissa: (m * pow10((-sc) as nat)) as i128, scale: 0 })
            } else {
                None
            }
        },
        None => None,
    }
}

/// The number that a text stands for in arithmetic: what it spells, else zero.
pub open spec fn number_value(s: Seq<char>) -> Decimal {
    match parsed_number(s) {
        Some(d) => d,
        None => Decimal { mantissa: 0, scale: 0 },
    }
}

proof fn lemma_mantissa_prefix(s: Seq<char>, k: int)
    requires
        0 <= k <= s.len(),
    ensures
        body_mantissa(s.subrange(0, k)) <= body_mantissa(s),
    decreases s.len() - k,
{
    if k < s.len() {
        lemma_mantissa_prefix(s, k + 1);
        let t = s.subrange(0, k + 1);
        assert(t.drop_last() =~= s.subrange(0, k));
    } else {
        assert(s.subrange(0, k) =~= s);
    }
}

/// Reads a number body: digits with at most one point.
fn parse_body(b: &Vec<char>, from: usize, to: usize) -> (r: Option<(u128, usize)>)
    requires
        from <= to <= b.len(),
    ensures
        ({
            let s = b@.subrange(from as int, to as int);
            match r {
                Some((m, k)) => is_number_body(s) && m == body_mantissa(s) && k == body_scale(s),
                None => !is_number_body(s) || body_mantissa(s) > u128::MAX,
            }
        }),
{
    let ghost s = b@.subrange(from as int, to as int);
    let mut mag: u128 = 0;
    let mut scale: usize = 0;
    let mut point = false;
    let ghost mut point_at: int = 0;
    let mut digit = false;
    let mut i = from;
    while i < to
        invariant
            from <= i <= to <= b.len(),
            s == b@.subrange(from as int, to as int),
            ({
                let t = s.subrange(0, i - from);
                &&& mag == body_mantissa(t)
                &&& scale == body_scale(t)
                &&& scale <= i - from
                &&& point == has_point(t)
                &&& point ==> 0 <= point_at < t.len() && t[point_at] == '.'
                &&& forall|j: int| 0 <= j < t.len() && t[j] == '.' ==> j == point_at
                &&& digit == (exists|j: int| 0 <= j < t.len() && is_digit(#[trigger] t[j]))
                &&& forall|j: int| 0 <= j < t.len() ==> is_digit(#[trigger] t[j]) || t[j] == '.'
            }),
        decreases to - i,
    {
        let c = b[i];
        let ghost t = s.subrange(0, i - from);
        let ghost t1 = s.subrange(0, i + 1 - from);
        assert(t1.drop_last() =~= t);
        assert(t1.last() == c);
        assert(forall|j: int| 0 <= j < t.len() ==> t1[j] == t[j]);
        if c == '.' {
            if point {
                assert(t1[point_at] == '.' && t1[i - from] == '.');
                assert(s[point_at] == '.' && s[i - from] == '.');
                return None;
            }
            point = true;
            proof {
                point_at = i - from;
            }
            assert(has_point(t1));
        } else if '0' <= c && c <= '9' {
            let d = (c as u32 - '0' as u32) as u128;
            proof {
                lemma_mantissa_prefix(s, i + 1 - from);
            }
            let m1 = match mag.checked_mul(10) {
                Some(x) => x,
                None => {
                    return None;
                },
            };
            mag = match m1.checked_add(d) {
                Some(x) => x,
                None => {
                    return None;
                },
            };
            if point {
                scale = scale + 1;
                assert(has_point(t));
            } else {
                assert(!has_point(t1)) by {
                    if has_point(t1) {
                        let j = choose|j: int| 0 <= j < t1.len() && t1[j] == '.';
                        assert(j < t.len());
                        assert(t[j] == '.');
                    }
                }
            }
            digit = true;
            assert(is_digit(t1[i - from]));
        } else {
            assert(!is_digit(s[i - from]) && s[i - from] != '.');
            return None;
        }
        i += 1;
    }
    assert(s.subrange(0, i - from) =~= s);
    if !digit {
        return None;
    }
    Some((mag, scale))
}

/// The number that the characters spell, as `parsed_number` gives it.
pub fn parse_number(s: &Vec<char>) -> (r: Option<Decimal>)
    ensures
        r == parsed_number(s@),
{
    let signed = s.len() > 0 && (s[0] == '+' || s[0] == '-');
    let negative = signed && s[0] == '-';
    let from: usize = if signed { 1 } else { 0 };
    let mut p = from;
    while p < s.len() && s[p] != 'e' && s[p] != 'E'
        invariant
            from <= p <= s.len(),
            from == sign_len(s@),
            exponent_at(s@, from as int) == exponent_at(s@, p as int),
        decreases s.len() - p,
    {
        p += 1;
    }
    assert(exponent_at(s@, p as int) == p as int);
    assert(number_head(s@) =~= s@.subrange(from as int, p as int));
    let (mag, scale) = match parse_body(s, from, p) {
        Some(x) => x,
        None => {
            proof {
                let head = number_head(s@);
                if is_number_body(head) {
                    match number_exponent(s@) {
                        Some(e) => {
                            let sc = body_scale(head) - e;
                            if sc < 0 {
                                lemma_pow10_positive((-sc) as nat);
                                lemma_not_fits_grows(text_mantissa(s@), pow10((-sc) as nat));
                            }
                        },
                        None => {},
                    }
                }
            }
            return None;
        },
    };
    let e: i128 = if p >= s.len() {
        0
    } else {
        let ghost t = s@.subrange(p + 1, s.len() as int);
        let q0 = p + 1;
        let esigned = q0 < s.len() && (s[q0] == '+' || s[q0] == '-');
        let eneg = esigned && s[q0] == '-';
        let q = if esigned { q0 + 1 } else { q0 };
        assert(t.subrange(sign_len(t), t.len() as int) =~= s@.subrange(q as int, s.len() as int));
        if q >= s.len() {
            return None;
        }
        let mut j = q;
        assert(!all_digits(s@.subrange(q as int, s.len() as int)) ==> number_exponent(s@) is None);
        while j < s.len()
            invariant
                q <= j <= s.len(),
                all_digits(s@.subrange(q as int, j as int)),
                !all_digits(s@.subrange(q as int, s.len() as int)) ==> number_exponent(s@) is None,
            decreases s.len() - j,
        {
            if !('0' <= s[j] && s[j] <= '9') {
                assert(!is_digit(s@.subrange(q as int, s.len() as int)[j - q]));
                return None;
            }
            proof {
                lemma_all_digits_push(s@.subrange(q as int, j as int), s@[j as int]);
                assert(s@.subrange(q as int, j + 1) =~= s@.subrange(q as int, j as int).push(
                    s@[j as int],
                ));
            }
            j += 1;
        }
        let v = match parse_usize(s, q, s.len()) {
            Some(v) => v,
            None => {
                return None;
            },
        };
        if v > u32::MAX as usize {
            return None;
        }
        if eneg {
            -(v as i128)
        } else {
            v as i128
        }
    };
    let m: i128 = if negative {
        if mag > 170141183460469231731687303715884105728u128 {
            proof {
                lemma_pow10_positive((e - scale) as nat);
                lemma_not_fits_grows(text_mantissa(s@), pow10((e - scale) as nat));
            }
            return None;
        }
        if mag == 170141183460469231731687303715884105728u128 {
            i128::MIN
        } else {
            -(mag as i128)
        }
    } else {
        if mag > 170141183460469231731687303715884105727u128 {
            proof {
                lemma_pow10_positive((e - scale) as nat);
                lemma_not_fits_grows(text_mantissa(s@), pow10((e - scale) as nat));
            }
            return None;
        }
        mag as i128
    };
    let sc: i128 = scale as i128 - e;
    if sc >= 0 {
        if sc > u32::MAX as i128 {
            return None;
        }
        Some(Decimal { mantissa: m, scale: sc as u32 })
    } else {
        let k = (-sc) as u32;
        match scale_up(m, k) {
            Some(x) => Some(Decimal { mantissa: x, scale: 0 }),
            None => None,
        }
    }
}

} // verus!
