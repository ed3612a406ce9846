use vstd::prelude::*;
use vstd::string::StringExecFns;
use crate::chars::{check_is_digit, chars_of, is_digit};

verus! {

pub open spec fn fits64(x: int) -> bool {
    i64::MIN <= x <= i64::MAX
}

pub open spec fn abs(x: int) -> nat {
    if x < 0 {
        (-x) as nat
    } else {
        x as nat
    }
}

pub open spec fn gcd(a: nat, b: nat) -> nat
    decreases b,
{
    if b == 0 {
        a
    } else {
        gcd(b, a % b)
    }
}

pub proof fn lemma_gcd_bounds(a: nat, b: nat)
    requires
        b > 0,
    ensures
        0 < gcd(a, b) <= b,
    decreases b,
{
    assert(a % b < b);
    if a % b != 0 {
        lemma_gcd_bounds(b, a % b);
    } else {
        assert(gcd(b, 0) == b);
    }
}

pub proof fn lemma_gcd_le_first(a: nat, b: nat)
    requires
        a > 0,
    ensures
        gcd(a, b) <= a,
    decreases b,
{
    if b > 0 {
        let r = a % b;
        if r == 0 {
            assert(gcd(b, 0) == b);
            assert(b <= a) by (nonlinear_arith)
                requires
                    a % b == 0,
                    a > 0,
                    b > 0,
            ;
        } else {
            lemma_gcd_bounds(b, r);
            assert(r <= a) by (nonlinear_arith)
                requires
                    r == a % b,
                    a > 0,
                    b > 0,
            ;
        }
    }
}

/// Negating a positive number gives a negative one.
pub proof fn lemma_neg_positive(n: int, d: int)
    requires
        0 < n <= i64::MAX,
        0 < d <= i64::MAX,
    ensures
        neg_spec((n, d)) is Some,
        neg_spec((n, d))->Some_0.0 < 0,
        neg_spec((n, d))->Some_0.1 > 0,
{
    let g = gcd(abs(-n), abs(d));
    lemma_gcd_bounds(abs(-n), abs(d));
    lemma_gcd_le_first(abs(-n), abs(d));
    assert(n / (g as int) >= 1 && n / (g as int) <= n) by (nonlinear_arith)
        requires
            0 < g <= n,
    ;
    assert(d / (g as int) >= 1 && d / (g as int) <= d) by (nonlinear_arith)
        requires
            0 < g <= d,
    ;
}

/// `n / d` in lowest terms, the sign on the numerator.
pub open spec fn normalize(n: int, d: int) -> (int, int) {
    let g = gcd(abs(n), abs(d));
    if g == 0 {
        (n, d)
    } else if n < 0 {
        (-((abs(n) / g) as int), (abs(d) / g) as int)
    } else {
        ((abs(n) / g) as int, (abs(d) / g) as int)
    }
}

/// The number `n / d` (with `d > 0`) as it is stored: in lowest terms, or
/// nothing where a part of that form leaves the 64-bit range.
pub open spec fn make(n: int, d: int) -> Option<(int, int)> {
    let r = normalize(n, d);
    if fits64(r.0) && fits64(r.1) {
        Some(r)
    } else {
        None
    }
}

pub open spec fn add_spec(x: (int, int), y: (int, int)) -> Option<(int, int)> {
    make(x.0 * y.1 + y.0 * x.1, x.1 * y.1)
}

pub open spec fn sub_spec(x: (int, int), y: (int, int)) -> Option<(int, int)> {
    make(x.0 * y.1 - y.0 * x.1, x.1 * y.1)
}

pub open spec fn mul_spec(x: (int, int), y: (int, int)) -> Option<(int, int)> {
    make(x.0 * y.0, x.1 * y.1)
}

/// Quotient by a non-zero divisor.
pub open spec fn div_spec(x: (int, int), y: (int, int)) -> Option<(int, int)> {
    if y.0 > 0 {
        make(x.0 * y.1, x.1 * y.0)
    } else {
        make(-(x.0 * y.1), -(x.1 * y.0))
    }
}

pub open spec fn neg_spec(x: (int, int)) -> Option<(int, int)> {
    make(-x.0, x.1)
}

/// An exact number `num / den`, kept in lowest terms with `den > 0`.
#[derive(Clone, Copy, Debug, PartialEq, Eq, Structural)]
pub struct NumericalObj {
    pub num: i64,
    pub den: i64,
}

impl View for NumericalObj {
    type V = (int, int);

    open spec fn view(&self) -> (int, int) {
        (self.num as int, self.den as int)
    }
}

pub open spec fn opt_view(r: Option<NumericalObj>) -> Option<(int, int)> {
    match r {
        Some(v) => Some(v@),
        None => None,
    }
}

pub open spec fn opt_wf(r: Option<NumericalObj>) -> bool {
    match r {
        Some(v) => v.wf(),
        None => true,
    }
}

const P126: i128 = 0x4000_0000_0000_0000_0000_0000_0000_0000;

proof fn lemma_mul_bound(a: int, b: int)
    requires
        fits64(a),
        fits64(b),
    ensures
        -P126 <= a * b <= P126,
{
    assert(-0x8000_0000_0000_0000 <= a <= 0x7fff_ffff_ffff_ffff);
    assert(-0x8000_0000_0000_0000 <= b <= 0x7fff_ffff_ffff_ffff);
    assert(-0x4000_0000_0000_0000_0000_0000_0000_0000 <= a * b <= 0x4000_0000_0000_0000_0000_0000_0000_0000)
        by (nonlinear_arith)
        requires
            -0x8000_0000_0000_0000 <= a <= 0x7fff_ffff_ffff_ffff,
            -0x8000_0000_0000_0000 <= b <= 0x7fff_ffff_ffff_ffff,
    ;
}

proof fn lemma_mul_bound_pos(a: int, b: int)
    requires
        fits64(a),
        1 <= b <= i64::MAX,
    ensures
        -P126 < a * b < P126,
{
    assert(-0x4000_0000_0000_0000_0000_0000_0000_0000 < a * b < 0x4000_0000_0000_0000_0000_0000_0000_0000)
        by (nonlinear_arith)
        requires
            -0x8000_0000_0000_0000 <= a <= 0x7fff_ffff_ffff_ffff,
            1 <= b <= 0x7fff_ffff_ffff_ffff,
    ;
}

proof fn lemma_pos_mul(a: int, b: int)
    requires
        a > 0,
        b > 0,
    ensures
        a * b > 0,
{
    assert(a * b > 0) by (nonlinear_arith)
        requires
            a > 0,
            b > 0,
    ;
}

fn gcd_exec(a: i128, b: i128) -> (r: i128)
    requires
        a >= 0,
        b >= 0,
    ensures
        r == gcd(a as nat, b as nat),
{
    let mut x = a;
    let mut y = b;
    while y != 0
        invariant
            x >= 0,
            y >= 0,
            gcd(x as nat, y as nat) == gcd(a as nat, b as nat),
        decreases y,
    {
        let t = x % y;
        x = y;
        y = t;
    }
    x
}

/// Stores `n / d` in lowest terms, or gives nothing where that leaves the
/// 64-bit range.
fn make_exec(n: i128, d: i128) -> (r: Option<NumericalObj>)
    requires
        n > i128::MIN,
        d > 0,
    ensures
        opt_view(r) == make(n as int, d as int),
        opt_wf(r),
{
    let a = if n < 0 { -n } else { n };
    let g = gcd_exec(a, d);
    proof {
        lemma_gcd_bounds(abs(n as int), abs(d as int));
    }
    let q = a / g;
    let e = d / g;
    proof {
        assert(e > 0) by (nonlinear_arith)
            requires
                e == d / g,
                0 < g <= d,
        ;
    }
    let m = if n < 0 { -q } else { q };
    if m < i64::MIN as i128 || m > i64::MAX as i128 || e > i64::MAX as i128 {
        None
    } else {
        Some(NumericalObj { num: m as i64, den: e as i64 })
    }
}

impl NumericalObj {
    pub open spec fn wf(&self) -> bool {
        self.den > 0
    }

    /// The whole number `n`.
    pub fn from_int(n: i64) -> (r: Self)
        ensures
            r@ == (n as int, 1int),
            r.wf(),
    {
        NumericalObj { num: n, den: 1 }
    }

    pub fn is_zero(&self) -> (r: bool)
        ensures
            r == (self.num == 0),
    {
        self.num == 0
    }

    /// Whether the sign is positive; zero counts as positive.
    pub fn is_sign_positive(&self) -> (r: bool)
        ensures
            r == (self.num >= 0),
    {
        self.num >= 0
    }

    pub fn add(&self, o: &Self) -> (r: Option<Self>)
        requires
            self.wf(),
            o.wf(),
        ensures
            opt_view(r) == add_spec(self@, o@),
            opt_wf(r),
    {
        proof {
            lemma_mul_bound_pos(self.num as int, o.den as int);
            lemma_mul_bound_pos(o.num as int, self.den as int);
            lemma_mul_bound(self.den as int, o.den as int);
            lemma_pos_mul(self.den as int, o.den as int);
        }
        let n = (self.num as i128) * (o.den as i128) + (o.num as i128) * (self.den as i128);
        let d = (self.den as i128) * (o.den as i128);
        make_exec(n, d)
    }

    pub fn sub(&self, o: &Self) -> (r: Option<Self>)
        requires
            self.wf(),
            o.wf(),
        ensures
            opt_view(r) == sub_spec(self@, o@),
            opt_wf(r),
    {
        proof {
            lemma_mul_bound_pos(self.num as int, o.den as int);
            lemma_mul_bound_pos(o.num as int, self.den as int);
            lemma_mul_bound(self.den as int, o.den as int);
            lemma_pos_mul(self.den as int, o.den as int);
        }
        let n = (self.num as i128) * (o.den as i128) - (o.num as i128) * (self.den as i128);
        let d = (self.den as i128) * (o.den as i128);
        make_exec(n, d)
    }

    pub fn mul(&self, o: &Self) -> (r: Option<Self>)
        requires
            self.wf(),
            o.wf(),
        ensures
            opt_view(r) == mul_spec(self@, o@),
            opt_wf(r),
    {
        proof {
            lemma_mul_bound(self.num as int, o.num as int);
            lemma_mul_bound(self.den as int, o.den as int);
            lemma_pos_mul(self.den as int, o.den as int);
        }
        let n = (self.num as i128) * (o.num as i128);
        let d = (self.den as i128) * (o.den as i128);
        make_exec(n, d)
    }

    /// Quotient by a non-zero number.
    pub fn div(&self, o: &Self) -> (r: Option<Self>)
        requires
            self.wf(),
            o.wf(),
            o.num != 0,
        ensures
            opt_view(r) == div_spec(self@, o@),
            opt_wf(r),
    {
        proof {
            lemma_mul_bound_pos(self.num as int, o.den as int);
            lemma_mul_bound_pos(o.num as int, self.den as int);
            let (a, b) = (self.den as int, o.num as int);
            assert(b > 0 ==> a * b > 0) by (nonlinear_arith)
                requires
                    a > 0,
            ;
            assert(b < 0 ==> a * b < 0) by (nonlinear_arith)
                requires
                    a > 0,
            ;
        }
        let n = (self.num as i128) * (o.den as i128);
        let d = (self.den as i128) * (o.num as i128);
        if o.num > 0 {
            make_exec(n, d)
        } else {
            make_exec(-n, -d)
        }
    }

    /// The decimal form of this number.
    pub fn render(&self) -> (r: String)
        requires
            self.wf(),
        ensures
            r@ == render_number(self@),
    {
        let mut out = String::new();
        if self.num < 0 {
            out.append("-");
            proof {
                reveal_strlit("-");
            }
        }
        let a: u64 = if self.num < 0 {
            ((-((self.num + 1) as i128)) + 1) as u64
        } else {
            self.num as u64
        };
        let d = self.den as u64;
        assert(a == abs(self.num as int));
        let ghost sign = out@;
        push_decimal(&mut out, a / d);
        let ghost whole = out@;
        let r = a % d;
        if r != 0 {
            out.append(".");
            proof {
                reveal_strlit(".");
            }
            let ghost before = out@;
            let mut rem: u64 = r;
            let mut k: u64 = FRACTION_DIGITS;
            while rem != 0 && k != 0
                invariant
                    rem < d,
                    d == self.den,
                    d > 0,
                    k <= FRACTION_DIGITS,
                    out@ + frac_digits(rem as nat, d as nat, k as nat) == before + frac_digits(
                        r as nat,
                        d as nat,
                        FRACTION_DIGITS as nat,
                    ),
                decreases k,
            {
                let t = (rem as u128) * 10;
                proof {
                    let (rr, dd) = (rem as int, d as int);
                    assert((rr * 10) / dd < 10) by (nonlinear_arith)
                        requires
                            0 <= rr < dd,
                    ;
                }
                let q = (t / (d as u128)) as u64;
                let ghost prev = out@;
                out.append(digit_str(q));
                assert(out@ + frac_digits(((rem as nat) * 10) % (d as nat), d as nat, (k - 1) as nat)
                    =~= prev + frac_digits(rem as nat, d as nat, k as nat));
                rem = (t % (d as u128)) as u64;
                k = k - 1;
            }
            assert(out@ =~= whole + (seq!['.'] + frac_digits(r as nat, d as nat, FRACTION_DIGITS as nat)));
        }
        assert(out@ =~= render_number(self@));
        out
    }

    pub fn neg(&self) -> (r: Option<Self>)
        requires
            self.wf(),
        ensures
            opt_view(r) == neg_spec(self@),
            opt_wf(r),
    {
        make_exec(-(self.num as i128), self.den as i128)
    }
}

/// Most digits written after the point of a number that has a fraction.
pub const FRACTION_DIGITS: u64 = 16;

pub open spec fn digit_char(d: int) -> char {
    "0123456789"@[d]
}

/// Decimal digits of `n`, most significant first.
pub open spec fn int_digits(n: nat) -> Seq<char>
    decreases n,
{
    if n < 10 {
        seq![digit_char(n as int)]
    } else {
        int_digits(n / 10).push(digit_char((n % 10) as int))
    }
}

/// The first `k` digits after the point of `r / d` (with `r < d`), stopping
/// early where the rest is zero.
pub open spec fn frac_digits(r: nat, d: nat, k: nat) -> Seq<char>
    decreases k,
{
    if r == 0 || k == 0 || d == 0 {
        Seq::empty()
    } else {
        seq![digit_char((r * 10 / d) as int)] + frac_digits((r * 10) % d, d, (k - 1) as nat)
    }
}

/// The decimal form of `n / d`: a `-` for a negative number, the whole part,
/// and where there is a fraction, a point and up to sixteen of its digits.
pub open spec fn render_number(x: (int, int)) -> Seq<char> {
    let a = abs(x.0);
    let d = abs(x.1);
    let sign = if x.0 < 0 {
        seq!['-']
    } else {
        Seq::empty()
    };
    let rest = if d == 0 || a % d == 0 {
        Seq::empty()
    } else {
        seq!['.'] + frac_digits(a % d, d, FRACTION_DIGITS as nat)
    };
    sign + int_digits(if d == 0 { a } else { a / d }) + rest
}

fn digit_str(d: u64) -> (r: &'static str)
    requires
        d < 10,
    ensures
        r@ == seq![digit_char(d as int)],
{
    let digits = "0123456789";
    proof {
        reveal_strlit("0123456789");
    }
    let r = digits.substring_char(d as usize, (d + 1) as usize);
    assert(r@ =~= seq![digit_char(d as int)]);
    r
}

/// Appends the decimal digits of `n`.
pub fn push_decimal(out: &mut String, n: u64)
    ensures
        final(out)@ == old(out)@ + int_digits(n as nat),
    decreases n,
{
    if n >= 10 {
        push_decimal(out, n / 10);
    }
    out.append(digit_str(n % 10));
    assert(final(out)@ =~= old(out)@ + int_digits(n as nat));
}

/// Why the text of a numeric literal gives no number.
#[derive(Clone, Copy, Debug, PartialEq, Eq, Structural)]
pub enum LiteralError {
    /// A character other than the digits, `_` and one `.` of a fraction.
    Malformed,
    /// The number does not fit the 64-bit parts of a stored number.
    OutOfRange,
}

pub open spec fn digit_or_sep(c: char) -> bool {
    is_digit(c) || c == '_'
}

pub open spec fn digit_value(c: char) -> int {
    (c as u32) as int - ('0' as u32) as int
}

/// The number that the digits of `s` write, read left to right; any other
/// character is passed over.
pub open spec fn digits_value(s: Seq<char>) -> int
    decreases s.len(),
{
    if s.len() == 0 {
        0
    } else if is_digit(s.last()) {
        digits_value(s.drop_last()) * 10 + digit_value(s.last())
    } else {
        digits_value(s.drop_last())
    }
}

/// How many digits `s` holds.
pub open spec fn count_digits(s: Seq<char>) -> nat
    decreases s.len(),
{
    if s.len() == 0 {
        0
    } else if is_digit(s.last()) {
        count_digits(s.drop_last()) + 1
    } else {
        count_digits(s.drop_last())
    }
}

pub open spec fn pow10(k: nat) -> int
    decreases k,
{
    if k == 0 {
        1
    } else {
        10 * pow10((k - 1) as nat)
    }
}

pub open spec fn is_integer_text(s: Seq<char>) -> bool {
    forall|i: int| 0 <= i < s.len() ==> #[trigger] digit_or_sep(s[i])
}

/// `p` is the one `.` of `s`, and every other character is a digit or `_`.
pub open spec fn is_point_of(s: Seq<char>, p: int) -> bool {
    &&& 0 <= p < s.len()
    &&& s[p] == '.'
    &&& forall|i: int| 0 <= i < s.len() && i != p ==> #[trigger] digit_or_sep(s[i])
}

pub open spec fn is_fraction_text(s: Seq<char>) -> bool {
    exists|p: int| is_point_of(s, p)
}

pub open spec fn point_of(s: Seq<char>) -> int {
    choose|p: int| is_point_of(s, p)
}

/// The value of an integer literal: its digits, `_` passed over.
pub open spec fn integer_literal(s: Seq<char>) -> Result<(int, int), LiteralError> {
    if !is_integer_text(s) {
        Err(LiteralError::Malformed)
    } else if digits_value(s) > i64::MAX {
        Err(LiteralError::OutOfRange)
    } else {
        Ok((digits_value(s), 1))
    }
}

/// The value of a fractional literal `a.b`: the digits of `a` and `b` read as
/// one number over ten to the power of the count of digits of `b`, in lowest
/// terms.
pub open spec fn fraction_literal(s: Seq<char>) -> Result<(int, int), LiteralError> {
    if !is_fraction_text(s) {
        Err(LiteralError::Malformed)
    } else {
        let n = digits_value(s);
        let d = pow10(count_digits(s.subrange(point_of(s) + 1, s.len() as int)));
        if n > i64::MAX || d > i64::MAX {
            Err(LiteralError::OutOfRange)
        } else {
            match make(n, d) {
                Some(v) => Ok(v),
                None => Err(LiteralError::OutOfRange),
            }
        }
    }
}

pub open spec fn literal_view(r: Result<NumericalObj, LiteralError>) -> Result<(int, int), LiteralError> {
    match r {
        Ok(v) => Ok(v@),
        Err(e) => Err(e),
    }
}

proof fn lemma_digits_value_step(s: Seq<char>, i: int)
    requires
        0 <= i < s.len(),
    ensures
        digits_value(s.take(i + 1)) == if is_digit(s[i]) {
            digits_value(s.take(i)) * 10 + digit_value(s[i])
        } else {
            digits_value(s.take(i))
        },
        count_digits(s.take(i + 1)) == if is_digit(s[i]) {
            count_digits(s.take(i)) + 1
        } else {
            count_digits(s.take(i))
        },
{
    assert(s.take(i + 1).drop_last() =~= s.take(i));
}

proof fn lemma_digits_value_nonneg(s: Seq<char>)
    ensures
        digits_value(s) >= 0,
    decreases s.len(),
{
    if s.len() > 0 {
        lemma_digits_value_nonneg(s.drop_last());
    }
}

/// Reading more characters never makes the number smaller.
proof fn lemma_digits_value_grows(s: Seq<char>, i: int)
    requires
        0 <= i <= s.len(),
    ensures
        digits_value(s.take(i)) <= digits_value(s),
    decreases s.len() - i,
{
    if i < s.len() {
        lemma_digits_value_step(s, i);
        lemma_digits_value_nonneg(s.take(i));
        lemma_digits_value_grows(s, i + 1);
    } else {
        assert(s.take(i) =~= s);
    }
}

proof fn lemma_pow10_grows(a: nat, b: nat)
    requires
        a <= b,
    ensures
        1 <= pow10(a) <= pow10(b),
    decreases b,
{
    if b == 0 {
    } else if a == b {
        lemma_pow10_grows(0, (b - 1) as nat);
    } else {
        lemma_pow10_grows(a, (b - 1) as nat);
    }
}

proof fn lemma_count_digits_grows(s: Seq<char>, i: int)
    requires
        0 <= i <= s.len(),
    ensures
        count_digits(s.take(i)) <= count_digits(s),
    decreases s.len() - i,
{
    if i < s.len() {
        lemma_digits_value_step(s, i);
        lemma_count_digits_grows(s, i + 1);
    } else {
        assert(s.take(i) =~= s);
    }
}

/// `s` with its `_` separators taken out.
pub open spec fn strip_separators(s: Seq<char>) -> Seq<char>
    decreases s.len(),
{
    if s.len() == 0 {
        s
    } else if s.last() == '_' {
        strip_separators(s.drop_last())
    } else {
        strip_separators(s.drop_last()).push(s.last())
    }
}

proof fn lemma_digits_value_strip(s: Seq<char>)
    ensures
        digits_value(strip_separators(s)) == digits_value(s),
    decreases s.len(),
{
    if s.len() > 0 {
        lemma_digits_value_strip(s.drop_last());
        if s.last() != '_' {
            assert(strip_separators(s).drop_last() =~= strip_separators(s.drop_last()));
        }
    }
}

/// An integer literal reads the same with `_` separators put between its
/// digits as without them.
pub proof fn lemma_separators_keep_value(plain: Seq<char>, separated: Seq<char>)
    requires
        forall|i: int| 0 <= i < plain.len() ==> #[trigger] is_digit(plain[i]),
        is_integer_text(separated),
        strip_separators(separated) == plain,
    ensures
        integer_literal(plain) == integer_literal(separated),
{
    lemma_digits_value_strip(separated);
    assert(is_integer_text(plain)) by {
        assert forall|i: int| 0 <= i < plain.len() implies #[trigger] digit_or_sep(plain[i]) by {
            assert(is_digit(plain[i]));
        }
    }
}

/// The number that the digits of `s[from..to]` write; `None` once it passes
/// the 64-bit range.
fn digits_in(s: &Vec<char>, from: usize, to: usize) -> (r: Option<i64>)
    requires
        from <= to <= s.len(),
    ensures
        ({
            let t = s@.subrange(from as int, to as int);
            match r {
                Some(n) => n == digits_value(t),
                None => digits_value(t) > i64::MAX,
            }
        }),
{
    let ghost t = s@.subrange(from as int, to as int);
    let mut n: i64 = 0;
    let mut i: usize = from;
    proof {
        assert(t.take(0) =~= Seq::<char>::empty());
    }
    while i < to
        invariant
            from <= i <= to <= s.len(),
            t == s@.subrange(from as int, to as int),
            n == digits_value(t.take(i - from)),
            0 <= n,
        decreases to - i,
    {
        let c = s[i];
        proof {
            lemma_digits_value_step(t, i - from);
            assert(t[i - from] == c);
        }
        if check_is_digit(c) {
            let v = (c as u32 - '0' as u32) as i64;
            if n > (i64::MAX - v) / 10 {
                proof {
                    lemma_digits_value_grows(t, i - from + 1);
                }
                return None;
            }
            n = n * 10 + v;
        }
        i = i + 1;
    }
    proof {
        assert(t.take(to - from) =~= t);
    }
    Some(n)
}

/// Ten to the power of the count of digits of `s[from..to]`; `None` once it
/// passes the 64-bit range.
fn scale_of(s: &Vec<char>, from: usize, to: usize) -> (r: Option<i64>)
    requires
        from <= to <= s.len(),
    ensures
        ({
            let t = s@.subrange(from as int, to as int);
            match r {
                Some(d) => d == pow10(count_digits(t)),
                None => pow10(count_digits(t)) > i64::MAX,
            }
        }),
{
    let ghost t = s@.subrange(from as int, to as int);
    let mut d: i64 = 1;
    let mut i: usize = from;
    proof {
        assert(t.take(0) =~= Seq::<char>::empty());
    }
    while i < to
        invariant
            from <= i <= to <= s.len(),
            t == s@.subrange(from as int, to as int),
            d == pow10(count_digits(t.take(i - from))),
            1 <= d,
        decreases to - i,
    {
        let c = s[i];
        proof {
            lemma_digits_value_step(t, i - from);
            assert(t[i - from] == c);
        }
        if check_is_digit(c) {
            if d > i64::MAX / 10 {
                proof {
                    lemma_count_digits_grows(t, i - from + 1);
                    lemma_pow10_grows(count_digits(t.take(i - from + 1)), count_digits(t));
                }
                return None;
            }
            d = d * 10;
        }
        i = i + 1;
    }
    proof {
        assert(t.take(to - from) =~= t);
    }
    Some(d)
}

impl NumericalObj {
    /// The value of an integer literal such as `1_000`: `_` separators are
    /// passed over.
    pub fn from_integer_literal(text: &str) -> (r: Result<Self, LiteralError>)
        ensures
            literal_view(r) == integer_literal(text@),
            r is Ok ==> r->Ok_0.wf(),
    {
        let s = chars_of(text);
        assert(s@.subrange(0, s.len() as int) =~= text@);
        Self::integer_literal_in(&s, 0, s.len())
    }

    /// The value of the integer literal `s[from..to]`.
    pub fn integer_literal_in(s: &Vec<char>, from: usize, to: usize) -> (r: Result<
        Self,
        LiteralError,
    >)
        requires
            from <= to <= s.len(),
        ensures
            literal_view(r) == integer_literal(s@.subrange(from as int, to as int)),
            r is Ok ==> r->Ok_0.wf(),
    {
        let ghost t = s@.subrange(from as int, to as int);
        let mut i: usize = from;
        while i < to
            invariant
                from <= i <= to <= s.len(),
                t == s@.subrange(from as int, to as int),
                forall|j: int| 0 <= j < i - from ==> #[trigger] digit_or_sep(t[j]),
            decreases to - i,
        {
            let c = s[i];
            assert(t[i - from] == c);
            if !(check_is_digit(c) || c == '_') {
                assert(!digit_or_sep(t[i - from]));
                return Err(LiteralError::Malformed);
            }
            i = i + 1;
        }
        match digits_in(s, from, to) {
            Some(n) => Ok(NumericalObj { num: n, den: 1 }),
            None => Err(LiteralError::OutOfRange),
        }
    }

    /// The value of a fractional literal such as `3.14`: `_` separators are
    /// passed over.
    pub fn from_fraction_literal(text: &str) -> (r: Result<Self, LiteralError>)
        ensures
            literal_view(r) == fraction_literal(text@),
            r is Ok ==> r->Ok_0.wf(),
    {
        let s = chars_of(text);
        assert(s@.subrange(0, s.len() as int) =~= text@);
        Self::fraction_literal_in(&s, 0, s.len())
    }

    /// The value of the fractional literal `s[from..to]`.
    pub fn fraction_literal_in(s: &Vec<char>, from: usize, to: usize) -> (r: Result<
        Self,
        LiteralError,
    >)
        requires
            from <= to <= s.len(),
        ensures
            literal_view(r) == fraction_literal(s@.subrange(from as int, to as int)),
            r is Ok ==> r->Ok_0.wf(),
    {
        let ghost t = s@.subrange(from as int, to as int);
        let mut i: usize = from;
        let mut point: Option<usize> = None;
        while i < to
            invariant
                from <= i <= to <= s.len(),
                t == s@.subrange(from as int, to as int),
                match point {
                    None => forall|j: int| 0 <= j < i - from ==> #[trigger] digit_or_sep(t[j]),
                    Some(p) => from <= p < i && t[p - from] == '.' && forall|j: int|
                        0 <= j < i - from && j != p - from ==> #[trigger] digit_or_sep(t[j]),
                },
            decreases to - i,
        {
            let c = s[i];
            assert(t[i - from] == c);
            if c == '.' {
                if point.is_some() {
                    proof {
                        let p = point->Some_0 - from;
                        assert forall|q: int| !is_point_of(t, q) by {
                            if is_point_of(t, q) {
                                if q == p {
                                    assert(digit_or_sep(t[i - from]));
                                } else {
                                    assert(digit_or_sep(t[p]));
                                }
                            }
                        }
                    }
                    return Err(LiteralError::Malformed);
                }
                point = Some(i);
            } else if !(check_is_digit(c) || c == '_') {
                proof {
                    assert forall|q: int| !is_point_of(t, q) by {
                        if is_point_of(t, q) {
                            assert(digit_or_sep(t[i - from]));
                        }
                    }
                }
                return Err(LiteralError::Malformed);
            }
            i = i + 1;
        }
        let p = match point {
            None => {
                proof {
                    assert forall|q: int| !is_point_of(t, q) by {
                        if is_point_of(t, q) {
                            assert(digit_or_sep(t[q]));
                        }
                    }
                }
                return Err(LiteralError::Malformed);
            },
            Some(p) => p,
        };
        proof {
            assert(is_point_of(t, p - from));
            assert(point_of(t) == p - from) by {
                let q = point_of(t);
                if q != p - from {
                    assert(digit_or_sep(t[p - from]));
                }
            }
            assert(t.subrange(p - from + 1, t.len() as int) =~= s@.subrange(p + 1, to as int));
        }
        let whole = digits_in(s, from, to);
        let scale = scale_of(s, p + 1, to);
        match (whole, scale) {
            (Some(n), Some(d)) => {
                proof {
                    lemma_pow10_grows(0, count_digits(s@.subrange(p + 1, to as int)));
                    lemma_digits_value_nonneg(t);
                }
                match make_exec(n as i128, d as i128) {
                    Some(v) => Ok(v),
                    None => Err(LiteralError::OutOfRange),
                }
            },
            _ => Err(LiteralError::OutOfRange),
        }
    }
}

} // verus!
