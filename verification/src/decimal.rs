//! Quantities as ffmpeg and ffprobe print them: durations, speeds, sizes and
//! rates. They have the range and the precision of 64-bit floating point numbers:
//! what is read, and what each step of a calculation gives, is the nearest such
//! number. Each is held exactly, as a decimal fraction, so what is shown is the
//! correctly rounded value of what was calculated.
use vstd::prelude::*;
use crate::natural::{
    lemma_pow10_parts, lemma_pow10_positive, lemma_pow2_positive, lemma_pow2_sum,
    lemma_pow5_positive, pow10, pow2, pow5, Natural,
};
use crate::number::{all_digits, dec, dec_is_its_value, is_digit, number_of, push_dec, value};
use crate::text::{ascii_lower, chars_are, find_char, find_from, string_of, sub_chars, to_lower};

verus! {

/// What a quantity is worth.
pub enum Quantity {
    NotANumber,
    Infinite { neg: bool },
    /// `num` divided by ten to the `scale`, negated where `neg` holds.
    Finite { neg: bool, num: int, scale: int },
}

/// A quantity.
pub enum Decimal {
    NotANumber,
    Infinite { neg: bool },
    Finite { neg: bool, num: Natural, scale: u128 },
}

/// No quantity has more decimal places than this.
pub const SCALE_BOUND: u128 = 1074;

/// Zero.
pub open spec fn zero() -> Quantity {
    Quantity::Finite { neg: false, num: 0, scale: 0 }
}

/// One.
pub open spec fn one() -> Quantity {
    Quantity::Finite { neg: false, num: 1, scale: 0 }
}

// ---------------------------------------------------------------- rounding
/// `n / d` rounded to a whole number, halves to the even neighbour.
pub open spec fn half_even(n: int, d: int) -> int {
    let q = n / d;
    let r = n % d;
    if 2 * r < d || (2 * r == d && q % 2 == 0) {
        q
    } else {
        q + 1
    }
}

/// The smallest shift from `k` on at which `n / d` has no more than 53 binary
/// digits before the point. No number has a shift of 2046 or more.
pub open spec fn shift_of(n: int, d: int, k: nat) -> nat
    decreases 2046 - k,
{
    if k >= 2046 || n < d * pow2(53 + k) {
        k
    } else {
        shift_of(n, d, k + 1)
    }
}

/// The number that is `m` times two to the `k`, counted in the smallest number
/// above zero, which is two to the -1074.
pub open spec fn of_units(neg: bool, m: int, k: int) -> Quantity {
    if k > 2045 {
        Quantity::Infinite { neg }
    } else if m == 0 {
        Quantity::Finite { neg, num: 0, scale: 0 }
    } else if k >= 1074 {
        Quantity::Finite { neg, num: m * pow2((k - 1074) as nat), scale: 0 }
    } else {
        Quantity::Finite { neg, num: m * pow5((1074 - k) as nat), scale: 1074 - k }
    }
}

/// The 64-bit floating point number nearest to `n / d`: 53 binary digits are
/// kept, halves go to the even neighbour.
#[verifier::opaque]
pub open spec fn rounded(neg: bool, n: int, d: int) -> Quantity {
    let units = n * pow2(1074);
    let k = shift_of(units, d, 0);
    let m = half_even(units, d * pow2(k));
    if m == pow2(53) {
        of_units(neg, pow2(52), k as int + 1)
    } else {
        of_units(neg, m, k as int)
    }
}

// ---------------------------------------------------------------- calculating
/// The number of a finite quantity with its sign.
pub open spec fn signed(neg: bool, num: int) -> int {
    if neg {
        -num
    } else {
        num
    }
}

/// A quantity times a whole number above zero.
pub open spec fn product(q: Quantity, c: int) -> Quantity {
    match q {
        Quantity::Finite { neg, num, scale } => rounded(neg, num * c, pow10(scale as nat)),
        _ => q,
    }
}

/// The sum of two quantities.
pub open spec fn sum(a: Quantity, b: Quantity) -> Quantity {
    match (a, b) {
        (
            Quantity::Finite { neg: an, num: x, scale: xs },
            Quantity::Finite { neg: bn, num: y, scale: ys },
        ) => {
            let n = signed(an, x * pow10(ys as nat)) + signed(bn, y * pow10(xs as nat));
            if n == 0 {
                Quantity::Finite { neg: an && bn, num: 0, scale: 0 }
            } else {
                rounded(
                    n < 0,
                    if n < 0 {
                        -n
                    } else {
                        n
                    },
                    pow10(xs as nat) * pow10(ys as nat),
                )
            }
        },
        (Quantity::NotANumber, _) => Quantity::NotANumber,
        (_, Quantity::NotANumber) => Quantity::NotANumber,
        (Quantity::Infinite { neg: an }, Quantity::Infinite { neg: bn }) => if an == bn {
            a
        } else {
            Quantity::NotANumber
        },
        (Quantity::Infinite { .. }, _) => a,
        (_, Quantity::Infinite { .. }) => b,
    }
}

/// A quantity with the other sign.
pub open spec fn negated(q: Quantity) -> Quantity {
    match q {
        Quantity::NotANumber => q,
        Quantity::Infinite { neg } => Quantity::Infinite { neg: !neg },
        Quantity::Finite { neg, num, scale } => Quantity::Finite { neg: !neg, num, scale },
    }
}

/// A quantity divided by one that is above zero.
pub open spec fn quotient(a: Quantity, b: Quantity) -> Quantity {
    match (a, b) {
        (Quantity::NotANumber, _) => Quantity::NotANumber,
        (_, Quantity::NotANumber) => Quantity::NotANumber,
        (Quantity::Infinite { .. }, Quantity::Infinite { .. }) => Quantity::NotANumber,
        (Quantity::Infinite { .. }, _) => a,
        (Quantity::Finite { neg, .. }, Quantity::Infinite { .. }) => Quantity::Finite {
            neg,
            num: 0,
            scale: 0,
        },
        (
            Quantity::Finite { neg, num: x, scale: xs },
            Quantity::Finite { neg: bn, num: y, scale: ys },
        ) => rounded(neg, x * pow10(ys as nat), y * pow10(xs as nat)),
    }
}

/// The whole number `n`.
pub open spec fn whole(n: int) -> Quantity {
    Quantity::Finite { neg: false, num: n, scale: 0 }
}

/// The floating point number nearest to the whole number `n`.
pub open spec fn float_of(n: int) -> Quantity {
    if n >= 0 {
        rounded(false, n, 1)
    } else {
        rounded(true, -n, 1)
    }
}

/// A quantity times half of a whole number above zero.
pub open spec fn half_product(q: Quantity, c: int) -> Quantity {
    match q {
        Quantity::Finite { neg, num, scale } => rounded(neg, num * c, 2 * pow10(scale as nat)),
        _ => q,
    }
}

/// `n / d` rounded to the nearest whole number, halves away from zero.
pub open spec fn nearest(n: int, d: int) -> int {
    if n >= 0 {
        (2 * n + d) / (2 * d)
    } else {
        -((2 * -n + d) / (2 * d))
    }
}

/// A whole number held in the machine range.
pub open spec fn in_range(n: int) -> int {
    if n > i64::MAX {
        i64::MAX as int
    } else if n < i64::MIN {
        i64::MIN as int
    } else {
        n
    }
}

/// A quantity rounded to the nearest whole number, halves away from zero, and
/// held in the machine range. What is not a number gives zero.
pub open spec fn nearest_whole(q: Quantity) -> int {
    match q {
        Quantity::NotANumber => 0,
        Quantity::Infinite { neg } => if neg {
            i64::MIN as int
        } else {
            i64::MAX as int
        },
        Quantity::Finite { neg, num, scale } => in_range(
            signed(neg, nearest(num, pow10(scale as nat))),
        ),
    }
}

/// A quantity held between zero and the whole number `top`.
pub open spec fn held_below(q: Quantity, top: int) -> Quantity {
    if at_most_zero(q) && !is_zero(q) {
        zero()
    } else if at_least(q, top) {
        whole(top)
    } else {
        q
    }
}

// ---------------------------------------------------------------- reading
/// The first exponent mark at or after `i`, or the length of `s`.
pub open spec fn mark_from(s: Seq<char>, i: int) -> int
    decreases s.len() - i,
{
    if i < 0 || i >= s.len() {
        s.len() as int
    } else if s[i] == 'e' || s[i] == 'E' {
        i
    } else {
        mark_from(s, i + 1)
    }
}

/// The power of ten behind the exponent mark; zero where there is no mark.
pub open spec fn exponent_of(s: Seq<char>) -> Option<int> {
    let k = mark_from(s, 0);
    if k == s.len() {
        Some(0)
    } else {
        number_of(s.skip(k + 1), true)
    }
}

/// The digits before the dot.
pub open spec fn whole_part(m: Seq<char>) -> Seq<char> {
    m.take(find_from(m, '.', 0))
}

/// The digits behind the dot.
pub open spec fn fraction_part(m: Seq<char>) -> Seq<char> {
    if find_from(m, '.', 0) < m.len() {
        m.skip(find_from(m, '.', 0) + 1)
    } else {
        Seq::empty()
    }
}

/// `m` times ten to the `e`. Magnitudes of 310 or more whole digits are infinite,
/// and those with 323 or more zeros behind the point are zero.
pub open spec fn scaled(neg: bool, m: int, e: int) -> Quantity {
    let top = dec(m).len() + e;
    if m == 0 || top < -323 {
        Quantity::Finite { neg, num: 0, scale: 0 }
    } else if top > 309 {
        Quantity::Infinite { neg }
    } else if e >= 0 {
        rounded(neg, m * pow10(e as nat), 1)
    } else {
        rounded(neg, m, pow10((-e) as nat))
    }
}

/// The quantity an unsigned decimal text denotes: digits with an optional dot
/// among them, and an optional exponent.
pub open spec fn unsigned_of(s: Seq<char>, neg: bool) -> Option<Quantity> {
    let m = s.take(mark_from(s, 0));
    let whole = whole_part(m);
    let frac = fraction_part(m);
    match exponent_of(s) {
        Some(e) => if all_digits(whole) && all_digits(frac) && whole.len() + frac.len() > 0 {
            Some(scaled(neg, value(whole + frac), e - frac.len()))
        } else {
            None
        },
        None => None,
    }
}

/// The quantity a text denotes, if it denotes one.
pub open spec fn quantity_of(s: Seq<char>) -> Option<Quantity> {
    let neg = s.len() > 0 && s[0] == '-';
    let body = if s.len() > 0 && (s[0] == '-' || s[0] == '+') {
        s.drop_first()
    } else {
        s
    };
    let word = ascii_lower(body);
    if word == "nan"@ {
        Some(Quantity::NotANumber)
    } else if word == "inf"@ || word == "infinity"@ {
        Some(Quantity::Infinite { neg })
    } else {
        unsigned_of(body, neg)
    }
}

/// The quantity a text denotes, or `other` where it denotes none.
pub open spec fn quantity_or(s: Seq<char>, other: Quantity) -> Quantity {
    match quantity_of(s) {
        Some(q) => q,
        None => other,
    }
}

// ---------------------------------------------------------------- comparing
/// Whether a quantity is above zero.
pub open spec fn positive(q: Quantity) -> bool {
    match q {
        Quantity::NotANumber => false,
        Quantity::Infinite { neg } => !neg,
        Quantity::Finite { neg, num, scale } => !neg && num > 0,
    }
}

/// Whether a quantity is zero or below.
pub open spec fn at_most_zero(q: Quantity) -> bool {
    match q {
        Quantity::NotANumber => false,
        Quantity::Infinite { neg } => neg,
        Quantity::Finite { neg, num, scale } => neg || num == 0,
    }
}

/// Whether a quantity is zero, of whatever sign.
pub open spec fn is_zero(q: Quantity) -> bool {
    q matches Quantity::Finite { num, .. } && num == 0
}

/// Whether a quantity is at least `n`, which is above zero.
pub open spec fn at_least(q: Quantity, n: int) -> bool {
    match q {
        Quantity::NotANumber => false,
        Quantity::Infinite { neg } => !neg,
        Quantity::Finite { neg, num, scale } => !neg && num >= n * pow10(scale as nat),
    }
}

// ---------------------------------------------------------------- printing
/// `n` zeros.
pub open spec fn zeros(n: int) -> Seq<char> {
    Seq::new(n as nat, |i: int| '0')
}

/// A number with zeros before it up to a width.
pub open spec fn padded(n: int, width: int) -> Seq<char> {
    if dec(n).len() < width {
        zeros(width - dec(n).len()) + dec(n)
    } else {
        dec(n)
    }
}

/// `n / d` with a fixed number of decimal places.
pub open spec fn fixed(neg: bool, n: int, d: int, places: int) -> Seq<char> {
    let q = half_even(n * pow10(places as nat), d);
    let p = pow10(places as nat);
    (if neg {
        seq!['-']
    } else {
        seq![]
    }) + dec(q / p) + (if places > 0 {
        seq!['.'] + padded(q % p, places)
    } else {
        seq![]
    })
}

/// A quantity with a fixed number of decimal places.
pub open spec fn shown(q: Quantity, places: int) -> Seq<char> {
    match q {
        Quantity::NotANumber => "NaN"@,
        Quantity::Infinite { neg } => if neg {
            "-inf"@
        } else {
            "inf"@
        },
        Quantity::Finite { neg, num, scale } => fixed(neg, num, pow10(scale as nat), places),
    }
}

impl Decimal {
    pub open spec fn view(&self) -> Quantity {
        match self {
            Decimal::NotANumber => Quantity::NotANumber,
            Decimal::Infinite { neg } => Quantity::Infinite { neg: *neg },
            Decimal::Finite { neg, num, scale } => Quantity::Finite {
                neg: *neg,
                num: num@,
                scale: *scale as int,
            },
        }
    }

    pub open spec fn wf(&self) -> bool {
        match self {
            Decimal::Finite { neg, num, scale } => num.wf() && scale <= SCALE_BOUND,
            _ => true,
        }
    }

    /// Zero.
    pub fn zero() -> (r: Decimal)
        ensures
            r.wf(),
            r@ == zero(),
    {
        Decimal::Finite { neg: false, num: Natural::zero(), scale: 0 }
    }

    /// One.
    pub fn one() -> (r: Decimal)
        ensures
            r.wf(),
            r@ == one(),
    {
        Decimal::Finite { neg: false, num: Natural::from_u64(1), scale: 0 }
    }

    /// A copy.
    pub fn dup(&self) -> (r: Decimal)
        requires
            self.wf(),
        ensures
            r.wf(),
            r@ == self@,
    {
        match self {
            Decimal::NotANumber => Decimal::NotANumber,
            Decimal::Infinite { neg } => Decimal::Infinite { neg: *neg },
            Decimal::Finite { neg, num, scale } => Decimal::Finite {
                neg: *neg,
                num: num.dup(),
                scale: *scale,
            },
        }
    }

    /// Whether the quantity is above zero.
    pub fn is_positive(&self) -> (r: bool)
        requires
            self.wf(),
        ensures
            r == positive(self@),
    {
        match self {
            Decimal::NotANumber => false,
            Decimal::Infinite { neg } => !*neg,
            Decimal::Finite { neg, num, scale } => {
                proof {
                    num.lemma_not_negative();
                }
                !*neg && !num.is_zero()
            },
        }
    }

    /// Whether the quantity is zero or below.
    pub fn is_at_most_zero(&self) -> (r: bool)
        requires
            self.wf(),
        ensures
            r == at_most_zero(self@),
    {
        match self {
            Decimal::NotANumber => false,
            Decimal::Infinite { neg } => *neg,
            Decimal::Finite { neg, num, scale } => *neg || num.is_zero(),
        }
    }

    /// Whether the quantity is at least a whole number.
    pub fn is_at_least(&self, n: u64) -> (r: bool)
        requires
            self.wf(),
        ensures
            r == at_least(self@, n as int),
    {
        match self {
            Decimal::NotANumber => false,
            Decimal::Infinite { neg } => !*neg,
            Decimal::Finite { neg, num, scale } => !*neg && !num.below(
                &Natural::from_u64(n).times_pow10(*scale),
            ),
        }
    }

    /// A whole number.
    pub fn from_u64(n: u64) -> (r: Decimal)
        ensures
            r.wf(),
            r@ == whole(n as int),
    {
        Decimal::Finite { neg: false, num: Natural::from_u64(n), scale: 0 }
    }

    /// The quantity times a whole number.
    pub fn times(&self, c: u32) -> (r: Decimal)
        requires
            self.wf(),
            c > 0,
        ensures
            r.wf(),
            r@ == product(self@, c as int),
    {
        match self {
            Decimal::Finite { neg, num, scale } => {
                let p = power_of_ten(*scale);
                round_to(*neg, &num.times(c), &p)
            },
            _ => self.dup(),
        }
    }

    /// The floating point number nearest to a whole number.
    pub fn from_i64(n: i64) -> (r: Decimal)
        ensures
            r.wf(),
            r@ == float_of(n as int),
    {
        let one = Natural::from_u64(1);
        if n >= 0 {
            round_to(false, &Natural::from_u64(n as u64), &one)
        } else {
            let m: u64 = (-(n as i128)) as u64;
            round_to(true, &Natural::from_u64(m), &one)
        }
    }

    /// The quantity times half of a whole number.
    pub fn times_half(&self, c: u32) -> (r: Decimal)
        requires
            self.wf(),
            c > 0,
        ensures
            r.wf(),
            r@ == half_product(self@, c as int),
    {
        match self {
            Decimal::Finite { neg, num, scale } => {
                let p = power_of_ten(*scale);
                round_to(*neg, &num.times(c), &p.times(2))
            },
            _ => self.dup(),
        }
    }

    /// The nearest whole number, halves away from zero, held in the machine range.
    pub fn to_nearest(&self) -> (r: i64)
        requires
            self.wf(),
        ensures
            r == nearest_whole(self@),
    {
        match self {
            Decimal::NotANumber => 0,
            Decimal::Infinite { neg } => if *neg {
                i64::MIN
            } else {
                i64::MAX
            },
            Decimal::Finite { neg, num, scale } => {
                let p = power_of_ten(*scale);
                let (n, rem) = num.times(2).plus(&p).divide(&p.times(2));
                proof {
                    num.lemma_not_negative();
                    n.lemma_not_negative();
                    let by = p@ * 2;
                    assert(num@ * 2 + p@ == n@ * by + rem@);
                    vstd::arithmetic::div_mod::lemma_fundamental_div_mod_converse(
                        num@ * 2 + p@,
                        by,
                        n@,
                        rem@,
                    );
                    assert(nearest(num@, p@) == n@);
                }
                let m = n.saturating_i64();
                if !*neg {
                    m
                } else if m == i64::MAX && !n.below(&Natural::from_u64(0x8000_0000_0000_0000)) {
                    i64::MIN
                } else {
                    -m
                }
            },
        }
    }

    /// The sum with another quantity.
    pub fn plus(&self, other: &Decimal) -> (r: Decimal)
        requires
            self.wf(),
            other.wf(),
        ensures
            r.wf(),
            r@ == sum(self@, other@),
    {
        match (self, other) {
            (
                Decimal::Finite { neg: an, num: x, scale: xs },
                Decimal::Finite { neg: bn, num: y, scale: ys },
            ) => {
                let mut up = Natural::zero();
                let mut down = Natural::zero();
                gather(&mut up, &mut down, *an, &x.times_pow10(*ys));
                gather(&mut up, &mut down, *bn, &y.times_pow10(*xs));
                let (neg, num) = settle(&up, &down);
                if num.is_zero() {
                    return Decimal::Finite { neg: *an && *bn, num, scale: 0 };
                }
                proof {
                    lemma_pow10_positive(*xs as nat);
                    lemma_pow10_positive(*ys as nat);
                    let (p, q) = (pow10(*xs as nat), pow10(*ys as nat));
                    assert(p * q > 0) by (nonlinear_arith)
                        requires
                            p > 0,
                            q > 0,
                    ;
                }
                round_to(neg, &num, &power_of_ten(*xs).times_pow10(*ys))
            },
            (Decimal::NotANumber, _) => Decimal::NotANumber,
            (_, Decimal::NotANumber) => Decimal::NotANumber,
            (Decimal::Infinite { neg: an }, Decimal::Infinite { neg: bn }) => if *an == *bn {
                Decimal::Infinite { neg: *an }
            } else {
                Decimal::NotANumber
            },
            (Decimal::Infinite { neg }, _) => Decimal::Infinite { neg: *neg },
            (_, Decimal::Infinite { neg }) => Decimal::Infinite { neg: *neg },
        }
    }

    /// The quantity with the other sign.
    pub fn negate(&self) -> (r: Decimal)
        requires
            self.wf(),
        ensures
            r.wf(),
            r@ == negated(self@),
    {
        match self {
            Decimal::NotANumber => Decimal::NotANumber,
            Decimal::Infinite { neg } => Decimal::Infinite { neg: !*neg },
            Decimal::Finite { neg, num, scale } => Decimal::Finite {
                neg: !*neg,
                num: num.dup(),
                scale: *scale,
            },
        }
    }

    /// The quantity divided by one that is above zero.
    pub fn over(&self, by: &Decimal) -> (r: Decimal)
        requires
            self.wf(),
            by.wf(),
            positive(by@),
        ensures
            r.wf(),
            r@ == quotient(self@, by@),
    {
        match (self, by) {
            (Decimal::NotANumber, _) => Decimal::NotANumber,
            (_, Decimal::NotANumber) => Decimal::NotANumber,
            (Decimal::Infinite { .. }, Decimal::Infinite { .. }) => Decimal::NotANumber,
            (Decimal::Infinite { neg }, _) => Decimal::Infinite { neg: *neg },
            (Decimal::Finite { neg, .. }, Decimal::Infinite { .. }) => Decimal::Finite {
                neg: *neg,
                num: Natural::zero(),
                scale: 0,
            },
            (
                Decimal::Finite { neg, num: x, scale: xs },
                Decimal::Finite { neg: bn, num: y, scale: ys },
            ) => {
                let top = x.times_pow10(*ys);
                let low = y.times_pow10(*xs);
                proof {
                    lemma_pow10_positive(*xs as nat);
                    let (v, p) = (y@, pow10(*xs as nat));
                    assert(v * p > 0) by (nonlinear_arith)
                        requires
                            v > 0,
                            p > 0,
                    ;
                }
                round_to(*neg, &top, &low)
            },
        }
    }

    /// The quantity held between zero and a whole number.
    pub fn hold_below(self, top: u64) -> (r: Decimal)
        requires
            self.wf(),
        ensures
            r.wf(),
            r@ == held_below(self@, top as int),
    {
        let zero = match &self {
            Decimal::Finite { neg, num, scale } => num.is_zero(),
            _ => false,
        };
        if self.is_at_most_zero() && !zero {
            Decimal::zero()
        } else if self.is_at_least(top) {
            Decimal::from_u64(top)
        } else {
            self
        }
    }
}

fn power_of_ten(k: u128) -> (r: Natural)
    ensures
        r.wf(),
        r@ == pow10(k as nat),
        r@ > 0,
{
    proof {
        lemma_pow10_positive(k as nat);
        assert(1 * pow10(k as nat) == pow10(k as nat));
    }
    Natural::from_u64(1).times_pow10(k)
}

/// Adds a signed number to a pair of sums, one for each sign.
fn gather(up: &mut Natural, down: &mut Natural, neg: bool, n: &Natural)
    requires
        old(up).wf(),
        old(down).wf(),
        n.wf(),
    ensures
        final(up).wf(),
        final(down).wf(),
        final(up)@ - final(down)@ == old(up)@ - old(down)@ + signed(neg, n@),
{
    if neg {
        *down = down.plus(n);
    } else {
        *up = up.plus(n);
    }
}

/// The difference of two numbers, with its sign.
fn settle(up: &Natural, down: &Natural) -> (r: (bool, Natural))
    requires
        up.wf(),
        down.wf(),
    ensures
        r.1.wf(),
        r.0 == (up@ - down@ < 0),
        r.1@ == if up@ < down@ {
            down@ - up@
        } else {
            up@ - down@
        },
{
    match up.minus(down) {
        Some(d) => (false, d),
        None => match down.minus(up) {
            Some(d) => (true, d),
            None => (true, Natural::zero()),
        },
    }
}

// ---------------------------------------------------------------- executable rounding
/// `n / d` rounded, halves to the even neighbour.
pub(crate) fn round_half_even(n: &Natural, d: &Natural) -> (r: Natural)
    requires
        n.wf(),
        d.wf(),
        d@ > 0,
    ensures
        r.wf(),
        r@ == half_even(n@, d@),
{
    let (q, rem) = n.divide(d);
    let twice = rem.times(2);
    let up = if twice.below(d) {
        false
    } else if d.below(&twice) {
        true
    } else {
        let (half, odd) = q.divide(&Natural::from_u64(2));
        !odd.is_zero()
    };
    if up {
        q.plus(&Natural::from_u64(1))
    } else {
        q
    }
}

proof fn lemma_shift_goes_on(n: int, d: int, k: nat, j: nat)
    requires
        d > 0,
        k + j <= 2046,
        j > 0 ==> n >= d * pow2((52 + k + j) as nat),
    ensures
        shift_of(n, d, k) == shift_of(n, d, k + j),
    decreases j,
{
    if j > 0 {
        lemma_pow2_positive((51 + k + j) as nat);
        let (p, q) = (pow2((51 + k + j) as nat), pow2((52 + k + j) as nat));
        assert(q == 2 * p);
        assert(d * q >= d * p) by (nonlinear_arith)
            requires
                d > 0,
                q >= p,
        ;
        lemma_shift_goes_on(n, d, k, (j - 1) as nat);
        assert(53 + (k + j - 1) == 52 + k + j);
        assert(shift_of(n, d, (k + j - 1) as nat) == shift_of(n, d, k + j));
    }
}

/// The shift of `units / d`, and `d` shifted by it.
fn find_shift(units: &Natural, d: &Natural) -> (r: (u32, Natural))
    requires
        units.wf(),
        d.wf(),
        d@ > 0,
    ensures
        r.0 == shift_of(units@, d@, 0),
        r.0 <= 2046,
        r.1.wf(),
        r.1@ == d@ * pow2(r.0 as nat),
{
    let ghost u = units@;
    let ghost by = d@;
    let mut w = d.dup();
    let mut t = d.times_pow2(53);
    let mut k: u32 = 0;
    assert(by * pow2(0) == by);
    // Long steps first: as long as thirty digits more would still be too few.
    while k <= 2016 && !units.below(&t.times(0x2000_0000))
        invariant
            k <= 2046,
            units.wf(),
            w.wf(),
            t.wf(),
            by > 0,
            u == units@,
            w@ == by * pow2(k as nat),
            t@ == by * pow2((53 + k) as nat),
            shift_of(u, by, 0) == shift_of(u, by, k as nat),
        decreases 2046 - k,
    {
        proof {
            assert(pow2(29) == 0x2000_0000) by {
                reveal_with_fuel(pow2, 30);
            }
            lemma_pow2_sum((53 + k) as nat, 29);
            let p = pow2((53 + k) as nat);
            assert((by * p) * 0x2000_0000 == by * (p * 0x2000_0000)) by (nonlinear_arith);
            assert(53 + k + 29 == 52 + k + 30);
            lemma_shift_goes_on(u, by, k as nat, 30);
            lemma_times_pow2(by, k as nat, 30);
            lemma_times_pow2(by, (53 + k) as nat, 30);
        }
        w = w.times_pow2(30);
        t = t.times_pow2(30);
        k += 30;
    }
    while k < 2046 && !units.below(&t)
        invariant
            k <= 2046,
            units.wf(),
            w.wf(),
            t.wf(),
            by > 0,
            u == units@,
            w@ == by * pow2(k as nat),
            t@ == by * pow2((53 + k) as nat),
            shift_of(u, by, 0) == shift_of(u, by, k as nat),
        decreases 2046 - k,
    {
        proof {
            lemma_shift_goes_on(u, by, k as nat, 1);
            lemma_times_pow2(by, k as nat, 1);
            lemma_times_pow2(by, (53 + k) as nat, 1);
        }
        w = w.times_pow2(1);
        t = t.times_pow2(1);
        k += 1;
    }
    (k, w)
}

/// A number counted in units.
fn count_units(neg: bool, m: Natural, k: u32) -> (r: Decimal)
    requires
        m.wf(),
        k <= 2046,
    ensures
        r.wf(),
        r@ == of_units(neg, m@, k as int),
{
    if k > 2045 {
        Decimal::Infinite { neg }
    } else if m.is_zero() {
        Decimal::Finite { neg, num: m, scale: 0 }
    } else if k >= 1074 {
        Decimal::Finite { neg, num: m.times_pow2(k - 1074), scale: 0 }
    } else {
        Decimal::Finite { neg, num: m.times_pow5(1074 - k), scale: (1074 - k) as u128 }
    }
}

/// The floating point number nearest to `n / d`.
fn round_to(neg: bool, n: &Natural, d: &Natural) -> (r: Decimal)
    requires
        n.wf(),
        d.wf(),
        d@ > 0,
    ensures
        r.wf(),
        r@ == rounded(neg, n@, d@),
{
    proof {
        reveal(rounded);
    }
    let units = n.times_pow2(1074);
    let (k, w) = find_shift(&units, d);
    if k == 2046 {
        return Decimal::Infinite { neg };
    }
    proof {
        lemma_pow2_positive(k as nat);
        let (by, p) = (d@, pow2(k as nat));
        assert(by * p > 0) by (nonlinear_arith)
            requires
                by > 0,
                p > 0,
        ;
    }
    let m = round_half_even(&units, &w);
    let full = Natural::from_u64(0x20_0000_0000_0000);
    proof {
        lemma_pow2_sum(26, 27);
        lemma_pow2_sum(26, 26);
        assert(pow2(26) == 0x400_0000 && pow2(27) == 0x800_0000) by {
            reveal_with_fuel(pow2, 28);
        }
        assert(pow2(53) == 0x20_0000_0000_0000);
        assert(pow2(52) == 0x10_0000_0000_0000);
    }
    if !m.below(&full) && !full.below(&m) {
        count_units(neg, Natural::from_u64(0x10_0000_0000_0000), k + 1)
    } else {
        count_units(neg, m, k)
    }
}

proof fn lemma_times_pow2(a: int, i: nat, j: nat)
    ensures
        (a * pow2(i)) * pow2(j) == a * pow2(i + j),
{
    lemma_pow2_sum(i, j);
    let (p, q) = (pow2(i), pow2(j));
    assert((a * p) * q == a * (p * q)) by (nonlinear_arith);
}

// ---------------------------------------------------------------- executable reading
/// Exponents beyond this bound are read as the bound itself; either way the
/// quantity is zero or infinite.
const EXPONENT_BOUND: i128 = 1_000_000_000_000_000_000_000_000_000_000;

/// Reads a signed whole number, cut off at the exponent bound.
fn read_exponent(s: &[char]) -> (r: Option<i128>)
    ensures
        match r {
            Some(e) => number_of(s@, true) matches Some(n) && -EXPONENT_BOUND <= e <= EXPONENT_BOUND
                && (-EXPONENT_BOUND <= n <= EXPONENT_BOUND ==> e == n) && (n > EXPONENT_BOUND ==> e
                == EXPONENT_BOUND) && (n < -EXPONENT_BOUND ==> e == -EXPONENT_BOUND),
            None => number_of(s@, true) is None,
        },
{
    let neg = s.len() > 0 && s[0] == '-';
    let from: usize = if s.len() > 0 && (s[0] == '+' || s[0] == '-') {
        1
    } else {
        0
    };
    let ghost body = s@.skip(from as int);
    assert(s@.skip(0) =~= s@);
    assert(s@.len() > 0 ==> s@.skip(1) =~= s@.drop_first());
    if from == s.len() {
        return None;
    }
    let mut acc: i128 = 0;
    let mut i: usize = from;
    while i < s.len()
        invariant
            from <= i <= s@.len(),
            body == s@.skip(from as int),
            body == if from == 1 {
                s@.drop_first()
            } else {
                s@
            },
            from == if s@.len() > 0 && (s@[0] == '+' || s@[0] == '-') {
                1int
            } else {
                0int
            },
            all_digits(body.take(i - from)),
            0 <= acc <= EXPONENT_BOUND,
            value(body.take(i - from)) >= 0,
            acc == if value(body.take(i - from)) > EXPONENT_BOUND {
                EXPONENT_BOUND as int
            } else {
                value(body.take(i - from))
            },
        decreases s@.len() - i,
    {
        let c = s[i];
        assert(body[i - from] == c);
        if !(c >= '0' && c <= '9') {
            assert(!all_digits(body));
            return None;
        }
        let ghost next = body.take(i - from + 1);
        assert(next.drop_last() =~= body.take(i - from));
        let d: i128 = (c as u32 - '0' as u32) as i128;
        let n: i128 = acc * 10 + d;
        acc = if n > EXPONENT_BOUND {
            EXPONENT_BOUND
        } else {
            n
        };
        i += 1;
        assert forall|j: int| 0 <= j < next.len() implies is_digit(#[trigger] next[j]) by {
            if j < next.len() - 1 {
                assert(next[j] == body.take(next.len() - 1)[j]);
            }
        }
    }
    assert(body.take(s@.len() - from) =~= body);
    if neg {
        Some(-acc)
    } else {
        Some(acc)
    }
}

fn find_mark(s: &[char]) -> (r: usize)
    ensures
        r == mark_from(s@, 0),
        r <= s@.len(),
{
    let mut i: usize = 0;
    while i < s.len() && s[i] != 'e' && s[i] != 'E'
        invariant
            i <= s@.len(),
            mark_from(s@, 0) == mark_from(s@, i as int),
        decreases s@.len() - i,
    {
        i += 1;
    }
    i
}

/// Writes the digits of a text behind those of a number; false where the text
/// holds anything else.
fn push_digits(n: &mut Natural, s: &[char], Ghost(before): Ghost<Seq<char>>) -> (r: bool)
    requires
        old(n).wf(),
        old(n)@ == value(before),
    ensures
        final(n).wf(),
        r == all_digits(s@),
        r ==> final(n)@ == value(before + s@),
{
    let mut i: usize = 0;
    assert(before + s@.take(0) =~= before);
    while i < s.len()
        invariant
            i <= s@.len(),
            n.wf(),
            all_digits(s@.take(i as int)),
            n@ == value(before + s@.take(i as int)),
        decreases s@.len() - i,
    {
        let c = s[i];
        if !(c >= '0' && c <= '9') {
            return false;
        }
        n.push_digit((c as u32 - '0' as u32) as u8);
        proof {
            let t = before + s@.take(i + 1);
            assert(t.drop_last() =~= before + s@.take(i as int));
            assert(t.last() == c);
            assert forall|j: int| 0 <= j < i + 1 implies is_digit(#[trigger] s@.take(i + 1)[j]) by {
                if j < i {
                    assert(s@.take(i + 1)[j] == s@.take(i as int)[j]);
                }
            }
        }
        i += 1;
    }
    assert(s@.take(s@.len() as int) =~= s@);
    true
}

fn scale_to(neg: bool, m: Natural, e: i128, Ghost(exact): Ghost<int>) -> (r: Decimal)
    requires
        m.wf(),
        e == exact || (e > 0x1_0000_0000_0000_0000_0000 && exact > 0x1_0000_0000_0000_0000_0000)
            || (e < -0x1_0000_0000_0000_0000_0000 && exact < -0x1_0000_0000_0000_0000_0000),
        -0x1_0000_0000_0000_0000_0000_0000_0000 < e < 0x1_0000_0000_0000_0000_0000_0000_0000,
    ensures
        r.wf(),
        r@ == scaled(neg, m@, exact),
{
    if m.is_zero() {
        return Decimal::Finite { neg, num: m, scale: 0 };
    }
    let len = m.print().len();
    let top: i128 = len as i128 + e;
    if top > 309 {
        Decimal::Infinite { neg }
    } else if top < -323 {
        Decimal::Finite { neg, num: Natural::zero(), scale: 0 }
    } else if e >= 0 {
        round_to(neg, &m.times_pow10(e as u128), &Natural::from_u64(1))
    } else {
        round_to(neg, &m, &power_of_ten((-e) as u128))
    }
}

fn read_unsigned(s: &[char], neg: bool) -> (r: Option<Decimal>)
    ensures
        match r {
            Some(d) => d.wf() && unsigned_of(s@, neg) == Some(d@),
            None => unsigned_of(s@, neg) is None,
        },
{
    let k = find_mark(s);
    let m = sub_chars(s, 0, k);
    assert(m@ =~= s@.take(k as int));
    let end = s.len();
    let mut e: i128 = 0;
    if k < end {
        let tail = sub_chars(s, k + 1, end);
        assert(tail@ =~= s@.skip(k + 1));
        match read_exponent(tail.as_slice()) {
            Some(x) => {
                e = x;
            },
            None => {
                return None;
            },
        }
    }
    let ghost exact = exponent_of(s@)->Some_0;
    let dot = find_char(m.as_slice(), '.', 0);
    let whole = sub_chars(m.as_slice(), 0, dot);
    assert(whole@ =~= whole_part(m@));
    let mlen = m.len();
    let frac = if dot < mlen {
        sub_chars(m.as_slice(), dot + 1, mlen)
    } else {
        Vec::new()
    };
    assert(frac@ =~= fraction_part(m@));
    if whole.len() == 0 && frac.len() == 0 {
        return None;
    }
    let mut n = Natural::zero();
    if !push_digits(&mut n, whole.as_slice(), Ghost(Seq::empty())) {
        return None;
    }
    assert(Seq::<char>::empty() + whole@ =~= whole@);
    if !push_digits(&mut n, frac.as_slice(), Ghost(whole@)) {
        return None;
    }
    let shift: i128 = frac.len() as i128;
    Some(scale_to(neg, n, e - shift, Ghost(exact - frac@.len())))
}

/// Reads a quantity.
pub fn parse_decimal(s: &[char]) -> (r: Option<Decimal>)
    ensures
        match r {
            Some(d) => d.wf() && quantity_of(s@) == Some(d@),
            None => quantity_of(s@) is None,
        },
{
    let neg = s.len() > 0 && s[0] == '-';
    let from: usize = if s.len() > 0 && (s[0] == '-' || s[0] == '+') {
        1
    } else {
        0
    };
    let body = sub_chars(s, from, s.len());
    assert(from == 0 ==> body@ =~= s@);
    assert(from == 1 ==> body@ =~= s@.drop_first());
    let word = to_lower(body.as_slice());
    if chars_are(word.as_slice(), "nan") {
        Some(Decimal::NotANumber)
    } else if chars_are(word.as_slice(), "inf") || chars_are(word.as_slice(), "infinity") {
        Some(Decimal::Infinite { neg })
    } else {
        read_unsigned(body.as_slice(), neg)
    }
}

/// Reads a quantity, with a fallback for other text.
pub fn decimal_or(s: &[char], other: Decimal) -> (r: Decimal)
    requires
        other.wf(),
    ensures
        r.wf(),
        r@ == quantity_or(s@, other@),
{
    match parse_decimal(s) {
        Some(d) => d,
        None => other,
    }
}

// ---------------------------------------------------------------- writing
/// A quantity written out in full, with an exponent.
pub open spec fn spelled(q: Quantity) -> Seq<char> {
    match q {
        Quantity::NotANumber => "nan"@,
        Quantity::Infinite { neg } => if neg {
            "-inf"@
        } else {
            "inf"@
        },
        Quantity::Finite { neg, num, scale } => if neg {
            seq!['-'] + dec(num) + seq!['e', '-'] + dec(scale)
        } else {
            dec(num) + seq!['e', '-'] + dec(scale)
        },
    }
}

impl Decimal {
    /// Writes the quantity out in full.
    pub fn spell(&self) -> (r: String)
        requires
            self.wf(),
        ensures
            r@ == spelled(self@),
    {
        match self {
            Decimal::NotANumber => "nan".to_string(),
            Decimal::Infinite { neg } => if *neg {
                "-inf".to_string()
            } else {
                "inf".to_string()
            },
            Decimal::Finite { neg, num, scale } => {
                let mut v = num.print();
                v.push('e');
                v.push('-');
                push_dec(&mut v, *scale);
                assert(v@ =~= dec(num@) + seq!['e', '-'] + dec(*scale as int));
                if *neg {
                    v.insert(0, '-');
                    assert(v@ =~= spelled(self@));
                }
                string_of(v.as_slice())
            },
        }
    }
}

/// Whether a quantity is a 64-bit floating point number.
#[verifier::opaque]
pub open spec fn is_double(q: Quantity) -> bool {
    match q {
        Quantity::Finite { neg, num, scale } => num == 0 && scale == 0 || exists|m: int, k: int|
            is_significand(m, k) && q == #[trigger] of_units(neg, m, k),
        _ => true,
    }
}

/// Whether a number can be written with a significand and a shift: the
/// significand has 53 binary digits, or fewer where the shift is zero.
pub open spec fn is_significand(m: int, k: int) -> bool {
    &&& 0 < m < pow2(53)
    &&& 0 <= k <= 2045
    &&& k > 0 ==> m >= pow2(52)
}

/// Whether a quantity is one that reading gives.
pub open spec fn is_plain(q: Quantity) -> bool {
    &&& is_double(q)
    &&& match q {
        Quantity::Finite { neg, num, scale } => num > 0 ==> -323 <= dec(num).len() - scale <= 309,
        _ => true,
    }
}

proof fn lemma_shift_is(u: int, d: int, m: int, k: nat, from: nat)
    requires
        d > 0,
        is_significand(m, k as int),
        u == m * (d * pow2(k)),
        from <= k,
    ensures
        shift_of(u, d, from) == k,
    decreases k - from,
{
    let p = pow2(k);
    lemma_pow2_positive(k);
    lemma_pow2_sum(53, k);
    lemma_pow2_sum(52, k);
    if from == k {
        assert(m * (d * p) < d * (pow2(53) * p)) by (nonlinear_arith)
            requires
                m < pow2(53),
                d > 0,
                p > 0,
        ;
    } else {
        lemma_pow2_grows(53 + from, 52 + k);
        let q = pow2(53 + from);
        assert(m * (d * p) >= d * q) by (nonlinear_arith)
            requires
                m >= pow2(52),
                pow2(52) * p >= q,
                d > 0,
                p > 0,
        ;
        lemma_shift_is(u, d, m, k, from + 1);
    }
}

pub(crate) proof fn lemma_pow2_grows(i: nat, j: nat)
    requires
        i <= j,
    ensures
        pow2(i) <= pow2(j),
    decreases j - i,
{
    if i < j {
        lemma_pow2_positive((j - 1) as nat);
        lemma_pow2_grows(i, (j - 1) as nat);
    }
}

proof fn lemma_exact(u: int, d: int, m: int)
    requires
        d > 0,
        u == m * d,
    ensures
        half_even(u, d) == m,
{
    vstd::arithmetic::div_mod::lemma_fundamental_div_mod_converse(u, d, m, 0);
}

/// A 64-bit floating point number is the nearest to itself.
pub proof fn rounding_keeps_numbers(neg: bool, m: int, k: int, num: int, scale: int)
    requires
        is_significand(m, k),
        of_units(neg, m, k) == (Quantity::Finite { neg, num, scale }),
    ensures
        rounded(neg, num, pow10(scale as nat)) == of_units(neg, m, k),
        scale == 0 ==> rounded(neg, num, 1) == of_units(neg, m, k),
{
    reveal(rounded);
    let d = pow10(scale as nat);
    let u = num * pow2(1074);
    lemma_pow10_positive(scale as nat);
    lemma_pow2_positive(k as nat);
    lemma_units_are_worth(neg, m, k);
    lemma_shift_is(u, d, m, k as nat, 0);
    let by = d * pow2(k as nat);
    assert(by > 0) by (nonlinear_arith)
        requires
            by == d * pow2(k as nat),
            d > 0,
            pow2(k as nat) > 0,
    ;
    lemma_exact(u, by, m);
}

proof fn lemma_no_mark(s: Seq<char>, rest: Seq<char>, i: int)
    requires
        all_digits(s),
        0 <= i <= s.len(),
        rest.len() > 0,
        rest[0] == 'e',
    ensures
        mark_from(s + rest, i) == s.len(),
    decreases s.len() - i,
{
    if i < s.len() {
        assert(is_digit(s[i]));
        assert((s + rest)[i] == s[i]);
        lemma_no_mark(s, rest, i + 1);
    } else {
        assert((s + rest)[i] == rest[0]);
    }
}

proof fn lemma_no_dot(s: Seq<char>, i: int)
    requires
        all_digits(s),
        0 <= i <= s.len(),
    ensures
        find_from(s, '.', i) == s.len(),
    decreases s.len() - i,
{
    if i < s.len() {
        assert(is_digit(s[i]));
        lemma_no_dot(s, i + 1);
    }
}

proof fn lemma_double_is_natural(neg: bool, num: int, scale: int)
    requires
        is_double(Quantity::Finite { neg, num, scale }),
    ensures
        num >= 0,
        scale >= 0,
        num == 0 ==> scale == 0,
{
    reveal(is_double);
    if !(num == 0 && scale == 0) {
        let (m, k) = choose|m: int, k: int|
            is_significand(m, k) && (Quantity::Finite { neg, num, scale }) == #[trigger] of_units(
                neg,
                m,
                k,
            );
        lemma_units_are_worth(neg, m, k);
    }
}

proof fn lemma_unsigned_reads_back(neg: bool, num: int, scale: int)
    requires
        is_plain(Quantity::Finite { neg, num, scale }),
    ensures
        unsigned_of(dec(num) + seq!['e', '-'] + dec(scale), neg) == Some(
            Quantity::Finite { neg, num, scale },
        ),
{
    lemma_double_is_natural(neg, num, scale);
    let d = dec(num);
    let rest = seq!['e', '-'] + dec(scale);
    let s = d + rest;
    assert(s =~= d + seq!['e', '-'] + dec(scale));
    dec_is_its_value(num);
    dec_is_its_value(scale);
    lemma_no_mark(d, rest, 0);
    lemma_no_dot(d, 0);
    let m = s.take(mark_from(s, 0));
    assert(m =~= d);
    assert(whole_part(m) =~= d);
    assert(fraction_part(m) =~= Seq::empty());
    assert(d + Seq::<char>::empty() =~= d);
    let tail = s.skip(d.len() as int + 1);
    assert(tail =~= seq!['-'] + dec(scale));
    assert(tail.drop_first() =~= dec(scale));
    assert(exponent_of(s) == Some(-scale));
    if num > 0 {
        reveal(is_double);
        let (m, k) = choose|m: int, k: int|
            is_significand(m, k) && (Quantity::Finite { neg, num, scale }) == #[trigger] of_units(
                neg,
                m,
                k,
            );
        rounding_keeps_numbers(neg, m, k, num, scale);
        assert(pow10(0) == 1);
    }
}

/// A quantity that was read from text reads back from what is written of it.
pub proof fn spelled_quantity_reads_back(q: Quantity)
    requires
        is_plain(q),
    ensures
        quantity_of(spelled(q)) == Some(q),
{
    reveal_strlit("nan");
    reveal_strlit("inf");
    reveal_strlit("-inf");
    reveal_strlit("infinity");
    assert("nan"@ =~= seq!['n', 'a', 'n']);
    assert("inf"@ =~= seq!['i', 'n', 'f']);
    assert("-inf"@.drop_first() =~= "inf"@);
    assert(ascii_lower("nan"@) =~= "nan"@);
    assert(ascii_lower("inf"@) =~= "inf"@);
    match q {
        Quantity::Finite { neg, num, scale } => {
            let body = dec(num) + seq!['e', '-'] + dec(scale);
            lemma_double_is_natural(neg, num, scale);
            dec_is_its_value(num);
            assert(is_digit(dec(num)[0]));
            assert(body[0] == dec(num)[0]);
            assert(ascii_lower(body)[0] == body[0]);
            if neg {
                assert(spelled(q).drop_first() =~= body);
            }
            assert("nan"@[0] == 'n' && "inf"@[0] == 'i' && "infinity"@[0] == 'i');
            lemma_unsigned_reads_back(neg, num, scale);
        },
        _ => {},
    }
}

proof fn lemma_shift_bounds(u: int, d: int, from: nat)
    requires
        from <= 2046,
        from > 0 ==> u >= d * pow2((52 + from) as nat),
    ensures
        ({
            let k = shift_of(u, d, from);
            &&& from <= k <= 2046
            &&& k < 2046 ==> u < d * pow2(53 + k)
            &&& k > 0 ==> u >= d * pow2((52 + k) as nat)
        }),
    decreases 2046 - from,
{
    if from < 2046 && !(u < d * pow2(53 + from)) {
        assert(52 + (from + 1) == 53 + from);
        lemma_shift_bounds(u, d, from + 1);
    }
}

proof fn lemma_quotient_bounds(u: int, by: int, low: int, high: int)
    requires
        by > 0,
        low * by <= u < high * by,
    ensures
        low <= u / by < high,
{
    let q = u / by;
    vstd::arithmetic::div_mod::lemma_fundamental_div_mod(u, by);
    vstd::arithmetic::div_mod::lemma_mod_bound(u, by);
    assert(low <= q) by (nonlinear_arith)
        requires
            low * by <= u,
            u < by * q + by,
            by > 0,
    ;
    assert(q < high) by (nonlinear_arith)
        requires
            u < high * by,
            by * q <= u,
            by > 0,
    ;
}

/// What rounding gives is a 64-bit floating point number.
pub proof fn rounding_gives_a_number(neg: bool, n: int, d: int)
    requires
        n >= 0,
        d > 0,
    ensures
        is_double(rounded(neg, n, d)),
{
    reveal(is_double);
    reveal(rounded);
    let u = n * pow2(1074);
    lemma_pow2_positive(1074);
    assert(u >= 0) by (nonlinear_arith)
        requires
            u == n * pow2(1074),
            n >= 0,
            pow2(1074) > 0,
    ;
    lemma_shift_bounds(u, d, 0);
    let k = shift_of(u, d, 0);
    let p = pow2(k);
    let by = d * p;
    let m = half_even(u, by);
    lemma_pow2_positive(k);
    lemma_pow2_positive(52);
    assert(pow2(53) == 2 * pow2(52));
    assert(by > 0) by (nonlinear_arith)
        requires
            by == d * p,
            d > 0,
            p > 0,
    ;
    if k < 2046 {
        lemma_pow2_sum(53, k);
        lemma_pow2_sum(52, k);
        let (f, h) = (pow2(53), pow2(52));
        assert(d * (f * p) == f * by) by (nonlinear_arith)
            requires
                by == d * p,
        ;
        assert(d * (h * p) == h * by) by (nonlinear_arith)
            requires
                by == d * p,
        ;
        let low = if k > 0 {
            h
        } else {
            0
        };
        assert(0 * by == 0);
        lemma_quotient_bounds(u, by, low, f);
        if m == f {
            assert(is_significand(h, k as int + 1) || k as int + 1 > 2045);
            assert(rounded(neg, n, d) == of_units(neg, h, k as int + 1));
        } else if m > 0 {
            assert(is_significand(m, k as int));
            assert(rounded(neg, n, d) == of_units(neg, m, k as int));
        }
    }
}

/// A value with no more than 53 binary digits, of which no more than 1074 stand
/// behind the point, is kept as it is.
pub proof fn representable_values_are_kept(neg: bool, n: int, d: int, m: int, j: nat)
    requires
        n >= 0,
        d > 0,
        0 < m < pow2(53),
        j <= 1074,
        n * pow2(j) == m * d,
    ensures
        match rounded(neg, n, d) {
            Quantity::Finite { neg: sign, num, scale } => {
                &&& sign == neg
                &&& scale >= 0
                &&& num * d == n * pow10(scale as nat)
            },
            _ => false,
        },
{
    reveal(rounded);
    let t = (1074 - j) as nat;
    let u = n * pow2(1074);
    lemma_pow2_sum(j, t);
    let (pj, pt) = (pow2(j), pow2(t));
    assert(u == m * (d * pt)) by (nonlinear_arith)
        requires
            u == n * (pj * pt),
            n * pj == m * d,
    ;
    lemma_shift_bounds(u, d, 0);
    let k = shift_of(u, d, 0);
    lemma_pow2_positive(t);
    lemma_pow2_sum(53, t);
    assert(u < d * (pow2(53) * pt)) by (nonlinear_arith)
        requires
            u == m * (d * pt),
            m < pow2(53),
            d > 0,
            pt > 0,
    ;
    // The value fits at the shift `t`, so the smallest shift is not above it.
    assert(k <= t) by {
        if k > t {
            lemma_pow2_grows(53 + t, (52 + k) as nat);
            let (a, b) = (pow2(53 + t), pow2((52 + k) as nat));
            assert(d * a <= d * b) by (nonlinear_arith)
                requires
                    a <= b,
                    d > 0,
            ;
        }
    }
    let i = (t - k) as nat;
    lemma_pow2_sum(i, k);
    lemma_pow2_positive(i);
    lemma_pow2_positive(k);
    let (pi, pk) = (pow2(i), pow2(k));
    let s = m * pi;
    let by = d * pk;
    assert(u == s * by) by (nonlinear_arith)
        requires
            u == m * (d * pt),
            pt == pi * pk,
            s == m * pi,
            by == d * pk,
    ;
    assert(by > 0) by (nonlinear_arith)
        requires
            by == d * pk,
            d > 0,
            pk > 0,
    ;
    lemma_exact(u, by, s);
    lemma_pow2_sum(53, k);
    assert(0 < s && s < pow2(53)) by (nonlinear_arith)
        requires
            s == m * pi,
            m > 0,
            pi > 0,
            u == s * by,
            by == d * pk,
            by > 0,
            u < d * (pow2(53) * pk),
    ;
    let scale = 1074 - k;
    lemma_pow10_parts(scale as nat);
    lemma_pow2_sum(scale as nat, k);
    let (f, w) = (pow5(scale as nat), pow2(scale as nat));
    if k < 1074 {
        assert((s * f) * d == n * (w * f)) by (nonlinear_arith)
            requires
                n * (w * pk) == s * (d * pk),
                pk > 0,
        ;
    } else {
        assert(pow2(0) == 1 && pow10(0) == 1 && pow5(0) == 1);
        assert((s * 1) * d == n * 1) by (nonlinear_arith)
            requires
                n * (w * pk) == s * (d * pk),
                w == 1,
                pk > 0,
        ;
    }
}

/// Quantities that are worth the same are shown the same.
pub proof fn equal_values_look_equal(neg: bool, n: int, d: int, m: int, e: int, places: int)
    requires
        n >= 0,
        m >= 0,
        d > 0,
        e > 0,
        n * e == m * d,
        places >= 0,
    ensures
        fixed(neg, n, d, places) == fixed(neg, m, e, places),
{
    let p = pow10(places as nat);
    lemma_pow10_positive(places as nat);
    let (a, b) = (n * p, m * p);
    assert(a * e == b * d) by (nonlinear_arith)
        requires
            n * e == m * d,
            a == n * p,
            b == m * p,
    ;
    let q = a / d;
    let r = a % d;
    vstd::arithmetic::div_mod::lemma_fundamental_div_mod(a, d);
    vstd::arithmetic::div_mod::lemma_mod_bound(a, d);
    let s = b - q * e;
    assert(s * d == r * e) by (nonlinear_arith)
        requires
            a * e == b * d,
            a == d * q + r,
            s == b - q * e,
    ;
    assert(0 <= s && s < e) by (nonlinear_arith)
        requires
            s * d == r * e,
            0 <= r,
            r < d,
            d > 0,
            e > 0,
    ;
    vstd::arithmetic::div_mod::lemma_fundamental_div_mod_converse(b, e, q, s);
    assert((2 * r < d) == (2 * s < e) && (2 * r == d) == (2 * s == e)) by (nonlinear_arith)
        requires
            s * d == r * e,
            d > 0,
            e > 0,
    ;
}

proof fn lemma_units_are_worth(neg: bool, m: int, k: int)
    requires
        m > 0,
        0 <= k <= 2045,
    ensures
        match of_units(neg, m, k) {
            Quantity::Finite { neg: sign, num, scale } => {
                &&& sign == neg
                &&& num > 0
                &&& scale >= 0
                &&& num * pow2(1074) == m * (pow10(scale as nat) * pow2(k as nat))
            },
            _ => false,
        },
{
    if k >= 1074 {
        let i = (k - 1074) as nat;
        lemma_pow2_sum(i, 1074);
        lemma_pow2_positive(i);
        assert(pow10(0) == 1);
        let (p, q) = (pow2(i), pow2(1074));
        assert((m * p) * q == m * (1 * (p * q))) by (nonlinear_arith);
        assert(m * p > 0) by (nonlinear_arith)
            requires
                m > 0,
                p > 0,
        ;
    } else {
        let i = (1074 - k) as nat;
        lemma_pow2_sum(i, k as nat);
        lemma_pow10_parts(i);
        lemma_pow5_positive(i);
        let (f, t, w) = (pow5(i), pow2(i), pow2(k as nat));
        assert((m * f) * (t * w) == m * ((t * f) * w)) by (nonlinear_arith);
        assert(m * f > 0) by (nonlinear_arith)
            requires
                m > 0,
                f > 0,
        ;
    }
}

proof fn lemma_half_even_error(u: int, by: int)
    requires
        by > 0,
    ensures
        -by <= 2 * (half_even(u, by) * by - u) <= by,
{
    let q = u / by;
    vstd::arithmetic::div_mod::lemma_fundamental_div_mod(u, by);
    vstd::arithmetic::div_mod::lemma_mod_bound(u, by);
    assert(by * q == q * by) by (nonlinear_arith);
    assert((q + 1) * by == q * by + by) by (nonlinear_arith);
}

/// The shift at which a number of ordinary size is rounded.
proof fn lemma_ordinary_shift(n: int, d: int)
    requires
        0 < n <= d * pow2(1000),
        0 < d <= n * pow2(1000),
    ensures
        ({
            let u = n * pow2(1074);
            let k = shift_of(u, d, 0);
            &&& 0 < k < 2045
            &&& pow2(52) * (d * pow2(k)) <= u
        }),
{
    let u = n * pow2(1074);
    let k = shift_of(u, d, 0);
    lemma_shift_bounds(u, d, 0);
    lemma_pow2_sum(1000, 74);
    lemma_pow2_sum(1000, 1074);
    lemma_pow2_grows(53, 74);
    lemma_pow2_positive(53);
    lemma_pow2_positive(1074);
    let (a, b, c, f) = (pow2(1000), pow2(74), pow2(1074), pow2(53));
    assert(u >= d * f) by (nonlinear_arith)
        requires
            u == n * (a * b),
            d <= n * a,
            d > 0,
            b >= f,
            f > 0,
    ;
    assert(u <= d * (a * c)) by (nonlinear_arith)
        requires
            u == n * c,
            n <= d * a,
            c > 0,
    ;
    if k == 0 {
        assert(53 + k == 53);
    } else {
        if k >= 2045 {
            let e = pow2((52 + k) as nat);
            lemma_pow2_grows(2075, (52 + k) as nat);
            lemma_pow2_positive(2074);
            assert(pow2(2075) == 2 * pow2(2074));
            assert(d * e > d * (a * c)) by (nonlinear_arith)
                requires
                    e > a * c,
                    d > 0,
            ;
        }
        lemma_pow2_sum(52, k);
        let (h, p) = (pow2(52), pow2(k));
        assert(d * (h * p) == h * (d * p)) by (nonlinear_arith);
    }
}

/// Rounding a number of ordinary size changes it by no more than one part in two
/// to the 53.
pub proof fn rounding_is_precise(neg: bool, n: int, d: int)
    requires
        0 < n <= d * pow2(1000),
        0 < d <= n * pow2(1000),
    ensures
        match rounded(neg, n, d) {
            Quantity::Finite { neg: sign, num, scale } => {
                let p = pow10(scale as nat);
                &&& sign == neg
                &&& num > 0
                &&& scale >= 0
                &&& -(n * p) <= (num * d - n * p) * pow2(53) <= n * p
            },
            _ => false,
        },
{
    reveal(rounded);
    lemma_ordinary_shift(n, d);
    let c = pow2(1074);
    let u = n * c;
    let k = shift_of(u, d, 0);
    let w = pow2(k);
    let by = d * w;
    let m = half_even(u, by);
    let h = pow2(52);
    lemma_pow2_positive(k);
    lemma_pow2_positive(52);
    lemma_pow2_positive(1074);
    assert(pow2(53) == 2 * h);
    assert(by > 0) by (nonlinear_arith)
        requires
            by == d * w,
            d > 0,
            w > 0,
    ;
    lemma_half_even_error(u, by);
    let off = m * by - u;
    assert(m > 0) by (nonlinear_arith)
        requires
            -by <= 2 * (m * by - u),
            h * by <= u,
            h > 0,
            by > 0,
    ;
    assert(-u <= off * (2 * h) <= u) by (nonlinear_arith)
        requires
            -by <= 2 * off <= by,
            h * by <= u,
            h > 0,
    ;
    let (m2, k2) = if m == pow2(53) {
        (h, k + 1)
    } else {
        (m, k)
    };
    let w2 = pow2(k2);
    assert(m2 * w2 == m * w) by (nonlinear_arith)
        requires
            m2 == m && w2 == w || m == 2 * h && m2 == h && w2 == 2 * w,
    ;
    lemma_units_are_worth(neg, m2, k2 as int);
    if let Quantity::Finite { neg: sign, num, scale } = of_units(neg, m2, k2 as int) {
        let p = pow10(scale as nat);
        lemma_pow10_positive(scale as nat);
        let e = num * d - n * p;
        let v = m * w;
        assert(num * c == p * v) by (nonlinear_arith)
            requires
                num * c == m2 * (p * w2),
                m2 * w2 == v,
        ;
        assert(m * by == v * d) by (nonlinear_arith)
            requires
                by == d * w,
                v == m * w,
        ;
        assert((num * d - n * p) * c == (num * c) * d - (n * c) * p) by (nonlinear_arith);
        assert((p * v) * d - u * p == p * (v * d - u)) by (nonlinear_arith);
        let f = 2 * h;
        assert(e * f <= n * p) by (nonlinear_arith)
            requires
                e * c == p * off,
                off * f <= n * c,
                p > 0,
                c > 0,
        ;
        assert(e * f >= -(n * p)) by (nonlinear_arith)
            requires
                e * c == p * off,
                off * f >= -(n * c),
                p > 0,
                c > 0,
        ;
    }
}

/// Rounding keeps the sign, and gives a number of ordinary size or an infinite one.
pub(crate) proof fn lemma_rounded_shape(neg: bool, n: int, d: int)
    requires
        n >= 0,
        d > 0,
    ensures
        match rounded(neg, n, d) {
            Quantity::NotANumber => false,
            Quantity::Infinite { neg: sign } => sign == neg,
            Quantity::Finite { neg: sign, num, scale } => sign == neg && num >= 0 && scale >= 0,
        },
{
    rounding_gives_a_number(neg, n, d);
    reveal(rounded);
    if let Quantity::Finite { neg: sign, num, scale } = rounded(neg, n, d) {
        lemma_double_is_natural(sign, num, scale);
    }
}

pub(crate) proof fn lemma_powers()
    ensures
        pow2(0) == 1,
        pow2(1) == 2,
        pow2(53) == 0x20_0000_0000_0000,
        pow2(1000) >= 0x1_0000_0000_0000_0000,
        pow10(0) == 1,
{
    lemma_pow2_sum(26, 27);
    lemma_pow2_sum(53, 11);
    assert(pow2(26) == 0x400_0000 && pow2(27) == 0x800_0000 && pow2(11) == 2048 && pow2(1) == 2) by {
        reveal_with_fuel(pow2, 28);
    }
    lemma_pow2_grows(64, 1000);
}

pub(crate) proof fn lemma_zero_is_rounded(d: int)
    requires
        d > 0,
    ensures
        rounded(false, 0, d) == (Quantity::Finite { neg: false, num: 0, scale: 0 }),
{
    reveal(rounded);
    lemma_pow2_positive(53);
    let p = pow2(53);
    assert(d * p > 0) by (nonlinear_arith)
        requires
            d > 0,
            p > 0,
    ;
    assert(0 * pow2(1074) == 0);
    assert(pow2(0) == 1);
    assert(d * pow2(0) == d);
    assert(shift_of(0, d, 0) == 0);
    lemma_powers();
}

/// Whether a quantity is not below zero and worth `n / d`.
pub open spec fn is_worth(q: Quantity, n: int, d: int) -> bool {
    match q {
        Quantity::Finite { neg, num, scale } => !neg && num >= 0 && scale >= 0 && num * d == n
            * pow10(scale as nat),
        _ => false,
    }
}

/// Whether a quantity is worth `n / d` up to one part in two to the 53.
pub open spec fn is_near(q: Quantity, n: int, d: int) -> bool {
    match q {
        Quantity::Finite { neg, num, scale } => !neg && num >= 0 && scale >= 0 && -(n * pow10(
            scale as nat,
        )) <= (num * d - n * pow10(scale as nat)) * 0x20_0000_0000_0000 <= n * pow10(
            scale as nat,
        ),
        _ => false,
    }
}

/// A fraction whose value has no more than 53 binary digits is rounded to that value.
pub(crate) proof fn lemma_rounds_to_its_worth(x: int, y: int, n: int, d: int, m: int, j: nat)
    requires
        x >= 0,
        y > 0,
        n >= 0,
        d > 0,
        x * d == n * y,
        n * pow2(j) == m * d,
        0 <= m < 0x20_0000_0000_0000,
        j <= 1074,
    ensures
        is_worth(rounded(false, x, y), n, d),
{
    lemma_powers();
    lemma_pow2_positive(j);
    let t = pow2(j);
    if m == 0 {
        assert(n == 0) by (nonlinear_arith)
            requires
                n * t == 0 * d,
                t >= 1,
        ;
        assert(x == 0) by (nonlinear_arith)
            requires
                x * d == 0 * y,
                d > 0,
        ;
        lemma_zero_is_rounded(y);
    } else {
        assert(x * t == m * y) by (nonlinear_arith)
            requires
                x * d == n * y,
                n * t == m * d,
                d > 0,
        {
            assert(x * t * d == m * y * d) by {
                assert(x * t * d == x * d * t);
                assert(n * y * t == n * t * y);
                assert(m * d * y == m * y * d);
            }
        }
        representable_values_are_kept(false, x, y, m, j);
        lemma_rounded_shape(false, x, y);
        if let Quantity::Finite { num, scale, .. } = rounded(false, x, y) {
            let p = pow10(scale as nat);
            assert(num * d == n * p) by (nonlinear_arith)
                requires
                    num * y == x * p,
                    x * d == n * y,
                    y > 0,
            {
                assert(num * d * y == n * p * y) by {
                    assert(num * d * y == num * y * d);
                    assert(x * p * d == x * d * p);
                    assert(n * y * p == n * p * y);
                }
            }
        }
    }
}

pub(crate) proof fn lemma_worth_whole(q: Quantity, a: int)
    requires
        is_worth(q, a, 1),
    ensures
        match q {
            Quantity::Finite { neg, num, scale } => !neg && scale >= 0 && num == a * pow10(
                scale as nat,
            ),
            _ => false,
        },
        a >= 0,
        is_worth(whole(a), a, 1),
{
    lemma_powers();
    if let Quantity::Finite { neg, num, scale } = q {
        let p = pow10(scale as nat);
        lemma_pow10_positive(scale as nat);
        assert(a >= 0) by (nonlinear_arith)
            requires
                num >= 0,
                num == a * p,
                p >= 1,
        ;
    }
}

/// Whole numbers are calculated with exactly, as long as all have no more than 53
/// binary digits.
pub proof fn whole_numbers_are_exact(x: Quantity, y: Quantity, a: int, b: int)
    requires
        is_worth(x, a, 1),
        is_worth(y, b, 1),
        a < 0x20_0000_0000_0000,
        b < 0x20_0000_0000_0000,
    ensures
        0 < b && a * b < 0x20_0000_0000_0000 ==> is_worth(product(x, b), a * b, 1),
        a + b < 0x20_0000_0000_0000 ==> is_worth(sum(x, y), a + b, 1),
        a >= b ==> is_worth(sum(x, negated(y)), a - b, 1),
        a < b ==> at_most_zero(sum(x, negated(y))) && !positive(sum(x, negated(y))),
{
    lemma_powers();
    lemma_worth_whole(x, a);
    lemma_worth_whole(y, b);
    if let Quantity::Finite { num: u, scale: us, .. } = x {
        if let Quantity::Finite { num: v, scale: vs, .. } = y {
            let p = pow10(us as nat);
            let r = pow10(vs as nat);
            lemma_pow10_positive(us as nat);
            lemma_pow10_positive(vs as nat);
            assert(p * r > 0 && u * r == a * (p * r) && v * p == b * (p * r)) by (nonlinear_arith)
                requires
                    p > 0,
                    r > 0,
                    u == a * p,
                    v == b * r,
            ;
            if 0 < b && a * b < 0x20_0000_0000_0000 {
                assert(u * b == (a * b) * p && u * b >= 0 && a * b >= 0) by (nonlinear_arith)
                    requires
                        u == a * p,
                        a >= 0,
                        b > 0,
                        p > 0,
                ;
                lemma_rounds_to_its_worth(u * b, p, a * b, 1, a * b, 0);
            }
            let n = a * (p * r) + b * (p * r);
            assert(n == (a + b) * (p * r) && n >= 0 && (a + b > 0 ==> n > 0)) by (nonlinear_arith)
                requires
                    n == a * (p * r) + b * (p * r),
                    p * r > 0,
                    a >= 0,
                    b >= 0,
            ;
            if a + b < 0x20_0000_0000_0000 {
                if n == 0 {
                    assert(a + b == 0);
                } else {
                    lemma_rounds_to_its_worth(n, p * r, a + b, 1, a + b, 0);
                }
            }
            let e = a * (p * r) - b * (p * r);
            assert(e == (a - b) * (p * r) && (a > b ==> e > 0) && (a < b ==> e < 0))
                by (nonlinear_arith)
                requires
                    e == a * (p * r) - b * (p * r),
                    p * r > 0,
            ;
            if a > b {
                lemma_rounds_to_its_worth(e, p * r, a - b, 1, a - b, 0);
            } else if a < b {
                lemma_rounded_shape(true, -e, p * r);
            }
        }
    }
}

/// A quotient that has no more than 53 binary digits is exact.
pub proof fn quotients_are_exact(x: Quantity, y: Quantity, a: int, b: int, m: int, j: nat)
    requires
        is_worth(x, a, 1),
        is_worth(y, b, 1),
        b > 0,
        0 <= m < 0x20_0000_0000_0000,
        j <= 1074,
        a * pow2(j) == m * b,
    ensures
        is_worth(quotient(x, y), a, b),
{
    lemma_worth_whole(x, a);
    lemma_worth_whole(y, b);
    if let Quantity::Finite { num: u, scale: us, .. } = x {
        if let Quantity::Finite { num: v, scale: vs, .. } = y {
            let p = pow10(us as nat);
            let r = pow10(vs as nat);
            lemma_pow10_positive(us as nat);
            lemma_pow10_positive(vs as nat);
            assert(u * r >= 0 && v * p > 0 && (u * r) * b == a * (v * p)) by (nonlinear_arith)
                requires
                    p > 0,
                    r > 0,
                    a >= 0,
                    b > 0,
                    u == a * p,
                    v == b * r,
            ;
            lemma_rounds_to_its_worth(u * r, v * p, a, b, m, j);
        }
    }
}

/// A quotient of whole numbers of ordinary size is off by no more than one part in two
/// to the 53.
pub proof fn quotients_are_precise(x: Quantity, y: Quantity, a: int, b: int)
    requires
        is_worth(x, a, 1),
        is_worth(y, b, 1),
        0 < a < 0x20_0000_0000_0000,
        0 < b < 0x20_0000_0000_0000,
    ensures
        is_near(quotient(x, y), a, b),
{
    lemma_powers();
    lemma_worth_whole(x, a);
    lemma_worth_whole(y, b);
    if let Quantity::Finite { num: u, scale: us, .. } = x {
        if let Quantity::Finite { num: v, scale: vs, .. } = y {
            let p = pow10(us as nat);
            let r = pow10(vs as nat);
            lemma_pow10_positive(us as nat);
            lemma_pow10_positive(vs as nat);
            assert(p * r > 0 && u * r == a * (p * r) && v * p == b * (p * r)) by (nonlinear_arith)
                requires
                    p > 0,
                    r > 0,
                    u == a * p,
                    v == b * r,
            ;
            lemma_near(u * r, v * p, a, b, p * r);
        }
    }
}

/// Rounding a fraction of ordinary size, whatever its terms have in common.
proof fn lemma_near(x: int, y: int, a: int, b: int, c: int)
    requires
        0 < a < 0x20_0000_0000_0000,
        0 < b < 0x20_0000_0000_0000_0000_0000_0000_0000_0000,
        c > 0,
        x == a * c,
        y == b * c,
    ensures
        is_near(rounded(false, x, y), a, b),
{
    lemma_powers();
    lemma_wide_powers();
    let t = pow2(1000);
    assert(0 < x <= y * t && 0 < y <= x * t) by (nonlinear_arith)
        requires
            0 < a < 0x20_0000_0000_0000,
            0 < b < 0x20_0000_0000_0000_0000_0000_0000_0000_0000,
            c > 0,
            x == a * c,
            y == b * c,
            t >= 0x1_0000_0000_0000_0000_0000_0000_0000_0000_0000_0000_0000_0000,
    {
        assert(a * c <= 0x20_0000_0000_0000 * c);
        assert(b * c <= 0x20_0000_0000_0000_0000_0000_0000_0000_0000 * c);
        assert(b * c >= c && a * c >= c);
        assert(y * t >= c * t && x * t >= c * t);
        assert(c * t >= 0x1_0000_0000_0000_0000_0000_0000_0000_0000_0000_0000_0000_0000 * c);
    }
    rounding_is_precise(false, x, y);
    if let Quantity::Finite { num, scale, .. } = rounded(false, x, y) {
        let p = pow10(scale as nat);
        let k: int = 0x20_0000_0000_0000;
        assert(num * y == (num * b) * c && x * p == (a * p) * c) by (nonlinear_arith)
            requires
                x == a * c,
                y == b * c,
        ;
        let g = num * b - a * p;
        let e = g * k;
        assert((num * y - x * p) * k == e * c) by (nonlinear_arith)
            requires
                num * y == (num * b) * c,
                x * p == (a * p) * c,
                g == num * b - a * p,
                e == g * k,
        {
            assert((num * b) * c - (a * p) * c == g * c);
            assert(g * c * k == g * k * c);
        }
        assert(-(a * p) <= e <= a * p) by (nonlinear_arith)
            requires
                -(a * p * c) <= e * c <= a * p * c,
                c > 0,
        ;
    }
}

proof fn lemma_wide_powers()
    ensures
        pow2(1000) >= 0x1_0000_0000_0000_0000_0000_0000_0000_0000_0000_0000_0000_0000,
{
    lemma_powers();
    lemma_pow2_sum(53, 11);
    assert(pow2(11) == 2048) by {
        reveal_with_fuel(pow2, 12);
    }
    lemma_pow2_sum(64, 64);
    lemma_pow2_sum(128, 64);
    lemma_pow2_grows(192, 1000);
}

pub(crate) proof fn lemma_dec_len(n: int, k: nat)
    requires
        0 <= n < pow10(k),
        k >= 1,
    ensures
        dec(n).len() <= k,
    decreases k,
{
    reveal_with_fuel(pow10, 2);
    if n >= 10 {
        lemma_dec_len(n / 10, (k - 1) as nat);
    }
}

proof fn lemma_mark_none(s: Seq<char>, i: int)
    requires
        0 <= i <= s.len(),
        forall|j: int| 0 <= j < s.len() ==> is_digit(#[trigger] s[j]) || s[j] == '.',
    ensures
        mark_from(s, i) == s.len(),
    decreases s.len() - i,
{
    if i < s.len() {
        assert(is_digit(s[i]) || s[i] == '.');
        lemma_mark_none(s, i + 1);
    }
}

proof fn lemma_dot_is(s: Seq<char>, k: int, i: int)
    requires
        0 <= i <= k < s.len(),
        s[k] == '.',
        forall|j: int| 0 <= j < k ==> is_digit(#[trigger] s[j]),
    ensures
        find_from(s, '.', i) == k,
    decreases k - i,
{
    if i < k {
        assert(is_digit(s[i]));
        lemma_dot_is(s, k, i + 1);
    }
}

proof fn lemma_value_joins(a: Seq<char>, b: Seq<char>)
    requires
        all_digits(b),
    ensures
        value(a + b) == value(a) * pow10(b.len()) + value(b),
        0 <= value(b) < pow10(b.len()),
    decreases b.len(),
{
    if b.len() == 0 {
        assert(a + b =~= a);
    } else {
        let c = b.drop_last();
        assert(all_digits(c));
        lemma_value_joins(a, c);
        assert((a + b).drop_last() =~= a + c);
        assert(is_digit(b.last()));
        let p = pow10(c.len());
        let v = value(a);
        assert(pow10(b.len()) == 10 * p);
        assert((v * p) * 10 == v * (10 * p)) by (nonlinear_arith);
    }
}

proof fn lemma_body_is_read(s: Seq<char>)
    requires
        s.len() > 0,
        is_digit(s[0]),
    ensures
        quantity_of(s) == unsigned_of(s, false),
        quantity_of(seq!['-'] + s) == unsigned_of(s, true),
        quantity_of(seq!['+'] + s) == unsigned_of(s, false),
{
    reveal_strlit("nan");
    reveal_strlit("inf");
    reveal_strlit("infinity");
    assert(ascii_lower(s)[0] == s[0]);
    assert("nan"@[0] == 'n' && "inf"@[0] == 'i' && "infinity"@[0] == 'i');
    assert((seq!['-'] + s).drop_first() =~= s);
    assert((seq!['+'] + s).drop_first() =~= s);
}

/// Digits are read as the number they write down, and with a point among them as that
/// many tenths, hundredths and so on.
pub(crate) proof fn lemma_digits_are_read(a: int, f: Seq<char>)
    requires
        a >= 0,
        all_digits(f),
        f.len() <= 20,
        a * pow10(f.len()) + value(f) < 0x20_0000_0000_0000,
    ensures
        quantity_of(dec(a) + seq!['.'] + f) == Some(
            rounded(false, a * pow10(f.len()) + value(f), pow10(f.len())),
        ),
        f.len() == 0 ==> quantity_of(dec(a)) == Some(rounded(false, a, 1)),
        f.len() == 0 ==> quantity_of(seq!['-'] + dec(a)) == Some(rounded(true, a, 1)) || a == 0,
        0 <= value(f) < pow10(f.len()),
{
    dec_is_its_value(a);
    lemma_powers();
    let s = dec(a) + seq!['.'] + f;
    let k = dec(a).len() as int;
    assert forall|j: int| 0 <= j < s.len() implies is_digit(#[trigger] s[j]) || s[j] == '.' by {
        if j < k {
            assert(s[j] == dec(a)[j]);
        } else if j > k {
            assert(s[j] == f[j - k - 1]);
        }
    }
    lemma_mark_none(s, 0);
    assert(s.take(s.len() as int) =~= s);
    assert forall|j: int| 0 <= j < k implies is_digit(#[trigger] s[j]) by {
        assert(s[j] == dec(a)[j]);
    }
    lemma_dot_is(s, k, 0);
    assert(whole_part(s) =~= dec(a));
    assert(fraction_part(s) =~= f);
    lemma_value_joins(dec(a), f);
    let n = a * pow10(f.len()) + value(f);
    assert(n >= 0) by (nonlinear_arith)
        requires
            n == a * pow10(f.len()) + value(f),
            a >= 0,
            pow10(f.len()) > 0,
            value(f) >= 0,
    ;
    assert(pow10(16) == 10_000_000_000_000_000) by {
        reveal_with_fuel(pow10, 17);
    }
    lemma_dec_len(n, 16);
    dec_is_its_value(n);
    assert(s[0] == dec(a)[0]);
    lemma_body_is_read(s);
    lemma_pow10_positive(f.len());
    if n == 0 {
        lemma_zero_is_rounded(pow10(f.len()));
    }
    if f.len() == 0 {
        let d = dec(a);
        assert(n == a);
        assert forall|j: int| 0 <= j < d.len() implies is_digit(#[trigger] d[j]) || d[j] == '.' by {
        }
        lemma_mark_none(d, 0);
        assert(d.take(d.len() as int) =~= d);
        lemma_no_dot(d, 0);
        assert(whole_part(d) =~= d);
        assert(fraction_part(d) =~= Seq::empty());
        assert(d + Seq::<char>::empty() =~= d);
        assert(a * pow10(0) == a);
        lemma_body_is_read(d);
    }
}

/// A whole number that was printed is read as that number.
pub proof fn whole_numbers_are_read(n: int)
    requires
        0 <= n < 0x20_0000_0000_0000,
    ensures
        quantity_of(dec(n)) matches Some(q) && is_worth(q, n, 1),
        n > 0 ==> (quantity_of(seq!['-'] + dec(n)) matches Some(q) && is_worth(negated(q), n, 1)
            && at_most_zero(q) && !positive(q)),
{
    lemma_powers();
    assert(value(Seq::<char>::empty()) == 0);
    lemma_digits_are_read(n, Seq::empty());
    lemma_rounds_to_its_worth(n, 1, n, 1, n, 0);
    lemma_rounded_shape(true, n, 1);
    assert(rounded(true, n, 1) == negated(rounded(false, n, 1)) && rounded(false, n, 1) == negated(
        rounded(true, n, 1),
    )) by {
        reveal(rounded);
        lemma_rounded_shape(false, n, 1);
    }
}

/// A number with digits behind the point is read as that number, up to one part in two
/// to the 53.
pub proof fn fractions_are_read(a: int, f: Seq<char>)
    requires
        a >= 0,
        forall|i: int| 0 <= i < f.len() ==> '0' <= #[trigger] f[i] <= '9',
        f.len() <= 20,
        0 < a * pow10(f.len()) + value(f) < 0x20_0000_0000_0000,
    ensures
        quantity_of(dec(a) + seq!['.'] + f) matches Some(q) && is_near(
            q,
            a * pow10(f.len()) + value(f),
            pow10(f.len()),
        ),
        0 <= value(f) < pow10(f.len()),
{
    assert(all_digits(f));
    lemma_digits_are_read(a, f);
    lemma_pow10_positive(f.len());
    let d = pow10(f.len());
    assert(d <= 100_000_000_000_000_000_000) by {
        assert(pow10(20) == 100_000_000_000_000_000_000) by {
            reveal_with_fuel(pow10, 21);
        }
        crate::natural::lemma_pow10_sum(f.len(), (20 - f.len()) as nat);
        lemma_pow10_positive((20 - f.len()) as nat);
        let e = pow10((20 - f.len()) as nat);
        assert(d <= d * e) by (nonlinear_arith)
            requires
                d >= 1,
                e >= 1,
        ;
    }
    let n = a * d + value(f);
    lemma_near(n, d, n, d, 1);
}

/// A whole number behind the mark `e` is a power of ten.
pub proof fn exponents_shift_the_point(n: int, e: nat)
    requires
        0 < n,
        e <= 15,
        n * pow10(e) < 0x20_0000_0000_0000,
    ensures
        quantity_of(dec(n) + seq!['e'] + dec(e as int)) matches Some(q) && is_worth(
            q,
            n * pow10(e),
            1,
        ),
{
    lemma_powers();
    dec_is_its_value(n);
    dec_is_its_value(e as int);
    lemma_pow10_positive(e);
    let rest = seq!['e'] + dec(e as int);
    let s = dec(n) + rest;
    assert(s =~= dec(n) + seq!['e'] + dec(e as int));
    lemma_no_mark(dec(n), rest, 0);
    lemma_no_dot(dec(n), 0);
    let m = s.take(mark_from(s, 0));
    assert(m =~= dec(n));
    assert(whole_part(m) =~= dec(n));
    assert(fraction_part(m) =~= Seq::empty());
    assert(dec(n) + Seq::<char>::empty() =~= dec(n));
    assert(s.skip(dec(n).len() as int + 1) =~= dec(e as int));
    crate::number::printed_number_reads_back(e as int);
    assert(exponent_of(s) == Some(e as int));
    assert(pow10(16) == 10_000_000_000_000_000) by {
        reveal_with_fuel(pow10, 17);
    }
    let p = pow10(e);
    assert(n <= n * p) by (nonlinear_arith)
        requires
            n > 0,
            p >= 1,
    ;
    lemma_dec_len(n, 16);
    assert(s[0] == dec(n)[0]);
    lemma_body_is_read(s);
    assert(quantity_of(s) == Some(rounded(false, n * p, 1)));
    lemma_rounds_to_its_worth(n * p, 1, n * p, 1, n * p, 0);
}

/// Rounding to a whole number goes to the nearest one, and halfway between two to the
/// even one.
pub proof fn halves_go_to_the_even_number(n: int, d: int, w: int)
    requires
        d > 0,
    ensures
        -d <= 2 * (half_even(n, d) * d - n) <= d,
        -d < 2 * (w * d - n) < d ==> half_even(n, d) == w,
        2 * (w * d - n) == d && w % 2 == 0 ==> half_even(n, d) == w,
        2 * (n - w * d) == d && w % 2 == 0 ==> half_even(n, d) == w,
{
    lemma_half_even_error(n, d);
    let h = half_even(n, d);
    let q = n / d;
    vstd::arithmetic::div_mod::lemma_fundamental_div_mod(n, d);
    vstd::arithmetic::div_mod::lemma_mod_bound(n, d);
    assert(d * q == q * d) by (nonlinear_arith);
    if -d < 2 * (w * d - n) < d {
        assert(h == w) by (nonlinear_arith)
            requires
                -d <= 2 * (h * d - n) <= d,
                -d < 2 * (w * d - n) < d,
                d > 0,
        {
            assert(-2 * d < 2 * ((h - w) * d) < 2 * d);
        }
    }
    if 2 * (w * d - n) == d {
        assert(q == w - 1) by (nonlinear_arith)
            requires
                2 * (w * d - n) == d,
                0 <= n - q * d < d,
                d > 0,
        {
            assert(-d < (w - 1 - q) * d < d);
        }
        assert((w - 1) * d == w * d - d) by (nonlinear_arith);
    }
    if 2 * (n - w * d) == d {
        assert(q == w) by (nonlinear_arith)
            requires
                2 * (n - w * d) == d,
                0 <= n - q * d < d,
                d > 0,
        {
            assert(-d < (w - q) * d < d);
        }
    }
}

/// A quantity is shown as the number with the asked places that is nearest to it.
pub proof fn nearest_is_shown(q: Quantity, w: int, k: nat)
    requires
        w >= 0,
        match q {
            Quantity::Finite { neg, num, scale } => scale >= 0 && -pow10(scale as nat) < 2 * (w
                * pow10(scale as nat) - num * pow10(k)) < pow10(scale as nat),
            _ => false,
        },
    ensures
        q matches Quantity::Finite { neg, .. } && shown(q, k as int) == (if neg {
            seq!['-']
        } else {
            seq![]
        }) + dec(w / pow10(k)) + (if k > 0 {
            seq!['.'] + padded(w % pow10(k), k as int)
        } else {
            seq![]
        }),
{
    if let Quantity::Finite { neg, num, scale } = q {
        lemma_pow10_positive(scale as nat);
        halves_go_to_the_even_number(num * pow10(k), pow10(scale as nat), w);
    }
}

/// The digits behind the point are as many as were asked for, and write down the rest.
pub proof fn places_are_filled_up(n: int, k: nat)
    requires
        0 <= n < pow10(k),
        k >= 1,
    ensures
        padded(n, k as int).len() == k,
        value(padded(n, k as int)) == n,
        forall|i: int| 0 <= i < k ==> '0' <= #[trigger] padded(n, k as int)[i] <= '9',
        0 <= n < 10 ==> padded(n, 2) == seq!['0', (48 + n) as char],
        10 <= n < 100 ==> padded(n, 2) == seq![(48 + n / 10) as char, (48 + n % 10) as char],
{
    lemma_dec_len(n, k);
    dec_is_its_value(n);
    let z = zeros(k - dec(n).len());
    assert(all_digits(z));
    lemma_value_joins(z, dec(n));
    lemma_zeros_are_worth_nothing((k - dec(n).len()) as nat);
    let p = padded(n, k as int);
    assert forall|i: int| 0 <= i < k implies '0' <= #[trigger] p[i] <= '9' by {
        if i >= z.len() {
            assert(is_digit(dec(n)[i - z.len()]));
            if dec(n).len() < k {
                assert(p[i] == dec(n)[i - z.len()]);
            }
        }
    }
    assert(0 * pow10(dec(n).len()) == 0);
    if n < 10 {
        assert(padded(n, 2) =~= seq!['0', (48 + n) as char]);
    } else if n < 100 {
        reveal_with_fuel(dec, 2);
        assert(padded(n, 2) =~= seq![(48 + n / 10) as char, (48 + n % 10) as char]);
    }
}

proof fn lemma_zeros_are_worth_nothing(k: nat)
    ensures
        value(zeros(k as int)) == 0,
    decreases k,
{
    if k > 0 {
        assert(zeros(k as int).drop_last() =~= zeros(k - 1));
        lemma_zeros_are_worth_nothing((k - 1) as nat);
    }
}

/// The nearest whole number of a quantity, halves away from zero.
pub proof fn halves_go_away_from_zero(q: Quantity, w: int)
    requires
        0 <= w <= i64::MAX,
        match q {
            Quantity::Finite { neg, num, scale } => num >= 0 && scale >= 0 && 2 * num - pow10(
                scale as nat,
            ) < 2 * (w * pow10(scale as nat)) <= 2 * num + pow10(scale as nat),
            _ => false,
        },
    ensures
        positive(q) ==> nearest_whole(q) == w,
        positive(negated(q)) ==> nearest_whole(q) == -w,
{
    if let Quantity::Finite { neg, num, scale } = q {
        let p = pow10(scale as nat);
        lemma_pow10_positive(scale as nat);
        let r = 2 * num + p - 2 * (w * p);
        assert((2 * num + p) / (2 * p) == w) by {
            assert(2 * num + p == w * (2 * p) + r) by (nonlinear_arith)
                requires
                    r == 2 * num + p - 2 * (w * p),
            ;
            vstd::arithmetic::div_mod::lemma_fundamental_div_mod_converse(
                2 * num + p,
                2 * p,
                w,
                r,
            );
        }
    }
}

/// How a quantity compares is how what it is worth compares.
pub proof fn worth_is_compared(q: Quantity, n: int, d: int, top: int)
    requires
        is_worth(q, n, d),
        n >= 0,
        d > 0,
        top > 0,
    ensures
        positive(q) <==> n > 0,
        at_most_zero(q) <==> n == 0,
        at_least(q, top) <==> n >= top * d,
        n >= top * d ==> held_below(q, top) == whole(top),
        n < top * d ==> held_below(q, top) == q,
        n > 0 ==> held_below(negated(q), top) == zero(),
        !positive(negated(q)),
        at_most_zero(negated(q)),
        !at_least(negated(q), top),
{
    if let Quantity::Finite { neg, num, scale } = q {
        let p = pow10(scale as nat);
        lemma_pow10_positive(scale as nat);
        assert(num > 0 <==> n > 0) by (nonlinear_arith)
            requires
                num * d == n * p,
                num >= 0,
                n >= 0,
                d > 0,
                p > 0,
        ;
        assert(num >= top * p <==> n >= top * d) by (nonlinear_arith)
            requires
                num * d == n * p,
                d > 0,
                p > 0,
        {
            if num >= top * p {
                assert(n * p == num * d >= top * p * d);
                assert((n - top * d) * p >= 0);
            }
            if n >= top * d {
                assert(num * d == n * p >= top * d * p);
                assert((num - top * p) * d >= 0);
            }
        }
    }
}

} // verus!
