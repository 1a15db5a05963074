//! Natural numbers of any size, as vectors of decimal digits.
use vstd::prelude::*;
use crate::number::dec;

verus! {

/// Ten to the power `k`.
pub open spec fn pow10(k: nat) -> int
    decreases k,
{
    if k == 0 {
        1
    } else {
        10 * pow10((k - 1) as nat)
    }
}

/// Two to the power `k`.
pub open spec fn pow2(k: nat) -> int
    decreases k,
{
    if k == 0 {
        1
    } else {
        2 * pow2((k - 1) as nat)
    }
}

/// Five to the power `k`.
pub open spec fn pow5(k: nat) -> int
    decreases k,
{
    if k == 0 {
        1
    } else {
        5 * pow5((k - 1) as nat)
    }
}

/// The digit at position `i` from the right; zero beyond the last one.
pub open spec fn digit_at(d: Seq<u8>, i: int) -> int {
    if 0 <= i < d.len() {
        d[i] as int
    } else {
        0
    }
}

/// What the `n` lowest digits are worth together.
pub open spec fn low(d: Seq<u8>, n: nat) -> int
    decreases n,
{
    if n == 0 {
        0
    } else {
        low(d, (n - 1) as nat) + digit_at(d, n - 1) * pow10((n - 1) as nat)
    }
}

/// A natural number: decimal digits, the lowest first.
pub struct Natural {
    digits: Vec<u8>,
}

pub proof fn lemma_pow10_positive(k: nat)
    ensures
        pow10(k) >= 1,
    decreases k,
{
    if k > 0 {
        lemma_pow10_positive((k - 1) as nat);
    }
}

pub proof fn lemma_pow2_positive(k: nat)
    ensures
        pow2(k) >= 1,
    decreases k,
{
    if k > 0 {
        lemma_pow2_positive((k - 1) as nat);
    }
}

pub proof fn lemma_pow5_positive(k: nat)
    ensures
        pow5(k) >= 1,
    decreases k,
{
    if k > 0 {
        lemma_pow5_positive((k - 1) as nat);
    }
}

pub proof fn lemma_pow2_sum(a: nat, b: nat)
    ensures
        pow2(a + b) == pow2(a) * pow2(b),
    decreases b,
{
    if b > 0 {
        lemma_pow2_sum(a, (b - 1) as nat);
        let x = pow2(a);
        let y = pow2((b - 1) as nat);
        assert(2 * (x * y) == x * (2 * y)) by (nonlinear_arith);
    } else {
        assert(pow2(a) * 1 == pow2(a));
    }
}

pub proof fn lemma_pow5_sum(a: nat, b: nat)
    ensures
        pow5(a + b) == pow5(a) * pow5(b),
    decreases b,
{
    if b > 0 {
        lemma_pow5_sum(a, (b - 1) as nat);
        let x = pow5(a);
        let y = pow5((b - 1) as nat);
        assert(5 * (x * y) == x * (5 * y)) by (nonlinear_arith);
    } else {
        assert(pow5(a) * 1 == pow5(a));
    }
}

pub proof fn lemma_pow10_parts(k: nat)
    ensures
        pow10(k) == pow2(k) * pow5(k),
    decreases k,
{
    if k > 0 {
        lemma_pow10_parts((k - 1) as nat);
        let x = pow2((k - 1) as nat);
        let y = pow5((k - 1) as nat);
        assert(10 * (x * y) == (2 * x) * (5 * y)) by (nonlinear_arith);
    }
}

pub proof fn lemma_pow10_sum(a: nat, b: nat)
    ensures
        pow10(a + b) == pow10(a) * pow10(b),
    decreases b,
{
    if b > 0 {
        lemma_pow10_sum(a, (b - 1) as nat);
        let x = pow10(a);
        let y = pow10((b - 1) as nat);
        assert(pow10(a + b) == 10 * pow10((a + b - 1) as nat));
        assert(10 * (x * y) == x * (10 * y)) by (nonlinear_arith);
    } else {
        assert(pow10(a) * 1 == pow10(a));
    }
}

proof fn lemma_low_beyond(d: Seq<u8>, n: nat)
    requires
        n >= d.len(),
    ensures
        low(d, n) == low(d, d.len()),
    decreases n,
{
    if n > d.len() {
        lemma_low_beyond(d, (n - 1) as nat);
        assert(0 * pow10((n - 1) as nat) == 0);
    }
}

proof fn lemma_low_prefix(d: Seq<u8>, e: Seq<u8>, n: nat)
    requires
        forall|i: int| 0 <= i < n ==> digit_at(d, i) == digit_at(e, i),
    ensures
        low(d, n) == low(e, n),
    decreases n,
{
    if n > 0 {
        lemma_low_prefix(d, e, (n - 1) as nat);
        assert(digit_at(d, n - 1) == digit_at(e, n - 1));
    }
}

proof fn lemma_low_bound(d: Seq<u8>, n: nat)
    requires
        forall|i: int| 0 <= i < d.len() ==> d[i] < 10,
    ensures
        0 <= low(d, n) < pow10(n),
    decreases n,
{
    if n > 0 {
        lemma_low_bound(d, (n - 1) as nat);
        let p = pow10((n - 1) as nat);
        let x = digit_at(d, n - 1);
        assert(0 <= x <= 9);
        assert(0 <= x * p <= 9 * p) by (nonlinear_arith)
            requires
                0 <= x <= 9,
                p >= 0,
        ;
    }
}

proof fn lemma_low_shift(d: Seq<u8>, x: u8, n: nat)
    ensures
        low(seq![x] + d, n + 1) == x + 10 * low(d, n),
    decreases n,
{
    let e = seq![x] + d;
    if n == 0 {
        assert(low(e, 1) == low(e, 0) + digit_at(e, 0) * pow10(0));
        assert(digit_at(e, 0) == x);
    } else {
        lemma_low_shift(d, x, (n - 1) as nat);
        assert(digit_at(e, n as int) == digit_at(d, n - 1));
        let y = digit_at(d, n - 1);
        let p = pow10((n - 1) as nat);
        assert(y * (10 * p) == 10 * (y * p)) by (nonlinear_arith);
        assert(low(e, n + 1) == low(e, n) + digit_at(e, n as int) * pow10(n));
    }
}

proof fn lemma_low_push(d: Seq<u8>, x: u8)
    ensures
        low(d.push(x), d.len() + 1) == low(d, d.len()) + x * pow10(d.len()),
{
    lemma_low_prefix(d.push(x), d, d.len());
}

impl Natural {
    /// The number that the digits write down.
    pub closed spec fn view(&self) -> int {
        low(self.digits@, self.digits@.len())
    }

    /// Every digit is a digit.
    pub closed spec fn wf(&self) -> bool {
        forall|i: int| 0 <= i < self.digits@.len() ==> self.digits@[i] < 10
    }

    /// A number is not negative.
    pub proof fn lemma_not_negative(&self)
        requires
            self.wf(),
        ensures
            self@ >= 0,
    {
        lemma_low_bound(self.digits@, self.digits@.len());
    }

    /// Zero.
    pub fn zero() -> (r: Natural)
        ensures
            r.wf(),
            r@ == 0,
    {
        Natural { digits: Vec::new() }
    }

    /// A machine number.
    pub fn from_u64(n: u64) -> (r: Natural)
        ensures
            r.wf(),
            r@ == n,
        decreases n,
    {
        if n == 0 {
            Natural::zero()
        } else {
            let mut r = Natural::from_u64(n / 10);
            r.push_digit((n % 10) as u8);
            r
        }
    }

    /// A copy.
    pub fn dup(&self) -> (r: Natural)
        requires
            self.wf(),
        ensures
            r.wf(),
            r@ == self@,
    {
        let mut digits: Vec<u8> = Vec::new();
        digits.extend_from_slice(self.digits.as_slice());
        assert(digits@ =~= self.digits@);
        Natural { digits }
    }

    /// Whether the number is zero.
    pub fn is_zero(&self) -> (r: bool)
        requires
            self.wf(),
        ensures
            r == (self@ == 0),
    {
        let mut i: usize = 0;
        while i < self.digits.len()
            invariant
                self.wf(),
                i <= self.digits@.len(),
                low(self.digits@, i as nat) == 0,
            decreases self.digits@.len() - i,
        {
            if self.digits[i] != 0 {
                proof {
                    lemma_low_grows(self.digits@, (i + 1) as nat, self.digits@.len());
                    lemma_pow10_positive(i as nat);
                    let x = self.digits@[i as int] as int;
                    let p = pow10(i as nat);
                    assert(x * p >= 1) by (nonlinear_arith)
                        requires
                            x >= 1,
                            p >= 1,
                    ;
                }
                return false;
            }
            assert(0 * pow10(i as nat) == 0);
            i += 1;
        }
        true
    }

    /// Writes one more digit at the right end.
    pub fn push_digit(&mut self, x: u8)
        requires
            old(self).wf(),
            x < 10,
        ensures
            final(self).wf(),
            final(self)@ == old(self)@ * 10 + x,
    {
        let ghost before = self.digits@;
        self.digits.insert(0, x);
        proof {
            assert(self.digits@ =~= seq![x] + before);
            lemma_low_shift(before, x, before.len());
        }
    }

    /// The number with `k` zeros written at its right end.
    pub fn times_pow10(&self, k: u128) -> (r: Natural)
        requires
            self.wf(),
        ensures
            r.wf(),
            r@ == self@ * pow10(k as nat),
    {
        let mut r = self.dup();
        let mut i: u128 = 0;
        assert(self@ * 1 == self@);
        while i < k
            invariant
                i <= k,
                r.wf(),
                r@ == self@ * pow10(i as nat),
            decreases k - i,
        {
            r.push_digit(0);
            i += 1;
            proof {
                let a = self@;
                let p = pow10((i - 1) as nat);
                assert((a * p) * 10 == a * (10 * p)) by (nonlinear_arith);
            }
        }
        r
    }

    /// The sum of two numbers.
    pub fn plus(&self, other: &Natural) -> (r: Natural)
        requires
            self.wf(),
            other.wf(),
        ensures
            r.wf(),
            r@ == self@ + other@,
    {
        let n = if self.digits.len() < other.digits.len() {
            other.digits.len()
        } else {
            self.digits.len()
        };
        let mut digits: Vec<u8> = Vec::new();
        let mut carry: u8 = 0;
        let mut i: usize = 0;
        assert(0 * pow10(0) == 0);
        while i < n
            invariant
                self.wf(),
                other.wf(),
                i <= n,
                carry <= 1,
                digits@.len() == i,
                forall|j: int| 0 <= j < i ==> digits@[j] < 10,
                low(digits@, i as nat) + carry * pow10(i as nat) == low(self.digits@, i as nat)
                    + low(other.digits@, i as nat),
            decreases n - i,
        {
            let a = if i < self.digits.len() {
                self.digits[i]
            } else {
                0
            };
            let b = if i < other.digits.len() {
                other.digits[i]
            } else {
                0
            };
            let s = a + b + carry;
            let (d, c): (u8, u8) = if s >= 10 {
                (s - 10, 1)
            } else {
                (s, 0)
            };
            let ghost before = digits@;
            digits.push(d);
            proof {
                lemma_low_push(before, d);
                let p = pow10(i as nat);
                assert(a as int * p + b as int * p + carry as int * p == d as int * p + c as int
                    * (10 * p)) by (nonlinear_arith)
                    requires
                        a as int + b as int + carry as int == d as int + 10 * (c as int),
                ;
            }
            carry = c;
            i += 1;
        }
        let ghost before = digits@;
        digits.push(carry);
        proof {
            lemma_low_push(before, carry);
            lemma_low_beyond(self.digits@, n as nat);
            lemma_low_beyond(other.digits@, n as nat);
        }
        Natural { digits }
    }

    /// The product with a small number.
    pub fn times(&self, m: u32) -> (r: Natural)
        requires
            self.wf(),
        ensures
            r.wf(),
            r@ == self@ * m,
    {
        let mut digits: Vec<u8> = Vec::new();
        let mut carry: u64 = 0;
        let mut i: usize = 0;
        assert(0 * pow10(0) == 0);
        while i < self.digits.len()
            invariant
                self.wf(),
                i <= self.digits@.len(),
                carry <= m,
                digits@.len() == i,
                forall|j: int| 0 <= j < i ==> digits@[j] < 10,
                low(digits@, i as nat) + carry * pow10(i as nat) == low(self.digits@, i as nat) * m,
            decreases self.digits@.len() - i,
        {
            let a = self.digits[i];
            assert(a as int * m as int <= 9 * (m as int)) by (nonlinear_arith)
                requires
                    a as int <= 9,
                    m as int >= 0,
            ;
            let s: u64 = a as u64 * m as u64 + carry;
            let d = (s % 10) as u8;
            let c: u64 = s / 10;
            let ghost before = digits@;
            digits.push(d);
            proof {
                lemma_low_push(before, d);
                let p = pow10(i as nat);
                let l = low(self.digits@, i as nat);
                assert((l + a as int * p) * (m as int) + 0 == l * (m as int) + (a as int * (m
                    as int)) * p) by (nonlinear_arith);
                assert((a as int * m as int) * p + carry as int * p == d as int * p + c as int
                    * (10 * p)) by (nonlinear_arith)
                    requires
                        a as int * m as int + carry as int == d as int + 10 * (c as int),
                ;
            }
            carry = c;
            i += 1;
        }
        let head = Natural { digits };
        let top = Natural::from_u64(carry).times_pow10(self.digits.len() as u128);
        head.plus(&top)
    }

    /// The product with two to the power `k`.
    pub fn times_pow2(&self, k: u32) -> (r: Natural)
        requires
            self.wf(),
        ensures
            r.wf(),
            r@ == self@ * pow2(k as nat),
    {
        let mut r = self.dup();
        let mut i: u32 = 0;
        assert(self@ * 1 == self@);
        while k - i >= 30
            invariant
                i <= k,
                r.wf(),
                r@ == self@ * pow2(i as nat),
            decreases k - i,
        {
            r = r.times(0x4000_0000);
            proof {
                lemma_pow2_sum(i as nat, 30);
                assert(pow2(30) == 0x4000_0000) by {
                    reveal_with_fuel(pow2, 31);
                }
                let (a, p) = (self@, pow2(i as nat));
                assert((a * p) * 0x4000_0000 == a * (p * 0x4000_0000)) by (nonlinear_arith);
            }
            i += 30;
        }
        while i < k
            invariant
                i <= k,
                r.wf(),
                r@ == self@ * pow2(i as nat),
            decreases k - i,
        {
            r = r.times(2);
            i += 1;
            proof {
                let (a, p) = (self@, pow2((i - 1) as nat));
                assert((a * p) * 2 == a * (2 * p)) by (nonlinear_arith);
            }
        }
        r
    }

    /// The product with five to the power `k`.
    pub fn times_pow5(&self, k: u32) -> (r: Natural)
        requires
            self.wf(),
        ensures
            r.wf(),
            r@ == self@ * pow5(k as nat),
    {
        let mut r = self.dup();
        let mut i: u32 = 0;
        assert(self@ * 1 == self@);
        while k - i >= 13
            invariant
                i <= k,
                r.wf(),
                r@ == self@ * pow5(i as nat),
            decreases k - i,
        {
            r = r.times(1220703125);
            proof {
                lemma_pow5_sum(i as nat, 13);
                assert(pow5(13) == 1220703125) by {
                    reveal_with_fuel(pow5, 14);
                }
                let (a, p) = (self@, pow5(i as nat));
                assert((a * p) * 1220703125 == a * (p * 1220703125)) by (nonlinear_arith);
            }
            i += 13;
        }
        while i < k
            invariant
                i <= k,
                r.wf(),
                r@ == self@ * pow5(i as nat),
            decreases k - i,
        {
            r = r.times(5);
            i += 1;
            proof {
                let (a, p) = (self@, pow5((i - 1) as nat));
                assert((a * p) * 5 == a * (5 * p)) by (nonlinear_arith);
            }
        }
        r
    }

    /// The difference, where it is not negative.
    pub fn minus(&self, other: &Natural) -> (r: Option<Natural>)
        requires
            self.wf(),
            other.wf(),
        ensures
            match r {
                Some(d) => d.wf() && d@ == self@ - other@ && self@ >= other@,
                None => self@ < other@,
            },
    {
        let n = if self.digits.len() < other.digits.len() {
            other.digits.len()
        } else {
            self.digits.len()
        };
        let mut digits: Vec<u8> = Vec::new();
        let mut borrow: u8 = 0;
        let mut i: usize = 0;
        assert(0 * pow10(0) == 0);
        while i < n
            invariant
                self.wf(),
                other.wf(),
                i <= n,
                borrow <= 1,
                digits@.len() == i,
                forall|j: int| 0 <= j < i ==> digits@[j] < 10,
                low(digits@, i as nat) - borrow * pow10(i as nat) == low(self.digits@, i as nat)
                    - low(other.digits@, i as nat),
            decreases n - i,
        {
            let a = if i < self.digits.len() {
                self.digits[i]
            } else {
                0
            };
            let b = if i < other.digits.len() {
                other.digits[i]
            } else {
                0
            };
            let (d, c): (u8, u8) = if a >= b + borrow {
                (a - b - borrow, 0)
            } else {
                (a + 10 - b - borrow, 1)
            };
            let ghost before = digits@;
            digits.push(d);
            proof {
                lemma_low_push(before, d);
                let p = pow10(i as nat);
                assert(a as int * p - b as int * p - borrow as int * p == d as int * p - c as int
                    * (10 * p)) by (nonlinear_arith)
                    requires
                        a as int - b as int - borrow as int == d as int - 10 * (c as int),
                ;
            }
            borrow = c;
            i += 1;
        }
        proof {
            lemma_low_beyond(self.digits@, n as nat);
            lemma_low_beyond(other.digits@, n as nat);
            lemma_low_bound(digits@, n as nat);
        }
        if borrow == 0 {
            Some(Natural { digits })
        } else {
            None
        }
    }

    /// Whether the number is below another.
    pub fn below(&self, other: &Natural) -> (r: bool)
        requires
            self.wf(),
            other.wf(),
        ensures
            r == (self@ < other@),
    {
        self.minus(other).is_none()
    }

    /// Quotient and remainder.
    pub fn divide(&self, by: &Natural) -> (r: (Natural, Natural))
        requires
            self.wf(),
            by.wf(),
            by@ > 0,
        ensures
            r.0.wf(),
            r.1.wf(),
            self@ == r.0@ * by@ + r.1@,
            0 <= r.1@ < by@,
            r.0@ == self@ / by@,
            r.1@ == self@ % by@,
    {
        let mut quot = Natural::zero();
        let mut rem = Natural::zero();
        let mut i: usize = self.digits.len();
        let ghost all = self.digits@;
        assert(0 * by@ == 0);
        while i > 0
            invariant
                self.wf(),
                by.wf(),
                by@ > 0,
                all == self.digits@,
                i <= all.len(),
                quot.wf(),
                rem.wf(),
                0 <= rem@ < by@,
                low(all.skip(i as int), (all.len() - i) as nat) == quot@ * by@ + rem@,
            decreases i,
        {
            i -= 1;
            let ghost high = low(all.skip(i + 1), (all.len() - i - 1) as nat);
            let ghost q0 = quot@;
            let ghost r0 = rem@;
            let x = self.digits[i];
            proof {
                assert(all.skip(i as int) =~= seq![x] + all.skip(i + 1));
                lemma_low_shift(all.skip(i + 1), x, (all.len() - i - 1) as nat);
            }
            rem.push_digit(x);
            let ghost start = rem@;
            let mut q: u8 = 0;
            loop
                invariant_except_break
                    by.wf(),
                    by@ > 0,
                    rem.wf(),
                    rem@ >= 0,
                    start == q * by@ + rem@,
                    start < 10 * by@,
                    q <= 9,
                ensures
                    rem.wf(),
                    0 <= rem@ < by@,
                    start == q * by@ + rem@,
                    q <= 9,
                decreases rem@,
            {
                match rem.minus(by) {
                    None => break,
                    Some(less) => {
                        proof {
                            let (k, b) = (q as int, by@);
                            assert((k + 1) * b == k * b + b) by (nonlinear_arith);
                            assert(k + 1 <= 9) by (nonlinear_arith)
                                requires
                                    (k + 1) * b < 10 * b,
                                    b > 0,
                            ;
                        }
                        rem = less;
                        q += 1;
                    },
                }
            }
            quot.push_digit(q);
            proof {
                let b = by@;
                assert((q0 * 10 + q as int) * b == 10 * (q0 * b) + q as int * b) by (nonlinear_arith);
            }
        }
        proof {
            assert(all.skip(0) =~= all);
            vstd::arithmetic::div_mod::lemma_fundamental_div_mod_converse(
                self@,
                by@,
                quot@,
                rem@,
            );
        }
        (quot, rem)
    }

    /// The number rounded down to the machine range.
    pub fn saturating_i64(&self) -> (r: i64)
        requires
            self.wf(),
        ensures
            r == if self@ > i64::MAX {
                i64::MAX as int
            } else {
                self@
            },
    {
        let mut acc: i64 = 0;
        let mut i: usize = self.digits.len();
        let ghost all = self.digits@;
        while i > 0
            invariant
                self.wf(),
                all == self.digits@,
                i <= all.len(),
                acc >= 0,
                acc == if low(all.skip(i as int), (all.len() - i) as nat) > i64::MAX {
                    i64::MAX as int
                } else {
                    low(all.skip(i as int), (all.len() - i) as nat)
                },
            decreases i,
        {
            i -= 1;
            let x = self.digits[i];
            proof {
                assert(all.skip(i as int) =~= seq![x] + all.skip(i + 1));
                lemma_low_shift(all.skip(i + 1), x, (all.len() - i - 1) as nat);
            }
            if acc > (i64::MAX - x as i64) / 10 {
                acc = i64::MAX;
            } else {
                acc = acc * 10 + x as i64;
            }
        }
        assert(all.skip(0) =~= all);
        acc
    }

    /// The number in decimal.
    pub fn print(&self) -> (r: Vec<char>)
        requires
            self.wf(),
        ensures
            r@ == dec(self@),
    {
        let mut out: Vec<char> = Vec::new();
        let mut i: usize = self.digits.len();
        let ghost all = self.digits@;
        while i > 0
            invariant
                self.wf(),
                all == self.digits@,
                i <= all.len(),
                low(all.skip(i as int), (all.len() - i) as nat) >= 0,
                low(all.skip(i as int), (all.len() - i) as nat) == 0 ==> out@.len() == 0,
                low(all.skip(i as int), (all.len() - i) as nat) > 0 ==> out@ == dec(
                    low(all.skip(i as int), (all.len() - i) as nat),
                ) && out@.len() > 0,
            decreases i,
        {
            i -= 1;
            let ghost high = low(all.skip(i + 1), (all.len() - i - 1) as nat);
            let x = self.digits[i];
            proof {
                assert(all.skip(i as int) =~= seq![x] + all.skip(i + 1));
                lemma_low_shift(all.skip(i + 1), x, (all.len() - i - 1) as nat);
            }
            if out.len() > 0 || x != 0 {
                let ghost before = out@;
                out.push((48u8 + x) as char);
                let ghost now = high * 10 + x;
                assert(out@ =~= dec(now)) by {
                    if high == 0 {
                        assert(before =~= Seq::<char>::empty());
                    } else {
                        assert(now / 10 == high && now % 10 == x);
                    }
                }
            }
        }
        assert(all.skip(0) =~= all);
        if out.len() == 0 {
            out.push('0');
            assert(out@ =~= dec(0));
        }
        out
    }
}

proof fn lemma_low_grows(d: Seq<u8>, m: nat, n: nat)
    requires
        m <= n,
    ensures
        low(d, m) <= low(d, n),
    decreases n,
{
    if m < n {
        lemma_low_grows(d, m, (n - 1) as nat);
        lemma_pow10_positive((n - 1) as nat);
        let x = digit_at(d, n - 1);
        let p = pow10((n - 1) as nat);
        assert(x * p >= 0) by (nonlinear_arith)
            requires
                x >= 0,
                p >= 0,
        ;
    }
}

} // verus!
