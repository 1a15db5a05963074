//! Whole numbers as text: decimal printing and parsing.
use vstd::prelude::*;
use crate::text::string_of;

verus! {

/// Whether a character is a decimal digit.
pub open spec fn is_digit(c: char) -> bool {
    '0' <= c <= '9'
}

/// The value of a decimal digit.
pub open spec fn digit_value(c: char) -> int {
    c as int - '0' as int
}

/// The digit for a value below ten.
pub open spec fn digit_char(d: int) -> char {
    (d + '0' as int) as char
}

/// Whether a text holds nothing but decimal digits.
pub open spec fn all_digits(s: Seq<char>) -> bool {
    forall|i: int| 0 <= i < s.len() ==> is_digit(#[trigger] s[i])
}

/// The number that a run of digits writes down.
pub open spec fn value(s: Seq<char>) -> int
    decreases s.len(),
{
    if s.len() == 0 {
        0
    } else {
        value(s.drop_last()) * 10 + digit_value(s.last())
    }
}

/// The decimal digits of a number, without leading zeros.
pub open spec fn dec(n: int) -> Seq<char>
    decreases n,
{
    if n < 10 {
        seq![digit_char(n)]
    } else {
        dec(n / 10).push(digit_char(n % 10))
    }
}

/// A number in decimal, with a minus sign where it is negative.
pub open spec fn dec_int(n: int) -> Seq<char> {
    if n < 0 {
        seq!['-'] + dec(-n)
    } else {
        dec(n)
    }
}

/// The number a text denotes: an optional sign and at least one digit. A minus
/// sign counts only where the number may be negative.
pub open spec fn number_of(s: Seq<char>, signed: bool) -> Option<int> {
    let sign = s.len() > 0 && (s[0] == '+' || (signed && s[0] == '-'));
    let body = if sign {
        s.drop_first()
    } else {
        s
    };
    if body.len() == 0 || !all_digits(body) {
        None
    } else if sign && s[0] == '-' {
        Some(-value(body))
    } else {
        Some(value(body))
    }
}

/// The number a text denotes, where it lies between `lo` and `hi`.
pub open spec fn number_in(s: Seq<char>, signed: bool, lo: int, hi: int) -> Option<int> {
    match number_of(s, signed) {
        Some(n) => if lo <= n <= hi {
            Some(n)
        } else {
            None
        },
        None => None,
    }
}

/// The text as a 64-bit signed number.
pub open spec fn i64_of(s: Seq<char>) -> Option<int> {
    number_in(s, true, i64::MIN as int, i64::MAX as int)
}

/// The text as a 64-bit unsigned number.
pub open spec fn u64_of(s: Seq<char>) -> Option<int> {
    number_in(s, false, 0, u64::MAX as int)
}

pub proof fn lemma_value_bounds(s: Seq<char>)
    requires
        all_digits(s),
    ensures
        value(s) >= 0,
    decreases s.len(),
{
    if s.len() > 0 {
        assert(all_digits(s.drop_last()));
        lemma_value_bounds(s.drop_last());
        assert(is_digit(s.last()));
    }
}

proof fn lemma_value_grows(s: Seq<char>, k: int)
    requires
        all_digits(s),
        0 <= k <= s.len(),
    ensures
        value(s.take(k)) <= value(s),
    decreases s.len() - k,
{
    if k < s.len() {
        lemma_value_grows(s, k + 1);
        assert(s.take(k + 1).drop_last() =~= s.take(k));
        assert(is_digit(s[k]));
        assert(all_digits(s.take(k)));
        lemma_value_bounds(s.take(k));
    } else {
        assert(s.take(k) =~= s);
    }
}

/// Reads a run of digits from position `from` on.
fn magnitude(s: &[char], from: usize) -> (r: Option<u64>)
    requires
        from <= s@.len(),
    ensures
        ({
            let body = s@.skip(from as int);
            match r {
                Some(v) => body.len() > 0 && all_digits(body) && value(body) == v,
                None => body.len() == 0 || !all_digits(body) || value(body) > u64::MAX,
            }
        }),
{
    let ghost body = s@.skip(from as int);
    if from == s.len() {
        return None;
    }
    let mut acc: u64 = 0;
    let mut i: usize = from;
    while i < s.len()
        invariant
            from <= i <= s@.len(),
            body == s@.skip(from as int),
            all_digits(body.take(i - from)),
            acc == value(body.take(i - from)),
        decreases s@.len() - i,
    {
        let c = s[i];
        assert(body[i - from] == c);
        if !(c >= '0' && c <= '9') {
            return None;
        }
        let d: u64 = (c as u32 - '0' as u32) as u64;
        let ghost next = body.take(i - from + 1);
        assert(next.drop_last() =~= body.take(i - from));
        assert(value(next) == acc * 10 + d);
        if acc > (u64::MAX - d) / 10 {
            proof {
                if all_digits(body) {
                    lemma_value_grows(body, i - from + 1);
                }
            }
            return None;
        }
        acc = acc * 10 + d;
        i += 1;
        assert forall|j: int| 0 <= j < next.len() implies is_digit(#[trigger] next[j]) by {
            if j < next.len() - 1 {
                assert(next[j] == body.take(next.len() - 1)[j]);
            }
        }
    }
    assert(body.take(s@.len() - from) =~= body);
    Some(acc)
}

/// Reads a 64-bit unsigned number.
pub fn parse_u64(s: &[char]) -> (r: Option<u64>)
    ensures
        match r {
            Some(v) => u64_of(s@) == Some(v as int),
            None => u64_of(s@) is None,
        },
{
    let from: usize = if s.len() > 0 && s[0] == '+' {
        1
    } else {
        0
    };
    assert(s@.skip(0) =~= s@);
    assert(s@.len() > 0 ==> s@.skip(1) =~= s@.drop_first());
    proof {
        if all_digits(s@.skip(from as int)) {
            lemma_value_bounds(s@.skip(from as int));
        }
    }
    magnitude(s, from)
}

/// Reads a 64-bit signed number.
pub fn parse_i64(s: &[char]) -> (r: Option<i64>)
    ensures
        match r {
            Some(v) => i64_of(s@) == Some(v as int),
            None => i64_of(s@) is None,
        },
{
    let neg = s.len() > 0 && s[0] == '-';
    let from: usize = if s.len() > 0 && (s[0] == '+' || s[0] == '-') {
        1
    } else {
        0
    };
    assert(s@.skip(0) =~= s@);
    assert(s@.len() > 0 ==> s@.skip(1) =~= s@.drop_first());
    proof {
        if all_digits(s@.skip(from as int)) {
            lemma_value_bounds(s@.skip(from as int));
        }
    }
    match magnitude(s, from) {
        None => None,
        Some(m) => if neg {
            if m <= 0x8000_0000_0000_0000 {
                Some((-(m as i128)) as i64)
            } else {
                None
            }
        } else if m <= 0x7fff_ffff_ffff_ffff {
            Some(m as i64)
        } else {
            None
        },
    }
}

/// Appends the decimal digits of `n`.
pub fn push_dec(out: &mut Vec<char>, n: u128)
    ensures
        final(out)@ == old(out)@ + dec(n as int),
    decreases n,
{
    let ghost before = out@;
    if n >= 10 {
        push_dec(out, n / 10);
    }
    let d = (48u8 + (n % 10) as u8) as char;
    out.push(d);
    assert(out@ =~= before + dec(n as int));
}

/// A number in decimal.
pub fn print_u64(n: u64) -> (r: String)
    ensures
        r@ == dec(n as int),
{
    let mut v: Vec<char> = Vec::new();
    push_dec(&mut v, n as u128);
    assert(v@ =~= dec(n as int));
    string_of(v.as_slice())
}

/// A signed number in decimal.
pub fn print_i64(n: i64) -> (r: String)
    ensures
        r@ == dec_int(n as int),
{
    let mut v: Vec<char> = Vec::new();
    if n < 0 {
        v.push('-');
        push_dec(&mut v, (-(n as i128)) as u128);
        assert(v@ =~= dec_int(n as int));
    } else {
        push_dec(&mut v, n as u128);
        assert(v@ =~= dec_int(n as int));
    }
    string_of(v.as_slice())
}

/// Printing a number gives digits that write the number down again.
pub proof fn dec_is_its_value(n: int)
    requires
        n >= 0,
    ensures
        all_digits(dec(n)),
        dec(n).len() > 0,
        value(dec(n)) == n,
    decreases n,
{
    reveal_with_fuel(value, 2);
    if n < 10 {
        assert(dec(n).drop_last() =~= Seq::<char>::empty());
    } else {
        dec_is_its_value(n / 10);
        assert(dec(n).drop_last() =~= dec(n / 10));
        assert forall|i: int| 0 <= i < dec(n).len() implies is_digit(#[trigger] dec(n)[i]) by {
            if i < dec(n).len() - 1 {
                assert(dec(n)[i] == dec(n / 10)[i]);
            }
        }
    }
}

/// Reading a printed number gives the number back.
pub proof fn printed_number_reads_back(n: int)
    ensures
        number_of(dec_int(n), true) == Some(n),
        n >= 0 ==> number_of(dec_int(n), false) == Some(n),
{
    if n < 0 {
        dec_is_its_value(-n);
        assert(dec_int(n).drop_first() =~= dec(-n));
    } else {
        dec_is_its_value(n);
        assert(is_digit(dec(n)[0]));
    }
}

/// Different numbers are printed differently.
pub proof fn printing_is_injective(m: int, n: int)
    requires
        dec_int(m) == dec_int(n),
    ensures
        m == n,
{
    printed_number_reads_back(m);
    printed_number_reads_back(n);
}

/// Printing counts in tens: one more digit behind a number makes it ten times as
/// large, and the digit more.
pub proof fn digits_count_in_tens(n: int, d: int)
    requires
        0 <= d <= 9,
        n >= 0,
    ensures
        dec(d) == seq![(48 + d) as char],
        n > 0 ==> dec(10 * n + d) == dec(n).push((48 + d) as char),
        n > 0 ==> dec_int(-n) == seq!['-'] + dec(n),
        dec_int(n) == dec(n),
{
    assert((10 * n + d) / 10 == n);
    assert((10 * n + d) % 10 == d);
}

/// What is read of a number that was printed: the number itself where it has 64
/// bits, and nothing where it has more. An unsigned number takes no minus sign.
pub proof fn only_what_fits_is_read(n: int)
    ensures
        -0x8000_0000_0000_0000 <= n <= 0x7fff_ffff_ffff_ffff ==> i64_of(dec_int(n)) == Some(n),
        n < -0x8000_0000_0000_0000 || n > 0x7fff_ffff_ffff_ffff ==> i64_of(dec_int(n)) is None,
        0 <= n <= 0xffff_ffff_ffff_ffff ==> u64_of(dec(n)) == Some(n),
        n > 0xffff_ffff_ffff_ffff ==> u64_of(dec(n)) is None,
        n < 0 ==> u64_of(dec_int(n)) is None,
{
    printed_number_reads_back(n);
    if n < 0 {
        dec_is_its_value(-n);
        assert(dec_int(n)[0] == '-');
        assert(!all_digits(dec_int(n))) by {
            assert(!is_digit(dec_int(n)[0]));
        }
    }
}

/// A text that is read as a number holds nothing but digits behind its sign.
pub proof fn only_digits_are_read(s: Seq<char>, i: int)
    requires
        0 <= i < s.len(),
        !('0' <= s[i] <= '9'),
    ensures
        i > 0 ==> i64_of(s) is None && u64_of(s) is None,
        s[i] != '+' && s[i] != '-' ==> i64_of(s) is None && u64_of(s) is None,
        s.len() == 1 ==> i64_of(s) is None && u64_of(s) is None,
{
    if s[0] == '+' || s[0] == '-' {
        if i > 0 {
            assert(s.drop_first()[i - 1] == s[i]);
        }
    }
    assert(!is_digit(s[i]));
}

} // verus!
