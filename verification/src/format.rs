//! How quantities are shown: clock times, rates, sizes and frame rates.
use vstd::prelude::*;
use vstd::string::*;
use crate::decimal::{
    at_least, at_most_zero, decimal_or, fixed, held_below, is_near, is_worth, lemma_pow2_grows,
    lemma_powers, lemma_rounds_to_its_worth, nearest_is_shown, negated, one, padded,
    places_are_filled_up, positive, product, quantity_or, quotient, quotients_are_exact,
    quotients_are_precise, round_half_even, rounded, shown, sum, whole, whole_numbers_are_exact,
    whole_numbers_are_read, worth_is_compared, zero, zeros, Decimal, Quantity,
};
use crate::natural::{
    lemma_pow10_positive, lemma_pow2_positive, lemma_pow2_sum, pow10, pow2, Natural,
};
use crate::number::{dec, dec_is_its_value, push_dec};
use crate::text::{
    char_texts, chars_of, concat2, contains_text, ends_with, found_text_is_there, has_end, has_text,
    split, split_chars, split_once, split_once_chars, string_of, sub_chars,
    text_is_cut_at_its_first_mark, text_stands_where_it_was_put, trim, trim_chars,
    white_ends_are_trimmed,
};

verus! {

// ---------------------------------------------------------------- fixed places
fn push_all(out: &mut Vec<char>, s: &[char])
    ensures
        final(out)@ == old(out)@ + s@,
{
    out.extend_from_slice(s);
    assert(out@ =~= old(out)@ + s@);
}

/// `n / d` with a fixed number of places.
fn print_fixed(neg: bool, n: &Natural, d: &Natural, places: u8) -> (r: Vec<char>)
    requires
        n.wf(),
        d.wf(),
        d@ > 0,
    ensures
        r@ == fixed(neg, n@, d@, places as int),
{
    let q = round_half_even(&n.times_pow10(places as u128), d);
    let p = Natural::from_u64(1).times_pow10(places as u128);
    proof {
        lemma_pow10_positive(places as nat);
        assert(1 * pow10(places as nat) == pow10(places as nat));
    }
    let (whole, frac) = q.divide(&p);
    let mut out: Vec<char> = Vec::new();
    if neg {
        out.push('-');
        assert(out@ =~= seq!['-']);
    } else {
        assert(out@ =~= Seq::<char>::empty());
    }
    let ghost sign = out@;
    let w = whole.print();
    push_all(&mut out, w.as_slice());
    let ghost head = out@;
    assert(head == sign + dec(whole@));
    if places > 0 {
        out.push('.');
        let f = frac.print();
        let ghost dotted = out@;
        let mut k: usize = f.len();
        while k < places as usize
            invariant
                f@.len() <= k,
                k <= places || k == f@.len(),
                out@ =~= dotted + zeros(k - f@.len()),
            decreases places - k,
        {
            out.push('0');
            k += 1;
        }
        push_all(&mut out, f.as_slice());
        assert(out@ =~= head + (seq!['.'] + padded(frac@, places as int)));
    } else {
        assert(out@ =~= head + Seq::<char>::empty());
    }
    out
}

/// A quantity with a fixed number of places.
fn print_shown(q: &Decimal, places: u8) -> (r: String)
    requires
        q.wf(),
    ensures
        r@ == shown(q@, places as int),
{
    match q {
        Decimal::NotANumber => "NaN".to_string(),
        Decimal::Infinite { neg } => if *neg {
            "-inf".to_string()
        } else {
            "inf".to_string()
        },
        Decimal::Finite { neg, num, scale } => {
            let d = Natural::from_u64(1).times_pow10(*scale);
            proof {
                lemma_pow10_positive(*scale as nat);
                assert(1 * pow10(*scale as nat) == pow10(*scale as nat));
            }
            let v = print_fixed(*neg, num, &d, places);
            string_of(v.as_slice())
        },
    }
}

// ---------------------------------------------------------------- clock times
/// A number below one hundred, in two digits.
pub open spec fn two_digits(n: int) -> Seq<char> {
    padded(n, 2)
}

/// Seconds as hours, minutes and seconds.
pub open spec fn hms(s: int) -> Seq<char> {
    dec(s / 3600) + seq![':'] + two_digits((s % 3600) / 60) + seq![':'] + two_digits(s % 60)
}

/// The smaller of a number and the largest 64-bit signed one.
pub open spec fn at_most_i64(n: int) -> int {
    if n > i64::MAX {
        i64::MAX as int
    } else {
        n
    }
}

/// The whole seconds of a quantity that is not below zero.
pub open spec fn whole_seconds(q: Quantity) -> int {
    match q {
        Quantity::NotANumber => 0,
        Quantity::Infinite { neg } => i64::MAX as int,
        Quantity::Finite { neg, num, scale } => at_most_i64(num / pow10(scale as nat)),
    }
}

/// Seconds as they are shown: a dash where there are none.
pub open spec fn hms_of(q: Quantity) -> Seq<char> {
    if at_most_zero(q) {
        "—"@
    } else {
        hms(whole_seconds(q))
    }
}

fn push_two(out: &mut Vec<char>, n: u64)
    requires
        n < 100,
    ensures
        final(out)@ == old(out)@ + two_digits(n as int),
{
    proof {
        reveal_with_fuel(dec, 2);
    }
    let ghost before = out@;
    if n < 10 {
        out.push('0');
        push_dec(out, n as u128);
        assert(out@ =~= before + (zeros(1) + dec(n as int)));
    } else {
        push_dec(out, n as u128);
    }
}

fn print_hms(s: i64) -> (r: String)
    requires
        s >= 0,
    ensures
        r@ == hms(s as int),
{
    let n: u64 = s as u64;
    let mut out: Vec<char> = Vec::new();
    push_dec(&mut out, (n / 3600) as u128);
    out.push(':');
    push_two(&mut out, (n % 3600) / 60);
    out.push(':');
    push_two(&mut out, n % 60);
    assert(out@ =~= hms(s as int));
    string_of(out.as_slice())
}

/// Formats seconds as H:MM:SS.
pub fn fmt_hms(secs: &Decimal) -> (r: String)
    requires
        secs.wf(),
    ensures
        r@ == hms_of(secs@),
{
    if secs.is_at_most_zero() {
        return "—".to_string();
    }
    match secs {
        Decimal::NotANumber => print_hms(0),
        Decimal::Infinite { neg } => print_hms(i64::MAX),
        Decimal::Finite { neg, num, scale } => {
            let p = Natural::from_u64(1).times_pow10(*scale);
            proof {
                lemma_pow10_positive(*scale as nat);
                assert(1 * pow10(*scale as nat) == pow10(*scale as nat));
                num.lemma_not_negative();
            }
            let (q, rem) = num.divide(&p);
            proof {
                q.lemma_not_negative();
            }
            print_hms(q.saturating_i64())
        },
    }
}

/// Hours, minutes and seconds together, in seconds.
pub open spec fn clock(h: Quantity, m: Quantity, s: Quantity) -> Quantity {
    sum(sum(product(h, 3600), product(m, 60)), s)
}

/// The seconds of a clock time such as `01:02:03.5`; zero for other text.
pub open spec fn clock_of(t: Seq<char>) -> Quantity {
    let p = split(t, ':');
    if p.len() == 3 {
        clock(quantity_or(p[0], zero()), quantity_or(p[1], zero()), quantity_or(p[2], zero()))
    } else {
        zero()
    }
}

/// Reads a clock time.
pub fn parse_clock(t: &str) -> (r: Decimal)
    ensures
        r.wf(),
        r@ == clock_of(t@),
{
    let c = chars_of(t);
    let p = split_chars(c.as_slice(), ':');
    assert(char_texts(p@).len() == p@.len());
    if p.len() == 3 {
        assert(char_texts(p@)[0] == p@[0]@);
        assert(char_texts(p@)[1] == p@[1]@);
        assert(char_texts(p@)[2] == p@[2]@);
        let h = decimal_or(p[0].as_slice(), Decimal::zero());
        let m = decimal_or(p[1].as_slice(), Decimal::zero());
        let s = decimal_or(p[2].as_slice(), Decimal::zero());
        h.times(3600).plus(&m.times(60)).plus(&s)
    } else {
        Decimal::zero()
    }
}

// ---------------------------------------------------------------- time left
/// What is left of a duration: the part of it behind `time`, never below zero.
pub open spec fn left_of(dur: Quantity, time: Quantity) -> Quantity {
    let rest = sum(dur, negated(time));
    if positive(rest) {
        rest
    } else {
        zero()
    }
}

/// The time left at a speed, as it is shown: a dash where it is not known or
/// nothing is left.
pub open spec fn eta_of(dur: Quantity, time: Quantity, speed: Quantity) -> Seq<char> {
    if positive(speed) && positive(dur) {
        hms_of(quotient(left_of(dur, time), speed))
    } else {
        "—"@
    }
}

/// Formats the time left of `dur` at `time`, going at `speed`.
pub fn fmt_eta(dur: &Decimal, time: &Decimal, speed: &Decimal) -> (r: String)
    requires
        dur.wf(),
        time.wf(),
        speed.wf(),
    ensures
        r@ == eta_of(dur@, time@, speed@),
{
    if !speed.is_positive() || !dur.is_positive() {
        return "—".to_string();
    }
    let rest = dur.plus(&time.negate());
    let left = if rest.is_positive() {
        rest
    } else {
        Decimal::zero()
    };
    fmt_hms(&left.over(speed))
}

// ---------------------------------------------------------------- how far
/// Which part of a duration lies before `time`, between zero and one; zero
/// without a duration.
pub open spec fn share_of(time: Quantity, dur: Quantity) -> Quantity {
    if positive(dur) {
        held_below(quotient(time, dur), 1)
    } else {
        zero()
    }
}

/// The same in percent, between 0 and 100.
pub open spec fn percent_of(time: Quantity, dur: Quantity) -> Quantity {
    if positive(dur) {
        held_below(product(quotient(time, dur), 100), 100)
    } else {
        zero()
    }
}

/// A share as it is shown, in whole percent.
pub open spec fn percent_text(share: Quantity) -> Seq<char> {
    shown(product(share, 100), 0) + "%"@
}

/// Which part of a duration lies before `time`.
pub fn share_done(time: &Decimal, dur: &Decimal) -> (r: Decimal)
    requires
        time.wf(),
        dur.wf(),
    ensures
        r.wf(),
        r@ == share_of(time@, dur@),
{
    if dur.is_positive() {
        time.over(dur).hold_below(1)
    } else {
        Decimal::zero()
    }
}

/// How much of a duration lies before `time`, in percent.
pub fn percent_done(time: &Decimal, dur: &Decimal) -> (r: Decimal)
    requires
        time.wf(),
        dur.wf(),
    ensures
        r.wf(),
        r@ == percent_of(time@, dur@),
{
    if dur.is_positive() {
        time.over(dur).times(100).hold_below(100)
    } else {
        Decimal::zero()
    }
}

/// Formats a share in whole percent.
pub fn fmt_percent(share: &Decimal) -> (r: String)
    requires
        share.wf(),
    ensures
        r@ == percent_text(share@),
{
    concat2(print_shown(&share.times(100), 0).as_str(), "%")
}

// ---------------------------------------------------------------- rates and sizes
/// A frame rate written as a fraction, with three places. Other text stays.
pub open spec fn fps_of(r: Seq<char>) -> Seq<char> {
    match split_once(r, '/') {
        Some((n, d)) => if positive(quantity_or(d, one())) {
            shown(quotient(quantity_or(n, zero()), quantity_or(d, one())), 3)
        } else {
            r
        },
        None => r,
    }
}

/// Formats a frame rate.
pub fn fmt_fps(r: &str) -> (s: String)
    ensures
        s@ == fps_of(r@),
{
    let c = chars_of(r);
    match split_once_chars(c.as_slice(), '/') {
        None => r.to_string(),
        Some((n, d)) => {
            let n = decimal_or(n.as_slice(), Decimal::zero());
            let d = decimal_or(d.as_slice(), Decimal::one());
            if !d.is_positive() {
                return r.to_string();
            }
            print_shown(&n.over(&d), 3)
        },
    }
}

/// Whether a pixel format packs the three small samples of a pixel in two bytes.
pub open spec fn is_packed_format(pix_fmt: Seq<char>) -> bool {
    ||| contains_text(pix_fmt, "rgb444"@)
    ||| contains_text(pix_fmt, "bgr444"@)
    ||| contains_text(pix_fmt, "rgb555"@)
    ||| contains_text(pix_fmt, "bgr555"@)
    ||| contains_text(pix_fmt, "rgb565"@)
    ||| contains_text(pix_fmt, "bgr565"@)
}

/// Whether a pixel format has more than 8 bits for a sample. Such a sample takes
/// more than a byte, and ffmpeg names the byte order last (`p012le`, `gray10be`).
/// The packed formats have a byte order too, though their samples are small.
pub open spec fn is_deep_format(pix_fmt: Seq<char>) -> bool {
    ||| contains_text(pix_fmt, "p10"@)
    ||| contains_text(pix_fmt, "010"@)
    ||| contains_text(pix_fmt, "p12"@)
    ||| contains_text(pix_fmt, "012"@)
    ||| contains_text(pix_fmt, "p16"@)
    ||| (ends_with(pix_fmt, "le"@) || ends_with(pix_fmt, "be"@)) && !is_packed_format(pix_fmt)
}

fn packed_format(p: &[char]) -> (r: bool)
    ensures
        r == is_packed_format(p@),
{
    has_text(p, "rgb444") || has_text(p, "bgr444") || has_text(p, "rgb555") || has_text(p, "bgr555")
        || has_text(p, "rgb565") || has_text(p, "bgr565")
}

/// Decides [`is_deep_format`].
pub fn deep_format(p: &[char]) -> (r: bool)
    ensures
        r == is_deep_format(p@),
{
    has_text(p, "p10") || has_text(p, "010") || has_text(p, "p12") || has_text(p, "012")
        || has_text(p, "p16") || ((has_end(p, "le") || has_end(p, "be")) && !packed_format(p))
}

/// The name of a pixel format without its byte order.
pub open spec fn sample_name(pf: Seq<char>) -> Seq<char> {
    if ends_with(pf, "le"@) || ends_with(pf, "be"@) {
        pf.take(pf.len() - 2)
    } else {
        pf
    }
}

/// The depth that the name of a deep pixel format ends in: that of a sample, or
/// that of the samples of a pixel together. It is 16 bits where nothing else is
/// said.
pub open spec fn named_depth(n: Seq<char>) -> Seq<char> {
    if ends_with(n, "9"@) {
        "9-bit"@
    } else if ends_with(n, "10"@) || ends_with(n, "20"@) || ends_with(n, "30"@) || ends_with(
        n,
        "30x"@,
    ) {
        "10-bit"@
    } else if ends_with(n, "12"@) || ends_with(n, "36"@) {
        "12-bit"@
    } else if ends_with(n, "14"@) {
        "14-bit"@
    } else if ends_with(n, "32"@) || ends_with(n, "96"@) || ends_with(n, "128"@) {
        "32-bit"@
    } else {
        "16-bit"@
    }
}

/// The depth of a pixel format, as it is shown.
pub open spec fn bits_of(pf: Seq<char>) -> Seq<char> {
    if contains_text(pf, "p10"@) || contains_text(pf, "010"@) {
        "10-bit"@
    } else if contains_text(pf, "p12"@) || contains_text(pf, "012"@) {
        "12-bit"@
    } else if pf.len() == 0 {
        ""@
    } else if is_deep_format(pf) {
        named_depth(sample_name(pf))
    } else {
        "8-bit"@
    }
}

fn depth_in(n: &[char]) -> (r: &'static str)
    ensures
        r@ == named_depth(n@),
{
    if has_end(n, "9") {
        "9-bit"
    } else if has_end(n, "10") || has_end(n, "20") || has_end(n, "30") || has_end(n, "30x") {
        "10-bit"
    } else if has_end(n, "12") || has_end(n, "36") {
        "12-bit"
    } else if has_end(n, "14") {
        "14-bit"
    } else if has_end(n, "32") || has_end(n, "96") || has_end(n, "128") {
        "32-bit"
    } else {
        "16-bit"
    }
}

/// Bit depth from the pixel format.
pub fn bits_label(pf: &str) -> (r: String)
    ensures
        r@ == bits_of(pf@),
{
    let c = chars_of(pf);
    if has_text(c.as_slice(), "p10") || has_text(c.as_slice(), "010") {
        "10-bit".to_string()
    } else if has_text(c.as_slice(), "p12") || has_text(c.as_slice(), "012") {
        "12-bit".to_string()
    } else if c.len() == 0 {
        "".to_string()
    } else if deep_format(c.as_slice()) {
        if has_end(c.as_slice(), "le") || has_end(c.as_slice(), "be") {
            proof {
                reveal_strlit("le");
                reveal_strlit("be");
            }
            let n = sub_chars(c.as_slice(), 0, c.len() - 2);
            assert(n@ =~= sample_name(pf@));
            depth_in(n.as_slice()).to_string()
        } else {
            depth_in(c.as_slice()).to_string()
        }
    } else {
        "8-bit".to_string()
    }
}

/// Bits per second, shown in kbps; nothing where there is no rate.
pub open spec fn kbps_of(raw: Seq<char>) -> Seq<char> {
    let q = quantity_or(trim(raw), zero());
    if positive(q) {
        shown(quotient(q, whole(1000)), 0) + " kbps"@
    } else {
        ""@
    }
}

/// "12345678" (bits/s) becomes "12346 kbps". Empty if there is no data.
pub fn bitrate_kbps(raw: &str) -> (r: String)
    ensures
        r@ == kbps_of(raw@),
{
    let c = chars_of(raw);
    let t = trim_chars(c.as_slice());
    let q = decimal_or(t.as_slice(), Decimal::zero());
    if q.is_positive() {
        concat2(print_shown(&q.over(&Decimal::from_u64(1000)), 0).as_str(), " kbps")
    } else {
        "".to_string()
    }
}

/// Whether a character can stand in an unsigned decimal number.
pub open spec fn is_numeral(c: char) -> bool {
    ('0' <= c <= '9') || c == '.'
}

/// The first position at or after `i` without a numeral.
pub open spec fn numerals_end(s: Seq<char>, i: int) -> int
    decreases s.len() - i,
{
    if i < 0 || i >= s.len() {
        s.len() as int
    } else if is_numeral(s[i]) {
        numerals_end(s, i + 1)
    } else {
        i
    }
}

/// The number that a text such as `1024KiB` begins with; zero where it begins
/// with none.
pub open spec fn leading_quantity(raw: Seq<char>) -> Quantity {
    quantity_or(raw.take(numerals_end(raw, 0)), zero())
}

fn read_leading(raw: &str) -> (r: Decimal)
    ensures
        r.wf(),
        r@ == leading_quantity(raw@),
{
    let c = chars_of(raw);
    let mut i: usize = 0;
    while i < c.len() && ((c[i] >= '0' && c[i] <= '9') || c[i] == '.')
        invariant
            i <= c@.len(),
            numerals_end(c@, 0) == numerals_end(c@, i as int),
        decreases c@.len() - i,
    {
        i += 1;
    }
    let lead = sub_chars(c.as_slice(), 0, i);
    assert(lead@ =~= raw@.take(numerals_end(raw@, 0)));
    decimal_or(lead.as_slice(), Decimal::zero())
}

/// A size in KiB, shown in MiB, or in GiB from one GiB on.
pub open spec fn size_of_kib(raw: Seq<char>) -> Seq<char> {
    let kib = leading_quantity(raw);
    let mib = quotient(kib, whole(1024));
    if at_most_zero(kib) {
        "—"@
    } else if at_least(mib, 1024) {
        shown(quotient(mib, whole(1024)), 2) + " GiB"@
    } else {
        shown(mib, 0) + " MiB"@
    }
}

/// Formats the size ffmpeg reports.
pub fn fmt_size(raw: &str) -> (r: String)
    ensures
        r@ == size_of_kib(raw@),
{
    let kib = read_leading(raw);
    if kib.is_at_most_zero() {
        return "—".to_string();
    }
    let k = Decimal::from_u64(1024);
    let mib = kib.over(&k);
    if mib.is_at_least(1024) {
        concat2(print_shown(&mib.over(&k), 2).as_str(), " GiB")
    } else {
        concat2(print_shown(&mib, 0).as_str(), " MiB")
    }
}

/// A rate in kbit/s, as it is shown.
pub open spec fn rate_of(raw: Seq<char>) -> Seq<char> {
    let q = leading_quantity(raw);
    if at_most_zero(q) {
        "—"@
    } else {
        shown(q, 0) + " kbps"@
    }
}

/// Formats the bitrate ffmpeg reports.
pub fn fmt_bitrate(raw: &str) -> (r: String)
    ensures
        r@ == rate_of(raw@),
{
    let q = read_leading(raw);
    if q.is_at_most_zero() {
        return "—".to_string();
    }
    concat2(print_shown(&q, 0).as_str(), " kbps")
}

// ---------------------------------------------------------------- laws
/// Whether a quantity lies between zero and `top`.
pub open spec fn is_between(q: Quantity, top: int) -> bool {
    match q {
        Quantity::Finite { neg, num, scale } => (num == 0 || !neg) && num <= top * pow10(
            scale as nat,
        ),
        _ => false,
    }
}

proof fn lemma_rounded_is_a_number(neg: bool, n: int, d: int)
    ensures
        !(rounded(neg, n, d) is NotANumber),
{
    reveal(rounded);
}

proof fn lemma_held(q: Quantity, top: int)
    requires
        !(q is NotANumber),
        top > 0,
    ensures
        is_between(held_below(q, top), top),
{
    assert(pow10(0) == 1);
    if let Quantity::Finite { neg, num, scale } = q {
        let p = pow10(scale as nat);
        lemma_pow10_positive(scale as nat);
        assert(top * p >= 0) by (nonlinear_arith)
            requires
                top > 0,
                p > 0,
        ;
    }
}

/// How much is done lies between nothing and all of it, and is nothing without a
/// duration; where both times are infinite, or the one that has passed is not a
/// number, there is no share.
pub proof fn share_lies_in_its_range(time: Quantity, dur: Quantity)
    requires
        !(time is NotANumber),
        !(time is Infinite && dur is Infinite),
    ensures
        is_between(share_of(time, dur), 1),
        is_between(percent_of(time, dur), 100),
        !positive(dur) ==> share_of(time, dur) == zero() && percent_of(time, dur) == zero(),
{
    assert(pow10(0) == 1);
    if positive(dur) {
        if let (
            Quantity::Finite { neg, num: x, scale: xs },
            Quantity::Finite { neg: bn, num: y, scale: ys },
        ) = (time, dur) {
            lemma_rounded_is_a_number(neg, x * pow10(ys as nat), y * pow10(xs as nat));
        }
        let q = quotient(time, dur);
        if let Quantity::Finite { neg, num, scale } = q {
            lemma_rounded_is_a_number(neg, num * 100, pow10(scale as nat));
        }
        lemma_held(q, 1);
        lemma_held(product(q, 100), 100);
    }
}

/// A clock time shows hours, and minutes and seconds in two digits each.
pub proof fn clock_shows_hours_minutes_and_seconds(h: int, m: int, s: int)
    requires
        h >= 0,
        0 <= m < 60,
        0 <= s < 60,
    ensures
        hms(3600 * h + 60 * m + s) == dec(h) + seq![
            ':',
            (48 + m / 10) as char,
            (48 + m % 10) as char,
            ':',
            (48 + s / 10) as char,
            (48 + s % 10) as char,
        ],
{
    let t = 3600 * h + 60 * m + s;
    assert(t / 3600 == h);
    assert(t % 3600 == 60 * m + s);
    assert((60 * m + s) / 60 == m);
    assert(t % 60 == s);
    assert(pow10(2) == 100) by {
        reveal_with_fuel(pow10, 3);
    }
    places_are_filled_up(m, 2);
    places_are_filled_up(s, 2);
    assert(hms(t) =~= dec(h) + seq![
        ':',
        (48 + m / 10) as char,
        (48 + m % 10) as char,
        ':',
        (48 + s / 10) as char,
        (48 + s % 10) as char,
    ]);
}

/// Only whole seconds are shown, and a dash where there are none to show.
pub proof fn whole_seconds_are_shown(q: Quantity, n: int, d: int, t: int)
    requires
        is_worth(q, n, d),
        d > 0,
        0 <= t <= i64::MAX,
        t * d <= n < t * d + d,
    ensures
        n > 0 ==> hms_of(q) == hms(t),
        n == 0 ==> hms_of(q) == "—"@,
        hms_of(negated(q)) == "—"@,
{
    assert(n >= 0) by (nonlinear_arith)
        requires
            t >= 0,
            d > 0,
            t * d <= n,
    ;
    worth_is_compared(q, n, d, 1);
    if let Quantity::Finite { neg, num, scale } = q {
        let p = pow10(scale as nat);
        lemma_pow10_positive(scale as nat);
        assert(0 <= num - t * p < p) by (nonlinear_arith)
            requires
                num * d == n * p,
                t * d <= n < t * d + d,
                d > 0,
                p > 0,
        {
            assert(t * d * p <= n * p < (t * d + d) * p);
            assert((num - t * p) * d >= 0);
            assert((t * p + p - num) * d > 0) by {
                assert((t * d + d) * p == (t * p + p) * d);
            }
        }
        vstd::arithmetic::div_mod::lemma_fundamental_div_mod_converse(num, p, t, num - t * p);
    }
}

/// Seconds beyond the largest 64-bit number are shown as that number.
pub proof fn endless_times_are_cut_off(n: int)
    requires
        n >= i64::MAX,
    ensures
        hms_of(Quantity::Infinite { neg: false }) == hms(0x7fff_ffff_ffff_ffff),
        hms_of(whole(n)) == hms(0x7fff_ffff_ffff_ffff),
        hms_of(Quantity::Infinite { neg: true }) == "—"@,
        hms_of(Quantity::NotANumber) == hms(0),
{
    lemma_powers();
    assert(n / 1 == n);
}

/// A clock time that was printed is read as its seconds.
pub proof fn clock_is_read(h: int, m: int, s: int)
    requires
        0 <= h < 0x1_0000_0000,
        0 <= m < 0x1_0000_0000,
        0 <= s < 0x1_0000_0000,
    ensures
        is_worth(
            clock_of(dec(h) + seq![':'] + dec(m) + seq![':'] + dec(s)),
            3600 * h + 60 * m + s,
            1,
        ),
        clock_of(dec(h) + seq![':'] + dec(m)) == zero(),
        clock_of(dec(h)) == zero(),
{
    whole_numbers_are_read(h);
    whole_numbers_are_read(m);
    whole_numbers_are_read(s);
    let (qh, qm, qs) = (
        quantity_or(dec(h), zero()),
        quantity_or(dec(m), zero()),
        quantity_or(dec(s), zero()),
    );
    lemma_no_mark(h, ':');
    lemma_no_mark(m, ':');
    lemma_no_mark(s, ':');
    let rest = dec(m) + seq![':'] + dec(s);
    let t = dec(h) + seq![':'] + rest;
    assert(t =~= dec(h) + seq![':'] + dec(m) + seq![':'] + dec(s));
    text_is_cut_at_its_first_mark(dec(h), ':', rest);
    text_is_cut_at_its_first_mark(dec(m), ':', dec(s));
    text_is_cut_at_its_first_mark(dec(s), ':', Seq::empty());
    let p = split(t, ':');
    assert(p =~= seq![dec(h), dec(m), dec(s)]);
    lemma_powers();
    assert(is_worth(whole(3600), 3600, 1) && is_worth(whole(60), 60, 1));
    whole_numbers_are_exact(qh, whole(3600), h, 3600);
    whole_numbers_are_exact(qm, whole(60), m, 60);
    whole_numbers_are_exact(product(qh, 3600), product(qm, 60), h * 3600, m * 60);
    whole_numbers_are_exact(
        sum(product(qh, 3600), product(qm, 60)),
        qs,
        h * 3600 + m * 60,
        s,
    );
    text_is_cut_at_its_first_mark(dec(h), ':', dec(m));
    assert(split(dec(h) + seq![':'] + dec(m), ':').len() == 2);
}

/// A printed number holds digits only.
proof fn lemma_no_mark(n: int, c: char)
    requires
        n >= 0,
        !('0' <= c <= '9'),
    ensures
        !dec(n).contains(c),
{
    dec_is_its_value(n);
    if dec(n).contains(c) {
        let i = choose|i: int| 0 <= i < dec(n).len() && dec(n)[i] == c;
        assert(crate::number::is_digit(dec(n)[i]));
    }
}

/// The time left is what is left of the duration, divided by the speed; there is a dash
/// where nothing is left, and where the speed or the duration is not known.
pub proof fn time_left_is_shown(
    dur: Quantity,
    time: Quantity,
    speed: Quantity,
    d: int,
    t: int,
    v: int,
    k: int,
)
    requires
        is_worth(dur, d, 1),
        is_worth(time, t, 1),
        is_worth(speed, v, 1),
        0 <= d < 0x20_0000_0000_0000,
        0 <= t < 0x20_0000_0000_0000,
        0 <= v < 0x20_0000_0000_0000,
    ensures
        v > 0 && k > 0 && d - t == k * v ==> eta_of(dur, time, speed) == hms(k),
        t >= d || v == 0 || d == 0 ==> eta_of(dur, time, speed) == "—"@,
        eta_of(dur, time, negated(speed)) == "—"@,
        eta_of(negated(dur), time, speed) == "—"@,
        eta_of(dur, time, Quantity::NotANumber) == "—"@,
        eta_of(Quantity::NotANumber, time, speed) == "—"@,
{
    lemma_powers();
    worth_is_compared(dur, d, 1, 1);
    worth_is_compared(speed, v, 1, 1);
    whole_numbers_are_exact(dur, time, d, t);
    let rest = sum(dur, negated(time));
    if v > 0 && k > 0 && d - t == k * v {
        assert(d > t && k <= d - t) by (nonlinear_arith)
            requires
                v > 0,
                k > 0,
                d - t == k * v,
        ;
        worth_is_compared(rest, d - t, 1, 1);
        assert((d - t) * pow2(0) == k * v);
        quotients_are_exact(rest, speed, d - t, v, k, 0);
        whole_seconds_are_shown(quotient(rest, speed), d - t, v, k);
    }
    if (t >= d || v == 0) && v > 0 && d > 0 {
        if t == d {
            worth_is_compared(rest, 0, 1, 1);
        }
        assert(left_of(dur, time) == zero());
        assert(is_worth(zero(), 0, 1));
        assert(0 * pow2(0) == 0 * v);
        quotients_are_exact(zero(), speed, 0, v, 0, 0);
        whole_seconds_are_shown(quotient(zero(), speed), 0, v, 0);
    }
}

/// What is done is the part of the duration that lies before the position: all of it
/// from the end on, and up to one part in two to the 53 where the position lies before.
pub proof fn share_is_the_part_that_is_done(time: Quantity, dur: Quantity, t: int, d: int)
    requires
        is_worth(time, t, 1),
        is_worth(dur, d, 1),
        0 <= t < 0x20_0000_0000_0000,
        0 < d < 0x20_0000_0000_0000,
    ensures
        t == d ==> share_of(time, dur) == whole(1) && percent_of(time, dur) == whole(100),
        t == 0 ==> is_worth(share_of(time, dur), 0, 1) && is_worth(percent_of(time, dur), 0, 1),
        0 < t < d && 4 * t <= 3 * d ==> is_near(share_of(time, dur), t, d),
{
    lemma_powers();
    worth_is_compared(dur, d, 1, 1);
    let q = quotient(time, dur);
    if t == d || t == 0 {
        let m: int = if t == 0 {
            0
        } else {
            1
        };
        assert(t * pow2(0) == m * d);
        quotients_are_exact(time, dur, t, d, m, 0);
        worth_is_compared(q, t, d, 1);
        assert(is_worth(q, m, 1)) by {
            if let Quantity::Finite { num, scale, .. } = q {
                let p = pow10(scale as nat);
                assert(num == m * p) by (nonlinear_arith)
                    requires
                        num * d == t * p,
                        t == m * d,
                        d > 0,
                {
                    assert((num - m * p) * d == 0);
                }
            }
        }
        assert(is_worth(whole(100), 100, 1));
        whole_numbers_are_exact(q, whole(100), m, 100);
        worth_is_compared(product(q, 100), m * 100, 1, 100);
        worth_is_compared(q, m, 1, 1);
    } else if 4 * t <= 3 * d {
        quotients_are_precise(time, dur, t, d);
        if let Quantity::Finite { num, scale, .. } = q {
            let p = pow10(scale as nat);
            lemma_pow10_positive(scale as nat);
            assert(num < p && num > 0) by (nonlinear_arith)
                requires
                    -(t * p) <= (num * d - t * p) * 0x20_0000_0000_0000 <= t * p,
                    0 < t,
                    4 * t <= 3 * d,
                    p > 0,
            {
                let e = num * d - t * p;
                assert(t * p > 0);
                assert(4 * (t * p) <= 3 * (d * p));
                assert(8 * e <= t * p && 8 * e >= -(t * p));
                assert(8 * (num * d) <= 9 * (t * p));
                assert(num * d < d * p);
                assert((p - num) * d > 0);
                assert(num * d > 0);
            }
        }
    }
}

/// Halves, quarters, eighths and so on of a duration are told exactly, as a share and in
/// percent.
pub proof fn percent_is_the_part_that_is_done(
    time: Quantity,
    dur: Quantity,
    u: int,
    k: int,
    j: nat,
)
    requires
        j <= 20,
        0 <= k < pow2(j),
        u > 0,
        is_worth(time, k * u, 1),
        is_worth(dur, pow2(j) * u, 1),
    ensures
        is_worth(share_of(time, dur), k, pow2(j)),
        is_worth(percent_of(time, dur), 100 * k, pow2(j)),
{
    lemma_powers();
    lemma_pow2_positive(j);
    lemma_pow2_grows(j, 20);
    assert(pow2(20) == 0x10_0000) by {
        reveal_with_fuel(pow2, 21);
    }
    let b = pow2(j);
    let (t, d) = (k * u, b * u);
    assert(d > 0 && t >= 0 && t * b == k * d) by (nonlinear_arith)
        requires
            b >= 1,
            u > 0,
            k >= 0,
            t == k * u,
            d == b * u,
    ;
    worth_is_compared(dur, d, 1, 1);
    quotients_are_exact(time, dur, t, d, k, j);
    let q = quotient(time, dur);
    if let Quantity::Finite { num, scale, .. } = q {
        let p = pow10(scale as nat);
        lemma_pow10_positive(scale as nat);
        assert(num * b == k * p) by (nonlinear_arith)
            requires
                num * d == t * p,
                t == k * u,
                d == b * u,
                u > 0,
        {
            assert(num * b * u == k * p * u) by {
                assert(num * (b * u) == num * b * u);
                assert((k * u) * p == k * p * u);
            }
        }
        assert((num * 100) * b == (100 * k) * p) by (nonlinear_arith)
            requires
                num * b == k * p,
        ;
        assert((100 * k) * b == (100 * k) * b);
        lemma_rounds_to_its_worth(num * 100, p, 100 * k, b, 100 * k, j);
    }
    worth_is_compared(q, k, b, 1);
    worth_is_compared(product(q, 100), 100 * k, b, 100);
}

/// A share is shown in whole percent, rounded to the nearest.
pub proof fn percent_is_shown(share: Quantity, k: int, j: nat, w: int)
    requires
        j <= 20,
        0 <= k <= pow2(j),
        is_worth(share, k, pow2(j)),
        w >= 0,
        -pow2(j) < 2 * (w * pow2(j) - 100 * k) < pow2(j),
    ensures
        percent_text(share) == dec(w) + seq!['%'],
{
    reveal_strlit("%");
    lemma_powers();
    lemma_pow2_positive(j);
    lemma_pow2_grows(j, 20);
    assert(pow2(20) == 0x10_0000) by {
        reveal_with_fuel(pow2, 21);
    }
    let b = pow2(j);
    if let Quantity::Finite { num, scale, .. } = share {
        let p = pow10(scale as nat);
        lemma_pow10_positive(scale as nat);
        assert((num * 100) * b == (100 * k) * p) by (nonlinear_arith)
            requires
                num * b == k * p,
        ;
        lemma_rounds_to_its_worth(num * 100, p, 100 * k, b, 100 * k, j);
    }
    lemma_worth_is_shown(product(share, 100), 100 * k, b, w, 0);
    assert(percent_text(share) =~= dec(w) + seq!['%']);
}

/// What is worth `n / d` is shown as the nearest number with the asked places.
proof fn lemma_worth_is_shown(q: Quantity, n: int, d: int, w: int, k: nat)
    requires
        is_worth(q, n, d),
        d > 0,
        w >= 0,
        -d < 2 * (w * d - n * pow10(k)) < d,
    ensures
        shown(q, k as int) == dec(w / pow10(k)) + (if k > 0 {
            seq!['.'] + padded(w % pow10(k), k as int)
        } else {
            seq![]
        }),
{
    if let Quantity::Finite { num, scale, .. } = q {
        let p = pow10(scale as nat);
        let r = pow10(k);
        lemma_pow10_positive(scale as nat);
        assert(-p < 2 * (w * p - num * r) < p) by (nonlinear_arith)
            requires
                num * d == n * p,
                -d < 2 * (w * d - n * r) < d,
                d > 0,
                p > 0,
        {
            let e = 2 * (w * p - num * r);
            assert(e * d == 2 * (w * d - n * r) * p) by {
                assert(num * r * d == n * r * p);
            }
            assert(e * d < d * p && e * d > -(d * p));
            assert((p - e) * d > 0 && (p + e) * d > 0);
        }
        nearest_is_shown(q, w, k);
        assert(Seq::<char>::empty() + dec(w / r) =~= dec(w / r));
        assert(seq![] + dec(w / r) =~= dec(w / r));
    }
}

/// What is near `n / d` is shown as the nearest number with the asked places, unless it
/// lies next to the middle between two of them.
proof fn lemma_near_is_shown(q: Quantity, n: int, d: int, w: int, k: nat)
    requires
        is_near(q, n, d),
        0 < n,
        n * pow10(k) < 0x20_0000_0000_0000,
        d > 0,
        w >= 0,
        -d <= 2 * (w * d - n * pow10(k)) - 2,
        2 * (w * d - n * pow10(k)) + 2 <= d,
    ensures
        shown(q, k as int) == dec(w / pow10(k)) + (if k > 0 {
            seq!['.'] + padded(w % pow10(k), k as int)
        } else {
            seq![]
        }),
{
    if let Quantity::Finite { num, scale, .. } = q {
        let p = pow10(scale as nat);
        let r = pow10(k);
        lemma_pow10_positive(scale as nat);
        lemma_pow10_positive(k);
        let g = num * d - n * p;
        let big: int = 0x20_0000_0000_0000;
        assert(-p < g * r < p) by (nonlinear_arith)
            requires
                -(n * p) <= g * big <= n * p,
                n * r < big,
                n > 0,
                r > 0,
                p > 0,
                big == 0x20_0000_0000_0000,
        {
            assert(g * big * r <= n * p * r && g * big * r >= -(n * p * r));
            assert(n * p * r == n * r * p < big * p);
            assert(g * big * r == (g * r) * big);
            assert((g * r) * big < p * big && (g * r) * big > -(p * big));
        }
        let e = w * p - num * r;
        let c = w * d - n * r;
        assert(e * d == c * p - g * r) by (nonlinear_arith)
            requires
                e == w * p - num * r,
                c == w * d - n * r,
                g == num * d - n * p,
        ;
        assert(-p < 2 * e < p) by (nonlinear_arith)
            requires
                e * d == c * p - g * r,
                -p < g * r < p,
                -d <= 2 * c - 2,
                2 * c + 2 <= d,
                d > 0,
                p > 0,
        {
            assert(2 * (e * d) < (2 * c + 2) * p);
            assert((2 * c + 2) * p <= d * p);
            assert(2 * (e * d) > (2 * c - 2) * p);
            assert((2 * c - 2) * p >= -(d * p));
            assert((p - 2 * e) * d > 0);
            assert((p + 2 * e) * d > 0);
        }
        nearest_is_shown(q, w, k);
        assert(Seq::<char>::empty() + dec(w / r) =~= dec(w / r));
        assert(seq![] + dec(w / r) =~= dec(w / r));
    }
}

/// A frame rate written as a fraction is shown with three places, rounded to the
/// nearest; one that is no fraction, or divides by zero, stays as it is.
pub proof fn frame_rates_are_shown(n: int, d: int, w: int, other: Seq<char>)
    requires
        0 < n < 0x1_0000_0000,
        0 < d < 0x1_0000_0000,
        w >= 0,
        d >= 3 ==> -d + 2 <= 2 * (w * d - 1000 * n) <= d - 2,
        d < 3 ==> w * d == 1000 * n,
    ensures
        fps_of(dec(n) + seq!['/'] + dec(d)) == dec(w / 1000) + seq!['.'] + padded(w % 1000, 3),
        !other.contains('/') ==> fps_of(other) == other,
        fps_of(dec(n) + seq!['/', '0']) == dec(n) + seq!['/', '0'],
{
    lemma_powers();
    assert(pow10(3) == 1000) by {
        reveal_with_fuel(pow10, 4);
    }
    lemma_no_mark(n, '/');
    text_is_cut_at_its_first_mark(dec(n), '/', dec(d));
    whole_numbers_are_read(n);
    whole_numbers_are_read(d);
    let (a, b) = (quantity_or(dec(n), zero()), quantity_or(dec(d), one()));
    worth_is_compared(b, d, 1, 1);
    if d < 3 {
        assert((1000 * n) * 1 == w * d);
        assert(n * pow2(1) == (2 * n) * 1);
        let (m, j): (int, nat) = if d == 1 {
            (n, 0)
        } else {
            (n, 1)
        };
        assert(n * pow2(j) == m * d);
        quotients_are_exact(a, b, n, d, m, j);
        lemma_worth_is_shown(quotient(a, b), n, d, w, 3);
    } else {
        quotients_are_precise(a, b, n, d);
        lemma_near_is_shown(quotient(a, b), n, d, w, 3);
    }
    assert(fps_of(dec(n) + seq!['/'] + dec(d)) =~= dec(w / 1000) + seq!['.'] + padded(w % 1000, 3));
    if !other.contains('/') {
        text_is_cut_at_its_first_mark(other, '/', Seq::empty());
    }
    whole_numbers_are_read(0);
    assert(dec(0) =~= seq!['0']);
    text_is_cut_at_its_first_mark(dec(n), '/', dec(0));
    assert(dec(n) + seq!['/'] + dec(0) =~= dec(n) + seq!['/', '0']);
    worth_is_compared(quantity_or(dec(0), one()), 0, 1, 1);
}

/// A rate in bits is shown in thousands, rounded to the nearest; no rate shows as
/// nothing.
pub proof fn rates_are_shown_in_kbps(n: int, w: int)
    requires
        0 < n < 0x20_0000_0000_0000,
        w >= 0,
        -998 <= 2 * (1000 * w - n) <= 998,
    ensures
        kbps_of(dec(n)) == dec(w) + " kbps"@,
        kbps_of(seq!['0']) == ""@,
        kbps_of(seq!['-'] + dec(n)) == ""@,
{
    lemma_powers();
    whole_numbers_are_read(n);
    whole_numbers_are_read(0);
    dec_is_its_value(n);
    dec_is_its_value(0);
    lemma_trim_keeps(dec(n));
    lemma_trim_keeps(dec(0));
    lemma_trim_keeps(seq!['-'] + dec(n));
    assert(dec(0) =~= seq!['0']);
    let q = quantity_or(dec(n), zero());
    worth_is_compared(q, n, 1, 1);
    worth_is_compared(quantity_or(dec(0), zero()), 0, 1, 1);
    assert(is_worth(whole(1000), 1000, 1));
    quotients_are_precise(q, whole(1000), n, 1000);
    assert(n * pow10(0) == n);
    lemma_near_is_shown(quotient(q, whole(1000)), n, 1000, w, 0);
    assert(w / 1 == w);
    assert(dec(w) + Seq::<char>::empty() =~= dec(w));
    assert(dec(w) + seq![] =~= dec(w));
}

proof fn lemma_trim_keeps(s: Seq<char>)
    requires
        s.len() > 0,
        !crate::text::is_white(s[0]),
        !crate::text::is_white(s.last()),
    ensures
        trim(s) == s,
{
    white_ends_are_trimmed(Seq::empty(), s, Seq::empty());
    assert(Seq::<char>::empty() + s + Seq::<char>::empty() =~= s);
}

proof fn lemma_numerals_end(s: Seq<char>, k: int, i: int)
    requires
        0 <= i <= k <= s.len(),
        forall|j: int| 0 <= j < k ==> is_numeral(#[trigger] s[j]),
        k < s.len() ==> !is_numeral(s[k]),
    ensures
        numerals_end(s, i) == k,
    decreases k - i,
{
    if i < k {
        assert(is_numeral(s[i]));
        lemma_numerals_end(s, k, i + 1);
    }
}

/// A number with a unit behind it is read as the number.
pub proof fn unit_is_left_off(n: int, unit: Seq<char>)
    requires
        0 <= n < 0x20_0000_0000_0000,
        unit.len() > 0 ==> !('0' <= unit[0] <= '9') && unit[0] != '.',
    ensures
        is_worth(leading_quantity(dec(n) + unit), n, 1),
{
    dec_is_its_value(n);
    let s = dec(n) + unit;
    let k = dec(n).len() as int;
    assert forall|j: int| 0 <= j < k implies is_numeral(#[trigger] s[j]) by {
        assert(crate::number::is_digit(dec(n)[j]));
        assert(s[j] == dec(n)[j]);
    }
    if k < s.len() {
        assert(s[k] == unit[0]);
    }
    lemma_numerals_end(s, k, 0);
    assert(s.take(k) =~= dec(n));
    whole_numbers_are_read(n);
}

/// A size below one GiB is shown in MiB, rounded to the nearest; a larger one in GiB
/// with two places. No size is a dash.
pub proof fn sizes_are_shown(n: int, unit: Seq<char>, w: int)
    requires
        0 < n < 0x10_0000_0000_0000,
        unit.len() > 0 ==> !('0' <= unit[0] <= '9') && unit[0] != '.',
        w >= 0,
    ensures
        n < 0x10_0000 && -1024 < 2 * (1024 * w - n) < 1024 ==> size_of_kib(dec(n) + unit) == dec(w)
            + " MiB"@,
        n >= 0x10_0000 && -0x10_0000 < 2 * (0x10_0000 * w - 100 * n) < 0x10_0000 ==> size_of_kib(
            dec(n) + unit,
        ) == dec(w / 100) + seq!['.'] + padded(w % 100, 2) + " GiB"@,
        size_of_kib(dec(0) + unit) == "—"@,
{
    lemma_powers();
    assert(pow10(2) == 100) by {
        reveal_with_fuel(pow10, 3);
    }
    assert(pow2(10) == 1024) by {
        reveal_with_fuel(pow2, 11);
    }
    unit_is_left_off(n, unit);
    unit_is_left_off(0, unit);
    worth_is_compared(leading_quantity(dec(0) + unit), 0, 1, 1);
    let kib = leading_quantity(dec(n) + unit);
    worth_is_compared(kib, n, 1, 1);
    assert(is_worth(whole(1024), 1024, 1));
    assert(n * pow2(10) == n * 1024);
    quotients_are_exact(kib, whole(1024), n, 1024, n, 10);
    let mib = quotient(kib, whole(1024));
    worth_is_compared(mib, n, 1024, 1024);
    assert(n * pow10(0) == n);
    if n < 0x10_0000 && -1024 < 2 * (1024 * w - n) < 1024 {
        lemma_worth_is_shown(mib, n, 1024, w, 0);
        assert(w / 1 == w);
        assert(dec(w) + Seq::<char>::empty() =~= dec(w));
        assert(dec(w) + seq![] =~= dec(w));
    }
    if n >= 0x10_0000 && -0x10_0000 < 2 * (0x10_0000 * w - 100 * n) < 0x10_0000 {
        let gib = quotient(mib, whole(1024));
        if let Quantity::Finite { num, scale, .. } = mib {
            let p = pow10(scale as nat);
            lemma_pow10_positive(scale as nat);
            assert(pow2(20) == 0x10_0000) by {
                lemma_pow2_sum(10, 10);
            }
            assert((num * 1) * 0x10_0000 == n * (1024 * p)) by (nonlinear_arith)
                requires
                    num * 1024 == n * p,
            ;
            assert(n * pow2(20) == n * 0x10_0000);
            lemma_rounds_to_its_worth(num * 1, 1024 * p, n, 0x10_0000, n, 20);
        }
        lemma_worth_is_shown(gib, n, 0x10_0000, w, 2);
        assert(size_of_kib(dec(n) + unit) =~= dec(w / 100) + seq!['.'] + padded(w % 100, 2)
            + " GiB"@);
    }
}

/// A rate in kbit/s is shown as it is, without its unit and its fraction; no rate is a
/// dash.
pub proof fn reported_rates_are_shown(n: int, unit: Seq<char>)
    requires
        0 < n < 0x20_0000_0000_0000,
        unit.len() > 0 ==> !('0' <= unit[0] <= '9') && unit[0] != '.',
    ensures
        rate_of(dec(n) + unit) == dec(n) + " kbps"@,
        rate_of(dec(0) + unit) == "—"@,
{
    lemma_powers();
    unit_is_left_off(n, unit);
    unit_is_left_off(0, unit);
    worth_is_compared(leading_quantity(dec(0) + unit), 0, 1, 1);
    let q = leading_quantity(dec(n) + unit);
    worth_is_compared(q, n, 1, 1);
    assert(n * pow10(0) == n);
    lemma_worth_is_shown(q, n, 1, n, 0);
    assert(n / 1 == n);
    assert(dec(n) + Seq::<char>::empty() =~= dec(n));
    assert(dec(n) + seq![] =~= dec(n));
}

/// The depth of a pixel format follows its name.
pub proof fn depths_follow_the_names(pf: Seq<char>)
    ensures
        contains_text(pf, "p10"@) || contains_text(pf, "010"@) ==> bits_of(pf) == "10-bit"@
            && is_deep_format(pf),
        !contains_text(pf, "p10"@) && !contains_text(pf, "010"@) && (contains_text(pf, "p12"@)
            || contains_text(pf, "012"@)) ==> bits_of(pf) == "12-bit"@ && is_deep_format(pf),
        contains_text(pf, "p16"@) ==> is_deep_format(pf),
        pf.len() > 0 && !is_deep_format(pf) ==> bits_of(pf) == "8-bit"@,
        bits_of(Seq::empty()) == ""@,
{
    reveal_strlit("p10");
    reveal_strlit("010");
    reveal_strlit("p12");
    reveal_strlit("012");
    reveal_strlit("");
    assert("" @ =~= Seq::<char>::empty());
    let e = Seq::<char>::empty();
    if bits_of(e) != ""@ {
        assert(exists|i: int|
            crate::text::stands_at(e, "p10"@, i) || crate::text::stands_at(e, "010"@, i)
                || crate::text::stands_at(e, "p12"@, i) || crate::text::stands_at(e, "012"@, i));
    }
}

/// Where the name of a deep format names its depth otherwise, it ends in it.
pub proof fn deep_names_end_in_their_depth(a: Seq<char>)
    ensures
        named_depth(a + "9"@) == "9-bit"@,
        named_depth(a + "10"@) == "10-bit"@,
        named_depth(a + "12"@) == "12-bit"@,
        named_depth(a + "14"@) == "14-bit"@,
        named_depth(a + "16"@) == "16-bit"@,
        named_depth(a + "32"@) == "32-bit"@,
        sample_name(a + "le"@) == a,
        sample_name(a + "be"@) == a,
        sample_name(a + "p"@) == a + "p"@,
{
    reveal_strlit("9");
    reveal_strlit("10");
    reveal_strlit("12");
    reveal_strlit("14");
    reveal_strlit("16");
    reveal_strlit("20");
    reveal_strlit("30");
    reveal_strlit("30x");
    reveal_strlit("32");
    reveal_strlit("36");
    reveal_strlit("96");
    reveal_strlit("128");
    reveal_strlit("le");
    reveal_strlit("be");
    reveal_strlit("p");
    text_stands_where_it_was_put(a, "9"@, Seq::empty());
    text_stands_where_it_was_put(a, "10"@, Seq::empty());
    text_stands_where_it_was_put(a, "12"@, Seq::empty());
    text_stands_where_it_was_put(a, "14"@, Seq::empty());
    text_stands_where_it_was_put(a, "32"@, Seq::empty());
    text_stands_where_it_was_put(a, "le"@, Seq::empty());
    text_stands_where_it_was_put(a, "be"@, Seq::empty());
    lemma_other_end(a, "10"@, "9"@);
    lemma_other_end(a, "12"@, "9"@);
    lemma_other_end(a, "14"@, "9"@);
    lemma_other_end(a, "16"@, "9"@);
    lemma_other_end(a, "32"@, "9"@);
    lemma_other_end(a, "12"@, "10"@);
    lemma_other_end(a, "12"@, "20"@);
    lemma_other_end(a, "12"@, "30"@);
    lemma_other_end(a, "12"@, "30x"@);
    lemma_other_end(a, "14"@, "10"@);
    lemma_other_end(a, "14"@, "20"@);
    lemma_other_end(a, "14"@, "30"@);
    lemma_other_end(a, "14"@, "30x"@);
    lemma_other_end(a, "14"@, "12"@);
    lemma_other_end(a, "14"@, "36"@);
    lemma_other_end(a, "16"@, "10"@);
    lemma_other_end(a, "16"@, "20"@);
    lemma_other_end(a, "16"@, "30"@);
    lemma_other_end(a, "16"@, "30x"@);
    lemma_other_end(a, "16"@, "12"@);
    lemma_other_end(a, "16"@, "14"@);
    lemma_other_end(a, "16"@, "32"@);
    lemma_other_end(a, "16"@, "128"@);
    assert(!ends_with(a + "16"@, "36"@)) by {
        if ends_with(a + "16"@, "36"@) {
            found_text_is_there(a + "16"@, "36"@);
            assert((a + "16"@)[a.len() as int] == "36"@[0]);
        }
    }
    assert(!ends_with(a + "16"@, "96"@)) by {
        if ends_with(a + "16"@, "96"@) {
            found_text_is_there(a + "16"@, "96"@);
            assert((a + "16"@)[a.len() as int] == "96"@[0]);
        }
    }
    lemma_other_end(a, "32"@, "10"@);
    lemma_other_end(a, "32"@, "20"@);
    lemma_other_end(a, "32"@, "30"@);
    lemma_other_end(a, "32"@, "30x"@);
    assert(!ends_with(a + "32"@, "12"@)) by {
        if ends_with(a + "32"@, "12"@) {
            found_text_is_there(a + "32"@, "12"@);
            assert((a + "32"@)[a.len() as int] == "12"@[0]);
        }
    }
    lemma_other_end(a, "32"@, "36"@);
    lemma_other_end(a, "32"@, "14"@);
    lemma_other_end(a, "p"@, "le"@);
    lemma_other_end(a, "p"@, "be"@);
    assert((a + "le"@).take((a + "le"@).len() - 2) =~= a);
    assert((a + "be"@).take((a + "be"@).len() - 2) =~= a);
}

/// A text does not end with another whose last character differs.
proof fn lemma_other_end(a: Seq<char>, b: Seq<char>, p: Seq<char>)
    requires
        b.len() > 0,
        p.len() > 0,
        b.last() != p.last(),
    ensures
        !ends_with(a + b, p),
{
    if ends_with(a + b, p) {
        found_text_is_there(a + b, p);
        assert((a + b).last() == b.last());
    }
}

} // verus!
