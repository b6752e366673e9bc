//! Rendering a civil UTC date-time as an RFC 3339 string with exactly three
//! fractional-second digits and a trailing "Z", and the current-time command
//! built on it.
use vstd::prelude::*;

verus! {

use vstd::arithmetic::div_mod::lemma_fundamental_div_mod;
use vstd::arithmetic::div_mod::lemma_mod_bound;
use vstd::arithmetic::div_mod::lemma_div_pos_is_pos;
use vstd::arithmetic::div_mod::lemma_div_denominator;
use crate::calendar::CivilDateTime;
use crate::calendar::MAX_EPOCH_MILLIS;
use crate::calendar::civil_from_epoch_millis;

pub open spec fn digit_char(d: int) -> char {
    if d == 0 {
        '0'
    } else if d == 1 {
        '1'
    } else if d == 2 {
        '2'
    } else if d == 3 {
        '3'
    } else if d == 4 {
        '4'
    } else if d == 5 {
        '5'
    } else if d == 6 {
        '6'
    } else if d == 7 {
        '7'
    } else if d == 8 {
        '8'
    } else {
        '9'
    }
}

pub open spec fn is_digit_char(c: char) -> bool {
    c == '0' || c == '1' || c == '2' || c == '3' || c == '4' || c == '5' || c == '6' || c == '7'
        || c == '8' || c == '9'
}

pub open spec fn two_digits(n: int) -> Seq<char> {
    seq![digit_char(n / 10), digit_char(n % 10)]
}

pub open spec fn three_digits(n: int) -> Seq<char> {
    seq![digit_char(n / 100), digit_char((n / 10) % 10), digit_char(n % 10)]
}

pub open spec fn four_digits(n: int) -> Seq<char> {
    seq![
        digit_char(n / 1000),
        digit_char((n / 100) % 10),
        digit_char((n / 10) % 10),
        digit_char(n % 10),
    ]
}

/// The RFC 3339 date-time rendering `YYYY-MM-DDTHH:MM:SS.mmmZ` of a civil
/// UTC date-time.
pub open spec fn rfc3339_utc_millis(c: CivilDateTime) -> Seq<char> {
    four_digits(c.year as int) + seq!['-'] + two_digits(c.month as int) + seq!['-'] + two_digits(
        c.day as int,
    ) + seq!['T'] + two_digits(c.hour as int) + seq![':'] + two_digits(c.minute as int)
        + seq![':'] + two_digits(c.second as int) + seq!['.'] + three_digits(
        c.millisecond as int,
    ) + seq!['Z']
}

/// The shape `YYYY-MM-DDTHH:MM:SS.mmmZ`: 24 characters, digits in the numeric
/// positions, the fixed separators everywhere else.
pub open spec fn is_rfc3339_utc_millis(s: Seq<char>) -> bool {
    &&& s.len() == 24
    &&& is_digit_char(s[0])
    &&& is_digit_char(s[1])
    &&& is_digit_char(s[2])
    &&& is_digit_char(s[3])
    &&& s[4] == '-'
    &&& is_digit_char(s[5])
    &&& is_digit_char(s[6])
    &&& s[7] == '-'
    &&& is_digit_char(s[8])
    &&& is_digit_char(s[9])
    &&& s[10] == 'T'
    &&& is_digit_char(s[11])
    &&& is_digit_char(s[12])
    &&& s[13] == ':'
    &&& is_digit_char(s[14])
    &&& is_digit_char(s[15])
    &&& s[16] == ':'
    &&& is_digit_char(s[17])
    &&& is_digit_char(s[18])
    &&& s[19] == '.'
    &&& is_digit_char(s[20])
    &&& is_digit_char(s[21])
    &&& is_digit_char(s[22])
    &&& s[23] == 'Z'
}

fn push_digit(s: &mut String, d: u8)
    requires
        d < 10,
    ensures
        final(s)@ == old(s)@ + seq![digit_char(d as int)],
{
    match d {
        0 => {
            proof {
                reveal_strlit("0");
            }
            s.append("0");
        },
        1 => {
            proof {
                reveal_strlit("1");
            }
            s.append("1");
        },
        2 => {
            proof {
                reveal_strlit("2");
            }
            s.append("2");
        },
        3 => {
            proof {
                reveal_strlit("3");
            }
            s.append("3");
        },
        4 => {
            proof {
                reveal_strlit("4");
            }
            s.append("4");
        },
        5 => {
            proof {
                reveal_strlit("5");
            }
            s.append("5");
        },
        6 => {
            proof {
                reveal_strlit("6");
            }
            s.append("6");
        },
        7 => {
            proof {
                reveal_strlit("7");
            }
            s.append("7");
        },
        8 => {
            proof {
                reveal_strlit("8");
            }
            s.append("8");
        },
        _ => {
            proof {
                reveal_strlit("9");
            }
            s.append("9");
        },
    }
    assert(s@ =~= old(s)@ + seq![digit_char(d as int)]);
}

fn push_two_digits(s: &mut String, n: u8)
    requires
        n < 100,
    ensures
        final(s)@ == old(s)@ + two_digits(n as int),
{
    push_digit(s, n / 10);
    push_digit(s, n % 10);
    assert(s@ =~= old(s)@ + two_digits(n as int));
}

fn push_three_digits(s: &mut String, n: u16)
    requires
        n < 1000,
    ensures
        final(s)@ == old(s)@ + three_digits(n as int),
{
    push_digit(s, (n / 100) as u8);
    push_digit(s, ((n / 10) % 10) as u8);
    push_digit(s, (n % 10) as u8);
    assert(s@ =~= old(s)@ + three_digits(n as int));
}

fn push_four_digits(s: &mut String, n: u16)
    requires
        n < 10000,
    ensures
        final(s)@ == old(s)@ + four_digits(n as int),
{
    push_digit(s, (n / 1000) as u8);
    push_digit(s, ((n / 100) % 10) as u8);
    push_digit(s, ((n / 10) % 10) as u8);
    push_digit(s, (n % 10) as u8);
    assert(s@ =~= old(s)@ + four_digits(n as int));
}

/// Renders a well-formed civil UTC date-time in the RFC 3339 form
/// `YYYY-MM-DDTHH:MM:SS.mmmZ`.
pub fn format_civil(c: &CivilDateTime) -> (r: String)
    requires
        c.wf(),
    ensures
        r@ == rfc3339_utc_millis(*c),
{
    proof {
        reveal_strlit("-");
        reveal_strlit("T");
        reveal_strlit(":");
        reveal_strlit(".");
        reveal_strlit("Z");
    }
    let mut s = String::new();
    push_four_digits(&mut s, c.year);
    s.append("-");
    push_two_digits(&mut s, c.month);
    s.append("-");
    push_two_digits(&mut s, c.day);
    s.append("T");
    push_two_digits(&mut s, c.hour);
    s.append(":");
    push_two_digits(&mut s, c.minute);
    s.append(":");
    push_two_digits(&mut s, c.second);
    s.append(".");
    push_three_digits(&mut s, c.millisecond);
    s.append("Z");
    assert(s@ =~= rfc3339_utc_millis(*c));
    s
}

/// Every rendering of a well-formed civil date-time has the RFC 3339 shape:
/// 24 characters, four-digit year, two-digit fields, three fractional-second
/// digits and a trailing "Z".
pub proof fn lemma_rfc3339_shape(c: CivilDateTime)
    requires
        c.wf(),
    ensures
        is_rfc3339_utc_millis(rfc3339_utc_millis(c)),
{
    lemma_digits_bounded(c.year as int, 1000);
    lemma_digits_bounded(c.month as int, 10);
    lemma_digits_bounded(c.day as int, 10);
    lemma_digits_bounded(c.hour as int, 10);
    lemma_digits_bounded(c.minute as int, 10);
    lemma_digits_bounded(c.second as int, 10);
    lemma_digits_bounded(c.millisecond as int, 100);
}

/// Each decimal digit that the renderings select lies in 0..=9.
proof fn lemma_digits_bounded(n: int, top: int)
    requires
        0 <= n < 10 * top,
        1 <= top,
    ensures
        0 <= n / top <= 9,
        0 <= n % 10 <= 9,
        0 <= (n / 10) % 10 <= 9,
        0 <= (n / 100) % 10 <= 9,
{
    lemma_fundamental_div_mod(n, top);
    lemma_mod_bound(n, top);
    lemma_div_pos_is_pos(n, top);
    assert(n / top <= 9) by (nonlinear_arith)
        requires
            n < 10 * top,
            1 <= top,
            n == top * (n / top) + n % top,
            0 <= n % top,
    ;
    lemma_mod_bound(n, 10);
    lemma_mod_bound(n / 10, 10);
    lemma_mod_bound(n / 100, 10);
    lemma_div_pos_is_pos(n, 10);
    lemma_div_pos_is_pos(n, 100);
}

proof fn lemma_digit_char_injective(x: int, y: int)
    requires
        0 <= x < 10,
        0 <= y < 10,
        digit_char(x) == digit_char(y),
    ensures
        x == y,
{
}

proof fn lemma_two_digit_value(x: int, y: int)
    requires
        0 <= x < 100,
        0 <= y < 100,
        digit_char(x / 10) == digit_char(y / 10),
        digit_char(x % 10) == digit_char(y % 10),
    ensures
        x == y,
{
    lemma_fundamental_div_mod(x, 10);
    lemma_fundamental_div_mod(y, 10);
    lemma_mod_bound(x, 10);
    lemma_mod_bound(y, 10);
    lemma_div_pos_is_pos(x, 10);
    lemma_div_pos_is_pos(y, 10);
    lemma_digit_char_injective(x / 10, y / 10);
    lemma_digit_char_injective(x % 10, y % 10);
}

proof fn lemma_three_digit_value(x: int, y: int)
    requires
        0 <= x < 1000,
        0 <= y < 1000,
        digit_char(x / 100) == digit_char(y / 100),
        digit_char((x / 10) % 10) == digit_char((y / 10) % 10),
        digit_char(x % 10) == digit_char(y % 10),
    ensures
        x == y,
{
    lemma_div_denominator(x, 10, 10);
    lemma_div_denominator(y, 10, 10);
    lemma_div_pos_is_pos(x, 10);
    lemma_div_pos_is_pos(y, 10);
    lemma_two_digit_value(x / 10, y / 10);
    lemma_fundamental_div_mod(x, 10);
    lemma_fundamental_div_mod(y, 10);
    lemma_mod_bound(x, 10);
    lemma_mod_bound(y, 10);
    lemma_digit_char_injective(x % 10, y % 10);
}

proof fn lemma_four_digit_value(x: int, y: int)
    requires
        0 <= x < 10000,
        0 <= y < 10000,
        digit_char(x / 1000) == digit_char(y / 1000),
        digit_char((x / 100) % 10) == digit_char((y / 100) % 10),
        digit_char((x / 10) % 10) == digit_char((y / 10) % 10),
        digit_char(x % 10) == digit_char(y % 10),
    ensures
        x == y,
{
    lemma_div_denominator(x, 10, 10);
    lemma_div_denominator(y, 10, 10);
    lemma_div_denominator(x, 100, 10);
    lemma_div_denominator(y, 100, 10);
    lemma_div_denominator(x, 10, 100);
    lemma_div_denominator(y, 10, 100);
    lemma_div_pos_is_pos(x, 10);
    lemma_div_pos_is_pos(y, 10);
    lemma_three_digit_value(x / 10, y / 10);
    lemma_fundamental_div_mod(x, 10);
    lemma_fundamental_div_mod(y, 10);
    lemma_mod_bound(x, 10);
    lemma_mod_bound(y, 10);
    lemma_digit_char_injective(x % 10, y % 10);
}

/// The character that the rendering holds at each digit position.
proof fn lemma_rfc3339_chars(c: CivilDateTime)
    ensures
        rfc3339_utc_millis(c)[0] == digit_char(c.year as int / 1000),
        rfc3339_utc_millis(c)[1] == digit_char((c.year as int / 100) % 10),
        rfc3339_utc_millis(c)[2] == digit_char((c.year as int / 10) % 10),
        rfc3339_utc_millis(c)[3] == digit_char(c.year as int % 10),
        rfc3339_utc_millis(c)[5] == digit_char(c.month as int / 10),
        rfc3339_utc_millis(c)[6] == digit_char(c.month as int % 10),
        rfc3339_utc_millis(c)[8] == digit_char(c.day as int / 10),
        rfc3339_utc_millis(c)[9] == digit_char(c.day as int % 10),
        rfc3339_utc_millis(c)[11] == digit_char(c.hour as int / 10),
        rfc3339_utc_millis(c)[12] == digit_char(c.hour as int % 10),
        rfc3339_utc_millis(c)[14] == digit_char(c.minute as int / 10),
        rfc3339_utc_millis(c)[15] == digit_char(c.minute as int % 10),
        rfc3339_utc_millis(c)[17] == digit_char(c.second as int / 10),
        rfc3339_utc_millis(c)[18] == digit_char(c.second as int % 10),
        rfc3339_utc_millis(c)[20] == digit_char(c.millisecond as int / 100),
        rfc3339_utc_millis(c)[21] == digit_char((c.millisecond as int / 10) % 10),
        rfc3339_utc_millis(c)[22] == digit_char(c.millisecond as int % 10),
{
}

/// The RFC 3339 rendering is injective on well-formed civil date-times: the
/// string determines year, month, day, hour, minute, second and millisecond.
pub proof fn lemma_rfc3339_injective(a: CivilDateTime, b: CivilDateTime)
    requires
        a.wf(),
        b.wf(),
        rfc3339_utc_millis(a) == rfc3339_utc_millis(b),
    ensures
        a == b,
{
    lemma_rfc3339_chars(a);
    lemma_rfc3339_chars(b);
    lemma_four_digit_value(a.year as int, b.year as int);
    lemma_two_digit_value(a.month as int, b.month as int);
    lemma_two_digit_value(a.day as int, b.day as int);
    lemma_two_digit_value(a.hour as int, b.hour as int);
    lemma_two_digit_value(a.minute as int, b.minute as int);
    lemma_two_digit_value(a.second as int, b.second as int);
    lemma_three_digit_value(a.millisecond as int, b.millisecond as int);
}

/// Relies on chrono::Utc::now: the current UTC time as non-leap milliseconds
/// since 1970-01-01T00:00:00Z. Never negative: chrono reads the system clock
/// as a duration since the Unix epoch and aborts if the clock is before it.
#[verifier::external_body]
fn clock_now_millis() -> (r: i64)
    ensures
        0 <= r,
{
    chrono::Utc::now().timestamp_millis()
}

/// Renders the given epoch millisecond as RFC 3339 with millisecond
/// precision, UTC, trailing "Z".
pub fn format_timestamp_millis(t: u64) -> (r: String)
    requires
        t < MAX_EPOCH_MILLIS,
    ensures
        exists|c: CivilDateTime|
            c.wf() && c.epoch_millis() == t && r@ == rfc3339_utc_millis(c),
        is_rfc3339_utc_millis(r@),
{
    let c = civil_from_epoch_millis(t);
    proof {
        lemma_rfc3339_shape(c);
    }
    format_civil(&c)
}

/// The current UTC time in the RFC 3339 form `YYYY-MM-DDTHH:MM:SS.mmmZ`.
/// A clock reading at or past 10000-01-01 is capped to the last representable
/// millisecond of year 9999.
pub fn get_current_timestamp() -> (r: String)
    ensures
        exists|c: CivilDateTime| c.wf() && r@ == rfc3339_utc_millis(c),
        is_rfc3339_utc_millis(r@),
{
    let now: i64 = clock_now_millis();
    let mut t: u64 = now as u64;
    if t >= MAX_EPOCH_MILLIS {
        t = MAX_EPOCH_MILLIS - 1;
    }
    format_timestamp_millis(t)
}

} // verus!
