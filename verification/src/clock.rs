//! Wall-clock text: local hour and minute of a unix timestamp, and the
//! fixed-width digit formatting the display labels use.

use vstd::prelude::*;

verus! {

/// The decimal digit `d` as a character.
pub open spec fn digit_char(d: int) -> char
    recommends
        0 <= d <= 9,
{
    if d == 0 {
        '0'
    } else if d == 1 {
        '1'
    } else if d == 2 {
        '2'
    } else if d == 3 {
        '3'
    } else if d == 4 {
        '4'
    } else if d == 5 {
        '5'
    } else if d == 6 {
        '6'
    } else if d == 7 {
        '7'
    } else if d == 8 {
        '8'
    } else {
        '9'
    }
}

/// The decimal digit `d` as a character.
pub fn digit_of(d: u32) -> (r: char)
    requires
        d < 10,
    ensures
        r == digit_char(d as int),
{
    if d == 0 {
        '0'
    } else if d == 1 {
        '1'
    } else if d == 2 {
        '2'
    } else if d == 3 {
        '3'
    } else if d == 4 {
        '4'
    } else if d == 5 {
        '5'
    } else if d == 6 {
        '6'
    } else if d == 7 {
        '7'
    } else if d == 8 {
        '8'
    } else {
        '9'
    }
}

/// The decimal digits of `n`, most significant first, no leading zeros
/// (a single `'0'` for zero).
pub open spec fn dec_digits_spec(n: int) -> Seq<char>
    recommends
        n >= 0,
    decreases n,
{
    if n < 10 {
        seq![digit_char(n)]
    } else {
        dec_digits_spec(n / 10).push(digit_char(n % 10))
    }
}

/// The decimal digits of `n`, most significant first.
pub fn dec_digits(n: u64) -> (r: Vec<char>)
    ensures
        r@ == dec_digits_spec(n as int),
    decreases n,
{
    if n < 10 {
        let mut v: Vec<char> = Vec::new();
        v.push(digit_of(n as u32));
        proof {
            assert(v@ =~= dec_digits_spec(n as int));
        }
        v
    } else {
        let mut v = dec_digits(n / 10);
        v.push(digit_of((n % 10) as u32));
        v
    }
}

/// A number has at least one digit and no more digits than itself plus
/// one.
pub proof fn lemma_dec_digits_len(n: int)
    requires
        n >= 0,
    ensures
        1 <= dec_digits_spec(n).len() <= n + 1,
    decreases n,
{
    if n >= 10 {
        lemma_dec_digits_len(n / 10);
    }
}

/// `HH<sep>MM` with both fields zero padded to two digits.
pub open spec fn hm_chars(h: int, m: int, sep: char) -> Seq<char> {
    seq![digit_char(h / 10), digit_char(h % 10), sep, digit_char(m / 10), digit_char(m % 10)]
}

/// Format an hour and minute as `HH<sep>MM`, zero padded.
pub fn format_hm(h: u32, m: u32, sep: char) -> (r: Vec<char>)
    requires
        h < 100,
        m < 100,
    ensures
        r@ == hm_chars(h as int, m as int, sep),
        r@.len() == 5,
{
    let mut v: Vec<char> = Vec::new();
    v.push(digit_of(h / 10));
    v.push(digit_of(h % 10));
    v.push(sep);
    v.push(digit_of(m / 10));
    v.push(digit_of(m % 10));
    proof {
        assert(v@ =~= hm_chars(h as int, m as int, sep));
    }
    v
}

/// A height in thousandths, rendered with one decimal digit and a unit
/// suffix: the magnitude is rounded to the nearest tenth (halves away
/// from zero), written as `D.Tm`, with a leading minus for negative
/// heights.
pub open spec fn height_label_chars(mm: int) -> Seq<char> {
    let a = if mm >= 0 {
        mm
    } else {
        -mm
    };
    let t = (a + 50) / 100;
    let body = dec_digits_spec(t / 10) + seq!['.', digit_char(t % 10), 'm'];
    if mm < 0 {
        seq!['-'] + body
    } else {
        body
    }
}

/// Render a height in thousandths as `D.Tm` (one decimal digit, unit
/// suffix, leading minus when negative).
pub fn format_height_label(mm: i32) -> (r: Vec<char>)
    ensures
        r@ == height_label_chars(mm as int),
{
    let a: i64 = if mm >= 0 {
        mm as i64
    } else {
        -(mm as i64)
    };
    let t: u64 = ((a + 50) / 100) as u64;
    let mut v: Vec<char> = Vec::new();
    if mm < 0 {
        v.push('-');
    }
    let digits = dec_digits(t / 10);
    let mut i: usize = 0;
    while i < digits.len()
        invariant
            0 <= i <= digits@.len(),
            v@ == (if mm < 0 {
                seq!['-'] + digits@.subrange(0, i as int)
            } else {
                digits@.subrange(0, i as int)
            }),
        decreases digits@.len() - i,
    {
        proof {
            assert(digits@.subrange(0, i + 1) =~= digits@.subrange(0, i as int).push(
                digits@[i as int],
            ));
        }
        v.push(digits[i]);
        i = i + 1;
    }
    proof {
        assert(digits@.subrange(0, digits@.len() as int) =~= digits@);
    }
    v.push('.');
    v.push(digit_of((t % 10) as u32));
    v.push('m');
    proof {
        assert(v@ =~= height_label_chars(mm as int));
    }
    v
}

/// Local wall-clock hour and minute of a unix timestamp.
///
/// Relies on chrono: `TimeZone::timestamp_opt` on `Local` resolves a
/// unix timestamp to a unique local `DateTime` for every instant the
/// calendar can represent (`Single` throughout years 1970 to 9999), and
/// `Timelike::hour` and `Timelike::minute` return values below 24 and
/// 60.  The result depends on the machine's time zone, so nothing more
/// is claimed of it.
#[verifier::external_body]
fn local_hour_minute(ts: i64) -> (r: Option<(u32, u32)>)
    ensures
        r matches Some(hm) ==> hm.0 < 24 && hm.1 < 60,
        0 <= ts <= 253402300799 ==> r is Some,
{
    match chrono::TimeZone::timestamp_opt(&chrono::Local, ts, 0) {
        chrono::LocalResult::Single(dt) => {
            Some((chrono::Timelike::hour(&dt), chrono::Timelike::minute(&dt)))
        },
        _ => None,
    }
}

/// Local hour and minute of a unix timestamp, `(0, 0)` when the instant
/// lies outside the representable calendar.
pub fn local_hm_or_zero(ts: i64) -> (r: (u32, u32))
    ensures
        r.0 < 24,
        r.1 < 60,
{
    match local_hour_minute(ts) {
        Some(hm) => hm,
        None => (0, 0),
    }
}

} // verus!
