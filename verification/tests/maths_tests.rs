use tide_clock::clock::{dec_digits, digit_of, format_height_label, format_hm, local_hm_or_zero};
use tide_clock::maths::{clamp, inverse_lerp, lerp, Frac};

#[test]
fn clamp_saturates_both_ends() {
    assert_eq!(clamp(5, 0, 10), 5);
    assert_eq!(clamp(-3, 0, 10), 0);
    assert_eq!(clamp(42, 0, 10), 10);
    assert_eq!(clamp(7, 7, 7), 7);
}

#[test]
fn normalize_is_clamped_fraction_of_range() {
    // normalize(lo, lo, hi) == 0 and normalize(hi, lo, hi) == 1.
    let zero = inverse_lerp(100, 100, 300);
    assert_eq!(zero, Frac { num: 0, den: 200 });
    let one = inverse_lerp(300, 100, 300);
    assert_eq!(one, Frac { num: 200, den: 200 });

    // Out-of-range inputs saturate rather than extrapolate.
    assert_eq!(inverse_lerp(-50, 100, 300), Frac { num: 0, den: 200 });
    assert_eq!(inverse_lerp(999, 100, 300), Frac { num: 200, den: 200 });

    // In between: the exact fraction of the way up.
    assert_eq!(inverse_lerp(150, 100, 300), Frac { num: 50, den: 200 });

    // Equal marks: everything normalizes to zero, not a failure.
    assert_eq!(inverse_lerp(123, 7, 7), Frac { num: 0, den: 1 });
}

#[test]
fn lerp_rounds_halves_away_from_zero() {
    // 0.5 of the way from 0 to 3 is 1.5, which rounds up to 2.
    assert_eq!(lerp(Frac { num: 1, den: 2 }, 0, 3), 2);
    assert_eq!(lerp(Frac { num: 1, den: 4 }, 0, 4), 1);
    assert_eq!(lerp(Frac { num: 0, den: 1 }, 0, 4), 0);
    assert_eq!(lerp(Frac { num: 1, den: 1 }, 0, 4), 4);
}

#[test]
fn lerp_saturates_and_accepts_reversed_bounds() {
    // Fractions outside [0, 1] clamp before interpolating.
    assert_eq!(lerp(Frac { num: -10, den: 1 }, 31, 10), 31);
    assert_eq!(lerp(Frac { num: 5, den: 2 }, 31, 10), 10);
    // Halfway down the gauge: 31 + 0.5 * (10 - 31) = 20.5, away from zero.
    assert_eq!(lerp(Frac { num: 1, den: 2 }, 31, 10), 21);
}

#[test]
fn digits_render_exactly() {
    assert_eq!(digit_of(0), '0');
    assert_eq!(digit_of(9), '9');
    assert_eq!(dec_digits(0), vec!['0']);
    assert_eq!(dec_digits(12345), vec!['1', '2', '3', '4', '5']);
}

#[test]
fn hour_minute_text_is_zero_padded() {
    assert_eq!(format_hm(8, 5, ':'), vec!['0', '8', ':', '0', '5']);
    assert_eq!(format_hm(23, 59, '_'), vec!['2', '3', '_', '5', '9']);
    assert_eq!(format_hm(0, 0, ':'), vec!['0', '0', ':', '0', '0']);
}

#[test]
fn height_labels_round_to_one_decimal() {
    assert_eq!(format_height_label(1285), vec!['1', '.', '3', 'm']);
    assert_eq!(format_height_label(-1396), vec!['-', '1', '.', '4', 'm']);
    assert_eq!(format_height_label(0), vec!['0', '.', '0', 'm']);
    assert_eq!(format_height_label(950), vec!['1', '.', '0', 'm']);
    assert_eq!(format_height_label(949), vec!['0', '.', '9', 'm']);
    assert_eq!(format_height_label(12345), vec!['1', '2', '.', '3', 'm']);
}

#[test]
fn local_clock_values_stay_in_range() {
    // The wall-clock reading depends on the machine's time zone; what
    // the library promises is a valid hour and minute.
    for ts in [0i64, 1_600_000_000, 253_402_300_799] {
        let (h, m) = local_hm_or_zero(ts);
        assert!(h < 24);
        assert!(m < 60);
    }
    // Out-of-calendar instants degrade to midnight, not a failure.
    let (h, m) = local_hm_or_zero(i64::MAX);
    assert_eq!((h, m), (0, 0));
}
