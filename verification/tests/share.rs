use mfj::commands::command_stats::push_percent;
use mfj::share::{nearest, percent_of, round_half_even};

fn by_floating_point(count: u64, total: u128) -> String {
    format!("{:.1}", (count as u128 * 100) as f64 / total as f64)
}

fn by_library(count: u64, total: u128) -> String {
    let mut text = String::new();
    push_percent(&mut text, count, total);
    text
}

#[test]
fn shares_are_those_of_floating_point_for_small_totals() {
    for total in 1u64..=700 {
        for count in 1..=total {
            assert_eq!(
                by_library(count, total as u128),
                by_floating_point(count, total as u128),
                "{} of {}",
                count,
                total
            );
        }
    }
}

#[test]
fn shares_are_those_of_floating_point_at_ties() {
    for total in [8u64, 16, 40, 80, 400, 800, 2000, 4000, 20000, 200000, 1 << 20, 3 << 30] {
        for count in 1..=total.min(5000) {
            assert_eq!(
                by_library(count, total as u128),
                by_floating_point(count, total as u128),
                "{} of {}",
                count,
                total
            );
        }
    }
    assert_eq!(by_library(1, 2000), "0.1");
    assert_eq!(by_library(3, 2000), "0.1");
    assert_eq!(by_library(7, 2000), "0.3");
    assert_eq!(by_library(9, 2000), "0.5");
    assert_eq!(by_library(1, 400), "0.2");
    assert_eq!(by_library(3, 400), "0.8");
    assert_eq!(by_library(1, 8), "12.5");
    assert_eq!(by_library(1, 16), "6.2");
    assert_eq!(by_library(3, 16), "18.8");
}

#[test]
fn shares_are_those_of_floating_point_for_large_numbers() {
    let mut seed: u64 = 0x2545_f491_4f6c_dd1d;
    let mut next = move || {
        seed ^= seed << 13;
        seed ^= seed >> 7;
        seed ^= seed << 17;
        seed
    };
    for round in 0..200_000 {
        let a = next() >> (next() % 64);
        let b = ((next() as u128) << 64 | next() as u128) >> (next() % 128);
        let (count, total) = (a, b);
        if total == 0 {
            continue;
        }
        assert_eq!(
            by_library(count, total),
            by_floating_point(count, total),
            "round {}: {} of {}",
            round,
            count,
            total
        );
    }
    for total in [u64::MAX as u128, u128::MAX, (1 << 53) + 1, (1 << 54) + 2, (1 << 100) + 7] {
        for count in [1u64, 5, (total.min(u64::MAX as u128)) as u64, u64::MAX / 3] {
            assert_eq!(by_library(count, total), by_floating_point(count, total));
        }
    }
}

#[test]
fn share_of_nothing_is_zero() {
    assert_eq!(percent_of(0, 5), 0);
    assert_eq!(percent_of(0, 0), 0);
    assert_eq!(percent_of(5, 0), 0);
    assert_eq!(by_library(0, 7), "0.0");
    assert_eq!(percent_of(7, 7), 1000);
    assert_eq!(percent_of(u64::MAX, u64::MAX as u128), 1000);
    assert_eq!(percent_of(9, 3), 3000);
    assert_eq!(by_library(9, 3), "300.0");
    assert_eq!(by_library(u64::MAX, 1), by_floating_point(u64::MAX, 1));
    assert_eq!(by_library(u64::MAX, 3), by_floating_point(u64::MAX, 3));
}

#[test]
fn nearest_keeps_53_bits() {
    assert_eq!(nearest(1, 1, 0), (1 << 52, -52));
    assert_eq!(nearest(3, 1, 0), (3 << 51, -51));
    assert_eq!(nearest((1 << 53) + 1, 1, 0), (1 << 52, 1));
    assert_eq!(nearest((1 << 53) + 3, 1, 0), ((1 << 52) + 2, 1));
    assert_eq!(nearest((1 << 53) + 5, 1, 0), ((1 << 52) + 2, 1));
    assert_eq!(nearest((1 << 54) - 1, 1, 0), (1 << 53, 1));
    assert_eq!(nearest(1, 3, 0), (0x15_5555_5555_5555, -54));
    assert_eq!(nearest(1, 10, 4), (0x19_9999_9999_999a, -52));
    for x in [1u128, 7, 100, 12345, (1 << 60) + 12345, u128::MAX, (1 << 53) + 1] {
        let (mantissa, exponent) = nearest(x, 1, 0);
        let value = mantissa as f64 * (exponent as f64).exp2();
        assert_eq!(value, x as f64);
    }
}

#[test]
fn rounding_goes_to_the_nearest_and_to_the_even() {
    assert_eq!(round_half_even(0, 4), 0);
    assert_eq!(round_half_even(1, 4), 0);
    assert_eq!(round_half_even(2, 4), 0);
    assert_eq!(round_half_even(3, 4), 1);
    assert_eq!(round_half_even(6, 4), 2);
    assert_eq!(round_half_even(10, 4), 2);
    assert_eq!(round_half_even(14, 4), 4);
    assert_eq!(round_half_even(7, 1), 7);
    assert_eq!(round_half_even(u128::MAX - 1, u128::MAX), 1);
}
