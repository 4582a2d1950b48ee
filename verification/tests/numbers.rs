use burn_dragon_vision::binary32::{
    scale_factor, scaled_extent, single_predecessor, single_quotient, single_ratio, single_rounded,
    unscaled_extent,
};
use burn_dragon_vision::numeric::{
    ceil_div, max_of, min_of, sat_add, sat_mul, sat_sub, square_side,
};
use burn_dragon_vision::ordered::{insert_sorted, sorted_unique, stable_order};
use burn_dragon_vision::scalar::{Double, Single};
use burn_dragon_vision::text::{
    decimal_text, push_decimal, push_joined, push_joined_numbers, push_line, push_zero_padded,
};
use burn_dragon_vision::trajectory::select_trajectory_indices;

fn single(value: f32) -> Single {
    Single { bits: value.to_bits() }
}

fn double(value: f64) -> Double {
    Double { bits: value.to_bits() }
}

/// A deterministic stream of 32-bit numbers of all magnitudes.
fn numbers(count: usize) -> Vec<u32> {
    let mut state: u64 = 0x1234_5678_9abc_def1;
    (0..count)
        .map(|_| {
            state ^= state << 13;
            state ^= state >> 7;
            state ^= state << 17;
            ((state >> 32) as u32) >> ((state & 31) as u32)
        })
        .collect()
}

#[test]
fn comparisons_agree_with_floating_point() {
    let values = [
        0.0f32,
        -0.0,
        1.0,
        -1.0,
        0.5,
        f32::MIN_POSITIVE,
        -f32::MIN_POSITIVE,
        f32::INFINITY,
        f32::NEG_INFINITY,
        f32::NAN,
        1.0e-40,
        3.4e38,
    ];
    for a in values {
        for b in values {
            assert_eq!(single(a).less_than(single(b)), a < b, "{a} < {b}");
            assert_eq!(single(a).at_most(single(b)), a <= b, "{a} <= {b}");
        }
        assert_eq!(single(a).is_positive(), a > 0.0);
        assert_eq!(single(a).is_negative(), a < 0.0);
        assert_eq!(single(a).is_at_most_zero(), a <= 0.0);
        assert_eq!(single(a).in_unit_interval(), (0.0..=1.0).contains(&a));
        assert_eq!(single(a).below_one(), (0.0..1.0).contains(&a));
        assert_eq!(f32::from_bits(single(a).or_zero().bits), a.max(0.0));
    }
}

#[test]
fn double_comparisons_agree_with_floating_point() {
    let values = [
        0.0f64,
        -0.0,
        1.0,
        -2.5,
        f64::INFINITY,
        f64::NEG_INFINITY,
        f64::NAN,
        -f64::NAN,
        1.0e-310,
    ];
    for a in values {
        assert_eq!(double(a).not_a_number(), a.is_nan());
        for b in values {
            assert_eq!(double(a).less_than(double(b)), a < b);
            assert_eq!(double(a).total_less_than(double(b)), a.total_cmp(&b).is_lt());
        }
    }
}

#[test]
fn trajectory_positions_match_single_precision() {
    for total in 1usize..60 {
        for max in 1usize..70 {
            let expected: Vec<usize> = if max >= total {
                (0..total).collect()
            } else if max == 1 {
                vec![total - 1]
            } else {
                let last = total - 1;
                let mut indices: Vec<usize> = (0..max)
                    .map(|i| {
                        let position = i as f32 * last as f32 / (max - 1) as f32;
                        (position.round() as usize).min(last)
                    })
                    .collect();
                indices.dedup();
                indices
            };
            assert_eq!(select_trajectory_indices(total, max), expected, "{total} {max}");
        }
    }
}

#[test]
fn trajectory_keeps_both_ends() {
    assert_eq!(select_trajectory_indices(5, 3), vec![0, 2, 4]);
    assert_eq!(select_trajectory_indices(4, 9), vec![0, 1, 2, 3]);
    assert_eq!(select_trajectory_indices(0, 3), Vec::<usize>::new());
    assert_eq!(select_trajectory_indices(3, 0), Vec::<usize>::new());
    for total in [8_388_609usize, 8_388_607, 5_000_011, 1_000_003] {
        for max in [2usize, 4, 8, 12, 38] {
            let kept = select_trajectory_indices(total, max);
            assert_eq!((kept[0], kept[kept.len() - 1]), (0, total - 1), "{total} {max}");
        }
    }
}

#[test]
fn thinning_keeps_as_many_as_fit() {
    for total in 0..60usize {
        for max in 0..70usize {
            let kept = select_trajectory_indices(total, max);
            assert_eq!(kept.len(), total.min(max), "{total} {max}");
        }
    }
}

#[test]
fn ratios_match_single_precision() {
    let values = numbers(3000);
    for triple in values.chunks(3) {
        let (i, last) = (triple[0] as usize, triple[1] as usize);
        let denom = (triple[2] as usize).max(1);
        let expected = (i as f32 * last as f32 / denom as f32).round() as usize;
        assert_eq!(
            single_ratio(i, last, denom, usize::MAX),
            expected,
            "{i} {last} {denom}"
        );
    }
    assert_eq!(single_ratio(10, 10, 4, 7), 7);
}

#[test]
fn quotients_match_single_precision() {
    let values = numbers(8000);
    for pair in values.chunks(2) {
        let (n, d) = (pair[0], pair[1].max(1));
        let expected = n as f32 / d as f32;
        assert_eq!(single_quotient(n, d).bits, expected.to_bits(), "{n} / {d}");
    }
    assert_eq!(single_quotient(0, 5).bits, 0);
    assert_eq!(single_quotient(u32::MAX, 1).bits, (u32::MAX as f32).to_bits());
    assert_eq!(single_quotient(1, u32::MAX).bits, (1.0 / u32::MAX as f32).to_bits());
}

#[test]
fn a_number_divided_by_itself_is_one() {
    for n in [1u32, 3, 16_777_217, u32::MAX] {
        assert_eq!(single_quotient(n, n).bits, 1.0f32.to_bits());
    }
}

#[test]
fn scaled_extents_match_single_precision() {
    let values = numbers(9000);
    for triple in values.chunks(3) {
        let (extent, target, other) = (triple[0], triple[1], triple[2].max(1));
        let expected = (extent as f32 * (target as f32 / other as f32)).round() as u32;
        assert_eq!(
            scaled_extent(extent, target, other),
            expected,
            "{extent} {target} {other}"
        );
    }
    assert_eq!(scaled_extent(500, 256, 375), 341);
    assert_eq!(scaled_extent(u32::MAX, u32::MAX, 1), u32::MAX);
}

#[test]
fn unscaled_extents_match_single_precision() {
    let values = numbers(9000);
    for triple in values.chunks(3) {
        let (n, target, other) = (triple[0], triple[1].max(1), triple[2].max(1));
        let scale = target as f32 / other as f32;
        let expected = (n as f32 / scale).round().min(u32::MAX as f32) as u32;
        let factor = scale_factor(target, other);
        assert_eq!(
            unscaled_extent(n, factor, u32::MAX),
            expected,
            "{n} {target} {other}"
        );
    }
    assert_eq!(unscaled_extent(224, scale_factor(1, 2), 100), 100);
}

#[test]
fn rounded_numbers_match_single_precision() {
    for n in numbers(2000) {
        assert_eq!(single_rounded(n), n as f32 as u32);
        if n > 0 {
            assert_eq!(single_predecessor(n), (n as f32 - 1.0) as u32);
        }
    }
}

#[test]
fn saturating_arithmetic_stays_in_range() {
    assert_eq!(sat_mul(usize::MAX, 2), usize::MAX);
    assert_eq!(sat_mul(6, 7), 42);
    assert_eq!(sat_add(usize::MAX, 1), usize::MAX);
    assert_eq!(sat_add(40, 2), 42);
    assert_eq!(sat_sub(3, 5), 0);
    assert_eq!(sat_sub(5, 3), 2);
    assert_eq!(min_of(3, 5), 3);
    assert_eq!(max_of(3, 5), 5);
}

#[test]
fn rounding_up_is_tight() {
    for n in 0usize..40 {
        for d in 1usize..12 {
            let q = ceil_div(n, d);
            assert!(q * d >= n);
            assert!(q == 0 || (q - 1) * d < n);
        }
    }
    assert_eq!(ceil_div(usize::MAX, 2), usize::MAX / 2 + 1);
}

#[test]
fn square_sides_are_exact() {
    for n in 0usize..2000 {
        let side = (0..=n).find(|s| s * s == n);
        assert_eq!(square_side(n), side, "{n}");
    }
}

#[test]
fn sorting_drops_repetitions() {
    assert_eq!(sorted_unique(&[5, 1, 5, 3, 1]), vec![1, 3, 5]);
    let mut list = vec![2, 4];
    insert_sorted(&mut list, 3);
    insert_sorted(&mut list, 3);
    insert_sorted(&mut list, 9);
    assert_eq!(list, vec![2, 3, 4, 9]);
}

#[test]
fn stable_order_keeps_equal_keys_in_place() {
    assert_eq!(
        stable_order(&[3, 1, 3, 2, 1]),
        vec![(1, 1), (4, 1), (3, 2), (0, 3), (2, 3)]
    );
}

#[test]
fn decimals_are_written_without_padding() {
    for n in [0usize, 7, 10, 123_456, usize::MAX] {
        assert_eq!(decimal_text(n), n.to_string());
    }
    let mut out = "n=".to_string();
    push_decimal(&mut out, 1203);
    assert_eq!(out, "n=1203");
}

#[test]
fn padded_decimals_keep_their_width() {
    let mut out = String::new();
    push_zero_padded(&mut out, 42, 6);
    assert_eq!(out, "000042");
    let mut long = String::new();
    push_zero_padded(&mut long, 1234567, 6);
    assert_eq!(long, "1234567");
}

#[test]
fn lists_are_joined_with_separators() {
    let mut out = String::new();
    push_joined(&mut out, &vec!["a".to_string(), "b".to_string()], ", ");
    assert_eq!(out, "a, b");
    let mut numbers = String::new();
    push_joined_numbers(&mut numbers, &vec![1, 4, 8], "S", "/");
    assert_eq!(numbers, "S1/S4/S8");
    let mut line = String::new();
    push_line(&mut line, "- name: ", "x");
    assert_eq!(line, "- name: x\n");
}
