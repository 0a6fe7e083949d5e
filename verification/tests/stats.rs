use price_stats::{max, min, n_window_sma, price_diff, Frac};

#[test]
fn minimum_and_maximum_bound_every_element() {
    let series: Vec<i64> = vec![300, 100, 200];
    let lo = min(&series).unwrap();
    let hi = max(&series).unwrap();
    assert_eq!(lo, 100);
    assert_eq!(hi, 300);
    for x in &series {
        assert!(lo <= *x && *x <= hi);
    }
}

#[test]
fn minimum_and_maximum_of_single_element() {
    let series: Vec<i64> = vec![42];
    assert_eq!(min(&series), Some(42));
    assert_eq!(max(&series), Some(42));
}

#[test]
fn minimum_and_maximum_with_negative_prices() {
    let series: Vec<i64> = vec![-5, 3, -9, 7];
    assert_eq!(min(&series), Some(-9));
    assert_eq!(max(&series), Some(7));
}

#[test]
fn sma_length_is_len_minus_window_plus_one() {
    let series: Vec<i64> = vec![1, 2, 3, 4, 5, 6, 7];
    let averages = n_window_sma(3, &series).unwrap();
    assert_eq!(averages.len(), 5);
}

#[test]
fn sma_absent_when_window_exceeds_series() {
    let series: Vec<i64> = vec![1, 2, 3];
    assert_eq!(n_window_sma(4, &series), None);
    assert_eq!(n_window_sma(5, &series), None);
}

#[test]
fn sma_of_two_four_six_eight_with_window_two() {
    let series: Vec<i64> = vec![2, 4, 6, 8];
    let averages = n_window_sma(2, &series).unwrap();
    assert_eq!(averages.len(), 3);
    assert!(averages[0].eq_int(3));
    assert!(averages[1].eq_int(5));
    assert!(averages[2].eq_int(7));
    assert_eq!(averages[0], Frac { num: 6, den: 2 });
    assert_eq!(averages[1], Frac { num: 10, den: 2 });
    assert_eq!(averages[2], Frac { num: 14, den: 2 });
}

#[test]
fn sma_with_window_equal_to_length_gives_one_average() {
    let series: Vec<i64> = vec![10, 20, 30];
    let averages = n_window_sma(3, &series).unwrap();
    assert_eq!(averages.len(), 1);
    assert!(averages[0].eq_int(20));
}

#[test]
fn price_difference_of_single_element_is_zero() {
    let series: Vec<i64> = vec![700];
    let (rel, abs) = price_diff(&series).unwrap();
    assert_eq!(abs, 0);
    assert!(rel.is_finite());
    assert!(rel.eq_int(0));
}

#[test]
fn price_difference_from_hundred_to_hundred_ten() {
    let series: Vec<i64> = vec![100, 110];
    let (rel, abs) = price_diff(&series).unwrap();
    assert_eq!(abs, 10);
    assert!(rel.eq_int(10));
    assert_eq!(rel, Frac { num: 1000, den: 100 });
}

#[test]
fn price_difference_can_fall() {
    let series: Vec<i64> = vec![200, 150, 100];
    let (rel, abs) = price_diff(&series).unwrap();
    assert_eq!(abs, -100);
    assert!(rel.eq_int(-50));
}

#[test]
fn zero_first_price_gives_non_finite_relative_change() {
    let series: Vec<i64> = vec![0, 5];
    let (rel, abs) = price_diff(&series).unwrap();
    assert_eq!(abs, 5);
    assert!(!rel.is_finite());
}

#[test]
fn empty_series_yields_absent_everywhere() {
    let empty: Vec<i64> = vec![];
    assert_eq!(min(&empty), None);
    assert_eq!(max(&empty), None);
    assert_eq!(price_diff(&empty), None);
    assert_eq!(n_window_sma(1, &empty), None);
    assert_eq!(n_window_sma(7, &empty), None);
}

#[test]
fn repeated_calls_yield_identical_results() {
    let series: Vec<i64> = vec![5, 1, 4, 2, 3];
    assert_eq!(min(&series), min(&series));
    assert_eq!(max(&series), max(&series));
    assert_eq!(price_diff(&series), price_diff(&series));
    assert_eq!(n_window_sma(2, &series), n_window_sma(2, &series));
}

#[test]
fn sma_of_strictly_increasing_series_is_strictly_increasing() {
    let series: Vec<i64> = vec![1, 3, 4, 8, 20];
    let averages = n_window_sma(2, &series).unwrap();
    for pair in averages.windows(2) {
        // the windows share the denominator, so the numerators order the values
        assert_eq!(pair[0].den, pair[1].den);
        assert!(pair[0].num < pair[1].num);
    }
}

#[test]
fn fraction_equality_check_rejects_wrong_values() {
    let half_odd = Frac { num: 7, den: 2 };
    assert!(!half_odd.eq_int(3));
    assert!(!half_odd.eq_int(4));
    let three = Frac { num: 6, den: 2 };
    assert!(three.eq_int(3));
    assert!(!three.eq_int(-3));
}
