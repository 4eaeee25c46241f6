use indicators::{calculate_ema, calculate_macd, calculate_rsi, IndicatorError, Scalar};

/// Double-precision prices with the arithmetic of the machine.
#[derive(Clone, Copy, Debug, PartialEq)]
struct Real(f64);

impl Scalar for Real {
    fn from_count(n: usize) -> Self {
        Real(n as f64)
    }

    fn infinity() -> Self {
        Real(f64::INFINITY)
    }

    fn plus(self, rhs: Self) -> Self {
        Real(self.0 + rhs.0)
    }

    fn minus(self, rhs: Self) -> Self {
        Real(self.0 - rhs.0)
    }

    fn times(self, rhs: Self) -> Self {
        Real(self.0 * rhs.0)
    }

    fn over(self, rhs: Self) -> Self {
        Real(self.0 / rhs.0)
    }

    fn negate(self) -> Self {
        Real(-self.0)
    }

    fn exceeds(self, rhs: Self) -> bool {
        self.0 > rhs.0
    }
}

fn reals(values: Vec<f64>) -> Vec<Real> {
    values.into_iter().map(Real).collect()
}

fn floats(values: Vec<Real>) -> Vec<f64> {
    values.into_iter().map(|v| v.0).collect()
}

fn rsi(prices: Vec<f64>, window: usize) -> Result<Vec<f64>, IndicatorError> {
    calculate_rsi(reals(prices).as_slice(), window).map(floats)
}

fn ema(prices: Vec<f64>, window: usize) -> Result<Vec<f64>, IndicatorError> {
    calculate_ema(reals(prices).as_slice(), window).map(floats)
}

fn macd(
    prices: Vec<f64>,
    short_window: usize,
    long_window: usize,
    signal_window: usize,
) -> Result<(Vec<f64>, Vec<f64>, Vec<f64>), IndicatorError> {
    calculate_macd(reals(prices).as_slice(), short_window, long_window, signal_window)
        .map(|(line, signal, histogram)| (floats(line), floats(signal), floats(histogram)))
}

#[test]
fn test_calculate_rsi() {
    // Test case with enough data
    let prices = vec![1.0, 2.0, 3.0, 4.0, 5.0];
    let window = 3;
    let result = rsi(prices, window).unwrap();
    assert_eq!(result, vec![100.0, 100.0]);

    // Test case with not enough data
    let prices = vec![1.0, 2.0];
    let window = 3;
    let result = rsi(prices, window);
    assert!(result.is_err());
    match result {
        Err(IndicatorError::NotEnoughData(_)) => (),
        _ => {
            panic!("Expected `IndicatorError::NotEnoughData`, found different `IndicatorError`")
        }
    }
}

#[test]
fn test_calculate_ema() {
    // Test case with enough data
    let prices = vec![1.0, 2.0, 3.0, 4.0, 5.0];
    let window = 3;
    let result = ema(prices, window).unwrap();
    assert_eq!(result, vec![2.0, 3.0, 4.0]);

    // Test case with not enough data
    let prices = vec![1.0, 2.0];
    let window = 3;
    let result = ema(prices, window);
    assert!(result.is_err());
    match result {
        Err(IndicatorError::NotEnoughData(_)) => (),
        _ => {
            panic!("Expected `IndicatorError::NotEnoughData`, found different `IndicatorError`")
        }
    }
}

#[test]
fn test_calculate_macd() {
    // Test case with enough data
    let prices = vec![1.0, 2.0, 3.0, 4.0, 5.0];
    let short_window = 2;
    let long_window = 4;
    let signal_window = 2;
    let result = macd(prices, short_window, long_window, signal_window).unwrap();
    assert_eq!(result, (vec![1.0], vec![1.0], vec![0.0]));

    // Test case with not enough data
    let prices = vec![1.0, 2.0];
    let short_window = 2;
    let long_window = 4;
    let signal_window = 2;
    let result = macd(prices, short_window, long_window, signal_window);
    assert!(result.is_err());
    match result {
        Err(IndicatorError::NotEnoughData(_)) => (),
        _ => {
            panic!("Expected `IndicatorError::NotEnoughData`, found different `IndicatorError`")
        }
    }
}

#[test]
fn ema_has_one_value_for_the_seed_and_one_per_later_price() {
    let prices: Vec<f64> = (0..20).map(|i| (i * i) as f64).collect();
    for window in 1..=20 {
        let averages = ema(prices.clone(), window).unwrap();
        assert_eq!(averages.len(), prices.len() - window + 1);
    }
}

#[test]
fn ema_starts_with_the_mean_of_the_first_window() {
    let averages = ema(vec![4.0, 8.0, 6.0, 2.0, 100.0], 4).unwrap();
    assert_eq!(averages[0], 5.0);
    // alpha is 2 / 5, so the next value is (100 - 5) * 0.4 + 5.
    assert_eq!(averages[1], (100.0 - 5.0) * (2.0 / 5.0) + 5.0);
}

#[test]
fn ema_over_the_whole_series_is_its_mean() {
    assert_eq!(ema(vec![1.0, 2.0, 3.0, 6.0], 4).unwrap(), vec![3.0]);
}

#[test]
fn ema_over_one_price_follows_the_prices() {
    assert_eq!(ema(vec![2.0, 4.0, 8.0], 1).unwrap(), vec![2.0, 4.0, 8.0]);
}

#[test]
fn ema_uses_the_previous_average_not_a_new_mean() {
    // Seed 2, then alpha = 2 / 3: (8 - 2) * 2/3 + 2 = 6, where the mean of
    // the last two prices would be 5.5.
    let averages = ema(vec![1.0, 3.0, 8.0], 2).unwrap();
    assert_eq!(averages[0], 2.0);
    assert_eq!(averages[1], (8.0 - 2.0) * (2.0 / 3.0) + 2.0);
}

#[test]
fn ema_fails_on_fewer_prices_than_the_window() {
    assert!(matches!(ema(vec![], 1), Err(IndicatorError::NotEnoughData(_))));
    assert!(matches!(ema(vec![1.0, 2.0, 3.0], 4), Err(IndicatorError::NotEnoughData(_))));
    assert!(ema(vec![1.0, 2.0, 3.0], 3).is_ok());
}

#[test]
fn rsi_has_one_value_per_price_after_the_window() {
    let prices: Vec<f64> = (0..20).map(|i| ((i * 7) % 11) as f64).collect();
    for window in 1..20 {
        let indices = rsi(prices.clone(), window).unwrap();
        assert_eq!(indices.len(), prices.len() - window);
    }
}

#[test]
fn rsi_stays_between_zero_and_a_hundred() {
    let prices: Vec<f64> = (0..50).map(|i| (((i * 37) % 23) as f64) + 1.0).collect();
    for window in 1..50 {
        for index in rsi(prices.clone(), window).unwrap() {
            assert!((0.0..=100.0).contains(&index));
        }
    }
}

#[test]
fn rsi_is_a_hundred_while_prices_do_not_fall() {
    let indices = rsi(vec![1.0, 1.0, 2.0, 2.0, 5.0, 9.0, 9.0], 2).unwrap();
    assert_eq!(indices, vec![100.0; 5]);
}

#[test]
fn rsi_is_zero_while_prices_only_fall() {
    assert_eq!(rsi(vec![5.0, 4.0, 3.0, 2.0], 2).unwrap(), vec![0.0, 0.0]);
}

#[test]
fn rsi_weighs_gain_against_loss() {
    // Changes -1, +1: both averages start at 0.5; the second change is then
    // smoothed in, which gives 0.75 and 0.25, so the strength is 3.
    assert_eq!(rsi(vec![2.0, 1.0, 2.0], 2).unwrap(), vec![75.0]);
    // With a window of one the averages follow the last change.
    assert_eq!(rsi(vec![2.0, 1.0, 2.0], 1).unwrap(), vec![0.0, 100.0]);
}

#[test]
fn rsi_fails_unless_there_are_more_prices_than_the_window() {
    assert!(matches!(rsi(vec![1.0, 2.0, 3.0], 3), Err(IndicatorError::NotEnoughData(_))));
    assert!(matches!(rsi(vec![], 1), Err(IndicatorError::NotEnoughData(_))));
    assert!(rsi(vec![1.0, 2.0, 3.0], 2).is_ok());
}

#[test]
fn macd_series_have_the_same_length() {
    let prices: Vec<f64> = (0..40).map(|i| (((i * 13) % 17) as f64) + 3.0).collect();
    for long_window in 1..12 {
        for short_window in 1..=long_window {
            for signal_window in 1..6 {
                let (line, signal, histogram) =
                    macd(prices.clone(), short_window, long_window, signal_window).unwrap();
                let expected = prices.len() - long_window + 1 - signal_window + 1;
                assert_eq!(line.len(), expected);
                assert_eq!(signal.len(), expected);
                assert_eq!(histogram.len(), expected);
            }
        }
    }
}

#[test]
fn macd_is_built_from_the_two_averages() {
    let prices = vec![3.0, 1.0, 4.0, 1.0, 5.0, 9.0, 2.0, 6.0];
    let fast = ema(prices.clone(), 2).unwrap();
    let slow = ema(prices.clone(), 5).unwrap();
    let full: Vec<f64> = slow.iter().enumerate().map(|(i, s)| fast[i + 3] - s).collect();
    let smoothed = ema(full.clone(), 3).unwrap();
    let (line, signal, histogram) = macd(prices, 2, 5, 3).unwrap();
    assert_eq!(line, full[2..].to_vec());
    assert_eq!(signal, smoothed);
    assert_eq!(histogram, vec![line[0] - signal[0], line[1] - signal[1]]);
}

#[test]
fn macd_with_equal_windows_is_flat() {
    let (line, signal, histogram) = macd(vec![1.0, 5.0, 2.0, 8.0], 2, 2, 1).unwrap();
    assert_eq!(line, vec![0.0, 0.0, 0.0]);
    assert_eq!(signal, vec![0.0, 0.0, 0.0]);
    assert_eq!(histogram, vec![0.0, 0.0, 0.0]);
}

#[test]
fn macd_fails_when_any_average_lacks_data() {
    let prices = vec![1.0, 2.0, 3.0, 4.0, 5.0];
    // Too few prices for the long window.
    assert!(matches!(macd(prices.clone(), 2, 6, 1), Err(IndicatorError::NotEnoughData(_))));
    // Two values on the line, three wanted for the signal.
    assert!(matches!(macd(prices.clone(), 2, 4, 3), Err(IndicatorError::NotEnoughData(_))));
    assert!(macd(prices, 2, 4, 2).is_ok());
}

#[test]
fn results_do_not_change_between_calls() {
    let prices = vec![10.5, 11.25, 9.75, 12.0, 12.5, 11.0, 13.25, 14.0];
    let bits = |values: Vec<f64>| values.into_iter().map(f64::to_bits).collect::<Vec<u64>>();
    assert_eq!(bits(ema(prices.clone(), 3).unwrap()), bits(ema(prices.clone(), 3).unwrap()));
    assert_eq!(bits(rsi(prices.clone(), 3).unwrap()), bits(rsi(prices.clone(), 3).unwrap()));
    let first = macd(prices.clone(), 2, 4, 2).unwrap();
    let second = macd(prices, 2, 4, 2).unwrap();
    assert_eq!(bits(first.0), bits(second.0));
    assert_eq!(bits(first.1), bits(second.1));
    assert_eq!(bits(first.2), bits(second.2));
}

#[test]
fn errors_carry_a_message() {
    let e = rsi(vec![1.0], 3).unwrap_err();
    assert_eq!(e.message(), "Not enough data points to calculate RSI");
    let e = ema(vec![1.0], 3).unwrap_err();
    assert_eq!(e.message(), "`prices` must have at least `window` items");
    let e = IndicatorError::not_enough_data("short");
    assert!(matches!(e, IndicatorError::NotEnoughData(ref text) if text == "short"));
}

#[test]
fn ema_over_no_prices_is_seeded_with_zero_by_zero() {
    let averages = ema(vec![1.0, 2.0], 0).unwrap();
    assert_eq!(averages.len(), 3);
    assert!(averages.iter().all(|v| v.is_nan()));
}
