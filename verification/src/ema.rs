use crate::error::IndicatorError;
use crate::scalar::{
    count_is, deterministic, difference_is, is_mean, lemma_mean_unique, mean_of_first, product_is,
    quotient_is, sum_is, Scalar,
};
use vstd::prelude::*;

verus! {

/// `alpha` was computed as `2 / (window + 1)`, through the values named.
pub open spec fn smoothing_run<T: Scalar>(
    window: usize,
    two: T,
    width: T,
    one: T,
    denominator: T,
    alpha: T,
) -> bool {
    &&& count_is(2, two)
    &&& count_is(window, width)
    &&& count_is(1, one)
    &&& sum_is(width, one, denominator)
    &&& quotient_is(two, denominator, alpha)
}

/// `alpha` is a smoothing factor for `window`: `2 / (window + 1)`.
pub open spec fn is_smoothing_factor<T: Scalar>(window: usize, alpha: T) -> bool {
    exists|two: T, width: T, one: T, denominator: T|
        smoothing_run(window, two, width, one, denominator, alpha)
}

/// `next` was computed as `(price - previous) * alpha + previous`, through the
/// values named.
pub open spec fn smoothed_run<T: Scalar>(
    previous: T,
    price: T,
    alpha: T,
    change: T,
    weighted: T,
    next: T,
) -> bool {
    &&& difference_is(price, previous, change)
    &&& product_is(change, alpha, weighted)
    &&& sum_is(weighted, previous, next)
}

/// `next` is the average that follows `previous` once `price` is seen:
/// `(price - previous) * alpha + previous`.
pub open spec fn is_smoothed<T: Scalar>(previous: T, price: T, alpha: T, next: T) -> bool {
    exists|change: T, weighted: T| smoothed_run(previous, price, alpha, change, weighted, next)
}

/// `averages` is the exponential moving average of `prices` over `window`,
/// smoothed by `alpha`: it starts with the mean of the first `window` prices,
/// and each later entry follows from the entry before it and the next price.
pub open spec fn ema_run<T: Scalar>(
    prices: Seq<T>,
    window: usize,
    alpha: T,
    averages: Seq<T>,
) -> bool {
    &&& window <= prices.len()
    &&& averages.len() == prices.len() - window + 1
    &&& is_smoothing_factor(window, alpha)
    &&& is_mean(prices.take(window as int), averages[0])
    &&& forall|i: int|
        1 <= i < averages.len() ==> is_smoothed(
            averages[i - 1],
            prices[window + i - 1],
            alpha,
            #[trigger] averages[i],
        )
}

/// `averages` is an exponential moving average of `prices` over `window`.
pub open spec fn is_ema<T: Scalar>(prices: Seq<T>, window: usize, averages: Seq<T>) -> bool {
    exists|alpha: T| ema_run(prices, window, alpha, averages)
}

/// The message of the error for a series that is shorter than the window.
pub open spec fn short_series_message() -> Seq<char> {
    "`prices` must have at least `window` items"@
}

/// How many values the exponential moving average of `len` prices over
/// `window` has.
pub open spec fn ema_len(len: int, window: int) -> int {
    len - window + 1
}

/// The smoothing factor for `window`.
pub fn smoothing_factor<T: Scalar>(window: usize) -> (alpha: T)
    ensures
        is_smoothing_factor(window, alpha),
{
    let two = T::from_count(2);
    let width = T::from_count(window);
    let one = T::from_count(1);
    let denominator = width.plus(one);
    let alpha = two.over(denominator);
    assert(smoothing_run(window, two, width, one, denominator, alpha));
    alpha
}

/// The average that follows `previous` once `price` is seen.
pub fn smooth<T: Scalar>(previous: T, price: T, alpha: T) -> (next: T)
    ensures
        is_smoothed(previous, price, alpha, next),
{
    let change = price.minus(previous);
    let weighted = change.times(alpha);
    let next = weighted.plus(previous);
    assert(smoothed_run(previous, price, alpha, change, weighted, next));
    next
}

/// The exponential moving average of `prices` over `window`.
///
/// Fails exactly when there are fewer prices than `window`. Otherwise the
/// first value is the mean of the first `window` prices, and one value follows
/// for each further price.
///
/// A window of zero is accepted: the first value is then the mean of no
/// prices, which is whatever the arithmetic makes of zero divided by zero.
pub fn calculate_ema<T: Scalar>(prices: &[T], window: usize) -> (result: Result<
    Vec<T>,
    IndicatorError,
>)
    ensures
        result is Err <==> prices@.len() < window,
        match result {
            Ok(averages) => {
                &&& is_ema(prices@, window, averages@)
                &&& averages@.len() == ema_len(prices@.len() as int, window as int)
                &&& is_mean(prices@.take(window as int), averages@[0])
            },
            Err(e) => e is NotEnoughData && e.message_text()@ == short_series_message(),
        },
{
    if prices.len() < window {
        return Err(
            IndicatorError::not_enough_data("`prices` must have at least `window` items"),
        );
    }
    let alpha: T = smoothing_factor(window);
    let seed = mean_of_first(prices, window);
    let mut averages: Vec<T> = Vec::new();
    averages.push(seed);
    let mut i: usize = window;
    while i < prices.len()
        invariant
            window <= i <= prices@.len(),
            averages@.len() == i - window + 1,
            averages@[0] == seed,
            forall|k: int|
                1 <= k < averages@.len() ==> is_smoothed(
                    averages@[k - 1],
                    prices@[window + k - 1],
                    alpha,
                    #[trigger] averages@[k],
                ),
        decreases prices@.len() - i,
    {
        let previous = averages[i - window];
        let next = smooth(previous, prices[i], alpha);
        averages.push(next);
        i += 1;
    }
    assert(ema_run(prices@, window, alpha, averages@));
    Ok(averages)
}

/// An exponential moving average has one value for the mean that seeds it and
/// one for each price after the first `window`.
pub proof fn lemma_ema_len<T: Scalar>(prices: Seq<T>, window: usize, averages: Seq<T>)
    requires
        is_ema(prices, window, averages),
    ensures
        window <= prices.len(),
        averages.len() == prices.len() - window + 1,
        is_mean(prices.take(window as int), averages[0]),
{
}

/// Two moving averages of the same prices that share the smoothing factor
/// agree at every place, where the arithmetic is deterministic.
proof fn lemma_ema_runs_agree<T: Scalar>(
    prices: Seq<T>,
    window: usize,
    alpha: T,
    first: Seq<T>,
    second: Seq<T>,
    i: int,
)
    requires
        deterministic::<T>(),
        ema_run(prices, window, alpha, first),
        ema_run(prices, window, alpha, second),
        0 <= i < first.len(),
    ensures
        first[i] == second[i],
    decreases i,
{
    if i == 0 {
        lemma_mean_unique(prices.take(window as int), first[0], second[0]);
    } else {
        lemma_ema_runs_agree(prices, window, alpha, first, second, i - 1);
    }
}

/// Given prices have one exponential moving average over a given window,
/// where the arithmetic is deterministic: computing it twice gives the same
/// series.
pub proof fn lemma_ema_unique<T: Scalar>(
    prices: Seq<T>,
    window: usize,
    first: Seq<T>,
    second: Seq<T>,
)
    requires
        deterministic::<T>(),
        is_ema(prices, window, first),
        is_ema(prices, window, second),
    ensures
        first == second,
{
    let alpha = choose|alpha: T| ema_run(prices, window, alpha, first);
    let beta = choose|alpha: T| ema_run(prices, window, alpha, second);
    assert(alpha == beta);
    assert forall|i: int| 0 <= i < first.len() implies first[i] == second[i] by {
        lemma_ema_runs_agree(prices, window, alpha, first, second, i);
    }
    assert(first =~= second);
}

} // verus!
