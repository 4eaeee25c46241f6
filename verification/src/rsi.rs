use crate::error::IndicatorError;
use crate::scalar::{
    count_is, deterministic, difference_is, exceeds_is, infinity_is, is_mean, lemma_mean_unique,
    mean_of_first, mean_run, negation_is, product_is, quotient_is, running_total, sum_is, Scalar,
};
use vstd::prelude::*;

verus! {

/// `gain` was computed as `max(to - from, 0)`, through the values named.
pub open spec fn gain_run<T: Scalar>(
    from: T,
    to: T,
    change: T,
    zero: T,
    rose: bool,
    gain: T,
) -> bool {
    &&& difference_is(to, from, change)
    &&& count_is(0, zero)
    &&& exceeds_is(change, zero, rose)
    &&& gain == if rose {
        change
    } else {
        zero
    }
}

/// `gain` is what the price gained from `from` to `to`: the change where it
/// is above zero, and zero otherwise.
pub open spec fn is_gain<T: Scalar>(from: T, to: T, gain: T) -> bool {
    exists|change: T, zero: T, rose: bool| gain_run(from, to, change, zero, rose, gain)
}

/// `loss` was computed as `max(from - to, 0)`, through the values named.
pub open spec fn loss_run<T: Scalar>(
    from: T,
    to: T,
    change: T,
    zero: T,
    fell: bool,
    loss: T,
) -> bool {
    &&& difference_is(to, from, change)
    &&& count_is(0, zero)
    &&& exceeds_is(zero, change, fell)
    &&& if fell {
        negation_is(change, loss)
    } else {
        loss == zero
    }
}

/// `loss` is what the price lost from `from` to `to`: the change negated
/// where it is below zero, and zero otherwise.
pub open spec fn is_loss<T: Scalar>(from: T, to: T, loss: T) -> bool {
    exists|change: T, zero: T, fell: bool| loss_run(from, to, change, zero, fell, loss)
}

/// `next` was computed as `(average * (window - 1) + current) / window`,
/// through the values named.
pub open spec fn wilder_run<T: Scalar>(
    average: T,
    current: T,
    window: usize,
    rest: T,
    carried: T,
    total: T,
    width: T,
    next: T,
) -> bool {
    &&& window >= 1
    &&& count_is((window - 1) as usize, rest)
    &&& product_is(average, rest, carried)
    &&& sum_is(carried, current, total)
    &&& count_is(window, width)
    &&& quotient_is(total, width, next)
}

/// `next` is the smoothed average that follows `average` once `current` is
/// seen: `(average * (window - 1) + current) / window`.
pub open spec fn is_wilder_smoothed<T: Scalar>(
    average: T,
    current: T,
    window: usize,
    next: T,
) -> bool {
    exists|rest: T, carried: T, total: T, width: T|
        wilder_run(average, current, window, rest, carried, total, width, next)
}

/// `index` was computed as `100 - 100 / (1 + strength)`, through the values
/// named, where `strength` is `average_gain / average_loss` if the average
/// loss is above zero, and infinity otherwise.
pub open spec fn index_run<T: Scalar>(
    average_gain: T,
    average_loss: T,
    zero: T,
    losing: bool,
    strength: T,
    hundred: T,
    one: T,
    denominator: T,
    share: T,
    index: T,
) -> bool {
    &&& count_is(0, zero)
    &&& exceeds_is(average_loss, zero, losing)
    &&& if losing {
        quotient_is(average_gain, average_loss, strength)
    } else {
        infinity_is(strength)
    }
    &&& count_is(100, hundred)
    &&& count_is(1, one)
    &&& sum_is(one, strength, denominator)
    &&& quotient_is(hundred, denominator, share)
    &&& difference_is(hundred, share, index)
}

/// `index` is the relative strength index for the two averages:
/// `100 - 100 / (1 + average_gain / average_loss)`, with infinity in place of
/// the quotient where the average loss is not above zero.
pub open spec fn is_strength_index<T: Scalar>(average_gain: T, average_loss: T, index: T) -> bool {
    exists|zero: T, losing: bool, strength: T, hundred: T, one: T, denominator: T, share: T|
        index_run(
            average_gain,
            average_loss,
            zero,
            losing,
            strength,
            hundred,
            one,
            denominator,
            share,
            index,
        )
}

/// `averages` starts with the mean of the first `window` of `changes` and
/// goes on by smoothing: entry `k` follows from entry `k - 1` and the change
/// at `window + k - 2`, the change that leads to price `window + k - 1`.
pub open spec fn is_smoothed_average<T: Scalar>(
    changes: Seq<T>,
    window: usize,
    averages: Seq<T>,
) -> bool {
    &&& 1 <= window <= changes.len()
    &&& averages.len() == changes.len() - window + 2
    &&& is_mean(changes.take(window as int), averages[0])
    &&& forall|k: int|
        1 <= k < averages.len() ==> is_wilder_smoothed(
            averages[k - 1],
            changes[window + k - 2],
            window,
            #[trigger] averages[k],
        )
}

/// The series of an RSI computation.
///
/// `gains` and `losses` hold the gain and the loss between each price and the
/// next. `average_gains` and `average_losses` are their smoothed averages;
/// `indices` holds the index for each pair of averages after the first.
pub open spec fn rsi_run<T: Scalar>(
    prices: Seq<T>,
    window: usize,
    gains: Seq<T>,
    losses: Seq<T>,
    average_gains: Seq<T>,
    average_losses: Seq<T>,
    indices: Seq<T>,
) -> bool {
    &&& 1 <= window < prices.len()
    &&& gains.len() == prices.len() - 1
    &&& losses.len() == prices.len() - 1
    &&& forall|i: int|
        0 <= i < gains.len() ==> is_gain(prices[i], prices[i + 1], #[trigger] gains[i])
    &&& forall|i: int|
        0 <= i < losses.len() ==> is_loss(prices[i], prices[i + 1], #[trigger] losses[i])
    &&& is_smoothed_average(gains, window, average_gains)
    &&& is_smoothed_average(losses, window, average_losses)
    &&& indices.len() == prices.len() - window
    &&& forall|k: int|
        0 <= k < indices.len() ==> is_strength_index(
            average_gains[k + 1],
            average_losses[k + 1],
            #[trigger] indices[k],
        )
}

/// The message of the error for a series with no price after the window.
pub open spec fn no_price_after_window_message() -> Seq<char> {
    "Not enough data points to calculate RSI"@
}

/// `indices` is the relative strength index of `prices` over `window`.
pub open spec fn is_rsi<T: Scalar>(prices: Seq<T>, window: usize, indices: Seq<T>) -> bool {
    exists|
        gains: Seq<T>,
        losses: Seq<T>,
        average_gains: Seq<T>,
        average_losses: Seq<T>,
    |
        rsi_run(prices, window, gains, losses, average_gains, average_losses, indices)
}

/// What the price gained from `from` to `to`.
pub fn gain<T: Scalar>(from: T, to: T) -> (gain: T)
    ensures
        is_gain(from, to, gain),
{
    let change = to.minus(from);
    let zero = T::from_count(0);
    let rose = change.exceeds(zero);
    let gain = if rose {
        change
    } else {
        zero
    };
    assert(gain_run(from, to, change, zero, rose, gain));
    gain
}

/// What the price lost from `from` to `to`.
pub fn loss<T: Scalar>(from: T, to: T) -> (loss: T)
    ensures
        is_loss(from, to, loss),
{
    let change = to.minus(from);
    let zero = T::from_count(0);
    let fell = zero.exceeds(change);
    let loss = if fell {
        change.negate()
    } else {
        zero
    };
    assert(loss_run(from, to, change, zero, fell, loss));
    loss
}

/// The smoothed average that follows `average` once `current` is seen.
pub fn wilder_smooth<T: Scalar>(average: T, current: T, window: usize) -> (next: T)
    requires
        window >= 1,
    ensures
        is_wilder_smoothed(average, current, window, next),
{
    let rest = T::from_count(window - 1);
    let carried = average.times(rest);
    let total = carried.plus(current);
    let width = T::from_count(window);
    let next = total.over(width);
    assert(wilder_run(average, current, window, rest, carried, total, width, next));
    next
}

/// The relative strength index for an average gain and an average loss.
pub fn strength_index<T: Scalar>(average_gain: T, average_loss: T) -> (index: T)
    ensures
        is_strength_index(average_gain, average_loss, index),
{
    let zero = T::from_count(0);
    let losing = average_loss.exceeds(zero);
    let strength = if losing {
        average_gain.over(average_loss)
    } else {
        T::infinity()
    };
    let hundred = T::from_count(100);
    let one = T::from_count(1);
    let denominator = one.plus(strength);
    let share = hundred.over(denominator);
    let index = hundred.minus(share);
    assert(index_run(
        average_gain,
        average_loss,
        zero,
        losing,
        strength,
        hundred,
        one,
        denominator,
        share,
        index,
    ));
    index
}

/// The relative strength index of `prices` over `window`.
///
/// Fails exactly when there are no more prices than `window`. Otherwise there
/// is one value for each price after the first `window`. The averages of gain
/// and loss are seeded with the mean over the first `window` changes and then
/// smoothed with each change from the one that leads to price `window` on.
///
/// The window may not be zero.
pub fn calculate_rsi<T: Scalar>(prices: &[T], window: usize) -> (result: Result<
    Vec<T>,
    IndicatorError,
>)
    requires
        window >= 1,
    ensures
        result is Err <==> prices@.len() <= window,
        match result {
            Ok(indices) => {
                &&& is_rsi(prices@, window, indices@)
                &&& indices@.len() == prices@.len() - window
            },
            Err(e) => e is NotEnoughData && e.message_text()@ == no_price_after_window_message(),
        },
{
    if prices.len() <= window {
        return Err(IndicatorError::not_enough_data("Not enough data points to calculate RSI"));
    }
    let mut gains: Vec<T> = Vec::new();
    let mut losses: Vec<T> = Vec::new();
    let mut j: usize = 1;
    while j < prices.len()
        invariant
            1 <= j <= prices@.len(),
            gains@.len() == j - 1,
            losses@.len() == j - 1,
            forall|i: int|
                0 <= i < gains@.len() ==> is_gain(prices@[i], prices@[i + 1], #[trigger] gains@[i]),
            forall|i: int|
                0 <= i < losses@.len() ==> is_loss(
                    prices@[i],
                    prices@[i + 1],
                    #[trigger] losses@[i],
                ),
        decreases prices@.len() - j,
    {
        gains.push(gain(prices[j - 1], prices[j]));
        losses.push(loss(prices[j - 1], prices[j]));
        j += 1;
    }
    let mut average_gain = mean_of_first(gains.as_slice(), window);
    let mut average_loss = mean_of_first(losses.as_slice(), window);
    let ghost mut average_gains: Seq<T> = seq![average_gain];
    let ghost mut average_losses: Seq<T> = seq![average_loss];
    let mut indices: Vec<T> = Vec::new();
    let mut i: usize = window;
    while i < prices.len()
        invariant
            1 <= window <= i <= prices@.len(),
            gains@.len() == prices@.len() - 1,
            losses@.len() == prices@.len() - 1,
            indices@.len() == i - window,
            average_gains.len() == i - window + 1,
            average_losses.len() == i - window + 1,
            average_gain == average_gains[i - window],
            average_loss == average_losses[i - window],
            is_mean(gains@.take(window as int), average_gains[0]),
            is_mean(losses@.take(window as int), average_losses[0]),
            forall|k: int|
                1 <= k < average_gains.len() ==> is_wilder_smoothed(
                    average_gains[k - 1],
                    gains@[window + k - 2],
                    window,
                    #[trigger] average_gains[k],
                ),
            forall|k: int|
                1 <= k < average_losses.len() ==> is_wilder_smoothed(
                    average_losses[k - 1],
                    losses@[window + k - 2],
                    window,
                    #[trigger] average_losses[k],
                ),
            forall|k: int|
                0 <= k < indices@.len() ==> is_strength_index(
                    average_gains[k + 1],
                    average_losses[k + 1],
                    #[trigger] indices@[k],
                ),
        decreases prices@.len() - i,
    {
        average_gain = wilder_smooth(average_gain, gains[i - 1], window);
        average_loss = wilder_smooth(average_loss, losses[i - 1], window);
        proof {
            average_gains = average_gains.push(average_gain);
            average_losses = average_losses.push(average_loss);
        }
        indices.push(strength_index(average_gain, average_loss));
        i += 1;
    }
    assert(rsi_run(
        prices@,
        window,
        gains@,
        losses@,
        average_gains,
        average_losses,
        indices@,
    ));
    Ok(indices)
}

/// A relative strength index has one value for each price after the first
/// `window`.
pub proof fn lemma_rsi_len<T: Scalar>(prices: Seq<T>, window: usize, indices: Seq<T>)
    requires
        is_rsi(prices, window, indices),
    ensures
        window < prices.len(),
        indices.len() == prices.len() - window,
{
}

/// Two prices have one gain and one loss between them, where the arithmetic
/// is deterministic.
proof fn lemma_change_unique<T: Scalar>(from: T, to: T)
    requires
        deterministic::<T>(),
    ensures
        forall|a: T, b: T| is_gain(from, to, a) && is_gain(from, to, b) ==> a == b,
        forall|a: T, b: T| is_loss(from, to, a) && is_loss(from, to, b) ==> a == b,
{
}

/// Two averages have one index, where the arithmetic is deterministic.
proof fn lemma_strength_index_unique<T: Scalar>(average_gain: T, average_loss: T, a: T, b: T)
    requires
        deterministic::<T>(),
        is_strength_index(average_gain, average_loss, a),
        is_strength_index(average_gain, average_loss, b),
    ensures
        a == b,
{
}

/// Two smoothed averages of the same changes agree at every place, where the
/// arithmetic is deterministic.
proof fn lemma_smoothed_averages_agree<T: Scalar>(
    changes: Seq<T>,
    window: usize,
    first: Seq<T>,
    second: Seq<T>,
    k: int,
)
    requires
        deterministic::<T>(),
        is_smoothed_average(changes, window, first),
        is_smoothed_average(changes, window, second),
        0 <= k < first.len(),
    ensures
        first[k] == second[k],
    decreases k,
{
    if k == 0 {
        lemma_mean_unique(changes.take(window as int), first[0], second[0]);
    } else {
        lemma_smoothed_averages_agree(changes, window, first, second, k - 1);
    }
}

/// Given prices have one relative strength index over a given window, where
/// the arithmetic is deterministic: computing it twice gives the same series.
pub proof fn lemma_rsi_unique<T: Scalar>(
    prices: Seq<T>,
    window: usize,
    first: Seq<T>,
    second: Seq<T>,
)
    requires
        deterministic::<T>(),
        is_rsi(prices, window, first),
        is_rsi(prices, window, second),
    ensures
        first == second,
{
    let (gains_a, losses_a, average_gains_a, average_losses_a) = choose|
        gains: Seq<T>,
        losses: Seq<T>,
        average_gains: Seq<T>,
        average_losses: Seq<T>,
    |
        rsi_run(prices, window, gains, losses, average_gains, average_losses, first);
    let (gains_b, losses_b, average_gains_b, average_losses_b) = choose|
        gains: Seq<T>,
        losses: Seq<T>,
        average_gains: Seq<T>,
        average_losses: Seq<T>,
    |
        rsi_run(prices, window, gains, losses, average_gains, average_losses, second);
    assert forall|i: int| 0 <= i < gains_a.len() implies gains_a[i] == gains_b[i] && losses_a[i]
        == losses_b[i] by {
        lemma_change_unique(prices[i], prices[i + 1]);
    }
    assert(gains_a =~= gains_b);
    assert(losses_a =~= losses_b);
    assert forall|k: int| 0 <= k < first.len() implies first[k] == second[k] by {
        lemma_smoothed_averages_agree(gains_a, window, average_gains_a, average_gains_b, k + 1);
        lemma_smoothed_averages_agree(losses_a, window, average_losses_a, average_losses_b, k + 1);
        lemma_strength_index_unique(
            average_gains_a[k + 1],
            average_losses_a[k + 1],
            first[k],
            second[k],
        );
    }
    assert(first =~= second);
}

/// Zero and infinity behave in `T` as they do in ordinary arithmetic, as far
/// as the index needs it: `0 + 0`, `0 * n` and `0 / n` (for a count `n` of at
/// least one) are `0`; `0 > 0` is false; `1 + infinity` is infinity;
/// `100 / infinity` is `0`; and `100 - 0` is `100`.
pub open spec fn zero_and_infinity_absorb<T: Scalar>() -> bool {
    &&& forall|zero: T, r: T|
        #![trigger sum_is(zero, zero, r)]
        count_is(0, zero) && sum_is(zero, zero, r) ==> r == zero
    &&& forall|zero: T, n: usize, count: T, r: T|
        #![trigger count_is(n, count), product_is(zero, count, r)]
        count_is(0, zero) && count_is(n, count) && product_is(zero, count, r) ==> r == zero
    &&& forall|zero: T, n: usize, count: T, r: T|
        #![trigger count_is(n, count), quotient_is(zero, count, r)]
        n >= 1 && count_is(0, zero) && count_is(n, count) && quotient_is(zero, count, r) ==> r
            == zero
    &&& forall|zero: T, r: bool|
        #![trigger exceeds_is(zero, zero, r)]
        count_is(0, zero) && exceeds_is(zero, zero, r) ==> !r
    &&& forall|one: T, infinity: T, r: T|
        #![trigger sum_is(one, infinity, r)]
        count_is(1, one) && infinity_is(infinity) && sum_is(one, infinity, r) ==> r == infinity
    &&& forall|hundred: T, infinity: T, zero: T, r: T|
        #![trigger quotient_is(hundred, infinity, r), count_is(0, zero)]
        count_is(100, hundred) && infinity_is(infinity) && count_is(0, zero) && quotient_is(
            hundred,
            infinity,
            r,
        ) ==> r == zero
    &&& forall|hundred: T, zero: T, r: T|
        #![trigger difference_is(hundred, zero, r)]
        count_is(100, hundred) && count_is(0, zero) && difference_is(hundred, zero, r) ==> r
            == hundred
}

/// No price is below the one before it: the change from any price to the next
/// is never judged to be below zero.
pub open spec fn never_falls<T: Scalar>(prices: Seq<T>) -> bool {
    forall|i: int, j: int, change: T, zero: T, fell: bool|
        #![trigger difference_is(prices[j], prices[i], change), exceeds_is(zero, change, fell)]
        0 <= i && j == i + 1 && j < prices.len() && difference_is(prices[j], prices[i], change)
            && count_is(0, zero) && exceeds_is(zero, change, fell) ==> !fell
}

/// The running totals of zeros are zeros.
proof fn lemma_running_total_of_zeros<T: Scalar>(values: Seq<T>, totals: Seq<T>, k: int)
    requires
        deterministic::<T>(),
        zero_and_infinity_absorb::<T>(),
        forall|i: int| 0 <= i < values.len() ==> count_is(0, #[trigger] values[i]),
        running_total(values, totals),
        0 <= k <= values.len(),
    ensures
        count_is(0, totals[k]),
    decreases k,
{
    if k > 0 {
        lemma_running_total_of_zeros(values, totals, k - 1);
        assert(count_is(0, values[k - 1]));
        assert(sum_is(totals[k - 1], values[k - 1], totals[k]));
    }
}

/// The mean of one or more zeros is zero.
proof fn lemma_mean_of_zeros<T: Scalar>(values: Seq<T>, m: T)
    requires
        deterministic::<T>(),
        zero_and_infinity_absorb::<T>(),
        values.len() >= 1,
        forall|i: int| 0 <= i < values.len() ==> count_is(0, #[trigger] values[i]),
        is_mean(values, m),
    ensures
        count_is(0, m),
{
    let (totals, n) = choose|totals: Seq<T>, n: T| mean_run(values, totals, n, m);
    lemma_running_total_of_zeros(values, totals, values.len() as int);
}

/// The smoothed averages of zeros are zeros.
proof fn lemma_smoothed_average_of_zeros<T: Scalar>(
    changes: Seq<T>,
    window: usize,
    averages: Seq<T>,
    k: int,
)
    requires
        deterministic::<T>(),
        zero_and_infinity_absorb::<T>(),
        forall|i: int| 0 <= i < changes.len() ==> count_is(0, #[trigger] changes[i]),
        is_smoothed_average(changes, window, averages),
        0 <= k < averages.len(),
    ensures
        count_is(0, averages[k]),
    decreases k,
{
    if k == 0 {
        let first = changes.take(window as int);
        assert forall|i: int| 0 <= i < first.len() implies count_is(0, #[trigger] first[i]) by {
            assert(first[i] == changes[i]);
        }
        lemma_mean_of_zeros(first, averages[0]);
    } else {
        lemma_smoothed_average_of_zeros(changes, window, averages, k - 1);
        assert(count_is(0, changes[window + k - 2]));
        assert(is_wilder_smoothed(averages[k - 1], changes[window + k - 2], window, averages[k]));
    }
}

/// While prices never fall the index stays at a hundred: with no loss the
/// average loss is zero, the strength is infinite, and `100 - 100 / (1 +
/// infinity)` is `100`. This holds where the arithmetic is deterministic and
/// zero and infinity behave in it as in ordinary arithmetic.
pub proof fn lemma_rsi_is_hundred_while_prices_never_fall<T: Scalar>(
    prices: Seq<T>,
    window: usize,
    indices: Seq<T>,
)
    requires
        deterministic::<T>(),
        zero_and_infinity_absorb::<T>(),
        never_falls(prices),
        is_rsi(prices, window, indices),
    ensures
        forall|k: int| 0 <= k < indices.len() ==> count_is(100, #[trigger] indices[k]),
{
    let (gains, losses, average_gains, average_losses) = choose|
        gains: Seq<T>,
        losses: Seq<T>,
        average_gains: Seq<T>,
        average_losses: Seq<T>,
    |
        rsi_run(prices, window, gains, losses, average_gains, average_losses, indices);
    assert forall|i: int| 0 <= i < losses.len() implies count_is(0, #[trigger] losses[i]) by {
        assert(is_loss(prices[i], prices[i + 1], losses[i]));
    }
    assert forall|k: int| 0 <= k < indices.len() implies count_is(100, #[trigger] indices[k]) by {
        lemma_smoothed_average_of_zeros(losses, window, average_losses, k + 1);
        assert(is_strength_index(average_gains[k + 1], average_losses[k + 1], indices[k]));
    }
}

} // verus!
