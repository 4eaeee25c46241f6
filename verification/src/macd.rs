use crate::ema::{calculate_ema, ema_len, is_ema, lemma_ema_unique, short_series_message};
use crate::error::IndicatorError;
use crate::scalar::{deterministic, difference_is, Scalar};
use vstd::prelude::*;
use vstd::slice::{slice_subrange, slice_to_vec};

verus! {

/// `out` holds, entry by entry, `a` minus `b`; all three have the same length.
pub open spec fn is_pointwise_difference<T: Scalar>(a: Seq<T>, b: Seq<T>, out: Seq<T>) -> bool {
    &&& a.len() == b.len()
    &&& out.len() == b.len()
    &&& forall|i: int| 0 <= i < out.len() ==> difference_is(a[i], b[i], #[trigger] out[i])
}

/// The three series of a MACD computation and the series they were made from.
///
/// `fast` and `slow` are the moving averages of `prices` over the short and the
/// long window. `fast` starts earlier in the price series, so its first
/// `long_window - short_window` entries are dropped before `slow` is taken
/// from it, which gives `line`. `signal` is the moving average of `line`;
/// `macd` is the end of `line` that `signal` covers, and `histogram` is `macd`
/// minus `signal`.
pub open spec fn macd_run<T: Scalar>(
    prices: Seq<T>,
    short_window: usize,
    long_window: usize,
    signal_window: usize,
    fast: Seq<T>,
    slow: Seq<T>,
    line: Seq<T>,
    macd: Seq<T>,
    signal: Seq<T>,
    histogram: Seq<T>,
) -> bool {
    &&& short_window <= long_window
    &&& signal_window >= 1
    &&& is_ema(prices, short_window, fast)
    &&& is_ema(prices, long_window, slow)
    &&& is_pointwise_difference(fast.skip(long_window - short_window), slow, line)
    &&& is_ema(line, signal_window, signal)
    &&& macd == line.skip(line.len() - signal.len())
    &&& is_pointwise_difference(macd, signal, histogram)
}

/// `macd`, `signal` and `histogram` are the MACD line, the signal line and the
/// histogram of `prices` for the three windows.
pub open spec fn is_macd<T: Scalar>(
    prices: Seq<T>,
    short_window: usize,
    long_window: usize,
    signal_window: usize,
    macd: Seq<T>,
    signal: Seq<T>,
    histogram: Seq<T>,
) -> bool {
    exists|fast: Seq<T>, slow: Seq<T>, line: Seq<T>|
        macd_run(
            prices,
            short_window,
            long_window,
            signal_window,
            fast,
            slow,
            line,
            macd,
            signal,
            histogram,
        )
}

/// How many values each of the three MACD series has, for `len` prices.
pub open spec fn macd_len(len: int, long_window: int, signal_window: int) -> int {
    ema_len(ema_len(len, long_window), signal_window)
}

/// `a` minus `b`, entry by entry.
pub fn pointwise_difference<T: Scalar>(a: &[T], b: &[T]) -> (out: Vec<T>)
    requires
        a@.len() == b@.len(),
    ensures
        is_pointwise_difference(a@, b@, out@),
{
    let mut out: Vec<T> = Vec::new();
    let mut i: usize = 0;
    while i < b.len()
        invariant
            a@.len() == b@.len(),
            i <= b@.len(),
            out@.len() == i,
            forall|k: int| 0 <= k < i ==> difference_is(a@[k], b@[k], #[trigger] out@[k]),
        decreases b@.len() - i,
    {
        out.push(a[i].minus(b[i]));
        i += 1;
    }
    out
}

/// The MACD line, the signal line and the histogram of `prices`.
///
/// The MACD line is the moving average over `short_window` minus the one over
/// `long_window`, the signal line is the moving average of the MACD line over
/// `signal_window`, and the histogram is the MACD line minus the signal line.
/// The three are cut to the same length and end at the last price.
///
/// Fails exactly when there are fewer prices than `long_window`, or when the
/// MACD line would have fewer than `signal_window` values, with the error of
/// the moving average that could not be computed.
///
/// The short window may not be larger than the long one, and the signal
/// window may not be zero: the series could not be aligned otherwise.
pub fn calculate_macd<T: Scalar>(
    prices: &[T],
    short_window: usize,
    long_window: usize,
    signal_window: usize,
) -> (result: Result<(Vec<T>, Vec<T>, Vec<T>), IndicatorError>)
    requires
        short_window <= long_window,
        signal_window >= 1,
    ensures
        result is Err <==> prices@.len() < long_window || ema_len(
            prices@.len() as int,
            long_window as int,
        ) < signal_window,
        match result {
            Ok((macd, signal, histogram)) => {
                &&& is_macd(
                    prices@,
                    short_window,
                    long_window,
                    signal_window,
                    macd@,
                    signal@,
                    histogram@,
                )
                &&& macd@.len() == macd_len(
                    prices@.len() as int,
                    long_window as int,
                    signal_window as int,
                )
                &&& signal@.len() == macd@.len()
                &&& histogram@.len() == macd@.len()
            },
            Err(e) => e is NotEnoughData && e.message_text()@ == short_series_message(),
        },
{
    let fast = match calculate_ema(prices, short_window) {
        Ok(averages) => averages,
        Err(e) => {
            return Err(e);
        },
    };
    let slow = match calculate_ema(prices, long_window) {
        Ok(averages) => averages,
        Err(e) => {
            return Err(e);
        },
    };
    let aligned = slice_subrange(fast.as_slice(), long_window - short_window, fast.len());
    let line = pointwise_difference(aligned, slow.as_slice());
    let signal = match calculate_ema(line.as_slice(), signal_window) {
        Ok(averages) => averages,
        Err(e) => {
            return Err(e);
        },
    };
    let macd = slice_to_vec(slice_subrange(line.as_slice(), line.len() - signal.len(), line.len()));
    let histogram = pointwise_difference(macd.as_slice(), signal.as_slice());
    assert(macd_run(
        prices@,
        short_window,
        long_window,
        signal_window,
        fast@,
        slow@,
        line@,
        macd@,
        signal@,
        histogram@,
    ));
    Ok((macd, signal, histogram))
}

/// The three series of a MACD computation have the same length.
pub proof fn lemma_macd_same_len<T: Scalar>(
    prices: Seq<T>,
    short_window: usize,
    long_window: usize,
    signal_window: usize,
    macd: Seq<T>,
    signal: Seq<T>,
    histogram: Seq<T>,
)
    requires
        is_macd(prices, short_window, long_window, signal_window, macd, signal, histogram),
    ensures
        macd.len() == signal.len(),
        histogram.len() == signal.len(),
        signal.len() == macd_len(prices.len() as int, long_window as int, signal_window as int),
{
}

/// Two series have one pointwise difference, where the arithmetic is
/// deterministic.
pub proof fn lemma_pointwise_difference_unique<T: Scalar>(
    a: Seq<T>,
    b: Seq<T>,
    first: Seq<T>,
    second: Seq<T>,
)
    requires
        deterministic::<T>(),
        is_pointwise_difference(a, b, first),
        is_pointwise_difference(a, b, second),
    ensures
        first == second,
{
    assert(first =~= second);
}

/// Given prices have one MACD line, one signal line and one histogram for
/// given windows, where the arithmetic is deterministic: computing them twice
/// gives the same three series.
pub proof fn lemma_macd_unique<T: Scalar>(
    prices: Seq<T>,
    short_window: usize,
    long_window: usize,
    signal_window: usize,
    first: (Seq<T>, Seq<T>, Seq<T>),
    second: (Seq<T>, Seq<T>, Seq<T>),
)
    requires
        deterministic::<T>(),
        is_macd(prices, short_window, long_window, signal_window, first.0, first.1, first.2),
        is_macd(prices, short_window, long_window, signal_window, second.0, second.1, second.2),
    ensures
        first == second,
{
    let (fast_a, slow_a, line_a) = choose|fast: Seq<T>, slow: Seq<T>, line: Seq<T>|
        macd_run(
            prices,
            short_window,
            long_window,
            signal_window,
            fast,
            slow,
            line,
            first.0,
            first.1,
            first.2,
        );
    let (fast_b, slow_b, line_b) = choose|fast: Seq<T>, slow: Seq<T>, line: Seq<T>|
        macd_run(
            prices,
            short_window,
            long_window,
            signal_window,
            fast,
            slow,
            line,
            second.0,
            second.1,
            second.2,
        );
    lemma_ema_unique(prices, short_window, fast_a, fast_b);
    lemma_ema_unique(prices, long_window, slow_a, slow_b);
    lemma_pointwise_difference_unique(
        fast_a.skip(long_window - short_window),
        slow_a,
        line_a,
        line_b,
    );
    lemma_ema_unique(line_a, signal_window, first.1, second.1);
    lemma_pointwise_difference_unique(first.0, first.1, first.2, second.2);
}

} // verus!
