use vstd::prelude::*;

verus! {

/// The arithmetic that the indicators need from a number type.
///
/// The methods carry no contract of their own. What an implementation
/// promises of a method is reached with `call_ensures`, through the
/// predicates below, and the indicators promise exactly what follows from it.
/// Every method must accept every value: none may have a precondition.
pub trait Scalar: Copy {
    /// The number that stands for the count `n`.
    fn from_count(n: usize) -> Self;

    /// The number that is larger than every other.
    fn infinity() -> Self;

    /// `self + rhs`.
    fn plus(self, rhs: Self) -> Self;

    /// `self - rhs`.
    fn minus(self, rhs: Self) -> Self;

    /// `self * rhs`.
    fn times(self, rhs: Self) -> Self;

    /// `self / rhs`.
    fn over(self, rhs: Self) -> Self;

    /// `-self`.
    fn negate(self) -> Self;

    /// Whether `self > rhs`.
    fn exceeds(self, rhs: Self) -> bool;
}

/// `r` may come back from `T::from_count(n)`.
pub open spec fn count_is<T: Scalar>(n: usize, r: T) -> bool {
    call_ensures(T::from_count, (n,), r)
}

/// `r` may come back from `T::infinity()`.
pub open spec fn infinity_is<T: Scalar>(r: T) -> bool {
    call_ensures(T::infinity, (), r)
}

/// `r` may come back from `a.plus(b)`.
pub open spec fn sum_is<T: Scalar>(a: T, b: T, r: T) -> bool {
    call_ensures(T::plus, (a, b), r)
}

/// `r` may come back from `a.minus(b)`.
pub open spec fn difference_is<T: Scalar>(a: T, b: T, r: T) -> bool {
    call_ensures(T::minus, (a, b), r)
}

/// `r` may come back from `a.times(b)`.
pub open spec fn product_is<T: Scalar>(a: T, b: T, r: T) -> bool {
    call_ensures(T::times, (a, b), r)
}

/// `r` may come back from `a.over(b)`.
pub open spec fn quotient_is<T: Scalar>(a: T, b: T, r: T) -> bool {
    call_ensures(T::over, (a, b), r)
}

/// `r` may come back from `a.negate()`.
pub open spec fn negation_is<T: Scalar>(a: T, r: T) -> bool {
    call_ensures(T::negate, (a,), r)
}

/// `r` may come back from `a.exceeds(b)`.
pub open spec fn exceeds_is<T: Scalar>(a: T, b: T, r: bool) -> bool {
    call_ensures(T::exceeds, (a, b), r)
}

/// `totals` holds the sums that adding up `values` from left to right goes
/// through: it starts at the number for zero, and each further entry is the
/// one before it plus the next value.
pub open spec fn running_total<T: Scalar>(values: Seq<T>, totals: Seq<T>) -> bool {
    &&& totals.len() == values.len() + 1
    &&& count_is(0, totals[0])
    &&& forall|k: int|
        1 <= k <= values.len() ==> sum_is(totals[k - 1], values[k - 1], #[trigger] totals[k])
}

/// `m` is the last of `totals` divided by `n`, the number for how many
/// `values` there are.
pub open spec fn mean_run<T: Scalar>(values: Seq<T>, totals: Seq<T>, n: T, m: T) -> bool {
    &&& values.len() <= usize::MAX
    &&& running_total(values, totals)
    &&& count_is(values.len() as usize, n)
    &&& quotient_is(totals[values.len() as int], n, m)
}

/// `m` is an arithmetic mean of `values`: their sum, taken from left to right
/// starting at zero, divided by their count.
pub open spec fn is_mean<T: Scalar>(values: Seq<T>, m: T) -> bool {
    exists|totals: Seq<T>, n: T| mean_run(values, totals, n, m)
}

/// The arithmetic mean of the first `count` of `values`.
pub fn mean_of_first<T: Scalar>(values: &[T], count: usize) -> (m: T)
    requires
        count <= values@.len(),
    ensures
        is_mean(values@.take(count as int), m),
{
    let mut total = T::from_count(0);
    let ghost mut totals: Seq<T> = seq![total];
    let mut i: usize = 0;
    while i < count
        invariant
            i <= count <= values@.len(),
            totals.len() == i + 1,
            count_is(0, totals[0]),
            total == totals[i as int],
            forall|k: int|
                1 <= k <= i ==> sum_is(totals[k - 1], values@[k - 1], #[trigger] totals[k]),
        decreases count - i,
    {
        total = total.plus(values[i]);
        proof {
            totals = totals.push(total);
        }
        i += 1;
    }
    let n = T::from_count(count);
    let m = total.over(n);
    proof {
        let first = values@.take(count as int);
        assert(running_total(first, totals));
        assert(mean_run(first, totals, n, m));
    }
    m
}

/// The arithmetic of `T` gives one result for each input: whatever may come
/// back from an operation on given values is the only value that may.
pub open spec fn deterministic<T: Scalar>() -> bool {
    &&& forall|n: usize, a: T, b: T|
        #![trigger count_is(n, a), count_is(n, b)]
        count_is(n, a) && count_is(n, b) ==> a == b
    &&& forall|a: T, b: T|
        #![trigger infinity_is(a), infinity_is(b)]
        infinity_is(a) && infinity_is(b) ==> a == b
    &&& forall|x: T, y: T, a: T, b: T|
        #![trigger sum_is(x, y, a), sum_is(x, y, b)]
        sum_is(x, y, a) && sum_is(x, y, b) ==> a == b
    &&& forall|x: T, y: T, a: T, b: T|
        #![trigger difference_is(x, y, a), difference_is(x, y, b)]
        difference_is(x, y, a) && difference_is(x, y, b) ==> a == b
    &&& forall|x: T, y: T, a: T, b: T|
        #![trigger product_is(x, y, a), product_is(x, y, b)]
        product_is(x, y, a) && product_is(x, y, b) ==> a == b
    &&& forall|x: T, y: T, a: T, b: T|
        #![trigger quotient_is(x, y, a), quotient_is(x, y, b)]
        quotient_is(x, y, a) && quotient_is(x, y, b) ==> a == b
    &&& forall|x: T, a: T, b: T|
        #![trigger negation_is(x, a), negation_is(x, b)]
        negation_is(x, a) && negation_is(x, b) ==> a == b
    &&& forall|x: T, y: T, a: bool, b: bool|
        #![trigger exceeds_is(x, y, a), exceeds_is(x, y, b)]
        exceeds_is(x, y, a) && exceeds_is(x, y, b) ==> a == b
}

/// Two running totals of the same values agree at every place, where the
/// arithmetic is deterministic.
proof fn lemma_running_totals_agree<T: Scalar>(
    values: Seq<T>,
    first: Seq<T>,
    second: Seq<T>,
    k: int,
)
    requires
        deterministic::<T>(),
        running_total(values, first),
        running_total(values, second),
        0 <= k <= values.len(),
    ensures
        first[k] == second[k],
    decreases k,
{
    if k > 0 {
        lemma_running_totals_agree(values, first, second, k - 1);
    }
}

/// Given values have one mean, where the arithmetic is deterministic.
pub proof fn lemma_mean_unique<T: Scalar>(values: Seq<T>, a: T, b: T)
    requires
        deterministic::<T>(),
        is_mean(values, a),
        is_mean(values, b),
    ensures
        a == b,
{
    let (first, n) = choose|totals: Seq<T>, n: T| mean_run(values, totals, n, a);
    let (second, m) = choose|totals: Seq<T>, n: T| mean_run(values, totals, n, b);
    lemma_running_totals_agree(values, first, second, values.len() as int);
}

} // verus!
