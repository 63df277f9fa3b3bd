use vstd::prelude::*;

verus! {

/// The capability a sample value type must offer so that the one trend and
/// dataset algorithm can aggregate it: a total order, a zero value, addition,
/// division of an accumulated sum by a count, and linear interpolation, each
/// pinned to a mathematical value by `stat_val`.
pub trait Stat: Sized + Copy {
    /// The mathematical value of a sample; every contract speaks in this unit.
    spec fn stat_val(&self) -> int;

    /// The largest mathematical value the type can hold.
    spec fn max_val() -> int;

    /// Sample values are non-negative quantities no larger than `max_val`.
    proof fn val_in_range(&self)
        ensures
            0 <= self.stat_val() <= Self::max_val(),
    ;

    /// The default value, with which an empty dataset answers every query.
    fn zero() -> (r: Self)
        ensures
            r.stat_val() == 0,
    ;

    /// The order the sorted snapshot is arranged by.
    fn le(&self, other: &Self) -> (r: bool)
        ensures
            r == (self.stat_val() <= other.stat_val()),
    ;

    /// Exact addition; the caller shows the sum stays representable.
    fn plus(&self, other: &Self) -> (r: Self)
        requires
            self.stat_val() + other.stat_val() <= Self::max_val(),
        ensures
            r.stat_val() == self.stat_val() + other.stat_val(),
    ;

    /// Divide an accumulated sum by a sample count, rounding toward zero;
    /// a count of zero yields zero rather than a fault.
    fn div_count(&self, count: usize) -> (r: Self)
        ensures
            count == 0 ==> r.stat_val() == 0,
            count > 0 ==> r.stat_val() == self.stat_val() / count as int,
    ;

    /// Move from `self` toward `towards` by the fraction `num / den`.
    /// When `towards` lies below `self` the step saturates and the result
    /// stays at `self`.
    fn lerp(&self, towards: Self, num: u64, den: u64) -> (r: Self)
        requires
            0 < den,
            num <= den,
        ensures
            self.stat_val() <= towards.stat_val() ==> r.stat_val() == self.stat_val() + (
            towards.stat_val() - self.stat_val()) * num as int / den as int,
            towards.stat_val() < self.stat_val() ==> r.stat_val() == self.stat_val(),
    ;

    /// What the human-readable rendering of the value spells.
    spec fn repr_spec(&self) -> Seq<char>;

    /// A human-readable rendering of the value.
    fn repr(&self) -> (r: String)
        ensures
            r@ == self.repr_spec(),
    ;
}

/// An elapsed time measured in whole nanoseconds: the sample type the
/// instrumentation layer records, an exact stand-in for a machine duration.
#[derive(Clone, Copy, PartialEq, Eq, Structural, Debug)]
pub struct Nanos(pub u64);

/// The decimal digit characters, indexed by digit value.
pub open spec fn digit_char(d: nat) -> char {
    seq!['0', '1', '2', '3', '4', '5', '6', '7', '8', '9'][d as int]
}

/// The decimal rendering of `n`, most significant digit first, with no
/// leading zeros except for `n == 0` itself.
pub open spec fn dec_rep(n: nat) -> Seq<char>
    decreases n,
{
    if n < 10 {
        seq![digit_char(n)]
    } else {
        dec_rep(n / 10).push(digit_char(n % 10))
    }
}

/// Relies on u64's `Display` implementation: it writes the value in decimal,
/// most significant digit first, with no sign, padding or separators.
#[verifier::external_body]
fn u64_decimal(n: u64) -> (r: String)
    ensures
        r@ == dec_rep(n as nat),
{
    n.to_string()
}

impl Stat for Nanos {
    open spec fn stat_val(&self) -> int {
        self.0 as int
    }

    open spec fn max_val() -> int {
        u64::MAX as int
    }

    proof fn val_in_range(&self) {
    }

    fn zero() -> (r: Self) {
        Nanos(0)
    }

    fn le(&self, other: &Self) -> (r: bool) {
        self.0 <= other.0
    }

    fn plus(&self, other: &Self) -> (r: Self) {
        Nanos(self.0 + other.0)
    }

    fn div_count(&self, count: usize) -> (r: Self) {
        if count == 0 {
            Nanos(0)
        } else {
            Nanos(self.0 / count as u64)
        }
    }

    fn lerp(&self, towards: Self, num: u64, den: u64) -> (r: Self) {
        if towards.0 < self.0 {
            *self
        } else {
            let diff: u128 = (towards.0 - self.0) as u128;
            proof {
                let d = diff as int;
                let nu = num as int;
                let de = den as int;
                assert(d * nu <= (u64::MAX as int) * (u64::MAX as int)) by (nonlinear_arith)
                    requires
                        0 <= d <= u64::MAX as int,
                        0 <= nu <= u64::MAX as int,
                ;
                assert((u64::MAX as int) * (u64::MAX as int) < u128::MAX as int) by (nonlinear_arith);
                assert(d * nu <= d * de) by (nonlinear_arith)
                    requires
                        nu <= de,
                        0 <= d,
                ;
                assert(d * de / de == d) by (nonlinear_arith)
                    requires
                        0 < de,
                        0 <= d,
                ;
                vstd::arithmetic::div_mod::lemma_div_is_ordered(d * nu, d * de, de);
            }
            let scaled: u128 = diff * num as u128 / den as u128;
            Nanos(self.0 + scaled as u64)
        }
    }

    open spec fn repr_spec(&self) -> Seq<char> {
        dec_rep(self.0 as nat)
    }

    fn repr(&self) -> (r: String) {
        u64_decimal(self.0)
    }
}

/// The sum of the mathematical values of a sequence of samples.
pub open spec fn sum_vals<T: Stat>(s: Seq<T>) -> int
    decreases s.len(),
{
    if s.len() == 0 {
        0
    } else {
        sum_vals(s.drop_last()) + s.last().stat_val()
    }
}

pub proof fn lemma_sum_vals_nonneg<T: Stat>(s: Seq<T>)
    ensures
        0 <= sum_vals(s),
    decreases s.len(),
{
    if s.len() > 0 {
        s.last().val_in_range();
        lemma_sum_vals_nonneg(s.drop_last());
    }
}

/// A prefix of the samples never sums to more than the whole sequence.
pub proof fn lemma_sum_vals_take_le<T: Stat>(s: Seq<T>, i: int)
    requires
        0 <= i <= s.len(),
    ensures
        sum_vals(s.take(i)) <= sum_vals(s),
    decreases s.len(),
{
    if i == s.len() {
        assert(s.take(i) =~= s);
    } else {
        assert(s.drop_last().take(i) =~= s.take(i));
        lemma_sum_vals_take_le(s.drop_last(), i);
        s.last().val_in_range();
    }
}

/// When every sample's value lies between `lo` and `hi`, the sum lies
/// between `lo` and `hi` scaled by the sample count.
pub proof fn lemma_sum_vals_bounds<T: Stat>(s: Seq<T>, lo: int, hi: int)
    requires
        forall|k: int| 0 <= k < s.len() ==> lo <= #[trigger] s[k].stat_val() <= hi,
    ensures
        s.len() * lo <= sum_vals(s) <= s.len() * hi,
    decreases s.len(),
{
    if s.len() == 0 {
    } else {
        lemma_sum_vals_bounds(s.drop_last(), lo, hi);
        assert((s.len() - 1) * lo + lo == s.len() * lo) by (nonlinear_arith);
        assert((s.len() - 1) * hi + hi == s.len() * hi) by (nonlinear_arith);
    }
}

/// The arithmetic mean of the recorded samples: their sum divided by their
/// count, the zero value when there are none.
pub(crate) fn mean<T: Stat>(samples: &Vec<T>) -> (r: T)
    requires
        sum_vals(samples@) <= T::max_val(),
    ensures
        samples@.len() == 0 ==> r.stat_val() == 0,
        samples@.len() > 0 ==> r.stat_val() == sum_vals(samples@) / samples@.len() as int,
{
    let n = samples.len();
    let mut acc = T::zero();
    let mut i: usize = 0;
    while i < n
        invariant
            i <= n,
            n == samples@.len(),
            sum_vals(samples@) <= T::max_val(),
            acc.stat_val() == sum_vals(samples@.take(i as int)),
        decreases n - i,
    {
        proof {
            assert(samples@.take(i + 1).drop_last() =~= samples@.take(i as int));
            samples@[i as int].val_in_range();
            lemma_sum_vals_take_le(samples@, i + 1);
            lemma_sum_vals_nonneg(samples@.take(i as int));
        }
        acc = acc.plus(&samples[i]);
        i += 1;
    }
    proof {
        assert(samples@.take(n as int) =~= samples@);
    }
    acc.div_count(n)
}

} // verus!
