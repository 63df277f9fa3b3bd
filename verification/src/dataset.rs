use vstd::prelude::*;

use crate::stat::{lemma_sum_vals_bounds, mean, sum_vals, Stat};

verus! {

broadcast use vstd::seq_lib::group_to_multiset_ensures;

/// An immutable, sorted analytical snapshot of one trend's samples, with the
/// arithmetic mean precomputed at construction time.
pub struct Dataset<T> {
    name: String,
    samples: Vec<T>,
    mean: T,
}

/// The samples stand in non-decreasing order of their values.
pub open spec fn sorted<T: Stat>(s: Seq<T>) -> bool {
    forall|i: int, j: int| 0 <= i <= j < s.len() ==> s[i].stat_val() <= s[j].stat_val()
}

/// The value the precomputed mean must take: the sum of the samples divided
/// by their count, zero when there are none.
pub open spec fn mean_val<T: Stat>(s: Seq<T>) -> int {
    if s.len() == 0 {
        0
    } else {
        sum_vals(s) / s.len() as int
    }
}

/// Removing one sample takes exactly its value out of the sum.
proof fn lemma_sum_vals_remove<T: Stat>(s: Seq<T>, j: int)
    requires
        0 <= j < s.len(),
    ensures
        sum_vals(s.remove(j)) == sum_vals(s) - s[j].stat_val(),
    decreases s.len(),
{
    if j == s.len() - 1 {
        assert(s.remove(j) =~= s.drop_last());
    } else {
        assert(s.remove(j).drop_last() =~= s.drop_last().remove(j));
        assert(s.remove(j).last() == s.last());
        lemma_sum_vals_remove(s.drop_last(), j);
    }
}

/// Two sequences holding the same multiset of samples have the same sum.
pub proof fn lemma_sum_vals_permutation<T: Stat>(s1: Seq<T>, s2: Seq<T>)
    requires
        s1.to_multiset() == s2.to_multiset(),
    ensures
        sum_vals(s1) == sum_vals(s2),
    decreases s1.len(),
{
    vstd::seq_lib::to_multiset_len(s1);
    vstd::seq_lib::to_multiset_len(s2);
    if s1.len() == 0 {
        assert(s2.len() == 0);
    } else {
        let x = s1.last();
        assert(s1.drop_last().push(x) =~= s1);
        assert(s1.to_multiset() =~= s1.drop_last().to_multiset().insert(x));
        assert(s2.to_multiset().count(x) > 0);
        assert(s2.contains(x));
        let j = choose|j: int| 0 <= j < s2.len() && s2[j] == x;
        assert(s2.remove(j).to_multiset() =~= s2.to_multiset().remove(x));
        assert(s1.drop_last().to_multiset() =~= s1.to_multiset().remove(x));
        lemma_sum_vals_remove(s2, j);
        lemma_sum_vals_permutation(s1.drop_last(), s2.remove(j));
    }
}

/// Arrange the samples in non-decreasing order of value, keeping exactly the
/// recorded multiset: no sample is lost, none is duplicated.
fn sort_samples<T: Stat>(input: Vec<T>) -> (out: Vec<T>)
    ensures
        sorted(out@),
        out@.to_multiset() == input@.to_multiset(),
{
    let n = input.len();
    let mut out: Vec<T> = Vec::new();
    let mut i: usize = 0;
    while i < n
        invariant
            i <= n,
            n == input@.len(),
            sorted(out@),
            out@.to_multiset() == input@.take(i as int).to_multiset(),
        decreases n - i,
    {
        let x = input[i];
        let mut k: usize = 0;
        while k < out.len() && out[k].le(&x)
            invariant
                k <= out@.len(),
                forall|a: int| 0 <= a < k ==> #[trigger] out@[a].stat_val() <= x.stat_val(),
            decreases out@.len() - k,
        {
            k += 1;
        }
        proof {
            assert(input@.take(i + 1) =~= input@.take(i as int).push(input@[i as int]));
        }
        out.insert(k, x);
        i += 1;
    }
    proof {
        assert(input@.take(n as int) =~= input@);
    }
    out
}

impl<T: Stat> Dataset<T> {
    /// The display identifier copied from the source trend.
    pub closed spec fn spec_name(&self) -> Seq<char> {
        self.name@
    }

    /// The sorted sample snapshot.
    pub closed spec fn spec_samples(&self) -> Seq<T> {
        self.samples@
    }

    /// The mean stored at construction time.
    pub closed spec fn spec_mean(&self) -> T {
        self.mean
    }

    /// Well-formedness: the snapshot is sorted and carries the arithmetic
    /// mean of exactly the samples it holds.
    pub open spec fn wf(&self) -> bool {
        &&& sorted(self.spec_samples())
        &&& self.spec_mean().stat_val() == mean_val(self.spec_samples())
    }

    /// Build the snapshot: sort the recorded samples ascending and compute
    /// their mean once, over the same fixed sequence.
    pub(crate) fn from_parts(name: String, samples: Vec<T>) -> (d: Dataset<T>)
        requires
            sum_vals(samples@) <= T::max_val(),
        ensures
            d.wf(),
            d.spec_name() == name@,
            d.spec_samples().to_multiset() == samples@.to_multiset(),
    {
        let ghost orig = samples@;
        let sorted_samples = sort_samples(samples);
        proof {
            lemma_sum_vals_permutation(sorted_samples@, orig);
        }
        let mean_value = mean(&sorted_samples);
        Dataset { name, samples: sorted_samples, mean: mean_value }
    }

    /// The name, for reporting.
    pub fn name(&self) -> (r: &String)
        ensures
            r@ == self.spec_name(),
    {
        &self.name
    }

    /// The smallest recorded sample: the first element of the sorted
    /// snapshot, or the zero value if nothing was recorded.
    pub fn min(&self) -> (r: T)
        ensures
            self.spec_samples().len() == 0 ==> r.stat_val() == 0,
            self.spec_samples().len() > 0 ==> r == self.spec_samples()[0],
    {
        if self.samples.len() == 0 {
            T::zero()
        } else {
            self.samples[0]
        }
    }

    /// The largest recorded sample: the last element of the sorted snapshot,
    /// or the zero value if nothing was recorded.
    pub fn max(&self) -> (r: T)
        ensures
            self.spec_samples().len() == 0 ==> r.stat_val() == 0,
            self.spec_samples().len() > 0 ==> r == self.spec_samples()[self.spec_samples().len()
                - 1],
    {
        if self.samples.len() == 0 {
            T::zero()
        } else {
            self.samples[self.samples.len() - 1]
        }
    }

    /// The mean precomputed at construction time.
    pub fn mean(&self) -> (r: T)
        ensures
            r == self.spec_mean(),
    {
        self.mean
    }

    /// The upper median: the element at index `count / 2` of the sorted
    /// snapshot, or the zero value if nothing was recorded.
    pub fn median(&self) -> (r: T)
        ensures
            self.spec_samples().len() == 0 ==> r.stat_val() == 0,
            self.spec_samples().len() > 0 ==> r == self.spec_samples()[self.spec_samples().len() as int
                / 2],
    {
        let n = self.samples.len();
        if n == 0 {
            T::zero()
        } else {
            self.samples[n / 2]
        }
    }

    /// The percentile at rational position `num / den` of the unit interval:
    /// the continuous rank `num / den * (count - 1)` is split into its floor
    /// index and fractional remainder, and the samples at the floor and
    /// ceiling indices are linearly interpolated by the remainder. An empty
    /// snapshot answers with the zero value.
    pub fn percentile(&self, num: u64, den: u64) -> (r: T)
        requires
            0 < den,
            num <= den,
            self.wf(),
        ensures
            self.spec_samples().len() == 0 ==> r.stat_val() == 0,
            self.spec_samples().len() > 0 ==> r.stat_val() == percentile_val(
                self.spec_samples(),
                num as int,
                den as int,
            ),
    {
        let n = self.samples.len();
        if n == 0 {
            return T::zero();
        }
        proof {
            assert((num as int) * ((n - 1) as int) <= (u64::MAX as int) * (u64::MAX as int))
                by (nonlinear_arith)
                requires
                    0 <= num <= u64::MAX as int,
                    0 <= (n - 1) as int <= u64::MAX as int,
            ;
            assert((u64::MAX as int) * (u64::MAX as int) < u128::MAX as int) by (nonlinear_arith);
        }
        let total: u128 = num as u128 * ((n - 1) as u128);
        let ghost t = total as int;
        let ghost de = den as int;
        proof {
            assert(t <= de * ((n - 1) as int)) by (nonlinear_arith)
                requires
                    t == (num as int) * ((n - 1) as int),
                    0 <= num <= de,
                    0 <= (n - 1) as int,
            ;
            vstd::arithmetic::div_mod::lemma_div_is_ordered(t, de * ((n - 1) as int), de);
            vstd::arithmetic::div_mod::lemma_div_multiples_vanish((n - 1) as int, de);
        }
        let p0w: u128 = total / den as u128;
        let remw: u128 = total % den as u128;
        let p0: usize = p0w as usize;
        let rem: u64 = remw as u64;
        proof {
            vstd::arithmetic::div_mod::lemma_fundamental_div_mod(t, de);
            if rem > 0 && p0 == n - 1 {
                assert(t == de * ((n - 1) as int) + rem) by (nonlinear_arith)
                    requires
                        t == de * (p0 as int) + rem as int,
                        p0 == n - 1,
                ;
                assert(false);
            }
        }
        let p1: usize = if rem > 0 {
            p0 + 1
        } else {
            p0
        };
        let a = self.samples[p0];
        let b = self.samples[p1];
        a.lerp(b, rem, den)
    }
}

/// Floor division respects the rational order: `a / den1 <= b / den2`
/// whenever `a * den2 <= b * den1`.
proof fn lemma_div_rational_ordered(a: int, b: int, den1: int, den2: int)
    requires
        0 < den1,
        0 < den2,
        0 <= a,
        a * den2 <= b * den1,
    ensures
        a / den1 <= b / den2,
{
    let q = a / den1;
    vstd::arithmetic::div_mod::lemma_fundamental_div_mod(a, den1);
    vstd::arithmetic::div_mod::lemma_mod_bound(a, den1);
    assert(q * den2 <= b) by (nonlinear_arith)
        requires
            a == den1 * q + a % den1,
            0 <= a % den1,
            a * den2 <= b * den1,
            0 < den1,
            0 < den2,
    ;
    vstd::arithmetic::div_mod::lemma_div_multiples_vanish(q, den2);
    vstd::arithmetic::div_mod::lemma_div_is_ordered(den2 * q, b, den2);
}

/// The continuous rank of the fraction `num / den` on `m + 1` sorted
/// samples: its floor index stays within the snapshot, and its fractional
/// remainder is only ever positive strictly below the last index.
proof fn lemma_rank_bounds(num: int, den: int, m: int)
    requires
        0 < den,
        0 <= num <= den,
        0 <= m,
    ensures
        0 <= (num * m) / den <= m,
        0 <= (num * m) % den < den,
        (num * m) % den > 0 ==> (num * m) / den < m,
{
    let t = num * m;
    assert(0 <= t) by (nonlinear_arith)
        requires
            0 <= num,
            0 <= m,
            t == num * m,
    ;
    vstd::arithmetic::div_mod::lemma_div_pos_is_pos(t, den);
    vstd::arithmetic::div_mod::lemma_mod_bound(t, den);
    assert(t <= den * m) by (nonlinear_arith)
        requires
            num <= den,
            0 <= m,
            t == num * m,
    ;
    vstd::arithmetic::div_mod::lemma_div_is_ordered(t, den * m, den);
    vstd::arithmetic::div_mod::lemma_div_multiples_vanish(m, den);
    if t % den > 0 && t / den == m {
        vstd::arithmetic::div_mod::lemma_fundamental_div_mod(t, den);
        assert(false) by (nonlinear_arith)
            requires
                t == den * m + t % den,
                t % den > 0,
                t <= den * m,
        ;
    }
}

/// Linear interpolation never leaves the interval between its endpoints.
proof fn lemma_interp_bounds(lo: int, hi: int, rem: int, den: int)
    requires
        lo <= hi,
        0 <= rem <= den,
        0 < den,
    ensures
        lo <= lo + (hi - lo) * rem / den <= hi,
{
    let d = hi - lo;
    assert(0 <= d * rem) by (nonlinear_arith)
        requires
            0 <= d,
            0 <= rem,
    ;
    vstd::arithmetic::div_mod::lemma_div_pos_is_pos(d * rem, den);
    assert(d * rem <= den * d) by (nonlinear_arith)
        requires
            rem <= den,
            0 <= d,
    ;
    vstd::arithmetic::div_mod::lemma_div_is_ordered(d * rem, den * d, den);
    vstd::arithmetic::div_mod::lemma_div_multiples_vanish(d, den);
}

/// The value the percentile query must return at rational position
/// `num / den` on a non-empty sorted snapshot.
pub open spec fn percentile_val<T: Stat>(s: Seq<T>, num: int, den: int) -> int
    recommends
        0 < den,
        0 <= num <= den,
        0 < s.len(),
{
    let total = num * (s.len() - 1);
    let p0 = total / den;
    let rem = total % den;
    let p1 = if rem > 0 {
        p0 + 1
    } else {
        p0
    };
    s[p0].stat_val() + (s[p1].stat_val() - s[p0].stat_val()) * rem / den
}

/// On any non-empty well-formed dataset the order statistics are ordered:
/// the minimum is no larger than the median and the mean, and the median
/// and the mean are no larger than the maximum.
pub proof fn lemma_order_statistics<T: Stat>(d: Dataset<T>)
    requires
        d.wf(),
        d.spec_samples().len() > 0,
    ensures
        d.spec_samples()[0].stat_val() <= d.spec_samples()[d.spec_samples().len() as int
            / 2].stat_val(),
        d.spec_samples()[d.spec_samples().len() as int / 2].stat_val() <= d.spec_samples()[
        d.spec_samples().len() - 1].stat_val(),
        d.spec_samples()[0].stat_val() <= d.spec_mean().stat_val(),
        d.spec_mean().stat_val() <= d.spec_samples()[d.spec_samples().len() - 1].stat_val(),
{
    let s = d.spec_samples();
    let n = s.len() as int;
    let lo = s[0].stat_val();
    let hi = s[n - 1].stat_val();
    assert forall|k: int| 0 <= k < n implies lo <= #[trigger] s[k].stat_val() <= hi by {
        assert(s[0].stat_val() <= s[k].stat_val());
        assert(s[k].stat_val() <= s[n - 1].stat_val());
    }
    lemma_sum_vals_bounds(s, lo, hi);
    vstd::arithmetic::div_mod::lemma_div_is_ordered(n * lo, sum_vals(s), n);
    vstd::arithmetic::div_mod::lemma_div_is_ordered(sum_vals(s), n * hi, n);
    vstd::arithmetic::div_mod::lemma_div_multiples_vanish(lo, n);
    vstd::arithmetic::div_mod::lemma_div_multiples_vanish(hi, n);
}

/// The percentile at fraction zero is the minimum, and the percentile at
/// the whole fraction is the maximum, on any non-empty well-formed dataset.
pub proof fn lemma_percentile_extremes<T: Stat>(d: Dataset<T>, den: int)
    requires
        d.wf(),
        d.spec_samples().len() > 0,
        0 < den,
    ensures
        percentile_val(d.spec_samples(), 0, den) == d.spec_samples()[0].stat_val(),
        percentile_val(d.spec_samples(), den, den) == d.spec_samples()[d.spec_samples().len()
            - 1].stat_val(),
{
    let s = d.spec_samples();
    let m = s.len() - 1;
    vstd::arithmetic::div_mod::lemma_basic_div(0, den);
    vstd::arithmetic::div_mod::lemma_mod_bound(0, den);
    vstd::arithmetic::div_mod::lemma_fundamental_div_mod(0, den);
    assert(0 * m == 0) by (nonlinear_arith);
    assert((0int) % den == 0);
    assert(percentile_val(s, 0, den) == s[0].stat_val());
    let t = den * m;
    vstd::arithmetic::div_mod::lemma_div_multiples_vanish(m, den);
    assert(den * m % den == 0) by {
        vstd::arithmetic::div_mod::lemma_fundamental_div_mod(t, den);
    }
    assert(m * den == den * m) by (nonlinear_arith);
    assert(percentile_val(s, den, den) == s[m].stat_val());
}

/// The percentile query is monotonically non-decreasing in its fraction:
/// on one fixed non-empty well-formed dataset, a position no greater than
/// another as a rational yields a value no greater.
pub proof fn lemma_percentile_monotone<T: Stat>(
    d: Dataset<T>,
    num1: int,
    den1: int,
    num2: int,
    den2: int,
)
    requires
        d.wf(),
        d.spec_samples().len() > 0,
        0 < den1,
        0 <= num1 <= den1,
        0 < den2,
        0 <= num2 <= den2,
        num1 * den2 <= num2 * den1,
    ensures
        percentile_val(d.spec_samples(), num1, den1) <= percentile_val(
            d.spec_samples(),
            num2,
            den2,
        ),
{
    let s = d.spec_samples();
    let m = s.len() - 1;
    let t1 = num1 * m;
    let t2 = num2 * m;
    assert(t1 * den2 <= t2 * den1 && 0 <= t1 && 0 <= t2) by (nonlinear_arith)
        requires
            num1 * den2 <= num2 * den1,
            0 <= m,
            0 <= num1,
            0 <= num2,
            t1 == num1 * m,
            t2 == num2 * m,
    ;
    let q1 = t1 / den1;
    let r1 = t1 % den1;
    let q2 = t2 / den2;
    let r2 = t2 % den2;
    lemma_rank_bounds(num1, den1, m);
    lemma_rank_bounds(num2, den2, m);
    lemma_div_rational_ordered(t1, t2, den1, den2);
    let p11 = if r1 > 0 {
        q1 + 1
    } else {
        q1
    };
    let p12 = if r2 > 0 {
        q2 + 1
    } else {
        q2
    };
    assert(s[q1].stat_val() <= s[p11].stat_val());
    assert(s[q2].stat_val() <= s[p12].stat_val());
    lemma_interp_bounds(s[q1].stat_val(), s[p11].stat_val(), r1, den1);
    lemma_interp_bounds(s[q2].stat_val(), s[p12].stat_val(), r2, den2);
    if q1 < q2 {
        assert(s[p11].stat_val() <= s[q2].stat_val());
    } else {
        vstd::arithmetic::div_mod::lemma_fundamental_div_mod(t1, den1);
        vstd::arithmetic::div_mod::lemma_fundamental_div_mod(t2, den2);
        if r2 == 0 {
            assert(r1 * den2 <= 0) by (nonlinear_arith)
                requires
                    t1 == den1 * q1 + r1,
                    t2 == den2 * q2 + r2,
                    r2 == 0,
                    q1 == q2,
                    t1 * den2 <= t2 * den1,
                    0 < den1,
                    0 < den2,
            ;
            assert(r1 == 0) by (nonlinear_arith)
                requires
                    r1 * den2 <= 0,
                    0 < den2,
                    0 <= r1,
            ;
        } else if r1 == 0 {
        } else {
            assert(r1 * den2 <= r2 * den1) by (nonlinear_arith)
                requires
                    t1 == den1 * q1 + r1,
                    t2 == den2 * q2 + r2,
                    q1 == q2,
                    t1 * den2 <= t2 * den1,
            ;
            let dd = s[q1 + 1].stat_val() - s[q1].stat_val();
            assert(0 <= dd);
            assert(dd * r1 * den2 <= dd * r2 * den1 && 0 <= dd * r1) by (nonlinear_arith)
                requires
                    r1 * den2 <= r2 * den1,
                    0 <= dd,
                    0 <= r1,
            ;
            lemma_div_rational_ordered(dd * r1, dd * r2, den1, den2);
        }
    }
}

/// A dataset built from zero samples answers every query with the zero
/// value, the sample type's default: its stored mean is zero, as are the
/// answers the query contracts already give for an empty snapshot.
pub proof fn lemma_empty_defaults<T: Stat>(d: Dataset<T>)
    requires
        d.wf(),
        d.spec_samples().len() == 0,
    ensures
        d.spec_mean().stat_val() == 0,
{
}

} // verus!
