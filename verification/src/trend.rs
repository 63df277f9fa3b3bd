use std::sync::Arc;

use vstd::prelude::*;

use crate::dataset::Dataset;
use crate::error::Error;
use crate::stat::{sum_vals, Stat};

verus! {

broadcast use vstd::seq_lib::group_to_multiset_ensures;

/// A named, writable collector of samples that fans each recorded sample
/// out to the other trends its `also` list points at. A fan-out edge is a
/// stable identifier — an index into a pool of linked trends owned by the
/// caller — so edges carry no lifetime coupling to the trends they name.
pub struct Trend<T> {
    name: String,
    samples: Vec<T>,
    also: Vec<usize>,
}

/// How many edges of `also` point at the pool slot `target`: the number of
/// copies of a sample that one recording call mirrors into that slot.
pub open spec fn edge_count(also: Seq<usize>, target: int) -> nat
    decreases also.len(),
{
    if also.len() == 0 {
        0
    } else {
        edge_count(also.drop_last(), target) + (if also.last() as int == target {
            1nat
        } else {
            0nat
        })
    }
}

/// Every fan-out edge stays inside a pool of `n` linked trends.
pub open spec fn edges_ok(also: Seq<usize>, n: int) -> bool {
    forall|i: int| 0 <= i < also.len() ==> (#[trigger] also[i]) < n
}

/// `b` is the first fan-out edge pointing outside a pool of `n` trends.
pub open spec fn first_invalid_edge(also: Seq<usize>, n: int, b: int) -> bool {
    &&& 0 <= b < also.len()
    &&& also[b] >= n
    &&& edges_ok(also.take(b), n)
}

/// After a recording call that applied the fan-out edges `applied`, every
/// pool slot holds its old samples followed by one copy of `value` for
/// each applied edge pointing at it.
pub open spec fn fanned_out<T>(
    pre: Seq<Trend<T>>,
    post: Seq<Trend<T>>,
    applied: Seq<usize>,
    value: T,
) -> bool {
    &&& post.len() == pre.len()
    &&& forall|j: int|
        0 <= j < pre.len() ==> #[trigger] post[j].spec_samples() == pre[j].spec_samples()
            + Seq::new(edge_count(applied, j), |k: int| value)
}

/// Recording changes no name and no fan-out list anywhere in the pool.
pub open spec fn metadata_kept<T>(pre: Seq<Trend<T>>, post: Seq<Trend<T>>) -> bool {
    &&& post.len() == pre.len()
    &&& forall|j: int|
        0 <= j < pre.len() ==> #[trigger] post[j].spec_name() == pre[j].spec_name()
            && post[j].spec_also() == pre[j].spec_also()
}

impl<T> Trend<T> {
    /// The display identifier, set at construction, immutable.
    pub closed spec fn spec_name(&self) -> Seq<char> {
        self.name@
    }

    /// The samples recorded so far, in append order; only their multiset
    /// is semantically meaningful.
    pub closed spec fn spec_samples(&self) -> Seq<T> {
        self.samples@
    }

    /// The fan-out edges registered so far, in registration order.
    pub closed spec fn spec_also(&self) -> Seq<usize> {
        self.also@
    }

    /// Create an empty trend with the given display name.
    pub fn new(name: String) -> (t: Trend<T>)
        ensures
            t.spec_name() == name@,
            t.spec_samples() == Seq::<T>::empty(),
            t.spec_also() == Seq::<usize>::empty(),
    {
        Trend { name, samples: Vec::new(), also: Vec::new() }
    }

    /// Create a trend wrapped in an `Arc`, for callers that share one
    /// collector across tasks.
    pub fn arc(name: String) -> (a: Arc<Trend<T>>)
        ensures
            (*a).spec_name() == name@,
            (*a).spec_samples() == Seq::<T>::empty(),
            (*a).spec_also() == Seq::<usize>::empty(),
    {
        Arc::new(Trend::new(name))
    }

    /// Register a fan-out edge so that future recordings on this trend are
    /// mirrored into the pool slot `other` as well. Samples already
    /// recorded are unaffected, and the edge is not validated here: an
    /// edge pointing outside the pool surfaces as a recording fault.
    pub fn also(self, other: usize) -> (t: Self)
        ensures
            t.spec_name() == self.spec_name(),
            t.spec_samples() == self.spec_samples(),
            t.spec_also() == self.spec_also().push(other),
    {
        let mut t = self;
        t.also.push(other);
        t
    }
}

impl<T: Copy> Trend<T> {
    /// Record one sample: append `value` to every pool slot the `also`
    /// list points at, in list order, then to this trend itself. When an
    /// edge points outside `others`, recording stops at the first such
    /// edge with a concurrency fault; the fan-out appends already made
    /// stay in place and this trend's own samples are unchanged.
    pub fn add(&mut self, value: T, others: &mut Vec<Trend<T>>) -> (r: Result<(), Error>)
        ensures
            metadata_kept(old(others)@, final(others)@),
            final(self).spec_name() == old(self).spec_name(),
            final(self).spec_also() == old(self).spec_also(),
            match r {
                Ok(_) => {
                    &&& edges_ok(old(self).spec_also(), old(others)@.len() as int)
                    &&& final(self).spec_samples() == old(self).spec_samples().push(value)
                    &&& fanned_out(old(others)@, final(others)@, old(self).spec_also(), value)
                },
                Err(e) => {
                    &&& !edges_ok(old(self).spec_also(), old(others)@.len() as int)
                    &&& final(self).spec_samples() == old(self).spec_samples()
                    &&& e matches Error::Concurency(_)
                    &&& exists|b: int|
                        #[trigger] first_invalid_edge(
                            old(self).spec_also(),
                            old(others)@.len() as int,
                            b,
                        ) && fanned_out(
                            old(others)@,
                            final(others)@,
                            old(self).spec_also().take(b),
                            value,
                        )
                },
            },
    {
        let n = others.len();
        let m = self.also.len();
        let mut i: usize = 0;
        while i < m
            invariant
                i <= m,
                m == self.also@.len(),
                n == others@.len(),
                metadata_kept(old(others)@, others@),
                edges_ok(self.also@.take(i as int), n as int),
                fanned_out(old(others)@, others@, self.also@.take(i as int), value),
            decreases m - i,
        {
            let e = self.also[i];
            if e >= n {
                proof {
                    assert(first_invalid_edge(self.also@, n as int, i as int));
                }
                return Err(
                    Error::Concurency("a linked trend's sample guard is unusable".to_string()),
                );
            }
            let ghost snap = others@;
            others[e].samples.push(value);
            proof {
                assert(others@.len() == snap.len());
                assert(others@[e as int].spec_samples() == snap[e as int].spec_samples().push(
                    value,
                ));
                assert(others@[e as int].spec_name() == snap[e as int].spec_name());
                assert(others@[e as int].spec_also() == snap[e as int].spec_also());
                assert(forall|j: int| 0 <= j < n && j != e ==> others@[j] == snap[j]);
                let ghost prev = self.also@.take(i as int);
                let ghost cur = self.also@.take(i as int + 1);
                assert(cur.drop_last() =~= prev);
                assert(cur.last() == self.also@[i as int]);
                assert forall|j: int| 0 <= j < n implies #[trigger] others@[j].spec_samples()
                    == old(others)@[j].spec_samples() + Seq::new(
                    edge_count(cur, j),
                    |k: int| value,
                ) by {
                    if j == e as int {
                        assert((old(others)@[j].spec_samples() + Seq::new(
                            edge_count(prev, j),
                            |k: int| value,
                        )).push(value) =~= old(others)@[j].spec_samples() + Seq::new(
                            edge_count(prev, j) + 1,
                            |k: int| value,
                        ));
                    }
                }
            }
            i += 1;
        }
        proof {
            assert(self.also@.take(m as int) =~= self.also@);
        }
        self.samples.push(value);
        Ok(())
    }
}

impl<T: Stat> Trend<T> {
    /// Consume the trend and produce its immutable snapshot: the recorded
    /// samples sorted ascending — exactly the recorded multiset, no loss
    /// and no duplication — with the mean computed once over them.
    pub fn dataset(self) -> (d: Dataset<T>)
        requires
            sum_vals(self.spec_samples()) <= T::max_val(),
        ensures
            d.wf(),
            d.spec_name() == self.spec_name(),
            d.spec_samples().to_multiset() == self.spec_samples().to_multiset(),
    {
        Dataset::from_parts(self.name, self.samples)
    }
}

/// An also-list that points at `target` mirrors at least one copy there.
pub proof fn lemma_edge_count_contains(also: Seq<usize>, target: int)
    requires
        exists|i: int| 0 <= i < also.len() && also[i] == target,
    ensures
        edge_count(also, target) >= 1,
    decreases also.len(),
{
    let i = choose|i: int| 0 <= i < also.len() && also[i] == target;
    if i == also.len() - 1 {
    } else {
        assert(also.drop_last()[i] == also[i]);
        lemma_edge_count_contains(also.drop_last(), target);
    }
}

/// Appending `c` copies of `value` raises its multiset count by exactly `c`.
proof fn lemma_append_copies_count<T>(s: Seq<T>, value: T, c: nat)
    ensures
        (s + Seq::new(c, |k: int| value)).to_multiset().count(value) == s.to_multiset().count(
            value,
        ) + c,
    decreases c,
{
    if c == 0 {
        assert(s + Seq::new(0, |k: int| value) =~= s);
    } else {
        lemma_append_copies_count(s, value, (c - 1) as nat);
        assert(s + Seq::new(c, |k: int| value) =~= (s + Seq::new(
            (c - 1) as nat,
            |k: int| value,
        )).push(value));
    }
}

/// Fan-out correctness: a successful recording of `value` on a trend whose
/// also-list points at pool slot `b` leaves at least one more copy of
/// `value` in slot `b`'s samples — and the recording trend's own samples
/// gain one too, by the recording contract — so the value stands in the
/// multiset of any dataset later built from either trend.
pub proof fn lemma_fan_out_records<T>(
    pre: Seq<Trend<T>>,
    post: Seq<Trend<T>>,
    also: Seq<usize>,
    value: T,
    b: int,
)
    requires
        fanned_out(pre, post, also, value),
        0 <= b < pre.len(),
        exists|i: int| 0 <= i < also.len() && also[i] == b,
    ensures
        post[b].spec_samples().to_multiset().count(value) >= pre[
            b].spec_samples().to_multiset().count(value) + 1,
    decreases also.len(),
{
    lemma_edge_count_contains(also, b);
    lemma_append_copies_count(pre[b].spec_samples(), value, edge_count(also, b));
}

/// No loss and no duplication: recording a batch of samples one call at a
/// time appends exactly that batch, so the final multiset is the initial
/// one plus the multiset of every recorded value.
pub proof fn lemma_recorded_multiset<T>(base: Seq<T>, recorded: Seq<T>)
    ensures
        (base + recorded).to_multiset() == base.to_multiset().add(recorded.to_multiset()),
    decreases recorded.len(),
{
    if recorded.len() == 0 {
        assert(base + recorded =~= base);
        assert(base.to_multiset().add(recorded.to_multiset()) =~= base.to_multiset());
    } else {
        let x = recorded.last();
        lemma_recorded_multiset(base, recorded.drop_last());
        assert(base + recorded =~= (base + recorded.drop_last()).push(x));
        assert(recorded.drop_last().push(x) =~= recorded);
        assert(base.to_multiset().add(recorded.drop_last().to_multiset()).insert(x)
            =~= base.to_multiset().add(recorded.to_multiset()));
    }
}

} // verus!
