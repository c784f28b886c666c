//! Per-operation GPU timing samples with ring-buffered averaging.
//!
//! The profiler tracks a fixed number of operations.  Each frame the GPU
//! writes one begin and one end timestamp per operation into a query set;
//! once read back, the elapsed ticks of each operation are pushed into a
//! bounded ring that keeps only the most recent samples, and the rolling
//! average is the arithmetic mean of the samples currently held.  The ring
//! itself is an outside bounded deque; what it holds is named by
//! `ring_contents` and every method used is specified against that name.

use vstd::prelude::*;

use bounded_vec_deque::BoundedVecDeque;

verus! {

#[verifier::external_type_specification]
#[verifier::external_body]
#[verifier::reject_recursive_types(T)]
pub struct ExBoundedVecDeque<T>(BoundedVecDeque<T>);

/// What a bounded deque holds, front to back.
pub uninterp spec fn ring_contents(q: BoundedVecDeque<u64>) -> Seq<u64>;

/// The length limit a bounded deque was created with.
pub uninterp spec fn ring_limit(q: BoundedVecDeque<u64>) -> nat;

/// Relies on BoundedVecDeque::with_capacity: a new deque is empty and
/// carries the given length limit.
#[verifier::external_body]
fn ring_with_capacity(cap: usize) -> (r: BoundedVecDeque<u64>)
    ensures
        ring_contents(r) == Seq::<u64>::empty(),
        ring_limit(r) == cap as nat,
{
    BoundedVecDeque::with_capacity(cap, cap)
}

/// Relies on BoundedVecDeque::push_front: the value enters at the front;
/// when the deque is at or over its limit, the back element leaves and is
/// returned; a deque with limit zero rejects the value outright.
#[verifier::external_body]
fn ring_push_front(q: &mut BoundedVecDeque<u64>, v: u64) -> (evicted: Option<u64>)
    ensures
        ring_limit(*final (q)) == ring_limit(*old(q)),
        ring_limit(*old(q)) == 0 ==> ring_contents(*final (q)) == ring_contents(*old(q))
            && evicted == Some(v),
        ring_limit(*old(q)) > 0 && ring_contents(*old(q)).len() < ring_limit(*old(q))
            ==> ring_contents(*final (q)) == seq![v] + ring_contents(*old(q)) && evicted is None,
        ring_limit(*old(q)) > 0 && ring_contents(*old(q)).len() >= ring_limit(*old(q))
            ==> ring_contents(*final (q)) == seq![v] + ring_contents(*old(q)).drop_last()
            && evicted == Some(ring_contents(*old(q)).last()),
{
    q.push_front(v)
}

/// Relies on BoundedVecDeque::iter: the elements in front-to-back order.
#[verifier::external_body]
fn ring_items(q: &BoundedVecDeque<u64>) -> (r: Vec<u64>)
    ensures
        r@ == ring_contents(*q),
{
    q.iter().copied().collect()
}

/// The largest number of timestamp queries one query set may hold; mirrors
/// the backend's fixed query-set limit.
pub const MAX_QUERY_SET_QUERIES: u32 = 4096;

/// How a ring of samples changes when one sample arrives: the new sample
/// enters at the front, and the oldest sample leaves once the ring is full.
pub open spec fn push_sample(s: Seq<u64>, limit: int, v: u64) -> Seq<u64>
    recommends
        limit > 0,
{
    if s.len() < limit {
        seq![v] + s
    } else {
        seq![v] + s.drop_last()
    }
}

/// Repeated arrivals, oldest first: `vs[0]` is pushed first.
pub open spec fn push_all(s: Seq<u64>, limit: int, vs: Seq<u64>) -> Seq<u64>
    decreases vs.len(),
{
    if vs.len() == 0 {
        s
    } else {
        push_sample(push_all(s, limit, vs.drop_last()), limit, vs.last())
    }
}

/// Pushing any series of samples into an empty ring of positive capacity
/// retains exactly the most recent `limit` samples, newest at the front:
/// the oldest samples are the ones evicted.
pub proof fn lemma_ring_retains_recent(vs: Seq<u64>, limit: int)
    requires
        limit > 0,
    ensures
        push_all(Seq::<u64>::empty(), limit, vs).len() == if vs.len() < limit {
            vs.len() as int
        } else {
            limit
        },
        forall|i: int|
            0 <= i < push_all(Seq::<u64>::empty(), limit, vs).len() ==> push_all(
                Seq::<u64>::empty(),
                limit,
                vs,
            )[i] == vs[vs.len() - 1 - i],
    decreases vs.len(),
{
    if vs.len() > 0 {
        lemma_ring_retains_recent(vs.drop_last(), limit);
    }
}

/// The sum of a sample sequence.
pub open spec fn seq_sum(s: Seq<u64>) -> int
    decreases s.len(),
{
    if s.len() == 0 {
        0
    } else {
        seq_sum(s.drop_last()) + s.last()
    }
}

/// A sample sequence sums to at most its length times the largest sample
/// value.
proof fn lemma_seq_sum_bounds(s: Seq<u64>)
    ensures
        0 <= seq_sum(s) <= s.len() * (u64::MAX as int),
    decreases s.len(),
{
    if s.len() == 0 {
    } else {
        lemma_seq_sum_bounds(s.drop_last());
        assert((s.len() - 1) * (u64::MAX as int) + (u64::MAX as int) == s.len() * (
        u64::MAX as int)) by (nonlinear_arith);
    }
}

/// Ring-buffered elapsed-time samples for a fixed set of tracked
/// operations.  Owns no GPU object: the query set, the resolve buffers and
/// the readback live with the device; this type accounts for the sample
/// windows and the query indices they are fed from.
pub struct Profiler {
    operations: usize,
    window: usize,
    samples: Vec<BoundedVecDeque<u64>>,
}

impl Profiler {
    /// Number of tracked operations.
    pub closed spec fn spec_operations(self) -> int {
        self.operations as int
    }

    /// Number of samples each ring retains.
    pub closed spec fn spec_window(self) -> int {
        self.window as int
    }

    /// The samples currently held, per operation, newest first.
    pub closed spec fn sample_seqs(self) -> Seq<Seq<u64>> {
        Seq::new(self.samples@.len(), |i: int| ring_contents(self.samples@[i]))
    }

    /// Every ring was created with the window as its limit.
    pub closed spec fn limits_ok(self) -> bool {
        forall|i: int|
            0 <= i < self.samples@.len() ==> ring_limit(#[trigger] self.samples@[i])
                == self.spec_window()
    }

    pub open spec fn wf(self) -> bool {
        &&& self.sample_seqs().len() == self.spec_operations()
        &&& 2 * self.spec_operations() < MAX_QUERY_SET_QUERIES as int
        &&& self.spec_window() > 0
        &&& self.limits_ok()
        &&& forall|i: int|
            0 <= i < self.sample_seqs().len() ==> (#[trigger] self.sample_seqs()[i]).len()
                <= self.spec_window()
    }

    /// Builds a profiler for `operations` tracked operations, averaging
    /// over a window of `window` samples each.  Two timestamp queries per
    /// operation must fit the backend's query-set limit.
    pub fn new(operations: usize, window: usize) -> (r: Profiler)
        requires
            2 * operations < MAX_QUERY_SET_QUERIES,
            window >= 1,
        ensures
            r.wf(),
            r.spec_operations() == operations,
            r.spec_window() == window,
            forall|i: int|
                0 <= i < operations ==> #[trigger] r.sample_seqs()[i] == Seq::<u64>::empty(),
    {
        let mut samples: Vec<BoundedVecDeque<u64>> = Vec::new();
        let mut i: usize = 0;
        while i < operations
            invariant
                i <= operations,
                window >= 1,
                samples@.len() == i,
                forall|j: int|
                    0 <= j < i ==> ring_limit(#[trigger] samples@[j]) == window as int,
                forall|j: int|
                    0 <= j < i ==> ring_contents(#[trigger] samples@[j]) == Seq::<u64>::empty(),
            decreases operations - i,
        {
            samples.push(ring_with_capacity(window));
            i = i + 1;
        }
        Profiler { operations, window, samples }
    }

    /// The begin and end timestamp query indices of operation `idx`: two
    /// consecutive slots, in range for the allocated query set.
    pub fn timestamp_write_indices(&self, idx: u32) -> (r: (u32, u32))
        requires
            self.wf(),
            idx < self.spec_operations(),
        ensures
            r.0 == 2 * idx,
            r.1 == 2 * idx + 1,
            r.1 < 2 * self.spec_operations(),
    {
        (2 * idx, 2 * idx + 1)
    }

    /// Total number of timestamp query slots the query set needs.
    pub fn query_count(&self) -> (r: u32)
        requires
            self.wf(),
        ensures
            r == 2 * self.spec_operations(),
            r < MAX_QUERY_SET_QUERIES,
    {
        2 * (self.operations as u32)
    }

    /// Number of tracked operations.
    pub fn operations(&self) -> (r: usize)
        ensures
            r == self.spec_operations(),
    {
        self.operations
    }

    /// Feeds one frame of resolved timestamps: `data` holds a begin and an
    /// end tick per operation, begin first, end no earlier than begin.  The
    /// elapsed ticks of each operation enter its ring, evicting the oldest
    /// sample once the window is full.
    pub fn process_results(&mut self, data: &Vec<u64>)
        requires
            old(self).wf(),
            data@.len() == 2 * old(self).spec_operations(),
            forall|i: int|
                0 <= i < old(self).spec_operations() ==> #[trigger] data@[2 * i] <= data@[2 * i
                    + 1],
        ensures
            final (self).wf(),
            final (self).spec_operations() == old(self).spec_operations(),
            final (self).spec_window() == old(self).spec_window(),
            forall|i: int|
                0 <= i < old(self).spec_operations() ==> #[trigger] final (self).sample_seqs()[i]
                    == push_sample(
                    old(self).sample_seqs()[i],
                    old(self).spec_window(),
                    (data@[2 * i + 1] - data@[2 * i]) as u64,
                ),
    {
        let ops = self.operations;
        proof {
            assert forall|j: int| 0 <= j < ops implies ring_contents(
                #[trigger] self.samples@[j],
            ).len() <= old(self).spec_window() by {
                assert(self.sample_seqs()[j] == ring_contents(self.samples@[j]));
            }
        }
        let mut i: usize = 0;
        while i < ops
            invariant
                old(self).wf(),
                i <= ops,
                ops == old(self).spec_operations(),
                data@.len() == 2 * ops,
                forall|j: int| 0 <= j < ops ==> #[trigger] data@[2 * j] <= data@[2 * j + 1],
                self.operations == old(self).operations,
                self.window == old(self).window,
                self.samples@.len() == old(self).samples@.len(),
                forall|j: int|
                    i <= j < ops ==> #[trigger] self.samples@[j] == old(self).samples@[j],
                forall|j: int|
                    0 <= j < ops ==> ring_limit(#[trigger] self.samples@[j])
                        == old(self).spec_window(),
                forall|j: int|
                    0 <= j < ops ==> ring_contents(#[trigger] self.samples@[j]).len()
                        <= old(self).spec_window(),
                forall|j: int|
                    0 <= j < i ==> ring_contents(#[trigger] self.samples@[j]) == push_sample(
                        ring_contents(old(self).samples@[j]),
                        old(self).spec_window(),
                        (data@[2 * j + 1] - data@[2 * j]) as u64,
                    ),
            decreases ops - i,
        {
            let start = *vstd::std_specs::vec::vec_index(data, 2 * i);
            let stop = *vstd::std_specs::vec::vec_index(data, 2 * i + 1);
            let delta = stop - start;
            let ring = vstd::std_specs::vec::vec_index_mut(&mut self.samples, i);
            ring_push_front(ring, delta);
            i = i + 1;
        }
        proof {
            assert(final (self).sample_seqs().len() == ops);
            assert forall|j: int| 0 <= j < ops implies #[trigger] self.sample_seqs()[j]
                == push_sample(
                old(self).sample_seqs()[j],
                old(self).spec_window(),
                (data@[2 * j + 1] - data@[2 * j]) as u64,
            ) by {
                assert(self.sample_seqs()[j] == ring_contents(self.samples@[j]));
                assert(old(self).sample_seqs()[j] == ring_contents(old(self).samples@[j]));
            }
        }
    }

    /// The samples currently held for operation `idx`, newest first.
    pub fn samples_of(&self, idx: usize) -> (r: Vec<u64>)
        requires
            self.wf(),
            idx < self.spec_operations(),
        ensures
            r@ == self.sample_seqs()[idx as int],
    {
        ring_items(vstd::std_specs::vec::vec_index(&self.samples, idx))
    }

    /// The arithmetic mean, rounded down, of the elapsed-tick samples held
    /// for operation `idx`.  At least one sample must have been processed.
    pub fn average_time_raw(&self, idx: usize) -> (r: u64)
        requires
            self.wf(),
            idx < self.spec_operations(),
            self.sample_seqs()[idx as int].len() > 0,
        ensures
            r == seq_sum(self.sample_seqs()[idx as int]) / (self.sample_seqs()[idx as int].len()
                as int),
    {
        let items = self.samples_of(idx);
        let ghost target = self.sample_seqs()[idx as int];
        let n = items.len();
        let mut acc: u128 = 0;
        let mut i: usize = 0;
        while i < n
            invariant
                i <= n,
                n == items@.len(),
                items@ == target,
                acc == seq_sum(items@.take(i as int)),
            decreases n - i,
        {
            proof {
                lemma_seq_sum_bounds(items@.take(i as int));
                assert((i as int) * (u64::MAX as int) + (u64::MAX as int) <= (i as int + 1) * (
                u64::MAX as int)) by (nonlinear_arith);
                assert((i as int + 1) * (u64::MAX as int) < u128::MAX) by (nonlinear_arith)
                    requires
                        0 <= i < n <= usize::MAX,
                ;
                assert(items@.take(i as int + 1).drop_last() =~= items@.take(i as int));
                assert(items@.take(i as int + 1).last() == items@[i as int]);
            }
            acc = acc + (*vstd::std_specs::vec::vec_index(&items, i) as u128);
            i = i + 1;
        }
        proof {
            assert(items@.take(n as int) =~= items@);
            lemma_seq_sum_bounds(items@);
            vstd::arithmetic::div_mod::lemma_multiply_divide_le(
                seq_sum(items@),
                n as int,
                u64::MAX as int,
            );
            assert((n as int) * (u64::MAX as int) == (u64::MAX as int) * (n as int))
                by (nonlinear_arith);
        }
        (acc / (n as u128)) as u64
    }
}

} // verus!
