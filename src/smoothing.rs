use ringbuffer::{AllocRingBuffer, RingBuffer};
use vstd::prelude::*;

verus! {

/// Largest window that a buffer may be created with.
pub const MAX_WINDOW: usize = 65536;

#[verifier::external_type_specification]
#[verifier::external_body]
#[verifier::reject_recursive_types(T)]
pub struct ExAllocRingBuffer<T>(AllocRingBuffer<T>);

/// The samples that a ring holds, oldest first.
pub uninterp spec fn ring_items(r: AllocRingBuffer<u32>) -> Seq<u32>;

/// The number of samples that a ring holds at most.
pub uninterp spec fn ring_capacity(r: AllocRingBuffer<u32>) -> nat;

/// The number of pushes that a ring has taken since it was made.
pub uninterp spec fn ring_pushes(r: AllocRingBuffer<u32>) -> nat;

/// The window after `sample` is pushed: when it is full, the oldest sample
/// leaves first.
pub open spec fn push_window(w: Seq<u32>, cap: nat, sample: u32) -> Seq<u32> {
    if w.len() >= cap {
        w.drop_first().push(sample)
    } else {
        w.push(sample)
    }
}

/// The window after each of `samples` is pushed in order onto `w`.
pub open spec fn window_after(w: Seq<u32>, cap: nat, samples: Seq<u32>) -> Seq<u32>
    decreases samples.len(),
{
    if samples.len() == 0 {
        w
    } else {
        push_window(window_after(w, cap, samples.drop_last()), cap, samples.last())
    }
}

/// The sum of the samples.
pub open spec fn sum_of(s: Seq<u32>) -> int
    decreases s.len(),
{
    if s.len() == 0 {
        0
    } else {
        sum_of(s.drop_last()) + s.last()
    }
}

/// The arithmetic mean of the samples, truncated.
pub open spec fn mean_of(s: Seq<u32>) -> int
    recommends
        s.len() > 0,
{
    sum_of(s) / (s.len() as int)
}

/// Pushing `samples` one by one onto an empty window of capacity `cap`
/// leaves exactly the last `cap` of them, in order (all of them while fewer
/// than `cap` were pushed).
pub proof fn lemma_window_keeps_latest(cap: nat, samples: Seq<u32>)
    requires
        cap > 0,
    ensures
        window_after(Seq::<u32>::empty(), cap, samples) == samples.subrange(
            if samples.len() > cap { samples.len() - cap } else { 0 },
            samples.len() as int,
        ),
    decreases samples.len(),
{
    let n = samples.len();
    if n > 0 {
        let prev = samples.drop_last();
        lemma_window_keeps_latest(cap, prev);
        let start: int = if n > cap { n - cap } else { 0 };
        let pstart: int = if prev.len() > cap { prev.len() - cap } else { 0 };
        let w = prev.subrange(pstart, prev.len() as int);
        if w.len() >= cap {
            assert(w.drop_first().push(samples.last()) =~= samples.subrange(start, n as int));
        } else {
            assert(w.push(samples.last()) =~= samples.subrange(start, n as int));
        }
    }
}

/// Warm-up: while fewer than `cap` samples have been pushed onto an empty
/// window, it holds exactly those samples, so its mean is theirs.
pub proof fn lemma_warm_up(cap: nat, samples: Seq<u32>)
    requires
        samples.len() < cap,
    ensures
        window_after(Seq::<u32>::empty(), cap, samples) == samples,
        mean_of(window_after(Seq::<u32>::empty(), cap, samples)) == mean_of(samples),
{
    lemma_window_keeps_latest(cap, samples);
    assert(samples.subrange(0, samples.len() as int) =~= samples);
}

/// Steady state: after `cap + m` pushes onto an empty window, with `m >= 1`,
/// it holds the last `cap` samples only, and its mean is theirs: the first `m`
/// samples no longer count.
pub proof fn lemma_steady_state(cap: nat, samples: Seq<u32>)
    requires
        cap > 0,
        samples.len() > cap,
    ensures
        window_after(Seq::<u32>::empty(), cap, samples)
            == samples.subrange(samples.len() - cap, samples.len() as int),
        mean_of(window_after(Seq::<u32>::empty(), cap, samples))
            == mean_of(samples.subrange(samples.len() - cap, samples.len() as int)),
{
    lemma_window_keeps_latest(cap, samples);
}

/// Once at least `cap` samples `recent` have been pushed last, what was
/// pushed before them has no influence: two empty windows fed different
/// earlier samples and then the same `recent` hold the same samples, and so
/// have the same mean.
pub proof fn lemma_oldest_forgotten(cap: nat, earlier_a: Seq<u32>, earlier_b: Seq<u32>, recent: Seq<u32>)
    requires
        cap > 0,
        recent.len() >= cap,
    ensures
        window_after(Seq::<u32>::empty(), cap, earlier_a + recent)
            == window_after(Seq::<u32>::empty(), cap, earlier_b + recent),
        window_after(Seq::<u32>::empty(), cap, earlier_a + recent)
            == recent.subrange(recent.len() - cap, recent.len() as int),
        mean_of(window_after(Seq::<u32>::empty(), cap, earlier_a + recent))
            == mean_of(window_after(Seq::<u32>::empty(), cap, earlier_b + recent)),
{
    let a = earlier_a + recent;
    let b = earlier_b + recent;
    lemma_window_keeps_latest(cap, a);
    lemma_window_keeps_latest(cap, b);
    assert(a.subrange(a.len() - cap, a.len() as int)
        =~= recent.subrange(recent.len() - cap, recent.len() as int));
    assert(b.subrange(b.len() - cap, b.len() as int)
        =~= recent.subrange(recent.len() - cap, recent.len() as int));
}

/// Relies on `AllocRingBuffer::new`: an empty ring of the given capacity. It
/// panics on a capacity of zero.
#[verifier::external_body]
fn ring_new(capacity: usize) -> (r: AllocRingBuffer<u32>)
    requires
        0 < capacity <= MAX_WINDOW,
    ensures
        ring_items(r) == Seq::<u32>::empty(),
        ring_capacity(r) == capacity,
        ring_pushes(r) == 0,
{
    AllocRingBuffer::new(capacity)
}

/// Relies on `RingBuffer::len` of `AllocRingBuffer`: the number of samples held.
#[verifier::external_body]
fn ring_len(r: &AllocRingBuffer<u32>) -> (n: usize)
    ensures
        n == ring_items(*r).len(),
{
    r.len()
}

/// Relies on `RingBuffer::get` of `AllocRingBuffer`: index 0 is the oldest
/// sample, and a non-empty ring gives a sample for every index below its length.
#[verifier::external_body]
fn ring_get(r: &AllocRingBuffer<u32>, i: usize) -> (v: u32)
    requires
        i < ring_items(*r).len(),
    ensures
        v == ring_items(*r)[i as int],
{
    *r.get(i).unwrap()
}

/// Relies on `RingBuffer::push` of `AllocRingBuffer`: a full ring drops its
/// oldest sample before appending. Each push advances a `usize` write index.
#[verifier::external_body]
fn ring_push(r: &mut AllocRingBuffer<u32>, sample: u32)
    requires
        ring_pushes(*old(r)) < usize::MAX,
    ensures
        ring_items(*final(r)) == push_window(ring_items(*old(r)), ring_capacity(*old(r)), sample),
        ring_capacity(*final(r)) == ring_capacity(*old(r)),
        ring_pushes(*final(r)) == ring_pushes(*old(r)) + 1,
{
    r.push(sample)
}

/// A window over the most recent samples, of a capacity fixed when it is made.
/// The capacity is a run-time value rather than a const parameter, so that
/// the names above speak of one ring type, `AllocRingBuffer<u32>`, for every
/// capacity.
pub struct SmoothingBuffer {
    ring: AllocRingBuffer<u32>,
    capacity: usize,
    pushed: usize,
}

impl View for SmoothingBuffer {
    type V = Seq<u32>;

    closed spec fn view(&self) -> Seq<u32> {
        ring_items(self.ring)
    }
}

impl SmoothingBuffer {
    pub closed spec fn wf(self) -> bool {
        &&& 0 < self.capacity <= MAX_WINDOW
        &&& ring_capacity(self.ring) == self.capacity
        &&& ring_pushes(self.ring) == self.pushed
        &&& ring_items(self.ring).len() <= self.capacity
    }

    pub closed spec fn capacity_spec(self) -> nat {
        self.capacity as nat
    }

    /// A well-formed buffer has a capacity between one and `MAX_WINDOW`, and
    /// holds no more samples than that.
    pub proof fn lemma_wf_bounds(self)
        requires
            self.wf(),
        ensures
            0 < self.capacity_spec() <= MAX_WINDOW,
            self@.len() <= self.capacity_spec(),
    {
    }

    pub closed spec fn pushes_spec(self) -> nat {
        self.pushed as nat
    }

    /// An empty buffer that holds at most `capacity` samples.
    pub fn new(capacity: usize) -> (r: SmoothingBuffer)
        requires
            0 < capacity <= MAX_WINDOW,
        ensures
            r.wf(),
            r@ == Seq::<u32>::empty(),
            r.capacity_spec() == capacity,
            r.pushes_spec() == 0,
    {
        SmoothingBuffer { ring: ring_new(capacity), capacity, pushed: 0 }
    }

    /// Appends a sample, evicting the oldest one first when the buffer is full.
    pub fn push(&mut self, sample: u32)
        requires
            old(self).wf(),
            old(self).pushes_spec() < usize::MAX,
        ensures
            final(self).wf(),
            final(self)@ == push_window(old(self)@, old(self).capacity_spec(), sample),
            final(self).capacity_spec() == old(self).capacity_spec(),
            final(self).pushes_spec() == old(self).pushes_spec() + 1,
    {
        ring_push(&mut self.ring, sample);
        self.pushed = self.pushed + 1;
    }

    /// The number of samples held.
    pub fn len(&self) -> (n: usize)
        ensures
            n == self@.len(),
    {
        ring_len(&self.ring)
    }

    /// Whether no sample is held.
    pub fn is_empty(&self) -> (r: bool)
        ensures
            r == (self@.len() == 0),
    {
        ring_len(&self.ring) == 0
    }

    /// The number of samples held at most.
    pub fn capacity(&self) -> (n: usize)
        ensures
            n == self.capacity_spec(),
            self.wf() ==> 0 < n <= MAX_WINDOW,
    {
        self.capacity
    }

    /// The number of pushes taken since the buffer was made.
    pub fn pushes(&self) -> (n: usize)
        ensures
            n == self.pushes_spec(),
    {
        self.pushed
    }

    /// The samples held, oldest first.
    pub fn samples(&self) -> (v: Vec<u32>)
        requires
            self.wf(),
        ensures
            v@ == self@,
    {
        let n = ring_len(&self.ring);
        let mut v: Vec<u32> = Vec::new();
        let mut i: usize = 0;
        while i < n
            invariant
                n == self@.len(),
                i <= n,
                v@ == self@.take(i as int),
            decreases n - i,
        {
            v.push(ring_get(&self.ring, i));
            i = i + 1;
            assert(v@ =~= self@.take(i as int));
        }
        assert(self@.take(n as int) =~= self@);
        v
    }

    /// The mean of the samples held, truncated toward zero; `None` when the
    /// buffer is empty.
    pub fn average(&self) -> (r: Option<u32>)
        requires
            self.wf(),
        ensures
            self@.len() == 0 ==> r is None,
            self@.len() > 0 ==> r == Some(mean_of(self@) as u32),
            r matches Some(m) ==> m as int == mean_of(self@),
    {
        let n = ring_len(&self.ring);
        if n == 0 {
            return None;
        }
        let mut total: u64 = 0;
        let mut i: usize = 0;
        while i < n
            invariant
                n == self@.len(),
                n <= MAX_WINDOW,
                i <= n,
                total == sum_of(self@.take(i as int)),
                total <= i * (u32::MAX as int),
            decreases n - i,
        {
            let x = ring_get(&self.ring, i);
            proof {
                assert(self@.take(i + 1).drop_last() =~= self@.take(i as int));
                assert((i + 1) * (u32::MAX as int) == i * (u32::MAX as int) + u32::MAX)
                    by (nonlinear_arith);
                assert(i * (u32::MAX as int) <= MAX_WINDOW * (u32::MAX as int))
                    by (nonlinear_arith) requires i < MAX_WINDOW;
            }
            total = total + x as u64;
            i = i + 1;
        }
        assert(self@.take(n as int) =~= self@);
        let mean = total / (n as u64);
        assert(mean <= u32::MAX) by (nonlinear_arith)
            requires
                mean == total as int / n as int,
                total <= n * (u32::MAX as int),
                n > 0,
        ;
        Some(mean as u32)
    }
}

} // verus!
