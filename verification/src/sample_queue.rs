//! The sample queue that carries audio from the capture callback to the
//! playback callback: first in, first out, with an optional bound that drops
//! the oldest samples, and silence wherever playback runs ahead of capture.
use std::collections::VecDeque;
use vstd::prelude::*;

verus! {

/// A first-in first-out queue of samples.
pub struct SampleQueue<T> {
    samples: VecDeque<T>,
}

impl<T> View for SampleQueue<T> {
    type V = Seq<T>;

    /// The queued samples, oldest first.
    closed spec fn view(&self) -> Seq<T> {
        self.samples@
    }
}

/// The queue after `s` was appended to `q` and, if that made it longer than
/// `cap`, its oldest sample was dropped.
pub open spec fn capped_push<T>(q: Seq<T>, s: T, cap: nat) -> Seq<T> {
    if q.len() + 1 > cap {
        q.push(s).drop_first()
    } else {
        q.push(s)
    }
}

/// The queue after each sample of `xs` went through `capped_push`, in order.
pub open spec fn capped_extend<T>(q: Seq<T>, xs: Seq<T>, cap: nat) -> Seq<T>
    decreases xs.len(),
{
    if xs.len() == 0 {
        q
    } else {
        capped_push(capped_extend(q, xs.drop_last(), cap), xs.last(), cap)
    }
}

/// The newest `cap` samples of `s`, or all of them if there are fewer.
pub open spec fn newest<T>(s: Seq<T>, cap: nat) -> Seq<T> {
    if s.len() <= cap {
        s
    } else {
        s.skip(s.len() - cap)
    }
}

/// How many queued samples an output of `n` slots takes.
pub open spec fn taken(q_len: nat, n: nat) -> nat {
    if q_len < n {
        q_len
    } else {
        n
    }
}

/// What an output of `n` slots receives from the queue `q`: the oldest
/// queued samples, then `silence` for every slot left.
pub open spec fn filled<T>(q: Seq<T>, n: nat, silence: T) -> Seq<T> {
    q.take(taken(q.len(), n) as int) + Seq::new((n - taken(q.len(), n)) as nat, |i: int| silence)
}

/// What stays queued after an output of `n` slots was filled from `q`.
pub open spec fn drained<T>(q: Seq<T>, n: nat) -> Seq<T> {
    q.skip(taken(q.len(), n) as int)
}

/// The number of samples in one second of audio: one per channel for each
/// sample frame.
pub fn one_second_capacity(sample_rate: u32, channels: u16) -> (cap: u64)
    ensures
        cap == sample_rate * channels,
{
    proof {
        assert(sample_rate * channels <= 0xffff_ffffu64 * 0xffffu64) by (nonlinear_arith)
            requires
                sample_rate <= 0xffff_ffffu32,
                channels <= 0xffffu16,
        ;
    }
    (sample_rate as u64) * (channels as u64)
}

impl<T: Copy> SampleQueue<T> {
    /// An empty queue.
    pub fn new() -> (q: Self)
        ensures
            q@ == Seq::<T>::empty(),
    {
        SampleQueue { samples: VecDeque::new() }
    }

    /// The number of queued samples.
    pub fn len(&self) -> (n: usize)
        ensures
            n == self@.len(),
    {
        self.samples.len()
    }

    /// Appends one sample.
    pub fn push(&mut self, sample: T)
        ensures
            final(self)@ == old(self)@.push(sample),
    {
        self.samples.push_back(sample);
    }

    /// Appends one sample and, where the queue then holds more than `cap`
    /// samples, drops the oldest one.
    pub fn push_capped(&mut self, sample: T, cap: u64)
        ensures
            final(self)@ == capped_push(old(self)@, sample, cap as nat),
    {
        self.samples.push_back(sample);
        if self.samples.len() as u64 > cap {
            let dropped = self.samples.pop_front();
            proof {
                assert(dropped is Some);
                assert(self.samples@ =~= old(self)@.push(sample).drop_first());
            }
        }
    }

    /// Appends the samples of `data` in order, each as `push_capped` does.
    pub fn extend_capped(&mut self, data: &[T], cap: u64)
        ensures
            final(self)@ == capped_extend(old(self)@, data@, cap as nat),
    {
        let n: usize = data.len();
        let mut i: usize = 0;
        while i < n
            invariant
                n == data@.len(),
                i <= n,
                self@ == capped_extend(old(self)@, data@.take(i as int), cap as nat),
            decreases n - i,
        {
            self.push_capped(data[i], cap);
            proof {
                let next = data@.take(i + 1);
                assert(next.drop_last() =~= data@.take(i as int));
                assert(next.last() == data@[i as int]);
            }
            i = i + 1;
        }
        assert(data@.take(n as int) =~= data@);
    }

    /// Appends the captured block `data`, whose samples come in frames of
    /// `channels` interleaved samples, frame by frame.
    pub fn push_frames(&mut self, data: &[T], channels: usize)
        requires
            channels > 0,
        ensures
            final(self)@ == old(self)@ + data@,
    {
        let n: usize = data.len();
        let mut start: usize = 0;
        while start < n
            invariant
                n == data@.len(),
                channels > 0,
                start <= n,
                self@ == old(self)@ + data@.take(start as int),
            decreases n - start,
        {
            let end: usize = if n - start < channels {
                n
            } else {
                start + channels
            };
            let mut j: usize = start;
            while j < end
                invariant
                    n == data@.len(),
                    start <= j <= end <= n,
                    self@ == old(self)@ + data@.take(j as int),
                decreases end - j,
            {
                self.samples.push_back(data[j]);
                j = j + 1;
                assert(self@ =~= old(self)@ + data@.take(j as int));
            }
            start = end;
        }
        assert(data@.take(n as int) =~= data@);
    }

    /// Takes the oldest sample, or gives `silence` when nothing is queued.
    pub fn pop_or(&mut self, silence: T) -> (s: T)
        ensures
            old(self)@.len() == 0 ==> s == silence && final(self)@ == old(self)@,
            old(self)@.len() > 0 ==> s == old(self)@[0] && final(self)@ == old(self)@.drop_first(),
    {
        match self.samples.pop_front() {
            Some(s) => {
                assert(self@ =~= old(self)@.drop_first());
                s
            },
            None => silence,
        }
    }

    /// Fills every slot of `out`, in order, with the oldest queued sample,
    /// or with `silence` once the queue is empty.
    pub fn fill_output(&mut self, out: &mut [T], silence: T)
        ensures
            final(out)@ == filled(old(self)@, old(out)@.len(), silence),
            final(self)@ == drained(old(self)@, old(out)@.len()),
    {
        let n: usize = out.len();
        let ghost q0 = self@;
        let ghost o0 = out@;
        let mut i: usize = 0;
        while i < n
            invariant
                n == out@.len(),
                n == o0.len(),
                i <= n,
                q0 == old(self)@,
                o0 == old(out)@,
                out@.take(i as int) == filled(q0, i as nat, silence),
                out@.skip(i as int) == o0.skip(i as int),
                self@ == drained(q0, i as nat),
            decreases n - i,
        {
            let s = self.pop_or(silence);
            let ghost before = out@;
            out[i] = s;
            proof {
                assert forall|k: int| i + 1 <= k < n implies out@[k] == o0[k] by {
                    assert(before.skip(i as int)[k - i] == o0.skip(i as int)[k - i]);
                }
                let f = filled(q0, (i + 1) as nat, silence);
                if i < q0.len() {
                    assert(self@ =~= drained(q0, (i + 1) as nat));
                    assert(f =~= filled(q0, i as nat, silence).push(q0[i as int]));
                } else {
                    assert(self@ =~= drained(q0, (i + 1) as nat));
                    assert(f =~= filled(q0, i as nat, silence).push(silence));
                }
                assert(out@.take((i + 1) as int) =~= f);
                assert(out@.skip((i + 1) as int) =~= o0.skip((i + 1) as int));
            }
            i = i + 1;
        }
        assert(out@ =~= out@.take(n as int));
    }
}

/// The bound keeps the newest samples: pushing the samples `xs` one by one
/// with `push_capped` onto a queue that holds no more than `cap` samples
/// leaves exactly the newest `cap` samples of everything queued, so the
/// queue never grows past `cap`.
pub proof fn lemma_capped_pushes_keep_newest<T>(q: Seq<T>, xs: Seq<T>, cap: nat)
    requires
        q.len() <= cap,
    ensures
        capped_extend(q, xs, cap) == newest(q + xs, cap),
        capped_extend(q, xs, cap).len() <= cap,
    decreases xs.len(),
{
    if xs.len() == 0 {
        assert(q + xs =~= q);
    } else {
        lemma_capped_pushes_keep_newest(q, xs.drop_last(), cap);
        let prev = newest(q + xs.drop_last(), cap);
        let all = q + xs;
        assert((q + xs.drop_last()).push(xs.last()) =~= all);
        if (q + xs.drop_last()).len() <= cap {
            if all.len() <= cap {
            } else {
                assert(prev.push(xs.last()).drop_first() =~= all.skip(all.len() - cap));
            }
        } else {
            let p = q + xs.drop_last();
            assert(prev == p.skip(p.len() - cap));
            assert(prev.push(xs.last()).drop_first() =~= all.skip(all.len() - cap));
        }
    }
}

/// Samples leave in the order they arrived: after the block `data` is
/// queued behind `q`, an output with one slot per queued sample receives
/// `q` followed by `data`, and the queue is left empty.
pub proof fn lemma_output_replays_input<T>(q: Seq<T>, data: Seq<T>, silence: T)
    ensures
        filled(q + data, q.len() + data.len(), silence) == q + data,
        drained(q + data, q.len() + data.len()) == Seq::<T>::empty(),
{
    let all = q + data;
    assert(filled(all, all.len(), silence) =~= all);
    assert(drained(all, all.len()) =~= Seq::<T>::empty());
}

/// One callback's work on a sample queue, for stating what any run of the
/// capture and playback callbacks does.
pub enum QueueStep<T> {
    /// The capture callback queues a block of samples.
    Capture(Seq<T>),
    /// The playback callback fills an output of this many slots.
    Play(nat),
}

/// The queue after one step: a captured block is appended (through
/// `capped_extend` where the queue has the bound `cap`), an output takes
/// the oldest samples.
pub open spec fn step_queue<T>(q: Seq<T>, step: QueueStep<T>, cap: Option<nat>) -> Seq<T> {
    match step {
        QueueStep::Capture(d) => match cap {
            Some(c) => capped_extend(q, d, c),
            None => q + d,
        },
        QueueStep::Play(n) => drained(q, n),
    }
}

/// The queued samples that one step hands to the output: none for a
/// capture, the oldest ones for a playback.
pub open spec fn step_delivered<T>(q: Seq<T>, step: QueueStep<T>) -> Seq<T> {
    match step {
        QueueStep::Capture(d) => Seq::<T>::empty(),
        QueueStep::Play(n) => q.take(taken(q.len(), n) as int),
    }
}

/// The samples that one step captures.
pub open spec fn step_captured<T>(step: QueueStep<T>) -> Seq<T> {
    match step {
        QueueStep::Capture(d) => d,
        QueueStep::Play(n) => Seq::<T>::empty(),
    }
}

/// The queue after the steps, starting empty.
pub open spec fn queue_after<T>(steps: Seq<QueueStep<T>>, cap: Option<nat>) -> Seq<T>
    decreases steps.len(),
{
    if steps.len() == 0 {
        Seq::<T>::empty()
    } else {
        step_queue(queue_after(steps.drop_last(), cap), steps.last(), cap)
    }
}

/// Every queued sample that the steps handed to outputs, in order.
pub open spec fn delivered_after<T>(steps: Seq<QueueStep<T>>, cap: Option<nat>) -> Seq<T>
    decreases steps.len(),
{
    if steps.len() == 0 {
        Seq::<T>::empty()
    } else {
        delivered_after(steps.drop_last(), cap) + step_delivered(
            queue_after(steps.drop_last(), cap),
            steps.last(),
        )
    }
}

/// Every sample that the steps captured, in order.
pub open spec fn captured_after<T>(steps: Seq<QueueStep<T>>) -> Seq<T>
    decreases steps.len(),
{
    if steps.len() == 0 {
        Seq::<T>::empty()
    } else {
        captured_after(steps.drop_last()) + step_captured(steps.last())
    }
}

/// Whether every captured block of the steps fits into the bounded queue
/// as it is at that moment, so that the bound never drops a sample.
pub open spec fn never_drops<T>(steps: Seq<QueueStep<T>>, cap: nat) -> bool
    decreases steps.len(),
{
    if steps.len() == 0 {
        true
    } else {
        &&& never_drops(steps.drop_last(), cap)
        &&& match steps.last() {
            QueueStep::Capture(d) => queue_after(steps.drop_last(), Some(cap)).len() + d.len()
                <= cap,
            QueueStep::Play(n) => true,
        }
    }
}

/// What `fill_output` writes is the samples that the step hands out, then
/// silence: the output's front is exactly the oldest queued samples.
pub proof fn lemma_output_front_is_delivered<T>(q: Seq<T>, n: nat, silence: T)
    ensures
        filled(q, n, silence).len() == n,
        filled(q, n, silence).take(taken(q.len(), n) as int) == step_delivered(
            q,
            QueueStep::Play(n),
        ),
        forall|i: int|
            taken(q.len(), n) <= i < n ==> #[trigger] filled(q, n, silence)[i] == silence,
{
    let f = filled(q, n, silence);
    let k = taken(q.len(), n);
    assert(f.take(k as int) =~= q.take(k as int));
}

/// The unbounded queue between the callbacks neither drops, duplicates nor
/// reorders a sample, whatever the order of the callbacks: the samples
/// handed to outputs so far, followed by those still queued, are exactly
/// the samples captured so far. So what the outputs received is a prefix of
/// what was captured.
pub proof fn lemma_unbounded_queue_loses_nothing<T>(steps: Seq<QueueStep<T>>)
    ensures
        delivered_after(steps, None) + queue_after(steps, None) == captured_after(steps),
        delivered_after(steps, None) == captured_after(steps).take(
            delivered_after(steps, None).len() as int,
        ),
    decreases steps.len(),
{
    if steps.len() > 0 {
        let prev = steps.drop_last();
        lemma_unbounded_queue_loses_nothing(prev);
        let d = delivered_after(prev, None);
        let q = queue_after(prev, None);
        match steps.last() {
            QueueStep::Capture(x) => {
                assert(step_delivered(q, steps.last()) =~= Seq::<T>::empty());
                assert(delivered_after(steps, None) =~= d);
                assert(d + (q + x) =~= (d + q) + x);
            },
            QueueStep::Play(n) => {
                let k = taken(q.len(), n) as int;
                assert(step_captured(steps.last()) =~= Seq::<T>::empty());
                assert(captured_after(steps) =~= captured_after(prev));
                assert((d + q.take(k)) + q.skip(k) =~= d + q);
            },
        }
    }
    let dd = delivered_after(steps, None);
    let c = captured_after(steps);
    assert(c.take(dd.len() as int) =~= dd);
}

/// The bounded queue of the plain loopback never holds more than `cap`
/// samples, whatever the order of the callbacks, and what it holds is
/// always the newest samples captured so far.
pub proof fn lemma_capped_queue_stays_bounded<T>(steps: Seq<QueueStep<T>>, cap: nat)
    ensures
        queue_after(steps, Some(cap)).len() <= cap,
        queue_after(steps, Some(cap)).len() <= captured_after(steps).len(),
        queue_after(steps, Some(cap)) == captured_after(steps).skip(
            captured_after(steps).len() - queue_after(steps, Some(cap)).len(),
        ),
    decreases steps.len(),
{
    if steps.len() > 0 {
        let prev = steps.drop_last();
        lemma_capped_queue_stays_bounded(prev, cap);
        let q = queue_after(prev, Some(cap));
        let c = captured_after(prev);
        match steps.last() {
            QueueStep::Capture(x) => {
                lemma_capped_pushes_keep_newest(q, x, cap);
                let all = q + x;
                let c2 = c + x;
                assert(captured_after(steps) == c2);
                assert(all =~= c2.skip(c2.len() - all.len()));
                let r = newest(all, cap);
                assert(r =~= c2.skip(c2.len() - r.len()));
            },
            QueueStep::Play(n) => {
                let k = taken(q.len(), n) as int;
                assert(captured_after(steps) =~= c);
                assert(q.skip(k) =~= c.skip(c.len() - (q.len() - k)));
            },
        }
    } else {
        assert(captured_after(steps).skip(0) =~= Seq::<T>::empty());
    }
}

/// While no captured block overflows it, the bounded queue behaves as the
/// unbounded one: nothing is dropped, and the outputs receive exactly a
/// prefix of what was captured, in order, the rest still queued.
pub proof fn lemma_capped_queue_without_drops<T>(steps: Seq<QueueStep<T>>, cap: nat)
    requires
        never_drops(steps, cap),
    ensures
        queue_after(steps, Some(cap)) == queue_after(steps, None),
        delivered_after(steps, Some(cap)) == delivered_after(steps, None),
        delivered_after(steps, Some(cap)) + queue_after(steps, Some(cap)) == captured_after(steps),
    decreases steps.len(),
{
    if steps.len() > 0 {
        let prev = steps.drop_last();
        lemma_capped_queue_without_drops(prev, cap);
        let q = queue_after(prev, Some(cap));
        lemma_capped_queue_stays_bounded(prev, cap);
        match steps.last() {
            QueueStep::Capture(x) => {
                lemma_capped_pushes_keep_newest(q, x, cap);
            },
            QueueStep::Play(n) => {},
        }
    }
    lemma_unbounded_queue_loses_nothing(steps);
}

} // verus!
