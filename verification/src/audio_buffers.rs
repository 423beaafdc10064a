//! The sample queues between the audio devices and the voice pipeline,
//! generic in the sample type: the capture ring that keeps only the most
//! recent samples, the playback queue the output device drains (padding
//! with silence), and the channel duplication a mono voice needs for a
//! multi-channel device.
use vstd::prelude::*;
use std::collections::VecDeque;

verus! {

/// `s` after pushing `incoming` one sample at a time into a ring of
/// `capacity`: a full ring drops its oldest sample first (a ring of no
/// capacity has none to drop, and grows).
pub open spec fn ring_pushed<T>(s: Seq<T>, capacity: nat, incoming: Seq<T>) -> Seq<T>
    decreases incoming.len(),
{
    if incoming.len() == 0 {
        s
    } else {
        let prev = ring_pushed(s, capacity, incoming.drop_last());
        let dropped = if prev.len() == capacity && prev.len() > 0 { prev.drop_first() } else { prev };
        dropped.push(incoming.last())
    }
}

/// The newest `n` samples of `s`, all of them when there are fewer.
pub open spec fn newest<T>(s: Seq<T>, n: nat) -> Seq<T> {
    if s.len() <= n {
        s
    } else {
        s.skip(s.len() - n)
    }
}

/// A ring of at most `capacity` samples that keeps the newest.
pub struct RingBuffer<T> {
    samples: VecDeque<T>,
    capacity: usize,
}

impl<T: Copy> RingBuffer<T> {
    /// The samples held, oldest first.
    pub closed spec fn view(&self) -> Seq<T> {
        self.samples@
    }

    pub closed spec fn capacity(&self) -> nat {
        self.capacity as nat
    }

    /// An empty ring holding at most `capacity` samples.
    pub fn new(capacity: usize) -> (r: RingBuffer<T>)
        ensures
            r.view().len() == 0,
            r.capacity() == capacity,
    {
        RingBuffer { samples: VecDeque::with_capacity(capacity), capacity }
    }

    /// Append `incoming`, dropping the oldest samples once full.
    pub fn push_slice(&mut self, incoming: &[T])
        ensures
            final(self).view() == ring_pushed(old(self).view(), old(self).capacity(), incoming@),
            final(self).capacity() == old(self).capacity(),
    {
        let mut i: usize = 0;
        while i < incoming.len()
            invariant
                i <= incoming@.len(),
                self.capacity == old(self).capacity,
                self.samples@ == ring_pushed(old(self).view(), old(self).capacity(), incoming@.take(i as int)),
            decreases incoming.len() - i,
        {
            assert(incoming@.take(i + 1).drop_last() =~= incoming@.take(i as int));
            assert(incoming@.take(i + 1).last() == incoming@[i as int]);
            let ghost prev = self.samples@;
            if self.samples.len() == self.capacity {
                let popped = self.samples.pop_front();
                if popped.is_some() {
                    assert(self.samples@ =~= prev.drop_first());
                }
            }
            self.samples.push_back(incoming[i]);
            i = i + 1;
        }
        assert(incoming@.take(incoming@.len() as int) =~= incoming@);
    }

    /// Take everything held, oldest first, leaving the ring empty.
    pub fn drain(&mut self) -> (r: Vec<T>)
        ensures
            r@ == old(self).view(),
            final(self).view().len() == 0,
            final(self).capacity() == old(self).capacity(),
    {
        let mut out: Vec<T> = Vec::new();
        while self.samples.len() > 0
            invariant
                self.capacity == old(self).capacity,
                out@ + self.samples@ == old(self).samples@,
            decreases self.samples@.len(),
        {
            let ghost before = self.samples@;
            match self.samples.pop_front() {
                Some(x) => {
                    out.push(x);
                    assert(out@ + self.samples@ =~= old(self).samples@) by {
                        assert(before =~= seq![x] + self.samples@);
                    }
                },
                None => {},
            }
        }
        assert(out@ =~= old(self).samples@);
        out
    }

    /// The newest `count` samples, oldest first, without removing any.
    pub fn peek_recent(&self, count: usize) -> (r: Vec<T>)
        ensures
            r@ == newest(self.view(), count as nat),
    {
        let len = self.samples.len();
        let start: usize = if len > count { len - count } else { 0 };
        let mut out: Vec<T> = Vec::new();
        let mut i: usize = start;
        while i < len
            invariant
                start <= i <= len,
                len == self.samples@.len(),
                out@ == self.samples@.subrange(start as int, i as int),
            decreases len - i,
        {
            out.push(self.samples[i]);
            assert(out@ =~= self.samples@.subrange(start as int, i + 1));
            i = i + 1;
        }
        assert(out@ =~= newest(self.view(), count as nat));
        out
    }
}

/// A ring that has never held more than it may keeps exactly the newest
/// samples: pushing into a ring of positive capacity leaves the last
/// `capacity` samples of everything held and pushed.
pub proof fn lemma_ring_keeps_the_newest<T>(s: Seq<T>, capacity: nat, incoming: Seq<T>)
    requires
        capacity > 0,
        s.len() <= capacity,
    ensures
        ring_pushed(s, capacity, incoming) == newest(s + incoming, capacity),
    decreases incoming.len(),
{
    if incoming.len() > 0 {
        lemma_ring_keeps_the_newest(s, capacity, incoming.drop_last());
        let all = s + incoming;
        let prev_all = s + incoming.drop_last();
        assert(prev_all =~= all.drop_last());
        let prev = ring_pushed(s, capacity, incoming.drop_last());
        if all.len() <= capacity {
            assert(ring_pushed(s, capacity, incoming) =~= all);
        } else {
            assert(ring_pushed(s, capacity, incoming) =~= all.skip(all.len() - capacity));
        }
    }
}

/// Samples waiting for the output device.
pub struct PlaybackQueue<T> {
    samples: VecDeque<T>,
}

impl<T: Copy> PlaybackQueue<T> {
    /// The samples waiting, oldest first.
    pub closed spec fn view(&self) -> Seq<T> {
        self.samples@
    }

    /// An empty queue.
    pub fn new() -> (q: PlaybackQueue<T>)
        ensures
            q.view().len() == 0,
    {
        PlaybackQueue { samples: VecDeque::new() }
    }

    /// Fill `output` from the front of the queue, with `silence` once the
    /// queue runs dry.
    pub fn pop_into(&mut self, output: &mut Vec<T>, silence: T)
        ensures
            final(output)@.len() == old(output)@.len(),
            old(output)@.len() <= old(self).view().len() ==> {
                &&& final(output)@ == old(self).view().take(old(output)@.len() as int)
                &&& final(self).view() == old(self).view().skip(old(output)@.len() as int)
            },
            old(output)@.len() > old(self).view().len() ==> {
                &&& final(output)@ == old(self).view() + Seq::new(
                    (old(output)@.len() - old(self).view().len()) as nat,
                    |_i: int| silence,
                )
                &&& final(self).view().len() == 0
            },
    {
        let n = output.len();
        let mut i: usize = 0;
        while i < n
            invariant
                i <= n,
                n == old(output)@.len(),
                output@.len() == n,
                i <= old(self).samples@.len() ==> {
                    &&& output@.take(i as int) == old(self).samples@.take(i as int)
                    &&& self.samples@ == old(self).samples@.skip(i as int)
                },
                i > old(self).samples@.len() ==> {
                    &&& output@.take(i as int) == old(self).samples@ + Seq::new(
                        (i - old(self).samples@.len()) as nat,
                        |_k: int| silence,
                    )
                    &&& self.samples@.len() == 0
                },
            decreases n - i,
        {
            let ghost before = output@;
            let ghost q = self.samples@;
            let v = match self.samples.pop_front() {
                Some(x) => x,
                None => silence,
            };
            output.set(i, v);
            proof {
                let o = old(self).samples@;
                if i < o.len() {
                    assert(q =~= o.skip(i as int));
                    assert(output@.take(i + 1) =~= o.take(i + 1));
                    assert(self.samples@ =~= o.skip(i + 1));
                } else {
                    if i == o.len() {
                        assert(o.take(i as int) =~= o);
                        assert(o + Seq::new((i - o.len()) as nat, |_k: int| silence) =~= o);
                    }
                    assert(output@.take(i + 1) =~= output@.take(i as int).push(silence));
                    assert(o + Seq::new((i + 1 - o.len()) as nat, |_k: int| silence) =~= (o + Seq::new(
                        (i - o.len()) as nat,
                        |_k: int| silence,
                    )).push(silence));
                }
            }
            i = i + 1;
        }
        assert(output@.take(n as int) =~= output@);
    }

    /// Queue `samples` behind what is already waiting.
    pub fn push(&mut self, samples: Vec<T>)
        ensures
            final(self).view() == old(self).view() + samples@,
    {
        let mut i: usize = 0;
        while i < samples.len()
            invariant
                i <= samples@.len(),
                self.samples@ == old(self).samples@ + samples@.take(i as int),
            decreases samples.len() - i,
        {
            self.samples.push_back(samples[i]);
            assert(self.samples@ =~= old(self).samples@ + samples@.take(i + 1));
            i = i + 1;
        }
        assert(samples@.take(samples@.len() as int) =~= samples@);
    }

    /// Drop everything waiting.
    pub fn clear(&mut self)
        ensures
            final(self).view().len() == 0,
    {
        self.samples = VecDeque::new();
    }

    /// Whether nothing is waiting.
    pub fn is_empty(&self) -> (b: bool)
        ensures
            b == (self.view().len() == 0),
    {
        self.samples.len() == 0
    }
}

/// Each mono sample repeated `channels` times in a row: interleaved
/// frames for a device with that many channels.
pub open spec fn duplicated<T>(mono: Seq<T>, channels: nat) -> Seq<T> {
    Seq::new(mono.len() * channels, |k: int| mono[k / (channels as int)])
}

/// Interleave a mono signal for a `channels`-channel device; a mono
/// device gets it unchanged.
pub fn duplicate_channels<T: Copy>(mono: &[T], channels: u16) -> (r: Vec<T>)
    requires
        mono@.len() * channels <= usize::MAX,
    ensures
        channels <= 1 ==> r@ == mono@,
        channels > 1 ==> r@ == duplicated(mono@, channels as nat),
{
    if channels <= 1 {
        let mut out: Vec<T> = Vec::new();
        let mut i: usize = 0;
        while i < mono.len()
            invariant
                i <= mono@.len(),
                out@ == mono@.take(i as int),
            decreases mono.len() - i,
        {
            out.push(mono[i]);
            assert(out@ =~= mono@.take(i + 1));
            i = i + 1;
        }
        assert(mono@.take(mono@.len() as int) =~= mono@);
        return out;
    }
    let c = channels as usize;
    let mut out: Vec<T> = Vec::new();
    let mut i: usize = 0;
    while i < mono.len()
        invariant
            i <= mono@.len(),
            c == channels,
            c > 1,
            mono@.len() * c <= usize::MAX,
            out@.len() == i * c,
            forall|k: int| 0 <= k < out@.len() ==> #[trigger] out@[k] == mono@[k / (c as int)],
        decreases mono.len() - i,
    {
        let x = mono[i];
        let mut j: usize = 0;
        assert((i + 1) * c <= mono@.len() * c) by (nonlinear_arith)
            requires i + 1 <= mono@.len(), c > 1;
        while j < c
            invariant
                j <= c,
                c > 1,
                i < mono@.len(),
                x == mono@[i as int],
                (i + 1) * c <= usize::MAX,
                out@.len() == i * c + j,
                forall|k: int| 0 <= k < out@.len() ==> #[trigger] out@[k] == mono@[k / (c as int)],
            decreases c - j,
        {
            proof {
                let k = (i * c + j) as int;
                assert(k / (c as int) == i as int) by (nonlinear_arith)
                    requires k == i * c + j, 0 <= j < c, c > 1;
            }
            out.push(x);
            j = j + 1;
        }
        assert(out@.len() == (i + 1) * c) by (nonlinear_arith)
            requires out@.len() == i * c + c;
        i = i + 1;
    }
    assert(out@ =~= duplicated(mono@, channels as nat));
    out
}

} // verus!
