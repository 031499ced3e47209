//! The capture side: resampling of what the device delivers, and the bounded
//! queue between the device and the recognizer.

use crate::constant::MAX_QUEUE_SIZE;
use crate::seqs::append_copy;
use vstd::prelude::*;

verus! {

/// Number of samples after resampling `n` samples from rate `source` to
/// rate `target`: `n * target / source`, rounded up.
pub open spec fn resample_len(n: nat, source: nat, target: nat) -> nat {
    ((n * target + source - 1) / (source as int)) as nat
}

/// Whether resampling picks every `source / target`-th sample: the source
/// rate is a multiple of the target rate.
pub open spec fn is_stride(source: nat, target: nat) -> bool {
    target > 0 && source % target == 0
}

/// The source sample at or before output place `i`.
pub open spec fn left_index(i: int, source: nat, target: nat) -> int {
    (i * source) / (target as int)
}

/// How far output place `i` lies behind its left source sample, in
/// `target`-ths of the distance to the next one.
pub open spec fn offset(i: int, source: nat, target: nat) -> int {
    (i * source) % (target as int)
}

/// `out` is `data` resampled from rate `source` to rate `target`, with
/// `blend(left, right, part, whole)` giving the values that lie `part` of
/// `whole` of the way from one sample to the next.
pub open spec fn resampled<T, F: Fn(T, T, u32, u32) -> T>(
    data: Seq<T>,
    source: u32,
    target: u32,
    blend: F,
    out: Seq<T>,
) -> bool {
    if source == target || data.len() == 0 {
        out == data
    } else {
        &&& out.len() == resample_len(data.len(), source as nat, target as nat)
        &&& forall|i: int|
            0 <= i < out.len() ==> {
                let left = left_index(i, source as nat, target as nat);
                let part = offset(i, source as nat, target as nat);
                if is_stride(source as nat, target as nat) {
                    #[trigger] out[i] == data[i * (source as int / target as int)]
                } else if left >= data.len() - 1 {
                    out[i] == data[data.len() - 1]
                } else if part == 0 {
                    out[i] == data[left]
                } else {
                    blend.ensures((data[left], data[left + 1], part as u32, target), out[i])
                }
            }
    }
}

/// The output places of a resampling fall on source samples: place `i`
/// lies at source position `i * source / target`, which is before the end of
/// the data, and the last place is the first that would reach it.
pub proof fn lemma_resample_places(n: nat, source: nat, target: nat, i: int)
    requires
        source > 0,
        target > 0,
        0 <= i < resample_len(n, source, target),
    ensures
        0 <= i * source < n * target,
        0 <= left_index(i, source, target) < n,
        0 <= offset(i, source, target) < target,
        left_index(i, source, target) * target + offset(i, source, target) == i * source,
        resample_len(n, source, target) * source >= n * target,
{
    let len = resample_len(n, source, target) as int;
    let total = n * target;
    let s = source as int;
    let t = target as int;
    assert(0 <= total) by (nonlinear_arith)
        requires
            total == n * target,
    ;
    assert(len * s <= total + s - 1 && total + s - 1 < len * s + s) by (nonlinear_arith)
        requires
            len == (total + s - 1) / s,
            s > 0,
            total >= 0,
    ;
    assert(i * s <= (len - 1) * s) by (nonlinear_arith)
        requires
            0 <= i <= len - 1,
            s > 0,
    ;
    assert((len - 1) * s == len * s - s) by (nonlinear_arith);
    assert(0 <= i * s) by (nonlinear_arith)
        requires
            0 <= i,
            s > 0,
    ;
    let p = i * s;
    assert(0 <= p / t && (p / t) * t + p % t == p && 0 <= p % t < t) by (nonlinear_arith)
        requires
            p >= 0,
            t > 0,
    ;
    assert(p / t < n) by (nonlinear_arith)
        requires
            (p / t) * t <= p,
            p < n * t,
            t > 0,
    ;
}

/// Where the source rate is `step` times the target rate, output place `i`
/// falls exactly on source sample `i * step`.
pub proof fn lemma_stride_places(n: nat, source: nat, target: nat, i: int)
    requires
        source > 0,
        is_stride(source, target),
        0 <= i < resample_len(n, source, target),
    ensures
        source / target >= 1,
        0 <= i * (source / target) < n,
        left_index(i, source, target) == i * (source / target),
        offset(i, source, target) == 0,
{
    lemma_resample_places(n, source, target, i);
    let s = source as int;
    let t = target as int;
    let step = s / t;
    assert(step * t == s && step >= 1) by (nonlinear_arith)
        requires
            step == s / t,
            s % t == 0,
            s > 0,
            t > 0,
    ;
    assert(i * s == (i * step) * t) by (nonlinear_arith)
        requires
            step * t == s,
    ;
    let q = i * step;
    assert(0 <= q) by (nonlinear_arith)
        requires
            q == i * step,
            i >= 0,
            step >= 1,
    ;
    assert(q < n) by (nonlinear_arith)
        requires
            q * t < n * t,
            t > 0,
    ;
    assert((q * t) / t == q && (q * t) % t == 0) by (nonlinear_arith)
        requires
            t > 0,
            q >= 0,
    ;
}

/// The number of samples after resampling, computed without overflow.
pub fn resampled_len(n: usize, source_sample_rate: u32, target_sample_rate: u32) -> (len: Option<
    usize,
>)
    requires
        source_sample_rate > 0,
    ensures
        match len {
            Some(l) => l == resample_len(n as nat, source_sample_rate as nat, target_sample_rate as nat),
            None => resample_len(n as nat, source_sample_rate as nat, target_sample_rate as nat)
                > usize::MAX,
        },
{
    let wide_n: u128 = n as u128;
    let wide_t: u128 = target_sample_rate as u128;
    let wide_s: u128 = source_sample_rate as u128;
    assert(wide_n * wide_t <= 0xFFFF_FFFF_FFFF_FFFF * 0xFFFF_FFFF) by (nonlinear_arith)
        requires
            0 <= wide_n <= 0xFFFF_FFFF_FFFF_FFFF,
            0 <= wide_t <= 0xFFFF_FFFF,
    ;
    let wide: u128 = (wide_n * wide_t + wide_s - 1) / wide_s;
    if wide <= usize::MAX as u128 {
        Some(wide as usize)
    } else {
        None
    }
}

/// Resamples `data` from `source_sample_rate` to `target_sample_rate`.
///
/// Equal rates, or no data, give the data back. A source rate that is a
/// multiple of the target rate picks every so-manieth sample. Otherwise each
/// output value lies between two neighbouring samples, and `blend(left,
/// right, part, whole)` computes the value `part / whole` of the way from
/// `left` to `right`; a place at or beyond the last sample takes the last
/// sample, and a place exactly on a sample takes that sample.
pub fn resample<T: Copy, F: Fn(T, T, u32, u32) -> T>(
    data: Vec<T>,
    source_sample_rate: u32,
    target_sample_rate: u32,
    blend: &F,
) -> (out: Vec<T>)
    requires
        source_sample_rate > 0,
        resample_len(data@.len(), source_sample_rate as nat, target_sample_rate as nat)
            <= usize::MAX,
        forall|left: T, right: T, part: u32, whole: u32| blend.requires((left, right, part, whole)),
    ensures
        resampled(data@, source_sample_rate, target_sample_rate, *blend, out@),
{
    if source_sample_rate == target_sample_rate || data.len() == 0 {
        return data;
    }
    let source_len = data.len();
    let target_len = match resampled_len(source_len, source_sample_rate, target_sample_rate) {
        Some(len) => len,
        None => 0,
    };
    let ghost s = source_sample_rate as nat;
    let ghost t = target_sample_rate as nat;
    let mut resampled: Vec<T> = Vec::new();
    if target_sample_rate > 0 && source_sample_rate % target_sample_rate == 0 {
        let step = (source_sample_rate / target_sample_rate) as usize;
        let mut i: usize = 0;
        while i < target_len
            invariant
                s == source_sample_rate,
                t == target_sample_rate,
                s > 0,
                is_stride(s, t),
                step == s / t,
                source_len == data@.len(),
                target_len == resample_len(data@.len(), s, t),
                i <= target_len,
                resampled@.len() == i,
                forall|k: int| 0 <= k < i ==> #[trigger] resampled@[k] == data@[k * (s as int / t as int)],
            decreases target_len - i,
        {
            proof {
                lemma_stride_places(data@.len(), s, t, i as int);
            }
            resampled.push(data[i * step]);
            i = i + 1;
        }
        return resampled;
    }
    if target_sample_rate == 0 {
        proof {
            assert(data@.len() * 0 == 0) by (nonlinear_arith);
            assert((s - 1) / (s as int) == 0) by (nonlinear_arith)
                requires
                    s > 0,
            ;
            assert(target_len == 0);
        }
        return resampled;
    }
    let mut i: usize = 0;
    while i < target_len
        invariant
            s == source_sample_rate,
            t == target_sample_rate,
            s > 0,
            t > 0,
            !is_stride(s, t),
            source_len == data@.len(),
            source_len > 0,
            target_len == resample_len(data@.len(), s, t),
            i <= target_len,
            resampled@.len() == i,
            forall|left: T, right: T, part: u32, whole: u32|
                blend.requires((left, right, part, whole)),
            forall|k: int|
                0 <= k < i ==> {
                    let left = left_index(k, s, t);
                    let part = offset(k, s, t);
                    if left >= data@.len() - 1 {
                        #[trigger] resampled@[k] == data@[data@.len() - 1]
                    } else if part == 0 {
                        resampled@[k] == data@[left]
                    } else {
                        blend.ensures(
                            (data@[left], data@[left + 1], part as u32, target_sample_rate),
                            resampled@[k],
                        )
                    }
                },
        decreases target_len - i,
    {
        proof {
            lemma_resample_places(data@.len(), s, t, i as int);
            assert((i as int) * (s as int) <= 0xFFFF_FFFF_FFFF_FFFF * 0xFFFF_FFFF) by (nonlinear_arith)
                requires
                    0 <= i <= 0xFFFF_FFFF_FFFF_FFFF,
                    0 <= s <= 0xFFFF_FFFF,
            ;
        }
        let place: u128 = (i as u128) * (source_sample_rate as u128);
        let left_index = (place / (target_sample_rate as u128)) as usize;
        let part = (place % (target_sample_rate as u128)) as u32;
        let value = if left_index >= source_len - 1 {
            data[source_len - 1]
        } else if part == 0 {
            data[left_index]
        } else {
            blend(data[left_index], data[left_index + 1], part, target_sample_rate)
        };
        resampled.push(value);
        i = i + 1;
    }
    resampled
}

/// Resampling keeps the first sample, and where the target rate is not
/// below the source rate it keeps the last sample too. The number of output
/// samples is `n * target / source` rounded up.
pub proof fn lemma_resample_endpoints<T, F: Fn(T, T, u32, u32) -> T>(
    data: Seq<T>,
    source: u32,
    target: u32,
    blend: F,
    out: Seq<T>,
)
    requires
        source > 0,
        data.len() > 0,
        resampled(data, source, target, blend, out),
    ensures
        out.len() == resample_len(data.len(), source as nat, target as nat),
        target > 0 ==> out.len() > 0 && out[0] == data[0],
        target >= source ==> out.last() == data.last(),
{
    let n = data.len();
    let s = source as nat;
    let t = target as nat;
    let len = resample_len(n, s, t) as int;
    if source == target {
        assert((n * s + s - 1) / (s as int) == n) by (nonlinear_arith)
            requires
                s > 0,
        ;
    } else if target > 0 {
        assert(len >= 1) by (nonlinear_arith)
            requires
                len == (n * t + s - 1) / (s as int),
                n >= 1,
                t >= 1,
                s >= 1,
        ;
        assert(0 * (s as int) == 0);
        assert(0int / (t as int) == 0 && 0int % (t as int) == 0) by (nonlinear_arith)
            requires
                t > 0,
        ;
        assert(left_index(0, s, t) == 0 && offset(0, s, t) == 0);
        assert(0 * (source as int / target as int) == 0);
        assert(out[0] == data[0]);
        if target > source {
            let last = len - 1;
            lemma_resample_places(n, s, t, last);
            assert(!is_stride(s, t)) by (nonlinear_arith)
                requires
                    0 < s < t,
            ;
            let p = last * s;
            assert(p >= n * t - s) by (nonlinear_arith)
                requires
                    p == last * s,
                    last == len - 1,
                    len * s >= n * t,
            ;
            assert(left_index(last, s, t) >= n - 1) by (nonlinear_arith)
                requires
                    left_index(last, s, t) * t + offset(last, s, t) == p,
                    0 <= offset(last, s, t) < t,
                    p >= n * t - s,
                    0 < s < t,
            ;
            assert(out[last] == data[n - 1]);
        }
    }
}

/// The bounded queue of samples between the device and the recognizer.
/// It holds the newest `MAX_QUEUE_SIZE` samples at most: what comes in
/// beyond that pushes the oldest out.
#[derive(Debug)]
pub struct SampleQueue<T> {
    samples: Vec<T>,
}

impl<T> View for SampleQueue<T> {
    type V = Seq<T>;

    /// The samples, oldest first.
    closed spec fn view(&self) -> Seq<T> {
        self.samples@
    }
}

/// The newest `limit` items of `items`, or all of them where there are no
/// more.
pub open spec fn newest<T>(items: Seq<T>, limit: nat) -> Seq<T> {
    if items.len() > limit {
        items.skip(items.len() - limit)
    } else {
        items
    }
}

impl<T: Copy> SampleQueue<T> {
    /// The queue holds no more than its limit.
    pub open spec fn wf(&self) -> bool {
        self@.len() <= MAX_QUEUE_SIZE
    }

    /// An empty queue.
    pub fn new() -> (queue: Self)
        ensures
            queue.wf(),
            queue@ == Seq::<T>::empty(),
    {
        SampleQueue { samples: Vec::new() }
    }

    /// Number of samples waiting.
    pub fn len(&self) -> (n: usize)
        ensures
            n == self@.len(),
    {
        self.samples.len()
    }

    /// Appends `data`. Where the queue would then hold more than
    /// `MAX_QUEUE_SIZE` samples, the oldest beyond that are dropped.
    pub fn push_samples(&mut self, data: &Vec<T>)
        requires
            old(self).wf(),
        ensures
            final(self).wf(),
            final(self)@ == newest(old(self)@ + data@, MAX_QUEUE_SIZE as nat),
    {
        let held = self.samples.len();
        let incoming = data.len();
        if incoming >= MAX_QUEUE_SIZE {
            self.samples = crate::seqs::copy_range(data, incoming - MAX_QUEUE_SIZE, incoming);
            proof {
                assert(self@ =~= newest(old(self)@ + data@, MAX_QUEUE_SIZE as nat));
            }
        } else {
            if held + incoming > MAX_QUEUE_SIZE {
                let excess = held + incoming - MAX_QUEUE_SIZE;
                let kept = self.samples.split_off(excess);
                self.samples = kept;
            }
            append_copy(&mut self.samples, data);
            proof {
                assert(self@ =~= newest(old(self)@ + data@, MAX_QUEUE_SIZE as nat));
            }
        }
    }

    /// Takes the oldest `chunk_size` samples off the queue. Gives nothing,
    /// and leaves the queue as it is, where fewer are waiting or where none
    /// are asked for.
    pub fn pop_head_sample(&mut self, chunk_size: usize) -> (head: Option<Vec<T>>)
        requires
            old(self).wf(),
        ensures
            final(self).wf(),
            head is Some <==> 0 < chunk_size <= old(self)@.len(),
            head is Some ==> head->0@ == old(self)@.take(chunk_size as int) && final(self)@ == old(
                self,
            )@.skip(chunk_size as int),
            head is None ==> final(self)@ == old(self)@,
    {
        if chunk_size == 0 || self.samples.len() < chunk_size {
            return None;
        }
        let mut rest = self.samples.split_off(chunk_size);
        core::mem::swap(&mut self.samples, &mut rest);
        proof {
            assert(rest@ =~= old(self)@.take(chunk_size as int));
            assert(self@ =~= old(self)@.skip(chunk_size as int));
        }
        Some(rest)
    }
}

/// What the device callback does with one buffer of samples, already
/// brought to the range from -1 to 1: resample it to the target rate and
/// append it to the queue. An empty buffer changes nothing.
pub fn process_samples<T: Copy, F: Fn(T, T, u32, u32) -> T>(
    data: Vec<T>,
    source_rate: u32,
    target_rate: u32,
    samples_queue: &mut SampleQueue<T>,
    blend: &F,
)
    requires
        old(samples_queue).wf(),
        source_rate > 0,
        resample_len(data@.len(), source_rate as nat, target_rate as nat) <= usize::MAX,
        forall|left: T, right: T, part: u32, whole: u32| blend.requires((left, right, part, whole)),
    ensures
        final(samples_queue).wf(),
        exists|out: Seq<T>|
            resampled(data@, source_rate, target_rate, *blend, out) && final(samples_queue)@
                == newest(old(samples_queue)@ + out, MAX_QUEUE_SIZE as nat),
{
    if data.len() == 0 {
        proof {
            assert(resampled(data@, source_rate, target_rate, *blend, data@));
            assert(samples_queue@ + data@ =~= samples_queue@);
        }
        return ;
    }
    let ghost given = data@;
    let resample_data = resample(data, source_rate, target_rate, blend);
    if resample_data.len() == 0 {
        proof {
            assert(samples_queue@ + resample_data@ =~= samples_queue@);
            assert(resampled(given, source_rate, target_rate, *blend, resample_data@));
        }
        return ;
    }
    samples_queue.push_samples(&resample_data);
    proof {
        assert(resampled(given, source_rate, target_rate, *blend, resample_data@));
    }
}

} // verus!
