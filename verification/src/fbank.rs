//! Framing: cutting the sample stream into overlapping analysis windows, and
//! the frame that the feature computation makes of each window.

use crate::constant::{FRAME_LENGTH, FRAME_SHIFT, MEL_BINS};
use crate::seqs::{append_copy, concat_all, copy_range, rows_view};
use vstd::prelude::*;

verus! {

/// What a frame holds, as mathematical values.
pub struct FrameView<T> {
    /// Log mel energies, one per mel bin.
    pub feature: Seq<T>,
    /// Energy of the window in decibels, taken before any filtering.
    pub decibel: T,
}

/// One analysis frame: the features of one window and the window's energy.
/// A frame always holds exactly `MEL_BINS` features.
#[derive(Debug)]
pub struct Frame<T> {
    feature: Vec<T>,
    decibel: T,
}

impl<T> View for Frame<T> {
    type V = FrameView<T>;

    closed spec fn view(&self) -> FrameView<T> {
        FrameView { feature: self.feature@, decibel: self.decibel }
    }
}

/// The frames of a vector, each as its mathematical value.
pub open spec fn frames_view<T>(frames: Seq<Frame<T>>) -> Seq<FrameView<T>> {
    Seq::new(frames.len(), |i: int| frames[i]@)
}

/// The feature vectors of a sequence of frames.
pub open spec fn features_of<T>(frames: Seq<FrameView<T>>) -> Seq<Seq<T>> {
    Seq::new(frames.len(), |i: int| frames[i].feature)
}

/// Every frame holds exactly `MEL_BINS` features.
pub open spec fn frames_wf<T>(frames: Seq<FrameView<T>>) -> bool {
    forall|i: int| 0 <= i < frames.len() ==> (#[trigger] frames[i]).feature.len() == MEL_BINS
}

impl<T: Copy> Frame<T> {
    /// A frame of the given features and energy, or `None` unless there are
    /// exactly `MEL_BINS` features.
    pub fn new(feature: Vec<T>, decibel: T) -> (frame: Option<Self>)
        ensures
            frame is Some <==> feature@.len() == MEL_BINS,
            frame is Some ==> frame->0@ == (FrameView { feature: feature@, decibel }),
    {
        if feature.len() == MEL_BINS {
            Some(Frame { feature, decibel })
        } else {
            None
        }
    }

    /// The features.
    pub fn feature(&self) -> (feature: &Vec<T>)
        ensures
            feature@ == self@.feature,
    {
        &self.feature
    }

    /// The energy in decibels.
    pub fn decibel(&self) -> (decibel: T)
        ensures
            decibel == self@.decibel,
    {
        self.decibel
    }
}

impl<T: Copy> Clone for Frame<T> {
    fn clone(&self) -> (copy: Self)
        ensures
            copy@ == self@,
    {
        let n = self.feature.len();
        let feature = copy_range(&self.feature, 0, n);
        proof {
            assert(feature@ =~= self.feature@);
        }
        Frame { feature, decibel: self.decibel }
    }
}

/// A copy of `frames[from..to]`.
pub fn copy_frames<T: Copy>(frames: &Vec<Frame<T>>, from: usize, to: usize) -> (out: Vec<Frame<T>>)
    requires
        from <= to <= frames@.len(),
    ensures
        frames_view(out@) == frames_view(frames@).subrange(from as int, to as int),
{
    let mut out: Vec<Frame<T>> = Vec::new();
    let mut i: usize = from;
    proof {
        assert(frames_view(out@) =~= frames_view(frames@).subrange(from as int, i as int));
    }
    while i < to
        invariant
            from <= i <= to <= frames@.len(),
            frames_view(out@) == frames_view(frames@).subrange(from as int, i as int),
        decreases to - i,
    {
        let ghost before = frames_view(out@);
        out.push(frames[i].clone());
        i = i + 1;
        proof {
            assert(frames_view(out@) =~= before.push(frames@[i - 1]@));
            assert(frames_view(out@) =~= frames_view(frames@).subrange(from as int, i as int));
        }
    }
    out
}

/// Number of windows that fit into `len` samples: none below one window's
/// length, then one more for every further shift.
pub open spec fn frame_count(len: nat) -> nat {
    if len < FRAME_LENGTH {
        0
    } else {
        (1 + (len - FRAME_LENGTH) / (FRAME_SHIFT as int)) as nat
    }
}

/// The `i`-th window of `samples`.
pub open spec fn frame_window<T>(samples: Seq<T>, i: int) -> Seq<T> {
    samples.subrange(i * FRAME_SHIFT, i * FRAME_SHIFT + FRAME_LENGTH)
}

/// All windows of `samples`, in order.
pub open spec fn frame_windows<T>(samples: Seq<T>) -> Seq<Seq<T>> {
    Seq::new(frame_count(samples.len()), |i: int| frame_window(samples, i))
}

/// The samples that stay pending after the windows are cut: the tail that
/// starts where the next window would.
pub open spec fn frame_residual<T>(samples: Seq<T>) -> Seq<T> {
    samples.skip(frame_count(samples.len()) * FRAME_SHIFT)
}

/// Every window lies inside the samples.
pub proof fn lemma_window_in_bounds(len: nat, i: int)
    requires
        0 <= i < frame_count(len),
    ensures
        0 <= i * FRAME_SHIFT,
        i * FRAME_SHIFT + FRAME_LENGTH <= len,
        frame_count(len) * FRAME_SHIFT <= len,
{
    assert(FRAME_SHIFT == 160 && FRAME_LENGTH == 400);
    assert(i * 160 + 400 <= len);
}

/// Cuts `waveform` into windows of `FRAME_LENGTH` samples, `FRAME_SHIFT`
/// apart, and returns them with the tail that no window has used up yet.
/// A waveform shorter than one window comes back whole as the tail.
pub fn fbank<T: Copy>(waveform: Vec<T>) -> (out: (Vec<Vec<T>>, Vec<T>))
    ensures
        rows_view(out.0@) == frame_windows(waveform@),
        out.1@ == frame_residual(waveform@),
{
    let waveform_length = waveform.len();
    if waveform_length < FRAME_LENGTH {
        proof {
            assert(rows_view(Seq::<Vec<T>>::empty()) =~= frame_windows(waveform@));
            assert(waveform@ =~= frame_residual(waveform@));
        }
        return (Vec::new(), waveform);
    }
    let count = 1 + (waveform_length - FRAME_LENGTH) / FRAME_SHIFT;
    let remaining_waveform = copy_range(&waveform, count * FRAME_SHIFT, waveform_length);
    let mut windows: Vec<Vec<T>> = Vec::new();
    let mut i: usize = 0;
    while i < count
        invariant
            i <= count,
            count == frame_count(waveform@.len()),
            waveform@.len() == waveform_length,
            waveform@.len() >= FRAME_LENGTH,
            windows@.len() == i,
            forall|k: int| 0 <= k < i ==> (#[trigger] windows@[k])@ == frame_window(waveform@, k),
        decreases count - i,
    {
        proof {
            lemma_window_in_bounds(waveform@.len(), i as int);
        }
        let window = copy_range(&waveform, i * FRAME_SHIFT, i * FRAME_SHIFT + FRAME_LENGTH);
        windows.push(window);
        i = i + 1;
    }
    proof {
        assert(rows_view(windows@) =~= frame_windows(waveform@));
    }
    (windows, remaining_waveform)
}

/// Joins the samples left pending by the previous call with the new ones
/// and cuts the result into windows. Returns the windows and the new tail.
pub fn pretreatment<T: Copy>(waveform: Vec<T>, reserve_waveforms: Vec<T>) -> (out: (
    Vec<Vec<T>>,
    Vec<T>,
))
    ensures
        rows_view(out.0@) == frame_windows(reserve_waveforms@ + waveform@),
        out.1@ == frame_residual(reserve_waveforms@ + waveform@),
{
    let mut joined = reserve_waveforms;
    append_copy(&mut joined, &waveform);
    fbank(joined)
}

/// Windows and pending tail after the chunks of a stream have gone through
/// framing one by one, each call starting from the tail of the one before.
pub open spec fn stream_frames<T>(chunks: Seq<Seq<T>>) -> (Seq<Seq<T>>, Seq<T>)
    decreases chunks.len(),
{
    if chunks.len() == 0 {
        (Seq::empty(), Seq::empty())
    } else {
        let (windows, residual) = stream_frames(chunks.drop_last());
        let buffer = residual + chunks.last();
        (windows + frame_windows(buffer), frame_residual(buffer))
    }
}

/// Framing `a`, then framing its pending tail joined with `b`, cuts the same
/// windows and leaves the same tail as framing `a` joined with `b` at once.
pub proof fn lemma_framing_split<T>(a: Seq<T>, b: Seq<T>)
    ensures
        frame_windows(a + b) == frame_windows(a) + frame_windows(frame_residual(a) + b),
        frame_residual(a + b) == frame_residual(frame_residual(a) + b),
{
    assert(FRAME_SHIFT == 160 && FRAME_LENGTH == 400);
    let first = frame_count(a.len()) as int;
    let rest = frame_residual(a) + b;
    let second = frame_count(rest.len()) as int;
    let whole = a + b;
    assert(first * 160 <= a.len());
    assert(rest.len() == whole.len() - first * 160);
    assert(frame_count(whole.len()) == first + second);
    assert(rest =~= whole.skip(first * 160));
    assert(frame_residual(whole) =~= frame_residual(rest));
    let joined = frame_windows(a) + frame_windows(rest);
    assert(joined.len() == frame_windows(whole).len());
    assert forall|i: int| 0 <= i < joined.len() implies joined[i] == frame_windows(whole)[i] by {
        if i < first {
            lemma_window_in_bounds(a.len(), i);
            assert(frame_window(a, i) =~= frame_window(whole, i));
        } else {
            lemma_window_in_bounds(rest.len(), i - first);
            assert(frame_window(rest, i - first) =~= frame_window(whole, i));
        }
    }
    assert(joined =~= frame_windows(whole));
}

/// However a stream is split into chunks, framing the chunks one by one cuts
/// the windows of the whole stream and leaves the tail of the whole stream.
pub proof fn lemma_chunked_framing<T>(chunks: Seq<Seq<T>>)
    ensures
        stream_frames(chunks) == (
            frame_windows(concat_all(chunks)),
            frame_residual(concat_all(chunks)),
        ),
    decreases chunks.len(),
{
    if chunks.len() == 0 {
        let none = Seq::<T>::empty();
        assert(frame_windows(none) =~= Seq::<Seq<T>>::empty());
        assert(frame_residual(none) =~= none);
    } else {
        lemma_chunked_framing(chunks.drop_last());
        lemma_framing_split(concat_all(chunks.drop_last()), chunks.last());
    }
}

} // verus!
