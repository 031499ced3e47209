//! Low-frame-rate stacking of frames into feature rows, and the per-column
//! normalization of those rows.

use crate::constant::MEL_BINS;
use crate::fbank::{
    copy_frames, features_of, frame_residual, frame_windows, frames_view, frames_wf,
    lemma_framing_split, Frame,
};
use crate::seqs::{append_copy, concat_all, lemma_concat_all_len, rows_view};
use vstd::prelude::*;

verus! {

/// Number of rows that stacking makes of `frames` frames: none below `m`
/// frames, else the whole number of strides `n` in the frames beyond `m`.
pub open spec fn lfr_count(frames: nat, m: nat, n: nat) -> nat {
    if frames < m {
        0
    } else {
        ((frames - m) / (n as int)) as nat
    }
}

/// Row `t`: the features of the `m` frames from frame `t * n` on, joined.
pub open spec fn lfr_row<T>(features: Seq<Seq<T>>, t: int, m: nat, n: nat) -> Seq<T> {
    concat_all(features.subrange(t * n, t * n + m))
}

/// All rows that stacking makes of the frames' features.
pub open spec fn lfr_rows<T>(features: Seq<Seq<T>>, m: nat, n: nat) -> Seq<Seq<T>> {
    Seq::new(lfr_count(features.len(), m, n), |t: int| lfr_row(features, t, m, n))
}

/// What stays pending after stacking: everything from the frame on at which
/// the next row would start.
pub open spec fn lfr_residual<F>(frames: Seq<F>, m: nat, n: nat) -> Seq<F> {
    frames.skip((lfr_count(frames.len(), m, n) * n) as int)
}

/// Every row has the given width.
pub open spec fn rows_have_width<T>(rows: Seq<Seq<T>>, width: nat) -> bool {
    forall|t: int| 0 <= t < rows.len() ==> (#[trigger] rows[t]).len() == width
}

/// The frames of every row lie inside the input, and so does the start of
/// the pending tail.
pub proof fn lemma_lfr_bounds(frames: nat, m: nat, n: nat, t: int)
    requires
        n > 0,
        0 <= t <= lfr_count(frames, m, n),
    ensures
        0 <= t * n <= frames,
        t < lfr_count(frames, m, n) ==> t * n + m + n <= frames,
{
    let count = lfr_count(frames, m, n) as int;
    if frames >= m {
        let beyond = frames - m;
        assert(count * n <= beyond) by (nonlinear_arith)
            requires
                count == beyond / (n as int),
                n > 0,
                beyond >= 0,
        ;
        assert(0 <= t * n <= count * n) by (nonlinear_arith)
            requires
                0 <= t <= count,
                n > 0,
        ;
        if t < count {
            assert(t * n + n <= count * n) by (nonlinear_arith)
                requires
                    0 <= t < count,
                    n > 0,
            ;
        }
    } else {
        assert(t * n == 0) by (nonlinear_arith)
            requires
                t == 0,
        ;
    }
}

/// Stacking frames of `MEL_BINS` features gives rows of `MEL_BINS * m`.
pub proof fn lemma_lfr_row_width<T>(features: Seq<Seq<T>>, m: nat, n: nat)
    requires
        n > 0,
        rows_have_width(features, MEL_BINS as nat),
    ensures
        rows_have_width(lfr_rows(features, m, n), (MEL_BINS * m) as nat),
{
    assert forall|t: int| 0 <= t < lfr_rows(features, m, n).len() implies (
    #[trigger] lfr_rows(features, m, n)[t]).len() == MEL_BINS * m by {
        lemma_lfr_bounds(features.len(), m, n, t);
        let part = features.subrange(t * n, t * n + m);
        lemma_concat_all_len(part, MEL_BINS as nat);
        assert(m * MEL_BINS == MEL_BINS * m) by (nonlinear_arith);
    }
}

/// Stacks the features of `lfr_m` consecutive frames into one row, a row
/// every `lfr_n` frames. Returns the rows and the frames left pending: those
/// from the start of the row that would come next.
pub fn apply_lfr<T: Copy>(frames: &Vec<Frame<T>>, lfr_m: usize, lfr_n: usize) -> (out: (
    Vec<Vec<T>>,
    Vec<Frame<T>>,
))
    requires
        lfr_n > 0,
        frames_wf(frames_view(frames@)),
    ensures
        rows_view(out.0@) == lfr_rows(
            features_of(frames_view(frames@)),
            lfr_m as nat,
            lfr_n as nat,
        ),
        rows_have_width(rows_view(out.0@), (MEL_BINS * lfr_m) as nat),
        frames_view(out.1@) == lfr_residual(frames_view(frames@), lfr_m as nat, lfr_n as nat),
{
    let frames_count = frames.len();
    let ghost features = features_of(frames_view(frames@));
    let t_lfr = if frames_count < lfr_m {
        0
    } else {
        (frames_count - lfr_m) / lfr_n
    };
    let mut rows: Vec<Vec<T>> = Vec::new();
    let mut t: usize = 0;
    while t < t_lfr
        invariant
            lfr_n > 0,
            t <= t_lfr,
            frames_count == frames@.len(),
            t_lfr == lfr_count(frames@.len(), lfr_m as nat, lfr_n as nat),
            features == features_of(frames_view(frames@)),
            rows@.len() == t,
            forall|k: int|
                0 <= k < t ==> (#[trigger] rows@[k])@ == lfr_row(
                    features,
                    k,
                    lfr_m as nat,
                    lfr_n as nat,
                ),
        decreases t_lfr - t,
    {
        proof {
            lemma_lfr_bounds(frames@.len(), lfr_m as nat, lfr_n as nat, t as int);
        }
        let start = t * lfr_n;
        let end = start + lfr_m;
        let mut row: Vec<T> = Vec::new();
        let mut j: usize = start;
        proof {
            assert(features.subrange(start as int, j as int) =~= Seq::<Seq<T>>::empty());
        }
        while j < end
            invariant
                start <= j <= end <= frames@.len(),
                features == features_of(frames_view(frames@)),
                row@ == concat_all(features.subrange(start as int, j as int)),
            decreases end - j,
        {
            append_copy(&mut row, frames[j].feature());
            j = j + 1;
            proof {
                assert(features.subrange(start as int, j as int).drop_last()
                    =~= features.subrange(start as int, j - 1));
            }
        }
        rows.push(row);
        t = t + 1;
    }
    proof {
        lemma_lfr_bounds(frames@.len(), lfr_m as nat, lfr_n as nat, t_lfr as int);
        assert(rows_view(rows@) =~= lfr_rows(features, lfr_m as nat, lfr_n as nat));
        assert(rows_have_width(features, MEL_BINS as nat));
        lemma_lfr_row_width(features, lfr_m as nat, lfr_n as nat);
    }
    let rest = copy_frames(frames, t_lfr * lfr_n, frames_count);
    proof {
        assert(frames_view(rest@) =~= lfr_residual(
            frames_view(frames@),
            lfr_m as nat,
            lfr_n as nat,
        ));
    }
    (rows, rest)
}

/// Normalization parameters of one model: an offset and a scale for every
/// column of a stacked row.
#[derive(Debug)]
pub struct CMVN<T> {
    pub means: Vec<T>,
    pub vars: Vec<T>,
}

/// Turns frames into the rows that a model reads: stacking, then
/// normalization.
#[derive(Debug)]
pub struct WavFrontend<T> {
    /// Normalization parameters.
    cmvn: CMVN<T>,
    /// Frames stacked into one row.
    lfr_m: usize,
    /// Frames between two consecutive rows.
    lfr_n: usize,
}

impl<T: Copy> WavFrontend<T> {
    /// Frames stacked into one row.
    pub closed spec fn spec_lfr_m(&self) -> nat {
        self.lfr_m as nat
    }

    /// Frames between two consecutive rows.
    pub closed spec fn spec_lfr_n(&self) -> nat {
        self.lfr_n as nat
    }

    /// The offsets, one per column.
    pub closed spec fn spec_means(&self) -> Seq<T> {
        self.cmvn.means@
    }

    /// The scales, one per column.
    pub closed spec fn spec_vars(&self) -> Seq<T> {
        self.cmvn.vars@
    }

    /// The width of a stacked row.
    pub open spec fn spec_width(&self) -> nat {
        (MEL_BINS * self.spec_lfr_m()) as nat
    }

    /// The stride is positive and there is one offset and one scale for
    /// every column of a stacked row.
    pub open spec fn wf(&self) -> bool {
        &&& self.spec_lfr_n() > 0
        &&& self.spec_means().len() == self.spec_width()
        &&& self.spec_vars().len() == self.spec_width()
    }

    /// A front end that stacks `lfr_m` frames every `lfr_n` frames and
    /// normalizes with `cmvn`.
    pub fn new(cmvn: CMVN<T>, lfr_m: usize, lfr_n: usize) -> (frontend: Self)
        requires
            lfr_n > 0,
            cmvn.means@.len() == MEL_BINS * lfr_m,
            cmvn.vars@.len() == MEL_BINS * lfr_m,
        ensures
            frontend.wf(),
            frontend.spec_lfr_m() == lfr_m,
            frontend.spec_lfr_n() == lfr_n,
            frontend.spec_means() == cmvn.means@,
            frontend.spec_vars() == cmvn.vars@,
    {
        WavFrontend { cmvn, lfr_m, lfr_n }
    }

    /// Frames stacked into one row.
    pub fn lfr_m(&self) -> (m: usize)
        ensures
            m == self.spec_lfr_m(),
    {
        self.lfr_m
    }

    /// Frames between two consecutive rows.
    pub fn lfr_n(&self) -> (n: usize)
        ensures
            n == self.spec_lfr_n(),
    {
        self.lfr_n
    }

    /// Stacks, then normalizes. `affine(x, mean, var)` computes the
    /// normalized value of `x`; it is called once for every value of every
    /// row, with the offset and the scale of the value's column. Returns the
    /// normalized rows and the frames left pending.
    pub fn extract_features<F: Fn(T, T, T) -> T>(&self, frames: &Vec<Frame<T>>, affine: &F) -> (out:
        (Vec<Vec<T>>, Vec<Frame<T>>))
        requires
            self.wf(),
            frames_wf(frames_view(frames@)),
            forall|x: T, mean: T, var: T| affine.requires((x, mean, var)),
        ensures
            self.normalized(
                lfr_rows(
                    features_of(frames_view(frames@)),
                    self.spec_lfr_m(),
                    self.spec_lfr_n(),
                ),
                rows_view(out.0@),
                *affine,
            ),
            frames_view(out.1@) == lfr_residual(
                frames_view(frames@),
                self.spec_lfr_m(),
                self.spec_lfr_n(),
            ),
    {
        let (features, rest) = self.apply_lfr(frames);
        (self.apply_cmvn(features, affine), rest)
    }

    /// Stacks the features of `lfr_m` consecutive frames into one row, a
    /// row every `lfr_n` frames, and returns the rows with the frames left
    /// pending.
    pub fn apply_lfr(&self, frames: &Vec<Frame<T>>) -> (out: (Vec<Vec<T>>, Vec<Frame<T>>))
        requires
            self.wf(),
            frames_wf(frames_view(frames@)),
        ensures
            rows_view(out.0@) == lfr_rows(
                features_of(frames_view(frames@)),
                self.spec_lfr_m(),
                self.spec_lfr_n(),
            ),
            rows_have_width(rows_view(out.0@), self.spec_width()),
            frames_view(out.1@) == lfr_residual(
                frames_view(frames@),
                self.spec_lfr_m(),
                self.spec_lfr_n(),
            ),
    {
        self::apply_lfr(frames, self.lfr_m, self.lfr_n)
    }

    /// `output` has the shape of `input`, and each of its values is a result
    /// of `affine` on the value of `input` at that place with the offset and
    /// the scale of its column.
    pub open spec fn normalized<F: Fn(T, T, T) -> T>(
        &self,
        input: Seq<Seq<T>>,
        output: Seq<Seq<T>>,
        affine: F,
    ) -> bool {
        &&& output.len() == input.len()
        &&& forall|t: int|
            0 <= t < input.len() ==> (#[trigger] output[t]).len() == input[t].len()
        &&& forall|t: int, i: int|
            0 <= t < input.len() && 0 <= i < input[t].len() ==> affine.ensures(
                (input[t][i], self.spec_means()[i], self.spec_vars()[i]),
                #[trigger] output[t][i],
            )
    }

    /// Normalizes every row: the value in column `i` becomes
    /// `affine(x, means[i], vars[i])`.
    pub fn apply_cmvn<F: Fn(T, T, T) -> T>(&self, features: Vec<Vec<T>>, affine: &F) -> (out: Vec<
        Vec<T>,
    >)
        requires
            self.wf(),
            rows_have_width(rows_view(features@), self.spec_width()),
            forall|x: T, mean: T, var: T| affine.requires((x, mean, var)),
        ensures
            self.normalized(rows_view(features@), rows_view(out@), *affine),
    {
        let ghost input = rows_view(features@);
        let mut new_features: Vec<Vec<T>> = Vec::new();
        let mut t: usize = 0;
        while t < features.len()
            invariant
                self.wf(),
                t <= features@.len(),
                input == rows_view(features@),
                rows_have_width(input, self.spec_width()),
                forall|x: T, mean: T, var: T| affine.requires((x, mean, var)),
                new_features@.len() == t,
                forall|k: int| 0 <= k < t ==> (#[trigger] new_features@[k])@.len() == input[k].len(),
                forall|k: int, i: int|
                    0 <= k < t && 0 <= i < input[k].len() ==> affine.ensures(
                        (input[k][i], self.spec_means()[i], self.spec_vars()[i]),
                        #[trigger] new_features@[k]@[i],
                    ),
            decreases features@.len() - t,
        {
            let row = &features[t];
            assert(row@ == input[t as int]);
            let mut new_frame: Vec<T> = Vec::new();
            let mut i: usize = 0;
            while i < row.len()
                invariant
                    self.wf(),
                    i <= row@.len(),
                    row@.len() == self.spec_width(),
                    forall|x: T, mean: T, var: T| affine.requires((x, mean, var)),
                    new_frame@.len() == i,
                    forall|k: int|
                        0 <= k < i ==> affine.ensures(
                            (row@[k], self.spec_means()[k], self.spec_vars()[k]),
                            #[trigger] new_frame@[k],
                        ),
                decreases row@.len() - i,
            {
                let value = affine(row[i], self.cmvn.means[i], self.cmvn.vars[i]);
                new_frame.push(value);
                i = i + 1;
            }
            new_features.push(new_frame);
            t = t + 1;
        }
        proof {
            let output = rows_view(new_features@);
            assert forall|k: int, i: int|
                0 <= k < input.len() && 0 <= i < input[k].len() implies affine.ensures(
                (input[k][i], self.spec_means()[i], self.spec_vars()[i]),
                #[trigger] output[k][i],
            ) by {
                assert(output[k][i] == new_features@[k]@[i]);
            }
        }
        new_features
    }
}

/// Rows and pending frames after the chunks of a frame stream have gone
/// through stacking one by one, each call starting from the frames that the
/// one before left pending.
pub open spec fn stream_lfr<T>(chunks: Seq<Seq<Seq<T>>>, m: nat, n: nat) -> (
    Seq<Seq<T>>,
    Seq<Seq<T>>,
)
    decreases chunks.len(),
{
    if chunks.len() == 0 {
        (Seq::empty(), Seq::empty())
    } else {
        let (rows, residual) = stream_lfr(chunks.drop_last(), m, n);
        let buffer = residual + chunks.last();
        (rows + lfr_rows(buffer, m, n), lfr_residual(buffer, m, n))
    }
}

/// Stacking `a`, then stacking what it left pending joined with `b`, makes
/// the same rows and leaves the same frames pending as stacking `a` joined
/// with `b` at once.
pub proof fn lemma_lfr_split<T>(a: Seq<Seq<T>>, b: Seq<Seq<T>>, m: nat, n: nat)
    requires
        n > 0,
    ensures
        lfr_rows(a + b, m, n) == lfr_rows(a, m, n) + lfr_rows(lfr_residual(a, m, n) + b, m, n),
        lfr_residual(a + b, m, n) == lfr_residual(lfr_residual(a, m, n) + b, m, n),
{
    let first = lfr_count(a.len(), m, n) as int;
    let whole = a + b;
    let rest = lfr_residual(a, m, n) + b;
    let second = lfr_count(rest.len(), m, n) as int;
    let total = lfr_count(whole.len(), m, n) as int;
    let step = n as int;
    lemma_lfr_bounds(a.len(), m, n, first);
    assert(rest =~= whole.skip(first * step));
    assert(rest.len() == whole.len() - first * step);
    if a.len() >= m {
        let beyond = whole.len() - m;
        assert(first * step <= a.len() - m) by (nonlinear_arith)
            requires
                first == (a.len() - m) / step,
                step > 0,
                a.len() - m >= 0,
        ;
        assert((beyond - first * step) / step == beyond / step - first) by (nonlinear_arith)
            requires
                step > 0,
                beyond - first * step >= 0,
                first >= 0,
        ;
    }
    assert(total == first + second);
    lemma_lfr_bounds(rest.len(), m, n, second);
    assert((first + second) * step == first * step + second * step) by (nonlinear_arith);
    assert(lfr_residual(whole, m, n) =~= lfr_residual(rest, m, n));
    let joined = lfr_rows(a, m, n) + lfr_rows(rest, m, n);
    assert(joined.len() == lfr_rows(whole, m, n).len());
    assert forall|t: int| 0 <= t < joined.len() implies joined[t] == lfr_rows(whole, m, n)[t] by {
        if t < first {
            lemma_lfr_bounds(a.len(), m, n, t);
            assert(a.subrange(t * step, t * step + m) =~= whole.subrange(t * step, t * step + m));
        } else {
            let u = t - first;
            lemma_lfr_bounds(rest.len(), m, n, u);
            assert(u * step + first * step == t * step) by (nonlinear_arith)
                requires
                    u == t - first,
            ;
            assert(rest.subrange(u * step, u * step + m) =~= whole.subrange(
                t * step,
                t * step + m,
            ));
        }
    }
    assert(joined =~= lfr_rows(whole, m, n));
}

/// However a frame stream is split into chunks, stacking the chunks one by
/// one makes the rows of the whole stream and leaves pending what stacking
/// the whole stream leaves pending.
pub proof fn lemma_chunked_lfr<T>(chunks: Seq<Seq<Seq<T>>>, m: nat, n: nat)
    requires
        n > 0,
    ensures
        stream_lfr(chunks, m, n) == (
            lfr_rows(concat_all(chunks), m, n),
            lfr_residual(concat_all(chunks), m, n),
        ),
    decreases chunks.len(),
{
    if chunks.len() == 0 {
        let none = Seq::<Seq<T>>::empty();
        assert(lfr_rows(none, m, n) =~= Seq::<Seq<T>>::empty());
        assert(lfr_residual(none, m, n) =~= none);
    } else {
        lemma_chunked_lfr(chunks.drop_last(), m, n);
        lemma_lfr_split(concat_all(chunks.drop_last()), chunks.last(), m, n);
    }
}

/// Rows, pending features and pending samples after the chunks of a sample
/// stream have gone through framing and stacking one by one. `feature`
/// stands for the computation that turns a window into its features.
pub open spec fn stream_rows<T>(
    chunks: Seq<Seq<T>>,
    feature: spec_fn(Seq<T>) -> Seq<T>,
    m: nat,
    n: nat,
) -> (Seq<Seq<T>>, Seq<Seq<T>>, Seq<T>)
    decreases chunks.len(),
{
    if chunks.len() == 0 {
        (Seq::empty(), Seq::empty(), Seq::empty())
    } else {
        let (rows, pending_features, pending_samples) = stream_rows(
            chunks.drop_last(),
            feature,
            m,
            n,
        );
        let samples = pending_samples + chunks.last();
        let features = pending_features + frame_windows(samples).map_values(feature);
        (rows + lfr_rows(features, m, n), lfr_residual(features, m, n), frame_residual(samples))
    }
}

/// However a sample stream is split into chunks, framing and stacking the
/// chunks one by one makes the rows that framing and stacking the whole
/// stream makes, and leaves the same features and the same samples pending.
pub proof fn lemma_chunked_rows<T>(
    chunks: Seq<Seq<T>>,
    feature: spec_fn(Seq<T>) -> Seq<T>,
    m: nat,
    n: nat,
)
    requires
        n > 0,
    ensures
        stream_rows(chunks, feature, m, n) == (
            lfr_rows(frame_windows(concat_all(chunks)).map_values(feature), m, n),
            lfr_residual(frame_windows(concat_all(chunks)).map_values(feature), m, n),
            frame_residual(concat_all(chunks)),
        ),
    decreases chunks.len(),
{
    if chunks.len() == 0 {
        let none = Seq::<T>::empty();
        let no_rows = Seq::<Seq<T>>::empty();
        assert(frame_windows(none).map_values(feature) =~= no_rows);
        assert(lfr_rows(no_rows, m, n) =~= no_rows);
        assert(lfr_residual(no_rows, m, n) =~= no_rows);
        assert(frame_residual(none) =~= none);
    } else {
        let before = concat_all(chunks.drop_last());
        let seen = frame_windows(before).map_values(feature);
        lemma_chunked_rows(chunks.drop_last(), feature, m, n);
        lemma_framing_split(before, chunks.last());
        let new = frame_windows(frame_residual(before) + chunks.last()).map_values(feature);
        assert(frame_windows(concat_all(chunks)).map_values(feature) =~= seen + new);
        lemma_lfr_split(seen, new, m, n);
    }
}

} // verus!
