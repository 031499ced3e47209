//! Small tools on vectors and sequences that the pipeline stages share.

use vstd::prelude::*;

verus! {

/// The rows of a vector of vectors, each as a sequence.
pub open spec fn rows_view<T>(rows: Seq<Vec<T>>) -> Seq<Seq<T>> {
    Seq::new(rows.len(), |i: int| rows[i]@)
}

/// All parts joined in order.
pub open spec fn concat_all<T>(parts: Seq<Seq<T>>) -> Seq<T>
    decreases parts.len(),
{
    if parts.len() == 0 {
        Seq::empty()
    } else {
        concat_all(parts.drop_last()) + parts.last()
    }
}

/// Joining parts of one common width gives that width times their number.
pub proof fn lemma_concat_all_len<T>(parts: Seq<Seq<T>>, width: nat)
    requires
        forall|i: int| 0 <= i < parts.len() ==> (#[trigger] parts[i]).len() == width,
    ensures
        concat_all(parts).len() == parts.len() * width,
    decreases parts.len(),
{
    if parts.len() > 0 {
        lemma_concat_all_len(parts.drop_last(), width);
        assert(concat_all(parts).len() == (parts.len() - 1) * width + width);
        assert((parts.len() - 1) * width + width == parts.len() * width) by (nonlinear_arith);
    } else {
        assert(0 * width == 0) by (nonlinear_arith);
    }
}

/// A copy of `v[from..to]`.
pub fn copy_range<T: Copy>(v: &Vec<T>, from: usize, to: usize) -> (out: Vec<T>)
    requires
        from <= to <= v@.len(),
    ensures
        out@ == v@.subrange(from as int, to as int),
{
    let mut out: Vec<T> = Vec::new();
    let mut i: usize = from;
    while i < to
        invariant
            from <= i <= to <= v@.len(),
            out@ == v@.subrange(from as int, i as int),
        decreases to - i,
    {
        out.push(v[i]);
        i = i + 1;
        proof {
            assert(out@ =~= v@.subrange(from as int, i as int));
        }
    }
    out
}

/// Appends a copy of `src` to `dst`.
pub fn append_copy<T: Copy>(dst: &mut Vec<T>, src: &Vec<T>)
    ensures
        final(dst)@ == old(dst)@ + src@,
{
    let mut i: usize = 0;
    proof {
        assert(dst@ =~= old(dst)@ + src@.take(0));
    }
    while i < src.len()
        invariant
            i <= src@.len(),
            dst@ == old(dst)@ + src@.take(i as int),
        decreases src@.len() - i,
    {
        dst.push(src[i]);
        i = i + 1;
        proof {
            assert(dst@ =~= old(dst)@ + src@.take(i as int));
        }
    }
    proof {
        assert(src@.take(i as int) =~= src@);
    }
}

/// A copy of the rows `rows[from..to]`.
pub fn copy_rows<T: Copy>(rows: &Vec<Vec<T>>, from: usize, to: usize) -> (out: Vec<Vec<T>>)
    requires
        from <= to <= rows@.len(),
    ensures
        rows_view(out@) == rows_view(rows@).subrange(from as int, to as int),
{
    let mut out: Vec<Vec<T>> = Vec::new();
    let mut i: usize = from;
    proof {
        assert(rows_view(out@) =~= rows_view(rows@).subrange(from as int, i as int));
    }
    while i < to
        invariant
            from <= i <= to <= rows@.len(),
            rows_view(out@) == rows_view(rows@).subrange(from as int, i as int),
        decreases to - i,
    {
        let ghost before = rows_view(out@);
        let n = rows[i].len();
        let row = copy_range(&rows[i], 0, n);
        proof {
            assert(row@ =~= rows@[i as int]@);
        }
        out.push(row);
        i = i + 1;
        proof {
            assert(rows_view(out@) =~= before.push(rows@[i - 1]@));
            assert(rows_view(out@) =~= rows_view(rows@).subrange(from as int, i as int));
        }
    }
    out
}

/// `n` copies of `value`.
pub fn filled<T: Copy>(value: T, n: usize) -> (out: Vec<T>)
    ensures
        out@ == Seq::new(n as nat, |i: int| value),
{
    let mut out: Vec<T> = Vec::new();
    while out.len() < n
        invariant
            out@.len() <= n,
            forall|i: int| 0 <= i < out@.len() ==> out@[i] == value,
        decreases n - out@.len(),
    {
        out.push(value);
    }
    proof {
        assert(out@ =~= Seq::new(n as nat, |i: int| value));
    }
    out
}

/// `rows` rows of `cols` copies of `value` each.
pub fn filled_rows<T: Copy>(value: T, rows: usize, cols: usize) -> (out: Vec<Vec<T>>)
    ensures
        rows_view(out@) == Seq::new(rows as nat, |r: int| Seq::new(cols as nat, |c: int| value)),
{
    let mut out: Vec<Vec<T>> = Vec::new();
    while out.len() < rows
        invariant
            out@.len() <= rows,
            forall|r: int|
                0 <= r < out@.len() ==> (#[trigger] out@[r])@ == Seq::new(
                    cols as nat,
                    |c: int| value,
                ),
        decreases rows - out@.len(),
    {
        out.push(filled(value, cols));
    }
    proof {
        assert(rows_view(out@) =~= Seq::new(
            rows as nat,
            |r: int| Seq::new(cols as nat, |c: int| value),
        ));
    }
    out
}

} // verus!
