//! The whole computation: pack, transform every row, transform every
//! column, swap the quadrants and scale.
use vstd::prelude::*;
use crate::emit::shown;
use crate::error::ComputationError;
use crate::ingest::lemma_packing_ignores_padding;
use crate::layout::{offset, Layout};
use crate::matrix::{ingested, Line, MatrixView, WorkingMatrix, lemma_with_line_reads_back};

verus! {

/// `after` is a line that the transform may give for the line `before`.
pub open spec fn line_transformed<C, T: Fn(Vec<C>) -> Option<Vec<C>>>(
    transform: &T,
    before: Seq<C>,
    after: Seq<C>,
) -> bool {
    exists|line: Vec<C>, out: Vec<C>|
        #![trigger call_ensures(*transform, (line,), Some(out))]
        line@ == before && out@ == after && call_ensures(*transform, (line,), Some(out))
}

/// The transform may fail: for some line it may give none, or one of
/// another length.
pub open spec fn may_fail<C, T: Fn(Vec<C>) -> Option<Vec<C>>>(transform: &T) -> bool {
    exists|line: Vec<C>, out: Option<Vec<C>>|
        #![trigger call_ensures(*transform, (line,), out)]
        call_ensures(*transform, (line,), out) && (out is None || out->Some_0@.len()
            != line@.len())
}

/// Every row of `after` is a transform of the same row of `before`.
pub open spec fn rows_transformed<C, T: Fn(Vec<C>) -> Option<Vec<C>>>(
    transform: &T,
    before: MatrixView<C>,
    after: MatrixView<C>,
) -> bool {
    &&& after.height == before.height
    &&& after.width == before.width
    &&& forall|r: int|
        0 <= r < before.height ==> line_transformed(transform, before.row(r), #[trigger] after.row(r))
}

/// Every column of `after` is a transform of the same column of `before`.
pub open spec fn columns_transformed<C, T: Fn(Vec<C>) -> Option<Vec<C>>>(
    transform: &T,
    before: MatrixView<C>,
    after: MatrixView<C>,
) -> bool {
    &&& after.height == before.height
    &&& after.width == before.width
    &&& forall|c: int|
        0 <= c < before.width ==> line_transformed(
            transform,
            before.column(c),
            #[trigger] after.column(c),
        )
}

/// `after` is what the two passes may make of `before`: the rows of
/// `before` were transformed, then the columns of the result.
pub open spec fn transformed<C, T: Fn(Vec<C>) -> Option<Vec<C>>>(
    transform: &T,
    before: MatrixView<C>,
    after: MatrixView<C>,
) -> bool {
    exists|mid: MatrixView<C>|
        #![trigger rows_transformed(transform, before, mid)]
        {
            &&& mid.wf()
            &&& rows_transformed(transform, before, mid)
            &&& columns_transformed(transform, mid, after)
        }
}

/// `after` is `before` with a spectrum of the grid in `cells` written into
/// it: the rows of the packed grid were transformed, then the columns of
/// the result, and the image of that matrix is shown in `after`.
pub open spec fn is_spectrum<C, U, T: Fn(Vec<C>) -> Option<Vec<C>>, S: Fn(&C) -> U>(
    transform: &T,
    scale: &S,
    cells: Seq<C>,
    layout: Layout,
    before: Seq<U>,
    after: Seq<U>,
    stride: usize,
) -> bool {
    exists|last: MatrixView<C>|
        #![trigger transformed(transform, ingested(cells, layout), last)]
        {
            &&& last.wf()
            &&& transformed(transform, ingested(cells, layout), last)
            &&& shown(scale, last, before, after, stride)
        }
}

/// The rows above `done` are transformed, the others are as they were.
spec fn rows_in_progress<C, T: Fn(Vec<C>) -> Option<Vec<C>>>(
    transform: &T,
    before: MatrixView<C>,
    now: MatrixView<C>,
    done: int,
) -> bool {
    &&& now.height == before.height
    &&& now.width == before.width
    &&& forall|r: int|
        0 <= r < done ==> line_transformed(transform, before.row(r), #[trigger] now.row(r))
    &&& forall|r: int| done <= r < before.height ==> #[trigger] now.row(r) == before.row(r)
}

/// The columns left of `done` are transformed, the others are as they were.
spec fn columns_in_progress<C, T: Fn(Vec<C>) -> Option<Vec<C>>>(
    transform: &T,
    before: MatrixView<C>,
    now: MatrixView<C>,
    done: int,
) -> bool {
    &&& now.height == before.height
    &&& now.width == before.width
    &&& forall|c: int|
        0 <= c < done ==> line_transformed(transform, before.column(c), #[trigger] now.column(c))
    &&& forall|c: int| done <= c < before.width ==> #[trigger] now.column(c) == before.column(c)
}

/// Replacing one line leaves every other line of the same direction as it
/// was.
proof fn lemma_other_lines_unchanged<C>(m: MatrixView<C>, line: Line, values: Seq<C>)
    requires
        m.wf(),
        match line {
            Line::Row(r) => r < m.height,
            Line::Column(c) => c < m.width,
        },
        values.len() == m.line(line).len(),
    ensures
        line matches Line::Row(i) ==> forall|r: int|
            0 <= r < m.height && r != i ==> #[trigger] (MatrixView {
                cells: m.with_line(line, values),
                ..m
            }).row(r) == m.row(r),
        line matches Line::Column(j) ==> forall|c: int|
            0 <= c < m.width && c != j ==> #[trigger] (MatrixView {
                cells: m.with_line(line, values),
                ..m
            }).column(c) == m.column(c),
{
    let after = MatrixView { cells: m.with_line(line, values), ..m };
    lemma_with_line_reads_back(m, line, values);
    match line {
        Line::Row(i) => {
            assert forall|r: int| 0 <= r < m.height && r != i implies #[trigger] after.row(r)
                == m.row(r) by {
                assert forall|c: int| 0 <= c < m.width implies after.row(r)[c] == m.row(r)[c] by {
                    assert(after.cells[offset(r, c, m.width as int)] == m.at(r, c));
                }
                assert(after.row(r) =~= m.row(r));
            }
        },
        Line::Column(j) => {
            assert forall|c: int| 0 <= c < m.width && c != j implies #[trigger] after.column(c)
                == m.column(c) by {
                assert forall|r: int| 0 <= r < m.height implies after.column(c)[r] == m.column(
                    c,
                )[r] by {
                    assert(after.cells[offset(r, c, m.width as int)] == m.at(r, c));
                }
                assert(after.column(c) =~= m.column(c));
            }
        },
    }
}

/// Transforms the lines of a fresh matrix one after the other, as the
/// matrix hands them out: every row, then every column.
fn transform_lines<C: Copy, T: Fn(Vec<C>) -> Option<Vec<C>>>(
    matrix: &mut WorkingMatrix<C>,
    transform: &T,
) -> (res: Result<(), ComputationError>)
    requires
        old(matrix)@.rows_done == 0,
        old(matrix)@.cols_done == 0,
        forall|line: Vec<C>| #[trigger] call_requires(*transform, (line,)),
    ensures
        match res {
            Ok(_) => transformed(transform, old(matrix)@, final(matrix)@),
            Err(e) => e == ComputationError::TransformFailure && may_fail(transform),
        },
        final(matrix)@.wf(),
{
    let ghost first = matrix@;
    let ghost mut mid = matrix@;
    proof {
        use_type_invariant(&*matrix);
    }
    loop
        invariant
            first.wf(),
            matrix@.wf(),
            mid.wf(),
            matrix@.rows_done < first.height ==> rows_in_progress(
                transform,
                first,
                matrix@,
                matrix@.rows_done as int,
            ),
            matrix@.rows_done == first.height ==> rows_transformed(transform, first, mid)
                && columns_in_progress(transform, mid, matrix@, matrix@.cols_done as int),
            matrix@.height == first.height,
            matrix@.width == first.width,
            forall|line: Vec<C>| #[trigger] call_requires(*transform, (line,)),
        ensures
            matrix@.pending() is None,
        decreases matrix@.remaining(),
    {
        let ghost now = matrix@;
        let line = match matrix.next_line() {
            Some(line) => line,
            None => {
                break ;
            },
        };
        let ghost which = now.pending()->Some_0;
        let ghost sent = line;
        let out = match transform(line) {
            Some(out) => out,
            None => {
                assert(call_ensures(*transform, (sent,), None::<Vec<C>>));
                return Err(ComputationError::TransformFailure);
            },
        };
        assert(call_ensures(*transform, (sent,), Some(out)));
        if matrix.put_line(out.as_slice()).is_err() {
            return Err(ComputationError::TransformFailure);
        }
        proof {
            lemma_with_line_reads_back(now, which, out@);
            lemma_other_lines_unchanged(now, which, out@);
            match which {
                Line::Row(r) => {
                    assert(matrix@.row(r as int) == out@);
                    assert(line_transformed(transform, first.row(r as int), matrix@.row(r as int)));
                    assert forall|i: int| 0 <= i < r + 1 implies line_transformed(
                        transform,
                        first.row(i),
                        #[trigger] matrix@.row(i),
                    ) by {
                        if i != r {
                            assert(matrix@.row(i) == now.row(i));
                        }
                    }
                    assert forall|i: int| r + 1 <= i < first.height implies #[trigger] matrix@.row(
                        i,
                    ) == first.row(i) by {
                        assert(matrix@.row(i) == now.row(i));
                    }
                    if r + 1 == first.height {
                        mid = matrix@;
                    }
                },
                Line::Column(c) => {
                    assert(matrix@.column(c as int) == out@);
                    assert(line_transformed(
                        transform,
                        mid.column(c as int),
                        matrix@.column(c as int),
                    ));
                    assert forall|j: int| 0 <= j < c + 1 implies line_transformed(
                        transform,
                        mid.column(j),
                        #[trigger] matrix@.column(j),
                    ) by {
                        if j != c {
                            assert(matrix@.column(j) == now.column(j));
                        }
                    }
                    assert forall|j: int| c + 1 <= j < first.width implies #[trigger] matrix@.column(
                        j,
                    ) == mid.column(j) by {
                        assert(matrix@.column(j) == now.column(j));
                    }
                },
            }
        }
    }
    proof {
        assert(columns_transformed(transform, mid, matrix@));
        assert(rows_transformed(transform, first, mid));
    }
    Ok(())
}

/// Computes the spectrum image of one padded grid and writes it into
/// `dst`, a plane of the same height and width whose rows start `stride`
/// apart.
///
/// The cells are packed into a dense matrix; `transform` is applied to
/// every row, then to every column of the result; the quadrants of the
/// transformed matrix change places and every bin passes through `scale`
/// on its way into `dst`.
///
/// Fails with `ShapeMismatch` when either layout is not valid for its
/// buffer, and with `TransformFailure` when `transform` gives no line, or
/// one of another length than it was given.  `dst` is written only on
/// success.
pub fn compute_spectrum<C: Copy, U, T: Fn(Vec<C>) -> Option<Vec<C>>, S: Fn(&C) -> U>(
    cells: Vec<C>,
    layout: Layout,
    transform: &T,
    scale: &S,
    dst: &mut [U],
    stride: usize,
) -> (res: Result<(), ComputationError>)
    requires
        forall|line: Vec<C>| #[trigger] call_requires(*transform, (line,)),
        forall|cell: C| #[trigger] call_requires(*scale, (&cell,)),
    ensures
        match res {
            Ok(_) => {
                &&& layout.fits(cells@.len() as int)
                &&& (Layout { stride, ..layout }).fits(old(dst)@.len() as int)
                &&& is_spectrum(transform, scale, cells@, layout, old(dst)@, final(dst)@, stride)
            },
            Err(ComputationError::ShapeMismatch) => {
                &&& !(layout.fits(cells@.len() as int) && (Layout { stride, ..layout }).fits(
                    old(dst)@.len() as int,
                ))
                &&& final(dst)@ == old(dst)@
            },
            Err(ComputationError::TransformFailure) => {
                &&& layout.fits(cells@.len() as int)
                &&& (Layout { stride, ..layout }).fits(old(dst)@.len() as int)
                &&& may_fail(transform)
                &&& final(dst)@ == old(dst)@
            },
        },
{
    let ghost given = cells@;
    if !(Layout { stride, ..layout }).admits(dst.len()) {
        return Err(ComputationError::ShapeMismatch);
    }
    let mut matrix = match WorkingMatrix::ingest(cells, layout) {
        Ok(matrix) => matrix,
        Err(e) => {
            return Err(e);
        },
    };
    let ghost first = matrix@;
    if transform_lines(&mut matrix, transform).is_err() {
        return Err(ComputationError::TransformFailure);
    }
    let ghost last = matrix@;
    let ghost before = dst@;
    match matrix.emit_with(scale, dst, stride) {
        Ok(()) => {
            proof {
                assert(transformed(transform, ingested(given, layout), last));
                assert(shown(scale, last, before, dst@, stride));
            }
            Ok(())
        },
        Err(e) => Err(e),
    }
}

/// A spectrum has the shape of its input: the buffer keeps its length, the
/// cells of the `height` by `width` grid hold the image, and every position
/// outside the grid is as it was.
pub proof fn lemma_spectrum_keeps_shape<C, U, T: Fn(Vec<C>) -> Option<Vec<C>>, S: Fn(&C) -> U>(
    transform: &T,
    scale: &S,
    cells: Seq<C>,
    layout: Layout,
    before: Seq<U>,
    after: Seq<U>,
    stride: usize,
)
    requires
        is_spectrum(transform, scale, cells, layout, before, after, stride),
    ensures
        after.len() == before.len(),
        forall|k: int|
            0 <= k < after.len() && !(k / (stride as int) < layout.height && k % (stride as int)
                < layout.width) ==> #[trigger] after[k] == before[k],
{
    let last = choose|last: MatrixView<C>|
        #![trigger transformed(transform, ingested(cells, layout), last)]
        {
            &&& last.wf()
            &&& transformed(transform, ingested(cells, layout), last)
            &&& shown(scale, last, before, after, stride)
        };
    assert(last.height == layout.height && last.width == layout.width);
}

/// A spectrum depends on the cells of the grid alone: what is a spectrum
/// of one padded buffer is a spectrum of every buffer that holds the same
/// grid, whatever its stride and whatever its padding holds.
pub proof fn lemma_spectrum_ignores_padding<C, U, T: Fn(Vec<C>) -> Option<Vec<C>>, S: Fn(&C) -> U>(
    transform: &T,
    scale: &S,
    a: Seq<C>,
    la: Layout,
    b: Seq<C>,
    lb: Layout,
    before: Seq<U>,
    after: Seq<U>,
    stride: usize,
)
    requires
        la.fits(a.len() as int),
        lb.fits(b.len() as int),
        la.height == lb.height,
        la.width == lb.width,
        forall|r: int, c: int|
            0 <= r < la.height && 0 <= c < la.width ==> a[offset(r, c, la.stride as int)] == b[offset(
                r,
                c,
                lb.stride as int,
            )],
        is_spectrum(transform, scale, a, la, before, after, stride),
    ensures
        is_spectrum(transform, scale, b, lb, before, after, stride),
{
    lemma_packing_ignores_padding(a, la, b, lb);
    assert(ingested(a, la) == ingested(b, lb));
}

} // verus!
