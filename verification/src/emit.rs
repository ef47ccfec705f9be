//! Writing the swapped, scaled image of a transformed matrix into a plane.
use vstd::prelude::*;
use crate::error::ComputationError;
use crate::ingest::lemma_dense_len;
use crate::layout::{offset, Layout, lemma_offset_in_span, lemma_offset_unique};
use crate::matrix::{MatrixView, WorkingMatrix};
use crate::quadrants::{
    source, target_quadrant, Quadrant, Rect, lemma_quadrant_copy_is_swap, lemma_quadrants_tile,
};

verus! {

/// Every position of a buffer is the offset of its own row and column.
pub proof fn lemma_position_is_offset(k: int, stride: int)
    requires
        stride >= 1,
        k >= 0,
    ensures
        k == offset(k / stride, k % stride, stride),
        0 <= k % stride < stride,
        0 <= k / stride,
{
    vstd::arithmetic::div_mod::lemma_fundamental_div_mod(k, stride);
    vstd::arithmetic::div_mod::lemma_mod_bound(k, stride);
    vstd::arithmetic::div_mod::lemma_div_pos_is_pos(k, stride);
    assert(stride * (k / stride) == (k / stride) * stride) by (nonlinear_arith);
}

/// `after` is `before` with the rectangle `to` overwritten as far as a
/// row-by-row copy has come once `rows` whole rows and `cols` cells of the
/// next row are written: the cell at offset `(i, j)` of `to` holds a scaled
/// copy of the cell at offset `(i, j)` of the rectangle `from` of `src`.
/// Every other position is as it was.
spec fn rect_shown_partly<C, U, F: Fn(&C) -> U>(
    scale: &F,
    src: Seq<C>,
    src_width: usize,
    from: Rect,
    before: Seq<U>,
    after: Seq<U>,
    stride: usize,
    to: Rect,
    rows: int,
    cols: int,
) -> bool {
    &&& after.len() == before.len()
    &&& forall|k: int|
        0 <= k < after.len() ==> if to.contains(k / (stride as int), k % (stride as int)) && (k / (
        stride as int) < to.row + rows || (k / (stride as int) == to.row + rows && k % (
        stride as int) < to.col + cols)) {
            call_ensures(
                *scale,
                (
                    &src[offset(
                        from.row + (k / (stride as int) - to.row),
                        from.col + (k % (stride as int) - to.col),
                        src_width as int,
                    )],
                ),
                #[trigger] after[k],
            )
        } else {
            after[k] == before[k]
        }
}

/// `after` is `before` with the whole rectangle `to` overwritten.
spec fn rect_shown<C, U, F: Fn(&C) -> U>(
    scale: &F,
    src: Seq<C>,
    src_width: usize,
    from: Rect,
    before: Seq<U>,
    after: Seq<U>,
    stride: usize,
    to: Rect,
) -> bool {
    rect_shown_partly(scale, src, src_width, from, before, after, stride, to, to.rows as int, 0)
}

/// Copies the rectangle `from` of `src` to the rectangle `to` of `dst`,
/// passing every cell through `scale`.
fn copy_rect_with<C, U, F: Fn(&C) -> U>(
    src: &[C],
    src_layout: Layout,
    from: Rect,
    dst: &mut [U],
    dst_layout: Layout,
    to: Rect,
    scale: &F,
)
    requires
        src_layout.fits(src@.len() as int),
        dst_layout.fits(old(dst)@.len() as int),
        from.within(src_layout.height as int, src_layout.width as int),
        to.within(dst_layout.height as int, dst_layout.width as int),
        from.rows == to.rows,
        from.cols == to.cols,
        forall|i: int| 0 <= i < src@.len() ==> call_requires(*scale, (&#[trigger] src@[i],)),
    ensures
        rect_shown(
            scale,
            src@,
            src_layout.stride,
            from,
            old(dst)@,
            final(dst)@,
            dst_layout.stride,
            to,
        ),
{
    let ghost before = dst@;
    assert(src.len() <= usize::MAX && dst.len() <= usize::MAX);
    let mut i: usize = 0;
    while i < to.rows
        invariant
            i <= to.rows,
            src@.len() <= usize::MAX,
            dst@.len() <= usize::MAX,
            src_layout.fits(src@.len() as int),
            dst_layout.fits(dst@.len() as int),
            from.within(src_layout.height as int, src_layout.width as int),
            to.within(dst_layout.height as int, dst_layout.width as int),
            from.rows == to.rows,
            from.cols == to.cols,
            forall|i: int| 0 <= i < src@.len() ==> call_requires(*scale, (&#[trigger] src@[i],)),
            rect_shown_partly(
                scale,
                src@,
                src_layout.stride,
                from,
                before,
                dst@,
                dst_layout.stride,
                to,
                i as int,
                0,
            ),
        decreases to.rows - i,
    {
        let mut j: usize = 0;
        while j < to.cols
            invariant
                i < to.rows,
                j <= to.cols,
                src@.len() <= usize::MAX,
                dst@.len() <= usize::MAX,
                src_layout.fits(src@.len() as int),
                dst_layout.fits(dst@.len() as int),
                from.within(src_layout.height as int, src_layout.width as int),
                to.within(dst_layout.height as int, dst_layout.width as int),
                from.rows == to.rows,
                from.cols == to.cols,
                forall|i: int|
                    0 <= i < src@.len() ==> call_requires(*scale, (&#[trigger] src@[i],)),
                rect_shown_partly(
                    scale,
                    src@,
                    src_layout.stride,
                    from,
                    before,
                    dst@,
                    dst_layout.stride,
                    to,
                    i as int,
                    j as int,
                ),
            decreases to.cols - j,
        {
            proof {
                lemma_offset_in_span(
                    from.row + i,
                    from.col + j,
                    src_layout.height as int,
                    src_layout.width as int,
                    src_layout.stride as int,
                );
                lemma_offset_in_span(
                    to.row + i,
                    to.col + j,
                    dst_layout.height as int,
                    dst_layout.width as int,
                    dst_layout.stride as int,
                );
                assert((from.row + i) * src_layout.stride >= 0) by (nonlinear_arith)
                    requires
                        from.row + i >= 0,
                        src_layout.stride >= 0,
                ;
                assert((to.row + i) * dst_layout.stride >= 0) by (nonlinear_arith)
                    requires
                        to.row + i >= 0,
                        dst_layout.stride >= 0,
                ;
            }
            let s: usize = (from.row + i) * src_layout.stride + (from.col + j);
            let d: usize = (to.row + i) * dst_layout.stride + (to.col + j);
            let ghost prev = dst@;
            let value = scale(&src[s]);
            dst[d] = value;
            proof {
                let stride = dst_layout.stride as int;
                lemma_offset_unique(to.row + i, to.col + j, stride);
                assert forall|k: int| 0 <= k < dst@.len() implies if to.contains(
                    k / stride,
                    k % stride,
                ) && (k / stride < to.row + i || (k / stride == to.row + i && k % stride < to.col
                    + j + 1)) {
                    call_ensures(
                        *scale,
                        (
                            &src@[offset(
                                from.row + (k / stride - to.row),
                                from.col + (k % stride - to.col),
                                src_layout.stride as int,
                            )],
                        ),
                        #[trigger] dst@[k],
                    )
                } else {
                    dst@[k] == before[k]
                } by {
                    lemma_position_is_offset(k, stride);
                    if k != d {
                        assert(dst@[k] == prev[k]);
                    }
                }
            }
            j += 1;
        }
        i += 1;
    }
}

/// `after` is `before` with the image of the matrix written into it at the
/// given stride: cell `(r, c)` of the grid holds a scaled copy of the bin
/// that the quadrant swap shows there, and every position outside the grid
/// (the padding of each row, and what follows the last row) is as it was.
pub open spec fn shown<C, U, F: Fn(&C) -> U>(
    scale: &F,
    matrix: MatrixView<C>,
    before: Seq<U>,
    after: Seq<U>,
    stride: usize,
) -> bool {
    &&& after.len() == before.len()
    &&& forall|k: int|
        0 <= k < after.len() ==> if k / (stride as int) < matrix.height && k % (stride as int)
            < matrix.width {
            call_ensures(
                *scale,
                (
                    &matrix.at(
                        source(k / (stride as int), matrix.height as int),
                        source(k % (stride as int), matrix.width as int),
                    ),
                ),
                #[trigger] after[k],
            )
        } else {
            after[k] == before[k]
        }
}

/// The layout of a plane that has the height and width of the matrix and
/// rows that start `stride` apart.
pub open spec fn plane<C>(matrix: MatrixView<C>, stride: usize) -> Layout {
    Layout { height: matrix.height as usize, width: matrix.width as usize, stride }
}

impl<C: Copy> WorkingMatrix<C> {
    /// Writes the image of the matrix into `dst`, a plane of the same
    /// height and width whose rows start `stride` apart: the four quadrants
    /// change places diagonally and every bin passes through `scale` on its
    /// way.  Fails, and writes nothing, when `stride` is less than the width
    /// or `dst` ends before the last cell of the plane.
    pub fn emit_with<U, F: Fn(&C) -> U>(&self, scale: &F, dst: &mut [U], stride: usize) -> (res:
        Result<(), ComputationError>)
        requires
            forall|i: int|
                0 <= i < self@.cells.len() ==> call_requires(*scale, (&#[trigger] self@.cells[i],)),
        ensures
            match res {
                Ok(_) => {
                    &&& plane(self@, stride).fits(old(dst)@.len() as int)
                    &&& shown(scale, self@, old(dst)@, final(dst)@, stride)
                },
                Err(e) => {
                    &&& e == ComputationError::ShapeMismatch
                    &&& !plane(self@, stride).fits(old(dst)@.len() as int)
                    &&& final(dst)@ == old(dst)@
                },
            },
    {
        let height = self.height();
        let width = self.width();
        let cells = self.cells();
        let from = Layout { height, width, stride: width };
        let to = Layout { height, width, stride };
        if !to.admits(dst.len()) {
            return Err(ComputationError::ShapeMismatch);
        }
        proof {
            use_type_invariant(self);
            lemma_dense_len(height as int, width as int, width as int);
        }
        let ghost d0 = dst@;
        copy_rect_with(
            cells,
            from,
            Quadrant::BottomRight.source_rect(height, width),
            dst,
            to,
            Quadrant::BottomRight.target_rect(height, width),
            scale,
        );
        let ghost d1 = dst@;
        copy_rect_with(
            cells,
            from,
            Quadrant::BottomLeft.source_rect(height, width),
            dst,
            to,
            Quadrant::BottomLeft.target_rect(height, width),
            scale,
        );
        let ghost d2 = dst@;
        copy_rect_with(
            cells,
            from,
            Quadrant::TopRight.source_rect(height, width),
            dst,
            to,
            Quadrant::TopRight.target_rect(height, width),
            scale,
        );
        let ghost d3 = dst@;
        copy_rect_with(
            cells,
            from,
            Quadrant::TopLeft.source_rect(height, width),
            dst,
            to,
            Quadrant::TopLeft.target_rect(height, width),
            scale,
        );
        proof {
            let s = stride as int;
            assert forall|k: int| 0 <= k < dst@.len() implies if k / s < height && k % s < width {
                call_ensures(
                    *scale,
                    (&self@.at(source(k / s, height as int), source(k % s, width as int)),),
                    #[trigger] dst@[k],
                )
            } else {
                dst@[k] == d0[k]
            } by {
                let r = k / s;
                let c = k % s;
                lemma_position_is_offset(k, s);
                // Bring in what each of the four copies says of position k.
                assert(d1[k] == d1[k] && d2[k] == d2[k] && d3[k] == d3[k]);
                if r < height && c < width {
                    let q = target_quadrant(r, c, height, width);
                    lemma_quadrants_tile(Quadrant::TopLeft, r, c, height, width);
                    lemma_quadrants_tile(Quadrant::TopRight, r, c, height, width);
                    lemma_quadrants_tile(Quadrant::BottomLeft, r, c, height, width);
                    lemma_quadrants_tile(Quadrant::BottomRight, r, c, height, width);
                    let i = r - q.spec_target_rect(height, width).row;
                    let j = c - q.spec_target_rect(height, width).col;
                    lemma_quadrant_copy_is_swap(q, i, j, height, width);
                }
            }
        }
        Ok(())
    }
}

/// What an image holds cell by cell: output cell `(r, c)` is a scaled copy
/// of the bin that the swap of both axes shows there.
pub proof fn lemma_shown_cell<C, U, F: Fn(&C) -> U>(
    scale: &F,
    matrix: MatrixView<C>,
    before: Seq<U>,
    after: Seq<U>,
    stride: usize,
    r: int,
    c: int,
)
    requires
        matrix.wf(),
        shown(scale, matrix, before, after, stride),
        plane(matrix, stride).fits(after.len() as int),
        0 <= r < matrix.height,
        0 <= c < matrix.width,
    ensures
        0 <= offset(r, c, stride as int) < after.len(),
        call_ensures(
            *scale,
            (&matrix.at(source(r, matrix.height as int), source(c, matrix.width as int)),),
            after[offset(r, c, stride as int)],
        ),
{
    lemma_offset_in_span(r, c, matrix.height as int, matrix.width as int, stride as int);
    lemma_offset_unique(r, c, stride as int);
    let k = offset(r, c, stride as int);
    assert(after[k] == after[k]);
}

/// The zero-frequency bin, cell `(0, 0)` of the transformed matrix, is
/// shown in the middle of the image: at row `height / 2` and column
/// `width / 2`.
pub proof fn lemma_zero_bin_shown_at_center<C, U, F: Fn(&C) -> U>(
    scale: &F,
    matrix: MatrixView<C>,
    before: Seq<U>,
    after: Seq<U>,
    stride: usize,
)
    requires
        matrix.wf(),
        shown(scale, matrix, before, after, stride),
        plane(matrix, stride).fits(after.len() as int),
    ensures
        0 <= offset(matrix.height as int / 2, matrix.width as int / 2, stride as int) < after.len(),
        call_ensures(
            *scale,
            (&matrix.cells[0],),
            after[offset(matrix.height as int / 2, matrix.width as int / 2, stride as int)],
        ),
{
    crate::quadrants::lemma_zero_bin_centered(matrix.height as int);
    crate::quadrants::lemma_zero_bin_centered(matrix.width as int);
    lemma_shown_cell(
        scale,
        matrix,
        before,
        after,
        stride,
        matrix.height as int / 2,
        matrix.width as int / 2,
    );
    assert(offset(0, 0, matrix.width as int) == 0);
}

} // verus!
