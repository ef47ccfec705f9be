//! Packing a padded plane into a dense buffer.
use vstd::prelude::*;
use crate::error::ComputationError;
use crate::layout::{offset, span, Layout, lemma_offset_in_span, lemma_offset_unique};

verus! {

/// The dense image of a padded grid: cell `(r, c)` of the grid, found in
/// `input` at `r * stride + c`, stands at `r * width + c`.
pub open spec fn packed<C>(input: Seq<C>, layout: Layout) -> Seq<C> {
    Seq::new(
        (layout.height * layout.width) as nat,
        |k: int|
            input[offset(
                k / (layout.width as int),
                k % (layout.width as int),
                layout.stride as int,
            )],
    )
}

/// A dense matrix holds as many cells as it has rows times columns, and no
/// more than the padded buffer it was packed from.
pub proof fn lemma_dense_len(height: int, width: int, stride: int)
    requires
        height >= 1,
        1 <= width <= stride,
    ensures
        0 < height * width <= span(height, width, stride),
        height * width == span(height, width, width),
{
    assert((height - 1) * width <= (height - 1) * stride) by (nonlinear_arith)
        requires
            height - 1 >= 0,
            width <= stride,
    ;
    assert(height * width == (height - 1) * width + width) by (nonlinear_arith);
    assert((height - 1) * width >= 0) by (nonlinear_arith)
        requires
            height - 1 >= 0,
            width >= 1,
    ;
}

/// Packing reads nothing but the cells of the grid: two buffers that agree
/// on every cell give the same dense matrix, whatever their strides and
/// whatever their padding holds.
pub proof fn lemma_packing_ignores_padding<C>(a: Seq<C>, la: Layout, b: Seq<C>, lb: Layout)
    requires
        la.fits(a.len() as int),
        lb.fits(b.len() as int),
        la.height == lb.height,
        la.width == lb.width,
        forall|r: int, c: int|
            0 <= r < la.height && 0 <= c < la.width ==> a[offset(r, c, la.stride as int)] == b[offset(
                r,
                c,
                lb.stride as int,
            )],
    ensures
        packed(a, la) == packed(b, lb),
{
    let width = la.width as int;
    assert forall|k: int| 0 <= k < la.height * la.width implies packed(a, la)[k] == packed(
        b,
        lb,
    )[k] by {
        lemma_cell_of_position(k, la.height as int, width);
    }
    assert(packed(a, la) =~= packed(b, lb));
}

/// A position of a dense matrix belongs to a cell of the grid.
pub proof fn lemma_cell_of_position(k: int, height: int, width: int)
    requires
        width >= 1,
        0 <= k < height * width,
    ensures
        0 <= k / width < height,
        0 <= k % width < width,
        k == offset(k / width, k % width, width),
{
    vstd::arithmetic::div_mod::lemma_fundamental_div_mod(k, width);
    vstd::arithmetic::div_mod::lemma_mod_bound(k, width);
    vstd::arithmetic::div_mod::lemma_div_pos_is_pos(k, width);
    let q = k / width;
    assert(width * q == q * width) by (nonlinear_arith);
    if q >= height {
        assert(q * width >= height * width) by (nonlinear_arith)
            requires
                q >= height,
                width >= 1,
        ;
    }
}

/// Packing a buffer that is dense already changes nothing but its length.
pub proof fn lemma_packed_dense<C>(input: Seq<C>, layout: Layout)
    requires
        layout.fits(input.len() as int),
        layout.stride == layout.width || layout.height == 1,
    ensures
        layout.height * layout.width <= input.len(),
        packed(input, layout) == input.subrange(0, layout.height * layout.width),
{
    let height = layout.height as int;
    let width = layout.width as int;
    lemma_dense_len(height, width, layout.stride as int);
    assert forall|k: int| 0 <= k < height * width implies packed(input, layout)[k] == input[k] by {
        lemma_cell_of_position(k, height, width);
        if layout.height == 1 {
            assert(k / width == 0);
            assert(offset(0, k % width, layout.stride as int) == k % width);
        }
    }
    assert(packed(input, layout) =~= input.subrange(0, height * width));
}

/// Copies the cells of a padded grid into a dense vector, row after row.
/// Fails when the layout is not valid or the buffer ends before the last
/// cell of the grid.
pub fn pack<C: Copy>(input: &[C], layout: Layout) -> (res: Result<Vec<C>, ComputationError>)
    ensures
        match res {
            Ok(dense) => layout.fits(input@.len() as int) && dense@ == packed(input@, layout),
            Err(e) => e == ComputationError::ShapeMismatch && !layout.fits(input@.len() as int),
        },
{
    if !layout.admits(input.len()) {
        return Err(ComputationError::ShapeMismatch);
    }
    proof {
        lemma_dense_len(layout.height as int, layout.width as int, layout.stride as int);
    }
    assert(input.len() <= usize::MAX);
    let mut dense: Vec<C> = Vec::with_capacity(layout.height * layout.width);
    let mut r: usize = 0;
    while r < layout.height
        invariant
            r <= layout.height,
            layout.fits(input@.len() as int),
            input@.len() <= usize::MAX,
            dense@.len() == r * layout.width,
            forall|k: int| 0 <= k < dense@.len() ==> dense@[k] == packed(input@, layout)[k],
        decreases layout.height - r,
    {
        let mut c: usize = 0;
        while c < layout.width
            invariant
                r < layout.height,
                c <= layout.width,
                layout.fits(input@.len() as int),
                input@.len() <= usize::MAX,
                dense@.len() == r * layout.width + c,
                forall|k: int| 0 <= k < dense@.len() ==> dense@[k] == packed(input@, layout)[k],
            decreases layout.width - c,
        {
            proof {
                lemma_offset_in_span(
                    r as int,
                    c as int,
                    layout.height as int,
                    layout.width as int,
                    layout.stride as int,
                );
                lemma_offset_in_span(
                    r as int,
                    c as int,
                    layout.height as int,
                    layout.width as int,
                    layout.width as int,
                );
                lemma_dense_len(layout.height as int, layout.width as int, layout.stride as int);
                lemma_offset_unique(r as int, c as int, layout.width as int);
                assert(r * layout.stride >= 0) by (nonlinear_arith)
                    requires
                        r >= 0,
                        layout.stride >= 0,
                ;
            }
            dense.push(input[r * layout.stride + c]);
            c += 1;
        }
        proof {
            assert((r + 1) * layout.width == r * layout.width + layout.width) by (nonlinear_arith);
        }
        r += 1;
    }
    assert(dense@ =~= packed(input@, layout));
    Ok(dense)
}

} // verus!
