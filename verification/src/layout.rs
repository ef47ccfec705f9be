//! Row-major grids whose rows may be padded.
use vstd::prelude::*;
use vstd::arithmetic::div_mod::lemma_fundamental_div_mod_converse;

verus! {

/// The shape of a row-major grid inside a flat buffer: `height` rows of
/// `width` cells each, with `stride` buffer positions from the start of one
/// row to the start of the next.
#[derive(Clone, Copy, Debug, PartialEq, Eq, Structural)]
pub struct Layout {
    pub height: usize,
    pub width: usize,
    pub stride: usize,
}

/// Position of cell `(row, col)` in a buffer whose rows start `stride` apart.
pub open spec fn offset(row: int, col: int, stride: int) -> int {
    row * stride + col
}

/// The smallest buffer length that holds `height` rows of `width` cells at
/// the given stride: the last row needs no padding behind it.
pub open spec fn span(height: int, width: int, stride: int) -> int {
    (height - 1) * stride + width
}

impl Layout {
    /// Both dimensions are positive and rows do not overlap.
    pub open spec fn valid(self) -> bool {
        &&& self.height >= 1
        &&& self.width >= 1
        &&& self.stride >= self.width
    }

    /// The layout is valid and a buffer of `len` cells holds every cell of it.
    pub open spec fn fits(self, len: int) -> bool {
        &&& self.valid()
        &&& span(self.height as int, self.width as int, self.stride as int) <= len
    }

    /// Whether a buffer of `len` cells can be read or written through this
    /// layout.
    pub fn admits(&self, len: usize) -> (ok: bool)
        ensures
            ok == self.fits(len as int),
    {
        if self.height == 0 || self.width == 0 || self.stride < self.width || len < self.width {
            return false;
        }
        // len >= width from here on, so only the rows above the last one
        // remain to be accounted for.
        let room: usize = len - self.width;
        let above: usize = self.height - 1;
        if above == 0 {
            return true;
        }
        let fit: usize = room / self.stride;
        proof {
            lemma_rows_fit(above as int, self.stride as int, room as int);
        }
        above <= fit
    }
}

/// `rows` strides fit into `room` exactly when `rows` is at most the whole
/// number of strides in `room`.
pub proof fn lemma_rows_fit(rows: int, stride: int, room: int)
    requires
        rows >= 0,
        stride >= 1,
        room >= 0,
    ensures
        rows * stride <= room <==> rows <= room / stride,
{
    let q = room / stride;
    assert(room == stride * q + room % stride && 0 <= room % stride < stride) by {
        vstd::arithmetic::div_mod::lemma_fundamental_div_mod(room, stride);
        vstd::arithmetic::div_mod::lemma_mod_bound(room, stride);
    }
    if rows <= q {
        assert(rows * stride <= q * stride) by (nonlinear_arith)
            requires rows <= q, stride >= 1;
        assert(q * stride == stride * q) by (nonlinear_arith);
    } else {
        assert(rows * stride >= (q + 1) * stride) by (nonlinear_arith)
            requires rows >= q + 1, stride >= 1;
        assert((q + 1) * stride == stride * q + stride) by (nonlinear_arith);
    }
}

/// Distinct cells have distinct positions: row and column are recovered from
/// the position by division and remainder.
pub proof fn lemma_offset_unique(row: int, col: int, stride: int)
    requires
        0 <= col < stride,
    ensures
        offset(row, col, stride) / stride == row,
        offset(row, col, stride) % stride == col,
{
    assert(offset(row, col, stride) == row * stride + col);
    lemma_fundamental_div_mod_converse(offset(row, col, stride), stride, row, col);
}

/// A cell inside the grid lies inside every buffer that the grid fits.
pub proof fn lemma_offset_in_span(row: int, col: int, height: int, width: int, stride: int)
    requires
        0 <= row < height,
        0 <= col < width <= stride,
    ensures
        0 <= offset(row, col, stride) < span(height, width, stride),
{
    assert(row * stride <= (height - 1) * stride) by (nonlinear_arith)
        requires row <= height - 1, stride >= 0;
    assert(row * stride >= 0) by (nonlinear_arith)
        requires row >= 0, stride >= 0;
}

} // verus!
