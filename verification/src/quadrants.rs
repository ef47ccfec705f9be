//! The quadrant swap that moves the zero-frequency bin to the middle.
//!
//! A transform leaves bin 0 of every axis at position 0.  For display each
//! axis is cut into a low part and a high part and the two change places.
//! An axis of length `n` is cut at `n - n / 2`: for odd `n` the low part is
//! the longer one.  Bin 0 then sits at position `n / 2`.
use vstd::prelude::*;

verus! {

/// Number of bins in the low part of an axis of `n` bins.
pub open spec fn low_len(n: int) -> int {
    n - n / 2
}

/// Number of bins in the high part of an axis of `n` bins.
pub open spec fn high_len(n: int) -> int {
    n / 2
}

/// The bin that is shown at position `i` of an axis of `n` bins.
pub open spec fn source(i: int, n: int) -> int {
    if i < high_len(n) {
        i + low_len(n)
    } else {
        i - high_len(n)
    }
}

/// The position at which bin `j` of an axis of `n` bins is shown.
pub open spec fn target(j: int, n: int) -> int {
    if j < low_len(n) {
        j + high_len(n)
    } else {
        j - low_len(n)
    }
}

/// The bin that is shown at position `position` of an axis of `len` bins.
pub fn bin_at(position: usize, len: usize) -> (bin: usize)
    ensures
        bin == source(position as int, len as int),
        position < len ==> bin < len,
{
    let high: usize = len / 2;
    if position < high {
        position + (len - high)
    } else {
        position - high
    }
}

/// The position at which bin `bin` of an axis of `len` bins is shown.
pub fn position_of(bin: usize, len: usize) -> (position: usize)
    ensures
        position == target(bin as int, len as int),
        bin < len ==> position < len,
{
    let high: usize = len / 2;
    let low: usize = len - high;
    if bin < low {
        bin + high
    } else {
        bin - low
    }
}

/// A rectangle of cells: `rows` by `cols`, with its first cell at
/// `(row, col)`.
#[derive(Clone, Copy, Debug, PartialEq, Eq, Structural)]
pub struct Rect {
    pub row: usize,
    pub col: usize,
    pub rows: usize,
    pub cols: usize,
}

impl Rect {
    /// Cell `(r, c)` lies in the rectangle.
    pub open spec fn contains(self, r: int, c: int) -> bool {
        &&& self.row <= r < self.row + self.rows
        &&& self.col <= c < self.col + self.cols
    }

    /// The rectangle lies inside a grid of `height` by `width` cells.
    pub open spec fn within(self, height: int, width: int) -> bool {
        &&& self.row + self.rows <= height
        &&& self.col + self.cols <= width
    }
}

/// One of the four parts into which the two cuts divide a transformed
/// matrix, named by where it lies there.
#[derive(Clone, Copy, Debug, PartialEq, Eq, Structural)]
pub enum Quadrant {
    TopLeft,
    TopRight,
    BottomLeft,
    BottomRight,
}

impl Quadrant {
    /// The quadrant holds the low rows.
    pub open spec fn is_top(self) -> bool {
        self == Quadrant::TopLeft || self == Quadrant::TopRight
    }

    /// The quadrant holds the low columns.
    pub open spec fn is_left(self) -> bool {
        self == Quadrant::TopLeft || self == Quadrant::BottomLeft
    }

    /// Where the quadrant lies in a transformed matrix of `height` by
    /// `width` bins.
    pub open spec fn spec_source_rect(self, height: usize, width: usize) -> Rect {
        Rect {
            row: if self.is_top() { 0 } else { low_len(height as int) as usize },
            col: if self.is_left() { 0 } else { low_len(width as int) as usize },
            rows: if self.is_top() { low_len(height as int) as usize } else { high_len(height as int) as usize },
            cols: if self.is_left() { low_len(width as int) as usize } else { high_len(width as int) as usize },
        }
    }

    /// Where the quadrant is shown in the output: diagonally opposite, and
    /// of the same shape.
    pub open spec fn spec_target_rect(self, height: usize, width: usize) -> Rect {
        Rect {
            row: if self.is_top() { high_len(height as int) as usize } else { 0 },
            col: if self.is_left() { high_len(width as int) as usize } else { 0 },
            rows: self.spec_source_rect(height, width).rows,
            cols: self.spec_source_rect(height, width).cols,
        }
    }

    /// Where the quadrant lies in a transformed matrix.
    #[verifier::when_used_as_spec(spec_source_rect)]
    pub fn source_rect(self, height: usize, width: usize) -> (rect: Rect)
        ensures
            rect == self.spec_source_rect(height, width),
    {
        let high_rows: usize = height / 2;
        let high_cols: usize = width / 2;
        let low_rows: usize = height - high_rows;
        let low_cols: usize = width - high_cols;
        match self {
            Quadrant::TopLeft => Rect { row: 0, col: 0, rows: low_rows, cols: low_cols },
            Quadrant::TopRight => Rect { row: 0, col: low_cols, rows: low_rows, cols: high_cols },
            Quadrant::BottomLeft => Rect { row: low_rows, col: 0, rows: high_rows, cols: low_cols },
            Quadrant::BottomRight => Rect {
                row: low_rows,
                col: low_cols,
                rows: high_rows,
                cols: high_cols,
            },
        }
    }

    /// Where the quadrant is shown in the output.
    #[verifier::when_used_as_spec(spec_target_rect)]
    pub fn target_rect(self, height: usize, width: usize) -> (rect: Rect)
        ensures
            rect == self.spec_target_rect(height, width),
    {
        let high_rows: usize = height / 2;
        let high_cols: usize = width / 2;
        let low_rows: usize = height - high_rows;
        let low_cols: usize = width - high_cols;
        match self {
            Quadrant::TopLeft => Rect {
                row: high_rows,
                col: high_cols,
                rows: low_rows,
                cols: low_cols,
            },
            Quadrant::TopRight => Rect { row: high_rows, col: 0, rows: low_rows, cols: high_cols },
            Quadrant::BottomLeft => Rect { row: 0, col: high_cols, rows: high_rows, cols: low_cols },
            Quadrant::BottomRight => Rect { row: 0, col: 0, rows: high_rows, cols: high_cols },
        }
    }
}

/// The swap keeps every position on the axis.
pub proof fn lemma_source_in_range(i: int, n: int)
    requires
        0 <= i < n,
    ensures
        0 <= source(i, n) < n,
        0 <= target(i, n) < n,
{
}

/// The swap is a permutation of the axis: `target` undoes `source` and
/// `source` undoes `target`, so no bin is shown twice and none is left out.
pub proof fn lemma_swap_is_permutation(i: int, n: int)
    requires
        0 <= i < n,
    ensures
        target(source(i, n), n) == i,
        source(target(i, n), n) == i,
{
}

/// The swap is a rotation of the axis by the length of its low part.
pub proof fn lemma_swap_is_rotation(i: int, n: int)
    requires
        0 <= i < n,
    ensures
        source(i, n) == (i + low_len(n)) % n,
        target(i, n) == (i + high_len(n)) % n,
{
    if i < high_len(n) {
        vstd::arithmetic::div_mod::lemma_small_mod((i + low_len(n)) as nat, n as nat);
    } else {
        vstd::arithmetic::div_mod::lemma_fundamental_div_mod_converse(
            i + low_len(n),
            n,
            1,
            i - high_len(n),
        );
    }
    if i < low_len(n) {
        vstd::arithmetic::div_mod::lemma_small_mod((i + high_len(n)) as nat, n as nat);
    } else {
        vstd::arithmetic::div_mod::lemma_fundamental_div_mod_converse(
            i + high_len(n),
            n,
            1,
            i - low_len(n),
        );
    }
}

/// The zero-frequency bin of an axis of `n` bins is shown at position
/// `n / 2`.
pub proof fn lemma_zero_bin_centered(n: int)
    requires
        n >= 1,
    ensures
        0 <= n / 2 < n,
        source(n / 2, n) == 0,
        target(0, n) == n / 2,
{
}

/// Positions that mirror each other about the zero-frequency bin show bins
/// of opposite frequency: where position `i` shows bin `k`, its mirror image
/// `2 * (n / 2) - i` shows bin `n - k`, taken modulo `n`.
pub proof fn lemma_mirror_shows_opposite_bin(i: int, n: int)
    requires
        0 <= i < n,
        0 <= 2 * (n / 2) - i < n,
    ensures
        source(2 * (n / 2) - i, n) == (n - source(i, n)) % n,
{
    let k = source(i, n);
    if k == 0 {
        vstd::arithmetic::div_mod::lemma_mod_self_0(n);
    } else {
        vstd::arithmetic::div_mod::lemma_small_mod((n - k) as nat, n as nat);
    }
}

/// The four quadrants tile the transformed matrix and their images tile the
/// output: a cell of the grid lies in the source rectangle of one quadrant
/// and of no other, and in the target rectangle of one quadrant and of no
/// other.
pub proof fn lemma_quadrants_tile(q: Quadrant, r: int, c: int, height: usize, width: usize)
    requires
        0 <= r < height,
        0 <= c < width,
    ensures
        q.spec_source_rect(height, width).contains(r, c) <==> q == source_quadrant(
            r,
            c,
            height,
            width,
        ),
        q.spec_target_rect(height, width).contains(r, c) <==> q == target_quadrant(
            r,
            c,
            height,
            width,
        ),
{
    let low_rows = low_len(height as int);
    let low_cols = low_len(width as int);
    let high_rows = high_len(height as int);
    let high_cols = high_len(width as int);
    assert(0 <= high_rows <= low_rows <= height && low_rows + high_rows == height);
    assert(0 <= high_cols <= low_cols <= width && low_cols + high_cols == width);
    assert(low_rows as usize == low_rows && high_rows as usize == high_rows);
    assert(low_cols as usize == low_cols && high_cols as usize == high_cols);
}

/// The quadrant of the transformed matrix in which bin `(r, c)` lies.
pub open spec fn source_quadrant(r: int, c: int, height: usize, width: usize) -> Quadrant {
    if r < low_len(height as int) {
        if c < low_len(width as int) {
            Quadrant::TopLeft
        } else {
            Quadrant::TopRight
        }
    } else {
        if c < low_len(width as int) {
            Quadrant::BottomLeft
        } else {
            Quadrant::BottomRight
        }
    }
}

/// The quadrant that is shown at output cell `(r, c)`.
pub open spec fn target_quadrant(r: int, c: int, height: usize, width: usize) -> Quadrant {
    if r < high_len(height as int) {
        if c < high_len(width as int) {
            Quadrant::BottomRight
        } else {
            Quadrant::BottomLeft
        }
    } else {
        if c < high_len(width as int) {
            Quadrant::TopRight
        } else {
            Quadrant::TopLeft
        }
    }
}

/// Copying each quadrant to its target rectangle, cell by cell, is the swap
/// of both axes: the cell at offset `(i, j)` of a quadrant's target
/// rectangle shows the bin at offset `(i, j)` of its source rectangle.
pub proof fn lemma_quadrant_copy_is_swap(q: Quadrant, i: int, j: int, height: usize, width: usize)
    requires
        0 <= i < q.spec_source_rect(height, width).rows,
        0 <= j < q.spec_source_rect(height, width).cols,
    ensures
        q.spec_source_rect(height, width).within(height as int, width as int),
        q.spec_target_rect(height, width).within(height as int, width as int),
        source(q.spec_target_rect(height, width).row + i, height as int) == q.spec_source_rect(
            height,
            width,
        ).row + i,
        source(q.spec_target_rect(height, width).col + j, width as int) == q.spec_source_rect(
            height,
            width,
        ).col + j,
{
}

} // verus!
