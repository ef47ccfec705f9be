//! The dense working matrix and the order in which its lines are transformed.
//!
//! A two-dimensional transform is carried out line by line: every row first,
//! top to bottom, then every column, left to right.  The matrix hands out a
//! copy of the line whose turn it is and takes the transformed line back;
//! what transforms a line is up to the caller.
use vstd::prelude::*;
use crate::error::ComputationError;
use crate::ingest::{pack, packed, lemma_cell_of_position, lemma_dense_len, lemma_packed_dense};
use crate::layout::{offset, Layout, lemma_offset_in_span, lemma_offset_unique};

verus! {

/// A line of the matrix: a row or a column, by its index.
#[derive(Clone, Copy, Debug, PartialEq, Eq, Structural)]
pub enum Line {
    Row(usize),
    Column(usize),
}

/// What a working matrix is: its shape, its cells in row-major order, and
/// how many rows and columns have been transformed so far.
pub struct MatrixView<C> {
    pub height: nat,
    pub width: nat,
    pub cells: Seq<C>,
    pub rows_done: nat,
    pub cols_done: nat,
}

impl<C> MatrixView<C> {
    /// The matrix is dense and not empty, its dimensions and the number
    /// of its cells are machine sizes, and no column was transformed before
    /// the last row.
    pub open spec fn wf(self) -> bool {
        &&& 1 <= self.height <= usize::MAX
        &&& 1 <= self.width <= usize::MAX
        &&& self.cells.len() == self.height * self.width
        &&& self.cells.len() <= usize::MAX
        &&& self.rows_done <= self.height
        &&& self.cols_done <= self.width
        &&& self.cols_done > 0 ==> self.rows_done == self.height
    }

    /// The cell in row `r` and column `c`.
    pub open spec fn at(self, r: int, c: int) -> C {
        self.cells[offset(r, c, self.width as int)]
    }

    /// Row `r`, left to right.
    pub open spec fn row(self, r: int) -> Seq<C> {
        Seq::new(self.width, |c: int| self.at(r, c))
    }

    /// Column `c`, top to bottom.
    pub open spec fn column(self, c: int) -> Seq<C> {
        Seq::new(self.height, |r: int| self.at(r, c))
    }

    /// The cells of a line.
    pub open spec fn line(self, line: Line) -> Seq<C> {
        match line {
            Line::Row(r) => self.row(r as int),
            Line::Column(c) => self.column(c as int),
        }
    }

    /// The line whose turn it is: the first row that was not transformed
    /// yet, then the first such column, then none.
    pub open spec fn pending(self) -> Option<Line> {
        if self.rows_done < self.height {
            Some(Line::Row(self.rows_done as usize))
        } else if self.cols_done < self.width {
            Some(Line::Column(self.cols_done as usize))
        } else {
            None
        }
    }

    /// How many lines are still to be transformed.
    pub open spec fn remaining(self) -> nat {
        ((self.height - self.rows_done) + (self.width - self.cols_done)) as nat
    }

    /// The cells with one line replaced.
    pub open spec fn with_line(self, line: Line, values: Seq<C>) -> Seq<C> {
        let width = self.width as int;
        match line {
            Line::Row(r) => Seq::new(
                self.cells.len(),
                |k: int|
                    if k / width == r {
                        values[k % width]
                    } else {
                        self.cells[k]
                    },
            ),
            Line::Column(c) => Seq::new(
                self.cells.len(),
                |k: int|
                    if k % width == c {
                        values[k / width]
                    } else {
                        self.cells[k]
                    },
            ),
        }
    }

    /// Whether `values` can take the place of the pending line: there is
    /// one, and it has that many cells.
    pub open spec fn accepts(self, values: Seq<C>) -> bool {
        match self.pending() {
            Some(line) => values.len() == self.line(line).len(),
            None => false,
        }
    }

    /// The matrix after `values` took the place of the pending line.
    pub open spec fn accept(self, values: Seq<C>) -> MatrixView<C> {
        match self.pending() {
            Some(Line::Row(r)) => MatrixView {
                cells: self.with_line(Line::Row(r), values),
                rows_done: self.rows_done + 1,
                ..self
            },
            Some(Line::Column(c)) => MatrixView {
                cells: self.with_line(Line::Column(c), values),
                cols_done: self.cols_done + 1,
                ..self
            },
            None => self,
        }
    }
}

/// The matrix that ingestion makes of a padded buffer: its grid, packed,
/// with no line transformed yet.
pub open spec fn ingested<C>(cells: Seq<C>, layout: Layout) -> MatrixView<C> {
    MatrixView {
        height: layout.height as nat,
        width: layout.width as nat,
        cells: packed(cells, layout),
        rows_done: 0,
        cols_done: 0,
    }
}

/// Replacing the pending line keeps the matrix well formed and its shape
/// unchanged, and leaves one line less to transform.
pub proof fn lemma_accept_keeps_shape<C>(m: MatrixView<C>, values: Seq<C>)
    requires
        m.wf(),
        m.accepts(values),
    ensures
        m.accept(values).wf(),
        m.accept(values).height == m.height,
        m.accept(values).width == m.width,
        m.accept(values).cells.len() == m.cells.len(),
        m.accept(values).remaining() + 1 == m.remaining(),
{
}

/// A line is pending exactly as long as lines remain, and rows come first:
/// a column is pending only when every row has been transformed.
pub proof fn lemma_rows_before_columns<C>(m: MatrixView<C>)
    requires
        m.wf(),
    ensures
        m.pending() is None <==> m.remaining() == 0,
        m.pending() matches Some(Line::Row(r)) ==> r == m.rows_done && m.cols_done == 0,
        m.pending() matches Some(Line::Column(c)) ==> c == m.cols_done && m.rows_done == m.height,
        m.remaining() <= m.height + m.width,
{
}

/// Replacing a line changes that line and nothing else: the line reads
/// back as the values put in, and every cell outside it is as before.
pub proof fn lemma_with_line_reads_back<C>(m: MatrixView<C>, line: Line, values: Seq<C>)
    requires
        m.wf(),
        match line {
            Line::Row(r) => r < m.height,
            Line::Column(c) => c < m.width,
        },
        values.len() == m.line(line).len(),
    ensures
        (MatrixView { cells: m.with_line(line, values), ..m }).line(line) == values,
        forall|r: int, c: int|
            #![trigger offset(r, c, m.width as int)]
            0 <= r < m.height && 0 <= c < m.width && !(match line {
                Line::Row(i) => r == i,
                Line::Column(j) => c == j,
            }) ==> m.with_line(line, values)[offset(r, c, m.width as int)] == m.at(r, c),
{
    let width = m.width as int;
    let after = MatrixView { cells: m.with_line(line, values), ..m };
    assert forall|r: int, c: int| 0 <= r < m.height && 0 <= c < m.width implies 0 <= offset(
        r,
        c,
        width,
    ) < m.cells.len() && offset(r, c, width) / width == r && offset(r, c, width) % width
        == c by {
        lemma_offset_unique(r, c, width);
        lemma_offset_in_span(r, c, m.height as int, width, width);
        lemma_dense_len(m.height as int, width, width);
    }
    match line {
        Line::Row(i) => {
            assert forall|c: int| 0 <= c < m.width implies after.row(i as int)[c] == values[c] by {
                assert(0 <= offset(i as int, c, width) < m.cells.len());
            }
            assert(after.row(i as int) =~= values);
        },
        Line::Column(j) => {
            assert forall|r: int| 0 <= r < m.height implies after.column(j as int)[r]
                == values[r] by {
                assert(0 <= offset(r, j as int, width) < m.cells.len());
            }
            assert(after.column(j as int) =~= values);
        },
    }
}

/// A dense matrix of transform cells, together with the count of rows and
/// columns that have been transformed.
pub struct WorkingMatrix<C> {
    height: usize,
    width: usize,
    cells: Vec<C>,
    rows_done: usize,
    cols_done: usize,
}

impl<C> View for WorkingMatrix<C> {
    type V = MatrixView<C>;

    closed spec fn view(&self) -> MatrixView<C> {
        MatrixView {
            height: self.height as nat,
            width: self.width as nat,
            cells: self.cells@,
            rows_done: self.rows_done as nat,
            cols_done: self.cols_done as nat,
        }
    }
}

impl<C> WorkingMatrix<C> {
    /// Every working matrix is well formed, at all times.
    #[verifier::type_invariant]
    pub open spec fn well_formed(&self) -> bool {
        self@.wf()
    }
}

impl<C: Copy> WorkingMatrix<C> {
    /// Takes the cells of a padded grid and makes a dense matrix of them,
    /// with no line transformed yet.  A buffer whose rows follow each other
    /// without padding is kept as it is, cut to the size of the grid; any
    /// other is packed.  Fails when the layout is not valid or the buffer
    /// ends before the last cell of the grid.
    pub fn ingest(cells: Vec<C>, layout: Layout) -> (res: Result<Self, ComputationError>)
        ensures
            match res {
                Ok(matrix) => {
                    &&& layout.fits(cells@.len() as int)
                    &&& matrix@ == ingested(cells@, layout)
                    &&& matrix@.wf()
                },
                Err(e) => {
                    &&& e == ComputationError::ShapeMismatch
                    &&& !layout.fits(cells@.len() as int)
                },
            },
    {
        let dense: Vec<C> = if layout.stride == layout.width || layout.height == 1 {
            if !layout.admits(cells.len()) {
                return Err(ComputationError::ShapeMismatch);
            }
            let mut kept = cells;
            proof {
                lemma_dense_len(layout.height as int, layout.width as int, layout.stride as int);
                lemma_packed_dense(kept@, layout);
            }
            kept.truncate(layout.height * layout.width);
            kept
        } else {
            match pack(cells.as_slice(), layout) {
                Ok(dense) => dense,
                Err(e) => {
                    return Err(e);
                },
            }
        };
        proof {
            lemma_dense_len(layout.height as int, layout.width as int, layout.stride as int);
        }
        assert(dense.len() == layout.height * layout.width);
        Ok(
            WorkingMatrix {
                height: layout.height,
                width: layout.width,
                cells: dense,
                rows_done: 0,
                cols_done: 0,
            },
        )
    }

    /// Number of rows.
    pub fn height(&self) -> (height: usize)
        ensures
            height == self@.height,
    {
        self.height
    }

    /// Number of columns.
    pub fn width(&self) -> (width: usize)
        ensures
            width == self@.width,
    {
        self.width
    }

    /// The cells, row after row.
    pub fn cells(&self) -> (cells: &[C])
        ensures
            cells@ == self@.cells,
    {
        self.cells.as_slice()
    }

    /// The line whose turn it is to be transformed, if any is left.
    pub fn pending(&self) -> (line: Option<Line>)
        ensures
            line == self@.pending(),
    {
        if self.rows_done < self.height {
            Some(Line::Row(self.rows_done))
        } else if self.cols_done < self.width {
            Some(Line::Column(self.cols_done))
        } else {
            None
        }
    }

    /// A copy of the line whose turn it is to be transformed, if any is
    /// left.
    pub fn next_line(&self) -> (values: Option<Vec<C>>)
        ensures
            match self@.pending() {
                Some(line) => values is Some && values->Some_0@ == self@.line(line),
                None => values is None,
            },
    {
        proof {
            use_type_invariant(self);
            lemma_dense_len(self.height as int, self.width as int, self.width as int);
        }
        match self.pending() {
            None => None,
            Some(Line::Row(r)) => {
                let mut values: Vec<C> = Vec::with_capacity(self.width);
                let mut c: usize = 0;
                while c < self.width
                    invariant
                        self@.wf(),
                        r < self.height,
                        c <= self.width,
                        values@.len() == c,
                        forall|j: int| 0 <= j < c ==> values@[j] == self@.at(r as int, j),
                    decreases self.width - c,
                {
                    proof {
                        lemma_offset_in_span(
                            r as int,
                            c as int,
                            self.height as int,
                            self.width as int,
                            self.width as int,
                        );
                        lemma_dense_len(self.height as int, self.width as int, self.width as int);
                        assert(r * self.width >= 0) by (nonlinear_arith)
                            requires
                                r >= 0,
                                self.width >= 0,
                        ;
                    }
                    values.push(self.cells[r * self.width + c]);
                    c += 1;
                }
                assert(values@ =~= self@.row(r as int));
                Some(values)
            },
            Some(Line::Column(c)) => {
                let mut values: Vec<C> = Vec::with_capacity(self.height);
                let mut r: usize = 0;
                while r < self.height
                    invariant
                        self@.wf(),
                        c < self.width,
                        r <= self.height,
                        values@.len() == r,
                        forall|i: int| 0 <= i < r ==> values@[i] == self@.at(i, c as int),
                    decreases self.height - r,
                {
                    proof {
                        lemma_offset_in_span(
                            r as int,
                            c as int,
                            self.height as int,
                            self.width as int,
                            self.width as int,
                        );
                        lemma_dense_len(self.height as int, self.width as int, self.width as int);
                        assert(r * self.width >= 0) by (nonlinear_arith)
                            requires
                                r >= 0,
                                self.width >= 0,
                        ;
                    }
                    values.push(self.cells[r * self.width + c]);
                    r += 1;
                }
                assert(values@ =~= self@.column(c as int));
                Some(values)
            },
        }
    }

    /// Puts the transformed line in the place of the line whose turn it
    /// was, and moves on to the next.  Fails, and changes nothing, when no
    /// line is left or `values` has another length than the pending line.
    pub fn put_line(&mut self, values: &[C]) -> (res: Result<(), ComputationError>)
        ensures
            match res {
                Ok(_) => {
                    &&& old(self)@.accepts(values@)
                    &&& final(self)@ == old(self)@.accept(values@)
                },
                Err(e) => {
                    &&& e == ComputationError::ShapeMismatch
                    &&& !old(self)@.accepts(values@)
                    &&& final(self)@ == old(self)@
                },
            },
            final(self)@.wf(),
    {
        proof {
            use_type_invariant(&*self);
            lemma_dense_len(self.height as int, self.width as int, self.width as int);
        }
        let ghost before = self@;
        match self.pending() {
            None => Err(ComputationError::ShapeMismatch),
            Some(Line::Row(r)) => {
                if values.len() != self.width {
                    return Err(ComputationError::ShapeMismatch);
                }
                let mut c: usize = 0;
                while c < self.width
                    invariant
                        self@.wf(),
                        before.wf(),
                        self@.height == before.height,
                        self@.width == before.width,
                        self@.rows_done == before.rows_done,
                        self@.cols_done == before.cols_done,
                        self@.cells.len() == before.cells.len(),
                        values@.len() == self.width,
                        r < self.height,
                        c <= self.width,
                        forall|k: int|
                            0 <= k < before.cells.len() ==> #[trigger] self@.cells[k] == if k / (
                            self.width as int) == r && k % (self.width as int) < c {
                                values@[k % (self.width as int)]
                            } else {
                                before.cells[k]
                            },
                    decreases self.width - c,
                {
                    proof {
                        lemma_offset_in_span(
                            r as int,
                            c as int,
                            self.height as int,
                            self.width as int,
                            self.width as int,
                        );
                        lemma_dense_len(self.height as int, self.width as int, self.width as int);
                        lemma_offset_unique(r as int, c as int, self.width as int);
                        assert(r * self.width >= 0) by (nonlinear_arith)
                            requires
                                r >= 0,
                                self.width >= 0,
                        ;
                    }
                    let ghost prev = self@.cells;
                    let at: usize = r * self.width + c;
                    self.cells[at] = values[c];
                    proof {
                        let width = self.width as int;
                        assert forall|k: int| 0 <= k < before.cells.len() implies #[trigger] self@.cells[k]
                            == if k / width == r && k % width < c + 1 {
                            values@[k % width]
                        } else {
                            before.cells[k]
                        } by {
                            lemma_cell_of_position(k, self.height as int, width);
                            if k != at {
                                assert(self@.cells[k] == prev[k]);
                            }
                        }
                    }
                    c += 1;
                }
                self.rows_done = self.rows_done + 1;
                proof {
                    let width = self.width as int;
                    assert forall|k: int| 0 <= k < before.cells.len() implies self@.cells[k]
                        == before.with_line(Line::Row(r), values@)[k] by {
                        lemma_cell_of_position(k, self.height as int, width);
                    }
                    assert(self@.cells =~= before.with_line(Line::Row(r), values@));
                }
                Ok(())
            },
            Some(Line::Column(c)) => {
                if values.len() != self.height {
                    return Err(ComputationError::ShapeMismatch);
                }
                let mut r: usize = 0;
                while r < self.height
                    invariant
                        self@.wf(),
                        before.wf(),
                        self@.height == before.height,
                        self@.width == before.width,
                        self@.rows_done == before.rows_done,
                        self@.cols_done == before.cols_done,
                        self@.cells.len() == before.cells.len(),
                        values@.len() == self.height,
                        c < self.width,
                        r <= self.height,
                        forall|k: int|
                            0 <= k < before.cells.len() ==> #[trigger] self@.cells[k] == if k % (
                            self.width as int) == c && k / (self.width as int) < r {
                                values@[k / (self.width as int)]
                            } else {
                                before.cells[k]
                            },
                    decreases self.height - r,
                {
                    proof {
                        lemma_offset_in_span(
                            r as int,
                            c as int,
                            self.height as int,
                            self.width as int,
                            self.width as int,
                        );
                        lemma_dense_len(self.height as int, self.width as int, self.width as int);
                        lemma_offset_unique(r as int, c as int, self.width as int);
                        assert(r * self.width >= 0) by (nonlinear_arith)
                            requires
                                r >= 0,
                                self.width >= 0,
                        ;
                    }
                    let ghost prev = self@.cells;
                    let at: usize = r * self.width + c;
                    self.cells[at] = values[r];
                    proof {
                        let width = self.width as int;
                        assert forall|k: int| 0 <= k < before.cells.len() implies #[trigger] self@.cells[k]
                            == if k % width == c && k / width < r + 1 {
                            values@[k / width]
                        } else {
                            before.cells[k]
                        } by {
                            lemma_cell_of_position(k, self.height as int, width);
                            if k != at {
                                assert(self@.cells[k] == prev[k]);
                            }
                        }
                    }
                    r += 1;
                }
                self.cols_done = self.cols_done + 1;
                proof {
                    let width = self.width as int;
                    assert forall|k: int| 0 <= k < before.cells.len() implies self@.cells[k]
                        == before.with_line(Line::Column(c), values@)[k] by {
                        lemma_cell_of_position(k, self.height as int, width);
                    }
                    assert(self@.cells =~= before.with_line(Line::Column(c), values@));
                }
                Ok(())
            },
        }
    }
}

} // verus!
