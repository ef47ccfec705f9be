//! Packing, and the working matrix that hands out its lines in turn.
use fftspectrum::error::ComputationError;
use fftspectrum::ingest::pack;
use fftspectrum::layout::Layout;
use fftspectrum::matrix::{Line, WorkingMatrix};

#[test]
fn pack_drops_the_padding() {
    let input = [1, 2, 3, 0, 0, 4, 5, 6, 0, 0];
    let layout = Layout { height: 2, width: 3, stride: 5 };
    assert_eq!(pack(&input, layout), Ok(vec![1, 2, 3, 4, 5, 6]));
}

#[test]
fn pack_reads_a_last_row_without_padding() {
    let input = [1, 2, 9, 9, 3, 4];
    let layout = Layout { height: 2, width: 2, stride: 4 };
    assert_eq!(pack(&input, layout), Ok(vec![1, 2, 3, 4]));
}

#[test]
fn pack_of_a_dense_grid_copies_it() {
    let input = [1, 2, 3, 4, 5, 6, 7];
    let layout = Layout { height: 3, width: 2, stride: 2 };
    assert_eq!(pack(&input, layout), Ok(vec![1, 2, 3, 4, 5, 6]));
}

#[test]
fn pack_refuses_what_does_not_fit() {
    let input = [1, 2, 3, 4, 5];
    assert_eq!(
        pack(&input, Layout { height: 2, width: 2, stride: 4 }),
        Err(ComputationError::ShapeMismatch)
    );
    assert_eq!(
        pack(&input, Layout { height: 0, width: 2, stride: 2 }),
        Err(ComputationError::ShapeMismatch)
    );
    assert_eq!(
        pack(&input, Layout { height: 2, width: 0, stride: 2 }),
        Err(ComputationError::ShapeMismatch)
    );
    assert_eq!(
        pack(&input, Layout { height: 1, width: 3, stride: 2 }),
        Err(ComputationError::ShapeMismatch)
    );
}

#[test]
fn ingest_keeps_a_dense_grid() {
    let layout = Layout { height: 2, width: 3, stride: 3 };
    let matrix = WorkingMatrix::ingest(vec![1, 2, 3, 4, 5, 6], layout).expect("dense grid");
    assert_eq!(matrix.height(), 2);
    assert_eq!(matrix.width(), 3);
    assert_eq!(matrix.cells(), &[1, 2, 3, 4, 5, 6]);
    assert_eq!(matrix.pending(), Some(Line::Row(0)));
}

#[test]
fn ingest_cuts_a_dense_grid_to_size() {
    let layout = Layout { height: 2, width: 2, stride: 2 };
    let matrix = WorkingMatrix::ingest(vec![1, 2, 3, 4, 5, 6], layout).expect("dense grid");
    assert_eq!(matrix.cells(), &[1, 2, 3, 4]);
}

#[test]
fn ingest_packs_a_padded_grid() {
    let layout = Layout { height: 3, width: 2, stride: 3 };
    let cells = vec![1, 2, 0, 3, 4, 0, 5, 6, 0];
    let matrix = WorkingMatrix::ingest(cells, layout).expect("padded grid");
    assert_eq!(matrix.cells(), &[1, 2, 3, 4, 5, 6]);
    assert_eq!((matrix.height(), matrix.width()), (3, 2));
}

#[test]
fn ingest_of_a_single_padded_row() {
    let layout = Layout { height: 1, width: 3, stride: 8 };
    let matrix = WorkingMatrix::ingest(vec![7, 8, 9, 0, 0], layout).expect("one row");
    assert_eq!(matrix.cells(), &[7, 8, 9]);
}

#[test]
fn ingest_refuses_what_does_not_fit() {
    let short = WorkingMatrix::ingest(vec![1, 2, 3], Layout { height: 2, width: 2, stride: 2 });
    assert_eq!(short.err(), Some(ComputationError::ShapeMismatch));
    let flat = WorkingMatrix::ingest(vec![1, 2, 3], Layout { height: 0, width: 2, stride: 2 });
    assert_eq!(flat.err(), Some(ComputationError::ShapeMismatch));
    let thin = WorkingMatrix::ingest(vec![1, 2, 3], Layout { height: 1, width: 0, stride: 2 });
    assert_eq!(thin.err(), Some(ComputationError::ShapeMismatch));
    let tight = WorkingMatrix::ingest(vec![1, 2, 3], Layout { height: 1, width: 3, stride: 2 });
    assert_eq!(tight.err(), Some(ComputationError::ShapeMismatch));
    let empty: Vec<u8> = Vec::new();
    let none = WorkingMatrix::ingest(empty, Layout { height: 1, width: 1, stride: 1 });
    assert_eq!(none.err(), Some(ComputationError::ShapeMismatch));
}

#[test]
fn lines_come_rows_first() {
    let layout = Layout { height: 2, width: 3, stride: 3 };
    let mut matrix = WorkingMatrix::ingest(vec![1, 2, 3, 4, 5, 6], layout).expect("dense grid");
    let mut order = Vec::new();
    let mut lines = Vec::new();
    while let Some(which) = matrix.pending() {
        let line = matrix.next_line().expect("a line is pending");
        order.push(which);
        lines.push(line.clone());
        assert_eq!(matrix.put_line(&line), Ok(()));
    }
    assert_eq!(
        order,
        vec![Line::Row(0), Line::Row(1), Line::Column(0), Line::Column(1), Line::Column(2)]
    );
    assert_eq!(lines, vec![vec![1, 2, 3], vec![4, 5, 6], vec![1, 4], vec![2, 5], vec![3, 6]]);
    assert_eq!(matrix.next_line(), None);
    assert_eq!(matrix.cells(), &[1, 2, 3, 4, 5, 6]);
}

#[test]
fn put_line_replaces_the_pending_line_and_no_other() {
    let layout = Layout { height: 2, width: 2, stride: 2 };
    let mut matrix = WorkingMatrix::ingest(vec![1, 2, 3, 4], layout).expect("dense grid");
    assert_eq!(matrix.put_line(&[10, 20]), Ok(()));
    assert_eq!(matrix.cells(), &[10, 20, 3, 4]);
    assert_eq!(matrix.put_line(&[30, 40]), Ok(()));
    assert_eq!(matrix.cells(), &[10, 20, 30, 40]);
    assert_eq!(matrix.next_line(), Some(vec![10, 30]));
    assert_eq!(matrix.put_line(&[5, 6]), Ok(()));
    assert_eq!(matrix.cells(), &[5, 20, 6, 40]);
    assert_eq!(matrix.next_line(), Some(vec![20, 40]));
    assert_eq!(matrix.put_line(&[7, 8]), Ok(()));
    assert_eq!(matrix.cells(), &[5, 7, 6, 8]);
    assert_eq!(matrix.pending(), None);
}

#[test]
fn put_line_refuses_another_length() {
    let layout = Layout { height: 2, width: 3, stride: 3 };
    let mut matrix = WorkingMatrix::ingest(vec![1, 2, 3, 4, 5, 6], layout).expect("dense grid");
    assert_eq!(matrix.put_line(&[1, 2]), Err(ComputationError::ShapeMismatch));
    assert_eq!(matrix.put_line(&[1, 2, 3, 4]), Err(ComputationError::ShapeMismatch));
    assert_eq!(matrix.put_line(&[]), Err(ComputationError::ShapeMismatch));
    assert_eq!(matrix.pending(), Some(Line::Row(0)));
    assert_eq!(matrix.cells(), &[1, 2, 3, 4, 5, 6]);
    assert_eq!(matrix.put_line(&[0, 0, 0]), Ok(()));
    assert_eq!(matrix.put_line(&[0, 0, 0]), Ok(()));
    // A column of this matrix has two cells, not three.
    assert_eq!(matrix.put_line(&[0, 0, 0]), Err(ComputationError::ShapeMismatch));
    assert_eq!(matrix.pending(), Some(Line::Column(0)));
}

#[test]
fn put_line_refuses_when_no_line_is_left() {
    let layout = Layout { height: 1, width: 1, stride: 1 };
    let mut matrix = WorkingMatrix::ingest(vec![5], layout).expect("one cell");
    assert_eq!(matrix.put_line(&[6]), Ok(()));
    assert_eq!(matrix.put_line(&[7]), Ok(()));
    assert_eq!(matrix.pending(), None);
    assert_eq!(matrix.put_line(&[8]), Err(ComputationError::ShapeMismatch));
    assert_eq!(matrix.cells(), &[7]);
}

#[test]
fn as_many_lines_as_rows_and_columns() {
    for (height, width) in [(1usize, 1usize), (1, 4), (4, 1), (3, 5)] {
        let layout = Layout { height, width, stride: width };
        let mut matrix =
            WorkingMatrix::ingest(vec![0u8; height * width], layout).expect("dense grid");
        let mut count = 0;
        while let Some(line) = matrix.next_line() {
            assert_eq!(matrix.put_line(&line), Ok(()));
            count += 1;
        }
        assert_eq!(count, height + width);
    }
}

#[test]
fn emit_refuses_a_plane_that_does_not_fit() {
    let layout = Layout { height: 2, width: 2, stride: 2 };
    let matrix = WorkingMatrix::ingest(vec![1, 2, 3, 4], layout).expect("dense grid");
    let keep = |cell: &i32| *cell;
    let mut short = vec![0; 3];
    assert_eq!(matrix.emit_with(&keep, &mut short[..], 2), Err(ComputationError::ShapeMismatch));
    assert_eq!(short, vec![0, 0, 0]);
    let mut tight = vec![0; 8];
    assert_eq!(matrix.emit_with(&keep, &mut tight[..], 1), Err(ComputationError::ShapeMismatch));
    assert_eq!(tight, vec![0; 8]);
    let mut wide = vec![0; 5];
    assert_eq!(matrix.emit_with(&keep, &mut wide[..], 3), Ok(()));
    assert_eq!(wide, vec![4, 3, 0, 2, 1]);
}

#[test]
fn emit_leaves_the_padding_alone() {
    let layout = Layout { height: 2, width: 2, stride: 2 };
    let matrix = WorkingMatrix::ingest(vec![1, 2, 3, 4], layout).expect("dense grid");
    let double = |cell: &i32| *cell * 2;
    let mut out = vec![-1; 9];
    assert_eq!(matrix.emit_with(&double, &mut out[..], 4), Ok(()));
    assert_eq!(out, vec![8, 6, -1, -1, 4, 2, -1, -1, -1]);
}
