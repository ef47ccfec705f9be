//! The swap of the low and the high part of an axis, and the four
//! rectangles it makes of a grid.
use fftspectrum::layout::Layout;
use fftspectrum::matrix::WorkingMatrix;
use fftspectrum::quadrants::{bin_at, position_of, Quadrant, Rect};

const ALL: [Quadrant; 4] =
    [Quadrant::TopLeft, Quadrant::TopRight, Quadrant::BottomLeft, Quadrant::BottomRight];

#[test]
fn bins_of_an_even_axis() {
    let shown: Vec<usize> = (0..6).map(|at| bin_at(at, 6)).collect();
    assert_eq!(shown, vec![3, 4, 5, 0, 1, 2]);
}

#[test]
fn bins_of_an_odd_axis() {
    // The low part has three bins, the high part two.
    let shown: Vec<usize> = (0..5).map(|at| bin_at(at, 5)).collect();
    assert_eq!(shown, vec![3, 4, 0, 1, 2]);
}

#[test]
fn positions_of_an_odd_axis() {
    let positions: Vec<usize> = (0..5).map(|bin| position_of(bin, 5)).collect();
    assert_eq!(positions, vec![2, 3, 4, 0, 1]);
}

#[test]
fn axis_of_one_bin_stays() {
    assert_eq!(bin_at(0, 1), 0);
    assert_eq!(position_of(0, 1), 0);
}

#[test]
fn zero_bin_is_shown_in_the_middle() {
    for len in 1..40usize {
        assert_eq!(position_of(0, len), len / 2);
        assert_eq!(bin_at(len / 2, len), 0);
    }
}

#[test]
fn swap_is_a_permutation() {
    for len in 1..40usize {
        let mut hit = vec![0usize; len];
        for at in 0..len {
            let bin = bin_at(at, len);
            assert!(bin < len);
            hit[bin] += 1;
            assert_eq!(position_of(bin, len), at);
            assert_eq!(bin_at(position_of(at, len), len), at);
        }
        assert!(hit.iter().all(|&n| n == 1));
    }
}

#[test]
fn swap_is_a_rotation() {
    for len in 1..40usize {
        for at in 0..len {
            assert_eq!(bin_at(at, len), (at + (len - len / 2)) % len);
            assert_eq!(position_of(at, len), (at + len / 2) % len);
        }
    }
}

#[test]
fn rectangles_of_an_odd_by_even_grid() {
    let (height, width) = (5, 4);
    assert_eq!(
        Quadrant::TopLeft.source_rect(height, width),
        Rect { row: 0, col: 0, rows: 3, cols: 2 }
    );
    assert_eq!(
        Quadrant::TopRight.source_rect(height, width),
        Rect { row: 0, col: 2, rows: 3, cols: 2 }
    );
    assert_eq!(
        Quadrant::BottomLeft.source_rect(height, width),
        Rect { row: 3, col: 0, rows: 2, cols: 2 }
    );
    assert_eq!(
        Quadrant::BottomRight.source_rect(height, width),
        Rect { row: 3, col: 2, rows: 2, cols: 2 }
    );
    assert_eq!(
        Quadrant::TopLeft.target_rect(height, width),
        Rect { row: 2, col: 2, rows: 3, cols: 2 }
    );
    assert_eq!(
        Quadrant::TopRight.target_rect(height, width),
        Rect { row: 2, col: 0, rows: 3, cols: 2 }
    );
    assert_eq!(
        Quadrant::BottomLeft.target_rect(height, width),
        Rect { row: 0, col: 2, rows: 2, cols: 2 }
    );
    assert_eq!(
        Quadrant::BottomRight.target_rect(height, width),
        Rect { row: 0, col: 0, rows: 2, cols: 2 }
    );
}

#[test]
fn rectangles_of_a_single_cell() {
    assert_eq!(Quadrant::TopLeft.source_rect(1, 1), Rect { row: 0, col: 0, rows: 1, cols: 1 });
    assert_eq!(Quadrant::TopLeft.target_rect(1, 1), Rect { row: 0, col: 0, rows: 1, cols: 1 });
    for quadrant in [Quadrant::TopRight, Quadrant::BottomLeft, Quadrant::BottomRight] {
        let rect = quadrant.source_rect(1, 1);
        assert_eq!(rect.rows * rect.cols, 0);
    }
}

fn inside(rect: Rect, row: usize, col: usize) -> bool {
    rect.row <= row && row < rect.row + rect.rows && rect.col <= col && col < rect.col + rect.cols
}

/// Puts a marker of its own into each quadrant of a matrix, shows the
/// matrix, and looks for every marker where its quadrant belongs.
fn assert_quadrants_tile(height: usize, width: usize) {
    let marker = |quadrant: Quadrant| -> u32 {
        match quadrant {
            Quadrant::TopLeft => 1,
            Quadrant::TopRight => 10,
            Quadrant::BottomLeft => 100,
            Quadrant::BottomRight => 1000,
        }
    };
    let mut cells = vec![0u32; height * width];
    let mut expected_sum = 0u32;
    for row in 0..height {
        for col in 0..width {
            let owners: Vec<Quadrant> = ALL
                .iter()
                .copied()
                .filter(|q| inside(q.source_rect(height, width), row, col))
                .collect();
            assert_eq!(owners.len(), 1, "bin ({}, {}) lies in {:?}", row, col, owners);
            cells[row * width + col] = marker(owners[0]);
            expected_sum += marker(owners[0]);
        }
    }
    let layout = Layout { height, width, stride: width };
    let matrix = WorkingMatrix::ingest(cells, layout).expect("dense grid");
    let stride = width + 3;
    let untouched = u32::MAX;
    let mut out = vec![untouched; height * stride];
    let keep = |cell: &u32| *cell;
    assert_eq!(matrix.emit_with(&keep, &mut out[..], stride), Ok(()));
    let mut sum = 0u32;
    for row in 0..height {
        for col in 0..stride {
            let value = out[row * stride + col];
            if col >= width {
                assert_eq!(value, untouched);
                continue;
            }
            let owners: Vec<Quadrant> = ALL
                .iter()
                .copied()
                .filter(|q| inside(q.target_rect(height, width), row, col))
                .collect();
            assert_eq!(owners.len(), 1, "cell ({}, {}) lies in {:?}", row, col, owners);
            assert_eq!(value, marker(owners[0]), "cell ({}, {})", row, col);
            sum += value;
        }
    }
    assert_eq!(sum, expected_sum);
    for quadrant in ALL {
        let from = quadrant.source_rect(height, width);
        let to = quadrant.target_rect(height, width);
        assert_eq!((from.rows, from.cols), (to.rows, to.cols));
    }
}

#[test]
fn quadrants_tile_even_by_even() {
    assert_quadrants_tile(4, 4);
}

#[test]
fn quadrants_tile_even_by_odd() {
    assert_quadrants_tile(4, 5);
}

#[test]
fn quadrants_tile_odd_by_even() {
    assert_quadrants_tile(5, 4);
}

#[test]
fn quadrants_tile_odd_by_odd() {
    assert_quadrants_tile(5, 5);
}

#[test]
fn quadrants_tile_thin_grids() {
    assert_quadrants_tile(1, 1);
    assert_quadrants_tile(1, 6);
    assert_quadrants_tile(7, 1);
    assert_quadrants_tile(2, 3);
}

#[test]
fn every_bin_is_shown_where_the_swap_puts_it() {
    let (height, width) = (5, 4);
    let cells: Vec<u32> = (0..(height * width) as u32).collect();
    let layout = Layout { height, width, stride: width };
    let matrix = WorkingMatrix::ingest(cells, layout).expect("dense grid");
    let mut out = vec![0u32; height * width];
    let keep = |cell: &u32| *cell;
    assert_eq!(matrix.emit_with(&keep, &mut out[..], width), Ok(()));
    for row in 0..height {
        for col in 0..width {
            let bin = bin_at(row, height) * width + bin_at(col, width);
            assert_eq!(out[row * width + col], bin as u32);
        }
    }
    assert_eq!(
        out,
        vec![14, 15, 12, 13, 18, 19, 16, 17, 2, 3, 0, 1, 6, 7, 4, 5, 10, 11, 8, 9]
    );
}
