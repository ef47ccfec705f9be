//! Which buffers a layout can be laid over.
use fftspectrum::layout::Layout;

#[test]
fn dense_layout_needs_every_cell() {
    let layout = Layout { height: 3, width: 4, stride: 4 };
    assert!(!layout.admits(11));
    assert!(layout.admits(12));
    assert!(layout.admits(13));
}

#[test]
fn padded_layout_needs_no_padding_after_the_last_row() {
    let layout = Layout { height: 3, width: 4, stride: 10 };
    assert!(!layout.admits(23));
    assert!(layout.admits(24));
    assert!(layout.admits(30));
}

#[test]
fn single_row_ignores_the_stride() {
    let layout = Layout { height: 1, width: 4, stride: 1000 };
    assert!(!layout.admits(3));
    assert!(layout.admits(4));
}

#[test]
fn empty_grids_are_not_admitted() {
    assert!(!Layout { height: 0, width: 4, stride: 4 }.admits(100));
    assert!(!Layout { height: 4, width: 0, stride: 4 }.admits(100));
    assert!(!Layout { height: 0, width: 0, stride: 0 }.admits(0));
}

#[test]
fn overlapping_rows_are_not_admitted() {
    assert!(!Layout { height: 2, width: 4, stride: 3 }.admits(100));
    assert!(!Layout { height: 1, width: 4, stride: 3 }.admits(100));
}

#[test]
fn sizes_beyond_the_machine_are_not_admitted() {
    let max = usize::MAX;
    assert!(!Layout { height: max, width: 1, stride: 1 }.admits(max - 1));
    assert!(Layout { height: max, width: 1, stride: 1 }.admits(max));
    assert!(!Layout { height: 3, width: 2, stride: max }.admits(max));
    assert!(!Layout { height: max, width: max, stride: max }.admits(max));
    assert!(Layout { height: 2, width: 1, stride: max - 1 }.admits(max));
    assert!(Layout { height: 1, width: max, stride: max }.admits(max));
}
