//! What is decided about the values a host hands over.
use fftspectrum::error::ComputationError;
use fftspectrum::host::{
    check_format, on_activation, plane_layout, Activation, FormatError, FrameStep, SampleKind,
    SAMPLE_BITS, SAMPLE_BYTES,
};
use fftspectrum::layout::Layout;

#[test]
fn float_samples_of_32_bits_are_taken() {
    assert_eq!(check_format(32, SampleKind::Float), Ok(()));
    assert_eq!(SAMPLE_BITS, 32);
    assert_eq!(SAMPLE_BYTES, 4);
}

#[test]
fn other_bit_depths_are_refused_with_the_depth_found() {
    assert_eq!(check_format(16, SampleKind::Float), Err(FormatError::BitDepth(16)));
    assert_eq!(check_format(8, SampleKind::Integer), Err(FormatError::BitDepth(8)));
    assert_eq!(check_format(0, SampleKind::Float), Err(FormatError::BitDepth(0)));
    assert_eq!(check_format(-1, SampleKind::Float), Err(FormatError::BitDepth(-1)));
}

#[test]
fn integer_samples_of_32_bits_are_refused() {
    assert_eq!(check_format(32, SampleKind::Integer), Err(FormatError::NotFloat));
}

#[test]
fn bit_depth_is_looked_at_first() {
    assert_eq!(check_format(10, SampleKind::Integer), Err(FormatError::BitDepth(10)));
}

#[test]
fn a_frame_is_computed_once_its_source_has_arrived() {
    assert_eq!(on_activation(Activation::Initial), FrameStep::RequestSource);
    assert_eq!(on_activation(Activation::AllFramesReady), FrameStep::Compute);
    assert_eq!(on_activation(Activation::Error), FrameStep::Nothing);
}

#[test]
fn plane_layout_counts_the_stride_in_samples() {
    assert_eq!(plane_layout(360, 240, 1472), Ok(Layout { height: 240, width: 360, stride: 368 }));
    assert_eq!(plane_layout(1, 1, 4), Ok(Layout { height: 1, width: 1, stride: 1 }));
}

#[test]
fn plane_layout_rounds_a_ragged_stride_down() {
    assert_eq!(plane_layout(2, 2, 11), Ok(Layout { height: 2, width: 2, stride: 2 }));
    assert_eq!(plane_layout(2, 2, 3), Ok(Layout { height: 2, width: 2, stride: 0 }));
}

#[test]
fn plane_layout_refuses_what_is_not_positive() {
    assert_eq!(plane_layout(0, 2, 8), Err(ComputationError::ShapeMismatch));
    assert_eq!(plane_layout(2, 0, 8), Err(ComputationError::ShapeMismatch));
    assert_eq!(plane_layout(-2, 2, 8), Err(ComputationError::ShapeMismatch));
    assert_eq!(plane_layout(2, -2, 8), Err(ComputationError::ShapeMismatch));
    assert_eq!(plane_layout(2, 2, -8), Err(ComputationError::ShapeMismatch));
}

#[test]
fn plane_layout_of_a_frame_fits_its_plane() {
    let layout = plane_layout(360, 240, 1472).expect("positive sizes");
    assert!(layout.admits(368 * 240));
    assert!(!layout.admits(368 * 239 + 359));
}
