//! What a filter built on this crate decides about the values its host hands
//! it: whether a clip's sample format can be taken, what to do when the
//! host activates a frame request, and which layout a plane has.
use vstd::prelude::*;
use crate::error::ComputationError;
use crate::layout::Layout;

verus! {

/// Number of bits in a sample that the filter takes.
pub const SAMPLE_BITS: i32 = 32;

/// Number of bytes in a sample that the filter takes.
pub const SAMPLE_BYTES: usize = 4;

/// How the samples of a clip are encoded.
#[derive(Clone, Copy, Debug, PartialEq, Eq, Structural)]
pub enum SampleKind {
    Integer,
    Float,
}

/// Why a clip's sample format cannot be taken.
#[derive(Clone, Copy, Debug, PartialEq, Eq, Structural)]
pub enum FormatError {
    /// The samples do not have 32 bits; the field holds the number found.
    BitDepth(i32),
    /// The samples have 32 bits but are integers.
    NotFloat,
}

/// The verdict on a sample format: the bit depth is looked at first, the
/// encoding second.
pub open spec fn format_verdict(bits_per_sample: i32, kind: SampleKind) -> Result<
    (),
    FormatError,
> {
    if bits_per_sample != SAMPLE_BITS {
        Err(FormatError::BitDepth(bits_per_sample))
    } else if kind != SampleKind::Float {
        Err(FormatError::NotFloat)
    } else {
        Ok(())
    }
}

/// Accepts 32-bit floating-point samples and nothing else.
pub fn check_format(bits_per_sample: i32, kind: SampleKind) -> (res: Result<(), FormatError>)
    ensures
        res == format_verdict(bits_per_sample, kind),
        res is Ok <==> bits_per_sample == 32 && kind == SampleKind::Float,
{
    if bits_per_sample != SAMPLE_BITS {
        return Err(FormatError::BitDepth(bits_per_sample));
    }
    match kind {
        SampleKind::Float => Ok(()),
        SampleKind::Integer => Err(FormatError::NotFloat),
    }
}

/// Why the host calls for a frame.
#[derive(Clone, Copy, Debug, PartialEq, Eq, Structural)]
pub enum Activation {
    /// The frame was asked for and nothing has been done for it yet.
    Initial,
    /// Every source frame that was requested has arrived.
    AllFramesReady,
    /// A source frame could not be had.
    Error,
}

/// What the filter does on an activation.
#[derive(Clone, Copy, Debug, PartialEq, Eq, Structural)]
pub enum FrameStep {
    /// Request the source frame of the same number, and produce nothing yet.
    RequestSource,
    /// Compute the spectrum of the source frame and produce it.
    Compute,
    /// Produce nothing.
    Nothing,
}

/// The step that answers an activation.
pub open spec fn step_for(reason: Activation) -> FrameStep {
    match reason {
        Activation::Initial => FrameStep::RequestSource,
        Activation::AllFramesReady => FrameStep::Compute,
        Activation::Error => FrameStep::Nothing,
    }
}

/// Decides what to do on an activation: a frame is computed only once its
/// source has arrived.
pub fn on_activation(reason: Activation) -> (step: FrameStep)
    ensures
        step == step_for(reason),
        step == FrameStep::Compute <==> reason == Activation::AllFramesReady,
{
    match reason {
        Activation::Initial => FrameStep::RequestSource,
        Activation::AllFramesReady => FrameStep::Compute,
        Activation::Error => FrameStep::Nothing,
    }
}

/// The layout of a plane of 32-bit samples, from the width and height in
/// samples and the stride in bytes that the host reports: the stride in
/// samples is the whole number of samples in the byte stride.  Fails when a
/// dimension is not positive or the stride is negative.
pub fn plane_layout(width: i32, height: i32, stride_bytes: isize) -> (res: Result<
    Layout,
    ComputationError,
>)
    ensures
        match res {
            Ok(layout) => {
                &&& width >= 1 && height >= 1 && stride_bytes >= 0
                &&& layout.height == height
                &&& layout.width == width
                &&& layout.stride == stride_bytes / 4
            },
            Err(e) => {
                &&& e == ComputationError::ShapeMismatch
                &&& !(width >= 1 && height >= 1 && stride_bytes >= 0)
            },
        },
{
    if width < 1 || height < 1 || stride_bytes < 0 {
        return Err(ComputationError::ShapeMismatch);
    }
    Ok(
        Layout {
            height: height as usize,
            width: width as usize,
            stride: stride_bytes as usize / SAMPLE_BYTES,
        },
    )
}

} // verus!
