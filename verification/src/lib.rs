//! Frequency-spectrum images of two-dimensional sample grids.
//!
//! The crate holds everything about such an image that is a matter of
//! *where* a value goes: how a padded plane is packed into a dense working
//! matrix, in which order its rows and columns are handed out for
//! one-dimensional transforms and put back, and how the four quadrants of the
//! transformed matrix are swapped so that the zero-frequency bin lands in the
//! middle of the output plane.  All of it is generic in the cell type, so the
//! numeric kernels (the transform of one line, the magnitude scale of one
//! bin) are supplied by the caller.
pub mod emit;
pub mod error;
pub mod host;
pub mod ingest;
pub mod layout;
pub mod matrix;
pub mod quadrants;
pub mod spectrum;
