//! Memory layouts for image tensors built from decoded pixel buffers.
use vstd::prelude::*;

verus! {

/// The order in which a tensor stores an image's channels and pixels.
#[derive(Clone, Copy, Debug, PartialEq, Eq, Structural)]
pub enum ImageDataTensorShapeFormat {
    /// Channels, then height, then width: each channel's plane in turn.
    CHW,
    /// Height, then width, then channels: components interleaved per pixel.
    HWC,
}

} // verus!
