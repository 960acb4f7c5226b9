//! Owned byte buffers handed between the container and the codec.
use vstd::prelude::*;

verus! {

/// A buffer of compressed bytes (or, under its other name, of decompressed
/// bytes) that owns its contents.
#[derive(Clone, Debug, PartialEq, Eq)]
pub struct DeflatedData {
    pub data: Vec<u8>,
}

/// Decompressed bytes: scanlines with their filter bytes, or flat pixels.
pub type InflatedData = DeflatedData;

impl View for DeflatedData {
    type V = Seq<u8>;

    open spec fn view(&self) -> Seq<u8> {
        self.data@
    }
}

impl DeflatedData {
    /// Takes ownership of `data`.
    pub fn new(data: Vec<u8>) -> (r: Self)
        ensures
            r@ == data@,
    {
        DeflatedData { data }
    }

    /// The number of bytes held.
    pub fn len(&self) -> (r: usize)
        ensures
            r == self@.len(),
    {
        self.data.len()
    }

    /// The bytes held.
    pub fn as_slice(&self) -> (r: &[u8])
        ensures
            r@ == self@,
    {
        self.data.as_slice()
    }
}

} // verus!
