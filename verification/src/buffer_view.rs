//! The buffer-view records of a glTF document.

use vstd::prelude::*;

verus! {

/// A buffer view of the glTF document.
#[allow(non_snake_case)]
#[derive(Debug, Clone, Copy)]
pub struct View {
    pub buffer: u32,
    pub byteLength: u32,
    pub byteOffset: u32,
}

impl View {
    /// Builds a buffer-view record.
    #[allow(non_snake_case)]
    pub fn new(buffer: u32, byteLength: u32, byteOffset: u32) -> (v: Self)
        ensures
            v.buffer == buffer,
            v.byteLength == byteLength,
            v.byteOffset == byteOffset,
    {
        View { buffer, byteLength, byteOffset }
    }
}

} // verus!
