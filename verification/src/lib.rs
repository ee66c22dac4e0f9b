//! Verified core of a glTF binary (GLB) mesh decimation tool.
//!
//! The library holds the integer side of the pipeline: decoding of the
//! little-endian words of a GLB binary chunk, the framing of a GLB file,
//! the connectivity of a triangle mesh, and the bookkeeping of an edge
//! collapse. Floating-point work (positions, error quadrics, costs) is done
//! by the program around it.

pub mod decode;
pub mod mesh;
pub mod collapse;
pub mod glb;
pub mod buffer_view;
pub mod unpack;
pub mod records;
pub mod repack;
pub mod component;
pub mod decimate;
