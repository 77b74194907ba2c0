use vstd::prelude::*;

pub mod fields;
pub mod le_bytes;
pub mod meta;
pub mod record;
pub mod stats;
pub mod columns;
pub mod compressor;
pub mod json;
pub mod writer;

verus! {

/// Soft cap on the byte size of one uncompressed column block. A single
/// record larger than the cap is still accepted into an empty buffer.
pub const SIZE_LIMIT: usize = 65536;

/// Width of one entry in a companion index column.
pub const U32_SIZE: usize = 4;

/// Byte size of the fixed header region reserved at offset 0:
/// 8 magic bytes, 2 version bytes, a u64 catalog offset and a u32 CRC.
pub const FILE_INFO_SIZE: usize = 22;

} // verus!
