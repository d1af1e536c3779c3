//! An intra-only lossy video codec.
//!
//! Every frame is coded by itself: its luma plane and its two subsampled
//! chroma planes are cut into 8x8 blocks, the blocks are transformed and
//! quantized, put in zigzag order and entropy-coded into a bit-exact
//! stream. Decoding undoes every stage in the opposite order.
//!
//! This library holds the integer stages, each with its contract:
//!
//! * [`image`], [`grid`]: frames, planes and grids of blocks;
//! * [`frame`], [`blocks`]: frames to planes to blocks, and back;
//! * [`transform`]: centering, quantizing, dequantizing and clamping
//!   around the block transform;
//! * [`zigzag`], [`tables`]: raster to zigzag order, and back;
//! * [`category`], [`codes`], [`huffman`]: value bits and the two prefix
//!   codes;
//! * [`entropy`], [`delta`]: blocks to bits, and back;
//! * [`bitio`], [`header`], [`stream`]: bits to bytes, the container
//!   header and the whole stream;
//! * [`entropy_laws`], [`stream_laws`]: what is written is read back.
//!
//! The color conversion and the floating-point block transform are left to
//! the caller, as are files and video containers.

pub mod bitio;
pub mod blocks;
pub mod category;
pub mod codes;
pub mod delta;
pub mod entropy;
pub mod entropy_laws;
pub mod error;
pub mod frame;
pub mod grid;
pub mod header;
pub mod huffman;
pub mod image;
pub mod stream;
pub mod stream_laws;
pub mod tables;
pub mod transform;
pub mod zigzag;
