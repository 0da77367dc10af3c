//! HodgeCodec: the verified core of a Hodge-decomposition audio codec.
//!
//! - `hodge_fixed`: Q16.16 fixed-point Hodge decomposition (Thomas and
//!   Poisson solvers), exact to the wrapping arithmetic.
//! - `format`, `frame`: the `.hodge` header and frame byte layouts, with
//!   readers that refuse what the writers cannot have produced.
//! - `container`: optional zstd wrapping of a whole stream.
//! - `watermark`: author watermark in the LSBs of 16-bit PCM with CRC-32.
//! - `encoder`, `mixer`, `decoder`, `quant`: stream-level rules and size
//!   accounting.
//! - `shazam_baseline`: constellation hashing of spectral peaks.

pub mod hodge_fixed;
pub mod hodge_math;
pub mod format;
pub mod watermark;
pub mod frame;
pub mod container;
pub mod mixer;
pub mod encoder;
pub mod decoder;
pub mod quant;
pub mod shazam_baseline;

pub use hodge_fixed::{hodge_decomposition_1d, q16_div, q16_mul, solve_poisson_1d, thomas_algorithm};
pub use hodge_math::{ScClass, FRAME_SIZE};
pub use watermark::{crc32, embed_watermark, extract_watermark};
pub mod windowing;
