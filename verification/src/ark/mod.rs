//! The schemes over the BLS12-381 curve of arkworks, and what they are built
//! on: the scalar field and the groups, polynomials, and evaluation domains.
pub mod curve;
pub mod division;
pub mod domain;
pub mod field;
pub mod poly;
pub mod poly_spec;
pub mod roots;

pub mod kzg;
pub mod kzg_multiproof;
pub mod streaming_kzg;

pub mod enc_bench;
pub mod fft_bench;
pub mod grid_bench;
pub mod kzg_bench;
pub mod kzg_multiproof_bench;
pub mod streaming_kzg_bench;
