//! Core of the tagged "MIDG" image container: header checksum and validation,
//! mip-chain sizing, and a generic row-major pixel buffer.
use vstd::prelude::*;

pub mod checksum;
pub mod header;
pub mod image_data;
pub mod mip;
pub mod palette;
pub mod pixel;

verus! {

} // verus!
