//! A small rendering sandbox library: the image-format pieces that back the
//! texture loader, with verified contracts. The byte-level PPM decoder lives
//! in [`ppm`]; the texture front end in [`texture`].

pub mod ppm;
pub mod texture;

use vstd::prelude::*;

verus! {

} // verus!
