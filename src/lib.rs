//! Content-addressed OCI artifacts: identifiers, credential records, the
//! registry protocol's decisions and the image-layout engine's integrity rules.

use vstd::prelude::*;

pub mod digest;
pub mod distribution;
pub mod error;
pub mod image;
pub mod image_name;
pub mod local;
pub mod media_types;
pub mod text;

pub use digest::Digest;
pub use error::Error;
pub use image_name::ImageName;

verus! {

} // verus!
