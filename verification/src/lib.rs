//! Orientation normalisation and derivative generation for trees of photos.
//!
//! The library holds the rules of the work: how an orientation tag is
//! resolved and applied to pixels, which directory entries count as source
//! images, where corrected copies and scaled variants are stored, in which
//! order the work on one image proceeds, and what goes into the archive of
//! the output. Reading and writing files is left to the caller, who hands
//! bytes and directory listings in and gets the next thing to do back.
//!
//! - `orientation`: the eight orientations, their resolution from metadata
//!   and their correction.
//! - `pixels`: pixel buffers and the flips and rotations of their pixels.
//! - `names`: what the name of a directory entry says about it.
//! - `discovery`, `discovery_laws`: the walk that finds the source images.
//! - `codec`, `scaling`: decoding, encoding and resampling pictures.
//! - `layout`: the paths of what is stored.
//! - `generator`, `rerun`: the work on one image, and what running it twice
//!   comes to.
//! - `batch`: the work on many images, none held up by another's failure.
//! - `archive`: the entries of the archive.
//! - `text`: characters, texts and decimal numbers.

pub mod archive;
pub mod batch;
pub mod codec;
pub mod discovery;
pub mod discovery_laws;
pub mod generator;
pub mod layout;
pub mod names;
pub mod orientation;
pub mod pixels;
pub mod rerun;
pub mod scaling;
pub mod text;

pub use codec::read_image_to_buffer;
pub use names::is_supported_extension;
pub use orientation::{fix_rotation, ExifRotation};
