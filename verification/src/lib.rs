//! Reading and writing of Valve texture files: the versioned header with its
//! resource dictionary, the location of every image plane inside the packed
//! image data, and the conversion between planes and plain rasters.

use vstd::prelude::*;

pub mod codec;
pub mod endian;
pub mod header;
pub mod image;
pub mod raster;
pub mod resources;
pub mod utils;
pub mod vtf;

pub use crate::image::ImageFormat;
use crate::image::InvalidFormatCode;
use crate::raster::RasterImage;
use crate::vtf::VTF;

verus! {

/// Everything that can go wrong while reading or writing a texture file.
#[derive(Debug)]
pub enum Error {
    /// The input ended before a complete value could be read.
    Io,
    /// The first four bytes are not the texture file signature.
    InvalidSignature,
    /// The header names a pixel format with a code that no format has.
    InvalidImageFormat(i16),
    /// The block decoder refused the plane.
    Image(::image::ImageError),
    /// The format is known, but no rule gives the size of its planes or
    /// turns them into a raster.
    UnsupportedImageFormat(ImageFormat),
    /// A plane does not lie inside the file, or pixel data does not have the
    /// length that the dimensions ask for.
    InvalidImageData,
    /// A raster to be stored has a side that is not a power of two or is
    /// above 65535.
    InvalidImageSize,
    /// The format is known, but rasters cannot be stored in it.
    UnsupportedEncodeImageFormat(ImageFormat),
}

impl From<InvalidFormatCode> for Error {
    fn from(err: InvalidFormatCode) -> (e: Error) {
        Error::InvalidImageFormat(err.number)
    }
}

impl vstd::std_specs::convert::FromSpecImpl<InvalidFormatCode> for Error {
    open spec fn obeys_from_spec() -> bool {
        true
    }

    open spec fn from_spec(err: InvalidFormatCode) -> Error {
        Error::InvalidImageFormat(err.number)
    }
}

/// Reads the file that `bytes` holds.
pub fn from_bytes(bytes: &[u8]) -> (r: Result<VTF<'_>, Error>)
    ensures
        VTF::is_read(bytes, r),
{
    VTF::read(bytes)
}

/// Builds a file that holds `image` in `image_format`.
pub fn create(image: RasterImage, image_format: ImageFormat) -> (r: Result<Vec<u8>, Error>)
    requires
        image@.wf(),
    ensures
        VTF::is_created(image@, image_format, r),
{
    VTF::create(image, image_format)
}

} // verus!
