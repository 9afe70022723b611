//! The block codecs that this library relies on but does not contain:
//! `texpresso` compresses rasters into 4×4 texel blocks, and the `image`
//! crate decodes such blocks.
//!
//! The three functions that call the codecs are not proved: each states
//! what the crate behind it does. What the codecs compute is only given a
//! name.

use image::ImageDecoder;
use vstd::prelude::*;

verus! {

/// The error type of the `image` crate, carried through unopened.
#[verifier::external_type_specification]
#[verifier::external_body]
pub struct ExImageError(image::ImageError);

/// The three block schemes. `Dxt1` stores a block of colours in 8 bytes;
/// `Dxt3` and `Dxt5` store 8 bytes of alpha before them.
#[derive(Debug, Clone, Copy, PartialEq, Eq)]
pub enum BlockVariant {
    Dxt1,
    Dxt3,
    Dxt5,
}

impl BlockVariant {
    /// The bytes of one block of 4×4 texels.
    pub open spec fn spec_block_bytes(self) -> nat {
        match self {
            BlockVariant::Dxt1 => 8,
            BlockVariant::Dxt3 | BlockVariant::Dxt5 => 16,
        }
    }

    /// The bytes of one decoded pixel: red, green and blue, and alpha but
    /// for `Dxt1`.
    pub open spec fn spec_decoded_channels(self) -> nat {
        match self {
            BlockVariant::Dxt1 => 3,
            BlockVariant::Dxt3 | BlockVariant::Dxt5 => 4,
        }
    }

    /// The bytes of one decoded pixel.
    pub fn decoded_channels(&self) -> (r: u8)
        ensures
            r == self.spec_decoded_channels(),
    {
        match self {
            BlockVariant::Dxt1 => 3,
            BlockVariant::Dxt3 | BlockVariant::Dxt5 => 4,
        }
    }

    /// The bytes of the blocks that cover a `width` × `height` plane.
    pub open spec fn spec_compressed_size(self, width: nat, height: nat) -> nat {
        ((width + 3) / 4) * ((height + 3) / 4) * self.spec_block_bytes()
    }
}

/// The blocks that `texpresso` compresses a raster of `width` × `height`
/// RGBA pixels into, with its default parameters.
pub uninterp spec fn bc_compressed(
    variant: BlockVariant,
    rgba: Seq<u8>,
    width: nat,
    height: nat,
) -> Seq<u8>;

/// The pixels that the `image` crate decodes the blocks of a `width` ×
/// `height` plane into, row by row.
pub uninterp spec fn dxt_decoded(
    variant: BlockVariant,
    data: Seq<u8>,
    width: nat,
    height: nat,
) -> Seq<u8>;

/// `texpresso::Format::compressed_size`: the number of 4×4 blocks that
/// cover the plane, times the bytes of a block. The crate computes it in
/// `usize` without a check, so the result has to fit.
#[verifier::external_body]
pub(crate) fn compressed_size(variant: BlockVariant, width: usize, height: usize) -> (size: usize)
    requires
        width + 3 <= usize::MAX,
        height + 3 <= usize::MAX,
        variant.spec_compressed_size(width as nat, height as nat) <= usize::MAX,
    ensures
        size == variant.spec_compressed_size(width as nat, height as nat),
{
    let format = match variant {
        BlockVariant::Dxt1 => texpresso::Format::Bc1,
        BlockVariant::Dxt3 => texpresso::Format::Bc2,
        BlockVariant::Dxt5 => texpresso::Format::Bc3,
    };
    format.compressed_size(width, height)
}

/// `texpresso::Format::compress` with `Params::default()`: fills `output`
/// with the blocks of the raster. The crate reads four bytes for every
/// pixel, writes every block, and divides the output into rows of
/// blocks, which it cannot do for a plane without columns. `output`
/// starts out as zeros, so that what it holds afterwards depends on the
/// raster alone.
#[verifier::external_body]
pub(crate) fn compress(
    variant: BlockVariant,
    rgba: &[u8],
    width: usize,
    height: usize,
    output: &mut Vec<u8>,
)
    requires
        width > 0,
        height > 0,
        rgba@.len() == 4 * width * height,
        old(output)@.len() == variant.spec_compressed_size(width as nat, height as nat),
        forall|i: int| 0 <= i < old(output)@.len() ==> old(output)@[i] == 0,
    ensures
        final(output)@ == bc_compressed(variant, rgba@, width as nat, height as nat),
        final(output)@.len() == old(output)@.len(),
{
    let format = match variant {
        BlockVariant::Dxt1 => texpresso::Format::Bc1,
        BlockVariant::Dxt3 => texpresso::Format::Bc2,
        BlockVariant::Dxt5 => texpresso::Format::Bc3,
    };
    format.compress(rgba, width, height, texpresso::Params::default(), output.as_mut_slice())
}

/// `image::codecs::dxt::DxtDecoder::new`, then `read_image` into
/// `pixels`. The decoder refuses a plane whose width or height is no
/// multiple of 4, before it touches `pixels`, and nothing else: `data`
/// holds every block that it reads. It decodes three bytes for each pixel
/// of a `Dxt1` plane and four for the others, and writes every byte of
/// `pixels`, which has to have that length. It cannot divide a plane
/// without columns into rows.
#[verifier::external_body]
pub(crate) fn decode_blocks(
    variant: BlockVariant,
    data: &[u8],
    width: u32,
    height: u32,
    pixels: &mut Vec<u8>,
) -> (r: Result<(), image::ImageError>)
    requires
        width > 0,
        height > 0,
        data@.len() == variant.spec_compressed_size(width as nat, height as nat),
        old(pixels)@.len() == width * height * variant.spec_decoded_channels(),
    ensures
        match r {
            Ok(_) => {
                &&& width % 4 == 0
                &&& height % 4 == 0
                &&& final(pixels)@ == dxt_decoded(variant, data@, width as nat, height as nat)
                &&& final(pixels)@.len() == old(pixels)@.len()
            },
            Err(_) => (width % 4 != 0 || height % 4 != 0) && final(pixels)@ == old(pixels)@,
        },
{
    let variant = match variant {
        BlockVariant::Dxt1 => image::codecs::dxt::DXTVariant::DXT1,
        BlockVariant::Dxt3 => image::codecs::dxt::DXTVariant::DXT3,
        BlockVariant::Dxt5 => image::codecs::dxt::DXTVariant::DXT5,
    };
    image::codecs::dxt::DxtDecoder::new(data, width, height, variant)?.read_image(
        pixels.as_mut_slice(),
    )
}

} // verus!
