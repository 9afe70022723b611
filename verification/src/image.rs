//! Pixel formats and the size of their planes, and the images of a file:
//! finding a plane in the bytes of the file and turning planes into
//! rasters and rasters into planes.

use crate::codec::{
    bc_compressed, compress, compressed_size, decode_blocks, dxt_decoded, BlockVariant,
};
use crate::header::VTFHeader;
use crate::raster::{PixelLayout, RasterImage, RasterView};
use crate::utils::{plane_offset, spec_offset};
use crate::Error;
use vstd::prelude::*;

verus! {

/// The pixel formats that a texture file can name.
#[derive(Debug, Clone, Copy, PartialEq, Eq)]
pub enum ImageFormat {
    /// The format of a plane that holds no data; its code is -1.
    NoFormat,
    Rgba8888,
    Abgr8888,
    Rgb888,
    Bgr888,
    Rgb565,
    I8,
    Ia88,
    P8,
    A8,
    Rgb888Bluescreen,
    Bgr888Bluescreen,
    Argb8888,
    Bgra8888,
    Dxt1,
    Dxt3,
    Dxt5,
    Bgrx8888,
    Bgr565,
    Bgrx5551,
    Bgra4444,
    Dxt1Onebitalpha,
    Bgra5551,
    Uv88,
    Uvwq8888,
    Rgba16161616f,
    Rgba16161616,
    Uvlx8888,
}

/// A number that is the code of no pixel format.
#[derive(Debug, Clone, Copy, PartialEq, Eq)]
pub struct InvalidFormatCode {
    pub number: i16,
}

impl ImageFormat {
    /// The signed 16-bit code that stands for the format in a file.
    pub open spec fn spec_code(self) -> i16 {
        match self {
            ImageFormat::NoFormat => -1i16,
            ImageFormat::Rgba8888 => 0,
            ImageFormat::Abgr8888 => 1,
            ImageFormat::Rgb888 => 2,
            ImageFormat::Bgr888 => 3,
            ImageFormat::Rgb565 => 4,
            ImageFormat::I8 => 5,
            ImageFormat::Ia88 => 6,
            ImageFormat::P8 => 7,
            ImageFormat::A8 => 8,
            ImageFormat::Rgb888Bluescreen => 9,
            ImageFormat::Bgr888Bluescreen => 10,
            ImageFormat::Argb8888 => 11,
            ImageFormat::Bgra8888 => 12,
            ImageFormat::Dxt1 => 13,
            ImageFormat::Dxt3 => 14,
            ImageFormat::Dxt5 => 15,
            ImageFormat::Bgrx8888 => 16,
            ImageFormat::Bgr565 => 17,
            ImageFormat::Bgrx5551 => 18,
            ImageFormat::Bgra4444 => 19,
            ImageFormat::Dxt1Onebitalpha => 20,
            ImageFormat::Bgra5551 => 21,
            ImageFormat::Uv88 => 22,
            ImageFormat::Uvwq8888 => 23,
            ImageFormat::Rgba16161616f => 24,
            ImageFormat::Rgba16161616 => 25,
            ImageFormat::Uvlx8888 => 26,
        }
    }

    /// The format with the given code, if there is one.
    pub open spec fn from_code(number: i16) -> Option<ImageFormat> {
        if number == -1 {
            Some(ImageFormat::NoFormat)
        } else if number == 0 {
            Some(ImageFormat::Rgba8888)
        } else if number == 1 {
            Some(ImageFormat::Abgr8888)
        } else if number == 2 {
            Some(ImageFormat::Rgb888)
        } else if number == 3 {
            Some(ImageFormat::Bgr888)
        } else if number == 4 {
            Some(ImageFormat::Rgb565)
        } else if number == 5 {
            Some(ImageFormat::I8)
        } else if number == 6 {
            Some(ImageFormat::Ia88)
        } else if number == 7 {
            Some(ImageFormat::P8)
        } else if number == 8 {
            Some(ImageFormat::A8)
        } else if number == 9 {
            Some(ImageFormat::Rgb888Bluescreen)
        } else if number == 10 {
            Some(ImageFormat::Bgr888Bluescreen)
        } else if number == 11 {
            Some(ImageFormat::Argb8888)
        } else if number == 12 {
            Some(ImageFormat::Bgra8888)
        } else if number == 13 {
            Some(ImageFormat::Dxt1)
        } else if number == 14 {
            Some(ImageFormat::Dxt3)
        } else if number == 15 {
            Some(ImageFormat::Dxt5)
        } else if number == 16 {
            Some(ImageFormat::Bgrx8888)
        } else if number == 17 {
            Some(ImageFormat::Bgr565)
        } else if number == 18 {
            Some(ImageFormat::Bgrx5551)
        } else if number == 19 {
            Some(ImageFormat::Bgra4444)
        } else if number == 20 {
            Some(ImageFormat::Dxt1Onebitalpha)
        } else if number == 21 {
            Some(ImageFormat::Bgra5551)
        } else if number == 22 {
            Some(ImageFormat::Uv88)
        } else if number == 23 {
            Some(ImageFormat::Uvwq8888)
        } else if number == 24 {
            Some(ImageFormat::Rgba16161616f)
        } else if number == 25 {
            Some(ImageFormat::Rgba16161616)
        } else if number == 26 {
            Some(ImageFormat::Uvlx8888)
        } else {
            None
        }
    }

    /// Codes and formats correspond one to one.
    pub proof fn lemma_code_roundtrip(self, number: i16)
        ensures
            Self::from_code(self.spec_code()) == Some(self),
            Self::from_code(number) matches Some(f) ==> f.spec_code() == number,
            Self::from_code(number) is Some <==> -1 <= number <= 26,
    {
    }

    /// The code that stands for the format in a file.
    pub fn code(&self) -> (number: i16)
        ensures
            number == self.spec_code(),
    {
        match self {
            ImageFormat::NoFormat => -1,
            ImageFormat::Rgba8888 => 0,
            ImageFormat::Abgr8888 => 1,
            ImageFormat::Rgb888 => 2,
            ImageFormat::Bgr888 => 3,
            ImageFormat::Rgb565 => 4,
            ImageFormat::I8 => 5,
            ImageFormat::Ia88 => 6,
            ImageFormat::P8 => 7,
            ImageFormat::A8 => 8,
            ImageFormat::Rgb888Bluescreen => 9,
            ImageFormat::Bgr888Bluescreen => 10,
            ImageFormat::Argb8888 => 11,
            ImageFormat::Bgra8888 => 12,
            ImageFormat::Dxt1 => 13,
            ImageFormat::Dxt3 => 14,
            ImageFormat::Dxt5 => 15,
            ImageFormat::Bgrx8888 => 16,
            ImageFormat::Bgr565 => 17,
            ImageFormat::Bgrx5551 => 18,
            ImageFormat::Bgra4444 => 19,
            ImageFormat::Dxt1Onebitalpha => 20,
            ImageFormat::Bgra5551 => 21,
            ImageFormat::Uv88 => 22,
            ImageFormat::Uvwq8888 => 23,
            ImageFormat::Rgba16161616f => 24,
            ImageFormat::Rgba16161616 => 25,
            ImageFormat::Uvlx8888 => 26,
        }
    }

    /// The format that `number` stands for; a number that is no format's
    /// code comes back in the error.
    pub fn try_from_primitive(number: i16) -> (r: Result<ImageFormat, InvalidFormatCode>)
        ensures
            r == (match Self::from_code(number) {
                Some(format) => Ok::<ImageFormat, InvalidFormatCode>(format),
                None => Err(InvalidFormatCode { number }),
            }),
    {
        match number {
            -1 => Ok(ImageFormat::NoFormat),
            0 => Ok(ImageFormat::Rgba8888),
            1 => Ok(ImageFormat::Abgr8888),
            2 => Ok(ImageFormat::Rgb888),
            3 => Ok(ImageFormat::Bgr888),
            4 => Ok(ImageFormat::Rgb565),
            5 => Ok(ImageFormat::I8),
            6 => Ok(ImageFormat::Ia88),
            7 => Ok(ImageFormat::P8),
            8 => Ok(ImageFormat::A8),
            9 => Ok(ImageFormat::Rgb888Bluescreen),
            10 => Ok(ImageFormat::Bgr888Bluescreen),
            11 => Ok(ImageFormat::Argb8888),
            12 => Ok(ImageFormat::Bgra8888),
            13 => Ok(ImageFormat::Dxt1),
            14 => Ok(ImageFormat::Dxt3),
            15 => Ok(ImageFormat::Dxt5),
            16 => Ok(ImageFormat::Bgrx8888),
            17 => Ok(ImageFormat::Bgr565),
            18 => Ok(ImageFormat::Bgrx5551),
            19 => Ok(ImageFormat::Bgra4444),
            20 => Ok(ImageFormat::Dxt1Onebitalpha),
            21 => Ok(ImageFormat::Bgra5551),
            22 => Ok(ImageFormat::Uv88),
            23 => Ok(ImageFormat::Uvwq8888),
            24 => Ok(ImageFormat::Rgba16161616f),
            25 => Ok(ImageFormat::Rgba16161616),
            26 => Ok(ImageFormat::Uvlx8888),
            _ => Err(InvalidFormatCode { number }),
        }
    }

    /// For a format stored in 4×4 texel blocks, the bytes of one block.
    pub open spec fn spec_block_bytes(self) -> Option<u8> {
        match self {
            ImageFormat::Dxt1 | ImageFormat::Dxt1Onebitalpha => Some(8u8),
            ImageFormat::Dxt3 | ImageFormat::Dxt5 => Some(16u8),
            _ => None,
        }
    }

    /// For a format stored pixel by pixel, the bytes of one pixel. The
    /// format `NoFormat` holds no data at all.
    pub open spec fn spec_pixel_bytes(self) -> Option<u8> {
        match self {
            ImageFormat::NoFormat => Some(0u8),
            ImageFormat::I8 | ImageFormat::A8 => Some(1u8),
            ImageFormat::Rgb565 | ImageFormat::Ia88 => Some(2u8),
            ImageFormat::Rgb888 | ImageFormat::Bgr888 => Some(3u8),
            ImageFormat::Rgba8888
            | ImageFormat::Abgr8888
            | ImageFormat::Argb8888
            | ImageFormat::Bgra8888 => Some(4u8),
            ImageFormat::Rgba16161616f | ImageFormat::Rgba16161616 => Some(8u8),
            _ => None,
        }
    }

    /// Whether a rule gives the size of a plane in this format.
    pub open spec fn has_frame_size(self) -> bool {
        self.spec_block_bytes() is Some || self.spec_pixel_bytes() is Some
    }

    /// The bytes of a `width` × `height` plane: whole blocks for a block
    /// format, pixels otherwise, and 0 where the format has no size rule.
    pub open spec fn spec_frame_bytes(self, width: nat, height: nat) -> nat {
        match self.spec_block_bytes() {
            Some(block) => (((width + 3) / 4) * ((height + 3) / 4) * block) as nat,
            None => match self.spec_pixel_bytes() {
                Some(pixel) => width * height * pixel as nat,
                None => 0,
            },
        }
    }

    /// For a format stored in 4×4 texel blocks, the bytes of one block.
    pub fn block_bytes(&self) -> (r: Option<u8>)
        ensures
            r == self.spec_block_bytes(),
    {
        match self {
            ImageFormat::Dxt1 | ImageFormat::Dxt1Onebitalpha => Some(8u8),
            ImageFormat::Dxt3 | ImageFormat::Dxt5 => Some(16u8),
            _ => None,
        }
    }

    /// For a format stored pixel by pixel, the bytes of one pixel.
    pub fn pixel_bytes(&self) -> (r: Option<u8>)
        ensures
            r == self.spec_pixel_bytes(),
    {
        match self {
            ImageFormat::NoFormat => Some(0u8),
            ImageFormat::I8 | ImageFormat::A8 => Some(1u8),
            ImageFormat::Rgb565 | ImageFormat::Ia88 => Some(2u8),
            ImageFormat::Rgb888 | ImageFormat::Bgr888 => Some(3u8),
            ImageFormat::Rgba8888
            | ImageFormat::Abgr8888
            | ImageFormat::Argb8888
            | ImageFormat::Bgra8888 => Some(4u8),
            ImageFormat::Rgba16161616f | ImageFormat::Rgba16161616 => Some(8u8),
            _ => None,
        }
    }

    /// The bytes of a `width` × `height` plane, for every width and height:
    /// the result is wide enough never to overflow.
    pub fn frame_bytes(&self, width: u32, height: u32) -> (r: Result<u128, Error>)
        ensures
            self.has_frame_size() ==> r == Ok::<u128, Error>(
                self.spec_frame_bytes(width as nat, height as nat) as u128,
            ),
            !self.has_frame_size() ==> r == Err::<u128, Error>(
                Error::UnsupportedImageFormat(*self),
            ),
            self.spec_frame_bytes(width as nat, height as nat) <= 0x10_0000_0000_0000_0000,
    {
        proof {
            lemma_frame_bytes_bound(*self, width as nat, height as nat);
        }
        let w: u128 = width as u128;
        let h: u128 = height as u128;
        if let Some(block) = self.block_bytes() {
            let across: u128 = (w + 3) / 4;
            let down: u128 = (h + 3) / 4;
            assert(across * down <= 0x4000_0000 * 0x4000_0000) by (nonlinear_arith)
                requires
                    across <= 0x4000_0000,
                    down <= 0x4000_0000,
            ;
            assert(across * down * block <= 0x4000_0000 * 0x4000_0000 * 16) by (nonlinear_arith)
                requires
                    across * down <= 0x4000_0000 * 0x4000_0000,
                    block <= 16,
            ;
            Ok(across * down * (block as u128))
        } else if let Some(pixel) = self.pixel_bytes() {
            assert(w * h <= 0xFFFF_FFFF * 0xFFFF_FFFF) by (nonlinear_arith)
                requires
                    w <= 0xFFFF_FFFF,
                    h <= 0xFFFF_FFFF,
            ;
            assert(w * h * pixel <= 0xFFFF_FFFF * 0xFFFF_FFFF * 8) by (nonlinear_arith)
                requires
                    w * h <= 0xFFFF_FFFF * 0xFFFF_FFFF,
                    pixel <= 8,
            ;
            Ok(w * h * (pixel as u128))
        } else {
            Err(Error::UnsupportedImageFormat(*self))
        }
    }

    /// The bytes of a `width` × `height` plane, where that number fits in 32
    /// bits.
    pub fn frame_size(&self, width: u32, height: u32) -> (r: Result<u32, Error>)
        requires
            self.spec_frame_bytes(width as nat, height as nat) <= u32::MAX,
        ensures
            self.has_frame_size() ==> r == Ok::<u32, Error>(
                self.spec_frame_bytes(width as nat, height as nat) as u32,
            ),
            !self.has_frame_size() ==> r == Err::<u32, Error>(
                Error::UnsupportedImageFormat(*self),
            ),
    {
        match self.frame_bytes(width, height) {
            Ok(bytes) => Ok(bytes as u32),
            Err(e) => Err(e),
        }
    }
}

/// How the planes of a format and rasters turn into each other: through
/// the block codec, or byte for byte in a layout of the raster.
#[derive(Debug, Clone, Copy, PartialEq, Eq)]
pub enum PlaneCodec {
    Block(BlockVariant),
    Raw(PixelLayout),
}

impl ImageFormat {
    /// How a plane of this format becomes a raster, for the formats that
    /// can be decoded.
    pub open spec fn spec_decode_rule(self) -> Option<PlaneCodec> {
        match self {
            ImageFormat::Dxt1 | ImageFormat::Dxt1Onebitalpha => Some(
                PlaneCodec::Block(BlockVariant::Dxt1),
            ),
            ImageFormat::Dxt3 => Some(PlaneCodec::Block(BlockVariant::Dxt3)),
            ImageFormat::Dxt5 => Some(PlaneCodec::Block(BlockVariant::Dxt5)),
            ImageFormat::Rgba8888 => Some(PlaneCodec::Raw(PixelLayout::Rgba8)),
            ImageFormat::Rgb888 => Some(PlaneCodec::Raw(PixelLayout::Rgb8)),
            ImageFormat::Bgr888 => Some(PlaneCodec::Raw(PixelLayout::Bgr8)),
            ImageFormat::Bgra8888 => Some(PlaneCodec::Raw(PixelLayout::Bgra8)),
            _ => None,
        }
    }

    /// How a raster becomes a plane of this format, for the formats that
    /// rasters can be stored in.
    pub open spec fn spec_encode_rule(self) -> Option<PlaneCodec> {
        match self {
            ImageFormat::Dxt5 => Some(PlaneCodec::Block(BlockVariant::Dxt5)),
            ImageFormat::Dxt1Onebitalpha => Some(PlaneCodec::Block(BlockVariant::Dxt1)),
            ImageFormat::Rgba8888 => Some(PlaneCodec::Raw(PixelLayout::Rgba8)),
            ImageFormat::Rgb888 => Some(PlaneCodec::Raw(PixelLayout::Rgb8)),
            _ => None,
        }
    }

    /// How a plane of this format becomes a raster.
    pub fn decode_rule(&self) -> (r: Option<PlaneCodec>)
        ensures
            r == self.spec_decode_rule(),
    {
        match self {
            ImageFormat::Dxt1 | ImageFormat::Dxt1Onebitalpha => Some(
                PlaneCodec::Block(BlockVariant::Dxt1),
            ),
            ImageFormat::Dxt3 => Some(PlaneCodec::Block(BlockVariant::Dxt3)),
            ImageFormat::Dxt5 => Some(PlaneCodec::Block(BlockVariant::Dxt5)),
            ImageFormat::Rgba8888 => Some(PlaneCodec::Raw(PixelLayout::Rgba8)),
            ImageFormat::Rgb888 => Some(PlaneCodec::Raw(PixelLayout::Rgb8)),
            ImageFormat::Bgr888 => Some(PlaneCodec::Raw(PixelLayout::Bgr8)),
            ImageFormat::Bgra8888 => Some(PlaneCodec::Raw(PixelLayout::Bgra8)),
            _ => None,
        }
    }

    /// How a raster becomes a plane of this format.
    pub fn encode_rule(&self) -> (r: Option<PlaneCodec>)
        ensures
            r == self.spec_encode_rule(),
    {
        match self {
            ImageFormat::Dxt5 => Some(PlaneCodec::Block(BlockVariant::Dxt5)),
            ImageFormat::Dxt1Onebitalpha => Some(PlaneCodec::Block(BlockVariant::Dxt1)),
            ImageFormat::Rgba8888 => Some(PlaneCodec::Raw(PixelLayout::Rgba8)),
            ImageFormat::Rgb888 => Some(PlaneCodec::Raw(PixelLayout::Rgb8)),
            _ => None,
        }
    }

    /// A format that is decoded or encoded has a size rule, and that rule
    /// is the one of its codec: blocks of the same size, or as many bytes
    /// for a pixel as the layout has channels.
    pub proof fn lemma_codec_size(self, width: nat, height: nat)
        ensures
            self.spec_encode_rule() is Some ==> self.spec_decode_rule() is Some,
            self.spec_decode_rule() is Some ==> self.has_frame_size(),
            self.spec_decode_rule() matches Some(PlaneCodec::Block(variant))
                ==> self.spec_frame_bytes(width, height) == variant.spec_compressed_size(
                width,
                height,
            ),
            self.spec_decode_rule() matches Some(PlaneCodec::Raw(layout))
                ==> self.spec_frame_bytes(width, height) == width * height
                * layout.spec_channels(),
            self.spec_encode_rule() matches Some(PlaneCodec::Block(variant))
                ==> self.spec_frame_bytes(width, height) == variant.spec_compressed_size(
                width,
                height,
            ),
            self.spec_encode_rule() matches Some(PlaneCodec::Raw(layout))
                ==> self.spec_frame_bytes(width, height) == width * height
                * layout.spec_channels(),
    {
    }
}

/// One image of a file: the header, the format and size of the image, the
/// bytes of the file, and the offset in them at which the data of the
/// image starts. The bytes are borrowed; only decoding copies them.
#[derive(Debug)]
pub struct VTFImage<'a> {
    pub header: VTFHeader,
    pub format: ImageFormat,
    pub width: u16,
    pub height: u16,
    pub bytes: &'a [u8],
    pub offset: u64,
}

impl<'a> VTFImage<'a> {
    /// The offset in the file at which the largest mip of `frame` starts.
    pub open spec fn spec_frame_start(&self, frame: nat) -> nat {
        self.offset as nat + spec_offset(self.header@, self.format, frame, 0, 0, 0)
    }

    /// The bytes of a plane of the image.
    pub open spec fn spec_frame_len(&self) -> nat {
        self.format.spec_frame_bytes(self.width as nat, self.height as nat)
    }

    /// The largest mip of `frame`: its bytes in the file, or the reason
    /// why there are none. A plane that does not lie inside the file as a
    /// whole is an error.
    pub open spec fn spec_frame(&self, frame: nat) -> Result<Seq<u8>, Error> {
        if !self.format.has_frame_size() {
            Err(Error::UnsupportedImageFormat(self.format))
        } else if self.spec_frame_start(frame) + self.spec_frame_len() > self.bytes@.len() {
            Err(Error::InvalidImageData)
        } else {
            Ok(
                self.bytes@.subrange(
                    self.spec_frame_start(frame) as int,
                    (self.spec_frame_start(frame) + self.spec_frame_len()) as int,
                ),
            )
        }
    }

    /// Whether `r` is what decoding `frame` gives.
    ///
    /// A plane that cannot be had is the error of `spec_frame`. A format
    /// without a decode rule is an error. A raw plane is the data of the
    /// raster as it is. A plane of blocks goes through the block decoder,
    /// which refuses a width or height that is no multiple of 4; a plane
    /// without pixels is the raster without pixels.
    pub open spec fn is_decoding(&self, frame: nat, r: Result<RasterImage, Error>) -> bool {
        match self.spec_frame(frame) {
            Err(e) => r == Err::<RasterImage, Error>(e),
            Ok(plane) => match self.format.spec_decode_rule() {
                None => r == Err::<RasterImage, Error>(Error::UnsupportedImageFormat(self.format)),
                Some(PlaneCodec::Raw(layout)) => r matches Ok(raster) && raster@ == (RasterView {
                    layout,
                    width: self.width as u32,
                    height: self.height as u32,
                    data: plane,
                }),
                Some(PlaneCodec::Block(variant)) => if self.width == 0 || self.height == 0 {
                    r matches Ok(raster) && raster@ == (RasterView {
                        layout: PixelLayout::spec_decoded_from(variant),
                        width: self.width as u32,
                        height: self.height as u32,
                        data: Seq::empty(),
                    })
                } else if self.width % 4 != 0 || self.height % 4 != 0 {
                    r matches Err(Error::Image(_))
                } else {
                    r matches Ok(raster) && raster@ == (RasterView {
                        layout: PixelLayout::spec_decoded_from(variant),
                        width: self.width as u32,
                        height: self.height as u32,
                        data: dxt_decoded(variant, plane, self.width as nat, self.height as nat),
                    })
                },
            },
        }
    }

    /// An image of `width` × `height` pixels in `format`, whose data starts
    /// at `offset` in `bytes`.
    pub fn new(
        header: VTFHeader,
        format: ImageFormat,
        width: u16,
        height: u16,
        bytes: &'a [u8],
        offset: u64,
    ) -> (image: VTFImage<'a>)
        ensures
            image.header == header,
            image.format == format,
            image.width == width,
            image.height == height,
            image.bytes == bytes,
            image.offset == offset,
    {
        VTFImage { header, format, width, height, bytes, offset }
    }

    /// The bytes of the largest mip of `frame`.
    pub fn get_frame(&self, frame: u32) -> (r: Result<&'a [u8], Error>)
        ensures
            match self.spec_frame(frame as nat) {
                Ok(plane) => r matches Ok(bytes) && bytes@ == plane,
                Err(e) => r == Err::<&[u8], Error>(e),
            },
    {
        let frame_size: u128 = self.format.frame_bytes(self.width as u32, self.height as u32)?;
        let base: u128 = self.offset as u128 + plane_offset(
            &self.header,
            &self.format,
            frame,
            0,
            0,
            0,
        )?;
        if base + frame_size > self.bytes.len() as u128 {
            return Err(Error::InvalidImageData);
        }
        Ok(vstd::slice::slice_subrange(self.bytes, base as usize, (base + frame_size) as usize))
    }

    /// The raster of this image's size over `buffer`, if `buffer` has the
    /// bytes of exactly that many pixels.
    pub fn image_from_buffer(&self, buffer: Vec<u8>, layout: PixelLayout) -> (r: Result<
        RasterImage,
        Error,
    >)
        ensures
            buffer@.len() == self.width * self.height * layout.spec_channels() ==> (r matches Ok(
                raster,
            ) && raster@ == RasterView {
                layout,
                width: self.width as u32,
                height: self.height as u32,
                data: buffer@,
            }),
            buffer@.len() != self.width * self.height * layout.spec_channels() ==> r == Err::<
                RasterImage,
                Error,
            >(Error::InvalidImageData),
    {
        match RasterImage::from_raw(layout, self.width as u32, self.height as u32, buffer) {
            Some(raster) => Ok(raster),
            None => Err(Error::InvalidImageData),
        }
    }

    /// The largest mip of `frame` as a raster. The pixels that the block
    /// decoder gives have to fit in a buffer.
    pub fn decode(&self, frame: u32) -> (r: Result<RasterImage, Error>)
        requires
            self.format.spec_decode_rule() matches Some(PlaneCodec::Block(variant)) ==> self.width
                * self.height * variant.spec_decoded_channels() <= usize::MAX,
        ensures
            self.is_decoding(frame as nat, r),
    {
        let bytes: &[u8] = self.get_frame(frame)?;
        proof {
            self.format.lemma_codec_size(self.width as nat, self.height as nat);
        }
        match self.format.decode_rule() {
            Some(PlaneCodec::Block(variant)) => {
                let layout = PixelLayout::decoded_from(variant);
                if self.width == 0 || self.height == 0 {
                    assert(self.width * self.height * layout.spec_channels() == 0)
                        by (nonlinear_arith)
                        requires
                            self.width == 0 || self.height == 0,
                    ;
                    self.image_from_buffer(Vec::new(), layout)
                } else {
                    let channels: usize = variant.decoded_channels() as usize;
                    let width: usize = self.width as usize;
                    let height: usize = self.height as usize;
                    assert(width * height <= width * height * channels) by (nonlinear_arith)
                        requires
                            channels >= 1,
                    ;
                    let mut pixels: Vec<u8> = vec![0u8; width * height * channels];
                    match decode_blocks(
                        variant,
                        bytes,
                        self.width as u32,
                        self.height as u32,
                        &mut pixels,
                    ) {
                        Ok(()) => self.image_from_buffer(pixels, layout),
                        Err(e) => Err(Error::Image(e)),
                    }
                }
            },
            Some(PlaneCodec::Raw(layout)) => self.image_from_buffer(
                vstd::slice::slice_to_vec(bytes),
                layout,
            ),
            None => Err(Error::UnsupportedImageFormat(self.format)),
        }
    }
}

/// Whether `plane` is `raster` stored in `format`, a format that rasters
/// can be stored in.
///
/// For a raw format the plane is the pixels of the raster, as red, green,
/// blue and alpha or as red, green and blue. For a block format the plane
/// is what the block compressor makes of the pixels as red, green, blue
/// and alpha; its length is that of the blocks that cover the raster.
pub open spec fn is_plane_of(raster: RasterView, format: ImageFormat, plane: Seq<u8>) -> bool {
    match format.spec_encode_rule() {
        None => false,
        Some(PlaneCodec::Raw(layout)) => plane == (if layout == PixelLayout::Rgba8 {
            raster.rgba8()
        } else {
            raster.rgb8()
        }),
        Some(PlaneCodec::Block(variant)) => {
            &&& plane.len() == format.spec_frame_bytes(raster.width as nat, raster.height as nat)
            &&& raster.width > 0 && raster.height > 0 ==> plane == bc_compressed(
                variant,
                raster.rgba8(),
                raster.width as nat,
                raster.height as nat,
            )
        },
    }
}

/// Whether `r` is what storing `raster` in `format` gives: the plane, or
/// an error for a format that rasters cannot be stored in.
pub open spec fn is_encoding(raster: RasterView, format: ImageFormat, r: Result<Vec<u8>, Error>) -> bool {
    match format.spec_encode_rule() {
        None => r == Err::<Vec<u8>, Error>(Error::UnsupportedEncodeImageFormat(format)),
        Some(_) => r matches Ok(plane) && is_plane_of(raster, format, plane@),
    }
}

/// Stores `image` as one plane of `format`. For a block format the sides
/// rounded up to whole blocks, and the plane, have to fit in `usize`.
pub fn encode(image: &RasterImage, format: ImageFormat) -> (r: Result<Vec<u8>, Error>)
    requires
        image@.wf(),
        format.spec_encode_rule() matches Some(PlaneCodec::Block(_)) ==> {
            &&& image.width + 3 <= usize::MAX
            &&& image.height + 3 <= usize::MAX
            &&& format.spec_frame_bytes(image.width as nat, image.height as nat) <= usize::MAX
        },
    ensures
        is_encoding(image@, format, r),
{
    proof {
        format.lemma_codec_size(image.width as nat, image.height as nat);
    }
    match format.encode_rule() {
        Some(PlaneCodec::Block(variant)) => {
            let width: usize = image.width as usize;
            let height: usize = image.height as usize;
            if width == 0 || height == 0 {
                assert(((width + 3) / 4) * ((height + 3) / 4) == 0) by (nonlinear_arith)
                    requires
                        (width + 3) / 4 == 0 || (height + 3) / 4 == 0,
                ;
                return Ok(Vec::new());
            }
            let rgba: Vec<u8> = image.to_rgba8();
            let size: usize = compressed_size(variant, width, height);
            let mut plane: Vec<u8> = vec![0u8; size];
            assert(rgba@.len() == 4 * width * height) by (nonlinear_arith)
                requires
                    rgba@.len() == 4 * (width * height),
            ;
            compress(variant, rgba.as_slice(), width, height, &mut plane);
            Ok(plane)
        },
        Some(PlaneCodec::Raw(layout)) => match layout {
            PixelLayout::Rgba8 => Ok(image.to_rgba8()),
            _ => Ok(image.to_rgb8()),
        },
        None => Err(Error::UnsupportedEncodeImageFormat(format)),
    }
}

/// A plane with 32-bit sides has fewer than 2^68 bytes.
pub proof fn lemma_frame_bytes_bound(format: ImageFormat, width: nat, height: nat)
    requires
        width <= u32::MAX,
        height <= u32::MAX,
    ensures
        format.spec_frame_bytes(width, height) <= 0x10_0000_0000_0000_0000,
{
    let across: nat = (width + 3) / 4;
    let down: nat = (height + 3) / 4;
    assert(across * down <= 0x4000_0000 * 0x4000_0000) by (nonlinear_arith)
        requires
            across <= 0x4000_0000,
            down <= 0x4000_0000,
    ;
    assert(width * height <= 0xFFFF_FFFF * 0xFFFF_FFFF) by (nonlinear_arith)
        requires
            width <= 0xFFFF_FFFF,
            height <= 0xFFFF_FFFF,
    ;
    match format.spec_block_bytes() {
        Some(block) => {
            assert(across * down * block <= 0x4000_0000 * 0x4000_0000 * 16) by (nonlinear_arith)
                requires
                    0 <= across * down <= 0x4000_0000 * 0x4000_0000,
                    0 <= block <= 16,
            ;
        },
        None => match format.spec_pixel_bytes() {
            Some(pixel) => {
                assert(width * height * pixel <= 0xFFFF_FFFF * 0xFFFF_FFFF * 8)
                    by (nonlinear_arith)
                    requires
                        0 <= width * height <= 0xFFFF_FFFF * 0xFFFF_FFFF,
                        0 <= pixel <= 8,
                ;
            },
            None => {},
        },
    }
}

} // verus!
