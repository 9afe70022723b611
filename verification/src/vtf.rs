//! A whole file: reading one into its header and its two images, and
//! building one from a raster.

use crate::endian::{put_bytes, put_zeros, zeros};
use crate::header::{lemma_parsed_size, parse_header, HeaderView, VTFHeader};
use crate::image::{encode, is_plane_of, ImageFormat, PlaneCodec, VTFImage};
use crate::raster::{PixelLayout, RasterImage, RasterView};
use crate::resources::{find_by_type, ResourceList, ResourceType};
use crate::Error;
use vstd::arithmetic::power2::is_pow2;
use vstd::prelude::*;

verus! {

/// A file that was read: its header, and the low and the high resolution
/// image, which borrow the bytes of the file.
#[derive(Debug)]
pub struct VTF<'a> {
    pub header: VTFHeader,
    pub lowres_image: VTFImage<'a>,
    pub highres_image: VTFImage<'a>,
}

/// The offset at which the data of the low resolution image starts: the
/// one that the resource dictionary gives for it, and without one the
/// size of the header.
pub open spec fn lowres_start(header: HeaderView) -> nat {
    match find_by_type(header.resources, ResourceType::low_res_image()) {
        Some(entry) => entry.data as nat,
        None => header.size(),
    }
}

/// The offset at which the data of the high resolution image starts: the
/// one that the resource dictionary gives for it, and without one the end
/// of the low resolution image, whose size has to be known for that.
pub open spec fn highres_start(header: HeaderView) -> Result<nat, Error> {
    match find_by_type(header.resources, ResourceType::image()) {
        Some(entry) => Ok(entry.data as nat),
        None => if header.lowres_image_format.has_frame_size() {
            Ok(
                lowres_start(header) + header.lowres_image_format.spec_frame_bytes(
                    header.lowres_image_width as nat,
                    header.lowres_image_height as nat,
                ),
            )
        } else {
            Err(Error::UnsupportedImageFormat(header.lowres_image_format))
        },
    }
}

/// The header of a file that is built from a raster: version 7.1, one
/// frame, one mip, no low resolution image, and a bumpmap scale of 1.
pub open spec fn created_header(width: u16, height: u16, format: ImageFormat) -> HeaderView {
    HeaderView {
        signature: VTFHeader::SIGNATURE,
        version: (7, 1),
        header_size: 64,
        width,
        height,
        flags: 8972,
        frames: 1,
        first_frame: 0,
        reflectivity: (0, 0, 0),
        bumpmap_scale: 0x3F80_0000,
        highres_image_format: format,
        mipmap_count: 1,
        lowres_image_format: ImageFormat::Dxt1,
        lowres_image_width: 0,
        lowres_image_height: 0,
        depth: 1,
        resources: Seq::empty(),
    }
}

/// Whether a raster can be stored at all: both sides are powers of two
/// and none is above 65535.
pub open spec fn storable_size(width: u32, height: u32) -> bool {
    is_pow2(width as int) && is_pow2(height as int) && width <= 0xFFFF && height <= 0xFFFF
}

/// Whether `x` is a power of two.
pub fn is_power_of_two(x: u32) -> (r: bool)
    ensures
        r == is_pow2(x as int),
{
    reveal(is_pow2);
    if x == 0 {
        return false;
    }
    let mut rest: u32 = x;
    while rest % 2 == 0
        invariant
            rest > 0,
            is_pow2(rest as int) == is_pow2(x as int),
        decreases rest,
    {
        reveal(is_pow2);
        rest = rest / 2;
    }
    rest == 1
}

impl<'a> VTF<'a> {
    /// Whether `r` is what reading `bytes` gives.
    ///
    /// A header that cannot be read, or a high resolution image that
    /// cannot be placed, is an error. Else both images carry the header
    /// and the bytes of the file, each with its own format, size and
    /// start.
    pub open spec fn is_read(bytes: &'a [u8], r: Result<VTF<'a>, Error>) -> bool {
        match parse_header(bytes@) {
            Err(e) => r == Err::<VTF<'a>, Error>(e),
            Ok(header) => match highres_start(header) {
                Err(e) => r == Err::<VTF<'a>, Error>(e),
                Ok(start) => {
                    &&& r matches Ok(vtf)
                    &&& vtf.header@ == header
                    &&& vtf.lowres_image.header@ == header
                    &&& vtf.lowres_image.format == header.lowres_image_format
                    &&& vtf.lowres_image.width == header.lowres_image_width
                    &&& vtf.lowres_image.height == header.lowres_image_height
                    &&& vtf.lowres_image.bytes@ == bytes@
                    &&& vtf.lowres_image.offset == lowres_start(header)
                    &&& vtf.highres_image.header@ == header
                    &&& vtf.highres_image.format == header.highres_image_format
                    &&& vtf.highres_image.width == header.width
                    &&& vtf.highres_image.height == header.height
                    &&& vtf.highres_image.bytes@ == bytes@
                    &&& vtf.highres_image.offset == start
                },
            },
        }
    }

    /// Whether `r` is what building a file from `raster` gives.
    ///
    /// A raster that is not of a storable size is an error, and so is then
    /// a format that rasters cannot be stored in. Else the file is the
    /// header, one zero byte that fills it up to its size of 64, and the
    /// raster as one plane.
    pub open spec fn is_created(raster: RasterView, format: ImageFormat, r: Result<Vec<u8>, Error>) -> bool {
        if !storable_size(raster.width, raster.height) {
            r == Err::<Vec<u8>, Error>(Error::InvalidImageSize)
        } else if format.spec_encode_rule() is None {
            r == Err::<Vec<u8>, Error>(Error::UnsupportedEncodeImageFormat(format))
        } else {
            &&& r matches Ok(file)
            &&& file@.len() >= 64
            &&& file@.subrange(0, 64) == created_header(
                raster.width as u16,
                raster.height as u16,
                format,
            ).serialized() + zeros(1)
            &&& is_plane_of(raster, format, file@.skip(64))
        }
    }

    /// Reads a file: the header, then where its two images start.
    pub fn read(bytes: &'a [u8]) -> (r: Result<VTF<'a>, Error>)
        ensures
            Self::is_read(bytes, r),
    {
        let header = VTFHeader::read(bytes)?;
        proof {
            lemma_parsed_size(bytes@);
        }
        let lowres_offset: u64 = match header.resources.get_by_type(
            ResourceType::vtf_legacy_rsrc_low_res_image(),
        ) {
            Some(resource) => resource.data as u64,
            None => header.size() as u64,
        };
        let highres_offset: u64 = match header.resources.get_by_type(
            ResourceType::vtf_legacy_rsrc_image(),
        ) {
            Some(resource) => resource.data as u64,
            None => {
                let lowres_size: u128 = header.lowres_image_format.frame_bytes(
                    header.lowres_image_width as u32,
                    header.lowres_image_height as u32,
                )?;
                proof {
                    lemma_lowres_bytes(
                        header.lowres_image_format,
                        header.lowres_image_width,
                        header.lowres_image_height,
                    );
                }
                lowres_offset + lowres_size as u64
            },
        };
        let lowres_image = VTFImage::new(
            header.clone(),
            header.lowres_image_format,
            header.lowres_image_width as u16,
            header.lowres_image_height as u16,
            bytes,
            lowres_offset,
        );
        let highres_image = VTFImage::new(
            header.clone(),
            header.highres_image_format,
            header.width,
            header.height,
            bytes,
            highres_offset,
        );
        Ok(VTF { header, lowres_image, highres_image })
    }

    /// Builds a file from a raster: a header of version 7.1 for one frame
    /// and one mip, filled up to its size, then the raster as one plane of
    /// `image_format`.
    pub fn create(image: RasterImage, image_format: ImageFormat) -> (r: Result<Vec<u8>, Error>)
        requires
            image@.wf(),
        ensures
            Self::is_created(image@, image_format, r),
    {
        if !is_power_of_two(image.width) || !is_power_of_two(image.height) || image.width > 0xFFFF
            || image.height > 0xFFFF {
            return Err(Error::InvalidImageSize);
        }
        let header = VTFHeader {
            signature: VTFHeader::SIGNATURE,
            version: [7, 1],
            header_size: 64,
            width: image.width as u16,
            height: image.height as u16,
            flags: 8972,
            frames: 1,
            first_frame: 0,
            reflectivity: [0, 0, 0],
            bumpmap_scale: 0x3F80_0000,
            highres_image_format: image_format,
            mipmap_count: 1,
            lowres_image_format: ImageFormat::Dxt1,
            lowres_image_width: 0,
            lowres_image_height: 0,
            depth: 1,
            resources: ResourceList::empty(),
        };
        assert(header@ == created_header(image.width as u16, image.height as u16, image_format));
        let mut data: Vec<u8> = Vec::new();
        header.write(&mut data)?;
        let header_size: usize = header.size();
        proof {
            lemma_created_header(image.width as u16, image.height as u16, image_format);
        }
        let written: usize = data.len();
        put_zeros(&mut data, header_size - written);
        let ghost front = data@;
        proof {
            lemma_storable_size(image.width, image.height, image_format);
        }
        let plane: Vec<u8> = encode(&image, image_format)?;
        put_bytes(&mut data, plane.as_slice());
        assert(data@.subrange(0, 64) =~= front);
        assert(data@.skip(64) =~= plane@);
        Ok(data)
    }
}

/// The image data of a file that was read starts at the size of its header,
/// where the resource dictionary gives no offset for the low resolution
/// image; and where it gives none for the high resolution image either,
/// that image follows the low resolution one.
pub proof fn lemma_data_starts_at_size<'a>(bytes: &'a [u8], vtf: VTF<'a>)
    requires
        VTF::is_read(bytes, Ok(vtf)),
    ensures
        find_by_type(vtf.header@.resources, ResourceType::low_res_image()) is None
            ==> vtf.lowres_image.offset == vtf.header@.size(),
        find_by_type(vtf.header@.resources, ResourceType::image()) is None
            ==> vtf.highres_image.offset == vtf.lowres_image.offset
            + vtf.header.lowres_image_format.spec_frame_bytes(
            vtf.header.lowres_image_width as nat,
            vtf.header.lowres_image_height as nat,
        ),
{
}

/// The low resolution image, whose sides are below 256, has at most 65536
/// bytes.
pub proof fn lemma_lowres_bytes(format: ImageFormat, width: u8, height: u8)
    ensures
        format.spec_frame_bytes(width as nat, height as nat) <= 0x1_0000_0000,
{
    crate::utils::lemma_frame_bytes_monotone(format, width as nat, height as nat, 255, 255);
    assert(255nat * 255nat == 65025nat) by (nonlinear_arith);
    assert(64nat * 64nat == 4096nat) by (nonlinear_arith);
}

/// The header of a built file takes 63 bytes and has the size 64.
pub proof fn lemma_created_header(width: u16, height: u16, format: ImageFormat)
    ensures
        created_header(width, height, format).serialized().len() == 63,
        created_header(width, height, format).size() == 64,
        created_header(width, height, format).wf(),
{
    let h = created_header(width, height, format);
    crate::endian::lemma_u32_le_roundtrip(0, Seq::empty());
    crate::endian::lemma_u16_le_roundtrip(0, Seq::empty());
    assert(h.version_fields().len() == 16) by {
        crate::endian::lemma_u32_le_roundtrip(h.signature, Seq::empty());
        crate::endian::lemma_u32_le_roundtrip(h.version.0, Seq::empty());
        crate::endian::lemma_u32_le_roundtrip(h.version.1, Seq::empty());
        crate::endian::lemma_u32_le_roundtrip((h.size() % 0x1_0000_0000) as u32, Seq::empty());
    }
    assert(h.geometry_fields().len() == 12) by {
        crate::endian::lemma_u16_le_roundtrip(h.width, Seq::empty());
        crate::endian::lemma_u16_le_roundtrip(h.height, Seq::empty());
        crate::endian::lemma_u32_le_roundtrip(h.flags, Seq::empty());
        crate::endian::lemma_u16_le_roundtrip(h.frames, Seq::empty());
        crate::endian::lemma_u16_le_roundtrip(h.first_frame, Seq::empty());
    }
    assert(h.surface_fields().len() == 24) by {
        crate::endian::lemma_u32_le_roundtrip(h.reflectivity.0, Seq::empty());
        crate::endian::lemma_u32_le_roundtrip(h.bumpmap_scale, Seq::empty());
    }
    assert(h.format_fields().len() == 11) by {
        crate::endian::lemma_u32_le_roundtrip(
            crate::header::format_field(h.highres_image_format),
            Seq::empty(),
        );
        crate::endian::lemma_u32_le_roundtrip(
            crate::header::format_field(h.lowres_image_format),
            Seq::empty(),
        );
    }
}

/// A power of two below 65536 is at most 32768, and the blocks of a
/// raster with such sides take at most 2^30 bytes.
pub proof fn lemma_storable_size(width: u32, height: u32, format: ImageFormat)
    requires
        storable_size(width, height),
    ensures
        0 < width <= 0x8000,
        0 < height <= 0x8000,
        format.spec_block_bytes() is Some ==> format.spec_frame_bytes(width as nat, height as nat)
            <= 0x4000_0000,
{
    lemma_pow2_below(width as int);
    lemma_pow2_below(height as int);
    let across: nat = (width as nat + 3) / 4;
    let down: nat = (height as nat + 3) / 4;
    assert(across * down <= 0x2000 * 0x2000) by (nonlinear_arith)
        requires
            across <= 0x2000,
            down <= 0x2000,
    ;
    if let Some(block) = format.spec_block_bytes() {
        assert(across * down * block <= 0x2000 * 0x2000 * 16) by (nonlinear_arith)
            requires
                across * down <= 0x2000 * 0x2000,
                block <= 16,
        ;
    }
}

/// A power of two below 65536 is positive and at most 32768.
pub proof fn lemma_pow2_below(x: int)
    requires
        is_pow2(x),
        x < 0x1_0000,
    ensures
        0 < x <= 0x8000,
{
    reveal_with_fuel(is_pow2, 20);
}

/// A raster that is built into a file comes back when the file is read
/// and the first frame of its high resolution image is decoded: with its
/// width and height in every case, and pixel for pixel where the format is
/// a raw one. For a block format the sides have to be multiples of 4, as
/// the block decoder refuses any other.
pub proof fn lemma_create_read_decode<'a>(
    raster: RasterView,
    format: ImageFormat,
    built: Vec<u8>,
    file: &'a [u8],
    vtf: VTF<'a>,
    decoded: Result<RasterImage, Error>,
)
    requires
        raster.wf(),
        VTF::is_created(raster, format, Ok(built)),
        file@ == built@,
        VTF::is_read(file, Ok(vtf)),
        vtf.highres_image.is_decoding(0, decoded),
        format.spec_encode_rule() matches Some(PlaneCodec::Block(_)) ==> raster.width % 4 == 0
            && raster.height % 4 == 0,
    ensures
        decoded matches Ok(image) && image.width == raster.width && image.height == raster.height,
        format == ImageFormat::Rgba8888 ==> (decoded matches Ok(image) && image@ == (RasterView {
            layout: PixelLayout::Rgba8,
            data: raster.rgba8(),
            ..raster
        })),
        format == ImageFormat::Rgb888 ==> (decoded matches Ok(image) && image@ == (RasterView {
            layout: PixelLayout::Rgb8,
            data: raster.rgb8(),
            ..raster
        })),
        (format == ImageFormat::Rgba8888 && raster.layout == PixelLayout::Rgba8) || (format
            == ImageFormat::Rgb888 && raster.layout == PixelLayout::Rgb8) ==> (
        decoded matches Ok(image) && image@ == raster),
{
    crate::raster::lemma_same_layout(raster);
    let header = created_header(raster.width as u16, raster.height as u16, format);
    let plane = file@.skip(64);
    let image = vtf.highres_image;
    lemma_created_header(raster.width as u16, raster.height as u16, format);
    lemma_storable_size(raster.width, raster.height, format);
    format.lemma_codec_size(raster.width as nat, raster.height as nat);
    assert(file@ =~= header.serialized() + (zeros(1) + plane)) by {
        assert(file@.subrange(0, 64) =~= header.serialized() + zeros(1));
        assert(file@ =~= file@.subrange(0, 64) + plane);
    }
    crate::header::lemma_roundtrip(header, zeros(1) + plane);
    assert(parse_header(file@) == Ok::<HeaderView, Error>(header));
    assert(find_by_type(header.resources, ResourceType::image()) is None);
    assert(find_by_type(header.resources, ResourceType::low_res_image()) is None);
    assert(ImageFormat::Dxt1.spec_frame_bytes(0, 0) == 0) by (nonlinear_arith)
        requires
            ImageFormat::Dxt1.spec_frame_bytes(0, 0) == ((0nat + 3) / 4) * ((0nat + 3) / 4) * 8,
    ;
    assert(highres_start(header) == Ok::<nat, Error>(64));
    assert(image.offset == 64);
    assert(image.header@ == header);
    assert(crate::utils::spec_mips_size(header, format, 1, 1) == 0);
    let volume = crate::utils::spec_mip_size(header, format, 0, 1);
    assert(crate::utils::spec_offset(header, format, 0, 0, 0, 0) == 0) by (nonlinear_arith)
        requires
            crate::utils::spec_offset(header, format, 0, 0, 0, 0) == 0 * 1nat + volume * (0nat
                + 0nat) + volume * 0nat,
    ;
    assert(image.spec_frame_start(0) == 64);
    assert(raster.rgba8().len() == 4 * (raster.width * raster.height));
    assert(raster.rgb8().len() == 3 * (raster.width * raster.height));
    assert(plane.len() == image.spec_frame_len()) by (nonlinear_arith)
        requires
            format.spec_encode_rule() is Some,
            format.spec_encode_rule() matches Some(PlaneCodec::Block(_)) ==> plane.len()
                == format.spec_frame_bytes(raster.width as nat, raster.height as nat),
            format.spec_encode_rule() matches Some(PlaneCodec::Raw(layout)) ==> plane.len()
                == layout.spec_channels() * (raster.width * raster.height),
            format.spec_encode_rule() matches Some(PlaneCodec::Raw(layout))
                ==> format.spec_frame_bytes(raster.width as nat, raster.height as nat)
                == raster.width * raster.height * layout.spec_channels(),
            image.spec_frame_len() == format.spec_frame_bytes(
                raster.width as nat,
                raster.height as nat,
            ),
    ;
    assert(image.spec_frame(0) == Ok::<Seq<u8>, Error>(plane)) by {
        assert(file@.subrange(64, 64 + plane.len() as int) =~= plane);
    }
}

} // verus!
