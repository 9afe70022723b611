use image::ImageDecoder;
use vtf::header::VTFHeader;
use vtf::image::{encode, InvalidFormatCode, PlaneCodec, VTFImage};
use vtf::raster::{PixelLayout, RasterImage};
use vtf::codec::BlockVariant;
use vtf::resources::ResourceList;
use vtf::{Error, ImageFormat};

const ALL_FORMATS: [(ImageFormat, i16); 28] = [
    (ImageFormat::NoFormat, -1),
    (ImageFormat::Rgba8888, 0),
    (ImageFormat::Abgr8888, 1),
    (ImageFormat::Rgb888, 2),
    (ImageFormat::Bgr888, 3),
    (ImageFormat::Rgb565, 4),
    (ImageFormat::I8, 5),
    (ImageFormat::Ia88, 6),
    (ImageFormat::P8, 7),
    (ImageFormat::A8, 8),
    (ImageFormat::Rgb888Bluescreen, 9),
    (ImageFormat::Bgr888Bluescreen, 10),
    (ImageFormat::Argb8888, 11),
    (ImageFormat::Bgra8888, 12),
    (ImageFormat::Dxt1, 13),
    (ImageFormat::Dxt3, 14),
    (ImageFormat::Dxt5, 15),
    (ImageFormat::Bgrx8888, 16),
    (ImageFormat::Bgr565, 17),
    (ImageFormat::Bgrx5551, 18),
    (ImageFormat::Bgra4444, 19),
    (ImageFormat::Dxt1Onebitalpha, 20),
    (ImageFormat::Bgra5551, 21),
    (ImageFormat::Uv88, 22),
    (ImageFormat::Uvwq8888, 23),
    (ImageFormat::Rgba16161616f, 24),
    (ImageFormat::Rgba16161616, 25),
    (ImageFormat::Uvlx8888, 26),
];

fn plain_header(width: u16, height: u16, frames: u16, format: ImageFormat) -> VTFHeader {
    VTFHeader {
        signature: VTFHeader::SIGNATURE,
        version: [7, 1],
        header_size: 64,
        width,
        height,
        flags: 0,
        frames,
        first_frame: 0,
        reflectivity: [0, 0, 0],
        bumpmap_scale: 0,
        highres_image_format: format,
        mipmap_count: 1,
        lowres_image_format: ImageFormat::Dxt1,
        lowres_image_width: 0,
        lowres_image_height: 0,
        depth: 1,
        resources: ResourceList::empty(),
    }
}

fn view<'a>(bytes: &'a [u8], format: ImageFormat, width: u16, height: u16, offset: u64) -> VTFImage<'a> {
    VTFImage::new(plain_header(width, height, 1, format), format, width, height, bytes, offset)
}

#[test]
fn codes_and_formats_correspond_one_to_one() {
    for (format, code) in ALL_FORMATS.iter() {
        assert_eq!(format.code(), *code);
        assert_eq!(ImageFormat::try_from_primitive(*code), Ok(*format));
    }
}

#[test]
fn an_unknown_code_comes_back_in_the_error() {
    for code in [-2i16, 27, 100, i16::MIN, i16::MAX].iter() {
        assert_eq!(
            ImageFormat::try_from_primitive(*code),
            Err(InvalidFormatCode { number: *code })
        );
        assert!(matches!(
            Error::from(InvalidFormatCode { number: *code }),
            Error::InvalidImageFormat(n) if n == *code
        ));
    }
}

#[test]
fn raw_formats_take_width_times_height_times_bytes_per_pixel() {
    let rules: [(ImageFormat, u32); 13] = [
        (ImageFormat::NoFormat, 0),
        (ImageFormat::I8, 1),
        (ImageFormat::A8, 1),
        (ImageFormat::Rgb565, 2),
        (ImageFormat::Ia88, 2),
        (ImageFormat::Rgb888, 3),
        (ImageFormat::Bgr888, 3),
        (ImageFormat::Rgba8888, 4),
        (ImageFormat::Abgr8888, 4),
        (ImageFormat::Argb8888, 4),
        (ImageFormat::Bgra8888, 4),
        (ImageFormat::Rgba16161616f, 8),
        (ImageFormat::Rgba16161616, 8),
    ];
    for (format, bytes) in rules.iter() {
        assert_eq!(format.frame_size(7, 5).unwrap(), 35 * bytes);
        assert_eq!(format.frame_size(256, 256).unwrap(), 65536 * bytes);
        assert_eq!(format.frame_size(0, 9).unwrap(), 0);
        assert_eq!(format.frame_bytes(7, 5).unwrap(), 35 * *bytes as u128);
        assert_eq!(format.pixel_bytes(), Some(*bytes as u8));
        assert_eq!(format.block_bytes(), None);
    }
}

#[test]
fn block_formats_take_whole_blocks() {
    let rules: [(ImageFormat, u32); 4] = [
        (ImageFormat::Dxt1, 8),
        (ImageFormat::Dxt1Onebitalpha, 8),
        (ImageFormat::Dxt3, 16),
        (ImageFormat::Dxt5, 16),
    ];
    for (format, block) in rules.iter() {
        assert_eq!(format.frame_size(256, 256).unwrap(), 64 * 64 * block);
        assert_eq!(format.frame_size(4, 4).unwrap(), *block);
        assert_eq!(format.frame_size(1, 1).unwrap(), *block);
        assert_eq!(format.frame_size(5, 4).unwrap(), 2 * block);
        assert_eq!(format.frame_size(5, 9).unwrap(), 2 * 3 * block);
        assert_eq!(format.frame_size(0, 0).unwrap(), 0);
        assert_eq!(format.frame_size(0, 8).unwrap(), 0);
        assert_eq!(format.block_bytes(), Some(*block as u8));
        assert_eq!(format.pixel_bytes(), None);
    }
}

#[test]
fn the_other_formats_have_no_size_rule() {
    let without = [
        ImageFormat::P8,
        ImageFormat::Rgb888Bluescreen,
        ImageFormat::Bgr888Bluescreen,
        ImageFormat::Bgrx8888,
        ImageFormat::Bgr565,
        ImageFormat::Bgrx5551,
        ImageFormat::Bgra4444,
        ImageFormat::Bgra5551,
        ImageFormat::Uv88,
        ImageFormat::Uvwq8888,
        ImageFormat::Uvlx8888,
    ];
    for format in without.iter() {
        assert!(matches!(
            format.frame_size(4, 4),
            Err(Error::UnsupportedImageFormat(f)) if f == *format
        ));
        assert!(matches!(
            format.frame_bytes(4, 4),
            Err(Error::UnsupportedImageFormat(f)) if f == *format
        ));
        assert_eq!(format.decode_rule(), None);
        assert_eq!(format.encode_rule(), None);
    }
}

#[test]
fn frame_bytes_does_not_overflow() {
    assert_eq!(
        ImageFormat::Rgba16161616.frame_bytes(u32::MAX, u32::MAX).unwrap(),
        u32::MAX as u128 * u32::MAX as u128 * 8
    );
    assert_eq!(
        ImageFormat::Dxt5.frame_bytes(u32::MAX, u32::MAX).unwrap(),
        0x4000_0000u128 * 0x4000_0000 * 16
    );
    assert_eq!(ImageFormat::Rgba8888.frame_size(32768, 32767).unwrap(), 4_294_836_224);
}

#[test]
fn decode_and_encode_rules() {
    assert_eq!(ImageFormat::Dxt1.decode_rule(), Some(PlaneCodec::Block(BlockVariant::Dxt1)));
    assert_eq!(ImageFormat::Dxt1Onebitalpha.decode_rule(), Some(PlaneCodec::Block(BlockVariant::Dxt1)));
    assert_eq!(ImageFormat::Dxt3.decode_rule(), Some(PlaneCodec::Block(BlockVariant::Dxt3)));
    assert_eq!(ImageFormat::Dxt5.decode_rule(), Some(PlaneCodec::Block(BlockVariant::Dxt5)));
    assert_eq!(ImageFormat::Rgba8888.decode_rule(), Some(PlaneCodec::Raw(PixelLayout::Rgba8)));
    assert_eq!(ImageFormat::Rgb888.decode_rule(), Some(PlaneCodec::Raw(PixelLayout::Rgb8)));
    assert_eq!(ImageFormat::Bgr888.decode_rule(), Some(PlaneCodec::Raw(PixelLayout::Bgr8)));
    assert_eq!(ImageFormat::Bgra8888.decode_rule(), Some(PlaneCodec::Raw(PixelLayout::Bgra8)));
    assert_eq!(ImageFormat::I8.decode_rule(), None);
    assert_eq!(ImageFormat::NoFormat.decode_rule(), None);

    assert_eq!(ImageFormat::Dxt5.encode_rule(), Some(PlaneCodec::Block(BlockVariant::Dxt5)));
    assert_eq!(ImageFormat::Dxt1Onebitalpha.encode_rule(), Some(PlaneCodec::Block(BlockVariant::Dxt1)));
    assert_eq!(ImageFormat::Rgba8888.encode_rule(), Some(PlaneCodec::Raw(PixelLayout::Rgba8)));
    assert_eq!(ImageFormat::Rgb888.encode_rule(), Some(PlaneCodec::Raw(PixelLayout::Rgb8)));
    assert_eq!(ImageFormat::Dxt1.encode_rule(), None);
    assert_eq!(ImageFormat::Dxt3.encode_rule(), None);
    assert_eq!(ImageFormat::Bgr888.encode_rule(), None);
}

#[test]
fn layouts_have_three_or_four_channels() {
    assert_eq!(PixelLayout::Rgb8.channels(), 3);
    assert_eq!(PixelLayout::Bgr8.channels(), 3);
    assert_eq!(PixelLayout::Rgba8.channels(), 4);
    assert_eq!(PixelLayout::Bgra8.channels(), 4);
    assert_eq!(PixelLayout::decoded_from(BlockVariant::Dxt1), PixelLayout::Rgb8);
    assert_eq!(PixelLayout::decoded_from(BlockVariant::Dxt3), PixelLayout::Rgba8);
    assert_eq!(PixelLayout::decoded_from(BlockVariant::Dxt5), PixelLayout::Rgba8);
}

#[test]
fn a_raster_needs_data_of_the_right_length() {
    assert!(RasterImage::from_raw(PixelLayout::Rgb8, 2, 3, vec![0; 18]).is_some());
    assert!(RasterImage::from_raw(PixelLayout::Rgb8, 2, 3, vec![0; 17]).is_none());
    assert!(RasterImage::from_raw(PixelLayout::Rgb8, 2, 3, vec![0; 19]).is_none());
    assert!(RasterImage::from_raw(PixelLayout::Rgba8, 2, 3, vec![0; 24]).is_some());
    assert!(RasterImage::from_raw(PixelLayout::Rgba8, 2, 3, vec![0; 18]).is_none());
    assert!(RasterImage::from_raw(PixelLayout::Bgra8, 0, 3, Vec::new()).is_some());
    assert!(RasterImage::from_raw(PixelLayout::Rgba8, u32::MAX, u32::MAX, vec![0; 4]).is_none());
    let raster = RasterImage::from_raw(PixelLayout::Bgr8, 1, 2, vec![1, 2, 3, 4, 5, 6]).unwrap();
    assert_eq!(raster.layout, PixelLayout::Bgr8);
    assert_eq!((raster.width, raster.height), (1, 2));
    assert_eq!(raster.data, vec![1, 2, 3, 4, 5, 6]);
}

#[test]
fn rasters_convert_to_rgba() {
    let rgb = RasterImage::from_raw(PixelLayout::Rgb8, 2, 1, vec![1, 2, 3, 4, 5, 6]).unwrap();
    assert_eq!(rgb.to_rgba8(), vec![1, 2, 3, 255, 4, 5, 6, 255]);
    let rgba = RasterImage::from_raw(PixelLayout::Rgba8, 2, 1, vec![1, 2, 3, 9, 4, 5, 6, 8]).unwrap();
    assert_eq!(rgba.to_rgba8(), vec![1, 2, 3, 9, 4, 5, 6, 8]);
    let bgr = RasterImage::from_raw(PixelLayout::Bgr8, 2, 1, vec![1, 2, 3, 4, 5, 6]).unwrap();
    assert_eq!(bgr.to_rgba8(), vec![3, 2, 1, 255, 6, 5, 4, 255]);
    let bgra = RasterImage::from_raw(PixelLayout::Bgra8, 2, 1, vec![1, 2, 3, 9, 4, 5, 6, 8]).unwrap();
    assert_eq!(bgra.to_rgba8(), vec![3, 2, 1, 9, 6, 5, 4, 8]);
    let empty = RasterImage::from_raw(PixelLayout::Bgra8, 0, 7, Vec::new()).unwrap();
    assert!(empty.to_rgba8().is_empty());
}

#[test]
fn rasters_convert_to_rgb() {
    let rgb = RasterImage::from_raw(PixelLayout::Rgb8, 2, 1, vec![1, 2, 3, 4, 5, 6]).unwrap();
    assert_eq!(rgb.to_rgb8(), vec![1, 2, 3, 4, 5, 6]);
    let rgba = RasterImage::from_raw(PixelLayout::Rgba8, 2, 1, vec![1, 2, 3, 9, 4, 5, 6, 8]).unwrap();
    assert_eq!(rgba.to_rgb8(), vec![1, 2, 3, 4, 5, 6]);
    let bgr = RasterImage::from_raw(PixelLayout::Bgr8, 2, 1, vec![1, 2, 3, 4, 5, 6]).unwrap();
    assert_eq!(bgr.to_rgb8(), vec![3, 2, 1, 6, 5, 4]);
    let bgra = RasterImage::from_raw(PixelLayout::Bgra8, 2, 1, vec![1, 2, 3, 9, 4, 5, 6, 8]).unwrap();
    assert_eq!(bgra.to_rgb8(), vec![3, 2, 1, 6, 5, 4]);
}

#[test]
fn rasters_convert_as_the_image_crate_does() {
    let data: Vec<u8> = (0..48u8).map(|i| i.wrapping_mul(37).wrapping_add(11)).collect();
    let rgb = image::DynamicImage::ImageRgb8(image::RgbImage::from_raw(4, 4, data.clone()).unwrap());
    let ours = RasterImage::from_raw(PixelLayout::Rgb8, 4, 4, data.clone()).unwrap();
    assert_eq!(ours.to_rgba8(), rgb.to_rgba8().into_raw());
    assert_eq!(ours.to_rgb8(), rgb.to_rgb8().into_raw());

    let bgr = image::DynamicImage::ImageBgr8(image::ImageBuffer::from_raw(4, 4, data.clone()).unwrap());
    let ours = RasterImage::from_raw(PixelLayout::Bgr8, 4, 4, data.clone()).unwrap();
    assert_eq!(ours.to_rgba8(), bgr.to_rgba8().into_raw());
    assert_eq!(ours.to_rgb8(), bgr.to_rgb8().into_raw());

    let rgba = image::DynamicImage::ImageRgba8(image::RgbaImage::from_raw(4, 3, data.clone()).unwrap());
    let ours = RasterImage::from_raw(PixelLayout::Rgba8, 4, 3, data.clone()).unwrap();
    assert_eq!(ours.to_rgba8(), rgba.to_rgba8().into_raw());
    assert_eq!(ours.to_rgb8(), rgba.to_rgb8().into_raw());

    let bgra = image::DynamicImage::ImageBgra8(image::ImageBuffer::from_raw(4, 3, data.clone()).unwrap());
    let ours = RasterImage::from_raw(PixelLayout::Bgra8, 4, 3, data).unwrap();
    assert_eq!(ours.to_rgba8(), bgra.to_rgba8().into_raw());
    assert_eq!(ours.to_rgb8(), bgra.to_rgb8().into_raw());
}

#[test]
fn get_frame_is_the_byte_range_of_the_plane() {
    let bytes: Vec<u8> = (0..100u8).collect();
    // two frames of 2x2 RGB pixels, starting at offset 10
    let image = VTFImage::new(
        plain_header(2, 2, 2, ImageFormat::Rgb888),
        ImageFormat::Rgb888,
        2,
        2,
        &bytes,
        10,
    );
    assert_eq!(image.get_frame(0).unwrap(), &bytes[10..22]);
    assert_eq!(image.get_frame(1).unwrap(), &bytes[22..34]);
    assert_eq!(image.get_frame(6).unwrap(), &bytes[82..94]);
    assert!(matches!(image.get_frame(7), Err(Error::InvalidImageData)));
    assert!(matches!(image.get_frame(u32::MAX), Err(Error::InvalidImageData)));
}

#[test]
fn get_frame_checks_the_range_against_the_buffer() {
    let bytes = vec![0u8; 64];
    assert!(view(&bytes, ImageFormat::Rgba8888, 4, 4, 0).get_frame(0).is_ok());
    assert!(matches!(
        view(&bytes, ImageFormat::Rgba8888, 4, 4, 1).get_frame(0),
        Err(Error::InvalidImageData)
    ));
    assert!(matches!(
        view(&bytes[..63], ImageFormat::Rgba8888, 4, 4, 0).get_frame(0),
        Err(Error::InvalidImageData)
    ));
    assert!(matches!(
        view(&bytes, ImageFormat::Rgba8888, 4, 4, u64::MAX).get_frame(0),
        Err(Error::InvalidImageData)
    ));
    assert!(matches!(
        view(&bytes, ImageFormat::Rgba8888, 65535, 65535, 0).get_frame(0),
        Err(Error::InvalidImageData)
    ));
    assert_eq!(view(&bytes, ImageFormat::Rgba8888, 0, 4, 64).get_frame(0).unwrap().len(), 0);
    assert!(matches!(
        view(&bytes, ImageFormat::Rgba8888, 0, 4, 65).get_frame(0),
        Err(Error::InvalidImageData)
    ));
    assert!(matches!(
        view(&bytes, ImageFormat::Uv88, 4, 4, 0).get_frame(0),
        Err(Error::UnsupportedImageFormat(ImageFormat::Uv88))
    ));
    assert!(matches!(
        view(&bytes, ImageFormat::Uv88, 4, 4, 1000).get_frame(0),
        Err(Error::UnsupportedImageFormat(ImageFormat::Uv88))
    ));
}

#[test]
fn get_frame_uses_the_geometry_of_the_header() {
    // header: 4x4 with three mips (4x4, 2x2, 1x1), two frames; plane view: 4x4 bytes of I8
    let mut header = plain_header(4, 4, 2, ImageFormat::I8);
    header.mipmap_count = 3;
    let bytes: Vec<u8> = (0..60u8).collect();
    let image = VTFImage::new(header, ImageFormat::I8, 4, 4, &bytes, 3);
    // smaller mips of both frames come first: (1 + 4) * 2 = 10 bytes
    assert_eq!(image.get_frame(0).unwrap(), &bytes[13..29]);
    assert_eq!(image.get_frame(1).unwrap(), &bytes[29..45]);
    assert!(matches!(image.get_frame(3), Err(Error::InvalidImageData)));
}

#[test]
fn raw_planes_decode_to_their_bytes() {
    let bytes: Vec<u8> = (0..64u8).collect();
    let cases = [
        (ImageFormat::Rgba8888, PixelLayout::Rgba8, 16usize),
        (ImageFormat::Bgra8888, PixelLayout::Bgra8, 16),
        (ImageFormat::Rgb888, PixelLayout::Rgb8, 12),
        (ImageFormat::Bgr888, PixelLayout::Bgr8, 12),
    ];
    for (format, layout, len) in cases.iter() {
        let raster = view(&bytes, *format, 2, 2, 5).decode(0).unwrap();
        assert_eq!(raster.layout, *layout);
        assert_eq!((raster.width, raster.height), (2, 2));
        assert_eq!(raster.data, bytes[5..5 + len].to_vec());
    }
}

#[test]
fn formats_without_decode_rule_are_unsupported() {
    let bytes = vec![0u8; 256];
    for format in [ImageFormat::I8, ImageFormat::Abgr8888, ImageFormat::Rgb565, ImageFormat::Rgba16161616, ImageFormat::NoFormat].iter() {
        assert!(matches!(
            view(&bytes, *format, 2, 2, 0).decode(0),
            Err(Error::UnsupportedImageFormat(f)) if f == *format
        ));
    }
    assert!(matches!(
        view(&bytes, ImageFormat::Uvlx8888, 2, 2, 0).decode(0),
        Err(Error::UnsupportedImageFormat(ImageFormat::Uvlx8888))
    ));
    // the range is checked first
    assert!(matches!(
        view(&bytes, ImageFormat::I8, 2, 2, 253).decode(0),
        Err(Error::InvalidImageData)
    ));
}

/// One block whose colours are red (0xF800) and blue (0x001F); the first
/// row alternates between them, the other rows are red.
const COLOUR_BLOCK: [u8; 8] = [0x00, 0xF8, 0x1F, 0x00, 0x44, 0x00, 0x00, 0x00];

#[test]
fn dxt1_planes_decode_to_rgb() {
    for format in [ImageFormat::Dxt1, ImageFormat::Dxt1Onebitalpha].iter() {
        let raster = view(&COLOUR_BLOCK, *format, 4, 4, 0).decode(0).unwrap();
        assert_eq!(raster.layout, PixelLayout::Rgb8);
        assert_eq!((raster.width, raster.height), (4, 4));
        assert_eq!(raster.data.len(), 48);
        assert_eq!(&raster.data[0..12], &[255, 0, 0, 0, 0, 255, 255, 0, 0, 0, 0, 255]);
        for pixel in raster.data[12..].chunks(3) {
            assert_eq!(pixel, &[255, 0, 0]);
        }
    }
}

#[test]
fn dxt3_planes_decode_to_rgba() {
    let mut block = vec![0x21, 0x43, 0x65, 0x87, 0xA9, 0xCB, 0xED, 0x0F];
    block.extend_from_slice(&COLOUR_BLOCK);
    let raster = view(&block, ImageFormat::Dxt3, 4, 4, 0).decode(0).unwrap();
    assert_eq!(raster.layout, PixelLayout::Rgba8);
    assert_eq!((raster.width, raster.height), (4, 4));
    assert_eq!(raster.data.len(), 64);
    assert_eq!(&raster.data[0..8], &[255, 0, 0, 0x11, 0, 0, 255, 0x22]);
    assert_eq!(&raster.data[8..16], &[255, 0, 0, 0x33, 0, 0, 255, 0x44]);
    assert_eq!(raster.data[60..64], [255, 0, 0, 0x00]);
    assert_eq!(raster.data[56..60], [255, 0, 0, 0xFF]);
}

#[test]
fn dxt5_planes_decode_to_rgba() {
    let mut block = vec![128, 128, 0, 0, 0, 0, 0, 0];
    block.extend_from_slice(&COLOUR_BLOCK);
    let raster = view(&block, ImageFormat::Dxt5, 4, 4, 0).decode(0).unwrap();
    assert_eq!(raster.layout, PixelLayout::Rgba8);
    assert_eq!((raster.width, raster.height), (4, 4));
    assert_eq!(&raster.data[0..8], &[255, 0, 0, 128, 0, 0, 255, 128]);
    for pixel in raster.data[16..].chunks(4) {
        assert_eq!(pixel, &[255, 0, 0, 128]);
    }
}

#[test]
fn blocks_are_laid_out_row_by_row() {
    // 8x4 pixels: a red-and-blue block, then a white block
    let mut plane = COLOUR_BLOCK.to_vec();
    plane.extend_from_slice(&[0xFF, 0xFF, 0xFF, 0xFF, 0, 0, 0, 0]);
    let raster = view(&plane, ImageFormat::Dxt1, 8, 4, 0).decode(0).unwrap();
    assert_eq!((raster.width, raster.height), (8, 4));
    assert_eq!(raster.data.len(), 8 * 4 * 3);
    assert_eq!(&raster.data[0..12], &[255, 0, 0, 0, 0, 255, 255, 0, 0, 0, 0, 255]);
    assert_eq!(&raster.data[12..24], &[255u8; 12]);
    assert_eq!(&raster.data[24..36], &[255, 0, 0, 255, 0, 0, 255, 0, 0, 255, 0, 0]);
}

#[test]
fn the_block_decoder_refuses_sides_that_are_no_multiple_of_four() {
    let plane = vec![0u8; 64];
    for &(width, height) in &[(1u16, 1u16), (2, 2), (4, 2), (2, 4), (5, 4), (4, 6), (7, 7)] {
        for format in [ImageFormat::Dxt1, ImageFormat::Dxt3, ImageFormat::Dxt5, ImageFormat::Dxt1Onebitalpha].iter() {
            assert!(
                matches!(view(&plane, *format, width, height, 0).decode(0), Err(Error::Image(_))),
                "{:?} {}x{}",
                format,
                width,
                height
            );
        }
    }
}

#[test]
fn a_plane_of_blocks_without_pixels_is_the_empty_raster() {
    let plane: Vec<u8> = Vec::new();
    for &(width, height) in &[(0u16, 0u16), (0, 4), (4, 0), (0, 3), (3, 0)] {
        let raster = view(&plane, ImageFormat::Dxt5, width, height, 0).decode(0).unwrap();
        assert_eq!(raster.layout, PixelLayout::Rgba8);
        assert_eq!((raster.width, raster.height), (width as u32, height as u32));
        assert!(raster.data.is_empty());
        let raster = view(&plane, ImageFormat::Dxt1, width, height, 0).decode(0).unwrap();
        assert_eq!(raster.layout, PixelLayout::Rgb8);
        assert!(raster.data.is_empty());
    }
}

#[test]
fn decoding_agrees_with_the_image_crate() {
    let plane: Vec<u8> = (0..128u32).map(|i| (i * 73 + 5) as u8).collect();
    let cases = [
        (ImageFormat::Dxt1, image::codecs::dxt::DXTVariant::DXT1, 8u16, 8u16, 32usize),
        (ImageFormat::Dxt3, image::codecs::dxt::DXTVariant::DXT3, 8, 8, 64),
        (ImageFormat::Dxt5, image::codecs::dxt::DXTVariant::DXT5, 16, 8, 128),
    ];
    for (format, variant, width, height, len) in cases.iter() {
        let ours = view(&plane[..*len], *format, *width, *height, 0).decode(0).unwrap();
        let decoder =
            image::codecs::dxt::DxtDecoder::new(&plane[..*len], *width as u32, *height as u32, *variant).unwrap();
        let mut theirs = vec![0u8; decoder.total_bytes() as usize];
        decoder.read_image(&mut theirs).unwrap();
        assert_eq!(ours.data, theirs);
    }
}

#[test]
fn a_buffer_of_the_wrong_length_is_invalid_image_data() {
    let bytes = vec![0u8; 4];
    let image = view(&bytes, ImageFormat::Rgba8888, 2, 2, 0);
    assert!(image.image_from_buffer(vec![0; 16], PixelLayout::Rgba8).is_ok());
    assert!(matches!(
        image.image_from_buffer(vec![0; 15], PixelLayout::Rgba8),
        Err(Error::InvalidImageData)
    ));
    assert!(matches!(
        image.image_from_buffer(vec![0; 17], PixelLayout::Rgba8),
        Err(Error::InvalidImageData)
    ));
    assert!(matches!(
        image.image_from_buffer(vec![0; 16], PixelLayout::Rgb8),
        Err(Error::InvalidImageData)
    ));
    let raster = image.image_from_buffer(vec![9; 12], PixelLayout::Bgr8).unwrap();
    assert_eq!(raster.layout, PixelLayout::Bgr8);
    assert_eq!((raster.width, raster.height), (2, 2));
    assert_eq!(raster.data, vec![9; 12]);
}

fn gradient(layout: PixelLayout, width: u32, height: u32) -> RasterImage {
    let channels = layout.channels() as u32;
    let data: Vec<u8> = (0..width * height * channels).map(|i| (i * 7 + 3) as u8).collect();
    RasterImage::from_raw(layout, width, height, data).unwrap()
}

#[test]
fn raw_targets_copy_the_channels() {
    let rgba = gradient(PixelLayout::Rgba8, 4, 2);
    assert_eq!(encode(&rgba, ImageFormat::Rgba8888).unwrap(), rgba.data);
    assert_eq!(encode(&rgba, ImageFormat::Rgb888).unwrap(), rgba.to_rgb8());
    let bgr = gradient(PixelLayout::Bgr8, 3, 3);
    assert_eq!(encode(&bgr, ImageFormat::Rgba8888).unwrap(), bgr.to_rgba8());
    assert_eq!(encode(&bgr, ImageFormat::Rgb888).unwrap(), bgr.to_rgb8());
}

#[test]
fn block_targets_have_the_frame_size() {
    for &(width, height) in &[(4u32, 4u32), (8, 4), (1, 1), (5, 3), (16, 16)] {
        let raster = gradient(PixelLayout::Rgba8, width, height);
        for format in [ImageFormat::Dxt5, ImageFormat::Dxt1Onebitalpha].iter() {
            let plane = encode(&raster, *format).unwrap();
            assert_eq!(plane.len() as u32, format.frame_size(width, height).unwrap());
        }
    }
    let empty = gradient(PixelLayout::Rgba8, 0, 4);
    assert!(encode(&empty, ImageFormat::Dxt5).unwrap().is_empty());
    let empty = gradient(PixelLayout::Rgb8, 4, 0);
    assert!(encode(&empty, ImageFormat::Dxt1Onebitalpha).unwrap().is_empty());
}

#[test]
fn block_targets_are_what_the_compressor_gives() {
    let raster = gradient(PixelLayout::Rgba8, 8, 8);
    let cases = [
        (ImageFormat::Dxt5, texpresso::Format::Bc3),
        (ImageFormat::Dxt1Onebitalpha, texpresso::Format::Bc1),
    ];
    for (format, theirs) in cases.iter() {
        let plane = encode(&raster, *format).unwrap();
        let mut expected = vec![0u8; theirs.compressed_size(8, 8)];
        theirs.compress(&raster.data, 8, 8, texpresso::Params::default(), &mut expected);
        assert_eq!(plane, expected);
        assert!(plane.iter().any(|b| *b != 0));
    }
    // another layout is converted first
    let bgr = gradient(PixelLayout::Bgr8, 4, 4);
    let plane = encode(&bgr, ImageFormat::Dxt5).unwrap();
    let mut expected = vec![0u8; 16];
    texpresso::Format::Bc3.compress(&bgr.to_rgba8(), 4, 4, texpresso::Params::default(), &mut expected);
    assert_eq!(plane, expected);
}

#[test]
fn a_uniform_raster_compresses_to_its_colour() {
    let white = RasterImage::from_raw(PixelLayout::Rgba8, 4, 4, vec![255; 64]).unwrap();
    let plane = encode(&white, ImageFormat::Dxt5).unwrap();
    let decoded = view(&plane, ImageFormat::Dxt5, 4, 4, 0).decode(0).unwrap();
    assert_eq!(decoded.data, vec![255; 64]);
    let black = RasterImage::from_raw(PixelLayout::Rgb8, 4, 4, vec![0; 48]).unwrap();
    let plane = encode(&black, ImageFormat::Dxt1Onebitalpha).unwrap();
    let decoded = view(&plane, ImageFormat::Dxt1Onebitalpha, 4, 4, 0).decode(0).unwrap();
    assert_eq!(decoded.data, vec![0; 48]);
}

#[test]
fn other_targets_cannot_be_encoded() {
    let raster = gradient(PixelLayout::Rgba8, 4, 4);
    for format in [
        ImageFormat::Dxt1,
        ImageFormat::Dxt3,
        ImageFormat::Bgr888,
        ImageFormat::Bgra8888,
        ImageFormat::I8,
        ImageFormat::NoFormat,
        ImageFormat::P8,
        ImageFormat::Uv88,
    ]
    .iter()
    {
        assert!(matches!(
            encode(&raster, *format),
            Err(Error::UnsupportedEncodeImageFormat(f)) if f == *format
        ));
    }
}
