use vtf::header::VTFHeader;
use vtf::resources::ResourceList;
use vtf::utils::{get_mip_size, get_offset, mip_bytes, plane_offset};
use vtf::{Error, ImageFormat};

fn geometry(width: u16, height: u16, depth: u16, frames: u16, mipmap_count: u8) -> VTFHeader {
    VTFHeader {
        signature: VTFHeader::SIGNATURE,
        version: [7, 2],
        header_size: 80,
        width,
        height,
        flags: 0,
        frames,
        first_frame: 0,
        reflectivity: [0, 0, 0],
        bumpmap_scale: 0,
        highres_image_format: ImageFormat::Rgba8888,
        mipmap_count,
        lowres_image_format: ImageFormat::Dxt1,
        lowres_image_width: 0,
        lowres_image_height: 0,
        depth,
        resources: ResourceList::empty(),
    }
}

#[test]
fn mip_sides_halve_and_stop_at_one() {
    let header = geometry(256, 64, 1, 1, 9);
    let format = ImageFormat::Rgba8888;
    let expected: [u32; 10] = [
        256 * 64 * 4,
        128 * 32 * 4,
        64 * 16 * 4,
        32 * 8 * 4,
        16 * 4 * 4,
        8 * 2 * 4,
        4 * 1 * 4,
        2 * 1 * 4,
        1 * 1 * 4,
        1 * 1 * 4,
    ];
    for (level, bytes) in expected.iter().enumerate() {
        assert_eq!(get_mip_size(&header, &format, level as u32, 1).unwrap(), *bytes);
    }
}

#[test]
fn mip_size_counts_whole_blocks() {
    let header = geometry(16, 8, 1, 1, 5);
    //                         16x8  8x4  4x2  2x1  1x1
    let dxt1: [u32; 5] = [4 * 2 * 8, 2 * 1 * 8, 8, 8, 8];
    let dxt5: [u32; 5] = [4 * 2 * 16, 2 * 1 * 16, 16, 16, 16];
    for level in 0..5 {
        assert_eq!(get_mip_size(&header, &ImageFormat::Dxt1, level, 1).unwrap(), dxt1[level as usize]);
        assert_eq!(get_mip_size(&header, &ImageFormat::Dxt5, level, 1).unwrap(), dxt5[level as usize]);
    }
}

#[test]
fn mip_depth_halves_with_the_level() {
    let header = geometry(8, 8, 4, 1, 4);
    let format = ImageFormat::Rgb888;
    assert_eq!(get_mip_size(&header, &format, 0, 4).unwrap(), 8 * 8 * 3 * 4);
    assert_eq!(get_mip_size(&header, &format, 1, 4).unwrap(), 4 * 4 * 3 * 2);
    assert_eq!(get_mip_size(&header, &format, 2, 4).unwrap(), 2 * 2 * 3 * 1);
    assert_eq!(get_mip_size(&header, &format, 3, 4).unwrap(), 1 * 1 * 3 * 1);
    assert_eq!(get_mip_size(&header, &format, 0, 1).unwrap(), 8 * 8 * 3);
    assert_eq!(get_mip_size(&header, &format, 0, 0).unwrap(), 8 * 8 * 3);
}

#[test]
fn a_level_of_sixteen_or_more_is_one_pixel() {
    let header = geometry(65535, 65535, 65535, 1, 255);
    let format = ImageFormat::Rgba8888;
    assert_eq!(get_mip_size(&header, &format, 15, 65535).unwrap(), 4);
    assert_eq!(get_mip_size(&header, &format, 16, 65535).unwrap(), 4);
    assert_eq!(get_mip_size(&header, &format, 17, 65535).unwrap(), 4);
    assert_eq!(get_mip_size(&header, &format, 32, 65535).unwrap(), 4);
    assert_eq!(get_mip_size(&header, &format, u32::MAX, 65535).unwrap(), 4);
    assert_eq!(get_mip_size(&header, &format, 14, 65535).unwrap(), 3 * 3 * 3 * 4);
}

#[test]
fn mip_sizes_never_grow_with_the_level() {
    let formats = [
        ImageFormat::Rgba8888,
        ImageFormat::Rgb888,
        ImageFormat::I8,
        ImageFormat::Dxt1,
        ImageFormat::Dxt5,
        ImageFormat::Rgba16161616,
    ];
    for &(width, height, depth) in &[(256u16, 256u16, 1u16), (1000, 3, 7), (5, 640, 16), (1, 1, 1)] {
        let header = geometry(width, height, depth, 1, 20);
        for format in formats.iter() {
            let mut previous = mip_bytes(&header, format, 0, depth).unwrap();
            for level in 1..40u32 {
                let size = mip_bytes(&header, format, level, depth).unwrap();
                assert!(size <= previous, "{:?} {}x{}x{} level {}", format, width, height, depth, level);
                previous = size;
            }
        }
    }
}

#[test]
fn mip_bytes_does_not_overflow() {
    let header = geometry(65535, 65535, 65535, 1, 1);
    let size = mip_bytes(&header, &ImageFormat::Rgba16161616, 0, 65535).unwrap();
    assert_eq!(size, 65535u128 * 65535 * 8 * 65535);
}

#[test]
fn a_format_without_size_rule_has_no_mip_size() {
    let header = geometry(8, 8, 1, 1, 1);
    assert!(matches!(
        get_mip_size(&header, &ImageFormat::Uv88, 0, 1),
        Err(Error::UnsupportedImageFormat(ImageFormat::Uv88))
    ));
    assert!(matches!(
        get_offset(&header, &ImageFormat::P8, 0, 0, 0, 0),
        Err(Error::UnsupportedImageFormat(ImageFormat::P8))
    ));
    assert!(matches!(
        plane_offset(&header, &ImageFormat::Bgrx8888, 0, 0, 0, -1),
        Err(Error::UnsupportedImageFormat(ImageFormat::Bgrx8888))
    ));
}

#[test]
fn smaller_mips_come_first_for_every_frame() {
    // mips: 8x8 (256 bytes), 4x4 (64), 2x2 (16), 1x1 (4); three frames
    let header = geometry(8, 8, 1, 3, 4);
    let format = ImageFormat::Rgba8888;
    assert_eq!(get_offset(&header, &format, 0, 0, 0, 3).unwrap(), 0);
    assert_eq!(get_offset(&header, &format, 1, 0, 0, 3).unwrap(), 4);
    assert_eq!(get_offset(&header, &format, 0, 0, 0, 2).unwrap(), 4 * 3);
    assert_eq!(get_offset(&header, &format, 2, 0, 0, 2).unwrap(), 4 * 3 + 16 * 2);
    assert_eq!(get_offset(&header, &format, 0, 0, 0, 1).unwrap(), (4 + 16) * 3);
    assert_eq!(get_offset(&header, &format, 0, 0, 0, 0).unwrap(), (4 + 16 + 64) * 3);
    assert_eq!(get_offset(&header, &format, 2, 0, 0, 0).unwrap(), (4 + 16 + 64) * 3 + 256 * 2);
}

#[test]
fn frame_and_face_share_one_slot() {
    let header = geometry(8, 8, 1, 3, 4);
    let format = ImageFormat::Rgba8888;
    let by_frame = get_offset(&header, &format, 2, 0, 0, 0).unwrap();
    let by_face = get_offset(&header, &format, 0, 2, 0, 0).unwrap();
    let mixed = get_offset(&header, &format, 1, 1, 0, 0).unwrap();
    assert_eq!(by_frame, by_face);
    assert_eq!(by_frame, mixed);
}

#[test]
fn slices_step_by_one_plane_inside_a_volume() {
    // 4x4 pixels, four slices deep, two mips: 4x4x4 and 2x2x2
    let header = geometry(4, 4, 4, 2, 2);
    let format = ImageFormat::I8;
    let small_volume = 2 * 2 * 2;
    let large_volume = 4 * 4 * 4;
    assert_eq!(get_offset(&header, &format, 0, 0, 0, 1).unwrap(), 0);
    assert_eq!(get_offset(&header, &format, 0, 0, 1, 1).unwrap(), 2 * 2);
    assert_eq!(get_offset(&header, &format, 1, 0, 0, 1).unwrap(), small_volume);
    assert_eq!(get_offset(&header, &format, 0, 0, 0, 0).unwrap(), small_volume * 2);
    assert_eq!(get_offset(&header, &format, 1, 0, 3, 0).unwrap(), small_volume * 2 + large_volume + 3 * 16);
}

#[test]
fn level_minus_one_is_the_size_of_the_whole_image_data() {
    for &(width, height, depth, frames, mips) in
        &[(8u16, 8u16, 1u16, 3u16, 4u8), (256, 128, 1, 1, 9), (16, 16, 4, 2, 5), (4, 4, 1, 1, 1), (4, 4, 1, 5, 0)]
    {
        let header = geometry(width, height, depth, frames, mips);
        for format in [ImageFormat::Rgba8888, ImageFormat::Dxt1, ImageFormat::Dxt5, ImageFormat::Rgb565].iter() {
            let mut sum: u128 = 0;
            for level in 0..mips as u32 {
                sum += mip_bytes(&header, format, level, depth).unwrap();
            }
            let whole = plane_offset(&header, format, 0, 0, 0, -1).unwrap();
            assert_eq!(whole, sum * frames as u128);
            assert_eq!(get_offset(&header, format, 0, 0, 0, -1).unwrap() as u128, whole);
        }
    }
    let header = geometry(8, 8, 1, 3, 4);
    assert_eq!(get_offset(&header, &ImageFormat::Rgba8888, 0, 0, 0, -1).unwrap(), (4 + 16 + 64 + 256) * 3);
}

#[test]
fn level_minus_one_with_a_later_frame_adds_single_pixels() {
    let header = geometry(8, 8, 1, 3, 4);
    let format = ImageFormat::Rgba8888;
    let whole = get_offset(&header, &format, 0, 0, 0, -1).unwrap();
    assert_eq!(get_offset(&header, &format, 2, 1, 0, -1).unwrap(), whole + 4 * 3);
    assert_eq!(get_offset(&header, &format, 0, 0, 5, -1).unwrap(), whole + 4 * 5);
    assert_eq!(get_offset(&header, &ImageFormat::NoFormat, 7, 7, 7, -1).unwrap(), 0);
}

#[test]
fn a_level_beyond_the_mipmap_count_has_offset_zero_for_the_first_plane() {
    let header = geometry(8, 8, 1, 3, 4);
    let format = ImageFormat::Rgba8888;
    assert_eq!(get_offset(&header, &format, 0, 0, 0, 4).unwrap(), 0);
    assert_eq!(get_offset(&header, &format, 0, 0, 0, 100).unwrap(), 0);
    assert_eq!(get_offset(&header, &format, 1, 0, 0, 20).unwrap(), 4);
}

#[test]
fn a_level_below_minus_one_counts_single_pixels_for_the_levels_below_zero() {
    let header = geometry(8, 8, 1, 3, 4);
    let format = ImageFormat::Rgba8888;
    let whole = get_offset(&header, &format, 0, 0, 0, -1).unwrap();
    assert_eq!(get_offset(&header, &format, 0, 0, 0, -2).unwrap(), whole + 4 * 3);
    assert_eq!(get_offset(&header, &format, 0, 0, 0, -4).unwrap(), whole + 3 * 4 * 3);
}

#[test]
fn plane_offset_does_not_overflow() {
    let header = geometry(65535, 65535, 65535, 65535, 2);
    let format = ImageFormat::Rgba16161616;
    let level1 = 32767u128 * 32767 * 8 * 32767;
    let level0 = 65535u128 * 65535 * 8 * 65535;
    let plane0 = 65535u128 * 65535 * 8;
    let expected = level1 * 65535 + level0 * (u32::MAX as u128 + u32::MAX as u128) + plane0 * u32::MAX as u128;
    assert_eq!(plane_offset(&header, &format, u32::MAX, u32::MAX, u32::MAX, 0).unwrap(), expected);
}
