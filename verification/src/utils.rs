//! Where a plane lies in the image data.
//!
//! The image data holds the smallest mip first. Each mip holds its frames
//! one after another, each frame its faces, each face its depth slices.

use crate::header::{HeaderView, VTFHeader};
use crate::image::{lemma_frame_bytes_bound, ImageFormat};
use crate::Error;
use vstd::arithmetic::div_mod::{lemma_basic_div, lemma_div_is_ordered_by_denominator};
use vstd::arithmetic::power2::{lemma2_to64, lemma_pow2_pos, lemma_pow2_strictly_increases, pow2};
use vstd::prelude::*;

verus! {

/// One side of a mip: the side of the largest mip halved `level` times,
/// and 1 where nothing is left.
pub open spec fn mip_extent(extent: nat, level: nat) -> nat {
    if extent / pow2(level) >= 1 {
        extent / pow2(level)
    } else {
        1
    }
}

/// The bytes of one frame of the mip at `mip_level`, `depth` slices deep
/// at the largest mip.
pub open spec fn spec_mip_size(
    header: HeaderView,
    format: ImageFormat,
    mip_level: nat,
    depth: nat,
) -> nat {
    format.spec_frame_bytes(
        mip_extent(header.width as nat, mip_level),
        mip_extent(header.height as nat, mip_level),
    ) * mip_extent(depth, mip_level)
}

/// The mip level that a signed level stands for: itself, and for a
/// negative one the 32-bit number with the same bits.
pub open spec fn level_of(mip_level: int) -> nat {
    if mip_level < 0 {
        (mip_level + 0x1_0000_0000) as nat
    } else {
        mip_level as nat
    }
}

/// The bytes of one frame of each of the mips `from`, `from + 1`, ... up to
/// `to - 1`, added up.
pub open spec fn spec_mips_size(header: HeaderView, format: ImageFormat, from: int, to: int) -> nat
    decreases to - from,
{
    if from >= to {
        0
    } else {
        spec_mip_size(header, format, level_of(from), header.depth as nat) + spec_mips_size(
            header,
            format,
            from + 1,
            to,
        )
    }
}

/// The distance in bytes from the start of the image data to a plane: all
/// frames of the mips smaller than `mip_level`, then `frame + face` whole
/// frames of that mip, then `slice` slices.
pub open spec fn spec_offset(
    header: HeaderView,
    format: ImageFormat,
    frame: nat,
    face: nat,
    slice: nat,
    mip_level: int,
) -> nat {
    spec_mips_size(header, format, mip_level + 1, header.mipmap_count as int) * (
    header.frames as nat) + spec_mip_size(
        header,
        format,
        level_of(mip_level),
        header.depth as nat,
    ) * (frame + face) + spec_mip_size(header, format, level_of(mip_level), 1) * slice
}

/// One side of the mip at `mip_level`.
fn mip_side(extent: u16, mip_level: u32) -> (side: u16)
    ensures
        side == mip_extent(extent as nat, mip_level as nat),
{
    proof {
        lemma_mip_extent(extent as nat, mip_level as nat);
    }
    if mip_level >= 16 {
        1
    } else {
        let shift: u16 = mip_level as u16;
        proof {
            vstd::bits::lemma_u16_shr_is_div(extent, shift);
        }
        let side: u16 = extent >> shift;
        if side < 1 {
            1
        } else {
            side
        }
    }
}

/// The bytes of one frame of the mip at `mip_level`, `depth` slices deep at
/// the largest mip, for every header and level.
pub fn mip_bytes(
    header: &VTFHeader,
    image_format: &ImageFormat,
    mip_level: u32,
    depth: u16,
) -> (r: Result<u128, Error>)
    ensures
        image_format.has_frame_size() ==> r == Ok::<u128, Error>(
            spec_mip_size(header@, *image_format, mip_level as nat, depth as nat) as u128,
        ),
        !image_format.has_frame_size() ==> r == Err::<u128, Error>(
            Error::UnsupportedImageFormat(*image_format),
        ),
        spec_mip_size(header@, *image_format, mip_level as nat, depth as nat)
            <= 0x10_0000_0000_0000,
{
    proof {
        lemma_mip_size_bound(header@, *image_format, mip_level as nat, depth as nat);
    }
    let mip_width: u16 = mip_side(header.width, mip_level);
    let mip_height: u16 = mip_side(header.height, mip_level);
    let mip_depth: u16 = mip_side(depth, mip_level);
    let frame: u128 = image_format.frame_bytes(mip_width as u32, mip_height as u32)?;
    Ok(frame * (mip_depth as u128))
}

/// The bytes of one frame of the mip at `mip_level`, where that number
/// fits in 32 bits.
pub fn get_mip_size(
    header: &VTFHeader,
    image_format: &ImageFormat,
    mip_level: u32,
    depth: u16,
) -> (r: Result<u32, Error>)
    requires
        spec_mip_size(header@, *image_format, mip_level as nat, depth as nat) <= u32::MAX,
    ensures
        image_format.has_frame_size() ==> r == Ok::<u32, Error>(
            spec_mip_size(header@, *image_format, mip_level as nat, depth as nat) as u32,
        ),
        !image_format.has_frame_size() ==> r == Err::<u32, Error>(
            Error::UnsupportedImageFormat(*image_format),
        ),
{
    match mip_bytes(header, image_format, mip_level, depth) {
        Ok(bytes) => Ok(bytes as u32),
        Err(e) => Err(e),
    }
}

/// The unsigned level with the bits of the signed `mip_level`.
fn unsigned_level(mip_level: i64) -> (level: u32)
    requires
        i32::MIN <= mip_level <= i32::MAX,
    ensures
        level == level_of(mip_level as int),
{
    if mip_level < 0 {
        (mip_level + 0x1_0000_0000) as u32
    } else {
        mip_level as u32
    }
}

/// The distance in bytes from the start of the image data to a plane, for
/// every header and every plane. The level -1 gives the size of the whole
/// image data.
pub fn plane_offset(
    header: &VTFHeader,
    image_format: &ImageFormat,
    frame: u32,
    face: u32,
    slice: u32,
    mip_level: i32,
) -> (r: Result<u128, Error>)
    ensures
        image_format.has_frame_size() ==> r == Ok::<u128, Error>(
            spec_offset(
                header@,
                *image_format,
                frame as nat,
                face as nat,
                slice as nat,
                mip_level as int,
            ) as u128,
        ),
        !image_format.has_frame_size() ==> r == Err::<u128, Error>(
            Error::UnsupportedImageFormat(*image_format),
        ),
        spec_offset(
            header@,
            *image_format,
            frame as nat,
            face as nat,
            slice as nat,
            mip_level as int,
        ) <= 0x1_0000_0000_0000_0000_0000_0000_0000,
{
    let ghost view = header@;
    let ghost format = *image_format;
    let first: i64 = mip_level as i64 + 1;
    let end: i64 = header.mipmap_count as i64;
    let mut offset: u128 = 0;
    let mut i: i64 = if end > first {
        end
    } else {
        first
    };
    proof {
        lemma_offset_bound(view, format, frame as nat, face as nat, slice as nat, mip_level as int);
        lemma_mips_size_bound(view, format, i as int, end as int);
    }
    while i > first
        invariant
            first == mip_level + 1,
            end == header.mipmap_count,
            first <= i,
            i == first || i <= end,
            view == header@,
            format == *image_format,
            offset == spec_mips_size(view, format, i as int, end as int),
            spec_offset(view, format, frame as nat, face as nat, slice as nat, mip_level as int)
                <= 0x1_0000_0000_0000_0000_0000_0000_0000,
        decreases i - first,
    {
        proof {
            lemma_mips_size_bound(view, format, i as int, end as int);
        }
        i = i - 1;
        let size: u128 = mip_bytes(header, image_format, unsigned_level(i), header.depth)?;
        offset = offset + size;
    }
    proof {
        lemma_mips_size_bound(view, format, first as int, end as int);
    }
    let level: u32 = unsigned_level(mip_level as i64);
    let volume_bytes: u128 = mip_bytes(header, image_format, level, header.depth)?;
    let slice_bytes: u128 = mip_bytes(header, image_format, level, 1)?;
    let frames: u128 = header.frames as u128;
    let repeats: u128 = frame as u128 + face as u128;
    assert(offset * frames <= 0x1_0000_0000 * 0x10_0000_0000_0000 * 0x1_0000) by (nonlinear_arith)
        requires
            offset <= 0x1_0000_0000 * 0x10_0000_0000_0000,
            frames <= 0x1_0000,
    ;
    assert(volume_bytes * repeats <= 0x10_0000_0000_0000 * 0x2_0000_0000) by (nonlinear_arith)
        requires
            volume_bytes <= 0x10_0000_0000_0000,
            repeats <= 0x2_0000_0000,
    ;
    assert(slice_bytes * (slice as u128) <= 0x10_0000_0000_0000 * 0x1_0000_0000)
        by (nonlinear_arith)
        requires
            slice_bytes <= 0x10_0000_0000_0000,
            slice <= 0x1_0000_0000,
    ;
    Ok(offset * frames + volume_bytes * repeats + slice_bytes * (slice as u128))
}

/// The distance in bytes from the start of the image data to a plane,
/// where that number fits in 32 bits.
pub fn get_offset(
    header: &VTFHeader,
    image_format: &ImageFormat,
    frame: u32,
    face: u32,
    slice: u32,
    mip_level: i32,
) -> (r: Result<u32, Error>)
    requires
        spec_offset(
            header@,
            *image_format,
            frame as nat,
            face as nat,
            slice as nat,
            mip_level as int,
        ) <= u32::MAX,
    ensures
        image_format.has_frame_size() ==> r == Ok::<u32, Error>(
            spec_offset(
                header@,
                *image_format,
                frame as nat,
                face as nat,
                slice as nat,
                mip_level as int,
            ) as u32,
        ),
        !image_format.has_frame_size() ==> r == Err::<u32, Error>(
            Error::UnsupportedImageFormat(*image_format),
        ),
{
    match plane_offset(header, image_format, frame, face, slice, mip_level) {
        Ok(offset) => Ok(offset as u32),
        Err(e) => Err(e),
    }
}

/// A side halved at least 16 times is 1, and a side halved is never above
/// the side.
pub proof fn lemma_mip_extent(extent: nat, level: nat)
    requires
        extent <= u16::MAX,
    ensures
        1 <= mip_extent(extent, level),
        mip_extent(extent, level) <= extent || mip_extent(extent, level) == 1,
        level >= 16 ==> mip_extent(extent, level) == 1,
{
    lemma_pow2_pos(level);
    lemma2_to64();
    lemma_div_is_ordered_by_denominator(extent as int, 1, pow2(level) as int);
    if level >= 16 {
        if level > 16 {
            lemma_pow2_strictly_increases(16, level);
        }
        lemma_basic_div(extent as int, pow2(level) as int);
    }
}

/// The side of a smaller mip is not above that of a larger one.
pub proof fn lemma_mip_extent_shrinks(extent: nat, smaller: nat, larger: nat)
    requires
        smaller <= larger,
    ensures
        mip_extent(extent, larger) <= mip_extent(extent, smaller),
{
    lemma_pow2_pos(smaller);
    lemma_pow2_pos(larger);
    if smaller < larger {
        lemma_pow2_strictly_increases(smaller, larger);
    }
    lemma_div_is_ordered_by_denominator(extent as int, pow2(smaller) as int, pow2(larger) as int);
}

/// A plane does not grow when its sides shrink.
pub proof fn lemma_frame_bytes_monotone(
    format: ImageFormat,
    width: nat,
    height: nat,
    wider: nat,
    higher: nat,
)
    requires
        width <= wider,
        height <= higher,
    ensures
        format.spec_frame_bytes(width, height) <= format.spec_frame_bytes(wider, higher),
{
    let across: nat = (width + 3) / 4;
    let down: nat = (height + 3) / 4;
    let more_across: nat = (wider + 3) / 4;
    let more_down: nat = (higher + 3) / 4;
    assert(across * down <= more_across * more_down) by (nonlinear_arith)
        requires
            across <= more_across,
            down <= more_down,
    ;
    assert(width * height <= wider * higher) by (nonlinear_arith)
        requires
            width <= wider,
            height <= higher,
    ;
    match format.spec_block_bytes() {
        Some(block) => {
            assert(across * down * block <= more_across * more_down * block)
                by (nonlinear_arith)
                requires
                    across * down <= more_across * more_down,
                    0 <= block,
            ;
        },
        None => match format.spec_pixel_bytes() {
            Some(pixel) => {
                assert(width * height * pixel <= wider * higher * pixel) by (nonlinear_arith)
                    requires
                        width * height <= wider * higher,
                        0 <= pixel,
                ;
            },
            None => {},
        },
    }
}

/// The mips do not grow as their level goes up: a frame of the mip at
/// level `higher` has at most the bytes of a frame of the mip at level
/// `lower`.
pub proof fn lemma_mip_size_shrinks(
    header: HeaderView,
    format: ImageFormat,
    depth: nat,
    lower: nat,
    higher: nat,
)
    requires
        lower <= higher,
    ensures
        spec_mip_size(header, format, higher, depth) <= spec_mip_size(header, format, lower, depth),
{
    let w0 = mip_extent(header.width as nat, lower);
    let h0 = mip_extent(header.height as nat, lower);
    let d0 = mip_extent(depth, lower);
    let w1 = mip_extent(header.width as nat, higher);
    let h1 = mip_extent(header.height as nat, higher);
    let d1 = mip_extent(depth, higher);
    lemma_mip_extent_shrinks(header.width as nat, lower, higher);
    lemma_mip_extent_shrinks(header.height as nat, lower, higher);
    lemma_mip_extent_shrinks(depth, lower, higher);
    lemma_frame_bytes_monotone(format, w1, h1, w0, h0);
    let f0 = format.spec_frame_bytes(w0, h0);
    let f1 = format.spec_frame_bytes(w1, h1);
    assert(f1 * d1 <= f0 * d0) by (nonlinear_arith)
        requires
            f1 <= f0,
            d1 <= d0,
    ;
}

/// With the level -1 the offset of a plane is the size of the whole image
/// data: one frame of every mip, added up, times the number of frames.
/// This holds of the first frame, face and slice; a later one adds single
/// pixels, unless a pixel of the format takes no bytes.
pub proof fn lemma_offset_of_whole(
    header: HeaderView,
    format: ImageFormat,
    frame: nat,
    face: nat,
    slice: nat,
)
    requires
        (frame == 0 && face == 0 && slice == 0) || format.spec_frame_bytes(1, 1) == 0,
    ensures
        spec_offset(header, format, frame, face, slice, -1) == spec_mips_size(
            header,
            format,
            0,
            header.mipmap_count as int,
        ) * header.frames,
{
    let level = level_of(-1);
    let volume = spec_mip_size(header, format, level, header.depth as nat);
    let plane = spec_mip_size(header, format, level, 1);
    lemma_mip_extent(header.width as nat, level);
    lemma_mip_extent(header.height as nat, level);
    if format.spec_frame_bytes(1, 1) == 0 {
        assert(volume == 0) by (nonlinear_arith)
            requires
                volume == 0 * mip_extent(header.depth as nat, level),
        ;
        assert(plane == 0) by (nonlinear_arith)
            requires
                plane == 0 * mip_extent(1, level),
        ;
    }
    assert(volume * (frame + face) == 0) by (nonlinear_arith)
        requires
            volume == 0 || frame + face == 0,
    ;
    assert(plane * slice == 0) by (nonlinear_arith)
        requires
            plane == 0 || slice == 0,
    ;
}

/// A frame of a mip has fewer than 2^52 bytes.
pub proof fn lemma_mip_size_bound(header: HeaderView, format: ImageFormat, level: nat, depth: nat)
    requires
        depth <= u16::MAX,
    ensures
        spec_mip_size(header, format, level, depth) <= 0x10_0000_0000_0000,
{
    let w = mip_extent(header.width as nat, level);
    let h = mip_extent(header.height as nat, level);
    let d = mip_extent(depth, level);
    lemma_mip_extent(header.width as nat, level);
    lemma_mip_extent(header.height as nat, level);
    lemma_mip_extent(depth, level);
    lemma_frame_bytes_monotone(format, w, h, 0xFFFF, 0xFFFF);
    let most = format.spec_frame_bytes(0xFFFF, 0xFFFF);
    assert(most <= 0x10_0000_0000) by {
        assert(0xFFFFnat * 0xFFFFnat == 0xFFFE_0001nat) by (nonlinear_arith);
        assert((0xFFFFnat + 3) / 4 == 0x4000nat);
        assert(0x4000nat * 0x4000nat == 0x1000_0000nat) by (nonlinear_arith);
    }
    let f = format.spec_frame_bytes(w, h);
    assert(f * d <= 0x10_0000_0000 * 0x1_0000) by (nonlinear_arith)
        requires
            f <= 0x10_0000_0000,
            d <= 0x1_0000,
    ;
}

/// The mips from `from` to `to - 1` have fewer than 2^52 bytes each.
pub proof fn lemma_mips_size_bound(header: HeaderView, format: ImageFormat, from: int, to: int)
    ensures
        from <= to ==> spec_mips_size(header, format, from, to) <= (to - from)
            * 0x10_0000_0000_0000,
        from >= to ==> spec_mips_size(header, format, from, to) == 0,
    decreases to - from,
{
    if from < to {
        lemma_mips_size_bound(header, format, from + 1, to);
        lemma_mip_size_bound(header, format, level_of(from), header.depth as nat);
    }
}

/// The offset of a plane is below 2^112.
pub proof fn lemma_offset_bound(
    header: HeaderView,
    format: ImageFormat,
    frame: nat,
    face: nat,
    slice: nat,
    mip_level: int,
)
    requires
        frame <= u32::MAX,
        face <= u32::MAX,
        slice <= u32::MAX,
        i32::MIN <= mip_level <= i32::MAX,
    ensures
        spec_offset(header, format, frame, face, slice, mip_level)
            <= 0x1_0000_0000_0000_0000_0000_0000_0000,
{
    let mips = spec_mips_size(header, format, mip_level + 1, header.mipmap_count as int);
    let volume = spec_mip_size(header, format, level_of(mip_level), header.depth as nat);
    let plane = spec_mip_size(header, format, level_of(mip_level), 1);
    let frames = header.frames as nat;
    let repeats = frame + face;
    lemma_mips_size_bound(header, format, mip_level + 1, header.mipmap_count as int);
    lemma_mip_size_bound(header, format, level_of(mip_level), header.depth as nat);
    lemma_mip_size_bound(header, format, level_of(mip_level), 1);
    assert(mips * frames <= 0x1_0000_0000 * 0x10_0000_0000_0000 * 0x1_0000) by (nonlinear_arith)
        requires
            mips <= 0x1_0000_0000 * 0x10_0000_0000_0000,
            frames <= 0x1_0000,
    ;
    assert(volume * repeats <= 0x10_0000_0000_0000 * 0x2_0000_0000) by (nonlinear_arith)
        requires
            volume <= 0x10_0000_0000_0000,
            repeats <= 0x2_0000_0000,
    ;
    assert(plane * slice <= 0x10_0000_0000_0000 * 0x1_0000_0000) by (nonlinear_arith)
        requires
            plane <= 0x10_0000_0000_0000,
            slice <= 0x1_0000_0000,
    ;
}

} // verus!
