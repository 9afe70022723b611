//! Rasters: pixels row by row, in one of four layouts of one byte for each
//! channel.

use crate::codec::BlockVariant;
use vstd::prelude::*;

verus! {

/// How the bytes of a raster make up its pixels: one byte for each of the
/// channels, in the order of the name.
#[derive(Debug, Clone, Copy, PartialEq, Eq)]
pub enum PixelLayout {
    Rgb8,
    Rgba8,
    Bgr8,
    Bgra8,
}

impl PixelLayout {
    /// The bytes of one pixel.
    pub open spec fn spec_channels(self) -> nat {
        match self {
            PixelLayout::Rgb8 | PixelLayout::Bgr8 => 3,
            PixelLayout::Rgba8 | PixelLayout::Bgra8 => 4,
        }
    }

    /// The layout of the pixels that come out of the block decoder: red,
    /// green and blue for `Dxt1`, with alpha for the others.
    pub open spec fn spec_decoded_from(variant: BlockVariant) -> PixelLayout {
        match variant {
            BlockVariant::Dxt1 => PixelLayout::Rgb8,
            BlockVariant::Dxt3 | BlockVariant::Dxt5 => PixelLayout::Rgba8,
        }
    }

    /// The bytes of one pixel.
    pub fn channels(&self) -> (r: u8)
        ensures
            r == self.spec_channels(),
    {
        match self {
            PixelLayout::Rgb8 | PixelLayout::Bgr8 => 3,
            PixelLayout::Rgba8 | PixelLayout::Bgra8 => 4,
        }
    }

    /// The layout of the pixels that come out of the block decoder.
    pub fn decoded_from(variant: BlockVariant) -> (r: PixelLayout)
        ensures
            r == Self::spec_decoded_from(variant),
    {
        match variant {
            BlockVariant::Dxt1 => PixelLayout::Rgb8,
            BlockVariant::Dxt3 | BlockVariant::Dxt5 => PixelLayout::Rgba8,
        }
    }
}

/// A raster: `width` × `height` pixels, row by row, each pixel as its
/// layout says.
#[derive(Debug)]
pub struct RasterImage {
    pub layout: PixelLayout,
    pub width: u32,
    pub height: u32,
    pub data: Vec<u8>,
}

/// What a raster holds, as plain values.
pub struct RasterView {
    pub layout: PixelLayout,
    pub width: u32,
    pub height: u32,
    pub data: Seq<u8>,
}

impl View for RasterImage {
    type V = RasterView;

    open spec fn view(&self) -> RasterView {
        RasterView {
            layout: self.layout,
            width: self.width,
            height: self.height,
            data: self.data@,
        }
    }
}

/// The channel `channel` (0 red, 1 green, 2 blue, 3 alpha) of the pixel
/// `pixel` of `data`. A layout without alpha is opaque throughout.
pub open spec fn rgba_channel(layout: PixelLayout, data: Seq<u8>, pixel: int, channel: int) -> u8 {
    match layout {
        PixelLayout::Rgb8 => if channel < 3 {
            data[3 * pixel + channel]
        } else {
            255
        },
        PixelLayout::Rgba8 => data[4 * pixel + channel],
        PixelLayout::Bgr8 => if channel < 3 {
            data[3 * pixel + 2 - channel]
        } else {
            255
        },
        PixelLayout::Bgra8 => if channel < 3 {
            data[4 * pixel + 2 - channel]
        } else {
            data[4 * pixel + 3]
        },
    }
}

impl RasterView {
    /// The data has as many bytes as the pixels take.
    pub open spec fn wf(self) -> bool {
        self.data.len() == self.width * self.height * self.layout.spec_channels()
    }

    /// The pixels as red, green, blue and alpha.
    pub open spec fn rgba8(self) -> Seq<u8> {
        Seq::new(
            (4 * (self.width * self.height)) as nat,
            |i: int| rgba_channel(self.layout, self.data, i / 4, i % 4),
        )
    }

    /// The pixels as red, green and blue.
    pub open spec fn rgb8(self) -> Seq<u8> {
        Seq::new(
            (3 * (self.width * self.height)) as nat,
            |i: int| rgba_channel(self.layout, self.data, i / 3, i % 3),
        )
    }
}

/// A raster in the layout asked for is its own conversion.
pub proof fn lemma_same_layout(raster: RasterView)
    requires
        raster.wf(),
    ensures
        raster.layout == PixelLayout::Rgba8 ==> raster.rgba8() == raster.data,
        raster.layout == PixelLayout::Rgb8 ==> raster.rgb8() == raster.data,
{
    let n = raster.width * raster.height;
    if raster.layout == PixelLayout::Rgba8 {
        assert(n * 4 == 4 * n);
        assert(raster.rgba8() =~= raster.data);
    }
    if raster.layout == PixelLayout::Rgb8 {
        assert(n * 3 == 3 * n);
        assert(raster.rgb8() =~= raster.data);
    }
}

/// Every pixel of a raster lies inside its data.
pub proof fn lemma_pixel_in_data(raster: RasterView, pixel: int)
    requires
        raster.wf(),
        0 <= pixel < raster.width * raster.height,
    ensures
        raster.layout.spec_channels() == 3 ==> 3 * pixel + 3 <= raster.data.len(),
        raster.layout.spec_channels() == 4 ==> 4 * pixel + 4 <= raster.data.len(),
{
    let n: int = raster.width * raster.height;
    let channels: int = raster.layout.spec_channels() as int;
    assert((pixel + 1) * channels <= n * channels) by (nonlinear_arith)
        requires
            pixel + 1 <= n,
            channels >= 0,
    ;
    assert(channels == 3 ==> (pixel + 1) * channels == 3 * pixel + 3) by (nonlinear_arith);
    assert(channels == 4 ==> (pixel + 1) * channels == 4 * pixel + 4) by (nonlinear_arith);
}

impl RasterImage {
    /// The number of pixels, from the length of the data.
    fn pixel_count(&self) -> (n: usize)
        requires
            self@.wf(),
        ensures
            n == self.width * self.height,
    {
        let channels: usize = self.layout.channels() as usize;
        let n: usize = self.data.len() / channels;
        proof {
            let pixels: int = self.width * self.height;
            assert((pixels * channels) / (channels as int) == pixels) by (nonlinear_arith)
                requires
                    channels > 0,
            ;
        }
        n
    }

    /// A raster of the given size over `data`, if `data` has the bytes of
    /// exactly that many pixels.
    pub fn from_raw(layout: PixelLayout, width: u32, height: u32, data: Vec<u8>) -> (r: Option<
        RasterImage,
    >)
        ensures
            data@.len() == width * height * layout.spec_channels() ==> (r matches Some(raster)
                && raster@ == RasterView { layout, width, height, data: data@ }),
            data@.len() != width * height * layout.spec_channels() ==> r is None,
    {
        let channels: u128 = layout.channels() as u128;
        let w: u128 = width as u128;
        let h: u128 = height as u128;
        assert(w * h <= 0xFFFF_FFFF * 0xFFFF_FFFF) by (nonlinear_arith)
            requires
                w <= 0xFFFF_FFFF,
                h <= 0xFFFF_FFFF,
        ;
        assert(w * h * channels <= 0xFFFF_FFFF * 0xFFFF_FFFF * 4) by (nonlinear_arith)
            requires
                w * h <= 0xFFFF_FFFF * 0xFFFF_FFFF,
                channels <= 4,
        ;
        if data.len() as u128 == w * h * channels {
            Some(RasterImage { layout, width, height, data })
        } else {
            None
        }
    }

    /// The pixels as red, green, blue and alpha, four bytes each.
    pub fn to_rgba8(&self) -> (out: Vec<u8>)
        requires
            self@.wf(),
        ensures
            out@ == self@.rgba8(),
    {
        let n: usize = self.pixel_count();
        let len: usize = self.data.len();
        let mut out: Vec<u8> = Vec::new();
        let mut p: usize = 0;
        while p < n
            invariant
                p <= n,
                n == self.width * self.height,
                len == self.data@.len(),
                self@.wf(),
                out@.len() == 4 * p,
                forall|i: int|
                    0 <= i < 4 * p ==> out@[i] == rgba_channel(
                        self.layout,
                        self.data@,
                        i / 4,
                        i % 4,
                    ),
            decreases n - p,
        {
            proof {
                lemma_pixel_in_data(self@, p as int);
            }
            let ghost before = out@;
            match self.layout {
                PixelLayout::Rgb8 => {
                    out.push(self.data[3 * p]);
                    out.push(self.data[3 * p + 1]);
                    out.push(self.data[3 * p + 2]);
                    out.push(255);
                },
                PixelLayout::Rgba8 => {
                    out.push(self.data[4 * p]);
                    out.push(self.data[4 * p + 1]);
                    out.push(self.data[4 * p + 2]);
                    out.push(self.data[4 * p + 3]);
                },
                PixelLayout::Bgr8 => {
                    out.push(self.data[3 * p + 2]);
                    out.push(self.data[3 * p + 1]);
                    out.push(self.data[3 * p]);
                    out.push(255);
                },
                PixelLayout::Bgra8 => {
                    out.push(self.data[4 * p + 2]);
                    out.push(self.data[4 * p + 1]);
                    out.push(self.data[4 * p]);
                    out.push(self.data[4 * p + 3]);
                },
            }
            proof {
                assert forall|i: int| 0 <= i < 4 * (p + 1) implies out@[i] == rgba_channel(
                    self.layout,
                    self.data@,
                    i / 4,
                    i % 4,
                ) by {
                    if i < 4 * p {
                        assert(out@[i] == before[i]);
                    } else {
                        assert(i / 4 == p);
                    }
                }
            }
            p += 1;
        }
        assert(out@ =~= self@.rgba8());
        out
    }

    /// The pixels as red, green and blue, three bytes each.
    pub fn to_rgb8(&self) -> (out: Vec<u8>)
        requires
            self@.wf(),
        ensures
            out@ == self@.rgb8(),
    {
        let n: usize = self.pixel_count();
        let len: usize = self.data.len();
        let mut out: Vec<u8> = Vec::new();
        let mut p: usize = 0;
        while p < n
            invariant
                p <= n,
                n == self.width * self.height,
                len == self.data@.len(),
                self@.wf(),
                out@.len() == 3 * p,
                forall|i: int|
                    0 <= i < 3 * p ==> out@[i] == rgba_channel(
                        self.layout,
                        self.data@,
                        i / 3,
                        i % 3,
                    ),
            decreases n - p,
        {
            proof {
                lemma_pixel_in_data(self@, p as int);
            }
            let ghost before = out@;
            match self.layout {
                PixelLayout::Rgb8 => {
                    out.push(self.data[3 * p]);
                    out.push(self.data[3 * p + 1]);
                    out.push(self.data[3 * p + 2]);
                },
                PixelLayout::Rgba8 => {
                    out.push(self.data[4 * p]);
                    out.push(self.data[4 * p + 1]);
                    out.push(self.data[4 * p + 2]);
                },
                PixelLayout::Bgr8 => {
                    out.push(self.data[3 * p + 2]);
                    out.push(self.data[3 * p + 1]);
                    out.push(self.data[3 * p]);
                },
                PixelLayout::Bgra8 => {
                    out.push(self.data[4 * p + 2]);
                    out.push(self.data[4 * p + 1]);
                    out.push(self.data[4 * p]);
                },
            }
            proof {
                assert forall|i: int| 0 <= i < 3 * (p + 1) implies out@[i] == rgba_channel(
                    self.layout,
                    self.data@,
                    i / 3,
                    i % 3,
                ) by {
                    if i < 3 * p {
                        assert(out@[i] == before[i]);
                    } else {
                        assert(i / 3 == p);
                    }
                }
            }
            p += 1;
        }
        assert(out@ =~= self@.rgb8());
        out
    }
}

} // verus!
