//! The header of a texture file: its fields, their layout in the file, and
//! the two directions between a header and its bytes.
//!
//! All integers are little-endian. The layout, by offset:
//!
//! | offset | bytes | field                                   |
//! |--------|-------|-----------------------------------------|
//! | 0      | 4     | signature                               |
//! | 4      | 4 + 4 | version, major then minor               |
//! | 12     | 4     | header size                             |
//! | 16     | 2 + 2 | width, height                           |
//! | 20     | 4     | flags                                   |
//! | 24     | 2 + 2 | frames, first frame                     |
//! | 28     | 4     | reserved                                |
//! | 32     | 3 × 4 | reflectivity                            |
//! | 44     | 4     | reserved                                |
//! | 48     | 4     | bumpmap scale                           |
//! | 52     | 4     | high resolution format                  |
//! | 56     | 1     | mipmap count                            |
//! | 57     | 4     | low resolution format                   |
//! | 61     | 1 + 1 | low resolution width, height            |
//! | 63     | 2     | depth, from version 7.2                 |
//! | 65     | 3     | reserved, from version 7.3              |
//! | 68     | 4     | number of resources, from version 7.3   |
//! | 72     | 8     | reserved, from version 7.3              |
//! | 80     | 8 × n | the resources, from version 7.3         |

use crate::endian::{
    le_u16, le_u32, lemma_u16_le_roundtrip, lemma_u32_le_roundtrip, put_u16, put_u32, put_zeros,
    u16_at, u16_le_bytes, u32_at, u32_le_bytes, zeros,
};
use crate::image::ImageFormat;
use crate::resources::{
    decoded_entries, encoded_entries, lemma_encoded_entries_len, lemma_encoded_entry, Resource,
    ResourceList,
};
use crate::Error;
use vstd::prelude::*;

verus! {

/// The header of a texture file.
///
/// `reflectivity` and `bumpmap_scale` are single precision numbers; the
/// header carries them through untouched, as their 32 bits.
#[derive(Debug)]
pub struct VTFHeader {
    pub signature: u32,
    pub version: [u32; 2],
    pub header_size: u32,
    pub width: u16,
    pub height: u16,
    pub flags: u32,
    pub frames: u16,
    pub first_frame: u16,
    pub reflectivity: [u32; 3],
    pub bumpmap_scale: u32,
    pub highres_image_format: ImageFormat,
    pub mipmap_count: u8,
    pub lowres_image_format: ImageFormat,
    pub lowres_image_width: u8,
    pub lowres_image_height: u8,
    pub depth: u16,
    pub resources: ResourceList,
}

/// What a header holds, as plain values.
pub struct HeaderView {
    pub signature: u32,
    pub version: (u32, u32),
    pub header_size: u32,
    pub width: u16,
    pub height: u16,
    pub flags: u32,
    pub frames: u16,
    pub first_frame: u16,
    pub reflectivity: (u32, u32, u32),
    pub bumpmap_scale: u32,
    pub highres_image_format: ImageFormat,
    pub mipmap_count: u8,
    pub lowres_image_format: ImageFormat,
    pub lowres_image_width: u8,
    pub lowres_image_height: u8,
    pub depth: u16,
    pub resources: Seq<Resource>,
}

impl View for VTFHeader {
    type V = HeaderView;

    open spec fn view(&self) -> HeaderView {
        HeaderView {
            signature: self.signature,
            version: (self.version[0], self.version[1]),
            header_size: self.header_size,
            width: self.width,
            height: self.height,
            flags: self.flags,
            frames: self.frames,
            first_frame: self.first_frame,
            reflectivity: (self.reflectivity[0], self.reflectivity[1], self.reflectivity[2]),
            bumpmap_scale: self.bumpmap_scale,
            highres_image_format: self.highres_image_format,
            mipmap_count: self.mipmap_count,
            lowres_image_format: self.lowres_image_format,
            lowres_image_width: self.lowres_image_width,
            lowres_image_height: self.lowres_image_height,
            depth: self.depth,
            resources: self.resources@,
        }
    }
}

/// Whether a file of version `major`.`minor` stores the depth.
pub open spec fn stores_depth(major: u32, minor: u32) -> bool {
    major >= 7 && minor >= 2
}

/// Whether a file of version `major`.`minor` stores a resource dictionary.
pub open spec fn stores_resources(major: u32, minor: u32) -> bool {
    major >= 7 && minor >= 3
}

/// The 32 bits that store a format: its 16-bit code, sign-extended.
pub open spec fn format_field(format: ImageFormat) -> u32 {
    if format.spec_code() < 0 {
        (format.spec_code() + 0x1_0000_0000) as u32
    } else {
        format.spec_code() as u32
    }
}

/// The 16-bit code in a stored format: the low 16 bits, read as signed.
pub open spec fn field_code(field: u32) -> i16 {
    if field % 0x1_0000 >= 0x8000 {
        (field % 0x1_0000 - 0x1_0000) as i16
    } else {
        (field % 0x1_0000) as i16
    }
}

/// The 32-bit value at `offset` in `s`.
pub open spec fn u32_field(s: Seq<u8>, offset: int) -> u32 {
    le_u32(s.subrange(offset, offset + 4)) as u32
}

/// The 16-bit value at `offset` in `s`.
pub open spec fn u16_field(s: Seq<u8>, offset: int) -> u16 {
    le_u16(s.subrange(offset, offset + 2)) as u16
}

impl HeaderView {
    /// Whether the depth is stored with this header.
    pub open spec fn has_depth(self) -> bool {
        stores_depth(self.version.0, self.version.1)
    }

    /// Whether the resource dictionary is stored with this header.
    pub open spec fn has_resources(self) -> bool {
        stores_resources(self.version.0, self.version.1)
    }

    /// The offset at which the image data starts where no resource says
    /// otherwise: 64 for minor versions 0 and 1, else 80 and 8 more for
    /// each resource.
    pub open spec fn size(self) -> nat {
        if self.version.1 <= 1 {
            64
        } else {
            80 + 8 * self.resources.len()
        }
    }

    /// The conventions that make a header and its bytes determine each
    /// other: the signature is the fixed one, the stored size is the true
    /// one, and what the version does not store has its default.
    pub open spec fn wf(self) -> bool {
        &&& self.signature == VTFHeader::SIGNATURE
        &&& self.header_size == self.size()
        &&& !self.has_depth() ==> self.depth == 1
        &&& !self.has_resources() ==> self.resources.len() == 0
    }

    /// The header as its bytes give it back: with the true size in place of
    /// the stored one, and the defaults in place of what is not stored.
    pub open spec fn stored(self) -> HeaderView {
        HeaderView {
            header_size: (self.size() % 0x1_0000_0000) as u32,
            depth: if self.has_depth() {
                self.depth
            } else {
                1
            },
            resources: if self.has_resources() {
                self.resources
            } else {
                Seq::empty()
            },
            ..self
        }
    }

    /// Offsets 0 to 16: the signature, the version and the header size.
    pub open spec fn version_fields(self) -> Seq<u8> {
        u32_le_bytes(self.signature) + u32_le_bytes(self.version.0) + u32_le_bytes(
            self.version.1,
        ) + u32_le_bytes((self.size() % 0x1_0000_0000) as u32)
    }

    /// Offsets 16 to 28: the size of the largest mip, the flags and the
    /// frames.
    pub open spec fn geometry_fields(self) -> Seq<u8> {
        u16_le_bytes(self.width) + u16_le_bytes(self.height) + u32_le_bytes(self.flags)
            + u16_le_bytes(self.frames) + u16_le_bytes(self.first_frame)
    }

    /// Offsets 28 to 52: the reflectivity and the bumpmap scale, each
    /// behind four reserved bytes.
    pub open spec fn surface_fields(self) -> Seq<u8> {
        zeros(4) + u32_le_bytes(self.reflectivity.0) + u32_le_bytes(self.reflectivity.1)
            + u32_le_bytes(self.reflectivity.2) + zeros(4) + u32_le_bytes(self.bumpmap_scale)
    }

    /// Offsets 52 to 63: the two formats, the mipmap count and the size of
    /// the low resolution image.
    pub open spec fn format_fields(self) -> Seq<u8> {
        u32_le_bytes(format_field(self.highres_image_format)) + seq![self.mipmap_count]
            + u32_le_bytes(format_field(self.lowres_image_format))
            + seq![self.lowres_image_width] + seq![self.lowres_image_height]
    }

    /// The 63 bytes that every version stores.
    pub open spec fn fixed_fields(self) -> Seq<u8> {
        self.version_fields() + self.geometry_fields() + self.surface_fields()
            + self.format_fields()
    }

    /// The two bytes of the depth, where the version stores it.
    pub open spec fn depth_field(self) -> Seq<u8> {
        if self.has_depth() {
            u16_le_bytes(self.depth)
        } else {
            Seq::empty()
        }
    }

    /// The resource dictionary with what precedes it, where the version
    /// stores it: three reserved bytes, the number of entries, eight
    /// reserved bytes, the entries.
    pub open spec fn resource_section(self) -> Seq<u8> {
        if self.has_resources() {
            zeros(3) + u32_le_bytes((self.resources.len() % 0x1_0000_0000) as u32) + zeros(8)
                + encoded_entries(self.resources)
        } else {
            Seq::empty()
        }
    }

    /// The bytes of the header as they lie in a file.
    pub open spec fn serialized(self) -> Seq<u8> {
        self.fixed_fields() + self.depth_field() + self.resource_section()
    }
}

/// The header at the front of `s`, or the reason why there is none.
///
/// Input that ends too early is reported first, but for a wrong signature,
/// which is reported as soon as four bytes are there; then an unknown high
/// resolution format, then an unknown low resolution format.
pub open spec fn parse_header(s: Seq<u8>) -> Result<HeaderView, Error> {
    if s.len() < 4 {
        Err(Error::Io)
    } else if u32_field(s, 0) != VTFHeader::SIGNATURE {
        Err(Error::InvalidSignature)
    } else if s.len() < 63 {
        Err(Error::Io)
    } else {
        let major = u32_field(s, 4);
        let minor = u32_field(s, 8);
        let count = u32_field(s, 68);
        if stores_depth(major, minor) && s.len() < 65 {
            Err(Error::Io)
        } else if stores_resources(major, minor) && (s.len() < 72 || s.len() < 80 + 8 * count) {
            Err(Error::Io)
        } else {
            let highres = field_code(u32_field(s, 52));
            let lowres = field_code(u32_field(s, 57));
            match (ImageFormat::from_code(highres), ImageFormat::from_code(lowres)) {
                (None, _) => Err(Error::InvalidImageFormat(highres)),
                (Some(_), None) => Err(Error::InvalidImageFormat(lowres)),
                (Some(highres_image_format), Some(lowres_image_format)) => Ok(
                    HeaderView {
                        signature: u32_field(s, 0),
                        version: (major, minor),
                        header_size: u32_field(s, 12),
                        width: u16_field(s, 16),
                        height: u16_field(s, 18),
                        flags: u32_field(s, 20),
                        frames: u16_field(s, 24),
                        first_frame: u16_field(s, 26),
                        reflectivity: (u32_field(s, 32), u32_field(s, 36), u32_field(s, 40)),
                        bumpmap_scale: u32_field(s, 48),
                        highres_image_format,
                        mipmap_count: s[56],
                        lowres_image_format,
                        lowres_image_width: s[61],
                        lowres_image_height: s[62],
                        depth: if stores_depth(major, minor) {
                            u16_field(s, 63)
                        } else {
                            1
                        },
                        resources: if stores_resources(major, minor) {
                            decoded_entries(s.skip(72), count as nat)
                        } else {
                            Seq::empty()
                        },
                    },
                ),
            }
        }
    }
}

/// A position in a byte slice, from which values are taken one after
/// another.
struct Cursor<'a> {
    bytes: &'a [u8],
    pos: usize,
}

impl<'a> Cursor<'a> {
    spec fn wf(&self) -> bool {
        self.pos <= self.bytes@.len()
    }

    fn new(bytes: &'a [u8]) -> (cursor: Cursor<'a>)
        ensures
            cursor.wf(),
            cursor.bytes@ == bytes@,
            cursor.pos == 0,
    {
        Cursor { bytes, pos: 0 }
    }

    /// The next byte; the cursor stays where it is if there is none.
    fn read_u8(&mut self) -> (r: Result<u8, Error>)
        requires
            old(self).wf(),
        ensures
            final(self).wf(),
            final(self).bytes == old(self).bytes,
            old(self).pos + 1 <= old(self).bytes@.len() ==> r == Ok::<u8, Error>(
                old(self).bytes@[old(self).pos as int],
            ) && final(self).pos == old(self).pos + 1,
            old(self).pos + 1 > old(self).bytes@.len() ==> r == Err::<u8, Error>(Error::Io)
                && final(self).pos == old(self).pos,
    {
        if self.bytes.len() - self.pos < 1 {
            return Err(Error::Io);
        }
        let value: u8 = self.bytes[self.pos];
        self.pos = self.pos + 1;
        Ok(value)
    }

    /// The next two bytes as a number; the cursor stays where it is if
    /// there are fewer.
    fn read_u16(&mut self) -> (r: Result<u16, Error>)
        requires
            old(self).wf(),
        ensures
            final(self).wf(),
            final(self).bytes == old(self).bytes,
            old(self).pos + 2 <= old(self).bytes@.len() ==> r == Ok::<u16, Error>(
                u16_field(old(self).bytes@, old(self).pos as int),
            ) && final(self).pos == old(self).pos + 2,
            old(self).pos + 2 > old(self).bytes@.len() ==> r == Err::<u16, Error>(Error::Io)
                && final(self).pos == old(self).pos,
    {
        if self.bytes.len() - self.pos < 2 {
            return Err(Error::Io);
        }
        let value: u16 = u16_at(self.bytes, self.pos);
        self.pos = self.pos + 2;
        Ok(value)
    }

    /// The next four bytes as a number; the cursor stays where it is if
    /// there are fewer.
    fn read_u32(&mut self) -> (r: Result<u32, Error>)
        requires
            old(self).wf(),
        ensures
            final(self).wf(),
            final(self).bytes == old(self).bytes,
            old(self).pos + 4 <= old(self).bytes@.len() ==> r == Ok::<u32, Error>(
                u32_field(old(self).bytes@, old(self).pos as int),
            ) && final(self).pos == old(self).pos + 4,
            old(self).pos + 4 > old(self).bytes@.len() ==> r == Err::<u32, Error>(Error::Io)
                && final(self).pos == old(self).pos,
    {
        if self.bytes.len() - self.pos < 4 {
            return Err(Error::Io);
        }
        let value: u32 = u32_at(self.bytes, self.pos);
        self.pos = self.pos + 4;
        Ok(value)
    }

    /// What lies from the cursor to the end.
    fn rest(&self) -> (rest: &'a [u8])
        requires
            self.wf(),
        ensures
            rest@ == self.bytes@.skip(self.pos as int),
    {
        vstd::slice::slice_subrange(self.bytes, self.pos, self.bytes.len())
    }
}

/// The format that the stored 32 bits name.
fn format_from_field(field: u32) -> (r: Result<ImageFormat, Error>)
    ensures
        r == (match ImageFormat::from_code(field_code(field)) {
            Some(format) => Ok::<ImageFormat, Error>(format),
            None => Err(Error::InvalidImageFormat(field_code(field))),
        }),
{
    let low: u32 = field % 0x1_0000;
    let number: i16 = if low >= 0x8000 {
        (low as i32 - 0x1_0000) as i16
    } else {
        low as i16
    };
    match ImageFormat::try_from_primitive(number) {
        Ok(format) => Ok(format),
        Err(e) => Err(Error::from(e)),
    }
}

/// The 32 bits that store `format`.
fn field_from_format(format: ImageFormat) -> (field: u32)
    ensures
        field == format_field(format),
{
    let number: i16 = format.code();
    if number < 0 {
        (number as i64 + 0x1_0000_0000) as u32
    } else {
        number as u32
    }
}

impl VTFHeader {
    /// The four bytes `VTF\0`, read as a little-endian number.
    pub const SIGNATURE: u32 = 0x00465456;

    /// Reads the header at the front of `bytes`, field by field.
    pub fn read(bytes: &[u8]) -> (r: Result<VTFHeader, Error>)
        ensures
            match parse_header(bytes@) {
                Ok(view) => r matches Ok(header) && header@ == view && view.size() <= usize::MAX,
                Err(e) => r == Err::<VTFHeader, Error>(e),
            },
    {
        proof {
            lemma_parsed_size(bytes@);
            assert(bytes@.len() == bytes.len());
        }
        let mut cursor = Cursor::new(bytes);
        let signature: u32 = cursor.read_u32()?;
        if signature != Self::SIGNATURE {
            return Err(Error::InvalidSignature);
        }
        let major: u32 = cursor.read_u32()?;
        let minor: u32 = cursor.read_u32()?;
        let header_size: u32 = cursor.read_u32()?;
        let width: u16 = cursor.read_u16()?;
        let height: u16 = cursor.read_u16()?;
        let flags: u32 = cursor.read_u32()?;
        let frames: u16 = cursor.read_u16()?;
        let first_frame: u16 = cursor.read_u16()?;
        let _reserved: u32 = cursor.read_u32()?;
        let reflectivity0: u32 = cursor.read_u32()?;
        let reflectivity1: u32 = cursor.read_u32()?;
        let reflectivity2: u32 = cursor.read_u32()?;
        let _reserved: u32 = cursor.read_u32()?;
        let bumpmap_scale: u32 = cursor.read_u32()?;
        let highres_image_format: u32 = cursor.read_u32()?;
        let mipmap_count: u8 = cursor.read_u8()?;
        let lowres_image_format: u32 = cursor.read_u32()?;
        let lowres_image_width: u8 = cursor.read_u8()?;
        let lowres_image_height: u8 = cursor.read_u8()?;
        assert(cursor.pos == 63);

        let depth: u16 = if major >= 7 && minor >= 2 {
            cursor.read_u16()?
        } else {
            1
        };
        let resources = if major >= 7 && minor >= 3 {
            let _reserved: u8 = cursor.read_u8()?;
            let _reserved: u8 = cursor.read_u8()?;
            let _reserved: u8 = cursor.read_u8()?;
            let num_resources: u32 = cursor.read_u32()?;
            assert(cursor.pos == 72);
            ResourceList::read(cursor.rest(), num_resources)?
        } else {
            ResourceList::empty()
        };

        let highres_image_format = format_from_field(highres_image_format)?;
        let lowres_image_format = format_from_field(lowres_image_format)?;
        Ok(
            VTFHeader {
                signature,
                version: [major, minor],
                header_size,
                width,
                height,
                flags,
                frames,
                first_frame,
                reflectivity: [reflectivity0, reflectivity1, reflectivity2],
                bumpmap_scale,
                highres_image_format,
                mipmap_count,
                lowres_image_format,
                lowres_image_width,
                lowres_image_height,
                depth,
                resources,
            },
        )
    }

    /// Appends the signature, the version and the header size.
    fn write_version_fields(&self, bytes: &mut Vec<u8>)
        ensures
            final(bytes)@ == old(bytes)@ + self@.version_fields(),
    {
        let count: u128 = self.resources.resources.len() as u128;
        let size: u128 = if self.version[1] <= 1 {
            64
        } else {
            80 + 8 * count
        };
        put_u32(bytes, self.signature);
        put_u32(bytes, self.version[0]);
        put_u32(bytes, self.version[1]);
        put_u32(bytes, (size % 0x1_0000_0000) as u32);
        assert(bytes@ =~= old(bytes)@ + self@.version_fields());
    }

    /// Appends the size of the largest mip, the flags and the frames.
    fn write_geometry_fields(&self, bytes: &mut Vec<u8>)
        ensures
            final(bytes)@ == old(bytes)@ + self@.geometry_fields(),
    {
        put_u16(bytes, self.width);
        put_u16(bytes, self.height);
        put_u32(bytes, self.flags);
        put_u16(bytes, self.frames);
        put_u16(bytes, self.first_frame);
        assert(bytes@ =~= old(bytes)@ + self@.geometry_fields());
    }

    /// Appends the reflectivity and the bumpmap scale, each behind four
    /// zero bytes.
    fn write_surface_fields(&self, bytes: &mut Vec<u8>)
        ensures
            final(bytes)@ == old(bytes)@ + self@.surface_fields(),
    {
        put_zeros(bytes, 4);
        put_u32(bytes, self.reflectivity[0]);
        put_u32(bytes, self.reflectivity[1]);
        put_u32(bytes, self.reflectivity[2]);
        put_zeros(bytes, 4);
        put_u32(bytes, self.bumpmap_scale);
        assert(bytes@ =~= old(bytes)@ + self@.surface_fields());
    }

    /// Appends the two formats, the mipmap count and the size of the low
    /// resolution image.
    fn write_format_fields(&self, bytes: &mut Vec<u8>)
        ensures
            final(bytes)@ == old(bytes)@ + self@.format_fields(),
    {
        put_u32(bytes, field_from_format(self.highres_image_format));
        bytes.push(self.mipmap_count);
        put_u32(bytes, field_from_format(self.lowres_image_format));
        bytes.push(self.lowres_image_width);
        bytes.push(self.lowres_image_height);
        assert(bytes@ =~= old(bytes)@ + self@.format_fields());
    }

    /// Appends the header to `bytes`, field by field. The stored header
    /// size is computed anew, the reserved fields are zero, and the depth
    /// and the resource dictionary are written only for the versions that
    /// store them. This never fails.
    pub fn write(&self, bytes: &mut Vec<u8>) -> (r: Result<(), Error>)
        ensures
            r is Ok,
            final(bytes)@ == old(bytes)@ + self@.serialized(),
    {
        self.write_version_fields(bytes);
        self.write_geometry_fields(bytes);
        self.write_surface_fields(bytes);
        self.write_format_fields(bytes);
        assert(bytes@ =~= old(bytes)@ + self@.fixed_fields());

        if self.version[0] >= 7 && self.version[1] >= 2 {
            put_u16(bytes, self.depth);
        }
        assert(bytes@ =~= old(bytes)@ + (self@.fixed_fields() + self@.depth_field()));

        if self.version[0] >= 7 && self.version[1] >= 3 {
            let count: usize = self.resources.resources.len();
            let ghost before = bytes@;
            put_zeros(bytes, 3);
            put_u32(bytes, (count as u128 % 0x1_0000_0000) as u32);
            put_zeros(bytes, 8);
            self.resources.write(bytes)?;
            assert(bytes@ =~= before + self@.resource_section());
        }
        assert(bytes@ =~= old(bytes)@ + self@.serialized());
        Ok(())
    }

    /// The offset at which the image data starts where no resource says
    /// otherwise.
    pub fn size(&self) -> (size: usize)
        requires
            self@.size() <= usize::MAX,
        ensures
            size == self@.size(),
    {
        if self.version[1] <= 1 {
            64
        } else {
            80 + self.resources.resources.len() * 8
        }
    }
}

impl Clone for VTFHeader {
    /// A header with the same fields.
    fn clone(&self) -> (header: VTFHeader)
        ensures
            header@ == self@,
    {
        VTFHeader {
            signature: self.signature,
            version: self.version,
            header_size: self.header_size,
            width: self.width,
            height: self.height,
            flags: self.flags,
            frames: self.frames,
            first_frame: self.first_frame,
            reflectivity: self.reflectivity,
            bumpmap_scale: self.bumpmap_scale,
            highres_image_format: self.highres_image_format,
            mipmap_count: self.mipmap_count,
            lowres_image_format: self.lowres_image_format,
            lowres_image_width: self.lowres_image_width,
            lowres_image_height: self.lowres_image_height,
            depth: self.depth,
            resources: self.resources.clone(),
        }
    }
}

/// A field inside a group of fields is found at the sum of the two offsets.
proof fn lemma_field_within(s: Seq<u8>, group: Seq<u8>, start: int, offset: int)
    requires
        0 <= start,
        0 <= offset,
        start + group.len() <= s.len(),
        s.subrange(start, start + group.len()) == group,
    ensures
        offset + 4 <= group.len() ==> u32_field(s, start + offset) == u32_field(group, offset),
        offset + 2 <= group.len() ==> u16_field(s, start + offset) == u16_field(group, offset),
        offset + 1 <= group.len() ==> s[start + offset] == group[offset],
{
    if offset + 4 <= group.len() {
        assert(s.subrange(start + offset, start + offset + 4) =~= group.subrange(
            offset,
            offset + 4,
        ));
    }
    if offset + 2 <= group.len() {
        assert(s.subrange(start + offset, start + offset + 2) =~= group.subrange(
            offset,
            offset + 2,
        ));
    }
    if offset + 1 <= group.len() {
        assert(group[offset] == s.subrange(start, start + group.len())[offset]);
    }
}

/// Where the fields of the first group lie.
proof fn lemma_version_fields(h: HeaderView)
    ensures
        h.version_fields().len() == 16,
        u32_field(h.version_fields(), 0) == h.signature,
        u32_field(h.version_fields(), 4) == h.version.0,
        u32_field(h.version_fields(), 8) == h.version.1,
        u32_field(h.version_fields(), 12) == (h.size() % 0x1_0000_0000) as u32,
{
    let g = h.version_fields();
    let size = (h.size() % 0x1_0000_0000) as u32;
    lemma_u32_le_roundtrip(h.signature, Seq::empty());
    lemma_u32_le_roundtrip(h.version.0, Seq::empty());
    lemma_u32_le_roundtrip(h.version.1, Seq::empty());
    lemma_u32_le_roundtrip(size, Seq::empty());
    assert(g.subrange(0, 4) =~= u32_le_bytes(h.signature));
    assert(g.subrange(4, 8) =~= u32_le_bytes(h.version.0));
    assert(g.subrange(8, 12) =~= u32_le_bytes(h.version.1));
    assert(g.subrange(12, 16) =~= u32_le_bytes(size));
}

/// Where the fields of the second group lie.
proof fn lemma_geometry_fields(h: HeaderView)
    ensures
        h.geometry_fields().len() == 12,
        u16_field(h.geometry_fields(), 0) == h.width,
        u16_field(h.geometry_fields(), 2) == h.height,
        u32_field(h.geometry_fields(), 4) == h.flags,
        u16_field(h.geometry_fields(), 8) == h.frames,
        u16_field(h.geometry_fields(), 10) == h.first_frame,
{
    let g = h.geometry_fields();
    lemma_u16_le_roundtrip(h.width, Seq::empty());
    lemma_u16_le_roundtrip(h.height, Seq::empty());
    lemma_u32_le_roundtrip(h.flags, Seq::empty());
    lemma_u16_le_roundtrip(h.frames, Seq::empty());
    lemma_u16_le_roundtrip(h.first_frame, Seq::empty());
    assert(g.subrange(0, 2) =~= u16_le_bytes(h.width));
    assert(g.subrange(2, 4) =~= u16_le_bytes(h.height));
    assert(g.subrange(4, 8) =~= u32_le_bytes(h.flags));
    assert(g.subrange(8, 10) =~= u16_le_bytes(h.frames));
    assert(g.subrange(10, 12) =~= u16_le_bytes(h.first_frame));
}

/// Where the fields of the third group lie.
proof fn lemma_surface_fields(h: HeaderView)
    ensures
        h.surface_fields().len() == 24,
        u32_field(h.surface_fields(), 4) == h.reflectivity.0,
        u32_field(h.surface_fields(), 8) == h.reflectivity.1,
        u32_field(h.surface_fields(), 12) == h.reflectivity.2,
        u32_field(h.surface_fields(), 20) == h.bumpmap_scale,
{
    let g = h.surface_fields();
    lemma_u32_le_roundtrip(h.reflectivity.0, Seq::empty());
    lemma_u32_le_roundtrip(h.reflectivity.1, Seq::empty());
    lemma_u32_le_roundtrip(h.reflectivity.2, Seq::empty());
    lemma_u32_le_roundtrip(h.bumpmap_scale, Seq::empty());
    assert(g.subrange(4, 8) =~= u32_le_bytes(h.reflectivity.0));
    assert(g.subrange(8, 12) =~= u32_le_bytes(h.reflectivity.1));
    assert(g.subrange(12, 16) =~= u32_le_bytes(h.reflectivity.2));
    assert(g.subrange(20, 24) =~= u32_le_bytes(h.bumpmap_scale));
}

/// Where the fields of the fourth group lie.
proof fn lemma_format_fields(h: HeaderView)
    ensures
        h.format_fields().len() == 11,
        u32_field(h.format_fields(), 0) == format_field(h.highres_image_format),
        h.format_fields()[4] == h.mipmap_count,
        u32_field(h.format_fields(), 5) == format_field(h.lowres_image_format),
        h.format_fields()[9] == h.lowres_image_width,
        h.format_fields()[10] == h.lowres_image_height,
{
    let g = h.format_fields();
    lemma_u32_le_roundtrip(format_field(h.highres_image_format), Seq::empty());
    lemma_u32_le_roundtrip(format_field(h.lowres_image_format), Seq::empty());
    assert(g.subrange(0, 4) =~= u32_le_bytes(format_field(h.highres_image_format)));
    assert(g.subrange(5, 9) =~= u32_le_bytes(format_field(h.lowres_image_format)));
}

/// A stored format names the format that was stored.
pub proof fn lemma_format_field_roundtrip(format: ImageFormat)
    ensures
        ImageFormat::from_code(field_code(format_field(format))) == Some(format),
{
    format.lemma_code_roundtrip(0);
}

/// What the 63 bytes that every version stores say of each field.
proof fn lemma_fixed_fields(h: HeaderView, s: Seq<u8>)
    requires
        s.len() >= 63,
        s.subrange(0, 63) == h.fixed_fields(),
    ensures
        u32_field(s, 0) == h.signature,
        u32_field(s, 4) == h.version.0,
        u32_field(s, 8) == h.version.1,
        u32_field(s, 12) == (h.size() % 0x1_0000_0000) as u32,
        u16_field(s, 16) == h.width,
        u16_field(s, 18) == h.height,
        u32_field(s, 20) == h.flags,
        u16_field(s, 24) == h.frames,
        u16_field(s, 26) == h.first_frame,
        u32_field(s, 32) == h.reflectivity.0,
        u32_field(s, 36) == h.reflectivity.1,
        u32_field(s, 40) == h.reflectivity.2,
        u32_field(s, 48) == h.bumpmap_scale,
        u32_field(s, 52) == format_field(h.highres_image_format),
        s[56] == h.mipmap_count,
        u32_field(s, 57) == format_field(h.lowres_image_format),
        s[61] == h.lowres_image_width,
        s[62] == h.lowres_image_height,
{
    lemma_version_fields(h);
    lemma_geometry_fields(h);
    lemma_surface_fields(h);
    lemma_format_fields(h);
    let fixed = s.subrange(0, 63);
    assert(s.subrange(0, 16) =~= fixed.subrange(0, 16));
    assert(s.subrange(16, 28) =~= fixed.subrange(16, 28));
    assert(s.subrange(28, 52) =~= fixed.subrange(28, 52));
    assert(s.subrange(52, 63) =~= fixed.subrange(52, 63));
    assert(fixed.subrange(0, 16) =~= h.version_fields());
    assert(fixed.subrange(16, 28) =~= h.geometry_fields());
    assert(fixed.subrange(28, 52) =~= h.surface_fields());
    assert(fixed.subrange(52, 63) =~= h.format_fields());
    lemma_field_within(s, h.version_fields(), 0, 0);
    lemma_field_within(s, h.version_fields(), 0, 4);
    lemma_field_within(s, h.version_fields(), 0, 8);
    lemma_field_within(s, h.version_fields(), 0, 12);
    lemma_field_within(s, h.geometry_fields(), 16, 0);
    lemma_field_within(s, h.geometry_fields(), 16, 2);
    lemma_field_within(s, h.geometry_fields(), 16, 4);
    lemma_field_within(s, h.geometry_fields(), 16, 8);
    lemma_field_within(s, h.geometry_fields(), 16, 10);
    lemma_field_within(s, h.surface_fields(), 28, 4);
    lemma_field_within(s, h.surface_fields(), 28, 8);
    lemma_field_within(s, h.surface_fields(), 28, 12);
    lemma_field_within(s, h.surface_fields(), 28, 20);
    lemma_field_within(s, h.format_fields(), 52, 0);
    lemma_field_within(s, h.format_fields(), 52, 4);
    lemma_field_within(s, h.format_fields(), 52, 5);
    lemma_field_within(s, h.format_fields(), 52, 9);
    lemma_field_within(s, h.format_fields(), 52, 10);
}

/// What the bytes of a stored dictionary say of its entries.
proof fn lemma_resource_section(h: HeaderView, s: Seq<u8>)
    requires
        h.has_resources(),
        h.resources.len() <= u32::MAX,
        s.len() >= 80 + 8 * h.resources.len(),
        s.subrange(65, 80 + 8 * (h.resources.len() as int)) == h.resource_section(),
    ensures
        u32_field(s, 68) == h.resources.len(),
        decoded_entries(s.skip(72), h.resources.len()) == h.resources,
{
    let count = h.resources.len() as u32;
    let section = h.resource_section();
    let entries = encoded_entries(h.resources);
    lemma_u32_le_roundtrip(count, Seq::empty());
    lemma_encoded_entries_len(h.resources);
    assert(s.subrange(68, 72) =~= section.subrange(3, 7));
    assert(section.subrange(3, 7) =~= u32_le_bytes(count));
    let decoded = decoded_entries(s.skip(72), count as nat);
    assert forall|i: int| 0 <= i < h.resources.len() implies decoded[i] == h.resources[i] by {
        lemma_encoded_entry(h.resources, i);
        h.resources[i].lemma_roundtrip();
        assert(s.skip(72).subrange(8 + 8 * i, 16 + 8 * i) =~= section.subrange(
            15 + 8 * i,
            23 + 8 * i,
        ));
        assert(section.subrange(15 + 8 * i, 23 + 8 * i) =~= entries.subrange(8 * i, 8 * i + 8));
    }
    assert(decoded =~= h.resources);
}

/// A header that is written and then read comes back as it was stored:
/// every field is the one written, but for the header size, which is the
/// true one, and for what the version does not store, which has its
/// default. Bytes that follow the header do not matter.
pub proof fn lemma_write_then_read(h: HeaderView, tail: Seq<u8>)
    requires
        h.signature == VTFHeader::SIGNATURE,
        h.has_resources() ==> h.resources.len() <= u32::MAX,
    ensures
        parse_header(h.serialized() + tail) == Ok::<HeaderView, Error>(h.stored()),
{
    let s = h.serialized() + tail;
    lemma_version_fields(h);
    lemma_geometry_fields(h);
    lemma_surface_fields(h);
    lemma_format_fields(h);
    lemma_encoded_entries_len(h.resources);
    assert(h.fixed_fields().len() == 63);
    assert(s.subrange(0, 63) =~= h.fixed_fields());
    lemma_fixed_fields(h, s);
    lemma_format_field_roundtrip(h.highres_image_format);
    lemma_format_field_roundtrip(h.lowres_image_format);
    if h.has_depth() {
        lemma_u16_le_roundtrip(h.depth, Seq::empty());
        assert(s.subrange(63, 65) =~= u16_le_bytes(h.depth));
    }
    if h.has_resources() {
        lemma_u32_le_roundtrip(h.resources.len() as u32, Seq::empty());
        assert(s.subrange(65, 80 + 8 * (h.resources.len() as int)) =~= h.resource_section());
        lemma_resource_section(h, s);
    }
}

/// Writing a well-formed header and reading it again gives every field
/// back as it was. Bytes that follow the header do not matter.
pub proof fn lemma_roundtrip(h: HeaderView, tail: Seq<u8>)
    requires
        h.wf(),
    ensures
        parse_header(h.serialized() + tail) == Ok::<HeaderView, Error>(h),
{
    lemma_write_then_read(h, tail);
    assert(h.stored().resources =~= h.resources);
    assert(h.stored() == h);
}

/// A header that was read has a size that is no more than 80 or the
/// length of what it was read from, and fewer than 2^32 resources.
pub proof fn lemma_parsed_size(bytes: Seq<u8>)
    ensures
        parse_header(bytes) matches Ok(header) ==> header.size() <= 0x10_0000_0000
            && header.resources.len() <= u32::MAX && (header.size() <= 80 || header.size()
            <= bytes.len()),
{
    if let Ok(header) = parse_header(bytes) {
        let major = u32_field(bytes, 4);
        let minor = u32_field(bytes, 8);
        let count = u32_field(bytes, 68);
        assert(header.version == (major, minor));
        if stores_resources(major, minor) {
            assert(header.resources == decoded_entries(
                bytes.skip(72),
                count as nat,
            ));
            assert(header.resources.len() == count);
        } else {
            assert(header.resources == Seq::<Resource>::empty());
        }
    }
}

} // verus!
