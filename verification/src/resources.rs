//! The resource dictionary that ends the header of newer files: a list of
//! eight-byte entries, each a type tag and a 32-bit value.

use crate::endian::{le_u32, lemma_u32_le_roundtrip, put_u32, u32_at, u32_le_bytes};
use crate::Error;
use vstd::prelude::*;

verus! {

/// The tag of a resource: three identifying bytes and one byte of flags.
#[derive(Debug, Clone, Copy, PartialEq, Eq)]
pub struct ResourceType {
    pub id: [u8; 3],
    pub flags: u8,
}

impl ResourceType {
    /// The flag bit of a resource whose value is a number and not the
    /// offset of a data chunk.
    pub const HAS_NO_DATA_CHUNK: u8 = 0x02;

    /// The tag of the low resolution image.
    pub open spec fn low_res_image() -> ResourceType {
        ResourceType { id: [0x01u8, 0x00u8, 0x00u8], flags: 0 }
    }

    /// The tag of the high resolution image.
    pub open spec fn image() -> ResourceType {
        ResourceType { id: [0x30u8, 0x00u8, 0x00u8], flags: 0 }
    }

    /// The tag of the low resolution image.
    pub fn vtf_legacy_rsrc_low_res_image() -> (ty: ResourceType)
        ensures
            ty == Self::low_res_image(),
    {
        ResourceType { id: [0x01, 0x00, 0x00], flags: 0 }
    }

    /// The tag of the high resolution image.
    pub fn vtf_legacy_rsrc_image() -> (ty: ResourceType)
        ensures
            ty == Self::image(),
    {
        ResourceType { id: [0x30, 0x00, 0x00], flags: 0 }
    }

    /// Whether the value of a resource with this tag is the offset of its
    /// data chunk: the flag bit `0x02` is clear.
    pub fn has_resource_type(&self) -> (r: bool)
        ensures
            r == (self.flags & 0x02 == 0),
    {
        self.flags & Self::HAS_NO_DATA_CHUNK == 0
    }

    /// Whether two tags are the same, byte for byte.
    pub fn same(&self, other: &ResourceType) -> (r: bool)
        ensures
            r == (*self == *other),
    {
        let r: bool = self.id[0] == other.id[0] && self.id[1] == other.id[1] && self.id[2]
            == other.id[2] && self.flags == other.flags;
        proof {
            if r {
                assert(self.id =~= other.id);
            }
        }
        r
    }

    /// The four bytes of the tag as they lie in a file.
    pub open spec fn encoded(self) -> Seq<u8> {
        seq![self.id[0], self.id[1], self.id[2], self.flags]
    }

    /// The tag that the first four bytes of `s` hold.
    pub open spec fn decoded(s: Seq<u8>) -> ResourceType
        recommends
            s.len() >= 4,
    {
        ResourceType { id: [s[0], s[1], s[2]], flags: s[3] }
    }

    /// Reads a tag from the front of `bytes`; fewer than four bytes are an
    /// error.
    pub fn read(bytes: &[u8]) -> (r: Result<ResourceType, Error>)
        ensures
            bytes@.len() >= 4 ==> r == Ok::<ResourceType, Error>(Self::decoded(bytes@)),
            bytes@.len() < 4 ==> r == Err::<ResourceType, Error>(Error::Io),
    {
        if bytes.len() < 4 {
            return Err(Error::Io);
        }
        let ty = ResourceType { id: [bytes[0], bytes[1], bytes[2]], flags: bytes[3] };
        assert(ty.id =~= Self::decoded(bytes@).id);
        Ok(ty)
    }

    /// Appends the four bytes of the tag to `bytes`; this never fails.
    pub fn write(&self, bytes: &mut Vec<u8>) -> (r: Result<(), Error>)
        ensures
            r is Ok,
            final(bytes)@ == old(bytes)@ + self.encoded(),
    {
        bytes.push(self.id[0]);
        bytes.push(self.id[1]);
        bytes.push(self.id[2]);
        bytes.push(self.flags);
        assert(bytes@ =~= old(bytes)@ + self.encoded());
        Ok(())
    }

    /// A tag written and read again is the same tag.
    pub proof fn lemma_roundtrip(self)
        ensures
            self.encoded().len() == 4,
            Self::decoded(self.encoded()) == self,
    {
        assert(Self::decoded(self.encoded()).id =~= self.id);
    }
}

/// One entry of the dictionary: a tag and a checksum or an offset into the
/// file, depending on the tag.
#[derive(Debug, Clone, Copy)]
pub struct Resource {
    pub ty: ResourceType,
    pub data: u32,
}

impl Resource {
    /// The eight bytes of the entry as they lie in a file: the tag, then
    /// the value, least significant byte first.
    pub open spec fn encoded(self) -> Seq<u8> {
        self.ty.encoded() + u32_le_bytes(self.data)
    }

    /// The entry that the first eight bytes of `s` hold.
    pub open spec fn decoded(s: Seq<u8>) -> Resource
        recommends
            s.len() >= 8,
    {
        Resource { ty: ResourceType::decoded(s), data: le_u32(s.subrange(4, 8)) as u32 }
    }

    /// Reads an entry from the front of `bytes`; fewer than eight bytes are
    /// an error.
    pub fn read(bytes: &[u8]) -> (r: Result<Resource, Error>)
        ensures
            bytes@.len() >= 8 ==> r == Ok::<Resource, Error>(Self::decoded(bytes@)),
            bytes@.len() < 8 ==> r == Err::<Resource, Error>(Error::Io),
    {
        if bytes.len() < 8 {
            return Err(Error::Io);
        }
        let ty = ResourceType::read(bytes)?;
        let data: u32 = u32_at(bytes, 4);
        Ok(Resource { ty, data })
    }

    /// Appends the eight bytes of the entry to `bytes`; this never fails.
    pub fn write(&self, bytes: &mut Vec<u8>) -> (r: Result<(), Error>)
        ensures
            r is Ok,
            final(bytes)@ == old(bytes)@ + self.encoded(),
    {
        self.ty.write(bytes)?;
        put_u32(bytes, self.data);
        assert(bytes@ =~= old(bytes)@ + self.encoded());
        Ok(())
    }

    /// An entry written and read again is the same entry.
    pub proof fn lemma_roundtrip(self)
        ensures
            self.encoded().len() == 8,
            Self::decoded(self.encoded()) == self,
    {
        self.ty.lemma_roundtrip();
        lemma_u32_le_roundtrip(self.data, Seq::empty());
        assert(self.encoded().subrange(4, 8) =~= u32_le_bytes(self.data));
        assert(ResourceType::decoded(self.encoded()).id =~= self.ty.id);
    }
}

/// The dictionary: its entries in the order in which they lie in the file.
#[derive(Debug)]
pub struct ResourceList {
    pub resources: Vec<Resource>,
}

impl Clone for ResourceList {
    /// A dictionary with the same entries in the same order.
    fn clone(&self) -> (list: ResourceList)
        ensures
            list@ == self@,
    {
        let mut resources: Vec<Resource> = Vec::new();
        let mut i: usize = 0;
        while i < self.resources.len()
            invariant
                i <= self.resources@.len(),
                resources@ == self.resources@.take(i as int),
            decreases self.resources@.len() - i,
        {
            resources.push(self.resources[i]);
            i += 1;
            assert(resources@ =~= self.resources@.take(i as int));
        }
        assert(self.resources@.take(self.resources@.len() as int) =~= self.resources@);
        ResourceList { resources }
    }
}

impl View for ResourceList {
    type V = Seq<Resource>;

    open spec fn view(&self) -> Seq<Resource> {
        self.resources@
    }
}

/// The entries of `entries` one after another, as they lie in a file.
pub open spec fn encoded_entries(entries: Seq<Resource>) -> Seq<u8>
    decreases entries.len(),
{
    if entries.len() == 0 {
        Seq::empty()
    } else {
        encoded_entries(entries.drop_last()) + entries.last().encoded()
    }
}

/// The `count` entries that follow the eight reserved bytes at the front of
/// `s`.
pub open spec fn decoded_entries(s: Seq<u8>, count: nat) -> Seq<Resource>
    recommends
        s.len() >= 8 + 8 * count,
{
    Seq::new(count, |i: int| Resource::decoded(s.subrange(8 + 8 * i, 16 + 8 * i)))
}

/// The first entry of `entries` with the tag `ty`.
pub open spec fn find_by_type(entries: Seq<Resource>, ty: ResourceType) -> Option<Resource>
    decreases entries.len(),
{
    if entries.len() == 0 {
        None
    } else if entries[0].ty == ty {
        Some(entries[0])
    } else {
        find_by_type(entries.skip(1), ty)
    }
}

impl ResourceList {
    /// The dictionary without entries.
    pub fn empty() -> (list: ResourceList)
        ensures
            list@ == Seq::<Resource>::empty(),
    {
        ResourceList { resources: Vec::new() }
    }

    /// Reads a dictionary of `num_resources` entries: eight reserved bytes
    /// are passed over, then the entries are read in order. Input that ends
    /// before the last entry is an error.
    pub fn read(bytes: &[u8], num_resources: u32) -> (r: Result<ResourceList, Error>)
        ensures
            bytes@.len() >= 8 + 8 * num_resources ==> (r matches Ok(list) && list@
                == decoded_entries(bytes@, num_resources as nat)),
            bytes@.len() < 8 + 8 * num_resources ==> r matches Err(Error::Io),
    {
        let len: usize = bytes.len();
        if len < 8 {
            return Err(Error::Io);
        }
        let available: usize = (len - 8) / 8;
        let mut resources: Vec<Resource> = Vec::new();
        let mut i: u32 = 0;
        while i < num_resources
            invariant
                i <= num_resources,
                len == bytes@.len(),
                len >= 8,
                available == (len - 8) / 8,
                i <= available,
                resources@ == decoded_entries(bytes@, i as nat),
            decreases num_resources - i,
        {
            if i as usize >= available {
                return Err(Error::Io);
            }
            let start: usize = 8 + 8 * (i as usize);
            let entry = Resource::read(vstd::slice::slice_subrange(bytes, start, start + 8))?;
            resources.push(entry);
            i += 1;
            assert(resources@ =~= decoded_entries(bytes@, i as nat));
        }
        Ok(ResourceList { resources })
    }

    /// Appends the entries to `bytes` in their stored order; the eight
    /// reserved bytes before them are the caller's to write. This never
    /// fails.
    pub fn write(&self, bytes: &mut Vec<u8>) -> (r: Result<(), Error>)
        ensures
            r is Ok,
            final(bytes)@ == old(bytes)@ + encoded_entries(self@),
    {
        let mut i: usize = 0;
        while i < self.resources.len()
            invariant
                i <= self.resources@.len(),
                bytes@ == old(bytes)@ + encoded_entries(self@.take(i as int)),
            decreases self.resources@.len() - i,
        {
            let entry: &Resource = &self.resources[i];
            entry.write(bytes)?;
            proof {
                let next = self@.take(i + 1);
                assert(next.drop_last() =~= self@.take(i as int));
                assert(next.last() == self@[i as int]);
                assert(bytes@ =~= old(bytes)@ + encoded_entries(next));
            }
            i += 1;
        }
        assert(self@.take(self@.len() as int) =~= self@);
        Ok(())
    }

    /// The first entry with the tag `ty`, if there is one.
    pub fn get_by_type(&self, ty: ResourceType) -> (r: Option<&Resource>)
        ensures
            (match r {
                Some(entry) => Some(*entry),
                None => None,
            }) == find_by_type(self@, ty),
    {
        let mut i: usize = 0;
        assert(self@.skip(0) =~= self@);
        while i < self.resources.len()
            invariant
                i <= self.resources@.len(),
                find_by_type(self@, ty) == find_by_type(self@.skip(i as int), ty),
            decreases self.resources@.len() - i,
        {
            let entry: &Resource = &self.resources[i];
            proof {
                let rest = self@.skip(i as int);
                assert(rest[0] == self@[i as int]);
                assert(rest.skip(1) =~= self@.skip(i + 1));
            }
            if entry.ty.same(&ty) {
                return Some(entry);
            }
            i += 1;
        }
        None
    }
}

/// A dictionary of `n` entries takes `8 * n` bytes.
pub proof fn lemma_encoded_entries_len(entries: Seq<Resource>)
    ensures
        encoded_entries(entries).len() == 8 * entries.len(),
    decreases entries.len(),
{
    if entries.len() > 0 {
        lemma_encoded_entries_len(entries.drop_last());
        entries.last().lemma_roundtrip();
    }
}

/// The entries of a dictionary lie one after another, eight bytes each.
pub proof fn lemma_encoded_entry(entries: Seq<Resource>, i: int)
    requires
        0 <= i < entries.len(),
    ensures
        encoded_entries(entries).len() == 8 * entries.len(),
        encoded_entries(entries).subrange(8 * i, 8 * i + 8) == entries[i].encoded(),
    decreases entries.len(),
{
    let front = entries.drop_last();
    lemma_encoded_entries_len(entries);
    lemma_encoded_entries_len(front);
    entries.last().lemma_roundtrip();
    if i < front.len() {
        lemma_encoded_entry(front, i);
        assert(encoded_entries(entries).subrange(8 * i, 8 * i + 8) =~= encoded_entries(
            front,
        ).subrange(8 * i, 8 * i + 8));
    } else {
        assert(encoded_entries(entries).subrange(8 * i, 8 * i + 8) =~= entries.last().encoded());
    }
}

} // verus!
