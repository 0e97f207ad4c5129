use vstd::prelude::*;

use crate::codec::{read_u16, read_u32, u16_at, u32_at, ByteOrder};
use crate::errors::FormatError;
use crate::value::{decode_error, decode_value, spec_field_type_size, value_decodes, TagValue};

verus! {

/// Bytes in one directory entry.
pub const ENTRY_SIZE: u64 = 12;

/// Largest value size that is stored inside the entry itself.
pub const INLINE_CAPACITY: u64 = 4;

/// One 12-byte directory entry, its fields read under the resource's byte order.
#[derive(Clone, Copy, Debug, PartialEq, Eq, Structural)]
pub struct DirectoryEntry {
    pub tag: u16,
    pub field_type: u16,
    pub count: u32,
    pub value_or_offset: u32,
}

/// The entry stored in the first twelve bytes of `b`.
pub open spec fn spec_entry(order: ByteOrder, b: Seq<u8>) -> DirectoryEntry {
    DirectoryEntry {
        tag: u16_at(order, b, 0),
        field_type: u16_at(order, b, 2),
        count: u32_at(order, b, 4),
        value_or_offset: u32_at(order, b, 8),
    }
}

/// Where the value of an entry is stored.
#[derive(Clone, Copy, Debug, PartialEq, Eq, Structural)]
pub enum ValueLocation {
    /// In the last four bytes of the entry.
    Inline,
    /// `length` bytes at byte `offset` of the resource.
    External { offset: u64, length: u64 },
    /// The field type is not one of the twelve, so the value's size is unknown.
    Unsupported,
}

impl DirectoryEntry {
    /// Total size in bytes of the entry's values, if its field type is known.
    pub open spec fn total_size(self) -> Option<int> {
        match spec_field_type_size(self.field_type) {
            Some(size) => Some(self.count * size),
            None => None,
        }
    }

    /// Where the entry's value is stored: inline when it takes at most four bytes.
    pub open spec fn spec_location(self) -> ValueLocation {
        match self.total_size() {
            None => ValueLocation::Unsupported,
            Some(total) => if total <= INLINE_CAPACITY {
                ValueLocation::Inline
            } else {
                ValueLocation::External { offset: self.value_or_offset as u64, length: total as u64 }
            },
        }
    }

    /// Reads an entry from the first twelve bytes of `raw`.
    pub fn parse(raw: &[u8], order: ByteOrder) -> (r: Result<DirectoryEntry, FormatError>)
        ensures
            raw@.len() >= 12 ==> r == Ok::<DirectoryEntry, FormatError>(spec_entry(order, raw@)),
            raw@.len() < 12 ==> r == Err::<DirectoryEntry, FormatError>(
                FormatError::Truncated { needed: 12, available: raw@.len() as u64 },
            ),
    {
        if raw.len() < 12 {
            return Err(FormatError::Truncated { needed: ENTRY_SIZE, available: raw.len() as u64 });
        }
        let (tag, pos) = read_u16(raw, 0, order).unwrap();
        let (field_type, pos) = read_u16(raw, pos, order).unwrap();
        let (count, pos) = read_u32(raw, pos, order).unwrap();
        let (value_or_offset, _) = read_u32(raw, pos, order).unwrap();
        Ok(DirectoryEntry { tag, field_type, count, value_or_offset })
    }

    /// Where the entry's value is stored.
    pub fn location(&self) -> (r: ValueLocation)
        ensures
            r == self.spec_location(),
    {
        match crate::value::field_type_size(self.field_type) {
            None => ValueLocation::Unsupported,
            Some(size) => {
                let total = self.count as u64 * size;
                if total <= INLINE_CAPACITY {
                    ValueLocation::Inline
                } else {
                    ValueLocation::External { offset: self.value_or_offset as u64, length: total }
                }
            },
        }
    }
}

/// An inline value is decoded from the entry's own last four bytes, whatever was fetched.
pub proof fn lemma_inline_value_bytes(order: ByteOrder, raw: Seq<u8>, fetched: Seq<u8>)
    requires
        spec_entry(order, raw).spec_location() is Inline,
    ensures
        value_bytes(order, raw, fetched) == raw.subrange(8, 12),
{
}

/// Whether geotiff's table of TIFF and GeoTIFF tags names the tag id `tag`.
pub uninterp spec fn geotiff_tag_known(tag: u16) -> bool;

/// Relies on `geotiff::tiff::decode_tag`: it returns the tag of its table that has the id,
/// and `None` for an id that the table does not hold.
#[verifier::external_body]
pub(crate) fn is_known_tag(tag: u16) -> (r: bool)
    ensures
        r == geotiff_tag_known(tag),
{
    geotiff::tiff::decode_tag(tag).is_some()
}

/// Inline versus offset storage: a value of at most four bytes is read from the entry itself,
/// and a larger one is read as exactly its total size at the stored offset.
pub proof fn lemma_inline_boundary(d: DirectoryEntry)
    requires
        d.total_size() is Some,
    ensures
        d.total_size()->Some_0 <= 4 ==> d.spec_location() is Inline,
        d.total_size()->Some_0 > 4 ==> d.spec_location() == (ValueLocation::External {
            offset: d.value_or_offset as u64,
            length: d.total_size()->Some_0 as u64,
        }),
        d.total_size()->Some_0 == 4 ==> d.spec_location() is Inline,
        d.total_size()->Some_0 == 5 ==> d.spec_location() == (ValueLocation::External {
            offset: d.value_or_offset as u64,
            length: 5,
        }),
{
}

/// A directory entry with its resolved value.
#[derive(Clone, Debug, PartialEq)]
pub struct IfdEntry {
    pub entry: DirectoryEntry,
    /// Whether the tag id is one of the known TIFF and GeoTIFF tags.
    pub known_tag: bool,
    /// The decoded value; `None` when the field type is not one of the twelve.
    pub value: Option<TagValue>,
}

/// `e` is the resolution of the entry in `raw` (twelve bytes), with `known_tag` as given
/// and the value decoded from `stored`: the inline bytes or the bytes fetched at the offset.
pub open spec fn entry_resolves(
    e: IfdEntry,
    order: ByteOrder,
    raw: Seq<u8>,
    known_tag: bool,
    stored: Seq<u8>,
) -> bool {
    let d = spec_entry(order, raw);
    &&& e.entry == d
    &&& e.known_tag == known_tag
    &&& match e.value {
        None => d.spec_location() is Unsupported,
        Some(v) => value_decodes(v, d.field_type, order, stored, d.count as nat),
    }
}

/// The bytes the value of the entry in `raw` is decoded from, given the bytes `fetched`
/// at its offset: the last four bytes of the entry when it is stored inline.
pub open spec fn value_bytes(order: ByteOrder, raw: Seq<u8>, fetched: Seq<u8>) -> Seq<u8> {
    if spec_entry(order, raw).spec_location() is Inline {
        raw.subrange(8, 12)
    } else {
        fetched
    }
}

/// Resolves the twelve-byte entry `raw`. `known_tag` says whether its tag id is known;
/// `fetched` holds the bytes at the value's offset when the value is not inline (it is not
/// read otherwise). A field type outside the twelve leaves the value undecoded; any other
/// decoding failure is an error.
pub fn resolve_entry(raw: &[u8], order: ByteOrder, known_tag: bool, fetched: &[u8]) -> (r: Result<
    IfdEntry,
    FormatError,
>)
    requires
        raw@.len() == 12,
    ensures
        ({
            let d = spec_entry(order, raw@);
            let stored = value_bytes(order, raw@, fetched@);
            if d.spec_location() is Unsupported {
                r matches Ok(e) && entry_resolves(e, order, raw@, known_tag, stored)
            } else {
                match decode_error(d.field_type, stored, d.count as nat) {
                    Some(err) => r == Err::<IfdEntry, FormatError>(err),
                    None => r matches Ok(e) && entry_resolves(e, order, raw@, known_tag, stored),
                }
            }
        }),
{
    let entry = DirectoryEntry::parse(raw, order).unwrap();
    let value = match entry.location() {
        ValueLocation::Unsupported => None,
        ValueLocation::Inline => {
            let inline = &raw[8..12];
            assert(inline@ == raw@.subrange(8, 12));
            Some(decode_value(entry.field_type, inline, order, entry.count)?)
        },
        ValueLocation::External { .. } => Some(
            decode_value(entry.field_type, fetched, order, entry.count)?,
        ),
    };
    Ok(IfdEntry { entry, known_tag, value })
}

} // verus!
