use vstd::prelude::*;

use crate::codec::{combine_u16, read_u16, read_u32, spec_u16, u16_at, u32_at, ByteOrder};
use crate::entry::{entry_resolves, geotiff_tag_known, spec_entry, value_bytes, IfdEntry, ValueLocation};
use crate::errors::{CogErr, FormatError, LogicError};
use crate::parser::{entry_position, CogParser, Phase, Step};
use crate::reader::{lookup_from, FetchRequest, Reader, Segment};
use crate::value::decode_error;

verus! {

/// Bytes in the resource header.
pub const HEADER_SIZE: u64 = 8;

/// The value of bytes 2-3 of every TIFF resource.
pub const TIFF_MAGIC: u16 = 42;

/// Default limit on the number of directories in one chain.
pub const DEFAULT_MAX_IFDS: u64 = 1024;

/// The 8-byte resource header.
#[derive(Clone, Copy, Debug, PartialEq, Eq, Structural)]
pub struct CogHeader {
    pub byteorder: ByteOrder,
    pub ifd_offset: u32,
}

/// The header under a known byte order: the magic number must be 42.
pub open spec fn spec_header_with(order: ByteOrder, b: Seq<u8>) -> Result<CogHeader, FormatError> {
    let magic = u16_at(order, b, 2);
    if magic != TIFF_MAGIC {
        Err(FormatError::BadMagic { found: magic })
    } else {
        Ok(CogHeader { byteorder: order, ifd_offset: u32_at(order, b, 4) })
    }
}

/// The header stored in the first eight bytes of `b`.
pub open spec fn spec_header(b: Seq<u8>) -> Result<CogHeader, FormatError> {
    if b.len() < HEADER_SIZE {
        Err(FormatError::Truncated { needed: HEADER_SIZE, available: b.len() as u64 })
    } else if b[0] == 0x49 && b[1] == 0x49 {
        spec_header_with(ByteOrder::LittleEndian, b)
    } else if b[0] == 0x4D && b[1] == 0x4D {
        spec_header_with(ByteOrder::BigEndian, b)
    } else {
        Err(FormatError::BadByteOrderMarker { found: spec_u16(ByteOrder::BigEndian, b[0], b[1]) })
    }
}

impl CogHeader {
    /// Reads the header: byte-order marker `II` or `MM`, magic number 42, first IFD offset.
    pub fn new(buf: &[u8]) -> (r: Result<CogHeader, FormatError>)
        ensures
            r == spec_header(buf@),
    {
        if buf.len() < 8 {
            return Err(FormatError::Truncated { needed: HEADER_SIZE, available: buf.len() as u64 });
        }
        if buf[0] == 0x49 && buf[1] == 0x49 {
            CogHeader::parse(buf, ByteOrder::LittleEndian)
        } else if buf[0] == 0x4D && buf[1] == 0x4D {
            CogHeader::parse(buf, ByteOrder::BigEndian)
        } else {
            Err(
                FormatError::BadByteOrderMarker {
                    found: combine_u16(ByteOrder::BigEndian, buf[0], buf[1]),
                },
            )
        }
    }

    fn parse(buf: &[u8], byteorder: ByteOrder) -> (r: Result<CogHeader, FormatError>)
        requires
            buf@.len() >= 8,
        ensures
            r == spec_header_with(byteorder, buf@),
    {
        let (magic, pos) = read_u16(buf, 2, byteorder).unwrap();
        if magic != TIFF_MAGIC {
            return Err(FormatError::BadMagic { found: magic });
        }
        let (ifd_offset, _) = read_u32(buf, pos, byteorder).unwrap();
        Ok(CogHeader { byteorder, ifd_offset })
    }
}

/// One image file directory.
#[derive(Clone, Debug, PartialEq)]
pub struct IFD {
    /// Byte offset of the directory in the resource.
    pub offset: u32,
    /// Number of entries, as stored.
    pub count: u16,
    /// The entries in stored order, with their values.
    pub entries: Vec<IfdEntry>,
    /// Offset of the next directory; 0 ends the chain.
    pub next_ifd_offset: u32,
}

/// Something the parse met and went past.
#[derive(Clone, Copy, Debug, PartialEq, Eq, Structural)]
pub enum Warning {
    /// Directory `directory` holds an entry whose tag id is not a known tag.
    UnknownTag { directory: usize, tag: u16 },
    /// Directory `directory` holds an entry whose field type is not one of the twelve.
    UnsupportedFieldType { directory: usize, tag: u16, field_type: u16 },
}

/// The warnings that a resolved entry of directory `directory` gives.
pub open spec fn entry_warnings(directory: int, e: IfdEntry) -> Seq<Warning> {
    (if e.known_tag {
        Seq::empty()
    } else {
        seq![Warning::UnknownTag { directory: directory as usize, tag: e.entry.tag }]
    }) + (if e.value is Some {
        Seq::empty()
    } else {
        seq![
            Warning::UnsupportedFieldType {
                directory: directory as usize,
                tag: e.entry.tag,
                field_type: e.entry.field_type,
            },
        ]
    })
}

/// The metadata of a whole resource: its header and its directories in chain order.
#[derive(Clone, Debug, PartialEq)]
pub struct Cog {
    pub header: CogHeader,
    pub ifds: Vec<IFD>,
    pub warnings: Vec<Warning>,
}

/// Rank of a phase in the order the parse moves through one directory.
pub open spec fn phase_rank(p: Phase) -> int {
    match p {
        Phase::Header => 0x30000,
        Phase::EntryCount { .. } => 0x20002,
        Phase::Entries { count, index, .. } => 2 + count - index,
        Phase::NextOffset { .. } => 1,
        _ => 0,
    }
}

/// Offset of the directory the phase is reading.
pub open spec fn phase_offset(p: Phase) -> Option<u32> {
    match p {
        Phase::EntryCount { offset } => Some(offset),
        Phase::Entries { offset, .. } => Some(offset),
        Phase::NextOffset { offset, .. } => Some(offset),
        _ => None,
    }
}

/// `e` is the entry stored at `pos` of `buffer`, resolved with its value read from
/// `buffer` (inline, or at its offset).
pub open spec fn entry_in_buffer(e: IfdEntry, order: ByteOrder, buffer: Seq<u8>, pos: int) -> bool {
    let raw = buffer.subrange(pos, pos + 12);
    let d = spec_entry(order, raw);
    let fetched = match d.spec_location() {
        ValueLocation::External { offset, length } => buffer.subrange(
            offset as int,
            offset + length,
        ),
        _ => Seq::empty(),
    };
    entry_resolves(e, order, raw, geotiff_tag_known(d.tag), value_bytes(order, raw, fetched))
}

/// The first `n` entries of the directory at `offset` are as stored in `buffer`.
pub open spec fn entries_in_buffer(
    entries: Seq<IfdEntry>,
    n: int,
    order: ByteOrder,
    buffer: Seq<u8>,
    offset: u32,
) -> bool {
    &&& entries.len() == n
    &&& forall|j: int|
        0 <= j < n ==> entry_in_buffer(#[trigger] entries[j], order, buffer, entry_position(offset, j))
}

/// `d` is the directory stored at its offset in `buffer`: its count, every entry, and the
/// next-directory pointer after them.
pub open spec fn directory_in_buffer(d: IFD, order: ByteOrder, buffer: Seq<u8>) -> bool {
    &&& d.count == u16_at(order, buffer, d.offset as int)
    &&& entries_in_buffer(d.entries@, d.count as int, order, buffer, d.offset)
    &&& d.next_ifd_offset == u32_at(order, buffer, entry_position(d.offset, d.count as int))
}

/// The directories read so far form the chain that starts at the header's offset.
pub open spec fn chain_so_far(p: CogParser, buffer: Seq<u8>) -> bool {
    let h = spec_header(buffer)->Ok_0;
    let ifds = p.ifds@;
    &&& !(p.phase is Failed)
    &&& p.phase is Header ==> ifds.len() == 0
    &&& !(p.phase is Header) ==> spec_header(buffer) is Ok && p.header == Some(h)
    &&& ifds.len() > 0 ==> ifds[0].offset == h.ifd_offset
    &&& forall|k: int|
        0 <= k < ifds.len() - 1 ==> #[trigger] ifds[k].next_ifd_offset == ifds[k + 1].offset
            && ifds[k].next_ifd_offset != 0
    &&& phase_offset(p.phase) matches Some(o) ==> {
        &&& ifds.len() == 0 ==> o == h.ifd_offset
        &&& ifds.len() > 0 ==> o == ifds.last().next_ifd_offset && o != 0
    }
    &&& p.phase is Done ==> ifds.len() > 0 && ifds.last().next_ifd_offset == 0
    &&& forall|k: int| 0 <= k < ifds.len() ==> directory_in_buffer(#[trigger] ifds[k], h.byteorder, buffer)
    &&& p.phase matches Phase::Entries { offset, count, index } ==> {
        &&& count == u16_at(h.byteorder, buffer, offset as int)
        &&& entries_in_buffer(p.entries@, index as int, h.byteorder, buffer, offset)
    }
    &&& p.phase matches Phase::NextOffset { offset, count } ==> {
        &&& count == u16_at(h.byteorder, buffer, offset as int)
        &&& entries_in_buffer(p.entries@, count as int, h.byteorder, buffer, offset)
    }
}

proof fn lemma_single_segment_cached(r: Reader, seg: Segment, offset: int, length: int)
    requires
        r.spec_segments() == seq![seg],
        seg.start == 0,
        0 <= offset,
        0 <= length,
    ensures
        offset + length <= seg.data@.len() ==> r.cached(offset, length) == Some(
            seg.data@.subrange(offset, offset + length),
        ),
        offset + length > seg.data@.len() ==> r.cached(offset, length) is None,
{
    reveal_with_fuel(lookup_from, 2);
}

/// The error for `needed` bytes at `at` of a buffer of `len` bytes that holds fewer.
pub open spec fn past_end(needed: int, at: int, len: int) -> CogErr {
    CogErr::Format(
        FormatError::Truncated {
            needed: needed as u64,
            available: if at <= len {
                (len - at) as u64
            } else {
                0
            },
        },
    )
}

/// The error, if any, of the entry stored at `pos` of `buffer`: its twelve bytes or its value
/// range run past the end, or its value does not decode.
pub open spec fn entry_error(buffer: Seq<u8>, order: ByteOrder, pos: int) -> Option<CogErr> {
    if pos + 12 > buffer.len() {
        Some(past_end(12, pos, buffer.len() as int))
    } else {
        let raw = buffer.subrange(pos, pos + 12);
        let d = spec_entry(order, raw);
        match d.spec_location() {
            ValueLocation::Unsupported => None,
            ValueLocation::Inline => match decode_error(
                d.field_type,
                value_bytes(order, raw, Seq::empty()),
                d.count as nat,
            ) {
                Some(e) => Some(CogErr::Format(e)),
                None => None,
            },
            ValueLocation::External { offset, length } => if offset + length > buffer.len() {
                Some(past_end(length as int, offset as int, buffer.len() as int))
            } else {
                match decode_error(
                    d.field_type,
                    buffer.subrange(offset as int, offset + length),
                    d.count as nat,
                ) {
                    Some(e) => Some(CogErr::Format(e)),
                    None => None,
                }
            },
        }
    }
}

/// Offsets of the directories in `ifds`, in order.
pub open spec fn ifd_offsets(ifds: Seq<IFD>) -> Seq<u32> {
    Seq::new(ifds.len(), |k: int| ifds[k].offset)
}

/// Outcome of walking the chain from the directory at `offset`, after the directories at
/// `visited`: the offsets of the whole chain, or the first error met.
pub open spec fn walk_chain(
    buffer: Seq<u8>,
    order: ByteOrder,
    offset: u32,
    visited: Seq<u32>,
    max_ifds: u64,
) -> Result<Seq<u32>, CogErr>
    decreases max_ifds - visited.len(), 0x20000int,
{
    if visited.len() >= max_ifds {
        Err(CogErr::Logic(LogicError::TooManyDirectories { limit: max_ifds }))
    } else if visited.contains(offset) {
        Err(CogErr::Logic(LogicError::DirectoryCycle { offset }))
    } else if offset + 2 > buffer.len() {
        Err(past_end(2, offset as int, buffer.len() as int))
    } else {
        walk_entries(
            buffer,
            order,
            offset,
            u16_at(order, buffer, offset as int),
            0,
            visited,
            max_ifds,
        )
    }
}

/// Outcome of walking the chain from entry `index` of the `count` entries of the directory
/// at `offset`.
pub open spec fn walk_entries(
    buffer: Seq<u8>,
    order: ByteOrder,
    offset: u32,
    count: u16,
    index: int,
    visited: Seq<u32>,
    max_ifds: u64,
) -> Result<Seq<u32>, CogErr>
    decreases max_ifds - visited.len(), 2 + if index < count {
        count - index
    } else {
        0
    },
{
    if index < count {
        match entry_error(buffer, order, entry_position(offset, index)) {
            Some(e) => Err(e),
            None => walk_entries(buffer, order, offset, count, index + 1, visited, max_ifds),
        }
    } else {
        walk_next(buffer, order, offset, count, visited, max_ifds)
    }
}

/// Outcome of walking the chain from the next-directory pointer of the directory at `offset`.
pub open spec fn walk_next(
    buffer: Seq<u8>,
    order: ByteOrder,
    offset: u32,
    count: u16,
    visited: Seq<u32>,
    max_ifds: u64,
) -> Result<Seq<u32>, CogErr>
    decreases max_ifds - visited.len(), 1int,
{
    let pos = entry_position(offset, count as int);
    if pos + 4 > buffer.len() {
        Err(past_end(4, pos, buffer.len() as int))
    } else {
        let next = u32_at(order, buffer, pos);
        if next == 0 {
            Ok(visited.push(offset))
        } else if visited.len() + 1 >= max_ifds {
            Err(CogErr::Logic(LogicError::TooManyDirectories { limit: max_ifds }))
        } else {
            walk_chain(buffer, order, next, visited.push(offset), max_ifds)
        }
    }
}

/// Outcome of parsing the document in `buffer` with at most `max_ifds` directories: the
/// offsets of its directory chain, or the first error met. The walk fails on a header error,
/// on a count, entry, value or pointer that runs past the end (`Truncated`), on a value that
/// does not decode, on a directory read twice (`DirectoryCycle`), and on a chain longer
/// than `max_ifds` (`TooManyDirectories`).
pub open spec fn spec_parse_buffer(buffer: Seq<u8>, max_ifds: u64) -> Result<Seq<u32>, CogErr> {
    match spec_header(buffer) {
        Err(e) => Err(CogErr::Format(e)),
        Ok(h) => walk_chain(buffer, h.byteorder, h.ifd_offset, Seq::empty(), max_ifds),
    }
}

/// Outcome of the parse from the state `p` on.
pub open spec fn state_outcome(p: CogParser, buffer: Seq<u8>) -> Result<Seq<u32>, CogErr> {
    let order = p.order();
    let visited = ifd_offsets(p.ifds@);
    match p.phase {
        Phase::Header => spec_parse_buffer(buffer, p.max_ifds),
        Phase::EntryCount { offset } => walk_chain(buffer, order, offset, visited, p.max_ifds),
        Phase::Entries { offset, count, index } => walk_entries(
            buffer,
            order,
            offset,
            count,
            index as int,
            visited,
            p.max_ifds,
        ),
        Phase::NextOffset { offset, count } => walk_next(
            buffer,
            order,
            offset,
            count,
            visited,
            p.max_ifds,
        ),
        _ => Ok(visited),
    }
}

/// `cog` is the document stored in `buffer`: its header, and its directory chain from the
/// header's offset to the first zero next pointer, at most `max_ifds` long, every directory
/// as stored.
pub open spec fn parsed_from(cog: Cog, buffer: Seq<u8>, max_ifds: u64) -> bool {
    let order = cog.header.byteorder;
    let ifds = cog.ifds@;
    &&& spec_header(buffer) == Ok::<CogHeader, FormatError>(cog.header)
    &&& 1 <= ifds.len() <= max_ifds
    &&& ifds[0].offset == cog.header.ifd_offset
    &&& ifds.last().next_ifd_offset == 0
    &&& forall|k: int|
        0 <= k < ifds.len() - 1 ==> #[trigger] ifds[k].next_ifd_offset == ifds[k + 1].offset
            && ifds[k].next_ifd_offset != 0
    &&& forall|k: int| 0 <= k < ifds.len() ==> directory_in_buffer(#[trigger] ifds[k], order, buffer)
}

proof fn lemma_entries_valid(
    buffer: Seq<u8>,
    order: ByteOrder,
    offset: u32,
    count: u16,
    index: int,
    visited: Seq<u32>,
    max_ifds: u64,
)
    requires
        0 <= index <= count,
        forall|j: int|
            index <= j < count ==> #[trigger] entry_error(buffer, order, entry_position(offset, j))
                is None,
    ensures
        walk_entries(buffer, order, offset, count, index, visited, max_ifds) == walk_next(
            buffer,
            order,
            offset,
            count,
            visited,
            max_ifds,
        ),
    decreases count - index,
{
    if index < count {
        assert(entry_error(buffer, order, entry_position(offset, index)) is None);
        lemma_entries_valid(buffer, order, offset, count, index + 1, visited, max_ifds);
    }
}

/// Chain termination: when the first directory lies in the buffer with entries that all
/// resolve, and its next pointer is 0, the parse ends after that one directory.
pub proof fn lemma_single_directory_chain(buffer: Seq<u8>, max_ifds: u64)
    requires
        spec_header(buffer) is Ok,
        max_ifds >= 1,
        ({
            let h = spec_header(buffer)->Ok_0;
            let order = h.byteorder;
            let offset = h.ifd_offset;
            let count = u16_at(order, buffer, offset as int);
            let pos = entry_position(offset, count as int);
            &&& offset + 2 <= buffer.len()
            &&& forall|j: int|
                0 <= j < count ==> #[trigger] entry_error(buffer, order, entry_position(offset, j))
                    is None
            &&& pos + 4 <= buffer.len()
            &&& u32_at(order, buffer, pos) == 0
        }),
    ensures
        spec_parse_buffer(buffer, max_ifds) == Ok::<Seq<u32>, CogErr>(
            seq![spec_header(buffer)->Ok_0.ifd_offset],
        ),
{
    let h = spec_header(buffer)->Ok_0;
    let count = u16_at(h.byteorder, buffer, h.ifd_offset as int);
    lemma_entries_valid(buffer, h.byteorder, h.ifd_offset, count, 0, Seq::empty(), max_ifds);
    assert(Seq::<u32>::empty().push(h.ifd_offset) =~= seq![h.ifd_offset]);
}

/// A step from `before` to `after` with result `step` leaves the outcome of the parse as it
/// was: a step that continues keeps it, and a failing step, a fetch past the end of the
/// buffer, or the end of the parse, is that outcome.
pub open spec fn step_keeps_outcome(
    before: CogParser,
    after: CogParser,
    step: Result<Step, CogErr>,
    buffer: Seq<u8>,
) -> bool {
    &&& step == Ok::<Step, CogErr>(Step::Continue) ==> state_outcome(after, buffer)
        == state_outcome(before, buffer)
    &&& step matches Err(x) ==> state_outcome(before, buffer) == Err::<Seq<u32>, CogErr>(x)
    &&& step matches Ok(Step::Fetch(req)) ==> state_outcome(before, buffer) == Err::<
        Seq<u32>,
        CogErr,
    >(past_end(req.needed as int, req.offset as int, buffer.len() as int))
    &&& step == Ok::<Step, CogErr>(Step::Done) ==> state_outcome(before, buffer) == Ok::<
        Seq<u32>,
        CogErr,
    >(ifd_offsets(before.ifds@))
}

proof fn lemma_outcome_header(
    before: CogParser,
    after: CogParser,
    step: Result<Step, CogErr>,
    buffer: Seq<u8>,
    seg: Segment,
)
    requires
        before.wf(),
        chain_so_far(before, buffer),
        before.reader.spec_segments() == seq![seg],
        seg.start == 0,
        seg.data@ == buffer,
        before.spec_step(after, step),
        before.phase == (Phase::Header),
    ensures
        step_keeps_outcome(before, after, step, buffer),
{
    let visited = ifd_offsets(before.ifds@);
    let order = before.order();

    lemma_single_segment_cached(before.reader, seg, 0, 8);
    if buffer.len() >= 8 {
        let b = buffer.subrange(0, 8);
        assert(b[0] == buffer[0] && b[1] == buffer[1] && b[2] == buffer[2] && b[3]
            == buffer[3]);
        assert(b[4] == buffer[4] && b[5] == buffer[5] && b[6] == buffer[6] && b[7]
            == buffer[7]);
        assert(spec_header(b) == spec_header(buffer));
    }
    if step == Ok::<Step, CogErr>(Step::Continue) {
        assert(ifd_offsets(after.ifds@) =~= Seq::<u32>::empty());
    }
}

proof fn lemma_outcome_entry_count(
    before: CogParser,
    after: CogParser,
    step: Result<Step, CogErr>,
    buffer: Seq<u8>,
    seg: Segment,
    offset: u32,
)
    requires
        before.wf(),
        chain_so_far(before, buffer),
        before.reader.spec_segments() == seq![seg],
        seg.start == 0,
        seg.data@ == buffer,
        before.spec_step(after, step),
        before.phase == (Phase::EntryCount { offset }),
    ensures
        step_keeps_outcome(before, after, step, buffer),
{
    let visited = ifd_offsets(before.ifds@);
    let order = before.order();

    if exists|k: int| 0 <= k < before.ifds@.len() && #[trigger] before.ifds@[k].offset
        == offset {
        let k = choose|k: int|
            0 <= k < before.ifds@.len() && #[trigger] before.ifds@[k].offset == offset;
        assert(visited[k] == offset);
    }
    if visited.contains(offset) {
        let i = choose|i: int| 0 <= i < visited.len() && visited[i] == offset;
        assert(before.ifds@[i].offset == offset);
    }
    lemma_single_segment_cached(before.reader, seg, offset as int, 2);
    let b = buffer.subrange(offset as int, offset + 2);
    if offset + 2 <= buffer.len() {
        assert(b[0] == buffer[offset as int] && b[1] == buffer[offset + 1]);
    }
}

#[verifier::rlimit(100)]
proof fn lemma_outcome_entries(
    before: CogParser,
    after: CogParser,
    step: Result<Step, CogErr>,
    buffer: Seq<u8>,
    seg: Segment,
    offset: u32,
    count: u16,
    index: u16,
)
    requires
        before.wf(),
        chain_so_far(before, buffer),
        before.reader.spec_segments() == seq![seg],
        seg.start == 0,
        seg.data@ == buffer,
        before.spec_step(after, step),
        before.phase == (Phase::Entries { offset, count, index }),
    ensures
        step_keeps_outcome(before, after, step, buffer),
{
    let visited = ifd_offsets(before.ifds@);
    let order = before.order();

    let pos = entry_position(offset, index as int);
    lemma_single_segment_cached(before.reader, seg, pos, 12);
    if pos + 12 <= buffer.len() {
        let raw = buffer.subrange(pos, pos + 12);
        match spec_entry(order, raw).spec_location() {
            ValueLocation::External { offset: at, length } => {
                lemma_single_segment_cached(before.reader, seg, at as int, length as int);
            },
            _ => {},
        }
    }
    let max = before.max_ifds;
    assert(ifd_offsets(after.ifds@) == visited) by {
        if !(step is Err) && !(step matches Ok(Step::Fetch(_))) {
            assert(after.ifds == before.ifds);
        }
    }
    if step == Ok::<Step, CogErr>(Step::Continue) {
        assert(entry_error(buffer, order, pos) is None);
        assert(walk_entries(buffer, order, offset, count, index as int, visited, max)
            == walk_entries(buffer, order, offset, count, index + 1, visited, max));
        if index + 1 == count {
            assert(walk_entries(buffer, order, offset, count, count as int, visited, max)
                == walk_next(buffer, order, offset, count, visited, max));
        }
    }
}

proof fn lemma_outcome_next_offset(
    before: CogParser,
    after: CogParser,
    step: Result<Step, CogErr>,
    buffer: Seq<u8>,
    seg: Segment,
    offset: u32,
    count: u16,
)
    requires
        before.wf(),
        chain_so_far(before, buffer),
        before.reader.spec_segments() == seq![seg],
        seg.start == 0,
        seg.data@ == buffer,
        before.spec_step(after, step),
        before.phase == (Phase::NextOffset { offset, count }),
    ensures
        step_keeps_outcome(before, after, step, buffer),
{
    let visited = ifd_offsets(before.ifds@);
    let order = before.order();

    let pos = entry_position(offset, count as int);
    lemma_single_segment_cached(before.reader, seg, pos, 4);
    if pos + 4 <= buffer.len() {
        let b = buffer.subrange(pos, pos + 4);
        assert(b[0] == buffer[pos] && b[1] == buffer[pos + 1] && b[2] == buffer[pos + 2]
            && b[3] == buffer[pos + 3]);
        if step == Ok::<Step, CogErr>(Step::Continue) {
            assert(ifd_offsets(after.ifds@) =~= visited.push(offset));
        }
    }
}

proof fn lemma_step_outcome(
    before: CogParser,
    after: CogParser,
    step: Result<Step, CogErr>,
    buffer: Seq<u8>,
    seg: Segment,
)
    requires
        before.wf(),
        chain_so_far(before, buffer),
        before.reader.spec_segments() == seq![seg],
        seg.start == 0,
        seg.data@ == buffer,
        before.spec_step(after, step),
    ensures
        step_keeps_outcome(before, after, step, buffer),
{
    match before.phase {
        Phase::Header => lemma_outcome_header(before, after, step, buffer, seg),
        Phase::EntryCount { offset } => lemma_outcome_entry_count(
            before,
            after,
            step,
            buffer,
            seg,
            offset,
        ),
        Phase::Entries { offset, count, index } => lemma_outcome_entries(
            before,
            after,
            step,
            buffer,
            seg,
            offset,
            count,
            index,
        ),
        Phase::NextOffset { offset, count } => lemma_outcome_next_offset(
            before,
            after,
            step,
            buffer,
            seg,
            offset,
            count,
        ),
        _ => {},
    }
}

#[verifier::rlimit(40)]
proof fn lemma_driver_step(
    before: CogParser,
    after: CogParser,
    step: Result<Step, CogErr>,
    buffer: Seq<u8>,
    seg: Segment,
)
    requires
        before.wf(),
        chain_so_far(before, buffer),
        before.reader.spec_segments() == seq![seg],
        seg.start == 0,
        seg.data@ == buffer,
        before.spec_step(after, step),
    ensures
        step == Ok::<Step, CogErr>(Step::Continue) ==> chain_so_far(after, buffer),
        step == Ok::<Step, CogErr>(Step::Done) ==> after == before && before.phase is Done,
        step matches Err(x) ==> !(x is Transport),
        spec_header(buffer) matches Err(e) ==> match step {
            Ok(Step::Fetch(req)) => req.offset == 0 && req.needed == HEADER_SIZE && buffer.len()
                < HEADER_SIZE && e == (FormatError::Truncated {
                needed: HEADER_SIZE,
                available: buffer.len() as u64,
            }),
            Err(x) => x == CogErr::Format(e),
            _ => false,
        },
{
    if before.phase is Header {
        lemma_single_segment_cached(before.reader, seg, 0, 8);
        if buffer.len() >= 8 {
            let b = buffer.subrange(0, 8);
            assert(b[0] == buffer[0] && b[1] == buffer[1] && b[2] == buffer[2]
                && b[3] == buffer[3]);
            assert(b[4] == buffer[4] && b[5] == buffer[5] && b[6] == buffer[6]
                && b[7] == buffer[7]);
            assert(spec_header(b) == spec_header(buffer));
        }
    }
    let order = spec_header(buffer)->Ok_0.byteorder;
    if step == Ok::<Step, CogErr>(Step::Continue) {
        match before.phase {
            Phase::EntryCount { offset } => {
                lemma_single_segment_cached(before.reader, seg, offset as int, 2);
                let b = buffer.subrange(offset as int, offset + 2);
                assert(b[0] == buffer[offset as int] && b[1] == buffer[offset + 1]);
                assert forall|k: int| 0 <= k < after.ifds@.len() implies directory_in_buffer(
                    #[trigger] after.ifds@[k],
                    order,
                    buffer,
                ) by {
                    assert(before.ifds@[k] == after.ifds@[k]);
                }
            },
            Phase::Entries { offset, count, index } => {
                let pos = entry_position(offset, index as int);
                lemma_single_segment_cached(before.reader, seg, pos, 12);
                let raw = buffer.subrange(pos, pos + 12);
                match spec_entry(order, raw).spec_location() {
                    ValueLocation::External { offset: at, length } => {
                        lemma_single_segment_cached(
                            before.reader,
                            seg,
                            at as int,
                            length as int,
                        );
                    },
                    _ => {},
                }
                assert forall|j: int| 0 <= j < index + 1 implies entry_in_buffer(
                    #[trigger] after.entries@[j],
                    order,
                    buffer,
                    entry_position(offset, j),
                ) by {
                    if j < index {
                        assert(after.entries@.take(index as int)[j] == after.entries@[j]);
                        assert(before.entries@[j] == after.entries@[j]);
                    }
                }
                assert forall|k: int| 0 <= k < after.ifds@.len() implies directory_in_buffer(
                    #[trigger] after.ifds@[k],
                    order,
                    buffer,
                ) by {
                    assert(before.ifds@[k] == after.ifds@[k]);
                }
            },
            Phase::NextOffset { offset, count } => {
                let pos = entry_position(offset, count as int);
                lemma_single_segment_cached(before.reader, seg, pos, 4);
                let b = buffer.subrange(pos, pos + 4);
                assert(b[0] == buffer[pos] && b[1] == buffer[pos + 1] && b[2]
                    == buffer[pos + 2] && b[3] == buffer[pos + 3]);
                let n = before.ifds@.len();
                assert forall|k: int|
                    0 <= k < after.ifds@.len() - 1 implies #[trigger] after.ifds@[k].next_ifd_offset
                    == after.ifds@[k + 1].offset && after.ifds@[k].next_ifd_offset != 0 by {
                    assert(before.ifds@[k] == after.ifds@[k]);
                    if k < n - 1 {
                        assert(before.ifds@[k + 1] == after.ifds@[k + 1]);
                    }
                }
                assert forall|k: int| 0 <= k < after.ifds@.len() implies directory_in_buffer(
                    #[trigger] after.ifds@[k],
                    order,
                    buffer,
                ) by {
                    if k < n {
                        assert(before.ifds@[k] == after.ifds@[k]);
                    }
                }
            },
            _ => {},
        }
    }

}

impl Cog {
    /// Parses a whole document held in memory: the header, then the directory chain, reading
    /// at most `max_ifds` directories. It succeeds exactly when [`spec_parse_buffer`] does,
    /// and otherwise fails with the error that names: a bad header, a structure that runs
    /// past the end of `buffer` (`Truncated`), a value that does not decode, a directory read
    /// twice, or a chain longer than `max_ifds`. On success the header is the one in the
    /// first eight bytes, and the directories are read in chain order from the header's
    /// offset up to the one whose next pointer is 0, each as stored in `buffer`: its count,
    /// every entry with its resolved value, and its next pointer.
    pub fn parse_buffer(url: &String, buffer: Vec<u8>, max_ifds: u64) -> (r: Result<Cog, CogErr>)
        ensures
            match spec_parse_buffer(buffer@, max_ifds) {
                Ok(offsets) => r matches Ok(cog) && parsed_from(cog, buffer@, max_ifds)
                    && ifd_offsets(cog.ifds@) == offsets,
                Err(e) => r == Err::<Cog, CogErr>(e),
            },
    {
        let len = buffer.len() as u64;
        let mut reader = Reader::new(url);
        let whole = FetchRequest { offset: 0, length: len, needed: len };
        let ghost seg = Segment { start: 0, data: buffer };
        let filled = reader.fill(whole, buffer);
        assert(filled is Ok);
        let mut parser = CogParser::new(reader, max_ifds);
        loop
            invariant
                parser.wf(),
                parser.max_ifds == max_ifds,
                parser.reader.spec_segments() == seq![seg],
                seg.start == 0,
                seg.data@ == buffer@,
                len == buffer@.len(),
                parser.ifds@.len() <= max_ifds,
                (parser.phase is Entries || parser.phase is NextOffset) ==> parser.ifds@.len()
                    < max_ifds,
                chain_so_far(parser, buffer@),
                state_outcome(parser, buffer@) == spec_parse_buffer(buffer@, max_ifds),
            ensures
                parser.phase is Done,
            decreases max_ifds - parser.ifds@.len(), phase_rank(parser.phase),
        {
            let ghost before = parser;
            let step = parser.step();
            proof {
                lemma_driver_step(before, parser, step, buffer@, seg);
                lemma_step_outcome(before, parser, step, buffer@, seg);
            }
            match step {
                Err(e) => {
                    return Err(e);
                },
                Ok(Step::Continue) => {},
                Ok(Step::Fetch(req)) => {
                    let available = if req.offset <= len {
                        len - req.offset
                    } else {
                        0
                    };
                    return Err(
                        CogErr::Format(FormatError::Truncated { needed: req.needed, available }),
                    );
                },
                Ok(Step::Done) => {
                    break ;
                },
            }
        }
        Ok(parser.finish().unwrap())
    }
}

} // verus!
