use vstd::prelude::*;

use crate::codec::{read_u16, read_u32, u16_at, u32_at, ByteOrder};
use crate::cog::{entry_warnings, spec_header, Cog, CogHeader, Warning, HEADER_SIZE, IFD};
use crate::entry::{
    entry_resolves, geotiff_tag_known, is_known_tag, resolve_entry, spec_entry, value_bytes,
    DirectoryEntry, IfdEntry, ValueLocation,
};
use crate::errors::{CogErr, LogicError};
use crate::reader::{FetchRequest, RangeResult, Reader};
use crate::value::decode_error;

verus! {

/// Where the parse stands.
#[derive(Clone, Copy, Debug, PartialEq, Eq, Structural)]
pub enum Phase {
    /// The header is next.
    Header,
    /// The entry count of the directory at `offset` is next.
    EntryCount { offset: u32 },
    /// Entry `index` of the `count` entries of the directory at `offset` is next.
    Entries { offset: u32, count: u16, index: u16 },
    /// The next-directory pointer of the directory at `offset` is next.
    NextOffset { offset: u32, count: u16 },
    /// The chain has ended.
    Done,
    /// The parse met an error, which the step that failed returned.
    Failed,
}

/// What the caller does after a step.
#[derive(Clone, Copy, Debug, PartialEq, Eq, Structural)]
pub enum Step {
    /// Step again.
    Continue,
    /// Fetch this range, hand it to [`CogParser::supply`], and step again.
    Fetch(FetchRequest),
    /// The parse is over.
    Done,
}

/// A document parse driven by its caller: each [`CogParser::step`] takes one transition
/// of the header / directory-chain state machine, reading only cached bytes, and asks for a
/// fetch when the bytes it needs are not cached.
pub struct CogParser {
    pub reader: Reader,
    pub phase: Phase,
    pub header: Option<CogHeader>,
    /// Entries of the directory being read.
    pub entries: Vec<IfdEntry>,
    pub ifds: Vec<IFD>,
    pub warnings: Vec<Warning>,
    pub max_ifds: u64,
}

/// Position of entry `index` of the directory at `offset`.
pub open spec fn entry_position(offset: u32, index: int) -> int {
    offset + 2 + 12 * index
}

impl CogParser {
    /// The phases after the header know the byte order; an entry index stays below the count.
    pub open spec fn wf(&self) -> bool {
        &&& (self.phase is Header || self.phase is Failed) || self.header is Some
        &&& self.phase matches Phase::Entries { count, index, .. } ==> index < count
    }

    pub open spec fn order(&self) -> ByteOrder {
        self.header->Some_0.byteorder
    }

    /// The parser is as before and asks for the fetch planned for `[pos, pos + length)`.
    pub open spec fn asks_fetch(&self, new: CogParser, r: Result<Step, CogErr>, pos: int, length: int) -> bool {
        &&& r == Ok::<Step, CogErr>(Step::Fetch(self.reader.spec_plan(pos as u64, length as u64)))
        &&& new == *self
    }

    /// The parser failed with `e`; nothing else changed.
    pub open spec fn fails_with(&self, new: CogParser, r: Result<Step, CogErr>, e: CogErr) -> bool {
        &&& r == Err::<Step, CogErr>(e)
        &&& new == CogParser { phase: Phase::Failed, ..*self }
    }

    /// Transition from the header phase.
    pub open spec fn header_step(&self, new: CogParser, r: Result<Step, CogErr>) -> bool {
        match self.reader.cached(0, HEADER_SIZE as int) {
            None => self.asks_fetch(new, r, 0, HEADER_SIZE as int),
            Some(b) => match spec_header(b) {
                Err(e) => self.fails_with(new, r, CogErr::Format(e)),
                Ok(h) => r == Ok::<Step, CogErr>(Step::Continue) && new == CogParser {
                    phase: Phase::EntryCount { offset: h.ifd_offset },
                    header: Some(h),
                    ..*self
                },
            },
        }
    }

    /// Transition from reading the entry count of the directory at `offset`.
    pub open spec fn entry_count_step(&self, new: CogParser, r: Result<Step, CogErr>, offset: u32) -> bool {
        if self.ifds@.len() >= self.max_ifds {
            self.fails_with(new, r, CogErr::Logic(LogicError::TooManyDirectories { limit: self.max_ifds }))
        } else if exists|k: int| 0 <= k < self.ifds@.len() && #[trigger] self.ifds@[k].offset == offset {
            self.fails_with(new, r, CogErr::Logic(LogicError::DirectoryCycle { offset }))
        } else {
            match self.reader.cached(offset as int, 2) {
                None => self.asks_fetch(new, r, offset as int, 2),
                Some(b) => {
                    let count = u16_at(self.order(), b, 0);
                    &&& r == Ok::<Step, CogErr>(Step::Continue)
                    &&& new == CogParser {
                        phase: if count == 0 {
                            Phase::NextOffset { offset, count }
                        } else {
                            Phase::Entries { offset, count, index: 0 }
                        },
                        entries: new.entries,
                        ..*self
                    }
                    &&& new.entries@.len() == 0
                },
            }
        }
    }

    /// The entry in `raw` with its value in `fetched` (or inline) is resolved and added.
    pub open spec fn entry_added(
        &self,
        new: CogParser,
        r: Result<Step, CogErr>,
        raw: Seq<u8>,
        fetched: Seq<u8>,
    ) -> bool {
        let order = self.order();
        let d = spec_entry(order, raw);
        let stored = value_bytes(order, raw, fetched);
        let error = if d.spec_location() is Unsupported {
            None
        } else {
            decode_error(d.field_type, stored, d.count as nat)
        };
        match error {
            Some(e) => self.fails_with(new, r, CogErr::Format(e)),
            None => match self.phase {
                Phase::Entries { offset, count, index } => {
                    let n = self.entries@.len();
                    let e = new.entries@.last();
                    &&& r == Ok::<Step, CogErr>(Step::Continue)
                    &&& new == CogParser {
                        phase: if index + 1 == count {
                            Phase::NextOffset { offset, count }
                        } else {
                            Phase::Entries { offset, count, index: (index + 1) as u16 }
                        },
                        entries: new.entries,
                        warnings: new.warnings,
                        ..*self
                    }
                    &&& new.entries@.len() == n + 1
                    &&& new.entries@.take(n as int) == self.entries@
                    &&& entry_resolves(e, order, raw, geotiff_tag_known(d.tag), stored)
                    &&& new.warnings@ == self.warnings@ + entry_warnings(self.ifds@.len() as int, e)
                },
                _ => false,
            },
        }
    }

    /// Transition from reading entry `index` of the directory at `offset`.
    pub open spec fn entry_step(&self, new: CogParser, r: Result<Step, CogErr>, offset: u32, index: u16) -> bool {
        let pos = entry_position(offset, index as int);
        match self.reader.cached(pos, 12) {
            None => self.asks_fetch(new, r, pos, 12),
            Some(raw) => match spec_entry(self.order(), raw).spec_location() {
                ValueLocation::External { offset: at, length } => match self.reader.cached(
                    at as int,
                    length as int,
                ) {
                    None => self.asks_fetch(new, r, at as int, length as int),
                    Some(fetched) => self.entry_added(new, r, raw, fetched),
                },
                _ => self.entry_added(new, r, raw, Seq::empty()),
            },
        }
    }

    /// Transition from reading the next-directory pointer of the directory at `offset`.
    pub open spec fn next_offset_step(&self, new: CogParser, r: Result<Step, CogErr>, offset: u32, count: u16) -> bool {
        let pos = entry_position(offset, count as int);
        match self.reader.cached(pos, 4) {
            None => self.asks_fetch(new, r, pos, 4),
            Some(b) => {
                let next = u32_at(self.order(), b, 0);
                &&& r == Ok::<Step, CogErr>(Step::Continue)
                &&& new == CogParser {
                    phase: if next == 0 {
                        Phase::Done
                    } else {
                        Phase::EntryCount { offset: next }
                    },
                    entries: new.entries,
                    ifds: new.ifds,
                    ..*self
                }
                &&& new.entries@.len() == 0
                &&& new.ifds@ == self.ifds@.push(
                    IFD { offset, count, entries: self.entries, next_ifd_offset: next },
                )
            },
        }
    }

    /// A parse that starts with `reader` and reads at most `max_ifds` directories.
    pub fn new(reader: Reader, max_ifds: u64) -> (r: CogParser)
        ensures
            r.wf(),
            r.reader == reader,
            r.phase == Phase::Header,
            r.header is None,
            r.entries@.len() == 0,
            r.ifds@.len() == 0,
            r.warnings@.len() == 0,
            r.max_ifds == max_ifds,
    {
        CogParser {
            reader,
            phase: Phase::Header,
            header: None,
            entries: Vec::new(),
            ifds: Vec::new(),
            warnings: Vec::new(),
            max_ifds,
        }
    }

    /// Takes one transition, as [`CogParser::spec_step`] states.
    pub fn step(&mut self) -> (r: Result<Step, CogErr>)
        requires
            old(self).wf(),
        ensures
            final(self).wf(),
            old(self).spec_step(*final(self), r),
    {
        match self.phase {
            Phase::Header => self.step_header(),
            Phase::EntryCount { offset } => self.step_entry_count(offset),
            Phase::Entries { offset, count, index } => self.step_entry(offset, count, index),
            Phase::NextOffset { offset, count } => self.step_next_offset(offset, count),
            _ => Ok(Step::Done),
        }
    }

    fn step_header(&mut self) -> (r: Result<Step, CogErr>)
        requires
            old(self).wf(),
            old(self).phase is Header,
        ensures
            final(self).wf(),
            old(self).header_step(*final(self), r),
    {
        match self.reader.get_range(0, HEADER_SIZE) {
            RangeResult::Fetch(req) => Ok(Step::Fetch(req)),
            RangeResult::Ready(b) => match CogHeader::new(&b) {
                Err(e) => {
                    self.phase = Phase::Failed;
                    Err(CogErr::Format(e))
                },
                Ok(h) => {
                    self.phase = Phase::EntryCount { offset: h.ifd_offset };
                    self.header = Some(h);
                    Ok(Step::Continue)
                },
            },
        }
    }

    fn step_entry_count(&mut self, offset: u32) -> (r: Result<Step, CogErr>)
        requires
            old(self).wf(),
            old(self).phase == (Phase::EntryCount { offset }),
        ensures
            final(self).wf(),
            old(self).entry_count_step(*final(self), r, offset),
    {
        if self.ifds.len() as u64 >= self.max_ifds {
            self.phase = Phase::Failed;
            return Err(CogErr::Logic(LogicError::TooManyDirectories { limit: self.max_ifds }));
        }
        let mut k: usize = 0;
        while k < self.ifds.len()
            invariant
                k <= self.ifds@.len(),
                *self == *old(self),
                self.ifds@.len() < self.max_ifds,
                forall|j: int| 0 <= j < k ==> #[trigger] self.ifds@[j].offset != offset,
            decreases self.ifds@.len() - k,
        {
            if self.ifds[k].offset == offset {
                assert(old(self).ifds@[k as int].offset == offset);
                self.phase = Phase::Failed;
                return Err(CogErr::Logic(LogicError::DirectoryCycle { offset }));
            }
            k += 1;
        }
        let order = self.header.unwrap().byteorder;
        match self.reader.get_range(offset as u64, 2) {
            RangeResult::Fetch(req) => Ok(Step::Fetch(req)),
            RangeResult::Ready(b) => {
                let (count, _) = read_u16(&b, 0, order).unwrap();
                self.phase = if count == 0 {
                    Phase::NextOffset { offset, count }
                } else {
                    Phase::Entries { offset, count, index: 0 }
                };
                self.entries = Vec::new();
                Ok(Step::Continue)
            },
        }
    }

    fn add_entry(&mut self, raw: &[u8], fetched: &[u8]) -> (r: Result<Step, CogErr>)
        requires
            old(self).wf(),
            old(self).phase is Entries,
            raw@.len() == 12,
        ensures
            final(self).wf(),
            old(self).entry_added(*final(self), r, raw@, fetched@),
    {
        let order = self.header.unwrap().byteorder;
        let tag = DirectoryEntry::parse(raw, order).unwrap().tag;
        let known = is_known_tag(tag);
        match resolve_entry(raw, order, known, fetched) {
            Err(e) => {
                self.phase = Phase::Failed;
                Err(CogErr::Format(e))
            },
            Ok(e) => {
                let ghost w0 = self.warnings@;
                let directory = self.ifds.len();
                if !e.known_tag {
                    self.warnings.push(Warning::UnknownTag { directory, tag: e.entry.tag });
                }
                if e.value.is_none() {
                    self.warnings.push(
                        Warning::UnsupportedFieldType {
                            directory,
                            tag: e.entry.tag,
                            field_type: e.entry.field_type,
                        },
                    );
                }
                assert(self.warnings@ =~= w0 + entry_warnings(self.ifds@.len() as int, e));
                self.entries.push(e);
                assert(self.entries@.take(old(self).entries@.len() as int) =~= old(self).entries@);
                match self.phase {
                    Phase::Entries { offset, count, index } => {
                        self.phase = if index + 1 == count {
                            Phase::NextOffset { offset, count }
                        } else {
                            Phase::Entries { offset, count, index: index + 1 }
                        };
                    },
                    _ => {},
                }
                Ok(Step::Continue)
            },
        }
    }

    fn step_entry(&mut self, offset: u32, count: u16, index: u16) -> (r: Result<Step, CogErr>)
        requires
            old(self).wf(),
            old(self).phase == (Phase::Entries { offset, count, index }),
        ensures
            final(self).wf(),
            old(self).entry_step(*final(self), r, offset, index),
    {
        let pos = offset as u64 + 2 + 12 * (index as u64);
        let raw = match self.reader.get_range(pos, 12) {
            RangeResult::Fetch(req) => {
                return Ok(Step::Fetch(req));
            },
            RangeResult::Ready(b) => b,
        };
        let order = self.header.unwrap().byteorder;
        let entry = DirectoryEntry::parse(&raw, order).unwrap();
        match entry.location() {
            ValueLocation::External { offset: at, length } => match self.reader.get_range(
                at,
                length,
            ) {
                RangeResult::Fetch(req) => Ok(Step::Fetch(req)),
                RangeResult::Ready(fetched) => self.add_entry(&raw, &fetched),
            },
            _ => {
                let none: Vec<u8> = Vec::new();
                assert(none@ == Seq::<u8>::empty());
                self.add_entry(&raw, &none)
            },
        }
    }

    fn step_next_offset(&mut self, offset: u32, count: u16) -> (r: Result<Step, CogErr>)
        requires
            old(self).wf(),
            old(self).phase == (Phase::NextOffset { offset, count }),
        ensures
            final(self).wf(),
            old(self).next_offset_step(*final(self), r, offset, count),
    {
        let pos = offset as u64 + 2 + 12 * (count as u64);
        let order = self.header.unwrap().byteorder;
        match self.reader.get_range(pos, 4) {
            RangeResult::Fetch(req) => Ok(Step::Fetch(req)),
            RangeResult::Ready(b) => {
                let (next, _) = read_u32(&b, 0, order).unwrap();
                let mut entries: Vec<IfdEntry> = Vec::new();
                std::mem::swap(&mut entries, &mut self.entries);
                self.ifds.push(IFD { offset, count, entries, next_ifd_offset: next });
                self.phase = if next == 0 {
                    Phase::Done
                } else {
                    Phase::EntryCount { offset: next }
                };
                Ok(Step::Continue)
            },
        }
    }

    /// Hands the bytes fetched for `request` to the reader. Fewer bytes than the request
    /// needs is a transport error, and the parser stays as it was.
    pub fn supply(&mut self, request: FetchRequest, bytes: Vec<u8>) -> (r: Result<(), CogErr>)
        requires
            old(self).wf(),
        ensures
            final(self).wf(),
            *final(self) == (CogParser { reader: final(self).reader, ..*old(self) }),
            bytes@.len() < request.needed ==> r == Err::<(), CogErr>(
                CogErr::Transport(
                    crate::errors::TransportError::ShortRead {
                        expected: request.needed,
                        received: bytes@.len() as u64,
                    },
                ),
            ) && final(self).reader == old(self).reader,
            bytes@.len() >= request.needed ==> r is Ok && final(self).reader.spec_segments()
                == old(self).reader.spec_segments().push(
                crate::reader::Segment { start: request.offset, data: bytes },
            ),
    {
        match self.reader.fill(request, bytes) {
            Ok(()) => Ok(()),
            Err(e) => Err(CogErr::Transport(e)),
        }
    }

    /// The document, once the chain has ended.
    pub fn finish(self) -> (r: Option<Cog>)
        requires
            self.wf(),
        ensures
            self.phase is Done ==> r == Some(
                Cog { header: self.header->Some_0, ifds: self.ifds, warnings: self.warnings },
            ),
            !(self.phase is Done) ==> r is None,
    {
        match (self.phase, self.header) {
            (Phase::Done, Some(header)) => Some(
                Cog { header, ifds: self.ifds, warnings: self.warnings },
            ),
            _ => None,
        }
    }

    /// The transition that [`CogParser::step`] takes from this state.
    pub open spec fn spec_step(&self, new: CogParser, r: Result<Step, CogErr>) -> bool {
        match self.phase {
            Phase::Header => self.header_step(new, r),
            Phase::EntryCount { offset } => self.entry_count_step(new, r, offset),
            Phase::Entries { offset, index, .. } => self.entry_step(new, r, offset, index),
            Phase::NextOffset { offset, count } => self.next_offset_step(new, r, offset, count),
            _ => r == Ok::<Step, CogErr>(Step::Done) && new == *self,
        }
    }
}

/// Inline versus offset storage during a parse: once the twelve bytes of the next entry are
/// cached, an entry whose value takes at most four bytes is resolved from those bytes with no
/// fetch, and an entry whose value is stored elsewhere and not cached asks for exactly its
/// value range, at its stored offset with its total size.
pub proof fn lemma_entry_fetches(
    p: CogParser,
    q: CogParser,
    r: Result<Step, CogErr>,
    offset: u32,
    count: u16,
    index: u16,
)
    requires
        p.phase == (Phase::Entries { offset, count, index }),
        p.spec_step(q, r),
        p.reader.cached(entry_position(offset, index as int), 12) is Some,
    ensures
        ({
            let raw = p.reader.cached(entry_position(offset, index as int), 12)->Some_0;
            let d = spec_entry(p.order(), raw);
            &&& d.spec_location() is Inline ==> !(r matches Ok(Step::Fetch(_)))
            &&& d.spec_location() matches ValueLocation::External { offset: at, length } ==> (
            p.reader.cached(at as int, length as int) is None ==> r == Ok::<Step, CogErr>(
                Step::Fetch(p.reader.spec_plan(at, length)),
            ) && (r->Ok_0->Fetch_0).offset == d.value_or_offset && (
            r->Ok_0->Fetch_0).needed == d.total_size()->Some_0)
        }),
{
}

/// Chain termination: a step that reads a zero next-directory pointer records the current
/// directory as the last one and ends the parse, after which the parser does not move.
pub proof fn lemma_zero_pointer_ends_chain(
    p: CogParser,
    q: CogParser,
    r: Result<Step, CogErr>,
    q2: CogParser,
    r2: Result<Step, CogErr>,
    offset: u32,
    count: u16,
)
    requires
        p.phase == (Phase::NextOffset { offset, count }),
        p.spec_step(q, r),
        p.reader.cached(entry_position(offset, count as int), 4) matches Some(b) && u32_at(
            p.order(),
            b,
            0,
        ) == 0,
        q.spec_step(q2, r2),
    ensures
        q.phase is Done,
        q.ifds@.len() == p.ifds@.len() + 1,
        q.ifds@.last().next_ifd_offset == 0,
        r2 == Ok::<Step, CogErr>(Step::Done),
        q2 == q,
{
}

} // verus!
