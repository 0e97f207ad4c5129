use vstd::prelude::*;

use crate::errors::TransportError;

verus! {

/// Default minimum fetch size.
pub const DEFAULT_MIN_FETCH: u64 = 4096;

/// Default growth factor of the minimum fetch size.
pub const DEFAULT_GROWTH: u64 = 2;

/// Default cap on the minimum fetch size (4 MiB).
pub const DEFAULT_MAX_FETCH: u64 = 4_194_304;

/// Bytes of the resource starting at absolute offset `start`.
#[derive(Clone, Debug)]
pub struct Segment {
    pub start: u64,
    pub data: Vec<u8>,
}

impl Segment {
    /// The segment holds all of `[offset, offset + length)`.
    pub open spec fn covers(self, offset: int, length: int) -> bool {
        self.start <= offset && offset + length <= self.start + self.data@.len()
    }

    /// The bytes of `[offset, offset + length)`, for a covered range.
    pub open spec fn window(self, offset: int, length: int) -> Seq<u8> {
        self.data@.subrange(offset - self.start, offset - self.start + length)
    }
}

/// The bytes of `[offset, offset + length)` from the first of `segs[k..]` that covers them.
pub open spec fn lookup_from(segs: Seq<Segment>, offset: int, length: int, k: int) -> Option<
    Seq<u8>,
>
    decreases segs.len() - k,
{
    if k < 0 || k >= segs.len() {
        None
    } else if segs[k].covers(offset, length) {
        Some(segs[k].window(offset, length))
    } else {
        lookup_from(segs, offset, length, k + 1)
    }
}

proof fn lemma_lookup_finds_cover(segs: Seq<Segment>, offset: int, length: int, k: int, j: int)
    requires
        0 <= k <= j < segs.len(),
        segs[j].covers(offset, length),
    ensures
        lookup_from(segs, offset, length, k) is Some,
    decreases j - k,
{
    if !segs[k].covers(offset, length) {
        lemma_lookup_finds_cover(segs, offset, length, k + 1, j);
    }
}

/// Cache reuse: once the bytes fetched for a request have been stored, every request inside
/// the fetched window (the first request itself, and any later one that overlaps it without
/// leaving the window) is served from the cache, with no further fetch.
pub proof fn lemma_fetched_window_is_cached(
    before: Reader,
    after: Reader,
    first_offset: u64,
    first_length: u64,
    bytes: Vec<u8>,
    offset: u64,
    length: u64,
)
    requires
        bytes@.len() >= first_length,
        after.spec_segments() == before.spec_segments().push(
            Segment { start: first_offset, data: bytes },
        ),
        first_offset <= offset,
        offset + length <= first_offset + bytes@.len(),
    ensures
        after.cached(offset as int, length as int) is Some,
        after.cached(first_offset as int, first_length as int) is Some,
{
    let segs = after.spec_segments();
    let last = segs.len() - 1;
    assert(segs[last].covers(offset as int, length as int));
    lemma_lookup_finds_cover(segs, offset as int, length as int, 0, last);
    assert(segs[last].covers(first_offset as int, first_length as int));
    lemma_lookup_finds_cover(segs, first_offset as int, first_length as int, 0, last);
}

/// A byte range the reader needs from the resource: `length` bytes at `offset`, of which
/// the first `needed` are the ones asked for and the rest pad the fetch. A source may
/// return fewer than `length` bytes where the resource ends, but never fewer than `needed`.
#[derive(Clone, Copy, Debug, PartialEq, Eq, Structural)]
pub struct FetchRequest {
    pub offset: u64,
    pub length: u64,
    pub needed: u64,
}

/// The answer of [`Reader::get_range`].
#[derive(Clone, Debug)]
pub enum RangeResult {
    /// The cache holds the bytes.
    Ready(Vec<u8>),
    /// The cache does not hold them: fetch this range, then hand it to [`Reader::fill`].
    Fetch(FetchRequest),
}

/// The minimum fetch size after one fetch: `min(m * g, cap)`.
pub open spec fn spec_next_min(m: u64, g: u64, cap: u64) -> u64 {
    if m * g <= cap {
        (m * g) as u64
    } else {
        cap
    }
}

/// A growing cache of byte ranges of one remote resource, with an adaptive fetch size.
///
/// Every fetch that the reader asks for starts at the requested offset and is at least
/// `min_fetch` bytes long; after each fetch `min_fetch` grows by `growth`, up to `max_fetch`.
/// Fetched bytes are kept for later requests.
pub struct Reader {
    url: String,
    segments: Vec<Segment>,
    min_fetch: u64,
    growth: u64,
    max_fetch: u64,
    fetches: u64,
}

impl Reader {
    pub closed spec fn spec_url(&self) -> Seq<char> {
        self.url@
    }

    pub closed spec fn spec_segments(&self) -> Seq<Segment> {
        self.segments@
    }

    pub closed spec fn spec_min_fetch(&self) -> u64 {
        self.min_fetch
    }

    pub closed spec fn spec_growth(&self) -> u64 {
        self.growth
    }

    pub closed spec fn spec_max_fetch(&self) -> u64 {
        self.max_fetch
    }

    pub closed spec fn spec_fetches(&self) -> u64 {
        self.fetches
    }

    /// The cached bytes of `[offset, offset + length)`, if one fetched range covers them.
    pub open spec fn cached(&self, offset: int, length: int) -> Option<Seq<u8>> {
        lookup_from(self.spec_segments(), offset, length, 0)
    }

    /// The fetch issued for a request that the cache cannot serve.
    pub open spec fn spec_plan(&self, offset: u64, length: u64) -> FetchRequest {
        FetchRequest {
            offset,
            length: if length >= self.spec_min_fetch() {
                length
            } else {
                self.spec_min_fetch()
            },
            needed: length,
        }
    }

    /// A reader of the resource at `url` with the given minimum fetch size, growth factor
    /// and cap.
    pub fn with_policy(url: &String, min_fetch: u64, growth: u64, max_fetch: u64) -> (r: Reader)
        ensures
            r.spec_url() == url@,
            r.spec_segments().len() == 0,
            r.spec_min_fetch() == min_fetch,
            r.spec_growth() == growth,
            r.spec_max_fetch() == max_fetch,
            r.spec_fetches() == 0,
    {
        Reader { url: url.clone(), segments: Vec::new(), min_fetch, growth, max_fetch, fetches: 0 }
    }

    /// A reader of the resource at `url` with a 4096-byte minimum fetch that doubles up to
    /// 4 MiB.
    pub fn new(url: &String) -> (r: Reader)
        ensures
            r.spec_url() == url@,
            r.spec_segments().len() == 0,
            r.spec_min_fetch() == DEFAULT_MIN_FETCH,
            r.spec_growth() == DEFAULT_GROWTH,
            r.spec_max_fetch() == DEFAULT_MAX_FETCH,
            r.spec_fetches() == 0,
    {
        Reader::with_policy(url, DEFAULT_MIN_FETCH, DEFAULT_GROWTH, DEFAULT_MAX_FETCH)
    }

    /// The URL of the resource.
    pub fn url(&self) -> (r: &String)
        ensures
            r@ == self.spec_url(),
    {
        &self.url
    }

    /// The current minimum fetch size.
    pub fn min_fetch(&self) -> (r: u64)
        ensures
            r == self.spec_min_fetch(),
    {
        self.min_fetch
    }

    /// How many fetched ranges were handed to the reader.
    pub fn fetch_count(&self) -> (r: u64)
        ensures
            r == self.spec_fetches(),
    {
        self.fetches
    }

    /// The bytes of `[offset, offset + length)` if the cache covers them, else the one
    /// fetch to issue: `max(length, min_fetch)` bytes starting at `offset`.
    pub fn get_range(&self, offset: u64, length: u64) -> (r: RangeResult)
        ensures
            match self.cached(offset as int, length as int) {
                Some(b) => r matches RangeResult::Ready(v) && v@ == b,
                None => r == RangeResult::Fetch(self.spec_plan(offset, length)),
            },
            r matches RangeResult::Ready(v) ==> v@.len() == length,
    {
        let n = self.segments.len();
        let mut k: usize = 0;
        while k < n
            invariant
                n == self.segments@.len(),
                k <= n,
                lookup_from(self.segments@, offset as int, length as int, 0) == lookup_from(
                    self.segments@,
                    offset as int,
                    length as int,
                    k as int,
                ),
            decreases n - k,
        {
            let seg = &self.segments[k];
            let len = seg.data.len();
            if seg.start <= offset && offset - seg.start <= len as u64 && length <= len as u64 - (
            offset - seg.start) {
                let from = (offset - seg.start) as usize;
                let to = from + length as usize;
                let mut out: Vec<u8> = Vec::new();
                let mut i: usize = from;
                while i < to
                    invariant
                        from <= i <= to <= seg.data@.len(),
                        out@ == seg.data@.subrange(from as int, i as int),
                    decreases to - i,
                {
                    out.push(seg.data[i]);
                    i += 1;
                    assert(out@ =~= seg.data@.subrange(from as int, i as int));
                }
                return RangeResult::Ready(out);
            }
            k += 1;
        }
        let fetch_length = if length >= self.min_fetch {
            length
        } else {
            self.min_fetch
        };
        RangeResult::Fetch(FetchRequest { offset, length: fetch_length, needed: length })
    }

    /// Stores the bytes fetched for `request` and grows the minimum fetch size to
    /// `min(min_fetch * growth, max_fetch)`. Fails, leaving the reader as it was, when there
    /// are fewer bytes than the request needs.
    pub fn fill(&mut self, request: FetchRequest, bytes: Vec<u8>) -> (r: Result<
        (),
        TransportError,
    >)
        ensures
            bytes@.len() < request.needed ==> r == Err::<(), TransportError>(
                TransportError::ShortRead {
                    expected: request.needed,
                    received: bytes@.len() as u64,
                },
            ) && *final(self) == *old(self),
            bytes@.len() >= request.needed ==> {
                &&& r is Ok
                &&& final(self).spec_segments() == old(self).spec_segments().push(
                    Segment { start: request.offset, data: bytes },
                )
                &&& final(self).spec_min_fetch() == spec_next_min(
                    old(self).spec_min_fetch(),
                    old(self).spec_growth(),
                    old(self).spec_max_fetch(),
                )
                &&& final(self).spec_url() == old(self).spec_url()
                &&& final(self).spec_growth() == old(self).spec_growth()
                &&& final(self).spec_max_fetch() == old(self).spec_max_fetch()
                &&& final(self).spec_fetches() == if old(self).spec_fetches() < u64::MAX {
                    old(self).spec_fetches() + 1
                } else {
                    old(self).spec_fetches() as int
                }
            },
    {
        if (bytes.len() as u64) < request.needed {
            return Err(
                TransportError::ShortRead { expected: request.needed, received: bytes.len() as u64 },
            );
        }
        self.segments.push(Segment { start: request.offset, data: bytes });
        self.min_fetch = match self.min_fetch.checked_mul(self.growth) {
            Some(p) => if p <= self.max_fetch {
                p
            } else {
                self.max_fetch
            },
            None => self.max_fetch,
        };
        if self.fetches < u64::MAX {
            self.fetches = self.fetches + 1;
        }
        Ok(())
    }
}

} // verus!
