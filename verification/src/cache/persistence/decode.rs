//! Reading dumps.

use vstd::prelude::*;

use crate::bytes::{le, le_value, lemma_le_value_of_le, lemma_pow256_values, slice_bytes};
use crate::cache::dump_wire::{
    entry_fits, entry_problem, entry_wire, header_wire, is_entry, is_legacy, legacy_fits,
    legacy_octets, legacy_problem, lemma_entry_wire_injective, lemma_legacy_injective,
    persisted_views, prefix_wire, read_entry, read_header, read_legacy, read_prefix, read_u64,
    tuple_view, tuple_views, EntryTuple, HeaderTuple, LegacyView, PersistedCacheEntry,
    PersistedView,
};
use crate::cache::persistence::error::{
    CACHE_DUMP_MAGIC, CACHE_DUMP_VERSION, DumpError, DumpErrorView, LEGACY_CACHE_DUMP_VERSION,
    MAX_PERSISTED_CACHE_DUMP_BYTES, PREVIOUS_CACHE_DUMP_VERSION,
};

verus! {

/// The number in the eight octets at `pos`.
pub open spec fn u64_at(data: Seq<u8>, pos: int) -> u64 {
    le_value(data.subrange(pos, pos + 8)) as u64
}

/// The number in the four octets at `pos`.
pub open spec fn u32_at(data: Seq<u8>, pos: int) -> u32 {
    le_value(data.subrange(pos, pos + 4)) as u32
}

/// The version of a dump, from the octets with which it begins.
pub open spec fn dump_version(data: Seq<u8>) -> Result<u32, DumpErrorView> {
    if data.len() < 12 {
        Err(DumpErrorView::TruncatedHeader)
    } else if u64_at(data, 0) != CACHE_DUMP_MAGIC {
        Err(DumpErrorView::BadMagic)
    } else {
        Ok(u32_at(data, 8))
    }
}

proof fn lemma_prefix_values(data: Seq<u8>, magic: u64, version: u32)
    requires
        data.len() >= 12,
        prefix_wire(magic, version) == data.take(12),
    ensures
        magic == u64_at(data, 0),
        version == u32_at(data, 8),
{
    lemma_pow256_values();
    lemma_le_value_of_le(magic as nat, 8);
    lemma_le_value_of_le(version as nat, 4);
    let w = prefix_wire(magic, version);
    assert(data.subrange(0, 8) =~= w.take(8));
    assert(w.take(8) =~= le(magic as nat, 8));
    assert(data.subrange(8, 12) =~= w.skip(8));
    assert(w.skip(8) =~= le(version as nat, 4));
}

proof fn lemma_header_values(data: Seq<u8>, h: HeaderTuple)
    requires
        data.len() >= 28,
        header_wire(h) == data.take(28),
    ensures
        h == (u64_at(data, 0), u32_at(data, 8), u64_at(data, 12), u64_at(data, 20)),
{
    lemma_pow256_values();
    lemma_le_value_of_le(h.0 as nat, 8);
    lemma_le_value_of_le(h.1 as nat, 4);
    lemma_le_value_of_le(h.2 as nat, 8);
    lemma_le_value_of_le(h.3 as nat, 8);
    let w = header_wire(h);
    assert(data.subrange(0, 8) =~= w.subrange(0, 8));
    assert(w.subrange(0, 8) =~= le(h.0 as nat, 8));
    assert(data.subrange(8, 12) =~= w.subrange(8, 12));
    assert(w.subrange(8, 12) =~= le(h.1 as nat, 4));
    assert(data.subrange(12, 20) =~= w.subrange(12, 20));
    assert(w.subrange(12, 20) =~= le(h.2 as nat, 8));
    assert(data.subrange(20, 28) =~= w.subrange(20, 28));
    assert(w.subrange(20, 28) =~= le(h.3 as nat, 8));
}

/// Reads the octets with which a dump begins. Returns the version.
pub fn parse_dump_prefix(data: &[u8]) -> (r: Result<u32, DumpError>)
    ensures
        match r {
            Ok(v) => dump_version(data@) == Ok::<u32, DumpErrorView>(v),
            Err(e) => dump_version(data@) == Err::<u32, DumpErrorView>(e@),
        },
{
    if data.len() < 12 {
        return Err(DumpError::TruncatedHeader);
    }
    let first = slice_bytes(data, 0, 12);
    assert(first@ =~= data@.take(12));
    match read_prefix(first.as_slice()) {
        Ok((magic, version)) => {
            proof {
                lemma_prefix_values(data@, magic, version);
            }
            if magic != CACHE_DUMP_MAGIC {
                return Err(DumpError::BadMagic);
            }
            Ok(version)
        },
        Err(e) => Err(DumpError::MalformedHeader(e)),
    }
}

/// A dump as it was stored.
#[derive(Debug, PartialEq, Eq)]
pub struct PersistedCacheDump {
    pub magic: u64,
    pub version: u32,
    pub dumped_at_unix_ms: u64,
    pub entries: Vec<PersistedCacheEntry>,
}

impl View for PersistedCacheDump {
    type V = LegacyView;

    open spec fn view(&self) -> LegacyView {
        (self.magic, self.version, self.dumped_at_unix_ms, persisted_views(self.entries@))
    }
}

/// The dump that is one value with the given octets.
pub open spec fn the_legacy(data: Seq<u8>, limit: usize) -> LegacyView {
    choose|d: LegacyView| legacy_fits(d.3, limit) && #[trigger] legacy_octets(d) == data
}

/// Reading a dump that is one value.
pub open spec fn legacy_dump(data: Seq<u8>, limit: usize) -> Result<LegacyView, DumpErrorView> {
    let d = the_legacy(data, limit);
    if !is_legacy(data, limit) {
        Err(DumpErrorView::MalformedDump(legacy_problem(data, limit)))
    } else if d.0 != CACHE_DUMP_MAGIC {
        Err(DumpErrorView::BadMagic)
    } else if d.1 != LEGACY_CACHE_DUMP_VERSION && d.1 != PREVIOUS_CACHE_DUMP_VERSION {
        Err(DumpErrorView::UnsupportedLegacyVersion(d.1))
    } else {
        Ok(d)
    }
}

/// The result of reading, with the views of values and errors.
pub open spec fn result_is<T>(r: Result<T, DumpError>, v: Result<T, DumpErrorView>) -> bool {
    match r {
        Ok(t) => v == Ok::<T, DumpErrorView>(t),
        Err(e) => v == Err::<T, DumpErrorView>(e@),
    }
}

/// Whether a read dump is as stated.
pub open spec fn dump_is(
    r: Result<PersistedCacheDump, DumpError>,
    v: Result<LegacyView, DumpErrorView>,
) -> bool {
    match r {
        Ok(d) => v == Ok::<LegacyView, DumpErrorView>(d@),
        Err(e) => v == Err::<LegacyView, DumpErrorView>(e@),
    }
}

fn entries_from(tuples: Vec<EntryTuple>) -> (r: Vec<PersistedCacheEntry>)
    ensures
        persisted_views(r@) == tuple_views(tuples@),
{
    let mut rest = tuples;
    let ghost all = tuple_views(tuples@);
    let mut back: Vec<PersistedCacheEntry> = Vec::new();
    // The list is taken apart from its end and put together again.
    while rest.len() > 0
        invariant
            rest@.len() + back@.len() == all.len(),
            tuple_views(rest@) == all.take(rest@.len() as int),
            forall|i: int|
                0 <= i < back@.len() ==> (#[trigger] back@[i])@ == all[all.len() - 1 - i],
        decreases rest@.len(),
    {
        let ghost before = rest@;
        match rest.pop() {
            Some(t) => {
                proof {
                    assert(tuple_views(before)[before.len() - 1] == tuple_view(t));
                    assert(tuple_views(rest@) =~= all.take(rest@.len() as int));
                }
                back.push(PersistedCacheEntry::from_tuple(t));
            },
            None => {},
        }
    }
    let mut out: Vec<PersistedCacheEntry> = Vec::new();
    while back.len() > 0
        invariant
            out@.len() + back@.len() == all.len(),
            forall|i: int|
                0 <= i < back@.len() ==> (#[trigger] back@[i])@ == all[all.len() - 1 - i],
            persisted_views(out@) == all.take(out@.len() as int),
        decreases back@.len(),
    {
        let ghost before = back@;
        match back.pop() {
            Some(e) => {
                proof {
                    assert(before[before.len() - 1]@ == all[out@.len() as int]);
                }
                out.push(e);
                assert(persisted_views(out@) =~= all.take(out@.len() as int));
            },
            None => {},
        }
    }
    assert(all.take(all.len() as int) =~= all);
    out
}

/// Reads a dump that is one value.
pub fn parse_legacy_persisted_dump_with_limit<const LIMIT: usize>(data: &[u8]) -> (r: Result<
    PersistedCacheDump,
    DumpError,
>)
    requires
        LIMIT <= isize::MAX,
    ensures
        dump_is(r, legacy_dump(data@, LIMIT)),
{
    match read_legacy::<LIMIT>(data) {
        Err(e) => Err(DumpError::MalformedDump(e)),
        Ok((magic, version, dumped_at_unix_ms, tuples)) => {
            proof {
                let d: LegacyView = (magic, version, dumped_at_unix_ms, tuple_views(tuples@));
                assert(legacy_octets(d) == data@);
                lemma_legacy_injective(d, the_legacy(data@, LIMIT), LIMIT);
            }
            if magic != CACHE_DUMP_MAGIC {
                return Err(DumpError::BadMagic);
            }
            if version != LEGACY_CACHE_DUMP_VERSION && version != PREVIOUS_CACHE_DUMP_VERSION {
                return Err(DumpError::UnsupportedLegacyVersion(version));
            }
            Ok(PersistedCacheDump { magic, version, dumped_at_unix_ms, entries: entries_from(tuples) })
        },
    }
}

/// Reading the header of a current dump.
pub open spec fn framed_header(data: Seq<u8>) -> Result<HeaderTuple, DumpErrorView> {
    let h = (u64_at(data, 0), u32_at(data, 8), u64_at(data, 12), u64_at(data, 20));
    if data.len() < 28 {
        Err(DumpErrorView::TruncatedFramedHeader)
    } else if h.0 != CACHE_DUMP_MAGIC {
        Err(DumpErrorView::BadFramedMagic)
    } else if h.1 != CACHE_DUMP_VERSION {
        Err(DumpErrorView::BadFramedVersion(h.1))
    } else {
        Ok(h)
    }
}

/// Reads the header of a current dump.
pub fn decode_v3_header(data: &[u8]) -> (r: Result<HeaderTuple, DumpError>)
    ensures
        result_is(r, framed_header(data@)),
        r is Ok ==> data@.len() >= 28,
{
    if data.len() < 28 {
        return Err(DumpError::TruncatedFramedHeader);
    }
    let first = slice_bytes(data, 0, 28);
    assert(first@ =~= data@.take(28));
    match read_header(first.as_slice()) {
        Ok(header) => {
            proof {
                lemma_header_values(data@, header);
            }
            if header.0 != CACHE_DUMP_MAGIC {
                return Err(DumpError::BadFramedMagic);
            }
            if header.1 != CACHE_DUMP_VERSION {
                return Err(DumpError::BadFramedVersion(header.1));
            }
            Ok(header)
        },
        Err(e) => Err(DumpError::MalformedFramedHeader(e)),
    }
}

/// The entry with the given octets.
pub open spec fn the_entry(data: Seq<u8>, limit: usize) -> PersistedView {
    choose|e: PersistedView| entry_fits(e, limit) && #[trigger] entry_wire(e) == data
}

/// Reading the frame at `pos`: the entry and the position after it.
pub open spec fn frame_at(data: Seq<u8>, pos: int, limit: usize) -> Result<
    (PersistedView, int),
    DumpErrorView,
> {
    let n = u64_at(data, pos);
    let body = data.subrange(pos + 8, pos + 8 + n);
    if data.len() - pos < 8 {
        Err(DumpErrorView::TruncatedFrameLength)
    } else if n > usize::MAX {
        Err(DumpErrorView::FrameLengthTooLarge)
    } else if pos + 8 + n > usize::MAX {
        Err(DumpErrorView::FrameOffsetOverflow)
    } else if pos + 8 + n > data.len() {
        Err(DumpErrorView::TruncatedFrame)
    } else if !is_entry(body, limit) {
        Err(DumpErrorView::MalformedFrame(entry_problem(body, limit)))
    } else {
        Ok((the_entry(body, limit), pos + 8 + n))
    }
}

/// Reads the frame at `pos`.
pub fn next_frame<const LIMIT: usize>(data: &[u8], pos: usize) -> (r: Result<
    (PersistedCacheEntry, usize),
    DumpError,
>)
    requires
        pos <= data@.len(),
    ensures
        match r {
            Ok((e, next)) => frame_at(data@, pos as int, LIMIT) == Ok::<
                (PersistedView, int),
                DumpErrorView,
            >((e@, next as int)) && next <= data@.len() && entry_fits(e@, LIMIT),
            Err(e) => frame_at(data@, pos as int, LIMIT) == Err::<(PersistedView, int), DumpErrorView>(
                e@,
            ),
        },
{
    if data.len() - pos < 8 {
        return Err(DumpError::TruncatedFrameLength);
    }
    let len_bytes = slice_bytes(data, pos, pos + 8);
    let frame_len: u64 = match read_u64(len_bytes.as_slice()) {
        Ok(n) => n,
        Err(e) => return Err(DumpError::MalformedFrameLength(e)),
    };
    proof {
        lemma_pow256_values();
        lemma_le_value_of_le(frame_len as nat, 8);
    }
    if frame_len > usize::MAX as u64 {
        return Err(DumpError::FrameLengthTooLarge);
    }
    let start: usize = pos + 8;
    let n: usize = frame_len as usize;
    if n > usize::MAX - start {
        return Err(DumpError::FrameOffsetOverflow);
    }
    if start + n > data.len() {
        return Err(DumpError::TruncatedFrame);
    }
    let body = slice_bytes(data, start, start + n);
    match read_entry::<LIMIT>(body.as_slice()) {
        Ok(t) => {
            proof {
                assert(entry_wire(tuple_view(t)) == body@);
                lemma_entry_wire_injective(tuple_view(t), the_entry(body@, LIMIT), LIMIT);
            }
            Ok((PersistedCacheEntry::from_tuple(t), start + n))
        },
        Err(e) => Err(DumpError::MalformedFrame(e)),
    }
}

/// Reading `count` frames from `pos` to the end.
pub open spec fn frames_at(data: Seq<u8>, pos: int, count: nat, limit: usize) -> Result<
    Seq<PersistedView>,
    DumpErrorView,
>
    decreases count,
{
    if count == 0 {
        if pos == data.len() {
            Ok(Seq::empty())
        } else {
            Err(DumpErrorView::TrailingBytes)
        }
    } else {
        match frame_at(data, pos, limit) {
            Err(e) => Err(e),
            Ok((entry, next)) => match frames_at(data, next, (count - 1) as nat, limit) {
                Err(e) => Err(e),
                Ok(rest) => Ok(seq![entry] + rest),
            },
        }
    }
}

/// Reading a current dump.
pub open spec fn framed_dump(data: Seq<u8>, limit: usize) -> Result<LegacyView, DumpErrorView> {
    match framed_header(data) {
        Err(e) => Err(e),
        Ok(h) => if h.3 > usize::MAX {
            Err(DumpErrorView::EntryCountTooLarge)
        } else {
            match frames_at(data, 28, h.3 as nat, limit) {
                Err(e) => Err(e),
                Ok(entries) => Ok((h.0, h.1, h.2, entries)),
            }
        },
    }
}

/// What reading the rest of a list gives, with `first` before it.
pub open spec fn after<T>(first: Seq<T>, rest: Result<Seq<T>, DumpErrorView>) -> Result<
    Seq<T>,
    DumpErrorView,
> {
    match rest {
        Ok(s) => Ok(first + s),
        Err(e) => Err(e),
    }
}

/// Reads a current dump with all its entries.
pub fn decode_v3_dump_for_test<const LIMIT: usize>(data: &[u8]) -> (r: Result<
    PersistedCacheDump,
    DumpError,
>)
    ensures
        dump_is(r, framed_dump(data@, LIMIT)),
{
    let header = match decode_v3_header(data) {
        Ok(h) => h,
        Err(e) => return Err(e),
    };
    if header.3 > usize::MAX as u64 {
        return Err(DumpError::EntryCountTooLarge);
    }
    let count: usize = header.3 as usize;
    let mut entries: Vec<PersistedCacheEntry> = Vec::new();
    let mut pos: usize = 28;
    let mut i: usize = 0;
    let ghost goal = frames_at(data@, 28, count as nat, LIMIT);
    proof {
        assert(persisted_views(entries@) =~= Seq::empty());
        if let Ok(s) = goal {
            assert(Seq::<PersistedView>::empty() + s =~= s);
        }
    }
    while i < count
        invariant
            i <= count,
            pos <= data@.len(),
            framed_header(data@) == Ok::<HeaderTuple, DumpErrorView>(header),
            header.3 == count,
            goal == frames_at(data@, 28, count as nat, LIMIT),
            goal == after(
                persisted_views(entries@),
                frames_at(data@, pos as int, (count - i) as nat, LIMIT),
            ),
        decreases count - i,
    {
        let ghost before = persisted_views(entries@);
        match next_frame::<LIMIT>(data, pos) {
            Err(e) => {
                return Err(e);
            },
            Ok((entry, next)) => {
                entries.push(entry);
                proof {
                    assert(persisted_views(entries@) =~= before.push(entry@));
                    if let Ok(rest) = frames_at(data@, next as int, (count - i - 1) as nat, LIMIT) {
                        assert(before + (seq![entry@] + rest) =~= persisted_views(entries@) + rest);
                    }
                }
                pos = next;
            },
        }
        i = i + 1;
    }
    if pos != data.len() {
        return Err(DumpError::TrailingBytes);
    }
    assert(persisted_views(entries@) + Seq::<PersistedView>::empty() =~= persisted_views(
        entries@,
    ));
    Ok(
        PersistedCacheDump {
            magic: header.0,
            version: header.1,
            dumped_at_unix_ms: header.2,
            entries,
        },
    )
}

/// Reading a dump of any version.
pub open spec fn parsed_dump(data: Seq<u8>, limit: usize) -> Result<LegacyView, DumpErrorView> {
    match dump_version(data) {
        Err(e) => Err(e),
        Ok(v) => if v == LEGACY_CACHE_DUMP_VERSION || v == PREVIOUS_CACHE_DUMP_VERSION {
            legacy_dump(data, limit)
        } else if v == CACHE_DUMP_VERSION {
            framed_dump(data, limit)
        } else {
            Err(DumpErrorView::UnsupportedVersion(v))
        },
    }
}

/// Reads a dump of any version, with a limit on what is allocated at once.
pub fn parse_persisted_dump_with_limit<const LIMIT: usize>(data: &[u8]) -> (r: Result<
    PersistedCacheDump,
    DumpError,
>)
    requires
        LIMIT <= isize::MAX,
    ensures
        dump_is(r, parsed_dump(data@, LIMIT)),
{
    let version: u32 = match parse_dump_prefix(data) {
        Ok(v) => v,
        Err(e) => return Err(e),
    };
    if version == LEGACY_CACHE_DUMP_VERSION || version == PREVIOUS_CACHE_DUMP_VERSION {
        parse_legacy_persisted_dump_with_limit::<LIMIT>(data)
    } else if version == CACHE_DUMP_VERSION {
        decode_v3_dump_for_test::<LIMIT>(data)
    } else {
        Err(DumpError::UnsupportedVersion(version))
    }
}

/// Reads a dump of any version, with the limit of files.
pub fn parse_persisted_dump(data: &[u8]) -> (r: Result<PersistedCacheDump, DumpError>)
    ensures
        dump_is(r, parsed_dump(data@, MAX_PERSISTED_CACHE_DUMP_BYTES)),
{
    parse_persisted_dump_with_limit::<MAX_PERSISTED_CACHE_DUMP_BYTES>(data)
}

} // verus!
