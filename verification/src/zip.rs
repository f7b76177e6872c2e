//! The ZIP container: the end-of-central-directory record, the central
//! directory, and the content of one named entry.
//!
//! Entries are found through the central directory alone. A local header is
//! read only to learn where an entry's data begins.

use vstd::prelude::*;
use vstd::slice::slice_to_vec;
use crate::bytes::{bytes_equal, spec_u16_le, spec_u32_le, u16_le, u32_le, ByteReader};
use crate::error::ApkError;
use crate::inflate::{checked_inflation, inflate_exact, inflated};
use crate::sequence::{followed_by, lemma_followed_by_ends, lemma_followed_by_step};

verus! {

/// The signature of the end-of-central-directory record.
pub const EOCD_MAGIC: u32 = 0x0605_4b50;

/// The signature of a central-directory header.
pub const DIRECTORY_MAGIC: u32 = 0x0201_4b50;

/// The signature of a local file header.
pub const LOCAL_MAGIC: u32 = 0x0403_4b50;

/// The size of an end-of-central-directory record without a comment.
pub const EOCD_SIZE: usize = 22;

/// The longest comment that may follow the record.
pub const MAX_COMMENT: usize = 65535;

/// The fixed part of a central-directory header.
pub const DIRECTORY_HEADER_SIZE: usize = 46;

/// The fixed part of a local file header.
pub const LOCAL_HEADER_SIZE: usize = 30;

/// The compression method of an entry stored as it is.
pub const METHOD_STORED: u16 = 0;

/// The compression method of a DEFLATE stream.
pub const METHOD_DEFLATE: u16 = 8;

/// One entry of the central directory.
#[derive(Clone, Debug)]
pub struct ZipEntry {
    pub name: Vec<u8>,
    pub method: u16,
    pub compressed_size: u32,
    pub uncompressed_size: u32,
    pub header_offset: u32,
}

/// The mathematical content of a `ZipEntry`.
pub struct ZipEntryView {
    pub name: Seq<u8>,
    pub method: u16,
    pub compressed_size: u32,
    pub uncompressed_size: u32,
    pub header_offset: u32,
}

impl View for ZipEntry {
    type V = ZipEntryView;

    open spec fn view(&self) -> ZipEntryView {
        ZipEntryView {
            name: self.name@,
            method: self.method,
            compressed_size: self.compressed_size,
            uncompressed_size: self.uncompressed_size,
            header_offset: self.header_offset,
        }
    }
}

/// The views of a sequence of entries.
pub open spec fn entry_views(entries: Seq<ZipEntry>) -> Seq<ZipEntryView> {
    entries.map_values(|e: ZipEntry| e@)
}

/// The lowest offset at which the end-of-central-directory record can begin:
/// the comment after it is at most `MAX_COMMENT` bytes long.
pub open spec fn lowest_eocd(s: Seq<u8>) -> int {
    if s.len() > EOCD_SIZE + MAX_COMMENT {
        s.len() - EOCD_SIZE - MAX_COMMENT
    } else {
        0
    }
}

/// The highest offset in `lowest ..= p` that carries the record's signature.
pub open spec fn scan_eocd(s: Seq<u8>, p: int, lowest: int) -> Option<int>
    decreases p - lowest + 1,
{
    if p < lowest {
        None
    } else if spec_u32_le(s, p) == EOCD_MAGIC {
        Some(p)
    } else {
        scan_eocd(s, p - 1, lowest)
    }
}

/// Where the end-of-central-directory record begins: the last offset that
/// carries its signature and leaves room for the record and a comment.
pub open spec fn find_eocd(s: Seq<u8>) -> Option<int> {
    if s.len() < EOCD_SIZE {
        None
    } else {
        scan_eocd(s, s.len() - EOCD_SIZE, lowest_eocd(s))
    }
}

/// The length of the directory header at `pos`, with its name, extra field
/// and comment.
pub open spec fn header_len(s: Seq<u8>, pos: int) -> int {
    DIRECTORY_HEADER_SIZE + spec_u16_le(s, pos + 28) + spec_u16_le(s, pos + 30) + spec_u16_le(
        s,
        pos + 32,
    )
}

/// Whether a complete directory header begins at `pos` and ends by `end`.
pub open spec fn header_ok(s: Seq<u8>, pos: int, end: int) -> bool {
    &&& pos + DIRECTORY_HEADER_SIZE <= end
    &&& spec_u32_le(s, pos) == DIRECTORY_MAGIC
    &&& pos + header_len(s, pos) <= end
}

/// The entry that the directory header at `pos` describes.
pub open spec fn header_entry(s: Seq<u8>, pos: int) -> ZipEntryView {
    ZipEntryView {
        name: s.subrange(
            pos + DIRECTORY_HEADER_SIZE,
            pos + DIRECTORY_HEADER_SIZE + spec_u16_le(s, pos + 28),
        ),
        method: spec_u16_le(s, pos + 10) as u16,
        compressed_size: spec_u32_le(s, pos + 20) as u32,
        uncompressed_size: spec_u32_le(s, pos + 24) as u32,
        header_offset: spec_u32_le(s, pos + 42) as u32,
    }
}

/// The `count` entries whose headers follow one another from `pos`, none of
/// them reaching past `end`; `None` if a header is malformed or cut short.
pub open spec fn directory_entries(s: Seq<u8>, pos: int, end: int, count: nat) -> Option<
    Seq<ZipEntryView>,
>
    decreases count,
{
    if count == 0 {
        Some(Seq::empty())
    } else if !header_ok(s, pos, end) {
        None
    } else {
        match directory_entries(s, pos + header_len(s, pos), end, (count - 1) as nat) {
            None => None,
            Some(rest) => Some(seq![header_entry(s, pos)] + rest),
        }
    }
}

/// Where the central directory lies and how many entries it holds, as the
/// end-of-central-directory record says.
#[derive(Clone, Copy, Debug, PartialEq, Eq, Structural)]
pub struct DirectoryLocation {
    pub offset: u32,
    pub size: u32,
    pub count: u16,
}

/// The location that the end-of-central-directory record of `s` gives. A
/// source too short for the record is `Truncated`; a source without the
/// record, with two entry counts that differ, or with a directory that does
/// not end before the record is `MalformedZip`.
pub open spec fn directory_location(s: Seq<u8>) -> Result<DirectoryLocation, ApkError> {
    if s.len() < EOCD_SIZE {
        Err(ApkError::Truncated)
    } else {
        match find_eocd(s) {
            None => Err(ApkError::MalformedZip),
            Some(p) => {
                let count = spec_u16_le(s, p + 10);
                let size = spec_u32_le(s, p + 12);
                let offset = spec_u32_le(s, p + 16);
                if spec_u16_le(s, p + 8) != count || offset + size > p {
                    Err(ApkError::MalformedZip)
                } else {
                    Ok(
                        DirectoryLocation {
                            offset: offset as u32,
                            size: size as u32,
                            count: count as u16,
                        },
                    )
                }
            },
        }
    }
}

/// The entries of the directory that lies at `location`, in directory order;
/// `MalformedZip` if the directory does not lie inside `s` or one of its
/// headers is malformed or cut short.
pub open spec fn entries_at(s: Seq<u8>, location: DirectoryLocation) -> Result<
    Seq<ZipEntryView>,
    ApkError,
> {
    if location.offset + location.size > s.len() {
        Err(ApkError::MalformedZip)
    } else {
        match directory_entries(
            s,
            location.offset as int,
            location.offset + location.size,
            location.count as nat,
        ) {
            None => Err(ApkError::MalformedZip),
            Some(entries) => Ok(entries),
        }
    }
}

/// The directory of the container `s`: its entries in directory order, and
/// the offset at which the directory begins.
pub open spec fn index_of(s: Seq<u8>) -> Result<(Seq<ZipEntryView>, int), ApkError> {
    match directory_location(s) {
        Err(e) => Err(e),
        Ok(location) => match entries_at(s, location) {
            Err(e) => Err(e),
            Ok(entries) => Ok((entries, location.offset as int)),
        },
    }
}

/// The entry that a lookup of `name` yields: the last one of that name.
pub open spec fn find_entry(entries: Seq<ZipEntryView>, name: Seq<u8>) -> Option<ZipEntryView>
    decreases entries.len(),
{
    if entries.len() == 0 {
        None
    } else if entries.last().name == name {
        Some(entries.last())
    } else {
        find_entry(entries.drop_last(), name)
    }
}

/// The bytes that the container stores for `e`, located through the entry's
/// local header.
pub open spec fn stored_bytes(s: Seq<u8>, e: ZipEntryView) -> Result<Seq<u8>, ApkError> {
    let h = e.header_offset as int;
    if h + LOCAL_HEADER_SIZE > s.len() {
        Err(ApkError::Truncated)
    } else if spec_u32_le(s, h) != LOCAL_MAGIC {
        Err(ApkError::MalformedZip)
    } else {
        let start = h + LOCAL_HEADER_SIZE + spec_u16_le(s, h + 26) + spec_u16_le(s, h + 28);
        if start + e.compressed_size > s.len() {
            Err(ApkError::Truncated)
        } else {
            Ok(s.subrange(start, start + e.compressed_size))
        }
    }
}

/// The content of `e`: its stored bytes, inflated where the method says so,
/// and in every case of exactly the size that the directory declares.
pub open spec fn content_of(s: Seq<u8>, e: ZipEntryView) -> Result<Seq<u8>, ApkError> {
    match stored_bytes(s, e) {
        Err(err) => Err(err),
        Ok(raw) => if e.method == METHOD_STORED {
            if raw.len() == e.uncompressed_size {
                Ok(raw)
            } else {
                Err(ApkError::DecompressionError)
            }
        } else if e.method == METHOD_DEFLATE {
            checked_inflation(
                inflated(raw, e.uncompressed_size as nat),
                e.uncompressed_size as nat,
            )
        } else {
            Err(ApkError::DecompressionError)
        },
    }
}

/// The content of the entry called `name`.
pub open spec fn entry_content(s: Seq<u8>, entries: Seq<ZipEntryView>, name: Seq<u8>) -> Result<
    Seq<u8>,
    ApkError,
> {
    match find_entry(entries, name) {
        None => Err(ApkError::EntryNotFound),
        Some(e) => content_of(s, e),
    }
}

/// Whether the record's signature stands at `p`, with room after it for the
/// record and for a comment of at most `MAX_COMMENT` bytes.
pub open spec fn eocd_candidate(s: Seq<u8>, p: int) -> bool {
    &&& lowest_eocd(s) <= p
    &&& p + EOCD_SIZE <= s.len()
    &&& spec_u32_le(s, p) == EOCD_MAGIC
}

/// A scan finds the last candidate between its bounds, and fails only where
/// there is none.
pub proof fn lemma_scan_finds_last(s: Seq<u8>, p: int, lowest: int)
    ensures
        match scan_eocd(s, p, lowest) {
            Some(q) => lowest <= q <= p && spec_u32_le(s, q) == EOCD_MAGIC && forall|k: int|
                q < k <= p ==> spec_u32_le(s, k) != EOCD_MAGIC,
            None => forall|k: int| lowest <= k <= p ==> spec_u32_le(s, k) != EOCD_MAGIC,
        },
    decreases p - lowest + 1,
{
    if p >= lowest && spec_u32_le(s, p) != EOCD_MAGIC {
        lemma_scan_finds_last(s, p - 1, lowest);
    }
}

/// The end-of-central-directory record is the last candidate, and there is
/// none exactly where the source holds no candidate.
pub proof fn lemma_eocd_is_last_candidate(s: Seq<u8>)
    ensures
        match find_eocd(s) {
            Some(p) => eocd_candidate(s, p) && forall|k: int| p < k ==> !eocd_candidate(s, k),
            None => forall|k: int| !eocd_candidate(s, k),
        },
{
    if s.len() >= EOCD_SIZE {
        lemma_scan_finds_last(s, s.len() - EOCD_SIZE, lowest_eocd(s));
    }
}

/// A directory that was located ends before the end-of-central-directory
/// record, which itself lies inside the source.
pub proof fn lemma_location_lies_in_source(s: Seq<u8>)
    ensures
        directory_location(s) matches Ok(location) ==> location.offset + location.size + EOCD_SIZE
            <= s.len(),
{
    lemma_eocd_is_last_candidate(s);
}

/// A container is reported as truncated exactly when it is shorter than the
/// smallest end-of-central-directory record.
pub proof fn lemma_truncated_iff_short(s: Seq<u8>)
    ensures
        index_of(s) == Err::<(Seq<ZipEntryView>, int), ApkError>(ApkError::Truncated) <==> s.len()
            < EOCD_SIZE,
{
}

/// The content of an entry, where there is any, has exactly the size that
/// the directory declares for the entry.
pub proof fn lemma_content_has_declared_size(
    s: Seq<u8>,
    entries: Seq<ZipEntryView>,
    name: Seq<u8>,
)
    ensures
        match entry_content(s, entries, name) {
            Ok(v) => find_entry(entries, name) is Some && v.len() == find_entry(
                entries,
                name,
            )->Some_0.uncompressed_size,
            Err(_) => true,
        },
{
}

/// An entry that a lookup yields is an entry of the directory, it has the
/// name that was asked for, and no later entry has that name.
pub proof fn lemma_find_entry_is_last(entries: Seq<ZipEntryView>, name: Seq<u8>)
    ensures
        match find_entry(entries, name) {
            Some(e) => exists|i: int|
                0 <= i < entries.len() && entries[i] == e && e.name == name && forall|j: int|
                    i < j < entries.len() ==> entries[j].name != name,
            None => forall|j: int| 0 <= j < entries.len() ==> entries[j].name != name,
        },
    decreases entries.len(),
{
    if entries.len() > 0 {
        if entries.last().name == name {
            let i = entries.len() - 1;
            assert(entries[i] == entries.last());
        } else {
            let front = entries.drop_last();
            lemma_find_entry_is_last(front, name);
            match find_entry(front, name) {
                Some(e) => {
                    let i = choose|i: int|
                        0 <= i < front.len() && front[i] == e && e.name == name && forall|j: int|
                            i < j < front.len() ==> front[j].name != name;
                    assert(entries[i] == e);
                    assert forall|j: int| i < j < entries.len() implies entries[j].name != name by {
                        if j < front.len() {
                            assert(front[j] == entries[j]);
                        }
                    }
                },
                None => {
                    assert forall|j: int| 0 <= j < entries.len() implies entries[j].name != name by {
                        if j < front.len() {
                            assert(front[j] == entries[j]);
                        }
                    }
                },
            }
        }
    }
}

/// Locates the end-of-central-directory record.
fn locate_eocd(data: &[u8]) -> (r: Option<usize>)
    requires
        data.len() >= EOCD_SIZE,
    ensures
        r matches Some(p) ==> find_eocd(data@) == Some(p as int) && p + EOCD_SIZE <= data.len(),
        r is None ==> find_eocd(data@) is None,
{
    let n: usize = data.len();
    let lowest: usize = if n > EOCD_SIZE + MAX_COMMENT {
        n - EOCD_SIZE - MAX_COMMENT
    } else {
        0
    };
    let mut p: usize = n - EOCD_SIZE;
    loop
        invariant
            n == data.len(),
            n >= EOCD_SIZE,
            lowest == lowest_eocd(data@),
            lowest <= p <= n - EOCD_SIZE,
            find_eocd(data@) == scan_eocd(data@, p as int, lowest as int),
        decreases p - lowest,
    {
        if u32_le(data, p) == EOCD_MAGIC {
            return Some(p);
        }
        if p == lowest {
            assert(scan_eocd(data@, p - 1, lowest as int) is None);
            return None;
        }
        p = p - 1;
    }
}

/// Reads `count` directory headers from `start`, none reaching past `end`.
fn read_directory(data: &[u8], start: usize, end: usize, count: u16) -> (r: Option<Vec<ZipEntry>>)
    requires
        start <= end <= data.len(),
    ensures
        r matches Some(v) ==> directory_entries(data@, start as int, end as int, count as nat)
            == Some(entry_views(v@)),
        r is None ==> directory_entries(data@, start as int, end as int, count as nat) is None,
{
    let mut entries: Vec<ZipEntry> = Vec::new();
    let mut pos: usize = start;
    let mut i: u16 = 0;
    proof {
        assert(entry_views(entries@) =~= Seq::<ZipEntryView>::empty());
        lemma_followed_by_ends(
            entry_views(entries@),
            directory_entries(data@, start as int, end as int, count as nat),
        );
    }
    while i < count
        invariant
            start <= pos <= end <= data.len(),
            i <= count,
            directory_entries(data@, start as int, end as int, count as nat) == followed_by(
                entry_views(entries@),
                directory_entries(data@, pos as int, end as int, (count - i) as nat),
            ),
        decreases count - i,
    {
        if end - pos < DIRECTORY_HEADER_SIZE {
            return None;
        }
        if u32_le(data, pos) != DIRECTORY_MAGIC {
            return None;
        }
        let name_len: usize = u16_le(data, pos + 28) as usize;
        let extra_len: usize = u16_le(data, pos + 30) as usize;
        let comment_len: usize = u16_le(data, pos + 32) as usize;
        let total: usize = DIRECTORY_HEADER_SIZE + name_len + extra_len + comment_len;
        if end - pos < total {
            return None;
        }
        let name = &data[pos + DIRECTORY_HEADER_SIZE..pos + DIRECTORY_HEADER_SIZE + name_len];
        let entry = ZipEntry {
            name: slice_to_vec(name),
            method: u16_le(data, pos + 10),
            compressed_size: u32_le(data, pos + 20),
            uncompressed_size: u32_le(data, pos + 24),
            header_offset: u32_le(data, pos + 42),
        };
        proof {
            assert(entry@ == header_entry(data@, pos as int));
            assert(entry_views(entries@.push(entry)) =~= entry_views(entries@).push(entry@));
            lemma_followed_by_step(
                entry_views(entries@),
                entry@,
                directory_entries(data@, pos + total, end as int, (count - i - 1) as nat),
            );
        }
        entries.push(entry);
        pos = pos + total;
        i = i + 1;
    }
    proof {
        lemma_followed_by_ends(
            entry_views(entries@),
            directory_entries(data@, start as int, end as int, count as nat),
        );
    }
    Some(entries)
}

/// Finds the end-of-central-directory record and reads from it where the
/// central directory lies.
///
/// A source shorter than the smallest record is `Truncated`. A source
/// without the record, with two entry counts that differ, or with a
/// directory that does not end before the record is `MalformedZip`.
pub fn locate_directory(reader: &ByteReader) -> (r: Result<DirectoryLocation, ApkError>)
    ensures
        r == directory_location(reader@),
        r matches Ok(location) ==> location.offset + location.size + EOCD_SIZE <= reader@.len(),
{
    let data = reader.as_slice();
    if data.len() < EOCD_SIZE {
        return Err(ApkError::Truncated);
    }
    let p: usize = match locate_eocd(data) {
        None => { return Err(ApkError::MalformedZip); },
        Some(p) => p,
    };
    let disk_count: u16 = u16_le(data, p + 8);
    let count: u16 = u16_le(data, p + 10);
    let size: u32 = u32_le(data, p + 12);
    let offset: u32 = u32_le(data, p + 16);
    if disk_count != count || offset as u64 + size as u64 > p as u64 {
        return Err(ApkError::MalformedZip);
    }
    Ok(DirectoryLocation { offset, size, count })
}

/// The directory of one container, and the source it was read from.
pub struct ZipIndex<'a> {
    pub source: &'a ByteReader,
    pub entries: Vec<ZipEntry>,
    pub directory_offset: u32,
}

impl<'a> ZipIndex<'a> {
    /// The entries as mathematical values, in directory order.
    pub open spec fn entries_view(&self) -> Seq<ZipEntryView> {
        entry_views(self.entries@)
    }

    /// Whether this index is the directory of its own source.
    pub open spec fn well_formed(&self) -> bool {
        index_of(self.source@) == Ok::<(Seq<ZipEntryView>, int), ApkError>(
            (self.entries_view(), self.directory_offset as int),
        )
    }

    /// Reads the directory that lies at `location` in `reader`.
    ///
    /// `MalformedZip` if the directory does not lie inside the source or one
    /// of its headers is malformed or cut short.
    pub fn open_at(reader: &'a ByteReader, location: DirectoryLocation) -> (r: Result<
        ZipIndex<'a>,
        ApkError,
    >)
        ensures
            match r {
                Ok(z) => z.source == reader && z.directory_offset == location.offset && entries_at(
                    reader@,
                    location,
                ) == Ok::<Seq<ZipEntryView>, ApkError>(z.entries_view()),
                Err(e) => entries_at(reader@, location) == Err::<Seq<ZipEntryView>, ApkError>(e),
            },
    {
        let data = reader.as_slice();
        if location.offset as u64 + location.size as u64 > data.len() as u64 {
            return Err(ApkError::MalformedZip);
        }
        let start: usize = location.offset as usize;
        let end: usize = start + location.size as usize;
        match read_directory(data, start, end, location.count) {
            None => Err(ApkError::MalformedZip),
            Some(entries) => Ok(
                ZipIndex { source: reader, entries, directory_offset: location.offset },
            ),
        }
    }

    /// Reads the directory of the container in `reader`.
    ///
    /// A source shorter than the smallest end-of-central-directory record is
    /// `Truncated`. A source without that record, with two entry counts that
    /// differ, with a directory that does not end before the record, or with
    /// a directory header that is malformed or cut short is `MalformedZip`.
    pub fn open(reader: &'a ByteReader) -> (r: Result<ZipIndex<'a>, ApkError>)
        ensures
            match r {
                Ok(z) => z.source == reader && z.well_formed(),
                Err(e) => index_of(reader@) == Err::<(Seq<ZipEntryView>, int), ApkError>(e),
            },
            reader@.len() < EOCD_SIZE ==> r == Err::<ZipIndex<'a>, ApkError>(ApkError::Truncated),
    {
        match locate_directory(reader) {
            Err(e) => Err(e),
            Ok(location) => ZipIndex::open_at(reader, location),
        }
    }

    /// The number of entries in the directory.
    pub fn len(&self) -> (n: usize)
        ensures
            n == self.entries_view().len(),
    {
        self.entries.len()
    }

    /// The position in the directory of the entry that a lookup of `name`
    /// yields.
    pub fn position(&self, name: &[u8]) -> (r: Option<usize>)
        ensures
            r matches Some(i) ==> i < self.entries_view().len() && find_entry(
                self.entries_view(),
                name@,
            ) == Some(self.entries_view()[i as int]),
            r is None ==> find_entry(self.entries_view(), name@) is None,
    {
        let ghost all = self.entries_view();
        let mut i: usize = self.entries.len();
        assert(all.take(i as int) =~= all);
        while i > 0
            invariant
                all == self.entries_view(),
                i <= all.len(),
                find_entry(all, name@) == find_entry(all.take(i as int), name@),
            decreases i,
        {
            assert(all.take(i as int).last() == all[i - 1]);
            assert(all.take(i as int).drop_last() =~= all.take(i - 1));
            if bytes_equal(self.entries[i - 1].name.as_slice(), name) {
                return Some(i - 1);
            }
            i = i - 1;
        }
        None
    }

    /// Whether the directory has an entry called `name`.
    pub fn contains(&self, name: &[u8]) -> (r: bool)
        ensures
            r == find_entry(self.entries_view(), name@).is_some(),
    {
        self.position(name).is_some()
    }

    /// Reads the content of the entry called `name`.
    ///
    /// `EntryNotFound` if the directory has no such entry. `Truncated` if the
    /// entry's local header or data runs past the source, `MalformedZip` if
    /// the local header lacks its signature. `DecompressionError` if the
    /// method is neither stored nor DEFLATE, if the stream is invalid, or if
    /// the content is not of the size that the directory declares.
    pub fn read_entry(&self, name: &[u8]) -> (r: Result<Vec<u8>, ApkError>)
        ensures
            match r {
                Ok(v) => entry_content(self.source@, self.entries_view(), name@) == Ok::<
                    Seq<u8>,
                    ApkError,
                >(v@),
                Err(e) => entry_content(self.source@, self.entries_view(), name@) == Err::<
                    Seq<u8>,
                    ApkError,
                >(e),
            },
            r matches Ok(v) ==> find_entry(self.entries_view(), name@) matches Some(e)
                && v@.len() == e.uncompressed_size,
    {
        let i: usize = match self.position(name) {
            None => { return Err(ApkError::EntryNotFound); },
            Some(i) => i,
        };
        let entry = &self.entries[i];
        let data = self.source.as_slice();
        let n: usize = data.len();
        let h: usize = entry.header_offset as usize;
        if h > n || n - h < LOCAL_HEADER_SIZE {
            return Err(ApkError::Truncated);
        }
        if u32_le(data, h) != LOCAL_MAGIC {
            return Err(ApkError::MalformedZip);
        }
        let skip: usize = LOCAL_HEADER_SIZE + u16_le(data, h + 26) as usize + u16_le(
            data,
            h + 28,
        ) as usize;
        if n - h < skip || n - h - skip < entry.compressed_size as usize {
            return Err(ApkError::Truncated);
        }
        let start: usize = h + skip;
        let raw = &data[start..start + entry.compressed_size as usize];
        if entry.method == METHOD_STORED {
            if entry.compressed_size == entry.uncompressed_size {
                Ok(slice_to_vec(raw))
            } else {
                Err(ApkError::DecompressionError)
            }
        } else if entry.method == METHOD_DEFLATE {
            inflate_exact(raw, entry.uncompressed_size as usize)
        } else {
            Err(ApkError::DecompressionError)
        }
    }
}

} // verus!
