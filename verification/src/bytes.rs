//! A bounded, random-access view of a package's bytes, and the little-endian
//! integers that every format in a package is built from.

use vstd::prelude::*;
use vstd::slice::slice_to_vec;
use crate::error::ApkError;

verus! {

/// The 16-bit little-endian integer stored at `at`.
pub open spec fn spec_u16_le(s: Seq<u8>, at: int) -> int
    recommends
        0 <= at,
        at + 2 <= s.len(),
{
    s[at] as int + 256 * (s[at + 1] as int)
}

/// The 32-bit little-endian integer stored at `at`.
pub open spec fn spec_u32_le(s: Seq<u8>, at: int) -> int
    recommends
        0 <= at,
        at + 4 <= s.len(),
{
    spec_u16_le(s, at) + 65536 * spec_u16_le(s, at + 2)
}

/// The 64-bit little-endian integer stored at `at`.
pub open spec fn spec_u64_le(s: Seq<u8>, at: int) -> int
    recommends
        0 <= at,
        at + 8 <= s.len(),
{
    spec_u32_le(s, at) + 4294967296 * spec_u32_le(s, at + 4)
}

/// The two bytes that store `v` in little-endian order.
pub open spec fn u16_bytes(v: int) -> Seq<u8> {
    seq![(v % 256) as u8, ((v / 256) % 256) as u8]
}

/// The four bytes that store `v` in little-endian order.
#[verifier::opaque]
pub open spec fn u32_bytes(v: int) -> Seq<u8> {
    u16_bytes(v % 65536) + u16_bytes(v / 65536)
}

/// The eight bytes that store `v` in little-endian order.
#[verifier::opaque]
pub open spec fn u64_bytes(v: int) -> Seq<u8> {
    u32_bytes(v % 4294967296) + u32_bytes(v / 4294967296)
}

/// An integer is stored in as many bytes as its width says.
pub proof fn lemma_stored_lengths(v: int)
    ensures
        u16_bytes(v).len() == 2,
        u32_bytes(v).len() == 4,
        u64_bytes(v).len() == 8,
{
    reveal(u32_bytes);
    reveal(u64_bytes);
}

/// Reading the two bytes that store `v` gives `v`, wherever they stand.
pub proof fn lemma_u16_round_trip(s: Seq<u8>, at: int, v: int)
    requires
        0 <= v < 65536,
        0 <= at,
        at + 2 <= s.len(),
        s.subrange(at, at + 2) == u16_bytes(v),
    ensures
        spec_u16_le(s, at) == v,
{
    let b = s.subrange(at, at + 2);
    assert(b[0] == s[at]);
    assert(b[1] == s[at + 1]);
    assert(u16_bytes(v)[0] == (v % 256) as u8);
    assert(u16_bytes(v)[1] == ((v / 256) % 256) as u8);
}

/// Reading the four bytes that store `v` gives `v`, wherever they stand.
pub proof fn lemma_u32_round_trip(s: Seq<u8>, at: int, v: int)
    requires
        0 <= v < 4294967296,
        0 <= at,
        at + 4 <= s.len(),
        s.subrange(at, at + 4) == u32_bytes(v),
    ensures
        spec_u32_le(s, at) == v,
{
    reveal(u32_bytes);
    let b = s.subrange(at, at + 4);
    assert(s.subrange(at, at + 2) =~= b.subrange(0, 2));
    assert(s.subrange(at + 2, at + 4) =~= b.subrange(2, 4));
    assert(b.subrange(0, 2) =~= u16_bytes(v % 65536));
    assert(b.subrange(2, 4) =~= u16_bytes(v / 65536));
    lemma_u16_round_trip(s, at, v % 65536);
    lemma_u16_round_trip(s, at + 2, v / 65536);
}

/// Reading the eight bytes that store `v` gives `v`, wherever they stand.
pub proof fn lemma_u64_round_trip(s: Seq<u8>, at: int, v: int)
    requires
        0 <= v < 18446744073709551616,
        0 <= at,
        at + 8 <= s.len(),
        s.subrange(at, at + 8) == u64_bytes(v),
    ensures
        spec_u64_le(s, at) == v,
{
    reveal(u64_bytes);
    lemma_stored_lengths(v % 4294967296);
    lemma_stored_lengths(v / 4294967296);
    let b = s.subrange(at, at + 8);
    assert(s.subrange(at, at + 4) =~= b.subrange(0, 4));
    assert(s.subrange(at + 4, at + 8) =~= b.subrange(4, 8));
    assert(b.subrange(0, 4) =~= u32_bytes(v % 4294967296));
    assert(b.subrange(4, 8) =~= u32_bytes(v / 4294967296));
    lemma_u32_round_trip(s, at, v % 4294967296);
    lemma_u32_round_trip(s, at + 4, v / 4294967296);
}

/// Reads the 16-bit little-endian integer at `at`.
pub fn u16_le(data: &[u8], at: usize) -> (r: u16)
    requires
        at + 2 <= data.len(),
    ensures
        r == spec_u16_le(data@, at as int),
{
    let b0: u16 = data[at] as u16;
    let b1: u16 = data[at + 1] as u16;
    b0 + 256 * b1
}

/// Reads the 32-bit little-endian integer at `at`.
pub fn u32_le(data: &[u8], at: usize) -> (r: u32)
    requires
        at + 4 <= data.len(),
    ensures
        r == spec_u32_le(data@, at as int),
{
    let lo: u32 = u16_le(data, at) as u32;
    let hi: u32 = u16_le(data, at + 2) as u32;
    lo + 65536 * hi
}

/// Reads the 64-bit little-endian integer at `at`.
pub fn u64_le(data: &[u8], at: usize) -> (r: u64)
    requires
        at + 8 <= data.len(),
    ensures
        r == spec_u64_le(data@, at as int),
{
    let lo: u64 = u32_le(data, at) as u64;
    let hi: u64 = u32_le(data, at + 4) as u64;
    lo + 4294967296 * hi
}

/// Whether two byte strings hold the same bytes.
pub fn bytes_equal(a: &[u8], b: &[u8]) -> (r: bool)
    ensures
        r == (a@ == b@),
{
    if a.len() != b.len() {
        return false;
    }
    let mut i: usize = 0;
    while i < a.len()
        invariant
            i <= a@.len(),
            a@.len() == b@.len(),
            forall|k: int| 0 <= k < i ==> a@[k] == b@[k],
        decreases a@.len() - i,
    {
        if a[i] != b[i] {
            return false;
        }
        i = i + 1;
    }
    assert(a@ =~= b@);
    true
}

/// The bytes of one package, addressed by offset.
pub struct ByteReader {
    data: Vec<u8>,
}

impl View for ByteReader {
    type V = Seq<u8>;

    closed spec fn view(&self) -> Seq<u8> {
        self.data@
    }
}

impl ByteReader {
    /// A reader over `data`.
    pub fn new(data: Vec<u8>) -> (r: Self)
        ensures
            r@ == data@,
    {
        ByteReader { data }
    }

    /// The number of bytes in the source.
    pub fn size(&self) -> (n: u64)
        ensures
            n == self@.len(),
    {
        self.data.len() as u64
    }

    /// The whole source.
    pub fn as_slice(&self) -> (s: &[u8])
        ensures
            s@ == self@,
    {
        self.data.as_slice()
    }

    /// Whether the span of `length` bytes at `offset` lies inside the source.
    pub open spec fn holds(&self, offset: int, length: int) -> bool {
        0 <= offset && 0 <= length && offset + length <= self@.len()
    }

    /// Decides whether the span of `length` bytes at `offset` lies inside the
    /// source.
    pub fn in_bounds(&self, offset: u64, length: u64) -> (b: bool)
        ensures
            b == self.holds(offset as int, length as int),
            b ==> offset + length <= usize::MAX,
    {
        let n: usize = self.data.len();
        offset <= n as u64 && length <= n as u64 - offset
    }

    /// Copies the span of `length` bytes at `offset`, or reports `Truncated`
    /// when the span runs past the end of the source.
    pub fn read_at(&self, offset: u64, length: u64) -> (r: Result<Vec<u8>, ApkError>)
        ensures
            self.holds(offset as int, length as int) ==> r is Ok && r->Ok_0@ == self@.subrange(
                offset as int,
                offset + length,
            ),
            !self.holds(offset as int, length as int) ==> r == Err::<Vec<u8>, ApkError>(
                ApkError::Truncated,
            ),
    {
        if !self.in_bounds(offset, length) {
            return Err(ApkError::Truncated);
        }
        let start: usize = offset as usize;
        let end: usize = (offset + length) as usize;
        let span = &self.data.as_slice()[start..end];
        Ok(slice_to_vec(span))
    }

    /// The 16-bit little-endian integer at `offset`.
    pub fn u16_at(&self, offset: u64) -> (r: Result<u16, ApkError>)
        ensures
            r == (if self.holds(offset as int, 2) {
                Ok::<u16, ApkError>(spec_u16_le(self@, offset as int) as u16)
            } else {
                Err(ApkError::Truncated)
            }),
    {
        if !self.in_bounds(offset, 2) {
            return Err(ApkError::Truncated);
        }
        Ok(u16_le(self.data.as_slice(), offset as usize))
    }

    /// The 32-bit little-endian integer at `offset`.
    pub fn u32_at(&self, offset: u64) -> (r: Result<u32, ApkError>)
        ensures
            r == (if self.holds(offset as int, 4) {
                Ok::<u32, ApkError>(spec_u32_le(self@, offset as int) as u32)
            } else {
                Err(ApkError::Truncated)
            }),
    {
        if !self.in_bounds(offset, 4) {
            return Err(ApkError::Truncated);
        }
        Ok(u32_le(self.data.as_slice(), offset as usize))
    }

    /// The 64-bit little-endian integer at `offset`.
    pub fn u64_at(&self, offset: u64) -> (r: Result<u64, ApkError>)
        ensures
            r == (if self.holds(offset as int, 8) {
                Ok::<u64, ApkError>(spec_u64_le(self@, offset as int) as u64)
            } else {
                Err(ApkError::Truncated)
            }),
    {
        if !self.in_bounds(offset, 8) {
            return Err(ApkError::Truncated);
        }
        Ok(u64_le(self.data.as_slice(), offset as usize))
    }
}

} // verus!
