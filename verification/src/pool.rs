//! The string pool of a binary XML document: the table of strings that the
//! rest of the document refers to by index.
//!
//! A pool chunk holds a header, one 32-bit offset per string, and the string
//! data. A string is stored with its length in front, as UTF-8 bytes or as
//! UTF-16 units, as a flag in the header says.

use vstd::prelude::*;
use vstd::slice::slice_to_vec;
use crate::bytes::{spec_u16_le, spec_u32_le, u16_le, u32_le};
use crate::text::{decode_utf16_text, decode_utf8_text, text_view, utf16_text, utf8_text};

verus! {

/// The smallest header of a pool chunk.
pub const POOL_HEADER_SIZE: usize = 28;

/// The type of the chunk that begins at `pos`.
pub open spec fn chunk_kind(s: Seq<u8>, pos: int) -> int {
    spec_u16_le(s, pos)
}

/// The size of the header of the chunk that begins at `pos`.
pub open spec fn chunk_header_size(s: Seq<u8>, pos: int) -> int {
    spec_u16_le(s, pos + 2)
}

/// The size of the chunk that begins at `pos`, header included.
pub open spec fn chunk_size(s: Seq<u8>, pos: int) -> int {
    spec_u32_le(s, pos + 4)
}

/// Whether a whole chunk begins at `pos` and ends by `end`.
pub open spec fn chunk_fits(s: Seq<u8>, pos: int, end: int) -> bool {
    &&& pos + 8 <= end
    &&& 8 <= chunk_header_size(s, pos) <= chunk_size(s, pos)
    &&& pos + chunk_size(s, pos) <= end
}

/// The number of strings in the pool chunk at `c`.
pub open spec fn pool_count(s: Seq<u8>, c: int) -> int {
    spec_u32_le(s, c + 8)
}

/// Whether the pool chunk at `c` stores its strings as UTF-8.
pub open spec fn pool_is_utf8(s: Seq<u8>, c: int) -> bool {
    (spec_u32_le(s, c + 16) / 256) % 2 == 1
}

/// Whether the pool chunk at `c` has room for its header and offset table.
pub open spec fn pool_fits(s: Seq<u8>, c: int) -> bool {
    &&& chunk_header_size(s, c) >= POOL_HEADER_SIZE
    &&& chunk_header_size(s, c) + 4 * pool_count(s, c) <= chunk_size(s, c)
}

/// Where the record of string `i` begins.
pub open spec fn string_start(s: Seq<u8>, c: int, i: int) -> int {
    c + spec_u32_le(s, c + 20) + spec_u32_le(s, c + chunk_header_size(s, c) + 4 * i)
}

/// The bytes of the UTF-8 string record at `p`, which may not reach past
/// `e`: a character count of one or two bytes, a byte count of one or two
/// bytes, then the bytes.
pub open spec fn utf8_record(s: Seq<u8>, p: int, e: int) -> Option<Seq<u8>> {
    if p + 1 > e {
        None
    } else {
        let q = if s[p] >= 0x80 {
            p + 2
        } else {
            p + 1
        };
        if q + 1 > e {
            None
        } else if s[q] >= 0x80 {
            if q + 2 > e || q + 2 + (s[q] - 0x80) * 256 + s[q + 1] > e {
                None
            } else {
                Some(s.subrange(q + 2, q + 2 + (s[q] - 0x80) * 256 + s[q + 1]))
            }
        } else {
            if q + 1 + s[q] > e {
                None
            } else {
                Some(s.subrange(q + 1, q + 1 + s[q]))
            }
        }
    }
}

/// The `len` UTF-16 units stored from `data` on.
pub open spec fn units_at(s: Seq<u8>, data: int, len: int) -> Seq<u16> {
    Seq::new(len as nat, |k: int| spec_u16_le(s, data + 2 * k) as u16)
}

/// The units of the UTF-16 string record at `p`, which may not reach past
/// `e`: a unit count of one or two 16-bit words, then the units.
pub open spec fn utf16_record(s: Seq<u8>, p: int, e: int) -> Option<Seq<u16>> {
    if p + 2 > e {
        None
    } else if spec_u16_le(s, p) >= 0x8000 {
        let len = (spec_u16_le(s, p) - 0x8000) * 65536 + spec_u16_le(s, p + 2);
        if p + 4 > e || p + 4 + 2 * len > e {
            None
        } else {
            Some(units_at(s, p + 4, len))
        }
    } else {
        let len = spec_u16_le(s, p);
        if p + 2 + 2 * len > e {
            None
        } else {
            Some(units_at(s, p + 2, len))
        }
    }
}

/// String `i` of the pool chunk at `c`: `None` if its record runs past the
/// chunk, `Some(None)` if its content is not well-formed text.
pub open spec fn pool_string(s: Seq<u8>, c: int, i: int) -> Option<Option<Seq<char>>> {
    let e = c + chunk_size(s, c);
    let p = string_start(s, c, i);
    if pool_is_utf8(s, c) {
        match utf8_record(s, p, e) {
            None => None,
            Some(raw) => Some(utf8_text(raw)),
        }
    } else {
        match utf16_record(s, p, e) {
            None => None,
            Some(units) => Some(utf16_text(units)),
        }
    }
}

/// The strings of the pool chunk at `c`, by index; `None` if the chunk has
/// no room for its table or a string's record runs past the chunk.
pub open spec fn pool_strings(s: Seq<u8>, c: int) -> Option<Seq<Option<Seq<char>>>> {
    if !pool_fits(s, c) {
        None
    } else if forall|i: int| 0 <= i < pool_count(s, c) ==> (#[trigger] pool_string(s, c, i)) is Some {
        Some(Seq::new(pool_count(s, c) as nat, |i: int| pool_string(s, c, i)->Some_0))
    } else {
        None
    }
}

/// The views of the strings.
pub open spec fn text_views(v: Seq<Option<String>>) -> Seq<Option<Seq<char>>> {
    v.map_values(|t: Option<String>| text_view(t))
}

/// Reads the bytes of a UTF-8 string record.
fn read_utf8_record<'a>(data: &'a [u8], p: usize, e: usize) -> (r: Option<&'a [u8]>)
    requires
        e <= data.len(),
    ensures
        r matches Some(raw) ==> utf8_record(data@, p as int, e as int) == Some(raw@),
        r is None ==> utf8_record(data@, p as int, e as int) is None,
{
    if p >= e {
        return None;
    }
    let q: usize = if data[p] >= 0x80 {
        if e - p < 2 {
            return None;
        }
        p + 2
    } else {
        p + 1
    };
    if q >= e {
        return None;
    }
    if data[q] >= 0x80 {
        if e - q < 2 {
            return None;
        }
        let len: usize = (data[q] - 0x80) as usize * 256 + data[q + 1] as usize;
        if e - (q + 2) < len {
            return None;
        }
        Some(&data[q + 2..q + 2 + len])
    } else {
        let len: usize = data[q] as usize;
        if e - (q + 1) < len {
            return None;
        }
        Some(&data[q + 1..q + 1 + len])
    }
}

/// Reads `len` UTF-16 units from `start` on.
fn read_units(data: &[u8], start: usize, len: usize) -> (r: Vec<u16>)
    requires
        start + 2 * len <= data.len(),
    ensures
        r@ == units_at(data@, start as int, len as int),
{
    let mut units: Vec<u16> = Vec::new();
    let mut k: usize = 0;
    while k < len
        invariant
            k <= len,
            start + 2 * len <= data.len(),
            units@.len() == k,
            forall|j: int| 0 <= j < k ==> units@[j] == spec_u16_le(data@, start + 2 * j) as u16,
        decreases len - k,
    {
        units.push(u16_le(data, start + 2 * k));
        k = k + 1;
    }
    assert(units@ =~= units_at(data@, start as int, len as int));
    units
}

/// Reads the units of a UTF-16 string record.
fn read_utf16_record(data: &[u8], p: usize, e: usize) -> (r: Option<Vec<u16>>)
    requires
        e <= data.len(),
    ensures
        r matches Some(units) ==> utf16_record(data@, p as int, e as int) == Some(units@),
        r is None ==> utf16_record(data@, p as int, e as int) is None,
{
    if p > e || e - p < 2 {
        return None;
    }
    let w: u16 = u16_le(data, p);
    if w >= 0x8000 {
        if e - p < 4 {
            return None;
        }
        let len: u64 = (w - 0x8000) as u64 * 65536 + u16_le(data, p + 2) as u64;
        if 2 * len > (e - (p + 4)) as u64 {
            return None;
        }
        Some(read_units(data, p + 4, len as usize))
    } else {
        let len: usize = w as usize;
        if 2 * len > e - (p + 2) {
            return None;
        }
        Some(read_units(data, p + 2, len))
    }
}

/// Reads the strings of the pool chunk at `c`.
pub(crate) fn read_pool(data: &[u8], c: usize) -> (r: Option<Vec<Option<String>>>)
    requires
        chunk_fits(data@, c as int, data.len() as int),
    ensures
        r matches Some(v) ==> pool_strings(data@, c as int) == Some(text_views(v@)),
        r is None ==> pool_strings(data@, c as int) is None,
{
    let header_size: usize = u16_le(data, c + 2) as usize;
    let size: usize = u32_le(data, c + 4) as usize;
    if header_size < POOL_HEADER_SIZE {
        return None;
    }
    let count: usize = u32_le(data, c + 8) as usize;
    if count as u64 * 4 > (size - header_size) as u64 {
        return None;
    }
    let utf8: bool = (u32_le(data, c + 16) / 256) % 2 == 1;
    let strings_start: u64 = u32_le(data, c + 20) as u64;
    let e: usize = c + size;
    let mut strings: Vec<Option<String>> = Vec::new();
    let mut i: usize = 0;
    while i < count
        invariant
            chunk_fits(data@, c as int, data.len() as int),
            pool_fits(data@, c as int),
            header_size == chunk_header_size(data@, c as int),
            size == chunk_size(data@, c as int),
            count == pool_count(data@, c as int),
            utf8 == pool_is_utf8(data@, c as int),
            strings_start == spec_u32_le(data@, c + 20),
            e == c + size,
            i <= count,
            strings@.len() == i,
            forall|j: int|
                0 <= j < i ==> (#[trigger] pool_string(data@, c as int, j)) == Some(
                    text_views(strings@)[j],
                ),
        decreases count - i,
    {
        let offset: u64 = u32_le(data, c + header_size + 4 * i) as u64;
        let ghost before = strings@;
        if strings_start + offset > size as u64 {
            assert(pool_string(data@, c as int, i as int) is None);
            return None;
        }
        let p: usize = c + (strings_start + offset) as usize;
        let text: Option<String> = if utf8 {
            match read_utf8_record(data, p, e) {
                None => {
                    assert(pool_string(data@, c as int, i as int) is None);
                    return None;
                },
                Some(raw) => decode_utf8_text(slice_to_vec(raw)),
            }
        } else {
            match read_utf16_record(data, p, e) {
                None => {
                    assert(pool_string(data@, c as int, i as int) is None);
                    return None;
                },
                Some(units) => decode_utf16_text(units.as_slice()),
            }
        };
        assert(pool_string(data@, c as int, i as int) == Some(text_view(text)));
        assert(text_views(before.push(text)) =~= text_views(before).push(text_view(text)));
        strings.push(text);
        i = i + 1;
    }
    assert(text_views(strings@) =~= Seq::new(
        pool_count(data@, c as int) as nat,
        |i: int| pool_string(data@, c as int, i)->Some_0,
    ));
    Some(strings)
}

} // verus!
