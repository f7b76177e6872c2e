//! Length-prefixed fields: a 32-bit little-endian length, then that many
//! bytes. Signer records are built from these and from sequences of them.

use vstd::prelude::*;
use crate::bytes::{lemma_stored_lengths, lemma_u32_round_trip, spec_u32_le, u32_bytes, u32_le};
use crate::sequence::{followed_by, lemma_followed_by_ends, lemma_followed_by_step};

verus! {

/// The first length-prefixed field of `b` and the bytes that follow it;
/// `None` if the prefix is cut short or the length runs past the end of `b`.
pub open spec fn lp_split(b: Seq<u8>) -> Option<(Seq<u8>, Seq<u8>)> {
    if b.len() < 4 {
        None
    } else {
        let n = spec_u32_le(b, 0);
        if n > b.len() - 4 {
            None
        } else {
            Some((b.subrange(4, 4 + n), b.subrange(4 + n, b.len() as int)))
        }
    }
}

/// The fields of `b` when `b` is length-prefixed fields from end to end.
pub open spec fn lp_items(b: Seq<u8>) -> Option<Seq<Seq<u8>>>
    decreases b.len(),
{
    if b.len() == 0 {
        Some(Seq::empty())
    } else {
        match lp_split(b) {
            None => None,
            Some((item, rest)) => match lp_items(rest) {
                None => None,
                Some(items) => Some(seq![item] + items),
            },
        }
    }
}

/// An algorithm number and the length-prefixed bytes after it: the shape of a
/// digest entry and of a signature entry.
pub open spec fn tagged(item: Seq<u8>) -> Option<(u32, Seq<u8>)> {
    if item.len() < 4 {
        None
    } else {
        match lp_split(item.subrange(4, item.len() as int)) {
            None => None,
            Some((bytes, _)) => Some((spec_u32_le(item, 0) as u32, bytes)),
        }
    }
}

/// Every item read as a tagged entry; `None` if one of them is not one.
pub open spec fn all_tagged(items: Seq<Seq<u8>>) -> Option<Seq<(u32, Seq<u8>)>> {
    if forall|i: int| 0 <= i < items.len() ==> (#[trigger] tagged(items[i])) is Some {
        Some(Seq::new(items.len(), |i: int| tagged(items[i])->Some_0))
    } else {
        None
    }
}

/// Whether `x` is short enough for a 32-bit length prefix.
pub open spec fn fits_u32(x: Seq<u8>) -> bool {
    x.len() < 4294967296
}

/// `x` as a length-prefixed field.
#[verifier::opaque]
pub open spec fn lp_encode(x: Seq<u8>) -> Seq<u8> {
    u32_bytes(x.len() as int) + x
}

/// The items as length-prefixed fields, one after the other.
pub open spec fn lp_encode_all(items: Seq<Seq<u8>>) -> Seq<u8>
    decreases items.len(),
{
    if items.len() == 0 {
        Seq::empty()
    } else {
        lp_encode(items.first()) + lp_encode_all(items.drop_first())
    }
}

/// A tagged entry as bytes: the algorithm number, then the length-prefixed
/// bytes.
pub open spec fn tagged_encode(t: (u32, Seq<u8>)) -> Seq<u8> {
    u32_bytes(t.0 as int) + lp_encode(t.1)
}

/// Each tagged entry as bytes.
pub open spec fn tagged_encode_all(entries: Seq<(u32, Seq<u8>)>) -> Seq<Seq<u8>> {
    Seq::new(entries.len(), |i: int| tagged_encode(entries[i]))
}

/// Splitting off a field that was encoded gives back the field and what was
/// put after it.
pub proof fn lemma_lp_split_encode(x: Seq<u8>, rest: Seq<u8>)
    requires
        fits_u32(x),
    ensures
        lp_split(lp_encode(x) + rest) == Some((x, rest)),
        lp_encode(x).len() == 4 + x.len(),
{
    reveal(lp_encode);
    let b = lp_encode(x) + rest;
    lemma_stored_lengths(x.len() as int);
    assert(b.subrange(0, 4) =~= u32_bytes(x.len() as int));
    lemma_u32_round_trip(b, 0, x.len() as int);
    assert(b.subrange(4, 4 + x.len() as int) =~= x);
    assert(b.subrange(4 + x.len() as int, b.len() as int) =~= rest);
}

/// Splitting encoded items gives back the items.
pub proof fn lemma_lp_items_encode(items: Seq<Seq<u8>>)
    requires
        forall|i: int| 0 <= i < items.len() ==> fits_u32(#[trigger] items[i]),
    ensures
        lp_items(lp_encode_all(items)) == Some(items),
    decreases items.len(),
{
    if items.len() > 0 {
        let others = items.drop_first();
        assert forall|i: int| 0 <= i < others.len() implies fits_u32(#[trigger] others[i]) by {
            assert(others[i] == items[i + 1]);
        }
        lemma_lp_items_encode(others);
        lemma_lp_split_encode(items.first(), lp_encode_all(others));
        assert(lp_encode_all(items).len() > 0);
        assert(seq![items.first()] + others =~= items);
    }
}

/// Reading a tagged entry that was encoded gives back the entry.
pub proof fn lemma_tagged_encode(t: (u32, Seq<u8>))
    requires
        fits_u32(t.1),
    ensures
        tagged(tagged_encode(t)) == Some(t),
{
    let item = tagged_encode(t);
    lemma_stored_lengths(t.0 as int);
    assert(item.subrange(0, 4) =~= u32_bytes(t.0 as int));
    lemma_u32_round_trip(item, 0, t.0 as int);
    assert(item.subrange(4, item.len() as int) =~= lp_encode(t.1) + Seq::<u8>::empty());
    lemma_lp_split_encode(t.1, Seq::empty());
}

/// Reading tagged entries that were encoded gives back the entries.
pub proof fn lemma_all_tagged_encode(entries: Seq<(u32, Seq<u8>)>)
    requires
        forall|i: int| 0 <= i < entries.len() ==> fits_u32((#[trigger] entries[i]).1),
    ensures
        all_tagged(tagged_encode_all(entries)) == Some(entries),
{
    let items = tagged_encode_all(entries);
    assert forall|i: int| 0 <= i < items.len() implies (#[trigger] tagged(items[i])) == Some(
        entries[i],
    ) by {
        lemma_tagged_encode(entries[i]);
    }
    assert(Seq::new(items.len(), |i: int| tagged(items[i])->Some_0) =~= entries);
}

/// The bytes behind each slice.
pub open spec fn slice_views(v: Seq<&[u8]>) -> Seq<Seq<u8>> {
    v.map_values(|x: &[u8]| x@)
}

/// The number and the bytes of each tagged slice.
pub open spec fn tagged_views(v: Seq<(u32, &[u8])>) -> Seq<(u32, Seq<u8>)> {
    v.map_values(|t: (u32, &[u8])| (t.0, t.1@))
}

/// Splits off the first length-prefixed field.
pub fn split_prefixed<'a>(b: &'a [u8]) -> (r: Option<(&'a [u8], &'a [u8])>)
    ensures
        r matches Some(pair) ==> lp_split(b@) == Some((pair.0@, pair.1@)),
        r is None ==> lp_split(b@) is None,
{
    if b.len() < 4 {
        return None;
    }
    let n: u32 = u32_le(b, 0);
    if n as u64 > (b.len() - 4) as u64 {
        return None;
    }
    let n: usize = n as usize;
    Some((&b[4..4 + n], &b[4 + n..b.len()]))
}

/// Splits `b` into its length-prefixed fields.
pub fn split_items<'a>(b: &'a [u8]) -> (r: Option<Vec<&'a [u8]>>)
    ensures
        r matches Some(v) ==> lp_items(b@) == Some(slice_views(v@)),
        r is None ==> lp_items(b@) is None,
{
    let mut items: Vec<&'a [u8]> = Vec::new();
    let mut rest: &'a [u8] = b;
    proof {
        assert(slice_views(items@) =~= Seq::<Seq<u8>>::empty());
        lemma_followed_by_ends(slice_views(items@), lp_items(b@));
    }
    while rest.len() > 0
        invariant
            lp_items(b@) == followed_by(slice_views(items@), lp_items(rest@)),
        decreases rest@.len(),
    {
        match split_prefixed(rest) {
            None => {
                return None;
            },
            Some((item, tail)) => {
                proof {
                    assert(slice_views(items@.push(item)) =~= slice_views(items@).push(item@));
                    lemma_followed_by_step(slice_views(items@), item@, lp_items(tail@));
                }
                items.push(item);
                rest = tail;
            },
        }
    }
    proof {
        lemma_followed_by_ends(slice_views(items@), lp_items(b@));
    }
    Some(items)
}

/// Reads an algorithm number and the length-prefixed bytes after it.
pub fn split_tagged<'a>(item: &'a [u8]) -> (r: Option<(u32, &'a [u8])>)
    ensures
        r matches Some(t) ==> tagged(item@) == Some((t.0, t.1@)),
        r is None ==> tagged(item@) is None,
{
    if item.len() < 4 {
        return None;
    }
    let algo: u32 = u32_le(item, 0);
    match split_prefixed(&item[4..item.len()]) {
        None => None,
        Some((bytes, _)) => Some((algo, bytes)),
    }
}

/// Reads every item as a tagged entry.
pub fn split_all_tagged<'a>(items: &Vec<&'a [u8]>) -> (r: Option<Vec<(u32, &'a [u8])>>)
    ensures
        r matches Some(v) ==> all_tagged(slice_views(items@)) == Some(tagged_views(v@)),
        r is None ==> all_tagged(slice_views(items@)) is None,
{
    let ghost views = slice_views(items@);
    let mut out: Vec<(u32, &'a [u8])> = Vec::new();
    let mut i: usize = 0;
    while i < items.len()
        invariant
            views == slice_views(items@),
            i <= items.len(),
            out.len() == i,
            forall|j: int| 0 <= j < i ==> (#[trigger] tagged(views[j])) == Some(tagged_views(out@)[j]),
        decreases items.len() - i,
    {
        match split_tagged(items[i]) {
            None => {
                assert(tagged(views[i as int]) is None);
                return None;
            },
            Some(t) => {
                assert(tagged_views(out@.push(t)) =~= tagged_views(out@).push((t.0, t.1@)));
                out.push(t);
            },
        }
        i = i + 1;
    }
    assert(tagged_views(out@) =~= Seq::new(views.len(), |i: int| tagged(views[i])->Some_0));
    Some(out)
}

} // verus!
