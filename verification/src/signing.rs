//! The APK Signing Block: where it lies, the ID-value pairs in it, and the
//! signer records of the schemes this crate knows.
//!
//! The block ends where the central directory begins. From its end backward
//! it holds a 16-byte magic, an 8-byte size, the pairs, and the same 8-byte
//! size again. The size counts everything but the leading size field.

use vstd::prelude::*;
use crate::bytes::{spec_u32_le, spec_u64_le, u32_le, u64_le, ByteReader};
use crate::error::ApkError;
use crate::prefixed::tagged_views;
use crate::sequence::{followed_by, lemma_followed_by_ends, lemma_followed_by_step};
use crate::signer::{
    read_value_records, signature_views, value_records, ApkSignature, SignerRecord,
};

verus! {

/// The ID of the pair that holds the V2 scheme's signers.
pub const V2_SCHEME_ID: u32 = 0x7109_871a;

/// The ID of the pair that holds the V3 scheme's signers.
pub const V3_SCHEME_ID: u32 = 0xf053_68c0;

/// The first eight bytes of the magic, `APK Sig `, as a little-endian integer.
pub const MAGIC_LOW: u64 = 0x2067_6953_204b_5041;

/// The last eight bytes of the magic, `Block 42`, as a little-endian integer.
pub const MAGIC_HIGH: u64 = 0x3234_206b_636f_6c42;

/// The bytes of the footer: the trailing size field and the magic.
pub const FOOTER_SIZE: usize = 24;

/// One ID-value pair of the signing block.
#[derive(Clone, Debug)]
pub enum SigningBlockEntry {
    /// The signer records of the V2 scheme.
    V2(Vec<ApkSignature>),
    /// The signer records of the V3 scheme.
    V3(Vec<ApkSignature>),
    /// A pair whose ID names no scheme known here; it carries no records.
    Unrecognized(u32),
}

/// The mathematical content of a `SigningBlockEntry`.
pub enum SigningBlockEntryView {
    V2(Seq<SignerRecord>),
    V3(Seq<SignerRecord>),
    Unrecognized(u32),
}

impl View for SigningBlockEntry {
    type V = SigningBlockEntryView;

    open spec fn view(&self) -> SigningBlockEntryView {
        match self {
            SigningBlockEntry::V2(records) => SigningBlockEntryView::V2(signature_views(records@)),
            SigningBlockEntry::V3(records) => SigningBlockEntryView::V3(signature_views(records@)),
            SigningBlockEntry::Unrecognized(id) => SigningBlockEntryView::Unrecognized(*id),
        }
    }
}

/// The views of a sequence of entries.
pub open spec fn signing_entry_views(v: Seq<SigningBlockEntry>) -> Seq<SigningBlockEntryView> {
    v.map_values(|e: SigningBlockEntry| e@)
}

/// Whether the sixteen bytes before offset `d` are the block's magic.
pub open spec fn has_footer_magic(s: Seq<u8>, d: int) -> bool {
    d >= 16 && spec_u64_le(s, d - 16) == MAGIC_LOW && spec_u64_le(s, d - 8) == MAGIC_HIGH
}

/// The size that the footer before offset `d` declares.
pub open spec fn trailing_size(s: Seq<u8>, d: int) -> int {
    spec_u64_le(s, d - FOOTER_SIZE)
}

/// Whether the declared size leaves room for the footer and places the
/// leading size field inside the source.
pub open spec fn size_in_bounds(s: Seq<u8>, d: int) -> bool {
    d >= FOOTER_SIZE && FOOTER_SIZE <= trailing_size(s, d) && trailing_size(s, d) + 8 <= d
}

/// The size that the block's leading field declares.
pub open spec fn leading_size(s: Seq<u8>, d: int) -> int {
    spec_u64_le(s, d - trailing_size(s, d) - 8)
}

/// The bytes of the block's pairs, for a block that ends at offset `d`.
pub open spec fn pairs_area(s: Seq<u8>, d: int) -> Result<Seq<u8>, ApkError> {
    if d > s.len() {
        Err(ApkError::Truncated)
    } else if !has_footer_magic(s, d) {
        Err(ApkError::NoSigningBlock)
    } else if !size_in_bounds(s, d) || leading_size(s, d) != trailing_size(s, d) {
        Err(ApkError::CorruptSigningBlock)
    } else {
        Ok(s.subrange(d - trailing_size(s, d), d - FOOTER_SIZE))
    }
}

/// The first pair of `b` and the bytes that follow it: an 8-byte length,
/// a 4-byte ID, and a value that fills the rest of the length.
pub open spec fn pair_split(b: Seq<u8>) -> Option<((u32, Seq<u8>), Seq<u8>)> {
    if b.len() < 12 {
        None
    } else {
        let len = spec_u64_le(b, 0);
        if len < 4 || len > b.len() - 8 {
            None
        } else {
            Some(
                (
                    (spec_u32_le(b, 8) as u32, b.subrange(12, 8 + len)),
                    b.subrange(8 + len, b.len() as int),
                ),
            )
        }
    }
}

/// The pairs of `b` when `b` is pairs from end to end.
pub open spec fn block_pairs(b: Seq<u8>) -> Option<Seq<(u32, Seq<u8>)>>
    decreases b.len(),
{
    if b.len() == 0 {
        Some(Seq::empty())
    } else {
        match pair_split(b) {
            None => None,
            Some((pair, rest)) => match block_pairs(rest) {
                None => None,
                Some(pairs) => Some(seq![pair] + pairs),
            },
        }
    }
}

/// The entry that a pair stands for; `None` if it belongs to a known scheme
/// and a length in its value runs past what encloses it.
pub open spec fn entry_of(pair: (u32, Seq<u8>)) -> Option<SigningBlockEntryView> {
    if pair.0 == V2_SCHEME_ID {
        match value_records(pair.1, false) {
            None => None,
            Some(records) => Some(SigningBlockEntryView::V2(records)),
        }
    } else if pair.0 == V3_SCHEME_ID {
        match value_records(pair.1, true) {
            None => None,
            Some(records) => Some(SigningBlockEntryView::V3(records)),
        }
    } else {
        Some(SigningBlockEntryView::Unrecognized(pair.0))
    }
}

/// The entries that the pairs stand for, in order.
pub open spec fn entries_of(pairs: Seq<(u32, Seq<u8>)>) -> Option<Seq<SigningBlockEntryView>>
    decreases pairs.len(),
{
    if pairs.len() == 0 {
        Some(Seq::empty())
    } else {
        match (entries_of(pairs.drop_last()), entry_of(pairs.last())) {
            (Some(before), Some(e)) => Some(before.push(e)),
            _ => None,
        }
    }
}

/// The entries of the signing block that ends at offset `d` of `s`.
pub open spec fn signing_block(s: Seq<u8>, d: int) -> Result<Seq<SigningBlockEntryView>, ApkError> {
    match pairs_area(s, d) {
        Err(e) => Err(e),
        Ok(area) => match block_pairs(area) {
            None => Err(ApkError::CorruptSigningBlock),
            Some(pairs) => match entries_of(pairs) {
                None => Err(ApkError::CorruptSigningBlock),
                Some(entries) => Ok(entries),
            },
        },
    }
}

/// The records that an entry carries.
pub open spec fn records_of(e: SigningBlockEntryView) -> Seq<SignerRecord> {
    match e {
        SigningBlockEntryView::V2(records) => records,
        SigningBlockEntryView::V3(records) => records,
        SigningBlockEntryView::Unrecognized(_) => Seq::empty(),
    }
}

/// The records of all entries, one entry's after the other's.
pub open spec fn all_records(entries: Seq<SigningBlockEntryView>) -> Seq<SignerRecord>
    decreases entries.len(),
{
    if entries.len() == 0 {
        Seq::empty()
    } else {
        all_records(entries.drop_last()) + records_of(entries.last())
    }
}

/// A block whose two size fields disagree is corrupt: where the footer's
/// magic is present and the size it declares places a leading size field
/// inside the source, a leading field of another value fails the parse with
/// `CorruptSigningBlock`.
pub proof fn lemma_disagreeing_sizes_are_corrupt(s: Seq<u8>, d: int)
    requires
        d <= s.len(),
        has_footer_magic(s, d),
        size_in_bounds(s, d),
        leading_size(s, d) != trailing_size(s, d),
    ensures
        signing_block(s, d) == Err::<Seq<SigningBlockEntryView>, ApkError>(
            ApkError::CorruptSigningBlock,
        ),
{
}

/// A footer whose declared size cannot be that of a block before `d` fails
/// the parse with `CorruptSigningBlock` too, and a parse that succeeds has
/// found two size fields that agree.
pub proof fn lemma_success_means_sizes_agree(s: Seq<u8>, d: int)
    ensures
        d <= s.len() && has_footer_magic(s, d) && !size_in_bounds(s, d) ==> signing_block(s, d)
            == Err::<Seq<SigningBlockEntryView>, ApkError>(ApkError::CorruptSigningBlock),
        signing_block(s, d) is Ok ==> has_footer_magic(s, d) && size_in_bounds(s, d)
            && leading_size(s, d) == trailing_size(s, d),
{
}

/// Which failure says what: `Truncated` that the offset lies past the
/// source, `NoSigningBlock` that the magic is absent, and
/// `CorruptSigningBlock` everything that can be wrong once the magic is there.
pub proof fn lemma_failure_kinds(s: Seq<u8>, d: int)
    ensures
        signing_block(s, d) == Err::<Seq<SigningBlockEntryView>, ApkError>(ApkError::Truncated)
            <==> d > s.len(),
        signing_block(s, d) == Err::<Seq<SigningBlockEntryView>, ApkError>(
            ApkError::NoSigningBlock,
        ) <==> d <= s.len() && !has_footer_magic(s, d),
        d <= s.len() && has_footer_magic(s, d) ==> signing_block(s, d) is Ok || signing_block(s, d)
            == Err::<Seq<SigningBlockEntryView>, ApkError>(ApkError::CorruptSigningBlock),
{
}

/// Whether none of the pairs carries the ID of a scheme known here.
pub open spec fn all_unrecognized(pairs: Seq<(u32, Seq<u8>)>) -> bool {
    forall|i: int|
        0 <= i < pairs.len() ==> (#[trigger] pairs[i]).0 != V2_SCHEME_ID && pairs[i].0
            != V3_SCHEME_ID
}

/// Pairs with unrecognized IDs are all kept, whatever their values hold, and
/// carry no signer records.
pub proof fn lemma_unrecognized_pairs(pairs: Seq<(u32, Seq<u8>)>)
    requires
        all_unrecognized(pairs),
    ensures
        entries_of(pairs) is Some,
        entries_of(pairs)->Some_0.len() == pairs.len(),
        forall|i: int|
            0 <= i < pairs.len() ==> (#[trigger] entries_of(pairs)->Some_0[i])
                == SigningBlockEntryView::Unrecognized(pairs[i].0),
        all_records(entries_of(pairs)->Some_0) == Seq::<SignerRecord>::empty(),
    decreases pairs.len(),
{
    if pairs.len() > 0 {
        let front = pairs.drop_last();
        assert(all_unrecognized(front)) by {
            assert forall|i: int| 0 <= i < front.len() implies (#[trigger] front[i]).0
                != V2_SCHEME_ID && front[i].0 != V3_SCHEME_ID by {
                assert(front[i] == pairs[i]);
            }
        }
        lemma_unrecognized_pairs(front);
        let last = pairs.last();
        assert(last == pairs[pairs.len() - 1]);
        let before = entries_of(front)->Some_0;
        let all = before.push(SigningBlockEntryView::Unrecognized(last.0));
        assert(entries_of(pairs) == Some(all));
        assert(all.drop_last() =~= before);
        assert(all_records(all) =~= Seq::<SignerRecord>::empty());
        assert forall|i: int| 0 <= i < pairs.len() implies (#[trigger] all[i])
            == SigningBlockEntryView::Unrecognized(pairs[i].0) by {
            if i < front.len() {
                assert(front[i] == pairs[i]);
                assert(all[i] == before[i]);
            }
        }
    }
}

/// A signing block that holds only pairs with unrecognized IDs is read
/// without error and carries no signer records.
pub proof fn lemma_unrecognized_block(s: Seq<u8>, d: int)
    requires
        pairs_area(s, d) is Ok,
        block_pairs(pairs_area(s, d)->Ok_0) is Some,
        all_unrecognized(block_pairs(pairs_area(s, d)->Ok_0)->Some_0),
    ensures
        signing_block(s, d) is Ok,
        signing_block(s, d)->Ok_0.len() == block_pairs(pairs_area(s, d)->Ok_0)->Some_0.len(),
        all_records(signing_block(s, d)->Ok_0) == Seq::<SignerRecord>::empty(),
{
    lemma_unrecognized_pairs(block_pairs(pairs_area(s, d)->Ok_0)->Some_0);
}

/// A pair that cannot be read spoils every sequence that it begins.
pub proof fn lemma_unreadable_pair(pairs: Seq<(u32, Seq<u8>)>, k: int)
    requires
        0 <= k <= pairs.len(),
        entries_of(pairs.take(k)) is None,
    ensures
        entries_of(pairs) is None,
    decreases pairs.len() - k,
{
    if k < pairs.len() {
        assert(pairs.take(k + 1).drop_last() =~= pairs.take(k));
        lemma_unreadable_pair(pairs, k + 1);
    } else {
        assert(pairs.take(k) =~= pairs);
    }
}

/// Splits off the first pair.
fn split_pair<'a>(b: &'a [u8]) -> (r: Option<((u32, &'a [u8]), &'a [u8])>)
    ensures
        r matches Some(t) ==> pair_split(b@) == Some(((t.0.0, t.0.1@), t.1@)),
        r is None ==> pair_split(b@) is None,
{
    if b.len() < 12 {
        return None;
    }
    let len: u64 = u64_le(b, 0);
    if len < 4 || len > (b.len() - 8) as u64 {
        return None;
    }
    let len: usize = len as usize;
    let id: u32 = u32_le(b, 8);
    Some(((id, &b[12..8 + len]), &b[8 + len..b.len()]))
}

/// Splits the pairs area into its pairs.
fn read_pairs<'a>(area: &'a [u8]) -> (r: Option<Vec<(u32, &'a [u8])>>)
    ensures
        r matches Some(v) ==> block_pairs(area@) == Some(tagged_views(v@)),
        r is None ==> block_pairs(area@) is None,
{
    let mut pairs: Vec<(u32, &'a [u8])> = Vec::new();
    let mut rest: &'a [u8] = area;
    proof {
        assert(tagged_views(pairs@) =~= Seq::<(u32, Seq<u8>)>::empty());
        lemma_followed_by_ends(tagged_views(pairs@), block_pairs(area@));
    }
    while rest.len() > 0
        invariant
            block_pairs(area@) == followed_by(tagged_views(pairs@), block_pairs(rest@)),
        decreases rest@.len(),
    {
        match split_pair(rest) {
            None => {
                return None;
            },
            Some((pair, tail)) => {
                proof {
                    let p = (pair.0, pair.1@);
                    assert(tagged_views(pairs@.push(pair)) =~= tagged_views(pairs@).push(p));
                    lemma_followed_by_step(tagged_views(pairs@), p, block_pairs(tail@));
                }
                pairs.push(pair);
                rest = tail;
            },
        }
    }
    proof {
        lemma_followed_by_ends(tagged_views(pairs@), block_pairs(area@));
    }
    Some(pairs)
}

/// Reads the entry that one pair stands for.
fn read_entry(id: u32, value: &[u8]) -> (r: Option<SigningBlockEntry>)
    ensures
        r matches Some(e) ==> entry_of((id, value@)) == Some(e@),
        r is None ==> entry_of((id, value@)) is None,
{
    if id == V2_SCHEME_ID {
        match read_value_records(value, false) {
            None => None,
            Some(records) => Some(SigningBlockEntry::V2(records)),
        }
    } else if id == V3_SCHEME_ID {
        match read_value_records(value, true) {
            None => None,
            Some(records) => Some(SigningBlockEntry::V3(records)),
        }
    } else {
        Some(SigningBlockEntry::Unrecognized(id))
    }
}

/// Reads the entries that the pairs stand for.
fn read_entries(pairs: &Vec<(u32, &[u8])>) -> (r: Option<Vec<SigningBlockEntry>>)
    ensures
        r matches Some(v) ==> entries_of(tagged_views(pairs@)) == Some(signing_entry_views(v@)),
        r is None ==> entries_of(tagged_views(pairs@)) is None,
{
    let ghost views = tagged_views(pairs@);
    let mut out: Vec<SigningBlockEntry> = Vec::new();
    let mut i: usize = 0;
    assert(signing_entry_views(out@) =~= Seq::<SigningBlockEntryView>::empty());
    while i < pairs.len()
        invariant
            views == tagged_views(pairs@),
            i <= pairs.len(),
            entries_of(views.take(i as int)) == Some(signing_entry_views(out@)),
        decreases pairs.len() - i,
    {
        proof {
            assert(views.take(i + 1).drop_last() =~= views.take(i as int));
            assert(views.take(i + 1).last() == (pairs@[i as int].0, pairs@[i as int].1@));
        }
        match read_entry(pairs[i].0, pairs[i].1) {
            None => {
                proof {
                    lemma_unreadable_pair(views, i + 1);
                }
                return None;
            },
            Some(e) => {
                assert(signing_entry_views(out@.push(e)) =~= signing_entry_views(out@).push(e@));
                out.push(e);
            },
        }
        i = i + 1;
    }
    assert(views.take(i as int) =~= views);
    Some(out)
}

/// Reads the signing block that ends at `directory_offset`, the offset at
/// which the central directory begins.
///
/// `Truncated` if the offset lies past the source. `NoSigningBlock` if the
/// sixteen bytes before the offset are not the block's magic.
/// `CorruptSigningBlock` if the two size fields disagree, if the declared
/// size does not fit before the offset, or if a length inside the block runs
/// past what encloses it. A pair with an ID that names no known scheme is
/// kept as `Unrecognized` and its value is not read.
pub fn parse_signing_block(reader: &ByteReader, directory_offset: u64) -> (r: Result<
    Vec<SigningBlockEntry>,
    ApkError,
>)
    ensures
        match r {
            Ok(v) => signing_block(reader@, directory_offset as int) == Ok::<
                Seq<SigningBlockEntryView>,
                ApkError,
            >(signing_entry_views(v@)),
            Err(e) => signing_block(reader@, directory_offset as int) == Err::<
                Seq<SigningBlockEntryView>,
                ApkError,
            >(e),
        },
{
    let data = reader.as_slice();
    if directory_offset > data.len() as u64 {
        return Err(ApkError::Truncated);
    }
    let d: usize = directory_offset as usize;
    if d < 16 || u64_le(data, d - 16) != MAGIC_LOW || u64_le(data, d - 8) != MAGIC_HIGH {
        return Err(ApkError::NoSigningBlock);
    }
    if d < FOOTER_SIZE {
        return Err(ApkError::CorruptSigningBlock);
    }
    let size: u64 = u64_le(data, d - FOOTER_SIZE);
    if size < FOOTER_SIZE as u64 || size > (d - 8) as u64 {
        return Err(ApkError::CorruptSigningBlock);
    }
    let size: usize = size as usize;
    let start: usize = d - size - 8;
    if u64_le(data, start) != size as u64 {
        return Err(ApkError::CorruptSigningBlock);
    }
    let area = &data[start + 8..d - FOOTER_SIZE];
    let pairs = match read_pairs(area) {
        None => { return Err(ApkError::CorruptSigningBlock); },
        Some(pairs) => pairs,
    };
    match read_entries(&pairs) {
        None => Err(ApkError::CorruptSigningBlock),
        Some(entries) => Ok(entries),
    }
}

/// Copies of the records that the entries carry, one entry's after the
/// other's. An `Unrecognized` entry contributes none.
pub fn collect_signatures(entries: &Vec<SigningBlockEntry>) -> (r: Vec<ApkSignature>)
    ensures
        signature_views(r@) == all_records(signing_entry_views(entries@)),
{
    let ghost views = signing_entry_views(entries@);
    let mut out: Vec<ApkSignature> = Vec::new();
    let mut i: usize = 0;
    assert(signature_views(out@) =~= Seq::<SignerRecord>::empty());
    while i < entries.len()
        invariant
            views == signing_entry_views(entries@),
            i <= entries.len(),
            signature_views(out@) == all_records(views.take(i as int)),
        decreases entries.len() - i,
    {
        proof {
            assert(views.take(i + 1).drop_last() =~= views.take(i as int));
            assert(views.take(i + 1).last() == entries@[i as int]@);
        }
        match &entries[i] {
            SigningBlockEntry::V2(records) => {
                append_copies(records, &mut out);
            },
            SigningBlockEntry::V3(records) => {
                append_copies(records, &mut out);
            },
            SigningBlockEntry::Unrecognized(_) => {
                assert(signature_views(out@) + Seq::<SignerRecord>::empty() =~= signature_views(
                    out@,
                ));
            },
        }
        i = i + 1;
    }
    assert(views.take(i as int) =~= views);
    out
}

/// Appends a copy of each record to `out`.
fn append_copies(records: &Vec<ApkSignature>, out: &mut Vec<ApkSignature>)
    ensures
        signature_views(final(out)@) == signature_views(old(out)@) + signature_views(records@),
{
    let ghost base = signature_views(out@);
    let ghost added = signature_views(records@);
    let mut i: usize = 0;
    assert(base + added.take(0) =~= base);
    while i < records.len()
        invariant
            i <= records.len(),
            added == signature_views(records@),
            signature_views(out@) == base + added.take(i as int),
        decreases records.len() - i,
    {
        let copy = records[i].duplicate();
        proof {
            assert(signature_views(out@.push(copy)) =~= signature_views(out@).push(copy@));
            assert(base + added.take(i + 1) =~= (base + added.take(i as int)).push(
                added[i as int],
            ));
        }
        out.push(copy);
        i = i + 1;
    }
    assert(added.take(i as int) =~= added);
}

} // verus!
