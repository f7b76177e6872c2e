//! The signing block as bytes, and the proof that reading undoes writing: a
//! block that is built from pairs and read again yields the entries of those
//! pairs, and with them every byte of every signer.

use vstd::prelude::*;
use crate::bytes::{
    lemma_stored_lengths, lemma_u32_round_trip, lemma_u64_round_trip, u32_bytes, u64_bytes,
};
use crate::error::ApkError;
use crate::signer::{SignerParts, SignerRecord};
use crate::signer_encoding::{
    lemma_value_round_trip, records_of_parts, signers_encode, value_encodable, value_encode,
    SignerFraming,
};
use crate::signing::{
    all_records, block_pairs, entries_of, entry_of, pair_split, pairs_area, records_of,
    signing_block, SigningBlockEntryView, FOOTER_SIZE, MAGIC_HIGH, MAGIC_LOW, V2_SCHEME_ID,
    V3_SCHEME_ID,
};

verus! {

/// Whether `n` fits a 64-bit length field.
pub open spec fn fits_u64(n: int) -> bool {
    0 <= n < 18446744073709551616
}

/// A pair as bytes: the length of what follows, the ID, the value.
#[verifier::opaque]
pub open spec fn pair_encode(pair: (u32, Seq<u8>)) -> Seq<u8> {
    u64_bytes(pair.1.len() + 4 as int) + u32_bytes(pair.0 as int) + pair.1
}

/// The pairs as bytes, one after the other.
pub open spec fn pairs_encode(pairs: Seq<(u32, Seq<u8>)>) -> Seq<u8>
    decreases pairs.len(),
{
    if pairs.len() == 0 {
        Seq::empty()
    } else {
        pair_encode(pairs.first()) + pairs_encode(pairs.drop_first())
    }
}

/// The sixteen bytes of the magic.
pub open spec fn magic_bytes() -> Seq<u8> {
    u64_bytes(MAGIC_LOW as int) + u64_bytes(MAGIC_HIGH as int)
}

/// The signing block around the pairs area `area`: the size, the area, the
/// size again, the magic.
pub open spec fn block_encode(area: Seq<u8>) -> Seq<u8> {
    u64_bytes(area.len() + FOOTER_SIZE as int) + area + u64_bytes(area.len() + FOOTER_SIZE as int)
        + magic_bytes()
}

/// The magic spells `APK Sig Block 42`.
pub proof fn lemma_magic_spells()
    ensures
        magic_bytes() == seq![
            0x41u8,
            0x50u8,
            0x4bu8,
            0x20u8,
            0x53u8,
            0x69u8,
            0x67u8,
            0x20u8,
            0x42u8,
            0x6cu8,
            0x6fu8,
            0x63u8,
            0x6bu8,
            0x20u8,
            0x34u8,
            0x32u8,
        ],
{
    reveal(u32_bytes);
    reveal(u64_bytes);
    assert(magic_bytes() =~= seq![
        0x41u8,
        0x50u8,
        0x4bu8,
        0x20u8,
        0x53u8,
        0x69u8,
        0x67u8,
        0x20u8,
        0x42u8,
        0x6cu8,
        0x6fu8,
        0x63u8,
        0x6bu8,
        0x20u8,
        0x34u8,
        0x32u8,
    ]);
}

/// Splitting off a pair that was encoded gives back the pair and what was
/// put after it.
pub proof fn lemma_pair_split_encode(pair: (u32, Seq<u8>), rest: Seq<u8>)
    requires
        fits_u64(pair.1.len() + 4 as int),
    ensures
        pair_split(pair_encode(pair) + rest) == Some((pair, rest)),
        pair_encode(pair).len() == 12 + pair.1.len(),
{
    reveal(pair_encode);
    let n = pair.1.len() as int;
    let b = pair_encode(pair) + rest;
    lemma_stored_lengths(n + 4);
    lemma_stored_lengths(pair.0 as int);
    assert(b.subrange(0, 8) =~= u64_bytes(n + 4));
    lemma_u64_round_trip(b, 0, n + 4);
    assert(b.subrange(8, 12) =~= u32_bytes(pair.0 as int));
    lemma_u32_round_trip(b, 8, pair.0 as int);
    assert(b.subrange(12, 12 + n) =~= pair.1);
    assert(b.subrange(12 + n, b.len() as int) =~= rest);
}

/// Splitting encoded pairs gives back the pairs.
pub proof fn lemma_block_pairs_encode(pairs: Seq<(u32, Seq<u8>)>)
    requires
        forall|i: int| 0 <= i < pairs.len() ==> fits_u64((#[trigger] pairs[i]).1.len() + 4 as int),
    ensures
        block_pairs(pairs_encode(pairs)) == Some(pairs),
    decreases pairs.len(),
{
    if pairs.len() > 0 {
        let others = pairs.drop_first();
        assert forall|i: int| 0 <= i < others.len() implies fits_u64(
            (#[trigger] others[i]).1.len() + 4 as int,
        ) by {
            assert(others[i] == pairs[i + 1]);
        }
        lemma_block_pairs_encode(others);
        lemma_pair_split_encode(pairs.first(), pairs_encode(others));
        assert(pairs_encode(pairs).len() > 0);
        assert(seq![pairs.first()] + others =~= pairs);
    }
}

/// A block that was put around a pairs area is found again, between
/// whatever stands before it and the directory that follows it, and its
/// pairs area is the one it was built around.
pub proof fn lemma_block_is_found(before: Seq<u8>, area: Seq<u8>, after: Seq<u8>)
    requires
        fits_u64(area.len() + FOOTER_SIZE as int),
    ensures
        block_encode(area).len() == area.len() + 32,
        pairs_area(
            before + block_encode(area) + after,
            before.len() + block_encode(area).len() as int,
        )
            == Ok::<Seq<u8>, ApkError>(area),
{
    let size = area.len() + FOOTER_SIZE as int;
    let field = u64_bytes(size);
    let low = u64_bytes(MAGIC_LOW as int);
    let high = u64_bytes(MAGIC_HIGH as int);
    lemma_stored_lengths(size);
    lemma_stored_lengths(MAGIC_LOW as int);
    lemma_stored_lengths(MAGIC_HIGH as int);
    let block = block_encode(area);
    assert(block =~= field + area + field + low + high);
    let s = before + block + after;
    let start = before.len() as int;
    let d = start + block.len();
    assert(s.subrange(d - 16, d - 8) =~= low);
    lemma_u64_round_trip(s, d - 16, MAGIC_LOW as int);
    assert(s.subrange(d - 8, d) =~= high);
    lemma_u64_round_trip(s, d - 8, MAGIC_HIGH as int);
    assert(s.subrange(d - 24, d - 16) =~= field);
    lemma_u64_round_trip(s, d - 24, size);
    assert(s.subrange(start, start + 8) =~= field);
    lemma_u64_round_trip(s, start, size);
    assert(s.subrange(d - size, d - 24) =~= area);
}

/// A signing block that was built from pairs is read back as the entries
/// that those pairs stand for.
pub proof fn lemma_signing_block_round_trip(
    before: Seq<u8>,
    pairs: Seq<(u32, Seq<u8>)>,
    after: Seq<u8>,
)
    requires
        forall|i: int| 0 <= i < pairs.len() ==> fits_u64((#[trigger] pairs[i]).1.len() + 4 as int),
        fits_u64(pairs_encode(pairs).len() + FOOTER_SIZE as int),
    ensures
        signing_block(
            before + block_encode(pairs_encode(pairs)) + after,
            before.len() + block_encode(pairs_encode(pairs)).len() as int,
        ) == (match entries_of(pairs) {
            Some(entries) => Ok::<Seq<SigningBlockEntryView>, ApkError>(entries),
            None => Err(ApkError::CorruptSigningBlock),
        }),
{
    lemma_block_is_found(before, pairs_encode(pairs), after);
    lemma_block_pairs_encode(pairs);
}

/// What a block of one pair holds: the pair's bytes, and the pair's entry.
pub proof fn lemma_single_pair(pair: (u32, Seq<u8>))
    ensures
        pairs_encode(seq![pair]) == pair_encode(pair),
        entries_of(seq![pair]) == (match entry_of(pair) {
            Some(e) => Some(seq![e]),
            None => None,
        }),
        entry_of(pair) matches Some(e) ==> all_records(seq![e]) == records_of(e),
{
    let pairs = seq![pair];
    assert(pairs.first() == pair);
    assert(pairs.last() == pair);
    assert(pairs.drop_first() =~= Seq::<(u32, Seq<u8>)>::empty());
    assert(pairs.drop_last() =~= Seq::<(u32, Seq<u8>)>::empty());
    assert(pairs_encode(Seq::<(u32, Seq<u8>)>::empty()) =~= Seq::<u8>::empty());
    assert(pairs_encode(pairs) =~= pair_encode(pair));
    assert(entries_of(Seq::<(u32, Seq<u8>)>::empty()) == Some(
        Seq::<SigningBlockEntryView>::empty(),
    ));
    if entry_of(pair) is Some {
        let e = entry_of(pair)->Some_0;
        let entries = seq![e];
        assert(Seq::<SigningBlockEntryView>::empty().push(e) =~= entries);
        assert(entries.last() == e);
        assert(entries.drop_last() =~= Seq::<SigningBlockEntryView>::empty());
        assert(all_records(Seq::<SigningBlockEntryView>::empty()) =~= Seq::<
            SignerRecord,
        >::empty());
        assert(all_records(entries) =~= records_of(e));
    }
}

/// The ID of the pair that holds a scheme's signers.
pub open spec fn scheme_id(v3: bool) -> u32 {
    if v3 {
        V3_SCHEME_ID
    } else {
        V2_SCHEME_ID
    }
}

/// A signing block that was built around one V2 or V3 value, itself built
/// from signers, is read back as the records of those signers: every
/// digest, signature and certificate comes out as the bytes that went in.
pub proof fn lemma_signers_survive_the_block(
    before: Seq<u8>,
    v3: bool,
    signers: Seq<SignerParts>,
    framings: Seq<SignerFraming>,
    after_signers: Seq<u8>,
    after: Seq<u8>,
)
    requires
        value_encodable(signers, v3, framings),
        fits_u64(
            value_encode(signers_encode(signers, v3, framings), after_signers).len() + 36 as int,
        ),
    ensures
        ({
            let value = value_encode(signers_encode(signers, v3, framings), after_signers);
            let block = block_encode(pair_encode((scheme_id(v3), value)));
            let read = signing_block(before + block + after, before.len() + block.len() as int);
            read is Ok && read->Ok_0.len() == 1 && all_records(read->Ok_0) == records_of_parts(
                signers,
            )
        }),
{
    let value = value_encode(signers_encode(signers, v3, framings), after_signers);
    let pair = (scheme_id(v3), value);
    lemma_value_round_trip(signers, v3, framings, after_signers);
    lemma_single_pair(pair);
    lemma_pair_split_encode(pair, Seq::empty());
    let pairs = seq![pair];
    assert(pairs[0] == pair);
    lemma_signing_block_round_trip(before, pairs, after);
}

} // verus!
