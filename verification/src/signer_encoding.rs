//! Signers as bytes, and the proof that reading undoes writing: a signer
//! that is encoded and read again yields the parts it was encoded from.

use vstd::prelude::*;
use crate::prefixed::{
    fits_u32, lemma_all_tagged_encode, lemma_lp_items_encode, lemma_lp_split_encode, lp_encode,
    lp_encode_all, tagged_encode, tagged_encode_all,
};
use crate::signer::{
    parts_of_areas, records_of_signers, signer_parts, signer_records, value_records, SignerParts,
    SignerRecord,
};

verus! {

/// What a signer holds besides its parts, none of which is read: the bytes
/// after the certificates, the two SDK bounds of scheme V3, and the bytes
/// after the signatures.
pub struct SignerFraming {
    pub after_certificates: Seq<u8>,
    pub sdk_bounds: Seq<u8>,
    pub after_signatures: Seq<u8>,
}

/// A signer's signed data as bytes, given its digest and certificate areas.
pub open spec fn signed_data_encode(
    digest_area: Seq<u8>,
    certificate_area: Seq<u8>,
    framing: SignerFraming,
) -> Seq<u8> {
    lp_encode(digest_area) + lp_encode(certificate_area) + framing.after_certificates
}

/// What stands between a signer's signed data and its signatures.
pub open spec fn bounds_encode(v3: bool, framing: SignerFraming) -> Seq<u8> {
    if v3 {
        framing.sdk_bounds
    } else {
        Seq::empty()
    }
}

/// A signer as bytes, given its three areas.
pub open spec fn frame_encode(
    digest_area: Seq<u8>,
    certificate_area: Seq<u8>,
    signature_area: Seq<u8>,
    v3: bool,
    framing: SignerFraming,
) -> Seq<u8> {
    lp_encode(signed_data_encode(digest_area, certificate_area, framing)) + bounds_encode(
        v3,
        framing,
    ) + lp_encode(signature_area) + framing.after_signatures
}

/// The area that lists a signer's digests.
pub open spec fn digest_area_of(parts: SignerParts) -> Seq<u8> {
    lp_encode_all(tagged_encode_all(parts.digests))
}

/// The area that lists a signer's certificates.
pub open spec fn certificate_area_of(parts: SignerParts) -> Seq<u8> {
    lp_encode_all(parts.certificates)
}

/// The area that lists a signer's signatures.
pub open spec fn signature_area_of(parts: SignerParts) -> Seq<u8> {
    lp_encode_all(tagged_encode_all(parts.signatures))
}

/// A signer as bytes.
pub open spec fn signer_encode(parts: SignerParts, v3: bool, framing: SignerFraming) -> Seq<u8> {
    frame_encode(
        digest_area_of(parts),
        certificate_area_of(parts),
        signature_area_of(parts),
        v3,
        framing,
    )
}

/// Whether every digest, certificate and signature of the signer fits its
/// 32-bit length prefix.
pub open spec fn items_encodable(parts: SignerParts) -> bool {
    &&& forall|i: int|
        0 <= i < parts.digests.len() ==> fits_u32(tagged_encode(#[trigger] parts.digests[i]))
    &&& forall|i: int| 0 <= i < parts.certificates.len() ==> fits_u32(#[trigger] parts.certificates[i])
    &&& forall|i: int|
        0 <= i < parts.signatures.len() ==> fits_u32(tagged_encode(#[trigger] parts.signatures[i]))
}

/// Whether the three areas and the signed data fit their 32-bit length
/// prefixes, and the SDK bounds of a V3 signer are eight bytes.
pub open spec fn frame_encodable(
    digest_area: Seq<u8>,
    certificate_area: Seq<u8>,
    signature_area: Seq<u8>,
    v3: bool,
    framing: SignerFraming,
) -> bool {
    &&& fits_u32(digest_area)
    &&& fits_u32(certificate_area)
    &&& fits_u32(signature_area)
    &&& fits_u32(signed_data_encode(digest_area, certificate_area, framing))
    &&& v3 ==> framing.sdk_bounds.len() == 8
}

/// Whether every length in the signer's encoding fits its 32-bit prefix, and
/// the SDK bounds of a V3 signer are eight bytes.
pub open spec fn encodable(parts: SignerParts, v3: bool, framing: SignerFraming) -> bool {
    &&& items_encodable(parts)
    &&& frame_encodable(
        digest_area_of(parts),
        certificate_area_of(parts),
        signature_area_of(parts),
        v3,
        framing,
    )
}

/// Reading the three areas of a signer that were encoded gives back the
/// signer's parts.
pub proof fn lemma_areas_round_trip(parts: SignerParts)
    requires
        items_encodable(parts),
    ensures
        parts_of_areas(
            digest_area_of(parts),
            certificate_area_of(parts),
            signature_area_of(parts),
        ) == Some(parts),
{
    reveal(parts_of_areas);
    let digest_items = tagged_encode_all(parts.digests);
    let signature_items = tagged_encode_all(parts.signatures);
    assert forall|i: int| 0 <= i < digest_items.len() implies fits_u32(
        #[trigger] digest_items[i],
    ) by {
        assert(digest_items[i] == tagged_encode(parts.digests[i]));
    }
    assert forall|i: int| 0 <= i < signature_items.len() implies fits_u32(
        #[trigger] signature_items[i],
    ) by {
        assert(signature_items[i] == tagged_encode(parts.signatures[i]));
    }
    lemma_lp_items_encode(digest_items);
    lemma_lp_items_encode(parts.certificates);
    lemma_lp_items_encode(signature_items);
    assert forall|i: int| 0 <= i < parts.digests.len() implies fits_u32(
        (#[trigger] parts.digests[i]).1,
    ) by {
        reveal(lp_encode);
        assert(fits_u32(tagged_encode(parts.digests[i])));
    }
    assert forall|i: int| 0 <= i < parts.signatures.len() implies fits_u32(
        (#[trigger] parts.signatures[i]).1,
    ) by {
        reveal(lp_encode);
        assert(fits_u32(tagged_encode(parts.signatures[i])));
    }
    lemma_all_tagged_encode(parts.digests);
    lemma_all_tagged_encode(parts.signatures);
}

/// Reading a signer finds its three areas where they were put, whatever
/// else the signer holds.
pub proof fn lemma_frame_round_trip(
    digest_area: Seq<u8>,
    certificate_area: Seq<u8>,
    signature_area: Seq<u8>,
    v3: bool,
    framing: SignerFraming,
)
    requires
        frame_encodable(digest_area, certificate_area, signature_area, v3, framing),
    ensures
        signer_parts(
            frame_encode(digest_area, certificate_area, signature_area, v3, framing),
            v3,
        ) == parts_of_areas(digest_area, certificate_area, signature_area),
{
    reveal(signer_parts);
    let signed = signed_data_encode(digest_area, certificate_area, framing);
    let signer = frame_encode(digest_area, certificate_area, signature_area, v3, framing);
    let tail = lp_encode(signature_area) + framing.after_signatures;
    let after = bounds_encode(v3, framing) + tail;
    assert(signer =~= lp_encode(signed) + after);
    lemma_lp_split_encode(signed, after);
    let after_digests = lp_encode(certificate_area) + framing.after_certificates;
    assert(signed =~= lp_encode(digest_area) + after_digests);
    lemma_lp_split_encode(digest_area, after_digests);
    lemma_lp_split_encode(certificate_area, framing.after_certificates);
    if v3 {
        assert(after.subrange(8, after.len() as int) =~= tail);
    } else {
        assert(after =~= tail);
    }
    lemma_lp_split_encode(signature_area, framing.after_signatures);
}

/// Reading a signer that was encoded gives back its parts, byte for byte,
/// whatever else the signer holds.
pub proof fn lemma_signer_round_trip(parts: SignerParts, v3: bool, framing: SignerFraming)
    requires
        encodable(parts, v3, framing),
    ensures
        signer_parts(signer_encode(parts, v3, framing), v3) == Some(parts),
{
    lemma_areas_round_trip(parts);
    lemma_frame_round_trip(
        digest_area_of(parts),
        certificate_area_of(parts),
        signature_area_of(parts),
        v3,
        framing,
    );
}

/// The records of the signers whose parts are `signers`, in order.
pub open spec fn records_of_parts(signers: Seq<SignerParts>) -> Seq<SignerRecord>
    decreases signers.len(),
{
    if signers.len() == 0 {
        Seq::empty()
    } else {
        records_of_parts(signers.drop_last()) + signer_records(signers.last())
    }
}

/// Each signer as bytes.
pub open spec fn signers_encode(signers: Seq<SignerParts>, v3: bool, framings: Seq<SignerFraming>)
    -> Seq<Seq<u8>> {
    Seq::new(signers.len(), |i: int| signer_encode(signers[i], v3, framings[i]))
}

/// A scheme value as bytes: the length-prefixed sequence of its signers, and
/// whatever follows it.
pub open spec fn value_encode(signers: Seq<Seq<u8>>, after: Seq<u8>) -> Seq<u8> {
    lp_encode(lp_encode_all(signers)) + after
}

/// Reading signers that were encoded gives the records of their parts.
pub proof fn lemma_signers_round_trip(
    signers: Seq<SignerParts>,
    v3: bool,
    framings: Seq<SignerFraming>,
)
    requires
        signers.len() == framings.len(),
        forall|i: int| 0 <= i < signers.len() ==> encodable(#[trigger] signers[i], v3, framings[i]),
    ensures
        records_of_signers(signers_encode(signers, v3, framings), v3) == Some(
            records_of_parts(signers),
        ),
    decreases signers.len(),
{
    let encoded = signers_encode(signers, v3, framings);
    if signers.len() > 0 {
        let n = signers.len() - 1;
        assert(encodable(signers[n], v3, framings[n]));
        assert(encoded.drop_last() =~= signers_encode(
            signers.drop_last(),
            v3,
            framings.drop_last(),
        ));
        assert forall|i: int| 0 <= i < signers.drop_last().len() implies encodable(
            #[trigger] signers.drop_last()[i],
            v3,
            framings.drop_last()[i],
        ) by {
            assert(encodable(signers[i], v3, framings[i]));
        }
        lemma_signers_round_trip(signers.drop_last(), v3, framings.drop_last());
        lemma_signer_round_trip(signers[n], v3, framings[n]);
        assert(encoded.last() == signer_encode(signers[n], v3, framings[n]));
    }
}

/// Whether every length in the encoding of a value's signers fits its 32-bit
/// prefix: each signer is encodable and short enough, and so is their
/// sequence.
#[verifier::opaque]
pub open spec fn value_encodable(
    signers: Seq<SignerParts>,
    v3: bool,
    framings: Seq<SignerFraming>,
) -> bool {
    &&& signers.len() == framings.len()
    &&& forall|i: int| 0 <= i < signers.len() ==> encodable(#[trigger] signers[i], v3, framings[i])
    &&& forall|i: int|
        0 <= i < signers.len() ==> fits_u32(#[trigger] signer_encode(signers[i], v3, framings[i]))
    &&& fits_u32(lp_encode_all(signers_encode(signers, v3, framings)))
}

/// A scheme value that was built from signers is read back as the records of
/// those signers: no digest, signature or certificate byte is changed, added
/// or lost on the way.
pub proof fn lemma_value_round_trip(
    signers: Seq<SignerParts>,
    v3: bool,
    framings: Seq<SignerFraming>,
    after: Seq<u8>,
)
    requires
        value_encodable(signers, v3, framings),
    ensures
        value_records(value_encode(signers_encode(signers, v3, framings), after), v3) == Some(
            records_of_parts(signers),
        ),
        value_encode(signers_encode(signers, v3, framings), after).len() == 4 + lp_encode_all(
            signers_encode(signers, v3, framings),
        ).len() + after.len(),
{
    reveal(value_encodable);
    let encoded = signers_encode(signers, v3, framings);
    lemma_lp_split_encode(lp_encode_all(encoded), after);
    assert forall|i: int| 0 <= i < encoded.len() implies fits_u32(#[trigger] encoded[i]) by {
        assert(encoded[i] == signer_encode(signers[i], v3, framings[i]));
    }
    lemma_lp_items_encode(encoded);
    lemma_signers_round_trip(signers, v3, framings);
}

} // verus!
