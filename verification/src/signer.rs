//! Signers: the digests, certificates and signatures that one scheme value
//! lists, and the records made of them.
//!
//! A signer is a length-prefixed block of signed data (digest entries, then
//! certificates), then, under scheme V3 only, the two SDK bounds, then the
//! signature entries. Whatever follows the fields named here is not read.

use vstd::prelude::*;
use vstd::slice::slice_to_vec;
use crate::algorithm::{algorithm_label, algorithm_name};
use crate::prefixed::{
    all_tagged, lp_items, lp_split, slice_views, split_all_tagged, split_items, split_prefixed,
    tagged_views,
};

verus! {

/// One signer's material under one algorithm.
#[derive(Clone, Debug)]
pub struct ApkSignature {
    pub digest: Vec<u8>,
    pub certificates: Vec<Vec<u8>>,
    pub signature: Vec<u8>,
    pub algo: String,
}

/// The mathematical content of an `ApkSignature`.
pub struct SignerRecord {
    pub digest: Seq<u8>,
    pub certificates: Seq<Seq<u8>>,
    pub signature: Seq<u8>,
    pub algo: Seq<char>,
}

/// The bytes of each blob.
pub open spec fn blob_views(v: Seq<Vec<u8>>) -> Seq<Seq<u8>> {
    v.map_values(|b: Vec<u8>| b@)
}

/// The views of a sequence of records.
pub open spec fn signature_views(v: Seq<ApkSignature>) -> Seq<SignerRecord> {
    v.map_values(|s: ApkSignature| s@)
}

impl View for ApkSignature {
    type V = SignerRecord;

    open spec fn view(&self) -> SignerRecord {
        SignerRecord {
            digest: self.digest@,
            certificates: blob_views(self.certificates@),
            signature: self.signature@,
            algo: self.algo@,
        }
    }
}

impl ApkSignature {
    /// Whether the record has all that a signer's record needs: a digest, a
    /// signature, and at least one certificate.
    pub open spec fn spec_is_complete(&self) -> bool {
        self@.digest.len() > 0 && self@.signature.len() > 0 && self@.certificates.len() > 0
    }

    /// Decides whether the record has a digest, a signature, and at least
    /// one certificate.
    pub fn is_complete(&self) -> (r: bool)
        ensures
            r == self.spec_is_complete(),
    {
        self.digest.len() > 0 && self.signature.len() > 0 && self.certificates.len() > 0
    }

    /// An independent copy of the record.
    pub fn duplicate(&self) -> (r: ApkSignature)
        ensures
            r@ == self@,
    {
        ApkSignature {
            digest: slice_to_vec(self.digest.as_slice()),
            certificates: copy_blobs(&self.certificates),
            signature: slice_to_vec(self.signature.as_slice()),
            algo: self.algo.clone(),
        }
    }
}

/// What one signer lists.
pub struct SignerParts {
    pub digests: Seq<(u32, Seq<u8>)>,
    pub certificates: Seq<Seq<u8>>,
    pub signatures: Seq<(u32, Seq<u8>)>,
}

/// The parts of the signer encoded in `signer`; `None` if a length in it runs
/// past what encloses it.
#[verifier::opaque]
pub open spec fn signer_parts(signer: Seq<u8>, v3: bool) -> Option<SignerParts> {
    match lp_split(signer) {
        None => None,
        Some((signed, after)) => match lp_split(signed) {
            None => None,
            Some((digest_area, after_digests)) => match lp_split(after_digests) {
                None => None,
                Some((certificate_area, _)) => if v3 && after.len() < 8 {
                    None
                } else {
                    let tail = if v3 {
                        after.subrange(8, after.len() as int)
                    } else {
                        after
                    };
                    match lp_split(tail) {
                        None => None,
                        Some((signature_area, _)) => parts_of_areas(
                            digest_area,
                            certificate_area,
                            signature_area,
                        ),
                    }
                },
            },
        },
    }
}

/// The parts listed in a signer's three areas.
#[verifier::opaque]
pub open spec fn parts_of_areas(
    digest_area: Seq<u8>,
    certificate_area: Seq<u8>,
    signature_area: Seq<u8>,
) -> Option<SignerParts> {
    match (lp_items(digest_area), lp_items(certificate_area), lp_items(signature_area)) {
        (Some(d), Some(c), Some(g)) => match (all_tagged(d), all_tagged(g)) {
            (Some(digests), Some(signatures)) => Some(
                SignerParts { digests, certificates: c, signatures },
            ),
            _ => None,
        },
        _ => None,
    }
}

/// Whether digests and signatures name the same algorithms in the same order.
pub open spec fn aligned(digests: Seq<(u32, Seq<u8>)>, signatures: Seq<(u32, Seq<u8>)>) -> bool {
    &&& digests.len() == signatures.len()
    &&& forall|i: int| 0 <= i < digests.len() ==> digests[i].0 == signatures[i].0
}

/// The first digest made with the algorithm numbered `algo`.
pub open spec fn first_digest(digests: Seq<(u32, Seq<u8>)>, algo: u32) -> Option<Seq<u8>>
    decreases digests.len(),
{
    if digests.len() == 0 {
        None
    } else if digests[0].0 == algo {
        Some(digests[0].1)
    } else {
        first_digest(digests.drop_first(), algo)
    }
}

/// The record of one signature under the algorithm numbered `algo`.
pub open spec fn record(
    algo: u32,
    digest: Seq<u8>,
    certificates: Seq<Seq<u8>>,
    signature: Seq<u8>,
) -> SignerRecord {
    SignerRecord { digest, certificates, signature, algo: algorithm_name(algo) }
}

/// One record per signature, each with the digest at the same position.
pub open spec fn records_by_position(parts: SignerParts) -> Seq<SignerRecord> {
    Seq::new(
        parts.signatures.len(),
        |i: int|
            record(
                parts.signatures[i].0,
                parts.digests[i].1,
                parts.certificates,
                parts.signatures[i].1,
            ),
    )
}

/// One record per signature whose algorithm has a digest, each with the
/// first digest of its algorithm; a signature without one yields no record.
pub open spec fn records_by_algorithm(
    digests: Seq<(u32, Seq<u8>)>,
    certificates: Seq<Seq<u8>>,
    signatures: Seq<(u32, Seq<u8>)>,
) -> Seq<SignerRecord>
    decreases signatures.len(),
{
    if signatures.len() == 0 {
        Seq::empty()
    } else {
        let before = records_by_algorithm(digests, certificates, signatures.drop_last());
        let last = signatures.last();
        match first_digest(digests, last.0) {
            None => before,
            Some(d) => before.push(record(last.0, d, certificates, last.1)),
        }
    }
}

/// The records of one signer, in the order of its signatures. Digests and
/// signatures that are aligned are paired by position, others by algorithm.
#[verifier::opaque]
pub open spec fn signer_records(parts: SignerParts) -> Seq<SignerRecord> {
    if aligned(parts.digests, parts.signatures) {
        records_by_position(parts)
    } else {
        records_by_algorithm(parts.digests, parts.certificates, parts.signatures)
    }
}

/// A signer whose digests and signatures name the same algorithms in the
/// same order yields exactly one record per signature. Record `i` holds
/// digest `i` and signature `i` as they are, under the name of their
/// algorithm, and every record holds the signer's whole certificate list.
pub proof fn lemma_aligned_signer_records(parts: SignerParts)
    requires
        aligned(parts.digests, parts.signatures),
    ensures
        signer_records(parts).len() == parts.signatures.len(),
        signer_records(parts).len() == parts.digests.len(),
        forall|i: int|
            0 <= i < parts.signatures.len() ==> (#[trigger] signer_records(parts)[i])
                == (SignerRecord {
                digest: parts.digests[i].1,
                certificates: parts.certificates,
                signature: parts.signatures[i].1,
                algo: algorithm_name(parts.signatures[i].0),
            }),
{
    reveal(signer_records);
}

/// Every record of a signer holds the signer's whole certificate list, and a
/// signer yields at most one record per signature.
pub proof fn lemma_records_share_certificates(parts: SignerParts)
    ensures
        signer_records(parts).len() <= parts.signatures.len(),
        forall|i: int|
            0 <= i < signer_records(parts).len() ==> (#[trigger] signer_records(
                parts,
            )[i]).certificates == parts.certificates,
{
    reveal(signer_records);
    if !aligned(parts.digests, parts.signatures) {
        lemma_by_algorithm_shares(parts.digests, parts.certificates, parts.signatures);
    }
}

/// Pairing by algorithm gives every record the same certificate list, and at
/// most one record per signature.
proof fn lemma_by_algorithm_shares(
    digests: Seq<(u32, Seq<u8>)>,
    certificates: Seq<Seq<u8>>,
    signatures: Seq<(u32, Seq<u8>)>,
)
    ensures
        records_by_algorithm(digests, certificates, signatures).len() <= signatures.len(),
        forall|i: int|
            0 <= i < records_by_algorithm(digests, certificates, signatures).len()
                ==> (#[trigger] records_by_algorithm(
                digests,
                certificates,
                signatures,
            )[i]).certificates == certificates,
    decreases signatures.len(),
{
    if signatures.len() > 0 {
        lemma_by_algorithm_shares(digests, certificates, signatures.drop_last());
    }
}

/// The records of the signers in `signers`, in order; `None` if one of the
/// signers cannot be read.
pub open spec fn records_of_signers(signers: Seq<Seq<u8>>, v3: bool) -> Option<Seq<SignerRecord>>
    decreases signers.len(),
{
    if signers.len() == 0 {
        Some(Seq::empty())
    } else {
        match (records_of_signers(signers.drop_last(), v3), signer_parts(signers.last(), v3)) {
            (Some(before), Some(parts)) => Some(before + signer_records(parts)),
            _ => None,
        }
    }
}

/// A signer that cannot be read spoils every sequence that it begins.
pub proof fn lemma_unreadable_prefix(signers: Seq<Seq<u8>>, v3: bool, k: int)
    requires
        0 <= k <= signers.len(),
        records_of_signers(signers.take(k), v3) is None,
    ensures
        records_of_signers(signers, v3) is None,
    decreases signers.len() - k,
{
    if k < signers.len() {
        assert(signers.take(k + 1).drop_last() =~= signers.take(k));
        lemma_unreadable_prefix(signers, v3, k + 1);
    } else {
        assert(signers.take(k) =~= signers);
    }
}

/// The records of every signer that a scheme value lists, in order; `None`
/// if a length in the value runs past what encloses it.
pub open spec fn value_records(value: Seq<u8>, v3: bool) -> Option<Seq<SignerRecord>> {
    match lp_split(value) {
        None => None,
        Some((body, _)) => match lp_items(body) {
            None => None,
            Some(signers) => records_of_signers(signers, v3),
        },
    }
}

/// Independent copies of the blobs.
pub fn copy_blobs(blobs: &Vec<Vec<u8>>) -> (r: Vec<Vec<u8>>)
    ensures
        blob_views(r@) == blob_views(blobs@),
{
    let mut out: Vec<Vec<u8>> = Vec::new();
    let mut i: usize = 0;
    while i < blobs.len()
        invariant
            i <= blobs.len(),
            out.len() == i,
            forall|j: int| 0 <= j < i ==> out@[j]@ == blobs@[j]@,
        decreases blobs.len() - i,
    {
        out.push(slice_to_vec(blobs[i].as_slice()));
        i = i + 1;
    }
    assert(blob_views(out@) =~= blob_views(blobs@));
    out
}

/// Owned copies of the borrowed blobs.
fn own_blobs(blobs: &Vec<&[u8]>) -> (r: Vec<Vec<u8>>)
    ensures
        blob_views(r@) == slice_views(blobs@),
{
    let mut out: Vec<Vec<u8>> = Vec::new();
    let mut i: usize = 0;
    while i < blobs.len()
        invariant
            i <= blobs.len(),
            out.len() == i,
            forall|j: int| 0 <= j < i ==> out@[j]@ == blobs@[j]@,
        decreases blobs.len() - i,
    {
        out.push(slice_to_vec(blobs[i]));
        i = i + 1;
    }
    assert(blob_views(out@) =~= slice_views(blobs@));
    out
}

/// The borrowed form of a signer's parts.
pub struct SignerSlices<'a> {
    pub digests: Vec<(u32, &'a [u8])>,
    pub certificates: Vec<&'a [u8]>,
    pub signatures: Vec<(u32, &'a [u8])>,
}

impl<'a> View for SignerSlices<'a> {
    type V = SignerParts;

    open spec fn view(&self) -> SignerParts {
        SignerParts {
            digests: tagged_views(self.digests@),
            certificates: slice_views(self.certificates@),
            signatures: tagged_views(self.signatures@),
        }
    }
}

/// Reads the parts of one signer.
pub fn read_signer<'a>(signer: &'a [u8], v3: bool) -> (r: Option<SignerSlices<'a>>)
    ensures
        r matches Some(p) ==> signer_parts(signer@, v3) == Some(p@),
        r is None ==> signer_parts(signer@, v3) is None,
{
    reveal(signer_parts);
    reveal(parts_of_areas);
    let (signed, after) = match split_prefixed(signer) {
        None => { return None; },
        Some(pair) => pair,
    };
    let (digest_area, after_digests) = match split_prefixed(signed) {
        None => { return None; },
        Some(pair) => pair,
    };
    let (certificate_area, _) = match split_prefixed(after_digests) {
        None => { return None; },
        Some(pair) => pair,
    };
    if v3 && after.len() < 8 {
        return None;
    }
    let tail: &'a [u8] = if v3 {
        &after[8..after.len()]
    } else {
        after
    };
    let (signature_area, _) = match split_prefixed(tail) {
        None => { return None; },
        Some(pair) => pair,
    };
    let digest_items = match split_items(digest_area) {
        None => { return None; },
        Some(v) => v,
    };
    let certificates = match split_items(certificate_area) {
        None => { return None; },
        Some(v) => v,
    };
    let signature_items = match split_items(signature_area) {
        None => { return None; },
        Some(v) => v,
    };
    let digests = match split_all_tagged(&digest_items) {
        None => { return None; },
        Some(v) => v,
    };
    let signatures = match split_all_tagged(&signature_items) {
        None => { return None; },
        Some(v) => v,
    };
    Some(SignerSlices { digests, certificates, signatures })
}

/// Decides whether digests and signatures are aligned.
fn check_aligned(digests: &Vec<(u32, &[u8])>, signatures: &Vec<(u32, &[u8])>) -> (r: bool)
    ensures
        r == aligned(tagged_views(digests@), tagged_views(signatures@)),
{
    if digests.len() != signatures.len() {
        return false;
    }
    let mut i: usize = 0;
    while i < digests.len()
        invariant
            i <= digests.len(),
            digests.len() == signatures.len(),
            forall|j: int|
                0 <= j < i ==> tagged_views(digests@)[j].0 == tagged_views(signatures@)[j].0,
        decreases digests.len() - i,
    {
        if digests[i].0 != signatures[i].0 {
            assert(tagged_views(digests@)[i as int].0 != tagged_views(signatures@)[i as int].0);
            return false;
        }
        i = i + 1;
    }
    true
}

/// Finds the first digest made with the algorithm numbered `algo`.
fn find_digest<'a>(digests: &Vec<(u32, &'a [u8])>, algo: u32) -> (r: Option<&'a [u8]>)
    ensures
        r matches Some(d) ==> first_digest(tagged_views(digests@), algo) == Some(d@),
        r is None ==> first_digest(tagged_views(digests@), algo) is None,
{
    let ghost all = tagged_views(digests@);
    let mut i: usize = 0;
    assert(all.skip(0) =~= all);
    while i < digests.len()
        invariant
            all == tagged_views(digests@),
            i <= digests.len(),
            first_digest(all, algo) == first_digest(all.skip(i as int), algo),
        decreases digests.len() - i,
    {
        assert(all.skip(i as int)[0] == all[i as int]);
        assert(all.skip(i as int).drop_first() =~= all.skip(i + 1));
        if digests[i].0 == algo {
            return Some(digests[i].1);
        }
        i = i + 1;
    }
    None
}

/// Builds the record of one signature.
fn make_record(algo: u32, digest: &[u8], certificates: &Vec<&[u8]>, signature: &[u8]) -> (r:
    ApkSignature)
    ensures
        r@ == record(algo, digest@, slice_views(certificates@), signature@),
{
    ApkSignature {
        digest: slice_to_vec(digest),
        certificates: own_blobs(certificates),
        signature: slice_to_vec(signature),
        algo: algorithm_label(algo),
    }
}

/// Appends the records of one signer to `out`.
pub fn append_signer_records(parts: &SignerSlices, out: &mut Vec<ApkSignature>)
    ensures
        signature_views(final(out)@) == signature_views(old(out)@) + signer_records(parts@),
{
    reveal(signer_records);
    let ghost base = signature_views(out@);
    let ghost p = parts@;
    let n: usize = parts.signatures.len();
    let mut i: usize = 0;
    if check_aligned(&parts.digests, &parts.signatures) {
        let ghost target = records_by_position(p);
        assert(base + target.take(0) =~= base);
        while i < n
            invariant
                i <= n,
                n == parts.signatures.len(),
                n == parts.digests.len(),
                p == parts@,
                target == records_by_position(p),
                signature_views(out@) == base + target.take(i as int),
            decreases n - i,
        {
            let r = make_record(
                parts.signatures[i].0,
                parts.digests[i].1,
                &parts.certificates,
                parts.signatures[i].1,
            );
            proof {
                assert(r@ == target[i as int]);
                assert(signature_views(out@.push(r)) =~= signature_views(out@).push(r@));
                assert(base + target.take(i + 1) =~= (base + target.take(i as int)).push(
                    target[i as int],
                ));
            }
            out.push(r);
            i = i + 1;
        }
        assert(target.take(n as int) =~= target);
    } else {
        let ghost sigs = p.signatures;
        assert(sigs.take(0) =~= Seq::<(u32, Seq<u8>)>::empty());
        assert(base + records_by_algorithm(p.digests, p.certificates, sigs.take(0)) =~= base);
        while i < n
            invariant
                i <= n,
                n == parts.signatures.len(),
                p == parts@,
                sigs == p.signatures,
                signature_views(out@) == base + records_by_algorithm(
                    p.digests,
                    p.certificates,
                    sigs.take(i as int),
                ),
            decreases n - i,
        {
            proof {
                assert(sigs.take(i + 1).drop_last() =~= sigs.take(i as int));
                assert(sigs.take(i + 1).last() == sigs[i as int]);
            }
            match find_digest(&parts.digests, parts.signatures[i].0) {
                None => {},
                Some(d) => {
                    let r = make_record(
                        parts.signatures[i].0,
                        d,
                        &parts.certificates,
                        parts.signatures[i].1,
                    );
                    proof {
                        let before = records_by_algorithm(
                            p.digests,
                            p.certificates,
                            sigs.take(i as int),
                        );
                        assert(signature_views(out@.push(r)) =~= signature_views(out@).push(r@));
                        assert(base + before.push(r@) =~= (base + before).push(r@));
                    }
                    out.push(r);
                },
            }
            i = i + 1;
        }
        assert(sigs.take(n as int) =~= sigs);
    }
}

/// Reads the records of every signer that a scheme value lists.
pub fn read_value_records(value: &[u8], v3: bool) -> (r: Option<Vec<ApkSignature>>)
    ensures
        r matches Some(v) ==> value_records(value@, v3) == Some(signature_views(v@)),
        r is None ==> value_records(value@, v3) is None,
{
    let (body, _) = match split_prefixed(value) {
        None => { return None; },
        Some(pair) => pair,
    };
    let signers = match split_items(body) {
        None => { return None; },
        Some(v) => v,
    };
    let ghost views = slice_views(signers@);
    let mut out: Vec<ApkSignature> = Vec::new();
    let mut i: usize = 0;
    assert(signature_views(out@) =~= Seq::<SignerRecord>::empty());
    while i < signers.len()
        invariant
            views == slice_views(signers@),
            value_records(value@, v3) == records_of_signers(views, v3),
            i <= signers.len(),
            records_of_signers(views.take(i as int), v3) == Some(signature_views(out@)),
        decreases signers.len() - i,
    {
        proof {
            assert(views.take(i + 1).drop_last() =~= views.take(i as int));
            assert(views.take(i + 1).last() == signers@[i as int]@);
        }
        match read_signer(signers[i], v3) {
            None => {
                proof {
                    lemma_unreadable_prefix(views, v3, i + 1);
                }
                return None;
            },
            Some(parts) => {
                append_signer_records(&parts, &mut out);
            },
        }
        i = i + 1;
    }
    assert(views.take(i as int) =~= views);
    Some(out)
}

} // verus!
