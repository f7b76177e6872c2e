use apk_manifest::bytes::ByteReader;
use apk_manifest::error::ApkError;
use apk_manifest::signer::{read_signer, read_value_records, ApkSignature};
use apk_manifest::signing::{collect_signatures, parse_signing_block, SigningBlockEntry};

const V2: u32 = 0x7109_871a;
const V3: u32 = 0xf053_68c0;
const PADDING: u32 = 0x4272_6577;
const RSA_PKCS1_SHA256: u32 = 0x0103;
const ECDSA_SHA256: u32 = 0x0201;
const ECDSA_SHA512: u32 = 0x0202;

fn lp(x: &[u8]) -> Vec<u8> {
    let mut out = (x.len() as u32).to_le_bytes().to_vec();
    out.extend_from_slice(x);
    out
}

fn tagged(algo: u32, bytes: &[u8]) -> Vec<u8> {
    let mut out = algo.to_le_bytes().to_vec();
    out.extend_from_slice(&lp(bytes));
    out
}

fn sequence(items: &[Vec<u8>]) -> Vec<u8> {
    let mut out = Vec::new();
    for it in items {
        out.extend_from_slice(&lp(it));
    }
    out
}

fn tagged_sequence(items: &[(u32, Vec<u8>)]) -> Vec<u8> {
    let encoded: Vec<Vec<u8>> = items.iter().map(|(a, b)| tagged(*a, b)).collect();
    sequence(&encoded)
}

fn signer(v3: bool, digests: &[(u32, Vec<u8>)], certs: &[Vec<u8>], sigs: &[(u32, Vec<u8>)]) -> Vec<u8> {
    let mut signed = Vec::new();
    signed.extend_from_slice(&lp(&tagged_sequence(digests)));
    signed.extend_from_slice(&lp(&sequence(certs)));
    if v3 {
        signed.extend_from_slice(&24u32.to_le_bytes());
        signed.extend_from_slice(&33u32.to_le_bytes());
    }
    signed.extend_from_slice(&lp(&[]));
    let mut out = lp(&signed);
    if v3 {
        out.extend_from_slice(&24u32.to_le_bytes());
        out.extend_from_slice(&33u32.to_le_bytes());
    }
    out.extend_from_slice(&lp(&tagged_sequence(sigs)));
    out.extend_from_slice(&lp(b"public key bytes"));
    out
}

fn value(signers: &[Vec<u8>]) -> Vec<u8> {
    lp(&sequence(signers))
}

fn pair(id: u32, value: &[u8]) -> Vec<u8> {
    let mut out = ((value.len() + 4) as u64).to_le_bytes().to_vec();
    out.extend_from_slice(&id.to_le_bytes());
    out.extend_from_slice(value);
    out
}

fn block(pairs: &[Vec<u8>]) -> Vec<u8> {
    let mut body = Vec::new();
    for p in pairs {
        body.extend_from_slice(p);
    }
    let size = (body.len() + 24) as u64;
    let mut out = size.to_le_bytes().to_vec();
    out.extend_from_slice(&body);
    out.extend_from_slice(&size.to_le_bytes());
    out.extend_from_slice(b"APK Sig Block 42");
    out
}

fn parse_at_end(source: &[u8]) -> Result<Vec<SigningBlockEntry>, ApkError> {
    let reader = ByteReader::new(source.to_vec());
    parse_signing_block(&reader, source.len() as u64)
}

fn after_prefix(block: &[u8]) -> Vec<u8> {
    let mut source = b"entries of the container come first".to_vec();
    source.extend_from_slice(block);
    source
}

fn records(e: &SigningBlockEntry) -> Vec<ApkSignature> {
    match e {
        SigningBlockEntry::V2(r) => r.clone(),
        SigningBlockEntry::V3(r) => r.clone(),
        SigningBlockEntry::Unrecognized(_) => Vec::new(),
    }
}

fn sample_certs() -> Vec<Vec<u8>> {
    vec![vec![0x30, 0x82, 0x01, 0x0a, 0xde, 0xad], vec![0x30, 0x03, 0x01, 0x02, 0x03]]
}

#[test]
fn v2_block_reproduces_its_bytes() {
    let digest: Vec<u8> = (0..32u8).collect();
    let signature: Vec<u8> = (0..72u8).map(|i| i.wrapping_mul(7)).collect();
    let s = signer(false, &[(ECDSA_SHA256, digest.clone())], &sample_certs(), &[(ECDSA_SHA256, signature.clone())]);
    let source = after_prefix(&block(&[pair(V2, &value(&[s]))]));
    let entries = parse_at_end(&source).unwrap();
    assert_eq!(entries.len(), 1);
    assert!(matches!(entries[0], SigningBlockEntry::V2(_)));
    let r = records(&entries[0]);
    assert_eq!(r.len(), 1);
    assert_eq!(r[0].digest, digest);
    assert_eq!(r[0].signature, signature);
    assert_eq!(r[0].certificates, sample_certs());
    assert_eq!(r[0].algo, "ECDSA_WITH_SHA256");
    assert!(r[0].is_complete());
}

#[test]
fn v3_block_reproduces_its_bytes() {
    let digest = vec![0xaa; 64];
    let signature = vec![0x55; 256];
    let s = signer(true, &[(0x0104, digest.clone())], &sample_certs(), &[(0x0104, signature.clone())]);
    let source = after_prefix(&block(&[pair(V3, &value(&[s]))]));
    let entries = parse_at_end(&source).unwrap();
    assert_eq!(entries.len(), 1);
    assert!(matches!(entries[0], SigningBlockEntry::V3(_)));
    let r = records(&entries[0]);
    assert_eq!(r.len(), 1);
    assert_eq!(r[0].digest, digest);
    assert_eq!(r[0].signature, signature);
    assert_eq!(r[0].certificates, sample_certs());
    assert_eq!(r[0].algo, "RSASSA_PKCS1_V1_5_WITH_SHA512");
}

#[test]
fn v2_and_v3_and_padding_together() {
    let s2 = signer(false, &[(ECDSA_SHA256, vec![1; 32])], &sample_certs(), &[(ECDSA_SHA256, vec![2; 70])]);
    let s3 = signer(true, &[(ECDSA_SHA512, vec![3; 64])], &sample_certs(), &[(ECDSA_SHA512, vec![4; 140])]);
    let source = after_prefix(&block(&[
        pair(V2, &value(&[s2])),
        pair(V3, &value(&[s3])),
        pair(PADDING, &vec![0u8; 100]),
    ]));
    let entries = parse_at_end(&source).unwrap();
    assert_eq!(entries.len(), 3);
    assert!(matches!(entries[0], SigningBlockEntry::V2(_)));
    assert!(matches!(entries[1], SigningBlockEntry::V3(_)));
    assert!(matches!(entries[2], SigningBlockEntry::Unrecognized(PADDING)));
    let all = collect_signatures(&entries);
    assert_eq!(all.len(), 2);
    assert_eq!(all[0].digest, vec![1; 32]);
    assert_eq!(all[0].signature, vec![2; 70]);
    assert_eq!(all[0].algo, "ECDSA_WITH_SHA256");
    assert_eq!(all[1].digest, vec![3; 64]);
    assert_eq!(all[1].signature, vec![4; 140]);
    assert_eq!(all[1].algo, "ECDSA_WITH_SHA512");
}

#[test]
fn unrecognized_ids_only_give_no_records_and_no_error() {
    let source = after_prefix(&block(&[
        pair(PADDING, &vec![0u8; 40]),
        pair(0x1234_5678, b"not a signer sequence at all"),
        pair(0, &[]),
    ]));
    let entries = parse_at_end(&source).unwrap();
    assert_eq!(entries.len(), 3);
    assert!(matches!(entries[0], SigningBlockEntry::Unrecognized(PADDING)));
    assert!(matches!(entries[1], SigningBlockEntry::Unrecognized(0x1234_5678)));
    assert!(matches!(entries[2], SigningBlockEntry::Unrecognized(0)));
    assert_eq!(collect_signatures(&entries).len(), 0);
}

#[test]
fn block_without_pairs_is_empty() {
    let b = block(&[]);
    assert_eq!(b.len(), 32);
    let entries = parse_at_end(&b).unwrap();
    assert_eq!(entries.len(), 0);
}

#[test]
fn block_may_end_before_the_end_of_the_source() {
    let mut source = after_prefix(&block(&[pair(PADDING, b"xyz")]));
    let d = source.len() as u64;
    source.extend_from_slice(b"central directory follows");
    let reader = ByteReader::new(source);
    let entries = parse_signing_block(&reader, d).unwrap();
    assert_eq!(entries.len(), 1);
    assert_eq!(parse_signing_block(&reader, d + 1).err(), Some(ApkError::NoSigningBlock));
}

#[test]
fn leading_size_that_disagrees_is_corrupt() {
    let prefix_len = after_prefix(&[]).len();
    let good = after_prefix(&block(&[pair(PADDING, b"xyz")]));
    assert!(parse_at_end(&good).is_ok());
    for delta in [1u8, 2, 0x80] {
        let mut bad = good.clone();
        bad[prefix_len] = bad[prefix_len].wrapping_add(delta);
        assert_eq!(parse_at_end(&bad).err(), Some(ApkError::CorruptSigningBlock));
    }
    let mut bad = good.clone();
    bad[prefix_len + 7] = 1;
    assert_eq!(parse_at_end(&bad).err(), Some(ApkError::CorruptSigningBlock));
}

#[test]
fn trailing_size_that_disagrees_is_corrupt() {
    let good = after_prefix(&block(&[pair(PADDING, b"xyz")]));
    let at = good.len() - 24;
    for value in [0u64, 23, 24, 25, 42, 44, 1 << 40, u64::MAX] {
        let mut bad = good.clone();
        bad[at..at + 8].copy_from_slice(&value.to_le_bytes());
        assert_eq!(parse_at_end(&bad).err(), Some(ApkError::CorruptSigningBlock), "size {}", value);
    }
}

#[test]
fn size_that_reaches_before_the_source_is_corrupt() {
    let mut b = block(&[pair(PADDING, b"xyz")]);
    let size = b.len() as u64;
    let at = b.len() - 24;
    b[at..at + 8].copy_from_slice(&size.to_le_bytes());
    assert_eq!(parse_at_end(&b).err(), Some(ApkError::CorruptSigningBlock));
}

#[test]
fn absent_magic_is_no_signing_block() {
    assert_eq!(parse_at_end(b"a container without any block before its directory").err(), Some(ApkError::NoSigningBlock));
    assert_eq!(parse_at_end(b"short").err(), Some(ApkError::NoSigningBlock));
    assert_eq!(parse_at_end(b"").err(), Some(ApkError::NoSigningBlock));
    let mut b = block(&[]);
    let last = b.len() - 1;
    b[last] = b'3';
    assert_eq!(parse_at_end(&b).err(), Some(ApkError::NoSigningBlock));
}

#[test]
fn magic_alone_is_corrupt() {
    assert_eq!(parse_at_end(b"APK Sig Block 42").err(), Some(ApkError::CorruptSigningBlock));
    assert_eq!(parse_at_end(b"1234567APK Sig Block 42").err(), Some(ApkError::CorruptSigningBlock));
}

#[test]
fn offset_past_the_source_is_truncated() {
    let b = block(&[]);
    let reader = ByteReader::new(b.clone());
    assert_eq!(parse_signing_block(&reader, b.len() as u64 + 1).err(), Some(ApkError::Truncated));
    assert_eq!(parse_signing_block(&reader, u64::MAX).err(), Some(ApkError::Truncated));
}

#[test]
fn pair_length_past_the_block_is_corrupt() {
    let mut p = pair(PADDING, b"xyz");
    p[0] = p[0] + 1;
    assert_eq!(parse_at_end(&block(&[p])).err(), Some(ApkError::CorruptSigningBlock));
    let mut p = pair(PADDING, b"xyz");
    p[7] = 0xff;
    assert_eq!(parse_at_end(&block(&[p])).err(), Some(ApkError::CorruptSigningBlock));
}

#[test]
fn pair_shorter_than_its_id_is_corrupt() {
    let mut p = pair(PADDING, b"xyz");
    p[0] = 3;
    assert_eq!(parse_at_end(&block(&[p])).err(), Some(ApkError::CorruptSigningBlock));
}

#[test]
fn bytes_left_over_after_the_pairs_are_corrupt() {
    let mut p = pair(PADDING, b"xyz");
    p.extend_from_slice(&[0u8; 5]);
    assert_eq!(parse_at_end(&block(&[p])).err(), Some(ApkError::CorruptSigningBlock));
}

#[test]
fn signer_length_past_its_value_is_corrupt() {
    let s = signer(false, &[(ECDSA_SHA256, vec![1; 32])], &sample_certs(), &[(ECDSA_SHA256, vec![2; 70])]);
    let mut v = value(&[s]);
    v[4] = v[4].wrapping_add(1);
    assert_eq!(parse_at_end(&block(&[pair(V2, &v)])).err(), Some(ApkError::CorruptSigningBlock));
    assert_eq!(parse_at_end(&block(&[pair(V3, b"xy")])).err(), Some(ApkError::CorruptSigningBlock));
    assert!(parse_at_end(&block(&[pair(PADDING, b"xy")])).is_ok());
}

#[test]
fn digest_length_past_its_entry_is_corrupt() {
    let mut digest_entry = tagged(ECDSA_SHA256, &[1; 32]);
    digest_entry[4] = 33;
    let mut signed = Vec::new();
    signed.extend_from_slice(&lp(&sequence(&[digest_entry])));
    signed.extend_from_slice(&lp(&sequence(&sample_certs())));
    let mut s = lp(&signed);
    s.extend_from_slice(&lp(&tagged_sequence(&[(ECDSA_SHA256, vec![2; 70])])));
    assert!(read_signer(&s, false).is_none());
    assert!(read_value_records(&value(&[s]), false).is_none());
}

#[test]
fn v3_signer_without_sdk_bounds_is_corrupt() {
    let mut signed = Vec::new();
    signed.extend_from_slice(&lp(&tagged_sequence(&[(ECDSA_SHA256, vec![1; 32])])));
    signed.extend_from_slice(&lp(&sequence(&sample_certs())));
    let mut s = lp(&signed);
    s.extend_from_slice(&[0u8; 7]);
    assert!(read_signer(&s, true).is_none());
    let mut s2 = lp(&signed);
    s2.extend_from_slice(&lp(&tagged_sequence(&[(ECDSA_SHA256, vec![2; 70])])));
    assert!(read_signer(&s2, false).is_some());
}

#[test]
fn v3_signer_reads_signatures_after_the_sdk_bounds() {
    let s = signer(true, &[(ECDSA_SHA256, vec![1; 32])], &sample_certs(), &[(ECDSA_SHA256, vec![2; 70])]);
    let parts = read_signer(&s, true).unwrap();
    assert_eq!(parts.signatures.len(), 1);
    assert_eq!(parts.signatures[0].0, ECDSA_SHA256);
    assert_eq!(parts.signatures[0].1, &[2u8; 70][..]);
    assert_eq!(parts.digests.len(), 1);
    assert_eq!(parts.certificates.len(), 2);
}

#[test]
fn aligned_entries_give_one_record_each_with_the_same_certificates() {
    let digests = vec![(RSA_PKCS1_SHA256, vec![1; 32]), (ECDSA_SHA256, vec![2; 32]), (ECDSA_SHA512, vec![3; 64])];
    let sigs = vec![(RSA_PKCS1_SHA256, vec![4; 256]), (ECDSA_SHA256, vec![5; 70]), (ECDSA_SHA512, vec![6; 139])];
    let s = signer(false, &digests, &sample_certs(), &sigs);
    let mut r = read_value_records(&value(&[s]), false).unwrap();
    assert_eq!(r.len(), 3);
    for i in 0..3 {
        assert_eq!(r[i].digest, digests[i].1);
        assert_eq!(r[i].signature, sigs[i].1);
        assert_eq!(r[i].certificates, sample_certs());
    }
    assert_eq!(r[0].algo, "RSASSA_PKCS1_V1_5_WITH_SHA256");
    assert_eq!(r[1].algo, "ECDSA_WITH_SHA256");
    assert_eq!(r[2].algo, "ECDSA_WITH_SHA512");
    r[0].certificates[0][0] = 0;
    r[0].certificates.pop();
    assert_eq!(r[1].certificates, sample_certs());
    assert_eq!(r[2].certificates, sample_certs());
}

#[test]
fn aligned_entries_with_a_repeated_algorithm_pair_by_position() {
    let digests = vec![(ECDSA_SHA256, vec![1; 32]), (ECDSA_SHA256, vec![2; 32])];
    let sigs = vec![(ECDSA_SHA256, vec![3; 70]), (ECDSA_SHA256, vec![4; 71])];
    let s = signer(false, &digests, &sample_certs(), &sigs);
    let r = read_value_records(&value(&[s]), false).unwrap();
    assert_eq!(r.len(), 2);
    assert_eq!(r[0].digest, vec![1; 32]);
    assert_eq!(r[1].digest, vec![2; 32]);
    assert_eq!(r[1].signature, vec![4; 71]);
}

#[test]
fn entries_out_of_order_pair_by_algorithm() {
    let digests = vec![(RSA_PKCS1_SHA256, vec![1; 32]), (ECDSA_SHA256, vec![2; 32]), (ECDSA_SHA512, vec![3; 64])];
    let sigs = vec![(ECDSA_SHA512, vec![6; 139]), (RSA_PKCS1_SHA256, vec![4; 256])];
    let s = signer(false, &digests, &sample_certs(), &sigs);
    let r = read_value_records(&value(&[s]), false).unwrap();
    assert_eq!(r.len(), 2);
    assert_eq!(r[0].algo, "ECDSA_WITH_SHA512");
    assert_eq!(r[0].digest, vec![3; 64]);
    assert_eq!(r[0].signature, vec![6; 139]);
    assert_eq!(r[1].algo, "RSASSA_PKCS1_V1_5_WITH_SHA256");
    assert_eq!(r[1].digest, vec![1; 32]);
    assert_eq!(r[1].signature, vec![4; 256]);
}

#[test]
fn signature_without_a_digest_gives_no_record() {
    let digests = vec![(ECDSA_SHA256, vec![2; 32])];
    let sigs = vec![(ECDSA_SHA512, vec![6; 139]), (ECDSA_SHA256, vec![5; 70])];
    let s = signer(false, &digests, &sample_certs(), &sigs);
    let r = read_value_records(&value(&[s]), false).unwrap();
    assert_eq!(r.len(), 1);
    assert_eq!(r[0].algo, "ECDSA_WITH_SHA256");
    assert_eq!(r[0].digest, vec![2; 32]);
    assert_eq!(r[0].signature, vec![5; 70]);
}

#[test]
fn same_length_but_other_algorithms_pair_by_algorithm() {
    let digests = vec![(ECDSA_SHA256, vec![1; 32]), (ECDSA_SHA512, vec![2; 64])];
    let sigs = vec![(ECDSA_SHA512, vec![3; 70]), (ECDSA_SHA256, vec![4; 71])];
    let s = signer(false, &digests, &sample_certs(), &sigs);
    let r = read_value_records(&value(&[s]), false).unwrap();
    assert_eq!(r.len(), 2);
    assert_eq!(r[0].digest, vec![2; 64]);
    assert_eq!(r[0].signature, vec![3; 70]);
    assert_eq!(r[1].digest, vec![1; 32]);
    assert_eq!(r[1].signature, vec![4; 71]);
}

#[test]
fn several_signers_give_their_records_in_order() {
    let a = signer(false, &[(ECDSA_SHA256, vec![1; 32])], &[vec![0xa1]], &[(ECDSA_SHA256, vec![2; 70])]);
    let b = signer(false, &[(ECDSA_SHA512, vec![3; 64])], &[vec![0xb1], vec![0xb2]], &[(ECDSA_SHA512, vec![4; 140])]);
    let r = read_value_records(&value(&[a, b]), false).unwrap();
    assert_eq!(r.len(), 2);
    assert_eq!(r[0].certificates, vec![vec![0xa1u8]]);
    assert_eq!(r[1].certificates, vec![vec![0xb1u8], vec![0xb2]]);
    assert_eq!(r[0].signature, vec![2; 70]);
    assert_eq!(r[1].signature, vec![4; 140]);
}

#[test]
fn value_without_signers_gives_no_records() {
    let r = read_value_records(&value(&[]), false).unwrap();
    assert_eq!(r.len(), 0);
    let entries = parse_at_end(&block(&[pair(V2, &value(&[]))])).unwrap();
    assert_eq!(entries.len(), 1);
    assert!(matches!(entries[0], SigningBlockEntry::V2(_)));
    assert_eq!(collect_signatures(&entries).len(), 0);
}

#[test]
fn record_without_certificates_is_not_complete() {
    let s = signer(false, &[(ECDSA_SHA256, vec![1; 32])], &[], &[(ECDSA_SHA256, vec![2; 70])]);
    let r = read_value_records(&value(&[s]), false).unwrap();
    assert_eq!(r.len(), 1);
    assert!(!r[0].is_complete());
    let s = signer(false, &[(ECDSA_SHA256, vec![])], &sample_certs(), &[(ECDSA_SHA256, vec![2; 70])]);
    let r = read_value_records(&value(&[s]), false).unwrap();
    assert!(!r[0].is_complete());
    let s = signer(false, &[(ECDSA_SHA256, vec![1])], &sample_certs(), &[(ECDSA_SHA256, vec![2])]);
    let r = read_value_records(&value(&[s]), false).unwrap();
    assert!(r[0].is_complete());
}

#[test]
fn unknown_algorithm_is_reported_as_unknown() {
    let s = signer(false, &[(0x0999, vec![1; 32])], &sample_certs(), &[(0x0999, vec![2; 70])]);
    let r = read_value_records(&value(&[s]), false).unwrap();
    assert_eq!(r.len(), 1);
    assert_eq!(r[0].algo, "UNKNOWN");
    assert_eq!(r[0].digest, vec![1; 32]);
}

#[test]
fn duplicate_is_equal_and_independent() {
    let s = signer(false, &[(ECDSA_SHA256, vec![1; 32])], &sample_certs(), &[(ECDSA_SHA256, vec![2; 70])]);
    let r = read_value_records(&value(&[s]), false).unwrap();
    let mut copy = r[0].duplicate();
    assert_eq!(copy.digest, r[0].digest);
    assert_eq!(copy.signature, r[0].signature);
    assert_eq!(copy.certificates, r[0].certificates);
    assert_eq!(copy.algo, r[0].algo);
    copy.certificates[0].clear();
    assert_eq!(r[0].certificates, sample_certs());
}
