//! The whole pipeline: from the bytes of a package to what it declares and
//! who signed it.
//!
//! The steps run in a fixed order, and the first that fails decides the
//! error: the end-of-central-directory record is found, the signing block
//! before the directory is read, the directory is read, the manifest entry
//! is looked up and its content read, and the manifest is decoded.

use vstd::prelude::*;
use vstd::string::StringSliceAdditionalSpecFns;
use crate::axml::{decode_xml, document};
use crate::bytes::ByteReader;
use crate::error::ApkError;
use crate::manifest::{manifest_fields, project_manifest, ManifestFields, ManifestFieldsView};
pub use crate::signer::ApkSignature;
use crate::signer::{signature_views, SignerRecord};
use crate::signing::{
    all_records, all_unrecognized, block_pairs, collect_signatures, has_footer_magic,
    leading_size, lemma_unrecognized_block, pairs_area, parse_signing_block, signing_block,
    size_in_bounds, trailing_size,
};
use crate::text::text_view;
use crate::zip::{
    directory_location, entries_at, entry_content, find_entry, lemma_location_lies_in_source,
    locate_directory, ZipIndex,
};

verus! {

/// What a package declares, and the records of its signers.
#[derive(Clone, Debug)]
pub struct AndroidManifestParsed {
    pub package: Option<String>,
    pub version_code: Option<u32>,
    pub version_name: Option<String>,
    pub compile_sdk_version: Option<u32>,
    pub compile_sdk_version_codename: Option<u32>,
    pub platform_build_version_code: Option<u32>,
    pub platform_build_version_name: Option<u32>,
    pub min_sdk_version: Option<u32>,
    pub target_sdk_version: Option<u32>,
    pub max_sdk_version: Option<u32>,
    pub icon: Option<String>,
    pub label: Option<String>,
    pub sigs: Vec<ApkSignature>,
}

/// The mathematical content of an `AndroidManifestParsed`.
pub struct ParsedView {
    pub fields: ManifestFieldsView,
    pub sigs: Seq<SignerRecord>,
}

impl View for AndroidManifestParsed {
    type V = ParsedView;

    open spec fn view(&self) -> ParsedView {
        ParsedView {
            fields: ManifestFieldsView {
                package: text_view(self.package),
                version_code: self.version_code,
                version_name: text_view(self.version_name),
                compile_sdk_version: self.compile_sdk_version,
                compile_sdk_version_codename: self.compile_sdk_version_codename,
                platform_build_version_code: self.platform_build_version_code,
                platform_build_version_name: self.platform_build_version_name,
                min_sdk_version: self.min_sdk_version,
                target_sdk_version: self.target_sdk_version,
                max_sdk_version: self.max_sdk_version,
                icon: text_view(self.icon),
                label: text_view(self.label),
            },
            sigs: signature_views(self.sigs@),
        }
    }
}

/// The name of the entry that holds a package's manifest.
pub open spec fn manifest_entry_name() -> Seq<u8> {
    "AndroidManifest.xml".spec_bytes()
}

/// What is read of a package before its manifest is decoded: the content of
/// the manifest entry, and the records of the signers.
pub struct PackageParts {
    pub manifest: Vec<u8>,
    pub sigs: Vec<ApkSignature>,
}

/// The mathematical content of `PackageParts`.
pub struct PartsView {
    pub manifest: Seq<u8>,
    pub sigs: Seq<SignerRecord>,
}

impl View for PackageParts {
    type V = PartsView;

    open spec fn view(&self) -> PartsView {
        PartsView { manifest: self.manifest@, sigs: signature_views(self.sigs@) }
    }
}

/// The manifest content and the signer records of the package `s`. The
/// directory is located first, then the signing block before it is read,
/// then the directory, then the manifest entry; the first step that fails
/// decides the error. A package without a signing block is
/// `NoSigningBlock`.
pub open spec fn package_parts(s: Seq<u8>) -> Result<PartsView, ApkError> {
    match directory_location(s) {
        Err(e) => Err(e),
        Ok(location) => match signing_block(s, location.offset as int) {
            Err(e) => Err(e),
            Ok(blocks) => match entries_at(s, location) {
                Err(e) => Err(e),
                Ok(entries) => match entry_content(s, entries, manifest_entry_name()) {
                    Err(e) => Err(e),
                    Ok(manifest) => Ok(PartsView { manifest, sigs: all_records(blocks) }),
                },
            },
        },
    }
}

/// What the parts of a package declare: the fields of the decoded manifest,
/// beside the signer records; `MalformedXml` if the manifest is malformed.
pub open spec fn decoded_parts(parts: PartsView) -> Result<ParsedView, ApkError> {
    match document(parts.manifest) {
        None => Err(ApkError::MalformedXml),
        Some(doc) => Ok(ParsedView { fields: manifest_fields(doc), sigs: parts.sigs }),
    }
}

/// What the package `s` declares and who signed it: its parts, decoded.
pub open spec fn parsed_package(s: Seq<u8>) -> Result<ParsedView, ApkError> {
    match package_parts(s) {
        Err(e) => Err(e),
        Ok(parts) => decoded_parts(parts),
    }
}

/// The signer records of the package `s`, whose central directory begins at
/// offset `d`, for a caller to whom a package without a signing block is a
/// package without signers.
pub open spec fn package_signatures(s: Seq<u8>, d: int) -> Result<Seq<SignerRecord>, ApkError> {
    match signing_block(s, d) {
        Ok(entries) => Ok(all_records(entries)),
        Err(e) => if e == ApkError::NoSigningBlock {
            Ok(Seq::empty())
        } else {
            Err(e)
        },
    }
}

/// Whether `s` is a container whose signing block and directory can be
/// read, and whose directory has no entry for a manifest.
pub open spec fn lacks_manifest(s: Seq<u8>) -> bool {
    match directory_location(s) {
        Ok(location) => signing_block(s, location.offset as int) is Ok && (match entries_at(
            s,
            location,
        ) {
            Ok(entries) => find_entry(entries, manifest_entry_name()) is None,
            Err(_) => false,
        }),
        Err(_) => false,
    }
}

/// Whether `s` is a container whose directory can be located and is not
/// preceded by the magic of a signing block.
pub open spec fn is_unsigned(s: Seq<u8>) -> bool {
    match directory_location(s) {
        Ok(location) => !has_footer_magic(s, location.offset as int),
        Err(_) => false,
    }
}

/// Whether `s` is a container whose directory can be located and is
/// preceded by the magic of a signing block whose two size fields disagree,
/// or whose declared size cannot be that of a block before the directory.
pub open spec fn has_disagreeing_sizes(s: Seq<u8>) -> bool {
    match directory_location(s) {
        Ok(location) => {
            let d = location.offset as int;
            has_footer_magic(s, d) && (!size_in_bounds(s, d) || leading_size(s, d)
                != trailing_size(s, d))
        },
        Err(_) => false,
    }
}

/// Whether `s` is a container whose directory can be located and is
/// preceded by a signing block that holds only pairs with unrecognized IDs.
pub open spec fn has_unknown_schemes_only(s: Seq<u8>) -> bool {
    match directory_location(s) {
        Ok(location) => {
            let d = location.offset as int;
            pairs_area(s, d) is Ok && block_pairs(pairs_area(s, d)->Ok_0) is Some
                && all_unrecognized(block_pairs(pairs_area(s, d)->Ok_0)->Some_0)
        },
        Err(_) => false,
    }
}

/// A container whose signing block reads and whose directory has no
/// manifest entry fails with `EntryNotFound`.
pub proof fn lemma_missing_manifest(s: Seq<u8>)
    requires
        lacks_manifest(s),
    ensures
        parsed_package(s) == Err::<ParsedView, ApkError>(ApkError::EntryNotFound),
{
}

/// A package without a signing block fails with `NoSigningBlock`, whatever
/// its entries and its manifest hold.
pub proof fn lemma_unsigned_package(s: Seq<u8>)
    requires
        is_unsigned(s),
    ensures
        parsed_package(s) == Err::<ParsedView, ApkError>(ApkError::NoSigningBlock),
{
    lemma_location_lies_in_source(s);
}

/// A package whose signing block has two size fields that disagree fails
/// with `CorruptSigningBlock`, whatever its entries and its manifest hold.
pub proof fn lemma_disagreeing_sizes_fail_the_load(s: Seq<u8>)
    requires
        has_disagreeing_sizes(s),
    ensures
        parsed_package(s) == Err::<ParsedView, ApkError>(ApkError::CorruptSigningBlock),
{
    lemma_location_lies_in_source(s);
}

/// A package whose signing block holds only pairs with unrecognized IDs is
/// read with no signer records, and its signing block fails nothing.
pub proof fn lemma_unknown_schemes_only(s: Seq<u8>)
    requires
        has_unknown_schemes_only(s),
    ensures
        match parsed_package(s) {
            Ok(parsed) => parsed.sigs == Seq::<SignerRecord>::empty(),
            Err(e) => e != ApkError::NoSigningBlock && e != ApkError::CorruptSigningBlock,
        },
{
    let d = directory_location(s)->Ok_0.offset as int;
    lemma_unrecognized_block(s, d);
}

/// Joins the fields of a manifest and the records of the signers.
pub fn assemble(fields: ManifestFields, sigs: Vec<ApkSignature>) -> (r: AndroidManifestParsed)
    ensures
        r@ == (ParsedView { fields: fields@, sigs: signature_views(sigs@) }),
{
    AndroidManifestParsed {
        package: fields.package,
        version_code: fields.version_code,
        version_name: fields.version_name,
        compile_sdk_version: fields.compile_sdk_version,
        compile_sdk_version_codename: fields.compile_sdk_version_codename,
        platform_build_version_code: fields.platform_build_version_code,
        platform_build_version_name: fields.platform_build_version_name,
        min_sdk_version: fields.min_sdk_version,
        target_sdk_version: fields.target_sdk_version,
        max_sdk_version: fields.max_sdk_version,
        icon: fields.icon,
        label: fields.label,
        sigs,
    }
}

/// Reads the signer records of a package whose central directory begins at
/// `directory_offset`, for a caller to whom a package without a signing
/// block is a package without signers: `NoSigningBlock` becomes no records.
pub fn read_signatures(reader: &ByteReader, directory_offset: u64) -> (r: Result<
    Vec<ApkSignature>,
    ApkError,
>)
    ensures
        match r {
            Ok(v) => package_signatures(reader@, directory_offset as int) == Ok::<
                Seq<SignerRecord>,
                ApkError,
            >(signature_views(v@)),
            Err(e) => package_signatures(reader@, directory_offset as int) == Err::<
                Seq<SignerRecord>,
                ApkError,
            >(e),
        },
{
    match parse_signing_block(reader, directory_offset) {
        Ok(entries) => Ok(collect_signatures(&entries)),
        Err(e) => {
            if e == ApkError::NoSigningBlock {
                assert(signature_views(Seq::<ApkSignature>::empty()) =~= Seq::<
                    SignerRecord,
                >::empty());
                Ok(Vec::new())
            } else {
                Err(e)
            }
        },
    }
}

impl PackageParts {
    /// Decodes the manifest and joins its fields with the signer records.
    ///
    /// `MalformedXml` if the manifest is malformed.
    pub fn decode(self) -> (r: Result<AndroidManifestParsed, ApkError>)
        ensures
            match r {
                Ok(p) => decoded_parts(self@) == Ok::<ParsedView, ApkError>(p@),
                Err(e) => decoded_parts(self@) == Err::<ParsedView, ApkError>(e),
            },
    {
        let doc = match decode_xml(self.manifest.as_slice()) {
            Err(e) => { return Err(e); },
            Ok(doc) => doc,
        };
        Ok(assemble(project_manifest(&doc), self.sigs))
    }
}

/// One package, held as its bytes.
pub struct ApkParser {
    reader: ByteReader,
}

impl View for ApkParser {
    type V = Seq<u8>;

    closed spec fn view(&self) -> Seq<u8> {
        self.reader@
    }
}

impl ApkParser {
    /// A parser for the package whose bytes are `data`.
    pub fn new(data: Vec<u8>) -> (r: Self)
        ensures
            r@ == data@,
    {
        ApkParser { reader: ByteReader::new(data) }
    }

    /// The bytes of the package.
    pub fn reader(&self) -> (r: &ByteReader)
        ensures
            r@ == self@,
    {
        &self.reader
    }

    /// Reads the content of the manifest entry and the signer records.
    ///
    /// Fails with the error of the first step that fails: locating the
    /// directory, reading the signing block before it, reading the
    /// directory, reading the entry `AndroidManifest.xml`. A package without
    /// a signing block fails with `NoSigningBlock`.
    pub fn read_parts(&self) -> (r: Result<PackageParts, ApkError>)
        ensures
            match r {
                Ok(p) => package_parts(self@) == Ok::<PartsView, ApkError>(p@),
                Err(e) => package_parts(self@) == Err::<PartsView, ApkError>(e),
            },
    {
        let location = match locate_directory(&self.reader) {
            Err(e) => { return Err(e); },
            Ok(location) => location,
        };
        let blocks = match parse_signing_block(&self.reader, location.offset as u64) {
            Err(e) => { return Err(e); },
            Ok(blocks) => blocks,
        };
        let sigs = collect_signatures(&blocks);
        let zip = match ZipIndex::open_at(&self.reader, location) {
            Err(e) => { return Err(e); },
            Ok(zip) => zip,
        };
        match zip.read_entry("AndroidManifest.xml".as_bytes()) {
            Err(e) => Err(e),
            Ok(manifest) => Ok(PackageParts { manifest, sigs }),
        }
    }

    /// Reads what the package declares and who signed it.
    ///
    /// Fails with the error of the first step that fails: locating the
    /// directory, reading the signing block before it, reading the
    /// directory, reading the entry `AndroidManifest.xml`, decoding the
    /// manifest. A package without a signing block fails with
    /// `NoSigningBlock`; one whose signing block has two size fields that
    /// disagree fails with `CorruptSigningBlock`.
    pub fn load_manifest(&self) -> (r: Result<AndroidManifestParsed, ApkError>)
        ensures
            match r {
                Ok(p) => parsed_package(self@) == Ok::<ParsedView, ApkError>(p@),
                Err(e) => parsed_package(self@) == Err::<ParsedView, ApkError>(e),
            },
            is_unsigned(self@) ==> r == Err::<AndroidManifestParsed, ApkError>(
                ApkError::NoSigningBlock,
            ),
            has_disagreeing_sizes(self@) ==> r == Err::<AndroidManifestParsed, ApkError>(
                ApkError::CorruptSigningBlock,
            ),
            lacks_manifest(self@) ==> r == Err::<AndroidManifestParsed, ApkError>(
                ApkError::EntryNotFound,
            ),
    {
        proof {
            lemma_location_lies_in_source(self@);
        }
        match self.read_parts() {
            Err(e) => Err(e),
            Ok(parts) => parts.decode(),
        }
    }
}

} // verus!
