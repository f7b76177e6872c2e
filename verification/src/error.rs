//! The failure conditions of the extraction pipeline.

use vstd::prelude::*;

verus! {

/// The ways in which reading a package can fail.
#[derive(Clone, Copy, Debug, PartialEq, Eq, Structural)]
pub enum ApkError {
    /// A requested byte range exceeds the source size.
    Truncated,
    /// The end-of-central-directory record or a directory header is malformed.
    MalformedZip,
    /// The requested ZIP entry is absent.
    EntryNotFound,
    /// A DEFLATE stream is invalid, or the content's size disagrees with the
    /// size the directory declares.
    DecompressionError,
    /// The signing-block footer magic is absent.
    NoSigningBlock,
    /// The signing block's two size fields disagree, or a length inside it
    /// runs past the bounds of what encloses it.
    CorruptSigningBlock,
    /// The binary XML document has an unknown chunk, an out-of-range string
    /// index, or a record that is cut short.
    MalformedXml,
}

impl ApkError {
    /// The condition's symbolic name.
    pub fn name(&self) -> (r: String)
        ensures
            r@ == self.spec_name(),
    {
        match self {
            ApkError::Truncated => String::from_str("Truncated"),
            ApkError::MalformedZip => String::from_str("MalformedZip"),
            ApkError::EntryNotFound => String::from_str("EntryNotFound"),
            ApkError::DecompressionError => String::from_str("DecompressionError"),
            ApkError::NoSigningBlock => String::from_str("NoSigningBlock"),
            ApkError::CorruptSigningBlock => String::from_str("CorruptSigningBlock"),
            ApkError::MalformedXml => String::from_str("MalformedXml"),
        }
    }

    /// The text that `name` returns.
    pub open spec fn spec_name(&self) -> Seq<char> {
        match self {
            ApkError::Truncated => "Truncated"@,
            ApkError::MalformedZip => "MalformedZip"@,
            ApkError::EntryNotFound => "EntryNotFound"@,
            ApkError::DecompressionError => "DecompressionError"@,
            ApkError::NoSigningBlock => "NoSigningBlock"@,
            ApkError::CorruptSigningBlock => "CorruptSigningBlock"@,
            ApkError::MalformedXml => "MalformedXml"@,
        }
    }
}

} // verus!
