//! Extraction of identity and signing metadata from Android application packages.
//!
//! A package is a ZIP container. Its central directory locates the compiled
//! manifest, and the bytes just before the central directory may hold an APK
//! Signing Block. This crate reads both from an in-memory byte source and
//! states, for every function, exactly which bytes yield which result.

pub mod error;
pub mod sequence;
pub mod bytes;
pub mod inflate;
pub mod zip;
pub mod algorithm;
pub mod prefixed;
pub mod signer;
pub mod signer_encoding;
pub mod signing;
pub mod block_encoding;
pub mod text;
pub mod pool;
pub mod axml;
pub mod manifest;
pub mod api;

pub use api::{AndroidManifestParsed, ApkParser, ApkSignature};
pub use error::ApkError;
