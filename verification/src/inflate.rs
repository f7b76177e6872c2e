//! DEFLATE decompression, which this crate leaves to `miniz_oxide`.

use vstd::prelude::*;
use crate::error::ApkError;

verus! {

/// The error value of `miniz_oxide`'s one-shot decompression functions.
#[verifier::external_type_specification]
#[verifier::external_body]
pub struct ExDecompressError(miniz_oxide::inflate::DecompressError);

/// What a DEFLATE decoder makes of the raw stream `input` when its output may
/// grow to at most `limit` bytes: the decompressed bytes, or `None` where the
/// stream is invalid, cut short, or would decompress to more than `limit`.
pub uninterp spec fn inflated(input: Seq<u8>, limit: nat) -> Option<Seq<u8>>;

/// Calls `miniz_oxide::inflate::decompress_to_vec_with_limit`.
///
/// Assumed, not proved: the call's outcome depends on its two arguments
/// alone, and an output it returns is never longer than `limit`.
#[verifier::external_body]
fn decompress_with_limit(input: &[u8], limit: usize) -> (r: Result<
    Vec<u8>,
    miniz_oxide::inflate::DecompressError,
>)
    ensures
        r matches Ok(v) ==> inflated(input@, limit as nat) == Some(v@) && v@.len() <= limit,
        r is Err ==> inflated(input@, limit as nat) is None,
{
    miniz_oxide::inflate::decompress_to_vec_with_limit(input, limit)
}

/// The content that a decoder's outcome stands for when the directory
/// declares `declared` bytes: the output if it has exactly that length.
pub open spec fn checked_inflation(out: Option<Seq<u8>>, declared: nat) -> Result<
    Seq<u8>,
    ApkError,
> {
    match out {
        Some(v) => if v.len() == declared {
            Ok(v)
        } else {
            Err(ApkError::DecompressionError)
        },
        None => Err(ApkError::DecompressionError),
    }
}

/// Accepts a decoder's output only if it has exactly the declared length.
pub fn check_inflated(out: Option<Vec<u8>>, declared: usize) -> (r: Result<Vec<u8>, ApkError>)
    ensures
        match r {
            Ok(v) => out == Some(v) && v@.len() == declared,
            Err(e) => e == ApkError::DecompressionError && !(out matches Some(v) && v@.len()
                == declared),
        },
{
    match out {
        Some(v) => {
            if v.len() == declared {
                Ok(v)
            } else {
                Err(ApkError::DecompressionError)
            }
        },
        None => Err(ApkError::DecompressionError),
    }
}

/// Inflates a raw DEFLATE stream that must decompress to exactly `declared`
/// bytes.
pub fn inflate_exact(input: &[u8], declared: usize) -> (r: Result<Vec<u8>, ApkError>)
    ensures
        match r {
            Ok(v) => checked_inflation(inflated(input@, declared as nat), declared as nat) == Ok::<
                Seq<u8>,
                ApkError,
            >(v@),
            Err(e) => checked_inflation(inflated(input@, declared as nat), declared as nat)
                == Err::<Seq<u8>, ApkError>(e),
        },
        r matches Ok(v) ==> v@.len() == declared,
{
    let out = match decompress_with_limit(input, declared) {
        Ok(v) => Some(v),
        Err(_) => None,
    };
    check_inflated(out, declared)
}

} // verus!
