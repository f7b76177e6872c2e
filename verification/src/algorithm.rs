//! The signature algorithms that a signer names by number.

use vstd::prelude::*;

verus! {

/// RSASSA-PSS with SHA2-256.
pub const RSA_PSS_SHA256: u32 = 0x0101;

/// RSASSA-PSS with SHA2-512.
pub const RSA_PSS_SHA512: u32 = 0x0102;

/// RSASSA-PKCS1-v1_5 with SHA2-256.
pub const RSA_PKCS1_SHA256: u32 = 0x0103;

/// RSASSA-PKCS1-v1_5 with SHA2-512.
pub const RSA_PKCS1_SHA512: u32 = 0x0104;

/// ECDSA with SHA2-256.
pub const ECDSA_SHA256: u32 = 0x0201;

/// ECDSA with SHA2-512.
pub const ECDSA_SHA512: u32 = 0x0202;

/// DSA with SHA2-256.
pub const DSA_SHA256: u32 = 0x0301;

/// A signature algorithm, as a signer's digest and signature entries name it.
#[derive(Clone, Copy, Debug, PartialEq, Eq, Structural)]
pub enum SignatureAlgorithm {
    RsaPssSha256,
    RsaPssSha512,
    RsaPkcs1Sha256,
    RsaPkcs1Sha512,
    EcdsaSha256,
    EcdsaSha512,
    DsaSha256,
    /// A number that stands for none of the algorithms above.
    Unknown(u32),
}

/// The algorithm that `id` stands for.
pub open spec fn algorithm_of(id: u32) -> SignatureAlgorithm {
    if id == RSA_PSS_SHA256 {
        SignatureAlgorithm::RsaPssSha256
    } else if id == RSA_PSS_SHA512 {
        SignatureAlgorithm::RsaPssSha512
    } else if id == RSA_PKCS1_SHA256 {
        SignatureAlgorithm::RsaPkcs1Sha256
    } else if id == RSA_PKCS1_SHA512 {
        SignatureAlgorithm::RsaPkcs1Sha512
    } else if id == ECDSA_SHA256 {
        SignatureAlgorithm::EcdsaSha256
    } else if id == ECDSA_SHA512 {
        SignatureAlgorithm::EcdsaSha512
    } else if id == DSA_SHA256 {
        SignatureAlgorithm::DsaSha256
    } else {
        SignatureAlgorithm::Unknown(id)
    }
}

/// The symbolic name under which the algorithm numbered `id` is reported.
pub open spec fn algorithm_name(id: u32) -> Seq<char> {
    algorithm_of(id).spec_name()
}

impl SignatureAlgorithm {
    /// The number that stands for this algorithm.
    pub open spec fn spec_id(&self) -> u32 {
        match self {
            SignatureAlgorithm::RsaPssSha256 => RSA_PSS_SHA256,
            SignatureAlgorithm::RsaPssSha512 => RSA_PSS_SHA512,
            SignatureAlgorithm::RsaPkcs1Sha256 => RSA_PKCS1_SHA256,
            SignatureAlgorithm::RsaPkcs1Sha512 => RSA_PKCS1_SHA512,
            SignatureAlgorithm::EcdsaSha256 => ECDSA_SHA256,
            SignatureAlgorithm::EcdsaSha512 => ECDSA_SHA512,
            SignatureAlgorithm::DsaSha256 => DSA_SHA256,
            SignatureAlgorithm::Unknown(id) => *id,
        }
    }

    /// This algorithm's symbolic name.
    pub open spec fn spec_name(&self) -> Seq<char> {
        match self {
            SignatureAlgorithm::RsaPssSha256 => "RSASSA_PSS_WITH_SHA256"@,
            SignatureAlgorithm::RsaPssSha512 => "RSASSA_PSS_WITH_SHA512"@,
            SignatureAlgorithm::RsaPkcs1Sha256 => "RSASSA_PKCS1_V1_5_WITH_SHA256"@,
            SignatureAlgorithm::RsaPkcs1Sha512 => "RSASSA_PKCS1_V1_5_WITH_SHA512"@,
            SignatureAlgorithm::EcdsaSha256 => "ECDSA_WITH_SHA256"@,
            SignatureAlgorithm::EcdsaSha512 => "ECDSA_WITH_SHA512"@,
            SignatureAlgorithm::DsaSha256 => "DSA_WITH_SHA256"@,
            SignatureAlgorithm::Unknown(_) => "UNKNOWN"@,
        }
    }

    /// The algorithm that `id` stands for.
    pub fn from_id(id: u32) -> (r: Self)
        ensures
            r == algorithm_of(id),
            r.spec_id() == id,
    {
        if id == RSA_PSS_SHA256 {
            SignatureAlgorithm::RsaPssSha256
        } else if id == RSA_PSS_SHA512 {
            SignatureAlgorithm::RsaPssSha512
        } else if id == RSA_PKCS1_SHA256 {
            SignatureAlgorithm::RsaPkcs1Sha256
        } else if id == RSA_PKCS1_SHA512 {
            SignatureAlgorithm::RsaPkcs1Sha512
        } else if id == ECDSA_SHA256 {
            SignatureAlgorithm::EcdsaSha256
        } else if id == ECDSA_SHA512 {
            SignatureAlgorithm::EcdsaSha512
        } else if id == DSA_SHA256 {
            SignatureAlgorithm::DsaSha256
        } else {
            SignatureAlgorithm::Unknown(id)
        }
    }

    /// The number that stands for this algorithm.
    pub fn id(&self) -> (r: u32)
        ensures
            r == self.spec_id(),
    {
        match self {
            SignatureAlgorithm::RsaPssSha256 => RSA_PSS_SHA256,
            SignatureAlgorithm::RsaPssSha512 => RSA_PSS_SHA512,
            SignatureAlgorithm::RsaPkcs1Sha256 => RSA_PKCS1_SHA256,
            SignatureAlgorithm::RsaPkcs1Sha512 => RSA_PKCS1_SHA512,
            SignatureAlgorithm::EcdsaSha256 => ECDSA_SHA256,
            SignatureAlgorithm::EcdsaSha512 => ECDSA_SHA512,
            SignatureAlgorithm::DsaSha256 => DSA_SHA256,
            SignatureAlgorithm::Unknown(id) => *id,
        }
    }

    /// This algorithm's symbolic name.
    pub fn name(&self) -> (r: String)
        ensures
            r@ == self.spec_name(),
    {
        match self {
            SignatureAlgorithm::RsaPssSha256 => String::from_str("RSASSA_PSS_WITH_SHA256"),
            SignatureAlgorithm::RsaPssSha512 => String::from_str("RSASSA_PSS_WITH_SHA512"),
            SignatureAlgorithm::RsaPkcs1Sha256 => String::from_str(
                "RSASSA_PKCS1_V1_5_WITH_SHA256",
            ),
            SignatureAlgorithm::RsaPkcs1Sha512 => String::from_str(
                "RSASSA_PKCS1_V1_5_WITH_SHA512",
            ),
            SignatureAlgorithm::EcdsaSha256 => String::from_str("ECDSA_WITH_SHA256"),
            SignatureAlgorithm::EcdsaSha512 => String::from_str("ECDSA_WITH_SHA512"),
            SignatureAlgorithm::DsaSha256 => String::from_str("DSA_WITH_SHA256"),
            SignatureAlgorithm::Unknown(_) => String::from_str("UNKNOWN"),
        }
    }
}

/// The symbolic name of the algorithm numbered `id`.
pub fn algorithm_label(id: u32) -> (r: String)
    ensures
        r@ == algorithm_name(id),
{
    SignatureAlgorithm::from_id(id).name()
}

} // verus!
