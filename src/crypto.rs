//! The errors of cosmwasm-crypto, as far as this library reads them.

use vstd::prelude::*;

use cosmwasm_crypto::CryptoError;

verus! {

#[verifier::external_type_specification]
#[verifier::external_body]
pub struct ExCryptoError(cosmwasm_crypto::CryptoError);

/// The code that `CryptoError::code` gives an error.
pub uninterp spec fn crypto_code_of(e: CryptoError) -> u32;

/// The variant of a `CryptoError`, as a `CryptoErrorKind`.
pub uninterp spec fn crypto_kind_of(e: CryptoError) -> CryptoErrorKind;

/// Relies on `cosmwasm_crypto::CryptoError::code`: a total match on the variant
/// (and, for two variants, on their source), giving every error a code between 3
/// and 15.
pub assume_specification[ cosmwasm_crypto::CryptoError::code ](e: &CryptoError) -> (r: u32)
    ensures
        r == crypto_code_of(*e),
        3 <= r <= 15,
;

/// Which variant a `CryptoError` is, as a plain value: one kind for each variant.
#[derive(Debug, Clone, Copy, PartialEq, Eq, Structural)]
pub enum CryptoErrorKind {
    Aggregation,
    BatchErr,
    GenericErr,
    InvalidHashFormat,
    InvalidPubkeyFormat,
    InvalidSignatureFormat,
    InvalidRecoveryParam,
    InvalidPoint,
    PairingEquality,
    UnknownHashFunction,
}

/// Relies on the variants of `cosmwasm_crypto::CryptoError`: each one is told apart
/// and named by the kind of the same name. The match lists every variant, so that a
/// new one cannot go unclassified.
#[verifier::external_body]
pub(crate) fn crypto_error_kind(e: &CryptoError) -> (r: CryptoErrorKind)
    ensures
        r == crypto_kind_of(*e),
{
    match e {
        CryptoError::Aggregation { .. } => CryptoErrorKind::Aggregation,
        CryptoError::BatchErr { .. } => CryptoErrorKind::BatchErr,
        CryptoError::GenericErr { .. } => CryptoErrorKind::GenericErr,
        CryptoError::InvalidHashFormat { .. } => CryptoErrorKind::InvalidHashFormat,
        CryptoError::InvalidPubkeyFormat { .. } => CryptoErrorKind::InvalidPubkeyFormat,
        CryptoError::InvalidSignatureFormat { .. } => CryptoErrorKind::InvalidSignatureFormat,
        CryptoError::InvalidRecoveryParam { .. } => CryptoErrorKind::InvalidRecoveryParam,
        CryptoError::InvalidPoint { .. } => CryptoErrorKind::InvalidPoint,
        CryptoError::PairingEquality { .. } => CryptoErrorKind::PairingEquality,
        CryptoError::UnknownHashFunction { .. } => CryptoErrorKind::UnknownHashFunction,
    }
}

} // verus!
