//! Why a signature verification failed.

use vstd::prelude::*;

use vstd::std_specs::cmp::PartialEqSpec;
use vstd::std_specs::convert::FromSpec;
use vstd::string::StringExecFns;

use cosmwasm_crypto::CryptoError;

use crate::crypto::{crypto_code_of, crypto_error_kind, crypto_kind_of, CryptoErrorKind};
use crate::numeral::{decimal, push_decimal};

verus! {

/// The closed set of failure kinds of a verification. `UnknownErr` carries the
/// numeric code of an error of the cryptographic layer that has no kind of its
/// own here, unchanged.
#[derive(Debug)]
pub enum VerificationError {
    BatchErr,
    GenericErr,
    InvalidHashFormat,
    InvalidSignatureFormat,
    InvalidPubkeyFormat,
    InvalidRecoveryParam,
    UnknownErr { error_code: u32 },
}

/// Two errors are the same when they are of one kind and, for `UnknownErr`, carry
/// one code.
pub open spec fn same_error(a: VerificationError, b: VerificationError) -> bool {
    match (a, b) {
        (VerificationError::BatchErr, VerificationError::BatchErr) => true,
        (VerificationError::GenericErr, VerificationError::GenericErr) => true,
        (VerificationError::InvalidHashFormat, VerificationError::InvalidHashFormat) => true,
        (VerificationError::InvalidSignatureFormat, VerificationError::InvalidSignatureFormat) => true,
        (VerificationError::InvalidPubkeyFormat, VerificationError::InvalidPubkeyFormat) => true,
        (VerificationError::InvalidRecoveryParam, VerificationError::InvalidRecoveryParam) => true,
        (
            VerificationError::UnknownErr { error_code: c1 },
            VerificationError::UnknownErr { error_code: c2 },
        ) => c1 == c2,
        _ => false,
    }
}

/// The kinds that have a name of their own, all but `UnknownErr`.
pub open spec fn is_named(e: VerificationError) -> bool {
    !(e is UnknownErr)
}

/// The error that a failure of the cryptographic layer becomes: the kind of the
/// same name where there is one, else `UnknownErr` with the layer's code.
pub open spec fn classified(kind: CryptoErrorKind, code: u32) -> VerificationError {
    match kind {
        CryptoErrorKind::BatchErr => VerificationError::BatchErr,
        CryptoErrorKind::GenericErr => VerificationError::GenericErr,
        CryptoErrorKind::InvalidHashFormat => VerificationError::InvalidHashFormat,
        CryptoErrorKind::InvalidPubkeyFormat => VerificationError::InvalidPubkeyFormat,
        CryptoErrorKind::InvalidSignatureFormat => VerificationError::InvalidSignatureFormat,
        CryptoErrorKind::InvalidRecoveryParam => VerificationError::InvalidRecoveryParam,
        CryptoErrorKind::Aggregation
        | CryptoErrorKind::InvalidPoint
        | CryptoErrorKind::PairingEquality
        | CryptoErrorKind::UnknownHashFunction => VerificationError::UnknownErr { error_code: code },
    }
}

/// The fixed human-readable message of each kind.
pub open spec fn message_of(e: VerificationError) -> Seq<char> {
    match e {
        VerificationError::BatchErr => "Batch error"@,
        VerificationError::GenericErr => "Generic error"@,
        VerificationError::InvalidHashFormat => "Invalid hash format"@,
        VerificationError::InvalidSignatureFormat => "Invalid signature format"@,
        VerificationError::InvalidPubkeyFormat => "Invalid public key format"@,
        VerificationError::InvalidRecoveryParam => {
            "Invalid recovery parameter. Supported values: 0 and 1."@
        },
        VerificationError::UnknownErr { error_code } => {
            "Unknown error: "@ + decimal(error_code as nat)
        },
    }
}

impl VerificationError {
    /// An `UnknownErr` that carries `error_code`.
    pub fn unknown_err(error_code: u32) -> (r: Self)
        ensures
            r == (VerificationError::UnknownErr { error_code }),
    {
        VerificationError::UnknownErr { error_code }
    }

    /// The error for a failure of the cryptographic layer of the given kind and
    /// code; the code is kept only where the kind has no counterpart.
    pub fn classify(kind: CryptoErrorKind, code: u32) -> (r: Self)
        ensures
            r == classified(kind, code),
    {
        match kind {
            CryptoErrorKind::BatchErr => VerificationError::BatchErr,
            CryptoErrorKind::GenericErr => VerificationError::GenericErr,
            CryptoErrorKind::InvalidHashFormat => VerificationError::InvalidHashFormat,
            CryptoErrorKind::InvalidPubkeyFormat => VerificationError::InvalidPubkeyFormat,
            CryptoErrorKind::InvalidSignatureFormat => VerificationError::InvalidSignatureFormat,
            CryptoErrorKind::InvalidRecoveryParam => VerificationError::InvalidRecoveryParam,
            CryptoErrorKind::Aggregation
            | CryptoErrorKind::InvalidPoint
            | CryptoErrorKind::PairingEquality
            | CryptoErrorKind::UnknownHashFunction => VerificationError::unknown_err(code),
        }
    }

    /// The message of this error, as it is displayed.
    pub fn message(&self) -> (r: String)
        ensures
            r@ == message_of(*self),
    {
        match self {
            VerificationError::BatchErr => String::from_str("Batch error"),
            VerificationError::GenericErr => String::from_str("Generic error"),
            VerificationError::InvalidHashFormat => String::from_str("Invalid hash format"),
            VerificationError::InvalidSignatureFormat => {
                String::from_str("Invalid signature format")
            },
            VerificationError::InvalidPubkeyFormat => String::from_str("Invalid public key format"),
            VerificationError::InvalidRecoveryParam => {
                String::from_str("Invalid recovery parameter. Supported values: 0 and 1.")
            },
            VerificationError::UnknownErr { error_code } => {
                let mut r = String::from_str("Unknown error: ");
                push_decimal(&mut r, *error_code as u128);
                r
            },
        }
    }
}

impl PartialEq for VerificationError {
    fn eq(&self, rhs: &VerificationError) -> (r: bool) {
        match self {
            VerificationError::BatchErr => matches!(rhs, VerificationError::BatchErr),
            VerificationError::GenericErr => matches!(rhs, VerificationError::GenericErr),
            VerificationError::InvalidHashFormat => {
                matches!(rhs, VerificationError::InvalidHashFormat)
            },
            VerificationError::InvalidPubkeyFormat => {
                matches!(rhs, VerificationError::InvalidPubkeyFormat)
            },
            VerificationError::InvalidSignatureFormat => {
                matches!(rhs, VerificationError::InvalidSignatureFormat)
            },
            VerificationError::InvalidRecoveryParam => {
                matches!(rhs, VerificationError::InvalidRecoveryParam)
            },
            VerificationError::UnknownErr { error_code } => {
                match rhs {
                    VerificationError::UnknownErr { error_code: rhs_error_code } => {
                        *error_code == *rhs_error_code
                    },
                    _ => false,
                }
            },
        }
    }
}

impl vstd::std_specs::cmp::PartialEqSpecImpl for VerificationError {
    open spec fn obeys_eq_spec() -> bool {
        true
    }

    open spec fn eq_spec(&self, rhs: &VerificationError) -> bool {
        same_error(*self, *rhs)
    }
}

impl From<CryptoError> for VerificationError {
    fn from(err: CryptoError) -> Self {
        let code = err.code();
        VerificationError::classify(crypto_error_kind(&err), code)
    }
}

impl vstd::std_specs::convert::FromSpecImpl<CryptoError> for VerificationError {
    open spec fn obeys_from_spec() -> bool {
        true
    }

    open spec fn from_spec(v: CryptoError) -> VerificationError {
        classified(crypto_kind_of(v), crypto_code_of(v))
    }
}

/// Equality is exactly sameness of kind and, for `UnknownErr`, of code: it is
/// reflexive, symmetric, and agrees with equality of the values.
pub proof fn lemma_same_error_is_equality(a: VerificationError, b: VerificationError)
    ensures
        same_error(a, a),
        same_error(a, b) == same_error(b, a),
        same_error(a, b) <==> a == b,
{
}

/// A named kind equals itself and differs from every other named kind.
pub proof fn lemma_named_kinds_distinct(a: VerificationError, b: VerificationError)
    requires
        is_named(a),
        is_named(b),
    ensures
        a.eq_spec(&a),
        a.eq_spec(&b) <==> a == b,
{
}

/// Two unknown errors are equal exactly when their codes are.
pub proof fn lemma_unknown_err_eq(c1: u32, c2: u32)
    ensures
        (VerificationError::UnknownErr { error_code: c1 }).eq_spec(
            &VerificationError::UnknownErr { error_code: c2 },
        ) <==> c1 == c2,
{
}

/// Each named kind of the cryptographic layer becomes the local kind of the same
/// name, whatever its code.
pub proof fn lemma_named_kinds_convert(code: u32)
    ensures
        classified(CryptoErrorKind::BatchErr, code) == VerificationError::BatchErr,
        classified(CryptoErrorKind::GenericErr, code) == VerificationError::GenericErr,
        classified(CryptoErrorKind::InvalidHashFormat, code)
            == VerificationError::InvalidHashFormat,
        classified(CryptoErrorKind::InvalidPubkeyFormat, code)
            == VerificationError::InvalidPubkeyFormat,
        classified(CryptoErrorKind::InvalidSignatureFormat, code)
            == VerificationError::InvalidSignatureFormat,
        classified(CryptoErrorKind::InvalidRecoveryParam, code)
            == VerificationError::InvalidRecoveryParam,
        classified(CryptoErrorKind::Aggregation, code) == (VerificationError::UnknownErr {
            error_code: code,
        }),
        classified(CryptoErrorKind::InvalidPoint, code) == (VerificationError::UnknownErr {
            error_code: code,
        }),
        classified(CryptoErrorKind::PairingEquality, code) == (VerificationError::UnknownErr {
            error_code: code,
        }),
        classified(CryptoErrorKind::UnknownHashFunction, code) == (VerificationError::UnknownErr {
            error_code: code,
        }),
{
}

/// Converting a `CryptoError` is total: an error of a named kind becomes the local
/// kind of the same name, whatever it carries, and any other becomes `UnknownErr`
/// with the error's own code.
pub proof fn lemma_conversion_is_total(e: CryptoError)
    ensures
        crypto_kind_of(e) == CryptoErrorKind::BatchErr ==> VerificationError::from_spec(e)
            == VerificationError::BatchErr,
        crypto_kind_of(e) == CryptoErrorKind::GenericErr ==> VerificationError::from_spec(e)
            == VerificationError::GenericErr,
        crypto_kind_of(e) == CryptoErrorKind::InvalidHashFormat ==> VerificationError::from_spec(
            e,
        ) == VerificationError::InvalidHashFormat,
        crypto_kind_of(e) == CryptoErrorKind::InvalidPubkeyFormat
            ==> VerificationError::from_spec(e) == VerificationError::InvalidPubkeyFormat,
        crypto_kind_of(e) == CryptoErrorKind::InvalidSignatureFormat
            ==> VerificationError::from_spec(e) == VerificationError::InvalidSignatureFormat,
        crypto_kind_of(e) == CryptoErrorKind::InvalidRecoveryParam
            ==> VerificationError::from_spec(e) == VerificationError::InvalidRecoveryParam,
        is_named(VerificationError::from_spec(e)) || VerificationError::from_spec(e) == (
        VerificationError::UnknownErr { error_code: crypto_code_of(e) }),
{
}

} // verus!
