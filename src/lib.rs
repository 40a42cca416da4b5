//! Failure kinds of signature verification, their equality and rendering,
//! the conversion of cosmwasm-crypto's errors into them, and an
//! approximate-equality check on unsigned magnitudes.

pub mod approx;
pub mod crypto;
pub mod numeral;
pub mod verification_error;

pub use approx::{assert_approx_eq_impl, parse_decimal, ApproxEqError};
pub use crypto::CryptoErrorKind;
pub use verification_error::VerificationError;
