//! Error taxonomy shared by all components.

use vstd::prelude::*;

verus! {

/// Errors reported by the DKG state machine and the threshold signer.
///
/// Cryptographic verification failures are *not* errors: they are boolean
/// results, and the DKG reacts to them by evicting the offending peer.
#[derive(Clone, Copy, Debug, PartialEq, Eq, Structural)]
pub enum Error {
    /// A signature operation was asked of a node that holds no key material.
    BadSignature,
    /// The aggregated coefficient vector is empty: keys were never derived.
    NoPolyCoefficient,
    /// A commitment vector (or paired input vector) has the wrong length.
    LengthMismatch,
    /// A commitment vector from this dealer was already received.
    DuplicateCommitments,
    /// A share from this dealer was already received.
    DuplicateShare,
    /// A qualified dealer's commitment vector is missing; carries its id.
    MissingCoefficient(u32),
    /// Fewer dealers qualified than the threshold requires.
    QualTooSmall,
    /// Duplicate ids made a Lagrange denominator vanish.
    DegenerateInterpolation,
    /// Fewer partial signatures were supplied than the threshold requires.
    InsufficientShares,
    /// An operation was invoked in a protocol state that does not enable it.
    OutOfOrder,
    /// Construction was attempted with sizes violating `1 <= t <= n`.
    InvalidParameters,
}

impl Error {
    /// A stable, human-readable identifier for this error.
    pub fn describe(&self) -> (r: &'static str)
        ensures
            r@ =~= self.describe_spec(),
    {
        match self {
            Error::BadSignature => "BadSignature",
            Error::NoPolyCoefficient => "NoPolyCoefficient",
            Error::LengthMismatch => "LengthMismatch",
            Error::DuplicateCommitments => "DuplicateCommitments",
            Error::DuplicateShare => "DuplicateShare",
            Error::MissingCoefficient(_) => "MissingCoefficient",
            Error::QualTooSmall => "QualTooSmall",
            Error::DegenerateInterpolation => "DegenerateInterpolation",
            Error::InsufficientShares => "InsufficientShares",
            Error::OutOfOrder => "OutOfOrder",
            Error::InvalidParameters => "InvalidParameters",
        }
    }

    /// The identifier [`Self::describe`] returns for each variant.
    pub open spec fn describe_spec(&self) -> Seq<char> {
        match self {
            Error::BadSignature => "BadSignature"@,
            Error::NoPolyCoefficient => "NoPolyCoefficient"@,
            Error::LengthMismatch => "LengthMismatch"@,
            Error::DuplicateCommitments => "DuplicateCommitments"@,
            Error::DuplicateShare => "DuplicateShare"@,
            Error::MissingCoefficient(_) => "MissingCoefficient"@,
            Error::QualTooSmall => "QualTooSmall"@,
            Error::DegenerateInterpolation => "DegenerateInterpolation"@,
            Error::InsufficientShares => "InsufficientShares"@,
            Error::OutOfOrder => "OutOfOrder"@,
            Error::InvalidParameters => "InvalidParameters"@,
        }
    }
}

} // verus!
