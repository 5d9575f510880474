//! Failure modes of a call: every failure carries a stable machine-readable
//! code and a human-readable message, and no failure yields partial results.

use vstd::prelude::*;

verus! {

/// The ways a call can fail before or during planning.
///
/// `NoSdkConfig` is a precondition failure: the store session was absent from
/// the call context, reported before any planning is attempted.
/// `NoKeyCondition` is a planning failure: the filter holds neither the
/// primary-key attribute nor any indexed attribute.
/// `AmbiguousFilterAttribute` is a planning failure: two filter attributes
/// would normalize to the same alias/placeholder pair, which would silently
/// overwrite a binding.
#[derive(Clone, Copy, Debug, PartialEq, Eq, Structural)]
pub enum Error {
    NoSdkConfig,
    NoKeyCondition,
    AmbiguousFilterAttribute,
}

impl Error {
    /// The stable machine-readable code for this failure.
    pub fn code(&self) -> (r: String)
        ensures
            *self == Error::NoSdkConfig ==> r@ == "NO_SDK_CONFIG"@,
            *self == Error::NoKeyCondition ==> r@ == "NO_KEY_CONDITION"@,
            *self == Error::AmbiguousFilterAttribute ==> r@ == "AMBIGUOUS_FILTER_ATTRIBUTE"@,
    {
        match self {
            Error::NoSdkConfig => String::from_str("NO_SDK_CONFIG"),
            Error::NoKeyCondition => String::from_str("NO_KEY_CONDITION"),
            Error::AmbiguousFilterAttribute => String::from_str("AMBIGUOUS_FILTER_ATTRIBUTE"),
        }
    }

    /// The human-readable message for this failure.
    pub fn message(&self) -> (r: String)
        ensures
            *self == Error::NoSdkConfig ==> r@ == "No store sdk config found in handler context"@,
            *self == Error::NoKeyCondition ==> r@
                == "Please provide at least a primary key or an index field to be able to query"@,
            *self == Error::AmbiguousFilterAttribute ==> r@
                == "Two filter attributes map to the same placeholder name"@,
    {
        match self {
            Error::NoSdkConfig => String::from_str("No store sdk config found in handler context"),
            Error::NoKeyCondition => String::from_str(
                "Please provide at least a primary key or an index field to be able to query",
            ),
            Error::AmbiguousFilterAttribute => String::from_str(
                "Two filter attributes map to the same placeholder name",
            ),
        }
    }
}

} // verus!
