//! The shared error and response-code taxonomy of the codec.

use vstd::prelude::*;

verus! {

/// The failures that the codec surfaces to its callers.
///
/// Every decode and encode operation reports the first failure it runs
/// into; none is retried internally, and a failed decode must not be
/// treated as having produced a usable value.
#[derive(Clone, Copy, Debug, PartialEq, Eq, Structural)]
pub enum Error {
    /// A read or write would have reached past the buffer's capacity.
    OutOfBounds,
    /// Header decoding was invoked while the buffer was not at position 0.
    InvalidPosition,
    /// A compressed domain name had a pointer chain that was cut off as a
    /// loop, or a pointer aiming outside the buffer, or a label length
    /// byte that is neither an ordinary length nor a pointer.
    MalformedName,
}

/// The 4-bit response code of a DNS header.
///
/// The standard values have named variants; any other code read off the
/// wire is preserved numerically in `Other`.
#[derive(Clone, Copy, Debug, PartialEq, Eq, Structural)]
pub enum ResultCode {
    NoError,
    FormatError,
    ServerFailure,
    NxDomain,
    NotImplemented,
    Refused,
    Other(u8),
}

impl ResultCode {
    /// The response code that a 4-bit wire value stands for.
    pub open spec fn spec_from_num(value: u8) -> ResultCode {
        match value {
            0u8 => ResultCode::NoError,
            1u8 => ResultCode::FormatError,
            2u8 => ResultCode::ServerFailure,
            3u8 => ResultCode::NxDomain,
            4u8 => ResultCode::NotImplemented,
            5u8 => ResultCode::Refused,
            _ => ResultCode::Other(value),
        }
    }

    /// The wire value of a response code.
    pub open spec fn spec_to_num(self) -> u8 {
        match self {
            ResultCode::NoError => 0u8,
            ResultCode::FormatError => 1u8,
            ResultCode::ServerFailure => 2u8,
            ResultCode::NxDomain => 3u8,
            ResultCode::NotImplemented => 4u8,
            ResultCode::Refused => 5u8,
            ResultCode::Other(x) => x,
        }
    }

    /// A response code is well formed when its wire value fits in the
    /// 4-bit field and `Other` is not used for a value that has a named
    /// variant.
    pub open spec fn wf(self) -> bool {
        match self {
            ResultCode::Other(x) => 6 <= x <= 15,
            _ => true,
        }
    }

    /// Maps a 4-bit wire value to its response code.
    pub fn from_num(value: u8) -> (r: ResultCode)
        ensures
            r == ResultCode::spec_from_num(value),
    {
        match value {
            0 => ResultCode::NoError,
            1 => ResultCode::FormatError,
            2 => ResultCode::ServerFailure,
            3 => ResultCode::NxDomain,
            4 => ResultCode::NotImplemented,
            5 => ResultCode::Refused,
            _ => ResultCode::Other(value),
        }
    }

    /// Maps a response code back to its wire value.
    pub fn to_num(self) -> (r: u8)
        ensures
            r == self.spec_to_num(),
    {
        match self {
            ResultCode::NoError => 0,
            ResultCode::FormatError => 1,
            ResultCode::ServerFailure => 2,
            ResultCode::NxDomain => 3,
            ResultCode::NotImplemented => 4,
            ResultCode::Refused => 5,
            ResultCode::Other(x) => x,
        }
    }
}

/// Converting a response code to its wire value and back reproduces the
/// code, and converting a 4-bit wire value to a code and back reproduces
/// the value.
pub proof fn lemma_result_code_round_trip(code: ResultCode, value: u8)
    requires
        code.wf(),
        value <= 15,
    ensures
        ResultCode::spec_from_num(code.spec_to_num()) == code,
        ResultCode::spec_from_num(value).spec_to_num() == value,
{
}

} // verus!
