//! Errors that the image verifier and the block receiver report.

use vstd::prelude::*;
use vstd::std_specs::convert::FromSpecImpl;

verus! {

/// Why a flash device refused an access.
#[derive(Clone, Copy, Debug, PartialEq, Eq, Structural)]
pub enum FlashError {
    /// The bytes asked for do not all lie inside the device.
    OutOfRange,
}

/// Terminal outcome of a verification or a transfer.
#[derive(Clone, Copy, Debug, PartialEq, Eq, Structural)]
pub enum Error {
    /// The bank begins with an erased byte or holds no magic sentinel.
    BankEmpty,
    /// The bank descriptor is inconsistent, or the flash refused the first
    /// read.
    BankInvalid,
    /// The signature is malformed or does not verify.
    SignatureInvalid,
    /// The flash refused an access; its error is passed on unchanged.
    FlashError(FlashError),
    /// The retry budget of a transfer is used up.
    TransferTimedOut,
}

impl From<FlashError> for Error {
    fn from(error: FlashError) -> (converted: Error) {
        Error::FlashError(error)
    }
}

impl FromSpecImpl<FlashError> for Error {
    open spec fn obeys_from_spec() -> bool {
        true
    }

    open spec fn from_spec(error: FlashError) -> Error {
        Error::FlashError(error)
    }
}

} // verus!
