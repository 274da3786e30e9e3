//! The error taxonomy: every failure an operation reports, returned
//! synchronously as the `Err` arm of its result.

use vstd::prelude::*;

verus! {

#[derive(Debug, PartialEq, Eq)]
pub enum ContractError {
    /// A register or unregister call by an identity other than the admin.
    UnauthorizedRegistration,
    /// An admin change by an identity other than the admin.
    UnauthorizedUpdateAdmin,
    /// A payment whose amount differs from the configured amount. No current
    /// operation charges a fee; the kind is kept for wire compatibility.
    IncorrectPaymentAmount,
    /// A query addressed a key no record occupies.
    NotFound,
    /// A register call on an occupied `(chain_id, code_id)` key, carrying the
    /// code id and the chain it is already registered on.
    CodeIDAlreadyRegistered(u64, String),
    /// A token contract that is not a CW20. Kept for wire compatibility.
    InvalidCw20,
    /// A CW20 other than the configured payment token. Kept for wire
    /// compatibility.
    UnrecognizedCw20,
    /// A native token other than the configured one. Kept for wire
    /// compatibility.
    UnrecognizedNativeToken,
    /// A payment no operation accepts. Kept for wire compatibility.
    InvalidPayment,
}

} // verus!
