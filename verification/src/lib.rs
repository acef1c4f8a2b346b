pub mod addr_map;
pub mod checks;
pub mod crypto;
pub mod eip712;
pub mod escrow;
pub mod manager;
pub mod rav;
pub mod rav_storage;
pub mod receipt;
pub mod receipt_storage;
pub mod received_receipt;
pub mod watermark;

use vstd::prelude::*;

verus! {

/// Failure kinds surfaced at the component boundaries of the receipt manager.
#[derive(Clone, Copy, Debug, PartialEq, Eq, Structural)]
pub enum Error {
    /// The receipt's allocation id is not in the allocation allow-list.
    InvalidAllocationId,
    /// The signature could not be recovered, or the recovered signer is not allowed.
    InvalidSignature,
    /// The receipt's timestamp is at or below the manager's watermark.
    InvalidTimestamp,
    /// A receipt with the same unique hash was already seen.
    NonUniqueReceipt,
    /// The receipt's value does not match the appraised value for the request.
    InvalidValue,
    /// The sender's escrow balance cannot cover the receipt's value.
    InsufficientEscrow,
    /// No reserved receipts fall inside the requested aggregation window.
    NoValidReceiptsForRAVRequest,
    /// Summing receipt values into an aggregate voucher would overflow.
    RAVAggregationOverflow,
    /// The aggregator returned a voucher that disagrees with local state.
    InvalidReceivedRAV,
    /// The voucher was signed by an address outside the aggregator allow-list.
    AggregatorSignerNotAuthorized,
    /// A storage contract reported a failure.
    StorageFailure,
    /// The system clock reported a time before the Unix epoch.
    InvalidSystemTime,
}

} // verus!
