//! The check pipeline: an ordered list of named predicates over a receipt
//! and the manager's state, short-circuiting at the first failure.

use vstd::prelude::*;

use crate::addr_map::address_eq;
use crate::receipt::SignedReceipt;
use crate::receipt_storage::{contains_hash, ReceiptRecord, ReceiptStorage};
use crate::Error;

verus! {

broadcast use vstd::std_specs::hash::group_hash_axioms;

/// The standard checks, by name. A pipeline is an ordered sequence of these.
#[derive(Clone, Copy, Debug, PartialEq, Eq, Structural)]
pub enum ReceiptCheck {
    /// The receipt's allocation id is in the allocation allow-list.
    CheckAllocationId,
    /// The recovered signer is in the sender allow-list.
    CheckSignature,
    /// The receipt's timestamp lies above the watermark.
    CheckTimestamp,
    /// The receipt's unique hash is unseen in the receipt store.
    CheckUnique,
    /// The receipt's value equals the appraisal for the request.
    CheckValue,
}

/// What the checks read: the allow-lists, the watermark, the stored records
/// and the appraisal table.
pub struct CheckContext {
    pub allocation_ids: Seq<[u8; 20]>,
    pub sender_ids: Seq<[u8; 20]>,
    pub watermark: u64,
    pub records: Seq<ReceiptRecord>,
    pub appraisals: Map<u64, u128>,
}

/// Whether one check passes, given the receipt's unique hash and the
/// recovered sender.
pub open spec fn check_passes(
    ctx: CheckContext,
    sr: SignedReceipt,
    request_id: u64,
    hash: [u8; 32],
    sender: Option<[u8; 20]>,
    c: ReceiptCheck,
) -> bool {
    match c {
        ReceiptCheck::CheckAllocationId => ctx.allocation_ids.contains(sr.message.allocation_id),
        ReceiptCheck::CheckSignature => sender matches Some(a) && ctx.sender_ids.contains(a),
        ReceiptCheck::CheckTimestamp => sr.message.timestamp_ns > ctx.watermark,
        ReceiptCheck::CheckUnique => !contains_hash(ctx.records, hash),
        ReceiptCheck::CheckValue => ctx.appraisals.contains_key(request_id)
            && ctx.appraisals[request_id] == sr.message.value,
    }
}

/// The error a failing check surfaces.
pub open spec fn check_error(c: ReceiptCheck) -> Error {
    match c {
        ReceiptCheck::CheckAllocationId => Error::InvalidAllocationId,
        ReceiptCheck::CheckSignature => Error::InvalidSignature,
        ReceiptCheck::CheckTimestamp => Error::InvalidTimestamp,
        ReceiptCheck::CheckUnique => Error::NonUniqueReceipt,
        ReceiptCheck::CheckValue => Error::InvalidValue,
    }
}

/// The error of the first failing check of the pipeline, or `None` when
/// every check passes.
pub open spec fn first_failure(
    ctx: CheckContext,
    sr: SignedReceipt,
    request_id: u64,
    hash: [u8; 32],
    sender: Option<[u8; 20]>,
    checks: Seq<ReceiptCheck>,
) -> Option<Error>
    decreases checks.len(),
{
    if checks.len() == 0 {
        None
    } else if !check_passes(ctx, sr, request_id, hash, sender, checks.first()) {
        Some(check_error(checks.first()))
    } else {
        first_failure(ctx, sr, request_id, hash, sender, checks.drop_first())
    }
}

/// When every check before `i` passes, the pipeline's outcome is the
/// outcome of the rest.
pub proof fn lemma_first_failure_skip(
    ctx: CheckContext,
    sr: SignedReceipt,
    request_id: u64,
    hash: [u8; 32],
    sender: Option<[u8; 20]>,
    checks: Seq<ReceiptCheck>,
    i: int,
)
    requires
        0 <= i <= checks.len(),
        forall|j: int| 0 <= j < i ==> check_passes(ctx, sr, request_id, hash, sender, checks[j]),
    ensures
        first_failure(ctx, sr, request_id, hash, sender, checks) == first_failure(
            ctx,
            sr,
            request_id,
            hash,
            sender,
            checks.skip(i),
        ),
    decreases i,
{
    if i > 0 {
        assert(checks.skip(0) =~= checks);
        lemma_first_failure_skip(ctx, sr, request_id, hash, sender, checks, i - 1);
        assert(checks.skip(i - 1).first() == checks[i - 1]);
        assert(checks.skip(i - 1).drop_first() =~= checks.skip(i));
    } else {
        assert(checks.skip(0) =~= checks);
    }
}

/// Tests whether an address stands in an allow-list.
pub fn contains_address(list: &Vec<[u8; 20]>, a: &[u8; 20]) -> (r: bool)
    ensures
        r == list@.contains(*a),
{
    let n = list.len();
    let mut i: usize = 0;
    while i < n
        invariant
            n == list@.len(),
            i <= n,
            forall|j: int| 0 <= j < i ==> #[trigger] list@[j] != *a,
        decreases n - i,
    {
        if address_eq(&list[i], a) {
            return true;
        }
        i = i + 1;
    }
    false
}

/// Runs the pipeline in order and reports the first failure, touching no
/// state.
pub fn run_checks(
    checks: &Vec<ReceiptCheck>,
    sr: &SignedReceipt,
    request_id: u64,
    hash: &[u8; 32],
    sender: &Option<[u8; 20]>,
    allocation_ids: &Vec<[u8; 20]>,
    sender_ids: &Vec<[u8; 20]>,
    watermark: u64,
    storage: &ReceiptStorage,
    appraisals: &std::collections::HashMap<u64, u128>,
) -> (r: Result<(), Error>)
    ensures
        ({
            let ctx = CheckContext {
                allocation_ids: allocation_ids@,
                sender_ids: sender_ids@,
                watermark,
                records: storage.records@,
                appraisals: appraisals@,
            };
            match r {
                Ok(()) => first_failure(ctx, *sr, request_id, *hash, *sender, checks@) is None,
                Err(e) => first_failure(ctx, *sr, request_id, *hash, *sender, checks@) == Some(e),
            }
        }),
{
    let ghost ctx = CheckContext {
        allocation_ids: allocation_ids@,
        sender_ids: sender_ids@,
        watermark,
        records: storage.records@,
        appraisals: appraisals@,
    };
    let n = checks.len();
    let mut i: usize = 0;
    while i < n
        invariant
            n == checks@.len(),
            i <= n,
            ctx == (CheckContext {
                allocation_ids: allocation_ids@,
                sender_ids: sender_ids@,
                watermark,
                records: storage.records@,
                appraisals: appraisals@,
            }),
            forall|j: int|
                0 <= j < i ==> check_passes(ctx, *sr, request_id, *hash, *sender, checks@[j]),
        decreases n - i,
    {
        let passes: bool = match checks[i] {
            ReceiptCheck::CheckAllocationId => contains_address(
                allocation_ids,
                &sr.message.allocation_id,
            ),
            ReceiptCheck::CheckSignature => match sender {
                Some(a) => contains_address(sender_ids, a),
                None => false,
            },
            ReceiptCheck::CheckTimestamp => sr.message.timestamp_ns > watermark,
            ReceiptCheck::CheckUnique => !storage.contains_hash(hash),
            ReceiptCheck::CheckValue => match appraisals.get(&request_id) {
                Some(expected) => *expected == sr.message.value,
                None => false,
            },
        };
        if !passes {
            proof {
                lemma_first_failure_skip(ctx, *sr, request_id, *hash, *sender, checks@, i as int);
                assert(checks@.skip(i as int).first() == checks@[i as int]);
            }
            return Err(match checks[i] {
                ReceiptCheck::CheckAllocationId => Error::InvalidAllocationId,
                ReceiptCheck::CheckSignature => Error::InvalidSignature,
                ReceiptCheck::CheckTimestamp => Error::InvalidTimestamp,
                ReceiptCheck::CheckUnique => Error::NonUniqueReceipt,
                ReceiptCheck::CheckValue => Error::InvalidValue,
            });
        }
        i = i + 1;
    }
    proof {
        lemma_first_failure_skip(ctx, *sr, request_id, *hash, *sender, checks@, n as int);
        assert(checks@.skip(n as int) =~= Seq::<ReceiptCheck>::empty());
    }
    Ok(())
}

} // verus!
