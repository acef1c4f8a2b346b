//! The receipt state machine: a received receipt is `Checking`, passes the
//! pipeline into `AwaitingReserve`, and ends `Reserved` or `Failed`.
//! Transitions are one-way; illegal ones are unrepresentable.

use vstd::prelude::*;

use crate::checks::{first_failure, ReceiptCheck};
use crate::manager::{
    hash_matches, sender_matches, submit_ctx, submit_post, Manager, ManagerModel,
};
use crate::receipt::SignedReceipt;
use crate::Error;

verus! {

/// Initial state: the receipt is traversing the check pipeline.
#[derive(Clone, Copy, Debug)]
pub struct Checking;

/// Every check passed; the escrow reservation has not happened yet.
#[derive(Clone, Copy, Debug)]
pub struct AwaitingReserve;

/// Escrow was debited and the receipt persisted; it now awaits aggregation.
#[derive(Clone, Copy, Debug)]
pub struct Reserved;

/// Terminal failure state, carrying the error that rejected the receipt.
#[derive(Clone, Debug)]
pub struct Failed {
    pub error: Error,
}

/// A signed receipt tagged with its position in the state machine.
#[derive(Clone, Debug)]
pub struct ReceiptWithState<S> {
    pub signed_receipt: SignedReceipt,
    pub state: S,
}

/// Either the receipt advanced to state `S`, or it fell to `Failed`.
pub type ResultReceipt<S> = Result<ReceiptWithState<S>, ReceiptWithState<Failed>>;

impl ReceiptWithState<Checking> {
    /// Wraps a freshly received signed receipt in the initial state.
    pub fn new(signed_receipt: SignedReceipt) -> (r: ReceiptWithState<Checking>)
        ensures
            r.signed_receipt == signed_receipt,
    {
        ReceiptWithState { signed_receipt, state: Checking }
    }
}

impl<S> ReceiptWithState<S> {
    /// Moves the receipt to the terminal `Failed` state.
    pub fn fail(self, error: Error) -> (r: ReceiptWithState<Failed>)
        ensures
            r.signed_receipt == self.signed_receipt,
            r.state.error == error,
    {
        ReceiptWithState { signed_receipt: self.signed_receipt, state: Failed { error } }
    }
}

/// The pipeline's outcome for this receipt against the manager's state,
/// taken at the receipt's hash and recovered sender.
pub open spec fn checks_outcome_witness(
    m: ManagerModel,
    sr: SignedReceipt,
    request_id: u64,
    checks: Seq<ReceiptCheck>,
    r: Result<(), Error>,
    hash: [u8; 32],
    sender: Option<[u8; 20]>,
) -> bool {
    &&& hash_matches(m.domain, sr.message, hash)
    &&& sender_matches(m.domain, sr, sender)
    &&& match r {
        Ok(()) => first_failure(submit_ctx(m), sr, request_id, hash, sender, checks) is None,
        Err(e) => first_failure(submit_ctx(m), sr, request_id, hash, sender, checks) == Some(e),
    }
}

/// The pipeline's outcome, at the receipt's actual hash and sender.
pub open spec fn checks_outcome(
    m: ManagerModel,
    sr: SignedReceipt,
    request_id: u64,
    checks: Seq<ReceiptCheck>,
    r: Result<(), Error>,
) -> bool {
    exists|hash: [u8; 32], sender: Option<[u8; 20]>| #[trigger] checks_outcome_witness(
        m,
        sr,
        request_id,
        checks,
        r,
        hash,
        sender,
    )
}

impl ReceiptWithState<Checking> {
    /// Runs the pipeline over this receipt, in order, against the manager's
    /// state; reports the first failing check and reads everything without
    /// changing anything.
    pub fn perform_checks(
        &self,
        manager: &Manager,
        request_id: u64,
        checks: &Vec<ReceiptCheck>,
    ) -> (r: Result<(), Error>)
        ensures
            checks_outcome(manager@, self.signed_receipt, request_id, checks@, r),
    {
        let hash = self.signed_receipt.unique_hash(manager.domain());
        let sender: Option<[u8; 20]> = match self.signed_receipt.recover_signer(manager.domain()) {
            Ok(a) => Some(a),
            Err(_) => None,
        };
        let r = manager.run_checks_for(checks, &self.signed_receipt, request_id, &hash, &sender);
        proof {
            assert(checks_outcome_witness(
                manager@, self.signed_receipt, request_id, checks@, r, hash, sender,
            ));
        }
        r
    }

    /// Runs the pipeline and advances the receipt: to `AwaitingReserve` when
    /// every check passes, to `Failed` with the first failing check's error
    /// otherwise.
    pub fn finalize_receipt_checks(
        self,
        manager: &Manager,
        request_id: u64,
        checks: &Vec<ReceiptCheck>,
    ) -> (r: ResultReceipt<AwaitingReserve>)
        ensures
            r matches Ok(next) ==> next.signed_receipt == self.signed_receipt && checks_outcome(
                manager@,
                self.signed_receipt,
                request_id,
                checks@,
                Ok(()),
            ),
            r matches Err(f) ==> f.signed_receipt == self.signed_receipt && checks_outcome(
                manager@,
                self.signed_receipt,
                request_id,
                checks@,
                Err(f.state.error),
            ),
    {
        let outcome = self.perform_checks(manager, request_id, checks);
        match outcome {
            Ok(u) => {
                proof {
                    assert(u == ());
                    assert(outcome == Ok::<(), Error>(()));
                    let (h, s): ([u8; 32], Option<[u8; 20]>) = choose|
                        h: [u8; 32],
                        s: Option<[u8; 20]>,
                    | checks_outcome_witness(
                        manager@,
                        self.signed_receipt,
                        request_id,
                        checks@,
                        outcome,
                        h,
                        s,
                    );
                    assert(checks_outcome_witness(
                        manager@,
                        self.signed_receipt,
                        request_id,
                        checks@,
                        Ok(()),
                        h,
                        s,
                    ));
                }
                Ok(ReceiptWithState { signed_receipt: self.signed_receipt, state: AwaitingReserve })
            },
            Err(e) => {
                proof {
                    let (h, s): ([u8; 32], Option<[u8; 20]>) = choose|
                        h: [u8; 32],
                        s: Option<[u8; 20]>,
                    | checks_outcome_witness(
                        manager@,
                        self.signed_receipt,
                        request_id,
                        checks@,
                        outcome,
                        h,
                        s,
                    );
                    assert(checks_outcome_witness(
                        manager@,
                        self.signed_receipt,
                        request_id,
                        checks@,
                        Err(e),
                        h,
                        s,
                    ));
                }
                Err(self.fail(e))
            },
        }
    }
}

impl ReceiptWithState<AwaitingReserve> {
    /// Attempts the atomic escrow reservation: debits the sender and files
    /// the receipt as `Reserved` in one transition of the manager (with no
    /// further pipeline checks), or fails without any net state change
    /// beyond the audit record.
    pub fn check_and_reserve_escrow(self, manager: &mut Manager) -> (r: ResultReceipt<Reserved>)
        requires
            old(manager).wf(),
        ensures
            final(manager).wf(),
            final(manager)@.watermark == old(manager)@.watermark,
            r matches Ok(next) ==> next.signed_receipt == self.signed_receipt && submit_post(
                old(manager)@,
                final(manager)@,
                self.signed_receipt,
                0,
                Seq::<ReceiptCheck>::empty(),
                Ok(()),
            ),
            r matches Err(f) ==> f.signed_receipt == self.signed_receipt && submit_post(
                old(manager)@,
                final(manager)@,
                self.signed_receipt,
                0,
                Seq::<ReceiptCheck>::empty(),
                Err(f.state.error),
            ),
    {
        let no_checks: Vec<ReceiptCheck> = Vec::new();
        proof {
            assert(no_checks@ =~= Seq::<ReceiptCheck>::empty());
        }
        match manager.verify_and_store_receipt(self.signed_receipt, 0, &no_checks) {
            Ok(()) => Ok(ReceiptWithState { signed_receipt: self.signed_receipt, state: Reserved }),
            Err(e) => Err(self.fail(e)),
        }
    }
}

} // verus!
