//! The manager: admits receipts through the check pipeline, reserves escrow,
//! assembles RAV requests by timestamp window, and reconciles returned
//! aggregator-signed vouchers with locally observed state.
//!
//! Its contracts are stated over `ManagerModel`, the mathematical image of
//! the manager's state, and the two ingest transitions `spec_submit` and
//! `spec_store_rav`. The well-formedness predicate `model_wf` carries the
//! protocol invariants: escrow conservation, freshness of reserved receipts
//! over the latest voucher, hash uniqueness, voucher accounting, and the
//! monotone watermark.

use vstd::prelude::*;

use crate::checks::{first_failure, CheckContext, ReceiptCheck};
use crate::eip712::Eip712Domain;
use crate::escrow::EscrowStorage;
use crate::rav::{
    max_timestamp, spec_rav_signer, sum_of_values, RAVRequest, ReceiptAggregateVoucher, SignedRAV,
};
use crate::receipt::{spec_receipt_digest, spec_receipt_signer, SignedReceipt};
use crate::receipt_storage::{
    absorbed_records, contains_hash, find_record, hashes_are_digests, in_window, insert_record,
    rec_alloc, rec_ts, receipts_distinct, records_wf, reserved_contribution,
    reserved_sum_of_sender, retained_records, windowed_receipts, ReceiptRecord, ReceiptStorage,
    RecordState,
};
use crate::received_receipt::{Failed, ReceiptWithState};
use crate::addr_map::AddrMap;
use crate::watermark::TimestampWatermark;
use crate::Error;

verus! {

broadcast use vstd::std_specs::hash::group_hash_axioms, crate::escrow::EscrowStorage::lemma_balances_total;

/// The ledger the proofs carry: cumulative deposits per sender, value
/// settled into vouchers per sender, and per allocation the total value and
/// highest timestamp ever absorbed into its vouchers.
pub struct HistoryLedger {
    pub funded: Map<[u8; 20], int>,
    pub settled: Map<[u8; 20], int>,
    pub absorbed_value: Map<[u8; 20], int>,
    pub absorbed_max: Map<[u8; 20], u64>,
}

/// The mathematical image of a manager.
#[verifier::ext_equal]
pub struct ManagerModel {
    pub domain: Eip712Domain,
    pub escrow: Map<[u8; 20], u128>,
    pub records: Seq<ReceiptRecord>,
    pub ravs: Map<[u8; 20], SignedRAV>,
    pub watermark: u64,
    pub allocation_ids: Seq<[u8; 20]>,
    pub sender_ids: Seq<[u8; 20]>,
    pub aggregator_ids: Seq<[u8; 20]>,
    pub appraisals: Map<u64, u128>,
    pub funded: Map<[u8; 20], int>,
    pub settled: Map<[u8; 20], int>,
    pub absorbed_value: Map<[u8; 20], int>,
    pub absorbed_max: Map<[u8; 20], u64>,
}

/// The manager's invariants.
pub open spec fn model_wf(m: ManagerModel) -> bool {
    // the store is ordered by timestamp and holds one record per hash
    &&& records_wf(m.records)
    // the stored hash fields are the receipts' digests under the domain
    &&& hashes_are_digests(m.domain, m.records)
    // escrow conservation: balance + reserved + settled == deposited, per sender
    &&& (forall|x: [u8; 20]|
        m.escrow[x] + reserved_sum_of_sender(m.records, x) + m.settled[x] == #[trigger] m.funded[x])
    &&& (forall|x: [u8; 20]| #[trigger] m.settled[x] >= 0)
    // reserved receipts carry positive timestamps above the watermark's floor
    &&& (forall|i: int|
        0 <= i < m.records.len() && (#[trigger] m.records[i]).state is Reserved ==> rec_ts(
            m.records[i],
        ) >= 1)
    // freshness: a reserved receipt lies above its allocation's latest voucher
    &&& (forall|i: int|
        (0 <= i < m.records.len() && (#[trigger] m.records[i]).state is Reserved
            && m.ravs.contains_key(rec_alloc(m.records[i]))) ==> rec_ts(m.records[i])
            > m.ravs[rec_alloc(m.records[i])].message.timestamp_ns_max)
    // voucher accounting: the latest voucher carries exactly what was absorbed
    &&& (forall|a: [u8; 20]| #[trigger]
        m.ravs.contains_key(a) ==> {
            &&& m.ravs[a].message.allocation_id == a
            &&& m.ravs[a].message.value_aggregate == m.absorbed_value[a]
            &&& m.ravs[a].message.timestamp_ns_max == m.absorbed_max[a]
            &&& m.ravs[a].message.timestamp_ns_max <= m.watermark
        })
    &&& (forall|a: [u8; 20]| !(#[trigger] m.ravs.contains_key(a)) ==> m.absorbed_value[a] == 0)
}

/// The receipt manager. All state lives here: the injected allow-lists and
/// appraisal table, the three stores, the domain and the watermark.
pub struct Manager {
    domain: Eip712Domain,
    escrow: EscrowStorage,
    receipt_storage: ReceiptStorage,
    latest_ravs: AddrMap<SignedRAV>,
    watermark: TimestampWatermark,
    allocation_ids: Vec<[u8; 20]>,
    sender_ids: Vec<[u8; 20]>,
    aggregator_ids: Vec<[u8; 20]>,
    appraisals: std::collections::HashMap<u64, u128>,
    history: Ghost<HistoryLedger>,
}

impl View for Manager {
    type V = ManagerModel;

    closed spec fn view(&self) -> ManagerModel {
        ManagerModel {
            domain: self.domain,
            escrow: self.escrow.balances(),
            records: self.receipt_storage.records@,
            ravs: self.latest_ravs.as_map(),
            watermark: self.watermark.spec_value(),
            allocation_ids: self.allocation_ids@,
            sender_ids: self.sender_ids@,
            aggregator_ids: self.aggregator_ids@,
            appraisals: self.appraisals@,
            funded: self.history@.funded,
            settled: self.history@.settled,
            absorbed_value: self.history@.absorbed_value,
            absorbed_max: self.history@.absorbed_max,
        }
    }
}

impl Manager {
    /// The manager's state satisfies the protocol invariants.
    pub open spec fn wf(&self) -> bool {
        &&& model_wf(self@)
        &&& self.stores_wf()
    }

    /// The executable stores behind the model are well formed.
    pub closed spec fn stores_wf(&self) -> bool {
        &&& self.escrow.wf()
        &&& self.latest_ravs.wf()
    }

    /// A manager over the given domain and allow-lists, with no escrow, no
    /// receipts and no vouchers, and the watermark at the given start time.
    pub fn new(
        domain: Eip712Domain,
        allocation_ids: Vec<[u8; 20]>,
        sender_ids: Vec<[u8; 20]>,
        aggregator_ids: Vec<[u8; 20]>,
        starting_min_timestamp_ns: u64,
    ) -> (r: Manager)
        ensures
            r.wf(),
            r@.domain == domain,
            r@.escrow == Map::new(|a: [u8; 20]| true, |a: [u8; 20]| 0u128),
            r@.records == Seq::<ReceiptRecord>::empty(),
            r@.ravs == Map::<[u8; 20], SignedRAV>::empty(),
            r@.watermark == starting_min_timestamp_ns,
            r@.allocation_ids == allocation_ids@,
            r@.sender_ids == sender_ids@,
            r@.aggregator_ids == aggregator_ids@,
            r@.appraisals == Map::<u64, u128>::empty(),
            r@.funded == Map::new(|a: [u8; 20]| true, |a: [u8; 20]| 0int),
            r@.settled == Map::new(|a: [u8; 20]| true, |a: [u8; 20]| 0int),
    {
        let r = Manager {
            domain,
            escrow: EscrowStorage::new(),
            receipt_storage: ReceiptStorage::new(),
            latest_ravs: AddrMap::new(),
            watermark: TimestampWatermark::new(starting_min_timestamp_ns),
            allocation_ids,
            sender_ids,
            aggregator_ids,
            appraisals: std::collections::HashMap::new(),
            history: Ghost(
                HistoryLedger {
                    funded: Map::new(|a: [u8; 20]| true, |a: [u8; 20]| 0int),
                    settled: Map::new(|a: [u8; 20]| true, |a: [u8; 20]| 0int),
                    absorbed_value: Map::new(|a: [u8; 20]| true, |a: [u8; 20]| 0int),
                    absorbed_max: Map::new(|a: [u8; 20]| true, |a: [u8; 20]| 0u64),
                },
            ),
        };
        proof {
            assert(r@.escrow =~= Map::new(|a: [u8; 20]| true, |a: [u8; 20]| 0u128));
        }
        r
    }

    /// The signing domain the manager verifies against.
    pub fn domain(&self) -> (r: &Eip712Domain)
        ensures
            *r == self@.domain,
    {
        &self.domain
    }

    /// The current watermark.
    pub fn watermark(&self) -> (r: u64)
        ensures
            r == self@.watermark,
    {
        self.watermark.get()
    }

    /// A sender's escrow balance.
    pub fn escrow_balance(&self, sender: &[u8; 20]) -> (r: u128)
        requires
            self.wf(),
        ensures
            r == self@.escrow[*sender],
    {
        self.escrow.get_balance(sender)
    }

    /// The latest voucher stored for an allocation.
    pub fn latest_rav(&self, allocation_id: &[u8; 20]) -> (r: Option<SignedRAV>)
        requires
            self.wf(),
        ensures
            r == spec_latest_rav(self@, *allocation_id),
    {
        match self.latest_ravs.get(allocation_id) {
            Some(rav) => Some(*rav),
            None => None,
        }
    }

    /// The state of the receipt filed under a hash, if any.
    pub fn receipt_state(&self, hash: &[u8; 32]) -> (r: Option<RecordState>)
        requires
            self.wf(),
        ensures
            r == match find_record(self@.records, *hash) {
                Some(record) => Some(record.state),
                None => None,
            },
    {
        let n = self.receipt_storage.records.len();
        let mut i: usize = 0;
        while i < n
            invariant
                self.wf(),
                n == self.receipt_storage.records@.len(),
                i <= n,
                forall|j: int|
                    0 <= j < i ==> (#[trigger] self.receipt_storage.records@[j]).unique_hash
                        != *hash,
            decreases n - i,
        {
            if crate::addr_map::bytes32_eq(&self.receipt_storage.records[i].unique_hash, hash) {
                proof {
                    crate::receipt_storage::lemma_find_record(self@.records, *hash, i as int);
                }
                return Some(self.receipt_storage.records[i].state);
            }
            i = i + 1;
        }
        proof {
            crate::receipt_storage::lemma_find_record_none(self@.records, *hash);
        }
        None
    }

    /// Deposits escrow for a sender; the new balance must fit in a `u128`,
    /// else nothing changes and a storage failure is reported.
    pub fn increase_escrow(&mut self, sender: [u8; 20], amount: u128) -> (r: Result<(), Error>)
        requires
            old(self).wf(),
        ensures
            final(self).wf(),
            final(self)@.watermark == old(self)@.watermark,
            r matches Ok(()) ==> ({
                let m0 = old(self)@;
                &&& m0.escrow[sender] + amount <= u128::MAX
                &&& final(self)@ == (ManagerModel {
                    escrow: m0.escrow.insert(sender, (m0.escrow[sender] + amount) as u128),
                    funded: m0.funded.insert(sender, m0.funded[sender] + amount),
                    ..m0
                })
            }),
            r matches Err(e) ==> {
                &&& e is StorageFailure
                &&& old(self)@.escrow[sender] + amount > u128::MAX
                &&& final(self)@ == old(self)@
            },
    {
        let balance = self.escrow.get_balance(&sender);
        if amount > u128::MAX - balance {
            return Err(Error::StorageFailure);
        }
        self.escrow.increase_escrow(sender, amount);
        proof {
            let ledger = self.history@;
            self.history@ = HistoryLedger {
                funded: ledger.funded.insert(sender, ledger.funded[sender] + amount),
                ..ledger
            };
        }
        Ok(())
    }

    /// Operator action: removes the audit record of a failed receipt, so
    /// that the same receipt can be re-admitted (for instance once escrow is
    /// topped up). Returns whether a failed record with that hash was on
    /// file; reserved receipts are never removed, and nothing else changes.
    pub fn remove_failed_receipt(&mut self, hash: &[u8; 32]) -> (r: bool)
        requires
            old(self).wf(),
        ensures
            final(self).wf(),
            final(self)@.watermark == old(self)@.watermark,
            r == (find_record(old(self)@.records, *hash) matches Some(record) && record.state
                is Failed),
            r ==> final(self)@ == (ManagerModel {
                records: crate::receipt_storage::remove_hash_record(old(self)@.records, *hash),
                ..old(self)@
            }) && !contains_hash(final(self)@.records, *hash),
            !r ==> final(self)@ == old(self)@,
    {
        let n = self.receipt_storage.records.len();
        let mut i: usize = 0;
        while i < n
            invariant
                *self == *old(self),
                self.wf(),
                n == self.receipt_storage.records@.len(),
                i <= n,
                forall|j: int|
                    0 <= j < i ==> (#[trigger] self.receipt_storage.records@[j]).unique_hash
                        != *hash,
            decreases n - i,
        {
            if crate::addr_map::bytes32_eq(&self.receipt_storage.records[i].unique_hash, hash) {
                proof {
                    crate::receipt_storage::lemma_find_record(self@.records, *hash, i as int);
                }
                match self.receipt_storage.records[i].state {
                    RecordState::Failed { .. } => {
                        proof {
                            let found = self@.records[i as int];
                            assert forall|j: int|
                                0 <= j < self@.records.len() && (
                                #[trigger] self@.records[j]).unique_hash
                                    == *hash implies self@.records[j].state is Failed by {
                                if j != i {
                                    assert(self@.records[j].unique_hash != found.unique_hash);
                                }
                            }
                            lemma_remove_failed_wf(self@, *hash);
                            crate::receipt_storage::lemma_remove_hash_wf(self@.records, *hash);
                        }
                        self.receipt_storage.remove_by_hash(hash);
                        proof {
                            assert(self@ =~= (ManagerModel {
                                records: crate::receipt_storage::remove_hash_record(
                                    old(self)@.records,
                                    *hash,
                                ),
                                ..old(self)@
                            }));
                        }
                        return true;
                    },
                    RecordState::Reserved => {
                        return false;
                    },
                }
            }
            i = i + 1;
        }
        proof {
            crate::receipt_storage::lemma_find_record_none(self@.records, *hash);
        }
        false
    }

    /// Appraises a request: records the value the receipt paying for it must
    /// carry.
    pub fn set_appraisal(&mut self, request_id: u64, expected_value: u128)
        requires
            old(self).wf(),
        ensures
            final(self).wf(),
            ({
                let m0 = old(self)@;
                final(self)@ == (ManagerModel {
                    appraisals: m0.appraisals.insert(request_id, expected_value),
                    ..m0
                })
            }),
    {
        self.appraisals.insert(request_id, expected_value);
    }
}

/// What the check pipeline reads of a manager.
pub open spec fn submit_ctx(m: ManagerModel) -> CheckContext {
    CheckContext {
        allocation_ids: m.allocation_ids,
        sender_ids: m.sender_ids,
        watermark: m.watermark,
        records: m.records,
        appraisals: m.appraisals,
    }
}

/// `h` is the receipt's unique hash.
pub open spec fn hash_matches(d: Eip712Domain, r: crate::receipt::Receipt, h: [u8; 32]) -> bool {
    h@ == spec_receipt_digest(d, r)
}

/// `sender` is what signature recovery yields for the receipt.
pub open spec fn sender_matches(d: Eip712Domain, sr: SignedReceipt, sender: Option<[u8; 20]>) -> bool {
    match sender {
        Some(a) => spec_receipt_signer(d, sr) == Some(a@),
        None => spec_receipt_signer(d, sr) is None,
    }
}

/// `signer` is what signature recovery yields for the voucher.
pub open spec fn rav_signer_matches(d: Eip712Domain, sr: SignedRAV, signer: Option<[u8; 20]>) -> bool {
    match signer {
        Some(a) => spec_rav_signer(d, sr) == Some(a@),
        None => spec_rav_signer(d, sr) is None,
    }
}

/// The audit record of a rejected receipt.
pub open spec fn failed_record(
    sr: SignedReceipt,
    hash: [u8; 32],
    sender: Option<[u8; 20]>,
    e: Error,
) -> ReceiptRecord {
    ReceiptRecord { signed_receipt: sr, unique_hash: hash, sender, state: RecordState::Failed { error: e } }
}

/// The record of a reserved receipt.
pub open spec fn reserved_record(sr: SignedReceipt, hash: [u8; 32], snd: [u8; 20]) -> ReceiptRecord {
    ReceiptRecord {
        signed_receipt: sr,
        unique_hash: hash,
        sender: Some(snd),
        state: RecordState::Reserved,
    }
}

/// The manager after a rejected receipt is recorded for audit; a receipt
/// whose hash is already on file is not recorded twice.
pub open spec fn record_failure_model(
    m: ManagerModel,
    sr: SignedReceipt,
    hash: [u8; 32],
    sender: Option<[u8; 20]>,
    e: Error,
) -> ManagerModel {
    if contains_hash(m.records, hash) {
        m
    } else {
        ManagerModel { records: insert_record(m.records, failed_record(sr, hash, sender, e)), ..m }
    }
}

/// The receipt-ingest transition: the caller's checks run in order, then the
/// structural guards — a recoverable signer, a timestamp above the
/// watermark, sufficient escrow, an unseen hash — and only then is escrow
/// debited and the receipt reserved. Every rejection is recorded; a rejected
/// duplicate leaves the state untouched.
pub open spec fn spec_submit(
    m: ManagerModel,
    sr: SignedReceipt,
    request_id: u64,
    checks: Seq<ReceiptCheck>,
    hash: [u8; 32],
    sender: Option<[u8; 20]>,
) -> (ManagerModel, Result<(), Error>) {
    match first_failure(submit_ctx(m), sr, request_id, hash, sender, checks) {
        Some(e) => (record_failure_model(m, sr, hash, sender, e), Err(e)),
        None => match sender {
            None => (
                record_failure_model(m, sr, hash, sender, Error::InvalidSignature),
                Err(Error::InvalidSignature),
            ),
            Some(snd) => if sr.message.timestamp_ns <= m.watermark {
                (
                    record_failure_model(m, sr, hash, sender, Error::InvalidTimestamp),
                    Err(Error::InvalidTimestamp),
                )
            } else if m.escrow[snd] < sr.message.value {
                (
                    record_failure_model(m, sr, hash, sender, Error::InsufficientEscrow),
                    Err(Error::InsufficientEscrow),
                )
            } else if contains_hash(m.records, hash) {
                (m, Err(Error::NonUniqueReceipt))
            } else {
                (
                    ManagerModel {
                        escrow: m.escrow.insert(snd, (m.escrow[snd] - sr.message.value) as u128),
                        records: insert_record(m.records, reserved_record(sr, hash, snd)),
                        ..m
                    },
                    Ok(()),
                )
            },
        },
    }
}

/// The ingest transition relates the old and new manager for the receipt's
/// actual hash and recovered sender.
pub open spec fn submit_witness(
    m0: ManagerModel,
    m1: ManagerModel,
    sr: SignedReceipt,
    request_id: u64,
    checks: Seq<ReceiptCheck>,
    r: Result<(), Error>,
    hash: [u8; 32],
    sender: Option<[u8; 20]>,
) -> bool {
    &&& hash_matches(m0.domain, sr.message, hash)
    &&& sender_matches(m0.domain, sr, sender)
    &&& m1 == spec_submit(m0, sr, request_id, checks, hash, sender).0
    &&& r == spec_submit(m0, sr, request_id, checks, hash, sender).1
}

/// What `verify_and_store_receipt` guarantees: the new state and result are
/// the ingest transition's, taken at the receipt's hash and recovered
/// sender.
pub open spec fn submit_post(
    m0: ManagerModel,
    m1: ManagerModel,
    sr: SignedReceipt,
    request_id: u64,
    checks: Seq<ReceiptCheck>,
    r: Result<(), Error>,
) -> bool {
    exists|hash: [u8; 32], sender: Option<[u8; 20]>| #[trigger] submit_witness(
        m0,
        m1,
        sr,
        request_id,
        checks,
        r,
        hash,
        sender,
    )
}

impl Manager {
    /// Records a rejected receipt for audit, once per hash.
    fn record_failure(
        &mut self,
        sr: SignedReceipt,
        hash: [u8; 32],
        sender: Option<[u8; 20]>,
        e: Error,
    )
        requires
            old(self).wf(),
            hash_matches(old(self)@.domain, sr.message, hash),
        ensures
            final(self).wf(),
            final(self)@ == record_failure_model(old(self)@, sr, hash, sender, e),
    {
        if !self.receipt_storage.contains_hash(&hash) {
            let record = ReceiptRecord {
                signed_receipt: sr,
                unique_hash: hash,
                sender,
                state: RecordState::Failed { error: e },
            };
            proof {
                lemma_insert_wf_preserved(self@, record);
            }
            self.receipt_storage.insert(record);
            proof {
                assert(self@ =~= record_failure_model(old(self)@, sr, hash, sender, e));
            }
        } else {
            proof {
                assert(self@ =~= record_failure_model(old(self)@, sr, hash, sender, e));
            }
        }
    }

    /// Runs a pipeline over a receipt against this manager's state, given
    /// the receipt's unique hash and recovered sender; reads everything,
    /// changes nothing.
    pub fn run_checks_for(
        &self,
        checks: &Vec<ReceiptCheck>,
        sr: &SignedReceipt,
        request_id: u64,
        hash: &[u8; 32],
        sender: &Option<[u8; 20]>,
    ) -> (r: Result<(), Error>)
        ensures
            match r {
                Ok(()) => first_failure(submit_ctx(self@), *sr, request_id, *hash, *sender, checks@)
                    is None,
                Err(e) => first_failure(submit_ctx(self@), *sr, request_id, *hash, *sender, checks@)
                    == Some(e),
            },
    {
        crate::checks::run_checks(
            checks,
            sr,
            request_id,
            hash,
            sender,
            &self.allocation_ids,
            &self.sender_ids,
            self.watermark.get(),
            &self.receipt_storage,
            &self.appraisals,
        )
    }

    /// Drives one signed receipt through the state machine: the caller's
    /// checks in pipeline order, then signer recovery, the watermark, escrow
    /// reservation and the anti-replay guard; on success the receipt is
    /// `Reserved` and escrow is debited by its value, on failure the state
    /// is unchanged except for the audit record, and the error says exactly
    /// which guard refused. The watermark never moves.
    pub fn verify_and_store_receipt(
        &mut self,
        signed_receipt: SignedReceipt,
        request_id: u64,
        initial_checks: &Vec<ReceiptCheck>,
    ) -> (r: Result<(), Error>)
        requires
            old(self).wf(),
        ensures
            final(self).wf(),
            final(self)@.watermark == old(self)@.watermark,
            submit_post(old(self)@, final(self)@, signed_receipt, request_id, initial_checks@, r),
    {
        let hash = signed_receipt.unique_hash(&self.domain);
        let sender: Option<[u8; 20]> = match signed_receipt.recover_signer(&self.domain) {
            Ok(a) => Some(a),
            Err(_) => None,
        };
        let ghost m0 = self@;
        match crate::checks::run_checks(
            initial_checks,
            &signed_receipt,
            request_id,
            &hash,
            &sender,
            &self.allocation_ids,
            &self.sender_ids,
            self.watermark.get(),
            &self.receipt_storage,
            &self.appraisals,
        ) {
            Err(e) => {
                self.record_failure(signed_receipt, hash, sender, e);
                proof {
                    assert(submit_witness(
                        m0, self@, signed_receipt, request_id, initial_checks@, Err(e), hash, sender,
                    ));
                }
                return Err(e);
            },
            Ok(()) => {},
        }
        let snd: [u8; 20] = match sender {
            Some(a) => a,
            None => {
                self.record_failure(signed_receipt, hash, sender, Error::InvalidSignature);
                proof {
                    assert(submit_witness(
                        m0,
                        self@,
                        signed_receipt,
                        request_id,
                        initial_checks@,
                        Err(Error::InvalidSignature),
                        hash,
                        sender,
                    ));
                }
                return Err(Error::InvalidSignature);
            },
        };
        if signed_receipt.message.timestamp_ns <= self.watermark.get() {
            self.record_failure(signed_receipt, hash, sender, Error::InvalidTimestamp);
            proof {
                assert(submit_witness(
                    m0,
                    self@,
                    signed_receipt,
                    request_id,
                    initial_checks@,
                    Err(Error::InvalidTimestamp),
                    hash,
                    sender,
                ));
            }
            return Err(Error::InvalidTimestamp);
        }
        let value = signed_receipt.message.value;
        match self.escrow.try_subtract(snd, value) {
            Err(_) => {
                self.record_failure(signed_receipt, hash, sender, Error::InsufficientEscrow);
                proof {
                    assert(submit_witness(
                        m0,
                        self@,
                        signed_receipt,
                        request_id,
                        initial_checks@,
                        Err(Error::InsufficientEscrow),
                        hash,
                        sender,
                    ));
                }
                return Err(Error::InsufficientEscrow);
            },
            Ok(()) => {},
        }
        if self.receipt_storage.contains_hash(&hash) {
            // the compensating action: the store refused the duplicate after
            // escrow was debited, so the debit is credited back
            self.escrow.add(snd, value);
            proof {
                assert(self@ =~= m0);
                assert(submit_witness(
                    m0,
                    self@,
                    signed_receipt,
                    request_id,
                    initial_checks@,
                    Err(Error::NonUniqueReceipt),
                    hash,
                    sender,
                ));
            }
            return Err(Error::NonUniqueReceipt);
        }
        let record = ReceiptRecord {
            signed_receipt,
            unique_hash: hash,
            sender: Some(snd),
            state: RecordState::Reserved,
        };
        proof {
            lemma_reserve_wf_preserved(m0, self@, record, snd);
        }
        self.receipt_storage.insert(record);
        proof {
            assert(self@ =~= (ManagerModel {
                escrow: m0.escrow.insert(snd, (m0.escrow[snd] - value) as u128),
                records: insert_record(m0.records, reserved_record(signed_receipt, hash, snd)),
                ..m0
            }));
            assert(submit_witness(
                m0, self@, signed_receipt, request_id, initial_checks@, Ok(()), hash, sender,
            ));
        }
        Ok(())
    }
}

/// Filing a non-reserved record keeps every invariant: it adds nothing to
/// any sender's reserved total.
pub proof fn lemma_insert_wf_preserved(m: ManagerModel, record: ReceiptRecord)
    requires
        model_wf(m),
        !contains_hash(m.records, record.unique_hash),
        !(record.state is Reserved),
        record.unique_hash@ == spec_receipt_digest(m.domain, record.signed_receipt.message),
    ensures
        model_wf(ManagerModel { records: insert_record(m.records, record), ..m }),
{
    crate::receipt_storage::lemma_insert_record_wf(m.records, record);
    crate::receipt_storage::lemma_insert_index_props(m.records, rec_ts(record));
    crate::receipt_storage::lemma_insert_record_elements(m.records, record);
    let m1 = ManagerModel { records: insert_record(m.records, record), ..m };
    assert forall|x: [u8; 20]|
        m1.escrow[x] + reserved_sum_of_sender(m1.records, x) + m1.settled[x]
            == #[trigger] m1.funded[x] by {
        crate::receipt_storage::lemma_reserved_sum_insert_at(
            m.records,
            record,
            crate::receipt_storage::insert_index(m.records, rec_ts(record)),
            x,
        );
    }
    lemma_insert_keeps_digests(m, record);
    assert(model_wf(m1));
}

/// Inserting a record whose hash is its message's digest keeps every stored
/// hash a digest.
proof fn lemma_insert_keeps_digests(m: ManagerModel, record: ReceiptRecord)
    requires
        records_wf(m.records),
        hashes_are_digests(m.domain, m.records),
        record.unique_hash@ == spec_receipt_digest(m.domain, record.signed_receipt.message),
    ensures
        hashes_are_digests(m.domain, insert_record(m.records, record)),
{
    crate::receipt_storage::lemma_insert_record_elements(m.records, record);
    let t = insert_record(m.records, record);
    assert forall|k: int| 0 <= k < t.len() implies (#[trigger] t[k]).unique_hash@
        == spec_receipt_digest(m.domain, t[k].signed_receipt.message) by {
        if t[k] != record {
            let j = choose|j: int| 0 <= j < m.records.len() && m.records[j] == t[k];
            assert(m.records[j].unique_hash@ == spec_receipt_digest(
                m.domain,
                m.records[j].signed_receipt.message,
            ));
        }
    }
}

/// Reserving a fresh receipt above the watermark keeps every invariant: the
/// debited escrow reappears in the sender's reserved total.
pub proof fn lemma_reserve_wf_preserved(
    m0: ManagerModel,
    mid: ManagerModel,
    record: ReceiptRecord,
    snd: [u8; 20],
)
    requires
        model_wf(m0),
        record.state is Reserved,
        record.sender == Some(snd),
        !contains_hash(m0.records, record.unique_hash),
        record.unique_hash@ == spec_receipt_digest(m0.domain, record.signed_receipt.message),
        record.signed_receipt.message.timestamp_ns > m0.watermark,
        record.signed_receipt.message.value <= m0.escrow[snd],
        mid == (ManagerModel {
            escrow: m0.escrow.insert(
                snd,
                (m0.escrow[snd] - record.signed_receipt.message.value) as u128,
            ),
            ..m0
        }),
    ensures
        model_wf(ManagerModel { records: insert_record(m0.records, record), ..mid }),
        records_wf(mid.records),
        !contains_hash(mid.records, record.unique_hash),
{
    crate::receipt_storage::lemma_insert_record_wf(m0.records, record);
    crate::receipt_storage::lemma_insert_index_props(m0.records, rec_ts(record));
    crate::receipt_storage::lemma_insert_record_elements(m0.records, record);
    let m1 = ManagerModel { records: insert_record(m0.records, record), ..mid };
    assert forall|x: [u8; 20]|
        m1.escrow[x] + reserved_sum_of_sender(m1.records, x) + m1.settled[x]
            == #[trigger] m1.funded[x] by {
        crate::receipt_storage::lemma_reserved_sum_insert_at(
            m0.records,
            record,
            crate::receipt_storage::insert_index(m0.records, rec_ts(record)),
            x,
        );
        if x == snd {
            assert(reserved_contribution(record, x) == record.signed_receipt.message.value as int);
        } else {
            assert(reserved_contribution(record, x) == 0);
        }
    }
    lemma_insert_keeps_digests(m0, record);
    assert(model_wf(m1));
}

/// A record an aggregation request can pick up: reserved, and old enough to
/// lie at or below the cutoff.
pub open spec fn aggregable(r: ReceiptRecord, cutoff: u64) -> bool {
    r.state is Reserved && rec_ts(r) <= cutoff
}

/// The index of the first aggregable record, if any.
pub open spec fn first_aggregable(s: Seq<ReceiptRecord>, cutoff: u64) -> Option<int>
    decreases s.len(),
{
    if s.len() == 0 {
        None
    } else if aggregable(s.first(), cutoff) {
        Some(0int)
    } else {
        match first_aggregable(s.drop_first(), cutoff) {
            None => None,
            Some(k) => Some(k + 1),
        }
    }
}

/// The first index holding an aggregable record is the first-aggregable
/// index.
pub proof fn lemma_first_aggregable_is(s: Seq<ReceiptRecord>, cutoff: u64, i: int)
    requires
        0 <= i < s.len(),
        aggregable(s[i], cutoff),
        forall|j: int| 0 <= j < i ==> !aggregable(#[trigger] s[j], cutoff),
    ensures
        first_aggregable(s, cutoff) == Some(i),
    decreases s.len(),
{
    if i == 0 {
    } else {
        assert(!aggregable(s[0], cutoff));
        assert(s.drop_first()[i - 1] == s[i]);
        assert forall|j: int| 0 <= j < i - 1 implies !aggregable(
            #[trigger] s.drop_first()[j],
            cutoff,
        ) by {
            assert(s.drop_first()[j] == s[j + 1]);
        }
        lemma_first_aggregable_is(s.drop_first(), cutoff, i - 1);
    }
}

/// Where no record is aggregable, nothing is found.
pub proof fn lemma_first_aggregable_none(s: Seq<ReceiptRecord>, cutoff: u64)
    requires
        forall|j: int| 0 <= j < s.len() ==> !aggregable(#[trigger] s[j], cutoff),
    ensures
        first_aggregable(s, cutoff) is None,
    decreases s.len(),
{
    if s.len() > 0 {
        assert forall|j: int| 0 <= j < s.drop_first().len() implies !aggregable(
            #[trigger] s.drop_first()[j],
            cutoff,
        ) by {
            assert(s.drop_first()[j] == s[j + 1]);
        }
        lemma_first_aggregable_none(s.drop_first(), cutoff);
    }
}

/// A record inside the window appears among the window's receipts.
pub proof fn lemma_windowed_nonempty(
    s: Seq<ReceiptRecord>,
    alloc: [u8; 20],
    lo: u64,
    hi: u64,
    i: int,
)
    requires
        0 <= i < s.len(),
        in_window(s[i], alloc, lo, hi),
    ensures
        windowed_receipts(s, alloc, lo, hi).len() > 0,
    decreases s.len(),
{
    if i < s.len() - 1 {
        assert(s.drop_last()[i] == s[i]);
        lemma_windowed_nonempty(s.drop_last(), alloc, lo, hi, i);
    }
}

/// The mathematical image of a RAV request.
#[verifier::ext_equal]
pub struct RAVRequestModel {
    pub valid_receipts: Seq<SignedReceipt>,
    pub previous_rav: Option<SignedRAV>,
    pub invalid_receipts: Seq<ReceiptWithState<Failed>>,
    pub expected_rav: ReceiptAggregateVoucher,
}

/// The aggregation cutoff: the present minus the grace buffer, clamped at
/// zero.
pub open spec fn spec_cutoff(now_ns: u64, timestamp_buffer_ns: u64) -> u64 {
    if now_ns >= timestamp_buffer_ns {
        (now_ns - timestamp_buffer_ns) as u64
    } else {
        0u64
    }
}

/// What assembling a RAV request at time `now_ns` yields: the window of
/// reserved receipts of the first aggregable record's allocation, between
/// that allocation's latest voucher and the cutoff, with the expected
/// voucher computed by the aggregation law. Fails with
/// `NoValidReceiptsForRAVRequest` exactly when no reserved receipt lies at
/// or below the cutoff, and with `RAVAggregationOverflow` exactly when the
/// aggregate would not fit.
pub open spec fn spec_rav_request(m: ManagerModel, timestamp_buffer_ns: u64, now_ns: u64) -> Result<
    RAVRequestModel,
    Error,
> {
    let cutoff = spec_cutoff(now_ns, timestamp_buffer_ns);
    match first_aggregable(m.records, cutoff) {
        None => Err(Error::NoValidReceiptsForRAVRequest),
        Some(i) => {
            let alloc = rec_alloc(m.records[i]);
            let prev = spec_latest_rav(m, alloc);
            let prev_ts = match prev {
                Some(p) => p.message.timestamp_ns_max,
                None => 0u64,
            };
            let prev_value: int = match prev {
                Some(p) => p.message.value_aggregate as int,
                None => 0,
            };
            let valid = windowed_receipts(m.records, alloc, prev_ts, cutoff);
            if prev_value + sum_of_values(valid) > u128::MAX {
                Err(Error::RAVAggregationOverflow)
            } else {
                Ok(
                    RAVRequestModel {
                        valid_receipts: valid,
                        previous_rav: prev,
                        invalid_receipts: crate::receipt_storage::failed_receipts_in_window(
                            m.records,
                            alloc,
                            prev_ts,
                            cutoff,
                        ),
                        expected_rav: ReceiptAggregateVoucher {
                            allocation_id: alloc,
                            timestamp_ns_max: max_timestamp(valid, prev_ts),
                            value_aggregate: (prev_value + sum_of_values(valid)) as u128,
                        },
                    },
                )
            }
        },
    }
}

/// An assembled request agrees with its mathematical image.
pub open spec fn rav_request_matches(req: RAVRequest, rm: RAVRequestModel) -> bool {
    &&& req.valid_receipts@ == rm.valid_receipts
    &&& req.previous_rav == rm.previous_rav
    &&& req.invalid_receipts@ == rm.invalid_receipts
    &&& req.expected_rav == rm.expected_rav
}

/// The request is what assembling one at time `now_ns` yields.
pub open spec fn rav_request_from(
    m: ManagerModel,
    timestamp_buffer_ns: u64,
    now_ns: u64,
    req: RAVRequest,
) -> bool {
    &&& spec_rav_request(m, timestamp_buffer_ns, now_ns) matches Ok(rm) && rav_request_matches(
        req,
        rm,
    )
}

impl Manager {
    /// Assembles the RAV request for the window closing at
    /// `now_ns - timestamp_buffer_ns`: the reserved receipts of the chosen
    /// allocation newer than its latest voucher and old enough for the
    /// window, ascending by timestamp, the failed receipts of the same
    /// window as evidence, and the voucher the aggregator is expected to
    /// sign. Reads everything, changes nothing.
    pub fn create_rav_request_at(&self, timestamp_buffer_ns: u64, now_ns: u64) -> (r: Result<
        RAVRequest,
        Error,
    >)
        requires
            self.wf(),
        ensures
            r matches Ok(req) ==> rav_request_from(self@, timestamp_buffer_ns, now_ns, req),
            r matches Ok(req) ==> crate::receipt_storage::receipts_sorted(req.valid_receipts@)
                && receipts_distinct(self@.domain, req.valid_receipts@)
                && req.valid_receipts@.len() > 0,
            r matches Err(e) ==> spec_rav_request(self@, timestamp_buffer_ns, now_ns) == Err::<
                RAVRequestModel,
                Error,
            >(e),
    {
        let cutoff: u64 = if now_ns >= timestamp_buffer_ns {
            now_ns - timestamp_buffer_ns
        } else {
            0
        };
        let n = self.receipt_storage.records.len();
        let mut i: usize = 0;
        while i < n && !(matches!(self.receipt_storage.records[i].state, RecordState::Reserved)
            && self.receipt_storage.records[i].signed_receipt.message.timestamp_ns <= cutoff)
            invariant
                self.wf(),
                n == self.receipt_storage.records@.len(),
                i <= n,
                forall|j: int|
                    0 <= j < i ==> !aggregable(#[trigger] self.receipt_storage.records@[j], cutoff),
            decreases n - i,
        {
            i = i + 1;
        }
        if i == n {
            proof {
                lemma_first_aggregable_none(self@.records, cutoff);
            }
            return Err(Error::NoValidReceiptsForRAVRequest);
        }
        proof {
            lemma_first_aggregable_is(self@.records, cutoff, i as int);
        }
        let alloc: [u8; 20] = self.receipt_storage.records[i].signed_receipt.message.allocation_id;
        let prev: Option<SignedRAV> = self.latest_rav(&alloc);
        let prev_ts: u64 = match &prev {
            Some(p) => p.message.timestamp_ns_max,
            None => 0,
        };
        let valid = self.receipt_storage.collect_window(&alloc, prev_ts, cutoff);
        proof {
            crate::receipt_storage::lemma_windowed_props(self@.records, alloc, prev_ts, cutoff);
            crate::receipt_storage::lemma_windowed_distinct(
                self@.domain,
                self@.records,
                alloc,
                prev_ts,
                cutoff,
            );
            assert(in_window(self@.records[i as int], alloc, prev_ts, cutoff));
            lemma_windowed_nonempty(self@.records, alloc, prev_ts, cutoff, i as int);
        }
        let prev_ref: Option<&SignedRAV> = match &prev {
            Some(p) => Some(p),
            None => None,
        };
        let expected_rav = match ReceiptAggregateVoucher::aggregate_receipts(
            alloc,
            &valid,
            prev_ref,
        ) {
            Ok(rav) => rav,
            Err(e) => {
                return Err(e);
            },
        };
        let invalid_receipts = self.receipt_storage.collect_failed(&alloc, prev_ts, cutoff);
        Ok(RAVRequest { valid_receipts: valid, previous_rav: prev, invalid_receipts, expected_rav })
    }

    /// Reconciles an aggregator-signed voucher with local state and stores
    /// it: the signer must recover and stand in the aggregator allow-list,
    /// the returned voucher must equal the expected one byte for byte, and
    /// the expected one must aggregate exactly the reserved receipts its
    /// window covers. On success the voucher becomes the allocation's
    /// latest, the watermark advances to its timestamp ceiling and the
    /// absorbed receipts leave the store — escrow is not re-credited, the
    /// voucher now encumbers the same value. On any failure nothing changes.
    pub fn verify_and_store_rav(
        &mut self,
        expected_rav: ReceiptAggregateVoucher,
        signed_rav: SignedRAV,
    ) -> (r: Result<(), Error>)
        requires
            old(self).wf(),
        ensures
            final(self).wf(),
            final(self)@.watermark >= old(self)@.watermark,
            store_rav_post(old(self)@, final(self)@, expected_rav, signed_rav, r),
    {
        let ghost m0 = self@;
        let signer: Option<[u8; 20]> = match signed_rav.recover_signer(&self.domain) {
            Ok(a) => Some(a),
            Err(_) => None,
        };
        let a = match signer {
            Some(a) => a,
            None => {
                proof {
                    assert(store_rav_witness(
                        m0, self@, expected_rav, signed_rav, Err(Error::InvalidSignature), signer,
                    ));
                }
                return Err(Error::InvalidSignature);
            },
        };
        if !crate::checks::contains_address(&self.aggregator_ids, &a) {
            proof {
                assert(store_rav_witness(
                    m0,
                    self@,
                    expected_rav,
                    signed_rav,
                    Err(Error::AggregatorSignerNotAuthorized),
                    signer,
                ));
            }
            return Err(Error::AggregatorSignerNotAuthorized);
        }
        if !crate::rav::rav_eq(&signed_rav.message, &expected_rav) {
            proof {
                assert(store_rav_witness(
                    m0, self@, expected_rav, signed_rav, Err(Error::InvalidReceivedRAV), signer,
                ));
            }
            return Err(Error::InvalidReceivedRAV);
        }
        let alloc = expected_rav.allocation_id;
        let prev: Option<SignedRAV> = self.latest_rav(&alloc);
        let prev_ts: u64 = match &prev {
            Some(p) => p.message.timestamp_ns_max,
            None => 0,
        };
        let hi = expected_rav.timestamp_ns_max;
        let valid = self.receipt_storage.collect_window(&alloc, prev_ts, hi);
        proof {
            crate::receipt_storage::lemma_windowed_props(self@.records, alloc, prev_ts, hi);
        }
        let prev_ref: Option<&SignedRAV> = match &prev {
            Some(p) => Some(p),
            None => None,
        };
        let consistent: bool = match ReceiptAggregateVoucher::aggregate_receipts(
            alloc,
            &valid,
            prev_ref,
        ) {
            Ok(computed) => crate::rav::rav_eq(&computed, &expected_rav),
            Err(_) => false,
        };
        if !consistent {
            proof {
                assert(store_rav_witness(
                    m0, self@, expected_rav, signed_rav, Err(Error::InvalidReceivedRAV), signer,
                ));
            }
            return Err(Error::InvalidReceivedRAV);
        }
        self.latest_ravs.set(alloc, signed_rav);
        self.receipt_storage.remove_window(&alloc, prev_ts, hi);
        self.watermark.update(hi);
        proof {
            let ledger = self.history@;
            self.history@ = HistoryLedger {
                settled: settled_plus(
                    ledger.settled,
                    absorbed_records(m0.records, alloc, prev_ts, hi),
                ),
                absorbed_value: ledger.absorbed_value.insert(
                    alloc,
                    ledger.absorbed_value[alloc] + sum_of_values(valid@),
                ),
                absorbed_max: ledger.absorbed_max.insert(alloc, hi),
                ..ledger
            };
            assert(self@ =~= spec_store_rav(m0, expected_rav, signed_rav, signer).0);
            lemma_store_rav_wf(m0, expected_rav, signed_rav, self@);
            assert(store_rav_witness(m0, self@, expected_rav, signed_rav, Ok(()), signer));
        }
        Ok(())
    }

    /// Assembles the RAV request for the window closing a buffer before the
    /// present, read from the system clock.
    pub fn create_rav_request(&self, timestamp_buffer_ns: u64) -> (r: Result<RAVRequest, Error>)
        requires
            self.wf(),
        ensures
            r matches Ok(req) ==> exists|now_ns: u64| #[trigger] rav_request_from(
                self@,
                timestamp_buffer_ns,
                now_ns,
                req,
            ),
            r matches Ok(req) ==> crate::receipt_storage::receipts_sorted(req.valid_receipts@)
                && receipts_distinct(self@.domain, req.valid_receipts@)
                && req.valid_receipts@.len() > 0,
            r matches Err(e) ==> e is InvalidSystemTime || (exists|now_ns: u64| (
            #[trigger] spec_rav_request(self@, timestamp_buffer_ns, now_ns)) == Err::<
                RAVRequestModel,
                Error,
            >(e)),
    {
        let now_ns = crate::crypto::get_current_timestamp_u64_ns()?;
        self.create_rav_request_at(timestamp_buffer_ns, now_ns)
    }
}

/// The latest voucher of an allocation, if one was stored.
pub open spec fn spec_latest_rav(m: ManagerModel, allocation_id: [u8; 20]) -> Option<SignedRAV> {
    if m.ravs.contains_key(allocation_id) {
        Some(m.ravs[allocation_id])
    } else {
        None
    }
}

/// The larger of two timestamps.
pub open spec fn max_u64(a: u64, b: u64) -> u64 {
    if a >= b {
        a
    } else {
        b
    }
}

/// The settled ledger after a batch of reserved records is absorbed: each
/// sender's total grows by the value of its records in the batch.
pub open spec fn settled_plus(settled: Map<[u8; 20], int>, removed: Seq<ReceiptRecord>) -> Map<
    [u8; 20],
    int,
> {
    Map::new(|x: [u8; 20]| true, |x: [u8; 20]| settled[x] + reserved_sum_of_sender(removed, x))
}

/// The voucher-ingest transition: the aggregator's signature is recovered
/// and checked against the allow-list, the returned voucher is compared
/// byte-for-byte with the expected one, and the expected one is reconciled
/// with the locally observed window — it must aggregate exactly the reserved
/// receipts of its allocation between the previous voucher and its own
/// timestamp ceiling. Only then is the voucher stored, the watermark raised
/// to its ceiling, and every absorbed receipt removed; on any failure
/// nothing changes.
pub open spec fn spec_store_rav(
    m: ManagerModel,
    expected: ReceiptAggregateVoucher,
    signed: SignedRAV,
    signer: Option<[u8; 20]>,
) -> (ManagerModel, Result<(), Error>) {
    match signer {
        None => (m, Err(Error::InvalidSignature)),
        Some(a) => if !m.aggregator_ids.contains(a) {
            (m, Err(Error::AggregatorSignerNotAuthorized))
        } else if signed.message != expected {
            (m, Err(Error::InvalidReceivedRAV))
        } else {
            let alloc = expected.allocation_id;
            let prev = spec_latest_rav(m, alloc);
            let prev_ts = match prev {
                Some(p) => p.message.timestamp_ns_max,
                None => 0u64,
            };
            let prev_value: int = match prev {
                Some(p) => p.message.value_aggregate as int,
                None => 0,
            };
            let hi = expected.timestamp_ns_max;
            let valid = windowed_receipts(m.records, alloc, prev_ts, hi);
            if expected.value_aggregate == prev_value + sum_of_values(valid)
                && expected.timestamp_ns_max == max_timestamp(valid, prev_ts) {
                (
                    ManagerModel {
                        records: retained_records(m.records, alloc, prev_ts, hi),
                        ravs: m.ravs.insert(alloc, signed),
                        watermark: max_u64(m.watermark, hi),
                        settled: settled_plus(
                            m.settled,
                            absorbed_records(m.records, alloc, prev_ts, hi),
                        ),
                        absorbed_value: m.absorbed_value.insert(
                            alloc,
                            m.absorbed_value[alloc] + sum_of_values(valid),
                        ),
                        absorbed_max: m.absorbed_max.insert(alloc, hi),
                        ..m
                    },
                    Ok(()),
                )
            } else {
                (m, Err(Error::InvalidReceivedRAV))
            }
        },
    }
}

/// The voucher-ingest transition relates the old and new manager for the
/// voucher's actual recovered signer.
pub open spec fn store_rav_witness(
    m0: ManagerModel,
    m1: ManagerModel,
    expected: ReceiptAggregateVoucher,
    signed: SignedRAV,
    r: Result<(), Error>,
    signer: Option<[u8; 20]>,
) -> bool {
    &&& rav_signer_matches(m0.domain, signed, signer)
    &&& m1 == spec_store_rav(m0, expected, signed, signer).0
    &&& r == spec_store_rav(m0, expected, signed, signer).1
}

/// What `verify_and_store_rav` guarantees: the new state and result are the
/// voucher-ingest transition's, taken at the voucher's recovered signer.
pub open spec fn store_rav_post(
    m0: ManagerModel,
    m1: ManagerModel,
    expected: ReceiptAggregateVoucher,
    signed: SignedRAV,
    r: Result<(), Error>,
) -> bool {
    exists|signer: Option<[u8; 20]>| #[trigger] store_rav_witness(
        m0,
        m1,
        expected,
        signed,
        r,
        signer,
    )
}

/// Absorbing a reconciled voucher keeps every invariant: removed value moves
/// from the reserved totals to the settled ledger, surviving receipts stay
/// above the new voucher, and the watermark only rises.
pub proof fn lemma_store_rav_wf(
    m: ManagerModel,
    expected: ReceiptAggregateVoucher,
    signed: SignedRAV,
    m1: ManagerModel,
)
    requires
        model_wf(m),
        signed.message == expected,
        ({
            let alloc = expected.allocation_id;
            let prev = spec_latest_rav(m, alloc);
            let prev_ts = match prev {
                Some(p) => p.message.timestamp_ns_max,
                None => 0u64,
            };
            let prev_value: int = match prev {
                Some(p) => p.message.value_aggregate as int,
                None => 0,
            };
            let hi = expected.timestamp_ns_max;
            let valid = windowed_receipts(m.records, alloc, prev_ts, hi);
            &&& expected.value_aggregate == prev_value + sum_of_values(valid)
            &&& expected.timestamp_ns_max == max_timestamp(valid, prev_ts)
            &&& m1 == (ManagerModel {
                records: retained_records(m.records, alloc, prev_ts, hi),
                ravs: m.ravs.insert(alloc, signed),
                watermark: max_u64(m.watermark, hi),
                settled: settled_plus(m.settled, absorbed_records(m.records, alloc, prev_ts, hi)),
                absorbed_value: m.absorbed_value.insert(
                    alloc,
                    m.absorbed_value[alloc] + sum_of_values(valid),
                ),
                absorbed_max: m.absorbed_max.insert(alloc, hi),
                ..m
            })
        }),
    ensures
        model_wf(m1),
{
    let alloc = expected.allocation_id;
    let prev = spec_latest_rav(m, alloc);
    let prev_ts = match prev {
        Some(p) => p.message.timestamp_ns_max,
        None => 0u64,
    };
    let hi = expected.timestamp_ns_max;
    let retained = retained_records(m.records, alloc, prev_ts, hi);
    let absorbed = absorbed_records(m.records, alloc, prev_ts, hi);
    crate::receipt_storage::lemma_retained_wf(m.records, alloc, prev_ts, hi);
    // conservation: each sender's reserved total splits over the partition
    assert forall|x: [u8; 20]|
        m1.escrow[x] + reserved_sum_of_sender(m1.records, x) + m1.settled[x]
            == #[trigger] m1.funded[x] by {
        crate::receipt_storage::lemma_window_partition_sum(m.records, alloc, prev_ts, hi, x);
    }
    assert forall|x: [u8; 20]| #[trigger] m1.settled[x] >= 0 by {
        crate::receipt_storage::lemma_reserved_sum_nonneg(absorbed, x);
    }
    // each surviving record is an original one, outside the absorbed window
    assert forall|i: int| 0 <= i < retained.len() implies exists|j: int|
        0 <= j < m.records.len() && m.records[j] == #[trigger] retained[i] by {
        crate::receipt_storage::lemma_retained_membership(m.records, alloc, prev_ts, hi, i);
    }
    assert forall|i: int| 0 <= i < retained.len() implies (#[trigger] retained[i]).unique_hash@
        == spec_receipt_digest(m.domain, retained[i].signed_receipt.message) by {
        let j = choose|j: int| 0 <= j < m.records.len() && m.records[j] == retained[i];
        assert(m.records[j].unique_hash@ == spec_receipt_digest(
            m.domain,
            m.records[j].signed_receipt.message,
        ));
    }
    assert forall|i: int|
        0 <= i < m1.records.len() && (#[trigger] m1.records[i]).state is Reserved implies rec_ts(
        m1.records[i],
    ) >= 1 by {
        let j = choose|j: int| 0 <= j < m.records.len() && m.records[j] == retained[i];
    }
    // freshness over the new and the untouched vouchers
    assert forall|i: int|
        (0 <= i < m1.records.len() && (#[trigger] m1.records[i]).state is Reserved
            && m1.ravs.contains_key(rec_alloc(m1.records[i]))) implies rec_ts(m1.records[i])
        > m1.ravs[rec_alloc(m1.records[i])].message.timestamp_ns_max by {
        let r0 = retained[i];
        let j = choose|j: int| 0 <= j < m.records.len() && m.records[j] == retained[i];
        if rec_alloc(r0) == alloc {
            assert(!in_window(r0, alloc, prev_ts, hi));
            if rec_ts(r0) <= prev_ts {
                match prev {
                    Some(p) => {
                        assert(m.ravs.contains_key(alloc));
                        assert(rec_ts(m.records[j]) > p.message.timestamp_ns_max);
                    },
                    None => {
                        assert(rec_ts(m.records[j]) >= 1);
                    },
                }
            }
            assert(rec_ts(r0) > hi);
        }
    }
}

/// A rejected receipt never touches escrow: every error path of the ingest
/// transition leaves all balances, vouchers and the watermark as they were,
/// adding at most the audit record.
pub proof fn lemma_rejection_leaves_escrow(
    m: ManagerModel,
    sr: SignedReceipt,
    request_id: u64,
    checks: Seq<ReceiptCheck>,
    hash: [u8; 32],
    sender: Option<[u8; 20]>,
)
    ensures
        spec_submit(m, sr, request_id, checks, hash, sender).1 is Err ==> {
            let m1 = spec_submit(m, sr, request_id, checks, hash, sender).0;
            &&& m1.escrow == m.escrow
            &&& m1.ravs == m.ravs
            &&& m1.watermark == m.watermark
            &&& m1.funded == m.funded
            &&& m1.settled == m.settled
        },
{
}

/// A refused voucher changes nothing at all: every error path of the
/// voucher-ingest transition returns the manager unchanged.
pub proof fn lemma_rav_rejection_changes_nothing(
    m: ManagerModel,
    expected: ReceiptAggregateVoucher,
    signed: SignedRAV,
    signer: Option<[u8; 20]>,
)
    ensures
        spec_store_rav(m, expected, signed, signer).1 is Err ==> spec_store_rav(
            m,
            expected,
            signed,
            signer,
        ).0 == m,
{
}

/// The watermark never moves backward: receipt ingest leaves it unchanged
/// and voucher ingest only raises it.
pub proof fn lemma_watermark_monotonic(
    m: ManagerModel,
    sr: SignedReceipt,
    request_id: u64,
    checks: Seq<ReceiptCheck>,
    hash: [u8; 32],
    sender: Option<[u8; 20]>,
    expected: ReceiptAggregateVoucher,
    signed: SignedRAV,
    signer: Option<[u8; 20]>,
)
    ensures
        spec_submit(m, sr, request_id, checks, hash, sender).0.watermark == m.watermark,
        spec_store_rav(m, expected, signed, signer).0.watermark >= m.watermark,
{
}

/// When every check of a pipeline passes but the store now holds the
/// receipt's hash — and nothing else the checks read has changed — the
/// pipeline fails at its uniqueness check.
proof fn lemma_pipeline_rejects_duplicate(
    ctx0: CheckContext,
    ctx1: CheckContext,
    sr: SignedReceipt,
    request_id: u64,
    hash: [u8; 32],
    sender: Option<[u8; 20]>,
    checks: Seq<ReceiptCheck>,
)
    requires
        first_failure(ctx0, sr, request_id, hash, sender, checks) is None,
        ctx1.allocation_ids == ctx0.allocation_ids,
        ctx1.sender_ids == ctx0.sender_ids,
        ctx1.watermark == ctx0.watermark,
        ctx1.appraisals == ctx0.appraisals,
        contains_hash(ctx1.records, hash),
        checks.contains(ReceiptCheck::CheckUnique),
    ensures
        first_failure(ctx1, sr, request_id, hash, sender, checks) == Some(
            Error::NonUniqueReceipt,
        ),
    decreases checks.len(),
{
    let c = checks.first();
    if c is CheckUnique {
    } else {
        assert(crate::checks::check_passes(ctx0, sr, request_id, hash, sender, c));
        assert(crate::checks::check_passes(ctx1, sr, request_id, hash, sender, c));
        let k = choose|k: int| 0 <= k < checks.len() && checks[k] == ReceiptCheck::CheckUnique;
        assert(checks.drop_first()[k - 1] == checks[k]);
        assert(checks.drop_first().contains(ReceiptCheck::CheckUnique));
        lemma_pipeline_rejects_duplicate(
            ctx0,
            ctx1,
            sr,
            request_id,
            hash,
            sender,
            checks.drop_first(),
        );
    }
}

/// Idempotence of ingest: once a submission of a receipt succeeds, a second
/// submission of the identical signed receipt through a pipeline that
/// includes the uniqueness check is rejected as `NonUniqueReceipt`, and the
/// manager — escrow included — does not change again. Exactly one record of
/// that receipt's hash is on file.
pub proof fn lemma_resubmission_rejected(
    m0: ManagerModel,
    sr: SignedReceipt,
    request_id: u64,
    checks: Seq<ReceiptCheck>,
    hash: [u8; 32],
    sender: Option<[u8; 20]>,
)
    requires
        model_wf(m0),
        checks.contains(ReceiptCheck::CheckUnique),
        spec_submit(m0, sr, request_id, checks, hash, sender).1 == Ok::<(), Error>(()),
    ensures
        ({
            let m1 = spec_submit(m0, sr, request_id, checks, hash, sender).0;
            &&& contains_hash(m1.records, hash)
            &&& spec_submit(m1, sr, request_id, checks, hash, sender).1 == Err::<(), Error>(
                Error::NonUniqueReceipt,
            )
            &&& spec_submit(m1, sr, request_id, checks, hash, sender).0 == m1
        }),
{
    let m1 = spec_submit(m0, sr, request_id, checks, hash, sender).0;
    let snd = sender->0;
    crate::receipt_storage::lemma_insert_record_wf(m0.records, reserved_record(sr, hash, snd));
    assert(contains_hash(m1.records, hash));
    lemma_pipeline_rejects_duplicate(
        submit_ctx(m0),
        submit_ctx(m1),
        sr,
        request_id,
        hash,
        sender,
        checks,
    );
}

/// Removing failed records keeps every invariant: they count toward no
/// reserved total and back no voucher.
proof fn lemma_remove_failed_wf(m: ManagerModel, h: [u8; 32])
    requires
        model_wf(m),
        forall|i: int|
            0 <= i < m.records.len() && (#[trigger] m.records[i]).unique_hash == h
                ==> m.records[i].state is Failed,
    ensures
        model_wf(
            ManagerModel {
                records: crate::receipt_storage::remove_hash_record(m.records, h),
                ..m
            },
        ),
{
    crate::receipt_storage::lemma_remove_hash_wf(m.records, h);
    let t = crate::receipt_storage::remove_hash_record(m.records, h);
    let m1 = ManagerModel { records: t, ..m };
    assert forall|x: [u8; 20]|
        m1.escrow[x] + reserved_sum_of_sender(m1.records, x) + m1.settled[x]
            == #[trigger] m1.funded[x] by {
        crate::receipt_storage::lemma_remove_hash_sum(m.records, h, x);
    }
    assert forall|i: int| 0 <= i < t.len() implies exists|j: int|
        0 <= j < m.records.len() && m.records[j] == #[trigger] t[i] by {
        crate::receipt_storage::lemma_remove_hash_membership(m.records, h, i);
    }
    assert forall|i: int|
        0 <= i < t.len() && (#[trigger] t[i]).state is Reserved implies rec_ts(t[i]) >= 1 by {
        let j = choose|j: int| 0 <= j < m.records.len() && m.records[j] == t[i];
    }
    assert forall|i: int|
        (0 <= i < t.len() && (#[trigger] t[i]).state is Reserved && m1.ravs.contains_key(
            rec_alloc(t[i]),
        )) implies rec_ts(t[i]) > m1.ravs[rec_alloc(t[i])].message.timestamp_ns_max by {
        let j = choose|j: int| 0 <= j < m.records.len() && m.records[j] == t[i];
    }
    assert forall|i: int| 0 <= i < t.len() implies (#[trigger] t[i]).unique_hash@
        == spec_receipt_digest(m.domain, t[i].signed_receipt.message) by {
        let j = choose|j: int| 0 <= j < m.records.len() && m.records[j] == t[i];
        assert(m.records[j].unique_hash@ == spec_receipt_digest(
            m.domain,
            m.records[j].signed_receipt.message,
        ));
    }
    assert(model_wf(m1));
}

/// Escrow conservation: a sender's balance, the value reserved by stored
/// receipts and the value settled into vouchers together account exactly for
/// what the sender deposited; in particular reserved plus settled never
/// exceeds the deposits.
pub proof fn lemma_escrow_conservation(m: ManagerModel, sender: [u8; 20])
    requires
        model_wf(m),
    ensures
        m.escrow[sender] + reserved_sum_of_sender(m.records, sender) + m.settled[sender]
            == m.funded[sender],
        reserved_sum_of_sender(m.records, sender) + m.settled[sender] <= m.funded[sender],
{
}

/// Freshness: every reserved receipt of an allocation lies strictly above
/// that allocation's latest voucher.
pub proof fn lemma_reserved_above_latest_rav(m: ManagerModel, i: int)
    requires
        model_wf(m),
        0 <= i < m.records.len(),
        m.records[i].state is Reserved,
        m.ravs.contains_key(rec_alloc(m.records[i])),
    ensures
        rec_ts(m.records[i]) > m.ravs[rec_alloc(m.records[i])].message.timestamp_ns_max,
{
}

/// Anti-replay: at most one record exists per unique hash.
pub proof fn lemma_at_most_one_record_per_hash(m: ManagerModel, i: int, j: int)
    requires
        model_wf(m),
        0 <= i < m.records.len(),
        0 <= j < m.records.len(),
        m.records[i].unique_hash == m.records[j].unique_hash,
    ensures
        i == j,
{
}

/// Voucher accounting: the latest voucher of an allocation aggregates
/// exactly the total value ever absorbed for it, and its timestamp ceiling
/// is the highest absorbed timestamp.
pub proof fn lemma_rav_accounting(m: ManagerModel, allocation_id: [u8; 20])
    requires
        model_wf(m),
        m.ravs.contains_key(allocation_id),
    ensures
        m.ravs[allocation_id].message.value_aggregate == m.absorbed_value[allocation_id],
        m.ravs[allocation_id].message.timestamp_ns_max == m.absorbed_max[allocation_id],
        m.ravs[allocation_id].message.timestamp_ns_max <= m.watermark,
{
}

} // verus!
