//! The receipt store: every admitted receipt, reserved or failed, keyed by
//! its unique hash and kept ordered by timestamp so that aggregation windows
//! come out ascending.

use vstd::prelude::*;

use crate::addr_map::bytes32_eq;
use crate::eip712::Eip712Domain;
use crate::receipt::{spec_receipt_digest, SignedReceipt};
use crate::received_receipt::{Failed, ReceiptWithState};
use crate::Error;

verus! {

/// The resting state of a stored receipt.
#[derive(Clone, Copy, Debug)]
pub enum RecordState {
    /// Escrow was debited for it; it awaits aggregation.
    Reserved,
    /// It was rejected; kept for audit, never aggregated.
    Failed { error: Error },
}

/// One stored receipt: the signed receipt, its unique hash (the replay key),
/// the recovered sender where recovery succeeded, and its state.
#[derive(Clone, Copy, Debug)]
pub struct ReceiptRecord {
    pub signed_receipt: SignedReceipt,
    pub unique_hash: [u8; 32],
    pub sender: Option<[u8; 20]>,
    pub state: RecordState,
}

/// A record's timestamp.
pub open spec fn rec_ts(r: ReceiptRecord) -> u64 {
    r.signed_receipt.message.timestamp_ns
}

/// A record's allocation.
pub open spec fn rec_alloc(r: ReceiptRecord) -> [u8; 20] {
    r.signed_receipt.message.allocation_id
}

/// A record's value.
pub open spec fn rec_value(r: ReceiptRecord) -> u128 {
    r.signed_receipt.message.value
}

/// Some record already carries this hash.
pub open spec fn contains_hash(s: Seq<ReceiptRecord>, h: [u8; 32]) -> bool {
    exists|i: int| 0 <= i < s.len() && (#[trigger] s[i]).unique_hash == h
}

/// Timestamps never decrease along the sequence.
pub open spec fn sorted_by_ts(s: Seq<ReceiptRecord>) -> bool {
    forall|i: int, j: int| 0 <= i < j < s.len() ==> rec_ts(#[trigger] s[i]) <= rec_ts(
        #[trigger] s[j],
    )
}

/// No two records share a hash.
pub open spec fn distinct_hashes(s: Seq<ReceiptRecord>) -> bool {
    forall|i: int, j: int| 0 <= i < j < s.len() ==> (#[trigger] s[i]).unique_hash != (
    #[trigger] s[j]).unique_hash
}

/// The store's invariant: ordered by timestamp, at most one record per hash.
pub open spec fn records_wf(s: Seq<ReceiptRecord>) -> bool {
    sorted_by_ts(s) && distinct_hashes(s)
}

/// Every record's hash field really is the EIP-712 digest of its message
/// under the given domain: the replay key identifies the receipt.
pub open spec fn hashes_are_digests(d: Eip712Domain, s: Seq<ReceiptRecord>) -> bool {
    forall|i: int|
        0 <= i < s.len() ==> (#[trigger] s[i]).unique_hash@ == spec_receipt_digest(
            d,
            s[i].signed_receipt.message,
        )
}

/// No two receipts of the sequence share a digest under the given domain.
pub open spec fn receipts_distinct(d: Eip712Domain, s: Seq<SignedReceipt>) -> bool {
    forall|i: int, j: int|
        0 <= i < j < s.len() ==> spec_receipt_digest(d, (#[trigger] s[i]).message)
            != spec_receipt_digest(d, (#[trigger] s[j]).message)
}

/// Where a record with this timestamp is inserted: after every record with
/// an equal or smaller timestamp.
pub open spec fn insert_index(s: Seq<ReceiptRecord>, ts: u64) -> int
    decreases s.len(),
{
    if s.len() == 0 {
        0
    } else if rec_ts(s.last()) <= ts {
        s.len() as int
    } else {
        insert_index(s.drop_last(), ts)
    }
}

/// The store after a record is filed at its timestamp position.
pub open spec fn insert_record(s: Seq<ReceiptRecord>, r: ReceiptRecord) -> Seq<ReceiptRecord> {
    s.insert(insert_index(s, rec_ts(r)), r)
}

/// A reserved record of the allocation with `lo < timestamp <= hi`: what an
/// aggregation window for `(allocation, lo, hi]` picks up.
pub open spec fn in_window(r: ReceiptRecord, alloc: [u8; 20], lo: u64, hi: u64) -> bool {
    &&& r.state is Reserved
    &&& rec_alloc(r) == alloc
    &&& lo < rec_ts(r) <= hi
}

/// A failed record of the allocation inside the same timestamp range.
pub open spec fn failed_in_window(r: ReceiptRecord, alloc: [u8; 20], lo: u64, hi: u64) -> bool {
    &&& r.state is Failed
    &&& rec_alloc(r) == alloc
    &&& lo < rec_ts(r) <= hi
}

/// The signed receipts of the window, in store order.
pub open spec fn windowed_receipts(
    s: Seq<ReceiptRecord>,
    alloc: [u8; 20],
    lo: u64,
    hi: u64,
) -> Seq<SignedReceipt>
    decreases s.len(),
{
    if s.len() == 0 {
        Seq::empty()
    } else {
        windowed_receipts(s.drop_last(), alloc, lo, hi) + if in_window(s.last(), alloc, lo, hi) {
            seq![s.last().signed_receipt]
        } else {
            Seq::empty()
        }
    }
}

/// The failed receipts of the window, in store order.
pub open spec fn failed_receipts_in_window(
    s: Seq<ReceiptRecord>,
    alloc: [u8; 20],
    lo: u64,
    hi: u64,
) -> Seq<ReceiptWithState<Failed>>
    decreases s.len(),
{
    if s.len() == 0 {
        Seq::empty()
    } else {
        failed_receipts_in_window(s.drop_last(), alloc, lo, hi) + failed_entry(
            s.last(),
            alloc,
            lo,
            hi,
        )
    }
}

/// The audit entry one record contributes to a window: one element when the
/// record failed inside the window, none otherwise.
pub open spec fn failed_entry(r: ReceiptRecord, alloc: [u8; 20], lo: u64, hi: u64) -> Seq<
    ReceiptWithState<Failed>,
> {
    match r.state {
        RecordState::Failed { error } => if failed_in_window(r, alloc, lo, hi) {
            seq![
                ReceiptWithState::<Failed> {
                    signed_receipt: r.signed_receipt,
                    state: Failed { error },
                },
            ]
        } else {
            Seq::empty()
        },
        RecordState::Reserved => Seq::empty(),
    }
}

/// The records the window absorbs.
pub open spec fn absorbed_records(
    s: Seq<ReceiptRecord>,
    alloc: [u8; 20],
    lo: u64,
    hi: u64,
) -> Seq<ReceiptRecord>
    decreases s.len(),
{
    if s.len() == 0 {
        Seq::empty()
    } else {
        absorbed_records(s.drop_last(), alloc, lo, hi) + if in_window(s.last(), alloc, lo, hi) {
            seq![s.last()]
        } else {
            Seq::empty()
        }
    }
}

/// The records that survive the window's absorption.
pub open spec fn retained_records(
    s: Seq<ReceiptRecord>,
    alloc: [u8; 20],
    lo: u64,
    hi: u64,
) -> Seq<ReceiptRecord>
    decreases s.len(),
{
    if s.len() == 0 {
        Seq::empty()
    } else {
        retained_records(s.drop_last(), alloc, lo, hi) + if in_window(s.last(), alloc, lo, hi) {
            Seq::empty()
        } else {
            seq![s.last()]
        }
    }
}

/// The total value of the reserved records signed by one sender.
pub open spec fn reserved_sum_of_sender(s: Seq<ReceiptRecord>, x: [u8; 20]) -> int
    decreases s.len(),
{
    if s.len() == 0 {
        0
    } else {
        reserved_sum_of_sender(s.drop_last(), x) + if s.last().state is Reserved && s.last().sender
            == Some(x) {
            rec_value(s.last()) as int
        } else {
            0
        }
    }
}

/// The storage: a vector of records obeying `records_wf`.
pub struct ReceiptStorage {
    pub records: Vec<ReceiptRecord>,
}

impl ReceiptStorage {
    /// An empty store.
    pub fn new() -> (r: ReceiptStorage)
        ensures
            r.records@ == Seq::<ReceiptRecord>::empty(),
            records_wf(r.records@),
    {
        let r = ReceiptStorage { records: Vec::new() };
        proof {
            assert(r.records@ =~= Seq::<ReceiptRecord>::empty());
        }
        r
    }

    /// Whether a record with this hash is already stored.
    pub fn contains_hash(&self, h: &[u8; 32]) -> (r: bool)
        ensures
            r == contains_hash(self.records@, *h),
    {
        let n = self.records.len();
        let mut i: usize = 0;
        while i < n
            invariant
                n == self.records@.len(),
                i <= n,
                forall|j: int| 0 <= j < i ==> (#[trigger] self.records@[j]).unique_hash != *h,
            decreases n - i,
        {
            if bytes32_eq(&self.records[i].unique_hash, h) {
                return true;
            }
            i = i + 1;
        }
        false
    }

    /// Files a record with a fresh hash at its timestamp position.
    pub fn insert(&mut self, record: ReceiptRecord)
        requires
            records_wf(old(self).records@),
            !contains_hash(old(self).records@, record.unique_hash),
        ensures
            final(self).records@ == insert_record(old(self).records@, record),
            records_wf(final(self).records@),
    {
        let ts = record.signed_receipt.message.timestamp_ns;
        let n = self.records.len();
        let mut i: usize = 0;
        while i < n && self.records[i].signed_receipt.message.timestamp_ns <= ts
            invariant
                n == self.records@.len(),
                i <= n,
                forall|j: int| 0 <= j < i ==> rec_ts(#[trigger] self.records@[j]) <= ts,
            decreases n - i,
        {
            i = i + 1;
        }
        proof {
            lemma_insert_index_props(self.records@, ts);
            lemma_insert_index_unique(self.records@, ts, i as int);
            lemma_insert_record_wf(self.records@, record);
        }
        self.records.insert(i, record);
    }

    /// Collects the signed receipts of a window, ascending by timestamp.
    pub fn collect_window(&self, alloc: &[u8; 20], lo: u64, hi: u64) -> (r: Vec<SignedReceipt>)
        ensures
            r@ == windowed_receipts(self.records@, *alloc, lo, hi),
    {
        let mut r: Vec<SignedReceipt> = Vec::new();
        let n = self.records.len();
        let mut i: usize = 0;
        proof {
            assert(self.records@.take(0) =~= Seq::<ReceiptRecord>::empty());
        }
        while i < n
            invariant
                n == self.records@.len(),
                i <= n,
                r@ == windowed_receipts(self.records@.take(i as int), *alloc, lo, hi),
            decreases n - i,
        {
            proof {
                assert(self.records@.take(i + 1).drop_last() =~= self.records@.take(i as int));
                assert(self.records@.take(i + 1).last() == self.records@[i as int]);
            }
            let record = &self.records[i];
            if matches!(record.state, RecordState::Reserved) && crate::addr_map::address_eq(
                &record.signed_receipt.message.allocation_id,
                alloc,
            ) && lo < record.signed_receipt.message.timestamp_ns
                && record.signed_receipt.message.timestamp_ns <= hi {
                r.push(record.signed_receipt);
            }
            i = i + 1;
        }
        proof {
            assert(self.records@.take(n as int) =~= self.records@);
        }
        r
    }

    /// Collects the failed receipts of a window, for audit evidence.
    pub fn collect_failed(&self, alloc: &[u8; 20], lo: u64, hi: u64) -> (r: Vec<
        ReceiptWithState<Failed>,
    >)
        ensures
            r@ == failed_receipts_in_window(self.records@, *alloc, lo, hi),
    {
        let mut r: Vec<ReceiptWithState<Failed>> = Vec::new();
        let n = self.records.len();
        let mut i: usize = 0;
        proof {
            assert(self.records@.take(0) =~= Seq::<ReceiptRecord>::empty());
        }
        while i < n
            invariant
                n == self.records@.len(),
                i <= n,
                r@ == failed_receipts_in_window(self.records@.take(i as int), *alloc, lo, hi),
            decreases n - i,
        {
            proof {
                assert(self.records@.take(i + 1).drop_last() =~= self.records@.take(i as int));
                assert(self.records@.take(i + 1).last() == self.records@[i as int]);
            }
            let record = &self.records[i];
            match record.state {
                RecordState::Failed { error } => {
                    if crate::addr_map::address_eq(
                        &record.signed_receipt.message.allocation_id,
                        alloc,
                    ) && lo < record.signed_receipt.message.timestamp_ns
                        && record.signed_receipt.message.timestamp_ns <= hi {
                        r.push(
                            ReceiptWithState {
                                signed_receipt: record.signed_receipt,
                                state: Failed { error },
                            },
                        );
                    }
                },
                RecordState::Reserved => {},
            }
            i = i + 1;
        }
        proof {
            assert(self.records@.take(n as int) =~= self.records@);
        }
        r
    }

    /// Drops any record filed under a hash, keeping the rest in order.
    pub fn remove_by_hash(&mut self, h: &[u8; 32])
        ensures
            final(self).records@ == remove_hash_record(old(self).records@, *h),
    {
        let mut kept: Vec<ReceiptRecord> = Vec::new();
        let n = self.records.len();
        let mut i: usize = 0;
        proof {
            assert(self.records@.take(0) =~= Seq::<ReceiptRecord>::empty());
        }
        while i < n
            invariant
                n == self.records@.len(),
                i <= n,
                kept@ == remove_hash_record(self.records@.take(i as int), *h),
            decreases n - i,
        {
            proof {
                assert(self.records@.take(i + 1).drop_last() =~= self.records@.take(i as int));
                assert(self.records@.take(i + 1).last() == self.records@[i as int]);
            }
            let record = self.records[i];
            if !bytes32_eq(&record.unique_hash, h) {
                kept.push(record);
            }
            i = i + 1;
        }
        proof {
            assert(self.records@.take(n as int) =~= self.records@);
        }
        self.records = kept;
    }

    /// Drops every record the window absorbs, keeping the rest in order.
    pub fn remove_window(&mut self, alloc: &[u8; 20], lo: u64, hi: u64)
        ensures
            final(self).records@ == retained_records(old(self).records@, *alloc, lo, hi),
    {
        let mut kept: Vec<ReceiptRecord> = Vec::new();
        let n = self.records.len();
        let mut i: usize = 0;
        proof {
            assert(self.records@.take(0) =~= Seq::<ReceiptRecord>::empty());
        }
        while i < n
            invariant
                n == self.records@.len(),
                i <= n,
                kept@ == retained_records(self.records@.take(i as int), *alloc, lo, hi),
            decreases n - i,
        {
            proof {
                assert(self.records@.take(i + 1).drop_last() =~= self.records@.take(i as int));
                assert(self.records@.take(i + 1).last() == self.records@[i as int]);
            }
            let record = self.records[i];
            if !(matches!(record.state, RecordState::Reserved) && crate::addr_map::address_eq(
                &record.signed_receipt.message.allocation_id,
                alloc,
            ) && lo < record.signed_receipt.message.timestamp_ns
                && record.signed_receipt.message.timestamp_ns <= hi) {
                kept.push(record);
            }
            i = i + 1;
        }
        proof {
            assert(self.records@.take(n as int) =~= self.records@);
        }
        self.records = kept;
    }
}

/// The insertion index lies in range, past every earlier-or-equal timestamp
/// and before every later one.
pub proof fn lemma_insert_index_props(s: Seq<ReceiptRecord>, ts: u64)
    requires
        sorted_by_ts(s),
    ensures
        0 <= insert_index(s, ts) <= s.len(),
        forall|j: int| 0 <= j < insert_index(s, ts) ==> rec_ts(#[trigger] s[j]) <= ts,
        insert_index(s, ts) < s.len() ==> rec_ts(s[insert_index(s, ts)]) > ts,
    decreases s.len(),
{
    if s.len() > 0 && rec_ts(s.last()) > ts {
        assert(sorted_by_ts(s.drop_last()));
        lemma_insert_index_props(s.drop_last(), ts);
        let idx = insert_index(s.drop_last(), ts);
        assert forall|j: int| 0 <= j < idx implies rec_ts(#[trigger] s[j]) <= ts by {
            assert(s.drop_last()[j] == s[j]);
        }
        if idx < s.len() - 1 {
            assert(s.drop_last()[idx] == s[idx]);
        }
    }
}

/// Any index with the insertion-point properties is the insertion index.
pub proof fn lemma_insert_index_unique(s: Seq<ReceiptRecord>, ts: u64, i: int)
    requires
        sorted_by_ts(s),
        0 <= i <= s.len(),
        forall|j: int| 0 <= j < i ==> rec_ts(#[trigger] s[j]) <= ts,
        i < s.len() ==> rec_ts(s[i]) > ts,
    ensures
        i == insert_index(s, ts),
{
    lemma_insert_index_props(s, ts);
    let idx = insert_index(s, ts);
    if i < idx {
        assert(rec_ts(s[i]) <= ts);
    } else if idx < i {
        assert(rec_ts(s[idx]) <= ts);
    }
}

/// Inserting a fresh-hashed record keeps the store well formed, and the
/// stored hashes afterwards are the old ones plus the new.
pub proof fn lemma_insert_record_wf(s: Seq<ReceiptRecord>, r: ReceiptRecord)
    requires
        records_wf(s),
        !contains_hash(s, r.unique_hash),
    ensures
        records_wf(insert_record(s, r)),
        forall|h: [u8; 32]|
            #[trigger] contains_hash(insert_record(s, r), h) <==> contains_hash(s, h) || h
                == r.unique_hash,
{
    let ts = rec_ts(r);
    lemma_insert_index_props(s, ts);
    let idx = insert_index(s, ts);
    let t = insert_record(s, r);
    assert(t.len() == s.len() + 1);
    assert forall|k: int| 0 <= k < t.len() implies #[trigger] t[k] == (if k < idx {
        s[k]
    } else if k == idx {
        r
    } else {
        s[k - 1]
    }) by {}
    assert forall|i: int, j: int| 0 <= i < j < t.len() implies rec_ts(#[trigger] t[i]) <= rec_ts(
        #[trigger] t[j],
    ) by {}
    assert forall|i: int, j: int| 0 <= i < j < t.len() implies (#[trigger] t[i]).unique_hash != (
    #[trigger] t[j]).unique_hash by {
        if t[i].unique_hash == t[j].unique_hash {
            if i == idx {
                assert(contains_hash(s, r.unique_hash));
            } else if j == idx {
                assert(contains_hash(s, r.unique_hash));
            }
        }
    }
    assert forall|h: [u8; 32]| #[trigger] contains_hash(t, h) implies contains_hash(s, h) || h
        == r.unique_hash by {
        let i = choose|i: int| 0 <= i < t.len() && (#[trigger] t[i]).unique_hash == h;
        if i != idx {
            if i < idx {
                assert(s[i].unique_hash == h);
            } else {
                assert(s[i - 1].unique_hash == h);
            }
        }
    }
    assert forall|h: [u8; 32]| contains_hash(s, h) || h == r.unique_hash implies
        #[trigger] contains_hash(t, h) by {
        if contains_hash(s, h) {
            let i = choose|i: int| 0 <= i < s.len() && (#[trigger] s[i]).unique_hash == h;
            if i < idx {
                assert(t[i].unique_hash == h);
            } else {
                assert(t[i + 1].unique_hash == h);
            }
        } else {
            assert(t[idx].unique_hash == h);
        }
    }
}

/// A window splits each sender's reserved total between what it absorbs and
/// what it leaves behind.
pub proof fn lemma_window_partition_sum(
    s: Seq<ReceiptRecord>,
    alloc: [u8; 20],
    lo: u64,
    hi: u64,
    x: [u8; 20],
)
    ensures
        reserved_sum_of_sender(s, x) == reserved_sum_of_sender(retained_records(s, alloc, lo, hi), x)
            + reserved_sum_of_sender(absorbed_records(s, alloc, lo, hi), x),
    decreases s.len(),
{
    if s.len() > 0 {
        lemma_window_partition_sum(s.drop_last(), alloc, lo, hi, x);
        let rt = retained_records(s, alloc, lo, hi);
        let ab = absorbed_records(s, alloc, lo, hi);
        if in_window(s.last(), alloc, lo, hi) {
            assert(ab.drop_last() =~= absorbed_records(s.drop_last(), alloc, lo, hi));
            assert(rt =~= retained_records(s.drop_last(), alloc, lo, hi));
        } else {
            assert(rt.drop_last() =~= retained_records(s.drop_last(), alloc, lo, hi));
            assert(ab =~= absorbed_records(s.drop_last(), alloc, lo, hi));
        }
    }
}

/// Retaining is wellformedness-preserving, keeps only records outside the
/// window, and never invents hashes.
pub proof fn lemma_retained_wf(s: Seq<ReceiptRecord>, alloc: [u8; 20], lo: u64, hi: u64)
    requires
        records_wf(s),
    ensures
        records_wf(retained_records(s, alloc, lo, hi)),
        forall|h: [u8; 32]|
            #[trigger] contains_hash(retained_records(s, alloc, lo, hi), h) ==> contains_hash(s, h),
        forall|i: int|
            0 <= i < retained_records(s, alloc, lo, hi).len() ==> !in_window(
                #[trigger] retained_records(s, alloc, lo, hi)[i],
                alloc,
                lo,
                hi,
            ),
    decreases s.len(),
{
    if s.len() > 0 {
        assert(records_wf(s.drop_last()));
        lemma_retained_wf(s.drop_last(), alloc, lo, hi);
        let rt = retained_records(s, alloc, lo, hi);
        let prev = retained_records(s.drop_last(), alloc, lo, hi);
        if in_window(s.last(), alloc, lo, hi) {
            assert(rt =~= prev);
        } else {
            assert(rt =~= prev.push(s.last()));
            assert forall|i: int| 0 <= i < prev.len() implies exists|j: int|
                0 <= j < s.drop_last().len() && s.drop_last()[j] == #[trigger] prev[i] by {
                lemma_retained_membership(s.drop_last(), alloc, lo, hi, i);
            }
            assert forall|i: int, j: int| 0 <= i < j < rt.len() implies rec_ts(#[trigger] rt[i])
                <= rec_ts(#[trigger] rt[j]) && (#[trigger] rt[i]).unique_hash != (
            #[trigger] rt[j]).unique_hash by {
                if j == rt.len() - 1 {
                    let k = choose|k: int|
                        0 <= k < s.drop_last().len() && s.drop_last()[k] == #[trigger] rt[i];
                    assert(s[k] == rt[i]);
                    assert(rec_ts(s[k]) <= rec_ts(s.last()));
                    assert(s[k].unique_hash != s[s.len() - 1].unique_hash);
                } else {
                    assert(rt[i] == prev[i] && rt[j] == prev[j]);
                }
            }
            assert forall|h: [u8; 32]| #[trigger] contains_hash(rt, h) implies contains_hash(
                s,
                h,
            ) by {
                let i = choose|i: int| 0 <= i < rt.len() && (#[trigger] rt[i]).unique_hash == h;
                if i < rt.len() - 1 {
                    assert(contains_hash(prev, h));
                    let k = choose|k: int|
                        0 <= k < s.drop_last().len() && (#[trigger] s.drop_last()[k]).unique_hash
                            == h;
                    assert(s[k].unique_hash == h);
                } else {
                    assert(s[s.len() - 1].unique_hash == h);
                }
            }
        }
    }
}

/// A sender's reserved total is never negative.
pub proof fn lemma_reserved_sum_nonneg(s: Seq<ReceiptRecord>, x: [u8; 20])
    ensures
        reserved_sum_of_sender(s, x) >= 0,
    decreases s.len(),
{
    if s.len() > 0 {
        lemma_reserved_sum_nonneg(s.drop_last(), x);
    }
}

/// What one record adds to a sender's reserved total.
pub open spec fn reserved_contribution(r: ReceiptRecord, x: [u8; 20]) -> int {
    if r.state is Reserved && r.sender == Some(x) {
        rec_value(r) as int
    } else {
        0
    }
}

/// Inserting a record anywhere adds exactly its contribution to each
/// sender's reserved total.
pub proof fn lemma_reserved_sum_insert_at(s: Seq<ReceiptRecord>, r: ReceiptRecord, idx: int, x: [u8; 20])
    requires
        0 <= idx <= s.len(),
    ensures
        reserved_sum_of_sender(s.insert(idx, r), x) == reserved_sum_of_sender(s, x)
            + reserved_contribution(r, x),
    decreases s.len(),
{
    let t = s.insert(idx, r);
    if idx == s.len() {
        assert(t.drop_last() =~= s);
    } else {
        assert(t.last() == s.last());
        assert(t.drop_last() =~= s.drop_last().insert(idx, r));
        lemma_reserved_sum_insert_at(s.drop_last(), r, idx, x);
    }
}

/// Every element of the store after an insertion is the new record or one of
/// the old ones.
pub proof fn lemma_insert_record_elements(s: Seq<ReceiptRecord>, r: ReceiptRecord)
    requires
        sorted_by_ts(s),
    ensures
        insert_record(s, r).len() == s.len() + 1,
        forall|k: int|
            0 <= k < insert_record(s, r).len() ==> (#[trigger] insert_record(s, r)[k]) == r || (
            exists|j: int| 0 <= j < s.len() && s[j] == insert_record(s, r)[k]),
{
    lemma_insert_index_props(s, rec_ts(r));
    let idx = insert_index(s, rec_ts(r));
    let t = insert_record(s, r);
    assert forall|k: int| 0 <= k < t.len() implies (#[trigger] t[k]) == r || (exists|j: int|
        0 <= j < s.len() && s[j] == t[k]) by {
        if k < idx {
            assert(s[k] == t[k]);
        } else if k > idx {
            assert(s[k - 1] == t[k]);
        }
    }
}

/// Receipts ordered by timestamp.
pub open spec fn receipts_sorted(s: Seq<SignedReceipt>) -> bool {
    forall|i: int, j: int|
        0 <= i < j < s.len() ==> (#[trigger] s[i]).message.timestamp_ns <= (
        #[trigger] s[j]).message.timestamp_ns
}

/// What a window collects: receipts of the window's allocation and range,
/// ascending when the store is sorted.
pub proof fn lemma_windowed_props(s: Seq<ReceiptRecord>, alloc: [u8; 20], lo: u64, hi: u64)
    requires
        sorted_by_ts(s),
    ensures
        forall|i: int|
            0 <= i < windowed_receipts(s, alloc, lo, hi).len() ==> {
                let w = #[trigger] windowed_receipts(s, alloc, lo, hi)[i];
                &&& w.message.allocation_id == alloc
                &&& lo < w.message.timestamp_ns <= hi
            },
        receipts_sorted(windowed_receipts(s, alloc, lo, hi)),
    decreases s.len(),
{
    if s.len() > 0 {
        assert(sorted_by_ts(s.drop_last()));
        lemma_windowed_props(s.drop_last(), alloc, lo, hi);
        let w = windowed_receipts(s, alloc, lo, hi);
        let prev = windowed_receipts(s.drop_last(), alloc, lo, hi);
        if in_window(s.last(), alloc, lo, hi) {
            assert(w =~= prev.push(s.last().signed_receipt));
            assert forall|i: int, j: int| 0 <= i < j < w.len() implies (
            #[trigger] w[i]).message.timestamp_ns <= (#[trigger] w[j]).message.timestamp_ns by {
                if j == w.len() - 1 {
                    lemma_windowed_membership(s.drop_last(), alloc, lo, hi, i);
                    let k = choose|k: int|
                        0 <= k < s.drop_last().len() && s.drop_last()[k].signed_receipt
                            == #[trigger] prev[i];
                    assert(s[k] == s.drop_last()[k]);
                    assert(rec_ts(s[k]) <= rec_ts(s.last()));
                }
            }
        } else {
            assert(w =~= prev);
        }
    }
}

/// Every windowed receipt comes from some record of the store.
pub proof fn lemma_windowed_membership(
    s: Seq<ReceiptRecord>,
    alloc: [u8; 20],
    lo: u64,
    hi: u64,
    i: int,
)
    requires
        0 <= i < windowed_receipts(s, alloc, lo, hi).len(),
    ensures
        exists|j: int|
            0 <= j < s.len() && s[j].signed_receipt == windowed_receipts(s, alloc, lo, hi)[i],
    decreases s.len(),
{
    if s.len() > 0 {
        let w = windowed_receipts(s, alloc, lo, hi);
        let prev = windowed_receipts(s.drop_last(), alloc, lo, hi);
        if in_window(s.last(), alloc, lo, hi) {
            assert(w =~= prev.push(s.last().signed_receipt));
            if i < prev.len() {
                lemma_windowed_membership(s.drop_last(), alloc, lo, hi, i);
                let j = choose|j: int|
                    0 <= j < s.drop_last().len() && s.drop_last()[j].signed_receipt == prev[i];
                assert(s[j].signed_receipt == w[i]);
            } else {
                assert(s[s.len() - 1].signed_receipt == w[i]);
            }
        } else {
            assert(w =~= prev);
            lemma_windowed_membership(s.drop_last(), alloc, lo, hi, i);
            let j = choose|j: int|
                0 <= j < s.drop_last().len() && s.drop_last()[j].signed_receipt == prev[i];
            assert(s[j].signed_receipt == w[i]);
        }
    }
}

/// With one record per hash and hashes that are digests, a window's
/// receipts carry pairwise-distinct digests: no receipt is picked up twice.
pub proof fn lemma_windowed_distinct(
    d: Eip712Domain,
    s: Seq<ReceiptRecord>,
    alloc: [u8; 20],
    lo: u64,
    hi: u64,
)
    requires
        distinct_hashes(s),
        hashes_are_digests(d, s),
    ensures
        receipts_distinct(d, windowed_receipts(s, alloc, lo, hi)),
    decreases s.len(),
{
    if s.len() > 0 {
        assert forall|k: int| 0 <= k < s.drop_last().len() implies (#[trigger] s.drop_last()[k])
            == s[k] by {}
        lemma_windowed_distinct(d, s.drop_last(), alloc, lo, hi);
        let w = windowed_receipts(s, alloc, lo, hi);
        let prev = windowed_receipts(s.drop_last(), alloc, lo, hi);
        if in_window(s.last(), alloc, lo, hi) {
            assert(w =~= prev.push(s.last().signed_receipt));
            assert forall|i: int, j: int| 0 <= i < j < w.len() implies spec_receipt_digest(
                d,
                (#[trigger] w[i]).message,
            ) != spec_receipt_digest(d, (#[trigger] w[j]).message) by {
                if j == w.len() - 1 {
                    lemma_windowed_membership(s.drop_last(), alloc, lo, hi, i);
                    let k = choose|k: int|
                        0 <= k < s.drop_last().len() && s.drop_last()[k].signed_receipt
                            == #[trigger] prev[i];
                    assert(s[k].unique_hash@ == spec_receipt_digest(d, w[i].message));
                    assert(s[s.len() - 1].unique_hash@ == spec_receipt_digest(d, w[j].message));
                    if spec_receipt_digest(d, w[i].message) == spec_receipt_digest(d, w[j].message) {
                        assert(s[k].unique_hash =~= s[s.len() - 1].unique_hash);
                        assert(s[k].unique_hash != s[s.len() - 1].unique_hash);
                    }
                }
            }
        } else {
            assert(w =~= prev);
        }
    }
}

/// The store without any record filed under a hash, in order.
pub open spec fn remove_hash_record(s: Seq<ReceiptRecord>, h: [u8; 32]) -> Seq<ReceiptRecord>
    decreases s.len(),
{
    if s.len() == 0 {
        Seq::empty()
    } else if s.last().unique_hash == h {
        remove_hash_record(s.drop_last(), h)
    } else {
        remove_hash_record(s.drop_last(), h).push(s.last())
    }
}

/// Every record surviving a removal is one of the original records.
pub proof fn lemma_remove_hash_membership(s: Seq<ReceiptRecord>, h: [u8; 32], i: int)
    requires
        0 <= i < remove_hash_record(s, h).len(),
    ensures
        exists|j: int| 0 <= j < s.len() && s[j] == remove_hash_record(s, h)[i],
    decreases s.len(),
{
    if s.len() > 0 {
        let t = remove_hash_record(s, h);
        let prev = remove_hash_record(s.drop_last(), h);
        if s.last().unique_hash == h {
            assert(t =~= prev);
            lemma_remove_hash_membership(s.drop_last(), h, i);
            let j = choose|j: int| 0 <= j < s.drop_last().len() && s.drop_last()[j] == prev[i];
            assert(s[j] == t[i]);
        } else {
            assert(t =~= prev.push(s.last()));
            if i < prev.len() {
                lemma_remove_hash_membership(s.drop_last(), h, i);
                let j = choose|j: int| 0 <= j < s.drop_last().len() && s.drop_last()[j] == prev[i];
                assert(s[j] == t[i]);
            } else {
                assert(s[s.len() - 1] == t[i]);
            }
        }
    }
}

/// Removing records that are failed leaves every sender's reserved total
/// alone.
pub proof fn lemma_remove_hash_sum(s: Seq<ReceiptRecord>, h: [u8; 32], x: [u8; 20])
    requires
        forall|i: int|
            0 <= i < s.len() && (#[trigger] s[i]).unique_hash == h ==> s[i].state is Failed,
    ensures
        reserved_sum_of_sender(remove_hash_record(s, h), x) == reserved_sum_of_sender(s, x),
    decreases s.len(),
{
    if s.len() > 0 {
        assert forall|i: int|
            0 <= i < s.drop_last().len() && (#[trigger] s.drop_last()[i]).unique_hash
                == h implies s.drop_last()[i].state is Failed by {
            assert(s.drop_last()[i] == s[i]);
        }
        lemma_remove_hash_sum(s.drop_last(), h, x);
        let t = remove_hash_record(s, h);
        let prev = remove_hash_record(s.drop_last(), h);
        if s.last().unique_hash == h {
            assert(s[s.len() - 1].state is Failed);
            assert(t =~= prev);
        } else {
            assert(t =~= prev.push(s.last()));
            assert(t.drop_last() =~= prev);
        }
    }
}

/// Removal keeps the store well formed, leaves no record under the removed
/// hash, and never invents hashes.
pub proof fn lemma_remove_hash_wf(s: Seq<ReceiptRecord>, h: [u8; 32])
    requires
        records_wf(s),
    ensures
        records_wf(remove_hash_record(s, h)),
        !contains_hash(remove_hash_record(s, h), h),
        forall|h2: [u8; 32]|
            #[trigger] contains_hash(remove_hash_record(s, h), h2) ==> contains_hash(s, h2),
    decreases s.len(),
{
    if s.len() > 0 {
        assert(records_wf(s.drop_last()));
        lemma_remove_hash_wf(s.drop_last(), h);
        let t = remove_hash_record(s, h);
        let prev = remove_hash_record(s.drop_last(), h);
        if s.last().unique_hash == h {
            assert(t =~= prev);
            assert forall|h2: [u8; 32]| #[trigger] contains_hash(t, h2) implies contains_hash(
                s,
                h2,
            ) by {
                let i = choose|i: int| 0 <= i < prev.len() && (#[trigger] prev[i]).unique_hash
                    == h2;
                let j = choose|j: int|
                    0 <= j < s.drop_last().len() && (#[trigger] s.drop_last()[j]).unique_hash
                        == h2;
                assert(s[j].unique_hash == h2);
            }
        } else {
            assert(t =~= prev.push(s.last()));
            assert forall|i: int| 0 <= i < prev.len() implies exists|j: int|
                0 <= j < s.drop_last().len() && s.drop_last()[j] == #[trigger] prev[i] by {
                lemma_remove_hash_membership(s.drop_last(), h, i);
            }
            assert forall|i: int, j: int| 0 <= i < j < t.len() implies rec_ts(#[trigger] t[i])
                <= rec_ts(#[trigger] t[j]) && (#[trigger] t[i]).unique_hash != (
            #[trigger] t[j]).unique_hash by {
                if j == t.len() - 1 {
                    let k = choose|k: int|
                        0 <= k < s.drop_last().len() && s.drop_last()[k] == #[trigger] t[i];
                    assert(s[k] == t[i]);
                    assert(rec_ts(s[k]) <= rec_ts(s.last()));
                    assert(s[k].unique_hash != s[s.len() - 1].unique_hash);
                } else {
                    assert(t[i] == prev[i] && t[j] == prev[j]);
                }
            }
            assert forall|h2: [u8; 32]| #[trigger] contains_hash(t, h2) implies contains_hash(
                s,
                h2,
            ) by {
                let i = choose|i: int| 0 <= i < t.len() && (#[trigger] t[i]).unique_hash == h2;
                if i < t.len() - 1 {
                    assert(contains_hash(prev, h2));
                    let j = choose|j: int|
                        0 <= j < s.drop_last().len() && (#[trigger] s.drop_last()[j]).unique_hash
                            == h2;
                    assert(s[j].unique_hash == h2);
                } else {
                    assert(s[s.len() - 1].unique_hash == h2);
                }
            }
            assert(!contains_hash(t, h));
        }
    }
}

/// Looks a record up by hash, latest filing first.
pub open spec fn find_record(s: Seq<ReceiptRecord>, h: [u8; 32]) -> Option<ReceiptRecord>
    decreases s.len(),
{
    if s.len() == 0 {
        None
    } else if s.last().unique_hash == h {
        Some(s.last())
    } else {
        find_record(s.drop_last(), h)
    }
}

/// With distinct hashes, the record found for a stored hash is the record
/// holding it.
pub proof fn lemma_find_record(s: Seq<ReceiptRecord>, h: [u8; 32], i: int)
    requires
        distinct_hashes(s),
        0 <= i < s.len(),
        s[i].unique_hash == h,
    ensures
        find_record(s, h) == Some(s[i]),
    decreases s.len(),
{
    if i < s.len() - 1 {
        assert(s[i].unique_hash != s[s.len() - 1].unique_hash);
        assert(s.drop_last()[i] == s[i]);
        lemma_find_record(s.drop_last(), h, i);
    }
}

/// A hash no record holds finds nothing.
pub proof fn lemma_find_record_none(s: Seq<ReceiptRecord>, h: [u8; 32])
    requires
        !contains_hash(s, h),
    ensures
        find_record(s, h) is None,
    decreases s.len(),
{
    if s.len() > 0 {
        assert(s[s.len() - 1].unique_hash != h);
        assert forall|i: int| 0 <= i < s.drop_last().len() implies (
        #[trigger] s.drop_last()[i]).unique_hash != h by {
            assert(s.drop_last()[i] == s[i]);
        }
        lemma_find_record_none(s.drop_last(), h);
    }
}

/// Every retained record is one of the original records.
pub proof fn lemma_retained_membership(
    s: Seq<ReceiptRecord>,
    alloc: [u8; 20],
    lo: u64,
    hi: u64,
    i: int,
)
    requires
        0 <= i < retained_records(s, alloc, lo, hi).len(),
    ensures
        exists|j: int| 0 <= j < s.len() && s[j] == retained_records(s, alloc, lo, hi)[i],
    decreases s.len(),
{
    if s.len() > 0 {
        let rt = retained_records(s, alloc, lo, hi);
        let prev = retained_records(s.drop_last(), alloc, lo, hi);
        if in_window(s.last(), alloc, lo, hi) {
            assert(rt =~= prev);
            lemma_retained_membership(s.drop_last(), alloc, lo, hi, i);
            let j = choose|j: int| 0 <= j < s.drop_last().len() && s.drop_last()[j] == prev[i];
            assert(s[j] == rt[i]);
        } else {
            assert(rt =~= prev.push(s.last()));
            if i < prev.len() {
                lemma_retained_membership(s.drop_last(), alloc, lo, hi, i);
                let j = choose|j: int| 0 <= j < s.drop_last().len() && s.drop_last()[j] == prev[i];
                assert(s[j] == rt[i]);
            } else {
                assert(s[s.len() - 1] == rt[i]);
            }
        }
    }
}

} // verus!
