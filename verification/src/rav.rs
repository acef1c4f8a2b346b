//! Receipt Aggregate Vouchers: the compressed, aggregator-signed summary of
//! a set of receipts, and the aggregation law that produces one.

use vstd::prelude::*;
use vstd::string::StringSliceAdditionalSpecFns;

use crate::crypto::{
    keccak_of, recover_of, recover_signer, sign_digest, sign_outcome_of, wallet_of,
};
use crate::eip712::{
    address_word, eip712_digest, keccak_of_str, push_bytes, push_address_word, push_u128_word,
    push_u64_word, spec_eip712_digest, u128_word, u64_word, EIP712SignedMessage, Eip712Domain,
};
use crate::receipt::SignedReceipt;
use crate::received_receipt::{Failed, ReceiptWithState};
use crate::Error;

verus! {

/// The aggregate voucher for one allocation: every receipt with
/// `timestamp_ns <= timestamp_ns_max` is settled by `value_aggregate`.
#[derive(Clone, Copy, Debug)]
pub struct ReceiptAggregateVoucher {
    pub allocation_id: [u8; 20],
    pub timestamp_ns_max: u64,
    pub value_aggregate: u128,
}

/// A voucher together with the aggregator's signature over its EIP-712 digest.
pub type SignedRAV = EIP712SignedMessage<ReceiptAggregateVoucher>;

/// What the manager assembles for the aggregator: the receipts to fold, the
/// voucher they extend, the failed receipts of the same window (as audit
/// evidence), and the voucher the aggregator is expected to sign.
#[derive(Debug)]
pub struct RAVRequest {
    pub valid_receipts: Vec<SignedReceipt>,
    pub previous_rav: Option<SignedRAV>,
    pub invalid_receipts: Vec<ReceiptWithState<Failed>>,
    pub expected_rav: ReceiptAggregateVoucher,
}

/// The EIP-712 type hash of `ReceiptAggregateVoucher`.
pub open spec fn rav_type_hash() -> Seq<u8> {
    keccak_of(
        "ReceiptAggregateVoucher(address allocation_id,uint64 timestamp_ns_max,uint128 value_aggregate)".spec_bytes(),
    )
}

/// The keccak digest of the EIP-712 encoding of a voucher's fields.
pub open spec fn spec_rav_struct_hash(r: ReceiptAggregateVoucher) -> Seq<u8> {
    keccak_of(
        rav_type_hash() + address_word(r.allocation_id@) + u64_word(r.timestamp_ns_max)
            + u128_word(r.value_aggregate),
    )
}

/// The EIP-712 signing digest of a voucher under a domain.
pub open spec fn spec_rav_digest(d: Eip712Domain, r: ReceiptAggregateVoucher) -> Seq<u8> {
    spec_eip712_digest(d, spec_rav_struct_hash(r))
}

/// The signer that signature recovery yields for a signed voucher.
pub open spec fn spec_rav_signer(d: Eip712Domain, s: SignedRAV) -> Option<Seq<u8>> {
    recover_of(spec_rav_digest(d, s.message), s.signature.bytes())
}

/// The sum of the values of a sequence of signed receipts.
pub open spec fn sum_of_values(s: Seq<SignedReceipt>) -> int
    decreases s.len(),
{
    if s.len() == 0 {
        0
    } else {
        sum_of_values(s.drop_last()) + s.last().message.value
    }
}

/// The largest timestamp among `base` and the receipts' timestamps.
pub open spec fn max_timestamp(s: Seq<SignedReceipt>, base: u64) -> u64
    decreases s.len(),
{
    if s.len() == 0 {
        base
    } else {
        let rest = max_timestamp(s.drop_last(), base);
        if s.last().message.timestamp_ns > rest {
            s.last().message.timestamp_ns
        } else {
            rest
        }
    }
}

/// A prefix of a receipt sequence never sums to more than the whole:
/// values are non-negative.
pub proof fn lemma_sum_take_le(s: Seq<SignedReceipt>, i: int)
    requires
        0 <= i <= s.len(),
    ensures
        sum_of_values(s.take(i)) <= sum_of_values(s),
        sum_of_values(s.take(i)) >= 0,
    decreases s.len(),
{
    if s.len() == 0 {
        assert(s.take(i) =~= s);
    } else if i == s.len() {
        assert(s.take(i) =~= s);
        lemma_sum_take_le(s.drop_last(), s.len() - 1);
        assert(s.drop_last().take(s.len() - 1) =~= s.drop_last());
    } else {
        lemma_sum_take_le(s.drop_last(), i);
        assert(s.drop_last().take(i) =~= s.take(i));
    }
}

impl ReceiptAggregateVoucher {
    /// Folds a batch of receipts, all for `allocation_id` and all newer than
    /// the prior voucher, into the aggregate that extends that voucher:
    /// values are summed and the timestamp ceiling is raised to the newest
    /// receipt. Fails with `RAVAggregationOverflow` exactly when the sum
    /// does not fit in a `u128`.
    pub fn aggregate_receipts(
        allocation_id: [u8; 20],
        receipts: &Vec<SignedReceipt>,
        previous_rav: Option<&SignedRAV>,
    ) -> (r: Result<ReceiptAggregateVoucher, Error>)
        requires
            forall|i: int|
                0 <= i < receipts@.len() ==> (#[trigger] receipts@[i]).message.allocation_id@
                    == allocation_id@,
            previous_rav matches Some(p) ==> p.message.allocation_id@ == allocation_id@,
        ensures
            ({
                let prev_value: int = match previous_rav {
                    Some(p) => p.message.value_aggregate as int,
                    None => 0,
                };
                let prev_ts: u64 = match previous_rav {
                    Some(p) => p.message.timestamp_ns_max,
                    None => 0,
                };
                match r {
                    Ok(rav) => {
                        &&& rav.allocation_id == allocation_id
                        &&& rav.value_aggregate == prev_value + sum_of_values(receipts@)
                        &&& rav.timestamp_ns_max == max_timestamp(receipts@, prev_ts)
                        &&& prev_value + sum_of_values(receipts@) <= u128::MAX
                    },
                    Err(e) => {
                        &&& e is RAVAggregationOverflow
                        &&& prev_value + sum_of_values(receipts@) > u128::MAX
                    },
                }
            }),
    {
        let ghost prev_value: int = match previous_rav {
            Some(p) => p.message.value_aggregate as int,
            None => 0int,
        };
        let mut value_aggregate: u128 = match previous_rav {
            Some(p) => p.message.value_aggregate,
            None => 0,
        };
        let mut timestamp_ns_max: u64 = match previous_rav {
            Some(p) => p.message.timestamp_ns_max,
            None => 0,
        };
        let ghost prev_ts: u64 = timestamp_ns_max;
        let n = receipts.len();
        let mut i: usize = 0;
        while i < n
            invariant
                n == receipts@.len(),
                i <= n,
                prev_value == match previous_rav {
                    Some(p) => p.message.value_aggregate as int,
                    None => 0int,
                },
                prev_ts == match previous_rav {
                    Some(p) => p.message.timestamp_ns_max,
                    None => 0u64,
                },
                value_aggregate == prev_value + sum_of_values(receipts@.take(i as int)),
                timestamp_ns_max == max_timestamp(receipts@.take(i as int), prev_ts),
            decreases n - i,
        {
            let receipt = &receipts[i].message;
            proof {
                assert(receipts@.take(i + 1).drop_last() =~= receipts@.take(i as int));
            }
            value_aggregate = match value_aggregate.checked_add(receipt.value) {
                Some(v) => v,
                None => {
                    proof {
                        assert(receipts@.take(i + 1).last() == receipts@[i as int]);
                        assert(sum_of_values(receipts@.take(i + 1)) == sum_of_values(
                            receipts@.take(i as int),
                        ) + receipts@[i as int].message.value);
                        lemma_sum_take_le(receipts@, i + 1);
                    }
                    return Err(Error::RAVAggregationOverflow);
                },
            };
            if receipt.timestamp_ns > timestamp_ns_max {
                timestamp_ns_max = receipt.timestamp_ns;
            }
            i = i + 1;
        }
        proof {
            assert(receipts@.take(n as int) =~= receipts@);
        }
        Ok(ReceiptAggregateVoucher { allocation_id, timestamp_ns_max, value_aggregate })
    }
}

/// Compares two vouchers field for field.
pub fn rav_eq(a: &ReceiptAggregateVoucher, b: &ReceiptAggregateVoucher) -> (r: bool)
    ensures
        r == (*a == *b),
{
    let fields_eq = crate::addr_map::address_eq(&a.allocation_id, &b.allocation_id)
        && a.timestamp_ns_max == b.timestamp_ns_max && a.value_aggregate == b.value_aggregate;
    proof {
        if fields_eq {
            assert(*a == ReceiptAggregateVoucher {
                allocation_id: b.allocation_id,
                timestamp_ns_max: b.timestamp_ns_max,
                value_aggregate: b.value_aggregate,
            });
            assert(*b == ReceiptAggregateVoucher {
                allocation_id: b.allocation_id,
                timestamp_ns_max: b.timestamp_ns_max,
                value_aggregate: b.value_aggregate,
            });
        }
    }
    fields_eq
}

/// Computes the keccak digest of a voucher's EIP-712 struct encoding.
pub fn rav_struct_hash(r: &ReceiptAggregateVoucher) -> (h: [u8; 32])
    ensures
        h@ == spec_rav_struct_hash(*r),
{
    let type_hash = keccak_of_str(
        "ReceiptAggregateVoucher(address allocation_id,uint64 timestamp_ns_max,uint128 value_aggregate)",
    );
    let mut encoded: Vec<u8> = Vec::new();
    push_bytes(&mut encoded, type_hash.as_slice());
    push_address_word(&mut encoded, &r.allocation_id);
    push_u64_word(&mut encoded, r.timestamp_ns_max);
    push_u128_word(&mut encoded, r.value_aggregate);
    proof {
        assert(encoded@ =~= rav_type_hash() + address_word(r.allocation_id@)
            + u64_word(r.timestamp_ns_max) + u128_word(r.value_aggregate));
    }
    crate::crypto::keccak256(&encoded)
}

/// Computes the EIP-712 signing digest of a voucher under a domain.
pub fn rav_digest(d: &Eip712Domain, r: &ReceiptAggregateVoucher) -> (h: [u8; 32])
    ensures
        h@ == spec_rav_digest(*d, *r),
{
    let struct_hash = rav_struct_hash(r);
    eip712_digest(d, &struct_hash)
}

impl EIP712SignedMessage<ReceiptAggregateVoucher> {
    /// Signs a voucher with the given private key: succeeds exactly when
    /// signing the voucher's digest under that key does, carrying the
    /// signature signing yields; recovery then returns the key's address.
    /// Fails with `InvalidSignature` otherwise.
    pub fn new(
        domain: &Eip712Domain,
        message: ReceiptAggregateVoucher,
        signing_key: &[u8; 32],
    ) -> (r: Result<SignedRAV, Error>)
        ensures
            (r is Ok) == (sign_outcome_of(spec_rav_digest(*domain, message), signing_key@)
                is Some),
            r matches Ok(signed) ==> {
                &&& signed.message == message
                &&& Some(signed.signature) == sign_outcome_of(
                    spec_rav_digest(*domain, message),
                    signing_key@,
                )
                &&& spec_rav_signer(*domain, signed) == wallet_of(signing_key@)
            },
            r matches Err(e) ==> e is InvalidSignature,
    {
        let digest = rav_digest(domain, &message);
        match sign_digest(&digest, signing_key) {
            Some(signature) => Ok(EIP712SignedMessage { message, signature }),
            None => Err(Error::InvalidSignature),
        }
    }

    /// Recovers the address that signed this voucher, or `InvalidSignature`
    /// exactly when recovery fails.
    pub fn recover_signer(&self, domain: &Eip712Domain) -> (r: Result<[u8; 20], Error>)
        ensures
            r matches Ok(addr) ==> spec_rav_signer(*domain, *self) == Some(addr@),
            r matches Err(e) ==> e is InvalidSignature && spec_rav_signer(*domain, *self) is None,
    {
        let digest = rav_digest(domain, &self.message);
        match recover_signer(&digest, &self.signature) {
            Some(addr) => Ok(addr),
            None => Err(Error::InvalidSignature),
        }
    }
}

} // verus!
