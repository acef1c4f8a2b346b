//! Receipts: the sender-issued record of a single micro-payment, and the
//! signed form that enters the manager.

use vstd::prelude::*;
use vstd::string::StringSliceAdditionalSpecFns;

use crate::crypto::{
    keccak_of, recover_of, recover_signer, sign_digest, sign_outcome_of, wallet_of,
};
use crate::eip712::{
    address_word, eip712_digest, keccak_of_str, push_bytes, push_address_word, push_u128_word,
    push_u64_word, spec_eip712_digest, u128_word, u64_word, EIP712SignedMessage, Eip712Domain,
};
use crate::Error;

verus! {

/// An immutable payment record: allocation, timestamp, a nonce making the
/// record unique when timestamps collide, and the payment value.
#[derive(Clone, Copy, Debug)]
pub struct Receipt {
    pub allocation_id: [u8; 20],
    pub timestamp_ns: u64,
    pub nonce: u64,
    pub value: u128,
}

/// A receipt together with the sender's signature over its EIP-712 digest.
pub type SignedReceipt = EIP712SignedMessage<Receipt>;

/// The EIP-712 type hash of `Receipt`.
pub open spec fn receipt_type_hash() -> Seq<u8> {
    keccak_of(
        "Receipt(address allocation_id,uint64 timestamp_ns,uint64 nonce,uint128 value)".spec_bytes(),
    )
}

/// The keccak digest of the EIP-712 encoding of a receipt's fields.
pub open spec fn spec_receipt_struct_hash(r: Receipt) -> Seq<u8> {
    keccak_of(
        receipt_type_hash() + address_word(r.allocation_id@) + u64_word(r.timestamp_ns)
            + u64_word(r.nonce) + u128_word(r.value),
    )
}

/// The EIP-712 signing digest of a receipt under a domain. This digest is
/// also the receipt's unique hash: its replay key.
pub open spec fn spec_receipt_digest(d: Eip712Domain, r: Receipt) -> Seq<u8> {
    spec_eip712_digest(d, spec_receipt_struct_hash(r))
}

/// The signer that signature recovery yields for a signed receipt.
pub open spec fn spec_receipt_signer(d: Eip712Domain, s: SignedReceipt) -> Option<Seq<u8>> {
    recover_of(spec_receipt_digest(d, s.message), s.signature.bytes())
}

impl Receipt {
    /// Builds a receipt for the given allocation and value, stamped with the
    /// current time and a random nonce. Fails only when the system clock
    /// reads before the Unix epoch.
    pub fn new(allocation_id: [u8; 20], value: u128) -> (r: Result<Receipt, Error>)
        ensures
            r matches Ok(receipt) ==> {
                &&& receipt.allocation_id == allocation_id
                &&& receipt.value == value
            },
            r matches Err(e) ==> e is InvalidSystemTime,
    {
        let timestamp_ns = crate::crypto::get_current_timestamp_u64_ns()?;
        let nonce = crate::crypto::random_nonce();
        Ok(Receipt { allocation_id, timestamp_ns, nonce, value })
    }
}

/// Computes the keccak digest of a receipt's EIP-712 struct encoding.
pub fn receipt_struct_hash(r: &Receipt) -> (h: [u8; 32])
    ensures
        h@ == spec_receipt_struct_hash(*r),
{
    let type_hash = keccak_of_str(
        "Receipt(address allocation_id,uint64 timestamp_ns,uint64 nonce,uint128 value)",
    );
    let mut encoded: Vec<u8> = Vec::new();
    push_bytes(&mut encoded, type_hash.as_slice());
    push_address_word(&mut encoded, &r.allocation_id);
    push_u64_word(&mut encoded, r.timestamp_ns);
    push_u64_word(&mut encoded, r.nonce);
    push_u128_word(&mut encoded, r.value);
    proof {
        assert(encoded@ =~= receipt_type_hash() + address_word(r.allocation_id@)
            + u64_word(r.timestamp_ns) + u64_word(r.nonce) + u128_word(r.value));
    }
    crate::crypto::keccak256(&encoded)
}

/// Computes the EIP-712 signing digest of a receipt under a domain.
pub fn receipt_digest(d: &Eip712Domain, r: &Receipt) -> (h: [u8; 32])
    ensures
        h@ == spec_receipt_digest(*d, *r),
{
    let struct_hash = receipt_struct_hash(r);
    eip712_digest(d, &struct_hash)
}

impl EIP712SignedMessage<Receipt> {
    /// Signs a receipt with the given private key: succeeds exactly when
    /// signing the receipt's digest under that key does, carrying the
    /// signature signing yields; recovery then returns the key's address.
    /// Fails with `InvalidSignature` otherwise.
    pub fn new(domain: &Eip712Domain, message: Receipt, signing_key: &[u8; 32]) -> (r: Result<
        SignedReceipt,
        Error,
    >)
        ensures
            (r is Ok) == (sign_outcome_of(spec_receipt_digest(*domain, message), signing_key@)
                is Some),
            r matches Ok(signed) ==> {
                &&& signed.message == message
                &&& Some(signed.signature) == sign_outcome_of(
                    spec_receipt_digest(*domain, message),
                    signing_key@,
                )
                &&& spec_receipt_signer(*domain, signed) == wallet_of(signing_key@)
            },
            r matches Err(e) ==> e is InvalidSignature,
    {
        let digest = receipt_digest(domain, &message);
        match sign_digest(&digest, signing_key) {
            Some(signature) => Ok(EIP712SignedMessage { message, signature }),
            None => Err(Error::InvalidSignature),
        }
    }

    /// Recovers the address that signed this receipt, or `InvalidSignature`
    /// exactly when recovery fails.
    pub fn recover_signer(&self, domain: &Eip712Domain) -> (r: Result<[u8; 20], Error>)
        ensures
            r matches Ok(addr) ==> spec_receipt_signer(*domain, *self) == Some(addr@),
            r matches Err(e) ==> e is InvalidSignature && spec_receipt_signer(*domain, *self) is None,
    {
        let digest = receipt_digest(domain, &self.message);
        match recover_signer(&digest, &self.signature) {
            Some(addr) => Ok(addr),
            None => Err(Error::InvalidSignature),
        }
    }

    /// The receipt's unique hash: its domain-separated EIP-712 digest,
    /// stable across runs, used as the replay key.
    pub fn unique_hash(&self, domain: &Eip712Domain) -> (h: [u8; 32])
        ensures
            h@ == spec_receipt_digest(*domain, self.message),
    {
        receipt_digest(domain, &self.message)
    }
}

} // verus!
