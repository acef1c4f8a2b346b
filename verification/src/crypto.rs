//! Trusted boundary to the secp256k1 / keccak primitives of the `ethers`
//! crates, to the system clock and to the random-number generator.
//!
//! Everything else in this crate is verified against the contracts stated
//! here; the bodies below only convert between this crate's plain value
//! types and the outside crates' types.

use vstd::prelude::*;

use crate::Error;

verus! {

/// A 65-byte secp256k1 signature in `(r, s, v)` layout.
#[derive(Clone, Copy, Debug)]
pub struct Signature {
    pub r: [u8; 32],
    pub s: [u8; 32],
    pub v: u8,
}

impl Signature {
    /// The signature as the mathematical sequence of its 65 bytes.
    pub open spec fn bytes(self) -> Seq<u8> {
        self.r@ + self.s@ + seq![self.v]
    }
}

/// The keccak-256 digest of a byte sequence, named but not written out:
/// the implementation is trusted, never restated.
pub uninterp spec fn keccak_of(data: Seq<u8>) -> Seq<u8>;

/// What deterministic (RFC 6979) secp256k1 signing yields for a 32-byte
/// digest under a given 32-byte private key: the signature, or `None` when
/// the key bytes are not a valid scalar.
pub uninterp spec fn sign_outcome_of(digest: Seq<u8>, key: Seq<u8>) -> Option<Signature>;

/// The address that signature recovery yields for a digest and a signature,
/// or `None` when recovery fails.
pub uninterp spec fn recover_of(digest: Seq<u8>, sig: Seq<u8>) -> Option<Seq<u8>>;

/// The address belonging to a 32-byte private key, or `None` when the key
/// bytes are not a valid scalar.
pub uninterp spec fn wallet_of(key: Seq<u8>) -> Option<Seq<u8>>;

/// Relies on `ethers_core::utils::keccak256`: a 32-byte digest that is a
/// function of the input bytes alone.
#[verifier::external_body]
pub(crate) fn keccak256(data: &Vec<u8>) -> (r: [u8; 32])
    ensures
        r@ == keccak_of(data@),
{
    ethers_core::utils::keccak256(data)
}

/// Relies on `ethers_signers::Wallet::<SigningKey>::from_bytes` and
/// `Wallet::sign_hash`: deterministic ECDSA over secp256k1, a function of
/// the digest and key bytes alone, with the recovery id stored as `v = 27`
/// or `28`, so that `Signature::recover` on the same digest yields the
/// wallet's address (`keccak(pubkey)[12..]`, as `secret_key_to_address`
/// computes it). Returns `None` when the key bytes are not a valid scalar.
#[verifier::external_body]
pub(crate) fn sign_digest(digest: &[u8; 32], key: &[u8; 32]) -> (r: Option<Signature>)
    ensures
        r == sign_outcome_of(digest@, key@),
        r matches Some(sig) ==> {
            &&& recover_of(digest@, sig.bytes()) == wallet_of(key@)
            &&& wallet_of(key@) is Some
            &&& sig.bytes().len() == 65
        },
{
    let wallet = ethers_signers::Wallet::from_bytes(key).ok()?;
    let signature = wallet.sign_hash(ethers_core::types::H256(*digest)).ok()?;
    let mut r_bytes = [0u8; 32];
    let mut s_bytes = [0u8; 32];
    signature.r.to_big_endian(&mut r_bytes);
    signature.s.to_big_endian(&mut s_bytes);
    Some(Signature { r: r_bytes, s: s_bytes, v: signature.v as u8 })
}

/// Relies on `ethers_core::types::Signature::recover` on a prehashed
/// message: recovery is a function of the digest and signature bytes alone.
#[verifier::external_body]
pub(crate) fn recover_signer(digest: &[u8; 32], sig: &Signature) -> (r: Option<[u8; 20]>)
    ensures
        r matches Some(addr) ==> recover_of(digest@, sig.bytes()) == Some(addr@),
        r is None ==> recover_of(digest@, sig.bytes()) is None,
{
    let signature = ethers_core::types::Signature {
        r: ethers_core::types::U256::from_big_endian(&sig.r),
        s: ethers_core::types::U256::from_big_endian(&sig.s),
        v: sig.v as u64,
    };
    let message = ethers_core::types::RecoveryMessage::Hash(ethers_core::types::H256(*digest));
    match signature.recover(message) {
        Ok(address) => Some(address.0),
        Err(_) => None,
    }
}

/// Relies on `ethers_signers::Wallet::from_bytes` and the `Signer` trait's
/// `address`: the address derived from a private key, a function of the key
/// bytes alone. Returns `None` exactly when the key bytes are not a valid
/// scalar.
#[verifier::external_body]
pub fn wallet_address(key: &[u8; 32]) -> (r: Option<[u8; 20]>)
    ensures
        r matches Some(addr) ==> wallet_of(key@) == Some(addr@),
        r is None ==> wallet_of(key@) is None,
{
    let wallet = ethers_signers::Wallet::from_bytes(key).ok()?;
    Some(ethers_signers::Signer::address(&wallet).0)
}

/// Relies on `std::time::SystemTime::now`: the current system time in
/// nanoseconds since the Unix epoch, or `InvalidSystemTime` when the clock
/// reads before the epoch. Nothing can be promised of the value itself.
#[verifier::external_body]
pub fn get_current_timestamp_u64_ns() -> (r: Result<u64, Error>)
    ensures
        r matches Err(e) ==> e is InvalidSystemTime,
{
    Ok(std::time::SystemTime::now()
        .duration_since(std::time::SystemTime::UNIX_EPOCH)
        .map_err(|_| Error::InvalidSystemTime)?
        .as_nanos() as u64)
}

/// Relies on `rand::random`: a fresh random value; nothing can be promised
/// of it.
#[verifier::external_body]
pub(crate) fn random_nonce() -> (r: u64)
{
    rand::random::<u64>()
}

} // verus!
