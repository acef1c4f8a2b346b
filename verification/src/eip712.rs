//! EIP-712 typed-data encoding: 32-byte word encoding of the fixed field
//! types, the domain separator, and the generic signed-message wrapper.
//!
//! The byte layout is computed by verified code; only the keccak digest at
//! the end of each hashing step is an outside call (see `crypto`).

use vstd::prelude::*;

use crate::crypto::{keccak256, keccak_of, Signature};
use vstd::string::StringSliceAdditionalSpecFns;

verus! {

/// The EIP-712 signing domain `(name, version, chainId, verifyingContract)`.
/// `name` and `version` are kept as their UTF-8 bytes.
#[derive(Clone, Debug)]
pub struct Eip712Domain {
    pub name: Vec<u8>,
    pub version: Vec<u8>,
    pub chain_id: u64,
    pub verifying_contract: [u8; 20],
}

/// A message of type `T` together with the signature over its EIP-712 digest.
#[derive(Clone, Copy, Debug)]
pub struct EIP712SignedMessage<T> {
    pub message: T,
    pub signature: Signature,
}

/// `n` zero bytes.
pub open spec fn zero_bytes(n: nat) -> Seq<u8> {
    Seq::new(n, |i: int| 0u8)
}

/// The 8 big-endian bytes of a `u64`.
pub open spec fn u64_be(x: u64) -> Seq<u8> {
    seq![
        (x >> 56) as u8,
        (x >> 48) as u8,
        (x >> 40) as u8,
        (x >> 32) as u8,
        (x >> 24) as u8,
        (x >> 16) as u8,
        (x >> 8) as u8,
        x as u8,
    ]
}

/// The 16 big-endian bytes of a `u128`.
pub open spec fn u128_be(x: u128) -> Seq<u8> {
    seq![
        (x >> 120) as u8,
        (x >> 112) as u8,
        (x >> 104) as u8,
        (x >> 96) as u8,
        (x >> 88) as u8,
        (x >> 80) as u8,
        (x >> 72) as u8,
        (x >> 64) as u8,
        (x >> 56) as u8,
        (x >> 48) as u8,
        (x >> 40) as u8,
        (x >> 32) as u8,
        (x >> 24) as u8,
        (x >> 16) as u8,
        (x >> 8) as u8,
        x as u8,
    ]
}

/// A `u64` value as a right-aligned 32-byte word.
pub open spec fn u64_word(x: u64) -> Seq<u8> {
    zero_bytes(24) + u64_be(x)
}

/// A `u128` value as a right-aligned 32-byte word.
pub open spec fn u128_word(x: u128) -> Seq<u8> {
    zero_bytes(16) + u128_be(x)
}

/// A 20-byte address as a right-aligned 32-byte word.
pub open spec fn address_word(a: Seq<u8>) -> Seq<u8> {
    zero_bytes(12) + a
}

/// The type hash of the EIP-712 domain struct itself.
pub open spec fn domain_type_hash() -> Seq<u8> {
    keccak_of(
        "EIP712Domain(string name,string version,uint256 chainId,address verifyingContract)".spec_bytes(),
    )
}

/// The domain separator: the keccak digest of the encoded domain struct.
pub open spec fn spec_domain_separator(d: Eip712Domain) -> Seq<u8> {
    keccak_of(
        domain_type_hash() + keccak_of(d.name@) + keccak_of(d.version@) + u64_word(d.chain_id)
            + address_word(d.verifying_contract@),
    )
}

/// The EIP-712 signing digest: `keccak(0x19 ‖ 0x01 ‖ domain separator ‖ struct hash)`.
pub open spec fn spec_eip712_digest(d: Eip712Domain, struct_hash: Seq<u8>) -> Seq<u8> {
    keccak_of(seq![0x19u8, 0x01u8] + spec_domain_separator(d) + struct_hash)
}

/// Copies a string's UTF-8 bytes into a fresh vector.
pub fn bytes_of_str(s: &str) -> (r: Vec<u8>)
    ensures
        r@ == s.spec_bytes(),
{
    let bytes = s.as_bytes();
    let mut r: Vec<u8> = Vec::new();
    let n = bytes.len();
    let mut i: usize = 0;
    while i < n
        invariant
            n == bytes@.len(),
            i <= n,
            r@ == bytes@.take(i as int),
        decreases n - i,
    {
        r.push(bytes[i]);
        i = i + 1;
        proof {
            assert(r@ =~= bytes@.take(i as int));
        }
    }
    proof {
        assert(bytes@.take(n as int) =~= bytes@);
    }
    r
}

/// The TAP signing domain: name `TAP`, version `1`, and the given chain id
/// and verifying contract.
pub fn tap_eip712_domain(chain_id: u64, verifying_contract: [u8; 20]) -> (d: Eip712Domain)
    ensures
        d.name@ == "TAP".spec_bytes(),
        d.version@ == "1".spec_bytes(),
        d.chain_id == chain_id,
        d.verifying_contract == verifying_contract,
{
    Eip712Domain {
        name: bytes_of_str("TAP"),
        version: bytes_of_str("1"),
        chain_id,
        verifying_contract,
    }
}

/// Appends `n` zero bytes.
pub fn push_zero_bytes(out: &mut Vec<u8>, n: usize)
    ensures
        final(out)@ == old(out)@ + zero_bytes(n as nat),
{
    let mut i: usize = 0;
    while i < n
        invariant
            i <= n,
            out@ == old(out)@ + zero_bytes(i as nat),
        decreases n - i,
    {
        out.push(0u8);
        i = i + 1;
        proof {
            assert(out@ =~= old(out)@ + zero_bytes(i as nat));
        }
    }
}

/// Appends a `u64` as a right-aligned 32-byte word.
pub fn push_u64_word(out: &mut Vec<u8>, x: u64)
    ensures
        final(out)@ == old(out)@ + u64_word(x),
{
    push_zero_bytes(out, 24);
    out.push((x >> 56) as u8);
    out.push((x >> 48) as u8);
    out.push((x >> 40) as u8);
    out.push((x >> 32) as u8);
    out.push((x >> 24) as u8);
    out.push((x >> 16) as u8);
    out.push((x >> 8) as u8);
    out.push(x as u8);
    proof {
        assert(out@ =~= old(out)@ + u64_word(x));
    }
}

/// Appends a `u128` as a right-aligned 32-byte word.
pub fn push_u128_word(out: &mut Vec<u8>, x: u128)
    ensures
        final(out)@ == old(out)@ + u128_word(x),
{
    push_zero_bytes(out, 16);
    out.push((x >> 120) as u8);
    out.push((x >> 112) as u8);
    out.push((x >> 104) as u8);
    out.push((x >> 96) as u8);
    out.push((x >> 88) as u8);
    out.push((x >> 80) as u8);
    out.push((x >> 72) as u8);
    out.push((x >> 64) as u8);
    out.push((x >> 56) as u8);
    out.push((x >> 48) as u8);
    out.push((x >> 40) as u8);
    out.push((x >> 32) as u8);
    out.push((x >> 24) as u8);
    out.push((x >> 16) as u8);
    out.push((x >> 8) as u8);
    out.push(x as u8);
    proof {
        assert(out@ =~= old(out)@ + u128_word(x));
    }
}

/// Appends a 20-byte address as a right-aligned 32-byte word.
pub fn push_address_word(out: &mut Vec<u8>, a: &[u8; 20])
    ensures
        final(out)@ == old(out)@ + address_word(a@),
{
    push_zero_bytes(out, 12);
    push_bytes(out, a.as_slice());
    proof {
        assert(out@ =~= old(out)@ + address_word(a@));
    }
}

/// Appends a byte slice unchanged.
pub fn push_bytes(out: &mut Vec<u8>, bytes: &[u8])
    ensures
        final(out)@ == old(out)@ + bytes@,
{
    let n = bytes.len();
    let mut i: usize = 0;
    while i < n
        invariant
            n == bytes@.len(),
            i <= n,
            out@ == old(out)@ + bytes@.take(i as int),
        decreases n - i,
    {
        out.push(bytes[i]);
        i = i + 1;
        proof {
            assert(out@ =~= old(out)@ + bytes@.take(i as int));
        }
    }
    proof {
        assert(old(out)@ + bytes@.take(n as int) =~= old(out)@ + bytes@);
    }
}

/// Computes the keccak digest of a string's UTF-8 bytes.
pub(crate) fn keccak_of_str(s: &str) -> (r: [u8; 32])
    ensures
        r@ == keccak_of(s.spec_bytes()),
{
    let bytes = bytes_of_str(s);
    keccak256(&bytes)
}

/// Computes the domain separator of a signing domain.
pub fn domain_separator(d: &Eip712Domain) -> (r: [u8; 32])
    ensures
        r@ == spec_domain_separator(*d),
{
    let type_hash = keccak_of_str(
        "EIP712Domain(string name,string version,uint256 chainId,address verifyingContract)",
    );
    let name_hash = keccak256(&d.name);
    let version_hash = keccak256(&d.version);
    let mut encoded: Vec<u8> = Vec::new();
    push_bytes(&mut encoded, type_hash.as_slice());
    push_bytes(&mut encoded, name_hash.as_slice());
    push_bytes(&mut encoded, version_hash.as_slice());
    push_u64_word(&mut encoded, d.chain_id);
    push_address_word(&mut encoded, &d.verifying_contract);
    proof {
        assert(encoded@ =~= domain_type_hash() + keccak_of(d.name@) + keccak_of(d.version@)
            + u64_word(d.chain_id) + address_word(d.verifying_contract@));
    }
    keccak256(&encoded)
}

/// Computes the EIP-712 signing digest for a struct hash under a domain.
pub fn eip712_digest(d: &Eip712Domain, struct_hash: &[u8; 32]) -> (r: [u8; 32])
    ensures
        r@ == spec_eip712_digest(*d, struct_hash@),
{
    let separator = domain_separator(d);
    let mut encoded: Vec<u8> = Vec::new();
    encoded.push(0x19u8);
    encoded.push(0x01u8);
    push_bytes(&mut encoded, separator.as_slice());
    push_bytes(&mut encoded, struct_hash.as_slice());
    proof {
        assert(encoded@ =~= seq![0x19u8, 0x01u8] + spec_domain_separator(*d) + struct_hash@);
    }
    keccak256(&encoded)
}

} // verus!
