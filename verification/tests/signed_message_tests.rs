//! The signed-message primitive: signing, recovery, unique hashes and the
//! aggregation law on its own.

use tap_core::crypto::{wallet_address, Signature};
use tap_core::eip712::{domain_separator, tap_eip712_domain, EIP712SignedMessage};
use tap_core::rav::ReceiptAggregateVoucher;
use tap_core::receipt::{receipt_digest, Receipt};
use tap_core::Error;

const SIGNER_KEY: [u8; 32] = [5u8; 32];

fn message_receipt(nonce: u64, value: u128) -> Receipt {
    Receipt { allocation_id: [0xab; 20], timestamp_ns: 1_000_000_000, nonce, value }
}

#[test]
fn recover_of_sign_yields_signer_address() {
    let domain = tap_eip712_domain(1, [0x11; 20]);
    let signed =
        EIP712SignedMessage::<Receipt>::new(&domain, message_receipt(1, 20), &SIGNER_KEY).unwrap();
    let recovered = signed.recover_signer(&domain).unwrap();
    assert_eq!(recovered, wallet_address(&SIGNER_KEY).unwrap());
}

#[test]
fn recovery_changes_with_the_domain() {
    let domain = tap_eip712_domain(1, [0x11; 20]);
    let other_domain = tap_eip712_domain(2, [0x11; 20]);
    let signed =
        EIP712SignedMessage::<Receipt>::new(&domain, message_receipt(1, 20), &SIGNER_KEY).unwrap();
    // verifying against another domain must not yield the signer
    let recovered = signed.recover_signer(&other_domain);
    match recovered {
        Ok(address) => assert_ne!(address, wallet_address(&SIGNER_KEY).unwrap()),
        Err(e) => assert!(matches!(e, Error::InvalidSignature)),
    }
}

#[test]
fn tampered_message_does_not_recover_to_signer() {
    let domain = tap_eip712_domain(1, [0x11; 20]);
    let signed =
        EIP712SignedMessage::<Receipt>::new(&domain, message_receipt(1, 20), &SIGNER_KEY).unwrap();
    let tampered = EIP712SignedMessage::<Receipt> {
        message: message_receipt(1, 21),
        signature: signed.signature,
    };
    match tampered.recover_signer(&domain) {
        Ok(address) => assert_ne!(address, wallet_address(&SIGNER_KEY).unwrap()),
        Err(e) => assert!(matches!(e, Error::InvalidSignature)),
    }
}

#[test]
fn unique_hashes_distinguish_receipts() {
    let domain = tap_eip712_domain(1, [0x11; 20]);
    let first =
        EIP712SignedMessage::<Receipt>::new(&domain, message_receipt(1, 20), &SIGNER_KEY).unwrap();
    let second =
        EIP712SignedMessage::<Receipt>::new(&domain, message_receipt(2, 20), &SIGNER_KEY).unwrap();
    assert_ne!(first.unique_hash(&domain), second.unique_hash(&domain));
    // the hash depends on the message alone, not the signature
    let rewrapped = EIP712SignedMessage::<Receipt> {
        message: message_receipt(1, 20),
        signature: Signature { r: [0; 32], s: [0; 32], v: 27 },
    };
    assert_eq!(first.unique_hash(&domain), rewrapped.unique_hash(&domain));
}

#[test]
fn digests_differ_between_domains_and_messages() {
    let domain = tap_eip712_domain(1, [0x11; 20]);
    let other_domain = tap_eip712_domain(5, [0x22; 20]);
    assert_ne!(domain_separator(&domain), domain_separator(&other_domain));
    let r = message_receipt(1, 20);
    assert_ne!(receipt_digest(&domain, &r), receipt_digest(&other_domain, &r));
}

#[test]
fn invalid_signing_key_is_rejected() {
    let domain = tap_eip712_domain(1, [0x11; 20]);
    // zero is not a valid secp256k1 scalar
    let result = EIP712SignedMessage::<Receipt>::new(&domain, message_receipt(1, 20), &[0u8; 32]);
    assert!(matches!(result, Err(Error::InvalidSignature)));
    assert!(wallet_address(&[0u8; 32]).is_none());
}

#[test]
fn aggregation_folds_values_and_timestamps() {
    let domain = tap_eip712_domain(1, [0x11; 20]);
    let alloc = [0xab; 20];
    let receipts = vec![
        EIP712SignedMessage::<Receipt>::new(
            &domain,
            Receipt { allocation_id: alloc, timestamp_ns: 10, nonce: 1, value: 3 },
            &SIGNER_KEY,
        )
        .unwrap(),
        EIP712SignedMessage::<Receipt>::new(
            &domain,
            Receipt { allocation_id: alloc, timestamp_ns: 30, nonce: 2, value: 4 },
            &SIGNER_KEY,
        )
        .unwrap(),
        EIP712SignedMessage::<Receipt>::new(
            &domain,
            Receipt { allocation_id: alloc, timestamp_ns: 20, nonce: 3, value: 5 },
            &SIGNER_KEY,
        )
        .unwrap(),
    ];
    let rav = ReceiptAggregateVoucher::aggregate_receipts(alloc, &receipts, None).unwrap();
    assert_eq!(rav.allocation_id, alloc);
    assert_eq!(rav.value_aggregate, 12);
    assert_eq!(rav.timestamp_ns_max, 30);

    let signed_rav =
        EIP712SignedMessage::<ReceiptAggregateVoucher>::new(&domain, rav, &SIGNER_KEY).unwrap();
    let extended = ReceiptAggregateVoucher::aggregate_receipts(
        alloc,
        &vec![
            EIP712SignedMessage::<Receipt>::new(
                &domain,
                Receipt { allocation_id: alloc, timestamp_ns: 40, nonce: 4, value: 8 },
                &SIGNER_KEY,
            )
            .unwrap(),
        ],
        Some(&signed_rav),
    )
    .unwrap();
    assert_eq!(extended.value_aggregate, 20);
    assert_eq!(extended.timestamp_ns_max, 40);
}

#[test]
fn aggregation_overflow_is_reported() {
    let domain = tap_eip712_domain(1, [0x11; 20]);
    let alloc = [0xab; 20];
    let receipts = vec![
        EIP712SignedMessage::<Receipt>::new(
            &domain,
            Receipt { allocation_id: alloc, timestamp_ns: 10, nonce: 1, value: u128::MAX },
            &SIGNER_KEY,
        )
        .unwrap(),
        EIP712SignedMessage::<Receipt>::new(
            &domain,
            Receipt { allocation_id: alloc, timestamp_ns: 20, nonce: 2, value: 1 },
            &SIGNER_KEY,
        )
        .unwrap(),
    ];
    let result = ReceiptAggregateVoucher::aggregate_receipts(alloc, &receipts, None);
    assert!(matches!(result, Err(Error::RAVAggregationOverflow)));
}

#[test]
fn clock_reads_after_the_epoch() {
    let now = tap_core::crypto::get_current_timestamp_u64_ns().unwrap();
    // nanoseconds since the Unix epoch: well past the year 2020
    assert!(now > 1_600_000_000_000_000_000);
}

#[test]
fn fresh_receipts_carry_allocation_and_value() {
    let receipt = Receipt::new([0xab; 20], 77).unwrap();
    assert_eq!(receipt.allocation_id, [0xab; 20]);
    assert_eq!(receipt.value, 77);
    assert!(receipt.timestamp_ns > 0);
}
