//! End-to-end scenarios for the receipt manager: admission, escrow
//! reservation, replay rejection, RAV round trips, staleness and tampering.

use tap_core::checks::ReceiptCheck;
use tap_core::crypto::wallet_address;
use tap_core::eip712::{tap_eip712_domain, EIP712SignedMessage, Eip712Domain};
use tap_core::manager::Manager;
use tap_core::rav::ReceiptAggregateVoucher;
use tap_core::receipt::{Receipt, SignedReceipt};
use tap_core::receipt_storage::RecordState;
use tap_core::Error;

const SENDER_KEY: [u8; 32] = [1u8; 32];
const AGGREGATOR_KEY: [u8; 32] = [2u8; 32];
const ALLOCATION: [u8; 20] = [0xab; 20];

fn test_domain() -> Eip712Domain {
    tap_eip712_domain(1, [0x11; 20])
}

fn all_checks() -> Vec<ReceiptCheck> {
    vec![
        ReceiptCheck::CheckAllocationId,
        ReceiptCheck::CheckSignature,
        ReceiptCheck::CheckTimestamp,
        ReceiptCheck::CheckUnique,
        ReceiptCheck::CheckValue,
    ]
}

fn test_manager(escrow: u128) -> Manager {
    let sender = wallet_address(&SENDER_KEY).unwrap();
    let aggregator = wallet_address(&AGGREGATOR_KEY).unwrap();
    let mut manager = Manager::new(
        test_domain(),
        vec![ALLOCATION],
        vec![sender],
        vec![aggregator],
        0,
    );
    manager.increase_escrow(sender, escrow).unwrap();
    manager
}

fn sign_receipt(receipt: Receipt) -> SignedReceipt {
    EIP712SignedMessage::<Receipt>::new(&test_domain(), receipt, &SENDER_KEY).unwrap()
}

fn standard_receipt() -> Receipt {
    Receipt {
        allocation_id: ALLOCATION,
        timestamp_ns: 1_000_000_000,
        nonce: 1,
        value: 20,
    }
}

#[test]
fn single_receipt_happy_path() {
    let mut manager = test_manager(520);
    manager.set_appraisal(0, 20);
    let signed = sign_receipt(standard_receipt());
    let hash = signed.unique_hash(manager.domain());

    let result = manager.verify_and_store_receipt(signed, 0, &all_checks());
    assert!(result.is_ok());

    let sender = wallet_address(&SENDER_KEY).unwrap();
    assert_eq!(manager.escrow_balance(&sender), 500);
    assert!(matches!(manager.receipt_state(&hash), Some(RecordState::Reserved)));
}

#[test]
fn under_escrowed_receipt_is_rejected() {
    let mut manager = test_manager(10);
    manager.set_appraisal(0, 20);
    let signed = sign_receipt(standard_receipt());
    let hash = signed.unique_hash(manager.domain());

    let result = manager.verify_and_store_receipt(signed, 0, &all_checks());
    assert_eq!(result, Err(Error::InsufficientEscrow));

    let sender = wallet_address(&SENDER_KEY).unwrap();
    assert_eq!(manager.escrow_balance(&sender), 10);
    assert!(matches!(
        manager.receipt_state(&hash),
        Some(RecordState::Failed { error: Error::InsufficientEscrow })
    ));
}

#[test]
fn replayed_receipt_is_rejected_once_reserved() {
    let mut manager = test_manager(520);
    manager.set_appraisal(0, 20);
    let signed = sign_receipt(standard_receipt());
    let hash = signed.unique_hash(manager.domain());

    assert!(manager.verify_and_store_receipt(signed, 0, &all_checks()).is_ok());
    let second = manager.verify_and_store_receipt(signed, 0, &all_checks());
    assert_eq!(second, Err(Error::NonUniqueReceipt));

    let sender = wallet_address(&SENDER_KEY).unwrap();
    assert_eq!(manager.escrow_balance(&sender), 500);
    // the reserved record stands; the replay did not displace it
    assert!(matches!(manager.receipt_state(&hash), Some(RecordState::Reserved)));
}

#[test]
fn rav_round_trip() {
    let mut manager = test_manager(520);
    manager.set_appraisal(0, 20);
    let signed = sign_receipt(standard_receipt());
    let hash = signed.unique_hash(manager.domain());
    assert!(manager.verify_and_store_receipt(signed, 0, &all_checks()).is_ok());

    let request = manager.create_rav_request(0).unwrap();
    assert_eq!(request.valid_receipts.len(), 1);
    assert!(request.previous_rav.is_none());
    assert_eq!(request.invalid_receipts.len(), 0);
    assert_eq!(request.expected_rav.allocation_id, ALLOCATION);
    assert_eq!(request.expected_rav.timestamp_ns_max, 1_000_000_000);
    assert_eq!(request.expected_rav.value_aggregate, 20);

    let signed_rav = EIP712SignedMessage::<ReceiptAggregateVoucher>::new(
        manager.domain(),
        request.expected_rav,
        &AGGREGATOR_KEY,
    )
    .unwrap();
    assert!(manager.verify_and_store_rav(request.expected_rav, signed_rav).is_ok());

    assert_eq!(manager.watermark(), 1_000_000_000);
    assert!(manager.receipt_state(&hash).is_none());
    let latest = manager.latest_rav(&ALLOCATION).unwrap();
    assert_eq!(latest.message.value_aggregate, 20);
    assert_eq!(latest.message.timestamp_ns_max, 1_000_000_000);
    // escrow is not re-credited: the voucher now encumbers the value
    let sender = wallet_address(&SENDER_KEY).unwrap();
    assert_eq!(manager.escrow_balance(&sender), 500);
}

#[test]
fn stale_receipt_after_rav_is_rejected() {
    let mut manager = test_manager(520);
    manager.set_appraisal(0, 20);
    let signed = sign_receipt(standard_receipt());
    assert!(manager.verify_and_store_receipt(signed, 0, &all_checks()).is_ok());
    let request = manager.create_rav_request(0).unwrap();
    let signed_rav = EIP712SignedMessage::<ReceiptAggregateVoucher>::new(
        manager.domain(),
        request.expected_rav,
        &AGGREGATOR_KEY,
    )
    .unwrap();
    assert!(manager.verify_and_store_rav(request.expected_rav, signed_rav).is_ok());

    manager.set_appraisal(1, 20);
    let stale = sign_receipt(Receipt {
        allocation_id: ALLOCATION,
        timestamp_ns: 999_999_999,
        nonce: 2,
        value: 20,
    });
    let result = manager.verify_and_store_receipt(stale, 1, &all_checks());
    assert_eq!(result, Err(Error::InvalidTimestamp));
}

#[test]
fn tampered_rav_is_rejected() {
    let mut manager = test_manager(520);
    manager.set_appraisal(0, 20);
    let signed = sign_receipt(standard_receipt());
    let hash = signed.unique_hash(manager.domain());
    assert!(manager.verify_and_store_receipt(signed, 0, &all_checks()).is_ok());
    let request = manager.create_rav_request(0).unwrap();

    // the aggregator returns a voucher with an inflated value
    let tampered = ReceiptAggregateVoucher {
        allocation_id: ALLOCATION,
        timestamp_ns_max: request.expected_rav.timestamp_ns_max,
        value_aggregate: 21,
    };
    let signed_rav =
        EIP712SignedMessage::<ReceiptAggregateVoucher>::new(manager.domain(), tampered, &AGGREGATOR_KEY)
            .unwrap();
    let result = manager.verify_and_store_rav(request.expected_rav, signed_rav);
    assert_eq!(result, Err(Error::InvalidReceivedRAV));

    assert_eq!(manager.watermark(), 0);
    assert!(matches!(manager.receipt_state(&hash), Some(RecordState::Reserved)));
}

#[test]
fn consistent_tampered_pair_is_rejected_by_reconciliation() {
    // the caller's expected voucher and the aggregator's voucher agree with
    // each other but not with the stored receipts: reconciliation refuses
    let mut manager = test_manager(520);
    manager.set_appraisal(0, 20);
    let signed = sign_receipt(standard_receipt());
    assert!(manager.verify_and_store_receipt(signed, 0, &all_checks()).is_ok());
    let inflated = ReceiptAggregateVoucher {
        allocation_id: ALLOCATION,
        timestamp_ns_max: 1_000_000_000,
        value_aggregate: 21,
    };
    let signed_rav =
        EIP712SignedMessage::<ReceiptAggregateVoucher>::new(manager.domain(), inflated, &AGGREGATOR_KEY)
            .unwrap();
    assert_eq!(manager.verify_and_store_rav(inflated, signed_rav), Err(Error::InvalidReceivedRAV));
    assert_eq!(manager.watermark(), 0);
}

#[test]
fn rav_signed_by_unauthorized_key_is_rejected() {
    let mut manager = test_manager(520);
    manager.set_appraisal(0, 20);
    let signed = sign_receipt(standard_receipt());
    assert!(manager.verify_and_store_receipt(signed, 0, &all_checks()).is_ok());
    let request = manager.create_rav_request(0).unwrap();

    // signed by the sender's key, which is not in the aggregator allow-list
    let signed_rav = EIP712SignedMessage::<ReceiptAggregateVoucher>::new(
        manager.domain(),
        request.expected_rav,
        &SENDER_KEY,
    )
    .unwrap();
    let result = manager.verify_and_store_rav(request.expected_rav, signed_rav);
    assert_eq!(result, Err(Error::AggregatorSignerNotAuthorized));
}

#[test]
fn two_rav_rounds_accumulate_all_absorbed_values() {
    let mut manager = test_manager(520);
    manager.set_appraisal(0, 20);
    manager.set_appraisal(1, 30);
    let first = sign_receipt(standard_receipt());
    assert!(manager.verify_and_store_receipt(first, 0, &all_checks()).is_ok());
    let request = manager.create_rav_request(0).unwrap();
    let signed_rav = EIP712SignedMessage::<ReceiptAggregateVoucher>::new(
        manager.domain(),
        request.expected_rav,
        &AGGREGATOR_KEY,
    )
    .unwrap();
    assert!(manager.verify_and_store_rav(request.expected_rav, signed_rav).is_ok());

    let second = sign_receipt(Receipt {
        allocation_id: ALLOCATION,
        timestamp_ns: 2_000_000_000,
        nonce: 2,
        value: 30,
    });
    assert!(manager.verify_and_store_receipt(second, 1, &all_checks()).is_ok());
    let request2 = manager.create_rav_request(0).unwrap();
    assert_eq!(request2.previous_rav.as_ref().unwrap().message.value_aggregate, 20);
    // the final voucher aggregates every absorbed value and the newest timestamp
    assert_eq!(request2.expected_rav.value_aggregate, 50);
    assert_eq!(request2.expected_rav.timestamp_ns_max, 2_000_000_000);
    let signed_rav2 = EIP712SignedMessage::<ReceiptAggregateVoucher>::new(
        manager.domain(),
        request2.expected_rav,
        &AGGREGATOR_KEY,
    )
    .unwrap();
    assert!(manager.verify_and_store_rav(request2.expected_rav, signed_rav2).is_ok());
    assert_eq!(manager.latest_rav(&ALLOCATION).unwrap().message.value_aggregate, 50);
    assert_eq!(manager.watermark(), 2_000_000_000);
}

#[test]
fn receipt_for_unknown_allocation_is_rejected() {
    let mut manager = test_manager(520);
    manager.set_appraisal(0, 20);
    let foreign = sign_receipt(Receipt {
        allocation_id: [0xde; 20],
        timestamp_ns: 1_000_000_000,
        nonce: 1,
        value: 20,
    });
    let result = manager.verify_and_store_receipt(foreign, 0, &all_checks());
    assert_eq!(result, Err(Error::InvalidAllocationId));
}

#[test]
fn receipt_from_unknown_sender_is_rejected() {
    let mut manager = test_manager(520);
    manager.set_appraisal(0, 20);
    let other_key = [3u8; 32];
    let signed =
        EIP712SignedMessage::<Receipt>::new(&test_domain(), standard_receipt(), &other_key).unwrap();
    let result = manager.verify_and_store_receipt(signed, 0, &all_checks());
    assert_eq!(result, Err(Error::InvalidSignature));
}

#[test]
fn receipt_with_wrong_value_is_rejected() {
    let mut manager = test_manager(520);
    manager.set_appraisal(0, 25);
    let signed = sign_receipt(standard_receipt());
    let result = manager.verify_and_store_receipt(signed, 0, &all_checks());
    assert_eq!(result, Err(Error::InvalidValue));
}

#[test]
fn empty_window_yields_no_rav_request() {
    let manager = test_manager(520);
    let result = manager.create_rav_request_at(0, 5_000_000_000);
    assert!(matches!(result, Err(Error::NoValidReceiptsForRAVRequest)));
}

#[test]
fn buffered_window_excludes_fresh_receipts() {
    let mut manager = test_manager(520);
    manager.set_appraisal(0, 20);
    let signed = sign_receipt(standard_receipt());
    assert!(manager.verify_and_store_receipt(signed, 0, &all_checks()).is_ok());
    // with the cutoff just below the receipt's timestamp, the window is empty
    let result = manager.create_rav_request_at(1, 1_000_000_000);
    assert!(matches!(result, Err(Error::NoValidReceiptsForRAVRequest)));
    // with the cutoff at the timestamp, the receipt is picked up
    let request = manager.create_rav_request_at(0, 1_000_000_000).unwrap();
    assert_eq!(request.valid_receipts.len(), 1);
}

#[test]
fn rav_request_orders_receipts_by_timestamp() {
    let mut manager = test_manager(520);
    manager.set_appraisal(0, 20);
    manager.set_appraisal(1, 30);
    // receipts arrive out of order
    let late = sign_receipt(Receipt {
        allocation_id: ALLOCATION,
        timestamp_ns: 2_000_000_000,
        nonce: 1,
        value: 20,
    });
    let early = sign_receipt(Receipt {
        allocation_id: ALLOCATION,
        timestamp_ns: 1_000_000_000,
        nonce: 2,
        value: 30,
    });
    assert!(manager.verify_and_store_receipt(late, 0, &all_checks()).is_ok());
    assert!(manager.verify_and_store_receipt(early, 1, &all_checks()).is_ok());

    let request = manager.create_rav_request(0).unwrap();
    assert_eq!(request.valid_receipts.len(), 2);
    assert_eq!(request.valid_receipts[0].message.timestamp_ns, 1_000_000_000);
    assert_eq!(request.valid_receipts[1].message.timestamp_ns, 2_000_000_000);
    assert_eq!(request.expected_rav.value_aggregate, 50);
    assert_eq!(request.expected_rav.timestamp_ns_max, 2_000_000_000);
}

#[test]
fn rav_request_surfaces_failed_receipts_as_evidence() {
    let mut manager = test_manager(520);
    manager.set_appraisal(0, 20);
    manager.set_appraisal(1, 30);
    let good = sign_receipt(standard_receipt());
    assert!(manager.verify_and_store_receipt(good, 0, &all_checks()).is_ok());
    // a receipt whose value disagrees with its appraisal fails and is kept
    let bad = sign_receipt(Receipt {
        allocation_id: ALLOCATION,
        timestamp_ns: 1_500_000_000,
        nonce: 2,
        value: 99,
    });
    assert_eq!(
        manager.verify_and_store_receipt(bad, 1, &all_checks()),
        Err(Error::InvalidValue)
    );

    let request = manager.create_rav_request(0).unwrap();
    assert_eq!(request.valid_receipts.len(), 1);
    assert_eq!(request.invalid_receipts.len(), 1);
    assert_eq!(request.invalid_receipts[0].signed_receipt.message.value, 99);
    assert!(matches!(request.invalid_receipts[0].state.error, Error::InvalidValue));
}

#[test]
fn removed_failed_receipt_can_be_readmitted() {
    // under-escrowed receipt fails and its hash blocks resubmission
    let mut manager = test_manager(10);
    manager.set_appraisal(0, 20);
    let signed = sign_receipt(standard_receipt());
    let hash = signed.unique_hash(manager.domain());
    assert_eq!(
        manager.verify_and_store_receipt(signed, 0, &all_checks()),
        Err(Error::InsufficientEscrow)
    );
    let sender = wallet_address(&SENDER_KEY).unwrap();
    manager.increase_escrow(sender, 510).unwrap();
    assert_eq!(
        manager.verify_and_store_receipt(signed, 0, &all_checks()),
        Err(Error::NonUniqueReceipt)
    );

    // the operator removes the failed record; the receipt is admitted anew
    assert!(manager.remove_failed_receipt(&hash));
    assert!(manager.receipt_state(&hash).is_none());
    assert!(manager.verify_and_store_receipt(signed, 0, &all_checks()).is_ok());
    assert_eq!(manager.escrow_balance(&sender), 500);
    assert!(matches!(manager.receipt_state(&hash), Some(RecordState::Reserved)));

    // a reserved receipt is never removed
    assert!(!manager.remove_failed_receipt(&hash));
    assert!(matches!(manager.receipt_state(&hash), Some(RecordState::Reserved)));
    // and removing an unknown hash reports false
    assert!(!manager.remove_failed_receipt(&[0u8; 32]));
}

#[test]
fn watermark_only_moves_up() {
    let mut watermark = tap_core::watermark::TimestampWatermark::new(10);
    assert_eq!(watermark.get(), 10);
    watermark.update(5);
    assert_eq!(watermark.get(), 10);
    watermark.update(25);
    assert_eq!(watermark.get(), 25);
    watermark.update(25);
    assert_eq!(watermark.get(), 25);
}

#[test]
fn escrow_deposit_overflow_is_a_storage_failure() {
    let sender = wallet_address(&SENDER_KEY).unwrap();
    let mut manager = test_manager(u128::MAX);
    let result = manager.increase_escrow(sender, 1);
    assert_eq!(result, Err(Error::StorageFailure));
    assert_eq!(manager.escrow_balance(&sender), u128::MAX);
}
