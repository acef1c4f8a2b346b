//! The receipt state machine driven step by step: checks alone, checks then
//! finalization, and the full lifetime through escrow reservation.

use tap_core::checks::ReceiptCheck;
use tap_core::crypto::wallet_address;
use tap_core::eip712::{tap_eip712_domain, EIP712SignedMessage, Eip712Domain};
use tap_core::manager::Manager;
use tap_core::receipt::Receipt;
use tap_core::received_receipt::ReceiptWithState;

const KEY: [u8; 32] = [7u8; 32];
const ALLOC: [u8; 20] = [0xab; 20];

fn state_machine_domain() -> Eip712Domain {
    tap_eip712_domain(1, [0x11; 20])
}

fn state_machine_checks() -> Vec<ReceiptCheck> {
    vec![
        ReceiptCheck::CheckAllocationId,
        ReceiptCheck::CheckSignature,
        ReceiptCheck::CheckTimestamp,
        ReceiptCheck::CheckUnique,
        ReceiptCheck::CheckValue,
    ]
}

fn state_machine_manager(query_value: u128) -> Manager {
    let sender = wallet_address(&KEY).unwrap();
    let mut manager =
        Manager::new(state_machine_domain(), vec![ALLOC], vec![sender], vec![], 0);
    // escrow for the sender: the query's value plus headroom
    manager.increase_escrow(sender, query_value + 500).unwrap();
    manager.set_appraisal(0, query_value);
    manager
}

#[test]
fn partial_then_full_check_valid_receipt() {
    let query_value = 20u128;
    let manager = state_machine_manager(query_value);
    let signed_receipt = EIP712SignedMessage::<Receipt>::new(
        &state_machine_domain(),
        Receipt { allocation_id: ALLOC, timestamp_ns: 42, nonce: 1, value: query_value },
        &KEY,
    )
    .unwrap();

    let received_receipt = ReceiptWithState::new(signed_receipt);

    let result = received_receipt.perform_checks(&manager, 0, &state_machine_checks());
    assert!(result.is_ok());
}

#[test]
fn partial_then_finalize_valid_receipt() {
    let query_value = 20u128;
    let mut manager = state_machine_manager(query_value);
    let signed_receipt = EIP712SignedMessage::<Receipt>::new(
        &state_machine_domain(),
        Receipt { allocation_id: ALLOC, timestamp_ns: 42, nonce: 1, value: query_value },
        &KEY,
    )
    .unwrap();

    let received_receipt = ReceiptWithState::new(signed_receipt);

    let awaiting_escrow_receipt =
        received_receipt.finalize_receipt_checks(&manager, 0, &state_machine_checks());
    assert!(awaiting_escrow_receipt.is_ok());

    let awaiting_escrow_receipt = awaiting_escrow_receipt.unwrap();
    let receipt = awaiting_escrow_receipt.check_and_reserve_escrow(&mut manager);
    assert!(receipt.is_ok());
}

#[test]
fn standard_lifetime_valid_receipt() {
    let query_value = 20u128;
    let mut manager = state_machine_manager(query_value);
    let signed_receipt = EIP712SignedMessage::<Receipt>::new(
        &state_machine_domain(),
        Receipt { allocation_id: ALLOC, timestamp_ns: 42, nonce: 1, value: query_value },
        &KEY,
    )
    .unwrap();
    let hash = signed_receipt.unique_hash(manager.domain());

    let received_receipt = ReceiptWithState::new(signed_receipt);

    let awaiting_escrow_receipt =
        received_receipt.finalize_receipt_checks(&manager, 0, &state_machine_checks());
    assert!(awaiting_escrow_receipt.is_ok());

    let awaiting_escrow_receipt = awaiting_escrow_receipt.unwrap();
    let receipt = awaiting_escrow_receipt.check_and_reserve_escrow(&mut manager);
    assert!(receipt.is_ok());

    // escrow reflects the reservation and the record is on file
    let sender = wallet_address(&KEY).unwrap();
    assert_eq!(manager.escrow_balance(&sender), 500);
    assert!(manager.receipt_state(&hash).is_some());
}

#[test]
fn failing_check_moves_receipt_to_failed() {
    let query_value = 20u128;
    let manager = state_machine_manager(query_value);
    let signed_receipt = EIP712SignedMessage::<Receipt>::new(
        &state_machine_domain(),
        Receipt { allocation_id: [0x99; 20], timestamp_ns: 42, nonce: 1, value: query_value },
        &KEY,
    )
    .unwrap();

    let received_receipt = ReceiptWithState::new(signed_receipt);
    let failed = received_receipt.finalize_receipt_checks(&manager, 0, &state_machine_checks());
    assert!(failed.is_err());
    let failed = failed.err().unwrap();
    assert!(matches!(failed.state.error, tap_core::Error::InvalidAllocationId));
}
