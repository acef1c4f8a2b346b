//! The in-memory RAV storage backend: store, retrieve and remove by id.

use tap_core::crypto::Signature;
use tap_core::eip712::EIP712SignedMessage;
use tap_core::rav::{ReceiptAggregateVoucher, SignedRAV};
use tap_core::rav_storage::RAVStorageAdapterMock;

fn sample_rav(value: u128) -> SignedRAV {
    EIP712SignedMessage {
        message: ReceiptAggregateVoucher {
            allocation_id: [0xab; 20],
            timestamp_ns_max: 1_000_000_000,
            value_aggregate: value,
        },
        signature: Signature { r: [0; 32], s: [0; 32], v: 27 },
    }
}

#[test]
fn rav_storage_adapter_test() {
    let mut rav_storage_adapter = RAVStorageAdapterMock::new();

    let first_id = rav_storage_adapter.store_rav(sample_rav(7)).unwrap();
    let second_id = rav_storage_adapter.store_rav(sample_rav(9)).unwrap();
    assert_eq!(first_id, 0);
    assert_eq!(second_id, 1);

    let retrieved = rav_storage_adapter.retrieve_rav_by_id(first_id).unwrap();
    assert_eq!(retrieved.message.value_aggregate, 7);
    let retrieved = rav_storage_adapter.retrieve_rav_by_id(second_id).unwrap();
    assert_eq!(retrieved.message.value_aggregate, 9);

    rav_storage_adapter.remove_rav_by_id(first_id).unwrap();
    assert!(rav_storage_adapter.retrieve_rav_by_id(first_id).is_err());
    assert!(rav_storage_adapter.retrieve_rav_by_id(second_id).is_ok());

    // ids are never reused
    let third_id = rav_storage_adapter.store_rav(sample_rav(11)).unwrap();
    assert_eq!(third_id, 2);
}

#[test]
fn missing_rav_ids_are_reported() {
    let mut rav_storage_adapter = RAVStorageAdapterMock::new();
    assert!(rav_storage_adapter.retrieve_rav_by_id(4).is_err());
    assert!(rav_storage_adapter.remove_rav_by_id(4).is_err());
}
