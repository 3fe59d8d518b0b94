use plank_bytecode_tests::evm::{behavior_eq, status_eq, storage_changes};
use plank_bytecode_tests::{
    EvmLog, ExecutionOutcome, ExecutionStatus, StorageChange, StorageSlot, TransactionResult,
};

fn slot(addr: u8, key: u8, original: u8, present: u8) -> StorageSlot {
    let mut k = [0u8; 32];
    k[31] = key;
    let mut o = [0u8; 32];
    o[31] = original;
    let mut p = [0u8; 32];
    p[31] = present;
    StorageSlot { address: [addr; 20], key: k, original_value: o, present_value: p }
}

fn change_tuple(c: &StorageChange) -> (u8, u8, u8) {
    (c.address[0], c.key[31], c.value[31])
}

#[test]
fn storage_changes_keep_changed_slots_sorted() {
    let slots = vec![
        slot(2, 1, 0, 5),
        slot(1, 9, 3, 3),
        slot(1, 7, 0, 1),
        slot(2, 0, 4, 0),
        slot(1, 2, 1, 2),
    ];
    let changes = storage_changes(&slots);
    let got: Vec<_> = changes.iter().map(change_tuple).collect();
    assert_eq!(got, vec![(1, 2, 2), (1, 7, 1), (2, 0, 0), (2, 1, 5)]);
}

#[test]
fn storage_changes_of_unchanged_slots_are_empty() {
    assert!(storage_changes(&[slot(1, 1, 7, 7)]).is_empty());
    assert!(storage_changes(&[]).is_empty());
}

fn log(byte: u8) -> EvmLog {
    EvmLog { address: [byte; 20], topics: vec![[byte; 32]], data: vec![byte, byte] }
}

#[test]
fn from_result_maps_each_variant() {
    let ok = ExecutionOutcome::from_result(
        TransactionResult::Success { output: vec![1, 2] },
        vec![log(1)],
        &[slot(1, 1, 0, 1)],
        30_000,
    );
    assert!(matches!(ok.status, ExecutionStatus::Success));
    assert_eq!(ok.output, vec![1, 2]);
    assert_eq!(ok.logs.len(), 1);
    assert_eq!(ok.storage_changes.len(), 1);
    assert_eq!(ok.gas_used, 30_000);

    let reverted = ExecutionOutcome::from_result(
        TransactionResult::Revert { output: vec![9] },
        vec![],
        &[],
        21_500,
    );
    assert!(matches!(reverted.status, ExecutionStatus::Revert));
    assert_eq!(reverted.output, vec![9]);

    let halted = ExecutionOutcome::from_result(
        TransactionResult::Halt { reason: "OutOfGas(Basic)".to_string() },
        vec![log(3)],
        &[],
        100_000,
    );
    match &halted.status {
        ExecutionStatus::Halt(reason) => assert_eq!(reason, "OutOfGas(Basic)"),
        other => panic!("unexpected status {other:?}"),
    }
    assert!(halted.output.is_empty());
    assert_eq!(halted.logs.len(), 1);
}

#[test]
fn behavior_leaves_out_gas() {
    let a = ExecutionOutcome::from_result(
        TransactionResult::Success { output: vec![1] },
        vec![log(2)],
        &[slot(1, 1, 0, 1)],
        25_000,
    );
    let b = ExecutionOutcome::from_result(
        TransactionResult::Success { output: vec![1] },
        vec![log(2)],
        &[slot(1, 1, 0, 1)],
        99_000,
    );
    assert!(behavior_eq(&a.behavior(), &b.behavior()));
    let c = ExecutionOutcome::from_result(
        TransactionResult::Success { output: vec![1] },
        vec![log(3)],
        &[slot(1, 1, 0, 1)],
        25_000,
    );
    assert!(!behavior_eq(&a.behavior(), &c.behavior()));
}

#[test]
fn statuses_compare_by_variant_and_reason() {
    assert!(status_eq(&ExecutionStatus::Success, &ExecutionStatus::Success));
    assert!(!status_eq(&ExecutionStatus::Success, &ExecutionStatus::Revert));
    assert!(status_eq(&ExecutionStatus::Halt("a".into()), &ExecutionStatus::Halt("a".into())));
    assert!(!status_eq(&ExecutionStatus::Halt("a".into()), &ExecutionStatus::Halt("b".into())));
}
