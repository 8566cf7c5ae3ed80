use lsm_storage::delta::{DeltaError, DeltaLog, DeltaOp, DeltaOpType, DeltaOperation};

#[test]
fn test_delta_log_encode_decode() {
    let mut log = DeltaLog::new();
    log.add_op(DeltaOperation::new(100, DeltaOpType::AddNeighbor, 1));
    log.add_op(DeltaOperation::new(200, DeltaOpType::RemoveNeighbor, 2));
    log.add_op(DeltaOperation::new(300, DeltaOpType::AddNeighbor, 3));

    let encoded = log.encode();
    let decoded = DeltaLog::decode(&encoded).unwrap();

    assert_eq!(log.len(), decoded.len());
    for (expected, decoded) in log.ops().iter().zip(decoded.ops().iter()) {
        assert_eq!(expected.timestamp, decoded.timestamp);
        assert_eq!(expected.neighbor, decoded.neighbor);
        assert_eq!(expected.op_type, decoded.op_type);
    }
}

#[test]
fn test_delta_log_merge_last_write_wins() {
    let log1 = DeltaLog::from_ops(vec![
        DeltaOperation::new(100, DeltaOpType::AddNeighbor, 1),
        DeltaOperation::new(200, DeltaOpType::AddNeighbor, 2),
    ]);

    let log2 = DeltaLog::from_ops(vec![
        DeltaOperation::new(150, DeltaOpType::RemoveNeighbor, 1),
        DeltaOperation::new(250, DeltaOpType::RemoveNeighbor, 2),
        DeltaOperation::new(300, DeltaOpType::AddNeighbor, 3),
    ]);

    let merged = DeltaLog::merge(&[log1, log2]);

    assert_eq!(merged.len(), 3);

    let op1 = merged.ops().iter().find(|op| op.neighbor == 1).unwrap();
    assert_eq!(op1.timestamp, 150);
    assert_eq!(op1.get_op_type(), Some(DeltaOpType::RemoveNeighbor));

    let op2 = merged.ops().iter().find(|op| op.neighbor == 2).unwrap();
    assert_eq!(op2.timestamp, 250);
    assert_eq!(op2.get_op_type(), Some(DeltaOpType::RemoveNeighbor));

    let op3 = merged.ops().iter().find(|op| op.neighbor == 3).unwrap();
    assert_eq!(op3.timestamp, 300);
    assert_eq!(op3.get_op_type(), Some(DeltaOpType::AddNeighbor));
}

#[test]
fn test_merge_for_rocksdb() {
    let base_log = DeltaLog::from_ops(vec![DeltaOperation::new(100, DeltaOpType::AddNeighbor, 1)]);
    let base_bytes = base_log.encode();

    let operand1 =
        DeltaOperation::encode_batch(&[DeltaOperation::new(200, DeltaOpType::AddNeighbor, 2)]);

    let operand2 = DeltaOperation::encode_batch(&[
        DeltaOperation::new(150, DeltaOpType::RemoveNeighbor, 1),
        DeltaOperation::new(300, DeltaOpType::AddNeighbor, 3),
    ]);

    let merged_bytes = DeltaLog::merge_for_rocksdb(
        Some(&base_bytes),
        &[operand1.as_slice(), operand2.as_slice()],
    )
    .unwrap();

    let merged = DeltaLog::decode(&merged_bytes).unwrap();
    assert_eq!(merged.len(), 3);
}

#[test]
fn test_partial_merge_for_rocksdb() {
    let operand1 =
        DeltaOperation::encode_batch(&[DeltaOperation::new(100, DeltaOpType::AddNeighbor, 1)]);

    let operand2 = DeltaOperation::encode_batch(&[
        DeltaOperation::new(200, DeltaOpType::AddNeighbor, 2),
        DeltaOperation::new(300, DeltaOpType::AddNeighbor, 3),
    ]);

    let result =
        DeltaLog::partial_merge_for_rocksdb(&[operand1.as_slice(), operand2.as_slice()]).unwrap();

    assert_eq!(result.len(), 3 * DeltaOperation::ENCODED_SIZE);

    let ops = DeltaOperation::decode_batch(&result).unwrap();
    assert_eq!(ops.len(), 3);
}

#[test]
fn test_add_op_maintains_order() {
    let mut log = DeltaLog::new();
    log.add_op(DeltaOperation::new(300, DeltaOpType::AddNeighbor, 3));
    log.add_op(DeltaOperation::new(100, DeltaOpType::AddNeighbor, 1));
    log.add_op(DeltaOperation::new(200, DeltaOpType::AddNeighbor, 2));

    let ops = log.ops();
    assert_eq!(ops[0].timestamp, 100);
    assert_eq!(ops[1].timestamp, 200);
    assert_eq!(ops[2].timestamp, 300);
}

#[test]
fn test_delta_operation_encode_decode() {
    let op = DeltaOperation::new(12345678, DeltaOpType::AddNeighbor, 999);
    let encoded = op.encode();
    let decoded = DeltaOperation::decode(&encoded).unwrap();

    assert_eq!(op.timestamp, decoded.timestamp);
    assert_eq!(op.neighbor, decoded.neighbor);
    assert_eq!(op.op_type, decoded.op_type);
    assert_eq!(decoded.get_op_type(), Some(DeltaOpType::AddNeighbor));
}

#[test]
fn test_delta_operation_batch() {
    let ops = vec![
        DeltaOperation::new(100, DeltaOpType::AddNeighbor, 1),
        DeltaOperation::new(200, DeltaOpType::RemoveNeighbor, 2),
        DeltaOperation::new(300, DeltaOpType::AddNeighbor, 3),
    ];

    let encoded = DeltaOperation::encode_batch(&ops);
    let decoded = DeltaOperation::decode_batch(&encoded).unwrap();

    assert_eq!(ops.len(), decoded.len());
    for (expected, decoded) in ops.iter().zip(decoded.iter()) {
        assert_eq!(expected.timestamp, decoded.timestamp);
        assert_eq!(expected.neighbor, decoded.neighbor);
        assert_eq!(expected.op_type, decoded.op_type);
    }
}

#[test]
fn test_invalid_op_type() {
    let mut bytes = [0u8; 16];
    bytes[0..8].copy_from_slice(&100u64.to_le_bytes());
    bytes[8..12].copy_from_slice(&999u32.to_le_bytes());
    bytes[12..16].copy_from_slice(&999u32.to_le_bytes());

    assert!(DeltaOperation::decode(&bytes).is_err());
}

#[test]
fn test_encoded_size() {
    assert_eq!(DeltaOperation::ENCODED_SIZE, 16);
    assert_eq!(
        std::mem::size_of::<DeltaOperation>(),
        16,
        "DeltaOperation should be 16 bytes for alignment"
    );
}

#[test]
fn test_operation_bytes_little_endian() {
    let op = DeltaOperation::new(0x0102030405060708, DeltaOpType::RemoveNeighbor, 0x0a0b0c0d);
    assert_eq!(
        op.encode(),
        vec![8, 7, 6, 5, 4, 3, 2, 1, 0x0d, 0x0c, 0x0b, 0x0a, 1, 0, 0, 0]
    );
}

#[test]
fn test_decode_errors() {
    assert_eq!(DeltaOperation::decode(&[0u8; 15]).err(), Some(DeltaError::BadOperationLength));
    assert_eq!(DeltaOperation::decode_batch(&[0u8; 17]).err(), Some(DeltaError::BadBatchLength));
    assert_eq!(DeltaLog::decode(&[1, 0]).err(), Some(DeltaError::MissingCount));
    assert_eq!(DeltaLog::decode(&[1, 0, 0, 0]).err(), Some(DeltaError::BadLogLength));
    let mut bad = vec![1, 0, 0, 0];
    bad.extend_from_slice(&[0u8; 12]);
    bad.extend_from_slice(&[2, 0, 0, 0]);
    assert_eq!(DeltaLog::decode(&bad).err(), Some(DeltaError::BadOperationType));
    assert_eq!(DeltaLog::merge_for_rocksdb(Some(&[1, 0]), &[]), None);
    assert_eq!(DeltaLog::partial_merge_for_rocksdb(&[&[0u8; 3][..]]), None);
}

#[test]
fn test_merge_keeps_latest_per_neighbor() {
    let log = DeltaLog {
        ops: vec![
            DeltaOperation::new(5, DeltaOpType::AddNeighbor, 9),
            DeltaOperation::new(1, DeltaOpType::AddNeighbor, 4),
            DeltaOperation::new(7, DeltaOpType::RemoveNeighbor, 9),
            DeltaOperation::new(3, DeltaOpType::RemoveNeighbor, 4),
        ],
    };
    let merged = DeltaLog::merge(&[log]);
    assert_eq!(
        merged.ops,
        vec![
            DeltaOperation::new(3, DeltaOpType::RemoveNeighbor, 4),
            DeltaOperation::new(7, DeltaOpType::RemoveNeighbor, 9),
        ]
    );
}

#[test]
fn test_partial_then_full_merge_agrees() {
    let base = DeltaLog::from_ops(vec![DeltaOperation::new(10, DeltaOpType::AddNeighbor, 1)]).encode();
    let a = DeltaOperation::encode_batch(&[DeltaOperation::new(20, DeltaOpType::RemoveNeighbor, 1)]);
    let b = DeltaOperation::encode_batch(&[DeltaOperation::new(30, DeltaOpType::AddNeighbor, 2)]);
    let partial = DeltaLog::partial_merge_for_rocksdb(&[a.as_slice(), b.as_slice()]).unwrap();
    let once = DeltaLog::merge_for_rocksdb(Some(&base), &[partial.as_slice()]).unwrap();
    let twice = DeltaLog::merge_for_rocksdb(Some(&base), &[a.as_slice(), b.as_slice()]).unwrap();
    assert_eq!(once, twice);
    let merged = DeltaLog::decode(&once).unwrap();
    assert_eq!(
        merged.ops,
        vec![
            DeltaOperation::new(20, DeltaOpType::RemoveNeighbor, 1),
            DeltaOperation::new(30, DeltaOpType::AddNeighbor, 2),
        ]
    );
}

#[test]
fn test_merge_with() {
    let mut log = DeltaLog::from_ops(vec![DeltaOperation::new(10, DeltaOpType::AddNeighbor, 1)]);
    let other = DeltaLog::from_ops(vec![DeltaOperation::new(5, DeltaOpType::RemoveNeighbor, 1)]);
    log.merge_with(&other);
    assert_eq!(log.ops, vec![DeltaOperation::new(10, DeltaOpType::AddNeighbor, 1)]);
    assert!(!log.is_empty());
}

#[test]
fn test_delta_op_to_operation() {
    assert_eq!(DeltaOp::AddNeighbor(4).to_operation(9), DeltaOperation::new(9, DeltaOpType::AddNeighbor, 4));
    assert_eq!(DeltaOp::RemoveNeighbor(4).to_operation(9), DeltaOperation::new(9, DeltaOpType::RemoveNeighbor, 4));
    assert_eq!(DeltaOpType::from_u32(1), Some(DeltaOpType::RemoveNeighbor));
    assert_eq!(DeltaOpType::from_u32(2), None);
    assert_eq!(DeltaOpType::RemoveNeighbor.as_u32(), 1);
}
