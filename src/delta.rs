use vstd::prelude::*;

use crate::types::VId;
use vstd::bytes::{
    lemma_auto_spec_u32_to_from_le_bytes, lemma_auto_spec_u64_to_from_le_bytes,
    spec_u32_from_le_bytes, spec_u32_to_le_bytes, spec_u64_from_le_bytes, spec_u64_to_le_bytes,
    u32_from_le_bytes, u32_to_le_bytes, u64_from_le_bytes, u64_to_le_bytes,
};
use vstd::slice::slice_subrange;

verus! {

/// Encoded size of one operation.
pub const ENCODED_SIZE: usize = 16;

/// One change to a vertex's neighbor list: add or remove `neighbor` at `timestamp`.
#[derive(Debug, Clone, Copy, PartialEq, Eq, Structural)]
pub struct DeltaOperation {
    /// Orders the operations; the latest one for a neighbor wins.
    pub timestamp: u64,
    /// The neighbor added or removed.
    pub neighbor: VId,
    /// 0 adds the neighbor, 1 removes it.
    pub op_type: u32,
}

/// What an operation does.
#[derive(Debug, Clone, Copy, PartialEq, Eq, Structural)]
pub enum DeltaOpType {
    /// Add a neighbor.
    AddNeighbor,
    /// Remove a neighbor.
    RemoveNeighbor,
}

/// A change to a vertex's neighbor set, without its timestamp.
#[derive(Debug, Clone, Copy, PartialEq, Eq, Structural)]
pub enum DeltaOp {
    /// Add a neighbor.
    AddNeighbor(VId),
    /// Remove a neighbor.
    RemoveNeighbor(VId),
}

impl DeltaOp {
    /// The operation that makes this change at `timestamp`.
    pub fn to_operation(&self, timestamp: u64) -> (r: DeltaOperation)
        ensures
            r.timestamp == timestamp,
            match *self {
                DeltaOp::AddNeighbor(n) => r.neighbor == n && r.op_type == 0,
                DeltaOp::RemoveNeighbor(n) => r.neighbor == n && r.op_type == 1,
            },
    {
        match *self {
            DeltaOp::AddNeighbor(n) => DeltaOperation { timestamp, neighbor: n, op_type: 0 },
            DeltaOp::RemoveNeighbor(n) => DeltaOperation { timestamp, neighbor: n, op_type: 1 },
        }
    }
}

/// Why bytes do not decode as operations or as a log.
#[derive(Debug, Clone, Copy, PartialEq, Eq, Structural)]
pub enum DeltaError {
    /// An operation that is not sixteen bytes long.
    BadOperationLength,
    /// An operation type other than 0 and 1.
    BadOperationType,
    /// A batch whose length is not a multiple of sixteen.
    BadBatchLength,
    /// A log shorter than its four-byte count.
    MissingCount,
    /// A log whose length does not match its count.
    BadLogLength,
}

/// The numeric code of an operation type.
pub open spec fn op_type_code(t: DeltaOpType) -> u32 {
    match t {
        DeltaOpType::AddNeighbor => 0,
        DeltaOpType::RemoveNeighbor => 1,
    }
}

/// Whether `t` is the code of an operation type.
pub open spec fn valid_op_type(t: u32) -> bool {
    t == 0 || t == 1
}

/// The sixteen little-endian bytes of an operation: timestamp, neighbor, type.
pub open spec fn op_bytes(op: DeltaOperation) -> Seq<u8> {
    spec_u64_to_le_bytes(op.timestamp) + spec_u32_to_le_bytes(op.neighbor) + spec_u32_to_le_bytes(
        op.op_type,
    )
}

/// The operation that sixteen bytes hold.
pub open spec fn op_of_bytes(b: Seq<u8>) -> DeltaOperation {
    DeltaOperation {
        timestamp: spec_u64_from_le_bytes(b.subrange(0, 8)),
        neighbor: spec_u32_from_le_bytes(b.subrange(8, 12)),
        op_type: spec_u32_from_le_bytes(b.subrange(12, 16)),
    }
}

/// The `k`-th sixteen-byte record of `b`.
pub open spec fn chunk(b: Seq<u8>, k: int) -> Seq<u8> {
    b.subrange(16 * k, 16 * k + 16)
}

/// Bytes that hold a whole number of records, each with a valid type.
pub open spec fn batch_decodable(b: Seq<u8>) -> bool {
    &&& b.len() % 16 == 0
    &&& forall|k: int| 0 <= k < b.len() / 16 ==> valid_op_type(#[trigger] op_of_bytes(chunk(b, k)).op_type)
}

/// The operations that a batch of records holds.
pub open spec fn batch_of_bytes(b: Seq<u8>) -> Seq<DeltaOperation> {
    Seq::new((b.len() / 16) as nat, |k: int| op_of_bytes(chunk(b, k)))
}

/// The records of `ops`, one after the other.
pub open spec fn batch_bytes(ops: Seq<DeltaOperation>) -> Seq<u8>
    decreases ops.len(),
{
    if ops.len() == 0 {
        Seq::empty()
    } else {
        batch_bytes(ops.drop_last()) + op_bytes(ops.last())
    }
}

/// The bytes of a log: the count as a little-endian `u32`, then the records.
pub open spec fn log_bytes(ops: Seq<DeltaOperation>) -> Seq<u8> {
    spec_u32_to_le_bytes(ops.len() as u32) + batch_bytes(ops)
}

/// Bytes that decode as a log.
pub open spec fn log_decodable(b: Seq<u8>) -> bool {
    &&& b.len() >= 4
    &&& b.len() - 4 == 16 * spec_u32_from_le_bytes(b.subrange(0, 4))
    &&& batch_decodable(b.subrange(4, b.len() as int))
}

/// The operations of the log that bytes hold.
pub open spec fn log_of_bytes(b: Seq<u8>) -> Seq<DeltaOperation> {
    batch_of_bytes(b.subrange(4, b.len() as int))
}

/// Operations in ascending order of timestamp.
pub open spec fn sorted_by_time(ops: Seq<DeltaOperation>) -> bool {
    forall|i: int, j: int| 0 <= i <= j < ops.len() ==> ops[i].timestamp <= ops[j].timestamp
}

/// Every operation has a valid type.
pub open spec fn all_valid(ops: Seq<DeltaOperation>) -> bool {
    forall|i: int| 0 <= i < ops.len() ==> valid_op_type(#[trigger] ops[i].op_type)
}

/// Whether each neighbor occurs at most once.
pub open spec fn unique_neighbors(r: Seq<DeltaOperation>) -> bool {
    forall|i: int, j: int| 0 <= i < j < r.len() ==> #[trigger] r[i].neighbor != #[trigger] r[j].neighbor
}

/// Some operation of `r` is on `n`.
pub open spec fn has_neighbor(r: Seq<DeltaOperation>, n: VId) -> bool {
    exists|i: int| 0 <= i < r.len() && r[i].neighbor == n
}

/// Each operation of `r` is one of `all`.
#[verifier::opaque]
pub open spec fn taken_from(r: Seq<DeltaOperation>, all: Seq<DeltaOperation>) -> bool {
    forall|i: int| 0 <= i < r.len() ==> #[trigger] all.contains(r[i])
}

/// Each neighbor of `all` has an operation in `r`.
#[verifier::opaque]
pub open spec fn covers(r: Seq<DeltaOperation>, all: Seq<DeltaOperation>) -> bool {
    forall|k: int| 0 <= k < all.len() ==> #[trigger] has_neighbor(r, all[k].neighbor)
}

/// The operation of `r` on a neighbor has the largest timestamp among those of `all` on it.
#[verifier::opaque]
pub open spec fn latest(r: Seq<DeltaOperation>, all: Seq<DeltaOperation>) -> bool {
    forall|i: int, k: int|
        #![trigger r[i], all[k]]
        0 <= i < r.len() && 0 <= k < all.len() && all[k].neighbor == r[i].neighbor
            ==> all[k].timestamp <= r[i].timestamp
}

/// `r` is the last-write-wins reduction of `all`: one operation per neighbor that occurs
/// in `all`, each taken from `all` and with the largest timestamp among that neighbor's.
pub open spec fn lww(r: Seq<DeltaOperation>, all: Seq<DeltaOperation>) -> bool {
    &&& taken_from(r, all)
    &&& covers(r, all)
    &&& latest(r, all)
    &&& unique_neighbors(r)
}

/// All operations of the logs, one log after the other.
pub open spec fn all_ops(logs: Seq<DeltaLog>) -> Seq<DeltaOperation>
    decreases logs.len(),
{
    if logs.len() == 0 {
        Seq::empty()
    } else {
        all_ops(logs.drop_last()) + logs.last().ops@
    }
}

/// The byte strings one after the other.
pub open spec fn joined_bytes(parts: Seq<Seq<u8>>) -> Seq<u8>
    decreases parts.len(),
{
    if parts.len() == 0 {
        Seq::empty()
    } else {
        joined_bytes(parts.drop_last()) + parts.last()
    }
}

/// The operations of batches, one batch after the other.
pub open spec fn batches_ops(parts: Seq<Seq<u8>>) -> Seq<DeltaOperation>
    decreases parts.len(),
{
    if parts.len() == 0 {
        Seq::empty()
    } else {
        batches_ops(parts.drop_last()) + batch_of_bytes(parts.last())
    }
}

/// Whether every part is a decodable batch.
pub open spec fn batches_decodable(parts: Seq<Seq<u8>>) -> bool {
    forall|i: int| 0 <= i < parts.len() ==> batch_decodable(#[trigger] parts[i])
}

/// The operations a full merge reduces: those of the base log, then those of each operand.
pub open spec fn full_merge_input(base: Option<Seq<u8>>, parts: Seq<Seq<u8>>) -> Seq<DeltaOperation> {
    match base {
        Some(b) => log_of_bytes(b) + batches_ops(parts),
        None => batches_ops(parts),
    }
}

/// Whether a full merge can read its base and its operands.
pub open spec fn full_merge_readable(base: Option<Seq<u8>>, parts: Seq<Seq<u8>>) -> bool {
    &&& (base matches Some(b) ==> log_decodable(b))
    &&& batches_decodable(parts)
}

proof fn lemma_op_round_trip(op: DeltaOperation)
    ensures
        op_bytes(op).len() == 16,
        op_of_bytes(op_bytes(op)) == op,
{
    lemma_auto_spec_u64_to_from_le_bytes();
    lemma_auto_spec_u32_to_from_le_bytes();
    let b = op_bytes(op);
    assert(b.subrange(0, 8) =~= spec_u64_to_le_bytes(op.timestamp));
    assert(b.subrange(8, 12) =~= spec_u32_to_le_bytes(op.neighbor));
    assert(b.subrange(12, 16) =~= spec_u32_to_le_bytes(op.op_type));
}

proof fn lemma_batch_bytes(ops: Seq<DeltaOperation>)
    ensures
        batch_bytes(ops).len() == 16 * ops.len(),
        forall|k: int| 0 <= k < ops.len() ==> #[trigger] chunk(batch_bytes(ops), k) == op_bytes(ops[k]),
    decreases ops.len(),
{
    if ops.len() > 0 {
        let init = ops.drop_last();
        lemma_batch_bytes(init);
        lemma_op_round_trip(ops.last());
        let b = batch_bytes(ops);
        assert forall|k: int| 0 <= k < ops.len() implies #[trigger] chunk(b, k) == op_bytes(ops[k]) by {
            if k < ops.len() - 1 {
                assert(chunk(b, k) =~= chunk(batch_bytes(init), k));
                assert(init[k] == ops[k]);
            } else {
                assert(chunk(b, k) =~= op_bytes(ops.last()));
            }
        }
    }
}

/// Decoding the records of operations gives those operations back.
pub proof fn lemma_batch_round_trip(ops: Seq<DeltaOperation>)
    requires
        all_valid(ops),
    ensures
        batch_decodable(batch_bytes(ops)),
        batch_of_bytes(batch_bytes(ops)) == ops,
{
    lemma_batch_bytes(ops);
    let b = batch_bytes(ops);
    assert forall|k: int| 0 <= k < b.len() / 16 implies valid_op_type(
        #[trigger] op_of_bytes(chunk(b, k)).op_type,
    ) by {
        lemma_op_round_trip(ops[k]);
    }
    assert forall|k: int| 0 <= k < ops.len() implies batch_of_bytes(b)[k] == ops[k] by {
        lemma_op_round_trip(ops[k]);
    }
    assert(batch_of_bytes(b) =~= ops);
}

/// Decoding the bytes of a log gives its operations back.
pub proof fn lemma_log_round_trip(ops: Seq<DeltaOperation>)
    requires
        all_valid(ops),
        ops.len() <= u32::MAX,
    ensures
        log_decodable(log_bytes(ops)),
        log_of_bytes(log_bytes(ops)) == ops,
{
    lemma_auto_spec_u32_to_from_le_bytes();
    lemma_batch_round_trip(ops);
    lemma_batch_bytes(ops);
    let b = log_bytes(ops);
    assert(b.subrange(0, 4) =~= spec_u32_to_le_bytes(ops.len() as u32));
    assert(b.subrange(4, b.len() as int) =~= batch_bytes(ops));
}

impl DeltaOpType {
    /// The operation type of a code, `None` for a code other than 0 and 1.
    pub fn from_u32(val: u32) -> (r: Option<Self>)
        ensures
            r is Some <==> valid_op_type(val),
            r matches Some(t) ==> op_type_code(t) == val,
    {
        match val {
            0 => Some(DeltaOpType::AddNeighbor),
            1 => Some(DeltaOpType::RemoveNeighbor),
            _ => None,
        }
    }

    /// The code of the operation type.
    pub fn as_u32(self) -> (r: u32)
        ensures
            r == op_type_code(self),
    {
        match self {
            DeltaOpType::AddNeighbor => 0,
            DeltaOpType::RemoveNeighbor => 1,
        }
    }
}

impl DeltaOperation {
    /// Encoded size of one operation.
    pub const ENCODED_SIZE: usize = 16;

    /// An operation of the given type on `neighbor` at `timestamp`.
    pub fn new(timestamp: u64, op_type: DeltaOpType, neighbor: VId) -> (r: Self)
        ensures
            r == (DeltaOperation { timestamp, neighbor, op_type: op_type_code(op_type) }),
    {
        DeltaOperation { timestamp, neighbor, op_type: op_type.as_u32() }
    }

    /// The operation's type, `None` for an unknown code.
    pub fn get_op_type(&self) -> (r: Option<DeltaOpType>)
        ensures
            r is Some <==> valid_op_type(self.op_type),
            r matches Some(t) ==> op_type_code(t) == self.op_type,
    {
        DeltaOpType::from_u32(self.op_type)
    }

    /// The sixteen bytes of the operation.
    pub fn encode(&self) -> (r: Vec<u8>)
        ensures
            r@ == op_bytes(*self),
            r@.len() == 16,
    {
        let mut bytes = u64_to_le_bytes(self.timestamp);
        let mut neighbor = u32_to_le_bytes(self.neighbor);
        let mut op_type = u32_to_le_bytes(self.op_type);
        bytes.append(&mut neighbor);
        bytes.append(&mut op_type);
        proof {
            lemma_op_round_trip(*self);
        }
        bytes
    }

    /// Reads an operation from exactly sixteen bytes.
    pub fn decode(bytes: &[u8]) -> (r: Result<Self, DeltaError>)
        ensures
            r is Ok <==> bytes@.len() == 16 && valid_op_type(op_of_bytes(bytes@).op_type),
            r matches Ok(op) ==> op == op_of_bytes(bytes@),
            r matches Err(e) ==> e == (if bytes@.len() != 16 {
                DeltaError::BadOperationLength
            } else {
                DeltaError::BadOperationType
            }),
    {
        if bytes.len() != ENCODED_SIZE {
            return Err(DeltaError::BadOperationLength);
        }
        let timestamp = u64_from_le_bytes(slice_subrange(bytes, 0, 8));
        let neighbor = u32_from_le_bytes(slice_subrange(bytes, 8, 12));
        let op_type = u32_from_le_bytes(slice_subrange(bytes, 12, 16));
        if DeltaOpType::from_u32(op_type).is_none() {
            return Err(DeltaError::BadOperationType);
        }
        Ok(DeltaOperation { timestamp, neighbor, op_type })
    }

    /// The records of `ops`, one after the other.
    pub fn encode_batch(ops: &[DeltaOperation]) -> (r: Vec<u8>)
        ensures
            r@ == batch_bytes(ops@),
    {
        let mut bytes: Vec<u8> = Vec::new();
        let mut i: usize = 0;
        while i < ops.len()
            invariant
                i <= ops@.len(),
                bytes@ == batch_bytes(ops@.subrange(0, i as int)),
            decreases ops@.len() - i,
        {
            let mut one = ops[i].encode();
            bytes.append(&mut one);
            proof {
                let s = ops@.subrange(0, i + 1);
                assert(s.drop_last() =~= ops@.subrange(0, i as int));
                assert(s.last() == ops@[i as int]);
            }
            i = i + 1;
        }
        assert(ops@.subrange(0, ops@.len() as int) =~= ops@);
        bytes
    }

    /// Reads a batch of records; fails on a length that is not a multiple of sixteen or
    /// on a record with an unknown type.
    pub fn decode_batch(bytes: &[u8]) -> (r: Result<Vec<DeltaOperation>, DeltaError>)
        ensures
            r is Ok <==> batch_decodable(bytes@),
            r matches Ok(ops) ==> ops@ == batch_of_bytes(bytes@),
            r matches Err(e) ==> e == (if bytes@.len() % 16 != 0 {
                DeltaError::BadBatchLength
            } else {
                DeltaError::BadOperationType
            }),
    {
        if bytes.len() % ENCODED_SIZE != 0 {
            return Err(DeltaError::BadBatchLength);
        }
        let count = bytes.len() / ENCODED_SIZE;
        let mut ops: Vec<DeltaOperation> = Vec::new();
        let mut k: usize = 0;
        let mut pos: usize = 0;
        let n = bytes.len();
        assert(bytes@.len() == 16 * count);
        while k < count
            invariant
                count == bytes@.len() / 16,
                bytes@.len() == 16 * count,
                n == bytes@.len(),
                pos == 16 * k,
                bytes@.len() % 16 == 0,
                k <= count,
                ops@ == batch_of_bytes(bytes@).subrange(0, k as int),
                forall|j: int| 0 <= j < k ==> valid_op_type(#[trigger] op_of_bytes(chunk(bytes@, j)).op_type),
            decreases count - k,
        {
            assert(pos + 16 <= n);
            let piece = slice_subrange(bytes, pos, pos + 16);
            assert(piece@ == chunk(bytes@, k as int));
            match DeltaOperation::decode(piece) {
                Ok(op) => {
                    ops.push(op);
                    assert(ops@ =~= batch_of_bytes(bytes@).subrange(0, k + 1));
                },
                Err(e) => {
                    assert(!valid_op_type(op_of_bytes(chunk(bytes@, k as int)).op_type));
                    return Err(e);
                },
            }
            k = k + 1;
            pos = pos + 16;
        }
        assert(ops@ =~= batch_of_bytes(bytes@));
        Ok(ops)
    }
}

} // verus!
verus! {

/// A log of operations on one vertex's neighbor list.
#[derive(Debug)]
pub struct DeltaLog {
    /// The operations, in ascending order of timestamp when built by this type.
    pub ops: Vec<DeltaOperation>,
}

/// Inserts `op` after every operation with a timestamp not above its own.
fn insert_sorted(v: &mut Vec<DeltaOperation>, op: DeltaOperation) -> (pos: usize)
    ensures
        pos <= old(v)@.len(),
        final(v)@ == old(v)@.insert(pos as int, op),
        sorted_by_time(old(v)@) ==> sorted_by_time(final(v)@),
{
    let mut i: usize = 0;
    while i < v.len() && v[i].timestamp <= op.timestamp
        invariant
            i <= v@.len(),
            forall|k: int| 0 <= k < i ==> v@[k].timestamp <= op.timestamp,
        decreases v@.len() - i,
    {
        i = i + 1;
    }
    let ghost before = v@;
    v.insert(i, op);
    proof {
        if sorted_by_time(before) {
            let after = v@;
            assert forall|a: int, b: int| 0 <= a <= b < after.len() implies after[a].timestamp
                <= after[b].timestamp by {
                if a < i && b < i {
                    assert(after[a] == before[a] && after[b] == before[b]);
                } else if a < i && b == i {
                } else if a < i {
                    assert(after[b] == before[b - 1]);
                    assert(before[a].timestamp <= before[b - 1].timestamp);
                } else if a == i && b > i {
                    assert(after[b] == before[b - 1]);
                    assert(before[i as int].timestamp > op.timestamp);
                    assert(before[i as int].timestamp <= before[b - 1].timestamp);
                } else if a > i {
                    assert(after[a] == before[a - 1] && after[b] == before[b - 1]);
                }
            }
        }
    }
    i
}

/// The position of the operation on `neighbor`, if any.
fn find_neighbor(w: &Vec<DeltaOperation>, neighbor: VId) -> (r: Option<usize>)
    ensures
        r matches Some(j) ==> j < w@.len() && w@[j as int].neighbor == neighbor,
        r is None ==> forall|i: int| 0 <= i < w@.len() ==> w@[i].neighbor != neighbor,
{
    let mut i: usize = 0;
    while i < w.len()
        invariant
            i <= w@.len(),
            forall|k: int| 0 <= k < i ==> w@[k].neighbor != neighbor,
        decreases w@.len() - i,
    {
        if w[i].neighbor == neighbor {
            return Some(i);
        }
        i = i + 1;
    }
    None
}

proof fn lemma_reduce_found(
    old_w: Seq<DeltaOperation>,
    pre: Seq<DeltaOperation>,
    x: DeltaOperation,
    j: int,
    new_w: Seq<DeltaOperation>,
)
    requires
        lww(old_w, pre),
        0 <= j < old_w.len(),
        old_w[j].neighbor == x.neighbor,
        new_w == (if x.timestamp > old_w[j].timestamp {
            old_w.update(j, x)
        } else {
            old_w
        }),
    ensures
        lww(new_w, pre.push(x)),
{
    let post = pre.push(x);
    let k = pre.len() as int;
    assert(taken_from(new_w, post)) by {
        reveal(taken_from);
        assert forall|i: int| 0 <= i < new_w.len() implies #[trigger] post.contains(new_w[i]) by {
            if i == j && x.timestamp > old_w[j].timestamp {
                assert(post[k] == new_w[i]);
            } else {
                assert(new_w[i] == old_w[i]);
                assert(pre.contains(old_w[i]));
                let m = choose|m: int| 0 <= m < pre.len() && pre[m] == old_w[i];
                assert(post[m] == new_w[i]);
            }
        }
    }
    assert(covers(new_w, post)) by {
        reveal(covers);
        assert forall|m: int| 0 <= m < post.len() implies #[trigger] has_neighbor(new_w, post[m].neighbor) by {
            if m < k {
                assert(post[m] == pre[m]);
                assert(has_neighbor(old_w, pre[m].neighbor));
                let i = choose|i: int| 0 <= i < old_w.len() && old_w[i].neighbor == pre[m].neighbor;
                assert(new_w[i].neighbor == post[m].neighbor);
            } else {
                assert(new_w[j].neighbor == post[m].neighbor);
            }
        }
    }
    assert(latest(new_w, post)) by {
        reveal(latest);
        assert forall|i: int, m: int|
            0 <= i < new_w.len() && 0 <= m < post.len() && #[trigger] post[m].neighbor == #[trigger] new_w[i].neighbor
                implies post[m].timestamp <= new_w[i].timestamp by {
            if m < k {
                assert(post[m] == pre[m]);
                if i == j && x.timestamp > old_w[j].timestamp {
                    assert(pre[m].timestamp <= old_w[j].timestamp);
                } else {
                    assert(new_w[i] == old_w[i]);
                    assert(pre[m].timestamp <= old_w[i].timestamp);
                }
            } else if i != j {
                assert(new_w[i] == old_w[i]);
                if i < j {
                    assert(old_w[i].neighbor != old_w[j].neighbor);
                } else {
                    assert(old_w[j].neighbor != old_w[i].neighbor);
                }
            }
        }
    }
    assert forall|a: int, b: int| 0 <= a < b < new_w.len() implies #[trigger] new_w[a].neighbor
        != #[trigger] new_w[b].neighbor by {
        assert(old_w[a].neighbor != old_w[b].neighbor);
    }
}

proof fn lemma_reduce_new(old_w: Seq<DeltaOperation>, pre: Seq<DeltaOperation>, x: DeltaOperation)
    requires
        lww(old_w, pre),
        forall|i: int| 0 <= i < old_w.len() ==> old_w[i].neighbor != x.neighbor,
    ensures
        lww(old_w.push(x), pre.push(x)),
{
    let post = pre.push(x);
    let new_w = old_w.push(x);
    let k = pre.len() as int;
    assert(taken_from(new_w, post)) by {
        reveal(taken_from);
        assert forall|i: int| 0 <= i < new_w.len() implies #[trigger] post.contains(new_w[i]) by {
            if i < old_w.len() {
                assert(new_w[i] == old_w[i]);
                assert(pre.contains(old_w[i]));
                let m = choose|m: int| 0 <= m < pre.len() && pre[m] == old_w[i];
                assert(post[m] == new_w[i]);
            } else {
                assert(post[k] == new_w[i]);
            }
        }
    }
    assert(covers(new_w, post)) by {
        reveal(covers);
        assert forall|m: int| 0 <= m < post.len() implies #[trigger] has_neighbor(new_w, post[m].neighbor) by {
            if m < k {
                assert(post[m] == pre[m]);
                assert(has_neighbor(old_w, pre[m].neighbor));
                let i = choose|i: int| 0 <= i < old_w.len() && old_w[i].neighbor == pre[m].neighbor;
                assert(new_w[i].neighbor == post[m].neighbor);
            } else {
                assert(new_w[old_w.len() as int].neighbor == post[m].neighbor);
            }
        }
    }
    assert(latest(new_w, post)) by {
        reveal(latest);
        assert forall|i: int, m: int|
            0 <= i < new_w.len() && 0 <= m < post.len() && #[trigger] post[m].neighbor == #[trigger] new_w[i].neighbor
                implies post[m].timestamp <= new_w[i].timestamp by {
            if m < k {
                assert(post[m] == pre[m]);
                if i < old_w.len() {
                    assert(new_w[i] == old_w[i]);
                    assert(pre[m].timestamp <= old_w[i].timestamp);
                } else {
                    reveal(covers);
                    assert(has_neighbor(old_w, pre[m].neighbor));
                    let i2 = choose|i2: int| 0 <= i2 < old_w.len() && old_w[i2].neighbor == pre[m].neighbor;
                    assert(old_w[i2].neighbor != x.neighbor);
                }
            } else if i < old_w.len() {
                assert(new_w[i] == old_w[i]);
            }
        }
    }
    assert forall|a: int, b: int| 0 <= a < b < new_w.len() implies #[trigger] new_w[a].neighbor
        != #[trigger] new_w[b].neighbor by {
        if b < old_w.len() {
            assert(old_w[a].neighbor != old_w[b].neighbor);
        } else {
            assert(new_w[a] == old_w[a]);
        }
    }
}

proof fn lemma_insert_step(before: Seq<DeltaOperation>, w: Seq<DeltaOperation>, i: int, pos: int)
    requires
        0 <= i < w.len(),
        lww(before, w.subrange(0, i)),
        unique_neighbors(w),
        0 <= pos <= before.len(),
    ensures
        lww(before.insert(pos, w[i]), w.subrange(0, i + 1)),
{
    let after = before.insert(pos, w[i]);
    let pre = w.subrange(0, i);
    let post = w.subrange(0, i + 1);
    // Where an entry of `after` came from in `before` (-1 for the inserted one).
    let src = |a: int| if a < pos { a } else if a == pos { -1 } else { a - 1 };
    assert forall|a: int| 0 <= a < after.len() && src(a) >= 0 implies after[a] == before[src(a)]
        && 0 <= src(a) < before.len() by {}
    assert forall|a: int| 0 <= a < after.len() && src(a) >= 0 implies #[trigger] pre.contains(after[a]) by {
        reveal(taken_from);
        assert(pre.contains(before[src(a)]));
    }
    assert(taken_from(after, post)) by {
        reveal(taken_from);
        assert forall|a: int| 0 <= a < after.len() implies #[trigger] post.contains(after[a]) by {
            if src(a) >= 0 {
                assert(pre.contains(after[a]));
                let b = choose|b: int| 0 <= b < pre.len() && pre[b] == after[a];
                assert(post[b] == after[a]);
            } else {
                assert(post[i] == after[a]);
            }
        }
    }
    assert(covers(after, post)) by {
        reveal(covers);
        assert forall|b: int| 0 <= b < post.len() implies #[trigger] has_neighbor(after, post[b].neighbor) by {
            if b < i {
                assert(post[b] == pre[b]);
                assert(has_neighbor(before, pre[b].neighbor));
                let a = choose|a: int| 0 <= a < before.len() && before[a].neighbor == pre[b].neighbor;
                if a < pos {
                    assert(after[a] == before[a]);
                } else {
                    assert(after[a + 1] == before[a]);
                }
            } else {
                assert(after[pos].neighbor == post[b].neighbor);
            }
        }
    }
    assert(latest(after, post)) by {
        reveal(latest);
        assert forall|a: int, b: int|
            0 <= a < after.len() && 0 <= b < post.len() && #[trigger] post[b].neighbor == #[trigger] after[a].neighbor
                implies post[b].timestamp <= after[a].timestamp by {
            // Each neighbor occurs once in `w`, so the operation on it in `after` is `post[b]`.
            assert(post[b] == w[b]);
            if src(a) >= 0 {
                assert(pre.contains(after[a]));
                let c = choose|c: int| 0 <= c < pre.len() && pre[c] == after[a];
                assert(w[c] == pre[c]);
                if c < b {
                    assert(w[c].neighbor != w[b].neighbor);
                } else if b < c {
                    assert(w[b].neighbor != w[c].neighbor);
                }
            } else {
                assert(after[a] == w[i]);
                if b < i {
                    assert(w[b].neighbor != w[i].neighbor);
                }
            }
        }
    }
    assert forall|a: int, c: int| 0 <= a < c < after.len() implies #[trigger] after[a].neighbor
        != #[trigger] after[c].neighbor by {
        if src(a) >= 0 && src(c) >= 0 {
            assert(src(a) < src(c));
            assert(before[src(a)].neighbor != before[src(c)].neighbor);
        } else if src(a) < 0 {
            assert(pre.contains(after[c]));
            let b = choose|b: int| 0 <= b < pre.len() && pre[b] == after[c];
            assert(w[b] == pre[b]);
            assert(w[b].neighbor != w[i].neighbor);
        } else {
            assert(pre.contains(after[a]));
            let b = choose|b: int| 0 <= b < pre.len() && pre[b] == after[a];
            assert(w[b] == pre[b]);
            assert(w[b].neighbor != w[i].neighbor);
        }
    }
}

/// The reduction of a reduction is the reduction of the first input.
proof fn lemma_lww_trans(r: Seq<DeltaOperation>, w: Seq<DeltaOperation>, all: Seq<DeltaOperation>)
    requires
        lww(r, w),
        lww(w, all),
    ensures
        lww(r, all),
{
    assert(taken_from(r, all)) by {
        reveal(taken_from);
        assert forall|a: int| 0 <= a < r.len() implies #[trigger] all.contains(r[a]) by {
            assert(w.contains(r[a]));
            let b = choose|b: int| 0 <= b < w.len() && w[b] == r[a];
            assert(all.contains(w[b]));
        }
    }
    assert(covers(r, all)) by {
        reveal(covers);
        assert forall|k: int| 0 <= k < all.len() implies #[trigger] has_neighbor(r, all[k].neighbor) by {
            assert(has_neighbor(w, all[k].neighbor));
            let b = choose|b: int| 0 <= b < w.len() && w[b].neighbor == all[k].neighbor;
            assert(has_neighbor(r, w[b].neighbor));
        }
    }
    assert(latest(r, all)) by {
        reveal(latest);
        reveal(taken_from);
        assert forall|a: int, k: int|
            0 <= a < r.len() && 0 <= k < all.len() && #[trigger] all[k].neighbor == #[trigger] r[a].neighbor
                implies all[k].timestamp <= r[a].timestamp by {
            assert(w.contains(r[a]));
            let b = choose|b: int| 0 <= b < w.len() && w[b] == r[a];
            assert(all[k].neighbor == w[b].neighbor);
        }
    }
}

/// A reduction has no more operations than its input.
proof fn lemma_lww_len(w: Seq<DeltaOperation>, all: Seq<DeltaOperation>)
    requires
        lww(w, all),
    ensures
        w.len() <= all.len(),
{
    reveal(taken_from);
    let f = |i: int| choose|k: int| 0 <= k < all.len() && all[k] == w[i];
    let ws = vstd::set_lib::set_int_range(0, w.len() as int);
    let ks = vstd::set_lib::set_int_range(0, all.len() as int);
    vstd::set_lib::lemma_int_range(0, w.len() as int);
    vstd::set_lib::lemma_int_range(0, all.len() as int);
    assert forall|i: int| ws.contains(i) implies 0 <= #[trigger] f(i) < all.len() && all[f(i)] == w[i] by {
        assert(all.contains(w[i]));
    }
    assert forall|i: int, j: int| ws.contains(i) && ws.contains(j) && #[trigger] f(i) == #[trigger] f(j) implies i == j by {
        if i < j {
            assert(w[i].neighbor != w[j].neighbor);
        } else if j < i {
            assert(w[j].neighbor != w[i].neighbor);
        }
    }
    let y = ws.map(f);
    vstd::set_lib::lemma_map_size(ws, y, f);
    assert(y.subset_of(ks));
    vstd::set_lib::lemma_len_subset(y, ks);
}

/// Keeps, for each neighbor, the operation with the largest timestamp (the first such
/// one on equal timestamps), in order of first appearance.
fn reduce_latest(all: &Vec<DeltaOperation>) -> (w: Vec<DeltaOperation>)
    ensures
        lww(w@, all@),
{
    let mut w: Vec<DeltaOperation> = Vec::new();
    let mut k: usize = 0;
    proof {
        reveal(taken_from);
        reveal(covers);
        reveal(latest);
    }
    while k < all.len()
        invariant
            k <= all@.len(),
            lww(w@, all@.subrange(0, k as int)),
        decreases all@.len() - k,
    {
        let x = all[k];
        let ghost pre = all@.subrange(0, k as int);
        let ghost old_w = w@;
        assert(all@.subrange(0, k + 1) =~= pre.push(x));
        match find_neighbor(&w, x.neighbor) {
            Some(j) => {
                if x.timestamp > w[j].timestamp {
                    w.set(j, x);
                }
                proof {
                    lemma_reduce_found(old_w, pre, x, j as int, w@);
                }
            },
            None => {
                w.push(x);
                proof {
                    lemma_reduce_new(old_w, pre, x);
                }
            },
        }
        k = k + 1;
    }
    assert(all@.subrange(0, all@.len() as int) =~= all@);
    w
}

/// The last-write-wins reduction of `all`, in ascending order of timestamp.
fn merge_ops(all: &Vec<DeltaOperation>) -> (r: Vec<DeltaOperation>)
    ensures
        lww(r@, all@),
        sorted_by_time(r@),
        r@.len() <= all@.len(),
{
    let w = reduce_latest(all);
    let mut r: Vec<DeltaOperation> = Vec::new();
    let mut i: usize = 0;
    proof {
        lemma_lww_len(w@, all@);
        reveal(taken_from);
        reveal(covers);
        reveal(latest);
    }
    while i < w.len()
        invariant
            i <= w@.len(),
            lww(w@, all@),
            sorted_by_time(r@),
            lww(r@, w@.subrange(0, i as int)),
        decreases w@.len() - i,
    {
        let ghost before = r@;
        let pos = insert_sorted(&mut r, w[i]);
        proof {
            lemma_insert_step(before, w@, i as int, pos as int);
        }
        i = i + 1;
    }
    proof {
        assert(w@.subrange(0, w@.len() as int) =~= w@);
        lemma_lww_trans(r@, w@, all@);
        lemma_lww_len(r@, all@);
    }
    r
}


/// The bytes that an optional slice holds.
pub open spec fn opt_bytes(base: Option<&[u8]>) -> Option<Seq<u8>> {
    match base {
        Some(b) => Some(b@),
        None => None,
    }
}

/// The bytes of each operand.
pub open spec fn parts_of(operands: Seq<&[u8]>) -> Seq<Seq<u8>> {
    operands.map_values(|s: &[u8]| s@)
}

proof fn lemma_batch_valid(b: Seq<u8>)
    requires
        batch_decodable(b),
    ensures
        all_valid(batch_of_bytes(b)),
{
}

proof fn lemma_batch_concat(a: Seq<u8>, b: Seq<u8>)
    requires
        a.len() % 16 == 0,
        b.len() % 16 == 0,
    ensures
        batch_of_bytes(a + b) == batch_of_bytes(a) + batch_of_bytes(b),
        batch_decodable(a + b) == (batch_decodable(a) && batch_decodable(b)),
{
    let n = a.len() / 16;
    assert forall|k: int| 0 <= k < (a + b).len() / 16 implies #[trigger] chunk(a + b, k) == if k < n {
        chunk(a, k)
    } else {
        chunk(b, k - n)
    } by {
        if k < n {
            assert(chunk(a + b, k) =~= chunk(a, k));
        } else {
            assert(chunk(a + b, k) =~= chunk(b, k - n));
        }
    }
    assert(batch_of_bytes(a + b) =~= batch_of_bytes(a) + batch_of_bytes(b)) by {
        assert forall|k: int| 0 <= k < (a + b).len() / 16 implies batch_of_bytes(a + b)[k] == (
        batch_of_bytes(a) + batch_of_bytes(b))[k] by {
            assert(chunk(a + b, k) == if k < n { chunk(a, k) } else { chunk(b, k - n) });
        }
    }
    if batch_decodable(a) && batch_decodable(b) {
        assert forall|k: int| 0 <= k < (a + b).len() / 16 implies valid_op_type(
            #[trigger] op_of_bytes(chunk(a + b, k)).op_type,
        ) by {
            assert(chunk(a + b, k) == if k < n { chunk(a, k) } else { chunk(b, k - n) });
            if k >= n {
                assert(valid_op_type(op_of_bytes(chunk(b, k - n)).op_type));
            }
        }
    }
    if batch_decodable(a + b) {
        assert forall|k: int| 0 <= k < a.len() / 16 implies valid_op_type(
            #[trigger] op_of_bytes(chunk(a, k)).op_type,
        ) by {
            assert(chunk(a + b, k) == chunk(a, k));
        }
        assert forall|k: int| 0 <= k < b.len() / 16 implies valid_op_type(
            #[trigger] op_of_bytes(chunk(b, k)).op_type,
        ) by {
            assert(chunk(a + b, k + n) == chunk(b, k));
        }
    }
}

proof fn lemma_concat_parts(parts: Seq<Seq<u8>>)
    requires
        forall|i: int| 0 <= i < parts.len() ==> (#[trigger] parts[i]).len() % 16 == 0,
    ensures
        joined_bytes(parts).len() % 16 == 0,
        batch_of_bytes(joined_bytes(parts)) == batches_ops(parts),
        batch_decodable(joined_bytes(parts)) == batches_decodable(parts),
    decreases parts.len(),
{
    if parts.len() == 0 {
        assert(batch_of_bytes(Seq::<u8>::empty()) =~= Seq::<DeltaOperation>::empty());
    } else {
        let init = parts.drop_last();
        assert forall|i: int| 0 <= i < init.len() implies (#[trigger] init[i]).len() % 16 == 0 by {
            assert(init[i] == parts[i]);
        }
        lemma_concat_parts(init);
        assert(parts.last() == parts[parts.len() - 1]);
        lemma_batch_concat(joined_bytes(init), parts.last());
        if batches_decodable(parts) {
            assert forall|i: int| 0 <= i < init.len() implies batch_decodable(#[trigger] init[i]) by {
                assert(init[i] == parts[i]);
            }
        }
        if batches_decodable(init) && batch_decodable(parts.last()) {
            assert forall|i: int| 0 <= i < parts.len() implies batch_decodable(#[trigger] parts[i]) by {
                if i < init.len() {
                    assert(init[i] == parts[i]);
                }
            }
        }
    }
}

/// A partial merge loses nothing: a full merge whose operand is the concatenation of
/// several batches reads exactly the operations it reads from those batches themselves,
/// and can read them in exactly the same cases.
pub proof fn lemma_partial_merge_keeps_ops(base: Option<Seq<u8>>, parts: Seq<Seq<u8>>)
    requires
        forall|i: int| 0 <= i < parts.len() ==> (#[trigger] parts[i]).len() % 16 == 0,
    ensures
        full_merge_readable(base, seq![joined_bytes(parts)]) == full_merge_readable(base, parts),
        full_merge_input(base, seq![joined_bytes(parts)]) == full_merge_input(base, parts),
{
    lemma_concat_parts(parts);
    let one = seq![joined_bytes(parts)];
    assert(one.drop_last() =~= Seq::<Seq<u8>>::empty());
    assert(one.last() == joined_bytes(parts));
    assert(batches_ops(one.drop_last()) =~= Seq::<DeltaOperation>::empty());
    assert(batches_ops(one) =~= batch_of_bytes(joined_bytes(parts)));
    assert(batches_decodable(one) == batch_decodable(joined_bytes(parts))) by {
        if batch_decodable(joined_bytes(parts)) {
            assert forall|i: int| 0 <= i < one.len() implies batch_decodable(#[trigger] one[i]) by {}
        }
        if batches_decodable(one) {
            assert(batch_decodable(one[0]));
        }
    }
}

proof fn lemma_taken_valid(r: Seq<DeltaOperation>, all: Seq<DeltaOperation>)
    requires
        taken_from(r, all),
        all_valid(all),
    ensures
        all_valid(r),
{
    reveal(taken_from);
    assert forall|i: int| 0 <= i < r.len() implies valid_op_type(#[trigger] r[i].op_type) by {
        assert(all.contains(r[i]));
    }
}

impl DeltaLog {
    /// An empty log.
    pub fn new() -> (r: Self)
        ensures
            r.ops@.len() == 0,
    {
        DeltaLog { ops: Vec::new() }
    }

    /// A log of the given operations, sorted by timestamp.
    pub fn from_ops(ops: Vec<DeltaOperation>) -> (r: Self)
        ensures
            sorted_by_time(r.ops@),
            r.ops@.to_multiset() == ops@.to_multiset(),
    {
        let mut sorted: Vec<DeltaOperation> = Vec::new();
        let mut i: usize = 0;
        proof {
            assert(ops@.subrange(0, 0) =~= Seq::<DeltaOperation>::empty());
            assert(sorted@ =~= Seq::<DeltaOperation>::empty());
        }
        while i < ops.len()
            invariant
                i <= ops@.len(),
                sorted_by_time(sorted@),
                sorted@.to_multiset() == ops@.subrange(0, i as int).to_multiset(),
            decreases ops@.len() - i,
        {
            let ghost before = sorted@;
            let pos = insert_sorted(&mut sorted, ops[i]);
            proof {
                vstd::seq_lib::to_multiset_insert(before, pos as int, ops@[i as int]);
                assert(ops@.subrange(0, i + 1) =~= ops@.subrange(0, i as int).push(ops@[i as int]));
                vstd::seq_lib::to_multiset_build(ops@.subrange(0, i as int), ops@[i as int]);
            }
            i = i + 1;
        }
        assert(ops@.subrange(0, ops@.len() as int) =~= ops@);
        DeltaLog { ops: sorted }
    }

    /// Number of operations.
    pub fn len(&self) -> (r: usize)
        ensures
            r == self.ops@.len(),
    {
        self.ops.len()
    }

    /// Whether the log holds no operation.
    pub fn is_empty(&self) -> (r: bool)
        ensures
            r == (self.ops@.len() == 0),
    {
        self.ops.len() == 0
    }

    /// The operations.
    pub fn ops(&self) -> (r: &[DeltaOperation])
        ensures
            r@ == self.ops@,
    {
        self.ops.as_slice()
    }

    /// Inserts an operation after those with a timestamp not above its own, so that a
    /// sorted log stays sorted.
    pub fn add_op(&mut self, op: DeltaOperation)
        ensures
            exists|pos: int| 0 <= pos <= old(self).ops@.len() && final(self).ops@ == old(self).ops@.insert(pos, op),
            sorted_by_time(old(self).ops@) ==> sorted_by_time(final(self).ops@),
    {
        let pos = insert_sorted(&mut self.ops, op);
        assert(final(self).ops@ == old(self).ops@.insert(pos as int, op));
    }

    /// The bytes of the log: the count, then the records.
    pub fn encode(&self) -> (r: Vec<u8>)
        requires
            self.ops@.len() <= u32::MAX,
        ensures
            r@ == log_bytes(self.ops@),
    {
        let mut bytes = u32_to_le_bytes(self.ops.len() as u32);
        let mut records = DeltaOperation::encode_batch(self.ops.as_slice());
        bytes.append(&mut records);
        bytes
    }

    /// Reads a log: a count, then exactly that many records.
    pub fn decode(bytes: &[u8]) -> (r: Result<Self, DeltaError>)
        ensures
            r is Ok <==> log_decodable(bytes@),
            r matches Ok(log) ==> log.ops@ == log_of_bytes(bytes@),
            r matches Err(e) ==> e == (if bytes@.len() < 4 {
                DeltaError::MissingCount
            } else if bytes@.len() - 4 != 16 * spec_u32_from_le_bytes(bytes@.subrange(0, 4)) {
                DeltaError::BadLogLength
            } else {
                DeltaError::BadOperationType
            }),
    {
        if bytes.len() < 4 {
            return Err(DeltaError::MissingCount);
        }
        let count = u32_from_le_bytes(slice_subrange(bytes, 0, 4)) as usize;
        let rest = bytes.len() - 4;
        proof {
            assert((rest % 16 == 0 && rest / 16 == count) <==> rest == 16 * count) by (nonlinear_arith);
        }
        if rest % ENCODED_SIZE != 0 || rest / ENCODED_SIZE != count {
            return Err(DeltaError::BadLogLength);
        }
        let body = slice_subrange(bytes, 4, bytes.len());
        match DeltaOperation::decode_batch(body) {
            Ok(ops) => Ok(DeltaLog { ops }),
            Err(_) => Err(DeltaError::BadOperationType),
        }
    }

    /// Merges logs: for each neighbor, the operation with the largest timestamp survives;
    /// the result is sorted by timestamp.
    pub fn merge(logs: &[DeltaLog]) -> (r: Self)
        ensures
            lww(r.ops@, all_ops(logs@)),
            sorted_by_time(r.ops@),
    {
        let mut all: Vec<DeltaOperation> = Vec::new();
        let mut i: usize = 0;
        while i < logs.len()
            invariant
                i <= logs@.len(),
                all@ == all_ops(logs@.subrange(0, i as int)),
            decreases logs@.len() - i,
        {
            let ops = &logs[i].ops;
            let ghost start = all@;
            let mut j: usize = 0;
            while j < ops.len()
                invariant
                    j <= ops@.len(),
                    all@ == start + ops@.subrange(0, j as int),
                decreases ops@.len() - j,
            {
                all.push(ops[j]);
                assert(all@ =~= start + ops@.subrange(0, j + 1));
                j = j + 1;
            }
            proof {
                let sub = logs@.subrange(0, i + 1);
                assert(sub.drop_last() =~= logs@.subrange(0, i as int));
                assert(all@ =~= start + ops@);
            }
            i = i + 1;
        }
        assert(logs@.subrange(0, logs@.len() as int) =~= logs@);
        DeltaLog { ops: merge_ops(&all) }
    }

    /// Merges `other` into this log, as `merge` does with the two logs.
    pub fn merge_with(&mut self, other: &DeltaLog)
        ensures
            lww(final(self).ops@, old(self).ops@ + other.ops@),
            sorted_by_time(final(self).ops@),
    {
        let mut all: Vec<DeltaOperation> = Vec::new();
        let mut i: usize = 0;
        while i < self.ops.len()
            invariant
                i <= self.ops@.len(),
                all@ == self.ops@.subrange(0, i as int),
            decreases self.ops@.len() - i,
        {
            all.push(self.ops[i]);
            assert(all@ =~= self.ops@.subrange(0, i + 1));
            i = i + 1;
        }
        let mut j: usize = 0;
        while j < other.ops.len()
            invariant
                j <= other.ops@.len(),
                all@ == self.ops@ + other.ops@.subrange(0, j as int),
            decreases other.ops@.len() - j,
        {
            all.push(other.ops[j]);
            assert(all@ =~= self.ops@ + other.ops@.subrange(0, j + 1));
            j = j + 1;
        }
        assert(all@ =~= old(self).ops@ + other.ops@);
        self.ops = merge_ops(&all);
    }

    /// The full merge of a key-value store's merge operator: decodes the base log (if any)
    /// and each operand batch, reduces all their operations last-write-wins, and encodes
    /// the result as a log. `None` when the base or an operand does not decode.
    pub fn merge_for_rocksdb(base: Option<&[u8]>, operands: &[&[u8]]) -> (r: Option<Vec<u8>>)
        ensures
            r is Some ==> full_merge_readable(opt_bytes(base), parts_of(operands@)),
            full_merge_readable(opt_bytes(base), parts_of(operands@)) && full_merge_input(
                opt_bytes(base),
                parts_of(operands@),
            ).len() <= u32::MAX ==> r is Some,
            r matches Some(b) ==> {
                &&& log_decodable(b@)
                &&& lww(log_of_bytes(b@), full_merge_input(opt_bytes(base), parts_of(operands@)))
                &&& sorted_by_time(log_of_bytes(b@))
                &&& b@ == log_bytes(log_of_bytes(b@))
            },
    {
        let ghost parts = parts_of(operands@);
        let mut all: Vec<DeltaOperation> = Vec::new();
        match base {
            Some(b) => match DeltaLog::decode(b) {
                Ok(log) => {
                    all = log.ops;
                },
                Err(_) => {
                    return None;
                },
            },
            None => {},
        }
        let ghost base_ops = all@;
        proof {
            assert(all_valid(base_ops)) by {
                if let Some(b) = base {
                    lemma_batch_valid(b@.subrange(4, b@.len() as int));
                }
            }
        }
        let mut i: usize = 0;
        while i < operands.len()
            invariant
                i <= operands@.len(),
                parts == parts_of(operands@),
                all@ == base_ops + batches_ops(parts.subrange(0, i as int)),
                batches_decodable(parts.subrange(0, i as int)),
                all_valid(all@),
            decreases operands@.len() - i,
        {
            let operand = operands[i];
            match DeltaOperation::decode_batch(operand) {
                Ok(ops) => {
                    let ghost start = all@;
                    let mut j: usize = 0;
                    while j < ops.len()
                        invariant
                            j <= ops@.len(),
                            all@ == start + ops@.subrange(0, j as int),
                            all_valid(start),
                            all_valid(ops@),
                        decreases ops@.len() - j,
                    {
                        all.push(ops[j]);
                        assert(all@ =~= start + ops@.subrange(0, j + 1));
                        j = j + 1;
                    }
                    proof {
                        lemma_batch_valid(operand@);
                        let sub = parts.subrange(0, i + 1);
                        assert(sub.drop_last() =~= parts.subrange(0, i as int));
                        assert(sub.last() == operand@);
                        assert(all@ =~= base_ops + batches_ops(sub));
                        assert forall|k: int| 0 <= k < sub.len() implies batch_decodable(#[trigger] sub[k]) by {
                            if k < i {
                                assert(sub[k] == parts.subrange(0, i as int)[k]);
                            }
                        }
                    }
                },
                Err(_) => {
                    proof {
                        assert(!batch_decodable(parts[i as int]));
                    }
                    return None;
                },
            }
            i = i + 1;
        }
        proof {
            assert(parts.subrange(0, parts.len() as int) =~= parts);
        }
        let merged = merge_ops(&all);
        if merged.len() > u32::MAX as usize {
            return None;
        }
        let log = DeltaLog { ops: merged };
        let bytes = log.encode();
        proof {
            lemma_taken_valid(log.ops@, all@);
            lemma_log_round_trip(log.ops@);
        }
        Some(bytes)
    }

    /// The partial merge of a key-value store's merge operator: the operand batches
    /// concatenated as they are. `None` when an operand is not a whole number of records.
    pub fn partial_merge_for_rocksdb(operands: &[&[u8]]) -> (r: Option<Vec<u8>>)
        ensures
            r is Some <==> forall|i: int| 0 <= i < operands@.len() ==> (#[trigger] operands@[i])@.len() % 16 == 0,
            r matches Some(b) ==> b@ == joined_bytes(parts_of(operands@)),
    {
        let mut k: usize = 0;
        while k < operands.len()
            invariant
                k <= operands@.len(),
                forall|i: int| 0 <= i < k ==> (#[trigger] operands@[i])@.len() % 16 == 0,
            decreases operands@.len() - k,
        {
            if operands[k].len() % ENCODED_SIZE != 0 {
                return None;
            }
            k = k + 1;
        }
        let ghost parts = parts_of(operands@);
        let mut result: Vec<u8> = Vec::new();
        let mut i: usize = 0;
        while i < operands.len()
            invariant
                i <= operands@.len(),
                parts == parts_of(operands@),
                result@ == joined_bytes(parts.subrange(0, i as int)),
            decreases operands@.len() - i,
        {
            let operand = operands[i];
            let ghost start = result@;
            let mut j: usize = 0;
            while j < operand.len()
                invariant
                    j <= operand@.len(),
                    result@ == start + operand@.subrange(0, j as int),
                decreases operand@.len() - j,
            {
                result.push(operand[j]);
                assert(result@ =~= start + operand@.subrange(0, j + 1));
                j = j + 1;
            }
            proof {
                let sub = parts.subrange(0, i + 1);
                assert(sub.drop_last() =~= parts.subrange(0, i as int));
                assert(sub.last() == operand@);
                assert(result@ =~= start + operand@);
            }
            i = i + 1;
        }
        assert(parts.subrange(0, parts.len() as int) =~= parts);
        Some(result)
    }
}

/// Timestamps pairwise distinct.
pub open spec fn distinct_times(ops: Seq<DeltaOperation>) -> bool {
    forall|i: int, j: int| 0 <= i < j < ops.len() ==> #[trigger] ops[i].timestamp != #[trigger] ops[j].timestamp
}

/// Ascending in timestamp, with no two equal.
pub open spec fn strictly_by_time(ops: Seq<DeltaOperation>) -> bool {
    forall|i: int, j: int| 0 <= i < j < ops.len() ==> #[trigger] ops[i].timestamp < #[trigger] ops[j].timestamp
}

proof fn lemma_same_in_all(all: Seq<DeltaOperation>, x: DeltaOperation, y: DeltaOperation)
    requires
        distinct_times(all),
        all.contains(x),
        all.contains(y),
        x.timestamp == y.timestamp,
    ensures
        x == y,
{
    let i = choose|i: int| 0 <= i < all.len() && all[i] == x;
    let j = choose|j: int| 0 <= j < all.len() && all[j] == y;
    if i < j {
        assert(all[i].timestamp != all[j].timestamp);
    } else if j < i {
        assert(all[j].timestamp != all[i].timestamp);
    }
}

proof fn lemma_lww_contains(r1: Seq<DeltaOperation>, r2: Seq<DeltaOperation>, all: Seq<DeltaOperation>, x: DeltaOperation)
    requires
        lww(r1, all),
        lww(r2, all),
        distinct_times(all),
        r1.contains(x),
    ensures
        r2.contains(x),
{
    reveal(taken_from);
    reveal(covers);
    reveal(latest);
    let i = choose|i: int| 0 <= i < r1.len() && r1[i] == x;
    assert(all.contains(r1[i]));
    let k = choose|k: int| 0 <= k < all.len() && all[k] == x;
    assert(has_neighbor(r2, all[k].neighbor));
    let i2 = choose|i2: int| 0 <= i2 < r2.len() && r2[i2].neighbor == all[k].neighbor;
    let y = r2[i2];
    assert(all.contains(r2[i2]));
    let k2 = choose|k2: int| 0 <= k2 < all.len() && all[k2] == y;
    assert(all[k2].timestamp <= r1[i].timestamp);
    assert(all[k].timestamp <= r2[i2].timestamp);
    lemma_same_in_all(all, x, y);
}

proof fn lemma_lww_strict(r: Seq<DeltaOperation>, all: Seq<DeltaOperation>)
    requires
        lww(r, all),
        sorted_by_time(r),
        distinct_times(all),
    ensures
        strictly_by_time(r),
{
    reveal(taken_from);
    assert forall|i: int, j: int| 0 <= i < j < r.len() implies #[trigger] r[i].timestamp < #[trigger] r[j].timestamp by {
        if r[i].timestamp == r[j].timestamp {
            assert(all.contains(r[i]));
            assert(all.contains(r[j]));
            lemma_same_in_all(all, r[i], r[j]);
            assert(r[i].neighbor != r[j].neighbor);
        }
    }
}

proof fn lemma_strict_same_elements(r1: Seq<DeltaOperation>, r2: Seq<DeltaOperation>)
    requires
        strictly_by_time(r1),
        strictly_by_time(r2),
        forall|x: DeltaOperation| r1.contains(x) <==> r2.contains(x),
    ensures
        r1 == r2,
    decreases r1.len() + r2.len(),
{
    if r1.len() == 0 {
        if r2.len() > 0 {
            assert(r2.contains(r2[0]));
        }
        assert(r1 =~= r2);
    } else if r2.len() == 0 {
        assert(r1.contains(r1[0]));
    } else {
        assert(r1.contains(r1[0]));
        let j = choose|j: int| 0 <= j < r2.len() && r2[j] == r1[0];
        assert(r2.contains(r2[0]));
        let i = choose|i: int| 0 <= i < r1.len() && r1[i] == r2[0];
        if j > 0 {
            assert(r2[0].timestamp < r2[j].timestamp);
            if i > 0 {
                assert(r1[0].timestamp < r1[i].timestamp);
            }
        }
        assert(r1[0] == r2[0]);
        let t1 = r1.drop_first();
        let t2 = r2.drop_first();
        assert forall|x: DeltaOperation| t1.contains(x) <==> t2.contains(x) by {
            if t1.contains(x) {
                let a = choose|a: int| 0 <= a < t1.len() && t1[a] == x;
                assert(r1[a + 1] == x);
                assert(r1[0].timestamp < r1[a + 1].timestamp);
                assert(r2.contains(x));
                let b = choose|b: int| 0 <= b < r2.len() && r2[b] == x;
                if b == 0 {
                    assert(false);
                }
                assert(t2[b - 1] == x);
            }
            if t2.contains(x) {
                let b = choose|b: int| 0 <= b < t2.len() && t2[b] == x;
                assert(r2[b + 1] == x);
                assert(r2[0].timestamp < r2[b + 1].timestamp);
                assert(r1.contains(x));
                let a = choose|a: int| 0 <= a < r1.len() && r1[a] == x;
                if a == 0 {
                    assert(false);
                }
                assert(t1[a - 1] == x);
            }
        }
        lemma_strict_same_elements(t1, t2);
        assert(r1 =~= seq![r1[0]] + t1);
        assert(r2 =~= seq![r2[0]] + t2);
    }
}

/// With pairwise distinct timestamps, the last-write-wins reduction sorted by timestamp is
/// unique: two full merges of the same operations give the same bytes. Together with
/// `lemma_partial_merge_keeps_ops`, merging the concatenation of batches gives the same
/// bytes as merging the batches themselves.
pub proof fn lemma_merge_outputs_agree(all: Seq<DeltaOperation>, b1: Seq<u8>, b2: Seq<u8>)
    requires
        distinct_times(all),
        lww(log_of_bytes(b1), all),
        lww(log_of_bytes(b2), all),
        sorted_by_time(log_of_bytes(b1)),
        sorted_by_time(log_of_bytes(b2)),
        b1 == log_bytes(log_of_bytes(b1)),
        b2 == log_bytes(log_of_bytes(b2)),
    ensures
        b1 == b2,
{
    let r1 = log_of_bytes(b1);
    let r2 = log_of_bytes(b2);
    lemma_lww_strict(r1, all);
    lemma_lww_strict(r2, all);
    assert forall|x: DeltaOperation| r1.contains(x) <==> r2.contains(x) by {
        if r1.contains(x) {
            lemma_lww_contains(r1, r2, all, x);
        }
        if r2.contains(x) {
            lemma_lww_contains(r2, r1, all, x);
        }
    }
    lemma_strict_same_elements(r1, r2);
}

} // verus!
