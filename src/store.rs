//! The key-value store's side of the peer-sync core: its errors, its keys
//! (a column prefix followed by the item's key) and how an atomic batch of
//! store operations becomes key-level writes.
use vstd::prelude::*;
use crate::hashing::Hash256;
use ssz::DecodeError;
use vstd::string::StringSliceAdditionalSpecFns;

verus! {

#[verifier::external_type_specification]
#[verifier::external_body]
pub struct ExDecodeError(DecodeError);

/// An error reported by the database itself.
#[derive(Debug)]
pub struct DBError {
    pub message: String,
}

impl DBError {
    pub fn new(message: String) -> (r: Self)
        ensures
            r.message@ == message@,
    {
        Self { message }
    }
}

/// The store's errors.
#[derive(Debug)]
pub enum Error {
    SszDecodeError(DecodeError),
    PartialBeaconStateError,
    DBError { message: String },
    RlpError(String),
    BlockNotFound(Hash256),
}

impl From<DecodeError> for Error {
    fn from(e: DecodeError) -> (r: Error) {
        Error::SszDecodeError(e)
    }
}

impl vstd::std_specs::convert::FromSpecImpl<DecodeError> for Error {
    open spec fn obeys_from_spec() -> bool {
        true
    }

    open spec fn from_spec(e: DecodeError) -> Error {
        Error::SszDecodeError(e)
    }
}

impl From<DBError> for Error {
    fn from(e: DBError) -> (r: Error) {
        Error::DBError { message: e.message }
    }
}

impl vstd::std_specs::convert::FromSpecImpl<DBError> for Error {
    open spec fn obeys_from_spec() -> bool {
        true
    }

    open spec fn from_spec(e: DBError) -> Error {
        Error::DBError { message: e.message }
    }
}

/// Used for keying the database: the bytes of a column's name followed by
/// the bytes of the item's key.
#[derive(Clone, Debug)]
pub struct BytesKey {
    key: Vec<u8>,
}

impl View for BytesKey {
    type V = Seq<u8>;

    closed spec fn view(&self) -> Seq<u8> {
        self.key@
    }
}

impl BytesKey {
    /// A key holding a copy of `key`.
    pub fn from_u8(key: &[u8]) -> (r: Self)
        ensures
            r@ == key@,
    {
        BytesKey { key: vstd::slice::slice_to_vec(key) }
    }

    /// The key's bytes.
    pub fn as_slice(&self) -> (r: &[u8])
        ensures
            r@ == self@,
    {
        self.key.as_slice()
    }
}

/// The key of `key` in the column named `col`.
pub fn get_key_for_col(col: &str, key: &[u8]) -> (r: BytesKey)
    ensures
        r@ == col.spec_bytes() + key@,
{
    let mut bytes = vstd::slice::slice_to_vec(col.as_bytes());
    let mut tail = vstd::slice::slice_to_vec(key);
    bytes.append(&mut tail);
    BytesKey { key: bytes }
}

/// The columns that the batch writes to.
#[derive(Clone, Copy, Debug, PartialEq, Eq, Structural)]
pub enum DBColumn {
    BeaconBlock,
    BeaconState,
    BeaconStateSummary,
}

/// The bytes that name a column in keys.
pub open spec fn column_prefix(col: DBColumn) -> Seq<u8> {
    match col {
        DBColumn::BeaconBlock => seq![98u8, 108u8, 107u8],
        DBColumn::BeaconState => seq![115u8, 116u8, 101u8],
        DBColumn::BeaconStateSummary => seq![98u8, 115u8, 115u8],
    }
}

impl DBColumn {
    /// The bytes that name the column in keys.
    pub fn prefix(&self) -> (r: Vec<u8>)
        ensures
            r@ == column_prefix(*self),
    {
        let r = match self {
            DBColumn::BeaconBlock => vec![98u8, 108u8, 107u8],
            DBColumn::BeaconState => vec![115u8, 116u8, 101u8],
            DBColumn::BeaconStateSummary => vec![98u8, 115u8, 115u8],
        };
        assert(r@ =~= column_prefix(*self));
        r
    }
}

/// The key of the item with root `root` in column `col`.
pub fn column_key(col: DBColumn, root: &Hash256) -> (r: BytesKey)
    ensures
        r@ == column_prefix(col) + root@,
{
    let mut bytes = col.prefix();
    let mut i: usize = 0;
    while i < 32
        invariant
            i <= 32,
            bytes@ == column_prefix(col) + root@.subrange(0, i as int),
        decreases 32 - i,
    {
        bytes.push(root[i]);
        i = i + 1;
        proof {
            assert(column_prefix(col) + root@.subrange(0, i as int) =~= (column_prefix(col)
                + root@.subrange(0, i - 1)).push(root@[i - 1]));
        }
    }
    assert(root@.subrange(0, 32) =~= root@);
    BytesKey { key: bytes }
}

/// An operation of an atomic batch, with the serialized value it writes.
#[derive(Clone, Debug)]
pub enum StoreOp {
    PutBlock(Hash256, Vec<u8>),
    PutState(Hash256, Vec<u8>),
    DeleteBlock(Hash256),
    DeleteState(Hash256, u64),
}

/// A key-level write of the batch.
#[derive(Clone, Debug)]
pub enum BatchOp {
    Put(BytesKey, Vec<u8>),
    Delete(BytesKey),
}

/// What a key-level write amounts to: the key, and the value for a put.
pub open spec fn batch_op_view(op: BatchOp) -> (Seq<u8>, Option<Seq<u8>>) {
    match op {
        BatchOp::Put(k, v) => (k@, Some(v@)),
        BatchOp::Delete(k) => (k@, None),
    }
}

/// The key-level writes for one operation. Deleting a state always removes
/// its summary, and removes the full state only at an epoch boundary, where
/// full states are kept.
pub open spec fn writes_of(op: StoreOp, slots_per_epoch: u64) -> Seq<(Seq<u8>, Option<Seq<u8>>)> {
    match op {
        StoreOp::PutBlock(root, value) => seq![
            (column_prefix(DBColumn::BeaconBlock) + root@, Some(value@)),
        ],
        StoreOp::PutState(root, value) => seq![
            (column_prefix(DBColumn::BeaconState) + root@, Some(value@)),
        ],
        StoreOp::DeleteBlock(root) => seq![(column_prefix(DBColumn::BeaconBlock) + root@, None)],
        StoreOp::DeleteState(root, slot) => if slot % slots_per_epoch == 0 {
            seq![
                (column_prefix(DBColumn::BeaconStateSummary) + root@, None),
                (column_prefix(DBColumn::BeaconState) + root@, None),
            ]
        } else {
            seq![(column_prefix(DBColumn::BeaconStateSummary) + root@, None)]
        },
    }
}

/// The key-level writes for a sequence of operations, in order.
pub open spec fn batch_writes(ops: Seq<StoreOp>, slots_per_epoch: u64) -> Seq<(Seq<u8>, Option<Seq<u8>>)>
    decreases ops.len(),
{
    if ops.len() == 0 {
        Seq::empty()
    } else {
        writes_of(ops[0], slots_per_epoch) + batch_writes(ops.subrange(1, ops.len() as int), slots_per_epoch)
    }
}

/// Turns a batch of store operations into the key-level writes that
/// the database applies in one atomic write.
pub fn batch_ops(ops: Vec<StoreOp>, slots_per_epoch: u64) -> (r: Vec<BatchOp>)
    requires
        slots_per_epoch > 0,
    ensures
        r@.map_values(|b: BatchOp| batch_op_view(b)) == batch_writes(ops@, slots_per_epoch),
{
    let ghost all = ops@;
    let mut rest = ops;
    let mut out: Vec<BatchOp> = Vec::new();
    proof {
        assert(out@.map_values(|b: BatchOp| batch_op_view(b)) =~= Seq::empty());
    }
    while rest.len() > 0
        invariant
            slots_per_epoch > 0,
            out@.map_values(|b: BatchOp| batch_op_view(b)) + batch_writes(rest@, slots_per_epoch)
                == batch_writes(all, slots_per_epoch),
        decreases rest.len(),
    {
        let ghost before = rest@;
        let ghost done = out@.map_values(|b: BatchOp| batch_op_view(b));
        let op = rest.remove(0);
        proof {
            assert(before.subrange(1, before.len() as int) =~= rest@);
            assert(batch_writes(before, slots_per_epoch) == writes_of(op, slots_per_epoch)
                + batch_writes(rest@, slots_per_epoch));
        }
        let ghost w = writes_of(op, slots_per_epoch);
        match op {
            StoreOp::PutBlock(root, value) => {
                out.push(BatchOp::Put(column_key(DBColumn::BeaconBlock, &root), value));
            },
            StoreOp::PutState(root, value) => {
                out.push(BatchOp::Put(column_key(DBColumn::BeaconState, &root), value));
            },
            StoreOp::DeleteBlock(root) => {
                out.push(BatchOp::Delete(column_key(DBColumn::BeaconBlock, &root)));
            },
            StoreOp::DeleteState(root, slot) => {
                out.push(BatchOp::Delete(column_key(DBColumn::BeaconStateSummary, &root)));
                if slot % slots_per_epoch == 0 {
                    out.push(BatchOp::Delete(column_key(DBColumn::BeaconState, &root)));
                }
            },
        }
        proof {
            let now = out@.map_values(|b: BatchOp| batch_op_view(b));
            assert(now =~= done + w);
            assert(now + batch_writes(rest@, slots_per_epoch) =~= done + (w + batch_writes(
                rest@,
                slots_per_epoch,
            )));
        }
    }
    proof {
        assert(batch_writes(rest@, slots_per_epoch) =~= Seq::empty());
        let now = out@.map_values(|b: BatchOp| batch_op_view(b));
        assert(now + Seq::empty() =~= now);
    }
    out
}

} // verus!
