//! The request/response server: which blocks answer a `BlocksByRange` or a
//! `BlocksByRoot` request, in what order, and how the stream ends.
use vstd::prelude::*;
use crate::hashing::Hash256;

verus! {

/// A request for the blocks of `count` consecutive slots from `start_slot`.
#[derive(Clone, Copy, Debug)]
pub struct BlocksByRangeRequest {
    pub start_slot: u64,
    pub count: u64,
}

/// A request for the blocks with the given roots.
#[derive(Clone, Debug)]
pub struct BlocksByRootRequest {
    pub block_roots: Vec<Hash256>,
}

/// A block read from the store: its slot and its serialized bytes.
#[derive(Clone, Debug)]
pub struct StoredBlock {
    pub slot: u64,
    pub ssz_bytes: Vec<u8>,
}

/// The kind of stream that a termination marker ends.
#[derive(Clone, Copy, Debug, PartialEq, Eq, Structural)]
pub enum ResponseTermination {
    BlocksByRange,
    BlocksByRoot,
}

/// One message of a response stream.
#[derive(Clone, Debug)]
pub enum ResponseChunk {
    BlocksByRange(Vec<u8>),
    BlocksByRoot(Vec<u8>),
    StreamTermination(ResponseTermination),
}

/// `slot` lies in `[start_slot, start_slot + count)`.
pub open spec fn slot_in_range(slot: u64, req: BlocksByRangeRequest) -> bool {
    req.start_slot <= slot && slot - req.start_slot < req.count
}

/// The roots, in the chain's descending order, whose slots lie in range.
pub open spec fn range_candidates(chain: Seq<(Hash256, u64)>, req: BlocksByRangeRequest) -> Seq<Hash256>
    decreases chain.len(),
{
    if chain.len() == 0 {
        Seq::empty()
    } else {
        let before = range_candidates(chain.drop_last(), req);
        if slot_in_range(chain.last().1, req) {
            before.push(chain.last().0)
        } else {
            before
        }
    }
}

/// Picks, from the chain's `(root, slot)` pairs in descending slot order,
/// the roots of the slots that the request covers, keeping their order.
pub fn range_candidate_roots(chain_roots: &Vec<(Hash256, u64)>, req: &BlocksByRangeRequest) -> (r: Vec<
    Hash256,
>)
    ensures
        r@ == range_candidates(chain_roots@, *req),
{
    let mut out: Vec<Hash256> = Vec::new();
    let mut i: usize = 0;
    while i < chain_roots.len()
        invariant
            i <= chain_roots@.len(),
            out@ == range_candidates(chain_roots@.subrange(0, i as int), *req),
        decreases chain_roots.len() - i,
    {
        let (root, slot) = chain_roots[i];
        proof {
            assert(chain_roots@.subrange(0, i + 1).drop_last() =~= chain_roots@.subrange(0, i as int));
        }
        if req.start_slot <= slot && slot - req.start_slot < req.count {
            out.push(root);
        }
        i = i + 1;
    }
    proof {
        assert(chain_roots@.subrange(0, chain_roots@.len() as int) =~= chain_roots@);
    }
    out
}

/// The blocks of a range response, taken from the fetched blocks (in the
/// chain's descending order) last to first: missing ones and those outside
/// the requested slots are skipped, and a block is kept only when its slot
/// is past the last one kept, so one block per slot goes out in ascending
/// order.
pub open spec fn range_blocks(fetched: Seq<Option<StoredBlock>>, req: BlocksByRangeRequest) -> Seq<StoredBlock>
    decreases fetched.len(),
{
    if fetched.len() == 0 {
        Seq::empty()
    } else {
        let later = range_blocks(fetched.subrange(1, fetched.len() as int), req);
        match fetched[0] {
            Some(b) => if slot_in_range(b.slot, req) && (later.len() == 0 || later.last().slot < b.slot) {
                later.push(b)
            } else {
                later
            },
            None => later,
        }
    }
}

/// The slots of `blocks` strictly increase and all lie in the requested range.
pub open spec fn ascending_in_range(blocks: Seq<StoredBlock>, req: BlocksByRangeRequest) -> bool {
    &&& forall|i: int, j: int| 0 <= i < j < blocks.len() ==> #[trigger] blocks[i].slot < #[trigger] blocks[j].slot
    &&& forall|i: int| 0 <= i < blocks.len() ==> slot_in_range(#[trigger] blocks[i].slot, req)
}

/// Whatever order the fetched blocks come in, a range response sends at
/// most one block per slot, in ascending order, and only slots the request
/// covers.
pub proof fn lemma_range_blocks_ascending(fetched: Seq<Option<StoredBlock>>, req: BlocksByRangeRequest)
    ensures
        ascending_in_range(range_blocks(fetched, req), req),
    decreases fetched.len(),
{
    if fetched.len() > 0 {
        let later = range_blocks(fetched.subrange(1, fetched.len() as int), req);
        lemma_range_blocks_ascending(fetched.subrange(1, fetched.len() as int), req);
        let r = range_blocks(fetched, req);
        if r != later {
            assert forall|i: int, j: int| 0 <= i < j < r.len() implies #[trigger] r[i].slot < #[trigger] r[j].slot by {
                if j == r.len() - 1 && i < later.len() - 1 {
                    assert(later[i].slot < later[later.len() - 1].slot);
                }
            }
        }
    }
}

/// The response chunks that carry `blocks`, in order.
pub open spec fn range_chunks(blocks: Seq<StoredBlock>) -> Seq<ResponseChunk> {
    blocks.map_values(|b: StoredBlock| ResponseChunk::BlocksByRange(b.ssz_bytes))
}

/// Builds the response to a `BlocksByRange` request from the blocks fetched
/// for the candidate roots (descending): one chunk per slot of the range,
/// in ascending order, then the stream termination.
pub fn blocks_by_range_response(fetched: Vec<Option<StoredBlock>>, req: &BlocksByRangeRequest) -> (r: Vec<
    ResponseChunk,
>)
    ensures
        r@ == range_chunks(range_blocks(fetched@, *req)).push(
            ResponseChunk::StreamTermination(ResponseTermination::BlocksByRange),
        ),
        ascending_in_range(range_blocks(fetched@, *req), *req),
{
    let ghost f = fetched@;
    let mut rest = fetched;
    let mut out: Vec<ResponseChunk> = Vec::new();
    let mut last_slot: Option<u64> = None;
    let ghost mut blocks: Seq<StoredBlock> = Seq::empty();
    proof {
        assert(f.subrange(f.len() as int, f.len() as int) =~= Seq::<Option<StoredBlock>>::empty());
        assert(range_chunks(blocks) =~= out@);
    }
    while rest.len() > 0
        invariant
            rest.len() <= f.len(),
            rest@ == f.subrange(0, rest@.len() as int),
            blocks == range_blocks(f.subrange(rest@.len() as int, f.len() as int), *req),
            out@ == range_chunks(blocks),
            last_slot == (if blocks.len() == 0 {
                None::<u64>
            } else {
                Some(blocks.last().slot)
            }),
        decreases rest.len(),
    {
        let ghost m = rest@.len() as int;
        let item = rest.pop().unwrap();
        proof {
            let tail = f.subrange(m - 1, f.len() as int);
            assert(tail[0] == f[m - 1]);
            assert(tail.subrange(1, tail.len() as int) =~= f.subrange(m, f.len() as int));
            assert(rest@ =~= f.subrange(0, m - 1));
        }
        match item {
            Some(block) => {
                let ghost b = block;
                let later_slot = match last_slot {
                    Some(s) => block.slot > s,
                    None => true,
                };
                if req.start_slot <= block.slot && block.slot - req.start_slot < req.count && later_slot {
                    last_slot = Some(block.slot);
                    out.push(ResponseChunk::BlocksByRange(block.ssz_bytes));
                    proof {
                        blocks = blocks.push(b);
                        assert(range_chunks(blocks) =~= out@);
                    }
                }
            },
            None => {},
        }
    }
    proof {
        assert(f.subrange(0, f.len() as int) =~= f);
        lemma_range_blocks_ascending(f, *req);
    }
    out.push(ResponseChunk::StreamTermination(ResponseTermination::BlocksByRange));
    out
}

/// The chunks that answer a `BlocksByRoot` request: the blocks that were
/// found, in the order of the requested roots.
pub open spec fn root_chunks(found: Seq<Option<Vec<u8>>>) -> Seq<ResponseChunk>
    decreases found.len(),
{
    if found.len() == 0 {
        Seq::empty()
    } else {
        let rest = root_chunks(found.subrange(1, found.len() as int));
        match found[0] {
            Some(bytes) => seq![ResponseChunk::BlocksByRoot(bytes)] + rest,
            None => rest,
        }
    }
}

/// Builds the response to a `BlocksByRoot` request from the store's answer
/// for each requested root: a chunk for each block found, in request
/// order, then the stream termination, also when none was found.
pub fn blocks_by_root_response(found: Vec<Option<Vec<u8>>>) -> (r: Vec<ResponseChunk>)
    ensures
        r@ == root_chunks(found@).push(
            ResponseChunk::StreamTermination(ResponseTermination::BlocksByRoot),
        ),
{
    let ghost f = found@;
    let mut rest = found;
    let mut out: Vec<ResponseChunk> = Vec::new();
    while rest.len() > 0
        invariant
            out@ + root_chunks(rest@) == root_chunks(f),
        decreases rest.len(),
    {
        let ghost before = rest@;
        let item = rest.remove(0);
        proof {
            assert(before.subrange(1, before.len() as int) =~= rest@);
        }
        match item {
            Some(bytes) => {
                let ghost c = ResponseChunk::BlocksByRoot(bytes);
                out.push(ResponseChunk::BlocksByRoot(bytes));
                proof {
                    assert(root_chunks(before) == seq![c] + root_chunks(rest@));
                    assert(out@ + root_chunks(rest@) =~= (out@.drop_last() + seq![c]) + root_chunks(
                        rest@,
                    ));
                    assert(out@.drop_last() + (seq![c] + root_chunks(rest@)) =~= (out@.drop_last()
                        + seq![c]) + root_chunks(rest@));
                }
            },
            None => {},
        }
    }
    proof {
        assert(root_chunks(rest@) =~= Seq::<ResponseChunk>::empty());
        assert(out@ + Seq::<ResponseChunk>::empty() =~= out@);
    }
    out.push(ResponseChunk::StreamTermination(ResponseTermination::BlocksByRoot));
    out
}

} // verus!
