//! A streaming Merkle-root hasher that folds leaves into a binary tree as
//! they arrive, holding one half-finished node per level at most.
use vstd::prelude::*;
use vstd::arithmetic::power2::*;
use vstd::arithmetic::div_mod::*;
use vstd::arithmetic::mul::*;
use crate::hashing::{
    Hash256, ZERO_HASHES_MAX_INDEX, hash_concat, hash_pair, zero_bytes, zero_hash, zero_subtree_root,
};
use smallvec::SmallVec;

verus! {

/// Leaves are numbered from the left; a missing leaf is all zeros.
pub open spec fn leaf_at(leaves: Seq<Seq<u8>>, i: int) -> Seq<u8> {
    if 0 <= i < leaves.len() {
        leaves[i]
    } else {
        zero_bytes()
    }
}

/// The root of the `index`-th subtree of height `height` (leaves have
/// height 0), over the zero-padded leaves.
pub open spec fn subtree_root(leaves: Seq<Seq<u8>>, height: nat, index: int) -> Seq<u8>
    decreases height,
{
    if height == 0 {
        leaf_at(leaves, index)
    } else {
        hash_pair(
            subtree_root(leaves, (height - 1) as nat, 2 * index),
            subtree_root(leaves, (height - 1) as nat, 2 * index + 1),
        )
    }
}

/// The root of a tree with `depth` layers over `leaves`, zero-padded to its
/// `2^(depth-1)` leaves; leaves past that capacity take no part.
pub open spec fn merkle_root(leaves: Seq<Seq<u8>>, depth: nat) -> Seq<u8> {
    subtree_root(leaves, (depth - 1) as nat, 0)
}

/// Returns the parent of node with id `i`.
pub fn get_parent(i: usize) -> (r: usize)
    ensures
        r == i / 2,
{
    i / 2
}

proof fn lemma_leading_zeros_bounds(i: u64)
    requires
        i >= 1,
    ensures
        0 <= vstd::std_specs::bits::u64_leading_zeros(i) <= 63,
        pow2((63 - vstd::std_specs::bits::u64_leading_zeros(i)) as nat) <= i,
        i < pow2((64 - vstd::std_specs::bits::u64_leading_zeros(i)) as nat),
    decreases i,
{
    reveal(vstd::std_specs::bits::u64_leading_zeros);
    if i == 1 {
        assert(vstd::std_specs::bits::u64_leading_zeros(0) == 64);
        assert(vstd::std_specs::bits::u64_leading_zeros(1) == 63);
        lemma2_to64();
    } else {
        lemma_leading_zeros_bounds(i / 2);
        let e = (63 - vstd::std_specs::bits::u64_leading_zeros(i / 2)) as nat;
        lemma_pow2_unfold(e + 1);
        lemma_pow2_unfold(e + 2);
    }
}

/// Gets the depth of a node with an id of `i`: the root, id 1, has depth 0.
pub fn get_depth(i: usize) -> (r: usize)
    requires
        i >= 1,
    ensures
        r < 64,
        pow2(r as nat) <= i < pow2(r as nat + 1),
{
    let x: u64 = i as u64;
    let zeros: u32 = x.leading_zeros();
    proof {
        lemma_leading_zeros_bounds(x);
    }
    (63 - zeros) as usize
}


/// The deepest tree the hasher builds: its padding draws on the cached
/// zero-subtree roots.
pub const MAX_TREE_DEPTH: usize = ZERO_HASHES_MAX_INDEX + 1;

/// The id of the node at `height` (leaves have height 0) and `index` from
/// the left, in a tree of `depth` layers whose root has id 1.
pub open spec fn node_id(depth: nat, height: nat, index: int) -> int {
    pow2((depth - 1 - height) as nat) + index
}

/// The number of leaves that a tree of `depth` layers holds.
pub open spec fn capacity(depth: nat) -> nat {
    pow2((depth - 1) as nat)
}

#[derive(Clone, Debug, PartialEq, Eq, Structural)]
pub enum Error {
    /// The maximum number of leaves defined by the initialization `depth` has been exceeded.
    MaximumLeavesExceeded { max_leaves: usize },
}

/// A node that has had a left child supplied, but not a right child. It keeps
/// the left child's 32 bytes until the right child arrives.
#[derive(Clone, Copy)]
pub struct HalfNode {
    /// The tree id of the node; the root has id `1`.
    id: usize,
    /// The value of the left child.
    left: Hash256,
}

/// A stack of half-nodes held inline for up to 64 entries: a tree of the
/// deepest supported depth needs at most 47, so hashing never touches the
/// heap.
#[verifier::external_body]
pub struct HalfNodeStack {
    nodes: SmallVec<[HalfNode; 64]>,
}

/// The half-nodes held in a stack, bottom first.
pub uninterp spec fn half_nodes_of(v: HalfNodeStack) -> Seq<HalfNode>;

/// Relies on `SmallVec::new`: the new vector is empty.
#[verifier::external_body]
fn half_nodes_new() -> (r: HalfNodeStack)
    ensures
        half_nodes_of(r) == Seq::<HalfNode>::empty(),
{
    HalfNodeStack { nodes: SmallVec::new() }
}

/// Relies on `SmallVec::push`: `node` is appended at the end; it panics only
/// when the length would overflow `usize`.
#[verifier::external_body]
fn half_nodes_push(v: &mut HalfNodeStack, node: HalfNode)
    requires
        half_nodes_of(*old(v)).len() < usize::MAX,
    ensures
        half_nodes_of(*final(v)) == half_nodes_of(*old(v)).push(node),
{
    v.nodes.push(node)
}

/// Relies on `SmallVec::pop`: it removes and returns the last element, or
/// returns `None` and leaves an empty vector as it is.
#[verifier::external_body]
fn half_nodes_pop(v: &mut HalfNodeStack) -> (r: Option<HalfNode>)
    ensures
        half_nodes_of(*old(v)).len() == 0 ==> r is None && half_nodes_of(*final(v)) == half_nodes_of(*old(v)),
        half_nodes_of(*old(v)).len() > 0 ==> r == Some(half_nodes_of(*old(v)).last())
            && half_nodes_of(*final(v)) == half_nodes_of(*old(v)).drop_last(),
{
    v.nodes.pop()
}

/// Relies on `SmallVec`'s slice view: `last` gives the last element, if any.
#[verifier::external_body]
fn half_nodes_last(v: &HalfNodeStack) -> (r: Option<HalfNode>)
    ensures
        half_nodes_of(*v).len() == 0 ==> r is None,
        half_nodes_of(*v).len() > 0 ==> r == Some(half_nodes_of(*v).last()),
{
    v.nodes.last().copied()
}

/// The number of leaves covered by the first `k` complete subtrees whose
/// heights are `levels`.
pub open spec fn span(levels: Seq<nat>, k: int) -> nat
    decreases k,
{
    if k <= 0 {
        0
    } else {
        span(levels, k - 1) + pow2(levels[k - 1])
    }
}

/// `nodes` are half-nodes whose left children are complete subtrees of the
/// heights `lv`, strictly decreasing, laid side by side from the first leaf.
#[verifier::opaque]
spec fn stack_valid(nodes: Seq<HalfNode>, lv: Seq<nat>, d: nat, leaves: Seq<Seq<u8>>) -> bool {
    &&& nodes.len() == lv.len()
    &&& forall|k: int| 0 <= k < lv.len() ==> #[trigger] lv[k] + 2 <= d
    &&& forall|i: int, j: int| 0 <= i < j < lv.len() ==> #[trigger] lv[i] > #[trigger] lv[j]
    &&& forall|k: int| 0 <= k < lv.len() ==> span(lv, k) % pow2(#[trigger] lv[k] + 1) == 0
    &&& forall|k: int|
        0 <= k < lv.len() ==> (#[trigger] nodes[k]).id == node_id(
            d,
            lv[k] + 1,
            (span(lv, k) / pow2(lv[k] + 1)) as int,
        )
    &&& forall|k: int|
        0 <= k < lv.len() ==> (#[trigger] nodes[k]).left@ == subtree_root(
            leaves,
            lv[k],
            (span(lv, k) / pow2(lv[k])) as int,
        )
    &&& span(lv, lv.len() as int) <= capacity(d)
}

/// Provides a Merkle-root hasher that takes leaves one by one and completes
/// a partial tree with zero leaves, precomputed per level.
///
/// The stack holds, bottom to top, the half-nodes of strictly decreasing
/// height whose left subtrees together cover the leaves seen so far.
pub struct MerkleStream {
    /// The nodes that are half-complete and awaiting a right node.
    half_nodes: HalfNodeStack,
    /// The depth of the tree that will be produced.
    depth: usize,
    /// The id of the next leaf that we are expecting to process.
    next_leaf: usize,
    /// The id of the first leaf, `2^(depth-1)`, which is also the capacity.
    first_leaf: usize,
    /// Set to `Some(root)` when the root of the tree is known.
    root: Option<Hash256>,
    /// Every leaf accepted so far.
    leaves: Ghost<Seq<Seq<u8>>>,
    /// The height of each half-node's left child, bottom to top.
    levels: Ghost<Seq<nat>>,
}

impl MerkleStream {
    /// The number of layers of the tree.
    pub closed spec fn tree_depth(&self) -> nat {
        self.depth as nat
    }

    /// The leaves accepted so far, in order.
    pub closed spec fn leaves(&self) -> Seq<Seq<u8>> {
        self.leaves@
    }

    /// The stack describes complete subtrees of `leaves`, from the left.
    closed spec fn stack_ok(&self, leaves: Seq<Seq<u8>>) -> bool {
        stack_valid(half_nodes_of(self.half_nodes), self.levels@, self.depth as nat, leaves)
    }

    /// The number of leaves that the stack's left subtrees cover.
    closed spec fn covered(&self) -> nat {
        span(self.levels@, self.levels@.len() as int)
    }

    /// The stream is well formed.
    pub closed spec fn wf(&self) -> bool {
        let d = self.depth as nat;
        let n = self.leaves@.len();
        &&& 1 <= d <= MAX_TREE_DEPTH
        &&& pow2(d + 1) <= usize::MAX
        &&& self.first_leaf == capacity(d)
        &&& n <= pow2(d)
        &&& self.next_leaf == capacity(d) + n
        &&& if n >= capacity(d) {
            &&& self.root is Some
            &&& self.root->Some_0@ == merkle_root(self.leaves@, d)
            &&& half_nodes_of(self.half_nodes).len() == 0
            &&& self.levels@.len() == 0
        } else {
            &&& self.root is None
            &&& self.stack_ok(self.leaves@)
            &&& span(self.levels@, self.levels@.len() as int) == n
        }
    }
}


proof fn lemma_pow2_mono(a: nat, b: nat)
    requires
        a <= b,
    ensures
        pow2(a) <= pow2(b),
{
    if a < b {
        lemma_pow2_strictly_increases(a, b);
    }
}

proof fn lemma_log_unique(x: int, a: nat, b: nat)
    requires
        pow2(a) <= x < pow2(a + 1),
        pow2(b) <= x < pow2(b + 1),
    ensures
        a == b,
{
    if a < b {
        lemma_pow2_mono(a + 1, b);
    } else if b < a {
        lemma_pow2_mono(b + 1, a);
    }
}

proof fn lemma_span_prefix(a: Seq<nat>, b: Seq<nat>, k: int)
    requires
        0 <= k <= a.len(),
        k <= b.len(),
        forall|i: int| 0 <= i < k ==> a[i] == b[i],
    ensures
        span(a, k) == span(b, k),
    decreases k,
{
    if k > 0 {
        lemma_span_prefix(a, b, k - 1);
    }
}

proof fn lemma_span_mono(lv: Seq<nat>, i: int, j: int)
    requires
        0 <= i <= j,
    ensures
        span(lv, i) <= span(lv, j),
    decreases j - i,
{
    if i < j {
        lemma_span_mono(lv, i, j - 1);
    }
}

proof fn lemma_span_divisible(lv: Seq<nat>, k: int, m: nat)
    requires
        0 <= k <= lv.len(),
        forall|i: int| 0 <= i < k ==> lv[i] >= m,
    ensures
        span(lv, k) % pow2(m) == 0,
    decreases k,
{
    lemma_pow2_pos(m);
    if k == 0 {
        lemma_mod_multiples_basic(0, pow2(m) as int);
    } else {
        lemma_span_divisible(lv, k - 1, m);
        let e = (lv[k - 1] - m) as nat;
        lemma_pow2_adds(e, m);
        assert(e + m == lv[k - 1]);
        assert(pow2(lv[k - 1]) == pow2(e) * pow2(m));
        let p = pow2(m) as int;
        let a = span(lv, k - 1) as int;
        lemma_fundamental_div_mod(a, p);
        assert(a == p * (a / p));
        assert(span(lv, k) == a + pow2(e) * p);
        assert(a + pow2(e) * p == (a / p + pow2(e)) * p) by (nonlinear_arith)
            requires
                a == p * (a / p),
        ;
        lemma_mod_multiples_basic(a / p + pow2(e), p);
        assert(span(lv, k) == (a / p + pow2(e)) * p);
    }
}

proof fn lemma_aligned(s: nat, h: nat)
    requires
        s % pow2(h + 1) == 0,
    ensures
        s % pow2(h) == 0,
        s / pow2(h) == 2 * (s / pow2(h + 1)),
        (s / pow2(h)) * pow2(h) == s,
        (s + pow2(h)) / pow2(h) == s / pow2(h) + 1,
        (s + pow2(h)) / pow2(h + 1) == s / pow2(h + 1),
{
    let p = pow2(h) as int;
    lemma_pow2_pos(h);
    lemma_pow2_unfold(h + 1);
    let q = (s / pow2(h + 1)) as int;
    lemma_fundamental_div_mod(s as int, 2 * p);
    assert(s == (2 * q) * p) by (nonlinear_arith)
        requires
            s == (2 * p) * q + 0,
    ;
    lemma_div_by_multiple(2 * q, p);
    lemma_mod_multiples_basic(2 * q, p);
    assert(s + p == (2 * q + 1) * p) by (nonlinear_arith)
        requires
            s == (2 * q) * p,
    ;
    lemma_div_by_multiple(2 * q + 1, p);
    lemma_fundamental_div_mod_converse(s + p, 2 * p, q, p);
}

proof fn lemma_index_bound(x: int, e: nat, m: nat)
    requires
        0 <= x < pow2(m),
        e <= m,
    ensures
        x / (pow2(e) as int) < pow2((m - e) as nat),
{
    lemma_pow2_adds((m - e) as nat, e);
    lemma_pow2_pos(e);
    lemma_mul_is_commutative(pow2((m - e) as nat) as int, pow2(e) as int);
    lemma_multiply_divide_lt(x, pow2(e) as int, pow2((m - e) as nat) as int);
}

proof fn lemma_node_id_range(d: nat, height: nat, j: int)
    requires
        height + 1 <= d,
        0 <= j < pow2((d - 1 - height) as nat),
    ensures
        pow2((d - 1 - height) as nat) <= node_id(d, height, j) < pow2((d - 1 - height) as nat + 1),
{
    lemma_pow2_unfold((d - 1 - height) as nat + 1);
}

proof fn lemma_parent_id(d: nat, h: nat, s: nat)
    requires
        h + 2 <= d,
    ensures
        node_id(d, h, (s / pow2(h)) as int) / 2 == node_id(d, h + 1, (s / pow2(h + 1)) as int),
{
    lemma_pow2_unfold((d - 1 - h) as nat);
    assert((d - 1 - h) as nat - 1 == (d - 1 - (h + 1)) as nat);
    lemma_pow2_pos(h);
    lemma_pow2_unfold(h + 1);
    lemma_div_denominator(s as int, pow2(h) as int, 2);
    let a = pow2((d - 1 - (h + 1)) as nat) as int;
    let j = (s / pow2(h)) as int;
    assert((2 * a + j) / 2 == a + j / 2) by {
        lemma_fundamental_div_mod(j, 2);
        lemma_fundamental_div_mod_converse(2 * a + j, 2, a + j / 2, j % 2);
    }
}

proof fn lemma_zero_subtree(leaves: Seq<Seq<u8>>, h: nat, j: int)
    requires
        j >= 0,
        j * pow2(h) >= leaves.len(),
    ensures
        subtree_root(leaves, h, j) == zero_subtree_root(h),
    decreases h,
{
    if h == 0 {
        assert(pow2(0) == 1) by {
            lemma2_to64();
        }
    } else {
        lemma_pow2_unfold(h);
        let p = pow2((h - 1) as nat) as int;
        assert((2 * j) * p == j * pow2(h)) by (nonlinear_arith)
            requires
                pow2(h) == 2 * p,
        ;
        assert((2 * j + 1) * p >= j * pow2(h)) by (nonlinear_arith)
            requires
                pow2(h) == 2 * p,
                p >= 0,
        ;
        lemma_zero_subtree(leaves, (h - 1) as nat, 2 * j);
        lemma_zero_subtree(leaves, (h - 1) as nat, 2 * j + 1);
    }
}

proof fn lemma_subtree_push(leaves: Seq<Seq<u8>>, x: Seq<u8>, h: nat, j: int)
    requires
        j >= 0,
        (j + 1) * pow2(h) <= leaves.len(),
    ensures
        subtree_root(leaves.push(x), h, j) == subtree_root(leaves, h, j),
    decreases h,
{
    if h == 0 {
        assert(pow2(0) == 1) by {
            lemma2_to64();
        }
    } else {
        lemma_pow2_unfold(h);
        let p = pow2((h - 1) as nat) as int;
        assert((2 * j + 2) * p == (j + 1) * pow2(h)) by (nonlinear_arith)
            requires
                pow2(h) == 2 * p,
        ;
        assert((2 * j + 1) * p <= (2 * j + 2) * p) by (nonlinear_arith)
            requires
                p >= 0,
        ;
        lemma_subtree_push(leaves, x, (h - 1) as nat, 2 * j);
        lemma_subtree_push(leaves, x, (h - 1) as nat, 2 * j + 1);
    }
}


proof fn lemma_span_ge_len(lv: Seq<nat>, k: int)
    requires
        0 <= k,
    ensures
        span(lv, k) >= k,
    decreases k,
{
    if k > 0 {
        lemma_span_ge_len(lv, k - 1);
        lemma_pow2_pos(lv[k - 1]);
    }
}

proof fn lemma_not_aligned(c: nat, h: nat, m: nat)
    requires
        c % pow2(h + 1) == 0,
        h + 1 <= m,
    ensures
        c + pow2(h) != pow2(m),
{
    let p = pow2(h) as int;
    lemma_pow2_pos(h);
    lemma_pow2_unfold(h + 1);
    lemma_pow2_adds((m - (h + 1)) as nat, h + 1);
    let r = pow2((m - (h + 1)) as nat) as int;
    let q = (c / pow2(h + 1)) as int;
    lemma_fundamental_div_mod(c as int, 2 * p);
    assert(c + p != r * (2 * p)) by (nonlinear_arith)
        requires
            p > 0,
            c == (2 * p) * q + 0,
    ;
}

proof fn lemma_pow2_zero()
    ensures
        pow2(0) == 1,
        pow2(1) == 2,
{
    lemma2_to64();
}

impl MerkleStream {
    /// `2^e` as a machine integer.
    fn power_of_two(e: usize) -> (r: usize)
        requires
            pow2(e as nat) <= usize::MAX,
        ensures
            r == pow2(e as nat),
    {
        let mut r: usize = 1;
        let mut i: usize = 0;
        proof {
            lemma_pow2_zero();
        }
        while i < e
            invariant
                i <= e,
                r == pow2(i as nat),
                pow2(e as nat) <= usize::MAX,
            decreases e - i,
        {
            proof {
                lemma_pow2_unfold(i as nat + 1);
                lemma_pow2_mono(i as nat + 1, e as nat);
            }
            r = r * 2;
            i = i + 1;
        }
        r
    }

    /// Instantiates a new, empty hasher for a tree with `depth` layers, which
    /// has room for `2^(depth - 1)` leaves.
    pub fn new(depth: usize) -> (r: Self)
        requires
            1 <= depth <= MAX_TREE_DEPTH,
            pow2(depth as nat + 1) <= usize::MAX,
        ensures
            r.wf(),
            r.tree_depth() == depth,
            r.leaves() == Seq::<Seq<u8>>::empty(),
    {
        proof {
            lemma_pow2_mono((depth - 1) as nat, depth as nat + 1);
            lemma_pow2_pos((depth - 1) as nat);
            lemma_pow2_unfold(depth as nat);
        }
        let first_leaf = Self::power_of_two(depth - 1);
        let r = MerkleStream {
            half_nodes: half_nodes_new(),
            depth,
            next_leaf: first_leaf,
            first_leaf,
            root: None,
            leaves: Ghost(Seq::empty()),
            levels: Ghost(Seq::empty()),
        };
        assert(span(r.levels@, 0) == 0);
        proof {
            lemma_stack_empty(depth as nat, Seq::empty());
        }
        r
    }

    /// The zero-subtree root for the node `id`, which lies at `height`.
    fn zero_hash_for(&self, id: usize, Ghost(height): Ghost<nat>) -> (r: Hash256)
        requires
            1 <= self.depth <= MAX_TREE_DEPTH,
            height + 1 <= self.depth,
            pow2((self.depth - 1 - height) as nat) <= id < pow2((self.depth - height) as nat),
        ensures
            r@ == zero_subtree_root(height),
    {
        proof {
            lemma_pow2_pos((self.depth - 1 - height) as nat);
        }
        let level = get_depth(id);
        proof {
            assert((self.depth - 1 - height) as nat + 1 == (self.depth - height) as nat);
            lemma_log_unique(id as int, level as nat, (self.depth - 1 - height) as nat);
        }
        zero_hash(self.depth - (level + 1))
    }

    /// The stack stays correct when a leaf is appended after those it covers.
    proof fn lemma_stack_push_leaf(&self, leaves: Seq<Seq<u8>>, x: Seq<u8>)
        requires
            self.stack_ok(leaves),
            self.covered() == leaves.len(),
        ensures
            self.stack_ok(leaves.push(x)),
    {
        reveal(stack_valid);
        let lv = self.levels@;
        let nodes = half_nodes_of(self.half_nodes);
        assert forall|k: int| 0 <= k < lv.len() implies (#[trigger] nodes[k]).left@ == subtree_root(
            leaves.push(x),
            lv[k],
            (span(lv, k) / pow2(lv[k])) as int,
        ) by {
            lemma_aligned(span(lv, k), lv[k]);
            lemma_span_mono(lv, k + 1, lv.len() as int);
            let j = (span(lv, k) / pow2(lv[k])) as int;
            assert((j + 1) * pow2(lv[k]) == j * pow2(lv[k]) + pow2(lv[k])) by (nonlinear_arith);
            lemma_subtree_push(leaves, x, lv[k], j);
        }
    }
}



proof fn lemma_stack_shape(nodes: Seq<HalfNode>, lv: Seq<nat>, d: nat, leaves: Seq<Seq<u8>>)
    requires
        stack_valid(nodes, lv, d, leaves),
    ensures
        nodes.len() == lv.len(),
        forall|k: int| 0 <= k < lv.len() ==> #[trigger] lv[k] + 2 <= d,
        forall|i: int, j: int| 0 <= i < j < lv.len() ==> #[trigger] lv[i] > #[trigger] lv[j],
        forall|k: int| 0 <= k < lv.len() ==> span(lv, k) % pow2(#[trigger] lv[k] + 1) == 0,
        span(lv, lv.len() as int) <= capacity(d),
{
    reveal(stack_valid);
}

proof fn lemma_stack_empty(d: nat, leaves: Seq<Seq<u8>>)
    ensures
        stack_valid(Seq::empty(), Seq::empty(), d, leaves),
{
    reveal(stack_valid);
    assert(span(Seq::<nat>::empty(), 0) == 0);
}

proof fn lemma_stack_push(
    nodes: Seq<HalfNode>,
    lv: Seq<nat>,
    d: nat,
    leaves: Seq<Seq<u8>>,
    node: HalfNode,
    h: nat,
)
    requires
        stack_valid(nodes, lv, d, leaves),
        forall|k: int| 0 <= k < lv.len() ==> #[trigger] lv[k] > h,
        h + 2 <= d,
        span(lv, lv.len() as int) + pow2(h) <= capacity(d),
        node.id == node_id(d, h + 1, (span(lv, lv.len() as int) / pow2(h + 1)) as int),
        node.left@ == subtree_root(leaves, h, (span(lv, lv.len() as int) / pow2(h)) as int),
    ensures
        stack_valid(nodes.push(node), lv.push(h), d, leaves),
        span(lv.push(h), lv.len() + 1 as int) == span(lv, lv.len() as int) + pow2(h),
{
    reveal(stack_valid);
    let lv2 = lv.push(h);
    let nodes2 = nodes.push(node);
    assert forall|k: int| 0 <= k <= lv.len() implies span(lv2, k) == span(lv, k) by {
        lemma_span_prefix(lv2, lv, k);
    }
    lemma_span_divisible(lv, lv.len() as int, h + 1);
    assert forall|k: int| 0 <= k < lv2.len() implies span(lv2, k) % pow2(#[trigger] lv2[k] + 1)
        == 0 by {
        if k < lv.len() {
            assert(lv2[k] == lv[k]);
        }
    }
    assert forall|k: int| 0 <= k < lv2.len() implies (#[trigger] nodes2[k]).id == node_id(
        d,
        lv2[k] + 1,
        (span(lv2, k) / pow2(lv2[k] + 1)) as int,
    ) by {
        if k < lv.len() {
            assert(nodes2[k] == nodes[k] && lv2[k] == lv[k]);
        }
    }
    assert forall|k: int| 0 <= k < lv2.len() implies (#[trigger] nodes2[k]).left@ == subtree_root(
        leaves,
        lv2[k],
        (span(lv2, k) / pow2(lv2[k])) as int,
    ) by {
        if k < lv.len() {
            assert(nodes2[k] == nodes[k] && lv2[k] == lv[k]);
        }
    }
    assert forall|i: int, j: int| 0 <= i < j < lv2.len() implies #[trigger] lv2[i]
        > #[trigger] lv2[j] by {
        assert(lv2[i] == lv[i]);
        if j < lv.len() {
            assert(lv2[j] == lv[j]);
        }
    }
    assert forall|k: int| 0 <= k < lv2.len() implies #[trigger] lv2[k] + 2 <= d by {
        if k < lv.len() {
            assert(lv2[k] == lv[k]);
        }
    }
}

proof fn lemma_stack_pop(nodes: Seq<HalfNode>, lv: Seq<nat>, d: nat, leaves: Seq<Seq<u8>>)
    requires
        stack_valid(nodes, lv, d, leaves),
        lv.len() > 0,
    ensures
        stack_valid(nodes.drop_last(), lv.drop_last(), d, leaves),
        span(lv.drop_last(), lv.len() - 1) == span(lv, lv.len() - 1),
{
    reveal(stack_valid);
    let lv2 = lv.drop_last();
    let nodes2 = nodes.drop_last();
    assert forall|k: int| 0 <= k <= lv2.len() implies span(lv2, k) == span(lv, k) by {
        lemma_span_prefix(lv2, lv, k);
    }
    lemma_span_mono(lv, lv.len() - 1, lv.len() as int);
    assert forall|k: int| 0 <= k < lv2.len() implies span(lv2, k) % pow2(#[trigger] lv2[k] + 1)
        == 0 by {
        assert(lv2[k] == lv[k]);
    }
    assert forall|k: int| 0 <= k < lv2.len() implies (#[trigger] nodes2[k]).id == node_id(
        d,
        lv2[k] + 1,
        (span(lv2, k) / pow2(lv2[k] + 1)) as int,
    ) by {
        assert(nodes2[k] == nodes[k] && lv2[k] == lv[k]);
    }
    assert forall|k: int| 0 <= k < lv2.len() implies (#[trigger] nodes2[k]).left@ == subtree_root(
        leaves,
        lv2[k],
        (span(lv2, k) / pow2(lv2[k])) as int,
    ) by {
        assert(nodes2[k] == nodes[k] && lv2[k] == lv[k]);
    }
    assert forall|i: int, j: int| 0 <= i < j < lv2.len() implies #[trigger] lv2[i]
        > #[trigger] lv2[j] by {
        assert(lv2[i] == lv[i] && lv2[j] == lv[j]);
    }
    assert forall|k: int| 0 <= k < lv2.len() implies #[trigger] lv2[k] + 2 <= d by {
        assert(lv2[k] == lv[k]);
    }
}

/// The top half-node is the parent of the subtree of height `h` that starts
/// where the stack's cover ends exactly when its left child has height `h`.
proof fn lemma_top_matches(nodes: Seq<HalfNode>, lv: Seq<nat>, d: nat, leaves: Seq<Seq<u8>>, h: nat)
    requires
        stack_valid(nodes, lv, d, leaves),
        lv.len() > 0,
        forall|k: int| 0 <= k < lv.len() ==> #[trigger] lv[k] >= h,
        h + 2 <= d,
        span(lv, lv.len() as int) + pow2(h) <= capacity(d),
    ensures
        (nodes.last().id == node_id(d, h + 1, (span(lv, lv.len() as int) / pow2(h + 1)) as int))
            <==> (lv.last() == h),
{
    reveal(stack_valid);
    let t = lv.len() - 1;
    let c = span(lv, lv.len() as int);
    let st = span(lv, t);
    let m: nat = (d - 1) as nat;
    let h1: nat = h + 1;
    let l1: nat = lv[t] + 1;
    let parent = node_id(d, h1, (c / pow2(h1)) as int);
    assert(lv[t] + 2 <= d);
    lemma_pow2_pos(h);
    lemma_pow2_pos(lv[t]);
    lemma_pow2_pos(h1);
    lemma_pow2_pos(l1);
    lemma_index_bound(c as int, h1, m);
    lemma_node_id_range(d, h1, (c / pow2(h1)) as int);
    assert(span(lv, t) % pow2(l1) == 0);
    lemma_aligned(st, lv[t]);
    lemma_span_mono(lv, t, lv.len() as int);
    lemma_index_bound(st as int, l1, m);
    lemma_node_id_range(d, l1, (st / pow2(l1)) as int);
    assert(nodes[t].id == node_id(d, l1, (st / pow2(l1)) as int));
    if lv[t] > h {
        lemma_pow2_mono((d - 1 - lv[t]) as nat, (d - 1 - h1) as nat);
        assert(nodes[t].id != parent);
    } else {
        assert(nodes[t].id == parent);
    }
}

/// Completing the top half-node with the value of its right sibling gives
/// the root of the subtree one level up.
proof fn lemma_merge_value(
    nodes: Seq<HalfNode>,
    lv: Seq<nat>,
    d: nat,
    leaves: Seq<Seq<u8>>,
    h: nat,
    v: Seq<u8>,
)
    requires
        stack_valid(nodes, lv, d, leaves),
        lv.len() > 0,
        lv.last() == h,
        v == subtree_root(leaves, h, (span(lv, lv.len() as int) / pow2(h)) as int),
    ensures
        span(lv, lv.len() - 1) % pow2(h + 1) == 0,
        span(lv, lv.len() as int) == span(lv, lv.len() - 1) + pow2(h),
        span(lv, lv.len() as int) / pow2(h + 1) == span(lv, lv.len() - 1) / pow2(h + 1),
        hash_pair(nodes.last().left@, v) == subtree_root(
            leaves,
            h + 1,
            (span(lv, lv.len() - 1) / pow2(h + 1)) as int,
        ),
{
    reveal(stack_valid);
    let t = lv.len() - 1;
    let st = span(lv, t);
    let h1: nat = h + 1;
    assert(lv[t] == h);
    assert(st % pow2(h1) == 0);
    lemma_aligned(st, h);
    lemma_pow2_pos(h);
    lemma_pow2_pos(h1);
    let q = (st / pow2(h1)) as int;
    assert(nodes[t].left@ == subtree_root(leaves, h, (st / pow2(h)) as int));
    assert(st / pow2(h) == 2 * (st / pow2(h1)));
    assert((st / pow2(h)) as int == 2 * q);
    assert((span(lv, lv.len() as int) / pow2(h)) as int == 2 * q + 1);
    assert(subtree_root(leaves, h1, q) == hash_pair(
        subtree_root(leaves, h, 2 * q),
        subtree_root(leaves, h, 2 * q + 1),
    ));
}

impl MerkleStream {
    /// Process a node that will become the left-hand node of some parent: a
    /// new half-node is pushed for the parent. `id` is that of the node.
    fn process_left_node(&mut self, id: usize, preimage: Hash256)
        requires
            old(self).root is None,
            old(self).stack_ok(old(self).leaves@),
            2 <= old(self).depth,
            pow2(old(self).depth as nat + 1) <= usize::MAX,
            old(self).covered() % 2 == 0,
            old(self).covered() + 1 < capacity(old(self).depth as nat),
            forall|k: int| 0 <= k < old(self).levels@.len() ==> #[trigger] old(self).levels@[k] >= 1,
            id == node_id(old(self).depth as nat, 0, old(self).covered() as int),
            preimage@ == subtree_root(old(self).leaves@, 0, old(self).covered() as int),
        ensures
            final(self).root is None,
            final(self).depth == old(self).depth,
            final(self).first_leaf == old(self).first_leaf,
            final(self).next_leaf == old(self).next_leaf,
            final(self).leaves == old(self).leaves,
            final(self).stack_ok(final(self).leaves@),
            final(self).covered() == old(self).covered() + 1,
    {
        let ghost d = self.depth as nat;
        let ghost lv = self.levels@;
        let ghost s = self.covered();
        let ghost nodes = half_nodes_of(self.half_nodes);
        proof {
            lemma_pow2_zero();
            lemma_parent_id(d, 0, s);
            lemma_span_ge_len(lv, lv.len() as int);
            lemma_stack_shape(nodes, lv, d, self.leaves@);
            lemma_pow2_mono((d - 1) as nat, d + 1);
        }
        let parent = get_parent(id);
        let node = HalfNode { id: parent, left: preimage };
        proof {
            lemma_stack_push(nodes, lv, d, self.leaves@, node, 0);
        }
        half_nodes_push(&mut self.half_nodes, node);
        self.levels = Ghost(lv.push(0));
    }

    /// Process a node that will become the right-hand node of some parent.
    /// The supplied `id` is that of the node and `preimage` is its value.
    ///
    /// This completes the parent, then climbs the tree completing every
    /// half-node that was waiting for the value just made, and pushes a new
    /// half-node where none waits; it records the root once node 1 completes.
    #[verifier::rlimit(100)]
    fn process_right_node(&mut self, id: usize, preimage: Hash256, Ghost(height): Ghost<nat>)
        requires
            old(self).root is None,
            old(self).stack_ok(old(self).leaves@),
            old(self).depth <= MAX_TREE_DEPTH,
            pow2(old(self).depth as nat + 1) <= usize::MAX,
            height + 2 <= old(self).depth,
            old(self).covered() % pow2(height) == 0,
            old(self).covered() + pow2(height) <= capacity(old(self).depth as nat),
            forall|k: int| 0 <= k < old(self).levels@.len() ==> #[trigger] old(self).levels@[k] >= height,
            id == node_id(old(self).depth as nat, height, (old(self).covered() / pow2(height)) as int),
            preimage@ == subtree_root(old(self).leaves@, height, (old(self).covered() / pow2(height)) as int),
        ensures
            final(self).depth == old(self).depth,
            final(self).first_leaf == old(self).first_leaf,
            final(self).next_leaf == old(self).next_leaf,
            final(self).leaves == old(self).leaves,
            old(self).covered() + pow2(height) == capacity(old(self).depth as nat) ==> {
                &&& final(self).root is Some
                &&& final(self).root->Some_0@ == merkle_root(old(self).leaves@, old(self).depth as nat)
                &&& half_nodes_of(final(self).half_nodes).len() == 0
                &&& final(self).levels@.len() == 0
            },
            old(self).covered() + pow2(height) < capacity(old(self).depth as nat) ==> {
                &&& final(self).root is None
                &&& final(self).stack_ok(final(self).leaves@)
                &&& final(self).covered() == old(self).covered() + pow2(height)
            },
    {
        let ghost d = self.depth as nat;
        let ghost leaves = self.leaves@;
        let ghost end = self.covered() + pow2(height);
        let ghost mut h: nat = height;
        proof {
            lemma_parent_id(d, h, self.covered());
        }
        let mut parent = get_parent(id);
        let mut value = preimage;
        loop
            invariant_except_break
                self.root is None,
                self.stack_ok(leaves),
                h + 2 <= d,
                self.covered() % pow2(h) == 0,
                self.covered() + pow2(h) == end,
                forall|k: int| 0 <= k < self.levels@.len() ==> #[trigger] self.levels@[k] >= h,
                value@ == subtree_root(leaves, h, (self.covered() / pow2(h)) as int),
                parent == node_id(d, h + 1, (self.covered() / pow2(h + 1)) as int),
            invariant
                self.depth == old(self).depth,
                self.first_leaf == old(self).first_leaf,
                self.next_leaf == old(self).next_leaf,
                self.leaves@ == leaves,
                d == self.depth as nat,
                d <= MAX_TREE_DEPTH,
                pow2(d + 1) <= usize::MAX,
                end <= capacity(d),
            ensures
                self.depth == old(self).depth,
                self.first_leaf == old(self).first_leaf,
                self.next_leaf == old(self).next_leaf,
                self.leaves@ == leaves,
                end == capacity(d) ==> {
                    &&& self.root is Some
                    &&& self.root->Some_0@ == merkle_root(leaves, d)
                    &&& half_nodes_of(self.half_nodes).len() == 0
                    &&& self.levels@.len() == 0
                },
                end < capacity(d) ==> {
                    &&& self.root is None
                    &&& self.stack_ok(leaves)
                    &&& self.covered() == end
                },
            decreases d - h,
        {
            let ghost lv = self.levels@;
            let ghost nodes = half_nodes_of(self.half_nodes);
            let ghost c = self.covered();
            let ghost t = lv.len() - 1;
            proof {
                lemma_stack_shape(nodes, lv, d, leaves);
                if lv.len() > 0 {
                    lemma_top_matches(nodes, lv, d, leaves, h);
                }
            }
            let top = half_nodes_last(&self.half_nodes);
            let merge = match top {
                Some(node) => node.id == parent,
                None => false,
            };
            if merge {
                let popped = half_nodes_pop(&mut self.half_nodes);
                let node = popped.unwrap();
                self.levels = Ghost(lv.drop_last());
                let ghost st = span(lv, t);
                proof {
                    assert(lv[t] == h);
                    lemma_merge_value(nodes, lv, d, leaves, h, value@);
                    lemma_stack_pop(nodes, lv, d, leaves);
                    assert(self.covered() == st);
                    assert(node == nodes[t]);
                }
                value = hash_concat(&node.left, &value);
                proof {
                    assert(value@ == subtree_root(leaves, h + 1, (st / pow2(h + 1)) as int));
                    lemma_pow2_pos(h);
                    lemma_pow2_unfold(h + 1);
                    lemma_index_bound(c as int, h + 1, (d - 1) as nat);
                }
                if parent == 1 {
                    proof {
                        lemma_pow2_zero();
                        if h + 2 < d {
                            lemma_pow2_mono(1, (d - 1 - (h + 1)) as nat);
                        }
                        assert(h + 2 == d);
                        assert(st / pow2(h + 1) == 0);
                        if lv.len() > 1 {
                            assert(lv[0] > lv[t]);
                            assert(lv[0] + 2 <= d);
                        }
                    }
                    self.root = Some(value);
                    break;
                }
                proof {
                    if h + 2 == d {
                        lemma_pow2_zero();
                        assert(c / pow2(h + 1) == 0);
                    }
                    assert(h + 3 <= d);
                    lemma_parent_id(d, h + 1, st);
                    assert forall|k: int| 0 <= k < self.levels@.len() implies #[trigger] self.levels@[k]
                        >= h + 1 by {
                        assert(lv[k] > lv[t]);
                    }
                }
                parent = get_parent(parent);
                proof {
                    h = h + 1;
                }
            } else {
                let node = HalfNode { id: parent, left: value };
                proof {
                    assert forall|k: int| 0 <= k < lv.len() implies #[trigger] lv[k] > h by {
                        if k < t {
                            assert(lv[k] > lv[t]);
                        }
                    }
                    lemma_span_divisible(lv, lv.len() as int, h + 1);
                    lemma_not_aligned(c, h, (d - 1) as nat);
                    lemma_span_ge_len(lv, lv.len() as int);
                    lemma_pow2_mono((d - 1) as nat, d + 1);
                    lemma_stack_push(nodes, lv, d, leaves, node, h);
                }
                half_nodes_push(&mut self.half_nodes, node);
                self.levels = Ghost(lv.push(h));
                break;
            }
        }
    }
}


/// The sibling to the right of the top half-node's left child lies past
/// every leaf: it is the root of an all-zero subtree, and it completes the
/// top half-node.
#[verifier::rlimit(80)]
proof fn lemma_padding_step(nodes: Seq<HalfNode>, lv: Seq<nat>, d: nat, leaves: Seq<Seq<u8>>)
    requires
        stack_valid(nodes, lv, d, leaves),
        lv.len() > 0,
        leaves.len() <= span(lv, lv.len() as int) < capacity(d),
        pow2(d + 1) <= usize::MAX,
    ensures
        ({
            let h = lv.last();
            let c = span(lv, lv.len() as int);
            let j = (c / pow2(h)) as int;
            &&& h + 2 <= d
            &&& c % pow2(h) == 0
            &&& c + pow2(h) <= capacity(d)
            &&& forall|k: int| 0 <= k < lv.len() ==> #[trigger] lv[k] >= h
            &&& 2 * nodes.last().id + 1 == node_id(d, h, j)
            &&& pow2((d - 1 - h) as nat) <= node_id(d, h, j) < pow2((d - h) as nat)
            &&& node_id(d, h, j) <= usize::MAX
            &&& subtree_root(leaves, h, j) == zero_subtree_root(h)
        }),
{
    reveal(stack_valid);
    let t = lv.len() - 1;
    let h = lv[t];
    let c = span(lv, lv.len() as int);
    let st = span(lv, t);
    let h1: nat = h + 1;
    let m: nat = (d - 1) as nat;
    assert(h + 2 <= d);
    assert(st % pow2(h1) == 0);
    lemma_aligned(st, h);
    lemma_pow2_pos(h);
    lemma_pow2_pos(h1);
    lemma_pow2_unfold(h1);
    lemma_pow2_unfold((d - 1 - h) as nat);
    lemma_span_mono(lv, t, lv.len() as int);
    lemma_index_bound(c as int, h, m);
    lemma_pow2_adds((d - 1 - h) as nat, h);
    lemma_pow2_mono(m, d + 1);
    let j = (c / pow2(h)) as int;
    let p = pow2(h) as int;
    let r = pow2((d - 1 - h) as nat) as int;
    assert(j == 2 * (st / pow2(h1)) + 1);
    assert(st as int == (st as int / p) * p);
    assert(j == st as int / p + 1);
    assert(c == j * p) by (nonlinear_arith)
        requires
            c == st + p,
            st == (st as int / p) * p,
            j == st as int / p + 1,
    ;
    assert(j < r);
    assert(c + p <= r * p) by (nonlinear_arith)
        requires
            c == j * p,
            j < r,
            p > 0,
    ;
    lemma_mod_multiples_basic(j, p);
    lemma_zero_subtree(leaves, h, j);
    lemma_node_id_range(d, h, j);
    assert((d - 1 - h) as nat + 1 == (d - h) as nat);
    assert((d - 1 - h) as nat - 1 == (d - 1 - h1) as nat);
    lemma_pow2_mono((d - h) as nat, d + 1);
    assert(nodes[t].id == node_id(d, h1, (st / pow2(h1)) as int));
    assert(pow2((d - 1 - h) as nat) == 2 * pow2((d - 1 - h1) as nat));
    assert(2 * nodes[t].id + 1 == node_id(d, h, j));
    assert(node_id(d, h, j) < pow2((d - h) as nat));
    assert(node_id(d, h, j) <= usize::MAX);
    assert forall|k: int| 0 <= k < lv.len() implies #[trigger] lv[k] >= h by {
        if k < t {
            assert(lv[k] > lv[t]);
        }
    }
}

proof fn lemma_capacity_parity(d: nat, n: nat)
    requires
        d >= 2,
    ensures
        capacity(d) >= 2,
        (capacity(d) + n) % 2 == n % 2,
{
    lemma_pow2_zero();
    lemma_pow2_mono(1, (d - 1) as nat);
    lemma_pow2_unfold((d - 1) as nat);
    let k = pow2((d - 2) as nat) as int;
    assert(capacity(d) == 2 * k);
    lemma_mod_multiples_vanish(k, n as int, 2);
}

proof fn lemma_top_level_positive(lv: Seq<nat>, n: nat)
    requires
        span(lv, lv.len() as int) == n,
        n % 2 == 0,
        lv.len() > 0,
        span(lv, lv.len() - 1) % pow2(lv.last() + 1) == 0,
        forall|i: int, j: int| 0 <= i < j < lv.len() ==> #[trigger] lv[i] > #[trigger] lv[j],
    ensures
        forall|k: int| 0 <= k < lv.len() ==> #[trigger] lv[k] >= 1,
{
    let t = lv.len() - 1;
    lemma_pow2_zero();
    if lv[t] == 0 {
        assert(span(lv, t) % 2 == 0);
        assert(n == span(lv, t) + 1);
        assert(false);
    }
    assert forall|k: int| 0 <= k < lv.len() implies #[trigger] lv[k] >= 1 by {
        if k < t {
            assert(lv[k] > lv[t]);
        }
    }
}

/// Where the `n`-th leaf enters a tree of depth two or more: with an even
/// id it is a left child, and every subtree on the stack is higher than a
/// leaf.
proof fn lemma_leaf_position(nodes: Seq<HalfNode>, lv: Seq<nat>, d: nat, leaves: Seq<Seq<u8>>, n: nat)
    requires
        stack_valid(nodes, lv, d, leaves),
        span(lv, lv.len() as int) == n,
        n < capacity(d),
        capacity(d) + n != 1,
        d >= 1,
    ensures
        d >= 2,
        pow2(0) == 1,
        n % pow2(0) == 0,
        n / pow2(0) == n,
        n + pow2(0) <= capacity(d),
        node_id(d, 0, n as int) == capacity(d) + n,
        (capacity(d) + n) % 2 == 0 ==> {
            &&& n % 2 == 0
            &&& n + 1 < capacity(d)
            &&& forall|k: int| 0 <= k < lv.len() ==> #[trigger] lv[k] >= 1
        },
{
    lemma_pow2_zero();
    if d == 1 {
        assert(capacity(d) == 1);
    }
    lemma_capacity_parity(d, n);
    if (capacity(d) + n) % 2 == 0 && lv.len() > 0 {
        lemma_stack_shape(nodes, lv, d, leaves);
        lemma_top_level_positive(lv, n);
    }
}

/// `depth` is the smallest tree depth whose capacity holds `num_leaves`.
pub open spec fn is_smallest_depth(num_leaves: nat, depth: nat) -> bool {
    &&& depth >= 1
    &&& capacity(depth) >= num_leaves
    &&& (depth == 1 || capacity((depth - 1) as nat) < num_leaves)
}

impl MerkleStream {
    /// A convenience method for generating a tree with a given number of
    /// leaves: it determines the smallest tree that can hold them. With no
    /// leaves, a tree of depth 1 is created.
    pub fn new_for_leaf_count(num_leaves: usize) -> (r: Self)
        requires
            num_leaves <= pow2((MAX_TREE_DEPTH - 1) as nat),
            num_leaves <= usize::MAX / 8,
        ensures
            r.wf(),
            is_smallest_depth(num_leaves as nat, r.tree_depth()),
            r.leaves() == Seq::<Seq<u8>>::empty(),
    {
        let mut depth: usize = 1;
        let mut leaf_capacity: usize = 1;
        proof {
            lemma_pow2_zero();
        }
        while leaf_capacity < num_leaves
            invariant
                1 <= depth <= MAX_TREE_DEPTH,
                leaf_capacity == capacity(depth as nat),
                depth == 1 || capacity((depth - 1) as nat) < num_leaves,
                leaf_capacity <= 2 * num_leaves || depth == 1,
                num_leaves <= pow2((MAX_TREE_DEPTH - 1) as nat),
                num_leaves <= usize::MAX / 8,
            decreases MAX_TREE_DEPTH - depth,
        {
            proof {
                lemma_pow2_unfold(depth as nat);
                if depth >= MAX_TREE_DEPTH {
                    assert(leaf_capacity < pow2((MAX_TREE_DEPTH - 1) as nat));
                    lemma_pow2_mono((MAX_TREE_DEPTH - 1) as nat, (depth - 1) as nat);
                }
            }
            leaf_capacity = leaf_capacity * 2;
            depth = depth + 1;
        }
        proof {
            lemma_pow2_unfold(depth as nat);
            lemma_pow2_unfold(depth as nat + 1);
            lemma_pow2_pos((depth - 1) as nat);
        }
        Self::new(depth)
    }

    /// Feeds the next leaf into a tree that is not yet complete.
    #[verifier::rlimit(100)]
    fn absorb_leaf(&mut self, leaf: &Hash256)
        requires
            old(self).wf(),
            old(self).root is None,
        ensures
            final(self).depth == old(self).depth,
            final(self).first_leaf == old(self).first_leaf,
            final(self).next_leaf == old(self).next_leaf,
            final(self).leaves@ == old(self).leaves@.push(leaf@),
            old(self).leaves@.len() + 1 >= capacity(old(self).depth as nat) ==> {
                &&& final(self).root is Some
                &&& final(self).root->Some_0@ == merkle_root(final(self).leaves@, old(self).depth as nat)
                &&& half_nodes_of(final(self).half_nodes).len() == 0
                &&& final(self).levels@.len() == 0
            },
            old(self).leaves@.len() + 1 < capacity(old(self).depth as nat) ==> {
                &&& final(self).root is None
                &&& final(self).stack_ok(final(self).leaves@)
                &&& final(self).covered() == old(self).leaves@.len() + 1
            },
    {
        let ghost d = self.depth as nat;
        let ghost leaves = self.leaves@;
        let ghost n = leaves.len();
        let ghost new_leaves = leaves.push(leaf@);
        proof {
            lemma_pow2_unfold(d);
            lemma_pow2_unfold(d + 1);
            lemma_pow2_pos((d - 1) as nat);
        }
        proof {
            self.lemma_stack_push_leaf(leaves, leaf@);
        }
        if self.next_leaf == 1 {
            // A tree of depth one has a root equal to its only leaf.
            self.root = Some(*leaf);
            self.leaves = Ghost(new_leaves);
            proof {
                lemma_stack_shape(half_nodes_of(self.half_nodes), self.levels@, d, new_leaves);
                lemma_span_ge_len(self.levels@, self.levels@.len() as int);
                if d > 1 {
                    lemma_pow2_mono(1, (d - 1) as nat);
                    lemma_pow2_zero();
                }
                assert(d == 1);
                lemma_pow2_zero();
            }
        } else if self.next_leaf % 2 == 0 {
            proof {
                lemma_leaf_position(half_nodes_of(self.half_nodes), self.levels@, d, new_leaves, n);
            }
            self.leaves = Ghost(new_leaves);
            self.process_left_node(self.next_leaf, *leaf);
        } else {
            proof {
                lemma_leaf_position(half_nodes_of(self.half_nodes), self.levels@, d, new_leaves, n);
            }
            self.leaves = Ghost(new_leaves);
            self.process_right_node(self.next_leaf, *leaf, Ghost(0));
        }
    }

    /// Process the next leaf in the tree.
    ///
    /// A tree holds `2^(depth-1)` leaves; further leaves are counted but do
    /// not change the root. Once `2^depth` leaves have been given, the next
    /// one is refused with `MaximumLeavesExceeded` and the stream is left as
    /// it was.
    pub fn process_leaf(&mut self, leaf: &Hash256) -> (r: Result<(), Error>)
        requires
            old(self).wf(),
        ensures
            final(self).wf(),
            final(self).tree_depth() == old(self).tree_depth(),
            old(self).leaves().len() >= pow2(old(self).tree_depth()) ==> {
                &&& r == Err::<(), Error>(
                    (Error::MaximumLeavesExceeded {
                        max_leaves: pow2(old(self).tree_depth() + 1) as usize,
                    }),
                )
                &&& final(self).leaves() == old(self).leaves()
            },
            old(self).leaves().len() < pow2(old(self).tree_depth()) ==> {
                &&& r is Ok
                &&& final(self).leaves() == old(self).leaves().push(leaf@)
            },
    {
        let ghost d = self.depth as nat;
        let ghost leaves = self.leaves@;
        let ghost n = leaves.len();
        proof {
            lemma_pow2_unfold(d);
            lemma_pow2_unfold(d + 1);
            lemma_pow2_pos((d - 1) as nat);
        }
        let leaf_count = self.next_leaf - self.first_leaf;
        if leaf_count >= 2 * self.first_leaf {
            let max_leaves = Self::power_of_two(self.depth + 1);
            return Err(Error::MaximumLeavesExceeded { max_leaves });
        }
        let ghost new_leaves = leaves.push(leaf@);
        if self.root.is_none() {
            self.absorb_leaf(leaf);
        } else {
            proof {
                lemma_pow2_pos((d - 1) as nat);
                lemma_subtree_push(leaves, leaf@, (d - 1) as nat, 0);
            }
        }
        self.leaves = Ghost(new_leaves);
        self.next_leaf = self.next_leaf + 1;
        Ok(())
    }

    /// Returns the root of the Merkle tree. Leaves that were not provided
    /// are taken to be `[0; 32]`, and the tree is completed with the cached
    /// roots of all-zero subtrees.
    #[verifier::rlimit(100)]
    pub fn finish(self) -> (r: Hash256)
        requires
            self.wf(),
        ensures
            r@ == merkle_root(self.leaves(), self.tree_depth()),
    {
        let ghost d = self.depth as nat;
        let ghost leaves = self.leaves@;
        let ghost n = leaves.len();
        let mut this = self;
        loop
            invariant
                this.depth == self.depth,
                leaves == self.leaves@,
                n == leaves.len(),
                this.leaves@ == leaves,
                this.next_leaf == self.next_leaf,
                this.first_leaf == self.first_leaf,
                d == this.depth as nat,
                1 <= d <= MAX_TREE_DEPTH,
                pow2(d + 1) <= usize::MAX,
                this.next_leaf == capacity(d) + n,
                n <= pow2(d),
                this.root is Some ==> this.root->Some_0@ == merkle_root(leaves, d),
                this.root is None ==> {
                    &&& this.stack_ok(leaves)
                    &&& n <= this.covered()
                    &&& this.covered() < capacity(d)
                },
            decreases (if this.root is Some {
                0
            } else {
                capacity(d) + 1 - this.covered()
            }),
        {
            if let Some(root) = this.root {
                return root;
            }
            let ghost lv = this.levels@;
            let ghost nodes = half_nodes_of(this.half_nodes);
            let ghost c = this.covered();
            proof {
                lemma_stack_shape(nodes, lv, d, leaves);
            }
            let top = half_nodes_last(&this.half_nodes);
            match top {
                Some(node) => {
                    let ghost h = lv.last();
                    proof {
                        assert(node == nodes.last());
                        lemma_padding_step(nodes, lv, d, leaves);
                        lemma_pow2_pos(h);
                    }
                    let right_child = node.id * 2 + 1;
                    let zero = this.zero_hash_for(right_child, Ghost(h));
                    this.process_right_node(right_child, zero, Ghost(h));
                },
                None => {
                    proof {
                        assert(c == 0);
                        lemma_pow2_zero();
                    }
                    if this.next_leaf == 1 {
                        // Only a tree of depth one that was given no leaves gets here.
                        proof {
                            if d > 1 {
                                lemma_pow2_mono(1, (d - 1) as nat);
                            }
                        }
                        return crate::hashing::zero_hash256();
                    }
                    proof {
                        lemma_pow2_mono(1, (d - 1) as nat);
                        lemma_pow2_unfold(d);
                        lemma_pow2_mono((d - 1) as nat, d + 1);
                    }
                    let zero = this.zero_hash_for(this.next_leaf, Ghost(0));
                    this.process_left_node(this.next_leaf, zero);
                },
            }
        }
    }
}


proof fn lemma_subtree_same_leaves(a: Seq<Seq<u8>>, b: Seq<Seq<u8>>, h: nat, j: int)
    requires
        forall|i: int| #[trigger] leaf_at(a, i) == leaf_at(b, i),
    ensures
        subtree_root(a, h, j) == subtree_root(b, h, j),
    decreases h,
{
    if h == 0 {
        assert(leaf_at(a, j) == leaf_at(b, j));
    } else {
        lemma_subtree_same_leaves(a, b, (h - 1) as nat, 2 * j);
        lemma_subtree_same_leaves(a, b, (h - 1) as nat, 2 * j + 1);
    }
}

/// The root that the stream computes for leaves `L` is the root of the full
/// binary tree of depth `depth` whose leaves are `L` followed by zero leaves
/// up to its capacity.
pub proof fn lemma_root_of_zero_padded_tree(leaves: Seq<Seq<u8>>, depth: nat)
    requires
        depth >= 1,
        leaves.len() <= capacity(depth),
    ensures
        ({
            let padded = leaves + Seq::new((capacity(depth) - leaves.len()) as nat, |i: int| zero_bytes());
            &&& padded.len() == capacity(depth)
            &&& merkle_root(leaves, depth) == merkle_root(padded, depth)
        }),
{
    let padded = leaves + Seq::new((capacity(depth) - leaves.len()) as nat, |i: int| zero_bytes());
    assert forall|i: int| #[trigger] leaf_at(leaves, i) == leaf_at(padded, i) by {
        if 0 <= i < padded.len() && i >= leaves.len() {
            assert(padded[i] == zero_bytes());
        }
    }
    lemma_subtree_same_leaves(leaves, padded, (depth - 1) as nat, 0);
}

/// Exactly one depth is the smallest that holds `num_leaves` leaves, so a
/// stream made by `new_for_leaf_count(n)` and one made by `new` with that
/// depth give the same root for the same leaves.
pub proof fn lemma_smallest_depth_unique(num_leaves: nat, a: nat, b: nat)
    requires
        is_smallest_depth(num_leaves, a),
        is_smallest_depth(num_leaves, b),
    ensures
        a == b,
{
    if a < b {
        lemma_pow2_mono((a - 1) as nat, (b - 2) as nat);
    } else if b < a {
        lemma_pow2_mono((b - 1) as nat, (a - 2) as nat);
    }
}

/// A tree with no leaves has the root of an all-zero tree of its depth.
pub proof fn lemma_empty_tree_root(depth: nat)
    requires
        depth >= 1,
    ensures
        merkle_root(Seq::empty(), depth) == zero_subtree_root((depth - 1) as nat),
{
    lemma_zero_subtree(Seq::empty(), (depth - 1) as nat, 0);
}

/// A tree of depth one with no leaves has the all-zero root.
pub proof fn lemma_empty_depth_one_root()
    ensures
        merkle_root(Seq::empty(), 1) == zero_bytes(),
{
}

} // verus!
