//! The layout of a generated tree: how many leaves it has, how leaf
//! generation is split into chunks and tree building into batches, the leaf
//! bytes themselves, and the node count of the finished tree.

use vstd::prelude::*;
use vstd::arithmetic::power2::{pow2, lemma2_to64, lemma_pow2_unfold};
use crate::random::{random_element_bytes, small_rng_from_os, RandomSourceError};
use lean_imt::lean_imt::LeanIMT;
use rand::rngs::SmallRng;

verus! {

/// The number of bytes of one leaf (one field element).
pub const LEAF_BYTES: usize = 32;

/// The most leaves that one generation chunk holds.
pub const MAX_CHUNK_LEAVES: usize = 1024 * 1024;

/// The number of leaves added to the tree at a time while it is built.
pub const LEAF_BATCH: usize = 1_000_000;

/// The number of leaves of the tree with exponent `exponent`: `2^exponent`.
pub fn leaf_count(exponent: u32) -> (r: u32)
    requires
        exponent < 32,
    ensures
        r == pow2(exponent as nat),
{
    proof {
        lemma2_to64();
    }
    let mut r: u32 = 1;
    let mut i: u32 = 0;
    while i < exponent
        invariant
            i <= exponent < 32,
            r == pow2(i as nat),
            pow2(exponent as nat) <= u32::MAX,
        decreases exponent - i,
    {
        proof {
            lemma_pow2_unfold((i + 1) as nat);
            lemma_pow2_monotone((i + 1) as nat, exponent as nat);
        }
        r = r * 2;
        i = i + 1;
    }
    r
}

/// `2^e` does not decrease as `e` grows.
proof fn lemma_pow2_monotone(a: nat, b: nat)
    requires
        a <= b,
    ensures
        pow2(a) <= pow2(b),
    decreases b - a,
{
    if a < b {
        lemma_pow2_monotone(a, (b - 1) as nat);
        lemma_pow2_unfold(b);
    }
}

/// The number of pieces of `size` items that `n` items are split into.
pub open spec fn piece_count(n: nat, size: nat) -> nat {
    ((n + size - 1) as nat / size) as nat
}

/// The first item of piece `k`.
pub open spec fn piece_start(size: nat, k: nat) -> nat {
    k * size
}

/// One past the last item of piece `k` of `n` items.
pub open spec fn piece_end(n: nat, size: nat, k: nat) -> nat {
    if k * size + size <= n {
        k * size + size
    } else {
        n
    }
}

/// Ceiling division by a positive size bounds each piece index.
proof fn lemma_piece_index(n: nat, size: nat, k: nat)
    requires
        size > 0,
        k < piece_count(n, size),
    ensures
        k * size < n,
        k + 1 < piece_count(n, size) ==> (k + 1) * size < n,
        k + 1 == piece_count(n, size) ==> n <= (k + 1) * size,
{
    let q = piece_count(n, size);
    let m = (n + size - 1) as nat;
    assert(q * size <= m < q * size + size) by (nonlinear_arith)
        requires
            q == m / size,
            size > 0,
    ;
    assert(k * size < n) by (nonlinear_arith)
        requires
            k < q,
            q * size <= m,
            m == n + size - 1,
            size > 0,
    ;
    if k + 1 < q {
        assert((k + 1) * size < n) by (nonlinear_arith)
            requires
                k + 1 < q,
                q * size <= m,
                m == n + size - 1,
                size > 0,
        ;
    }
    if k + 1 == q {
        assert(n <= (k + 1) * size) by (nonlinear_arith)
            requires
                k + 1 == q,
                m < q * size + size,
                m == n + size - 1,
                size > 0,
        ;
    }
}

/// The pieces of `size` items split `n` items into consecutive, non-empty
/// ranges that start at 0 and end at `n`: every item lies in exactly one piece.
pub proof fn lemma_pieces_partition(n: nat, size: nat)
    requires
        size > 0,
    ensures
        n == 0 <==> piece_count(n, size) == 0,
        forall|k: nat|
            k < piece_count(n, size) ==> piece_start(size, k) < #[trigger] piece_end(n, size, k)
                <= n,
        forall|k: nat|
            k + 1 < piece_count(n, size) ==> #[trigger] piece_end(n, size, k) == piece_start(
                size,
                k + 1,
            ),
        piece_count(n, size) > 0 ==> piece_start(size, 0) == 0 && piece_end(
            n,
            size,
            (piece_count(n, size) - 1) as nat,
        ) == n,
        forall|i: nat|
            i < n ==> #[trigger] (i / size) < piece_count(n, size) && piece_start(size, i / size)
                <= i < piece_end(n, size, i / size),
{
    let q = piece_count(n, size);
    assert(n == 0 <==> q == 0) by (nonlinear_arith)
        requires
            q == (n + size - 1) as nat / size,
            size > 0,
    ;
    assert forall|k: nat| k < q implies piece_start(size, k) < #[trigger] piece_end(n, size, k)
        <= n by {
        lemma_piece_index(n, size, k);
    }
    assert forall|k: nat| k + 1 < q implies #[trigger] piece_end(n, size, k) == piece_start(
        size,
        k + 1,
    ) by {
        lemma_piece_index(n, size, k);
        assert((k + 1) * size == k * size + size) by (nonlinear_arith);
    }
    if q > 0 {
        lemma_piece_index(n, size, (q - 1) as nat);
        assert(((q - 1) as nat + 1) * size == (q - 1) as nat * size + size) by (nonlinear_arith);
    }
    assert forall|i: nat| i < n implies #[trigger] (i / size) < q && piece_start(size, i / size)
        <= i < piece_end(n, size, i / size) by {
        let k = i / size;
        assert(k * size <= i < k * size + size) by (nonlinear_arith)
            requires
                k == i / size,
                size > 0,
        ;
        assert(k < q) by (nonlinear_arith)
            requires
                k * size <= i,
                i < n,
                q == (n + size - 1) as nat / size,
                size > 0,
        ;
    }
}

/// The item range `[start, end)` of piece `k` of `n` items.
fn piece_bounds(n: usize, size: usize, k: usize) -> (r: (usize, usize))
    requires
        size > 0,
        n + size <= usize::MAX,
        k < piece_count(n as nat, size as nat),
    ensures
        r.0 == piece_start(size as nat, k as nat),
        r.1 == piece_end(n as nat, size as nat, k as nat),
{
    proof {
        lemma_piece_index(n as nat, size as nat, k as nat);
    }
    let start = k * size;
    let end = if start + size <= n {
        start + size
    } else {
        n
    };
    (start, end)
}

/// How the leaves of a new tree are split into chunks that are generated
/// independently: `num_chunks` chunks of `chunk_size` leaves, the last one
/// possibly shorter.
pub struct ChunkPlan {
    pub num_leaves: usize,
    pub chunk_size: usize,
    pub num_chunks: usize,
}

impl ChunkPlan {
    /// The plan is consistent, and its byte offsets fit in a `usize`.
    pub open spec fn wf(&self) -> bool {
        &&& self.chunk_size > 0
        &&& self.num_chunks == piece_count(self.num_leaves as nat, self.chunk_size as nat)
        &&& self.num_leaves + self.chunk_size <= usize::MAX
        &&& self.num_leaves * LEAF_BYTES <= usize::MAX
    }

    /// The leaf range `[start, end)` of chunk `idx`.
    pub fn chunk_leaves(&self, idx: usize) -> (r: (usize, usize))
        requires
            self.wf(),
            idx < self.num_chunks,
        ensures
            r.0 == piece_start(self.chunk_size as nat, idx as nat),
            r.1 == piece_end(self.num_leaves as nat, self.chunk_size as nat, idx as nat),
            r.0 < r.1 <= self.num_leaves,
    {
        proof {
            lemma_piece_index(self.num_leaves as nat, self.chunk_size as nat, idx as nat);
        }
        piece_bounds(self.num_leaves, self.chunk_size, idx)
    }

    /// The byte range of chunk `idx` in the file of all leaves.
    pub fn chunk_bytes(&self, idx: usize) -> (r: (usize, usize))
        requires
            self.wf(),
            idx < self.num_chunks,
        ensures
            r.0 == LEAF_BYTES * piece_start(self.chunk_size as nat, idx as nat),
            r.1 == LEAF_BYTES * piece_end(self.num_leaves as nat, self.chunk_size as nat, idx as nat),
    {
        let (start, end) = self.chunk_leaves(idx);
        (start * LEAF_BYTES, end * LEAF_BYTES)
    }
}

/// The chunk size for `num_leaves` leaves on `threads` threads: one more than
/// an even share per thread, and at most `MAX_CHUNK_LEAVES`.
pub open spec fn chunk_size_spec(num_leaves: nat, threads: nat) -> nat {
    if num_leaves / threads + 1 <= MAX_CHUNK_LEAVES {
        num_leaves / threads + 1
    } else {
        MAX_CHUNK_LEAVES as nat
    }
}

/// Splits the leaves of a new tree into chunks for `threads` threads.
pub fn plan_chunks(num_leaves: u32, threads: usize) -> (r: ChunkPlan)
    requires
        threads > 0,
        num_leaves * LEAF_BYTES <= usize::MAX,
    ensures
        r.wf(),
        r.num_leaves == num_leaves,
        r.chunk_size == chunk_size_spec(num_leaves as nat, threads as nat),
{
    let n = num_leaves as usize;
    let share = n / threads + 1;
    let chunk_size = if share <= MAX_CHUNK_LEAVES {
        share
    } else {
        MAX_CHUNK_LEAVES
    };
    let num_chunks = (n + chunk_size - 1) / chunk_size;
    ChunkPlan { num_leaves: n, chunk_size, num_chunks }
}

/// Whether step `idx` of `count` is reported: every `every`-th step, and the
/// last one.
pub fn reports_progress(idx: usize, count: usize, every: usize) -> (r: bool)
    requires
        every > 0,
        idx < count,
    ensures
        r == (idx % every == 0 || idx == count - 1),
{
    idx % every == 0 || idx == count - 1
}

/// All 32 bytes of `e` are zero.
pub open spec fn is_zero_element(e: Seq<u8>) -> bool {
    forall|j: int| 0 <= j < 32 ==> e[j] == 0
}

/// A leaf may not be zero: an all-zero element becomes `1, 0, ..., 0`, any
/// other stays as it is.
pub fn nonzero_element(e: [u8; 32]) -> (r: [u8; 32])
    ensures
        is_zero_element(e@) ==> r@ == e@.update(0, 1u8),
        !is_zero_element(e@) ==> r == e,
        !is_zero_element(r@),
{
    let mut j: usize = 0;
    while j < 32
        invariant
            j <= 32,
            forall|k: int| 0 <= k < j ==> e@[k] == 0,
        decreases 32 - j,
    {
        if e[j] != 0 {
            return e;
        }
        j = j + 1;
    }
    let mut r = e;
    r[0] = 1;
    assert(r@[0] == 1);
    r
}

/// A drawn element made fit to be a leaf: kept as drawn unless it is all
/// zero, which becomes `1, 0, ..., 0`.
pub open spec fn nonzero_bytes(e: Seq<u8>) -> Seq<u8> {
    if is_zero_element(e) {
        e.update(0, 1u8)
    } else {
        e
    }
}

/// The bytes of the leaf at position `k` of a chunk.
pub open spec fn chunk_leaf(bytes: Seq<u8>, k: int) -> Seq<u8> {
    bytes.subrange(LEAF_BYTES * k, LEAF_BYTES * k + LEAF_BYTES)
}

/// The chunk whose leaves are the elements `draws`, in order, each made
/// non-zero: leaf `k` is draw `k`, unchanged unless it is all zero.
pub fn leaves_from_draws(draws: &[[u8; 32]]) -> (r: Vec<u8>)
    requires
        draws@.len() * LEAF_BYTES <= usize::MAX,
    ensures
        r@.len() == LEAF_BYTES * draws@.len(),
        forall|k: int|
            0 <= k < draws@.len() ==> #[trigger] chunk_leaf(r@, k) == nonzero_bytes(draws@[k]@),
        forall|k: int|
            0 <= k < draws@.len() && !is_zero_element(draws@[k]@) ==> #[trigger] chunk_leaf(
                r@,
                k,
            ) == draws@[k]@,
        forall|k: int| 0 <= k < draws@.len() ==> !is_zero_element(#[trigger] chunk_leaf(r@, k)),
{
    let count = draws.len();
    let mut r: Vec<u8> = Vec::new();
    let mut i: usize = 0;
    while i < count
        invariant
            count == draws@.len(),
            i <= count,
            count * LEAF_BYTES <= usize::MAX,
            r@.len() == LEAF_BYTES * i,
            forall|k: int, j: int|
                0 <= k < i && 0 <= j < 32 ==> r@[32 * k + j] == #[trigger] nonzero_bytes(
                    draws@[k]@,
                )[j],
        decreases count - i,
    {
        let e = nonzero_element(draws[i]);
        assert(e@ =~= nonzero_bytes(draws@[i as int]@));
        let ghost before = r@;
        let mut j: usize = 0;
        while j < 32
            invariant
                j <= 32,
                i < count,
                count * LEAF_BYTES <= usize::MAX,
                r@.len() == LEAF_BYTES * i + j,
                forall|x: int| 0 <= x < LEAF_BYTES * i ==> r@[x] == before[x],
                forall|y: int| 0 <= y < j ==> r@[LEAF_BYTES * i + y] == e@[y],
            decreases 32 - j,
        {
            r.push(e[j]);
            j = j + 1;
        }
        assert forall|k: int, j: int|
            0 <= k < i + 1 && 0 <= j < 32 implies r@[32 * k + j] == #[trigger] nonzero_bytes(
            draws@[k]@,
        )[j] by {
            if k < i {
                assert(32 * k + j < 32 * i) by (nonlinear_arith)
                    requires
                        k < i,
                        j < 32,
                ;
                assert(r@[32 * k + j] == before[32 * k + j]);
            } else {
                assert(k == i);
            }
        }
        i = i + 1;
    }
    assert forall|k: int| 0 <= k < count implies #[trigger] chunk_leaf(r@, k) == nonzero_bytes(
        draws@[k]@,
    ) by {
        let s = chunk_leaf(r@, k);
        assert(32 * k + 32 <= 32 * count) by (nonlinear_arith)
            requires
                k < count,
        ;
        assert forall|j: int| 0 <= j < 32 implies s[j] == nonzero_bytes(draws@[k]@)[j] by {
            assert(s[j] == r@[32 * k + j]);
        }
        assert(s =~= nonzero_bytes(draws@[k]@));
    }
    assert forall|k: int| 0 <= k < count implies !is_zero_element(#[trigger] chunk_leaf(r@, k)) by {
        let e = draws@[k]@;
        assert(chunk_leaf(r@, k) == nonzero_bytes(e));
        if is_zero_element(e) {
            assert(nonzero_bytes(e)[0] == 1);
        }
    }
    r
}

/// The leaves of one generation chunk: `count` elements drawn from `rng` one
/// after another, each made non-zero, as `32 * count` bytes. Which elements
/// are drawn is chance; the chunk is `leaves_from_draws` of them.
pub fn fill_chunk(rng: &mut SmallRng, count: usize) -> (r: Vec<u8>)
    requires
        count * LEAF_BYTES <= usize::MAX,
    ensures
        r@.len() == LEAF_BYTES * count,
        forall|k: int|
            0 <= k < count ==> !is_zero_element(
                #[trigger] r@.subrange(LEAF_BYTES * k, LEAF_BYTES * k + LEAF_BYTES),
            ),
        exists|draws: Seq<[u8; 32]>|
            draws.len() == count && forall|k: int|
                0 <= k < count ==> #[trigger] chunk_leaf(r@, k) == nonzero_bytes(draws[k]@),
{
    let mut draws: Vec<[u8; 32]> = Vec::new();
    let mut i: usize = 0;
    while i < count
        invariant
            i <= count,
            draws@.len() == i,
        decreases count - i,
    {
        draws.push(random_element_bytes(rng));
        i = i + 1;
    }
    let r = leaves_from_draws(&draws);
    assert forall|k: int| 0 <= k < count implies !is_zero_element(
        #[trigger] r@.subrange(LEAF_BYTES * k, LEAF_BYTES * k + LEAF_BYTES),
    ) by {
        assert(!is_zero_element(chunk_leaf(r@, k)));
    }
    assert(forall|k: int|
        0 <= k < count ==> #[trigger] chunk_leaf(r@, k) == nonzero_bytes(draws@[k]@));
    r
}

/// The leaves of one generation chunk, from a generator seeded by the
/// operating system for this chunk; the only error is that the system gave no
/// entropy for the seed.
pub fn generate_chunk(count: usize) -> (r: Result<Vec<u8>, RandomSourceError>)
    requires
        count * LEAF_BYTES <= usize::MAX,
    ensures
        r matches Ok(bytes) ==> bytes@.len() == LEAF_BYTES * count,
        r matches Ok(bytes) ==> forall|k: int|
            0 <= k < count ==> !is_zero_element(
                #[trigger] bytes@.subrange(LEAF_BYTES * k, LEAF_BYTES * k + LEAF_BYTES),
            ),
{
    match small_rng_from_os() {
        Ok(mut rng) => Ok(fill_chunk(&mut rng, count)),
        Err(e) => Err(RandomSourceError::NoEntropy(e)),
    }
}

/// The number of leaf batches that `num_leaves` leaves are added in.
pub fn leaf_batch_count(num_leaves: usize) -> (r: usize)
    requires
        num_leaves + LEAF_BATCH <= usize::MAX,
    ensures
        r == piece_count(num_leaves as nat, LEAF_BATCH as nat),
{
    (num_leaves + LEAF_BATCH - 1) / LEAF_BATCH
}

/// The leaf range `[start, end)` of batch `idx`.
pub fn leaf_batch_range(num_leaves: usize, idx: usize) -> (r: (usize, usize))
    requires
        num_leaves + LEAF_BATCH <= usize::MAX,
        idx < piece_count(num_leaves as nat, LEAF_BATCH as nat),
    ensures
        r.0 == piece_start(LEAF_BATCH as nat, idx as nat),
        r.1 == piece_end(num_leaves as nat, LEAF_BATCH as nat, idx as nat),
        r.0 < r.1 <= num_leaves,
{
    proof {
        lemma_piece_index(num_leaves as nat, LEAF_BATCH as nat, idx as nat);
    }
    piece_bounds(num_leaves, LEAF_BATCH, idx)
}

/// What building the tree does with a batch of leaves.
#[derive(PartialEq, Eq, Structural, Clone, Copy, Debug)]
pub enum BatchStep {
    /// Create the tree from the batch.
    Create,
    /// Add the batch's leaves to the tree.
    Extend,
    /// Nothing: the batch is empty.
    Skip,
}

/// The first batch creates the tree; every later non-empty batch extends it.
pub fn batch_step(batch_idx: usize, batch_len: usize) -> (r: BatchStep)
    ensures
        batch_idx == 0 ==> r == BatchStep::Create,
        batch_idx > 0 && batch_len > 0 ==> r == BatchStep::Extend,
        batch_idx > 0 && batch_len == 0 ==> r == BatchStep::Skip,
{
    if batch_idx == 0 {
        BatchStep::Create
    } else if batch_len > 0 {
        BatchStep::Extend
    } else {
        BatchStep::Skip
    }
}

/// The bytes of leaf `i` in the file of all leaves.
pub open spec fn leaf_bytes_at(bytes: Seq<u8>, i: int) -> Seq<u8> {
    bytes.subrange(LEAF_BYTES * i, LEAF_BYTES * i + LEAF_BYTES)
}

/// The leaves `start..end` read from the file of all leaves.
pub fn read_leaves(bytes: &[u8], start: usize, end: usize) -> (r: Vec<[u8; 32]>)
    requires
        start <= end,
        end * LEAF_BYTES <= bytes@.len(),
    ensures
        r@.len() == end - start,
        forall|i: int| 0 <= i < end - start ==> (#[trigger] r@[i])@ == leaf_bytes_at(bytes@, start + i),
{
    let blen = bytes.len();
    let mut r: Vec<[u8; 32]> = Vec::new();
    let mut i: usize = start;
    while i < end
        invariant
            blen == bytes@.len(),
            start <= i <= end,
            end * LEAF_BYTES <= bytes@.len(),
            r@.len() == i - start,
            forall|k: int| 0 <= k < i - start ==> (#[trigger] r@[k])@ == leaf_bytes_at(bytes@, start + k),
        decreases end - i,
    {
        assert(i * 32 + 32 <= end * 32) by (nonlinear_arith)
            requires
                i < end,
        ;
        let base = i * LEAF_BYTES;
        let mut e = [0u8; 32];
        let mut j: usize = 0;
        while j < 32
            invariant
                j <= 32,
                base == i * LEAF_BYTES,
                base + 32 <= bytes@.len(),
                forall|y: int| 0 <= y < j ==> e@[y] == bytes@[base + y],
            decreases 32 - j,
        {
            e[j] = bytes[base + j];
            j = j + 1;
        }
        assert(e@ =~= leaf_bytes_at(bytes@, i as int));
        r.push(e);
        i = i + 1;
    }
    r
}

/// The number of nodes of a full tree with `num_leaves` leaves.
pub fn total_elements(num_leaves: usize) -> (r: usize)
    requires
        num_leaves >= 1,
        2 * num_leaves <= usize::MAX,
    ensures
        r == 2 * num_leaves - 1,
{
    2 * num_leaves - 1
}

/// A tree with `2^e` leaves has `2^(e+1) - 1` nodes.
pub proof fn lemma_full_tree_elements(e: nat)
    ensures
        2 * pow2(e) - 1 == pow2(e + 1) - 1,
        pow2(e) >= 1,
{
    lemma_pow2_unfold(e + 1);
    vstd::arithmetic::power2::lemma_pow2_pos(e);
}

/// A lean incremental Merkle tree of 32-byte nodes, carried through opaquely.
#[verifier::external_type_specification]
#[verifier::external_body]
pub struct ExLeanIMT<const N: usize>(LeanIMT<N>);

/// The error that `serde_json` reports for malformed input.
#[verifier::external_type_specification]
#[verifier::external_body]
pub struct ExJsonError(serde_json::Error);

/// The node levels that a tree holds: the leaves first, each level above
/// after it, up to the root.
pub uninterp spec fn tree_levels(tree: LeanIMT<32>) -> Seq<Seq<[u8; 32]>>;

/// The node levels of the tree that a JSON text describes, or `None` when
/// the text does not describe one.
pub uninterp spec fn json_tree_levels(data: Seq<u8>) -> Option<Seq<Seq<[u8; 32]>>>;

/// The contents of a slice of node levels.
pub open spec fn levels_view(levels: Seq<Vec<[u8; 32]>>) -> Seq<Seq<[u8; 32]>> {
    levels.map_values(|level: Vec<[u8; 32]>| level@)
}

/// Calls `serde_json::from_slice` for a `LeanIMT<32>`. The result is a
/// function of the bytes alone; which texts are accepted, and what levels
/// they give, is left to the name `json_tree_levels`.
#[verifier::external_body]
fn parse_tree_json(data: &[u8]) -> (r: Result<LeanIMT<32>, serde_json::Error>)
    ensures
        r is Ok <==> json_tree_levels(data@) is Some,
        r matches Ok(tree) ==> json_tree_levels(data@) == Some(tree_levels(tree)),
{
    serde_json::from_slice(data)
}

/// Calls `LeanIMT::nodes`, which hands out the tree's node storage as it
/// stands: the levels that the tree holds.
#[verifier::external_body]
fn tree_nodes(tree: &LeanIMT<32>) -> (r: &[Vec<[u8; 32]>])
    ensures
        levels_view(r@) == tree_levels(*tree),
{
    tree.nodes()
}

/// All nodes of a tree, level by level from the leaves up to the root.
pub fn flatten_levels(levels: &[Vec<[u8; 32]>]) -> (r: Vec<[u8; 32]>)
    ensures
        r@ == levels_view(levels@).flatten(),
{
    let mut r: Vec<[u8; 32]> = Vec::new();
    let mut i: usize = 0;
    assert(levels_view(levels@.take(0)) =~= Seq::<Seq<[u8; 32]>>::empty());
    while i < levels.len()
        invariant
            i <= levels@.len(),
            r@ == levels_view(levels@.take(i as int)).flatten(),
        decreases levels@.len() - i,
    {
        let level = &levels[i];
        let ghost before = r@;
        let mut j: usize = 0;
        while j < level.len()
            invariant
                j <= level@.len(),
                level == levels@[i as int],
                r@ == before + level@.take(j as int),
            decreases level@.len() - j,
        {
            r.push(level[j]);
            j = j + 1;
            assert(r@ =~= before + level@.take(j as int));
        }
        proof {
            let vs = levels_view(levels@.take(i as int));
            assert(levels_view(levels@.take(i + 1)) =~= vs.push(level@));
            vs.lemma_flatten_push(level@);
            assert(level@.take(j as int) =~= level@);
        }
        i = i + 1;
    }
    assert(levels@.take(levels@.len() as int) =~= levels@);
    r
}

/// Why a stored tree could not be read.
#[derive(Debug)]
pub enum TreeLoadError {
    /// The text is not the JSON of a tree; `serde_json`'s report is kept.
    InvalidJson(serde_json::Error),
}

/// The nodes of the tree stored as JSON in `data`, flattened level by level
/// from the leaves up to the root.
pub fn flatten_tree_json(data: &[u8]) -> (r: Result<Vec<[u8; 32]>, TreeLoadError>)
    ensures
        match json_tree_levels(data@) {
            Some(levels) => r matches Ok(v) && v@ == levels.flatten(),
            None => r is Err,
        },
{
    match parse_tree_json(data) {
        Ok(tree) => Ok(flatten_levels(tree_nodes(&tree))),
        Err(e) => Err(TreeLoadError::InvalidJson(e)),
    }
}

} // verus!
