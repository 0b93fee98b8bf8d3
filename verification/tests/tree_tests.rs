use rand::{rngs::SmallRng, SeedableRng};
use lean_imt::lean_imt::LeanIMT;
use tree_pir::tree::{
    batch_step, flatten_levels, flatten_tree_json, generate_chunk, leaf_batch_count,
    leaf_batch_range, leaf_count, nonzero_element, plan_chunks, read_leaves, reports_progress,
    total_elements, BatchStep, TreeLoadError, LEAF_BATCH,
};

#[test]
fn leaf_counts() {
    assert_eq!(leaf_count(0), 1);
    assert_eq!(leaf_count(12), 4096);
    assert_eq!(leaf_count(24), 16_777_216);
    assert_eq!(leaf_count(31), 1u32 << 31);
}

#[test]
fn readme_node_count() {
    // "2^12 (4096) leaves, 8191 total elements"
    assert_eq!(total_elements(leaf_count(12) as usize), 8191);
    assert_eq!(total_elements(1), 1);
}

#[test]
fn chunks_cover_all_leaves() {
    for (n, threads) in [(4096u32, 8usize), (16_777_216, 3), (1, 1), (0, 4), (10, 20), (5_000_000, 2)] {
        let plan = plan_chunks(n, threads);
        let mut next = 0usize;
        for idx in 0..plan.num_chunks {
            let (s, e) = plan.chunk_leaves(idx);
            assert_eq!(s, next);
            assert!(s < e);
            assert!(e - s <= plan.chunk_size);
            assert_eq!(plan.chunk_bytes(idx), (s * 32, e * 32));
            next = e;
        }
        assert_eq!(next, n as usize);
    }
}

#[test]
fn chunk_size_formula() {
    assert_eq!(plan_chunks(4096, 8).chunk_size, 513);
    assert_eq!(plan_chunks(4096, 8).num_chunks, 8);
    assert_eq!(plan_chunks(16_777_216, 1).chunk_size, 1024 * 1024);
    assert_eq!(plan_chunks(16_777_216, 1).num_chunks, 16);
}

#[test]
fn progress_reports() {
    assert!(reports_progress(0, 7, 10));
    assert!(!reports_progress(3, 7, 10));
    assert!(reports_progress(6, 7, 10));
    assert!(reports_progress(10, 20, 10));
    assert!(reports_progress(5, 20, 5));
}

#[test]
fn zero_element_becomes_one() {
    let mut one = [0u8; 32];
    one[0] = 1;
    assert_eq!(nonzero_element([0u8; 32]), one);
    let mut e = [0u8; 32];
    e[31] = 9;
    assert_eq!(nonzero_element(e), e);
}

#[test]
fn generated_chunks_have_no_zero_leaf() {
    let bytes = generate_chunk(100).unwrap();
    assert_eq!(bytes.len(), 3200);
    for leaf in bytes.chunks(32) {
        assert!(leaf.iter().any(|&b| b != 0));
    }
    assert!(generate_chunk(0).unwrap().is_empty());
    let other = generate_chunk(100).unwrap();
    assert_ne!(bytes, other);
}

#[test]
fn batches_cover_all_leaves() {
    assert_eq!(leaf_batch_count(0), 0);
    assert_eq!(leaf_batch_count(1), 1);
    assert_eq!(leaf_batch_count(LEAF_BATCH), 1);
    assert_eq!(leaf_batch_count(16_777_216), 17);
    assert_eq!(leaf_batch_range(16_777_216, 0), (0, 1_000_000));
    assert_eq!(leaf_batch_range(16_777_216, 16), (16_000_000, 16_777_216));
}

#[test]
fn batch_steps() {
    assert_eq!(batch_step(0, 0), BatchStep::Create);
    assert_eq!(batch_step(0, 5), BatchStep::Create);
    assert_eq!(batch_step(3, 5), BatchStep::Extend);
    assert_eq!(batch_step(3, 0), BatchStep::Skip);
}

#[test]
fn leaves_read_back() {
    let bytes: Vec<u8> = (0..96u8).collect();
    let leaves = read_leaves(&bytes, 1, 3);
    assert_eq!(leaves.len(), 2);
    assert_eq!(leaves[0].to_vec(), (32..64u8).collect::<Vec<u8>>());
    assert_eq!(leaves[1].to_vec(), (64..96u8).collect::<Vec<u8>>());
    assert!(read_leaves(&bytes, 2, 2).is_empty());
}

#[test]
fn levels_flatten_in_order() {
    let levels = vec![vec![[1u8; 32], [2u8; 32], [3u8; 32]], vec![], vec![[4u8; 32]]];
    assert_eq!(flatten_levels(&levels), vec![[1u8; 32], [2u8; 32], [3u8; 32], [4u8; 32]]);
    assert!(flatten_levels(&[]).is_empty());
}

fn xor_hash(input: &[u8]) -> [u8; 32] {
    let mut out = [0u8; 32];
    for (i, b) in input.iter().enumerate() {
        out[i % 32] ^= b.wrapping_add(i as u8);
    }
    out
}

#[test]
fn stored_tree_flattens_to_its_nodes() {
    let leaves: Vec<[u8; 32]> = (1..=5u8).map(|i| [i; 32]).collect();
    let tree = LeanIMT::<32>::new(&leaves, xor_hash).unwrap();
    let json = serde_json::to_vec(&tree).unwrap();
    let flat = flatten_tree_json(&json).unwrap();
    let expected: Vec<[u8; 32]> = tree.nodes().iter().flatten().copied().collect();
    assert_eq!(flat, expected);
    // 5 leaves, then 3, 2 and 1 node above them
    assert_eq!(flat.len(), 11);
    assert_eq!(&flat[..5], &leaves[..]);
}

#[test]
fn malformed_tree_is_refused() {
    assert!(matches!(flatten_tree_json(b"{\"nodes\": 3}"), Err(TreeLoadError::InvalidJson(_))));
    assert!(matches!(flatten_tree_json(b""), Err(TreeLoadError::InvalidJson(_))));
}

#[test]
fn filled_chunk_from_a_seeded_generator() {
    let mut rng = SmallRng::seed_from_u64(3);
    let bytes = tree_pir::tree::fill_chunk(&mut rng, 10);
    assert_eq!(bytes.len(), 320);
    assert!(bytes.chunks(32).all(|leaf| leaf.iter().any(|&b| b != 0)));
    let mut again = SmallRng::seed_from_u64(3);
    assert_eq!(tree_pir::tree::fill_chunk(&mut again, 10), bytes);
}
