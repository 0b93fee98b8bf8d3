use rand::{rngs::StdRng, SeedableRng};
use tree_pir::benchmark::{
    bench_stages, random_indices, record_at, record_count_matches, stage_function_name,
    BenchParams, BenchStage,
};

fn params(leaf_exp: usize, batch_size: usize) -> BenchParams {
    BenchParams {
        leaf_exp,
        batch_size,
        setup_t: 15,
        setup_n: 16,
        encode_t: 17,
        encode_n: 18,
        query_t: 10,
        query_n: 20,
        answer_t: 11,
        answer_n: 21,
        extract_t: 12,
        extract_n: 22,
    }
}

#[test]
fn label_single_and_batch() {
    assert_eq!(params(12, 1).label(), "single-12");
    assert_eq!(params(16, 16).label(), "batch-16");
    assert_eq!(params(20, 0).label(), "batch-20");
}

#[test]
fn results_recorded_under_the_benchmark_name() {
    assert_eq!(params(12, 1).bench_id(), "single_12");
    assert_eq!(params(16, 16).bench_id(), "batch_16");
    assert_eq!(params(24, 0).bench_id(), "batch_24");
}

#[test]
fn stages_in_order_with_their_budgets() {
    let g = bench_stages(&params(12, 12));
    assert_eq!(g.len(), 5);
    let stages: Vec<BenchStage> = g.iter().map(|c| c.stage).collect();
    assert_eq!(
        stages,
        vec![BenchStage::Setup, BenchStage::EncodeDb, BenchStage::Query, BenchStage::Answer, BenchStage::Extract]
    );
    let budgets: Vec<(u64, usize, bool)> =
        g.iter().map(|c| (c.measurement_secs, c.sample_size, c.flat_sampling)).collect();
    assert_eq!(
        budgets,
        vec![(15, 16, true), (17, 18, true), (10, 20, false), (11, 21, true), (12, 22, false)]
    );
}

#[test]
fn standard_benchmarks() {
    let p = BenchParams::standard(true, 12).unwrap();
    assert_eq!((p.leaf_exp, p.batch_size), (12, 1));
    assert_eq!((p.setup_t, p.setup_n, p.encode_t, p.encode_n), (15, 15, 15, 15));
    assert_eq!((p.query_t, p.query_n, p.answer_t, p.answer_n, p.extract_t, p.extract_n), (10, 20, 15, 15, 10, 20));
    assert_eq!(p.bench_id(), "single_12");
    let p = BenchParams::standard(true, 24).unwrap();
    assert_eq!((p.setup_t, p.setup_n, p.extract_t, p.extract_n), (120, 5, 60, 8));
    // Batch benchmarks retrieve n records for 2^n leaves.
    let p = BenchParams::standard(false, 16).unwrap();
    assert_eq!((p.leaf_exp, p.batch_size), (16, 16));
    assert_eq!((p.encode_t, p.answer_t, p.extract_t), (80, 100, 100));
    assert_eq!(p.bench_id(), "batch_16");
    assert_eq!(BenchParams::standard(false, 12).unwrap().batch_size, 12);
    assert!(BenchParams::standard(false, 20).is_none());
    assert!(BenchParams::standard(true, 13).is_none());
}

#[test]
fn stage_functions() {
    assert_eq!(stage_function_name(BenchStage::Setup), "setup");
    assert_eq!(stage_function_name(BenchStage::EncodeDb), "encode_db");
    assert_eq!(stage_function_name(BenchStage::Query), "query");
    assert_eq!(stage_function_name(BenchStage::Answer), "answer");
    assert_eq!(stage_function_name(BenchStage::Extract), "extract");
}

#[test]
fn records_past_the_tree_are_zero() {
    let flat = vec![[1u8; 32], [2u8; 32]];
    assert_eq!(record_at(&flat, 0), [1u8; 32]);
    assert_eq!(record_at(&flat, 1), [2u8; 32]);
    assert_eq!(record_at(&flat, 2), [0u8; 32]);
    assert_eq!(record_at(&[], 0), [0u8; 32]);
}

#[test]
fn record_counts() {
    // 2^12 leaves give 8191 nodes; single retrieval reserves one more record.
    assert!(record_count_matches(8191, 1, 8192));
    assert!(!record_count_matches(8191, 1, 8191));
    assert!(record_count_matches(8191, 12, 8191));
    assert!(!record_count_matches(8191, 12, 8192));
    assert!(!record_count_matches(0, 1, 0));
}

#[test]
fn random_indices_stay_below_total() {
    let v = random_indices(24, 5).unwrap();
    assert_eq!(v.len(), 24);
    assert!(v.iter().all(|&i| i < 5));
    assert_eq!(random_indices(0, 0).unwrap(), Vec::<usize>::new());
    assert_eq!(random_indices(3, 1).unwrap(), vec![0, 0, 0]);
    let wide = random_indices(64, 1 << 40).unwrap();
    assert!(wide.iter().any(|&i| i != wide[0]));
}

#[test]
fn drawn_indices_from_a_seeded_generator() {
    let mut rng = StdRng::seed_from_u64(7);
    let v = tree_pir::benchmark::draw_indices(&mut rng, 50, 3);
    assert_eq!(v.len(), 50);
    assert!(v.iter().all(|&i| i < 3));
    assert!(v.iter().any(|&i| i != v[0]));
    assert!(tree_pir::benchmark::draw_indices(&mut rng, 0, 0).is_empty());
}
