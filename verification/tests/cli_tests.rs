use tree_pir::cli::{
    bench_exponent, bench_name, exponents, plan_benchmarks, select_benches, tree_file_path,
    validate_exponent, BenchSelection,
};
use tree_pir::text::{decimal_string, join_decimal_strings, parse_u32};

#[test]
fn decimal_of_small_and_large_numbers() {
    assert_eq!(decimal_string(0), "0");
    assert_eq!(decimal_string(7), "7");
    assert_eq!(decimal_string(10), "10");
    assert_eq!(decimal_string(4096), "4096");
    assert_eq!(decimal_string(u64::MAX), u64::MAX.to_string());
}

#[test]
fn parse_matches_std_parse() {
    for s in [
        "", "+", "-", "0", "12", "+12", "-12", "007", "4294967295", "4294967296",
        "99999999999999999999999", "1 2", " 12", "12a", "all", "１２",
    ] {
        assert_eq!(parse_u32(s), s.parse::<u32>().ok(), "input {:?}", s);
    }
}

#[test]
fn joined_exponents() {
    assert_eq!(join_decimal_strings(&exponents()), "12, 16, 20, 24");
    assert_eq!(join_decimal_strings(&[]), "");
    assert_eq!(join_decimal_strings(&[5]), "5");
}

#[test]
fn validate_accepts_supported_exponents() {
    for e in [12u32, 16, 20, 24] {
        assert_eq!(validate_exponent(e), Ok(()));
    }
}

#[test]
fn validate_refuses_other_exponents() {
    assert_eq!(
        validate_exponent(13),
        Err("Invalid exponent 13. Use: 12, 16, 20, 24".to_string())
    );
    assert_eq!(
        validate_exponent(0),
        Err("Invalid exponent 0. Use: 12, 16, 20, 24".to_string())
    );
}

#[test]
fn select_all_sizes() {
    assert_eq!(
        select_benches("single", "all"),
        Ok(vec![
            "single_12".to_string(),
            "single_16".to_string(),
            "single_20".to_string(),
            "single_24".to_string()
        ])
    );
}

#[test]
fn select_one_size() {
    assert_eq!(select_benches("batch", "16"), Ok(vec!["batch_16".to_string()]));
    assert_eq!(select_benches("batch", "+20"), Ok(vec!["batch_20".to_string()]));
}

#[test]
fn select_refuses_unparsable_exponent() {
    assert_eq!(
        select_benches("single", "twelve"),
        Err("Invalid exponent twelve. Use: all, 12, 16, 20, 24".to_string())
    );
    assert_eq!(
        select_benches("single", "ALL"),
        Err("Invalid exponent ALL. Use: all, 12, 16, 20, 24".to_string())
    );
}

#[test]
fn select_refuses_unsupported_exponent() {
    assert_eq!(
        select_benches("single", "14"),
        Err("Invalid exponent 14. Use: 12, 16, 20, 24".to_string())
    );
}

#[test]
fn plan_every_benchmark() {
    let plan = plan_benchmarks(&BenchSelection::All).unwrap();
    assert_eq!(
        plan,
        vec![
            "single_12", "batch_12", "single_16", "batch_16", "single_20", "batch_20",
            "single_24", "batch_24"
        ]
    );
}

#[test]
fn plan_one_kind() {
    assert_eq!(
        plan_benchmarks(&BenchSelection::Single("24".to_string())),
        Ok(vec!["single_24".to_string()])
    );
    assert_eq!(
        plan_benchmarks(&BenchSelection::Batch("all".to_string())).unwrap().len(),
        4
    );
    assert!(plan_benchmarks(&BenchSelection::Batch("8".to_string())).is_err());
}

#[test]
fn bench_names_give_back_their_exponent() {
    for e in [0u32, 12, 16, 20, 24, 4294967295] {
        assert_eq!(bench_exponent(&bench_name("single", e)), Some(e));
        assert_eq!(bench_exponent(&bench_name("a_b", e)), Some(e));
    }
    assert_eq!(bench_name("batch", 12), "batch_12");
}

#[test]
fn bench_exponent_takes_last_segment() {
    assert_eq!(bench_exponent("single_12"), Some(12));
    assert_eq!(bench_exponent("20"), Some(20));
    assert_eq!(bench_exponent("single_"), None);
    assert_eq!(bench_exponent("single_x"), None);
    assert_eq!(bench_exponent("a_1_2"), Some(2));
}

#[test]
fn tree_paths() {
    assert_eq!(tree_file_path(12), "./trees/tree_12.bin");
    assert_eq!(tree_file_path(24), "./trees/tree_24.bin");
}
