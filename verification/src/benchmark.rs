//! Benchmark parameters, their labels and measurement groups, and the records
//! and query indices that a PIR benchmark is run on.

use vstd::prelude::*;
use crate::cli::{bench_name_spec, supported_exponents};
use crate::random::{random_below, std_rng_from_os, RandomSourceError};
use rand::rngs::StdRng;
use crate::text::{decimal, decimal_string};

verus! {

/// Benchmark parameters: the tree size (`2^leaf_exp` leaves), how many
/// records one query retrieves, and for each measured stage its measurement
/// time in seconds (`*_t`) and its number of samples (`*_n`).
pub struct BenchParams {
    pub leaf_exp: usize,
    pub batch_size: usize,
    pub setup_t: u64,
    pub setup_n: usize,
    pub encode_t: u64,
    pub encode_n: usize,
    pub query_t: u64,
    pub query_n: usize,
    pub answer_t: u64,
    pub answer_n: usize,
    pub extract_t: u64,
    pub extract_n: usize,
}

/// The label of a benchmark: `single-<leaf_exp>` when one record is
/// retrieved per query, `batch-<leaf_exp>` otherwise.
pub open spec fn label_spec(leaf_exp: usize, batch_size: usize) -> Seq<char> {
    (if batch_size == 1 {
        "single-"@
    } else {
        "batch-"@
    }) + decimal(leaf_exp as nat)
}

impl BenchParams {
    /// The label that names this benchmark's reports and groups.
    pub fn label(&self) -> (r: String)
        ensures
            r@ == label_spec(self.leaf_exp, self.batch_size),
            self.batch_size == 1 ==> r@ == "single-"@ + decimal(self.leaf_exp as nat),
            self.batch_size != 1 ==> r@ == "batch-"@ + decimal(self.leaf_exp as nat),
    {
        let mut r = if self.batch_size == 1 {
            String::from_str("single-")
        } else {
            String::from_str("batch-")
        };
        let digits = decimal_string(self.leaf_exp as u64);
        r.append(digits.as_str());
        r
    }
}

/// The measured stages of a PIR benchmark, in the order they are measured.
#[derive(PartialEq, Eq, Structural, Clone, Copy, Debug)]
pub enum BenchStage {
    Setup,
    EncodeDb,
    Query,
    Answer,
    Extract,
}

/// How one stage is measured within the benchmark's group: the measurement
/// time in seconds, the number of samples, and whether samples are taken flat
/// (each sample running the same number of iterations).
pub struct StageConfig {
    pub stage: BenchStage,
    pub measurement_secs: u64,
    pub sample_size: usize,
    pub flat_sampling: bool,
}

/// The name of a benchmark, under which its results are recorded:
/// `single_<leaf_exp>` when one record is retrieved per query,
/// `batch_<leaf_exp>` otherwise.
pub open spec fn bench_id_spec(leaf_exp: usize, batch_size: usize) -> Seq<char> {
    (if batch_size == 1 {
        "single"@
    } else {
        "batch"@
    }) + seq!['_'] + decimal(leaf_exp as nat)
}

/// The name of the measured function of a stage within the group.
pub open spec fn stage_function_spec(stage: BenchStage) -> Seq<char> {
    match stage {
        BenchStage::Setup => "setup"@,
        BenchStage::EncodeDb => "encode_db"@,
        BenchStage::Query => "query"@,
        BenchStage::Answer => "answer"@,
        BenchStage::Extract => "extract"@,
    }
}

/// Every stage but query generation and extraction is sampled flat.
pub open spec fn stage_is_flat(stage: BenchStage) -> bool {
    match stage {
        BenchStage::Query | BenchStage::Extract => false,
        _ => true,
    }
}

/// The stages in the order they are measured.
pub open spec fn stage_order() -> Seq<BenchStage> {
    seq![
        BenchStage::Setup,
        BenchStage::EncodeDb,
        BenchStage::Query,
        BenchStage::Answer,
        BenchStage::Extract,
    ]
}

/// The measurement time and sample count that `p` gives a stage.
pub open spec fn stage_budget(p: BenchParams, stage: BenchStage) -> (u64, usize) {
    match stage {
        BenchStage::Setup => (p.setup_t, p.setup_n),
        BenchStage::EncodeDb => (p.encode_t, p.encode_n),
        BenchStage::Query => (p.query_t, p.query_n),
        BenchStage::Answer => (p.answer_t, p.answer_n),
        BenchStage::Extract => (p.extract_t, p.extract_n),
    }
}

/// `g` is how `p` measures `stage`.
pub open spec fn stage_config_for(p: BenchParams, stage: BenchStage, g: StageConfig) -> bool {
    &&& g.stage == stage
    &&& g.measurement_secs == stage_budget(p, stage).0
    &&& g.sample_size == stage_budget(p, stage).1
    &&& g.flat_sampling == stage_is_flat(stage)
}

impl BenchParams {
    /// The name of the group that holds all stages of this benchmark.
    pub fn bench_id(&self) -> (r: String)
        ensures
            r@ == bench_id_spec(self.leaf_exp, self.batch_size),
    {
        let mut r = if self.batch_size == 1 {
            String::from_str("single")
        } else {
            String::from_str("batch")
        };
        proof {
            reveal_strlit("_");
        }
        r.append("_");
        let digits = decimal_string(self.leaf_exp as u64);
        r.append(digits.as_str());
        r
    }
}

/// The name of the function measured for a stage.
pub fn stage_function_name(stage: BenchStage) -> (r: &'static str)
    ensures
        r@ == stage_function_spec(stage),
{
    match stage {
        BenchStage::Setup => "setup",
        BenchStage::EncodeDb => "encode_db",
        BenchStage::Query => "query",
        BenchStage::Answer => "answer",
        BenchStage::Extract => "extract",
    }
}

/// How one stage is measured.
fn stage_config(params: &BenchParams, stage: BenchStage) -> (g: StageConfig)
    ensures
        stage_config_for(*params, stage, g),
{
    let (secs, samples, flat) = match stage {
        BenchStage::Setup => (params.setup_t, params.setup_n, true),
        BenchStage::EncodeDb => (params.encode_t, params.encode_n, true),
        BenchStage::Query => (params.query_t, params.query_n, false),
        BenchStage::Answer => (params.answer_t, params.answer_n, true),
        BenchStage::Extract => (params.extract_t, params.extract_n, false),
    };
    StageConfig { stage, measurement_secs: secs, sample_size: samples, flat_sampling: flat }
}

/// The five measured stages of a benchmark, in the order they run; all of
/// them belong to the one group named by `bench_id`.
pub fn bench_stages(params: &BenchParams) -> (r: Vec<StageConfig>)
    ensures
        r@.len() == 5,
        forall|i: int| 0 <= i < 5 ==> stage_config_for(*params, stage_order()[i], #[trigger] r@[i]),
{
    let mut r: Vec<StageConfig> = Vec::new();
    r.push(stage_config(params, BenchStage::Setup));
    r.push(stage_config(params, BenchStage::EncodeDb));
    r.push(stage_config(params, BenchStage::Query));
    r.push(stage_config(params, BenchStage::Answer));
    r.push(stage_config(params, BenchStage::Extract));
    r
}

/// The parameters that a benchmark kind and tree exponent give, for the
/// benchmarks that are defined: single-record retrieval on every supported
/// size, batch retrieval (one record per tree level) on `2^12` and `2^16`.
pub open spec fn standard_params_spec(single: bool, leaf_exp: usize) -> Option<BenchParams> {
    let p = |batch_size: usize, b: (u64, usize, u64, usize, u64, usize, u64, usize, u64, usize)|
        BenchParams {
            leaf_exp,
            batch_size,
            setup_t: b.0,
            setup_n: b.1,
            encode_t: b.2,
            encode_n: b.3,
            query_t: b.4,
            query_n: b.5,
            answer_t: b.6,
            answer_n: b.7,
            extract_t: b.8,
            extract_n: b.9,
        };
    if single {
        if leaf_exp == 12 {
            Some(p(1, (15, 15, 15, 15, 10, 20, 15, 15, 10, 20)))
        } else if leaf_exp == 16 {
            Some(p(1, (10, 20, 70, 10, 10, 20, 10, 10, 10, 10)))
        } else if leaf_exp == 20 {
            Some(p(1, (60, 8, 60, 8, 30, 10, 60, 8, 30, 10)))
        } else if leaf_exp == 24 {
            Some(p(1, (120, 5, 120, 5, 60, 8, 120, 5, 60, 8)))
        } else {
            None
        }
    } else {
        if leaf_exp == 12 {
            Some(p(12, (15, 15, 15, 15, 10, 20, 15, 15, 10, 20)))
        } else if leaf_exp == 16 {
            Some(p(16, (10, 20, 80, 10, 10, 20, 100, 10, 100, 10)))
        } else {
            None
        }
    }
}

/// Parameters from a batch size and the ten stage budgets, in stage order.
fn params_with(
    leaf_exp: usize,
    batch_size: usize,
    b: (u64, usize, u64, usize, u64, usize, u64, usize, u64, usize),
) -> (r: BenchParams)
    ensures
        r == (BenchParams {
            leaf_exp,
            batch_size,
            setup_t: b.0,
            setup_n: b.1,
            encode_t: b.2,
            encode_n: b.3,
            query_t: b.4,
            query_n: b.5,
            answer_t: b.6,
            answer_n: b.7,
            extract_t: b.8,
            extract_n: b.9,
        }),
{
    BenchParams {
        leaf_exp,
        batch_size,
        setup_t: b.0,
        setup_n: b.1,
        encode_t: b.2,
        encode_n: b.3,
        query_t: b.4,
        query_n: b.5,
        answer_t: b.6,
        answer_n: b.7,
        extract_t: b.8,
        extract_n: b.9,
    }
}

impl BenchParams {
    /// The parameters of the defined benchmark of the given kind and size, if
    /// there is one.
    pub fn standard(single: bool, leaf_exp: usize) -> (r: Option<BenchParams>)
        ensures
            r == standard_params_spec(single, leaf_exp),
    {
        if single {
            if leaf_exp == 12 {
                Some(params_with(leaf_exp, 1, (15, 15, 15, 15, 10, 20, 15, 15, 10, 20)))
            } else if leaf_exp == 16 {
                Some(params_with(leaf_exp, 1, (10, 20, 70, 10, 10, 20, 10, 10, 10, 10)))
            } else if leaf_exp == 20 {
                Some(params_with(leaf_exp, 1, (60, 8, 60, 8, 30, 10, 60, 8, 30, 10)))
            } else if leaf_exp == 24 {
                Some(params_with(leaf_exp, 1, (120, 5, 120, 5, 60, 8, 120, 5, 60, 8)))
            } else {
                None
            }
        } else {
            if leaf_exp == 12 {
                Some(params_with(leaf_exp, 12, (15, 15, 15, 15, 10, 20, 15, 15, 10, 20)))
            } else if leaf_exp == 16 {
                Some(params_with(leaf_exp, 16, (10, 20, 80, 10, 10, 20, 100, 10, 100, 10)))
            } else {
                None
            }
        }
    }
}

/// A defined batch benchmark on `2^n` leaves retrieves `n` records per
/// query, one per tree level, and a single one retrieves one; the results of
/// either are recorded under the benchmark's name, `single_<n>` or `batch_<n>`.
pub proof fn lemma_standard_params(single: bool, leaf_exp: u32)
    ensures
        standard_params_spec(single, leaf_exp as usize) matches Some(p) ==> {
            &&& p.leaf_exp == leaf_exp
            &&& p.batch_size == (if single { 1 } else { leaf_exp as usize })
            &&& bench_id_spec(p.leaf_exp, p.batch_size) == bench_name_spec(
                if single {
                    "single"@
                } else {
                    "batch"@
                },
                leaf_exp,
            )
        },
        single && supported_exponents().contains(leaf_exp) ==> standard_params_spec(
            single,
            leaf_exp as usize,
        ) is Some,
{
}

/// The record that stands for a missing node: 32 zero bytes.
pub open spec fn zero_record() -> Seq<u8> {
    Seq::new(32, |_j: int| 0u8)
}

/// The record of database index `i`: the `i`-th flattened tree node, or the
/// zero record past the end of the tree.
pub open spec fn record_spec(flat: Seq<[u8; 32]>, i: int) -> Seq<u8> {
    if 0 <= i < flat.len() {
        flat[i]@
    } else {
        zero_record()
    }
}

/// The record of database index `i`.
pub fn record_at(flat: &[[u8; 32]], i: usize) -> (r: [u8; 32])
    ensures
        r@ == record_spec(flat@, i as int),
        i < flat@.len() ==> r == flat@[i as int],
        i >= flat@.len() ==> forall|j: int| 0 <= j < 32 ==> r@[j] == 0,
{
    if i < flat.len() {
        flat[i]
    } else {
        let r = [0u8; 32];
        assert(r@ =~= zero_record());
        r
    }
}

/// The database serves the flattened tree unchanged: record `i` is node `i`
/// for every index inside the tree, and all 32 bytes are zero past it.
pub proof fn lemma_records_are_nodes(flat: Seq<[u8; 32]>, i: int)
    ensures
        0 <= i < flat.len() ==> record_spec(flat, i) == flat[i]@,
        i >= flat.len() ==> record_spec(flat, i).len() == 32 && forall|j: int|
            0 <= j < 32 ==> #[trigger] record_spec(flat, i)[j] == 0,
{
}

/// Two indices inside the tree give the same record exactly when they name
/// equal nodes: no two nodes share a record slot.
pub proof fn lemma_records_follow_nodes(flat: Seq<[u8; 32]>, i: int, k: int)
    requires
        0 <= i < flat.len(),
        0 <= k < flat.len(),
    ensures
        record_spec(flat, i) == record_spec(flat, k) <==> flat[i]@ == flat[k]@,
{
}

/// A database of `num_records` records fits the tree of `total` nodes: one
/// record more than the nodes for single-record retrieval (whose scheme
/// reserves one), exactly as many for batch retrieval.
pub open spec fn record_count_fits(total: nat, batch_size: nat, num_records: nat) -> bool {
    if batch_size == 1 {
        total + 1 == num_records
    } else {
        total == num_records
    }
}

/// Whether a PIR scheme with `num_records` records fits the tree of `total`
/// nodes for the given batch size.
pub fn record_count_matches(total: usize, batch_size: usize, num_records: usize) -> (r: bool)
    ensures
        r == record_count_fits(total as nat, batch_size as nat, num_records as nat),
        batch_size == 1 ==> (r <==> total + 1 == num_records),
        batch_size != 1 ==> (r <==> total == num_records),
{
    if batch_size == 1 {
        num_records > 0 && total == num_records - 1
    } else {
        total == num_records
    }
}

/// A scheme fits a tree for single-record retrieval exactly when it has one
/// record more than the tree has nodes, and for batch retrieval exactly when
/// it has as many; in particular a smaller tree never fits a larger scheme.
pub proof fn lemma_record_count_fits(total: nat, batch_size: nat, num_records: nat)
    ensures
        batch_size == 1 ==> (record_count_fits(total, batch_size, num_records) <==> total + 1
            == num_records),
        batch_size != 1 ==> (record_count_fits(total, batch_size, num_records) <==> total
            == num_records),
        total + 1 < num_records ==> !record_count_fits(total, batch_size, num_records),
{
}

/// The label and the results name of a benchmark agree: both are the kind
/// (`single` exactly when one record is retrieved per query, `batch` for every
/// other batch size) and the tree exponent, joined by `-` in the label and by
/// `_` in the results name.
pub proof fn lemma_label_and_bench_id(leaf_exp: usize, batch_size: usize)
    ensures
        label_spec(leaf_exp, batch_size) == (if batch_size == 1 {
            "single"@
        } else {
            "batch"@
        }) + seq!['-'] + decimal(leaf_exp as nat),
        bench_id_spec(leaf_exp, batch_size) == (if batch_size == 1 {
            "single"@
        } else {
            "batch"@
        }) + seq!['_'] + decimal(leaf_exp as nat),
{
    reveal_strlit("single-");
    reveal_strlit("single");
    reveal_strlit("batch-");
    reveal_strlit("batch");
    assert("single-"@ =~= "single"@ + seq!['-']);
    assert("batch-"@ =~= "batch"@ + seq!['-']);
}

/// `batch_size` database indices drawn from `rng`, each below `total`.
pub fn draw_indices(rng: &mut StdRng, batch_size: usize, total: usize) -> (v: Vec<usize>)
    requires
        batch_size == 0 || total > 0,
    ensures
        v@.len() == batch_size,
        forall|i: int| 0 <= i < batch_size ==> #[trigger] v@[i] < total,
{
    let mut r: Vec<usize> = Vec::new();
    let mut i: usize = 0;
    while i < batch_size
        invariant
            i <= batch_size,
            batch_size == 0 || total > 0,
            r@.len() == i,
            forall|j: int| 0 <= j < i ==> #[trigger] r@[j] < total,
        decreases batch_size - i,
    {
        r.push(random_below(rng, total));
        i = i + 1;
    }
    r
}

/// `batch_size` database indices drawn at random below `total`, as one query
/// asks for them, from a generator seeded by the operating system. No
/// generator is needed, and none is seeded, for an empty batch; otherwise the
/// only error is that the system gave no entropy for the seed.
pub fn random_indices(batch_size: usize, total: usize) -> (r: Result<Vec<usize>, RandomSourceError>)
    requires
        batch_size == 0 || total > 0,
    ensures
        batch_size == 0 ==> (r matches Ok(v) && v@.len() == 0),
        r matches Ok(v) ==> v@.len() == batch_size,
        r matches Ok(v) ==> forall|i: int| 0 <= i < batch_size ==> #[trigger] v@[i] < total,
{
    if batch_size == 0 {
        return Ok(Vec::new());
    }
    match std_rng_from_os() {
        Ok(mut rng) => Ok(draw_indices(&mut rng, batch_size, total)),
        Err(e) => Err(RandomSourceError::NoEntropy(e)),
    }
}

} // verus!
