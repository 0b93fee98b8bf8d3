//! What the command line selects: supported tree sizes, benchmark names,
//! and the paths where trees are stored.

use vstd::prelude::*;
use crate::text::{
    decimal, decimal_string, is_digit, join_decimal_strings, join_decimals, lemma_decimal,
    lemma_parse_decimal,
    parse_u32, parse_u32_spec,
};

verus! {

/// The exponents `n` of the supported tree sizes (`2^n` leaves).
pub open spec fn supported_exponents() -> Seq<u32> {
    seq![12, 16, 20, 24]
}

/// The supported exponents, in the order in which they are offered.
pub fn exponents() -> (r: [u32; 4])
    ensures
        r@ == supported_exponents(),
{
    [12, 16, 20, 24]
}

/// The message that refuses the exponent written `shown`, listing `options`.
pub open spec fn invalid_exponent_message(shown: Seq<char>, options: Seq<char>) -> Seq<char> {
    "Invalid exponent "@ + shown + ". Use: "@ + options
}

/// What `validate_exponent` answers for `exp`.
pub open spec fn validate_exponent_spec(exp: u32) -> Result<(), Seq<char>> {
    if supported_exponents().contains(exp) {
        Ok(())
    } else {
        Err(invalid_exponent_message(decimal(exp as nat), join_decimals(supported_exponents())))
    }
}

/// The name of the benchmark of kind `prefix` on trees with `2^exp` leaves.
pub open spec fn bench_name_spec(prefix: Seq<char>, exp: u32) -> Seq<char> {
    prefix + seq!['_'] + decimal(exp as nat)
}

/// The names of the benchmarks that `select_benches` picks.
pub open spec fn select_benches_spec(prefix: Seq<char>, exponent: Seq<char>) -> Result<
    Seq<Seq<char>>,
    Seq<char>,
> {
    if exponent == "all"@ {
        Ok(supported_exponents().map_values(|e: u32| bench_name_spec(prefix, e)))
    } else {
        match parse_u32_spec(exponent) {
            None => Err(
                invalid_exponent_message(
                    exponent,
                    "all, "@ + join_decimals(supported_exponents()),
                ),
            ),
            Some(e) => match validate_exponent_spec(e) {
                Ok(_) => Ok(seq![bench_name_spec(prefix, e)]),
                Err(m) => Err(m),
            },
        }
    }
}

/// The characters after the last `'_'` of `s` (all of `s` when it has none).
pub open spec fn last_segment(s: Seq<char>) -> Seq<char>
    decreases s.len(),
{
    if s.len() == 0 {
        s
    } else if s.last() == '_' {
        Seq::empty()
    } else {
        last_segment(s.drop_last()).push(s.last())
    }
}

/// The exponent that a benchmark name ends with, if it ends with one.
pub open spec fn bench_exponent_spec(name: Seq<char>) -> Option<u32> {
    parse_u32_spec(last_segment(name))
}

/// The benchmark name ends with an exponent, and that exponent is supported.
pub open spec fn ends_with_supported_exponent(name: Seq<char>) -> bool {
    match bench_exponent_spec(name) {
        Some(e) => supported_exponents().contains(e),
        None => false,
    }
}

/// The views of a sequence of strings.
pub open spec fn string_views(v: Seq<String>) -> Seq<Seq<char>> {
    v.map_values(|s: String| s@)
}

/// Accepts exactly the supported exponents; any other is refused with a
/// message that lists the supported ones.
pub fn validate_exponent(exp: u32) -> (r: Result<(), String>)
    ensures
        r is Ok <==> supported_exponents().contains(exp),
        r matches Err(m) ==> validate_exponent_spec(exp) == Err::<(), Seq<char>>(m@),
{
    let exps = exponents();
    let mut i: usize = 0;
    while i < 4
        invariant
            exps@ == supported_exponents(),
            i <= 4,
            forall|j: int| 0 <= j < i ==> exps@[j] != exp,
        decreases 4 - i,
    {
        if exps[i] == exp {
            assert(supported_exponents()[i as int] == exp);
            return Ok(());
        }
        i = i + 1;
    }
    assert(!supported_exponents().contains(exp));
    let mut m = String::from_str("Invalid exponent ");
    let shown = decimal_string(exp as u64);
    m.append(shown.as_str());
    m.append(". Use: ");
    let options = join_decimal_strings(&exps);
    m.append(options.as_str());
    Err(m)
}

/// The name of the benchmark of kind `prefix` on trees with `2^exp` leaves:
/// `prefix`, `'_'`, and `exp` in decimal.
pub fn bench_name(prefix: &str, exp: u32) -> (r: String)
    ensures
        r@ == bench_name_spec(prefix@, exp),
{
    let mut r = String::from_str(prefix);
    proof {
        reveal_strlit("_");
    }
    r.append("_");
    let digits = decimal_string(exp as u64);
    r.append(digits.as_str());
    r
}

/// `s` is the text `"all"`.
fn is_all(s: &str) -> (r: bool)
    ensures
        r == (s@ == "all"@),
{
    proof {
        reveal_strlit("all");
    }
    if s.unicode_len() != 3 {
        return false;
    }
    let r = s.get_char(0) == 'a' && s.get_char(1) == 'l' && s.get_char(2) == 'l';
    if r {
        assert(s@ =~= "all"@);
    } else {
        assert(s@ != "all"@) by {
            if s@ == "all"@ {
                assert(s@[0] == 'a' && s@[1] == 'l' && s@[2] == 'l');
            }
        }
    }
    r
}

/// The benchmarks of kind `prefix` that `exponent` selects: all supported
/// sizes for `"all"`, otherwise the one size it names, which must parse as a
/// number and be supported.
pub fn select_benches(prefix: &str, exponent: &str) -> (r: Result<Vec<String>, String>)
    ensures
        match select_benches_spec(prefix@, exponent@) {
            Ok(names) => r matches Ok(v) && string_views(v@) == names,
            Err(m) => r matches Err(e) && e@ == m,
        },
        forall|e: u32|
            parse_u32_spec(exponent@) == Some(e) && supported_exponents().contains(e) ==> (
            r matches Ok(v) && v@.len() == 1 && v@[0]@ == prefix@ + seq!['_'] + decimal(
                e as nat,
            )),
{
    proof {
        if let Some(e) = parse_u32_spec(exponent@) {
            if supported_exponents().contains(e) {
                lemma_select_supported_exponent(prefix@, exponent@, e);
            }
        }
    }
    if is_all(exponent) {
        let exps = exponents();
        let mut v: Vec<String> = Vec::new();
        let mut i: usize = 0;
        while i < 4
            invariant
                exps@ == supported_exponents(),
                i <= 4,
                v@.len() == i,
                forall|j: int|
                    0 <= j < i ==> (#[trigger] v@[j])@ == bench_name_spec(prefix@, exps@[j]),
            decreases 4 - i,
        {
            v.push(bench_name(prefix, exps[i]));
            i = i + 1;
        }
        assert(string_views(v@) =~= supported_exponents().map_values(
            |e: u32| bench_name_spec(prefix@, e),
        ));
        return Ok(v);
    }
    match parse_u32(exponent) {
        None => {
            let mut m = String::from_str("Invalid exponent ");
            m.append(exponent);
            m.append(". Use: ");
            m.append("all, ");
            let exps = exponents();
            let options = join_decimal_strings(&exps);
            m.append(options.as_str());
            assert(m@ =~= invalid_exponent_message(
                exponent@,
                "all, "@ + join_decimals(supported_exponents()),
            ));
            Err(m)
        },
        Some(e) => {
            match validate_exponent(e) {
                Ok(()) => {
                    let mut v: Vec<String> = Vec::new();
                    v.push(bench_name(prefix, e));
                    assert(string_views(v@) =~= seq![bench_name_spec(prefix@, e)]);
                    Ok(v)
                },
                Err(m) => Err(m),
            }
        },
    }
}

/// `"all"` is no number.
proof fn lemma_all_is_not_a_number()
    ensures
        parse_u32_spec("all"@) is None,
{
    reveal_strlit("all");
    assert(!is_digit("all"@[0]));
}

/// A supported exponent written as a number selects exactly one benchmark:
/// the kind, `'_'`, and the exponent in decimal.
pub proof fn lemma_select_supported_exponent(prefix: Seq<char>, exponent: Seq<char>, e: u32)
    requires
        parse_u32_spec(exponent) == Some(e),
        supported_exponents().contains(e),
    ensures
        select_benches_spec(prefix, exponent) == Ok::<Seq<Seq<char>>, Seq<char>>(
            seq![prefix + seq!['_'] + decimal(e as nat)],
        ),
{
    lemma_all_is_not_a_number();
}

/// `"all"` selects one benchmark per supported exponent, in order, each
/// named by the kind, `'_'` and the exponent in decimal.
pub proof fn lemma_select_all(prefix: Seq<char>)
    ensures
        select_benches_spec(prefix, "all"@) matches Ok(names) && names.len() == 4 && forall|i: int|
            0 <= i < 4 ==> #[trigger] names[i] == prefix + seq!['_'] + decimal(
                supported_exponents()[i] as nat,
            ),
{
}

/// A number that is no supported exponent selects nothing and is refused.
pub proof fn lemma_select_unsupported_exponent(prefix: Seq<char>, exponent: Seq<char>, e: u32)
    requires
        parse_u32_spec(exponent) == Some(e),
        !supported_exponents().contains(e),
    ensures
        select_benches_spec(prefix, exponent) is Err,
{
    lemma_all_is_not_a_number();
}

/// Asking for one kind at a supported exponent plans exactly that benchmark,
/// and asking for every benchmark plans both kinds at every supported size.
pub proof fn lemma_plan_runs_selected(exponent: String, e: u32)
    requires
        parse_u32_spec(exponent@) == Some(e),
        supported_exponents().contains(e),
    ensures
        plan_benchmarks_spec(BenchSelection::Single(exponent)) == Ok::<Seq<Seq<char>>, Seq<char>>(
            seq!["single"@ + seq!['_'] + decimal(e as nat)],
        ),
        plan_benchmarks_spec(BenchSelection::Batch(exponent)) == Ok::<Seq<Seq<char>>, Seq<char>>(
            seq!["batch"@ + seq!['_'] + decimal(e as nat)],
        ),
{
    lemma_select_supported_exponent("single"@, exponent@, e);
    lemma_select_supported_exponent("batch"@, exponent@, e);
}

/// Which benchmarks the command line asks for: one kind with an exponent
/// argument (`"all"` or a number), or every benchmark.
pub enum BenchSelection {
    Single(String),
    Batch(String),
    All,
}

/// Every benchmark: for each supported size in turn, the single-element one
/// and then the batch one.
pub open spec fn all_benches_spec() -> Seq<Seq<char>> {
    Seq::new(
        8,
        |i: int|
            bench_name_spec(
                if i % 2 == 0 {
                    "single"@
                } else {
                    "batch"@
                },
                supported_exponents()[i / 2],
            ),
    )
}

/// What `plan_benchmarks` answers for a selection.
pub open spec fn plan_benchmarks_spec(selection: BenchSelection) -> Result<
    Seq<Seq<char>>,
    Seq<char>,
> {
    let picked = match selection {
        BenchSelection::Single(e) => select_benches_spec("single"@, e@),
        BenchSelection::Batch(e) => select_benches_spec("batch"@, e@),
        BenchSelection::All => Ok(all_benches_spec()),
    };
    match picked {
        Ok(names) => if names.len() == 0 {
            Err("No benchmarks selected"@)
        } else {
            Ok(names)
        },
        Err(m) => Err(m),
    }
}

/// The names of the benchmarks to run, in order, or the message that refuses
/// the selection.
pub fn plan_benchmarks(selection: &BenchSelection) -> (r: Result<Vec<String>, String>)
    ensures
        match plan_benchmarks_spec(*selection) {
            Ok(names) => r matches Ok(v) && string_views(v@) == names,
            Err(m) => r matches Err(e) && e@ == m,
        },
{
    let picked = match selection {
        BenchSelection::Single(e) => select_benches("single", e.as_str()),
        BenchSelection::Batch(e) => select_benches("batch", e.as_str()),
        BenchSelection::All => {
            let exps = exponents();
            let mut v: Vec<String> = Vec::new();
            let mut i: usize = 0;
            while i < 4
                invariant
                    exps@ == supported_exponents(),
                    i <= 4,
                    v@.len() == 2 * i,
                    forall|j: int|
                        0 <= j < 2 * i ==> (#[trigger] v@[j])@ == all_benches_spec()[j],
                decreases 4 - i,
            {
                v.push(bench_name("single", exps[i]));
                v.push(bench_name("batch", exps[i]));
                assert(all_benches_spec()[2 * i as int] == bench_name_spec("single"@, exps@[i as int]));
                assert(all_benches_spec()[2 * i + 1] == bench_name_spec("batch"@, exps@[i as int]));
                i = i + 1;
            }
            assert(string_views(v@) =~= all_benches_spec());
            Ok(v)
        },
    };
    match picked {
        Ok(names) => {
            if names.len() == 0 {
                Err(String::from_str("No benchmarks selected"))
            } else {
                Ok(names)
            }
        },
        Err(m) => Err(m),
    }
}

/// The last segment of `s` is the last segment of its first `j` characters
/// followed by the rest, when no `'_'` stands at or after `j`.
proof fn lemma_last_segment_split(s: Seq<char>, j: int)
    requires
        0 <= j <= s.len(),
        forall|k: int| j <= k < s.len() ==> s[k] != '_',
    ensures
        last_segment(s) == last_segment(s.take(j)) + s.subrange(j, s.len() as int),
    decreases s.len(),
{
    if j == s.len() {
        assert(s.take(j) =~= s);
        assert(s.subrange(j, s.len() as int) =~= Seq::<char>::empty());
    } else {
        let t = s.drop_last();
        lemma_last_segment_split(t, j);
        assert(t.take(j) =~= s.take(j));
        assert(s.subrange(j, s.len() as int) =~= t.subrange(j, t.len() as int).push(s.last()));
        assert(last_segment(s) == last_segment(t).push(s.last()));
        assert(last_segment(s) =~= last_segment(s.take(j)) + s.subrange(j, s.len() as int));
    }
}

/// The exponent that the benchmark name ends with: the part after its last
/// `'_'`, parsed as a `u32`.
pub fn bench_exponent(name: &str) -> (r: Option<u32>)
    ensures
        r == bench_exponent_spec(name@),
{
    let n = name.unicode_len();
    let mut i: usize = n;
    while i > 0
        invariant
            n == name@.len(),
            i <= n,
            forall|k: int| i <= k < n ==> name@[k] != '_',
        ensures
            i <= n,
            forall|k: int| i <= k < n ==> name@[k] != '_',
            i > 0 ==> name@[i - 1] == '_',
        decreases i,
    {
        if name.get_char(i - 1) == '_' {
            break;
        }
        i = i - 1;
    }
    proof {
        lemma_last_segment_split(name@, i as int);
        if i > 0 {
            assert(name@.take(i as int).last() == '_');
        } else {
            assert(name@.take(0) =~= Seq::<char>::empty());
        }
        assert(last_segment(name@.take(i as int)) =~= Seq::<char>::empty());
        assert(last_segment(name@) =~= name@.subrange(i as int, n as int));
    }
    let tail = name.substring_char(i, n);
    parse_u32(tail)
}

/// A benchmark name gives back the exponent it was made with, whatever the
/// kind prefix is.
pub proof fn lemma_bench_name_round_trip(prefix: Seq<char>, exp: u32)
    ensures
        bench_exponent_spec(bench_name_spec(prefix, exp)) == Some(exp),
{
    let s = bench_name_spec(prefix, exp);
    let d = decimal(exp as nat);
    let j: int = prefix.len() as int + 1;
    lemma_decimal(exp as nat);
    assert forall|k: int| j <= k < s.len() implies s[k] != '_' by {
        assert(s[k] == d[k - j]);
        assert(d.contains(d[k - j]));
    }
    lemma_last_segment_split(s, j);
    assert(s.take(j).last() == '_');
    assert(last_segment(s.take(j)) =~= Seq::<char>::empty());
    assert(s.subrange(j, s.len() as int) =~= d);
    lemma_parse_decimal(exp);
}

/// Every benchmark that a selection plans ends with a supported exponent, so
/// the tree it needs can be generated.
pub proof fn lemma_planned_benches_have_supported_exponents(selection: BenchSelection)
    ensures
        plan_benchmarks_spec(selection) matches Ok(names) ==> forall|i: int|
            0 <= i < names.len() ==> #[trigger] ends_with_supported_exponent(names[i]),
{
    if let Ok(names) = plan_benchmarks_spec(selection) {
        assert forall|i: int| 0 <= i < names.len() implies #[trigger] ends_with_supported_exponent(
            names[i],
        ) by {
            match selection {
                BenchSelection::All => {
                    let e = supported_exponents()[i / 2];
                    lemma_bench_name_round_trip(if i % 2 == 0 { "single"@ } else { "batch"@ }, e);
                    assert(supported_exponents().contains(e));
                },
                BenchSelection::Single(a) => {
                    lemma_selected_exponent("single"@, a@, i);
                },
                BenchSelection::Batch(a) => {
                    lemma_selected_exponent("batch"@, a@, i);
                },
            }
        }
    }
}

/// Every benchmark that `select_benches` picks ends with a supported exponent.
pub proof fn lemma_selected_exponent(prefix: Seq<char>, exponent: Seq<char>, i: int)
    ensures
        select_benches_spec(prefix, exponent) matches Ok(names) ==> (0 <= i < names.len()
            ==> ends_with_supported_exponent(names[i])),
{
    if let Ok(names) = select_benches_spec(prefix, exponent) {
        if 0 <= i < names.len() {
            if exponent == "all"@ {
                let e = supported_exponents()[i];
                lemma_bench_name_round_trip(prefix, e);
                assert(supported_exponents().contains(e));
            } else {
                let e = parse_u32_spec(exponent)->0;
                lemma_bench_name_round_trip(prefix, e);
            }
        }
    }
}

/// Where the tree with `2^exp` leaves is stored, relative to the working
/// directory: `./trees/tree_<exp>.bin`.
pub fn tree_file_path(exp: u64) -> (r: String)
    ensures
        r@ == "./trees/tree_"@ + decimal(exp as nat) + ".bin"@,
{
    let mut r = String::from_str("./trees/tree_");
    let digits = decimal_string(exp);
    r.append(digits.as_str());
    r.append(".bin");
    r
}

} // verus!
