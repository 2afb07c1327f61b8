//! Generation of random values, and `TestGenDB`: the state of the current
//! test generation run, which biases the new calls and tests generated.

use crate::consts::{
    ALLOW_ANY_TYPE_ARGS, ALLOW_MULTIPLE_CALLBACK_ARGS, CHOOSE_NEW_SIG_PCT, DEFAULT_MAX_ARG_LENGTH,
    INITIAL_WEIGHT, MAX_GENERATED_ARRAY_LENGTH, MAX_GENERATED_NUM, MAX_GENERATED_OBJ_LENGTH,
    RANDOM_STRING_LENGTH, RECHOOSE_FCT_SIG_WEIGHT_FACTOR, RECHOOSE_LIB_FCT_WEIGHT_FACTOR,
    USE_MINED_NESTING_EXAMPLE,
};
use crate::errors::{DFError, FunctionCallResult, TestGenError};
use crate::functions::{
    spec_args_cb_vals, spec_single_cb, view_opt_string, ArgType, ArgVal, ArgValAPTracked, ArgValV,
    Callback, CallbackV, CallbackVal, CallbackValV, FunctionArgument, FunctionArgumentV,
    FunctionSignature, FunctionSignatureV,
};
use crate::mined_seed_reps::{
    get_rel_mined_data_nested_extensions, wire_outer_to_inner_dataflow, MinedAPICall,
    MinedNestingPairJSON,
};
use crate::module_reps::{
    spec_js_var_name, APathV, AccessPathModuleCentred, FieldNameType, FieldNameTypeV, NpmModule,
    string_push_char,
};
use crate::strutil::{str_eq, int_to_string};
use crate::TestGenMode;
use crate::tests::{
    tree_wf, ExtensionPointID, ExtensionType, FunctionCall, Test, TestV,
};
use vstd::prelude::*;

verus! {

/// Draw a random `usize` from an inclusive range.
/// Relies on rand's `Rng::gen_range` on `lo..=hi`: the result lies in the range.
#[verifier::external_body]
fn rand_usize_inclusive(lo: usize, hi: usize) -> (r: usize)
    requires
        lo <= hi,
    ensures
        lo <= r <= hi,
{
    rand::Rng::gen_range(&mut rand::thread_rng(), lo..=hi)
}

/// Draw a random `i64` from an inclusive range.
/// Relies on rand's `Rng::gen_range` on `lo..=hi`: the result lies in the range.
#[verifier::external_body]
fn rand_i64_inclusive(lo: i64, hi: i64) -> (r: i64)
    requires
        lo <= hi,
    ensures
        lo <= r <= hi,
{
    rand::Rng::gen_range(&mut rand::thread_rng(), lo..=hi)
}

/// Draw a random `u128` below a positive bound.
/// Relies on rand's `Rng::gen_range` on `0..n`: the result is below the bound.
#[verifier::external_body]
fn rand_u128_below(n: u128) -> (r: u128)
    requires
        n > 0,
    ensures
        r < n,
{
    rand::Rng::gen_range(&mut rand::thread_rng(), 0..n)
}

/// Draw a random alphanumeric string of the given length.
/// Relies on rand's `Alphanumeric` distribution: each sample is one ASCII
/// alphanumeric character, so the collected string has exactly `len` of them.
#[verifier::external_body]
fn rand_alphanumeric(len: usize) -> (r: String)
    ensures
        r@.len() == len,
{
    rand::Rng::sample_iter(rand::thread_rng(), &rand::distributions::Alphanumeric).take(len).map(
        char::from,
    ).collect()
}

/// The sum of a table of weights.
pub open spec fn spec_sum_weights(ws: Seq<u64>) -> int
    decreases ws.len(),
{
    if ws.len() == 0 {
        0
    } else {
        spec_sum_weights(ws.drop_last()) + ws.last()
    }
}

/// Pick an index at random, with probability proportional to its weight;
/// `None` exactly when every weight is zero. The returned index always has a
/// nonzero weight.
fn choose_weighted_index(weights: &Vec<u64>) -> (r: Option<usize>)
    ensures
        match r {
            Option::Some(i) => i < weights@.len() && weights@[i as int] > 0,
            Option::None => spec_sum_weights(weights@) == 0,
        },
{
    let mut total: u128 = 0;
    let mut i: usize = 0;
    while i < weights.len()
        invariant
            i <= weights@.len(),
            total == spec_sum_weights(weights@.take(i as int)),
            total <= i * 0xffffffffffffffff,
        decreases weights@.len() - i,
    {
        proof {
            assert(weights@.take(i + 1).drop_last() =~= weights@.take(i as int));
            assert(weights@.take(i + 1).last() == weights@[i as int]);
            assert(total + weights@[i as int] <= (i + 1) * 0xffffffffffffffff) by (nonlinear_arith)
                requires
                    total <= i * 0xffffffffffffffff,
                    weights@[i as int] <= 0xffffffffffffffff,
                    i >= 0,
            ;
            assert((i + 1) * 0xffffffffffffffff < (0x10000000000000000int)
                * 0x10000000000000000int) by (nonlinear_arith)
                requires
                    0 <= i + 1 <= 0x10000000000000000int,
            ;
        }
        total = total + (weights[i] as u128);
        i = i + 1;
    }
    proof {
        assert(weights@.take(weights@.len() as int) =~= weights@);
    }
    if total == 0 {
        return Option::None;
    }
    let draw = rand_u128_below(total);
    let mut acc: u128 = 0;
    let mut k: usize = 0;
    loop
        invariant
            k <= weights@.len(),
            acc == spec_sum_weights(weights@.take(k as int)),
            acc <= draw,
            draw < total,
            total == spec_sum_weights(weights@),
        decreases weights@.len() - k,
    {
        if k == weights.len() {
            proof {
                assert(weights@.take(weights@.len() as int) =~= weights@);
            }
            assert(false);
        }
        proof {
            assert(weights@.take(k + 1).drop_last() =~= weights@.take(k as int));
            assert(weights@.take(k + 1).last() == weights@[k as int]);
            lemma_sum_prefix_bound(weights@, k + 1);
        }
        let w = weights[k];
        if draw < acc + (w as u128) {
            if w > 0 {
                return Option::Some(k);
            }
            assert(false);
        }
        acc = acc + (w as u128);
        k = k + 1;
    }
}

/// A prefix sum never exceeds the total.
proof fn lemma_sum_prefix_bound(ws: Seq<u64>, n: int)
    requires
        0 <= n <= ws.len(),
    ensures
        spec_sum_weights(ws.take(n)) <= spec_sum_weights(ws),
    decreases ws.len() - n,
{
    if n < ws.len() {
        lemma_sum_prefix_bound(ws, n + 1);
        assert(ws.take(n + 1).drop_last() =~= ws.take(n));
        assert(spec_sum_weights(ws.take(n + 1)) == spec_sum_weights(ws.take(n)) + ws[n]);
    } else {
        assert(ws.take(n) =~= ws);
    }
}

/// A weight after one decay step at `pct` percent: that percentage of it,
/// rounded down, but never below one, so that nothing ever becomes
/// unselectable.
pub open spec fn spec_decay(w: int, pct: int) -> int {
    if (pct * w) / 100 < 1 {
        1
    } else {
        (pct * w) / 100
    }
}

/// One decay step of a weight.
pub fn decay_weight(w: u64, pct: u64) -> (r: u64)
    requires
        w <= 0xffffffffffffff,
        pct <= 100,
    ensures
        r == spec_decay(w as int, pct as int),
        w >= 1 ==> 1 <= r <= w,
{
    proof {
        assert(w as int * pct as int <= 0xffffffffffffff * 100) by (nonlinear_arith)
            requires
                0 <= w <= 0xffffffffffffff,
                0 <= pct <= 100,
        ;
    }
    let d = (w * pct) / 100;
    proof {
        assert((pct * (w as int)) / 100 <= w as int) by (nonlinear_arith)
            requires
                w >= 0,
                0 <= pct <= 100,
        ;
        assert(w as int * pct as int == pct as int * (w as int)) by (nonlinear_arith);
    }
    if d == 0 {
        1
    } else {
        d
    }
}

/// Weight decay makes reselection strictly less likely: after a choice, the
/// chosen option's weight strictly decreases, and therefore so does its
/// selection probability, holding all other weights fixed. The probability
/// comparison `d/(d+rest) < w/(w+rest)` is stated by cross multiplication.
pub proof fn lemma_weight_decay(w: int, rest: int, pct: int)
    requires
        2 <= w,
        1 <= rest,
        1 <= pct <= 99,
    ensures
        spec_decay(w, pct) < w,
        spec_decay(w, pct) * (w + rest) < w * (spec_decay(w, pct) + rest),
{
    let d = spec_decay(w, pct);
    assert((pct * w) / 100 < w) by (nonlinear_arith)
        requires
            w >= 2,
            1 <= pct <= 99,
    ;
    assert(d < w);
    assert(d >= 1);
    assert(d * (w + rest) < w * (d + rest)) by (nonlinear_arith)
        requires
            0 < d < w,
            rest >= 1,
    ;
}

/// One function's entry in the weighted tables: its key in the registry, its
/// selection weight, and the weights of its known abstract signatures.
pub struct FctWeightEntry {
    /// The registry key: access path and function name.
    pub key: (AccessPathModuleCentred, String),
    /// The function's selection weight.
    pub weight: u64,
    /// Weights of the function's known abstract signatures.
    pub sig_weights: Vec<(Vec<ArgType>, u64)>,
}

/// Mathematical view of a weight entry.
#[verifier::ext_equal]
pub struct FctWeightEntryV {
    pub key: (APathV, Seq<char>),
    pub weight: u64,
    pub sig_weights: Seq<(Seq<ArgType>, u64)>,
}

impl View for FctWeightEntry {
    type V = FctWeightEntryV;

    open spec fn view(&self) -> FctWeightEntryV {
        FctWeightEntryV {
            key: (self.key.0@, self.key.1@),
            weight: self.weight,
            sig_weights: Seq::new(
                self.sig_weights@.len(),
                |i: int|
                    if 0 <= i < self.sig_weights@.len() {
                        (self.sig_weights@[i].0@, self.sig_weights@[i].1)
                    } else {
                        (Seq::empty(), 0u64)
                    },
            ),
        }
    }
}

/// Are all the weights of an entry within the sane range?
pub open spec fn entry_weights_ok(e: FctWeightEntryV) -> bool {
    1 <= e.weight <= INITIAL_WEIGHT && forall|i: int|
        0 <= i < e.sig_weights.len() ==> 1 <= (#[trigger] e.sig_weights[i]).1 <= INITIAL_WEIGHT
}

/// One possible extension point: its type, and the test with the node and the
/// callback argument position to extend at.
pub type PoolEntry = (ExtensionType, (Test, Option<ExtensionPointID>, Option<String>));

/// Mathematical view of a pool entry.
pub open spec fn view_pool_entry(e: PoolEntry) -> (
    ExtensionType,
    (TestV, Option<usize>, Option<Seq<char>>),
) {
    (e.0, (e.1.0@, e.1.1, view_opt_string(e.1.2)))
}

/// Mathematical view of `TestGenDB`.
#[verifier::ext_equal]
pub struct TestGenDBV {
    pub fs_strings: Seq<Seq<char>>,
    pub toy_dir_base: Seq<char>,
    pub possible_ext_points: Seq<(ExtensionType, (TestV, Option<usize>, Option<Seq<char>>))>,
    pub cur_test_index: usize,
    pub libs_fcts_weights: Seq<(Seq<char>, Seq<FctWeightEntryV>)>,
    pub lib_mined_data: Seq<(Seq<char>, Seq<MinedNestingPairJSON>)>,
    pub lib_mined_call_data: Seq<(Seq<char>, Seq<MinedAPICall>)>,
    pub test_dir_path: Seq<char>,
    pub test_file_prefix: Seq<char>,
    pub api_src_dir: Option<Seq<char>>,
}

/// The state of the test generator: configuration for random value
/// generation, informed by the tests generated and executed so far.
pub struct TestGenDB {
    /// Paths in the toy filesystem the tests may use as string arguments.
    fs_strings: Vec<String>,
    /// Base of the toy directory for the filesystem playground.
    toy_dir_base: String,
    /// The pool of possible extension points of previous tests.
    possible_ext_points: Vec<PoolEntry>,
    /// Current test index.
    cur_test_index: usize,
    /// Per-library weighted tables of functions (and their signatures), so
    /// the generator leans toward functions not tested yet.
    libs_fcts_weights: Vec<(String, Vec<FctWeightEntry>)>,
    /// Mined nesting data, grouped by library.
    lib_mined_data: Vec<(String, Vec<MinedNestingPairJSON>)>,
    /// Mined API call data, grouped by library.
    lib_mined_call_data: Vec<(String, Vec<MinedAPICall>)>,
    /// Directory the generated tests are written to.
    pub test_dir_path: String,
    /// Prefix for the test files (just the file, not the path).
    pub test_file_prefix: String,
    /// Optional directory of the source code of the package under test.
    pub api_src_dir: Option<String>,
}

impl View for TestGenDB {
    type V = TestGenDBV;

    closed spec fn view(&self) -> TestGenDBV {
        TestGenDBV {
            fs_strings: Seq::new(
                self.fs_strings@.len(),
                |i: int|
                    if 0 <= i < self.fs_strings@.len() {
                        self.fs_strings@[i]@
                    } else {
                        Seq::empty()
                    },
            ),
            toy_dir_base: self.toy_dir_base@,
            possible_ext_points: Seq::new(
                self.possible_ext_points@.len(),
                |i: int|
                    if 0 <= i < self.possible_ext_points@.len() {
                        view_pool_entry(self.possible_ext_points@[i])
                    } else {
                        arbitrary()
                    },
            ),
            cur_test_index: self.cur_test_index,
            libs_fcts_weights: Seq::new(
                self.libs_fcts_weights@.len(),
                |i: int|
                    if 0 <= i < self.libs_fcts_weights@.len() {
                        (
                            self.libs_fcts_weights@[i].0@,
                            Seq::new(
                                self.libs_fcts_weights@[i].1@.len(),
                                |k: int|
                                    if 0 <= k < self.libs_fcts_weights@[i].1@.len() {
                                        self.libs_fcts_weights@[i].1@[k]@
                                    } else {
                                        arbitrary()
                                    },
                            ),
                        )
                    } else {
                        arbitrary()
                    },
            ),
            lib_mined_data: Seq::new(
                self.lib_mined_data@.len(),
                |i: int|
                    if 0 <= i < self.lib_mined_data@.len() {
                        (self.lib_mined_data@[i].0@, self.lib_mined_data@[i].1@)
                    } else {
                        arbitrary()
                    },
            ),
            lib_mined_call_data: Seq::new(
                self.lib_mined_call_data@.len(),
                |i: int|
                    if 0 <= i < self.lib_mined_call_data@.len() {
                        (self.lib_mined_call_data@[i].0@, self.lib_mined_call_data@[i].1@)
                    } else {
                        arbitrary()
                    },
            ),
            test_dir_path: self.test_dir_path@,
            test_file_prefix: self.test_file_prefix@,
            api_src_dir: view_opt_string(self.api_src_dir),
        }
    }
}

impl TestGenDBV {
    /// Well-formedness: every pooled test's tree is well formed, every pooled
    /// extension point names a node of its test, and every weight is in
    /// range.
    pub open spec fn wf(self) -> bool {
        (forall|i: int|
            0 <= i < self.possible_ext_points.len() ==> tree_wf(
                (#[trigger] self.possible_ext_points[i]).1.0.fct_tree,
            ) && (match self.possible_ext_points[i].1.1 {
                Option::Some(e) => e < self.possible_ext_points[i].1.0.fct_tree.len(),
                Option::None => false,
            })) && (forall|l: int, k: int|
            0 <= l < self.libs_fcts_weights.len() && 0 <= k < self.libs_fcts_weights[l].1.len()
                ==> entry_weights_ok(#[trigger] self.libs_fcts_weights[l].1[k]))
    }
}

impl TestGenDB {
    /// Constructor: the initial state of the generator, before any tests.
    pub fn new(
        test_dir_path: String,
        test_file_prefix: String,
        mined_data: Option<Vec<MinedNestingPairJSON>>,
        mined_api_call_data: Option<Vec<MinedAPICall>>,
        api_src_dir: Option<String>,
    ) -> (r: Self)
        ensures
            r@.wf(),
            r@.fs_strings =~= Seq::<Seq<char>>::empty(),
            r@.possible_ext_points =~= Seq::<
                (ExtensionType, (TestV, Option<usize>, Option<Seq<char>>)),
            >::empty(),
            r@.cur_test_index == 0,
            r@.libs_fcts_weights =~= Seq::<(Seq<char>, Seq<FctWeightEntryV>)>::empty(),
            r@.test_dir_path == test_dir_path@,
            r@.test_file_prefix == test_file_prefix@,
            r@.api_src_dir == view_opt_string(api_src_dir),
            // the mined corpora are stored grouped by package
            (match mined_data {
                Option::Some(lmd) => r@.lib_mined_data.len() == crate::mined_seed_reps::spec_pair_keys(
                    lmd@,
                    lmd@.len() as int,
                ).len() && forall|k: int|
                    0 <= k < r@.lib_mined_data.len() ==> (#[trigger] r@.lib_mined_data[k]).0
                        == crate::mined_seed_reps::spec_pair_keys(lmd@, lmd@.len() as int)[k]
                        && r@.lib_mined_data[k].1 == crate::mined_seed_reps::spec_pair_bucket(
                        lmd@,
                        r@.lib_mined_data[k].0,
                        lmd@.len() as int,
                    ),
                Option::None => r@.lib_mined_data.len() == 0,
            }),
            (match mined_api_call_data {
                Option::Some(lmd) => r@.lib_mined_call_data.len()
                    == crate::mined_seed_reps::spec_call_keys(lmd@, lmd@.len() as int).len()
                    && forall|k: int|
                    0 <= k < r@.lib_mined_call_data.len() ==> (#[trigger] r@.lib_mined_call_data[
                    k]).0 == crate::mined_seed_reps::spec_call_keys(lmd@, lmd@.len() as int)[k]
                        && r@.lib_mined_call_data[k].1
                        == crate::mined_seed_reps::spec_call_bucket(
                        lmd@,
                        r@.lib_mined_call_data[k].0,
                        lmd@.len() as int,
                    ),
                Option::None => r@.lib_mined_call_data.len() == 0,
            }),
    {
        let lib_mined_data = match mined_data {
            Option::Some(lmd) => MinedNestingPairJSON::lib_map_from_list(lmd),
            Option::None => Vec::new(),
        };
        let lib_mined_call_data = match mined_api_call_data {
            Option::Some(lmd) => MinedAPICall::lib_map_from_list(lmd),
            Option::None => Vec::new(),
        };
        let r = TestGenDB {
            fs_strings: Vec::new(),
            toy_dir_base: ".".to_owned(),
            possible_ext_points: Vec::new(),
            cur_test_index: 0,
            libs_fcts_weights: Vec::new(),
            lib_mined_data,
            lib_mined_call_data,
            test_dir_path,
            test_file_prefix,
            api_src_dir,
        };
        assert(r@.fs_strings =~= Seq::<Seq<char>>::empty());
        assert(r@.possible_ext_points =~= Seq::<
            (ExtensionType, (TestV, Option<usize>, Option<Seq<char>>)),
        >::empty());
        assert(r@.libs_fcts_weights =~= Seq::<(Seq<char>, Seq<FctWeightEntryV>)>::empty());
        r
    }

    /// Set the list of valid toy filesystem paths.
    pub fn set_fs_strings(&mut self, new_fs_paths: Vec<String>, toy_dir_base: &str)
        ensures
            final(self)@ == (TestGenDBV {
                fs_strings: Seq::new(
                    new_fs_paths@.len(),
                    |i: int|
                        if 0 <= i < new_fs_paths@.len() {
                            new_fs_paths@[i]@
                        } else {
                            Seq::empty()
                        },
                ),
                toy_dir_base: toy_dir_base@,
                ..old(self)@
            }),
            old(self)@.wf() ==> final(self)@.wf(),
    {
        self.fs_strings = new_fs_paths;
        self.toy_dir_base = toy_dir_base.to_owned();
        assert(self@ =~= (TestGenDBV {
            fs_strings: self@.fs_strings,
            toy_dir_base: self@.toy_dir_base,
            ..old(self)@
        }));
    }

    /// The number of pooled extension points.
    pub fn num_ext_points(&self) -> (r: usize)
        ensures
            r == self@.possible_ext_points.len(),
    {
        self.possible_ext_points.len()
    }

    /// The number of configured toy filesystem paths.
    pub fn num_fs_strings(&self) -> (r: usize)
        ensures
            r == self@.fs_strings.len(),
    {
        self.fs_strings.len()
    }

    /// The directory the generated tests are written to.
    pub fn get_test_dir_path(&self) -> (r: String)
        ensures
            r@ == self@.test_dir_path,
    {
        self.test_dir_path.clone()
    }

    /// The prefix of the test file names.
    pub fn get_test_file_prefix(&self) -> (r: String)
        ensures
            r@ == self@.test_file_prefix,
    {
        self.test_file_prefix.clone()
    }

    /// Set the current test index; future tests are generated from it on.
    pub fn set_cur_test_index(&mut self, cur_test_index: usize)
        ensures
            final(self)@ == (TestGenDBV { cur_test_index: cur_test_index, ..old(self)@ }),
            old(self)@.wf() ==> final(self)@.wf(),
    {
        self.cur_test_index = cur_test_index;
        assert(self@ =~= (TestGenDBV { cur_test_index: cur_test_index, ..old(self)@ }));
    }

    /// Choose a random argument type: always one of the four primitive
    /// shapes; callbacks and library functions only when `allow_cbs`; `any`
    /// only when additionally `allow_any`.
    pub fn choose_random_arg_type(&self, allow_cbs: bool, allow_any: bool) -> (r: ArgType)
        ensures
            !allow_cbs ==> (r is NumberType || r is StringType || r is ArrayType
                || r is ObjectType),
            !(allow_cbs && allow_any) ==> !(r is AnyType),
    {
        let max_arg_type_count: usize = 4 + (if allow_cbs {
            if allow_any {
                3usize
            } else {
                2usize
            }
        } else {
            0usize
        });
        let draw = rand_usize_inclusive(0, max_arg_type_count - 1);
        match draw {
            0 => ArgType::NumberType,
            1 => ArgType::StringType,
            2 => ArgType::ArrayType,
            3 => ArgType::ObjectType,
            4 => ArgType::CallbackType,
            5 => ArgType::LibFunctionType,
            _ => ArgType::AnyType,
        }
    }

    /// Replace each primitive type in an abstract signature by a fresh random
    /// primitive type, keeping callbacks and library functions as they are.
    pub fn randomize_prim_arg_types(&self, abstract_sig: &Vec<ArgType>) -> (r: Vec<ArgType>)
        ensures
            r@.len() == abstract_sig@.len(),
            forall|i: int|
                0 <= i < abstract_sig@.len() ==> ((abstract_sig@[i] is CallbackType
                    || abstract_sig@[i] is LibFunctionType) ==> #[trigger] r@[i]
                    == abstract_sig@[i]),
            forall|i: int|
                0 <= i < abstract_sig@.len() ==> (!(abstract_sig@[i] is CallbackType
                    || abstract_sig@[i] is LibFunctionType) ==> (#[trigger] r@[i] is NumberType
                    || r@[i] is StringType || r@[i] is ArrayType || r@[i] is ObjectType)),
    {
        let mut r: Vec<ArgType> = Vec::new();
        let mut i: usize = 0;
        while i < abstract_sig.len()
            invariant
                i <= abstract_sig@.len(),
                r@.len() == i,
                forall|j: int|
                    0 <= j < i ==> ((abstract_sig@[j] is CallbackType
                        || abstract_sig@[j] is LibFunctionType) ==> #[trigger] r@[j]
                        == abstract_sig@[j]),
                forall|j: int|
                    0 <= j < i ==> (!(abstract_sig@[j] is CallbackType
                        || abstract_sig@[j] is LibFunctionType) ==> (#[trigger] r@[j]
                        is NumberType || r@[j] is StringType || r@[j] is ArrayType || r@[j]
                        is ObjectType)),
            decreases abstract_sig@.len() - i,
        {
            let ty = abstract_sig[i];
            if ty.is_not_callback() {
                r.push(self.choose_random_arg_type(false, false));
            } else {
                r.push(ty);
            }
            i = i + 1;
        }
        r
    }
}

/// Is `sig` a freshly drawn random shape: the requested argument count (or at
/// most the default bound), a callback forced at `cb_position` when that
/// position is valid, and one of the four primitive types everywhere else?
pub open spec fn spec_fresh_sig_shape(
    sig: FunctionSignatureV,
    num_args: Option<usize>,
    cb_position: Option<i32>,
) -> bool {
    &&& (match num_args {
        Option::Some(n) => sig.arg_list.len() == n,
        Option::None => sig.arg_list.len() <= DEFAULT_MAX_ARG_LENGTH,
    })
    &&& (match cb_position {
        Option::Some(p) => 0 <= p < sig.arg_list.len() ==> sig.arg_list[p as int].arg_type
            is CallbackType,
        Option::None => true,
    })
    &&& (forall|i: int|
        0 <= i < sig.arg_list.len() && !(cb_position matches Option::Some(p) && p == i)
            ==> ((#[trigger] sig.arg_list[i].arg_type) is NumberType || sig.arg_list[i].arg_type
            is StringType || sig.arg_list[i].arg_type is ArrayType || sig.arg_list[i].arg_type
            is ObjectType))
}

/// Is `sig` a reuse of the observed abstract shape `orig`: the same shape
/// when primitive types are tracked, else the same arity with callbacks and
/// library functions kept and every other position re-drawn as a primitive?
pub open spec fn spec_reused_sig_shape(
    sig: FunctionSignatureV,
    orig: Seq<ArgType>,
    tracks_prims: bool,
) -> bool {
    if tracks_prims {
        sig.abstract_sig() == orig
    } else {
        sig.arg_list.len() == orig.len() && (forall|i: int|
            0 <= i < orig.len() ==> ((orig[i] is CallbackType || orig[i] is LibFunctionType)
                ==> (#[trigger] sig.arg_list[i].arg_type) == orig[i])) && (forall|i: int|
            0 <= i < orig.len() ==> (!(orig[i] is CallbackType || orig[i] is LibFunctionType)
                ==> ((#[trigger] sig.arg_list[i].arg_type) is NumberType
                || sig.arg_list[i].arg_type is StringType || sig.arg_list[i].arg_type
                is ArrayType || sig.arg_list[i].arg_type is ObjectType)))
    }
}

/// Generate a new signature with `num_args` arguments (or a random count when
/// unspecified). When previously observed abstract shapes are available, half
/// of the time one of them is reused, picked by weight; otherwise a fresh
/// random shape is drawn, with a callback forced at `cb_position` when that
/// position is valid. Generated signatures are untested, not spreads, and
/// have no argument values yet.
pub fn gen_new_sig_with_cb(
    num_args: Option<usize>,
    weighted_sigs: &Vec<(Vec<ArgType>, u64)>,
    cb_position: Option<i32>,
    testgen_db: &TestGenDB,
    test_gen_mode: &TestGenMode,
) -> (r: FunctionSignature)
    ensures
        r@.call_test_result is None,
        !r@.is_spread_args,
        forall|i: int| 0 <= i < r@.arg_list.len() ==> (#[trigger] r@.arg_list[i]).arg_val is None,
        // the result either reuses one of the observed shapes, or is fresh
        (exists|k: int|
            0 <= k < weighted_sigs@.len() && spec_reused_sig_shape(
                r@,
                (#[trigger] weighted_sigs@[k]).0@,
                !(*test_gen_mode is OGNessie),
            )) || spec_fresh_sig_shape(r@, num_args, cb_position),
        // with no observed shapes the result is always fresh
        weighted_sigs@.len() == 0 ==> spec_fresh_sig_shape(r@, num_args, cb_position),
{
    let reuse = weighted_sigs.len() > 0 && rand_usize_inclusive(0, 100) > CHOOSE_NEW_SIG_PCT
        as usize;
    if reuse {
        let mut ws: Vec<u64> = Vec::new();
        let mut i: usize = 0;
        while i < weighted_sigs.len()
            invariant
                i <= weighted_sigs@.len(),
                ws@.len() == i,
            decreases weighted_sigs@.len() - i,
        {
            ws.push(weighted_sigs[i].1);
            i = i + 1;
        }
        match choose_weighted_index(&ws) {
            Option::Some(idx) => {
                let abstract_sig = &weighted_sigs[idx].0;
                if !test_gen_mode.tracks_prim_types() {
                    let randomized = testgen_db.randomize_prim_arg_types(abstract_sig);
                    let sig = FunctionSignature::from_arg_types(&randomized);
                    proof {
                        assert(spec_reused_sig_shape(
                            sig@,
                            weighted_sigs@[idx as int].0@,
                            !(*test_gen_mode is OGNessie),
                        ));
                    }
                    return sig;
                } else {
                    let sig = FunctionSignature::from_arg_types(abstract_sig);
                    proof {
                        assert(sig@.abstract_sig() =~= weighted_sigs@[idx as int].0@);
                        assert(spec_reused_sig_shape(
                            sig@,
                            weighted_sigs@[idx as int].0@,
                            !(*test_gen_mode is OGNessie),
                        ));
                    }
                    return sig;
                }
            },
            Option::None => (),
        }
    }
    let num_args: usize = match num_args {
        Option::Some(n) => n,
        Option::None => rand_usize_inclusive(0, DEFAULT_MAX_ARG_LENGTH),
    };
    let mut types: Vec<ArgType> = Vec::new();
    let mut arg_index: usize = 0;
    while arg_index < num_args
        invariant
            arg_index <= num_args,
            types@.len() == arg_index,
            match cb_position {
                Option::Some(p) => 0 <= p < arg_index ==> types@[p as int] is CallbackType,
                Option::None => true,
            },
            forall|i: int|
                0 <= i < arg_index && !(cb_position matches Option::Some(p) && p == i) ==> ((
                #[trigger] types@[i]) is NumberType || types@[i] is StringType || types@[i]
                    is ArrayType || types@[i] is ObjectType),
        decreases num_args - arg_index,
    {
        let is_cb_pos = match cb_position {
            Option::Some(p) => p >= 0 && (p as usize) == arg_index,
            Option::None => false,
        };
        if is_cb_pos {
            types.push(ArgType::CallbackType);
        } else {
            types.push(
                testgen_db.choose_random_arg_type(
                    ALLOW_MULTIPLE_CALLBACK_ARGS,
                    ALLOW_ANY_TYPE_ARGS,
                ),
            );
        }
        arg_index = arg_index + 1;
    }
    let sig = FunctionSignature::from_arg_types(&types);
    proof {
        assert(spec_fresh_sig_shape(sig@, Option::Some(num_args), cb_position));
    }
    sig
}

impl TestGenDB {
    /// Generate a random number literal, within the configured magnitude.
    fn gen_random_number_val(&self) -> (r: ArgVal)
        ensures
            r@ is NumberV,
            exists|n: int|
                -MAX_GENERATED_NUM <= n <= MAX_GENERATED_NUM && r@ == ArgValV::NumberV(
                    #[trigger] crate::strutil::spec_int_decimal(n),
                ),
    {
        let n = rand_i64_inclusive(-MAX_GENERATED_NUM, MAX_GENERATED_NUM);
        let r = ArgVal::Number(int_to_string(n));
        assert(r@ == ArgValV::NumberV(crate::strutil::spec_int_decimal(n as int)));
        r
    }

    /// Generate a random string literal, quoted. With `include_fs_strings` the
    /// string is one of the configured toy filesystem paths; otherwise it is a
    /// short random alphanumeric string.
    fn gen_random_string_val(&self, include_fs_strings: bool) -> (r: ArgVal)
        requires
            self@.fs_strings.len() > 0,
        ensures
            r@ is StringV,
            include_fs_strings ==> exists|i: int|
                0 <= i < self@.fs_strings.len() && r@ == ArgValV::StringV(
                    "\""@ + (#[trigger] self@.fs_strings[i]) + "\""@,
                ),
    {
        let mut text = String::new();
        text.append("\"");
        let ghost mut fs_idx: int = 0;
        if include_fs_strings {
            let idx = rand_usize_inclusive(0, self.fs_strings.len() - 1);
            text.append(self.fs_strings[idx].as_str());
            proof {
                fs_idx = idx as int;
                assert(self.fs_strings@[idx as int]@ == self@.fs_strings[idx as int]);
            }
        } else {
            let len = rand_usize_inclusive(1, RANDOM_STRING_LENGTH);
            let body = rand_alphanumeric(len);
            text.append(body.as_str());
        }
        text.append("\"");
        proof {
            if include_fs_strings {
                assert(text@ == "\""@ + self@.fs_strings[fs_idx] + "\""@);
            }
        }
        ArgVal::String(text)
    }

    /// Generate a random callback value with the given signature (or the
    /// default callback), occupying the given argument position.
    fn gen_random_callback(&self, opt_sig: Option<FunctionSignature>, arg_pos: Option<usize>) -> (r:
        ArgVal)
        ensures
            r@ matches ArgValV::CallbackV(CallbackValV::RawCallbackV(cb)) && cb.cb_arg_pos
                == arg_pos && cb.cb_id is None,
    {
        let mut cb = match opt_sig {
            Option::Some(sig) => Callback::new(sig),
            Option::None => Callback::default(),
        };
        cb.set_cb_arg_pos(arg_pos);
        ArgVal::Callback(CallbackVal::RawCallback(cb))
    }

    /// Generate a random value of the given type. `arg_pos` names the argument
    /// position the value is generated for. `ret_vals_pool` holds the return
    /// values in scope and `cb_arg_vals_pool` the callback arguments in scope:
    /// an `any`-typed draw picks one of them, and falls back to a fresh value
    /// of a random concrete type when both pools are empty.
    pub fn gen_random_value_of_type(
        &self,
        arg_type: ArgType,
        arg_pos: Option<usize>,
        ret_vals_pool: &Vec<ArgValAPTracked>,
        cb_arg_vals_pool: &Vec<ArgVal>,
        mod_rep: &NpmModule,
        test_gen_mode: &TestGenMode,
    ) -> (r: ArgVal)
        requires
            ret_vals_pool@.len() + cb_arg_vals_pool@.len() <= usize::MAX,
            // string-like draws need the toy filesystem pool
            arg_type is StringType || arg_type is ArrayType || arg_type is ObjectType
                ==> self@.fs_strings.len() > 0,
            // library-function draws need a function at the module root
            arg_type is LibFunctionType ==> exists|i: int|
                0 <= i < mod_rep@.fns.len() && (#[trigger] mod_rep@.fns[i]).0.0 == APathV::RootV(
                    spec_js_var_name(mod_rep@.lib),
                ),
            // an `any` draw from empty pools falls back to either of those
            arg_type is AnyType && ret_vals_pool@.len() + cb_arg_vals_pool@.len() == 0 ==> (
            self@.fs_strings.len() > 0 && exists|i: int|
                0 <= i < mod_rep@.fns.len() && (#[trigger] mod_rep@.fns[i]).0.0 == APathV::RootV(
                    spec_js_var_name(mod_rep@.lib),
                )),
        ensures
            arg_type is NumberType ==> r@ is NumberV,
            arg_type is StringType ==> r@ is StringV,
            arg_type is ArrayType ==> r@ is ArrayV,
            arg_type is ObjectType ==> r@ is ObjectV,
            // a number draw stays within the configured magnitude, and a
            // string draw is one of the toy filesystem paths, quoted
            arg_type is NumberType ==> exists|n: int|
                -MAX_GENERATED_NUM <= n <= MAX_GENERATED_NUM && r@ == ArgValV::NumberV(
                    #[trigger] crate::strutil::spec_int_decimal(n),
                ),
            arg_type is StringType ==> exists|i: int|
                0 <= i < self@.fs_strings.len() && r@ == ArgValV::StringV(
                    "\""@ + (#[trigger] self@.fs_strings[i]) + "\""@,
                ),
            arg_type is LibFunctionType ==> r@ is LibFunctionV,
            // a library-function draw names a registry function reachable
            // from the module root, as `<module var>.<name>`
            arg_type is LibFunctionType ==> exists|i: int|
                0 <= i < mod_rep@.fns.len() && (#[trigger] mod_rep@.fns[i]).0.0 == APathV::RootV(
                    spec_js_var_name(mod_rep@.lib),
                ) && r@ == ArgValV::LibFunctionV(
                    spec_js_var_name(mod_rep@.lib) + "."@ + mod_rep@.fns[i].0.1,
                ),
            arg_type is CallbackType ==> (r@ matches ArgValV::CallbackV(
                CallbackValV::RawCallbackV(cb),
            ) && cb.cb_arg_pos == arg_pos),
            arg_type is AnyType && ret_vals_pool@.len() + cb_arg_vals_pool@.len() > 0 ==> ((
            exists|i: int| 0 <= i < ret_vals_pool@.len() && r@ == (#[trigger] ret_vals_pool@[i]).val@)
                || (exists|i: int|
                0 <= i < cb_arg_vals_pool@.len() && r@ == (#[trigger] cb_arg_vals_pool@[i])@)),
            // an `any` draw from empty pools yields a fresh value of a
            // concrete type, never a dangling variable reference
            arg_type is AnyType && ret_vals_pool@.len() + cb_arg_vals_pool@.len() == 0 ==> !(r@
                is VariableV),
    {
        let pools_nonempty = ret_vals_pool.len() > 0 || cb_arg_vals_pool.len() > 0;
        let arg_type2 = if matches!(arg_type, ArgType::AnyType) && !pools_nonempty {
            self.choose_random_arg_type(true, false)
        } else {
            arg_type
        };
        match arg_type2 {
            ArgType::NumberType => self.gen_random_number_val(),
            ArgType::StringType => self.gen_random_string_val(true),
            ArgType::ArrayType => {
                // arrays hold only strings and numbers, to keep things simple
                let num_elts = rand_usize_inclusive(0, MAX_GENERATED_ARRAY_LENGTH);
                let array_type = rand_usize_inclusive(0, 3);
                let mut text = String::new();
                text.append("[");
                let mut i: usize = 0;
                while i < num_elts
                    invariant
                        self@.fs_strings.len() > 0,
                        i <= num_elts,
                    decreases num_elts - i,
                {
                    if i > 0 {
                        text.append(", ");
                    }
                    let use_num = array_type == 0 || (array_type == 2 && rand_usize_inclusive(
                        0,
                        1,
                    ) == 0);
                    let elt = if use_num {
                        self.gen_random_number_val()
                    } else {
                        self.gen_random_string_val(true)
                    };
                    match elt {
                        ArgVal::Number(t) => text.append(t.as_str()),
                        ArgVal::String(t) => text.append(t.as_str()),
                        _ => (),
                    }
                    i = i + 1;
                }
                text.append("]");
                ArgVal::Array(text)
            },
            ArgType::ObjectType => {
                let num_elts = rand_usize_inclusive(0, MAX_GENERATED_OBJ_LENGTH);
                let mut text = String::new();
                text.append("{");
                let mut i: usize = 0;
                while i < num_elts
                    invariant
                        self@.fs_strings.len() > 0,
                        i <= num_elts,
                    decreases num_elts - i,
                {
                    if i > 0 {
                        text.append(", ");
                    }
                    let field_name = self.gen_random_string_val(false);
                    match field_name {
                        ArgVal::String(t) => text.append(t.as_str()),
                        _ => (),
                    }
                    text.append(": ");
                    let elt = if rand_usize_inclusive(0, 1) == 0 {
                        self.gen_random_number_val()
                    } else {
                        self.gen_random_string_val(true)
                    };
                    match elt {
                        ArgVal::Number(t) => text.append(t.as_str()),
                        ArgVal::String(t) => text.append(t.as_str()),
                        _ => (),
                    }
                    i = i + 1;
                }
                text.append("}");
                ArgVal::Object(text)
            },
            ArgType::CallbackType => {
                let num_args = rand_usize_inclusive(0, DEFAULT_MAX_ARG_LENGTH);
                let cb_position: Option<i32> = if num_args == 0 {
                    Option::None
                } else {
                    // double range: half of all draws place no callback at all
                    Option::Some(rand_usize_inclusive(0, num_args * 2) as i32)
                };
                let sigs: Vec<(Vec<ArgType>, u64)> = Vec::new();
                let random_sig = gen_new_sig_with_cb(
                    Option::Some(num_args),
                    &sigs,
                    cb_position,
                    self,
                    test_gen_mode,
                );
                self.gen_random_callback(Option::Some(random_sig), arg_pos)
            },
            ArgType::LibFunctionType => {
                // choose a random function reachable from the module root
                let lib_name = mod_rep.get_mod_js_var_name();
                let root = AccessPathModuleCentred::RootPath(lib_name.clone());
                let fns = mod_rep.get_fns();
                let mut candidates: Vec<usize> = Vec::new();
                let mut i: usize = 0;
                while i < fns.len()
                    invariant
                        fns@.len() == mod_rep@.fns.len(),
                        forall|k: int|
                            0 <= k < fns@.len() ==> #[trigger] mod_rep@.fns[k] == (
                            (fns@[k].0.0@, fns@[k].0.1@),
                            fns@[k].1@,
                        ),
                        root@ == APathV::RootV(spec_js_var_name(mod_rep@.lib)),
                        i <= fns@.len(),
                        forall|k: int|
                            0 <= k < candidates@.len() ==> #[trigger] candidates@[k] < fns@.len()
                                && mod_rep@.fns[candidates@[k] as int].0.0 == APathV::RootV(
                                spec_js_var_name(mod_rep@.lib),
                            ),
                        (exists|k: int|
                            0 <= k < i && (#[trigger] mod_rep@.fns[k]).0.0 == APathV::RootV(
                                spec_js_var_name(mod_rep@.lib),
                            )) ==> candidates@.len() > 0,
                    decreases fns@.len() - i,
                {
                    let (key, _) = &fns[i];
                    if crate::module_reps::ap_eq(&key.0, &root) {
                        candidates.push(i);
                        assert(mod_rep@.fns[i as int].0.0 == APathV::RootV(
                            spec_js_var_name(mod_rep@.lib),
                        ));
                    } else {
                        proof {
                            if exists|k: int|
                                0 <= k < i + 1 && (#[trigger] mod_rep@.fns[k]).0.0
                                    == APathV::RootV(spec_js_var_name(mod_rep@.lib)) {
                                let k = choose|k: int|
                                    0 <= k < i + 1 && (#[trigger] mod_rep@.fns[k]).0.0
                                        == APathV::RootV(spec_js_var_name(mod_rep@.lib));
                                if k == i {
                                    assert(fns@[i as int].0.0@ == APathV::RootV(
                                        spec_js_var_name(mod_rep@.lib),
                                    ));
                                    assert(false);
                                }
                            }
                        }
                    }
                    i = i + 1;
                }
                assert(candidates@.len() > 0);
                let pick = rand_usize_inclusive(0, candidates.len() - 1);
                let fct_idx = candidates[pick];
                let (key, _) = &fns[fct_idx];
                let mut text = lib_name;
                text.append(".");
                text.append(key.1.as_str());
                proof {
                    assert(mod_rep@.fns[fct_idx as int].0.0 == APathV::RootV(
                        spec_js_var_name(mod_rep@.lib),
                    ));
                    assert(key.1@ == mod_rep@.fns[fct_idx as int].0.1);
                    assert(text@ == spec_js_var_name(mod_rep@.lib) + "."@ + mod_rep@.fns[
                    fct_idx as int].0.1);
                }
                ArgVal::LibFunction(text)
            },
            ArgType::AnyType => {
                // only reachable when a pool is non-empty
                assert(ret_vals_pool@.len() + cb_arg_vals_pool@.len() > 0);
                let total = ret_vals_pool.len() + cb_arg_vals_pool.len();
                let rand_index = rand_usize_inclusive(0, total - 1);
                if rand_index < ret_vals_pool.len() {
                    ret_vals_pool[rand_index].val.clone()
                } else {
                    cb_arg_vals_pool[rand_index - ret_vals_pool.len()].clone()
                }
            },
        }
    }
}

/// The pool entries a diagnosed test contributes, in node order: for each
/// per-call result, one sequential entry if it can be sequentially extended,
/// then one nested entry if it can be nested into. An execution error
/// anywhere contributes nothing (checked by the caller).
pub open spec fn spec_pool_add(
    test: TestV,
    results: Seq<(usize, (FunctionCallResult, Option<Seq<char>>))>,
) -> Seq<(ExtensionType, (TestV, Option<usize>, Option<Seq<char>>))>
    decreases results.len(),
{
    if results.len() == 0 {
        Seq::empty()
    } else {
        spec_pool_add(test, results.drop_last()) + (if results.last().1.0.spec_can_be_extended(
            ExtensionType::Sequential,
        ) {
            seq![
                (
                    ExtensionType::Sequential,
                    (test, Option::Some(results.last().0), results.last().1.1),
                ),
            ]
        } else {
            Seq::empty()
        }) + (if results.last().1.0.spec_can_be_extended(ExtensionType::Nested) {
            seq![
                (ExtensionType::Nested, (test, Option::Some(results.last().0), results.last().1.1)),
            ]
        } else {
            Seq::empty()
        })
    }
}

/// The view of a list of per-call results.
pub open spec fn view_results(
    results: Seq<(ExtensionPointID, (FunctionCallResult, Option<String>))>,
) -> Seq<(usize, (FunctionCallResult, Option<Seq<char>>))> {
    results.map(
        |i: int, e: (ExtensionPointID, (FunctionCallResult, Option<String>))|
            (e.0, (e.1.0, view_opt_string(e.1.1))),
    )
}

/// No extension point of `spec_pool_add` is a nested point for a call whose
/// callback never fired, and every non-error result keeps its sequential
/// extension point: the nesting-legality of the pool.
pub proof fn lemma_pool_nesting_legality(
    test: TestV,
    results: Seq<(usize, (FunctionCallResult, Option<Seq<char>>))>,
)
    ensures
        forall|k: int|
            0 <= k < spec_pool_add(test, results).len() ==> ((#[trigger] spec_pool_add(
                test,
                results,
            )[k]).0 is Nested ==> exists|j: int|
                0 <= j < results.len() && (#[trigger] results[j]).1.0.spec_can_be_extended(
                    ExtensionType::Nested,
                ) && spec_pool_add(test, results)[k].1.1 == Option::Some(results[j].0)),
    decreases results.len(),
{
    if results.len() > 0 {
        lemma_pool_nesting_legality(test, results.drop_last());
        let prev = spec_pool_add(test, results.drop_last());
        assert forall|k: int|
            0 <= k < spec_pool_add(test, results).len() implies ((#[trigger] spec_pool_add(
            test,
            results,
        )[k]).0 is Nested ==> exists|j: int|
            0 <= j < results.len() && (#[trigger] results[j]).1.0.spec_can_be_extended(
                ExtensionType::Nested,
            ) && spec_pool_add(test, results)[k].1.1 == Option::Some(results[j].0)) by {
            if k < prev.len() {
                assert(spec_pool_add(test, results)[k] == prev[k]);
                if prev[k].0 is Nested {
                    let j = choose|j: int|
                        0 <= j < results.drop_last().len() && (#[trigger] results.drop_last()[
                        j]).1.0.spec_can_be_extended(ExtensionType::Nested) && prev[k].1.1
                            == Option::Some(results.drop_last()[j].0);
                    assert(results[j] == results.drop_last()[j]);
                }
            } else {
                if spec_pool_add(test, results)[k].0 is Nested {
                    assert(results[results.len() - 1].1.0.spec_can_be_extended(
                        ExtensionType::Nested,
                    ));
                }
            }
        }
    }
}

impl TestGenDB {
    /// Add one extension point to the pool.
    fn add_extension_point(&mut self, ext_type: ExtensionType, test_id: (
        Test,
        Option<ExtensionPointID>,
        Option<String>,
    ))
        ensures
            final(self)@ == (TestGenDBV {
                possible_ext_points: old(self)@.possible_ext_points.push(
                    view_pool_entry((ext_type, test_id)),
                ),
                ..old(self)@
            }),
    {
        self.possible_ext_points.push((ext_type, test_id));
        assert(self@ =~= (TestGenDBV {
            possible_ext_points: self@.possible_ext_points,
            ..old(self)@
        }));
        assert(self@.possible_ext_points =~= old(self)@.possible_ext_points.push(
            view_pool_entry((ext_type, test_id)),
        ));
    }

    /// Add all the valid extension points of a diagnosed test to the pool. If
    /// any call of the test was diagnosed as an execution error, the whole
    /// test contributes no extension points; otherwise every call contributes
    /// its legal extension types (`spec_pool_add`).
    pub fn add_extension_points_for_test(
        &mut self,
        test: &Test,
        ext_point_results: &Vec<(ExtensionPointID, (FunctionCallResult, Option<String>))>,
    )
        requires
            old(self)@.wf(),
            tree_wf(test@.fct_tree),
            forall|k: int|
                0 <= k < ext_point_results@.len() ==> (#[trigger] ext_point_results@[k]).0
                    < test@.fct_tree.len(),
        ensures
            final(self)@.wf(),
            (exists|k: int|
                0 <= k < ext_point_results@.len() && (#[trigger] ext_point_results@[k]).1.0
                    is ExecutionError) ==> final(self)@ == old(self)@,
            !(exists|k: int|
                0 <= k < ext_point_results@.len() && (#[trigger] ext_point_results@[k]).1.0
                    is ExecutionError) ==> final(self)@ == (TestGenDBV {
                possible_ext_points: old(self)@.possible_ext_points + spec_pool_add(
                    test@,
                    view_results(ext_point_results@),
                ),
                ..old(self)@
            }),
    {
        // a test is only extensible if there are no execution errors
        let mut k: usize = 0;
        while k < ext_point_results.len()
            invariant
                *self == *old(self),
                old(self)@.wf(),
                k <= ext_point_results@.len(),
                forall|j: int|
                    0 <= j < k ==> !((#[trigger] ext_point_results@[j]).1.0 is ExecutionError),
            decreases ext_point_results@.len() - k,
        {
            let is_err = matches!(
                ext_point_results[k].1.0,
                FunctionCallResult::ExecutionError,
            );
            if is_err {
                assert(ext_point_results@[k as int].1.0 is ExecutionError);
                return ;
            }
            k = k + 1;
        }
        let mut idx: usize = 0;
        proof {
            assert(old(self)@.possible_ext_points + spec_pool_add(
                test@,
                view_results(ext_point_results@).take(0),
            ) =~= old(self)@.possible_ext_points);
        }
        while idx < ext_point_results.len()
            invariant
                old(self)@.wf(),
                tree_wf(test@.fct_tree),
                forall|j: int|
                    0 <= j < ext_point_results@.len() ==> (#[trigger] ext_point_results@[j]).0
                        < test@.fct_tree.len(),
                idx <= ext_point_results@.len(),
                self@ == (TestGenDBV {
                    possible_ext_points: old(self)@.possible_ext_points + spec_pool_add(
                        test@,
                        view_results(ext_point_results@).take(idx as int),
                    ),
                    ..old(self)@
                }),
                self@.wf(),
            decreases ext_point_results@.len() - idx,
        {
            let ghost pre = self@.possible_ext_points;
            let (ext_id, (res, cb_arg_pos)) = &ext_point_results[idx];
            if res.can_be_extended(ExtensionType::Sequential) {
                let pos: Option<String> = match cb_arg_pos {
                    Option::Some(p) => Option::Some(p.clone()),
                    Option::None => Option::None,
                };
                self.add_extension_point(
                    ExtensionType::Sequential,
                    (test.clone(), Option::Some(*ext_id), pos),
                );
            }
            if res.can_be_extended(ExtensionType::Nested) {
                let pos: Option<String> = match cb_arg_pos {
                    Option::Some(p) => Option::Some(p.clone()),
                    Option::None => Option::None,
                };
                self.add_extension_point(
                    ExtensionType::Nested,
                    (test.clone(), Option::Some(*ext_id), pos),
                );
            }
            proof {
                let rv = view_results(ext_point_results@);
                assert(rv.take(idx + 1).drop_last() =~= rv.take(idx as int));
                assert(rv.take(idx + 1).last() == rv[idx as int]);
                assert(self@.possible_ext_points =~= old(self)@.possible_ext_points
                    + spec_pool_add(test@, rv.take(idx + 1)));
                assert(self@ =~= (TestGenDBV {
                    possible_ext_points: old(self)@.possible_ext_points + spec_pool_add(
                        test@,
                        rv.take(idx + 1),
                    ),
                    ..old(self)@
                }));
                assert forall|i: int|
                    0 <= i < self@.possible_ext_points.len() implies tree_wf(
                    (#[trigger] self@.possible_ext_points[i]).1.0.fct_tree,
                ) && (match self@.possible_ext_points[i].1.1 {
                    Option::Some(e) => e < self@.possible_ext_points[i].1.0.fct_tree.len(),
                    Option::None => true,
                }) by {
                    if i < pre.len() {
                        assert(self@.possible_ext_points[i] == pre[i]);
                    }
                }
            }
            idx = idx + 1;
        }
        proof {
            assert(view_results(ext_point_results@).take(ext_point_results@.len() as int)
                =~= view_results(ext_point_results@));
        }
    }

    /// Get a test that can be extended with the given extension type: a
    /// uniform random pick among the matching pool entries (never consuming
    /// them), or a fresh blank test — with the test index advanced — when
    /// the pool has none.
    pub fn get_test_to_extend(&mut self, mod_rep: &NpmModule, ext_type: ExtensionType) -> (r: (
        Test,
        Option<ExtensionPointID>,
        Option<String>,
    ))
        requires
            old(self)@.wf(),
        ensures
            final(self)@.wf(),
            tree_wf(r.0@.fct_tree),
            match r.1 {
                Option::Some(e) => e < r.0@.fct_tree.len(),
                Option::None => true,
            },
            final(self)@.possible_ext_points == old(self)@.possible_ext_points,
            final(self)@.libs_fcts_weights == old(self)@.libs_fcts_weights,
            final(self)@.fs_strings == old(self)@.fs_strings,
            // a matching pool entry exists: the result is one of them, and
            // the state is untouched
            (exists|i: int|
                0 <= i < old(self)@.possible_ext_points.len() && (#[trigger] old(
                    self,
                )@.possible_ext_points[i]).0 == ext_type) ==> (*final(self) == *old(self)
                && exists|i: int|
                0 <= i < old(self)@.possible_ext_points.len() && (#[trigger] old(
                    self,
                )@.possible_ext_points[i]).0 == ext_type && (
                    r.0@,
                    r.1,
                    view_opt_string(r.2),
                ) == old(self)@.possible_ext_points[i].1),
            // no matching entry: a fresh blank test, with the index advanced
            !(exists|i: int|
                0 <= i < old(self)@.possible_ext_points.len() && (#[trigger] old(
                    self,
                )@.possible_ext_points[i]).0 == ext_type) ==> (r.0@.fct_tree.len() == 0 && r.1
                is None && r.2 is None && final(self)@ == (TestGenDBV {
                cur_test_index: (if old(self)@.cur_test_index < usize::MAX {
                    (old(self)@.cur_test_index + 1) as usize
                } else {
                    old(self)@.cur_test_index
                }),
                ..old(self)@
            }) && r.0@.loc_id.cur_test_id == final(self)@.cur_test_index),
    {
        let mut matching: Vec<usize> = Vec::new();
        let mut i: usize = 0;
        while i < self.possible_ext_points.len()
            invariant
                *self == *old(self),
                old(self)@.wf(),
                i <= self.possible_ext_points@.len(),
                self@.possible_ext_points.len() == self.possible_ext_points@.len(),
                forall|k: int|
                    0 <= k < matching@.len() ==> #[trigger] matching@[k]
                        < self.possible_ext_points@.len() && self@.possible_ext_points[matching@[
                        k] as int].0 == ext_type,
                forall|j: int|
                    0 <= j < i && (#[trigger] self@.possible_ext_points[j]).0 == ext_type
                        ==> exists|k: int| 0 <= k < matching@.len() && matching@[k] == j,
            decreases self.possible_ext_points@.len() - i,
        {
            let (et, _) = &self.possible_ext_points[i];
            let ghost pre_m = matching@;
            if *et == ext_type {
                matching.push(i);
            }
            proof {
                assert forall|j: int|
                    0 <= j < i + 1 && (#[trigger] self@.possible_ext_points[j]).0 == ext_type
                    implies exists|k: int| 0 <= k < matching@.len() && matching@[k] == j by {
                    if j < i {
                        let k = choose|k: int| 0 <= k < pre_m.len() && pre_m[k] == j;
                        assert(matching@[k] == j);
                    } else {
                        assert(matching@[matching@.len() - 1] == i);
                    }
                }
            }
            i = i + 1;
        }
        if matching.len() > 0 {
            let pick = rand_usize_inclusive(0, matching.len() - 1);
            let entry_idx = matching[pick];
            let entry = &self.possible_ext_points[entry_idx];
            proof {
                assert(view_pool_entry(self.possible_ext_points@[entry_idx as int])
                    == self@.possible_ext_points[entry_idx as int]);
            }
            let test = entry.1.0.clone();
            let ext_id = entry.1.1;
            let pos: Option<String> = match &entry.1.2 {
                Option::Some(p) => Option::Some(p.clone()),
                Option::None => Option::None,
            };
            proof {
                assert((test@, ext_id, view_opt_string(pos)) == self@.possible_ext_points[
                entry_idx as int].1);
            }
            (test, ext_id, pos)
        } else {
            proof {
                assert forall|j: int|
                    0 <= j < self@.possible_ext_points.len() implies (
                #[trigger] self@.possible_ext_points[j]).0 != ext_type by {
                    if self@.possible_ext_points[j].0 == ext_type {
                        let k = choose|k: int| 0 <= k < matching@.len() && matching@[k] == j;
                    }
                }
            }
            let next = if self.cur_test_index < usize::MAX {
                self.cur_test_index + 1
            } else {
                self.cur_test_index
            };
            self.cur_test_index = next;
            let t = Test::new(
                mod_rep,
                next,
                self.test_dir_path.clone(),
                self.test_file_prefix.clone(),
                match &self.api_src_dir {
                    Option::Some(d) => Option::Some(d.clone()),
                    Option::None => Option::None,
                },
            );
            proof {
                assert(self@ =~= (TestGenDBV { cur_test_index: next, ..old(self)@ }));
            }
            (t, Option::None, Option::None)
        }
    }

    /// Get a blank test (one with no calls) for the module.
    pub fn get_blank_test(&mut self, mod_rep: &NpmModule) -> (r: Test)
        requires
            old(self)@.wf(),
        ensures
            final(self)@.wf(),
            r@.fct_tree.len() == 0,
            tree_wf(r@.fct_tree),
    {
        let next = if self.cur_test_index < usize::MAX {
            self.cur_test_index + 1
        } else {
            self.cur_test_index
        };
        self.cur_test_index = next;
        let t = Test::new(
            mod_rep,
            next,
            self.test_dir_path.clone(),
            self.test_file_prefix.clone(),
            match &self.api_src_dir {
                Option::Some(d) => Option::Some(d.clone()),
                Option::None => Option::None,
            },
        );
        proof {
            assert(self@ =~= (TestGenDBV { cur_test_index: next, ..old(self)@ }));
        }
        t
    }
}

/// Is `post` exactly `old_db` with the ensured tables `t0` and the chosen
/// entry decayed for the call's abstract shape?
pub open spec fn final_matches_decay(
    post: TestGenDBV,
    old_db: TestGenDBV,
    t0: Seq<(Seq<char>, Seq<FctWeightEntryV>)>,
    l: int,
    f: int,
    call: crate::tests::FunctionCallV,
) -> bool {
    post == (TestGenDBV {
        libs_fcts_weights: t0.update(
            l,
            (t0[l].0, t0[l].1.update(f, spec_decayed_entry(t0[l].1[f], call.sig.abstract_sig()))),
        ),
        ..old_db
    })
}

/// The first position of the library's table among the weighted tables, or
/// `-1` if it has none.
pub open spec fn spec_lib_index(
    tables: Seq<(Seq<char>, Seq<FctWeightEntryV>)>,
    lib: Seq<char>,
) -> int
    decreases tables.len(),
{
    if tables.len() == 0 {
        -1
    } else if tables[0].0 == lib {
        0
    } else {
        let r = spec_lib_index(tables.drop_first(), lib);
        if r < 0 {
            -1
        } else {
            r + 1
        }
    }
}

/// `spec_lib_index` agrees with any witness of a first occurrence.
proof fn lemma_lib_index_unique(
    tables: Seq<(Seq<char>, Seq<FctWeightEntryV>)>,
    lib: Seq<char>,
    j: int,
)
    requires
        0 <= j < tables.len(),
        tables[j].0 == lib,
        forall|m: int| 0 <= m < j ==> (#[trigger] tables[m]).0 != lib,
    ensures
        spec_lib_index(tables, lib) == j,
    decreases tables.len(),
{
    if j == 0 {
    } else {
        assert(tables[0].0 != lib);
        let t = tables.drop_first();
        assert(forall|m: int| 0 <= m < t.len() ==> t[m] == tables[m + 1]);
        lemma_lib_index_unique(t, lib, j - 1);
    }
}

/// Does an access path name an in-scope receiver: the module root, or the
/// access path of one of the in-scope return values?
pub open spec fn spec_path_has_receiver(
    base: APathV,
    pool: Seq<ArgValAPTracked>,
    var: Seq<char>,
) -> bool {
    base == APathV::RootV(var) || exists|i: int|
        0 <= i < pool.len() && (match (#[trigger] pool[i]).acc_path {
            Option::Some(p) => p@ == base,
            Option::None => false,
        })
}

/// Is `v` an in-scope value carrying the access path `base`: the module
/// import variable for the root, or an in-scope return value reached by
/// `base`?
pub open spec fn spec_in_scope_receiver(
    base: APathV,
    v: ArgValV,
    pool: Seq<ArgValAPTracked>,
    var: Seq<char>,
) -> bool {
    (base == APathV::RootV(var) && v == ArgValV::VariableV(var)) || (exists|i: int|
        0 <= i < pool.len() && (match (#[trigger] pool[i]).acc_path {
            Option::Some(p) => p@ == base && pool[i].val@ == v,
            Option::None => false,
        }))
}

/// A table whose weights all vanish sums to zero, and conversely.
proof fn lemma_sum_zero(ws: Seq<u64>)
    requires
        spec_sum_weights(ws) == 0,
    ensures
        forall|k: int| 0 <= k < ws.len() ==> (#[trigger] ws[k]) == 0,
    decreases ws.len(),
{
    if ws.len() > 0 {
        lemma_sum_nonneg(ws.drop_last());
        lemma_sum_zero(ws.drop_last());
        assert(forall|k: int| 0 <= k < ws.len() - 1 ==> ws[k] == ws.drop_last()[k]);
    }
}

/// A sum of weights is nonnegative.
proof fn lemma_sum_nonneg(ws: Seq<u64>)
    ensures
        spec_sum_weights(ws) >= 0,
    decreases ws.len(),
{
    if ws.len() > 0 {
        lemma_sum_nonneg(ws.drop_last());
    }
}

/// The first position of a signature shape in a weight table, or `-1`.
pub open spec fn spec_first_shape(sw: Seq<(Seq<ArgType>, u64)>, shape: Seq<ArgType>) -> int
    decreases sw.len(),
{
    if sw.len() == 0 {
        -1
    } else if sw[0].0 == shape {
        0
    } else {
        let r = spec_first_shape(sw.drop_first(), shape);
        if r < 0 {
            -1
        } else {
            r + 1
        }
    }
}

/// `spec_first_shape` agrees with any witness of a first occurrence.
proof fn lemma_first_shape_unique(sw: Seq<(Seq<ArgType>, u64)>, shape: Seq<ArgType>, j: int)
    requires
        0 <= j < sw.len(),
        sw[j].0 == shape,
        forall|m: int| 0 <= m < j ==> (#[trigger] sw[m]).0 != shape,
    ensures
        spec_first_shape(sw, shape) == j,
    decreases sw.len(),
{
    if j == 0 {
    } else {
        assert(sw[0].0 != shape);
        let t = sw.drop_first();
        assert(forall|m: int| 0 <= m < t.len() ==> t[m] == sw[m + 1]);
        lemma_first_shape_unique(t, shape, j - 1);
    }
}

/// `spec_first_shape` is negative exactly when the shape does not occur.
proof fn lemma_first_shape_none(sw: Seq<(Seq<ArgType>, u64)>, shape: Seq<ArgType>)
    requires
        forall|m: int| 0 <= m < sw.len() ==> (#[trigger] sw[m]).0 != shape,
    ensures
        spec_first_shape(sw, shape) < 0,
    decreases sw.len(),
{
    if sw.len() > 0 {
        let t = sw.drop_first();
        assert(forall|m: int| 0 <= m < t.len() ==> t[m] == sw[m + 1]);
        lemma_first_shape_none(t, shape);
    }
}

/// A weight entry after one decay step for the chosen signature shape: the
/// function's weight decays at the function factor; the first recorded
/// occurrence of the shape decays at the signature factor, or the shape is
/// recorded fresh (already decayed once) when it was unknown.
pub open spec fn spec_decayed_entry(e: FctWeightEntryV, shape: Seq<ArgType>) -> FctWeightEntryV {
    FctWeightEntryV {
        key: e.key,
        weight: spec_decay(e.weight as int, RECHOOSE_LIB_FCT_WEIGHT_FACTOR as int) as u64,
        sig_weights: (if exists|fi: int|
            0 <= fi < e.sig_weights.len() && (#[trigger] e.sig_weights[fi]).0 == shape {
            let fi = spec_first_shape(e.sig_weights, shape);
            e.sig_weights.update(
                fi,
                (
                    e.sig_weights[fi].0,
                    spec_decay(
                        e.sig_weights[fi].1 as int,
                        RECHOOSE_FCT_SIG_WEIGHT_FACTOR as int,
                    ) as u64,
                ),
            )
        } else {
            e.sig_weights.push(
                (
                    shape,
                    spec_decay(
                        INITIAL_WEIGHT as int,
                        RECHOOSE_FCT_SIG_WEIGHT_FACTOR as int,
                    ) as u64,
                ),
            )
        }),
    }
}

/// The fresh weighted table for a registry: every function at the initial
/// weight, with each of its known signature shapes at the initial weight.
pub open spec fn spec_initial_entries(m: crate::module_reps::NpmModuleV) -> Seq<FctWeightEntryV> {
    Seq::new(
        m.fns.len(),
        |i: int| FctWeightEntryV {
            key: m.fns[i].0,
            weight: INITIAL_WEIGHT,
            sig_weights: Seq::new(
                m.fns[i].1.sigs.len(),
                |k: int| (m.fns[i].1.sigs[k].abstract_sig(), INITIAL_WEIGHT),
            ),
        },
    )
}

/// The weighted tables with this library's table ensured: unchanged when the
/// library already has one, else extended by a fresh table for the registry.
pub open spec fn spec_ensured_tables(
    tables: Seq<(Seq<char>, Seq<FctWeightEntryV>)>,
    lib: Seq<char>,
    m: crate::module_reps::NpmModuleV,
) -> Seq<(Seq<char>, Seq<FctWeightEntryV>)> {
    if exists|i: int| 0 <= i < tables.len() && (#[trigger] tables[i]).0 == lib {
        tables
    } else {
        tables.push((lib, spec_initial_entries(m)))
    }
}

impl TestGenDB {
    /// Generate a random function call for the module. A nested extension may
    /// instead be instantiated from a mined nesting pair matching the call
    /// being extended (`ext_facts` names it, with the extension type and the
    /// extension point's unique ID); otherwise a function is sampled from the
    /// weighted tables, restricted to functions whose access path has an
    /// in-scope receiver (the module root, or a previous return value), its
    /// weight and its chosen signature's weight decay, and the call's
    /// arguments are filled with random values. The generated call always
    /// carries an access path naming the chosen function, and has no parent
    /// linkage yet.
    pub fn gen_random_call(
        &mut self,
        mod_rep: &NpmModule,
        ret_vals_pool: Vec<ArgValAPTracked>,
        cb_arg_vals_pool: Vec<ArgVal>,
        ext_facts: (Option<&FunctionCall>, ExtensionType, String),
        test_gen_mode: &TestGenMode,
    ) -> (r: Result<FunctionCall, DFError>)
        requires
            old(self)@.wf(),
            old(self)@.fs_strings.len() > 0,
            ret_vals_pool@.len() + cb_arg_vals_pool@.len() <= usize::MAX,
            exists|i: int|
                0 <= i < mod_rep@.fns.len() && (#[trigger] mod_rep@.fns[i]).0.0 == APathV::RootV(
                    spec_js_var_name(mod_rep@.lib),
                ),
        ensures
            final(self)@.wf(),
            final(self)@.possible_ext_points == old(self)@.possible_ext_points,
            final(self)@.fs_strings == old(self)@.fs_strings,
            final(self)@.cur_test_index == old(self)@.cur_test_index,
            match r {
                Result::Ok(call) => {
                    &&& call@.parent_call_id is None
                    &&& call@.parent_arg_position_nesting is None
                    &&& call@.acc_path matches Option::Some(APathV::FieldV(
                        _,
                        FieldNameTypeV::StringFieldV(n),
                    )) && n == call@.name
                    &&& forall|i: int|
                        0 <= i < call@.sig.arg_list.len() ==> (#[trigger] call@.sig.arg_list[
                        i]).arg_val is Some
                    &&& forall|i: int|
                        0 <= i < call@.sig.arg_list.len() && (#[trigger] call@.sig.arg_list[
                        i]).arg_type is CallbackType ==> call@.sig.arg_list[i].arg_val
                            matches Option::Some(
                            ArgValV::CallbackV(CallbackValV::RawCallbackV(_)),
                        )
                },
                Result::Err(e) => e matches DFError::TestGenError(_),
            },
            // provenance: the call either instantiates a matching mined
            // nesting pair (state untouched), or names a function of the
            // weighted table over an in-scope receiver, with exactly that
            // function's and signature's weights decayed
            ({
                let var = spec_js_var_name(mod_rep@.lib);
                let t0 = spec_ensured_tables(old(self)@.libs_fcts_weights, var, mod_rep@);
                let l = spec_lib_index(t0, var);
                match r {
                    Result::Ok(call) => (*final(self) == *old(self) && ext_facts.1 is Nested
                        && (match ext_facts.0 {
                        Option::Some(outer) => exists|mi: int, j: int|
                            0 <= mi < old(self)@.lib_mined_data.len() && (#[trigger] old(
                                self,
                            )@.lib_mined_data[mi]).0 == var && 0 <= j < old(
                                self,
                            )@.lib_mined_data[mi].1.len()
                                && crate::mined_seed_reps::spec_pair_matches(
                                #[trigger] old(self)@.lib_mined_data[mi].1[j],
                                var,
                                outer@.name,
                                outer@.sig.arg_list.len(),
                            ) && call@.name == old(self)@.lib_mined_data[mi].1[j].inner_fct@
                                && call@.sig.arg_list.len() == old(
                                self,
                            )@.lib_mined_data[mi].1[j].inner_params@.len()
                            // with a single outer callback, the mined
                            // dataflow is wired onto the call's arguments
                                && (spec_single_cb(outer@.sig.arg_list)
                                ==> crate::mined_seed_reps::spec_wired_args(
                                call@.sig.arg_list,
                                old(self)@.lib_mined_data[mi].1[j].inner_params@,
                                spec_args_cb_vals(outer@.sig.arg_list, ext_facts.2@),
                            )),
                        Option::None => false,
                    })) || (exists|f: int|
                        0 <= f < t0[l].1.len() && call@.name == (#[trigger] t0[l].1[f]).key.1
                            && call@.acc_path == Option::Some(
                            APathV::FieldV(
                                Box::new(t0[l].1[f].key.0),
                                FieldNameTypeV::StringFieldV(call@.name),
                            ),
                        ) && (match call@.receiver {
                            Option::Some(v) => spec_in_scope_receiver(
                                t0[l].1[f].key.0,
                                v,
                                ret_vals_pool@,
                                var,
                            ),
                            Option::None => false,
                        }) && final(self)@ == (TestGenDBV {
                            libs_fcts_weights: t0.update(
                                l,
                                (
                                    t0[l].0,
                                    t0[l].1.update(
                                        f,
                                        spec_decayed_entry(
                                            t0[l].1[f],
                                            call@.sig.abstract_sig(),
                                        ),
                                    ),
                                ),
                            ),
                            ..old(self)@
                        })),
                    Result::Err(_) => final(self)@ == (TestGenDBV {
                        libs_fcts_weights: t0,
                        ..old(self)@
                    }) && forall|f: int|
                        0 <= f < t0[l].1.len() ==> !spec_path_has_receiver(
                            (#[trigger] t0[l].1[f]).key.0,
                            ret_vals_pool@,
                            var,
                        ),
                }
            }),
            // success owed: a function keyed at the module root always yields a call
            ({
                let var = spec_js_var_name(mod_rep@.lib);
                let t0 = spec_ensured_tables(old(self)@.libs_fcts_weights, var, mod_rep@);
                let l = spec_lib_index(t0, var);
                (exists|f: int|
                    0 <= f < t0[l].1.len() && (#[trigger] t0[l].1[f]).key.0 == APathV::RootV(var))
                    ==> r is Ok
            }),
    {
        let lib_name = mod_rep.get_mod_js_var_name();
        let ghost var = spec_js_var_name(mod_rep@.lib);
        let ghost t0 = spec_ensured_tables(old(self)@.libs_fcts_weights, var, mod_rep@);
        let ghost l = spec_lib_index(t0, var);
        let module_root_path = AccessPathModuleCentred::RootPath(lib_name.clone());
        let (ext_fct, ext_type, ext_uniq_id) = ext_facts;

        // try a mined nesting example first, half of the time
        if matches!(ext_type, ExtensionType::Nested) && rand_usize_inclusive(0, 100)
            > USE_MINED_NESTING_EXAMPLE as usize {
            match (self.find_mined_data(lib_name.as_str()), ext_fct) {
                (Option::Some(mi), Option::Some(outer)) => {
                    let possible_nested_exts = get_rel_mined_data_nested_extensions(
                        Option::Some(outer),
                        &lib_name,
                        &self.lib_mined_data[mi].1,
                    );
                    if possible_nested_exts.len() > 0 {
                        let pick = rand_usize_inclusive(0, possible_nested_exts.len() - 1);
                        let nested_ext = &possible_nested_exts[pick];
                        let ghost mined_views = self.lib_mined_data@[mi as int].1@;
                        let ghost src_pair = mined_views[crate::mined_seed_reps::spec_match_idxs(
                            mined_views,
                            lib_name@,
                            outer@.name,
                            outer@.sig.arg_list.len(),
                            mined_views.len() as int,
                        )[pick as int]];
                        proof {
                            assert(crate::mined_seed_reps::spec_ext_of_pair(
                                src_pair,
                                possible_nested_exts@[pick as int],
                            ));
                        }
                        let fct_name = nested_ext.fct_name.clone();
                        let fct_sig = nested_ext.sig.clone();
                        let fct_acc_path_rep = AccessPathModuleCentred::FieldAccPath(
                            Box::new(module_root_path),
                            FieldNameType::StringField(fct_name.clone()),
                        );
                        let mut ret_call = FunctionCall::new(
                            fct_name,
                            fct_sig,
                            Option::None,
                            Option::None,
                            Option::Some(fct_acc_path_rep),
                            Option::None,
                        );
                        let res = ret_call.init_args_with_random(
                            self,
                            &ret_vals_pool,
                            &cb_arg_vals_pool,
                            mod_rep,
                            test_gen_mode,
                            false,
                        );
                        match res {
                            Result::Ok(()) => (),
                            Result::Err(e) => {
                                // argument filling cannot fail: every value
                                // it draws fits its declared type
                                proof {
                                    assert(false);
                                }
                                return Result::Err(DFError::TestGenError(e));
                            },
                        }
                        // wire the mined dataflow when the outer call has
                        // exactly one callback argument
                        let outer_cb_positions = outer.get_sig().get_callback_positions();
                        if outer_cb_positions.len() == 1 {
                            let outer_cb_args = outer.get_all_cb_args_vals(&ext_uniq_id);
                            proof {
                                crate::mined_seed_reps::lemma_pair_dataflow_bounds(
                                    src_pair.inner_params@,
                                );
                                assert(forall|d: int|
                                    0 <= d < nested_ext.outer_to_inner_dataflow@.len()
                                        ==> (#[trigger] nested_ext.outer_to_inner_dataflow@[
                                    d]).1 < nested_ext.sig@.arg_list.len());
                            }
                            ret_call.wire_dataflow(
                                &nested_ext.outer_to_inner_dataflow,
                                &outer_cb_args,
                            );
                            proof {
                                let df = crate::mined_seed_reps::spec_pair_dataflow(
                                    src_pair.inner_params@,
                                );
                                let outer_vals = spec_args_cb_vals(
                                    outer@.sig.arg_list,
                                    ext_uniq_id@,
                                );
                                assert(outer_cb_args@.len() == outer_vals.len());
                                assert(nested_ext.outer_to_inner_dataflow@ == df);
                                assert forall|d: int|
                                    0 <= d < ret_call@.sig.arg_list.len()
                                        && crate::mined_seed_reps::spec_last_flow(
                                        df,
                                        d,
                                        outer_vals.len() as int,
                                    ) >= 0 implies #[trigger] ret_call@.sig.arg_list[d] == (
                                FunctionArgumentV {
                                    arg_type: ArgType::AnyType,
                                    arg_val: Option::Some(
                                        outer_vals[df[crate::mined_seed_reps::spec_last_flow(
                                            df,
                                            d,
                                            outer_vals.len() as int,
                                        )].0 as int],
                                    ),
                                }) by {
                                    crate::mined_seed_reps::lemma_last_flow_hit(
                                        df,
                                        d,
                                        outer_vals.len() as int,
                                    );
                                    let lf = crate::mined_seed_reps::spec_last_flow(
                                        df,
                                        d,
                                        outer_vals.len() as int,
                                    );
                                    assert(outer_cb_args@[df[lf].0 as int]@ == outer_vals[df[
                                    lf].0 as int]);
                                }
                                assert(crate::mined_seed_reps::spec_wired_args(
                                    ret_call@.sig.arg_list,
                                    src_pair.inner_params@,
                                    outer_vals,
                                ));
                            }
                        } else {
                            proof {
                                // more or fewer outer callbacks: there is no
                                // single callback position, so no dataflow
                                // wiring is owed
                                if spec_single_cb(outer@.sig.arg_list) {
                                    let p = choose|p: int|
                                        0 <= p < outer@.sig.arg_list.len() && (
                                        #[trigger] outer@.sig.arg_list[p].arg_type)
                                            is CallbackType && (forall|q: int|
                                            0 <= q < outer@.sig.arg_list.len() && (
                                            #[trigger] outer@.sig.arg_list[q].arg_type)
                                                is CallbackType ==> q == p);
                                    assert(exists|j2: int|
                                        0 <= j2 < outer_cb_positions@.len() && outer_cb_positions@[
                                        j2] == p);
                                    if outer_cb_positions@.len() >= 2 {
                                        assert(outer_cb_positions@[0] < outer_cb_positions@[1]);
                                        assert(outer_cb_positions@[0] as int == p);
                                        assert(outer_cb_positions@[1] as int == p);
                                    }
                                    assert(false);
                                }
                            }
                        }
                        proof {
                            let idxs = crate::mined_seed_reps::spec_match_idxs(
                                mined_views,
                                lib_name@,
                                outer@.name,
                                outer@.sig.arg_list.len(),
                                mined_views.len() as int,
                            );
                            crate::mined_seed_reps::lemma_match_idxs_props(
                                mined_views,
                                lib_name@,
                                outer@.name,
                                outer@.sig.arg_list.len(),
                                mined_views.len() as int,
                            );
                            let j = idxs[pick as int];
                            assert(old(self)@.lib_mined_data[mi as int].0 == var);
                            assert(old(self)@.lib_mined_data[mi as int].1 == mined_views);
                            assert(crate::mined_seed_reps::spec_pair_matches(
                                mined_views[j],
                                var,
                                outer@.name,
                                outer@.sig.arg_list.len(),
                            ));
                            assert(ret_call@.name == mined_views[j].inner_fct@);
                            assert(ret_call@.sig.arg_list.len() == mined_views[
                            j].inner_params@.len());
                        }
                        return Result::Ok(ret_call);
                    }
                },
                _ => (),
            }
        }
        // otherwise: sample a function from the weighted tables.
        // the access paths with in-scope receiver values: previous return
        // values, plus the module root itself
        let mut ap_receivers: Vec<(AccessPathModuleCentred, Vec<ArgVal>)> = Vec::new();
        let mut i: usize = 0;
        while i < ret_vals_pool.len()
            invariant
                lib_name@ == var,
                i <= ret_vals_pool@.len(),
                forall|k: int|
                    0 <= k < ap_receivers@.len() ==> (#[trigger] ap_receivers@[k]).1@.len() > 0,
                // every bucketed value is an in-scope value reached by the
                // bucket's path
                forall|k: int, m: int|
                    0 <= k < ap_receivers@.len() && 0 <= m < ap_receivers@[k].1@.len()
                        ==> spec_in_scope_receiver(
                        (#[trigger] ap_receivers@[k]).0@,
                        (#[trigger] ap_receivers@[k].1@[m])@,
                        ret_vals_pool@,
                        var,
                    ),
                // every in-scope path seen so far has a bucket
                forall|j: int|
                    0 <= j < i ==> (match (#[trigger] ret_vals_pool@[j]).acc_path {
                        Option::Some(p) => exists|k: int|
                            0 <= k < ap_receivers@.len() && (#[trigger] ap_receivers@[k]).0@
                                == p@,
                        Option::None => true,
                    }),
            decreases ret_vals_pool@.len() - i,
        {
            let tracked_val = &ret_vals_pool[i];
            match &tracked_val.acc_path {
                Option::Some(ap) => {
                    let mut found = false;
                    let mut k: usize = 0;
                    while k < ap_receivers.len()
                        invariant
                            lib_name@ == var,
                            i < ret_vals_pool@.len(),
                            *tracked_val == ret_vals_pool@[i as int],
                            ret_vals_pool@[i as int].acc_path matches Option::Some(a) && a@
                                == ap@,
                            k <= ap_receivers@.len(),
                            forall|m: int|
                                0 <= m < ap_receivers@.len() ==> (#[trigger] ap_receivers@[
                                m]).1@.len() > 0,
                            forall|m: int, q: int|
                                0 <= m < ap_receivers@.len() && 0 <= q < ap_receivers@[
                                m].1@.len() ==> spec_in_scope_receiver(
                                    (#[trigger] ap_receivers@[m]).0@,
                                    (#[trigger] ap_receivers@[m].1@[q])@,
                                    ret_vals_pool@,
                                    var,
                                ),
                            forall|j: int|
                                0 <= j < i ==> (match (#[trigger] ret_vals_pool@[j]).acc_path {
                                    Option::Some(p) => exists|m: int|
                                        0 <= m < ap_receivers@.len() && (
                                        #[trigger] ap_receivers@[m]).0@ == p@,
                                    Option::None => true,
                                }),
                            found ==> exists|m: int|
                                0 <= m < ap_receivers@.len() && (#[trigger] ap_receivers@[m]).0@
                                    == ap@,
                        decreases ap_receivers@.len() - k,
                    {
                        let matches_k = crate::module_reps::ap_eq(&ap_receivers[k].0, ap);
                        if matches_k && !found {
                            let ghost old_recv = ap_receivers@;
                            let cloned_val = tracked_val.val.clone();
                            proof {
                                assert(cloned_val@ == ret_vals_pool@[i as int].val@);
                            }
                            ap_receivers[k].1.push(cloned_val);
                            found = true;
                            proof {
                                assert(ap_receivers@[k as int].1@[ap_receivers@[k as int].1@.len()
                                    - 1]@ == ret_vals_pool@[i as int].val@);
                                assert forall|m: int|
                                    0 <= m < ap_receivers@.len() implies (
                                #[trigger] ap_receivers@[m]).1@.len() > 0 by {
                                    if m != k {
                                        assert(ap_receivers@[m] == old_recv[m]);
                                    }
                                }
                                assert(ap_receivers@[k as int].0@ == ap@);
                                assert forall|m: int, q: int|
                                    0 <= m < ap_receivers@.len() && 0 <= q < ap_receivers@[
                                m].1@.len() implies spec_in_scope_receiver(
                                    (#[trigger] ap_receivers@[m]).0@,
                                    (#[trigger] ap_receivers@[m].1@[q])@,
                                    ret_vals_pool@,
                                    var,
                                ) by {
                                    if m == k && q == ap_receivers@[m].1@.len() - 1 {
                                        assert(ap_receivers@[m].1@[q]@ == ret_vals_pool@[
                                        i as int].val@);
                                        assert(spec_in_scope_receiver(
                                            ap_receivers@[m].0@,
                                            ap_receivers@[m].1@[q]@,
                                            ret_vals_pool@,
                                            var,
                                        ));
                                    } else {
                                        assert(ap_receivers@[m] == old_recv[m] || (m == k
                                            && ap_receivers@[m].1@[q] == old_recv[m].1@[q]
                                            && ap_receivers@[m].0 == old_recv[m].0));
                                    }
                                }
                                assert forall|j: int|
                                    0 <= j < i implies (match (#[trigger] ret_vals_pool@[
                                j]).acc_path {
                                    Option::Some(p) => exists|m: int|
                                        0 <= m < ap_receivers@.len() && (
                                        #[trigger] ap_receivers@[m]).0@ == p@,
                                    Option::None => true,
                                }) by {
                                    match ret_vals_pool@[j].acc_path {
                                        Option::Some(p) => {
                                            let m = choose|m: int|
                                                0 <= m < old_recv.len() && (#[trigger] old_recv[
                                                m]).0@ == p@;
                                            assert(ap_receivers@[m].0 == old_recv[m].0);
                                        },
                                        Option::None => {},
                                    }
                                }
                            }
                        }
                        k = k + 1;
                    }
                    if !found {
                        let mut vals: Vec<ArgVal> = Vec::new();
                        vals.push(tracked_val.val.clone());
                        let ghost old_recv = ap_receivers@;
                        ap_receivers.push((ap.clone(), vals));
                        proof {
                            assert(ap_receivers@[ap_receivers@.len() - 1].0@ == ap@);
                            assert(ap_receivers@[ap_receivers@.len() - 1].1@[0]@
                                == ret_vals_pool@[i as int].val@);
                            assert forall|m: int, q: int|
                                0 <= m < ap_receivers@.len() && 0 <= q < ap_receivers@[
                            m].1@.len() implies spec_in_scope_receiver(
                                (#[trigger] ap_receivers@[m]).0@,
                                (#[trigger] ap_receivers@[m].1@[q])@,
                                ret_vals_pool@,
                                var,
                            ) by {
                                if m < old_recv.len() {
                                    assert(ap_receivers@[m] == old_recv[m]);
                                }
                            }
                            assert forall|j: int|
                                0 <= j < i + 1 implies (match (#[trigger] ret_vals_pool@[
                            j]).acc_path {
                                Option::Some(p) => exists|m: int|
                                    0 <= m < ap_receivers@.len() && (#[trigger] ap_receivers@[
                                    m]).0@ == p@,
                                Option::None => true,
                            }) by {
                                match ret_vals_pool@[j].acc_path {
                                    Option::Some(p) => {
                                        if j < i {
                                            let m = choose|m: int|
                                                0 <= m < old_recv.len() && (#[trigger] old_recv[
                                                m]).0@ == p@;
                                            assert(ap_receivers@[m] == old_recv[m]);
                                        } else {
                                            assert(ap_receivers@[ap_receivers@.len() - 1].0@
                                                == p@);
                                        }
                                    },
                                    Option::None => {},
                                }
                            }
                        }
                    } else {
                        proof {
                            assert forall|j: int|
                                0 <= j < i + 1 implies (match (#[trigger] ret_vals_pool@[
                            j]).acc_path {
                                Option::Some(p) => exists|m: int|
                                    0 <= m < ap_receivers@.len() && (#[trigger] ap_receivers@[
                                    m]).0@ == p@,
                                Option::None => true,
                            }) by {}
                        }
                    }
                },
                Option::None => (),
            }
            i = i + 1;
        }
        let mut root_vals: Vec<ArgVal> = Vec::new();
        root_vals.push(ArgVal::Variable(lib_name.clone()));
        let ghost pre_root = ap_receivers@;
        ap_receivers.push((module_root_path, root_vals));
        let ghost root_recv_idx = ap_receivers@.len() - 1;
        proof {
            assert(ap_receivers@[root_recv_idx].0@ == APathV::RootV(var));
            assert(ap_receivers@[root_recv_idx].1@.len() > 0);
            assert(ap_receivers@[root_recv_idx].1@[0]@ == ArgValV::VariableV(var));
            assert forall|k: int, m: int|
                0 <= k < ap_receivers@.len() && 0 <= m < ap_receivers@[k].1@.len() implies
                spec_in_scope_receiver(
                (#[trigger] ap_receivers@[k]).0@,
                (#[trigger] ap_receivers@[k].1@[m])@,
                ret_vals_pool@,
                var,
            ) by {
                if k < pre_root.len() {
                    assert(ap_receivers@[k] == pre_root[k]);
                }
            }
            // the buckets cover every in-scope receiver path
            assert forall|j: int|
                0 <= j < ret_vals_pool@.len() implies (match (#[trigger] ret_vals_pool@[
            j]).acc_path {
                Option::Some(p) => exists|k: int|
                    0 <= k < ap_receivers@.len() && (#[trigger] ap_receivers@[k]).0@ == p@,
                Option::None => true,
            }) by {
                match ret_vals_pool@[j].acc_path {
                    Option::Some(p) => {
                        let m = choose|m: int|
                            0 <= m < pre_root.len() && (#[trigger] pre_root[m]).0@ == p@;
                        assert(ap_receivers@[m] == pre_root[m]);
                    },
                    Option::None => {},
                }
            }
        }

        // make sure the weighted table for this library exists
        let lib_idx = self.ensure_lib_weights(lib_name.as_str(), mod_rep);
        proof {
            assert(self@.libs_fcts_weights == t0);
            lemma_lib_index_unique(t0, var, lib_idx as int);
            assert(l == lib_idx as int);
            assert(self@ =~= (TestGenDBV { libs_fcts_weights: t0, ..old(self)@ }));
        }

        // weights restricted to functions with an in-scope receiver
        let n_fcts = self.libs_fcts_weights[lib_idx].1.len();
        let mut weights: Vec<u64> = Vec::new();
        let mut receiver_of: Vec<Option<usize>> = Vec::new();
        let mut f: usize = 0;
        while f < n_fcts
            invariant
                self@.wf(),
                self@.libs_fcts_weights == t0,
                self@ == (TestGenDBV { libs_fcts_weights: t0, ..old(self)@ }),
                lib_name@ == var,
                l == lib_idx as int,
                lib_idx < self.libs_fcts_weights@.len(),
                lib_idx < self@.libs_fcts_weights.len(),
                n_fcts == self.libs_fcts_weights@[lib_idx as int].1@.len(),
                n_fcts == self@.libs_fcts_weights[lib_idx as int].1.len(),
                f <= n_fcts,
                weights@.len() == f,
                receiver_of@.len() == f,
                forall|k: int|
                    0 <= k < ap_receivers@.len() ==> (#[trigger] ap_receivers@[k]).1@.len() > 0,
                forall|k: int, m: int|
                    0 <= k < ap_receivers@.len() && 0 <= m < ap_receivers@[k].1@.len()
                        ==> spec_in_scope_receiver(
                        (#[trigger] ap_receivers@[k]).0@,
                        (#[trigger] ap_receivers@[k].1@[m])@,
                        ret_vals_pool@,
                        var,
                    ),
                ap_receivers@[ap_receivers@.len() - 1].0@ == APathV::RootV(var),
                ap_receivers@.len() >= 1,
                forall|j: int|
                    0 <= j < ret_vals_pool@.len() ==> (match (#[trigger] ret_vals_pool@[
                    j]).acc_path {
                        Option::Some(p) => exists|k: int|
                            0 <= k < ap_receivers@.len() && (#[trigger] ap_receivers@[k]).0@
                                == p@,
                        Option::None => true,
                    }),
                forall|k: int|
                    0 <= k < f && (#[trigger] receiver_of@[k]) is Some ==> receiver_of@[k]->0
                        < ap_receivers@.len() && weights@[k] == t0[l].1[k].weight
                        && ap_receivers@[receiver_of@[k]->0 as int].0@ == t0[l].1[k].key.0,
                forall|k: int|
                    0 <= k < f && (#[trigger] receiver_of@[k]) is None ==> weights@[k] == 0
                        && !spec_path_has_receiver(t0[l].1[k].key.0, ret_vals_pool@, var),
            decreases n_fcts - f,
        {
            let entry = &self.libs_fcts_weights[lib_idx].1[f];
            proof {
                assert(entry@ == t0[l].1[f as int]);
            }
            let mut recv: Option<usize> = Option::None;
            let mut k: usize = 0;
            while k < ap_receivers.len()
                invariant
                    f < n_fcts,
                    n_fcts == t0[l].1.len(),
                    entry@ == t0[l].1[f as int],
                    k <= ap_receivers@.len(),
                    match recv {
                        Option::Some(ri) => ri < ap_receivers@.len() && ap_receivers@[
                            ri as int].0@ == entry@.key.0,
                        Option::None => forall|m: int|
                            0 <= m < k ==> (#[trigger] ap_receivers@[m]).0@ != entry@.key.0,
                    },
                decreases ap_receivers@.len() - k,
            {
                if crate::module_reps::ap_eq(&ap_receivers[k].0, &entry.key.0) && matches!(
                    recv,
                    Option::None,
                ) {
                    recv = Option::Some(k);
                }
                k = k + 1;
            }
            let ghost pre_ws = weights@;
            let ghost pre_ro = receiver_of@;
            match recv {
                Option::Some(ri) => {
                    let w = entry.weight;
                    proof {
                        assert(entry_weights_ok(
                            self@.libs_fcts_weights[lib_idx as int].1[f as int],
                        ));
                    }
                    weights.push(w);
                    receiver_of.push(Option::Some(ri));
                },
                Option::None => {
                    proof {
                        // no bucket carries this path, and buckets cover
                        // every in-scope receiver path
                        assert(!spec_path_has_receiver(
                            t0[l].1[f as int].key.0,
                            ret_vals_pool@,
                            var,
                        )) by {
                            if t0[l].1[f as int].key.0 == APathV::RootV(var) {
                                assert(ap_receivers@[ap_receivers@.len() - 1].0@
                                    == entry@.key.0);
                            } else if exists|j: int|
                                0 <= j < ret_vals_pool@.len() && (match (
                                #[trigger] ret_vals_pool@[j]).acc_path {
                                    Option::Some(p) => p@ == t0[l].1[f as int].key.0,
                                    Option::None => false,
                                }) {
                                let j = choose|j: int|
                                    0 <= j < ret_vals_pool@.len() && (match (
                                    #[trigger] ret_vals_pool@[j]).acc_path {
                                        Option::Some(p) => p@ == t0[l].1[f as int].key.0,
                                        Option::None => false,
                                    });
                                let m = choose|m: int|
                                    0 <= m < ap_receivers@.len() && (#[trigger] ap_receivers@[
                                    m]).0@ == (match ret_vals_pool@[j].acc_path {
                                        Option::Some(p) => p@,
                                        Option::None => arbitrary(),
                                    });
                                assert(ap_receivers@[m].0@ == entry@.key.0);
                            }
                        }
                    }
                    weights.push(0);
                    receiver_of.push(Option::None);
                },
            }
            proof {
                assert forall|k2: int|
                    0 <= k2 < f + 1 && (#[trigger] receiver_of@[k2]) is Some implies receiver_of@[
                k2]->0 < ap_receivers@.len() && weights@[k2] == t0[l].1[k2].weight
                    && ap_receivers@[receiver_of@[k2]->0 as int].0@ == t0[l].1[k2].key.0 by {
                    if k2 < f {
                        assert(receiver_of@[k2] == pre_ro[k2]);
                        assert(weights@[k2] == pre_ws[k2]);
                    }
                }
                assert forall|k2: int|
                    0 <= k2 < f + 1 && (#[trigger] receiver_of@[k2]) is None implies weights@[k2]
                    == 0 && !spec_path_has_receiver(t0[l].1[k2].key.0, ret_vals_pool@, var) by {
                    if k2 < f {
                        assert(receiver_of@[k2] == pre_ro[k2]);
                        assert(weights@[k2] == pre_ws[k2]);
                    }
                }
            }
            f = f + 1;
        }
        // the module root is always an in-scope receiver, so any function
        // rooted there has a nonzero weight; choose one by weight
        let chosen = match choose_weighted_index(&weights) {
            Option::Some(c) => c,
            Option::None => {
                proof {
                    lemma_sum_zero(weights@);
                    assert forall|f2: int| 0 <= f2 < t0[l].1.len() implies !spec_path_has_receiver(
                        (#[trigger] t0[l].1[f2]).key.0,
                        ret_vals_pool@,
                        var,
                    ) by {
                        assert(weights@[f2] == 0);
                        if receiver_of@[f2] is Some {
                            assert(weights@[f2] == t0[l].1[f2].weight);
                            assert(entry_weights_ok(t0[l].1[f2]));
                        }
                    }
                    // in particular no entry is keyed at the module root
                    if exists|f2: int|
                        0 <= f2 < t0[l].1.len() && (#[trigger] t0[l].1[f2]).key.0
                            == APathV::RootV(var) {
                        let f2 = choose|f2: int|
                            0 <= f2 < t0[l].1.len() && (#[trigger] t0[l].1[f2]).key.0
                                == APathV::RootV(var);
                        assert(spec_path_has_receiver(t0[l].1[f2].key.0, ret_vals_pool@, var));
                        assert(false);
                    }
                }
                return Result::Err(DFError::TestGenError(TestGenError::ArgValNotSetYet));
            },
        };
        let ri = match receiver_of[chosen] {
            Option::Some(ri) => {
                assert(receiver_of@[chosen as int] is Some);
                ri
            },
            Option::None => {
                // unreachable: a chosen index has nonzero weight, and
                // zero-weight entries are exactly those without a receiver
                proof {
                    assert(weights@[chosen as int] == 0);
                    assert(false);
                }
                return Result::Err(DFError::TestGenError(TestGenError::ArgValNotSetYet));
            },
        };
        // pick one receiver value uniformly
        let recv_vals = &ap_receivers[ri].1;
        let rv_pick = rand_usize_inclusive(0, recv_vals.len() - 1);
        let fct_call_receiver = recv_vals[rv_pick].clone();
        let fct_receiver_acc_path = ap_receivers[ri].0.clone();
        let entry = &self.libs_fcts_weights[lib_idx].1[chosen];
        let fct_name = entry.key.1.clone();
        let sig_weights_copy = copy_sig_weights(&entry.sig_weights);
        // resolve the arity: the registry hint where present, else random
        let num_api_args: Option<usize> = match mod_rep.find_fn(
            &entry.key.0,
            entry.key.1.as_str(),
        ) {
            Option::Some(fi) => mod_rep.fn_at(fi).get_num_api_args(),
            Option::None => Option::None,
        };
        let num_args: usize = match &num_api_args {
            Option::Some(n) => *n,
            Option::None => rand_usize_inclusive(0, DEFAULT_MAX_ARG_LENGTH),
        };
        // choose a random callback position; the doubled range means half of
        // all draws place no callback at all
        let cb_position: Option<i32> = if num_args == 0 || num_args > 0x3fffffff {
            Option::None
        } else {
            Option::Some(rand_usize_inclusive(0, num_args * 2) as i32)
        };
        let random_sig = gen_new_sig_with_cb(
            num_api_args,
            &sig_weights_copy,
            cb_position,
            self,
            test_gen_mode,
        );
        // decay the weights of the chosen function and signature
        let abstract_sig = random_sig.get_abstract_sig();
        self.decay_chosen(lib_idx, chosen, &abstract_sig);
        let fct_acc_path_rep = AccessPathModuleCentred::FieldAccPath(
            Box::new(fct_receiver_acc_path),
            FieldNameType::StringField(fct_name.clone()),
        );
        let mut ret_call = FunctionCall::new(
            fct_name,
            random_sig,
            Option::None,
            Option::None,
            Option::Some(fct_acc_path_rep),
            Option::Some(fct_call_receiver),
        );
        let res = ret_call.init_args_with_random(
            self,
            &ret_vals_pool,
            &cb_arg_vals_pool,
            mod_rep,
            test_gen_mode,
            false,
        );
        match res {
            Result::Ok(()) => (),
            Result::Err(e) => {
                // argument filling cannot fail
                proof {
                    assert(false);
                }
                return Result::Err(DFError::TestGenError(e));
            },
        }
        proof {
            // the call names the chosen entry over its in-scope receiver,
            // and exactly that entry's weights decayed
            assert(ret_call@.name == t0[l].1[chosen as int].key.1);
            assert(ret_call@.acc_path == Option::Some(
                APathV::FieldV(
                    Box::new(t0[l].1[chosen as int].key.0),
                    FieldNameTypeV::StringFieldV(ret_call@.name),
                ),
            ));
            assert(match ret_call@.receiver {
                Option::Some(v) => spec_in_scope_receiver(
                    t0[l].1[chosen as int].key.0,
                    v,
                    ret_vals_pool@,
                    var,
                ),
                Option::None => false,
            });
            assert(ret_call@.sig.abstract_sig() =~= abstract_sig@);
            assert(final_matches_decay(self@, old(self)@, t0, l, chosen as int, ret_call@));
        }
        Result::Ok(ret_call)
    }

    /// The index of this library's mined nesting data, if any was loaded.
    fn find_mined_data(&self, lib_name: &str) -> (r: Option<usize>)
        ensures
            match r {
                Option::Some(i) => i < self.lib_mined_data@.len() && self@.lib_mined_data[
                    i as int].0 == lib_name@,
                Option::None => true,
            },
    {
        let mut i: usize = 0;
        while i < self.lib_mined_data.len()
            invariant
                i <= self.lib_mined_data@.len(),
            decreases self.lib_mined_data@.len() - i,
        {
            if str_eq(self.lib_mined_data[i].0.as_str(), lib_name) {
                assert(self@.lib_mined_data[i as int].0 == lib_name@);
                return Option::Some(i);
            }
            i = i + 1;
        }
        Option::None
    }

    /// The index of this library's weighted table, creating it from the
    /// registry if it does not exist yet: every function starts at the
    /// initial weight, as does each of its known abstract signatures.
    fn ensure_lib_weights(&mut self, lib_name: &str, mod_rep: &NpmModule) -> (r: usize)
        requires
            old(self)@.wf(),
        ensures
            final(self)@.wf(),
            final(self)@ == (TestGenDBV {
                libs_fcts_weights: spec_ensured_tables(
                    old(self)@.libs_fcts_weights,
                    lib_name@,
                    mod_rep@,
                ),
                ..old(self)@
            }),
            r < final(self)@.libs_fcts_weights.len(),
            final(self)@.libs_fcts_weights[r as int].0 == lib_name@,
            forall|j: int|
                0 <= j < r ==> (#[trigger] final(self)@.libs_fcts_weights[j]).0 != lib_name@,
    {
        let mut i: usize = 0;
        while i < self.libs_fcts_weights.len()
            invariant
                *self == *old(self),
                old(self)@.wf(),
                i <= self.libs_fcts_weights@.len(),
                forall|j: int|
                    0 <= j < i ==> (#[trigger] self@.libs_fcts_weights[j]).0 != lib_name@,
            decreases self.libs_fcts_weights@.len() - i,
        {
            if str_eq(self.libs_fcts_weights[i].0.as_str(), lib_name) {
                proof {
                    assert(self@.libs_fcts_weights[i as int].0 == lib_name@);
                    assert(spec_ensured_tables(
                        old(self)@.libs_fcts_weights,
                        lib_name@,
                        mod_rep@,
                    ) == old(self)@.libs_fcts_weights);
                    assert(self@ =~= (TestGenDBV {
                        libs_fcts_weights: spec_ensured_tables(
                            old(self)@.libs_fcts_weights,
                            lib_name@,
                            mod_rep@,
                        ),
                        ..old(self)@
                    }));
                }
                return i;
            }
            i = i + 1;
        }
        let fns = mod_rep.get_fns();
        let mut entries: Vec<FctWeightEntry> = Vec::new();
        let mut f: usize = 0;
        while f < fns.len()
            invariant
                *self == *old(self),
                old(self)@.wf(),
                fns@.len() == mod_rep@.fns.len(),
                forall|k: int|
                    0 <= k < fns@.len() ==> #[trigger] mod_rep@.fns[k] == (
                    (fns@[k].0.0@, fns@[k].0.1@),
                    fns@[k].1@,
                ),
                f <= fns@.len(),
                entries@.len() == f,
                forall|k: int|
                    0 <= k < f ==> #[trigger] entries@[k]@ == spec_initial_entries(mod_rep@)[k],
                forall|k: int|
                    0 <= k < entries@.len() ==> entry_weights_ok(#[trigger] entries@[k]@),
            decreases fns@.len() - f,
        {
            let (key, mf) = &fns[f];
            let sigs = mf.get_sigs();
            let mut sig_weights: Vec<(Vec<ArgType>, u64)> = Vec::new();
            let mut si: usize = 0;
            while si < sigs.len()
                invariant
                    f < fns@.len(),
                    fns@.len() == mod_rep@.fns.len(),
                    sigs@.len() == mod_rep@.fns[f as int].1.sigs.len(),
                    forall|k: int|
                        0 <= k < sigs@.len() ==> #[trigger] sigs@[k]@ == mod_rep@.fns[
                        f as int].1.sigs[k],
                    si <= sigs@.len(),
                    sig_weights@.len() == si,
                    forall|k: int|
                        0 <= k < si ==> (#[trigger] sig_weights@[k]).0@ == mod_rep@.fns[
                        f as int].1.sigs[k].abstract_sig() && sig_weights@[k].1 == INITIAL_WEIGHT,
                decreases sigs@.len() - si,
            {
                sig_weights.push((sigs[si].get_abstract_sig(), INITIAL_WEIGHT));
                si = si + 1;
            }
            let entry = FctWeightEntry {
                key: (key.0.clone(), key.1.clone()),
                weight: INITIAL_WEIGHT,
                sig_weights,
            };
            proof {
                assert(entry_weights_ok(entry@));
                assert(entry@ =~= spec_initial_entries(mod_rep@)[f as int]);
            }
            entries.push(entry);
            f = f + 1;
        }
        let ghost old_tables = self@.libs_fcts_weights;
        self.libs_fcts_weights.push((lib_name.to_owned(), entries));
        let r = self.libs_fcts_weights.len() - 1;
        proof {
            assert forall|l: int, k: int|
                0 <= l < self@.libs_fcts_weights.len() && 0 <= k < self@.libs_fcts_weights[
            l].1.len() implies entry_weights_ok(#[trigger] self@.libs_fcts_weights[l].1[k]) by {
                if l < old_tables.len() {
                    assert(self@.libs_fcts_weights[l] == old_tables[l]);
                } else {
                    assert(self@.libs_fcts_weights[l].1[k] == entries@[k]@);
                }
            }
            assert forall|p: int|
                0 <= p < self@.possible_ext_points.len() implies tree_wf(
                (#[trigger] self@.possible_ext_points[p]).1.0.fct_tree,
            ) && (match self@.possible_ext_points[p].1.1 {
                Option::Some(e) => e < self@.possible_ext_points[p].1.0.fct_tree.len(),
                Option::None => true,
            }) by {
                assert(self@.possible_ext_points[p] == old(self)@.possible_ext_points[p]);
            }
            // the new table is exactly the fresh one for the registry
            assert(!exists|j: int|
                0 <= j < old_tables.len() && (#[trigger] old_tables[j]).0 == lib_name@);
            assert(self@.libs_fcts_weights[r as int].1 =~= spec_initial_entries(mod_rep@));
            assert(self@.libs_fcts_weights =~= old_tables.push(
                (lib_name@, spec_initial_entries(mod_rep@)),
            ));
            assert(self@ =~= (TestGenDBV {
                libs_fcts_weights: spec_ensured_tables(old_tables, lib_name@, mod_rep@),
                ..old(self)@
            }));
            assert forall|j: int|
                0 <= j < r implies (#[trigger] self@.libs_fcts_weights[j]).0 != lib_name@ by {
                assert(self@.libs_fcts_weights[j] == old_tables[j]);
            }
        }
        r
    }

    /// Decay the weight of the chosen function, and of the signature shape
    /// chosen for it (recording the shape at the initial weight first, if it
    /// was not known).
    fn decay_chosen(&mut self, lib_idx: usize, fct_idx: usize, abstract_sig: &Vec<ArgType>)
        requires
            old(self)@.wf(),
            lib_idx < old(self)@.libs_fcts_weights.len(),
            fct_idx < old(self)@.libs_fcts_weights[lib_idx as int].1.len(),
        ensures
            final(self)@.wf(),
            final(self)@ == (TestGenDBV {
                libs_fcts_weights: old(self)@.libs_fcts_weights.update(
                    lib_idx as int,
                    (
                        old(self)@.libs_fcts_weights[lib_idx as int].0,
                        old(self)@.libs_fcts_weights[lib_idx as int].1.update(
                            fct_idx as int,
                            spec_decayed_entry(
                                old(self)@.libs_fcts_weights[lib_idx as int].1[fct_idx as int],
                                abstract_sig@,
                            ),
                        ),
                    ),
                ),
                ..old(self)@
            }),
    {
        proof {
            assert(entry_weights_ok(
                old(self)@.libs_fcts_weights[lib_idx as int].1[fct_idx as int],
            ));
        }
        let entry = &self.libs_fcts_weights[lib_idx].1[fct_idx];
        let old_w = entry.weight;
        let new_w = decay_weight(old_w, RECHOOSE_LIB_FCT_WEIGHT_FACTOR);
        let key0 = entry.key.0.clone();
        let key1 = entry.key.1.clone();
        let mut new_sig_weights = copy_sig_weights(&entry.sig_weights);
        let ghost e = self@.libs_fcts_weights[lib_idx as int].1[fct_idx as int];
        proof {
            assert(self@.libs_fcts_weights[lib_idx as int].1[fct_idx as int] == entry@);
            assert forall|k: int|
                0 <= k < new_sig_weights@.len() implies 1 <= (#[trigger] new_sig_weights@[k]).1
                <= INITIAL_WEIGHT && new_sig_weights@[k].0@ == e.sig_weights[k].0
                && new_sig_weights@[k].1 == e.sig_weights[k].1 by {
                assert(new_sig_weights@[k].0@ == entry.sig_weights@[k].0@);
                assert(new_sig_weights@[k].1 == entry.sig_weights@[k].1);
                assert(entry@.sig_weights[k] == (entry.sig_weights@[k].0@, entry.sig_weights@[
                k].1));
                assert(1 <= entry@.sig_weights[k].1 <= INITIAL_WEIGHT);
            }
            assert(new_sig_weights@.len() == e.sig_weights.len());
        }
        // find the chosen signature's weight entry
        let mut si: usize = 0;
        let mut found: Option<usize> = Option::None;
        while si < new_sig_weights.len()
            invariant
                si <= new_sig_weights@.len(),
                new_sig_weights@.len() == e.sig_weights.len(),
                forall|k: int|
                    0 <= k < new_sig_weights@.len() ==> 1 <= (#[trigger] new_sig_weights@[k]).1
                        <= INITIAL_WEIGHT && new_sig_weights@[k].0@ == e.sig_weights[k].0
                        && new_sig_weights@[k].1 == e.sig_weights[k].1,
                match found {
                    Option::Some(fi) => fi < si && e.sig_weights[fi as int].0 == abstract_sig@
                        && forall|m: int|
                        0 <= m < fi ==> (#[trigger] e.sig_weights[m]).0 != abstract_sig@,
                    Option::None => forall|m: int|
                        0 <= m < si ==> (#[trigger] e.sig_weights[m]).0 != abstract_sig@,
                },
            decreases new_sig_weights@.len() - si,
        {
            let same = vec_arg_types_eq(&new_sig_weights[si].0, abstract_sig);
            if same && matches!(found, Option::None) {
                found = Option::Some(si);
            }
            si = si + 1;
        }
        match found {
            Option::Some(fi) => {
                proof {
                    lemma_first_shape_unique(e.sig_weights, abstract_sig@, fi as int);
                }
                let old_sw = new_sig_weights[fi].1;
                let new_sw = decay_weight(old_sw, RECHOOSE_FCT_SIG_WEIGHT_FACTOR);
                let shape = copy_arg_types(&new_sig_weights[fi].0);
                let ghost pre_sw = new_sig_weights@;
                new_sig_weights[fi] = (shape, new_sw);
                proof {
                    assert forall|k: int|
                        0 <= k < new_sig_weights@.len() implies 1 <= (
                    #[trigger] new_sig_weights@[k]).1 <= INITIAL_WEIGHT by {
                        if k != fi {
                            assert(new_sig_weights@[k] == pre_sw[k]);
                        }
                    }
                    assert forall|k: int|
                        0 <= k < new_sig_weights@.len() implies ((#[trigger] new_sig_weights@[
                    k]).0@, new_sig_weights@[k].1) == spec_decayed_entry(e, abstract_sig@)
                        .sig_weights[k] by {
                        if k != fi {
                            assert(new_sig_weights@[k] == pre_sw[k]);
                        }
                    }
                }
            },
            Option::None => {
                proof {
                    lemma_first_shape_none(e.sig_weights, abstract_sig@);
                }
                let shape = copy_arg_types(abstract_sig);
                let new_sw = decay_weight(INITIAL_WEIGHT, RECHOOSE_FCT_SIG_WEIGHT_FACTOR);
                let ghost pre_sw = new_sig_weights@;
                new_sig_weights.push((shape, new_sw));
                proof {
                    assert forall|k: int|
                        0 <= k < new_sig_weights@.len() implies 1 <= (
                    #[trigger] new_sig_weights@[k]).1 <= INITIAL_WEIGHT by {
                        if k < pre_sw.len() {
                            assert(new_sig_weights@[k] == pre_sw[k]);
                        }
                    }
                    assert forall|k: int|
                        0 <= k < new_sig_weights@.len() implies ((#[trigger] new_sig_weights@[
                    k]).0@, new_sig_weights@[k].1) == spec_decayed_entry(e, abstract_sig@)
                        .sig_weights[k] by {
                        if k < pre_sw.len() {
                            assert(new_sig_weights@[k] == pre_sw[k]);
                        }
                    }
                }
            },
        }
        let new_entry = FctWeightEntry {
            key: (key0, key1),
            weight: new_w,
            sig_weights: new_sig_weights,
        };
        proof {
            assert(entry_weights_ok(new_entry@));
            assert(new_entry@.sig_weights =~= spec_decayed_entry(e, abstract_sig@).sig_weights);
            assert(new_entry@ =~= spec_decayed_entry(e, abstract_sig@));
        }
        let ghost pre = self@;
        self.libs_fcts_weights[lib_idx].1[fct_idx] = new_entry;
        proof {
            assert(pre == old(self)@);
            assert(self@.possible_ext_points =~= pre.possible_ext_points);
            assert(self@.fs_strings =~= pre.fs_strings);
            assert forall|a: int, b: int|
                0 <= a < self@.libs_fcts_weights.len() && 0 <= b < self@.libs_fcts_weights[
            a].1.len() implies entry_weights_ok(#[trigger] self@.libs_fcts_weights[a].1[b]) by {
                if a == lib_idx && b == fct_idx {
                    assert(self@.libs_fcts_weights[a].1[b] == new_entry@);
                } else if a == lib_idx {
                    assert(self@.libs_fcts_weights[a].1[b] == pre.libs_fcts_weights[a].1[b]);
                } else {
                    assert(self@.libs_fcts_weights[a] =~= pre.libs_fcts_weights[a]);
                }
            }
            assert forall|i: int|
                0 <= i < self@.possible_ext_points.len() implies tree_wf(
                (#[trigger] self@.possible_ext_points[i]).1.0.fct_tree,
            ) && (match self@.possible_ext_points[i].1.1 {
                Option::Some(p) => p < self@.possible_ext_points[i].1.0.fct_tree.len(),
                Option::None => true,
            }) by {
                assert(self@.possible_ext_points[i] == pre.possible_ext_points[i]);
            }
            // the state changed by exactly one decayed entry
            assert(self@.libs_fcts_weights[lib_idx as int].1 =~= pre.libs_fcts_weights[
            lib_idx as int].1.update(fct_idx as int, spec_decayed_entry(e, abstract_sig@)));
            assert forall|a: int|
                0 <= a < self@.libs_fcts_weights.len() && a != lib_idx implies
                #[trigger] self@.libs_fcts_weights[a] == pre.libs_fcts_weights[a] by {}
            assert(self@.libs_fcts_weights =~= pre.libs_fcts_weights.update(
                lib_idx as int,
                (
                    pre.libs_fcts_weights[lib_idx as int].0,
                    pre.libs_fcts_weights[lib_idx as int].1.update(
                        fct_idx as int,
                        spec_decayed_entry(e, abstract_sig@),
                    ),
                ),
            ));
            assert(self@ =~= (TestGenDBV {
                libs_fcts_weights: pre.libs_fcts_weights.update(
                    lib_idx as int,
                    (
                        pre.libs_fcts_weights[lib_idx as int].0,
                        pre.libs_fcts_weights[lib_idx as int].1.update(
                            fct_idx as int,
                            spec_decayed_entry(e, abstract_sig@),
                        ),
                    ),
                ),
                ..pre
            }));
        }
    }
}

/// A structural copy of a list of argument types.
fn copy_arg_types(v: &Vec<ArgType>) -> (r: Vec<ArgType>)
    ensures
        r@ == v@,
{
    let mut r: Vec<ArgType> = Vec::new();
    let mut i: usize = 0;
    while i < v.len()
        invariant
            i <= v@.len(),
            r@ =~= v@.take(i as int),
        decreases v@.len() - i,
    {
        r.push(v[i]);
        assert(r@ =~= v@.take(i + 1));
        i = i + 1;
    }
    assert(v@.take(v@.len() as int) =~= v@);
    r
}

/// A structural copy of a signature weight table.
fn copy_sig_weights(v: &Vec<(Vec<ArgType>, u64)>) -> (r: Vec<(Vec<ArgType>, u64)>)
    ensures
        r@.len() == v@.len(),
        forall|i: int|
            0 <= i < v@.len() ==> (#[trigger] r@[i]).0@ == v@[i].0@ && r@[i].1 == v@[i].1,
{
    let mut r: Vec<(Vec<ArgType>, u64)> = Vec::new();
    let mut i: usize = 0;
    while i < v.len()
        invariant
            i <= v@.len(),
            r@.len() == i,
            forall|k: int|
                0 <= k < i ==> (#[trigger] r@[k]).0@ == v@[k].0@ && r@[k].1 == v@[k].1,
        decreases v@.len() - i,
    {
        let (ts, w) = &v[i];
        r.push((copy_arg_types(ts), *w));
        i = i + 1;
    }
    r
}

/// Are two lists of argument types equal?
fn vec_arg_types_eq(a: &Vec<ArgType>, b: &Vec<ArgType>) -> (r: bool)
    ensures
        r == (a@ == b@),
{
    if a.len() != b.len() {
        proof {
            assert(a@.len() != b@.len());
        }
        return false;
    }
    let mut i: usize = 0;
    while i < a.len()
        invariant
            a@.len() == b@.len(),
            i <= a@.len(),
            forall|k: int| 0 <= k < i ==> a@[k] == b@[k],
        decreases a@.len() - i,
    {
        if a[i] != b[i] {
            return false;
        }
        i = i + 1;
    }
    assert(a@ =~= b@);
    true
}

impl Test {
    /// Create a new test by extending a randomly chosen test from the pool
    /// with a randomly generated call. With no valid nested extension point
    /// available, a nested extension either falls back to a fresh single-call
    /// test (when `fresh_test_if_cant_extend`) or is an error.
    pub fn extend(
        mod_rep: &NpmModule,
        testgen_db: &mut TestGenDB,
        ext_type: ExtensionType,
        new_test_id: usize,
        fresh_test_if_cant_extend: bool,
        test_gen_mode: &TestGenMode,
    ) -> (r: Result<(ExtensionPointID, Test), DFError>)
        requires
            old(testgen_db)@.wf(),
            old(testgen_db)@.fs_strings.len() > 0,
            exists|i: int|
                0 <= i < mod_rep@.fns.len() && (#[trigger] mod_rep@.fns[i]).0.0 == APathV::RootV(
                    spec_js_var_name(mod_rep@.lib),
                ),
        ensures
            final(testgen_db)@.wf(),
            // the pool of extension points is untouched: diagnosis alone
            // feeds it
            final(testgen_db)@.possible_ext_points == old(testgen_db)@.possible_ext_points,
            match r {
                Result::Ok((new_id, t)) => tree_wf(t@.fct_tree) && t@.fct_tree.len() >= 1 && new_id
                    < t@.fct_tree.len() && t@.loc_id.cur_test_id == new_test_id,
                Result::Err(e) => e == DFError::InvalidTestExtensionOption || e
                    matches DFError::TestGenError(_),
            },
            // the invalid-extension error comes exactly when a nested
            // extension is requested, the pool has no nested point, and the
            // fresh-test fallback is off
            (r == Result::<(ExtensionPointID, Test), DFError>::Err(
                DFError::InvalidTestExtensionOption,
            )) <==> (ext_type is Nested && !fresh_test_if_cant_extend && !(exists|i: int|
                0 <= i < old(testgen_db)@.possible_ext_points.len() && (#[trigger] old(
                    testgen_db,
                )@.possible_ext_points[i]).0 is Nested)),
            // a produced test extends a pooled test (or a blank one) by one call
            match r {
                Result::Ok((new_id, t)) => (exists|i: int|
                    0 <= i < old(testgen_db)@.possible_ext_points.len() && t@.fct_tree.len() == (
                    #[trigger] old(testgen_db)@.possible_ext_points[i]).1.0.fct_tree.len() + 1)
                    || t@.fct_tree.len() == 1,
                Result::Err(_) => true,
            },
            // success owed: with a function keyed at the module root in the
            // weighted table, the only failures left are the invalid nested
            // extension above and the guard on an overflowing scope pool,
            // which reports the argument-value error
            ({
                let var = spec_js_var_name(mod_rep@.lib);
                let t0 = spec_ensured_tables(old(testgen_db)@.libs_fcts_weights, var, mod_rep@);
                let l = spec_lib_index(t0, var);
                ((exists|f: int|
                    0 <= f < t0[l].1.len() && (#[trigger] t0[l].1[f]).key.0 == APathV::RootV(var))
                    && !(ext_type is Nested && !fresh_test_if_cant_extend && !(exists|i: int|
                    0 <= i < old(testgen_db)@.possible_ext_points.len() && (#[trigger] old(
                        testgen_db,
                    )@.possible_ext_points[i]).0 is Nested))) ==> (r is Ok || r == Result::<
                    (ExtensionPointID, Test),
                    DFError,
                >::Err(DFError::TestGenError(TestGenError::ArgValNotSetYet)))
            }),
    {
        let ghost var = spec_js_var_name(mod_rep@.lib);
        let ghost t0 = spec_ensured_tables(old(testgen_db)@.libs_fcts_weights, var, mod_rep@);
        let ghost l = spec_lib_index(t0, var);
        // choose a random test to extend with this new call
        let (base_test, ext_id, cb_arg_pos) = testgen_db.get_test_to_extend(mod_rep, ext_type);
        if (base_test.is_empty() || matches!(ext_id, Option::None)) && matches!(
            ext_type,
            ExtensionType::Nested,
        ) && !fresh_test_if_cant_extend {
            proof {
                // a matching pool entry would have given a nonempty test
                // with a node to extend at
                if exists|i: int|
                    0 <= i < old(testgen_db)@.possible_ext_points.len() && (#[trigger] old(
                        testgen_db,
                    )@.possible_ext_points[i]).0 is Nested {
                    assert(exists|i: int|
                        0 <= i < old(testgen_db)@.possible_ext_points.len() && (#[trigger] old(
                            testgen_db,
                        )@.possible_ext_points[i]).0 == ext_type);
                    let i = choose|i: int|
                        0 <= i < old(testgen_db)@.possible_ext_points.len() && (#[trigger] old(
                            testgen_db,
                        )@.possible_ext_points[i]).0 == ext_type && (
                            base_test@,
                            ext_id,
                            view_opt_string(cb_arg_pos),
                        ) == old(testgen_db)@.possible_ext_points[i].1;
                    assert(false);
                }
            }
            return Result::Err(DFError::InvalidTestExtensionOption);
        }
        // the values in scope at the extension point: the base test's
        // accessible return values and callback arguments
        let (ret_vals_pool, cb_arg_vals_pool): (Vec<ArgValAPTracked>, Vec<ArgVal>) = match &ext_id {
            Option::Some(e) => (
                base_test.get_ret_values_accessible_from_ext_point(*e),
                base_test.get_cb_arg_values_accessible_from_ext_point(*e),
            ),
            Option::None => (Vec::new(), Vec::new()),
        };
        if ret_vals_pool.len() > usize::MAX - cb_arg_vals_pool.len() {
            return Result::Err(DFError::TestGenError(TestGenError::ArgValNotSetYet));
        }
        // info on the call being extended from
        let ext_uniq_id: String = match &ext_id {
            Option::Some(e) => base_test.get_uniq_id_for_call(*e),
            Option::None => String::new(),
        };
        let ghost mid = testgen_db@;
        proof {
            assert(spec_ensured_tables(mid.libs_fcts_weights, var, mod_rep@) == t0);
        }
        let ext_call = match &ext_id {
            Option::Some(e) => {
                let ext_fct = base_test.get_fct_call_from_id(e);
                testgen_db.gen_random_call(
                    mod_rep,
                    ret_vals_pool,
                    cb_arg_vals_pool,
                    (ext_fct, ext_type, ext_uniq_id),
                    test_gen_mode,
                )
            },
            Option::None => testgen_db.gen_random_call(
                mod_rep,
                ret_vals_pool,
                cb_arg_vals_pool,
                (Option::None, ext_type, ext_uniq_id),
                test_gen_mode,
            ),
        };
        let ext_call = match ext_call {
            Result::Ok(c) => c,
            Result::Err(e) => {
                return Result::Err(e);
            },
        };
        Test::extend_with_call(base_test, ext_id, cb_arg_pos, ext_type, ext_call, new_test_id)
    }
}

/// Choose the extension type of the next test: nested or sequential,
/// uniformly at random.
pub fn choose_random_ext_type() -> ExtensionType {
    if rand_usize_inclusive(0, 1) == 0 {
        ExtensionType::Nested
    } else {
        ExtensionType::Sequential
    }
}

/// The next callback position the discovery phase probes: positive and
/// negative values alternate (a negative position places no callback), and
/// after a callback-free probe the position advances cyclically through the
/// argument list.
pub fn next_discovery_cb_position(cur_cb_position: i32, num_args: usize) -> (r: i32)
    requires
        -0x40000000 < cur_cb_position < 0x40000000,
        num_args <= 0x40000000,
    ensures
        cur_cb_position < 0 && num_args > 0 ==> r as int == ((-(cur_cb_position as int) + 1) % (
        num_args as int)) + 1,
        !(cur_cb_position < 0 && num_args > 0) ==> r as int == -(cur_cb_position as int),
{
    if cur_cb_position < 0 && num_args > 0 {
        ((-cur_cb_position + 1) % (num_args as i32)) + 1
    } else {
        -cur_cb_position
    }
}

impl TestGenDB {
    /// Generate the arguments for one discovery probe of a function: a fresh
    /// or reused signature with a callback at `cb_position` where that
    /// position is valid, every argument valued — callback positions hold
    /// the named discovery callback, every other position a random value of
    /// its type.
    pub fn gen_args_for_fct_with_cb(
        &self,
        mod_rep: &NpmModule,
        acc_path: &AccessPathModuleCentred,
        func_name: &str,
        cb_position: Option<i32>,
        test_gen_mode: &TestGenMode,
    ) -> (r: Result<Vec<FunctionArgument>, DFError>)
        requires
            self@.fs_strings.len() > 0,
            exists|i: int|
                0 <= i < mod_rep@.fns.len() && (#[trigger] mod_rep@.fns[i]).0.0 == APathV::RootV(
                    spec_js_var_name(mod_rep@.lib),
                ),
        ensures
            (match r {
                Result::Ok(args) => forall|i: int|
                    0 <= i < args@.len() ==> ((#[trigger] args@[i])@.arg_val is Some && (
                    args@[i]@.arg_type is CallbackType ==> args@[i]@.arg_val == Option::Some(
                        ArgValV::CallbackV(CallbackValV::VarV("cb"@)),
                    ))),
                Result::Err(_) => false,
            }),
    {
        let found = mod_rep.find_fn(acc_path, func_name);
        let mut sigs: Vec<(Vec<ArgType>, u64)> = Vec::new();
        let mut num_args: Option<usize> = Option::None;
        match found {
            Option::Some(idx) => {
                let mf = mod_rep.fn_at(idx);
                let mf_sigs = mf.get_sigs();
                let mut si: usize = 0;
                while si < mf_sigs.len()
                    invariant
                        si <= mf_sigs@.len(),
                    decreases mf_sigs@.len() - si,
                {
                    sigs.push((mf_sigs[si].get_abstract_sig(), INITIAL_WEIGHT));
                    si = si + 1;
                }
                num_args = mf.get_num_api_args();
            },
            Option::None => (),
        }
        let cur_sig = gen_new_sig_with_cb(num_args, &sigs, cb_position, self, test_gen_mode);
        let empty_ret_pool: Vec<ArgValAPTracked> = Vec::new();
        let empty_cb_pool: Vec<ArgVal> = Vec::new();
        let sig_args = cur_sig.get_arg_list();
        let mut args: Vec<FunctionArgument> = Vec::new();
        let mut i: usize = 0;
        while i < sig_args.len()
            invariant
                self@.fs_strings.len() > 0,
                exists|q: int|
                    0 <= q < mod_rep@.fns.len() && (#[trigger] mod_rep@.fns[q]).0.0
                        == APathV::RootV(spec_js_var_name(mod_rep@.lib)),
                empty_ret_pool@.len() == 0,
                empty_cb_pool@.len() == 0,
                i <= sig_args@.len(),
                args@.len() == i,
                forall|q: int|
                    0 <= q < i ==> ((#[trigger] args@[q])@.arg_val is Some && ((args@[q]@.arg_type
                        is CallbackType) ==> args@[q]@.arg_val == Option::Some(
                        ArgValV::CallbackV(CallbackValV::VarV("cb"@)),
                    ))),
            decreases sig_args@.len() - i,
        {
            let arg_type = sig_args[i].get_type();
            let val = match arg_type {
                ArgType::CallbackType => ArgVal::Callback(CallbackVal::Var("cb".to_owned())),
                _ => self.gen_random_value_of_type(
                    arg_type,
                    Option::Some(i),
                    &empty_ret_pool,
                    &empty_cb_pool,
                    mod_rep,
                    test_gen_mode,
                ),
            };
            let mut new_arg = FunctionArgument::new(arg_type, Option::None);
            let res = new_arg.set_arg_val(val);
            match res {
                Result::Ok(()) => (),
                Result::Err(e) => {
                    // generated values always fit their declared types
                    proof {
                        assert(false);
                    }
                    return Result::Err(DFError::TestGenError(e));
                },
            }
            args.push(new_arg);
            i = i + 1;
        }
        Result::Ok(args)
    }
}

} // verus!
