//! Representation and use of mined data, the seed corpus that biases the
//! generator toward realistic API usage patterns.

use crate::errors::DFError;
use crate::functions::{
    ArgType, ArgVal, ArgValV, FunctionArgument, FunctionArgumentV, FunctionSignature,
    FunctionSignatureV,
};
use crate::module_reps::{APathV, AccessPathModuleCentred, FieldNameType, FieldNameTypeV};
use crate::strutil::{
    spec_is_digit, spec_parse_decimal, str_eq, str_to_chars, parse_decimal_chars,
    range_all_digits,
};
use crate::tests::FunctionCall;
use vstd::prelude::*;

verus! {

/// A mined nesting pair: one real-world example of a call to `inner_fct`
/// inside a callback argument of `outer_fct`, with the shapes of both
/// argument lists.
#[derive(Debug)]
pub struct MinedNestingPairJSON {
    /// Name of the module the outer function belongs to.
    pub outer_pkg: String,
    /// Name of the outer function.
    pub outer_fct: String,
    /// Arguments to the outer function.
    pub outer_params: Vec<MinedParam>,
    /// Name of the module the inner function belongs to.
    pub inner_pkg: String,
    /// Name of the inner function.
    pub inner_fct: String,
    /// Arguments to the inner function.
    pub inner_params: Vec<MinedParam>,
}

/// An argument in a mined function nesting: exactly one of an identifier, a
/// callback marker, or an object marker.
#[derive(Debug)]
pub struct MinedParam {
    /// Non-callback, non-object argument: the parameter name. Dataflow from
    /// outer to inner arguments is carried by names like `outer_arg_0`.
    pub ident: Option<String>,
    /// Callback argument marker.
    pub callback: Option<String>,
    /// Object argument marker.
    pub object: Option<String>,
}

/// Mathematical view of a mined parameter.
#[verifier::ext_equal]
pub struct MinedParamV {
    pub ident: Option<Seq<char>>,
    pub callback: Option<Seq<char>>,
    pub object: Option<Seq<char>>,
}

impl View for MinedParam {
    type V = MinedParamV;

    open spec fn view(&self) -> MinedParamV {
        MinedParamV {
            ident: crate::functions::view_opt_string(self.ident),
            callback: crate::functions::view_opt_string(self.callback),
            object: crate::functions::view_opt_string(self.object),
        }
    }
}

impl Clone for MinedParam {
    /// Cloning preserves the view.
    fn clone(&self) -> (res: Self)
        ensures
            res@ == self@,
    {
        let r = MinedParam {
            ident: match &self.ident {
                Option::Some(s) => Option::Some(s.clone()),
                Option::None => Option::None,
            },
            callback: match &self.callback {
                Option::Some(s) => Option::Some(s.clone()),
                Option::None => Option::None,
            },
            object: match &self.object {
                Option::Some(s) => Option::Some(s.clone()),
                Option::None => Option::None,
            },
        };
        assert(r@ =~= self@);
        r
    }
}

impl MinedParamV {
    /// A parameter is valid when it is exactly one of the three forms.
    pub open spec fn is_valid(self) -> bool {
        match (self.ident, self.callback, self.object) {
            (Option::Some(_), Option::None, Option::None) => true,
            (Option::None, Option::Some(_), Option::None) => true,
            (Option::None, Option::None, Option::Some(_)) => true,
            _ => false,
        }
    }

    /// The argument type a valid parameter denotes: callbacks and objects as
    /// themselves, identifiers as `any`.
    pub open spec fn arg_type(self) -> ArgType {
        if self.callback is Some {
            ArgType::CallbackType
        } else if self.object is Some {
            ArgType::ObjectType
        } else {
            ArgType::AnyType
        }
    }
}

impl MinedParam {
    /// Is this parameter exactly one of: a callback, an object, an identifier?
    pub fn is_valid(&self) -> (r: bool)
        ensures
            r == self@.is_valid(),
    {
        match (&self.ident, &self.callback, &self.object) {
            (Option::Some(_), Option::None, Option::None) => true,
            (Option::None, Option::Some(_), Option::None) => true,
            (Option::None, Option::None, Option::Some(_)) => true,
            _ => false,
        }
    }

    /// Is this parameter a callback?
    pub fn is_callback(&self) -> (r: bool)
        ensures
            r == (self@.is_valid() && self@.callback is Some),
    {
        self.is_valid() && matches!(&self.callback, Option::Some(_))
    }

    /// The argument type of this mined parameter; an error if it is invalid.
    pub fn get_arg_type(&self) -> (r: Result<ArgType, DFError>)
        ensures
            self@.is_valid() ==> r == Result::<ArgType, DFError>::Ok(self@.arg_type()),
            !self@.is_valid() ==> r is Err,
    {
        if !self.is_valid() {
            return Result::Err(DFError::InvalidMinedData(self.describe()));
        }
        Result::Ok(
            if matches!(&self.callback, Option::Some(_)) {
                ArgType::CallbackType
            } else if matches!(&self.object, Option::Some(_)) {
                ArgType::ObjectType
            } else {
                ArgType::AnyType
            },
        )
    }

    /// A short description of the parameter, for error messages.
    pub fn describe(&self) -> (r: String) {
        let mut r = String::new();
        r.append("ident: ");
        match &self.ident {
            Option::Some(s) => r.append(s.as_str()),
            Option::None => r.append("-"),
        }
        r.append(", object: ");
        match &self.object {
            Option::Some(s) => r.append(s.as_str()),
            Option::None => r.append("-"),
        }
        r.append(", callback: ");
        match &self.callback {
            Option::Some(s) => r.append(s.as_str()),
            Option::None => r.append("-"),
        }
        r
    }
}

/// A string with its quote characters removed.
pub open spec fn spec_strip_quotes(s: Seq<char>) -> Seq<char>
    decreases s.len(),
{
    if s.len() == 0 {
        Seq::empty()
    } else {
        spec_strip_quotes(s.drop_last()) + (if s.last() == '"' {
            Seq::<char>::empty()
        } else {
            seq![s.last()]
        })
    }
}

/// Remove every quote character from a string.
pub fn strip_quotes(s: &str) -> (r: String)
    ensures
        r@ == spec_strip_quotes(s@),
{
    let chars = str_to_chars(s);
    let mut r = String::new();
    let mut i: usize = 0;
    assert(r@ =~= spec_strip_quotes(chars@.take(0)));
    while i < chars.len()
        invariant
            chars@ == s@,
            i <= chars@.len(),
            r@ == spec_strip_quotes(chars@.take(i as int)),
        decreases chars@.len() - i,
    {
        let c: char = chars[i];
        if c != '"' {
            crate::module_reps::string_push_char(&mut r, c);
        }
        proof {
            assert(chars@.take(i + 1).drop_last() =~= chars@.take(i as int));
            assert(chars@.take(i + 1).last() == chars@[i as int]);
            if c == '"' {
                assert(r@ =~= spec_strip_quotes(chars@.take(i + 1)));
            } else {
                assert(r@ =~= spec_strip_quotes(chars@.take(i + 1)));
            }
        }
        i = i + 1;
    }
    assert(chars@.take(chars@.len() as int) =~= s@);
    r
}

impl MinedNestingPairJSON {
    /// The outer package name, with the quotes the mining left around it
    /// removed.
    pub fn get_outer_pkg(&self) -> (r: String)
        ensures
            r@ == spec_strip_quotes(self.outer_pkg@),
    {
        strip_quotes(self.outer_pkg.as_str())
    }

    /// The inner package name, with the quotes removed.
    pub fn get_inner_pkg(&self) -> (r: String)
        ensures
            r@ == spec_strip_quotes(self.inner_pkg@),
    {
        strip_quotes(self.inner_pkg.as_str())
    }

    /// The position of the first callback in the outer argument list, if any.
    pub fn get_outer_first_cb_arg_position(&self) -> (r: Option<usize>)
        ensures
            match r {
                Option::Some(p) => p < self.outer_params@.len()
                    && self.outer_params@[p as int]@.is_valid()
                    && self.outer_params@[p as int]@.callback is Some && forall|k: int|
                    0 <= k < p ==> !((#[trigger] self.outer_params@[k]@).is_valid()
                        && self.outer_params@[k]@.callback is Some),
                Option::None => forall|k: int|
                    0 <= k < self.outer_params@.len() ==> !((
                    #[trigger] self.outer_params@[k]@).is_valid()
                        && self.outer_params@[k]@.callback is Some),
            },
    {
        let mut pos: usize = 0;
        while pos < self.outer_params.len()
            invariant
                pos <= self.outer_params@.len(),
                forall|k: int|
                    0 <= k < pos ==> !((#[trigger] self.outer_params@[k]@).is_valid()
                        && self.outer_params@[k]@.callback is Some),
            decreases self.outer_params@.len() - pos,
        {
            if self.outer_params[pos].is_callback() {
                return Option::Some(pos);
            }
            pos = pos + 1;
        }
        Option::None
    }

    /// Group a list of mined pairs by the package of their outer function:
    /// one bucket per distinct package in first-appearance order, each
    /// holding exactly the pairs of that package in input order.
    pub fn lib_map_from_list(all_pairs: Vec<MinedNestingPairJSON>) -> (r: Vec<
        (String, Vec<MinedNestingPairJSON>),
    >)
        ensures
            r@.len() == spec_pair_keys(all_pairs@, all_pairs@.len() as int).len(),
            forall|k: int|
                0 <= k < r@.len() ==> (#[trigger] r@[k]).0@ == spec_pair_keys(
                    all_pairs@,
                    all_pairs@.len() as int,
                )[k] && r@[k].1@ == spec_pair_bucket(
                    all_pairs@,
                    r@[k].0@,
                    all_pairs@.len() as int,
                ),
    {
        let mut r: Vec<(String, Vec<MinedNestingPairJSON>)> = Vec::new();
        let mut pairs = all_pairs;
        let ghost all = all_pairs@;
        let ghost mut i: int = 0;
        loop
            invariant
                all == all_pairs@,
                0 <= i <= all.len(),
                pairs@ =~= all.skip(i),
                r@.len() == spec_pair_keys(all, i).len(),
                forall|k: int|
                    0 <= k < r@.len() ==> (#[trigger] r@[k]).0@ == spec_pair_keys(all, i)[k]
                        && r@[k].1@ == spec_pair_bucket(all, r@[k].0@, i),
            decreases pairs@.len(),
        {
            if pairs.len() == 0 {
                proof {
                    assert(i == all.len());
                }
                return r;
            }
            let pair = pairs.remove(0);
            proof {
                assert(pair == all[i]);
                assert(pairs@ =~= all.skip(i + 1));
            }
            let key = pair.get_outer_pkg();
            let found = find_bucket(&r, key.as_str());
            let ghost keys_now = spec_pair_keys(all, i);
            match found {
                Option::Some(idx) => {
                    proof {
                        assert(r@[idx as int].0@ == key@);
                        assert(keys_now.contains(key@));
                        assert(spec_pair_keys(all, i + 1) =~= keys_now);
                    }
                    let ghost old_r = r@;
                    r[idx].1.push(pair);
                    proof {
                        assert forall|k: int|
                            0 <= k < r@.len() implies (#[trigger] r@[k]).0@ == spec_pair_keys(
                            all,
                            i + 1,
                        )[k] && r@[k].1@ == spec_pair_bucket(all, r@[k].0@, i + 1) by {
                            assert(r@[k].0 == old_r[k].0);
                            if k == idx {
                                assert(r@[k].1@ =~= old_r[k].1@.push(all[i]));
                                assert(spec_pair_bucket(all, r@[k].0@, i + 1)
                                    =~= spec_pair_bucket(all, r@[k].0@, i).push(all[i]));
                            } else {
                                assert(r@[k].1@ == old_r[k].1@);
                                assert(r@[k].0@ != key@) by {
                                    if r@[k].0@ == key@ {
                                        assert(old_r[k].0@ == old_r[idx as int].0@);
                                        assert(spec_pair_keys(all, i)[k] == spec_pair_keys(
                                            all,
                                            i,
                                        )[idx as int]);
                                        lemma_pair_keys_unique(all, i);
                                    }
                                }
                                assert(spec_pair_bucket(all, r@[k].0@, i + 1) =~= spec_pair_bucket(
                                    all,
                                    r@[k].0@,
                                    i,
                                ));
                            }
                        }
                    }
                },
                Option::None => {
                    proof {
                        assert forall|m: int| 0 <= m < keys_now.len() implies keys_now[m]
                            != key@ by {
                            assert(r@[m].0@ == keys_now[m]);
                        }
                        assert(!keys_now.contains(key@));
                        assert(spec_pair_keys(all, i + 1) =~= keys_now.push(key@));
                        lemma_pair_bucket_empty(all, key@, i);
                    }
                    let ghost old_r = r@;
                    let mut bucket: Vec<MinedNestingPairJSON> = Vec::new();
                    bucket.push(pair);
                    r.push((key, bucket));
                    proof {
                        assert forall|k: int|
                            0 <= k < r@.len() implies (#[trigger] r@[k]).0@ == spec_pair_keys(
                            all,
                            i + 1,
                        )[k] && r@[k].1@ == spec_pair_bucket(all, r@[k].0@, i + 1) by {
                            if k < old_r.len() {
                                assert(r@[k] == old_r[k]);
                                assert(r@[k].0@ != key@) by {
                                    if r@[k].0@ == key@ {
                                        assert(keys_now[k] == key@);
                                        assert(keys_now.contains(key@));
                                    }
                                }
                                assert(spec_pair_bucket(all, r@[k].0@, i + 1) =~= spec_pair_bucket(
                                    all,
                                    r@[k].0@,
                                    i,
                                ));
                            } else {
                                assert(r@[k].0@ == key@);
                                assert(spec_pair_bucket(all, key@, i + 1) =~= spec_pair_bucket(
                                    all,
                                    key@,
                                    i,
                                ).push(all[i]));
                                assert(r@[k].1@ =~= seq![all[i]]);
                            }
                        }
                    }
                },
            }
            proof {
                i = i + 1;
            }
        }
    }
}

/// The distinct outer-package keys among the first `n` mined pairs, in
/// first-appearance order.
pub open spec fn spec_pair_keys(pairs: Seq<MinedNestingPairJSON>, n: int) -> Seq<Seq<char>>
    decreases n,
{
    if n <= 0 {
        Seq::empty()
    } else {
        let prev = spec_pair_keys(pairs, n - 1);
        let key = spec_strip_quotes(pairs[n - 1].outer_pkg@);
        if prev.contains(key) {
            prev
        } else {
            prev.push(key)
        }
    }
}

/// The pairs among the first `n` whose outer package is `key`, in order.
pub open spec fn spec_pair_bucket(
    pairs: Seq<MinedNestingPairJSON>,
    key: Seq<char>,
    n: int,
) -> Seq<MinedNestingPairJSON>
    decreases n,
{
    if n <= 0 {
        Seq::empty()
    } else {
        let prev = spec_pair_bucket(pairs, key, n - 1);
        if spec_strip_quotes(pairs[n - 1].outer_pkg@) == key {
            prev.push(pairs[n - 1])
        } else {
            prev
        }
    }
}

/// The key list never repeats a key.
proof fn lemma_pair_keys_unique(pairs: Seq<MinedNestingPairJSON>, n: int)
    ensures
        forall|a: int, b: int|
            0 <= a < b < spec_pair_keys(pairs, n).len() ==> (#[trigger] spec_pair_keys(pairs, n)[
            a]) != (#[trigger] spec_pair_keys(pairs, n)[b]),
    decreases n,
{
    if n > 0 {
        lemma_pair_keys_unique(pairs, n - 1);
        let prev = spec_pair_keys(pairs, n - 1);
        let key = spec_strip_quotes(pairs[n - 1].outer_pkg@);
        if !prev.contains(key) {
            assert forall|a: int, b: int|
                0 <= a < b < spec_pair_keys(pairs, n).len() implies (#[trigger] spec_pair_keys(
                pairs,
                n,
            )[a]) != (#[trigger] spec_pair_keys(pairs, n)[b]) by {
                if b == prev.len() {
                    assert(spec_pair_keys(pairs, n)[a] == prev[a]);
                    if prev[a] == key {
                        assert(prev.contains(key));
                    }
                } else {
                    assert(spec_pair_keys(pairs, n)[a] == prev[a]);
                    assert(spec_pair_keys(pairs, n)[b] == prev[b]);
                }
            }
        }
    }
}

/// A key that has not appeared among the first `n` pairs has an empty bucket.
proof fn lemma_pair_bucket_empty(pairs: Seq<MinedNestingPairJSON>, key: Seq<char>, n: int)
    requires
        !spec_pair_keys(pairs, n).contains(key),
    ensures
        spec_pair_bucket(pairs, key, n) =~= Seq::<MinedNestingPairJSON>::empty(),
    decreases n,
{
    if n > 0 {
        let prev = spec_pair_keys(pairs, n - 1);
        assert(!prev.contains(key)) by {
            if prev.contains(key) {
                let m = choose|m: int| 0 <= m < prev.len() && prev[m] == key;
                let cur = spec_pair_keys(pairs, n);
                assert(cur[m] == prev[m]);
                assert(cur.contains(key));
            }
        }
        lemma_pair_bucket_empty(pairs, key, n - 1);
        assert(spec_strip_quotes(pairs[n - 1].outer_pkg@) != key) by {
            if spec_strip_quotes(pairs[n - 1].outer_pkg@) == key {
                let cur = spec_pair_keys(pairs, n);
                assert(cur =~= prev.push(key));
                assert(cur[cur.len() - 1] == key);
                assert(cur.contains(key));
            }
        }
    }
}

/// The position of the bucket with the given key, if one exists.
fn find_bucket(r: &Vec<(String, Vec<MinedNestingPairJSON>)>, key: &str) -> (res: Option<usize>)
    ensures
        match res {
            Option::Some(i) => i < r@.len() && r@[i as int].0@ == key@,
            Option::None => forall|j: int| 0 <= j < r@.len() ==> (#[trigger] r@[j]).0@ != key@,
        },
{
    let mut i: usize = 0;
    while i < r.len()
        invariant
            i <= r@.len(),
            forall|j: int| 0 <= j < i ==> (#[trigger] r@[j]).0@ != key@,
        decreases r@.len() - i,
    {
        let (k, _) = &r[i];
        if str_eq(k.as_str(), key) {
            return Option::Some(i);
        }
        i = i + 1;
    }
    Option::None
}

/// A generated inner call proposed from a mined nesting pair: the inner
/// function's name and signature, and the dataflow from outer callback
/// arguments into inner argument positions.
#[derive(Debug)]
pub struct MinedDataNestedExtension {
    /// Name of the inner function.
    pub fct_name: String,
    /// Signature of the inner function.
    pub sig: FunctionSignature,
    /// Pairs of (outer callback argument position, inner argument position).
    pub outer_to_inner_dataflow: Vec<(usize, usize)>,
}

/// Build a signature from mined parameters: each parameter contributes its
/// denoted type, with no value; an error if any parameter is invalid.
pub fn sig_from_mined_params(params: &Vec<MinedParam>) -> (r: Result<FunctionSignature, DFError>)
    ensures
        (forall|i: int| 0 <= i < params@.len() ==> (#[trigger] params@[i]@).is_valid()) <==> r
            is Ok,
        r matches Result::Ok(sig) ==> sig@.arg_list.len() == params@.len() && (forall|i: int|
            0 <= i < params@.len() ==> (#[trigger] sig@.arg_list[i]) == (FunctionArgumentV {
                arg_type: params@[i]@.arg_type(),
                arg_val: Option::None,
            })) && sig@.call_test_result is None && !sig@.is_spread_args,
{
    let mut arg_list: Vec<FunctionArgument> = Vec::new();
    let mut i: usize = 0;
    while i < params.len()
        invariant
            i <= params@.len(),
            arg_list@.len() == i,
            forall|j: int| 0 <= j < i ==> (#[trigger] params@[j]@).is_valid(),
            forall|j: int|
                0 <= j < i ==> (#[trigger] arg_list@[j]@) == (FunctionArgumentV {
                    arg_type: params@[j]@.arg_type(),
                    arg_val: Option::None,
                }),
        decreases params@.len() - i,
    {
        match params[i].get_arg_type() {
            Result::Ok(ty) => {
                arg_list.push(FunctionArgument::new(ty, Option::None));
            },
            Result::Err(e) => {
                return Result::Err(e);
            },
        }
        i = i + 1;
    }
    let sig = FunctionSignature::new(&arg_list, Option::None);
    proof {
        assert forall|k: int| 0 <= k < params@.len() implies sig@.arg_list[k]
            == (FunctionArgumentV {
            arg_type: params@[k]@.arg_type(),
            arg_val: Option::None,
        }) by {
            assert(sig@.arg_list[k] == arg_list@[k]@);
            assert(arg_list@[k]@ == (FunctionArgumentV {
                arg_type: params@[k]@.arg_type(),
                arg_val: Option::None,
            }));
        }
    }
    Result::Ok(sig)
}

/// The outer-argument position denoted by an identifier `outer_arg_<n>`, if
/// it has that shape.
pub open spec fn spec_outer_arg_pos(name: Seq<char>) -> Option<usize> {
    if name.len() > "outer_arg_"@.len() && name.subrange(0, "outer_arg_"@.len() as int)
        == "outer_arg_"@ && (forall|k: int|
        "outer_arg_"@.len() <= k < name.len() ==> spec_is_digit(#[trigger] name[k]))
        && spec_parse_decimal(name.subrange("outer_arg_"@.len() as int, name.len() as int))
        <= usize::MAX {
        Option::Some(
            spec_parse_decimal(
                name.subrange("outer_arg_"@.len() as int, name.len() as int),
            ) as usize,
        )
    } else {
        Option::None
    }
}

/// Parse an identifier of the shape `outer_arg_<n>` into the position `n`.
pub fn parse_outer_arg_pos(name: &str) -> (r: Option<usize>)
    ensures
        r == spec_outer_arg_pos(name@),
{
    proof {
        reveal_strlit("outer_arg_");
    }
    let chars = str_to_chars(name);
    let n = chars.len();
    if n <= 10 || !crate::strutil::range_starts_with(&chars, 0, n, "outer_arg_") {
        proof {
            if n > 10 {
                assert(chars@.subrange(0, n as int) =~= chars@);
            }
        }
        return Option::None;
    }
    assert(chars@.subrange(0, n as int) =~= name@);
    assert(name@.subrange(0, 10) == "outer_arg_"@);
    if !range_all_digits(&chars, 10, n) {
        return Option::None;
    }
    match parse_decimal_chars(&chars, 10, n) {
        Option::Some(v) => {
            assert(chars@.subrange(10, n as int) =~= name@.subrange(10, name@.len() as int));
            Option::Some(v)
        },
        Option::None => {
            assert(chars@.subrange(10, n as int) =~= name@.subrange(10, name@.len() as int));
            Option::None
        },
    }
}

/// Does a mined pair match the outer call being extended? The packages (outer
/// and inner) must both be the library, the outer function name must match,
/// and the outer argument count must agree.
pub open spec fn spec_pair_matches(
    pair: MinedNestingPairJSON,
    pkg_name: Seq<char>,
    outer_name: Seq<char>,
    outer_arg_len: nat,
) -> bool {
    &&& spec_strip_quotes(pair.outer_pkg@) == pkg_name
    &&& spec_strip_quotes(pair.inner_pkg@) == pkg_name
    &&& pair.outer_fct@ == outer_name
    &&& pair.outer_params@.len() == outer_arg_len
    &&& (forall|i: int| 0 <= i < pair.inner_params@.len() ==> (#[trigger] pair.inner_params@[i]@)
        .is_valid())
}

/// The outer-to-inner dataflow a mined pair's inner parameters denote: one
/// entry per identifier of the shape `outer_arg_<n>`, in position order.
pub open spec fn spec_pair_dataflow(params: Seq<MinedParam>) -> Seq<(usize, usize)>
    decreases params.len(),
{
    if params.len() == 0 {
        Seq::empty()
    } else {
        spec_pair_dataflow(params.drop_last()) + (match params.last()@.ident {
            Option::Some(name) => match spec_outer_arg_pos(name) {
                Option::Some(o) => seq![(o, (params.len() - 1) as usize)],
                Option::None => Seq::empty(),
            },
            Option::None => Seq::empty(),
        })
    }
}

/// The indices, in order, of the mined pairs below `n` that match the outer
/// call.
pub open spec fn spec_match_idxs(
    mined: Seq<MinedNestingPairJSON>,
    pkg: Seq<char>,
    outer_name: Seq<char>,
    outer_arity: nat,
    n: int,
) -> Seq<int>
    decreases n,
{
    if n <= 0 {
        Seq::empty()
    } else {
        spec_match_idxs(mined, pkg, outer_name, outer_arity, n - 1) + (if spec_pair_matches(
            mined[n - 1],
            pkg,
            outer_name,
            outer_arity,
        ) {
            seq![n - 1]
        } else {
            Seq::empty()
        })
    }
}

/// Every index `spec_match_idxs` lists is in range and names a matching pair.
pub proof fn lemma_match_idxs_props(
    mined: Seq<MinedNestingPairJSON>,
    pkg: Seq<char>,
    outer_name: Seq<char>,
    outer_arity: nat,
    n: int,
)
    requires
        0 <= n <= mined.len(),
    ensures
        forall|k: int|
            0 <= k < spec_match_idxs(mined, pkg, outer_name, outer_arity, n).len() ==> 0 <= (
            #[trigger] spec_match_idxs(mined, pkg, outer_name, outer_arity, n)[k]) < n
                && spec_pair_matches(
                mined[spec_match_idxs(mined, pkg, outer_name, outer_arity, n)[k]],
                pkg,
                outer_name,
                outer_arity,
            ),
    decreases n,
{
    if n > 0 {
        lemma_match_idxs_props(mined, pkg, outer_name, outer_arity, n - 1);
        let prev = spec_match_idxs(mined, pkg, outer_name, outer_arity, n - 1);
        let cur = spec_match_idxs(mined, pkg, outer_name, outer_arity, n);
        assert forall|k: int|
            0 <= k < cur.len() implies 0 <= (#[trigger] cur[k]) < n && spec_pair_matches(
            mined[cur[k]],
            pkg,
            outer_name,
            outer_arity,
        ) by {
            if k < prev.len() {
                assert(cur[k] == prev[k]);
            }
        }
    }
}

/// Is `ext` the extension the mined pair denotes: the inner function's name,
/// a fresh valueless signature of the mined parameter types, and the mined
/// dataflow?
pub open spec fn spec_ext_of_pair(pair: MinedNestingPairJSON, ext: MinedDataNestedExtension) -> bool {
    &&& ext.fct_name@ == pair.inner_fct@
    &&& ext.sig@.arg_list.len() == pair.inner_params@.len()
    &&& (forall|i: int|
        0 <= i < pair.inner_params@.len() ==> (#[trigger] ext.sig@.arg_list[i]) == (
        crate::functions::FunctionArgumentV {
            arg_type: pair.inner_params@[i]@.arg_type(),
            arg_val: Option::None,
        }))
    &&& ext.sig@.call_test_result is None
    &&& !ext.sig@.is_spread_args
    &&& ext.outer_to_inner_dataflow@ == spec_pair_dataflow(pair.inner_params@)
}

/// From the mined pairs, the nested extensions that can extend the given
/// outer call: exactly one extension per matching pair (outer and inner
/// package both the library's, the outer name and arity agreeing, every
/// mined parameter valid), in corpus order; each carries the inner
/// function's name, a signature of the mined parameter types, and the
/// dataflow read off identifiers of the shape `outer_arg_<n>`. An outer call
/// without a callback argument (or none at all) matches nothing.
pub fn get_rel_mined_data_nested_extensions(
    outer_fct: Option<&FunctionCall>,
    pkg_name: &String,
    mined_data: &Vec<MinedNestingPairJSON>,
) -> (r: Vec<MinedDataNestedExtension>)
    ensures
        outer_fct is None ==> r@.len() == 0,
        outer_fct matches Option::Some(outer) ==> {
            let idxs = spec_match_idxs(
                mined_data@,
                pkg_name@,
                outer@.name,
                outer@.sig.arg_list.len(),
                mined_data@.len() as int,
            );
            if exists|i: int|
                0 <= i < outer@.sig.arg_list.len() && (#[trigger] outer@.sig.arg_list[i].arg_type)
                    is CallbackType {
                r@.len() == idxs.len() && forall|k: int|
                    0 <= k < idxs.len() ==> spec_ext_of_pair(
                        mined_data@[idxs[k]],
                        #[trigger] r@[k],
                    )
            } else {
                r@.len() == 0
            }
        },
{
    let mut r: Vec<MinedDataNestedExtension> = Vec::new();
    let outer = match outer_fct {
        Option::Some(f) => f,
        Option::None => {
            return r;
        },
    };
    if !outer.get_sig().has_cb_arg() {
        return r;
    }
    let outer_arg_len = outer.get_sig().num_args();
    let mut j: usize = 0;
    while j < mined_data.len()
        invariant
            j <= mined_data@.len(),
            outer_arg_len == outer@.sig.arg_list.len(),
            ({
                let idxs = spec_match_idxs(
                    mined_data@,
                    pkg_name@,
                    outer@.name,
                    outer_arg_len as nat,
                    j as int,
                );
                r@.len() == idxs.len() && forall|k: int|
                    0 <= k < idxs.len() ==> spec_ext_of_pair(
                        mined_data@[idxs[k]],
                        #[trigger] r@[k],
                    )
            }),
        decreases mined_data@.len() - j,
    {
        let pair = &mined_data[j];
        let outer_pkg = pair.get_outer_pkg();
        let inner_pkg = pair.get_inner_pkg();
        let pkgs_match = str_eq(outer_pkg.as_str(), pkg_name.as_str()) && str_eq(
            inner_pkg.as_str(),
            pkg_name.as_str(),
        );
        let name_match = str_eq(pair.outer_fct.as_str(), outer.get_name());
        let len_match = pair.outer_params.len() == outer_arg_len;
        let ghost idxs_before = spec_match_idxs(
            mined_data@,
            pkg_name@,
            outer@.name,
            outer_arg_len as nat,
            j as int,
        );
        if pkgs_match && name_match && len_match {
            match sig_from_mined_params(&pair.inner_params) {
                Result::Ok(inner_sig) => {
                    // read the dataflow off the inner parameter identifiers
                    let mut dataflow: Vec<(usize, usize)> = Vec::new();
                    let mut pos: usize = 0;
                    assert(dataflow@ =~= spec_pair_dataflow(pair.inner_params@.take(0)));
                    while pos < pair.inner_params.len()
                        invariant
                            pos <= pair.inner_params@.len(),
                            *pair == mined_data@[j as int],
                            dataflow@ == spec_pair_dataflow(pair.inner_params@.take(pos as int)),
                        decreases pair.inner_params@.len() - pos,
                    {
                        match &pair.inner_params[pos].ident {
                            Option::Some(var_name) => {
                                match parse_outer_arg_pos(var_name.as_str()) {
                                    Option::Some(outer_pos) => {
                                        dataflow.push((outer_pos, pos));
                                    },
                                    Option::None => (),
                                }
                            },
                            Option::None => (),
                        }
                        proof {
                            assert(pair.inner_params@.take(pos + 1).drop_last()
                                =~= pair.inner_params@.take(pos as int));
                            assert(pair.inner_params@.take(pos + 1).last()
                                == pair.inner_params@[pos as int]);
                            assert(dataflow@ =~= spec_pair_dataflow(
                                pair.inner_params@.take(pos + 1),
                            ));
                        }
                        pos = pos + 1;
                    }
                    proof {
                        assert(pair.inner_params@.take(pair.inner_params@.len() as int)
                            =~= pair.inner_params@);
                    }
                    let ext = MinedDataNestedExtension {
                        fct_name: pair.inner_fct.clone(),
                        sig: inner_sig,
                        outer_to_inner_dataflow: dataflow,
                    };
                    proof {
                        assert(spec_pair_matches(
                            mined_data@[j as int],
                            pkg_name@,
                            outer@.name,
                            outer_arg_len as nat,
                        ));
                        assert(spec_ext_of_pair(mined_data@[j as int], ext));
                    }
                    let ghost before = r@;
                    r.push(ext);
                    proof {
                        let idxs_after = spec_match_idxs(
                            mined_data@,
                            pkg_name@,
                            outer@.name,
                            outer_arg_len as nat,
                            j + 1,
                        );
                        assert(idxs_after =~= idxs_before + seq![j as int]);
                        assert forall|k: int| 0 <= k < idxs_after.len() implies spec_ext_of_pair(
                            mined_data@[idxs_after[k]],
                            #[trigger] r@[k],
                        ) by {
                            if k < before.len() {
                                assert(r@[k] == before[k]);
                                assert(idxs_after[k] == idxs_before[k]);
                            } else {
                                assert(idxs_after[k] == j as int);
                                assert(r@[k] == ext);
                            }
                        }
                    }
                },
                Result::Err(_) => {
                    proof {
                        assert(!spec_pair_matches(
                            mined_data@[j as int],
                            pkg_name@,
                            outer@.name,
                            outer_arg_len as nat,
                        ));
                        assert(spec_match_idxs(
                            mined_data@,
                            pkg_name@,
                            outer@.name,
                            outer_arg_len as nat,
                            j + 1,
                        ) =~= idxs_before);
                    }
                },
            }
        } else {
            proof {
                assert(spec_strip_quotes(mined_data@[j as int].outer_pkg@) == outer_pkg@);
                assert(spec_strip_quotes(mined_data@[j as int].inner_pkg@) == inner_pkg@);
                assert(!spec_pair_matches(
                    mined_data@[j as int],
                    pkg_name@,
                    outer@.name,
                    outer_arg_len as nat,
                ));
                assert(spec_match_idxs(
                    mined_data@,
                    pkg_name@,
                    outer@.name,
                    outer_arg_len as nat,
                    j + 1,
                ) =~= idxs_before);
            }
        }
        j = j + 1;
    }
    r
}

/// Every dataflow target position denoted by a parameter list is a valid
/// position in that list.
pub proof fn lemma_pair_dataflow_bounds(params: Seq<MinedParam>)
    ensures
        forall|d: int|
            0 <= d < spec_pair_dataflow(params).len() ==> (#[trigger] spec_pair_dataflow(params)[
            d]).1 < params.len(),
    decreases params.len(),
{
    if params.len() > 0 {
        lemma_pair_dataflow_bounds(params.drop_last());
        let prev = spec_pair_dataflow(params.drop_last());
        assert forall|d: int|
            0 <= d < spec_pair_dataflow(params).len() implies (#[trigger] spec_pair_dataflow(
            params,
        )[d]).1 < params.len() by {
            if d < prev.len() {
                assert(spec_pair_dataflow(params)[d] == prev[d]);
            }
        }
    }
}

/// Overwrite the arguments named by a mined dataflow: for each mined pair
/// `(outer, inner)`, if the outer callback has at least `outer + 1` in-scope
/// arguments, the inner call's argument at position `inner` becomes a direct
/// reference to the outer callback argument at position `outer`.
pub fn wire_outer_to_inner_dataflow(
    sig: &mut FunctionSignature,
    dataflow: &Vec<(usize, usize)>,
    outer_cb_args: &Vec<ArgVal>,
)
    requires
        forall|d: int|
            0 <= d < dataflow@.len() ==> (#[trigger] dataflow@[d]).1 < old(
                sig,
            )@.arg_list.len(),
    ensures
        final(sig)@.arg_list.len() == old(sig)@.arg_list.len(),
        final(sig)@.call_test_result == old(sig)@.call_test_result,
        final(sig)@.is_spread_args == old(sig)@.is_spread_args,
        forall|i: int|
            0 <= i < old(sig)@.arg_list.len() ==> #[trigger] final(sig)@.arg_list[i] == (
            if spec_last_flow(dataflow@, i, outer_cb_args@.len() as int) >= 0 {
                FunctionArgumentV {
                    arg_type: ArgType::AnyType,
                    arg_val: Option::Some(
                        outer_cb_args@[dataflow@[spec_last_flow(
                            dataflow@,
                            i,
                            outer_cb_args@.len() as int,
                        )].0 as int]@,
                    ),
                }
            } else {
                old(sig)@.arg_list[i]
            }),
{
    let mut d: usize = 0;
    while d < dataflow.len()
        invariant
            forall|k: int|
                0 <= k < dataflow@.len() ==> (#[trigger] dataflow@[k]).1 < old(
                    sig,
                )@.arg_list.len(),
            d <= dataflow@.len(),
            sig@.arg_list.len() == old(sig)@.arg_list.len(),
            sig@.call_test_result == old(sig)@.call_test_result,
            sig@.is_spread_args == old(sig)@.is_spread_args,
            forall|i: int|
                0 <= i < old(sig)@.arg_list.len() ==> #[trigger] sig@.arg_list[i] == (
                if spec_last_flow(dataflow@.take(d as int), i, outer_cb_args@.len() as int)
                    >= 0 {
                    FunctionArgumentV {
                        arg_type: ArgType::AnyType,
                        arg_val: Option::Some(
                            outer_cb_args@[dataflow@.take(d as int)[spec_last_flow(
                                dataflow@.take(d as int),
                                i,
                                outer_cb_args@.len() as int,
                            )].0 as int]@,
                        ),
                    }
                } else {
                    old(sig)@.arg_list[i]
                }),
        decreases dataflow@.len() - d,
    {
        let (outer_pos, inner_pos) = dataflow[d];
        if outer_pos < outer_cb_args.len() {
            let arg = FunctionArgument::new(
                ArgType::AnyType,
                Option::Some(outer_cb_args[outer_pos].clone()),
            );
            sig.set_arg_at(inner_pos, arg);
        }
        proof {
            let n_out = outer_cb_args@.len() as int;
            let pre = dataflow@.take(d as int);
            let cur = dataflow@.take(d + 1);
            assert(cur.drop_last() =~= pre);
            assert(cur.last() == dataflow@[d as int]);
            assert forall|i: int| 0 <= i < old(sig)@.arg_list.len() implies #[trigger] sig@
                .arg_list[i] == (if spec_last_flow(cur, i, n_out) >= 0 {
                FunctionArgumentV {
                    arg_type: ArgType::AnyType,
                    arg_val: Option::Some(
                        outer_cb_args@[cur[spec_last_flow(cur, i, n_out)].0 as int]@,
                    ),
                }
            } else {
                old(sig)@.arg_list[i]
            }) by {
                let ip = dataflow@[d as int].1 as int;
                let op = dataflow@[d as int].0;
                if ip == i && op < outer_cb_args@.len() {
                    assert(spec_last_flow(cur, i, n_out) == d);
                    assert(cur[d as int] == dataflow@[d as int]);
                } else {
                    assert(spec_last_flow(cur, i, n_out) == spec_last_flow(pre, i, n_out));
                    if spec_last_flow(pre, i, n_out) >= 0 {
                        lemma_last_flow_range(pre, i, n_out);
                        let lf = spec_last_flow(pre, i, n_out);
                        assert(cur[lf] == dataflow@[lf]);
                        assert(pre[lf] == dataflow@[lf]);
                    }
                }
            }
        }
        d = d + 1;
    }
    assert(dataflow@.take(dataflow@.len() as int) =~= dataflow@);
}

/// `spec_last_flow` is `-1` or a valid index.
pub proof fn lemma_last_flow_range(dataflow: Seq<(usize, usize)>, i: int, n_outer: int)
    ensures
        -1 <= spec_last_flow(dataflow, i, n_outer) < dataflow.len(),
    decreases dataflow.len(),
{
    if dataflow.len() > 0 {
        lemma_last_flow_range(dataflow.drop_last(), i, n_outer);
    }
}

/// Does the argument list carry the mined dataflow of `params` applied to
/// the outer callback's in-scope values: every position some flow writes
/// holds the flowed outer value, as an `any`-typed direct reference?
pub open spec fn spec_wired_args(
    args: Seq<FunctionArgumentV>,
    params: Seq<MinedParam>,
    outer_vals: Seq<ArgValV>,
) -> bool {
    forall|d: int|
        0 <= d < args.len() && spec_last_flow(
            spec_pair_dataflow(params),
            d,
            outer_vals.len() as int,
        ) >= 0 ==> #[trigger] args[d] == (FunctionArgumentV {
            arg_type: ArgType::AnyType,
            arg_val: Option::Some(
                outer_vals[spec_pair_dataflow(params)[spec_last_flow(
                    spec_pair_dataflow(params),
                    d,
                    outer_vals.len() as int,
                )].0 as int],
            ),
        })
}

/// At a non-negative `spec_last_flow` index, the flow writes argument `i`
/// from an outer position within bounds.
pub proof fn lemma_last_flow_hit(dataflow: Seq<(usize, usize)>, i: int, n_outer: int)
    requires
        spec_last_flow(dataflow, i, n_outer) >= 0,
    ensures
        spec_last_flow(dataflow, i, n_outer) < dataflow.len(),
        dataflow[spec_last_flow(dataflow, i, n_outer)].1 == i,
        dataflow[spec_last_flow(dataflow, i, n_outer)].0 < n_outer,
    decreases dataflow.len(),
{
    if dataflow.len() > 0 && !(dataflow.last().1 == i && dataflow.last().0 < n_outer) {
        lemma_last_flow_hit(dataflow.drop_last(), i, n_outer);
    }
}

/// The index of the last dataflow pair that writes argument `i` (with an
/// outer position within bounds), or `-1` if none does.
pub open spec fn spec_last_flow(dataflow: Seq<(usize, usize)>, i: int, n_outer: int) -> int
    decreases dataflow.len(),
{
    if dataflow.len() == 0 {
        -1
    } else if dataflow.last().1 == i && dataflow.last().0 < n_outer {
        dataflow.len() - 1
    } else {
        spec_last_flow(dataflow.drop_last(), i, n_outer)
    }
}

/// The serialized form of one mined API call: the package, the encoded access
/// path of the call, and two comma-joined parallel lists giving each
/// argument's statically known type and value.
#[derive(Debug)]
pub struct MinedAPICallJSON {
    /// Name of the module the function belongs to.
    pub pkg: String,
    /// Access path representation of the call.
    pub acc_path: String,
    /// Signature of the call, with types as statically available.
    pub sig_with_types: String,
    /// Signature of the call, with values as statically available.
    pub sig_with_values: String,
}

/// A mined API call, decoded: its package, access path, and per-position
/// argument types and values where they were statically known.
#[derive(Debug)]
pub struct MinedAPICall {
    /// Name of the module the function belongs to.
    pub pkg: String,
    /// Access path representation of the call.
    pub acc_path: AccessPathModuleCentred,
    /// Per-position argument types, where known.
    pub sig_with_types: Vec<Option<ArgType>>,
    /// Per-position argument values, where known.
    pub sig_with_values: Vec<Option<ArgVal>>,
}

/// Do a decoded type and value agree at one argument position? A value is
/// present only for object, string, number and array types, and has the
/// matching shape.
pub open spec fn spec_mined_pos_ok(t: Option<ArgType>, v: Option<ArgValV>) -> bool {
    match (t, v) {
        (Option::Some(ArgType::ObjectType), Option::Some(ArgValV::ObjectV(_))) => true,
        (Option::Some(ArgType::StringType), Option::Some(ArgValV::StringV(_))) => true,
        (Option::Some(ArgType::NumberType), Option::Some(ArgValV::NumberV(_))) => true,
        (Option::Some(ArgType::ArrayType), Option::Some(ArgValV::ArrayV(_))) => true,
        (Option::Some(ArgType::CallbackType), Option::None) => true,
        (Option::None, Option::None) => true,
        _ => false,
    }
}

impl MinedAPICall {
    /// The per-position argument types.
    pub fn get_sig_with_types(&self) -> (r: &Vec<Option<ArgType>>)
        ensures
            r == &self.sig_with_types,
    {
        &self.sig_with_types
    }

    /// The per-position argument values.
    pub fn get_sig_with_vals(&self) -> (r: &Vec<Option<ArgVal>>)
        ensures
            r == &self.sig_with_values,
    {
        &self.sig_with_values
    }

    /// The package name.
    pub fn get_pkg(&self) -> (r: String)
        ensures
            r@ == self.pkg@,
    {
        self.pkg.clone()
    }

    /// The access path of the call.
    pub fn get_acc_path(&self) -> (r: &AccessPathModuleCentred)
        ensures
            r@ == self.acc_path@,
    {
        &self.acc_path
    }

    /// The called function's name: the field name of a member access path,
    /// and empty for any other shape of path.
    pub fn get_fct_name(&self) -> (r: String)
        ensures
            match self.acc_path@ {
                APathV::FieldV(_, FieldNameTypeV::StringFieldV(n)) => r@ == n,
                _ => r@.len() == 0,
            },
    {
        match &self.acc_path {
            AccessPathModuleCentred::FieldAccPath(_, FieldNameType::StringField(fct_name)) => {
                fct_name.clone()
            },
            _ => String::new(),
        }
    }

    /// Decode a list of serialized mined calls: exactly one output per input
    /// whose access path decodes, in order; the comma-joined type and value
    /// lists are split and decoded position by position, up to the shorter
    /// list's length.
    pub fn from_json_reps(json_vec: Vec<MinedAPICallJSON>) -> (r: Vec<MinedAPICall>)
        ensures
            ({
                let idxs = spec_decodable_idxs(json_vec@, json_vec@.len() as int);
                r@.len() == idxs.len() && forall|e: int|
                    0 <= e < idxs.len() ==> spec_decoded_call(
                        json_vec@[idxs[e]],
                        #[trigger] r@[e],
                    )
            }),
            forall|e: int|
                0 <= e < r@.len() ==> (#[trigger] r@[e]).sig_with_types@.len()
                    == r@[e].sig_with_values@.len() && (forall|k: int|
                    0 <= k < r@[e].sig_with_types@.len() ==> spec_mined_pos_ok(
                        #[trigger] r@[e].sig_with_types@[k],
                        crate::tests::view_opt_arg_val(r@[e].sig_with_values@[k]),
                    )),
    {
        proof {
            reveal_strlit("Object");
            reveal_strlit("string");
            reveal_strlit("number");
            reveal_strlit("Array");
            reveal_strlit("_FUNCTION_");
            assert("Object"@.len() == 6);
            assert("string"@.len() == 6);
            assert("number"@.len() == 6);
            assert("Array"@.len() == 5);
            assert("_FUNCTION_"@.len() == 10);
        }
        let mut r: Vec<MinedAPICall> = Vec::new();
        let mut j: usize = 0;
        while j < json_vec.len()
            invariant
                j <= json_vec@.len(),
                r@.len() == spec_decodable_idxs(json_vec@, j as int).len(),
                forall|e: int|
                    0 <= e < spec_decodable_idxs(json_vec@, j as int).len()
                        ==> spec_decoded_call(
                        json_vec@[spec_decodable_idxs(json_vec@, j as int)[e]],
                        #[trigger] r@[e],
                    ),
                forall|e: int|
                    0 <= e < r@.len() ==> (#[trigger] r@[e]).sig_with_types@.len()
                        == r@[e].sig_with_values@.len() && (forall|k: int|
                        0 <= k < r@[e].sig_with_types@.len() ==> spec_mined_pos_ok(
                            #[trigger] r@[e].sig_with_types@[k],
                            crate::tests::view_opt_arg_val(r@[e].sig_with_values@[k]),
                        )),
            decreases json_vec@.len() - j,
        {
            let ghost idxs_now = spec_decodable_idxs(json_vec@, j as int);
            let api_call = &json_vec[j];
            match AccessPathModuleCentred::from_str(api_call.acc_path.as_str()) {
                Result::Ok(ap) => {
                    proof {
                        assert(spec_decodable_idxs(json_vec@, j + 1) =~= idxs_now.push(j as int));
                    }
                    let tys = split_commas(api_call.sig_with_types.as_str());
                    let vals = split_commas(api_call.sig_with_values.as_str());
                    let n = if tys.len() < vals.len() {
                        tys.len()
                    } else {
                        vals.len()
                    };
                    let ghost ts = spec_split_commas(json_vec@[j as int].sig_with_types@);
                    let ghost vs = spec_split_commas(json_vec@[j as int].sig_with_values@);
                    let mut sig_with_types: Vec<Option<ArgType>> = Vec::new();
                    let mut sig_with_values: Vec<Option<ArgVal>> = Vec::new();
                    let mut k: usize = 0;
                    while k < n
                        invariant
                            j < json_vec@.len(),
                            *api_call == json_vec@[j as int],
                            crate::module_reps::spec_decode_ap(json_vec@[j as int].acc_path@)
                                == Option::Some(ap@),
                            ts == spec_split_commas(json_vec@[j as int].sig_with_types@),
                            vs == spec_split_commas(json_vec@[j as int].sig_with_values@),
                            n <= tys@.len(),
                            n <= vals@.len(),
                            n == (if ts.len() < vs.len() {
                                ts.len()
                            } else {
                                vs.len()
                            }),
                            forall|m: int| 0 <= m < tys@.len() ==> #[trigger] tys@[m]@ == ts[m],
                            forall|m: int| 0 <= m < vals@.len() ==> #[trigger] vals@[m]@ == vs[m],
                            k <= n,
                            sig_with_types@.len() == k,
                            sig_with_values@.len() == k,
                            forall|m: int|
                                0 <= m < k ==> #[trigger] sig_with_types@[m] == spec_mined_ty(
                                    ts[m],
                                ),
                            forall|m: int|
                                0 <= m < k ==> crate::tests::view_opt_arg_val(
                                    #[trigger] sig_with_values@[m],
                                ) == spec_mined_val(spec_mined_ty(ts[m]), vs[m]),
                            forall|m: int|
                                0 <= m < k ==> spec_mined_pos_ok(
                                    #[trigger] sig_with_types@[m],
                                    crate::tests::view_opt_arg_val(sig_with_values@[m]),
                                ),
                        decreases n - k,
                    {
                        let ty: Option<ArgType> = if str_eq(tys[k].as_str(), "Object") {
                            Option::Some(ArgType::ObjectType)
                        } else if str_eq(tys[k].as_str(), "string") {
                            Option::Some(ArgType::StringType)
                        } else if str_eq(tys[k].as_str(), "number") {
                            Option::Some(ArgType::NumberType)
                        } else if str_eq(tys[k].as_str(), "Array") {
                            Option::Some(ArgType::ArrayType)
                        } else if str_eq(tys[k].as_str(), "_FUNCTION_") {
                            Option::Some(ArgType::CallbackType)
                        } else {
                            Option::None
                        };
                        proof {
                            assert(ty == spec_mined_ty(ts[k as int]));
                        }
                        let val: Option<ArgVal> = match &ty {
                            Option::Some(ArgType::ObjectType) => Option::Some(
                                ArgVal::Object(vals[k].clone()),
                            ),
                            Option::Some(ArgType::StringType) => Option::Some(
                                ArgVal::String(vals[k].clone()),
                            ),
                            Option::Some(ArgType::NumberType) => Option::Some(
                                ArgVal::Number(vals[k].clone()),
                            ),
                            Option::Some(ArgType::ArrayType) => Option::Some(
                                ArgVal::Array(vals[k].clone()),
                            ),
                            _ => Option::None,
                        };
                        proof {
                            assert(crate::tests::view_opt_arg_val(val) == spec_mined_val(
                                spec_mined_ty(ts[k as int]),
                                vs[k as int],
                            ));
                        }
                        sig_with_types.push(ty);
                        sig_with_values.push(val);
                        k = k + 1;
                    }
                    let call = MinedAPICall {
                        pkg: api_call.pkg.clone(),
                        acc_path: ap,
                        sig_with_types,
                        sig_with_values,
                    };
                    proof {
                        let ghost_n = (if ts.len() < vs.len() {
                            ts.len()
                        } else {
                            vs.len()
                        });
                        assert(call.pkg@ == json_vec@[j as int].pkg@);
                        assert(crate::module_reps::spec_decode_ap(
                            json_vec@[j as int].acc_path@,
                        ) == Option::Some(call.acc_path@));
                        assert(call.sig_with_types@.len() == ghost_n);
                        assert(call.sig_with_values@.len() == ghost_n);
                        assert(forall|m: int|
                            0 <= m < ghost_n ==> #[trigger] call.sig_with_types@[m]
                                == spec_mined_ty(ts[m]));
                        assert(forall|m: int|
                            0 <= m < ghost_n ==> crate::tests::view_opt_arg_val(
                                #[trigger] call.sig_with_values@[m],
                            ) == spec_mined_val(spec_mined_ty(ts[m]), vs[m]));
                        assert(spec_decoded_call(json_vec@[j as int], call));
                    }
                    let ghost pre = r@;
                    r.push(call);
                    proof {
                        assert forall|e: int|
                            0 <= e < spec_decodable_idxs(json_vec@, j + 1).len() implies
                            spec_decoded_call(
                            json_vec@[spec_decodable_idxs(json_vec@, j + 1)[e]],
                            #[trigger] r@[e],
                        ) by {
                            if e < pre.len() {
                                assert(r@[e] == pre[e]);
                                assert(spec_decodable_idxs(json_vec@, j + 1)[e] == idxs_now[e]);
                            } else {
                                assert(spec_decodable_idxs(json_vec@, j + 1)[e] == j as int);
                            }
                        }
                    }
                },
                Result::Err(_) => {
                    proof {
                        assert(spec_decodable_idxs(json_vec@, j + 1) =~= idxs_now);
                    }
                },
            }
            j = j + 1;
        }
        proof {
            assert(spec_decodable_idxs(json_vec@, json_vec@.len() as int) == spec_decodable_idxs(
                json_vec@,
                json_vec@.len() as int,
            ));
        }
        r
    }

    /// Group a list of mined calls by their package: one bucket per distinct
    /// package in first-appearance order, each holding exactly the calls of
    /// that package in input order.
    pub fn lib_map_from_list(all_calls: Vec<MinedAPICall>) -> (r: Vec<
        (String, Vec<MinedAPICall>),
    >)
        ensures
            r@.len() == spec_call_keys(all_calls@, all_calls@.len() as int).len(),
            forall|k: int|
                0 <= k < r@.len() ==> (#[trigger] r@[k]).0@ == spec_call_keys(
                    all_calls@,
                    all_calls@.len() as int,
                )[k] && r@[k].1@ == spec_call_bucket(
                    all_calls@,
                    r@[k].0@,
                    all_calls@.len() as int,
                ),
    {
        let mut r: Vec<(String, Vec<MinedAPICall>)> = Vec::new();
        let mut calls = all_calls;
        let ghost all = all_calls@;
        let ghost mut i: int = 0;
        loop
            invariant
                all == all_calls@,
                0 <= i <= all.len(),
                calls@ =~= all.skip(i),
                r@.len() == spec_call_keys(all, i).len(),
                forall|k: int|
                    0 <= k < r@.len() ==> (#[trigger] r@[k]).0@ == spec_call_keys(all, i)[k]
                        && r@[k].1@ == spec_call_bucket(all, r@[k].0@, i),
            decreases calls@.len(),
        {
            if calls.len() == 0 {
                proof {
                    assert(i == all.len());
                }
                return r;
            }
            let call = calls.remove(0);
            proof {
                assert(call == all[i]);
                assert(calls@ =~= all.skip(i + 1));
            }
            let key = call.get_pkg();
            let found = find_call_bucket(&r, key.as_str());
            let ghost keys_now = spec_call_keys(all, i);
            match found {
                Option::Some(idx) => {
                    proof {
                        assert(r@[idx as int].0@ == key@);
                        assert(keys_now.contains(key@));
                        assert(spec_call_keys(all, i + 1) =~= keys_now);
                    }
                    let ghost old_r = r@;
                    r[idx].1.push(call);
                    proof {
                        assert forall|k: int|
                            0 <= k < r@.len() implies (#[trigger] r@[k]).0@ == spec_call_keys(
                            all,
                            i + 1,
                        )[k] && r@[k].1@ == spec_call_bucket(all, r@[k].0@, i + 1) by {
                            assert(r@[k].0 == old_r[k].0);
                            if k == idx {
                                assert(r@[k].1@ =~= old_r[k].1@.push(all[i]));
                                assert(spec_call_bucket(all, r@[k].0@, i + 1)
                                    =~= spec_call_bucket(all, r@[k].0@, i).push(all[i]));
                            } else {
                                assert(r@[k].1@ == old_r[k].1@);
                                assert(r@[k].0@ != key@) by {
                                    if r@[k].0@ == key@ {
                                        assert(spec_call_keys(all, i)[k] == spec_call_keys(
                                            all,
                                            i,
                                        )[idx as int]);
                                        lemma_call_keys_unique(all, i);
                                    }
                                }
                                assert(spec_call_bucket(all, r@[k].0@, i + 1) =~= spec_call_bucket(
                                    all,
                                    r@[k].0@,
                                    i,
                                ));
                            }
                        }
                    }
                },
                Option::None => {
                    proof {
                        assert forall|m: int| 0 <= m < keys_now.len() implies keys_now[m]
                            != key@ by {
                            assert(r@[m].0@ == keys_now[m]);
                        }
                        assert(!keys_now.contains(key@));
                        assert(spec_call_keys(all, i + 1) =~= keys_now.push(key@));
                        lemma_call_bucket_empty(all, key@, i);
                    }
                    let ghost old_r = r@;
                    let mut bucket: Vec<MinedAPICall> = Vec::new();
                    bucket.push(call);
                    r.push((key, bucket));
                    proof {
                        assert forall|k: int|
                            0 <= k < r@.len() implies (#[trigger] r@[k]).0@ == spec_call_keys(
                            all,
                            i + 1,
                        )[k] && r@[k].1@ == spec_call_bucket(all, r@[k].0@, i + 1) by {
                            if k < old_r.len() {
                                assert(r@[k] == old_r[k]);
                                assert(r@[k].0@ != key@) by {
                                    if r@[k].0@ == key@ {
                                        assert(keys_now[k] == key@);
                                        assert(keys_now.contains(key@));
                                    }
                                }
                                assert(spec_call_bucket(all, r@[k].0@, i + 1) =~= spec_call_bucket(
                                    all,
                                    r@[k].0@,
                                    i,
                                ));
                            } else {
                                assert(r@[k].0@ == key@);
                                assert(spec_call_bucket(all, key@, i + 1) =~= spec_call_bucket(
                                    all,
                                    key@,
                                    i,
                                ).push(all[i]));
                                assert(r@[k].1@ =~= seq![all[i]]);
                            }
                        }
                    }
                },
            }
            proof {
                i = i + 1;
            }
        }
    }
}

/// The distinct package keys among the first `n` mined calls, in
/// first-appearance order.
pub open spec fn spec_call_keys(calls: Seq<MinedAPICall>, n: int) -> Seq<Seq<char>>
    decreases n,
{
    if n <= 0 {
        Seq::empty()
    } else {
        let prev = spec_call_keys(calls, n - 1);
        let key = calls[n - 1].pkg@;
        if prev.contains(key) {
            prev
        } else {
            prev.push(key)
        }
    }
}

/// The calls among the first `n` whose package is `key`, in order.
pub open spec fn spec_call_bucket(
    calls: Seq<MinedAPICall>,
    key: Seq<char>,
    n: int,
) -> Seq<MinedAPICall>
    decreases n,
{
    if n <= 0 {
        Seq::empty()
    } else {
        let prev = spec_call_bucket(calls, key, n - 1);
        if calls[n - 1].pkg@ == key {
            prev.push(calls[n - 1])
        } else {
            prev
        }
    }
}

/// The call key list never repeats a key.
proof fn lemma_call_keys_unique(calls: Seq<MinedAPICall>, n: int)
    ensures
        forall|a: int, b: int|
            0 <= a < b < spec_call_keys(calls, n).len() ==> (#[trigger] spec_call_keys(calls, n)[
            a]) != (#[trigger] spec_call_keys(calls, n)[b]),
    decreases n,
{
    if n > 0 {
        lemma_call_keys_unique(calls, n - 1);
        let prev = spec_call_keys(calls, n - 1);
        let key = calls[n - 1].pkg@;
        if !prev.contains(key) {
            assert forall|a: int, b: int|
                0 <= a < b < spec_call_keys(calls, n).len() implies (#[trigger] spec_call_keys(
                calls,
                n,
            )[a]) != (#[trigger] spec_call_keys(calls, n)[b]) by {
                if b == prev.len() {
                    assert(spec_call_keys(calls, n)[a] == prev[a]);
                    if prev[a] == key {
                        assert(prev.contains(key));
                    }
                } else {
                    assert(spec_call_keys(calls, n)[a] == prev[a]);
                    assert(spec_call_keys(calls, n)[b] == prev[b]);
                }
            }
        }
    }
}

/// A package that has not appeared among the first `n` calls has an empty
/// bucket.
proof fn lemma_call_bucket_empty(calls: Seq<MinedAPICall>, key: Seq<char>, n: int)
    requires
        !spec_call_keys(calls, n).contains(key),
    ensures
        spec_call_bucket(calls, key, n) =~= Seq::<MinedAPICall>::empty(),
    decreases n,
{
    if n > 0 {
        let prev = spec_call_keys(calls, n - 1);
        assert(!prev.contains(key)) by {
            if prev.contains(key) {
                let m = choose|m: int| 0 <= m < prev.len() && prev[m] == key;
                let cur = spec_call_keys(calls, n);
                assert(cur[m] == prev[m]);
                assert(cur.contains(key));
            }
        }
        lemma_call_bucket_empty(calls, key, n - 1);
        assert(calls[n - 1].pkg@ != key) by {
            if calls[n - 1].pkg@ == key {
                let cur = spec_call_keys(calls, n);
                assert(cur =~= prev.push(key));
                assert(cur[cur.len() - 1] == key);
                assert(cur.contains(key));
            }
        }
    }
}

/// The position of the bucket of mined calls with the given key, if any.
fn find_call_bucket(r: &Vec<(String, Vec<MinedAPICall>)>, key: &str) -> (res: Option<usize>)
    ensures
        match res {
            Option::Some(i) => i < r@.len() && r@[i as int].0@ == key@,
            Option::None => forall|j: int| 0 <= j < r@.len() ==> (#[trigger] r@[j]).0@ != key@,
        },
{
    let mut i: usize = 0;
    while i < r.len()
        invariant
            i <= r@.len(),
            forall|j: int| 0 <= j < i ==> (#[trigger] r@[j]).0@ != key@,
        decreases r@.len() - i,
    {
        let (k, _) = &r[i];
        if str_eq(k.as_str(), key) {
            return Option::Some(i);
        }
        i = i + 1;
    }
    Option::None
}

/// A string split at its commas: the separators are not kept, and `n` commas
/// yield `n + 1` pieces.
pub open spec fn spec_split_commas(s: Seq<char>) -> Seq<Seq<char>>
    decreases s.len(),
    via spec_split_commas_decreases
{
    let j = crate::strutil::spec_find(s, ',');
    if j < 0 {
        seq![s]
    } else {
        seq![s.subrange(0, j)] + spec_split_commas(s.subrange(j + 1, s.len() as int))
    }
}

#[via_fn]
proof fn spec_split_commas_decreases(s: Seq<char>) {
    crate::strutil::lemma_find_first(s, ',');
}

/// The statically mined type a token denotes, if any.
pub open spec fn spec_mined_ty(tok: Seq<char>) -> Option<ArgType> {
    if tok == "Object"@ {
        Option::Some(ArgType::ObjectType)
    } else if tok == "string"@ {
        Option::Some(ArgType::StringType)
    } else if tok == "number"@ {
        Option::Some(ArgType::NumberType)
    } else if tok == "Array"@ {
        Option::Some(ArgType::ArrayType)
    } else if tok == "_FUNCTION_"@ {
        Option::Some(ArgType::CallbackType)
    } else {
        Option::None
    }
}

/// The statically mined value a token denotes at a given type: the token
/// itself for object, string, number and array positions, nothing otherwise.
pub open spec fn spec_mined_val(ty: Option<ArgType>, tok: Seq<char>) -> Option<ArgValV> {
    match ty {
        Option::Some(ArgType::ObjectType) => Option::Some(ArgValV::ObjectV(tok)),
        Option::Some(ArgType::StringType) => Option::Some(ArgValV::StringV(tok)),
        Option::Some(ArgType::NumberType) => Option::Some(ArgValV::NumberV(tok)),
        Option::Some(ArgType::ArrayType) => Option::Some(ArgValV::ArrayV(tok)),
        _ => Option::None,
    }
}

/// The indices, in order, of the serialized calls whose access path decodes.
pub open spec fn spec_decodable_idxs(json: Seq<MinedAPICallJSON>, n: int) -> Seq<int>
    decreases n,
{
    if n <= 0 {
        Seq::empty()
    } else {
        spec_decodable_idxs(json, n - 1) + (if crate::module_reps::spec_decode_ap(
            json[n - 1].acc_path@,
        ) is Some {
            seq![n - 1]
        } else {
            Seq::empty()
        })
    }
}

/// Is `call` the decoding of the serialized `json` call: same package, the
/// decoded access path, and the per-position types and values of the split
/// lists, up to the shorter one's length?
pub open spec fn spec_decoded_call(json: MinedAPICallJSON, call: MinedAPICall) -> bool {
    let ts = spec_split_commas(json.sig_with_types@);
    let vs = spec_split_commas(json.sig_with_values@);
    let n = if ts.len() < vs.len() {
        ts.len()
    } else {
        vs.len()
    };
    &&& call.pkg@ == json.pkg@
    &&& crate::module_reps::spec_decode_ap(json.acc_path@) == Option::Some(call.acc_path@)
    &&& call.sig_with_types@.len() == n
    &&& call.sig_with_values@.len() == n
    &&& (forall|m: int|
        0 <= m < n ==> #[trigger] call.sig_with_types@[m] == spec_mined_ty(ts[m]))
    &&& (forall|m: int|
        0 <= m < n ==> crate::tests::view_opt_arg_val(#[trigger] call.sig_with_values@[m])
            == spec_mined_val(spec_mined_ty(ts[m]), vs[m]))
}

/// Split a string at its commas; see `spec_split_commas`.
fn split_commas(s: &str) -> (r: Vec<String>)
    ensures
        r@.map(|i: int, p: String| p@) == spec_split_commas(s@),
        r@.len() >= 1,
{
    let chars = str_to_chars(s);
    let n = chars.len();
    let mut r: Vec<String> = Vec::new();
    let mut lo: usize = 0;
    proof {
        assert(s@.subrange(0, n as int) =~= s@);
        assert(r@.map(|i: int, p: String| p@) =~= Seq::<Seq<char>>::empty());
    }
    loop
        invariant
            chars@ == s@,
            n == chars@.len(),
            lo <= n,
            spec_split_commas(s@) =~= r@.map(|i: int, p: String| p@) + spec_split_commas(
                s@.subrange(lo as int, n as int),
            ),
        decreases n - lo,
    {
        let ghost sub = s@.subrange(lo as int, n as int);
        match crate::strutil::find_char(&chars, ',', lo, n) {
            Option::Some(j) => {
                proof {
                    assert(forall|k: int| 0 <= k < sub.len() ==> sub[k] == s@[lo + k]);
                    crate::strutil::lemma_find_unique(sub, ',', j - lo);
                }
                let piece = crate::module_reps::chars_range_to_string(&chars, lo, j);
                let ghost pre = r@;
                r.push(piece);
                proof {
                    assert(sub.subrange(0, j - lo) =~= s@.subrange(lo as int, j as int));
                    assert(sub.subrange(j - lo + 1, sub.len() as int) =~= s@.subrange(
                        j + 1,
                        n as int,
                    ));
                    assert(r@.map(|i: int, p: String| p@) =~= pre.map(|i: int, p: String| p@)
                        + seq![s@.subrange(lo as int, j as int)]);
                }
                lo = j + 1;
            },
            Option::None => {
                proof {
                    assert(forall|k: int| 0 <= k < sub.len() ==> sub[k] == s@[lo + k]);
                    crate::strutil::lemma_find_none(sub, ',');
                }
                let piece = crate::module_reps::chars_range_to_string(&chars, lo, n);
                let ghost pre = r@;
                r.push(piece);
                proof {
                    assert(r@.map(|i: int, p: String| p@) =~= pre.map(|i: int, p: String| p@)
                        + seq![sub]);
                    assert(spec_split_commas(sub) =~= seq![sub]);
                }
                return r;
            },
        }
    }
}

} // verus!
