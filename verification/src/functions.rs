//! Representations of functions, callbacks, and all their components
//! (arguments, values, signatures), with their mathematical views.

use crate::errors::{FunctionCallResult, TestGenError};
use crate::module_reps::AccessPathModuleCentred;
use crate::strutil::spec_decimal;
use vstd::prelude::*;

verus! {

/// The types of arguments the generator distinguishes.
#[derive(Debug, Clone, Copy, PartialEq, Eq, Structural, Hash)]
pub enum ArgType {
    /// Number.
    NumberType,
    /// String.
    StringType,
    /// Array.
    ArrayType,
    /// Non-callback, non-array object.
    ObjectType,
    /// Generated callback.
    CallbackType,
    /// API library function, as distinct from generated callbacks.
    LibFunctionType,
    /// The `any` dynamic type.
    AnyType,
}

impl ArgType {
    /// Can a value of this type be used where the other type `ot` is declared?
    /// Only exactly-matching types are accepted, except that `any` accepts all.
    pub fn can_be_repd_as(&self, ot: Self) -> (r: bool)
        ensures
            r == (*self == ot || ot is AnyType),
    {
        *self == ot || ot == Self::AnyType
    }

    /// Is this type neither a callback nor a library function?
    pub fn is_not_callback(&self) -> (r: bool)
        ensures
            r == !(*self is CallbackType || *self is LibFunctionType),
    {
        match *self {
            ArgType::CallbackType | ArgType::LibFunctionType => false,
            _ => true,
        }
    }
}

/// Mathematical view of an argument value.
#[verifier::ext_equal]
pub enum ArgValV {
    NumberV(Seq<char>),
    StringV(Seq<char>),
    ArrayV(Seq<char>),
    ObjectV(Seq<char>),
    CallbackV(CallbackValV),
    LibFunctionV(Seq<char>),
    VariableV(Seq<char>),
}

/// Mathematical view of a callback value.
#[verifier::ext_equal]
pub enum CallbackValV {
    VarV(Seq<char>),
    RawCallbackV(CallbackV),
}

/// Mathematical view of a callback.
#[verifier::ext_equal]
pub struct CallbackV {
    pub sig: FunctionSignatureV,
    pub cb_id: Option<Seq<char>>,
    pub cb_arg_pos: Option<usize>,
}

/// Mathematical view of a function signature.
#[verifier::ext_equal]
pub struct FunctionSignatureV {
    pub arg_list: Seq<FunctionArgumentV>,
    pub call_test_result: Option<FunctionCallResult>,
    pub is_spread_args: bool,
}

/// Mathematical view of a function argument.
#[verifier::ext_equal]
pub struct FunctionArgumentV {
    pub arg_type: ArgType,
    pub arg_val: Option<ArgValV>,
}

/// Kinds of argument values. Payloads are the literal text that the renderer
/// will splice into the generated code.
#[derive(Debug, Hash)]
pub enum ArgVal {
    /// Number.
    Number(String),
    /// String.
    String(String),
    /// Array.
    Array(String),
    /// Non-callback, non-array object.
    Object(String),
    /// Generated callback.
    Callback(CallbackVal),
    /// API library function.
    LibFunction(String),
    /// Variable: a scope-available previous return value or callback argument.
    Variable(String),
}

/// Kinds of callback values.
#[derive(Debug, Hash)]
pub enum CallbackVal {
    /// A callback stored as a named function earlier, represented by name.
    Var(String),
    /// An anonymous callback, as a raw signature.
    RawCallback(Callback),
}

/// Representation of a generated callback argument to a library function call.
#[derive(Debug, Hash)]
pub struct Callback {
    /// Signature of the callback function.
    pub(crate) sig: FunctionSignature,
    /// Unique ID, used to correlate trace records with the enclosing call.
    cb_id: Option<String>,
    /// The argument position this callback occupies in the call it is passed to.
    pub(crate) cb_arg_pos: Option<usize>,
}

/// A single valid signature of a module function: the arguments, the observed
/// result of calling it (if tested), and whether the arguments are a spread.
#[derive(Debug, Hash)]
pub struct FunctionSignature {
    /// List of arguments: their types, and values if tested.
    arg_list: Vec<FunctionArgument>,
    /// Callback-related result of running this signature, if it was run.
    call_test_result: Option<FunctionCallResult>,
    /// Is the argument list a spread (`...args`)?
    pub is_spread_args: bool,
}

/// A function argument: a type, and optionally a value of that type.
#[derive(Debug, Hash)]
pub struct FunctionArgument {
    /// Type of the argument.
    arg_type: ArgType,
    /// Optional value of the argument.
    arg_val: Option<ArgVal>,
}

/// An argument value together with the access path it was reached by, if any.
#[derive(Debug)]
pub struct ArgValAPTracked {
    /// The value.
    pub val: ArgVal,
    /// Its access path, where one is known.
    pub acc_path: Option<AccessPathModuleCentred>,
}

pub open spec fn view_opt_string(o: Option<String>) -> Option<Seq<char>> {
    match o {
        Option::Some(s) => Option::Some(s@),
        Option::None => Option::None,
    }
}

pub open spec fn view_arg_val(v: ArgVal) -> ArgValV
    decreases v,
{
    match v {
        ArgVal::Number(s) => ArgValV::NumberV(s@),
        ArgVal::String(s) => ArgValV::StringV(s@),
        ArgVal::Array(s) => ArgValV::ArrayV(s@),
        ArgVal::Object(s) => ArgValV::ObjectV(s@),
        ArgVal::Callback(cv) => ArgValV::CallbackV(view_callback_val(cv)),
        ArgVal::LibFunction(s) => ArgValV::LibFunctionV(s@),
        ArgVal::Variable(s) => ArgValV::VariableV(s@),
    }
}

pub open spec fn view_callback_val(cv: CallbackVal) -> CallbackValV
    decreases cv,
{
    match cv {
        CallbackVal::Var(s) => CallbackValV::VarV(s@),
        CallbackVal::RawCallback(cb) => CallbackValV::RawCallbackV(view_callback(cb)),
    }
}

pub closed spec fn view_callback(cb: Callback) -> CallbackV
    decreases cb,
{
    CallbackV {
        sig: view_sig(cb.sig),
        cb_id: view_opt_string(cb.cb_id),
        cb_arg_pos: cb.cb_arg_pos,
    }
}

pub closed spec fn view_sig(s: FunctionSignature) -> FunctionSignatureV
    decreases s,
    via view_sig_decreases
{
    FunctionSignatureV {
        arg_list: Seq::new(
            s.arg_list@.len(),
            |i: int|
                if 0 <= i < s.arg_list@.len() {
                    view_arg(s.arg_list@[i])
                } else {
                    FunctionArgumentV { arg_type: ArgType::AnyType, arg_val: Option::None }
                },
        ),
        call_test_result: s.call_test_result,
        is_spread_args: s.is_spread_args,
    }
}

#[via_fn]
proof fn view_sig_decreases(s: FunctionSignature) {
    assert forall|i: int| 0 <= i < s.arg_list@.len() implies (decreases_to!(s => #[trigger]
    s.arg_list@[i])) by {
        assert(decreases_to!(s => s.arg_list));
        assert(decreases_to!(s.arg_list => s.arg_list@));
        assert(decreases_to!(s.arg_list@ => s.arg_list@[i]));
    }
}

pub closed spec fn view_arg(a: FunctionArgument) -> FunctionArgumentV
    decreases a,
{
    FunctionArgumentV {
        arg_type: a.arg_type,
        arg_val: match a.arg_val {
            Option::Some(v) => Option::Some(view_arg_val(v)),
            Option::None => Option::None,
        },
    }
}

impl View for ArgVal {
    type V = ArgValV;

    open spec fn view(&self) -> ArgValV {
        view_arg_val(*self)
    }
}

impl View for CallbackVal {
    type V = CallbackValV;

    open spec fn view(&self) -> CallbackValV {
        view_callback_val(*self)
    }
}

impl View for Callback {
    type V = CallbackV;

    open spec fn view(&self) -> CallbackV {
        view_callback(*self)
    }
}

impl View for FunctionSignature {
    type V = FunctionSignatureV;

    open spec fn view(&self) -> FunctionSignatureV {
        view_sig(*self)
    }
}

impl View for FunctionArgument {
    type V = FunctionArgumentV;

    open spec fn view(&self) -> FunctionArgumentV {
        view_arg(*self)
    }
}

impl Clone for ArgVal {
    /// Cloning preserves the view.
    fn clone(&self) -> (res: Self)
        ensures
            res@ == self@,
        decreases *self,
    {
        match self {
            ArgVal::Number(s) => ArgVal::Number(s.clone()),
            ArgVal::String(s) => ArgVal::String(s.clone()),
            ArgVal::Array(s) => ArgVal::Array(s.clone()),
            ArgVal::Object(s) => ArgVal::Object(s.clone()),
            ArgVal::Callback(cv) => ArgVal::Callback(cv.clone()),
            ArgVal::LibFunction(s) => ArgVal::LibFunction(s.clone()),
            ArgVal::Variable(s) => ArgVal::Variable(s.clone()),
        }
    }
}

impl Clone for CallbackVal {
    /// Cloning preserves the view.
    fn clone(&self) -> (res: Self)
        ensures
            res@ == self@,
        decreases *self,
    {
        match self {
            CallbackVal::Var(s) => CallbackVal::Var(s.clone()),
            CallbackVal::RawCallback(cb) => CallbackVal::RawCallback(cb.clone()),
        }
    }
}

impl Clone for Callback {
    /// Cloning preserves the view.
    fn clone(&self) -> (res: Self)
        ensures
            res@ == self@,
        decreases *self,
    {
        let r = Callback {
            sig: self.sig.clone(),
            cb_id: match &self.cb_id {
                Option::Some(s) => Option::Some(s.clone()),
                Option::None => Option::None,
            },
            cb_arg_pos: self.cb_arg_pos,
        };
        assert(r@ =~= self@);
        r
    }
}

impl Clone for FunctionSignature {
    /// Cloning preserves the view.
    fn clone(&self) -> (res: Self)
        ensures
            res@ == self@,
        decreases *self,
    {
        let mut args: Vec<FunctionArgument> = Vec::new();
        let mut i: usize = 0;
        while i < self.arg_list.len()
            invariant
                i <= self.arg_list@.len(),
                args@.len() == i,
                forall|j: int| 0 <= j < i ==> #[trigger] args@[j]@ == self.arg_list@[j]@,
            decreases self.arg_list@.len() - i,
        {
            proof {
                assert(decreases_to!(*self => self.arg_list));
                assert(decreases_to!(self.arg_list => self.arg_list@));
                assert(decreases_to!(self.arg_list@ => self.arg_list@[i as int]));
            }
            args.push(self.arg_list[i].clone());
            i = i + 1;
        }
        let r = FunctionSignature {
            arg_list: args,
            call_test_result: self.call_test_result,
            is_spread_args: self.is_spread_args,
        };
        assert forall|j: int| 0 <= j < r@.arg_list.len() implies r@.arg_list[j]
            == self@.arg_list[j] by {
            assert(args@[j]@ == self.arg_list@[j]@);
        }
        assert(r@.arg_list =~= self@.arg_list);
        assert(r@ =~= self@);
        r
    }
}

impl Clone for FunctionArgument {
    /// Cloning preserves the view.
    fn clone(&self) -> (res: Self)
        ensures
            res@ == self@,
        decreases *self,
    {
        let r = FunctionArgument {
            arg_type: self.arg_type,
            arg_val: match &self.arg_val {
                Option::Some(v) => Option::Some(v.clone()),
                Option::None => Option::None,
            },
        };
        assert(r@ =~= self@);
        r
    }
}

impl Clone for ArgValAPTracked {
    /// Cloning preserves the views of both components.
    fn clone(&self) -> (res: Self)
        ensures
            res.val@ == self.val@,
            match (res.acc_path, self.acc_path) {
                (Option::Some(a), Option::Some(b)) => a@ == b@,
                (Option::None, Option::None) => true,
                _ => false,
            },
    {
        ArgValAPTracked {
            val: self.val.clone(),
            acc_path: match &self.acc_path {
                Option::Some(p) => Option::Some(p.clone()),
                Option::None => Option::None,
            },
        }
    }
}

/// The base of the names of a callback's parameters: `cb_<context id>_<argument
/// position>_arg_`, with the id and position parts left out where unknown.
pub open spec fn spec_cb_arg_name_base(cb: CallbackV, ctx: Option<Seq<char>>) -> Seq<char> {
    "cb_"@ + (match ctx {
        Option::Some(s) => s,
        Option::None => Seq::<char>::empty(),
    }) + (match cb.cb_arg_pos {
        Option::Some(p) => "_"@ + spec_decimal(p as nat),
        Option::None => Seq::<char>::empty(),
    }) + "_arg_"@
}

/// The in-scope values a raw callback contributes: one variable per parameter,
/// named from the base followed by the parameter's position.
pub open spec fn spec_cb_arg_names(cb: CallbackV, ctx: Seq<char>) -> Seq<ArgValV> {
    Seq::new(
        cb.sig.arg_list.len(),
        |i: int| ArgValV::VariableV(
            spec_cb_arg_name_base(cb, Option::Some(ctx)) + spec_decimal(i as nat),
        ),
    )
}

/// The in-scope values one argument contributes: the parameters of a raw
/// callback value, nothing otherwise.
pub open spec fn spec_arg_cb_vals(a: FunctionArgumentV, ctx: Seq<char>) -> Seq<ArgValV> {
    match a.arg_val {
        Option::Some(ArgValV::CallbackV(CallbackValV::RawCallbackV(cb))) => spec_cb_arg_names(
            cb,
            ctx,
        ),
        _ => Seq::<ArgValV>::empty(),
    }
}

/// The merged in-scope values of all the callback arguments in a signature.
pub open spec fn spec_args_cb_vals(args: Seq<FunctionArgumentV>, ctx: Seq<char>) -> Seq<ArgValV>
    decreases args.len(),
{
    if args.len() == 0 {
        Seq::<ArgValV>::empty()
    } else {
        spec_args_cb_vals(args.drop_last(), ctx) + spec_arg_cb_vals(args.last(), ctx)
    }
}

/// Does exactly one argument position of the list hold a callback type?
pub open spec fn spec_single_cb(args: Seq<FunctionArgumentV>) -> bool {
    exists|p: int|
        0 <= p < args.len() && (#[trigger] args[p].arg_type) is CallbackType && (forall|q: int|
            0 <= q < args.len() && (#[trigger] args[q].arg_type) is CallbackType ==> q == p)
}

impl Callback {
    /// Constructor: a callback with the given signature and no ID or position.
    pub fn new(sig: FunctionSignature) -> (r: Self)
        ensures
            r@.sig == sig@,
            r@.cb_id is None,
            r@.cb_arg_pos is None,
    {
        Self { sig, cb_id: Option::None, cb_arg_pos: Option::None }
    }

    /// Read access to the signature.
    pub fn get_sig(&self) -> (r: &FunctionSignature)
        ensures
            r@ == self@.sig,
    {
        &self.sig
    }

    /// Read access to the unique ID.
    pub fn get_cb_id(&self) -> (r: &Option<String>)
        ensures
            view_opt_string(*r) == self@.cb_id,
    {
        &self.cb_id
    }

    /// Read access to the argument position.
    pub fn get_cb_arg_pos(&self) -> (r: &Option<usize>)
        ensures
            *r == self@.cb_arg_pos,
    {
        &self.cb_arg_pos
    }

    /// Setter for the unique ID of this callback.
    pub fn set_cb_id(&mut self, cb_id: Option<String>)
        ensures
            final(self)@ == (CallbackV { cb_id: view_opt_string(cb_id), ..old(self)@ }),
    {
        self.cb_id = cb_id;
        assert(self@ =~= (CallbackV { cb_id: self@.cb_id, ..old(self)@ }));
    }

    /// Setter for the argument position that this callback occupies.
    pub fn set_cb_arg_pos(&mut self, cb_arg_pos: Option<usize>)
        ensures
            final(self)@ == (CallbackV { cb_arg_pos: cb_arg_pos, ..old(self)@ }),
    {
        self.cb_arg_pos = cb_arg_pos;
        assert(self@ =~= (CallbackV { cb_arg_pos: self@.cb_arg_pos, ..old(self)@ }));
    }

    /// The base of the names of this callback's parameters; see
    /// `spec_cb_arg_name_base`.
    pub fn get_cb_arg_name_base(&self, context_uniq_id: &Option<String>) -> (r: String)
        ensures
            r@ == spec_cb_arg_name_base(self@, view_opt_string(*context_uniq_id)),
    {
        let mut s = String::new();
        s.append("cb_");
        match context_uniq_id {
            Option::Some(id) => s.append(id.as_str()),
            Option::None => (),
        }
        match self.cb_arg_pos {
            Option::Some(p) => {
                s.append("_");
                let pd = crate::strutil::usize_to_string(p);
                s.append(pd.as_str());
            },
            Option::None => (),
        }
        s.append("_arg_");
        assert(s@ =~= spec_cb_arg_name_base(self@, view_opt_string(*context_uniq_id)));
        s
    }

    /// The parameter names of this callback, exposed as in-scope variables:
    /// one `Variable` per parameter of the signature, in positional order.
    pub fn get_all_cb_args_vals(&self, context_uniq_id: &str) -> (r: Vec<ArgVal>)
        ensures
            r@.len() == self@.sig.arg_list.len(),
            forall|i: int|
                0 <= i < r@.len() ==> #[trigger] r@[i]@ == ArgValV::VariableV(
                    spec_cb_arg_name_base(self@, Option::Some(context_uniq_id@)) + spec_decimal(
                        i as nat,
                    ),
                ),
    {
        let base = self.get_cb_arg_name_base(&Option::Some(context_uniq_id.to_owned()));
        let n = self.sig.num_args();
        let mut r: Vec<ArgVal> = Vec::new();
        let mut i: usize = 0;
        while i < n
            invariant
                n == self@.sig.arg_list.len(),
                base@ == spec_cb_arg_name_base(self@, Option::Some(context_uniq_id@)),
                i <= n,
                r@.len() == i,
                forall|j: int|
                    0 <= j < i ==> #[trigger] r@[j]@ == ArgValV::VariableV(
                        base@ + spec_decimal(j as nat),
                    ),
            decreases n - i,
        {
            let mut name = base.clone();
            let digits = crate::strutil::usize_to_string(i);
            name.append(digits.as_str());
            r.push(ArgVal::Variable(name));
            i = i + 1;
        }
        r
    }
}

impl Default for Callback {
    /// The default callback is empty, with the default (spread) signature.
    fn default() -> (r: Self)
        ensures
            r@.sig == (FunctionSignatureV {
                arg_list: Seq::<FunctionArgumentV>::empty(),
                call_test_result: Option::None,
                is_spread_args: true,
            }),
            r@.cb_id is None,
            r@.cb_arg_pos is None,
    {
        let sig = FunctionSignature::default();
        let r = Callback { sig, cb_id: Option::None, cb_arg_pos: Option::None };
        r
    }
}

impl FunctionSignature {
    /// Constructor, from an argument list and an optional observed result.
    pub fn new(arg_list: &Vec<FunctionArgument>, call_test_result: Option<
        FunctionCallResult,
    >) -> (r: Self)
        ensures
            r@.arg_list.len() == arg_list@.len(),
            forall|i: int| 0 <= i < arg_list@.len() ==> r@.arg_list[i] == #[trigger] arg_list@[i]@,
            r@.call_test_result == call_test_result,
            !r@.is_spread_args,
    {
        let args = arg_list.clone();
        assert forall|i: int| 0 <= i < args@.len() implies args@[i]@ == arg_list@[i]@ by {
            assert(vstd::pervasive::cloned::<FunctionArgument>(arg_list[i], args[i]));
        }
        Self { arg_list: args, call_test_result, is_spread_args: false }
    }

    /// Constructor, from a list of argument types alone: each argument gets the
    /// type and no value, and the signature is untested and not a spread.
    pub fn from_arg_types(arg_types: &Vec<ArgType>) -> (r: Self)
        ensures
            r@.arg_list.len() == arg_types@.len(),
            forall|i: int|
                0 <= i < arg_types@.len() ==> #[trigger] r@.arg_list[i] == (FunctionArgumentV {
                    arg_type: arg_types@[i],
                    arg_val: Option::None,
                }),
            r@.call_test_result is None,
            !r@.is_spread_args,
    {
        let mut args: Vec<FunctionArgument> = Vec::new();
        let mut i: usize = 0;
        while i < arg_types.len()
            invariant
                i <= arg_types@.len(),
                args@.len() == i,
                forall|j: int|
                    0 <= j < i ==> #[trigger] args@[j]@ == (FunctionArgumentV {
                        arg_type: arg_types@[j],
                        arg_val: Option::None,
                    }),
            decreases arg_types@.len() - i,
        {
            args.push(FunctionArgument::new(arg_types[i], Option::None));
            i = i + 1;
        }
        let r = Self { arg_list: args, call_test_result: Option::None, is_spread_args: false };
        assert forall|j: int| 0 <= j < arg_types@.len() implies r@.arg_list[j]
            == (FunctionArgumentV { arg_type: arg_types@[j], arg_val: Option::None }) by {
            assert(args@[j]@ == (FunctionArgumentV {
                arg_type: arg_types@[j],
                arg_val: Option::None,
            }));
        }
        r
    }

    /// Constructor, from tested arguments and the observed result of the call.
    pub fn from_args_with_result(arg_list: &Vec<FunctionArgument>, callback_res:
        FunctionCallResult) -> (r: Self)
        ensures
            r@.arg_list.len() == arg_list@.len(),
            forall|i: int| 0 <= i < arg_list@.len() ==> r@.arg_list[i] == #[trigger] arg_list@[i]@,
            r@.call_test_result == Option::Some(callback_res),
            !r@.is_spread_args,
    {
        let args = arg_list.clone();
        assert forall|i: int| 0 <= i < args@.len() implies args@[i]@ == arg_list@[i]@ by {
            assert(vstd::pervasive::cloned::<FunctionArgument>(arg_list[i], args[i]));
        }
        Self { arg_list: args, call_test_result: Option::Some(callback_res), is_spread_args: false }
    }

    /// Number of arguments.
    pub fn num_args(&self) -> (r: usize)
        ensures
            r == self@.arg_list.len(),
    {
        self.arg_list.len()
    }

    /// The abstract signature: the ordered list of argument types, with the
    /// concrete values forgotten. This is the key signatures are weighted and
    /// deduplicated by.
    pub fn get_abstract_sig(&self) -> (r: Vec<ArgType>)
        ensures
            r@ == self@.abstract_sig(),
    {
        let mut r: Vec<ArgType> = Vec::new();
        let mut i: usize = 0;
        while i < self.arg_list.len()
            invariant
                i <= self@.arg_list.len(),
                self@.arg_list.len() == self.arg_list@.len(),
                r@.len() == i,
                forall|j: int| 0 <= j < i ==> #[trigger] r@[j] == self@.arg_list[j].arg_type,
            decreases self.arg_list@.len() - i,
        {
            r.push(self.arg_list[i].get_type());
            i = i + 1;
        }
        assert(r@ =~= self@.abstract_sig());
        r
    }

    /// The positions of the callback arguments, in increasing order.
    pub fn get_callback_positions(&self) -> (r: Vec<usize>)
        ensures
            forall|j: int|
                0 <= j < r@.len() ==> #[trigger] r@[j] < self@.arg_list.len()
                    && self@.arg_list[r@[j] as int].arg_type is CallbackType,
            forall|j: int, k: int| 0 <= j < k < r@.len() ==> r@[j] < r@[k],
            forall|i: int|
                0 <= i < self@.arg_list.len() && (#[trigger] self@.arg_list[i].arg_type)
                    is CallbackType ==> exists|j: int| 0 <= j < r@.len() && r@[j] == i,
    {
        let mut r: Vec<usize> = Vec::new();
        let mut pos: usize = 0;
        while pos < self.arg_list.len()
            invariant
                pos <= self.arg_list@.len(),
                self@.arg_list.len() == self.arg_list@.len(),
                forall|j: int|
                    0 <= j < r@.len() ==> #[trigger] r@[j] < pos
                        && self@.arg_list[r@[j] as int].arg_type is CallbackType,
                forall|j: int, k: int| 0 <= j < k < r@.len() ==> r@[j] < r@[k],
                forall|i: int|
                    0 <= i < pos && (#[trigger] self@.arg_list[i].arg_type) is CallbackType
                        ==> exists|j: int| 0 <= j < r@.len() && r@[j] == i,
            decreases self.arg_list@.len() - pos,
        {
            let ghost old_r = r@;
            let is_cb = self.arg_list[pos].is_callback();
            if is_cb {
                r.push(pos);
            }
            proof {
                assert forall|i: int|
                    0 <= i < pos + 1 && (#[trigger] self@.arg_list[i].arg_type)
                        is CallbackType implies exists|j: int|
                    0 <= j < r@.len() && r@[j] == i by {
                    if i < pos {
                        let j = choose|j: int| 0 <= j < old_r.len() && old_r[j] == i;
                        assert(r@[j] == i);
                    } else {
                        assert(is_cb);
                        assert(r@[r@.len() - 1] == pos);
                    }
                }
            }
            pos = pos + 1;
        }
        r
    }

    /// The in-scope values contributed by all this signature's raw callback
    /// arguments: each callback's parameters, merged in argument order.
    pub fn get_all_cb_args_vals(&self, context_uniq_id: &String) -> (r: Vec<ArgVal>)
        ensures
            r@.map(|i: int, v: ArgVal| v@) == spec_args_cb_vals(self@.arg_list, context_uniq_id@),
    {
        let mut r: Vec<ArgVal> = Vec::new();
        let mut i: usize = 0;
        assert(r@.map(|k: int, v: ArgVal| v@) =~= spec_args_cb_vals(
            self@.arg_list.take(0),
            context_uniq_id@,
        ));
        while i < self.arg_list.len()
            invariant
                i <= self.arg_list@.len(),
                self@.arg_list.len() == self.arg_list@.len(),
                r@.map(|k: int, v: ArgVal| v@) == spec_args_cb_vals(
                    self@.arg_list.take(i as int),
                    context_uniq_id@,
                ),
            decreases self.arg_list@.len() - i,
        {
            let ghost prefix = self@.arg_list.take(i as int);
            match self.arg_list[i].get_arg_val() {
                Option::Some(ArgVal::Callback(CallbackVal::RawCallback(cb))) => {
                    let mut vals = cb.get_all_cb_args_vals(context_uniq_id.as_str());
                    let ghost old_r = r@;
                    let ghost old_vals = vals@;
                    r.append(&mut vals);
                    proof {
                        assert(r@ =~= old_r + old_vals);
                        assert(r@.map(|k: int, v: ArgVal| v@) =~= old_r.map(|k: int, v: ArgVal| v@)
                            + old_vals.map(|k: int, v: ArgVal| v@));
                        assert(old_vals.map(|k: int, v: ArgVal| v@) =~= spec_arg_cb_vals(
                            self@.arg_list[i as int],
                            context_uniq_id@,
                        ));
                    }
                },
                _ => {
                    proof {
                        assert(spec_arg_cb_vals(self@.arg_list[i as int], context_uniq_id@)
                            =~= Seq::<ArgValV>::empty());
                        assert(r@.map(|k: int, v: ArgVal| v@) + Seq::<ArgValV>::empty() =~= r@.map(
                            |k: int, v: ArgVal| v@,
                        ));
                    }
                },
            }
            proof {
                assert(self@.arg_list.take(i + 1).drop_last() =~= prefix);
                assert(self@.arg_list.take(i + 1).last() == self@.arg_list[i as int]);
            }
            i = i + 1;
        }
        proof {
            assert(self@.arg_list.take(self@.arg_list.len() as int) =~= self@.arg_list);
        }
        r
    }

    /// Does the signature have at least one callback argument?
    pub fn has_cb_arg(&self) -> (r: bool)
        ensures
            r == exists|i: int|
                0 <= i < self@.arg_list.len() && (#[trigger] self@.arg_list[i].arg_type)
                    is CallbackType,
    {
        let mut i: usize = 0;
        while i < self.arg_list.len()
            invariant
                i <= self.arg_list@.len(),
                self@.arg_list.len() == self.arg_list@.len(),
                forall|j: int|
                    0 <= j < i ==> !((#[trigger] self@.arg_list[j].arg_type) is CallbackType),
            decreases self.arg_list@.len() - i,
        {
            if self.arg_list[i].is_callback() {
                assert(self@.arg_list[i as int].arg_type is CallbackType);
                return true;
            }
            i = i + 1;
        }
        false
    }

    /// Read access to the argument list.
    pub fn get_arg_list(&self) -> (r: &Vec<FunctionArgument>)
        ensures
            r@.len() == self@.arg_list.len(),
            forall|i: int| 0 <= i < r@.len() ==> #[trigger] r@[i]@ == self@.arg_list[i],
    {
        &self.arg_list
    }

    /// Replace the argument at position `i`.
    pub fn set_arg_at(&mut self, i: usize, arg: FunctionArgument)
        requires
            i < old(self)@.arg_list.len(),
        ensures
            final(self)@.arg_list == old(self)@.arg_list.update(i as int, arg@),
            final(self)@.call_test_result == old(self)@.call_test_result,
            final(self)@.is_spread_args == old(self)@.is_spread_args,
    {
        self.arg_list[i] = arg;
        assert(self@.arg_list =~= old(self)@.arg_list.update(i as int, arg@));
    }

    /// Set the value of the argument at position `i`; an error if the value's
    /// type cannot be represented as the argument's declared type.
    pub fn set_arg_val_at(&mut self, i: usize, arg_val: ArgVal) -> (r: Result<(), TestGenError>)
        requires
            i < old(self)@.arg_list.len(),
        ensures
            r is Ok <==> spec_val_type(arg_val@) == old(self)@.arg_list[i as int].arg_type || old(
                self,
            )@.arg_list[i as int].arg_type is AnyType,
            r is Ok ==> final(self)@.arg_list == old(self)@.arg_list.update(
                i as int,
                FunctionArgumentV {
                    arg_type: old(self)@.arg_list[i as int].arg_type,
                    arg_val: Option::Some(arg_val@),
                },
            ),
            r is Err ==> *final(self) == *old(self) && r == Result::<(), TestGenError>::Err(
                TestGenError::ArgTypeValMismatch,
            ),
            final(self)@.call_test_result == old(self)@.call_test_result,
            final(self)@.is_spread_args == old(self)@.is_spread_args,
    {
        let ty = self.arg_list[i].get_type();
        let mut arg = FunctionArgument::new(ty, Option::None);
        let res = arg.set_arg_val(arg_val);
        match res {
            Result::Ok(()) => {
                self.arg_list[i] = arg;
                assert(self@.arg_list =~= old(self)@.arg_list.update(i as int, arg@));
                Result::Ok(())
            },
            Result::Err(e) => Result::Err(e),
        }
    }

    /// The observed result of calling the function with this signature.
    pub fn get_call_res(&self) -> (r: Option<FunctionCallResult>)
        ensures
            r == self@.call_test_result,
    {
        self.call_test_result
    }

    /// Record the result of calling the function with this signature.
    pub fn set_call_res(&mut self, res: FunctionCallResult)
        ensures
            final(self)@ == (FunctionSignatureV {
                call_test_result: Option::Some(res),
                ..old(self)@
            }),
    {
        self.call_test_result = Option::Some(res);
        assert(self@ =~= (FunctionSignatureV {
            call_test_result: Option::Some(res),
            ..old(self)@
        }));
    }
}

impl FunctionSignatureV {
    /// The abstract signature at the view level.
    pub open spec fn abstract_sig(self) -> Seq<ArgType> {
        self.arg_list.map(|i: int, a: FunctionArgumentV| a.arg_type)
    }
}

impl Default for FunctionSignature {
    /// The default signature is empty, a spread, and untested.
    fn default() -> (r: Self)
        ensures
            r@ == (FunctionSignatureV {
                arg_list: Seq::<FunctionArgumentV>::empty(),
                call_test_result: Option::None,
                is_spread_args: true,
            }),
    {
        let r = FunctionSignature {
            arg_list: Vec::new(),
            call_test_result: Option::None,
            is_spread_args: true,
        };
        assert(r@.arg_list =~= Seq::<FunctionArgumentV>::empty());
        assert(r@ =~= (FunctionSignatureV {
            arg_list: Seq::<FunctionArgumentV>::empty(),
            call_test_result: Option::None,
            is_spread_args: true,
        }));
        r
    }
}

/// The type an argument value has on its own; `Variable` values count as `any`.
pub open spec fn spec_val_type(v: ArgValV) -> ArgType {
    match v {
        ArgValV::NumberV(_) => ArgType::NumberType,
        ArgValV::StringV(_) => ArgType::StringType,
        ArgValV::ArrayV(_) => ArgType::ArrayType,
        ArgValV::ObjectV(_) => ArgType::ObjectType,
        ArgValV::CallbackV(_) => ArgType::CallbackType,
        ArgValV::LibFunctionV(_) => ArgType::LibFunctionType,
        ArgValV::VariableV(_) => ArgType::AnyType,
    }
}

impl ArgVal {
    /// The type of this value; `Variable` values are treated as `any`, which
    /// lets previous return and callback-argument values flow anywhere.
    pub fn get_type(&self) -> (r: ArgType)
        ensures
            r == spec_val_type(self@),
    {
        match self {
            Self::Number(_) => ArgType::NumberType,
            Self::String(_) => ArgType::StringType,
            Self::Array(_) => ArgType::ArrayType,
            Self::Object(_) => ArgType::ObjectType,
            Self::Callback(_) => ArgType::CallbackType,
            Self::LibFunction(_) => ArgType::LibFunctionType,
            Self::Variable(_) => ArgType::AnyType,
        }
    }

    /// Set the callback ID; an error unless this value is a raw callback.
    pub fn set_cb_id(&mut self, cb_id: Option<String>) -> (r: Result<(), TestGenError>)
        ensures
            match old(self)@ {
                ArgValV::CallbackV(CallbackValV::RawCallbackV(cb)) => r is Ok && final(self)@
                    == ArgValV::CallbackV(
                    CallbackValV::RawCallbackV(
                        CallbackV { cb_id: view_opt_string(cb_id), ..cb },
                    ),
                ),
                _ => r == Result::<(), TestGenError>::Err(TestGenError::ArgTypeValMismatch)
                    && final(self)@ == old(self)@,
            },
    {
        match self {
            Self::Callback(CallbackVal::RawCallback(cb)) => {
                cb.set_cb_id(cb_id);
                Result::Ok(())
            },
            _ => Result::Err(TestGenError::ArgTypeValMismatch),
        }
    }
}

impl FunctionArgument {
    /// Constructor.
    pub fn new(arg_type: ArgType, arg_val: Option<ArgVal>) -> (r: Self)
        ensures
            r@.arg_type == arg_type,
            r@.arg_val == (match arg_val {
                Option::Some(v) => Option::Some(v@),
                Option::None => Option::<ArgValV>::None,
            }),
    {
        Self { arg_type, arg_val }
    }

    /// Is this argument a callback?
    pub fn is_callback(&self) -> (r: bool)
        ensures
            r == (self@.arg_type is CallbackType),
    {
        self.arg_type == ArgType::CallbackType
    }

    /// Set the value of this argument; an error if the value's type cannot be
    /// represented as this argument's declared type.
    pub fn set_arg_val(&mut self, arg_val: ArgVal) -> (r: Result<(), TestGenError>)
        ensures
            r is Ok <==> spec_val_type(arg_val@) == old(self)@.arg_type || old(self)@.arg_type
                is AnyType,
            r is Ok ==> final(self)@ == (FunctionArgumentV {
                arg_type: old(self)@.arg_type,
                arg_val: Option::Some(arg_val@),
            }),
            r is Err ==> *final(self) == *old(self) && r == Result::<(), TestGenError>::Err(
                TestGenError::ArgTypeValMismatch,
            ),
    {
        if !(arg_val.get_type().can_be_repd_as(self.arg_type)) {
            return Result::Err(TestGenError::ArgTypeValMismatch);
        }
        self.arg_val = Option::Some(arg_val);
        Result::Ok(())
    }

    /// Read access to the argument value.
    pub fn get_arg_val(&self) -> (r: &Option<ArgVal>)
        ensures
            (match r {
                Option::Some(v) => Option::Some(v@),
                Option::None => Option::<ArgValV>::None,
            }) == self@.arg_val,
    {
        &self.arg_val
    }

    /// The declared type of this argument.
    pub fn get_type(&self) -> (r: ArgType)
        ensures
            r == self@.arg_type,
    {
        self.arg_type
    }

    /// Set the callback ID of this argument's value; a no-op error if the value
    /// is unset, and a mismatch error if the value is not a raw callback.
    pub fn set_cb_id(&mut self, cb_id: Option<String>) -> (r: Result<(), TestGenError>)
        ensures
            match old(self)@.arg_val {
                Option::Some(ArgValV::CallbackV(CallbackValV::RawCallbackV(cb))) => r is Ok
                    && final(self)@ == (FunctionArgumentV {
                    arg_type: old(self)@.arg_type,
                    arg_val: Option::Some(
                        ArgValV::CallbackV(
                            CallbackValV::RawCallbackV(
                                CallbackV { cb_id: view_opt_string(cb_id), ..cb },
                            ),
                        ),
                    ),
                }),
                Option::Some(_) => r == Result::<(), TestGenError>::Err(
                    TestGenError::ArgTypeValMismatch,
                ) && final(self)@ == old(self)@,
                Option::None => r == Result::<(), TestGenError>::Err(TestGenError::ArgValNotSetYet)
                    && final(self)@ == old(self)@,
            },
    {
        match &mut self.arg_val {
            Option::Some(arg_val) => arg_val.set_cb_id(cb_id),
            Option::None => Result::Err(TestGenError::ArgValNotSetYet),
        }
    }
}

/// Structural equality of two argument values, decided recursively.
pub fn val_eq(x: &ArgVal, y: &ArgVal) -> (r: bool)
    ensures
        r == (x@ == y@),
    decreases *x,
{
    match (x, y) {
        (ArgVal::Number(a), ArgVal::Number(b)) => *a == *b,
        (ArgVal::String(a), ArgVal::String(b)) => *a == *b,
        (ArgVal::Array(a), ArgVal::Array(b)) => *a == *b,
        (ArgVal::Object(a), ArgVal::Object(b)) => *a == *b,
        (ArgVal::Callback(a), ArgVal::Callback(b)) => cbv_eq(a, b),
        (ArgVal::LibFunction(a), ArgVal::LibFunction(b)) => *a == *b,
        (ArgVal::Variable(a), ArgVal::Variable(b)) => *a == *b,
        _ => false,
    }
}

/// Structural equality of two callback values.
pub fn cbv_eq(x: &CallbackVal, y: &CallbackVal) -> (r: bool)
    ensures
        r == (x@ == y@),
    decreases *x,
{
    match (x, y) {
        (CallbackVal::Var(a), CallbackVal::Var(b)) => *a == *b,
        (CallbackVal::RawCallback(a), CallbackVal::RawCallback(b)) => cb_eq(a, b),
        _ => false,
    }
}

/// Structural equality of two callbacks.
pub fn cb_eq(x: &Callback, y: &Callback) -> (r: bool)
    ensures
        r == (x@ == y@),
    decreases *x,
{
    let ids_eq = match (&x.cb_id, &y.cb_id) {
        (Option::Some(a), Option::Some(b)) => *a == *b,
        (Option::None, Option::None) => true,
        _ => false,
    };
    let pos_eq = match (&x.cb_arg_pos, &y.cb_arg_pos) {
        (Option::Some(a), Option::Some(b)) => *a == *b,
        (Option::None, Option::None) => true,
        _ => false,
    };
    let r = ids_eq && pos_eq && sig_eq(&x.sig, &y.sig);
    proof {
        if r {
            assert(x@ =~= y@);
        }
    }
    r
}

/// Structural equality of two signatures.
pub fn sig_eq(x: &FunctionSignature, y: &FunctionSignature) -> (r: bool)
    ensures
        r == (x@ == y@),
    decreases *x,
{
    if x.arg_list.len() != y.arg_list.len() {
        assert(x@.arg_list.len() != y@.arg_list.len());
        return false;
    }
    let results_eq = match (&x.call_test_result, &y.call_test_result) {
        (Option::Some(a), Option::Some(b)) => *a == *b,
        (Option::None, Option::None) => true,
        _ => false,
    };
    if !results_eq || x.is_spread_args != y.is_spread_args {
        return false;
    }
    let mut i: usize = 0;
    while i < x.arg_list.len()
        invariant
            x.arg_list@.len() == y.arg_list@.len(),
            x@.arg_list.len() == x.arg_list@.len(),
            y@.arg_list.len() == y.arg_list@.len(),
            i <= x.arg_list@.len(),
            forall|k: int| 0 <= k < i ==> #[trigger] x@.arg_list[k] == y@.arg_list[k],
        decreases x.arg_list@.len() - i,
    {
        proof {
            assert(decreases_to!(*x => x.arg_list));
            assert(decreases_to!(x.arg_list => x.arg_list@));
            assert(decreases_to!(x.arg_list@ => x.arg_list@[i as int]));
        }
        if !arg_eq(&x.arg_list[i], &y.arg_list[i]) {
            assert(x@.arg_list[i as int] != y@.arg_list[i as int]);
            return false;
        }
        i = i + 1;
    }
    proof {
        assert(x@.arg_list =~= y@.arg_list);
        assert(x@ =~= y@);
    }
    true
}

/// Structural equality of two function arguments.
pub fn arg_eq(x: &FunctionArgument, y: &FunctionArgument) -> (r: bool)
    ensures
        r == (x@ == y@),
    decreases *x,
{
    if x.arg_type != y.arg_type {
        return false;
    }
    let r = match (&x.arg_val, &y.arg_val) {
        (Option::Some(a), Option::Some(b)) => val_eq(a, b),
        (Option::None, Option::None) => true,
        _ => false,
    };
    proof {
        if r {
            assert(x@ =~= y@);
        }
    }
    r
}

impl PartialEq for ArgVal {
    /// Equality of argument values is equality of their views.
    fn eq(&self, other: &Self) -> (r: bool) {
        val_eq(self, other)
    }
}

impl Eq for ArgVal {

}

impl vstd::std_specs::cmp::PartialEqSpecImpl for ArgVal {
    open spec fn obeys_eq_spec() -> bool {
        true
    }

    open spec fn eq_spec(&self, other: &Self) -> bool {
        self@ == other@
    }
}

impl PartialEq for CallbackVal {
    /// Equality of callback values is equality of their views.
    fn eq(&self, other: &Self) -> (r: bool) {
        cbv_eq(self, other)
    }
}

impl Eq for CallbackVal {

}

impl vstd::std_specs::cmp::PartialEqSpecImpl for CallbackVal {
    open spec fn obeys_eq_spec() -> bool {
        true
    }

    open spec fn eq_spec(&self, other: &Self) -> bool {
        self@ == other@
    }
}

impl PartialEq for Callback {
    /// Equality of callbacks is equality of their views.
    fn eq(&self, other: &Self) -> (r: bool) {
        cb_eq(self, other)
    }
}

impl Eq for Callback {

}

impl vstd::std_specs::cmp::PartialEqSpecImpl for Callback {
    open spec fn obeys_eq_spec() -> bool {
        true
    }

    open spec fn eq_spec(&self, other: &Self) -> bool {
        self@ == other@
    }
}

impl PartialEq for FunctionSignature {
    /// Equality of signatures is equality of their views.
    fn eq(&self, other: &Self) -> (r: bool) {
        sig_eq(self, other)
    }
}

impl Eq for FunctionSignature {

}

impl vstd::std_specs::cmp::PartialEqSpecImpl for FunctionSignature {
    open spec fn obeys_eq_spec() -> bool {
        true
    }

    open spec fn eq_spec(&self, other: &Self) -> bool {
        self@ == other@
    }
}

impl PartialEq for FunctionArgument {
    /// Equality of arguments is equality of their views.
    fn eq(&self, other: &Self) -> (r: bool) {
        arg_eq(self, other)
    }
}

impl Eq for FunctionArgument {

}

impl vstd::std_specs::cmp::PartialEqSpecImpl for FunctionArgument {
    open spec fn obeys_eq_spec() -> bool {
        true
    }

    open spec fn eq_spec(&self, other: &Self) -> bool {
        self@ == other@
    }
}

} // verus!
