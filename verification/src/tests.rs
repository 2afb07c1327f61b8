//! Representations of the tests and test building components: the call tree,
//! scope queries, unique call IDs, and the diagnosis of executed traces.

use crate::errors::{FunctionCallResult, SingleCallCallbackTestResult, TestGenError};
use crate::functions::{
    spec_args_cb_vals, view_opt_string, ArgVal, ArgValAPTracked, ArgValV, ArgType,
    CallbackV, CallbackVal, CallbackValV, FunctionArgument, FunctionArgumentV, FunctionSignature,
    FunctionSignatureV,
};
use crate::module_reps::{
    spec_decode_ap, spec_js_var_name, APathV, AccessPathModuleCentred, NpmModule,
};
use crate::decisions::TestGenDB;
use crate::strutil::{spec_decimal, str_eq, usize_to_string};
use crate::TestGenMode;
use vstd::prelude::*;

verus! {

/// Type of test extension.
#[derive(Debug, Clone, Eq, PartialEq, Structural, Copy)]
pub enum ExtensionType {
    /// Sequential function calls.
    Sequential,
    /// Function calls nested in the callback argument of another function call.
    Nested,
}

/// ID type for nodes in the test's function tree: a stable arena index.
pub type ExtensionPointID = usize;

/// A test extension point: a node at which to extend, and how.
#[derive(Debug, Eq, PartialEq, Structural, Clone, Copy)]
pub struct ExtensionPoint {
    /// ID of the node (function call) at which to extend.
    pub node_id: ExtensionPointID,
    /// Type of extension that can be made here.
    pub ext_type: ExtensionType,
}

/// Test identifying information: ID and file path.
#[derive(Debug)]
pub struct TestLocID {
    /// Test ID.
    pub cur_test_id: usize,
    /// Directory for the test file.
    pub test_dir_path: String,
    /// Prefix for the test file (only the file, not the full path).
    pub test_file_prefix: String,
}

/// Mathematical view of a `TestLocID`.
#[verifier::ext_equal]
pub struct TestLocIDV {
    pub cur_test_id: usize,
    pub test_dir_path: Seq<char>,
    pub test_file_prefix: Seq<char>,
}

impl View for TestLocID {
    type V = TestLocIDV;

    open spec fn view(&self) -> TestLocIDV {
        TestLocIDV {
            cur_test_id: self.cur_test_id,
            test_dir_path: self.test_dir_path@,
            test_file_prefix: self.test_file_prefix@,
        }
    }
}

impl Clone for TestLocID {
    /// Cloning preserves the view.
    fn clone(&self) -> (res: Self)
        ensures
            res@ == self@,
    {
        let r = TestLocID {
            cur_test_id: self.cur_test_id,
            test_dir_path: self.test_dir_path.clone(),
            test_file_prefix: self.test_file_prefix.clone(),
        };
        assert(r@ =~= self@);
        r
    }
}

impl TestLocID {
    /// The same location, under a new test ID.
    pub fn copy_with_new_test_id(&self, new_test_id: usize) -> (r: Self)
        ensures
            r@ == (TestLocIDV { cur_test_id: new_test_id, ..self@ }),
    {
        let r = TestLocID {
            cur_test_id: new_test_id,
            test_dir_path: self.test_dir_path.clone(),
            test_file_prefix: self.test_file_prefix.clone(),
        };
        assert(r@ =~= (TestLocIDV { cur_test_id: new_test_id, ..self@ }));
        r
    }
}

/// Structure of a function call within a test.
#[derive(Debug)]
pub struct FunctionCall {
    /// Name of the function.
    name: String,
    /// Signature of the function; it includes the arguments.
    pub(crate) sig: FunctionSignature,
    /// Argument position, in the parent call, of the callback this call is
    /// nested in (`None` if not a nested call).
    parent_arg_position_nesting: Option<String>,
    /// ID of the parent call (`None` if not nested).
    parent_call_id: Option<usize>,
    /// Access path representation of the function to be called.
    acc_path: Option<AccessPathModuleCentred>,
    /// Optional variable representing the receiver (if `None`, it is the
    /// module import).
    pub(crate) receiver: Option<ArgVal>,
}

/// Mathematical view of a `FunctionCall`.
#[verifier::ext_equal]
pub struct FunctionCallV {
    pub name: Seq<char>,
    pub sig: FunctionSignatureV,
    pub parent_arg_position_nesting: Option<Seq<char>>,
    pub parent_call_id: Option<usize>,
    pub acc_path: Option<APathV>,
    pub receiver: Option<ArgValV>,
}

pub open spec fn view_opt_ap_owned(o: Option<AccessPathModuleCentred>) -> Option<APathV> {
    match o {
        Option::Some(p) => Option::Some(p@),
        Option::None => Option::None,
    }
}

pub open spec fn view_opt_arg_val(o: Option<ArgVal>) -> Option<ArgValV> {
    match o {
        Option::Some(v) => Option::Some(v@),
        Option::None => Option::None,
    }
}

impl View for FunctionCall {
    type V = FunctionCallV;

    closed spec fn view(&self) -> FunctionCallV {
        FunctionCallV {
            name: self.name@,
            sig: self.sig@,
            parent_arg_position_nesting: view_opt_string(self.parent_arg_position_nesting),
            parent_call_id: self.parent_call_id,
            acc_path: view_opt_ap_owned(self.acc_path),
            receiver: view_opt_arg_val(self.receiver),
        }
    }
}

impl Clone for FunctionCall {
    /// Cloning preserves the view.
    fn clone(&self) -> (res: Self)
        ensures
            res@ == self@,
    {
        let r = FunctionCall {
            name: self.name.clone(),
            sig: self.sig.clone(),
            parent_arg_position_nesting: match &self.parent_arg_position_nesting {
                Option::Some(s) => Option::Some(s.clone()),
                Option::None => Option::None,
            },
            parent_call_id: self.parent_call_id,
            acc_path: match &self.acc_path {
                Option::Some(p) => Option::Some(p.clone()),
                Option::None => Option::None,
            },
            receiver: match &self.receiver {
                Option::Some(v) => Option::Some(v.clone()),
                Option::None => Option::None,
            },
        };
        assert(r@ =~= self@);
        r
    }
}

impl FunctionCallV {
    /// Is this a top-level (non-nested) call? A call has parent linkage
    /// exactly when it was inserted by nested extension.
    pub open spec fn is_top_level(self) -> bool {
        self.parent_call_id is None && self.parent_arg_position_nesting is None
    }
}

/// The unique ID string of the call at arena index `id`: the index, then
/// `_pcid` and the parent call ID if nested, then `_pos` and the argument
/// position if nested. It is injective across the tree (`lemma_uniq_id_injective`).
pub open spec fn spec_uniq_id(call: FunctionCallV, id: usize) -> Seq<char> {
    spec_decimal(id as nat) + (match call.parent_call_id {
        Option::Some(p) => "_pcid"@ + spec_decimal(p as nat),
        Option::None => Seq::<char>::empty(),
    }) + (match call.parent_arg_position_nesting {
        Option::Some(s) => "_pos"@ + s,
        Option::None => Seq::<char>::empty(),
    })
}

/// Unique IDs of calls at different arena indices differ: the ID begins with
/// the decimal index, and what follows (if anything) begins with an
/// underscore, which no digit is.
pub proof fn lemma_uniq_id_injective(c1: FunctionCallV, id1: usize, c2: FunctionCallV, id2: usize)
    requires
        spec_uniq_id(c1, id1) == spec_uniq_id(c2, id2),
    ensures
        id1 == id2,
{
    reveal_strlit("_pcid");
    reveal_strlit("_pos");
    let s = spec_uniq_id(c1, id1);
    let d1 = spec_decimal(id1 as nat);
    let d2 = spec_decimal(id2 as nat);
    crate::strutil::lemma_decimal_digits(id1 as nat);
    crate::strutil::lemma_decimal_digits(id2 as nat);
    // each ID is its decimal part followed by a suffix that is empty or
    // starts with '_'
    assert(d1.len() <= s.len());
    assert(d2.len() <= s.len());
    assert(forall|k: int| 0 <= k < d1.len() ==> s[k] == d1[k]);
    assert(forall|k: int| 0 <= k < d2.len() ==> s[k] == d2[k]);
    assert(d1.len() < s.len() ==> s[d1.len() as int] == '_');
    assert(d2.len() < s.len() ==> s[d2.len() as int] == '_');
    if d1.len() < d2.len() {
        assert(crate::strutil::spec_is_digit(s[d1.len() as int]));
        assert(false);
    } else if d2.len() < d1.len() {
        assert(crate::strutil::spec_is_digit(s[d2.len() as int]));
        assert(false);
    } else {
        assert(d1 =~= d2);
        crate::strutil::lemma_parse_decimal_of(id1 as nat);
        crate::strutil::lemma_parse_decimal_of(id2 as nat);
    }
}


impl FunctionCall {
    /// Constructor.
    pub fn new(
        name: String,
        sig: FunctionSignature,
        parent_arg_position_nesting: Option<String>,
        parent_call_id: Option<ExtensionPointID>,
        acc_path: Option<AccessPathModuleCentred>,
        receiver: Option<ArgVal>,
    ) -> (r: Self)
        ensures
            r@ == (FunctionCallV {
                name: name@,
                sig: sig@,
                parent_arg_position_nesting: view_opt_string(parent_arg_position_nesting),
                parent_call_id: parent_call_id,
                acc_path: view_opt_ap_owned(acc_path),
                receiver: view_opt_arg_val(receiver),
            }),
    {
        let r = FunctionCall {
            name,
            sig,
            parent_arg_position_nesting,
            parent_call_id,
            acc_path,
            receiver,
        };
        assert(r@ =~= (FunctionCallV {
            name: r.name@,
            sig: r.sig@,
            parent_arg_position_nesting: view_opt_string(r.parent_arg_position_nesting),
            parent_call_id: r.parent_call_id,
            acc_path: view_opt_ap_owned(r.acc_path),
            receiver: view_opt_arg_val(r.receiver),
        }));
        r
    }

    /// Read access to the signature.
    pub fn get_sig(&self) -> (r: &FunctionSignature)
        ensures
            r@ == self@.sig,
    {
        &self.sig
    }

    /// Read access to the receiver.
    pub fn get_receiver(&self) -> (r: &Option<ArgVal>)
        ensures
            view_opt_arg_val(*r) == self@.receiver,
    {
        &self.receiver
    }

    /// The access path of the function being called.
    pub fn get_acc_path(&self) -> (r: &Option<AccessPathModuleCentred>)
        ensures
            view_opt_ap_owned(*r) == self@.acc_path,
    {
        &self.acc_path
    }

    /// Setter for the access path of the function being called.
    pub fn set_acc_path(&mut self, acc_path: Option<AccessPathModuleCentred>)
        ensures
            final(self)@ == (FunctionCallV { acc_path: view_opt_ap_owned(acc_path), ..old(self)@ }),
    {
        self.acc_path = acc_path;
        assert(self@ =~= (FunctionCallV { acc_path: self@.acc_path, ..old(self)@ }));
    }

    /// The ID of the nesting parent call, where there is one.
    pub fn get_parent_call_id(&self) -> (r: Option<usize>)
        ensures
            r == self@.parent_call_id,
    {
        self.parent_call_id
    }

    /// Setter for the ID of the nesting parent call.
    pub fn set_parent_call_id(&mut self, parent_call_id: Option<ExtensionPointID>)
        ensures
            final(self)@ == (FunctionCallV { parent_call_id: parent_call_id, ..old(self)@ }),
    {
        self.parent_call_id = parent_call_id;
        assert(self@ =~= (FunctionCallV { parent_call_id: self@.parent_call_id, ..old(self)@ }));
    }

    /// The name of the function.
    pub fn get_name(&self) -> (r: &str)
        ensures
            r@ == self@.name,
    {
        self.name.as_str()
    }

    /// The argument position of the callback this call is nested in.
    pub fn get_parent_arg_position_nesting(&self) -> (r: &Option<String>)
        ensures
            view_opt_string(*r) == self@.parent_arg_position_nesting,
    {
        &self.parent_arg_position_nesting
    }

    /// Setter for the argument position of the callback in the nesting parent.
    pub fn set_parent_arg_position_nesting(&mut self, parent_arg_position_nesting: Option<String>)
        ensures
            final(self)@ == (FunctionCallV {
                parent_arg_position_nesting: view_opt_string(parent_arg_position_nesting),
                ..old(self)@
            }),
    {
        self.parent_arg_position_nesting = parent_arg_position_nesting;
        assert(self@ =~= (FunctionCallV {
            parent_arg_position_nesting: self@.parent_arg_position_nesting,
            ..old(self)@
        }));
    }

    /// The parameter names of all this call's callback arguments.
    pub fn get_all_cb_args_vals(&self, context_uniq_id: &String) -> (r: Vec<ArgVal>)
        ensures
            r@.map(|i: int, v: ArgVal| v@) == spec_args_cb_vals(self@.sig.arg_list,
                context_uniq_id@),
    {
        self.sig.get_all_cb_args_vals(context_uniq_id)
    }

    /// Update the callback arguments of this call to carry the given call ID,
    /// so that trace records of the callback correlate back to this call.
    /// An error exactly when some callback-typed argument holds no raw
    /// callback; earlier arguments keep the updates already made.
    pub fn update_cb_args_with_id(&mut self, call_id: usize) -> (r: Result<(), TestGenError>)
        ensures
            final(self)@.name == old(self)@.name,
            final(self)@.parent_arg_position_nesting == old(self)@.parent_arg_position_nesting,
            final(self)@.parent_call_id == old(self)@.parent_call_id,
            final(self)@.acc_path == old(self)@.acc_path,
            final(self)@.receiver == old(self)@.receiver,
            final(self)@.sig.call_test_result == old(self)@.sig.call_test_result,
            final(self)@.sig.is_spread_args == old(self)@.sig.is_spread_args,
            final(self)@.sig.arg_list.len() == old(self)@.sig.arg_list.len(),
            forall|i: int|
                0 <= i < old(self)@.sig.arg_list.len() ==> #[trigger] final(self)@.sig.arg_list[i]
                    == old(self)@.sig.arg_list[i] || final(self)@.sig.arg_list[i]
                    == spec_with_cb_id(old(self)@.sig.arg_list[i], call_id),
            r is Ok ==> forall|i: int|
                0 <= i < old(self)@.sig.arg_list.len() ==> #[trigger] final(self)@.sig.arg_list[i]
                    == (if old(self)@.sig.arg_list[i].arg_type is CallbackType {
                    spec_with_cb_id(old(self)@.sig.arg_list[i], call_id)
                } else {
                    old(self)@.sig.arg_list[i]
                }),
            // the error comes exactly when some callback-typed argument
            // holds no raw callback
            r is Err <==> exists|i: int|
                0 <= i < old(self)@.sig.arg_list.len() && (#[trigger] old(self)@.sig.arg_list[i].arg_type) is CallbackType && !(old(self)@.sig.arg_list[i].arg_val
                    matches Option::Some(ArgValV::CallbackV(CallbackValV::RawCallbackV(_)))),
    {
        let n = self.sig.num_args();
        let id_str = usize_to_string(call_id);
        let mut i: usize = 0;
        while i < n
            invariant
                n == old(self)@.sig.arg_list.len(),
                id_str@ == spec_decimal(call_id as nat),
                i <= n,
                self@.name == old(self)@.name,
                self@.parent_arg_position_nesting == old(self)@.parent_arg_position_nesting,
                self@.parent_call_id == old(self)@.parent_call_id,
                self@.acc_path == old(self)@.acc_path,
                self@.receiver == old(self)@.receiver,
                self@.sig.call_test_result == old(self)@.sig.call_test_result,
                self@.sig.is_spread_args == old(self)@.sig.is_spread_args,
                self@.sig.arg_list.len() == n,
                forall|j: int|
                    0 <= j < i ==> #[trigger] self@.sig.arg_list[j] == (if old(self)@.sig.arg_list[j].arg_type is CallbackType {
                        spec_with_cb_id(old(self)@.sig.arg_list[j], call_id)
                    } else {
                        old(self)@.sig.arg_list[j]
                    }),
                forall|j: int|
                    0 <= j < i && (#[trigger] old(self)@.sig.arg_list[j].arg_type) is CallbackType
                        ==> old(self)@.sig.arg_list[j].arg_val matches Option::Some(
                        ArgValV::CallbackV(CallbackValV::RawCallbackV(_)),
                    ),
                forall|j: int|
                    i <= j < n ==> #[trigger] self@.sig.arg_list[j] == old(self)@.sig.arg_list[j],
            decreases n - i,
        {
            let args = self.sig.get_arg_list();
            let ty = args[i].get_type();
            if matches!(ty, ArgType::CallbackType) {
                let mut arg = args[i].clone();
                let res = arg.set_cb_id(Option::Some(id_str.clone()));
                match res {
                    Result::Ok(()) => {
                        self.sig.set_arg_at(i, arg);
                        assert(self@.sig.arg_list[i as int] == spec_with_cb_id(
                            old(self)@.sig.arg_list[i as int],
                            call_id,
                        ));
                    },
                    Result::Err(e) => {
                        assert(!(old(self)@.sig.arg_list[i as int].arg_val
                            matches Option::Some(
                                ArgValV::CallbackV(CallbackValV::RawCallbackV(_)),
                            )));
                        return Result::Err(e);
                    },
                }
            }
            i = i + 1;
        }
        Result::Ok(())
    }
}

/// The argument with its raw callback's ID set to the decimal of `call_id`;
/// arguments that hold no raw callback are unchanged.
pub open spec fn spec_with_cb_id(a: FunctionArgumentV, call_id: usize) -> FunctionArgumentV {
    match a.arg_val {
        Option::Some(ArgValV::CallbackV(CallbackValV::RawCallbackV(cb))) => FunctionArgumentV {
            arg_type: a.arg_type,
            arg_val: Option::Some(
                ArgValV::CallbackV(
                    CallbackValV::RawCallbackV(
                        CallbackV { cb_id: Option::Some(spec_decimal(call_id as nat)), ..cb },
                    ),
                ),
            ),
        },
        _ => a,
    }
}

/// One node of the function-call tree: the call, its tree parent, and its
/// children in insertion order.
#[derive(Debug)]
pub struct TreeNode {
    /// The call at this node.
    pub call: FunctionCall,
    /// The tree parent, if any.
    pub parent: Option<usize>,
    /// The children, in increasing index order.
    pub children: Vec<usize>,
}

/// Mathematical view of a tree node.
#[verifier::ext_equal]
pub struct TreeNodeV {
    pub call: FunctionCallV,
    pub parent: Option<usize>,
    pub children: Seq<usize>,
}

impl View for TreeNode {
    type V = TreeNodeV;

    open spec fn view(&self) -> TreeNodeV {
        TreeNodeV { call: self.call@, parent: self.parent, children: self.children@ }
    }
}

impl Clone for TreeNode {
    /// Cloning preserves the view.
    fn clone(&self) -> (res: Self)
        ensures
            res@ == self@,
    {
        let r = TreeNode {
            call: self.call.clone(),
            parent: self.parent,
            children: self.children.clone(),
        };
        assert(r.children@ =~= self.children@);
        assert(r@ =~= self@);
        r
    }
}

/// The arena of call nodes of one test: a forest with stable indices.
/// Sibling edges are sequential composition; child edges are nesting inside a
/// callback argument.
#[derive(Debug)]
pub struct FctTree {
    nodes: Vec<TreeNode>,
}

impl View for FctTree {
    type V = Seq<TreeNodeV>;

    closed spec fn view(&self) -> Seq<TreeNodeV> {
        Seq::new(
            self.nodes@.len(),
            |i: int|
                if 0 <= i < self.nodes@.len() {
                    self.nodes@[i]@
                } else {
                    TreeNodeV {
                        call: FunctionCallV {
                            name: Seq::empty(),
                            sig: FunctionSignatureV {
                                arg_list: Seq::empty(),
                                call_test_result: Option::None,
                                is_spread_args: false,
                            },
                            parent_arg_position_nesting: Option::None,
                            parent_call_id: Option::None,
                            acc_path: Option::None,
                            receiver: Option::None,
                        },
                        parent: Option::None,
                        children: Seq::empty(),
                    }
                },
        )
    }
}

impl Clone for FctTree {
    /// Cloning preserves the view.
    fn clone(&self) -> (res: Self)
        ensures
            res@ == self@,
    {
        let r = FctTree { nodes: self.nodes.clone() };
        assert forall|i: int| 0 <= i < r@.len() implies r@[i] == self@[i] by {
            assert(vstd::pervasive::cloned::<TreeNode>(self.nodes[i], r.nodes[i]));
        }
        assert(r@ =~= self@);
        r
    }
}

/// Well-formedness of a call tree: parents come before their children, the
/// child lists are strictly increasing, and the parent and child links agree.
pub open spec fn tree_wf(t: Seq<TreeNodeV>) -> bool {
    (forall|i: int|
        0 <= i < t.len() ==> (match (#[trigger] t[i]).parent {
            Option::Some(p) => p < i,
            Option::None => true,
        })) && (forall|i: int, k: int|
        0 <= i < t.len() && 0 <= k < t[i].children.len() ==> i < #[trigger] t[i].children[k]
            < t.len() && t[t[i].children[k] as int].parent == Option::Some(i as usize)) && (forall|
        i: int,
        a: int,
        b: int,
    |
        0 <= i < t.len() && 0 <= a < b < t[i].children.len() ==> #[trigger] t[i].children[a]
            < #[trigger] t[i].children[b]) && (forall|i: int|
        0 <= i < t.len() && (#[trigger] t[i]).parent is Some ==> linked_to_parent(t, i))
}

/// The node at `i` occurs among its parent's children.
pub open spec fn linked_to_parent(t: Seq<TreeNodeV>, i: int) -> bool {
    exists|k: int|
        0 <= k < t[t[i].parent->0 as int].children.len() && #[trigger] t[t[i].parent->0 as int]
            .children[k] == i
}

/// Is `a` a strict ancestor of `d` in the tree (its parent, or higher)?
pub open spec fn is_ancestor(t: Seq<TreeNodeV>, a: int, d: int) -> bool
    decreases d,
{
    if 0 <= d < t.len() {
        match t[d].parent {
            Option::Some(p) => if !(p < d) {
                false
            } else {
                p == a || is_ancestor(t, a, p as int)
            },
            Option::None => false,
        }
    } else {
        false
    }
}

impl FctTree {
    /// An empty tree.
    pub fn new() -> (r: Self)
        ensures
            r@ =~= Seq::<TreeNodeV>::empty(),
            tree_wf(r@),
    {
        let r = FctTree { nodes: Vec::new() };
        assert(r@ =~= Seq::<TreeNodeV>::empty());
        r
    }

    /// The number of nodes.
    pub fn count(&self) -> (r: usize)
        ensures
            r == self@.len(),
    {
        self.nodes.len()
    }

    /// Read access to the node at an index.
    pub fn get(&self, id: usize) -> (r: &TreeNode)
        requires
            id < self@.len(),
        ensures
            r@ == self@[id as int],
    {
        &self.nodes[id]
    }

    /// Read access to the call at an index.
    pub fn get_call(&self, id: usize) -> (r: &FunctionCall)
        requires
            id < self@.len(),
        ensures
            r@ == self@[id as int].call,
    {
        &self.nodes[id].call
    }

    /// Add a new root node holding the given call; its index is returned.
    pub fn new_node(&mut self, call: FunctionCall) -> (r: usize)
        ensures
            r == old(self)@.len(),
            final(self)@ == old(self)@.push(
                TreeNodeV { call: call@, parent: Option::None, children: Seq::empty() },
            ),
            tree_wf(old(self)@) ==> tree_wf(final(self)@),
    {
        let id = self.nodes.len();
        self.nodes.push(TreeNode { call, parent: Option::None, children: Vec::new() });
        assert(self@ =~= old(self)@.push(
            TreeNodeV { call: self@[id as int].call, parent: Option::None, children: Seq::empty() },
        ));
        proof {
            if tree_wf(old(self)@) {
                let t = self@;
                assert forall|i: int, k: int|
                    0 <= i < t.len() && 0 <= k < t[i].children.len() implies i
                    < #[trigger] t[i].children[k] < t.len() && t[t[i].children[k] as int].parent
                    == Option::Some(i as usize) by {
                    assert(t[i] == old(self)@[i]);
                    assert(old(self)@[t[i].children[k] as int] == t[t[i].children[k] as int]);
                }
                assert forall|i: int|
                    0 <= i < t.len() && (#[trigger] t[i]).parent is Some implies linked_to_parent(
                    t,
                    i,
                ) by {
                    assert(t[i] == old(self)@[i]);
                    assert(linked_to_parent(old(self)@, i));
                    let p = t[i].parent->0 as int;
                    let k = choose|k: int|
                        0 <= k < old(self)@[p].children.len() && #[trigger] old(self)@[p].children[k] == i;
                    assert(t[p] == old(self)@[p]);
                    assert(t[p].children[k] == i);
                }
            }
        }
        id
    }

    /// Attach the newest node (which must be the last, a fresh root) as a
    /// child of `parent_id`.
    pub fn append_child(&mut self, parent_id: usize)
        requires
            tree_wf(old(self)@),
            old(self)@.len() >= 1,
            parent_id < old(self)@.len() - 1,
            old(self)@.last().parent is None,
            old(self)@.last().children.len() == 0,
        ensures
            final(self)@.len() == old(self)@.len(),
            final(self)@ == old(self)@.update(
                parent_id as int,
                TreeNodeV {
                    children: old(self)@[parent_id as int].children.push(
                        (old(self)@.len() - 1) as usize,
                    ),
                    ..old(self)@[parent_id as int]
                },
            ).update(
                old(self)@.len() - 1,
                TreeNodeV { parent: Option::Some(parent_id), ..old(self)@.last() },
            ),
            tree_wf(final(self)@),
    {
        let child_id = self.nodes.len() - 1;
        let ghost old_t = self@;
        self.nodes[parent_id].children.push(child_id);
        self.nodes[child_id].parent = Option::Some(parent_id);
        proof {
            let t = self@;
            let mid = old_t.update(
                parent_id as int,
                TreeNodeV {
                    children: old_t[parent_id as int].children.push(child_id),
                    ..old_t[parent_id as int]
                },
            );
            let fin = mid.update(
                child_id as int,
                TreeNodeV { parent: Option::Some(parent_id), ..old_t.last() },
            );
            assert(t =~= fin);
            // well-formedness of the updated tree
            assert forall|i: int|
                0 <= i < t.len() implies (match (#[trigger] t[i]).parent {
                Option::Some(p) => p < i,
                Option::None => true,
            }) by {
                if i != child_id && i != parent_id {
                    assert(t[i] == old_t[i]);
                }
            }
            assert forall|i: int, k: int|
                0 <= i < t.len() && 0 <= k < t[i].children.len() implies i
                < #[trigger] t[i].children[k] < t.len() && t[t[i].children[k] as int].parent
                == Option::Some(i as usize) by {
                if i == parent_id {
                    if k < t[i].children.len() - 1 {
                        assert(t[i].children[k] == old_t[i].children[k]);
                        assert(old_t[old_t[i].children[k] as int].parent == Option::Some(
                            i as usize,
                        ));
                        assert(old_t[i].children[k] < old_t.len() - 1) by {
                            if old_t[i].children[k] as int == old_t.len() - 1 {
                                assert(old_t.last().parent is None);
                            }
                        }
                        assert(t[t[i].children[k] as int] == old_t[old_t[i].children[k] as int]);
                    } else {
                        assert(t[i].children[k] == child_id);
                    }
                } else {
                    assert(t[i].children == old_t[i].children);
                    let c = t[i].children[k] as int;
                    assert(old_t[c].parent == Option::Some(i as usize));
                    assert(c != child_id) by {
                        if c == child_id as int {
                            assert(old_t.last().parent is None);
                        }
                    }
                    assert(t[c].parent == old_t[c].parent) by {
                        if c == parent_id as int {
                            assert(t[c].parent == old_t[c].parent);
                        }
                    }
                }
            }
            assert forall|i: int, a: int, b: int|
                0 <= i < t.len() && 0 <= a < b < t[i].children.len() implies #[trigger] t[
                i].children[a] < #[trigger] t[i].children[b] by {
                if i == parent_id {
                    if b == t[i].children.len() - 1 {
                        assert(t[i].children[a] == old_t[i].children[a]);
                        assert(old_t[old_t[i].children[a] as int].parent == Option::Some(
                            parent_id as usize,
                        ));
                        assert(old_t[i].children[a] != child_id) by {
                            if old_t[i].children[a] as int == child_id as int {
                                assert(old_t.last().parent is None);
                            }
                        }
                        assert(t[i].children[b] == child_id);
                    } else {
                        assert(t[i].children[a] == old_t[i].children[a]);
                        assert(t[i].children[b] == old_t[i].children[b]);
                    }
                } else {
                    assert(t[i].children == old_t[i].children);
                }
            }
            assert forall|i: int|
                0 <= i < t.len() && (#[trigger] t[i]).parent is Some implies linked_to_parent(
                t,
                i,
            ) by {
                if i == child_id {
                    assert(t[i].parent->0 == parent_id);
                    assert(t[parent_id as int].children[t[parent_id as int].children.len() - 1]
                        == child_id);
                } else {
                    assert(t[i].parent == old_t[i].parent);
                    assert(linked_to_parent(old_t, i));
                    let p = t[i].parent->0 as int;
                    let k = choose|k: int|
                        0 <= k < old_t[p].children.len() && #[trigger] old_t[p].children[k] == i;
                    if p == parent_id {
                        assert(t[p].children[k] == old_t[p].children[k]);
                        assert(t[p].children[k] == i);
                    } else {
                        assert(t[p].children == old_t[p].children);
                        assert(t[p].children[k] == i);
                    }
                }
            }
        }
    }
}

impl FctTree {
    /// Does `a` lie on the parent chain of `d`?
    pub fn is_ancestor_of(&self, a: usize, d: usize) -> (r: bool)
        requires
            tree_wf(self@),
            d < self@.len(),
        ensures
            r == is_ancestor(self@, a as int, d as int),
        decreases d,
    {
        let parent = self.nodes[d].parent;
        proof {
            assert(self@[d as int].parent == parent);
        }
        match parent {
            Option::Some(p) => {
                assert(p < d);
                if p == a {
                    true
                } else {
                    self.is_ancestor_of(a, p)
                }
            },
            Option::None => false,
        }
    }
}

/// The ancestor chain of a node, from the node itself up to its root.
pub open spec fn spec_chain(t: Seq<TreeNodeV>, id: int) -> Seq<usize>
    decreases id,
{
    if 0 <= id < t.len() {
        match t[id].parent {
            Option::Some(p) => if p < id {
                seq![id as usize] + spec_chain(t, p as int)
            } else {
                seq![id as usize]
            },
            Option::None => seq![id as usize],
        }
    } else {
        Seq::empty()
    }
}

/// Is node `j` a top-level call in scope at extension point `ext`: earlier in
/// the arena, top level, and not an ancestor of `ext`? Earlier means a
/// smaller arena index: indices order calls by insertion, which is what
/// keeps the scope growing monotonically as tests are extended (a
/// lexicographic comparison of the derived ID strings would not, once
/// indices reach two digits).
pub open spec fn in_scope(t: Seq<TreeNodeV>, ext: int, j: int) -> bool {
    0 <= j < t.len() && j < ext && t[j].call.is_top_level() && !is_ancestor(t, j, ext)
}

/// The in-scope node indices below `n`, in increasing order.
pub open spec fn spec_scope_upto(t: Seq<TreeNodeV>, ext: int, n: int) -> Seq<usize>
    decreases n,
{
    if n <= 0 {
        Seq::empty()
    } else {
        spec_scope_upto(t, ext, n - 1) + (if in_scope(t, ext, n - 1) {
            seq![(n - 1) as usize]
        } else {
            Seq::empty()
        })
    }
}

/// Membership in the scope list is exactly the in-scope predicate: the list
/// holds an index below `n` if and only if that node is in scope.
pub proof fn lemma_scope_upto_members(t: Seq<TreeNodeV>, ext: int, n: int, j: usize)
    requires
        0 <= n <= usize::MAX,
    ensures
        spec_scope_upto(t, ext, n).contains(j) <==> (j < n && in_scope(t, ext, j as int)),
    decreases n,
{
    if n > 0 {
        lemma_scope_upto_members(t, ext, n - 1, j);
        let prev = spec_scope_upto(t, ext, n - 1);
        let cur = spec_scope_upto(t, ext, n);
        if in_scope(t, ext, n - 1) {
            assert(cur =~= prev + seq![(n - 1) as usize]);
        } else {
            assert(cur =~= prev);
        }
        if cur.contains(j) {
            let k = choose|k: int| 0 <= k < cur.len() && cur[k] == j;
            if k < prev.len() {
                assert(prev.contains(j));
            } else {
                assert(cur[k] == (n - 1) as usize);
                assert(in_scope(t, ext, n - 1));
            }
        }
        if j < n && in_scope(t, ext, j as int) {
            if j < n - 1 {
                let k = choose|k: int| 0 <= k < prev.len() && prev[k] == j;
                assert(cur[k] == j);
            } else {
                assert(cur[cur.len() - 1] == j);
            }
        }
    }
}

/// The name of the variable holding the return value of the call at index
/// `j`: `ret_val_<module variable>_<unique id>`.
pub open spec fn spec_ret_val_name(mod_var: Seq<char>, call: FunctionCallV, j: usize) -> Seq<
    char,
> {
    "ret_val_"@ + mod_var + "_"@ + spec_uniq_id(call, j)
}

/// The in-scope value that the call at index `j` contributes: its return
/// value variable, tagged with the return of the call's access path.
pub open spec fn spec_scope_entry(mod_var: Seq<char>, t: Seq<TreeNodeV>, j: usize) -> (
    ArgValV,
    Option<APathV>,
) {
    (
        ArgValV::VariableV(spec_ret_val_name(mod_var, t[j as int].call, j)),
        match t[j as int].call.acc_path {
            Option::Some(p) => Option::Some(APathV::ReturnV(Box::new(p))),
            Option::None => Option::None,
        },
    )
}

/// The callback arguments in scope at a node: the parameters of every
/// callback argument of the node itself and of each of its ancestors. The
/// node's own callback parameters are included because a call nested into
/// its callback — the prospective child — sees them; they are the dataflow
/// source for nested extension.
pub open spec fn spec_cb_scope(t: Seq<TreeNodeV>, id: int) -> Seq<ArgValV>
    decreases id,
{
    if 0 <= id < t.len() {
        let own = spec_args_cb_vals(t[id].call.sig.arg_list, spec_uniq_id(t[id].call, id as usize));
        match t[id].parent {
            Option::Some(p) => if p < id {
                own + spec_cb_scope(t, p as int)
            } else {
                own
            },
            Option::None => own,
        }
    } else {
        Seq::empty()
    }
}

/// Mathematical view of a `Test`.
#[verifier::ext_equal]
pub struct TestV {
    pub fct_tree: Seq<TreeNodeV>,
    pub ext_points: Seq<ExtensionPoint>,
    pub loc_id: TestLocIDV,
    pub include_basic_callback: bool,
    pub js_for_basic_cjs_import: Seq<char>,
    pub mod_js_var_name: Seq<char>,
    pub root_level_tabs: usize,
}

/// Representation of a test: an arena of function calls plus its location
/// identity and rendering context. Extension never mutates an executed test;
/// it builds a new test around the grown arena.
#[derive(Debug)]
pub struct Test {
    /// Tree of function calls; siblings are sequential calls, children are
    /// nested calls.
    pub(crate) fct_tree: FctTree,
    /// List of extension points of this test.
    ext_points: Vec<ExtensionPoint>,
    /// ID and location information for this test.
    loc_id: TestLocID,
    /// Whether to include the default basic callback.
    pub(crate) include_basic_callback: bool,
    /// Code importing the module under test.
    pub(crate) js_for_basic_cjs_import: String,
    /// Variable representing the module import: the root of the generated
    /// library calls.
    pub(crate) mod_js_var_name: String,
    /// Indentation level of the base level of the test; only the renderer
    /// reads it.
    pub(crate) root_level_tabs: usize,
}

impl View for Test {
    type V = TestV;

    closed spec fn view(&self) -> TestV {
        TestV {
            fct_tree: self.fct_tree@,
            ext_points: self.ext_points@,
            loc_id: self.loc_id@,
            include_basic_callback: self.include_basic_callback,
            js_for_basic_cjs_import: self.js_for_basic_cjs_import@,
            mod_js_var_name: self.mod_js_var_name@,
            root_level_tabs: self.root_level_tabs,
        }
    }
}

impl Clone for Test {
    /// Cloning preserves the view.
    fn clone(&self) -> (res: Self)
        ensures
            res@ == self@,
    {
        let r = Test {
            fct_tree: self.fct_tree.clone(),
            ext_points: self.ext_points.clone(),
            loc_id: self.loc_id.clone(),
            include_basic_callback: self.include_basic_callback,
            js_for_basic_cjs_import: self.js_for_basic_cjs_import.clone(),
            mod_js_var_name: self.mod_js_var_name.clone(),
            root_level_tabs: self.root_level_tabs,
        };
        assert(r.ext_points@ =~= self.ext_points@);
        assert(r@ =~= self@);
        r
    }
}

impl Test {
    /// Constructor: an empty test for the given module.
    pub fn new(
        mod_rep: &NpmModule,
        cur_test_id: usize,
        test_dir_path: String,
        test_file_prefix: String,
        api_src_dir: Option<String>,
    ) -> (r: Test)
        ensures
            r@.fct_tree =~= Seq::<TreeNodeV>::empty(),
            tree_wf(r@.fct_tree),
            r@.ext_points =~= Seq::<ExtensionPoint>::empty(),
            r@.loc_id == (TestLocIDV {
                cur_test_id: cur_test_id,
                test_dir_path: test_dir_path@,
                test_file_prefix: test_file_prefix@,
            }),
            !r@.include_basic_callback,
            r@.js_for_basic_cjs_import == crate::module_reps::spec_cjs_import(
                mod_rep@.lib,
                mod_rep@.import_code,
                view_opt_string(api_src_dir),
            ),
            r@.mod_js_var_name == spec_js_var_name(mod_rep@.lib),
            r@.root_level_tabs == 0,
    {
        let r = Test {
            fct_tree: FctTree::new(),
            ext_points: Vec::new(),
            loc_id: TestLocID { cur_test_id, test_dir_path, test_file_prefix },
            include_basic_callback: false,
            js_for_basic_cjs_import: mod_rep.get_js_for_basic_cjs_import(api_src_dir),
            mod_js_var_name: mod_rep.get_mod_js_var_name(),
            root_level_tabs: 0,
        };
        assert(r.ext_points@ =~= Seq::<ExtensionPoint>::empty());
        r
    }

    /// The test's ID.
    pub fn get_id(&self) -> (r: usize)
        ensures
            r == self@.loc_id.cur_test_id,
    {
        self.loc_id.cur_test_id
    }

    /// The test's location identity.
    pub fn get_loc_id(&self) -> (r: &TestLocID)
        ensures
            r@ == self@.loc_id,
    {
        &self.loc_id
    }

    /// The function call at the given node ID, if that node exists.
    pub fn get_fct_call_from_id(&self, ext_id: &ExtensionPointID) -> (r: Option<&FunctionCall>)
        ensures
            match r {
                Option::Some(c) => *ext_id < self@.fct_tree.len() && c@ == self@.fct_tree[*ext_id
                    as int].call,
                Option::None => *ext_id >= self@.fct_tree.len(),
            },
    {
        if *ext_id < self.fct_tree.count() {
            Option::Some(self.fct_tree.get_call(*ext_id))
        } else {
            Option::None
        }
    }

    /// Is the test's tree empty?
    pub fn is_empty(&self) -> (r: bool)
        ensures
            r == (self@.fct_tree.len() == 0),
    {
        self.fct_tree.count() == 0
    }

    /// Read access to the function tree.
    pub fn get_fct_tree(&self) -> (r: &FctTree)
        ensures
            r@ == self@.fct_tree,
    {
        &self.fct_tree
    }

    /// The module variable name of this test.
    pub fn get_mod_js_var_name(&self) -> (r: &str)
        ensures
            r@ == self@.mod_js_var_name,
    {
        self.mod_js_var_name.as_str()
    }

    /// The import code of this test.
    pub fn get_js_for_basic_cjs_import(&self) -> (r: &str)
        ensures
            r@ == self@.js_for_basic_cjs_import,
    {
        self.js_for_basic_cjs_import.as_str()
    }

    /// Whether the basic callback is included.
    pub fn get_include_basic_callback(&self) -> (r: bool)
        ensures
            r == self@.include_basic_callback,
    {
        self.include_basic_callback
    }

    /// The base indentation level.
    pub fn get_root_level_tabs(&self) -> (r: usize)
        ensures
            r == self@.root_level_tabs,
    {
        self.root_level_tabs
    }

    /// The unique ID string for the node at the given index; see
    /// `spec_uniq_id`.
    pub fn get_uniq_id_for_call(&self, node_id: usize) -> (r: String)
        requires
            node_id < self@.fct_tree.len(),
        ensures
            r@ == spec_uniq_id(self@.fct_tree[node_id as int].call, node_id),
    {
        let call = self.fct_tree.get_call(node_id);
        let mut r = usize_to_string(node_id);
        match call.get_parent_call_id() {
            Option::Some(p) => {
                r.append("_pcid");
                let d = usize_to_string(p);
                r.append(d.as_str());
            },
            Option::None => (),
        }
        match call.get_parent_arg_position_nesting() {
            Option::Some(pos) => {
                r.append("_pos");
                r.append(pos.as_str());
            },
            Option::None => (),
        }
        assert(r@ =~= spec_uniq_id(self@.fct_tree[node_id as int].call, node_id));
        r
    }

    /// The top-level return values in scope at the given extension point,
    /// each tagged with its access path; see `in_scope` and
    /// `spec_scope_entry`.
    pub fn get_ret_values_accessible_from_ext_point(&self, ext_id: ExtensionPointID) -> (r: Vec<
        ArgValAPTracked,
    >)
        requires
            tree_wf(self@.fct_tree),
            ext_id < self@.fct_tree.len(),
        ensures
            ({
                let idxs = spec_scope_upto(
                    self@.fct_tree,
                    ext_id as int,
                    self@.fct_tree.len() as int,
                );
                r@.len() == idxs.len() && forall|k: int|
                    0 <= k < idxs.len() ==> ((#[trigger] r@[k].val)@, view_opt_ap_owned(
                        r@[k].acc_path,
                    )) == spec_scope_entry(self@.mod_js_var_name, self@.fct_tree, idxs[k])
            }),
    {
        let n = self.fct_tree.count();
        let mut r: Vec<ArgValAPTracked> = Vec::new();
        let mut j: usize = 0;
        while j < n
            invariant
                tree_wf(self@.fct_tree),
                ext_id < self@.fct_tree.len(),
                n == self@.fct_tree.len(),
                j <= n,
                ({
                    let idxs = spec_scope_upto(self@.fct_tree, ext_id as int, j as int);
                    r@.len() == idxs.len() && forall|k: int|
                        0 <= k < idxs.len() ==> ((#[trigger] r@[k].val)@, view_opt_ap_owned(
                            r@[k].acc_path,
                        )) == spec_scope_entry(self@.mod_js_var_name, self@.fct_tree, idxs[k])
                }),
            decreases n - j,
        {
            let node = self.fct_tree.get(j);
            let top_level = matches!(node.call.get_parent_call_id(), Option::None) && matches!(
                node.call.get_parent_arg_position_nesting(),
                Option::None,
            );
            if j < ext_id && top_level && !self.fct_tree.is_ancestor_of(j, ext_id) {
                assert(in_scope(self@.fct_tree, ext_id as int, j as int));
                let uniq = self.get_uniq_id_for_call(j);
                let mut name = String::new();
                name.append("ret_val_");
                name.append(self.mod_js_var_name.as_str());
                name.append("_");
                name.append(uniq.as_str());
                let acc_path: Option<AccessPathModuleCentred> = match node.call.get_acc_path() {
                    Option::Some(p) => Option::Some(
                        AccessPathModuleCentred::ReturnPath(Box::new(p.clone())),
                    ),
                    Option::None => Option::None,
                };
                assert(name@ =~= spec_ret_val_name(
                    self@.mod_js_var_name,
                    self@.fct_tree[j as int].call,
                    j,
                ));
                r.push(ArgValAPTracked { val: ArgVal::Variable(name), acc_path });
            } else {
                assert(!in_scope(self@.fct_tree, ext_id as int, j as int));
            }
            proof {
                assert(spec_scope_upto(self@.fct_tree, ext_id as int, j + 1)
                    =~= spec_scope_upto(self@.fct_tree, ext_id as int, j as int) + (if in_scope(
                    self@.fct_tree,
                    ext_id as int,
                    j as int,
                ) {
                    seq![j]
                } else {
                    Seq::<usize>::empty()
                }));
            }
            j = j + 1;
        }
        r
    }

    /// The callback arguments in scope at the given extension point: the
    /// parameters of every callback argument of it and of its ancestors; see
    /// `spec_cb_scope`.
    pub fn get_cb_arg_values_accessible_from_ext_point(&self, ext_id: ExtensionPointID) -> (r:
        Vec<ArgVal>)
        requires
            tree_wf(self@.fct_tree),
            ext_id < self@.fct_tree.len(),
        ensures
            r@.map(|i: int, v: ArgVal| v@) == spec_cb_scope(self@.fct_tree, ext_id as int),
        decreases ext_id,
    {
        let uniq = self.get_uniq_id_for_call(ext_id);
        let mut r = self.fct_tree.get_call(ext_id).get_all_cb_args_vals(&uniq);
        let node = self.fct_tree.get(ext_id);
        match node.parent {
            Option::Some(p) => {
                let mut rest = self.get_cb_arg_values_accessible_from_ext_point(p);
                let ghost own = r@;
                let ghost more = rest@;
                r.append(&mut rest);
                proof {
                    assert(r@ =~= own + more);
                    assert(r@.map(|i: int, v: ArgVal| v@) =~= own.map(|i: int, v: ArgVal| v@)
                        + more.map(|i: int, v: ArgVal| v@));
                }
            },
            Option::None => (),
        }
        r
    }
}

/// A function call as it stands in the tree after insertion at index
/// `new_id`: each raw-callback argument carries the node's ID.
pub open spec fn spec_prepared_call(c: FunctionCallV, new_id: usize) -> FunctionCallV {
    FunctionCallV {
        sig: FunctionSignatureV {
            arg_list: Seq::new(
                c.sig.arg_list.len(),
                |i: int|
                    if 0 <= i < c.sig.arg_list.len() && c.sig.arg_list[i].arg_type
                        is CallbackType {
                        spec_with_cb_id(c.sig.arg_list[i], new_id)
                    } else {
                        c.sig.arg_list[i]
                    },
            ),
            ..c.sig
        },
        ..c
    }
}

impl Test {
    /// Generate a test holding exactly the one call given.
    pub fn test_one_call(
        mod_rep: &NpmModule,
        one_call: FunctionCall,
        include_basic_callback: bool,
        cur_test_id: usize,
        test_dir_path: String,
        test_file_prefix: String,
        api_src_dir: Option<String>,
    ) -> (r: (ExtensionPointID, Test))
        ensures
            r.0 == 0,
            r.1@.fct_tree =~= Seq::<TreeNodeV>::empty().push(
                TreeNodeV { call: one_call@, parent: Option::None, children: Seq::empty() },
            ),
            tree_wf(r.1@.fct_tree),
            r.1@.include_basic_callback == include_basic_callback,
            r.1@.loc_id == (TestLocIDV {
                cur_test_id: cur_test_id,
                test_dir_path: test_dir_path@,
                test_file_prefix: test_file_prefix@,
            }),
            r.1@.mod_js_var_name == spec_js_var_name(mod_rep@.lib),
    {
        let mut fct_tree = FctTree::new();
        let one_call_id = fct_tree.new_node(one_call);
        let r = Test {
            fct_tree,
            ext_points: Vec::new(),
            loc_id: TestLocID { cur_test_id, test_dir_path, test_file_prefix },
            include_basic_callback,
            js_for_basic_cjs_import: mod_rep.get_js_for_basic_cjs_import(api_src_dir),
            mod_js_var_name: mod_rep.get_mod_js_var_name(),
            root_level_tabs: 0,
        };
        (one_call_id, r)
    }

    /// Splice `new_call` into `base_test` at the given extension point,
    /// producing the extended test and the new node's ID. A nested extension
    /// makes the call a child of the extension point; a sequential extension
    /// makes it a sibling (a new root when the point is itself a root). With
    /// no extension point the call starts a fresh root. The callback
    /// arguments of the new call are tagged with the new node's ID; an error
    /// is returned (and the base test given up) exactly when a callback-typed
    /// argument holds no raw callback.
    pub fn extend_with_call(
        base_test: Test,
        ext_id: Option<ExtensionPointID>,
        cb_arg_pos: Option<String>,
        ext_type: ExtensionType,
        new_call: FunctionCall,
        new_test_id: usize,
    ) -> (r: Result<(ExtensionPointID, Test), crate::errors::DFError>)
        requires
            tree_wf(base_test@.fct_tree),
            match ext_id {
                Option::Some(e) => e < base_test@.fct_tree.len(),
                Option::None => true,
            },
        ensures
            match r {
                Result::Ok((new_id, t2)) => {
                    let base = base_test@.fct_tree;
                    let prepared = spec_prepared_call(new_call@, new_id);
                    &&& new_id == base.len()
                    &&& tree_wf(t2@.fct_tree)
                    &&& t2@.fct_tree.len() == base.len() + 1
                    &&& t2@.loc_id == (TestLocIDV {
                        cur_test_id: new_test_id,
                        ..base_test@.loc_id
                    })
                    &&& !t2@.include_basic_callback
                    &&& t2@.ext_points =~= Seq::<ExtensionPoint>::empty()
                    &&& t2@.js_for_basic_cjs_import == base_test@.js_for_basic_cjs_import
                    &&& t2@.mod_js_var_name == base_test@.mod_js_var_name
                    &&& t2@.root_level_tabs == base_test@.root_level_tabs
                    &&& (forall|i: int|
                        0 <= i < base.len() ==> (#[trigger] t2@.fct_tree[i]).call == base[i].call
                            && t2@.fct_tree[i].parent == base[i].parent)
                    &&& (match (ext_type, ext_id) {
                        (ExtensionType::Nested, Option::Some(e)) => {
                            &&& t2@.fct_tree[new_id as int].call == (FunctionCallV {
                                parent_call_id: Option::Some(e),
                                parent_arg_position_nesting: view_opt_string(cb_arg_pos),
                                ..prepared
                            })
                            &&& t2@.fct_tree[new_id as int].parent == Option::Some(e)
                            &&& (forall|i: int|
                                0 <= i < base.len() && i != e ==> (#[trigger] t2@.fct_tree[i])
                                    == base[i])
                        },
                        (ExtensionType::Sequential, Option::Some(e)) => {
                            &&& t2@.fct_tree[new_id as int].call == prepared
                            &&& t2@.fct_tree[new_id as int].parent == base[e as int].parent
                            &&& (forall|i: int|
                                0 <= i < base.len() && base[e as int].parent != Option::Some(
                                    i as usize,
                                ) ==> (#[trigger] t2@.fct_tree[i]) == base[i])
                        },
                        (_, Option::None) => {
                            &&& t2@.fct_tree[new_id as int].call == prepared
                            &&& t2@.fct_tree[new_id as int].parent is None
                            &&& (forall|i: int|
                                0 <= i < base.len() ==> (#[trigger] t2@.fct_tree[i]) == base[i])
                        },
                    })
                },
                Result::Err(e) => e == crate::errors::DFError::TestGenError(
                    TestGenError::ArgTypeValMismatch,
                ) || e == crate::errors::DFError::TestGenError(TestGenError::ArgValNotSetYet),
            },
            // the error comes exactly when some callback-typed argument of
            // the new call holds no raw callback
            r is Err <==> exists|i: int|
                0 <= i < new_call@.sig.arg_list.len() && (#[trigger] new_call@.sig.arg_list[i].arg_type) is CallbackType && !(new_call@.sig.arg_list[i].arg_val
                    matches Option::Some(ArgValV::CallbackV(CallbackValV::RawCallbackV(_)))),
    {
        let ghost orig_call = new_call@;
        let ghost base = base_test@.fct_tree;
        let mut new_call = new_call;
        let mut base_test = base_test;
        let new_id = base_test.fct_tree.count();
        let res = new_call.update_cb_args_with_id(new_id);
        match res {
            Result::Ok(()) => (),
            Result::Err(e) => {
                return Result::Err(crate::errors::DFError::TestGenError(e));
            },
        }
        let ghost prepared = spec_prepared_call(orig_call, new_id);
        proof {
            assert(new_call@.sig.arg_list =~= prepared.sig.arg_list);
            assert(new_call@ =~= prepared);
        }
        let id: usize;
        match (ext_type, &ext_id) {
            (ExtensionType::Nested, Option::Some(e)) => {
                let e: usize = *e;
                new_call.set_parent_arg_position_nesting(cb_arg_pos);
                new_call.set_parent_call_id(Option::Some(e));
                proof {
                    assert(new_call@ =~= (FunctionCallV {
                        parent_call_id: Option::Some(e),
                        parent_arg_position_nesting: view_opt_string(cb_arg_pos),
                        ..prepared
                    }));
                }
                id = base_test.fct_tree.new_node(new_call);
                base_test.fct_tree.append_child(e);
            },
            (ExtensionType::Sequential, Option::Some(e)) => {
                let e: usize = *e;
                let parent_opt: Option<usize> = base_test.fct_tree.get(e).parent;
                id = base_test.fct_tree.new_node(new_call);
                match parent_opt {
                    Option::Some(p) => {
                        base_test.fct_tree.append_child(p);
                    },
                    Option::None => (),
                }
            },
            (_, Option::None) => {
                id = base_test.fct_tree.new_node(new_call);
            },
        }
        let r = Test {
            fct_tree: base_test.fct_tree,
            ext_points: Vec::new(),
            loc_id: base_test.loc_id.copy_with_new_test_id(new_test_id),
            include_basic_callback: false,
            js_for_basic_cjs_import: base_test.js_for_basic_cjs_import,
            mod_js_var_name: base_test.mod_js_var_name,
            root_level_tabs: base_test.root_level_tabs,
        };
        assert(r@.ext_points =~= Seq::<ExtensionPoint>::empty());
        Result::Ok((id, r))
    }
}

/// Ancestry only depends on the parent links of the nodes below the length
/// of the smaller tree.
pub proof fn lemma_is_ancestor_frame(t: Seq<TreeNodeV>, t2: Seq<TreeNodeV>, a: int, d: int)
    requires
        0 <= d < t.len(),
        t.len() <= t2.len(),
        forall|i: int| 0 <= i < t.len() ==> (#[trigger] t2[i]).parent == t[i].parent,
        forall|i: int|
            0 <= i < t.len() ==> (match (#[trigger] t[i]).parent {
                Option::Some(p) => p < i,
                Option::None => true,
            }),
    ensures
        is_ancestor(t2, a, d) == is_ancestor(t, a, d),
    decreases d,
{
    match t[d].parent {
        Option::Some(p) => {
            if p < d {
                lemma_is_ancestor_frame(t, t2, a, p as int);
            }
        },
        Option::None => {},
    }
}

/// Definitional step of `is_ancestor` at a node with an in-range parent.
proof fn lemma_is_ancestor_step(t: Seq<TreeNodeV>, a: int, d: int)
    requires
        0 <= d < t.len(),
        t[d].parent is Some,
        (t[d].parent->0 as int) < d,
    ensures
        is_ancestor(t, a, d) == ((t[d].parent->0 as int) == a || is_ancestor(
            t,
            a,
            t[d].parent->0 as int,
        )),
{
}

/// Scope monotonicity: when a test is extended at point `x`, everything that
/// was in scope at `x` is in scope at the new call. The new tree `t2` has one
/// more node, whose parent is `x` (nested extension) or `x`'s own parent
/// (sequential extension); all other calls and parent links are unchanged.
pub proof fn lemma_scope_monotonic(t: Seq<TreeNodeV>, t2: Seq<TreeNodeV>, x: usize, j: int)
    requires
        tree_wf(t),
        0 <= x < t.len(),
        t2.len() == t.len() + 1,
        forall|i: int|
            0 <= i < t.len() ==> (#[trigger] t2[i]).call == t[i].call && t2[i].parent
                == t[i].parent,
        t2[t.len() as int].parent == Option::Some(x) || t2[t.len() as int].parent == t[x as int]
            .parent,
        in_scope(t, x as int, j),
    ensures
        in_scope(t2, t.len() as int, j),
{
    let n = t.len() as int;
    assert(t2[j].call == t[j].call);
    assert(!is_ancestor(t2, j, n)) by {
        if t2[n].parent == Option::Some(x) {
            assert(0 <= n < t2.len());
            assert(x < n);
            lemma_is_ancestor_step(t2, j, n);
            lemma_is_ancestor_frame(t, t2, j, x as int);
            assert(!is_ancestor(t, j, x as int));
            assert(j != x);
        } else {
            match t[x as int].parent {
                Option::Some(p) => {
                    assert(p < x);
                    assert(t2[n].parent == Option::Some(p));
                    lemma_is_ancestor_step(t2, j, n);
                    lemma_is_ancestor_frame(t, t2, j, p as int);
                    lemma_is_ancestor_step(t, j, x as int);
                    assert(is_ancestor(t, j, x as int) == (p == j || is_ancestor(
                        t,
                        j,
                        p as int,
                    )));
                },
                Option::None => {
                    assert(t2[n].parent is None);
                },
            }
        }
    }
}

/// One value of an executed trace, as far as the diagnosis reads it: its JSON
/// rendering and its structure.
#[derive(Debug)]
pub struct TraceVal {
    /// The JSON rendering of the value.
    pub text: String,
    /// The structure, as far as the diagnosis reads it.
    pub kind: TraceValKind,
}

/// The shapes of trace values the diagnosis distinguishes.
#[derive(Debug)]
pub enum TraceValKind {
    /// JSON null.
    Null,
    /// JSON true.
    True,
    /// An array; only its string elements, in order.
    StrList(Vec<String>),
    /// Anything else.
    Other,
}

/// One key of one record of an executed trace.
#[derive(Debug)]
pub struct TraceEntry {
    /// The key.
    pub key: String,
    /// The value under it.
    pub val: TraceVal,
}

/// One record of an executed trace: one JSON object, in emission order.
#[derive(Debug)]
pub struct TraceRecord {
    /// The object's entries, in order.
    pub entries: Vec<TraceEntry>,
}

/// An executed test's whole trace: the JSON array the runtime printed.
#[derive(Debug)]
pub struct TraceData {
    /// The records, in emission order.
    pub records: Vec<TraceRecord>,
}

/// Mathematical view of a trace value.
#[verifier::ext_equal]
pub struct TraceValV {
    pub text: Seq<char>,
    pub kind: TraceValKindV,
}

#[verifier::ext_equal]
pub enum TraceValKindV {
    NullK,
    TrueK,
    StrListK(Seq<Seq<char>>),
    OtherK,
}

#[verifier::ext_equal]
pub struct TraceEntryV {
    pub key: Seq<char>,
    pub val: TraceValV,
}

#[verifier::ext_equal]
pub struct TraceRecordV {
    pub entries: Seq<TraceEntryV>,
}

impl View for TraceVal {
    type V = TraceValV;

    open spec fn view(&self) -> TraceValV {
        TraceValV {
            text: self.text@,
            kind: match self.kind {
                TraceValKind::Null => TraceValKindV::NullK,
                TraceValKind::True => TraceValKindV::TrueK,
                TraceValKind::StrList(ss) => TraceValKindV::StrListK(
                    Seq::new(
                        ss@.len(),
                        |i: int|
                            if 0 <= i < ss@.len() {
                                ss@[i]@
                            } else {
                                Seq::empty()
                            },
                    ),
                ),
                TraceValKind::Other => TraceValKindV::OtherK,
            },
        }
    }
}

impl View for TraceEntry {
    type V = TraceEntryV;

    open spec fn view(&self) -> TraceEntryV {
        TraceEntryV { key: self.key@, val: self.val@ }
    }
}

impl View for TraceRecord {
    type V = TraceRecordV;

    open spec fn view(&self) -> TraceRecordV {
        TraceRecordV {
            entries: Seq::new(
                self.entries@.len(),
                |i: int|
                    if 0 <= i < self.entries@.len() {
                        self.entries@[i]@
                    } else {
                        TraceEntryV {
                            key: Seq::empty(),
                            val: TraceValV { text: Seq::empty(), kind: TraceValKindV::OtherK },
                        }
                    },
            ),
        }
    }
}

impl View for TraceData {
    type V = Seq<TraceRecordV>;

    open spec fn view(&self) -> Seq<TraceRecordV> {
        Seq::new(
            self.records@.len(),
            |i: int|
                if 0 <= i < self.records@.len() {
                    self.records@[i]@
                } else {
                    TraceRecordV { entries: Seq::empty() }
                },
        )
    }
}

/// Is this record exactly the one-entry object `{<key>: true}`?
pub open spec fn spec_is_marker(rec: TraceRecordV, key: Seq<char>) -> bool {
    rec.entries.len() == 1 && rec.entries[0].key == key && rec.entries[0].val.kind
        is TrueK
}

/// Does any record of the trace equal the marker `{<key>: true}`?
pub open spec fn spec_has_marker(trace: Seq<TraceRecordV>, key: Seq<char>) -> bool {
    exists|i: int| 0 <= i < trace.len() && spec_is_marker(#[trigger] trace[i], key)
}

/// The first entry of a record under the given key, if any.
pub open spec fn spec_entry_val(rec: TraceRecordV, key: Seq<char>) -> Option<TraceValV>
    decreases rec.entries.len(),
{
    if rec.entries.len() == 0 {
        Option::None
    } else if rec.entries[0].key == key {
        Option::Some(rec.entries[0].val)
    } else {
        spec_entry_val(TraceRecordV { entries: rec.entries.drop_first() }, key)
    }
}

/// Does the record carry a non-null value under the key?
pub open spec fn spec_has_cb(rec: TraceRecordV, key: Seq<char>) -> bool {
    match spec_entry_val(rec, key) {
        Option::Some(v) => !(v.kind is NullK),
        Option::None => false,
    }
}

/// The first index of the marker `{<key>: true}` in the trace, or `-1`.
pub open spec fn spec_first_marker(trace: Seq<TraceRecordV>, key: Seq<char>) -> int
    decreases trace.len(),
{
    if trace.len() == 0 {
        -1
    } else if spec_is_marker(trace[0], key) {
        0
    } else {
        let r = spec_first_marker(trace.drop_first(), key);
        if r < 0 {
            -1
        } else {
            r + 1
        }
    }
}

/// The last index of a record carrying a non-null value under the key, or
/// `-1`.
pub open spec fn spec_last_cb(trace: Seq<TraceRecordV>, key: Seq<char>) -> int
    decreases trace.len(),
{
    if trace.len() == 0 {
        -1
    } else if spec_has_cb(trace.last(), key) {
        trace.len() - 1
    } else {
        spec_last_cb(trace.drop_last(), key)
    }
}

/// Classification of one call from the trace, by its `done` and
/// `callback_exec` markers: both present in completion-then-callback order is
/// an asynchronous callback, the reverse order a synchronous one, a
/// completion alone means the callback never fired, and a missing completion
/// is an execution error. The second component is the recorded callback
/// argument position, where one was seen.
pub open spec fn spec_node_result(
    trace: Seq<TraceRecordV>,
    done_key: Seq<char>,
    cb_key: Seq<char>,
) -> (FunctionCallResult, Option<Seq<char>>) {
    let done = spec_first_marker(trace, done_key);
    let cb = spec_last_cb(trace, cb_key);
    let pos = if cb >= 0 {
        match spec_entry_val(trace[cb], cb_key) {
            Option::Some(v) => Option::Some(v.text),
            Option::None => Option::None,
        }
    } else {
        Option::<Seq<char>>::None
    };
    (
        if done >= 0 && cb >= 0 {
            if done < cb {
                FunctionCallResult::SingleCallback(
                    SingleCallCallbackTestResult::CallbackCalledAsync,
                )
            } else {
                FunctionCallResult::SingleCallback(
                    SingleCallCallbackTestResult::CallbackCalledSync,
                )
            }
        } else if done >= 0 {
            FunctionCallResult::SingleCallback(SingleCallCallbackTestResult::NoCallbackCalled)
        } else {
            FunctionCallResult::ExecutionError
        },
        pos,
    )
}

/// The `error_<id>` key of a node.
pub open spec fn spec_error_key(call: FunctionCallV, id: usize) -> Seq<char> {
    "error_"@ + spec_uniq_id(call, id)
}

/// The `done_<id>` key of a node.
pub open spec fn spec_done_key(call: FunctionCallV, id: usize) -> Seq<char> {
    "done_"@ + spec_uniq_id(call, id)
}

/// The `callback_exec_<id>` key of a node.
pub open spec fn spec_cb_key(call: FunctionCallV, id: usize) -> Seq<char> {
    "callback_exec_"@ + spec_uniq_id(call, id)
}

/// The first node (in arena order) whose error marker occurs in the trace, or
/// the number of nodes if there is none.
pub open spec fn spec_first_err_node(t: Seq<TreeNodeV>, trace: Seq<TraceRecordV>, n: int) -> int
    decreases n,
{
    if n <= 0 {
        0
    } else {
        let before = spec_first_err_node(t, trace, n - 1);
        if before < n - 1 {
            before
        } else if spec_has_marker(trace, spec_error_key(t[n - 1].call, (n - 1) as usize)) {
            n - 1
        } else {
            n
        }
    }
}

/// The diagnosed per-node results of a test: one entry per node in arena
/// order, stopping right after the first node classified by an error marker
/// (a test with an error anywhere is not trusted further, by design).
pub open spec fn spec_diagnose(t: Seq<TreeNodeV>, trace: Seq<TraceRecordV>) -> Seq<
    (usize, (FunctionCallResult, Option<Seq<char>>)),
> {
    let stop = spec_first_err_node(t, trace, t.len() as int);
    let n = if stop < t.len() {
        stop + 1
    } else {
        t.len() as int
    };
    Seq::new(
        n as nat,
        |j: int|
            if j == stop {
                (j as usize, (FunctionCallResult::ExecutionError, Option::<Seq<char>>::None))
            } else {
                (
                    j as usize,
                    spec_node_result(
                        trace,
                        spec_done_key(t[j].call, j as usize),
                        spec_cb_key(t[j].call, j as usize),
                    ),
                )
            },
    )
}

/// `spec_entry_val` looks past non-matching front entries.
proof fn lemma_entry_val_skip(entries: Seq<TraceEntryV>, key: Seq<char>, i: int)
    requires
        0 <= i <= entries.len(),
        forall|k: int| 0 <= k < i ==> (#[trigger] entries[k]).key != key,
    ensures
        spec_entry_val(TraceRecordV { entries }, key) == spec_entry_val(
            TraceRecordV { entries: entries.skip(i) },
            key,
        ),
    decreases i,
{
    if i == 0 {
        assert(entries.skip(0) =~= entries);
    }
    if i > 0 {
        assert(entries[0].key != key);
        assert(entries.drop_first() =~= entries.skip(1));
        assert(forall|k: int|
            0 <= k < entries.skip(1).len() ==> (#[trigger] entries.skip(1)[k]).key == entries[k
                + 1].key);
        lemma_entry_val_skip(entries.skip(1), key, i - 1);
        assert(entries.skip(1).skip(i - 1) =~= entries.skip(i));
        assert(spec_entry_val(TraceRecordV { entries }, key) == spec_entry_val(
            TraceRecordV { entries: entries.skip(1) },
            key,
        ));
    }
}

/// The first entry of a record under the given key.
fn trace_entry_val<'a>(rec: &'a TraceRecord, key: &str) -> (r: Option<&'a TraceVal>)
    ensures
        (match r {
            Option::Some(v) => Option::Some(v@),
            Option::None => Option::<TraceValV>::None,
        }) == spec_entry_val(rec@, key@),
{
    let n = rec.entries.len();
    let mut i: usize = 0;
    while i < n
        invariant
            n == rec@.entries.len(),
            i <= n,
            forall|k: int| 0 <= k < i ==> (#[trigger] rec@.entries[k]).key != key@,
        decreases n - i,
    {
        if str_eq(rec.entries[i].key.as_str(), key) {
            proof {
                lemma_entry_val_skip(rec@.entries, key@, i as int);
                assert(rec@.entries.skip(i as int)[0] == rec@.entries[i as int]);
                assert(spec_entry_val(
                    TraceRecordV { entries: rec@.entries.skip(i as int) },
                    key@,
                ) == Option::Some(rec@.entries[i as int].val));
            }
            return Option::Some(&rec.entries[i].val);
        }
        i = i + 1;
    }
    proof {
        lemma_entry_val_skip(rec@.entries, key@, n as int);
        assert(rec@.entries.skip(n as int) =~= Seq::<TraceEntryV>::empty());
    }
    Option::None
}

/// Is this record exactly the one-entry object `{<key>: true}`?
fn trace_is_marker(rec: &TraceRecord, key: &str) -> (r: bool)
    ensures
        r == spec_is_marker(rec@, key@),
{
    if rec.entries.len() != 1 {
        return false;
    }
    str_eq(rec.entries[0].key.as_str(), key) && matches!(rec.entries[0].val.kind,
    TraceValKind::True)
}

/// Does the record carry a non-null value under the key?
fn trace_has_cb(rec: &TraceRecord, key: &str) -> (r: bool)
    ensures
        r == spec_has_cb(rec@, key@),
{
    match trace_entry_val(rec, key) {
        Option::Some(v) => !matches!(v.kind, TraceValKind::Null),
        Option::None => false,
    }
}

/// `spec_first_marker` agrees with a witness of a first occurrence.
proof fn lemma_first_marker_unique(trace: Seq<TraceRecordV>, key: Seq<char>, j: int)
    requires
        0 <= j < trace.len(),
        spec_is_marker(trace[j], key),
        forall|k: int| 0 <= k < j ==> !spec_is_marker(#[trigger] trace[k], key),
    ensures
        spec_first_marker(trace, key) == j,
    decreases j,
{
    if j == 0 {
    } else {
        assert(!spec_is_marker(trace[0], key));
        let t2 = trace.drop_first();
        assert(forall|k: int| 0 <= k < t2.len() ==> t2[k] == trace[k + 1]);
        lemma_first_marker_unique(t2, key, j - 1);
    }
}

/// `spec_first_marker` is negative exactly when no record is the marker.
proof fn lemma_first_marker_none(trace: Seq<TraceRecordV>, key: Seq<char>)
    requires
        forall|k: int| 0 <= k < trace.len() ==> !spec_is_marker(#[trigger] trace[k], key),
    ensures
        spec_first_marker(trace, key) < 0,
    decreases trace.len(),
{
    if trace.len() > 0 {
        let t2 = trace.drop_first();
        assert(forall|k: int| 0 <= k < t2.len() ==> t2[k] == trace[k + 1]);
        lemma_first_marker_none(t2, key);
    }
}

/// The first record equal to the marker `{<key>: true}`, if any.
fn trace_first_marker(trace: &TraceData, key: &str) -> (r: Option<usize>)
    ensures
        (match r {
            Option::Some(j) => j < trace@.len() && spec_first_marker(trace@, key@) == j,
            Option::None => spec_first_marker(trace@, key@) < 0,
        }),
{
    let n = trace.records.len();
    let mut i: usize = 0;
    while i < n
        invariant
            n == trace@.len(),
            i <= n,
            forall|k: int| 0 <= k < i ==> !spec_is_marker(#[trigger] trace@[k], key@),
        decreases n - i,
    {
        if trace_is_marker(&trace.records[i], key) {
            proof {
                lemma_first_marker_unique(trace@, key@, i as int);
            }
            return Option::Some(i);
        }
        i = i + 1;
    }
    proof {
        lemma_first_marker_none(trace@, key@);
    }
    Option::None
}

/// `spec_last_cb` agrees with a witness of a last occurrence.
proof fn lemma_last_cb_unique(trace: Seq<TraceRecordV>, key: Seq<char>, j: int)
    requires
        0 <= j < trace.len(),
        spec_has_cb(trace[j], key),
        forall|k: int| j < k < trace.len() ==> !spec_has_cb(#[trigger] trace[k], key),
    ensures
        spec_last_cb(trace, key) == j,
    decreases trace.len(),
{
    if j == trace.len() - 1 {
    } else {
        assert(!spec_has_cb(trace.last(), key));
        let t2 = trace.drop_last();
        assert(forall|k: int| 0 <= k < t2.len() ==> t2[k] == trace[k]);
        lemma_last_cb_unique(t2, key, j);
    }
}

/// `spec_last_cb` is negative exactly when no record carries the key.
proof fn lemma_last_cb_none(trace: Seq<TraceRecordV>, key: Seq<char>)
    requires
        forall|k: int| 0 <= k < trace.len() ==> !spec_has_cb(#[trigger] trace[k], key),
    ensures
        spec_last_cb(trace, key) < 0,
    decreases trace.len(),
{
    if trace.len() > 0 {
        let t2 = trace.drop_last();
        assert(forall|k: int| 0 <= k < t2.len() ==> t2[k] == trace[k]);
        lemma_last_cb_none(t2, key);
    }
}

/// The last record carrying a non-null value under the key, if any.
fn trace_last_cb(trace: &TraceData, key: &str) -> (r: Option<usize>)
    ensures
        (match r {
            Option::Some(j) => j < trace@.len() && spec_last_cb(trace@, key@) == j,
            Option::None => spec_last_cb(trace@, key@) < 0,
        }),
{
    let n = trace.records.len();
    let mut best: Option<usize> = Option::None;
    let mut i: usize = 0;
    while i < n
        invariant
            n == trace@.len(),
            i <= n,
            match best {
                Option::Some(b) => b < i && spec_has_cb(trace@[b as int], key@) && forall|k: int|
                    b < k < i ==> !spec_has_cb(#[trigger] trace@[k], key@),
                Option::None => forall|k: int|
                    0 <= k < i ==> !spec_has_cb(#[trigger] trace@[k], key@),
            },
        decreases n - i,
    {
        if trace_has_cb(&trace.records[i], key) {
            best = Option::Some(i);
        }
        i = i + 1;
    }
    proof {
        match best {
            Option::Some(b) => lemma_last_cb_unique(trace@, key@, b as int),
            Option::None => lemma_last_cb_none(trace@, key@),
        }
    }
    best
}

/// The per-call diagnosed results of one executed test, with the function
/// properties discovered on access-path-bearing return values.
pub type TestDiagnostics = (
    Vec<(ExtensionPointID, (FunctionCallResult, Option<String>))>,
    Vec<(AccessPathModuleCentred, Vec<String>)>,
);

/// `spec_first_err_node` is stable once it has found an error.
proof fn lemma_first_err_stable(
    t: Seq<TreeNodeV>,
    trace: Seq<TraceRecordV>,
    m: int,
    m2: int,
)
    requires
        0 <= m <= m2,
        spec_first_err_node(t, trace, m) < m,
    ensures
        spec_first_err_node(t, trace, m2) == spec_first_err_node(t, trace, m),
    decreases m2 - m,
{
    if m2 > m {
        lemma_first_err_stable(t, trace, m, m2 - 1);
    }
}

/// The properties one record contributes to discovery: for each entry whose
/// key decodes as an access path and whose value is an array, the path and
/// the array's string elements.
pub open spec fn spec_rec_props(entries: Seq<TraceEntryV>) -> Seq<(APathV, Seq<Seq<char>>)>
    decreases entries.len(),
{
    if entries.len() == 0 {
        Seq::empty()
    } else {
        spec_rec_props(entries.drop_last()) + (match (
            spec_decode_ap(entries.last().key),
            entries.last().val.kind,
        ) {
            (Option::Some(p), TraceValKindV::StrListK(ss)) => seq![(p, ss)],
            _ => Seq::empty(),
        })
    }
}

/// The function properties the whole trace contributes, in emission order.
pub open spec fn spec_props(trace: Seq<TraceRecordV>) -> Seq<(APathV, Seq<Seq<char>>)>
    decreases trace.len(),
{
    if trace.len() == 0 {
        Seq::empty()
    } else {
        spec_props(trace.drop_last()) + spec_rec_props(trace.last().entries)
    }
}

pub open spec fn view_props(r: Seq<(AccessPathModuleCentred, Vec<String>)>) -> Seq<
    (APathV, Seq<Seq<char>>),
> {
    r.map(
        |i: int, e: (AccessPathModuleCentred, Vec<String>)|
            (e.0@, e.1@.map(|j: int, s: String| s@)),
    )
}

/// Scan the trace for keys that decode as access paths whose values are
/// arrays of names: each one registers newly discovered functions at that
/// path. Returns the (path, names) pairs in emission order.
pub fn get_function_props_for_acc_paths(output_vec: &TraceData) -> (r: Vec<
    (AccessPathModuleCentred, Vec<String>),
>)
    ensures
        view_props(r@) == spec_props(output_vec@),
{
    let n = output_vec.records.len();
    let mut r: Vec<(AccessPathModuleCentred, Vec<String>)> = Vec::new();
    let mut i: usize = 0;
    assert(view_props(r@) =~= spec_props(output_vec@.take(0)));
    while i < n
        invariant
            n == output_vec@.len(),
            i <= n,
            view_props(r@) == spec_props(output_vec@.take(i as int)),
        decreases n - i,
    {
        let rec = &output_vec.records[i];
        let m = rec.entries.len();
        let mut k: usize = 0;
        assert(view_props(r@) + spec_rec_props(rec@.entries.take(0)) =~= view_props(r@));
        while k < m
            invariant
                n == output_vec@.len(),
                i < n,
                m == rec@.entries.len(),
                rec@ == output_vec@[i as int],
                k <= m,
                view_props(r@) == spec_props(output_vec@.take(i as int)) + spec_rec_props(
                    rec@.entries.take(k as int),
                ),
            decreases m - k,
        {
            let entry = &rec.entries[k];
            let decoded = AccessPathModuleCentred::from_str(entry.key.as_str());
            let ghost old_r = r@;
            match decoded {
                Result::Ok(p) => {
                    match &entry.val.kind {
                        TraceValKind::StrList(names) => {
                            let mut names2: Vec<String> = Vec::new();
                            let mut q: usize = 0;
                            while q < names.len()
                                invariant
                                    q <= names@.len(),
                                    names2@.len() == q,
                                    forall|z: int|
                                        0 <= z < q ==> #[trigger] names2@[z]@ == names@[z]@,
                                decreases names@.len() - q,
                            {
                                names2.push(names[q].clone());
                                q = q + 1;
                            }
                            r.push((p, names2));
                            proof {
                                assert(view_props(r@) =~= view_props(old_r).push(
                                    (
                                        r@[r@.len() - 1].0@,
                                        r@[r@.len() - 1].1@.map(|j: int, s2: String| s2@),
                                    ),
                                ));
                                assert(r@[r@.len() - 1].1@.map(|j: int, s2: String| s2@)
                                    =~= (match rec@.entries[k as int].val.kind {
                                    TraceValKindV::StrListK(ss) => ss,
                                    _ => Seq::empty(),
                                }));
                            }
                        },
                        _ => (),
                    }
                },
                Result::Err(_) => (),
            }
            proof {
                assert(rec@.entries.take(k + 1).drop_last() =~= rec@.entries.take(k as int));
                assert(rec@.entries.take(k + 1).last() == rec@.entries[k as int]);
                assert(view_props(r@) =~= spec_props(output_vec@.take(i as int))
                    + spec_rec_props(rec@.entries.take(k + 1)));
            }
            k = k + 1;
        }
        proof {
            assert(rec@.entries.take(m as int) =~= rec@.entries);
            assert(output_vec@.take(i + 1).drop_last() =~= output_vec@.take(i as int));
            assert(output_vec@.take(i + 1).last() == output_vec@[i as int]);
        }
        i = i + 1;
    }
    proof {
        assert(output_vec@.take(n as int) =~= output_vec@);
    }
    r
}

/// Parse the output of an executed test into per-call results, keyed by node
/// ID, plus the function properties discovered on return values. A missing
/// trace (`None`: the runtime printed no JSON array) classifies every call as
/// an execution error. An error marker anywhere stops the diagnosis at that
/// call and yields no discovered properties: a test with an execution error
/// is not extended further.
pub fn diagnose_test_correctness(test: &Test, output_json: &Option<TraceData>) -> (r:
    TestDiagnostics)
    ensures
        output_json is Some ==> diagnose_matches(test@.fct_tree, (output_json->0)@, r.0@, r.1@),
        output_json is None ==> r.0@.len() == test@.fct_tree.len() && (forall|k: int|
            0 <= k < r.0@.len() ==> #[trigger] r.0@[k] == (
            k as usize,
            (
                FunctionCallResult::ExecutionError,
                Option::<String>::None,
            ),
        )) && r.1@.len() == 0,
{
    match output_json {
        Option::Some(trace) => diagnose_with_trace(test, trace),
        Option::None => {
            let n = test.get_fct_tree().count();
            let mut results: Vec<(ExtensionPointID, (FunctionCallResult, Option<String>))> =
                Vec::new();
            let mut j: usize = 0;
            while j < n
                invariant
                    n == test@.fct_tree.len(),
                    j <= n,
                    results@.len() == j,
                    forall|k: int|
                        0 <= k < j ==> #[trigger] results@[k] == (
                        k as usize,
                        (
                            FunctionCallResult::ExecutionError,
                            Option::<String>::None,
                        ),
                    ),
                decreases n - j,
            {
                results.push((j, (FunctionCallResult::ExecutionError, Option::None)));
                j = j + 1;
            }
            (results, Vec::new())
        },
    }
}

/// Does the pair (results, props) match the diagnosis specification for the
/// given tree and trace?
pub open spec fn diagnose_matches(
    t: Seq<TreeNodeV>,
    trace: Seq<TraceRecordV>,
    res: Seq<(ExtensionPointID, (FunctionCallResult, Option<String>))>,
    props: Seq<(AccessPathModuleCentred, Vec<String>)>,
) -> bool {
    let results = spec_diagnose(t, trace);
    let stop = spec_first_err_node(t, trace, t.len() as int);
    &&& res.len() == results.len()
    &&& (forall|k: int|
        0 <= k < results.len() ==> (#[trigger] res[k]).0 == results[k].0 && res[k].1.0
            == results[k].1.0 && view_opt_string(res[k].1.1) == results[k].1.1)
    &&& (stop < t.len() ==> props.len() == 0)
    &&& (stop >= t.len() ==> view_props(props) == spec_props(trace))
}

/// Diagnose a test against a parsed trace; see `spec_diagnose`.
fn diagnose_with_trace(test: &Test, trace: &TraceData) -> (r: TestDiagnostics)
    ensures
        diagnose_matches(test@.fct_tree, trace@, r.0@, r.1@),
{
    let n = test.get_fct_tree().count();
    let mut results: Vec<(ExtensionPointID, (FunctionCallResult, Option<String>))> = Vec::new();
    let ghost t = test@.fct_tree;
    let mut j: usize = 0;
    while j < n
        invariant
            n == t.len(),
            t == test@.fct_tree,
            j <= n,
            spec_first_err_node(t, trace@, j as int) == j as int,
            results@.len() == j,
            forall|k: int|
                0 <= k < j ==> (#[trigger] results@[k]).0 == k as usize && results@[k].1.0
                    == spec_node_result(
                    trace@,
                    spec_done_key(t[k].call, k as usize),
                    spec_cb_key(t[k].call, k as usize),
                ).0 && view_opt_string(results@[k].1.1) == spec_node_result(
                    trace@,
                    spec_done_key(t[k].call, k as usize),
                    spec_cb_key(t[k].call, k as usize),
                ).1,
        decreases n - j,
    {
        let uniq = test.get_uniq_id_for_call(j);
        let mut error_key = String::new();
        error_key.append("error_");
        error_key.append(uniq.as_str());
        assert(error_key@ =~= spec_error_key(t[j as int].call, j));
        let has_err = {
            let mut found = false;
            let mut q: usize = 0;
            while q < trace.records.len()
                invariant
                    q <= trace@.len(),
                    error_key@ == spec_error_key(t[j as int].call, j),
                    found == exists|z: int|
                        0 <= z < q && spec_is_marker(#[trigger] trace@[z], error_key@),
                decreases trace@.len() - q,
            {
                let is_m = trace_is_marker(&trace.records[q], error_key.as_str());
                if is_m {
                    found = true;
                }
                proof {
                    if is_m {
                        assert(spec_is_marker(trace@[q as int], error_key@));
                    } else if found {
                        let z = choose|z: int|
                            0 <= z < q && spec_is_marker(#[trigger] trace@[z], error_key@);
                        assert(0 <= z < q + 1 && spec_is_marker(trace@[z], error_key@));
                    } else {
                        assert forall|z: int|
                            0 <= z < q + 1 implies !spec_is_marker(
                            #[trigger] trace@[z],
                            error_key@,
                        ) by {
                            if z == q {
                                assert(!is_m);
                            }
                        }
                    }
                }
                q = q + 1;
            }
            found
        };
        if has_err {
            results.push((j, (FunctionCallResult::ExecutionError, Option::None)));
            proof {
                assert(spec_has_marker(trace@, spec_error_key(t[j as int].call, j)));
                assert(spec_first_err_node(t, trace@, j as int) == j as int);
                assert(spec_first_err_node(t, trace@, j + 1) == j as int);
                lemma_first_err_stable(t, trace@, j + 1, t.len() as int);
                assert(spec_first_err_node(t, trace@, t.len() as int) == j as int);
                let specr = spec_diagnose(t, trace@);
                let stop = spec_first_err_node(t, trace@, t.len() as int);
                assert(stop == j as int);
                assert(stop < t.len());
                assert(specr.len() == j + 1);
                assert(results@.len() == j + 1);
                assert forall|k: int|
                    0 <= k < specr.len() implies (#[trigger] results@[k]).0 == specr[k].0
                    && results@[k].1.0 == specr[k].1.0 && view_opt_string(results@[k].1.1)
                    == specr[k].1.1 by {
                    if k < j {
                        assert(specr[k] == (
                            k as usize,
                            spec_node_result(
                                trace@,
                                spec_done_key(t[k].call, k as usize),
                                spec_cb_key(t[k].call, k as usize),
                            ),
                        ));
                        assert(results@[k].0 == k as usize);
                    } else {
                        assert(specr[k] == (
                            k as usize,
                            (
                                FunctionCallResult::ExecutionError,
                                Option::<Seq<char>>::None,
                            ),
                        ));
                        assert(results@[k] == (
                            k as usize,
                            (
                                FunctionCallResult::ExecutionError,
                                Option::<String>::None,
                            ),
                        ));
                    }
                }
            }
            proof {
                let specr2 = spec_diagnose(test@.fct_tree, trace@);
                assert(results@.len() == specr2.len());
                assert(forall|k: int|
                    0 <= k < specr2.len() ==> (#[trigger] results@[k]).0 == specr2[k].0);
                assert(forall|k: int|
                    0 <= k < specr2.len() ==> (#[trigger] results@[k]).1.0 == specr2[k].1.0);
                assert(forall|k: int|
                    0 <= k < specr2.len() ==> view_opt_string((#[trigger] results@[k]).1.1)
                        == specr2[k].1.1);
                assert(spec_first_err_node(test@.fct_tree, trace@, test@.fct_tree.len() as int)
                    < test@.fct_tree.len());
            }
            return (results, Vec::new());
        }
        let mut done_key = String::new();
        done_key.append("done_");
        done_key.append(uniq.as_str());
        assert(done_key@ =~= spec_done_key(t[j as int].call, j));
        let mut cb_key = String::new();
        cb_key.append("callback_exec_");
        cb_key.append(uniq.as_str());
        assert(cb_key@ =~= spec_cb_key(t[j as int].call, j));
        let done_pos = trace_first_marker(trace, done_key.as_str());
        let cb_pos = trace_last_cb(trace, cb_key.as_str());
        let cb_text: Option<String> = match cb_pos {
            Option::Some(c) => {
                match trace_entry_val(&trace.records[c], cb_key.as_str()) {
                    Option::Some(v) => Option::Some(v.text.clone()),
                    Option::None => Option::None,
                }
            },
            Option::None => Option::None,
        };
        let outcome: FunctionCallResult = match (&done_pos, &cb_pos) {
            (Option::Some(d), Option::Some(c)) => {
                if *d < *c {
                    FunctionCallResult::SingleCallback(
                        SingleCallCallbackTestResult::CallbackCalledAsync,
                    )
                } else {
                    FunctionCallResult::SingleCallback(
                        SingleCallCallbackTestResult::CallbackCalledSync,
                    )
                }
            },
            (Option::Some(_), Option::None) => FunctionCallResult::SingleCallback(
                SingleCallCallbackTestResult::NoCallbackCalled,
            ),
            (Option::None, _) => FunctionCallResult::ExecutionError,
        };
        results.push((j, (outcome, cb_text)));
        proof {
            assert forall|z: int|
                0 <= z < trace@.len() implies !spec_is_marker(
                #[trigger] trace@[z],
                spec_error_key(t[j as int].call, j),
            ) by {}
            assert(spec_first_err_node(t, trace@, j + 1) == j + 1);
        }
        j = j + 1;
    }
    proof {
        let specr = spec_diagnose(t, trace@);
        assert(spec_first_err_node(t, trace@, t.len() as int) == t.len() as int);
        assert(specr.len() == t.len());
    }
    let props = get_function_props_for_acc_paths(trace);
    (results, props)
}

impl FunctionCall {
    /// Fill the unset arguments of this call (all of them, when
    /// `reset_existing_arg_vals`) with random values of their declared types.
    pub fn init_args_with_random(
        &mut self,
        testgen_db: &TestGenDB,
        ret_vals_pool: &Vec<ArgValAPTracked>,
        cb_arg_vals_pool: &Vec<ArgVal>,
        mod_rep: &NpmModule,
        test_gen_mode: &TestGenMode,
        reset_existing_arg_vals: bool,
    ) -> (r: Result<(), TestGenError>)
        requires
            testgen_db@.fs_strings.len() > 0,
            ret_vals_pool@.len() + cb_arg_vals_pool@.len() <= usize::MAX,
            exists|i: int|
                0 <= i < mod_rep@.fns.len() && (#[trigger] mod_rep@.fns[i]).0.0 == APathV::RootV(
                    spec_js_var_name(mod_rep@.lib),
                ),
        ensures
            r is Ok,
            final(self)@.name == old(self)@.name,
            final(self)@.parent_arg_position_nesting == old(self)@.parent_arg_position_nesting,
            final(self)@.parent_call_id == old(self)@.parent_call_id,
            final(self)@.acc_path == old(self)@.acc_path,
            final(self)@.receiver == old(self)@.receiver,
            final(self)@.sig.arg_list.len() == old(self)@.sig.arg_list.len(),
            forall|i: int|
                0 <= i < old(self)@.sig.arg_list.len()
                    ==> (#[trigger] final(self)@.sig.arg_list[i]).arg_type == old(self)@.sig.arg_list[i].arg_type,
            forall|i: int|
                0 <= i < old(self)@.sig.arg_list.len()
                    ==> (#[trigger] final(self)@.sig.arg_list[i]).arg_val is Some,
            // every value this call placed structurally fits its declared type
            forall|i: int|
                0 <= i < old(self)@.sig.arg_list.len() && (reset_existing_arg_vals || old(self)@.sig.arg_list[i].arg_val is None) ==> (match (#[trigger] final(self)@.sig.arg_list[i]).arg_val {
                    Option::Some(v) => crate::functions::spec_val_type(v) == final(self)@.sig.arg_list[i].arg_type || final(self)@.sig.arg_list[i].arg_type
                        is AnyType,
                    Option::None => false,
                }),
            // without a reset request, arguments that already held values keep them
            !reset_existing_arg_vals ==> forall|i: int|
                0 <= i < old(self)@.sig.arg_list.len() && (#[trigger] old(self)@.sig.arg_list[
                i]).arg_val is Some ==> final(self)@.sig.arg_list[i] == old(self)@.sig.arg_list[i],
            // every callback argument this call valued holds a raw callback
            forall|i: int|
                0 <= i < old(self)@.sig.arg_list.len() && (reset_existing_arg_vals || old(self)@.sig.arg_list[i].arg_val is None) && old(self)@.sig.arg_list[i].arg_type
                    is CallbackType ==> (#[trigger] final(self)@.sig.arg_list[i]).arg_val
                    matches Option::Some(ArgValV::CallbackV(CallbackValV::RawCallbackV(_))),
    {
        let n = self.sig.num_args();
        let mut i: usize = 0;
        while i < n
            invariant
                testgen_db@.fs_strings.len() > 0,
                ret_vals_pool@.len() + cb_arg_vals_pool@.len() <= usize::MAX,
                exists|k: int|
                    0 <= k < mod_rep@.fns.len() && (#[trigger] mod_rep@.fns[k]).0.0
                        == APathV::RootV(spec_js_var_name(mod_rep@.lib)),
                n == old(self)@.sig.arg_list.len(),
                i <= n,
                self@.name == old(self)@.name,
                self@.parent_arg_position_nesting == old(self)@.parent_arg_position_nesting,
                self@.parent_call_id == old(self)@.parent_call_id,
                self@.acc_path == old(self)@.acc_path,
                self@.receiver == old(self)@.receiver,
                self@.sig.arg_list.len() == n,
                self@.sig.call_test_result == old(self)@.sig.call_test_result,
                self@.sig.is_spread_args == old(self)@.sig.is_spread_args,
                forall|k: int|
                    0 <= k < n ==> (#[trigger] self@.sig.arg_list[k]).arg_type == old(self)@.sig.arg_list[k].arg_type,
                forall|k: int|
                    0 <= k < i ==> (#[trigger] self@.sig.arg_list[k]).arg_val is Some,
                forall|k: int|
                    0 <= k < i && (reset_existing_arg_vals || old(self)@.sig.arg_list[k].arg_val
                        is None) ==> (match (#[trigger] self@.sig.arg_list[k]).arg_val {
                        Option::Some(v) => crate::functions::spec_val_type(v)
                            == self@.sig.arg_list[k].arg_type || self@.sig.arg_list[k].arg_type
                            is AnyType,
                        Option::None => false,
                    }),
                !reset_existing_arg_vals ==> forall|k: int|
                    0 <= k < i && (#[trigger] old(self)@.sig.arg_list[k]).arg_val is Some
                        ==> self@.sig.arg_list[k] == old(self)@.sig.arg_list[k],
                forall|k: int|
                    0 <= k < i && (reset_existing_arg_vals || old(self)@.sig.arg_list[k].arg_val
                        is None) && old(self)@.sig.arg_list[k].arg_type is CallbackType ==> (
                    #[trigger] self@.sig.arg_list[k]).arg_val matches Option::Some(
                        ArgValV::CallbackV(CallbackValV::RawCallbackV(_)),
                    ),
                forall|k: int|
                    i <= k < n ==> (#[trigger] self@.sig.arg_list[k]) == old(self)@.sig.arg_list[k],
            decreases n - i,
        {
            let args = self.sig.get_arg_list();
            let arg_type = args[i].get_type();
            let has_val = matches!(args[i].get_arg_val(), Option::Some(_));
            if !has_val || reset_existing_arg_vals {
                let v = testgen_db.gen_random_value_of_type(
                    arg_type,
                    Option::Some(i),
                    ret_vals_pool,
                    cb_arg_vals_pool,
                    mod_rep,
                    test_gen_mode,
                );
                let res = self.sig.set_arg_val_at(i, v);
                match res {
                    Result::Ok(()) => (),
                    Result::Err(e) => {
                        assert(false);
                        return Result::Err(e);
                    },
                }
            }
            i = i + 1;
        }
        Result::Ok(())
    }
}
impl FunctionCall {
    /// Overwrite this call's arguments per a mined dataflow: each pair
    /// `(outer, inner)` whose outer position is within the outer callback's
    /// arguments makes argument `inner` a direct reference to that outer
    /// callback argument; see `wire_outer_to_inner_dataflow`.
    pub fn wire_dataflow(&mut self, dataflow: &Vec<(usize, usize)>, outer_cb_args: &Vec<ArgVal>)
        requires
            forall|d: int|
                0 <= d < dataflow@.len() ==> (#[trigger] dataflow@[d]).1 < old(self)@.sig.arg_list.len(),
        ensures
            final(self)@.name == old(self)@.name,
            final(self)@.parent_arg_position_nesting == old(self)@.parent_arg_position_nesting,
            final(self)@.parent_call_id == old(self)@.parent_call_id,
            final(self)@.acc_path == old(self)@.acc_path,
            final(self)@.receiver == old(self)@.receiver,
            final(self)@.sig.arg_list.len() == old(self)@.sig.arg_list.len(),
            forall|i: int|
                0 <= i < old(self)@.sig.arg_list.len() ==> #[trigger] final(self)@.sig.arg_list[i]
                    == (if crate::mined_seed_reps::spec_last_flow(
                    dataflow@,
                    i,
                    outer_cb_args@.len() as int,
                ) >= 0 {
                    FunctionArgumentV {
                        arg_type: ArgType::AnyType,
                        arg_val: Option::Some(
                            outer_cb_args@[dataflow@[crate::mined_seed_reps::spec_last_flow(
                                dataflow@,
                                i,
                                outer_cb_args@.len() as int,
                            )].0 as int]@,
                        ),
                    }
                } else {
                    old(self)@.sig.arg_list[i]
                }),
    {
        crate::mined_seed_reps::wire_outer_to_inner_dataflow(
            &mut self.sig,
            dataflow,
            outer_cb_args,
        );
    }
}

/// The registry key a call's signature is recorded under: the base path of
/// the call's access path (the receiver), the module root when there is no
/// base or no path, paired with the call's name.
pub open spec fn spec_sig_target_key(call: FunctionCallV, lib: Seq<char>) -> (APathV, Seq<char>) {
    (
        match call.acc_path {
            Option::Some(p) => match crate::module_reps::spec_base_path(p) {
                Option::Some(b) => b,
                Option::None => APathV::RootV(lib),
            },
            Option::None => APathV::RootV(lib),
        },
        call.name,
    )
}

/// Does the signature at position `k` of catalog entry `j` of `m` record one
/// of the first `bound` diagnosed results: a non-error call of the test,
/// keyed at that call's receiver, tagged with its observed result?
pub open spec fn spec_recorded_from_results(
    m: crate::module_reps::NpmModuleV,
    lib: Seq<char>,
    test: TestV,
    results: Seq<(ExtensionPointID, (FunctionCallResult, Option<String>))>,
    bound: int,
    j: int,
    k: int,
) -> bool {
    exists|q: int|
        0 <= q < bound && !((#[trigger] results[q]).1.0 is ExecutionError) && results[q].0
            < test.fct_tree.len() && m.fns[j].0 == spec_sig_target_key(
            test.fct_tree[results[q].0 as int].call,
            lib,
        ) && m.fns[j].1.sigs[k] == (FunctionSignatureV {
            call_test_result: Option::Some(results[q].1.0),
            ..test.fct_tree[results[q].0 as int].call.sig
        })
}

impl NpmModule {
    /// Record the signatures observed in a diagnosed test: for every call
    /// whose result was not an execution error, the call's signature (tagged
    /// with the observed result) is recorded for the function at the call's
    /// receiver path. Recording is append-only: no key changes, no signature
    /// is removed, and deduplication is by abstract shape.
    pub fn add_function_sigs_from_test(
        &mut self,
        test: &Test,
        ext_point_results: &Vec<(ExtensionPointID, (FunctionCallResult, Option<String>))>,
    )
        requires
            old(self)@.keys_unique(),
            forall|j: int|
                0 <= j < old(self)@.fns.len() ==> (#[trigger] old(self)@.fns[j]).1.sigs_distinct(),
        ensures
            final(self)@.lib == old(self)@.lib,
            final(self)@.import_code == old(self)@.import_code,
            final(self)@.keys_unique(),
            final(self)@.fns.len() == old(self)@.fns.len(),
            forall|j: int|
                0 <= j < old(self)@.fns.len() ==> (#[trigger] final(self)@.fns[j]).0 == old(self)@.fns[j].0 && final(self)@.fns[j].1.name == old(self)@.fns[j].1.name && final(self)@.fns[j].1.num_api_args == old(self)@.fns[j].1.num_api_args && final(self)@.fns[j].1.sigs.len() >= old(self)@.fns[j].1.sigs.len() && (forall|k: int|
                    0 <= k < old(self)@.fns[j].1.sigs.len()
                        ==> #[trigger] final(self)@.fns[j].1.sigs[k] == old(self)@.fns[j].1.sigs[k]),
            forall|j: int|
                0 <= j < final(self)@.fns.len() ==> (#[trigger] final(self)@.fns[j]).1
                    .sigs_distinct(),
            // every observed non-error signature is recorded: afterwards the
            // function keyed by the call's receiver path holds a signature
            // of the observed abstract shape
            forall|j: int|
                0 <= j < ext_point_results@.len() && !((#[trigger] ext_point_results@[j]).1.0
                    is ExecutionError) && ext_point_results@[j].0 < test@.fct_tree.len()
                    ==> (forall|k: int|
                    0 <= k < final(self)@.fns.len() && (#[trigger] final(self)@.fns[k]).0
                        == spec_sig_target_key(
                        test@.fct_tree[ext_point_results@[j].0 as int].call,
                        old(self)@.lib,
                    ) ==> exists|m: int|
                        0 <= m < final(self)@.fns[k].1.sigs.len() && (#[trigger] final(self)@.fns[k].1.sigs[m]).abstract_sig() == test@.fct_tree[ext_point_results@[j].0 as int].call.sig.abstract_sig()),
            // nothing else is appended: every signature beyond the old ones
            // is an observed non-error call's signature at that entry's key,
            // tagged with the observed result
            forall|j: int, k: int|
                0 <= j < final(self)@.fns.len() && old(self)@.fns[j].1.sigs.len() <= k
                    < final(self)@.fns[j].1.sigs.len() ==> #[trigger] spec_recorded_from_results(
                    final(self)@,
                    old(self)@.lib,
                    test@,
                    ext_point_results@,
                    ext_point_results@.len() as int,
                    j,
                    k,
                ),
    {
        let mut i: usize = 0;
        while i < ext_point_results.len()
            invariant
                old(self)@.keys_unique(),
                self@.keys_unique(),
                self@.lib == old(self)@.lib,
                self@.import_code == old(self)@.import_code,
                i <= ext_point_results@.len(),
                self@.fns.len() == old(self)@.fns.len(),
                forall|j: int|
                    0 <= j < old(self)@.fns.len() ==> (#[trigger] self@.fns[j]).0 == old(self)@.fns[j].0 && self@.fns[j].1.name == old(self)@.fns[j].1.name && self@.fns[j].1.num_api_args == old(self)@.fns[j].1.num_api_args && self@.fns[j].1.sigs.len() >= old(self)@.fns[j].1.sigs.len() && (forall|k: int|
                        0 <= k < old(self)@.fns[j].1.sigs.len()
                            ==> #[trigger] self@.fns[j].1.sigs[k] == old(self)@.fns[j].1.sigs[k]),
                forall|j: int|
                    0 <= j < self@.fns.len() ==> (#[trigger] self@.fns[j]).1.sigs_distinct(),
                forall|j: int|
                    0 <= j < i && !((#[trigger] ext_point_results@[j]).1.0 is ExecutionError)
                        && ext_point_results@[j].0 < test@.fct_tree.len() ==> (forall|k: int|
                        0 <= k < self@.fns.len() && (#[trigger] self@.fns[k]).0
                            == spec_sig_target_key(
                            test@.fct_tree[ext_point_results@[j].0 as int].call,
                            old(self)@.lib,
                        ) ==> exists|m: int|
                            0 <= m < self@.fns[k].1.sigs.len() && (#[trigger] self@.fns[k].1.sigs[m]).abstract_sig() == test@.fct_tree[ext_point_results@[j].0 as int].call.sig.abstract_sig()),
                forall|j: int, k: int|
                    0 <= j < self@.fns.len() && old(self)@.fns[j].1.sigs.len() <= k < self@.fns[j].1.sigs.len() ==> #[trigger] spec_recorded_from_results(
                        self@,
                        old(self)@.lib,
                        test@,
                        ext_point_results@,
                        i as int,
                        j,
                        k,
                    ),
            decreases ext_point_results@.len() - i,
        {
            let ghost pre_iter = self@;
            let (ext_id, (fct_result, _)) = &ext_point_results[i];
            let is_err = matches!(fct_result, FunctionCallResult::ExecutionError);
            if !is_err {
                match test.get_fct_call_from_id(ext_id) {
                    Option::Some(rel_fct) => {
                        let base: AccessPathModuleCentred = match rel_fct.get_acc_path() {
                            Option::Some(ap) => {
                                match ap.get_base_path() {
                                    Option::Some(b) => b.clone(),
                                    Option::None => AccessPathModuleCentred::RootPath(
                                        self.get_lib(),
                                    ),
                                }
                            },
                            Option::None => AccessPathModuleCentred::RootPath(self.get_lib()),
                        };
                        let mut new_sig = rel_fct.get_sig().clone();
                        new_sig.set_call_res(*fct_result);
                        let name_owned = rel_fct.get_name().to_owned();
                        proof {
                            assert(test@.fct_tree[*ext_id as int].call == rel_fct@);
                            assert((base@, name_owned@) == spec_sig_target_key(
                                test@.fct_tree[*ext_id as int].call,
                                old(self)@.lib,
                            ));
                            assert(new_sig@.abstract_sig() =~= test@.fct_tree[
                            *ext_id as int].call.sig.abstract_sig());
                        }
                        let ghost pre = self@;
                        match self.find_fn(&base, name_owned.as_str()) {
                            Option::Some(idx) => {
                                let ghost sig_view = new_sig@;
                                self.add_sig_at(idx, new_sig);
                                proof {
                                    // the observed shape is now recorded at
                                    // the (unique) entry with this key
                                    assert forall|k: int|
                                        0 <= k < self@.fns.len() && (#[trigger] self@.fns[k]).0
                                            == (base@, name_owned@) implies exists|m: int|
                                        0 <= m < self@.fns[k].1.sigs.len() && (
                                        #[trigger] self@.fns[k].1.sigs[m]).abstract_sig()
                                            == sig_view.abstract_sig() by {
                                        assert(self@.fns[k].0 == pre.fns[k].0);
                                        assert(self@.fns[idx as int].0 == pre.fns[
                                        idx as int].0);
                                        assert(k == idx);
                                        if exists|k2: int|
                                            0 <= k2 < pre.fns[idx as int].1.sigs.len() && (
                                            #[trigger] pre.fns[idx as int].1.sigs[
                                            k2]).abstract_sig() == sig_view.abstract_sig() {
                                            let k2 = choose|k2: int|
                                                0 <= k2 < pre.fns[idx as int].1.sigs.len() && (
                                                #[trigger] pre.fns[idx as int].1.sigs[
                                                k2]).abstract_sig() == sig_view.abstract_sig();
                                            assert(self@.fns[idx as int].1 == pre.fns[
                                            idx as int].1);
                                        } else {
                                            assert(self@.fns[idx as int].1.sigs == pre.fns[
                                            idx as int].1.sigs.push(sig_view));
                                            assert(self@.fns[idx as int].1.sigs[self@.fns[
                                            idx as int].1.sigs.len() - 1].abstract_sig()
                                                == sig_view.abstract_sig());
                                        }
                                    }
                                    assert forall|j: int|
                                        0 <= j < self@.fns.len() implies (#[trigger] self@.fns[
                                    j]).1.sigs_distinct() by {
                                        if j != idx {
                                            assert(self@.fns[j] == pre.fns[j]);
                                        }
                                    }
                                    assert forall|j: int|
                                        0 <= j < old(self)@.fns.len() implies (
                                    #[trigger] self@.fns[j]).0 == old(self)@.fns[j].0 && self@
                                        .fns[j].1.name == old(self)@.fns[j].1.name && self@.fns[j].1.num_api_args == old(self)@.fns[j].1.num_api_args
                                        && self@.fns[j].1.sigs.len() >= old(self)@.fns[j].1.sigs.len() && (forall|k: int|
                                        0 <= k < old(self)@.fns[j].1.sigs.len()
                                            ==> #[trigger] self@.fns[j].1.sigs[k] == old(self)@.fns[j].1.sigs[k]) by {
                                        if j != idx {
                                            assert(self@.fns[j] == pre.fns[j]);
                                        }
                                    }
                                    // any signature appended in this step is
                                    // the tagged observed one, at its key
                                    assert(sig_view == (FunctionSignatureV {
                                        call_test_result: Option::Some(
                                            ext_point_results@[i as int].1.0,
                                        ),
                                        ..test@.fct_tree[ext_point_results@[
                                        i as int].0 as int].call.sig
                                    }));
                                    assert forall|j: int, k: int|
                                        #![trigger self@.fns[j].1.sigs[k]]
                                        0 <= j < self@.fns.len() && pre.fns[j].1.sigs.len() <= k
                                            < self@.fns[j].1.sigs.len() implies self@.fns[j].0
                                        == spec_sig_target_key(
                                        test@.fct_tree[ext_point_results@[i as int].0 as int].call,
                                        old(self)@.lib,
                                    ) && self@.fns[j].1.sigs[k] == sig_view by {
                                        if j != idx {
                                            assert(self@.fns[j] == pre.fns[j]);
                                        } else {
                                            assert(self@.fns[j].1.sigs[k] == sig_view);
                                            assert(self@.fns[j].0 == (base@, name_owned@));
                                        }
                                    }
                                }
                            },
                            Option::None => (),
                        }
                    },
                    Option::None => (),
                }
            }
            proof {
                // the recorded-signature property extends to this result and
                // survives the append-only update
                assert forall|j: int|
                    0 <= j < i + 1 && !((#[trigger] ext_point_results@[j]).1.0
                        is ExecutionError) && ext_point_results@[j].0 < test@.fct_tree.len()
                    implies (forall|k: int|
                    0 <= k < self@.fns.len() && (#[trigger] self@.fns[k]).0
                        == spec_sig_target_key(
                        test@.fct_tree[ext_point_results@[j].0 as int].call,
                        old(self)@.lib,
                    ) ==> exists|m: int|
                        0 <= m < self@.fns[k].1.sigs.len() && (#[trigger] self@.fns[k].1.sigs[m]).abstract_sig() == test@.fct_tree[ext_point_results@[j].0 as int].call.sig.abstract_sig()) by {
                    if j < i {
                        assert forall|k: int|
                            0 <= k < self@.fns.len() && (#[trigger] self@.fns[k]).0
                                == spec_sig_target_key(
                                test@.fct_tree[ext_point_results@[j].0 as int].call,
                                old(self)@.lib,
                            ) implies exists|m: int|
                            0 <= m < self@.fns[k].1.sigs.len() && (#[trigger] self@.fns[k].1.sigs[m]).abstract_sig() == test@.fct_tree[ext_point_results@[j].0 as int].call.sig.abstract_sig() by {
                            assert(self@.fns[k].0 == pre_iter.fns[k].0);
                            let m = choose|m: int|
                                0 <= m < pre_iter.fns[k].1.sigs.len() && (#[trigger] pre_iter.fns[
                                k].1.sigs[m]).abstract_sig() == test@.fct_tree[ext_point_results@[j].0 as int].call.sig.abstract_sig();
                            assert(self@.fns[k].1.sigs[m] == pre_iter.fns[k].1.sigs[m]);
                        }
                    }
                }
                // every signature beyond the old ones records a processed
                // non-error result: earlier appends carry over, and this
                // step's append is the tagged observed signature
                assert forall|j: int, k: int|
                    0 <= j < self@.fns.len() && old(self)@.fns[j].1.sigs.len() <= k < self@.fns[j].1.sigs.len() implies #[trigger] spec_recorded_from_results(
                    self@,
                    old(self)@.lib,
                    test@,
                    ext_point_results@,
                    i + 1,
                    j,
                    k,
                ) by {
                    if k < pre_iter.fns[j].1.sigs.len() {
                        assert(spec_recorded_from_results(
                            pre_iter,
                            old(self)@.lib,
                            test@,
                            ext_point_results@,
                            i as int,
                            j,
                            k,
                        ));
                        assert(self@.fns[j].0 == pre_iter.fns[j].0);
                        assert(self@.fns[j].1.sigs[k] == pre_iter.fns[j].1.sigs[k]);
                        let q = choose|q: int|
                            0 <= q < i && !((#[trigger] ext_point_results@[q]).1.0
                                is ExecutionError) && ext_point_results@[q].0
                                < test@.fct_tree.len() && pre_iter.fns[j].0
                                == spec_sig_target_key(
                                test@.fct_tree[ext_point_results@[q].0 as int].call,
                                old(self)@.lib,
                            ) && pre_iter.fns[j].1.sigs[k] == (FunctionSignatureV {
                                call_test_result: Option::Some(ext_point_results@[q].1.0),
                                ..test@.fct_tree[ext_point_results@[q].0 as int].call.sig
                            });
                        assert(0 <= q < i + 1);
                    } else {
                        assert(!(ext_point_results@[i as int].1.0 is ExecutionError));
                        assert(ext_point_results@[i as int].0 < test@.fct_tree.len());
                        assert(self@.fns[j].0 == spec_sig_target_key(
                            test@.fct_tree[ext_point_results@[i as int].0 as int].call,
                            old(self)@.lib,
                        ));
                        assert(self@.fns[j].1.sigs[k] == (FunctionSignatureV {
                            call_test_result: Option::Some(ext_point_results@[i as int].1.0),
                            ..test@.fct_tree[ext_point_results@[i as int].0 as int].call.sig
                        }));
                    }
                }
            }
            i = i + 1;
        }
    }
}

/// An execution error anywhere in a diagnosed test shows up in its results:
/// the diagnosis stops at the first such call and reports it, so the pool of
/// extension points receives nothing from that test.
pub proof fn lemma_no_extension_after_error(t: Seq<TreeNodeV>, trace: Seq<TraceRecordV>)
    requires
        spec_first_err_node(t, trace, t.len() as int) < t.len(),
    ensures
        exists|k: int|
            0 <= k < spec_diagnose(t, trace).len() && (#[trigger] spec_diagnose(t, trace)[k]).1.0
                is ExecutionError,
{
    let stop = spec_first_err_node(t, trace, t.len() as int);
    lemma_first_err_node_range(t, trace, t.len() as int);
    assert(spec_diagnose(t, trace)[stop].1.0 is ExecutionError);
}

/// `spec_first_err_node` lies within `[0, n]`.
proof fn lemma_first_err_node_range(t: Seq<TreeNodeV>, trace: Seq<TraceRecordV>, n: int)
    requires
        0 <= n,
    ensures
        0 <= spec_first_err_node(t, trace, n) <= n,
    decreases n,
{
    if n > 0 {
        lemma_first_err_node_range(t, trace, n - 1);
    }
}

/// Structural equality of two calls, decided recursively.
pub fn call_eq(x: &FunctionCall, y: &FunctionCall) -> (r: bool)
    ensures
        r == (x@ == y@),
{
    let names_eq = str_eq(x.name.as_str(), y.name.as_str());
    let pan_eq = match (&x.parent_arg_position_nesting, &y.parent_arg_position_nesting) {
        (Option::Some(a), Option::Some(b)) => *a == *b,
        (Option::None, Option::None) => true,
        _ => false,
    };
    let pid_eq = match (&x.parent_call_id, &y.parent_call_id) {
        (Option::Some(a), Option::Some(b)) => *a == *b,
        (Option::None, Option::None) => true,
        _ => false,
    };
    let acc_eq = match (&x.acc_path, &y.acc_path) {
        (Option::Some(a), Option::Some(b)) => crate::module_reps::ap_eq(a, b),
        (Option::None, Option::None) => true,
        _ => false,
    };
    let recv_eq = match (&x.receiver, &y.receiver) {
        (Option::Some(a), Option::Some(b)) => crate::functions::val_eq(a, b),
        (Option::None, Option::None) => true,
        _ => false,
    };
    let r = names_eq && pan_eq && pid_eq && acc_eq && recv_eq && crate::functions::sig_eq(
        &x.sig,
        &y.sig,
    );
    proof {
        if r {
            assert(x@ =~= y@);
        }
    }
    r
}

impl Test {
    /// The unique ID of the node whose call equals the given call data, if
    /// any; the first such node in arena order wins.
    pub fn get_node_id_for_call_data(&self, fc_d: &FunctionCall) -> (r: Option<String>)
        ensures
            match r {
                Option::Some(s) => exists|j: int|
                    0 <= j < self@.fct_tree.len() && (#[trigger] self@.fct_tree[j]).call == fc_d@
                        && s@ == spec_uniq_id(self@.fct_tree[j].call, j as usize),
                Option::None => forall|j: int|
                    0 <= j < self@.fct_tree.len() ==> (#[trigger] self@.fct_tree[j]).call
                        != fc_d@,
            },
    {
        let n = self.fct_tree.count();
        let mut j: usize = 0;
        while j < n
            invariant
                n == self@.fct_tree.len(),
                j <= n,
                forall|k: int|
                    0 <= k < j ==> (#[trigger] self@.fct_tree[k]).call != fc_d@,
            decreases n - j,
        {
            if call_eq(self.fct_tree.get_call(j), fc_d) {
                let id = self.get_uniq_id_for_call(j);
                assert(self@.fct_tree[j as int].call == fc_d@);
                return Option::Some(id);
            }
            j = j + 1;
        }
        Option::None
    }
}

} // verus!
