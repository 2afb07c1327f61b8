//! The data structures representing a JavaScript module: access paths with
//! their string encoding, and the registry of known module functions.

use crate::functions::{FunctionSignature, FunctionSignatureV};
use crate::strutil::{
    find_char, lemma_find_first, lemma_find_none, lemma_find_unique, parse_decimal_chars,
    range_all_digits, range_starts_with, spec_decimal, spec_find, spec_is_digit,
    spec_parse_decimal, spec_starts_with, str_eq, str_to_chars, usize_to_string,
};
use vstd::prelude::*;

verus! {

/// Index type for parameter positions in access paths.
pub type ParamIndexType = usize;

/// A field name in an access path: either a named property or an index.
#[derive(Debug, Hash)]
pub enum FieldNameType {
    /// Named field.
    StringField(String),
    /// Indexed field.
    IndexField(usize),
}

/// Mathematical view of a field name.
#[verifier::ext_equal]
pub enum FieldNameTypeV {
    StringFieldV(Seq<char>),
    IndexFieldV(usize),
}

/// Representation of access paths, rooted in a module import: how a value or
/// function was reached from the import.
#[derive(Debug, Hash)]
pub enum AccessPathModuleCentred {
    /// Base case: the module import, with the module name.
    RootPath(String),
    /// Return of calling a function represented by another access path.
    ReturnPath(Box<AccessPathModuleCentred>),
    /// A field (with the given name or index) of another access path.
    FieldAccPath(Box<AccessPathModuleCentred>, FieldNameType),
    /// A parameter (of the given index) of a function call represented by
    /// another access path.
    ParamPath(Box<AccessPathModuleCentred>, ParamIndexType),
    /// A new instance of a constructor represented by another access path.
    InstancePath(Box<AccessPathModuleCentred>),
}

/// Mathematical view of an access path.
#[verifier::ext_equal]
pub enum APathV {
    RootV(Seq<char>),
    ReturnV(Box<APathV>),
    FieldV(Box<APathV>, FieldNameTypeV),
    ParamV(Box<APathV>, usize),
    InstanceV(Box<APathV>),
}

pub open spec fn view_fnt(f: FieldNameType) -> FieldNameTypeV {
    match f {
        FieldNameType::StringField(s) => FieldNameTypeV::StringFieldV(s@),
        FieldNameType::IndexField(i) => FieldNameTypeV::IndexFieldV(i),
    }
}

pub open spec fn view_ap(p: AccessPathModuleCentred) -> APathV
    decreases p,
{
    match p {
        AccessPathModuleCentred::RootPath(m) => APathV::RootV(m@),
        AccessPathModuleCentred::ReturnPath(b) => APathV::ReturnV(Box::new(view_ap(*b))),
        AccessPathModuleCentred::FieldAccPath(b, f) => APathV::FieldV(
            Box::new(view_ap(*b)),
            view_fnt(f),
        ),
        AccessPathModuleCentred::ParamPath(b, i) => APathV::ParamV(Box::new(view_ap(*b)), i),
        AccessPathModuleCentred::InstancePath(b) => APathV::InstanceV(Box::new(view_ap(*b))),
    }
}

impl View for FieldNameType {
    type V = FieldNameTypeV;

    open spec fn view(&self) -> FieldNameTypeV {
        view_fnt(*self)
    }
}

impl View for AccessPathModuleCentred {
    type V = APathV;

    open spec fn view(&self) -> APathV {
        view_ap(*self)
    }
}

impl Clone for FieldNameType {
    /// Cloning preserves the view.
    fn clone(&self) -> (res: Self)
        ensures
            res@ == self@,
    {
        match self {
            FieldNameType::StringField(s) => FieldNameType::StringField(s.clone()),
            FieldNameType::IndexField(i) => FieldNameType::IndexField(*i),
        }
    }
}

impl Clone for AccessPathModuleCentred {
    /// Cloning preserves the view.
    fn clone(&self) -> (res: Self)
        ensures
            res@ == self@,
        decreases *self,
    {
        match self {
            AccessPathModuleCentred::RootPath(m) => AccessPathModuleCentred::RootPath(m.clone()),
            AccessPathModuleCentred::ReturnPath(b) => AccessPathModuleCentred::ReturnPath(
                Box::new((**b).clone()),
            ),
            AccessPathModuleCentred::FieldAccPath(b, f) => AccessPathModuleCentred::FieldAccPath(
                Box::new((**b).clone()),
                f.clone(),
            ),
            AccessPathModuleCentred::ParamPath(b, i) => AccessPathModuleCentred::ParamPath(
                Box::new((**b).clone()),
                *i,
            ),
            AccessPathModuleCentred::InstancePath(b) => AccessPathModuleCentred::InstancePath(
                Box::new((**b).clone()),
            ),
        }
    }
}

/// Structural equality of two access paths, decided recursively.
pub fn ap_eq(x: &AccessPathModuleCentred, y: &AccessPathModuleCentred) -> (r: bool)
    ensures
        r == (x@ == y@),
    decreases *x,
{
    match (x, y) {
        (AccessPathModuleCentred::RootPath(a), AccessPathModuleCentred::RootPath(b)) => *a == *b,
        (
            AccessPathModuleCentred::ReturnPath(a),
            AccessPathModuleCentred::ReturnPath(b),
        ) => ap_eq(&**a, &**b),
        (
            AccessPathModuleCentred::FieldAccPath(a, fa),
            AccessPathModuleCentred::FieldAccPath(b, fb),
        ) => {
            let fields_eq = match (fa, fb) {
                (FieldNameType::StringField(na), FieldNameType::StringField(nb)) => *na == *nb,
                (FieldNameType::IndexField(ia), FieldNameType::IndexField(ib)) => *ia == *ib,
                _ => false,
            };
            fields_eq && ap_eq(&**a, &**b)
        },
        (
            AccessPathModuleCentred::ParamPath(a, ia),
            AccessPathModuleCentred::ParamPath(b, ib),
        ) => *ia == *ib && ap_eq(&**a, &**b),
        (
            AccessPathModuleCentred::InstancePath(a),
            AccessPathModuleCentred::InstancePath(b),
        ) => ap_eq(&**a, &**b),
        _ => false,
    }
}

impl PartialEq for AccessPathModuleCentred {
    /// Equality of access paths is equality of their views.
    fn eq(&self, other: &Self) -> (r: bool) {
        ap_eq(self, other)
    }
}

impl Eq for AccessPathModuleCentred {

}

impl vstd::std_specs::cmp::PartialEqSpecImpl for AccessPathModuleCentred {
    open spec fn obeys_eq_spec() -> bool {
        true
    }

    open spec fn eq_spec(&self, other: &Self) -> bool {
        self@ == other@
    }
}

/// The encoding of a field name: quoted for named fields, digits for indices.
pub open spec fn spec_encode_fnt(f: FieldNameTypeV) -> Seq<char> {
    match f {
        FieldNameTypeV::StringFieldV(name) => "\""@ + name + "\""@,
        FieldNameTypeV::IndexFieldV(i) => spec_decimal(i as nat),
    }
}

/// The prefix-tagged encoding of an access path: `(module M)`, `(return P)`,
/// `(member "f" P)` or `(member N P)`, `(param N P)`, `(new P)`.
pub open spec fn spec_encode_ap(p: APathV) -> Seq<char>
    decreases p,
{
    match p {
        APathV::RootV(m) => "(module "@ + m + ")"@,
        APathV::ReturnV(b) => "(return "@ + spec_encode_ap(*b) + ")"@,
        APathV::FieldV(b, f) => "(member "@ + spec_encode_fnt(f) + " "@ + spec_encode_ap(*b)
            + ")"@,
        APathV::ParamV(b, i) => "(param "@ + spec_decimal(i as nat) + " "@ + spec_encode_ap(*b)
            + ")"@,
        APathV::InstanceV(b) => "(new "@ + spec_encode_ap(*b) + ")"@,
    }
}

/// A name that encodes unambiguously: one without quote characters. Quotes
/// delimit named fields in the encoding, so a quote inside a name would end
/// the field early.
pub open spec fn wf_name(s: Seq<char>) -> bool {
    forall|i: int| 0 <= i < s.len() ==> #[trigger] s[i] != '"'
}

/// A well-formed access path: every named field is well formed.
pub open spec fn wf_ap(p: APathV) -> bool
    decreases p,
{
    match p {
        APathV::RootV(_) => true,
        APathV::ReturnV(b) => wf_ap(*b),
        APathV::FieldV(b, f) => wf_ap(*b) && (match f {
            FieldNameTypeV::StringFieldV(n) => wf_name(n),
            FieldNameTypeV::IndexFieldV(_) => true,
        }),
        APathV::ParamV(b, _) => wf_ap(*b),
        APathV::InstanceV(b) => wf_ap(*b),
    }
}

/// Decoding of an encoded access path; `None` where the string is not in the
/// grammar. Unquoted member names are accepted too (they occur in mined data),
/// and a member access `exports` on a module root collapses to the root.
pub open spec fn spec_decode_ap(s: Seq<char>) -> Option<APathV>
    decreases s.len(), 1int,
{
    if s.len() >= 1 && s.last() == ')' {
        if spec_starts_with(s, "(module "@) && s.len() > "(module "@.len() {
            Option::Some(APathV::RootV(s.subrange("(module "@.len() as int, s.len() - 1)))
        } else if spec_starts_with(s, "(return "@) && s.len() > "(return "@.len() {
            match spec_decode_ap(s.subrange("(return "@.len() as int, s.len() - 1)) {
                Option::Some(p) => Option::Some(APathV::ReturnV(Box::new(p))),
                Option::None => Option::None,
            }
        } else if spec_starts_with(s, "(member "@) && s.len() > "(member "@.len() {
            spec_decode_member(s.subrange("(member "@.len() as int, s.len() - 1))
        } else if spec_starts_with(s, "(param "@) && s.len() > "(param "@.len() {
            spec_decode_param(s.subrange("(param "@.len() as int, s.len() - 1))
        } else if spec_starts_with(s, "(new "@) && s.len() > "(new "@.len() {
            match spec_decode_ap(s.subrange("(new "@.len() as int, s.len() - 1)) {
                Option::Some(p) => Option::Some(APathV::InstanceV(Box::new(p))),
                Option::None => Option::None,
            }
        } else {
            Option::None
        }
    } else {
        Option::None
    }
}

/// Decoding of the middle of a member access: the field name (quoted, numeric,
/// or a bare identifier), a space, and the base path.
pub open spec fn spec_decode_member(mid: Seq<char>) -> Option<APathV>
    decreases mid.len(), 0int,
    via spec_decode_member_decreases
{
    if mid.len() >= 1 && mid[0] == '"' {
        let j = spec_find(mid.subrange(1, mid.len() as int), '"');
        if j >= 0 {
            let name = mid.subrange(1, 1 + j);
            if 1 + j + 1 < mid.len() && mid[1 + j + 1] == ' ' {
                match spec_decode_ap(mid.subrange(1 + j + 2, mid.len() as int)) {
                    Option::Some(p) => Option::Some(
                        APathV::FieldV(Box::new(p), FieldNameTypeV::StringFieldV(name)),
                    ),
                    Option::None => Option::None,
                }
            } else {
                Option::None
            }
        } else {
            Option::None
        }
    } else {
        let j = spec_find(mid, ' ');
        if j > 0 {
            let token = mid.subrange(0, j);
            let rest = mid.subrange(j + 1, mid.len() as int);
            if token == "exports"@ {
                match spec_decode_ap(rest) {
                    Option::Some(APathV::RootV(m)) => Option::Some(APathV::RootV(m)),
                    Option::Some(p) => Option::Some(
                        APathV::FieldV(Box::new(p), FieldNameTypeV::StringFieldV(token)),
                    ),
                    Option::None => Option::None,
                }
            } else if (forall|k: int| 0 <= k < token.len() ==> spec_is_digit(#[trigger] token[k]))
                && spec_parse_decimal(token) <= usize::MAX {
                match spec_decode_ap(rest) {
                    Option::Some(p) => Option::Some(
                        APathV::FieldV(
                            Box::new(p),
                            FieldNameTypeV::IndexFieldV(spec_parse_decimal(token) as usize),
                        ),
                    ),
                    Option::None => Option::None,
                }
            } else {
                match spec_decode_ap(rest) {
                    Option::Some(p) => Option::Some(
                        APathV::FieldV(Box::new(p), FieldNameTypeV::StringFieldV(token)),
                    ),
                    Option::None => Option::None,
                }
            }
        } else {
            Option::None
        }
    }
}

#[via_fn]
proof fn spec_decode_member_decreases(mid: Seq<char>) {
    if mid.len() >= 1 {
        crate::strutil::lemma_find_first(mid.subrange(1, mid.len() as int), '"');
    }
    crate::strutil::lemma_find_first(mid, ' ');
}

/// Decoding of the middle of a parameter access: the index, a space, and the
/// base path.
pub open spec fn spec_decode_param(mid: Seq<char>) -> Option<APathV>
    decreases mid.len(), 0int,
    via spec_decode_param_decreases
{
    let j = spec_find(mid, ' ');
    if j > 0 {
        let token = mid.subrange(0, j);
        let rest = mid.subrange(j + 1, mid.len() as int);
        if (forall|k: int| 0 <= k < token.len() ==> spec_is_digit(#[trigger] token[k]))
            && spec_parse_decimal(token) <= usize::MAX {
            match spec_decode_ap(rest) {
                Option::Some(p) => Option::Some(
                    APathV::ParamV(Box::new(p), spec_parse_decimal(token) as usize),
                ),
                Option::None => Option::None,
            }
        } else {
            Option::None
        }
    } else {
        Option::None
    }
}

#[via_fn]
proof fn spec_decode_param_decreases(mid: Seq<char>) {
    crate::strutil::lemma_find_first(mid, ' ');
}

pub open spec fn view_opt_ap(o: Option<AccessPathModuleCentred>) -> Option<APathV> {
    match o {
        Option::Some(p) => Option::Some(p@),
        Option::None => Option::None,
    }
}

/// The base path at the view level: the path with its outermost layer removed.
pub open spec fn spec_base_path(p: APathV) -> Option<APathV> {
    match p {
        APathV::RootV(_) => Option::None,
        APathV::ReturnV(b) => Option::Some(*b),
        APathV::FieldV(b, _) => Option::Some(*b),
        APathV::ParamV(b, _) => Option::Some(*b),
        APathV::InstanceV(b) => Option::Some(*b),
    }
}

/// Append one character to a string.
/// Relies on `String::push`: it appends exactly that character.
#[verifier::external_body]
pub(crate) fn string_push_char(s: &mut String, c: char)
    ensures
        final(s)@ == old(s)@.push(c),
{
    s.push(c);
}

/// The characters of the range `[lo, hi)` of `chars`, as an owned string.
pub(crate) fn chars_range_to_string(chars: &Vec<char>, lo: usize, hi: usize) -> (r: String)
    requires
        lo <= hi <= chars@.len(),
    ensures
        r@ == chars@.subrange(lo as int, hi as int),
{
    let mut r = String::new();
    let mut i: usize = lo;
    while i < hi
        invariant
            lo <= i <= hi <= chars@.len(),
            r@ =~= chars@.subrange(lo as int, i as int),
        decreases hi - i,
    {
        string_push_char(&mut r, chars[i]);
        assert(r@ =~= chars@.subrange(lo as int, i + 1));
        i = i + 1;
    }
    r
}

impl AccessPathModuleCentred {
    /// The base path: the path with its outermost layer removed. Module import
    /// roots have no base path.
    pub fn get_base_path(&self) -> (r: Option<&Self>)
        ensures
            (match r {
                Option::Some(b) => Option::Some(b@),
                Option::None => Option::None,
            }) == spec_base_path(self@),
    {
        match self {
            Self::RootPath(_) => Option::None,
            Self::ReturnPath(ret) => Option::Some(&**ret),
            Self::FieldAccPath(ret, _) => Option::Some(&**ret),
            Self::ParamPath(ret, _) => Option::Some(&**ret),
            Self::InstancePath(ret) => Option::Some(&**ret),
        }
    }

    /// The string encoding of this access path; see `spec_encode_ap`.
    pub fn to_string(&self) -> (r: String)
        ensures
            r@ == spec_encode_ap(self@),
        decreases *self,
    {
        let mut s = String::new();
        match self {
            Self::RootPath(m) => {
                s.append("(module ");
                s.append(m.as_str());
                s.append(")");
            },
            Self::ReturnPath(b) => {
                let inner = (**b).to_string();
                s.append("(return ");
                s.append(inner.as_str());
                s.append(")");
            },
            Self::FieldAccPath(b, f) => {
                let inner = (**b).to_string();
                s.append("(member ");
                match f {
                    FieldNameType::StringField(n) => {
                        s.append("\"");
                        s.append(n.as_str());
                        s.append("\"");
                    },
                    FieldNameType::IndexField(i) => {
                        let d = usize_to_string(*i);
                        s.append(d.as_str());
                    },
                }
                s.append(" ");
                s.append(inner.as_str());
                s.append(")");
            },
            Self::ParamPath(b, i) => {
                let inner = (**b).to_string();
                s.append("(param ");
                let d = usize_to_string(*i);
                s.append(d.as_str());
                s.append(" ");
                s.append(inner.as_str());
                s.append(")");
            },
            Self::InstancePath(b) => {
                let inner = (**b).to_string();
                s.append("(new ");
                s.append(inner.as_str());
                s.append(")");
            },
        }
        assert(s@ =~= spec_encode_ap(self@));
        s
    }

    /// Decode a string into an access path; see `spec_decode_ap`.
    pub fn from_str(s: &str) -> (r: Result<Self, ()>)
        ensures
            match r {
                Result::Ok(p) => spec_decode_ap(s@) == Option::Some(p@),
                Result::Err(_) => spec_decode_ap(s@) is None,
            },
    {
        let chars = str_to_chars(s);
        let n = chars.len();
        assert(chars@.subrange(0, n as int) =~= s@);
        match Self::parse_range(&chars, 0, n) {
            Option::Some(p) => Result::Ok(p),
            Option::None => Result::Err(()),
        }
    }

    /// Recursive-descent parser for the range `[lo, hi)` of `chars`; it
    /// returns exactly what `spec_decode_ap` denotes on that range.
    fn parse_range(chars: &Vec<char>, lo: usize, hi: usize) -> (r: Option<Self>)
        requires
            lo <= hi <= chars@.len(),
        ensures
            view_opt_ap(r) == spec_decode_ap(chars@.subrange(lo as int, hi as int)),
        decreases hi - lo,
    {
        proof {
            reveal_strlit("(module ");
            reveal_strlit("(return ");
            reveal_strlit("(member ");
            reveal_strlit("(param ");
            reveal_strlit("(new ");
        }
        let ghost s = chars@.subrange(lo as int, hi as int);
        if hi == lo || chars[hi - 1] != ')' {
            assert(hi > lo ==> s.last() == chars@[hi - 1]);
            return Option::None;
        }
        assert(s.len() >= 1 && s.last() == ')');
        if range_starts_with(chars, lo, hi, "(module ") && hi - lo > 8 {
            let name = chars_range_to_string(chars, lo + 8, hi - 1);
            assert(name@ =~= s.subrange("(module "@.len() as int, s.len() - 1));
            Option::Some(Self::RootPath(name))
        } else if range_starts_with(chars, lo, hi, "(return ") && hi - lo > 8 {
            let inner = Self::parse_range(chars, lo + 8, hi - 1);
            proof {
                assert(chars@.subrange(lo + 8, hi - 1) =~= s.subrange(
                    "(return "@.len() as int,
                    s.len() - 1,
                ));
            }
            match inner {
                Option::Some(p) => Option::Some(Self::ReturnPath(Box::new(p))),
                Option::None => Option::None,
            }
        } else if range_starts_with(chars, lo, hi, "(member ") && hi - lo > 8 {
            let r = Self::parse_member(chars, lo + 8, hi - 1);
            proof {
                assert(chars@.subrange(lo + 8, hi - 1) =~= s.subrange(
                    "(member "@.len() as int,
                    s.len() - 1,
                ));
            }
            r
        } else if range_starts_with(chars, lo, hi, "(param ") && hi - lo > 7 {
            let r = Self::parse_param(chars, lo + 7, hi - 1);
            proof {
                assert(chars@.subrange(lo + 7, hi - 1) =~= s.subrange(
                    "(param "@.len() as int,
                    s.len() - 1,
                ));
            }
            r
        } else if range_starts_with(chars, lo, hi, "(new ") && hi - lo > 5 {
            let inner = Self::parse_range(chars, lo + 5, hi - 1);
            proof {
                assert(chars@.subrange(lo + 5, hi - 1) =~= s.subrange(
                    "(new "@.len() as int,
                    s.len() - 1,
                ));
            }
            match inner {
                Option::Some(p) => Option::Some(Self::InstancePath(Box::new(p))),
                Option::None => Option::None,
            }
        } else {
            Option::None
        }
    }

    /// Parser for the middle of a member access; mirrors `spec_decode_member`.
    fn parse_member(chars: &Vec<char>, lo: usize, hi: usize) -> (r: Option<Self>)
        requires
            lo <= hi <= chars@.len(),
        ensures
            view_opt_ap(r) == spec_decode_member(chars@.subrange(lo as int, hi as int)),
        decreases hi - lo,
    {
        let ghost mid = chars@.subrange(lo as int, hi as int);
        if lo < hi && chars[lo] == '"' {
            assert(mid[0] == '"');
            let jq = find_char(chars, '"', lo + 1, hi);
            proof {
                lemma_find_first(mid.subrange(1, mid.len() as int), '"');
            }
            match jq {
                Option::Some(j) => {
                    proof {
                        let tail = mid.subrange(1, mid.len() as int);
                        assert(forall|k: int| 0 <= k < tail.len() ==> tail[k] == chars@[lo + 1 + k]);
                        assert(tail[j - lo - 1] == '"');
                        assert(forall|k: int| 0 <= k < j - lo - 1 ==> tail[k] != '"');
                        crate::strutil::lemma_find_unique(tail, '"', j - lo - 1);
                    }
                    // name is chars[lo+1 .. j]; need a space right after the quote
                    if j + 1 < hi && chars[j + 1] == ' ' {
                        let name = chars_range_to_string(chars, lo + 1, j);
                        let inner = Self::parse_range(chars, j + 2, hi);
                        proof {
                            assert(name@ =~= mid.subrange(1, 1 + (j - lo - 1)));
                            assert(chars@.subrange(j + 2, hi as int) =~= mid.subrange(
                                1 + (j - lo - 1) + 2,
                                mid.len() as int,
                            ));
                            assert(mid[1 + (j - lo - 1) + 1] == ' ');
                        }
                        match inner {
                            Option::Some(p) => Option::Some(
                                Self::FieldAccPath(
                                    Box::new(p),
                                    FieldNameType::StringField(name),
                                ),
                            ),
                            Option::None => Option::None,
                        }
                    } else {
                        proof {
                            if 1 + (j - lo - 1) + 1 < mid.len() {
                                assert(mid[1 + (j - lo - 1) + 1] == chars@[j + 1]);
                            }
                        }
                        Option::None
                    }
                },
                Option::None => {
                    proof {
                        let tail = mid.subrange(1, mid.len() as int);
                        assert(forall|k: int| 0 <= k < tail.len() ==> tail[k] == chars@[lo + 1 + k]);
                        crate::strutil::lemma_find_none(tail, '"');
                    }
                    Option::None
                },
            }
        } else {
            assert(mid.len() >= 1 ==> mid[0] == chars@[lo as int]);
            let js = find_char(chars, ' ', lo, hi);
            match js {
                Option::Some(j) => {
                    proof {
                        assert(forall|k: int| 0 <= k < mid.len() ==> mid[k] == chars@[lo + k]);
                        crate::strutil::lemma_find_unique(mid, ' ', j - lo);
                    }
                    if j == lo {
                        Option::None
                    } else {
                        let ghost token = mid.subrange(0, j - lo);
                        let ghost rest = mid.subrange(j - lo + 1, mid.len() as int);
                        proof {
                            assert(chars@.subrange(j + 1, hi as int) =~= rest);
                            assert(token =~= chars@.subrange(lo as int, j as int));
                        }
                        let is_exports = Self::range_eq_str(chars, lo, j, "exports");
                        if is_exports {
                            let inner = Self::parse_range(chars, j + 1, hi);
                            let name = chars_range_to_string(chars, lo, j);
                            assert(name@ =~= token);
                            match inner {
                                Option::Some(Self::RootPath(m)) => Option::Some(
                                    Self::RootPath(m),
                                ),
                                Option::Some(p) => Option::Some(
                                    Self::FieldAccPath(
                                        Box::new(p),
                                        FieldNameType::StringField(name),
                                    ),
                                ),
                                Option::None => Option::None,
                            }
                        } else if range_all_digits(chars, lo, j) {
                            proof {
                                crate::strutil::lemma_digits_range(chars@, token, lo as int);
                                assert(forall|k: int|
                                    0 <= k < token.len() ==> spec_is_digit(#[trigger] token[k]));
                            }
                            match parse_decimal_chars(chars, lo, j) {
                                Option::Some(v) => {
                                    proof {
                                        assert(token =~= chars@.subrange(lo as int, j as int));
                                    }
                                    assert(v as nat == spec_parse_decimal(token));
                                    let inner = Self::parse_range(chars, j + 1, hi);
                                    match inner {
                                        Option::Some(p) => Option::Some(
                                            Self::FieldAccPath(
                                                Box::new(p),
                                                FieldNameType::IndexField(v),
                                            ),
                                        ),
                                        Option::None => Option::None,
                                    }
                                },
                                Option::None => {
                                    proof {
                                        assert(token =~= chars@.subrange(lo as int, j as int));
                                    }
                                    assert(spec_parse_decimal(token) > usize::MAX);
                                    let name = chars_range_to_string(chars, lo, j);
                                    assert(name@ =~= token);
                                    let inner = Self::parse_range(chars, j + 1, hi);
                                    match inner {
                                        Option::Some(p) => Option::Some(
                                            Self::FieldAccPath(
                                                Box::new(p),
                                                FieldNameType::StringField(name),
                                            ),
                                        ),
                                        Option::None => Option::None,
                                    }
                                },
                            }
                        } else {
                            proof {
                                crate::strutil::lemma_digits_range(chars@, token, lo as int);
                                assert(!(forall|k: int|
                                    0 <= k < token.len() ==> spec_is_digit(#[trigger] token[k])));
                            }
                            let name = chars_range_to_string(chars, lo, j);
                            assert(name@ =~= token);
                            let inner = Self::parse_range(chars, j + 1, hi);
                            match inner {
                                Option::Some(p) => Option::Some(
                                    Self::FieldAccPath(
                                        Box::new(p),
                                        FieldNameType::StringField(name),
                                    ),
                                ),
                                Option::None => Option::None,
                            }
                        }
                    }
                },
                Option::None => {
                    proof {
                        assert(forall|k: int| 0 <= k < mid.len() ==> mid[k] == chars@[lo + k]);
                        crate::strutil::lemma_find_none(mid, ' ');
                    }
                    Option::None
                },
            }
        }
    }

    /// Parser for the middle of a parameter access; mirrors `spec_decode_param`.
    fn parse_param(chars: &Vec<char>, lo: usize, hi: usize) -> (r: Option<Self>)
        requires
            lo <= hi <= chars@.len(),
        ensures
            view_opt_ap(r) == spec_decode_param(chars@.subrange(lo as int, hi as int)),
        decreases hi - lo,
    {
        let ghost mid = chars@.subrange(lo as int, hi as int);
        let js = find_char(chars, ' ', lo, hi);
        match js {
            Option::Some(j) => {
                proof {
                    assert(forall|k: int| 0 <= k < mid.len() ==> mid[k] == chars@[lo + k]);
                    crate::strutil::lemma_find_unique(mid, ' ', j - lo);
                }
                if j == lo {
                    Option::None
                } else {
                    let ghost token = mid.subrange(0, j - lo);
                    let ghost rest = mid.subrange(j - lo + 1, mid.len() as int);
                    proof {
                        assert(chars@.subrange(j + 1, hi as int) =~= rest);
                        assert(token =~= chars@.subrange(lo as int, j as int));
                    }
                    if range_all_digits(chars, lo, j) {
                        proof {
                            crate::strutil::lemma_digits_range(chars@, token, lo as int);
                            assert(forall|k: int|
                                0 <= k < token.len() ==> spec_is_digit(#[trigger] token[k]));
                        }
                        match parse_decimal_chars(chars, lo, j) {
                            Option::Some(v) => {
                                proof {
                                    assert(token =~= chars@.subrange(lo as int, j as int));
                                }
                                assert(v as nat == spec_parse_decimal(token));
                                let inner = Self::parse_range(chars, j + 1, hi);
                                match inner {
                                    Option::Some(p) => Option::Some(
                                        Self::ParamPath(Box::new(p), v),
                                    ),
                                    Option::None => Option::None,
                                }
                            },
                            Option::None => {
                                proof {
                                    assert(token =~= chars@.subrange(lo as int, j as int));
                                }
                                assert(spec_parse_decimal(token) > usize::MAX);
                                Option::None
                            },
                        }
                    } else {
                        proof {
                            crate::strutil::lemma_digits_range(chars@, token, lo as int);
                            assert(!(forall|k: int|
                                0 <= k < token.len() ==> spec_is_digit(#[trigger] token[k])));
                        }
                        Option::None
                    }
                }
            },
            Option::None => {
                proof {
                    assert(forall|k: int| 0 <= k < mid.len() ==> mid[k] == chars@[lo + k]);
                    crate::strutil::lemma_find_none(mid, ' ');
                }
                Option::None
            },
        }
    }

    /// Does the range `[lo, hi)` of `chars` equal the given string exactly?
    fn range_eq_str(chars: &Vec<char>, lo: usize, hi: usize, pat: &str) -> (r: bool)
        requires
            lo <= hi <= chars@.len(),
        ensures
            r == (chars@.subrange(lo as int, hi as int) == pat@),
    {
        let n: usize = pat.unicode_len();
        if hi - lo != n {
            proof {
                assert(chars@.subrange(lo as int, hi as int).len() != pat@.len());
            }
            return false;
        }
        let mut i: usize = 0;
        while i < n
            invariant
                n == pat@.len(),
                lo <= hi <= chars@.len(),
                hi - lo == n,
                i <= n,
                forall|k: int| 0 <= k < i ==> chars@[lo + k] == pat@[k],
            decreases n - i,
        {
            if chars[lo + i] != pat.get_char(i) {
                assert(chars@.subrange(lo as int, hi as int)[i as int] != pat@[i as int]);
                return false;
            }
            i = i + 1;
        }
        proof {
            assert(chars@.subrange(lo as int, hi as int) =~= pat@);
        }
        true
    }
}

/// Frame facts for an encoding of the shape `pre + body + ")"`.
proof fn lemma_frame(pre: Seq<char>, body: Seq<char>)
    ensures
        (pre + body + ")"@).len() == pre.len() + body.len() + 1,
        (pre + body + ")"@).len() >= 1,
        (pre + body + ")"@).last() == ')',
        spec_starts_with(pre + body + ")"@, pre),
        (pre + body + ")"@).subrange(pre.len() as int, (pre + body + ")"@).len() - 1) == body,
{
    reveal_strlit(")");
    let s = pre + body + ")"@;
    assert(")"@.len() == 1);
    assert(s.last() == ')');
    assert(s.subrange(0, pre.len() as int) =~= pre);
    assert(s.subrange(pre.len() as int, s.len() - 1) =~= body);
}

/// Every encoding is at least six characters long.
proof fn lemma_encode_nonempty(p: APathV)
    ensures
        spec_encode_ap(p).len() >= 6,
{
    reveal_strlit("(module ");
    reveal_strlit("(return ");
    reveal_strlit("(member ");
    reveal_strlit("(param ");
    reveal_strlit("(new ");
    reveal_strlit(")");
    reveal_strlit(" ");
    match p {
        APathV::RootV(m) => {
            assert(spec_encode_ap(p).len() == 8 + m.len() + 1);
        },
        APathV::ReturnV(b) => {
            assert(spec_encode_ap(p).len() == 8 + spec_encode_ap(*b).len() + 1);
        },
        APathV::FieldV(b, f) => {
            assert(spec_encode_ap(p).len() == 8 + spec_encode_fnt(f).len() + 1
                + spec_encode_ap(*b).len() + 1);
        },
        APathV::ParamV(b, i) => {
            assert(spec_encode_ap(p).len() == 7 + spec_decimal(i as nat).len() + 1
                + spec_encode_ap(*b).len() + 1);
        },
        APathV::InstanceV(b) => {
            assert(spec_encode_ap(p).len() == 5 + spec_encode_ap(*b).len() + 1);
        },
    }
}

/// Decoding inverts encoding: every well-formed access path is recovered
/// exactly from its string encoding.
pub proof fn lemma_decode_encode(p: APathV)
    requires
        wf_ap(p),
    ensures
        spec_decode_ap(spec_encode_ap(p)) == Option::Some(p),
    decreases p,
{
    reveal_strlit("(module ");
    reveal_strlit("(return ");
    reveal_strlit("(member ");
    reveal_strlit("(param ");
    reveal_strlit("(new ");
    reveal_strlit(")");
    reveal_strlit("\"");
    reveal_strlit(" ");
    reveal_strlit("exports");
    let s = spec_encode_ap(p);
    match p {
        APathV::RootV(m) => {
            lemma_frame("(module "@, m);
            assert(spec_decode_ap(s) == Option::Some(APathV::RootV(s.subrange(8, s.len() - 1))));
        },
        APathV::ReturnV(b) => {
            let body = spec_encode_ap(*b);
            lemma_frame("(return "@, body);
            assert(!spec_starts_with(s, "(module "@)) by {
                if spec_starts_with(s, "(module "@) {
                    assert(s.subrange(0, 8)[1] == "(module "@[1]);
                    assert(s.subrange(0, 8)[1] == "(return "@[1]);
                }
            }
            lemma_decode_encode(*b);
            assert(s.subrange(8, s.len() - 1) == body);
            assert(spec_decode_ap(s) == Option::Some(APathV::ReturnV(Box::new(*b))));
            assert(APathV::ReturnV(Box::new(*b)) == p);
        },
        APathV::InstanceV(b) => {
            let body = spec_encode_ap(*b);
            lemma_frame("(new "@, body);
            assert(!spec_starts_with(s, "(module "@)) by {
                if spec_starts_with(s, "(module "@) {
                    assert(s.subrange(0, 8)[1] == "(module "@[1]);
                    assert(s.subrange(0, 5)[1] == "(new "@[1]);
                }
            }
            assert(!spec_starts_with(s, "(return "@)) by {
                if spec_starts_with(s, "(return "@) {
                    assert(s.subrange(0, 8)[1] == "(return "@[1]);
                    assert(s.subrange(0, 5)[1] == "(new "@[1]);
                }
            }
            assert(!spec_starts_with(s, "(member "@)) by {
                if spec_starts_with(s, "(member "@) {
                    assert(s.subrange(0, 8)[1] == "(member "@[1]);
                    assert(s.subrange(0, 5)[1] == "(new "@[1]);
                }
            }
            assert(!spec_starts_with(s, "(param "@)) by {
                if spec_starts_with(s, "(param "@) {
                    assert(s.subrange(0, 7)[1] == "(param "@[1]);
                    assert(s.subrange(0, 5)[1] == "(new "@[1]);
                }
            }
            lemma_decode_encode(*b);
            assert(s.subrange(5, s.len() - 1) == body);
            assert(spec_decode_ap(s) == Option::Some(APathV::InstanceV(Box::new(*b))));
            assert(APathV::InstanceV(Box::new(*b)) == p);
        },
        APathV::ParamV(b, i) => {
            let body = spec_decimal(i as nat) + " "@ + spec_encode_ap(*b);
            assert(("(param "@ + spec_decimal(i as nat) + " "@ + spec_encode_ap(*b) + ")"@)
                =~= ("(param "@ + body + ")"@));
            lemma_frame("(param "@, body);
            assert(!spec_starts_with(s, "(module "@)) by {
                if spec_starts_with(s, "(module "@) {
                    assert(s.subrange(0, 8)[1] == "(module "@[1]);
                    assert(s.subrange(0, 7)[1] == "(param "@[1]);
                }
            }
            assert(!spec_starts_with(s, "(return "@)) by {
                if spec_starts_with(s, "(return "@) {
                    assert(s.subrange(0, 8)[1] == "(return "@[1]);
                    assert(s.subrange(0, 7)[1] == "(param "@[1]);
                }
            }
            assert(!spec_starts_with(s, "(member "@)) by {
                if spec_starts_with(s, "(member "@) {
                    assert(s.subrange(0, 8)[1] == "(member "@[1]);
                    assert(s.subrange(0, 7)[1] == "(param "@[1]);
                }
            }
            let mid = s.subrange(7, s.len() - 1);
            assert(mid == body);
            let dec = spec_decimal(i as nat);
            let enc = spec_encode_ap(*b);
            lemma_decimal_digits_all(i as nat);
            assert(mid[dec.len() as int] == ' ');
            assert forall|k: int| 0 <= k < dec.len() implies mid[k] != ' ' by {
                assert(mid[k] == dec[k]);
                crate::strutil::lemma_digit_not_delim(dec[k]);
            }
            lemma_find_unique(mid, ' ', dec.len() as int);
            let token = mid.subrange(0, dec.len() as int);
            assert(token =~= dec);
            assert forall|k: int| 0 <= k < token.len() implies spec_is_digit(
                #[trigger] token[k],
            ) by {
                assert(token[k] == dec[k]);
            }
            crate::strutil::lemma_parse_decimal_of(i as nat);
            assert(spec_parse_decimal(token) == i as nat);
            let rest = mid.subrange(dec.len() as int + 1, mid.len() as int);
            assert(rest =~= enc);
            lemma_decode_encode(*b);
            assert(spec_decode_param(mid) == Option::Some(
                APathV::ParamV(Box::new(*b), i),
            ));
            assert(spec_decode_ap(s) == Option::Some(APathV::ParamV(Box::new(*b), i)));
            assert(APathV::ParamV(Box::new(*b), i) == p);
        },
        APathV::FieldV(b, f) => {
            let fnt = spec_encode_fnt(f);
            let body = fnt + " "@ + spec_encode_ap(*b);
            assert(("(member "@ + spec_encode_fnt(f) + " "@ + spec_encode_ap(*b) + ")"@)
                =~= ("(member "@ + body + ")"@));
            lemma_frame("(member "@, body);
            assert(!spec_starts_with(s, "(module "@)) by {
                if spec_starts_with(s, "(module "@) {
                    assert(s.subrange(0, 8)[2] == "(module "@[2]);
                    assert(s.subrange(0, 8)[2] == "(member "@[2]);
                }
            }
            assert(!spec_starts_with(s, "(return "@)) by {
                if spec_starts_with(s, "(return "@) {
                    assert(s.subrange(0, 8)[1] == "(return "@[1]);
                    assert(s.subrange(0, 8)[1] == "(member "@[1]);
                }
            }
            let mid = s.subrange(8, s.len() - 1);
            assert(mid == body);
            let enc = spec_encode_ap(*b);
            lemma_encode_nonempty(*b);
            lemma_decode_encode(*b);
            match f {
                FieldNameTypeV::StringFieldV(name) => {
                    assert(fnt =~= "\""@ + name + "\""@);
                    assert(mid[0] == '"');
                    let tail = mid.subrange(1, mid.len() as int);
                    assert(tail.len() == name.len() + 2 + enc.len());
                    assert(tail[name.len() as int] == '"');
                    assert forall|k: int| 0 <= k < name.len() implies tail[k] != '"' by {
                        assert(tail[k] == name[k]);
                    }
                    lemma_find_unique(tail, '"', name.len() as int);
                    let j = name.len() as int;
                    assert(mid.subrange(1, 1 + j) =~= name);
                    assert(mid[1 + j + 1] == ' ');
                    assert(1 + j + 1 < mid.len());
                    let rest = mid.subrange(1 + j + 2, mid.len() as int);
                    assert(rest =~= enc);
                    assert(spec_decode_member(mid) == Option::Some(
                        APathV::FieldV(Box::new(*b), FieldNameTypeV::StringFieldV(name)),
                    ));
                    assert(spec_decode_ap(s) == Option::Some(p));
                },
                FieldNameTypeV::IndexFieldV(i) => {
                    let dec = spec_decimal(i as nat);
                    assert(fnt == dec);
                    lemma_decimal_digits_all(i as nat);
                    assert(mid[0] == dec[0]);
                    crate::strutil::lemma_digit_not_delim(dec[0]);
                    assert(mid[0] != '"');
                    assert(mid[dec.len() as int] == ' ');
                    assert forall|k: int| 0 <= k < dec.len() implies mid[k] != ' ' by {
                        assert(mid[k] == dec[k]);
                        crate::strutil::lemma_digit_not_delim(dec[k]);
                    }
                    lemma_find_unique(mid, ' ', dec.len() as int);
                    let token = mid.subrange(0, dec.len() as int);
                    assert(token =~= dec);
                    assert(token != "exports"@) by {
                        if token == "exports"@ {
                            assert(token[0] == 'e');
                            assert(spec_is_digit(dec[0]));
                        }
                    }
                    assert forall|k: int| 0 <= k < token.len() implies spec_is_digit(
                        #[trigger] token[k],
                    ) by {
                        assert(token[k] == dec[k]);
                    }
                    crate::strutil::lemma_parse_decimal_of(i as nat);
                    assert(spec_parse_decimal(token) == i as nat);
                    let rest = mid.subrange(dec.len() as int + 1, mid.len() as int);
                    assert(rest =~= enc);
                    assert(spec_decode_member(mid) == Option::Some(
                        APathV::FieldV(Box::new(*b), FieldNameTypeV::IndexFieldV(i)),
                    ));
                    assert(spec_decode_ap(s) == Option::Some(p));
                },
            }
        },
    }
}

/// Helper: the digits of a decimal rendering, with its nonemptiness.
proof fn lemma_decimal_digits_all(n: nat)
    ensures
        spec_decimal(n).len() >= 1,
        forall|i: int|
            0 <= i < spec_decimal(n).len() ==> spec_is_digit(#[trigger] spec_decimal(n)[i]),
{
    crate::strutil::lemma_decimal_digits(n);
}

/// Mathematical view of a module function.
#[verifier::ext_equal]
pub struct ModuleFunctionV {
    pub name: Seq<char>,
    pub sigs: Seq<FunctionSignatureV>,
    pub num_api_args: Option<usize>,
}

/// A function in a module: its name, its accumulated signatures, and the
/// number of arguments the API documentation gives, where known.
#[derive(Debug)]
pub struct ModuleFunction {
    /// Name of the function.
    name: String,
    /// Accumulated valid signatures, pairwise distinct by abstract shape.
    sigs: Vec<FunctionSignature>,
    /// Number of arguments according to the API docs; `None` when that
    /// information is unavailable (for example, spread arguments).
    num_api_args: Option<usize>,
}

impl View for ModuleFunction {
    type V = ModuleFunctionV;

    closed spec fn view(&self) -> ModuleFunctionV {
        ModuleFunctionV {
            name: self.name@,
            sigs: Seq::new(
                self.sigs@.len(),
                |i: int|
                    if 0 <= i < self.sigs@.len() {
                        self.sigs@[i]@
                    } else {
                        FunctionSignatureV {
                            arg_list: Seq::empty(),
                            call_test_result: Option::None,
                            is_spread_args: false,
                        }
                    },
            ),
            num_api_args: self.num_api_args,
        }
    }
}

impl ModuleFunctionV {
    /// No two recorded signatures share an abstract shape.
    pub open spec fn sigs_distinct(self) -> bool {
        forall|i: int, j: int|
            0 <= i < j < self.sigs.len() ==> self.sigs[i].abstract_sig()
                != self.sigs[j].abstract_sig()
    }
}

impl ModuleFunction {
    /// Constructor: a function with no signatures yet.
    pub fn new(name: String, num_api_args: Option<usize>) -> (r: Self)
        ensures
            r@.name == name@,
            r@.sigs =~= Seq::<FunctionSignatureV>::empty(),
            r@.num_api_args == num_api_args,
            r@.sigs_distinct(),
    {
        let r = ModuleFunction { name, sigs: Vec::new(), num_api_args };
        assert(r@.sigs =~= Seq::<FunctionSignatureV>::empty());
        r
    }

    /// The number of arguments the API documentation gives, if known.
    pub fn get_num_api_args(&self) -> (r: Option<usize>)
        ensures
            r == self@.num_api_args,
    {
        self.num_api_args
    }

    /// Read access to the recorded signatures.
    pub fn get_sigs(&self) -> (r: &Vec<FunctionSignature>)
        ensures
            r@.len() == self@.sigs.len(),
            forall|i: int| 0 <= i < r@.len() ==> #[trigger] r@[i]@ == self@.sigs[i],
    {
        &self.sigs
    }

    /// Record a signature. Signatures are deduplicated by abstract shape: if a
    /// signature with the same ordered list of argument types is already
    /// recorded, nothing changes; otherwise the new one is appended.
    pub fn add_sig(&mut self, sig: FunctionSignature)
        ensures
            (exists|i: int|
                0 <= i < old(self)@.sigs.len() && (#[trigger] old(self)@.sigs[i]).abstract_sig()
                    == sig@.abstract_sig()) ==> final(self)@ == old(self)@,
            !(exists|i: int|
                0 <= i < old(self)@.sigs.len() && (#[trigger] old(self)@.sigs[i]).abstract_sig()
                    == sig@.abstract_sig()) ==> final(self)@ == (ModuleFunctionV {
                sigs: old(self)@.sigs.push(sig@),
                ..old(self)@
            }),
            old(self)@.sigs_distinct() ==> final(self)@.sigs_distinct(),
    {
        let new_abs = sig.get_abstract_sig();
        let mut i: usize = 0;
        while i < self.sigs.len()
            invariant
                i <= self.sigs@.len(),
                new_abs@ == sig@.abstract_sig(),
                forall|j: int|
                    0 <= j < i ==> (#[trigger] self@.sigs[j]).abstract_sig()
                        != sig@.abstract_sig(),
                self@.sigs.len() == self.sigs@.len(),
            decreases self.sigs@.len() - i,
        {
            let abs = self.sigs[i].get_abstract_sig();
            let mut same = abs.len() == new_abs.len();
            let mut k: usize = 0;
            while same && k < abs.len()
                invariant
                    abs@ == self@.sigs[i as int].abstract_sig(),
                    new_abs@ == sig@.abstract_sig(),
                    k <= abs@.len(),
                    i < self@.sigs.len(),
                    same ==> abs@.len() == new_abs@.len() && forall|m: int|
                        0 <= m < k ==> abs@[m] == new_abs@[m],
                    !same ==> abs@ != new_abs@,
                decreases abs@.len() - k + (if same { 1int } else { 0int }),
            {
                if abs[k] != new_abs[k] {
                    assert(abs@[k as int] != new_abs@[k as int]);
                    same = false;
                } else {
                    k = k + 1;
                }
            }
            if same {
                assert(abs@ =~= new_abs@);
                return ;
            }
            i = i + 1;
        }
        self.sigs.push(sig);
        assert(self@.sigs =~= old(self)@.sigs.push(sig@));
        assert(self@ =~= (ModuleFunctionV { sigs: old(self)@.sigs.push(sig@), ..old(self)@ }));
        proof {
            if old(self)@.sigs_distinct() {
                assert forall|a: int, b: int| 0 <= a < b < self@.sigs.len() implies self@.sigs[
                    a
                ].abstract_sig() != self@.sigs[b].abstract_sig() by {
                    if b == self@.sigs.len() - 1 {
                        assert(self@.sigs[a] == old(self)@.sigs[a]);
                    } else {
                        assert(self@.sigs[a] == old(self)@.sigs[a]);
                        assert(self@.sigs[b] == old(self)@.sigs[b]);
                    }
                }
            }
        }
    }

    /// The name of the function.
    pub fn get_name(&self) -> (r: String)
        ensures
            r@ == self@.name,
    {
        self.name.clone()
    }
}

/// Statically gathered description of one API function, as the initial
/// listing reports it: a name, an argument count, and whether that count came
/// from default (unknown-arity) arguments.
#[derive(Debug)]
pub struct ModFctAPIJSON {
    /// Name of the function.
    pub name: String,
    /// Number of arguments.
    pub num_args: usize,
    /// Whether the argument count is a default rather than a real one.
    pub used_default_args: Option<bool>,
}

/// Mathematical view of the module registry.
#[verifier::ext_equal]
pub struct NpmModuleV {
    pub lib: Seq<char>,
    pub import_code: Option<Seq<char>>,
    pub fns: Seq<((APathV, Seq<char>), ModuleFunctionV)>,
}

/// The registry of known functions of one library: a catalog of
/// (access path, function name) pairs, each with its accumulated signatures.
#[derive(Debug)]
pub struct NpmModule {
    /// Name of the module.
    pub(crate) lib: String,
    /// Optional custom import code for the module.
    pub(crate) import_code: Option<String>,
    /// The known functions, keyed by access path and name; keys are unique.
    fns: Vec<((AccessPathModuleCentred, String), ModuleFunction)>,
}

impl View for NpmModule {
    type V = NpmModuleV;

    closed spec fn view(&self) -> NpmModuleV {
        NpmModuleV {
            lib: self.lib@,
            import_code: crate::functions::view_opt_string(self.import_code),
            fns: Seq::new(
                self.fns@.len(),
                |i: int|
                    if 0 <= i < self.fns@.len() {
                        ((self.fns@[i].0.0@, self.fns@[i].0.1@), self.fns@[i].1@)
                    } else {
                        (
                            (APathV::RootV(Seq::empty()), Seq::<char>::empty()),
                            ModuleFunctionV {
                                name: Seq::empty(),
                                sigs: Seq::empty(),
                                num_api_args: Option::None,
                            },
                        )
                    },
            ),
        }
    }
}

impl NpmModuleV {
    /// Registry keys are unique.
    pub open spec fn keys_unique(self) -> bool {
        forall|i: int, j: int|
            0 <= i < j < self.fns.len() ==> (#[trigger] self.fns[i]).0 != (
            #[trigger] self.fns[j]).0
    }

    /// Is the key present in the registry?
    pub open spec fn has_key(self, key: (APathV, Seq<char>)) -> bool {
        exists|i: int| 0 <= i < self.fns.len() && (#[trigger] self.fns[i]).0 == key
    }
}

/// The module's variable name in generated code: the library name with
/// hyphens replaced by underscores.
pub open spec fn spec_js_var_name(lib: Seq<char>) -> Seq<char> {
    Seq::new(
        lib.len(),
        |i: int|
            if lib[i] == '-' {
                '_'
            } else {
                lib[i]
            },
    )
}

/// The import line of a test: `let <var> = <import>;` where the import is the
/// custom import code if any, else `require("<source dir or library name>")`.
pub open spec fn spec_cjs_import(
    lib: Seq<char>,
    import_code: Option<Seq<char>>,
    api_src_dir: Option<Seq<char>>,
) -> Seq<char> {
    "let "@ + spec_js_var_name(lib) + " = "@ + (match import_code {
        Option::Some(code) => code,
        Option::None => "require(\""@ + (match api_src_dir {
            Option::Some(dir) => dir,
            Option::None => lib,
        }) + "\")"@,
    }) + ";"@
}

impl NpmModule {
    /// Constructor: an empty registry for the given library.
    pub fn new(lib: String, import_code: Option<String>) -> (r: Self)
        ensures
            r@.lib == lib@,
            r@.import_code == crate::functions::view_opt_string(import_code),
            r@.fns =~= Seq::<((APathV, Seq<char>), ModuleFunctionV)>::empty(),
            r@.keys_unique(),
    {
        let r = NpmModule { lib, import_code, fns: Vec::new() };
        assert(r@.fns =~= Seq::<((APathV, Seq<char>), ModuleFunctionV)>::empty());
        r
    }

    /// Replace the whole function catalog.
    pub fn set_fns(&mut self, new_fcts: Vec<((AccessPathModuleCentred, String), ModuleFunction)>)
        ensures
            final(self)@.lib == old(self)@.lib,
            final(self)@.import_code == old(self)@.import_code,
            final(self)@.fns.len() == new_fcts@.len(),
            forall|i: int|
                0 <= i < new_fcts@.len() ==> #[trigger] final(self)@.fns[i] == (
                (new_fcts@[i].0.0@, new_fcts@[i].0.1@),
                new_fcts@[i].1@,
            ),
    {
        self.fns = new_fcts;
    }

    /// Read access to the function catalog.
    pub fn get_fns(&self) -> (r: &Vec<((AccessPathModuleCentred, String), ModuleFunction)>)
        ensures
            r@.len() == self@.fns.len(),
            forall|i: int|
                0 <= i < r@.len() ==> #[trigger] self@.fns[i] == (
                (r@[i].0.0@, r@[i].0.1@),
                r@[i].1@,
            ),
    {
        &self.fns
    }

    /// The position of a key in the catalog, if it is present.
    pub fn find_fn(&self, acc_path: &AccessPathModuleCentred, name: &str) -> (r: Option<usize>)
        ensures
            match r {
                Option::Some(i) => i < self@.fns.len() && self@.fns[i as int].0 == (
                    acc_path@,
                    name@,
                ),
                Option::None => !self@.has_key((acc_path@, name@)),
            },
    {
        let mut i: usize = 0;
        while i < self.fns.len()
            invariant
                i <= self.fns@.len(),
                self@.fns.len() == self.fns@.len(),
                forall|j: int| 0 <= j < i ==> (#[trigger] self@.fns[j]).0 != (acc_path@, name@),
            decreases self.fns@.len() - i,
        {
            let (key, _) = &self.fns[i];
            let (kp, kn) = key;
            if ap_eq(kp, acc_path) && crate::strutil::str_eq(kn.as_str(), name) {
                assert(self@.fns[i as int].0 == (acc_path@, name@));
                return Option::Some(i);
            }
            assert((kp@, kn@) != (acc_path@, name@));
            i = i + 1;
        }
        Option::None
    }

    /// Read access to the function at a catalog position.
    pub fn fn_at(&self, i: usize) -> (r: &ModuleFunction)
        requires
            i < self@.fns.len(),
        ensures
            r@ == self@.fns[i as int].1,
    {
        &self.fns[i].1
    }

    /// Record a signature for the function at a catalog position.
    pub fn add_sig_at(&mut self, i: usize, sig: FunctionSignature)
        requires
            i < old(self)@.fns.len(),
        ensures
            final(self)@.lib == old(self)@.lib,
            final(self)@.import_code == old(self)@.import_code,
            final(self)@.fns.len() == old(self)@.fns.len(),
            forall|j: int|
                0 <= j < old(self)@.fns.len() && j != i ==> #[trigger] final(self)@.fns[j] == old(self)@.fns[j],
            final(self)@.fns[i as int].0 == old(self)@.fns[i as int].0,
            (exists|k: int|
                0 <= k < old(self)@.fns[i as int].1.sigs.len() && (#[trigger] old(self)@.fns[i as int].1.sigs[k]).abstract_sig() == sig@.abstract_sig()) ==> final(self)@.fns[i as int].1 == old(self)@.fns[i as int].1,
            !(exists|k: int|
                0 <= k < old(self)@.fns[i as int].1.sigs.len() && (#[trigger] old(self)@.fns[i as int].1.sigs[k]).abstract_sig() == sig@.abstract_sig()) ==> final(self)@.fns[i as int].1 == (ModuleFunctionV {
                sigs: old(self)@.fns[i as int].1.sigs.push(sig@),
                ..old(self)@.fns[i as int].1
            }),
            old(self)@.fns[i as int].1.sigs_distinct() ==> final(self)@.fns[i as int].1.sigs_distinct(),
            old(self)@.keys_unique() ==> final(self)@.keys_unique(),
    {
        self.fns[i].1.add_sig(sig);
        assert forall|j: int|
            0 <= j < old(self)@.fns.len() && j != i implies #[trigger] self@.fns[j] == old(self)@.fns[j] by {
            assert(self.fns@[j] == old(self).fns@[j]);
        }
        proof {
            if old(self)@.keys_unique() {
                assert forall|a: int, b: int|
                    0 <= a < b < self@.fns.len() implies (#[trigger] self@.fns[a]).0 != (
                    #[trigger] self@.fns[b]).0 by {
                    assert(self@.fns[a].0 == old(self)@.fns[a].0);
                    assert(self@.fns[b].0 == old(self)@.fns[b].0);
                }
            }
        }
    }

    /// Register a function under a key that is not yet in the catalog.
    pub fn register_fn(
        &mut self,
        acc_path: AccessPathModuleCentred,
        name: String,
        num_api_args: Option<usize>,
    )
        requires
            !old(self)@.has_key((acc_path@, name@)),
        ensures
            final(self)@.lib == old(self)@.lib,
            final(self)@.import_code == old(self)@.import_code,
            final(self)@.fns == old(self)@.fns.push(
                (
                    (acc_path@, name@),
                    ModuleFunctionV {
                        name: name@,
                        sigs: Seq::empty(),
                        num_api_args: num_api_args,
                    },
                ),
            ),
            old(self)@.keys_unique() ==> final(self)@.keys_unique(),
    {
        let mf = ModuleFunction::new(name.clone(), num_api_args);
        self.fns.push(((acc_path, name), mf));
        assert(self@.fns =~= old(self)@.fns.push(
            (
                (acc_path@, name@),
                ModuleFunctionV { name: name@, sigs: Seq::empty(), num_api_args: num_api_args },
            ),
        )) by {
            assert(forall|j: int|
                0 <= j < old(self)@.fns.len() ==> #[trigger] self@.fns[j] == old(self)@.fns[j]);
            assert(self@.fns[self@.fns.len() - 1].0 == (acc_path@, name@));
            assert(self@.fns[self@.fns.len() - 1].1 =~= (ModuleFunctionV {
                name: name@,
                sigs: Seq::empty(),
                num_api_args: num_api_args,
            }));
        }
        proof {
            if old(self)@.keys_unique() {
                assert forall|a: int, b: int|
                    0 <= a < b < self@.fns.len() implies (#[trigger] self@.fns[a]).0 != (
                    #[trigger] self@.fns[b]).0 by {
                    if b == self@.fns.len() - 1 {
                        assert(!old(self)@.has_key(self@.fns[b].0));
                        assert(self@.fns[a] == old(self)@.fns[a]);
                    } else {
                        assert(self@.fns[a] == old(self)@.fns[a]);
                        assert(self@.fns[b] == old(self)@.fns[b]);
                    }
                }
            }
        }
    }

    /// The code importing this module: a `let` of the module variable, bound
    /// to the custom import code where one was given, else to a `require` of
    /// the source directory or the library name.
    pub fn get_js_for_basic_cjs_import(&self, api_src_dir: Option<String>) -> (r: String)
        ensures
            r@ == spec_cjs_import(
                self@.lib,
                self@.import_code,
                crate::functions::view_opt_string(api_src_dir),
            ),
    {
        let mut r = String::new();
        r.append("let ");
        let var = self.get_mod_js_var_name();
        r.append(var.as_str());
        r.append(" = ");
        match &self.import_code {
            Option::Some(code) => r.append(code.as_str()),
            Option::None => {
                r.append("require(\"");
                match api_src_dir {
                    Option::Some(dir) => r.append(dir.as_str()),
                    Option::None => r.append(self.lib.as_str()),
                }
                r.append("\")");
            },
        }
        r.append(";");
        assert(r@ =~= spec_cjs_import(
            self@.lib,
            self@.import_code,
            crate::functions::view_opt_string(api_src_dir),
        ));
        r
    }

    /// The library's name.
    pub fn get_lib(&self) -> (r: String)
        ensures
            r@ == self@.lib,
    {
        self.lib.clone()
    }

    /// The module's variable name in generated code.
    pub fn get_mod_js_var_name(&self) -> (r: String)
        ensures
            r@ == spec_js_var_name(self@.lib),
    {
        let chars = str_to_chars(self.lib.as_str());
        let mut r = String::new();
        let mut i: usize = 0;
        while i < chars.len()
            invariant
                chars@ == self@.lib,
                i <= chars@.len(),
                r@.len() == i,
                forall|j: int| 0 <= j < i ==> #[trigger] r@[j] == spec_js_var_name(self@.lib)[j],
            decreases chars@.len() - i,
        {
            let c: char = chars[i];
            if c == '-' {
                string_push_char(&mut r, '_');
            } else {
                string_push_char(&mut r, c);
            }
            i = i + 1;
        }
        assert(r@ =~= spec_js_var_name(self@.lib));
        r
    }
}

/// Is this registry entry one of the named discoveries: its key one of the
/// given (access path, name) pairs, and its stored name the key's name?
pub open spec fn spec_discovered_entry(
    entry: ((APathV, Seq<char>), ModuleFunctionV),
    props: Seq<(AccessPathModuleCentred, Vec<String>)>,
) -> bool {
    exists|a: int, k: int|
        0 <= a < props.len() && 0 <= k < props[a].1@.len() && entry.0 == (
            (#[trigger] props[a]).0@,
            (#[trigger] props[a].1@[k])@,
        ) && entry.1.name == entry.0.1
}

impl NpmModule {
    /// Register the functions discovered on return values: for each access
    /// path and each function name observed there, an entry is added to the
    /// catalog if that key is not yet present (registration is idempotent,
    /// and nothing is ever removed). The promise-chaining heuristics give a
    /// property named `then` or `catch` a single argument; every other
    /// discovered function has unknown arity.
    pub fn add_fcts_rooted_in_ret_vals(
        &mut self,
        accpath_fct_props: &Vec<(AccessPathModuleCentred, Vec<String>)>,
    )
        requires
            old(self)@.keys_unique(),
        ensures
            final(self)@.lib == old(self)@.lib,
            final(self)@.import_code == old(self)@.import_code,
            final(self)@.keys_unique(),
            // nothing is removed, and existing entries are unchanged
            final(self)@.fns.len() >= old(self)@.fns.len(),
            forall|i: int|
                0 <= i < old(self)@.fns.len() ==> #[trigger] final(self)@.fns[i] == old(self)@.fns[i],
            // every named function is now present at its access path
            forall|i: int, k: int|
                0 <= i < accpath_fct_props@.len() && 0 <= k < accpath_fct_props@[i].1@.len()
                    ==> final(self)@.has_key(
                    (accpath_fct_props@[i].0@, (#[trigger] accpath_fct_props@[i].1@[k])@),
                ),
            // everything new is a discovered function: empty signatures, and
            // the promise heuristics for its arity
            forall|j: int|
                old(self)@.fns.len() <= j < final(self)@.fns.len()
                    ==> ((#[trigger] final(self)@.fns[j]).1.sigs.len() == 0 && final(self)@.fns[j].1.num_api_args == (if final(self)@.fns[j].0.1 == "then"@ || final(self)@.fns[j].0.1 == "catch"@ {
                    Option::Some(1usize)
                } else {
                    Option::<usize>::None
                })),
            // and only the named keys are added: every new entry is one of
            // the given (access path, name) pairs
            forall|j: int|
                old(self)@.fns.len() <= j < final(self)@.fns.len() ==> spec_discovered_entry(
                    #[trigger] final(self)@.fns[j],
                    accpath_fct_props@,
                ),
            // hence a key that was not in the catalog before now carries the
            // discovery defaults: no signatures, and arity one exactly for
            // the promise-chaining names
            forall|j: int|
                0 <= j < final(self)@.fns.len() && !old(self)@.has_key(
                    (#[trigger] final(self)@.fns[j]).0,
                ) ==> (final(self)@.fns[j].1.sigs.len() == 0 && final(self)@.fns[j].1.num_api_args
                    == (if final(self)@.fns[j].0.1 == "then"@ || final(self)@.fns[j].0.1
                    == "catch"@ {
                    Option::Some(1usize)
                } else {
                    Option::<usize>::None
                })),
    {
        let mut i: usize = 0;
        while i < accpath_fct_props.len()
            invariant
                old(self)@.keys_unique(),
                self@.keys_unique(),
                self@.lib == old(self)@.lib,
                self@.import_code == old(self)@.import_code,
                i <= accpath_fct_props@.len(),
                self@.fns.len() >= old(self)@.fns.len(),
                forall|a: int|
                    0 <= a < old(self)@.fns.len() ==> #[trigger] self@.fns[a] == old(self)@.fns[a],
                forall|a: int, k: int|
                    0 <= a < i && 0 <= k < accpath_fct_props@[a].1@.len() ==> self@.has_key(
                        (accpath_fct_props@[a].0@, (#[trigger] accpath_fct_props@[a].1@[k])@),
                    ),
                forall|j: int|
                    old(self)@.fns.len() <= j < self@.fns.len() ==> ((#[trigger] self@.fns[
                    j]).1.sigs.len() == 0 && self@.fns[j].1.num_api_args == (if self@.fns[j].0.1
                        == "then"@ || self@.fns[j].0.1 == "catch"@ {
                        Option::Some(1usize)
                    } else {
                        Option::<usize>::None
                    })),
                forall|j: int|
                    old(self)@.fns.len() <= j < self@.fns.len() ==> spec_discovered_entry(
                        #[trigger] self@.fns[j],
                        accpath_fct_props@,
                    ),
            decreases accpath_fct_props@.len() - i,
        {
            let (accpath, names) = &accpath_fct_props[i];
            let mut k: usize = 0;
            while k < names.len()
                invariant
                    old(self)@.keys_unique(),
                    self@.keys_unique(),
                    self@.lib == old(self)@.lib,
                    self@.import_code == old(self)@.import_code,
                    i < accpath_fct_props@.len(),
                    accpath@ == accpath_fct_props@[i as int].0@,
                    names@.len() == accpath_fct_props@[i as int].1@.len(),
                    forall|m: int|
                        0 <= m < names@.len() ==> #[trigger] names@[m]@ == accpath_fct_props@[
                        i as int].1@[m]@,
                    k <= names@.len(),
                    self@.fns.len() >= old(self)@.fns.len(),
                    forall|a: int|
                        0 <= a < old(self)@.fns.len() ==> #[trigger] self@.fns[a] == old(self)@.fns[a],
                    forall|a: int, m: int|
                        0 <= a < i && 0 <= m < accpath_fct_props@[a].1@.len() ==> self@.has_key(
                            (accpath_fct_props@[a].0@, (#[trigger] accpath_fct_props@[a].1@[
                            m])@),
                        ),
                    forall|m: int|
                        0 <= m < k ==> self@.has_key(
                            (accpath_fct_props@[i as int].0@, (#[trigger] accpath_fct_props@[
                            i as int].1@[m])@),
                        ),
                    forall|j: int|
                        old(self)@.fns.len() <= j < self@.fns.len() ==> ((#[trigger] self@.fns[
                        j]).1.sigs.len() == 0 && self@.fns[j].1.num_api_args == (if self@.fns[
                        j].0.1 == "then"@ || self@.fns[j].0.1 == "catch"@ {
                            Option::Some(1usize)
                        } else {
                            Option::<usize>::None
                        })),
                    forall|j: int|
                        old(self)@.fns.len() <= j < self@.fns.len() ==> spec_discovered_entry(
                            #[trigger] self@.fns[j],
                            accpath_fct_props@,
                        ),
                decreases names@.len() - k,
            {
                let name = &names[k];
                let ghost pre = self@;
                match self.find_fn(accpath, name.as_str()) {
                    Option::Some(_) => {
                        assert(self@.has_key((accpath@, name@)));
                    },
                    Option::None => {
                        let num_api_args: Option<usize> = if str_eq(name.as_str(), "then")
                            || str_eq(name.as_str(), "catch") {
                            Option::Some(1)
                        } else {
                            Option::None
                        };
                        self.register_fn(accpath.clone(), name.clone(), num_api_args);
                        proof {
                            assert(self@.fns[self@.fns.len() - 1].0 == (accpath@, name@));
                            assert(self@.has_key((accpath@, name@)));
                            assert(self@.fns[self@.fns.len() - 1].0 == (
                                accpath_fct_props@[i as int].0@,
                                accpath_fct_props@[i as int].1@[k as int]@,
                            ));
                            assert(self@.fns[self@.fns.len() - 1].1.name == name@);
                            assert(spec_discovered_entry(
                                self@.fns[self@.fns.len() - 1],
                                accpath_fct_props@,
                            ));
                            assert forall|j: int|
                                old(self)@.fns.len() <= j < self@.fns.len() implies
                                spec_discovered_entry(
                                #[trigger] self@.fns[j],
                                accpath_fct_props@,
                            ) by {
                                if j < self@.fns.len() - 1 {
                                    assert(self@.fns[j] == pre.fns[j]);
                                }
                            }
                            assert forall|a: int|
                                0 <= a < old(self)@.fns.len() implies #[trigger] self@.fns[a]
                                == old(self)@.fns[a] by {
                                assert(self@.fns[a] == pre.fns[a]);
                            }
                        }
                    },
                }
                proof {
                    assert forall|a: int, m: int|
                        0 <= a < i && 0 <= m < accpath_fct_props@[a].1@.len() implies self@
                        .has_key(
                        (accpath_fct_props@[a].0@, (#[trigger] accpath_fct_props@[a].1@[m])@),
                    ) by {
                        assert(pre.has_key(
                            (accpath_fct_props@[a].0@, accpath_fct_props@[a].1@[m]@),
                        ));
                        lemma_has_key_monotone(pre, self@, (
                            accpath_fct_props@[a].0@,
                            accpath_fct_props@[a].1@[m]@,
                        ));
                    }
                    assert forall|m: int|
                        0 <= m < k + 1 implies self@.has_key(
                        (accpath_fct_props@[i as int].0@, (#[trigger] accpath_fct_props@[
                        i as int].1@[m])@),
                    ) by {
                        if m < k {
                            lemma_has_key_monotone(pre, self@, (
                                accpath_fct_props@[i as int].0@,
                                accpath_fct_props@[i as int].1@[m]@,
                            ));
                        } else {
                            assert(names@[m]@ == accpath_fct_props@[i as int].1@[m]@);
                        }
                    }
                }
                k = k + 1;
            }
            i = i + 1;
        }
        proof {
            // an entry at a previously absent key cannot be an old entry
            assert forall|j: int|
                0 <= j < self@.fns.len() && !old(self)@.has_key(
                    (#[trigger] self@.fns[j]).0,
                ) implies (self@.fns[j].1.sigs.len() == 0 && self@.fns[j].1.num_api_args == (
            if self@.fns[j].0.1 == "then"@ || self@.fns[j].0.1 == "catch"@ {
                Option::Some(1usize)
            } else {
                Option::<usize>::None
            })) by {
                if j < old(self)@.fns.len() {
                    assert(self@.fns[j] == old(self)@.fns[j]);
                    assert(old(self)@.fns[j].0 == self@.fns[j].0);
                    assert(old(self)@.has_key(self@.fns[j].0));
                }
            }
        }
    }
}

/// Keys present in a registry stay present when entries are only appended.
proof fn lemma_has_key_monotone(pre: NpmModuleV, post: NpmModuleV, key: (APathV, Seq<char>))
    requires
        pre.has_key(key),
        post.fns.len() >= pre.fns.len(),
        forall|i: int| 0 <= i < pre.fns.len() ==> #[trigger] post.fns[i] == pre.fns[i],
    ensures
        post.has_key(key),
{
    let i = choose|i: int| 0 <= i < pre.fns.len() && (#[trigger] pre.fns[i]).0 == key;
    assert(post.fns[i].0 == key);
}

/// One entry of a statically gathered API listing: the function's name key
/// (optionally `name, access path`), and its description.
pub type ApiSpecEntry = (String, ModFctAPIJSON);

impl NpmModule {
    /// Build a registry from a statically gathered API listing. Each entry's
    /// key is the function name, optionally followed by `, ` and the encoded
    /// access path of its receiver; a missing or undecodable path puts the
    /// function at the module root. A function whose listing used default
    /// arguments has unknown arity.
    pub fn from_api_spec_entries(
        lib: String,
        entries: Vec<ApiSpecEntry>,
        import_code: Option<String>,
    ) -> (r: Self)
        ensures
            r@.lib == lib@,
            r@.import_code == crate::functions::view_opt_string(import_code),
            r@.keys_unique(),
            forall|j: int| 0 <= j < r@.fns.len() ==> (#[trigger] r@.fns[j]).1.sigs.len() == 0,
            // every listed function is present under its decoded target
            forall|j: int|
                0 <= j < entries@.len() ==> r@.has_key(
                    spec_entry_target((#[trigger] entries@[j]).0@, lib@),
                ),
            // and nothing else is: every registry entry comes from a listing
            // entry with that target, whose arity it carries
            forall|k: int|
                0 <= k < r@.fns.len() ==> exists|j: int|
                    0 <= j < entries@.len() && (#[trigger] r@.fns[k]).0 == spec_entry_target(
                        (#[trigger] entries@[j]).0@,
                        lib@,
                    ) && r@.fns[k].1.num_api_args == spec_entry_arity(entries@[j].1) && r@.fns[k].1.name == r@.fns[k].0.1,
    {
        let mut r = NpmModule::new(lib, import_code);
        let ghost all = entries@;
        let mut rem = entries;
        let ghost mut i: int = 0;
        loop
            invariant
                all == entries@,
                0 <= i <= all.len(),
                rem@ =~= all.skip(i),
                r@.keys_unique(),
                r@.lib == lib@,
                forall|j: int| 0 <= j < r@.fns.len() ==> (#[trigger] r@.fns[j]).1.sigs.len() == 0,
                r@.import_code == crate::functions::view_opt_string(import_code),
                forall|j: int|
                    0 <= j < i ==> r@.has_key(spec_entry_target((#[trigger] all[j]).0@, lib@)),
                forall|k: int|
                    0 <= k < r@.fns.len() ==> exists|j: int|
                        0 <= j < i && (#[trigger] r@.fns[k]).0 == spec_entry_target(
                            (#[trigger] all[j]).0@,
                            lib@,
                        ) && r@.fns[k].1.num_api_args == spec_entry_arity(all[j].1) && r@.fns[k].1.name == r@.fns[k].0.1,
            decreases rem@.len(),
        {
            if rem.len() == 0 {
                proof {
                    assert(i == all.len());
                    assert forall|j: int|
                        0 <= j < entries@.len() implies r@.has_key(
                        spec_entry_target((#[trigger] entries@[j]).0@, lib@),
                    ) by {
                        assert(entries@[j] == all[j]);
                        assert(r@.has_key(spec_entry_target(all[j].0@, lib@)));
                    }
                    assert forall|k: int|
                        0 <= k < r@.fns.len() implies exists|j: int|
                        0 <= j < entries@.len() && (#[trigger] r@.fns[k]).0 == spec_entry_target(
                            (#[trigger] entries@[j]).0@,
                            lib@,
                        ) && r@.fns[k].1.num_api_args == spec_entry_arity(entries@[j].1)
                        && r@.fns[k].1.name == r@.fns[k].0.1 by {
                        let j = choose|j: int|
                            0 <= j < i && (#[trigger] r@.fns[k]).0 == spec_entry_target(
                                (#[trigger] all[j]).0@,
                                lib@,
                            ) && r@.fns[k].1.num_api_args == spec_entry_arity(all[j].1) && r@.fns[k].1.name == r@.fns[k].0.1;
                        assert(entries@[j] == all[j]);
                    }
                }
                return r;
            }
            let (key_str, api) = rem.remove(0);
            proof {
                assert((key_str, api) == all[i]);
                assert(rem@ =~= all.skip(i + 1));
            }
            // split the key at the first `, `: the name, then the optional
            // access path of the receiver
            let (name, opt_acc) = split_name_acc(key_str.as_str());
            let acc_path: AccessPathModuleCentred = match opt_acc {
                Option::Some(acc_str) => {
                    match AccessPathModuleCentred::from_str(acc_str.as_str()) {
                        Result::Ok(p) => p,
                        Result::Err(_) => AccessPathModuleCentred::RootPath(r.get_lib()),
                    }
                },
                Option::None => AccessPathModuleCentred::RootPath(r.get_lib()),
            };
            let num_api_args: Option<usize> = match api.used_default_args {
                Option::Some(true) => Option::None,
                _ => Option::Some(api.num_args),
            };
            proof {
                assert((acc_path@, name@) == spec_entry_target(all[i].0@, lib@));
                assert(num_api_args == spec_entry_arity(all[i].1));
            }
            let ghost pre = r@;
            match r.find_fn(&acc_path, name.as_str()) {
                Option::Some(_) => {
                    proof {
                        assert(r@.has_key(spec_entry_target(all[i].0@, lib@)));
                    }
                },
                Option::None => {
                    r.register_fn(acc_path, name, num_api_args);
                    proof {
                        assert forall|j: int|
                            0 <= j < r@.fns.len() implies (#[trigger] r@.fns[j]).1.sigs.len()
                            == 0 by {
                            if j < pre.fns.len() {
                                assert(r@.fns[j] == pre.fns[j]);
                            }
                        }
                        assert(r@.fns[r@.fns.len() - 1].0 == spec_entry_target(all[i].0@, lib@));
                        assert(r@.has_key(spec_entry_target(all[i].0@, lib@)));
                        assert forall|j: int|
                            0 <= j < i implies r@.has_key(
                            spec_entry_target((#[trigger] all[j]).0@, lib@),
                        ) by {
                            lemma_has_key_monotone(pre, r@, spec_entry_target(all[j].0@, lib@));
                        }
                        assert forall|k: int|
                            0 <= k < r@.fns.len() implies exists|j: int|
                            0 <= j < i + 1 && (#[trigger] r@.fns[k]).0 == spec_entry_target(
                                (#[trigger] all[j]).0@,
                                lib@,
                            ) && r@.fns[k].1.num_api_args == spec_entry_arity(all[j].1) && r@.fns[k].1.name == r@.fns[k].0.1 by {
                            if k < pre.fns.len() {
                                assert(r@.fns[k] == pre.fns[k]);
                            } else {
                                assert(r@.fns[k].0 == spec_entry_target(all[i].0@, lib@));
                                assert(r@.fns[k].1.num_api_args == spec_entry_arity(all[i].1));
                            }
                        }
                    }
                },
            }
            proof {
                i = i + 1;
            }
        }
    }
}

/// The first position of a `, ` separator in a listing key, or `-1`.
pub open spec fn spec_find_comma_space(s: Seq<char>) -> int
    decreases s.len(),
{
    if s.len() < 2 {
        -1
    } else if s[0] == ',' && s[1] == ' ' {
        0
    } else {
        let r = spec_find_comma_space(s.drop_first());
        if r < 0 {
            -1
        } else {
            r + 1
        }
    }
}

/// `spec_find_comma_space` agrees with any witness of a first separator.
proof fn lemma_find_comma_space_unique(s: Seq<char>, j: int)
    requires
        0 <= j,
        j + 1 < s.len(),
        s[j] == ',' && s[j + 1] == ' ',
        forall|k: int| 0 <= k < j ==> !((#[trigger] s[k]) == ',' && k + 1 < s.len() && s[k + 1] == ' '),
    ensures
        spec_find_comma_space(s) == j,
    decreases s.len(),
{
    if j == 0 {
    } else {
        assert(!(s[0] == ',' && s[1] == ' '));
        let t = s.drop_first();
        assert(forall|k: int| 0 <= k < t.len() ==> t[k] == s[k + 1]);
        lemma_find_comma_space_unique(t, j - 1);
    }
}

/// `spec_find_comma_space` is negative exactly when no separator occurs.
proof fn lemma_find_comma_space_none(s: Seq<char>)
    requires
        forall|k: int|
            0 <= k < s.len() ==> !((#[trigger] s[k]) == ',' && k + 1 < s.len() && s[k + 1]
                == ' '),
    ensures
        spec_find_comma_space(s) < 0,
    decreases s.len(),
{
    if s.len() >= 2 {
        let t = s.drop_first();
        assert(forall|k: int| 0 <= k < t.len() ==> t[k] == s[k + 1]);
        assert forall|k: int|
            0 <= k < t.len() implies !((#[trigger] t[k]) == ',' && k + 1 < t.len() && t[k + 1]
                == ' ') by {
            assert(t[k] == s[k + 1]);
            if k + 1 < t.len() {
                assert(t[k + 1] == s[k + 2]);
            }
        }
        lemma_find_comma_space_none(t);
        assert(!(s[0] == ',' && s[1] == ' '));
    }
}

/// The registry target a listing key denotes: the part before the first
/// `, ` is the name; what follows decodes as the receiver's access path,
/// with the module root standing in for a missing or undecodable path.
pub open spec fn spec_entry_target(key: Seq<char>, lib: Seq<char>) -> (APathV, Seq<char>) {
    let j = spec_find_comma_space(key);
    (
        if j < 0 {
            APathV::RootV(lib)
        } else {
            match spec_decode_ap(key.subrange(j + 2, key.len() as int)) {
                Option::Some(p) => p,
                Option::None => APathV::RootV(lib),
            }
        },
        if j < 0 {
            key
        } else {
            key.subrange(0, j)
        },
    )
}

/// The arity a listing entry denotes: unknown exactly when the listing used
/// default arguments.
pub open spec fn spec_entry_arity(api: ModFctAPIJSON) -> Option<usize> {
    match api.used_default_args {
        Option::Some(true) => Option::None,
        _ => Option::Some(api.num_args),
    }
}

/// Split a listing key at its first `, `: the part before it, and the part
/// after it where there is one.
fn split_name_acc(s: &str) -> (r: (String, Option<String>))
    ensures
        spec_find_comma_space(s@) < 0 ==> r.0@ == s@ && r.1 is None,
        spec_find_comma_space(s@) >= 0 ==> r.0@ == s@.subrange(0, spec_find_comma_space(s@)) && (
        match r.1 {
            Option::Some(a) => a@ == s@.subrange(spec_find_comma_space(s@) + 2, s@.len() as int),
            Option::None => false,
        }),
{
    let chars = str_to_chars(s);
    let n = chars.len();
    let mut i: usize = 0;
    while i < n
        invariant
            chars@ == s@,
            n == chars@.len(),
            i <= n,
            forall|k: int| 0 <= k < i ==> !((#[trigger] s@[k]) == ',' && k + 1 < s@.len() && s@[k + 1] == ' '),
        decreases n - i,
    {
        if chars[i] == ',' && i + 1 < n && chars[i + 1] == ' ' {
            proof {
                lemma_find_comma_space_unique(s@, i as int);
            }
            let name = chars_range_to_string(&chars, 0, i);
            let acc = chars_range_to_string(&chars, i + 2, n);
            return (name, Option::Some(acc));
        }
        i = i + 1;
    }
    proof {
        lemma_find_comma_space_none(s@);
    }
    (chars_range_to_string(&chars, 0, n), Option::None)
}

} // verus!
