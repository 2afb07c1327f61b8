//! Small verified helpers for building and parsing the strings the generator
//! uses as join keys: decimal renderings of indices and character searches.

use vstd::prelude::*;

verus! {

/// The character for one decimal digit.
pub open spec fn spec_digit_char(d: nat) -> char {
    if d == 0 {
        '0'
    } else if d == 1 {
        '1'
    } else if d == 2 {
        '2'
    } else if d == 3 {
        '3'
    } else if d == 4 {
        '4'
    } else if d == 5 {
        '5'
    } else if d == 6 {
        '6'
    } else if d == 7 {
        '7'
    } else if d == 8 {
        '8'
    } else {
        '9'
    }
}

/// The usual decimal rendering of a natural number, most significant digit first.
pub open spec fn spec_decimal(n: nat) -> Seq<char>
    decreases n,
{
    if n < 10 {
        seq![spec_digit_char(n)]
    } else {
        spec_decimal(n / 10).push(spec_digit_char(n % 10))
    }
}

/// Is this character a decimal digit?
pub open spec fn spec_is_digit(c: char) -> bool {
    48 <= c as u32 <= 57
}

/// The numeric value of a digit character.
pub open spec fn spec_digit_val(c: char) -> nat {
    (c as u32 - 48) as nat
}

/// The number denoted by a digit string, most significant digit first.
pub open spec fn spec_parse_decimal(s: Seq<char>) -> nat
    decreases s.len(),
{
    if s.len() == 0 {
        0
    } else {
        spec_parse_decimal(s.drop_last()) * 10 + spec_digit_val(s.last())
    }
}

/// Every character of a decimal rendering is a digit, and there is at least one.
pub proof fn lemma_decimal_digits(n: nat)
    ensures
        spec_decimal(n).len() >= 1,
        forall|i: int|
            0 <= i < spec_decimal(n).len() ==> spec_is_digit(#[trigger] spec_decimal(n)[i]),
    decreases n,
{
    if n < 10 {
        assert(spec_is_digit(spec_digit_char(n)));
    } else {
        lemma_decimal_digits(n / 10);
        assert(spec_is_digit(spec_digit_char(n % 10)));
        assert(forall|i: int|
            0 <= i < spec_decimal(n).len() - 1 ==> spec_decimal(n)[i] == spec_decimal(n / 10)[i]);
    }
}

/// A digit is not any of the delimiter characters the encodings use.
pub proof fn lemma_digit_not_delim(c: char)
    requires
        spec_is_digit(c),
    ensures
        c != ' ',
        c != '(',
        c != ')',
        c != '"',
        c != '_',
{
}

/// Reading back the decimal rendering of `n` yields `n`.
pub proof fn lemma_parse_decimal_of(n: nat)
    ensures
        spec_parse_decimal(spec_decimal(n)) == n,
    decreases n,
{
    if n < 10 {
        let s = spec_decimal(n);
        assert(s.drop_last() =~= Seq::<char>::empty());
        assert(spec_parse_decimal(Seq::<char>::empty()) == 0);
        assert(s.last() == spec_digit_char(n));
        assert(spec_digit_val(spec_digit_char(n)) == n);
        assert(spec_parse_decimal(s) == spec_parse_decimal(s.drop_last()) * 10 + spec_digit_val(
            s.last(),
        ));
    } else {
        lemma_parse_decimal_of(n / 10);
        let s = spec_decimal(n);
        let hi = spec_decimal(n / 10);
        assert(s == hi.push(spec_digit_char(n % 10)));
        assert(s.len() == hi.len() + 1);
        assert(s.drop_last() =~= hi);
        assert(s.last() == spec_digit_char(n % 10));
        assert(spec_digit_val(spec_digit_char(n % 10)) == n % 10);
        assert(spec_parse_decimal(s) == spec_parse_decimal(hi) * 10 + n % 10);
        vstd::arithmetic::div_mod::lemma_fundamental_div_mod(n as int, 10);
        assert(spec_parse_decimal(s) == n);
    }
}

/// One-character string for a digit.
pub fn digit_str(d: usize) -> (r: &'static str)
    requires
        d < 10,
    ensures
        r@ =~= seq![spec_digit_char(d as nat)],
{
    proof {
        reveal_strlit("0");
        reveal_strlit("1");
        reveal_strlit("2");
        reveal_strlit("3");
        reveal_strlit("4");
        reveal_strlit("5");
        reveal_strlit("6");
        reveal_strlit("7");
        reveal_strlit("8");
        reveal_strlit("9");
    }
    if d == 0 {
        "0"
    } else if d == 1 {
        "1"
    } else if d == 2 {
        "2"
    } else if d == 3 {
        "3"
    } else if d == 4 {
        "4"
    } else if d == 5 {
        "5"
    } else if d == 6 {
        "6"
    } else if d == 7 {
        "7"
    } else if d == 8 {
        "8"
    } else {
        "9"
    }
}

/// Decimal rendering of a `usize`, as an owned string.
pub fn usize_to_string(n: usize) -> (r: String)
    ensures
        r@ =~= spec_decimal(n as nat),
    decreases n,
{
    if n < 10 {
        digit_str(n).to_owned()
    } else {
        let mut s = usize_to_string(n / 10);
        s.append(digit_str(n % 10));
        s
    }
}

/// The decimal rendering of an integer: a minus sign for negative values,
/// then the digits of the magnitude.
pub open spec fn spec_int_decimal(n: int) -> Seq<char> {
    if n < 0 {
        seq!['-'] + spec_decimal((-n) as nat)
    } else {
        spec_decimal(n as nat)
    }
}

/// Decimal rendering of an `i64`, as an owned string.
pub fn int_to_string(n: i64) -> (r: String)
    requires
        -0xffffffff <= n <= 0xffffffff,
    ensures
        r@ =~= spec_int_decimal(n as int),
{
    proof {
        assert(usize::MAX >= 0xffffffff);
    }
    if n < 0 {
        let mut s = String::new();
        string_push_minus(&mut s);
        let m: i64 = -n;
        proof {
            assert(m as int == -(n as int));
            assert((m as usize) as nat == m as nat);
        }
        let mag = usize_to_string(m as usize);
        s.append(mag.as_str());
        assert(s@ =~= spec_int_decimal(n as int));
        s
    } else {
        proof {
            assert((n as usize) as nat == n as nat);
        }
        let r = usize_to_string(n as usize);
        assert(r@ =~= spec_int_decimal(n as int));
        r
    }
}

/// Append a minus sign to a string.
fn string_push_minus(s: &mut String)
    ensures
        final(s)@ == old(s)@.push('-'),
{
    proof {
        reveal_strlit("-");
    }
    s.append("-");
    assert(s@ =~= old(s)@.push('-'));
}

/// The characters of a string, as a vector.
pub fn str_to_chars(s: &str) -> (r: Vec<char>)
    ensures
        r@ =~= s@,
{
    let len: usize = s.unicode_len();
    let mut r: Vec<char> = Vec::new();
    let mut i: usize = 0;
    while i < len
        invariant
            len == s@.len(),
            i <= len,
            r@ =~= s@.subrange(0, i as int),
        decreases len - i,
    {
        r.push(s.get_char(i));
        assert(r@ =~= s@.subrange(0, i + 1));
        i = i + 1;
    }
    assert(s@.subrange(0, len as int) =~= s@);
    r
}

/// Extending a digit string on the right never decreases its value.
pub proof fn lemma_parse_decimal_monotone(s: Seq<char>, lo: int, j: int, k: int)
    requires
        0 <= lo <= j <= k <= s.len(),
    ensures
        spec_parse_decimal(s.subrange(lo, j)) <= spec_parse_decimal(s.subrange(lo, k)),
    decreases k - j,
{
    if j < k {
        lemma_parse_decimal_monotone(s, lo, j, k - 1);
        let a = s.subrange(lo, k - 1);
        let b = s.subrange(lo, k);
        assert(b.drop_last() =~= a);
        assert(spec_parse_decimal(b) == spec_parse_decimal(a) * 10 + spec_digit_val(b.last()));
        assert(spec_parse_decimal(a) * 10 >= spec_parse_decimal(a)) by (nonlinear_arith);
    }
}

/// Parse a digit string (most significant digit first) as a `usize`; `None`
/// exactly when the value does not fit. The empty string parses as zero.
pub fn parse_decimal_chars(s: &Vec<char>, lo: usize, hi: usize) -> (r: Option<usize>)
    requires
        lo <= hi <= s@.len(),
        forall|i: int| lo <= i < hi ==> spec_is_digit(#[trigger] s@[i]),
    ensures
        r is Some ==> r->0 as nat == spec_parse_decimal(s@.subrange(lo as int, hi as int)),
        r is None ==> spec_parse_decimal(s@.subrange(lo as int, hi as int)) > usize::MAX,
{
    let mut acc: usize = 0;
    let mut i: usize = lo;
    while i < hi
        invariant
            lo <= i <= hi <= s@.len(),
            forall|j: int| lo <= j < hi ==> spec_is_digit(#[trigger] s@[j]),
            acc as nat == spec_parse_decimal(s@.subrange(lo as int, i as int)),
        decreases hi - i,
    {
        let c: char = s[i];
        let d: u32 = (c as u32) - 48;
        if acc > (usize::MAX - (d as usize)) / 10 {
            proof {
                let full = s@.subrange(lo as int, hi as int);
                let next = s@.subrange(lo as int, i + 1);
                assert(next.drop_last() =~= s@.subrange(lo as int, i as int));
                assert(next.last() == s@[i as int]);
                assert(spec_parse_decimal(next) == acc * 10 + d);
                assert(acc * 10 + d > usize::MAX) by (nonlinear_arith)
                    requires
                        acc > (usize::MAX - (d as usize)) / 10,
                        d <= 9,
                        acc >= 0,
                ;
                lemma_parse_decimal_monotone(s@, lo as int, i + 1, hi as int);
            }
            return None;
        }
        assert(acc * 10 + d <= usize::MAX) by (nonlinear_arith)
            requires
                acc <= (usize::MAX - (d as usize)) / 10,
                d <= 9,
        ;
        acc = acc * 10 + (d as usize);
        proof {
            assert(s@.subrange(lo as int, i + 1).drop_last() =~= s@.subrange(lo as int, i as int));
            assert(s@.subrange(lo as int, i + 1).last() == s@[i as int]);
        }
        i = i + 1;
    }
    Some(acc)
}

/// Index of the first occurrence of `c` in `s` at or after `from` and before
/// `to`, if any.
pub fn find_char(s: &Vec<char>, c: char, from: usize, to: usize) -> (r: Option<usize>)
    requires
        from <= to <= s@.len(),
    ensures
        match r {
            Some(j) => from <= j < to && s@[j as int] == c && forall|k: int|
                from <= k < j ==> s@[k] != c,
            None => forall|k: int| from <= k < to ==> s@[k] != c,
        },
{
    let mut i: usize = from;
    while i < to
        invariant
            from <= i <= to <= s@.len(),
            forall|k: int| from <= k < i ==> s@[k] != c,
        decreases to - i,
    {
        if s[i] == c {
            return Some(i);
        }
        i = i + 1;
    }
    None
}

/// Index of the first occurrence of `c` in `s`, or `-1` if there is none.
pub open spec fn spec_find(s: Seq<char>, c: char) -> int
    decreases s.len(),
{
    if s.len() == 0 {
        -1
    } else if s[0] == c {
        0
    } else {
        let r = spec_find(s.drop_first(), c);
        if r < 0 {
            -1
        } else {
            r + 1
        }
    }
}

/// `spec_find` returns exactly the first occurrence.
pub proof fn lemma_find_first(s: Seq<char>, c: char)
    ensures
        spec_find(s, c) >= 0 ==> spec_find(s, c) < s.len() && s[spec_find(s, c)] == c && forall|
            k: int,
        | 0 <= k < spec_find(s, c) ==> s[k] != c,
        spec_find(s, c) < 0 ==> forall|k: int| 0 <= k < s.len() ==> s[k] != c,
    decreases s.len(),
{
    if s.len() == 0 {
    } else if s[0] == c {
    } else {
        let t = s.drop_first();
        lemma_find_first(t, c);
        assert(forall|k: int| 0 <= k < t.len() ==> t[k] == s[k + 1]);
        let r = spec_find(t, c);
        if r >= 0 {
            assert(spec_find(s, c) == r + 1);
            assert(s[r + 1] == t[r]);
            assert forall|k: int| 0 <= k < r + 1 implies s[k] != c by {
                if k > 0 {
                    assert(t[k - 1] != c);
                    assert(t[k - 1] == s[k]);
                }
            }
        } else {
            assert(spec_find(s, c) == -1);
            assert forall|k: int| 0 <= k < s.len() implies s[k] != c by {
                if k > 0 {
                    assert(t[k - 1] != c);
                    assert(t[k - 1] == s[k]);
                }
            }
        }
    }
}

/// `spec_find` agrees with any witness of a first occurrence.
pub proof fn lemma_find_unique(s: Seq<char>, c: char, j: int)
    requires
        0 <= j < s.len(),
        s[j] == c,
        forall|k: int| 0 <= k < j ==> s[k] != c,
    ensures
        spec_find(s, c) == j,
{
    lemma_find_first(s, c);
    let r = spec_find(s, c);
    if r < 0 {
        assert(s[j] != c);
    } else if r < j {
        assert(s[r] != c);
    } else if r > j {
        assert(s[j] != c);
    }
}

/// `spec_find` is negative exactly when the character does not occur.
pub proof fn lemma_find_none(s: Seq<char>, c: char)
    requires
        forall|k: int| 0 <= k < s.len() ==> s[k] != c,
    ensures
        spec_find(s, c) < 0,
{
    lemma_find_first(s, c);
    let r = spec_find(s, c);
    if r >= 0 {
        assert(s[r] != c);
    }
}

/// Does `s` begin with `pre`?
pub open spec fn spec_starts_with(s: Seq<char>, pre: Seq<char>) -> bool {
    s.len() >= pre.len() && s.subrange(0, pre.len() as int) == pre
}

/// Does the range `[lo, hi)` of `s` begin with `pre`?
pub fn range_starts_with(s: &Vec<char>, lo: usize, hi: usize, pre: &str) -> (r: bool)
    requires
        lo <= hi <= s@.len(),
    ensures
        r == spec_starts_with(s@.subrange(lo as int, hi as int), pre@),
{
    let n: usize = pre.unicode_len();
    if hi - lo < n {
        return false;
    }
    let mut i: usize = 0;
    while i < n
        invariant
            n == pre@.len(),
            lo <= hi <= s@.len(),
            hi - lo >= n,
            i <= n,
            forall|k: int| 0 <= k < i ==> s@[lo + k] == pre@[k],
        decreases n - i,
    {
        if s[lo + i] != pre.get_char(i) {
            assert(s@.subrange(lo as int, hi as int)[i as int] != pre@[i as int]);
            return false;
        }
        i = i + 1;
    }
    assert(s@.subrange(lo as int, hi as int).subrange(0, n as int) =~= pre@);
    true
}

/// Are all the characters in the range `[lo, hi)` of `s` decimal digits?
pub fn range_all_digits(s: &Vec<char>, lo: usize, hi: usize) -> (r: bool)
    requires
        lo <= hi <= s@.len(),
    ensures
        r == forall|k: int| lo <= k < hi ==> spec_is_digit(#[trigger] s@[k]),
{
    let mut i: usize = lo;
    while i < hi
        invariant
            lo <= i <= hi <= s@.len(),
            forall|k: int| lo <= k < i ==> spec_is_digit(#[trigger] s@[k]),
        decreases hi - i,
    {
        let c: char = s[i];
        let u: u32 = c as u32;
        if u < 48 || u > 57 {
            assert(!spec_is_digit(s@[i as int]));
            return false;
        }
        assert(spec_is_digit(s@[i as int]));
        i = i + 1;
    }
    true
}

/// Digit-ness of a contiguous copy transfers between the two sequences.
pub proof fn lemma_digits_range(s: Seq<char>, t: Seq<char>, lo: int)
    requires
        0 <= lo,
        lo + t.len() <= s.len(),
        forall|k: int| 0 <= k < t.len() ==> t[k] == s[lo + k],
    ensures
        (forall|k: int| 0 <= k < t.len() ==> spec_is_digit(#[trigger] t[k])) <==> (forall|k: int|
            lo <= k < lo + t.len() ==> spec_is_digit(#[trigger] s[k])),
{
    if forall|k: int| 0 <= k < t.len() ==> spec_is_digit(#[trigger] t[k]) {
        assert forall|k: int| lo <= k < lo + t.len() implies spec_is_digit(#[trigger] s[k]) by {
            assert(spec_is_digit(t[k - lo]));
        }
    }
    if forall|k: int| lo <= k < lo + t.len() ==> spec_is_digit(#[trigger] s[k]) {
        assert forall|k: int| 0 <= k < t.len() implies spec_is_digit(#[trigger] t[k]) by {
            assert(spec_is_digit(s[lo + k]));
        }
    }
}

/// Are two strings equal, character for character?
pub fn str_eq(a: &str, b: &str) -> (r: bool)
    ensures
        r == (a@ == b@),
{
    let n: usize = a.unicode_len();
    let m: usize = b.unicode_len();
    if n != m {
        return false;
    }
    let mut i: usize = 0;
    while i < n
        invariant
            n == a@.len(),
            n == b@.len(),
            i <= n,
            forall|k: int| 0 <= k < i ==> a@[k] == b@[k],
        decreases n - i,
    {
        if a.get_char(i) != b.get_char(i) {
            return false;
        }
        i = i + 1;
    }
    assert(a@ =~= b@);
    true
}

} // verus!
