//! Typed values and the literal grammars of the value coercer.
//!
//! [`ArgType`] is the tagged union stored in the configuration mapping; a
//! variant with an absent payload serves only as a type marker while parsing.
//! [`ValueModel`] is its mathematical counterpart used in contracts. The
//! integer and boolean grammars are parsed here by verified code; the float
//! grammar is checked syntactically and the literal text itself is stored,
//! since its numeric reading is an IEEE matter outside this library.

use vstd::prelude::*;

use crate::bytes::lower_seq;

verus! {

/// The five declared types a directive can select.
#[derive(Clone, Copy, Debug, PartialEq, Eq, Structural)]
pub enum ArgTag {
    STRING,
    INTEGER,
    FLOAT,
    BOOL,
    VECTOR,
}

/// The mathematical model of a stored value. A float is modelled by its
/// validated literal text, an integer vector by the sequence of its entries.
pub enum ValueModel {
    VStr(Seq<u8>),
    VInt(int),
    VFloat(Seq<u8>),
    VBool(bool),
    VVec(Seq<int>),
}

impl ValueModel {
    /// The tag a modelled value carries.
    pub open spec fn tag(self) -> ArgTag {
        match self {
            ValueModel::VStr(_) => ArgTag::STRING,
            ValueModel::VInt(_) => ArgTag::INTEGER,
            ValueModel::VFloat(_) => ArgTag::FLOAT,
            ValueModel::VBool(_) => ArgTag::BOOL,
            ValueModel::VVec(_) => ArgTag::VECTOR,
        }
    }
}

/// A typed value as stored in the configuration mapping. A `None` payload
/// marks a type without a value yet, as produced by a type directive; a
/// value retrieved from a parsed mapping always carries a `Some` payload.
/// The `FLOAT` payload holds the syntactically validated literal text.
#[derive(Debug, Clone)]
pub enum ArgType {
    STRING(Option<Vec<u8>>),
    INTEGER(Option<i64>),
    FLOAT(Option<Vec<u8>>),
    BOOL(Option<bool>),
    VECTOR(Option<Vec<i64>>),
}

impl ArgType {
    /// The tag of this value.
    pub open spec fn spec_tag(self) -> ArgTag {
        match self {
            ArgType::STRING(_) => ArgTag::STRING,
            ArgType::INTEGER(_) => ArgTag::INTEGER,
            ArgType::FLOAT(_) => ArgTag::FLOAT,
            ArgType::BOOL(_) => ArgTag::BOOL,
            ArgType::VECTOR(_) => ArgTag::VECTOR,
        }
    }

    /// The modelled payload, absent for a bare type marker.
    pub open spec fn model(self) -> Option<ValueModel> {
        match self {
            ArgType::STRING(p) => match p {
                Some(s) => Some(ValueModel::VStr(s@)),
                None => None,
            },
            ArgType::INTEGER(p) => match p {
                Some(n) => Some(ValueModel::VInt(n as int)),
                None => None,
            },
            ArgType::FLOAT(p) => match p {
                Some(s) => Some(ValueModel::VFloat(s@)),
                None => None,
            },
            ArgType::BOOL(p) => match p {
                Some(b) => Some(ValueModel::VBool(b)),
                None => None,
            },
            ArgType::VECTOR(p) => match p {
                Some(v) => Some(ValueModel::VVec(v@.map_values(|n: i64| n as int))),
                None => None,
            },
        }
    }

    /// The tag of this value.
    pub fn tag(&self) -> (t: ArgTag)
        ensures
            t == self.spec_tag(),
    {
        match self {
            ArgType::STRING(_) => ArgTag::STRING,
            ArgType::INTEGER(_) => ArgTag::INTEGER,
            ArgType::FLOAT(_) => ArgTag::FLOAT,
            ArgType::BOOL(_) => ArgTag::BOOL,
            ArgType::VECTOR(_) => ArgTag::VECTOR,
        }
    }

    /// The string payload, if this is a filled string value.
    pub fn inner_string(self) -> (r: Option<Vec<u8>>)
        ensures
            match self {
                ArgType::STRING(p) => r == p,
                _ => r is None,
            },
    {
        match self {
            ArgType::STRING(p) => p,
            _ => None,
        }
    }

    /// The integer payload, if this is a filled integer value.
    pub fn inner_integer(self) -> (r: Option<i64>)
        ensures
            match self {
                ArgType::INTEGER(p) => r == p,
                _ => r is None,
            },
    {
        match self {
            ArgType::INTEGER(p) => p,
            _ => None,
        }
    }

    /// The float literal payload, if this is a filled float value.
    pub fn inner_float(self) -> (r: Option<Vec<u8>>)
        ensures
            match self {
                ArgType::FLOAT(p) => r == p,
                _ => r is None,
            },
    {
        match self {
            ArgType::FLOAT(p) => p,
            _ => None,
        }
    }

    /// The boolean payload, if this is a filled boolean value.
    pub fn inner_bool(self) -> (r: Option<bool>)
        ensures
            match self {
                ArgType::BOOL(p) => r == p,
                _ => r is None,
            },
    {
        match self {
            ArgType::BOOL(p) => p,
            _ => None,
        }
    }

    /// The vector payload, if this is a filled vector value.
    pub fn inner_vector(self) -> (r: Option<Vec<i64>>)
        ensures
            match self {
                ArgType::VECTOR(p) => r == p,
                _ => r is None,
            },
    {
        match self {
            ArgType::VECTOR(p) => p,
            _ => None,
        }
    }

    /// A copy of this value with an equal model and tag.
    pub fn duplicate(&self) -> (r: ArgType)
        ensures
            r.spec_tag() == self.spec_tag(),
            r.model() == self.model(),
    {
        match self {
            ArgType::STRING(p) => match p {
                Some(s) => ArgType::STRING(Some(crate::bytes::copy_slice(s.as_slice()))),
                None => ArgType::STRING(None),
            },
            ArgType::INTEGER(p) => match p {
                Some(n) => ArgType::INTEGER(Some(*n)),
                None => ArgType::INTEGER(None),
            },
            ArgType::FLOAT(p) => match p {
                Some(s) => ArgType::FLOAT(Some(crate::bytes::copy_slice(s.as_slice()))),
                None => ArgType::FLOAT(None),
            },
            ArgType::BOOL(p) => match p {
                Some(b) => ArgType::BOOL(Some(*b)),
                None => ArgType::BOOL(None),
            },
            ArgType::VECTOR(p) => match p {
                Some(v) => ArgType::VECTOR(Some(crate::bytes::copy_slice(v.as_slice()))),
                None => ArgType::VECTOR(None),
            },
        }
    }
}

/// A decimal digit byte.
pub open spec fn is_digit(b: u8) -> bool {
    48 <= b && b <= 57
}

/// Every byte of `s` is a decimal digit.
pub open spec fn all_digits(s: Seq<u8>) -> bool {
    forall|i: int| 0 <= i < s.len() ==> is_digit(s[i])
}

/// The number a digit string denotes in base ten.
pub open spec fn digits_val(s: Seq<u8>) -> int
    decreases s.len(),
{
    if s.len() == 0 {
        0
    } else {
        digits_val(s.drop_last()) * 10 + (s.last() - 48)
    }
}

/// `s` without its optional single leading sign byte.
pub open spec fn sign_body(s: Seq<u8>) -> Seq<u8> {
    if s.len() > 0 && (s[0] == 43 || s[0] == 45) {
        s.drop_first()
    } else {
        s
    }
}

/// `s` carries a leading minus sign.
pub open spec fn is_negative(s: Seq<u8>) -> bool {
    s.len() > 0 && s[0] == 45
}

/// `s` is an optionally signed nonempty run of decimal digits.
pub open spec fn is_int_literal(s: Seq<u8>) -> bool {
    sign_body(s).len() > 0 && all_digits(sign_body(s))
}

/// The signed value an integer literal denotes.
pub open spec fn int_literal_val(s: Seq<u8>) -> int {
    if is_negative(s) {
        -digits_val(sign_body(s))
    } else {
        digits_val(sign_body(s))
    }
}

/// `s` is an integer literal whose value fits a signed 64-bit integer.
pub open spec fn is_i64_literal(s: Seq<u8>) -> bool {
    is_int_literal(s) && i64::MIN <= int_literal_val(s) <= i64::MAX
}

/// A digit string denotes a nonnegative number.
proof fn lemma_digits_val_nonneg(s: Seq<u8>)
    requires
        all_digits(s),
    ensures
        digits_val(s) >= 0,
    decreases s.len(),
{
    if s.len() > 0 {
        assert(all_digits(s.drop_last())) by {
            assert(forall|i: int| 0 <= i < s.len() - 1 ==> s.drop_last()[i] == s[i]);
        }
        lemma_digits_val_nonneg(s.drop_last());
    }
}

/// Extending a digit string can only increase the number it denotes.
proof fn lemma_digits_val_prefix(s: Seq<u8>, i: int)
    requires
        all_digits(s),
        0 <= i <= s.len(),
    ensures
        digits_val(s.take(i)) <= digits_val(s),
    decreases s.len() - i,
{
    if i < s.len() {
        assert(all_digits(s.drop_last())) by {
            assert(forall|j: int| 0 <= j < s.len() - 1 ==> s.drop_last()[j] == s[j]);
        }
        if i == s.len() - 1 {
            assert(s.take(i) =~= s.drop_last());
            lemma_digits_val_nonneg(s.drop_last());
            assert(digits_val(s) == digits_val(s.drop_last()) * 10 + (s.last() - 48));
            assert(digits_val(s.drop_last()) * 10 >= digits_val(s.drop_last())) by {
                lemma_digits_val_nonneg(s.drop_last());
            }
        } else {
            assert(s.take(i) =~= s.drop_last().take(i));
            lemma_digits_val_prefix(s.drop_last(), i);
            lemma_digits_val_prefix(s, s.len() - 1);
            assert(s.take(s.len() - 1) =~= s.drop_last());
        }
    } else {
        assert(s.take(i) =~= s);
    }
}

/// Parses an optionally signed base-ten 64-bit integer literal. Returns its
/// value exactly when `v` is such a literal and the value fits.
pub fn parse_i64(v: &[u8]) -> (r: Option<i64>)
    ensures
        match r {
            Some(n) => is_i64_literal(v@) && n == int_literal_val(v@),
            None => !is_i64_literal(v@),
        },
{
    let n = v.len();
    if n == 0 {
        return None;
    }
    let neg = v[0] == 45;
    let start: usize = if v[0] == 45 || v[0] == 43 {
        1
    } else {
        0
    };
    let ghost body = sign_body(v@);
    proof {
        assert(body =~= v@.subrange(start as int, n as int));
    }
    if start == n {
        return None;
    }
    // The magnitude bound: 2^63 for a negative literal, 2^63 - 1 otherwise.
    let limit: u64 = if neg {
        9223372036854775808
    } else {
        9223372036854775807
    };
    let mut acc: u64 = 0;
    let mut i: usize = start;
    while i < n
        invariant
            start <= i <= n,
            n == v@.len(),
            0 < start <= 1 ==> (v@[0] == 43 || v@[0] == 45),
            start == 0 ==> !(v@[0] == 43 || v@[0] == 45),
            neg == is_negative(v@),
            body == sign_body(v@),
            body =~= v@.subrange(start as int, n as int),
            limit == if neg {
                9223372036854775808u64
            } else {
                9223372036854775807u64
            },
            all_digits(body.take(i - start)),
            acc == digits_val(body.take(i - start)),
            acc <= limit,
        decreases n - i,
    {
        let b = v[i];
        if b < 48 || b > 57 {
            proof {
                assert(body[i - start] == v@[i as int]);
                assert(!is_digit(body[i - start]));
            }
            return None;
        }
        let d: u64 = (b - 48) as u64;
        proof {
            assert(body.take(i + 1 - start) =~= body.take(i - start).push(v@[i as int]));
            assert(body.take(i + 1 - start).drop_last() =~= body.take(i - start));
            assert(digits_val(body.take(i + 1 - start)) == acc * 10 + d);
        }
        if acc > limit / 10 || (acc == limit / 10 && d > limit % 10) {
            // The digits seen so far already exceed the magnitude bound, so
            // the whole literal cannot fit.
            proof {
                assert(digits_val(body.take(i + 1 - start)) > limit);
                if is_int_literal(v@) {
                    lemma_digits_val_prefix(body, i + 1 - start);
                    assert(digits_val(body) > limit);
                    if neg {
                        assert(int_literal_val(v@) < i64::MIN);
                    } else {
                        assert(int_literal_val(v@) > i64::MAX);
                    }
                }
            }
            return None;
        }
        proof {
            assert(acc * 10 + d <= limit) by (nonlinear_arith)
                requires
                    acc <= limit / 10,
                    acc == limit / 10 ==> d <= limit % 10,
                    d <= 9,
                    limit == limit / 10 * 10 + limit % 10,
            ;
        }
        acc = acc * 10 + d;
        i = i + 1;
    }
    proof {
        assert(body.take(n - start) =~= body);
        assert(is_int_literal(v@));
        if neg {
            assert(int_literal_val(v@) == -(acc as int));
        } else {
            assert(int_literal_val(v@) == acc as int);
        }
    }
    if neg {
        if acc == 9223372036854775808 {
            Some(i64::MIN)
        } else {
            Some(-(acc as i64))
        }
    } else {
        Some(acc as i64)
    }
}

/// The exact literal `true`, case-sensitive.
pub open spec fn is_true_lit(s: Seq<u8>) -> bool {
    s.len() == 4 && s[0] == 116 && s[1] == 114 && s[2] == 117 && s[3] == 101
}

/// The exact literal `false`, case-sensitive.
pub open spec fn is_false_lit(s: Seq<u8>) -> bool {
    s.len() == 5 && s[0] == 102 && s[1] == 97 && s[2] == 108 && s[3] == 115 && s[4] == 101
}

/// Parses the boolean literals `true` and `false`, case-sensitively.
pub fn parse_bool(v: &[u8]) -> (r: Option<bool>)
    ensures
        match r {
            Some(b) => b == is_true_lit(v@) && (is_true_lit(v@) || is_false_lit(v@)),
            None => !is_true_lit(v@) && !is_false_lit(v@),
        },
{
    if v.len() == 4 && v[0] == 116 && v[1] == 114 && v[2] == 117 && v[3] == 101 {
        Some(true)
    } else if v.len() == 5 && v[0] == 102 && v[1] == 97 && v[2] == 108 && v[3] == 115 && v[4]
        == 101 {
        Some(false)
    } else {
        None
    }
}

/// The exponent marker of a float literal, `e` or `E`.
pub open spec fn is_exp_mark(b: u8) -> bool {
    b == 101 || b == 69
}

/// The index of the first exponent marker in `s` at or after `i`, if any.
pub open spec fn find_exp_from(s: Seq<u8>, i: int) -> Option<int>
    decreases s.len() - i,
{
    if i < 0 || i >= s.len() {
        None
    } else if is_exp_mark(s[i]) {
        Some(i)
    } else {
        find_exp_from(s, i + 1)
    }
}

/// A decimal point byte.
pub open spec fn is_dot(b: u8) -> bool {
    b == 46
}

/// How many decimal points `s` holds.
pub open spec fn count_dots(s: Seq<u8>) -> int
    decreases s.len(),
{
    if s.len() == 0 {
        0
    } else {
        count_dots(s.drop_last()) + if is_dot(s.last()) {
            1int
        } else {
            0int
        }
    }
}

/// How many decimal digits `s` holds.
pub open spec fn count_digits(s: Seq<u8>) -> int
    decreases s.len(),
{
    if s.len() == 0 {
        0
    } else {
        count_digits(s.drop_last()) + if is_digit(s.last()) {
            1int
        } else {
            0int
        }
    }
}

/// A float mantissa: decimal digits with at most one decimal point, at
/// least one digit, and nothing else.
pub open spec fn is_mantissa(s: Seq<u8>) -> bool {
    &&& forall|i: int| 0 <= i < s.len() ==> is_digit(s[i]) || is_dot(s[i])
    &&& count_dots(s) <= 1
    &&& count_digits(s) >= 1
}

/// The word `inf` or `infinity` in lowered bytes.
pub open spec fn is_inf_word(t: Seq<u8>) -> bool {
    ||| (t.len() == 3 && t[0] == 105 && t[1] == 110 && t[2] == 102)
    ||| (t.len() == 8 && t[0] == 105 && t[1] == 110 && t[2] == 102 && t[3] == 105 && t[4] == 110
        && t[5] == 105 && t[6] == 116 && t[7] == 121)
}

/// The word `nan` in lowered bytes.
pub open spec fn is_nan_word(t: Seq<u8>) -> bool {
    t.len() == 3 && t[0] == 110 && t[1] == 97 && t[2] == 110
}

/// An unsigned float number: a mantissa, optionally followed by an exponent
/// marker and an optionally signed nonempty run of digits.
pub open spec fn is_float_number(b: Seq<u8>) -> bool {
    match find_exp_from(b, 0) {
        None => is_mantissa(b),
        Some(i) => is_mantissa(b.take(i)) && is_int_literal(b.skip(i + 1)),
    }
}

/// A float literal: an optional sign, then one of the special words `inf`,
/// `infinity` or `nan` (case-insensitively) or a float number.
pub open spec fn is_float_literal(s: Seq<u8>) -> bool {
    let b = sign_body(s);
    ||| is_inf_word(lower_seq(b))
    ||| is_nan_word(lower_seq(b))
    ||| is_float_number(b)
}

/// `v` has the shape of an optionally signed nonempty run of digits.
fn is_int_shape(v: &[u8]) -> (r: bool)
    ensures
        r == is_int_literal(v@),
{
    let n = v.len();
    if n == 0 {
        return false;
    }
    let start: usize = if v[0] == 45 || v[0] == 43 {
        1
    } else {
        0
    };
    let ghost body = sign_body(v@);
    proof {
        assert(body =~= v@.subrange(start as int, n as int));
    }
    if start == n {
        return false;
    }
    let mut i: usize = start;
    while i < n
        invariant
            start <= i <= n,
            n == v@.len(),
            body == sign_body(v@),
            body =~= v@.subrange(start as int, n as int),
            forall|j: int| 0 <= j < i - start ==> is_digit(body[j]),
        decreases n - i,
    {
        let b = v[i];
        if b < 48 || b > 57 {
            proof {
                assert(body[i - start] == v@[i as int]);
                assert(!is_digit(body[i - start]));
                assert(!all_digits(body));
            }
            return false;
        }
        i = i + 1;
    }
    proof {
        assert(all_digits(body));
    }
    true
}

/// `v` has the shape of a float mantissa.
fn is_mantissa_shape(v: &[u8]) -> (r: bool)
    ensures
        r == is_mantissa(v@),
{
    let n = v.len();
    let mut dots: usize = 0;
    let mut digits: usize = 0;
    let mut i: usize = 0;
    while i < n
        invariant
            0 <= i <= n,
            n == v@.len(),
            dots <= i,
            digits <= i,
            forall|j: int| 0 <= j < i ==> is_digit(v@[j]) || is_dot(v@[j]),
            dots == count_dots(v@.take(i as int)),
            digits == count_digits(v@.take(i as int)),
        decreases n - i,
    {
        let b = v[i];
        proof {
            assert(v@.take(i + 1).drop_last() =~= v@.take(i as int));
            assert(v@.take(i + 1).last() == v@[i as int]);
        }
        if b == 46 {
            dots = dots + 1;
        } else if 48 <= b && b <= 57 {
            digits = digits + 1;
        } else {
            return false;
        }
        i = i + 1;
    }
    proof {
        assert(v@.take(n as int) =~= v@);
    }
    dots <= 1 && digits >= 1
}

/// Checks the syntactic validity of a float literal, per the grammar that
/// the stored literal text must satisfy.
pub fn check_float(v: &[u8]) -> (r: bool)
    ensures
        r == is_float_literal(v@),
{
    let n = v.len();
    let start: usize = if n > 0 && (v[0] == 45 || v[0] == 43) {
        1
    } else {
        0
    };
    let ghost body = sign_body(v@);
    proof {
        assert(body =~= v@.subrange(start as int, n as int));
    }
    let low = crate::bytes::lower_bytes(&v[start..n]);
    let is_inf3 = low.len() == 3 && low[0] == 105 && low[1] == 110 && low[2] == 102;
    let is_inf8 = low.len() == 8 && low[0] == 105 && low[1] == 110 && low[2] == 102 && low[3]
        == 105 && low[4] == 110 && low[5] == 105 && low[6] == 116 && low[7] == 121;
    let is_nan3 = low.len() == 3 && low[0] == 110 && low[1] == 97 && low[2] == 110;
    if is_inf3 || is_inf8 || is_nan3 {
        return true;
    }
    proof {
        assert(!is_inf_word(lower_seq(body)) && !is_nan_word(lower_seq(body)));
    }
    // Look for the first exponent marker in the unsigned body.
    let mut i: usize = start;
    while i < n && !(v[i] == 101 || v[i] == 69)
        invariant
            start <= i <= n,
            n == v@.len(),
            body =~= v@.subrange(start as int, n as int),
            find_exp_from(body, 0) == find_exp_from(body, i - start),
        decreases n - i,
    {
        proof {
            assert(body[i - start] == v@[i as int]);
        }
        i = i + 1;
    }
    let exp_at: Option<usize> = if i < n {
        proof {
            assert(body[i - start] == v@[i as int]);
        }
        Some(i)
    } else {
        None
    };
    match exp_at {
        None => {
            proof {
                assert(find_exp_from(body, 0) is None);
            }
            let r = is_mantissa_shape(&v[start..n]);
            proof {
                assert(v@.subrange(start as int, n as int) == body);
            }
            r
        },
        Some(e) => {
            proof {
                assert(find_exp_from(body, 0) == Some(e - start));
                assert(body.take(e - start) =~= v@.subrange(start as int, e as int));
                assert(body.skip(e - start + 1) =~= v@.subrange(e + 1, n as int));
            }
            let m = is_mantissa_shape(&v[start..e]);
            let x = is_int_shape(&v[e + 1..n]);
            m && x
        },
    }
}

} // verus!
