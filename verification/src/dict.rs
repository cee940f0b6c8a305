//! Typed extraction of dictionary values.
//!
//! Only integer and floating point targets coerce: they accept any number.
//! Every other target requires the type to match. A floating point number is
//! carried as the bits of an IEEE 754 double.

use crate::text;
use serde_json::Value;
use vstd::arithmetic::div_mod::lemma_div_basics;
use vstd::arithmetic::div_mod::lemma_div_denominator;
use vstd::arithmetic::div_mod::lemma_div_multiples_vanish;
use vstd::arithmetic::power2::lemma2_to64;
use vstd::arithmetic::power2::lemma2_to64_rest;
use vstd::arithmetic::power2::lemma_pow2_adds;
use vstd::arithmetic::power2::lemma_pow2_pos;
use vstd::arithmetic::power2::lemma_pow2_strictly_increases;
use vstd::arithmetic::power2::lemma_pow2_unfold;
use vstd::arithmetic::power2::pow2;
use vstd::prelude::*;
use vstd::string::*;

verus! {

/// Error raised when a dictionary value has an unexpected type.
#[derive(Debug, Clone, Copy, PartialEq, Eq)]
pub struct DictTypeError {
    expected: &'static str,
    actual: &'static str,
}

impl DictTypeError {
    /// Name of the type that was expected.
    pub closed spec fn expected(self) -> Seq<char> {
        self.expected@
    }

    /// Name of the type that was found.
    pub closed spec fn actual(self) -> Seq<char> {
        self.actual@
    }

    /// Message of the error.
    pub fn to_string(&self) -> (r: String)
        ensures
            r@ == "dict value must be a "@ + self.expected() + " but it's "@ + self.actual(),
    {
        text::cat4("dict value must be a ", self.expected, " but it's ", self.actual)
    }
}

/// A number of a dictionary.
#[derive(Debug, Clone, Copy, PartialEq, Eq, Structural)]
pub enum DictNumber {
    /// Integer that is not negative.
    Unsigned(u64),
    /// Negative integer.
    Negative(i64),
    /// Floating point number, as the bits of an IEEE 754 double.
    Double(u64),
}

/// A value of a dictionary.
#[derive(Debug, PartialEq, Eq)]
pub enum DictValue {
    /// No value.
    Null,
    /// Truth value.
    Bool(bool),
    /// Number.
    Number(DictNumber),
    /// Text.
    Text(String),
    /// List.
    List(Vec<DictValue>),
    /// Nested dictionary.
    Dict(Dict),
}

/// What a value of a dictionary is.
#[verifier::ext_equal]
pub enum DictView {
    /// No value.
    Null,
    /// Truth value.
    Bool(bool),
    /// Number.
    Number(DictNumber),
    /// Text.
    Text(Seq<char>),
    /// List.
    List(Seq<DictView>),
    /// Nested dictionary: its keys with their values.
    Dict(Seq<(Seq<char>, DictView)>),
}

/// What a value is.
pub open spec fn value_view(value: DictValue) -> DictView
    decreases value,
{
    match value {
        DictValue::Null => DictView::Null,
        DictValue::Bool(b) => DictView::Bool(b),
        DictValue::Number(n) => DictView::Number(n),
        DictValue::Text(s) => DictView::Text(s@),
        DictValue::List(v) => DictView::List(
            Seq::new(
                v@.len(),
                |i: int|
                    if 0 <= i < v@.len() {
                        value_view(v@[i])
                    } else {
                        DictView::Null
                    },
            ),
        ),
        DictValue::Dict(d) => DictView::Dict(d.contents()),
    }
}

/// Name of the type of a value.
pub open spec fn type_of(value: DictValue) -> Seq<char> {
    match value {
        DictValue::Null => "NoneType"@,
        DictValue::Bool(_) => "bool"@,
        DictValue::Number(DictNumber::Double(_)) => "float"@,
        DictValue::Number(_) => "int"@,
        DictValue::Text(_) => "str"@,
        DictValue::List(_) => "list"@,
        DictValue::Dict(_) => "dict"@,
    }
}

fn type_name_of(value: &DictValue) -> (r: &'static str)
    ensures
        r@ == type_of(*value),
{
    match value {
        DictValue::Null => "NoneType",
        DictValue::Bool(_) => "bool",
        DictValue::Number(DictNumber::Double(_)) => "float",
        DictValue::Number(_) => "int",
        DictValue::Text(_) => "str",
        DictValue::List(_) => "list",
        DictValue::Dict(_) => "dict",
    }
}

/// Significand of a double: its fraction, with the leading bit that the
/// exponent implies.
pub open spec fn significand(bits: u64) -> nat {
    let fraction = bits as nat % 0x10_0000_0000_0000;
    if exponent_field(bits) == 0 {
        fraction
    } else {
        fraction + 0x10_0000_0000_0000
    }
}

/// Exponent field of a double.
pub open spec fn exponent_field(bits: u64) -> nat {
    bits as nat / 0x10_0000_0000_0000 % 0x800
}

/// Power of two that the significand is scaled with.
pub open spec fn scale(bits: u64) -> int {
    (if exponent_field(bits) == 0 {
        1
    } else {
        exponent_field(bits) as int
    }) - 1075
}

/// Absolute value of a double, without its part behind the point.
pub open spec fn whole_part(bits: u64) -> nat {
    if scale(bits) >= 0 {
        significand(bits) * pow2(scale(bits) as nat)
    } else {
        significand(bits) / pow2((-scale(bits)) as nat)
    }
}

/// A double as an integer: cut toward zero, held to the range of `i64`, and
/// zero where it is no number.
pub open spec fn truncated(bits: u64) -> int {
    let negative = bits >= 0x8000_0000_0000_0000;
    if exponent_field(bits) == 0x7ff {
        if bits as nat % 0x10_0000_0000_0000 != 0 {
            0
        } else if negative {
            i64::MIN as int
        } else {
            i64::MAX as int
        }
    } else if negative {
        if whole_part(bits) > 0x8000_0000_0000_0000 {
            i64::MIN as int
        } else {
            -whole_part(bits)
        }
    } else if whole_part(bits) > i64::MAX {
        i64::MAX as int
    } else {
        whole_part(bits) as int
    }
}

/// `m` scaled down by a power of two.
fn scaled_down(m: u64, k: u32) -> (r: u64)
    ensures
        r == m as nat / pow2(k as nat),
{
    let mut r: u64 = m;
    let mut left: u32 = k;
    while left > 0 && r > 0
        invariant
            left <= k,
            m as nat / pow2(k as nat) == r as nat / pow2(left as nat),
        decreases left,
    {
        proof {
            let p = pow2((left - 1) as nat) as int;
            lemma_pow2_unfold(left as nat);
            lemma_pow2_pos((left - 1) as nat);
            lemma_div_denominator(r as int, 2, p);
        }
        r = r / 2;
        left = left - 1;
    }
    proof {
        lemma2_to64();
        lemma_pow2_pos(left as nat);
        if r == 0 {
            lemma_div_basics(pow2(left as nat) as int);
        } else {
            lemma_div_basics(r as int);
        }
    }
    r
}

/// `m` scaled up by a power of two, or a number past the range of `u64` where
/// it leaves that range.
fn scaled_up(m: u64, k: u32) -> (r: u128)
    ensures
        m * pow2(k as nat) <= u64::MAX ==> r == m * pow2(k as nat),
        m * pow2(k as nat) > u64::MAX ==> r > u64::MAX,
{
    let mut r: u128 = m as u128;
    let mut left: u32 = k;
    while left > 0 && r <= 0xffff_ffff_ffff_ffff
        invariant
            left <= k,
            m * pow2(k as nat) == r * pow2(left as nat),
            r <= 0x1_ffff_ffff_ffff_fffe,
        decreases left,
    {
        proof {
            let p = pow2((left - 1) as nat) as int;
            lemma_pow2_unfold(left as nat);
            assert(r * (2 * p) == (r * 2) * p) by (nonlinear_arith);
        }
        r = r * 2;
        left = left - 1;
    }
    proof {
        lemma2_to64();
        lemma_pow2_pos(left as nat);
        let p = pow2(left as nat) as int;
        assert(r * p >= r) by (nonlinear_arith)
            requires
                p >= 1,
                r >= 0,
        ;
        if left == 0 {
            assert(r * p == r) by (nonlinear_arith)
                requires
                    p == 1,
            ;
        }
    }
    r
}

/// Cut a double toward zero.
pub fn float_to_int(bits: u64) -> (r: i64)
    ensures
        r == truncated(bits),
{
    let negative = bits >= 0x8000_0000_0000_0000;
    let fraction: u64 = bits % 0x10_0000_0000_0000;
    let exponent: u64 = bits / 0x10_0000_0000_0000 % 0x800;
    if exponent == 0x7ff {
        return if fraction != 0 {
            0
        } else if negative {
            i64::MIN
        } else {
            i64::MAX
        };
    }
    let m: u64 = if exponent == 0 {
        fraction
    } else {
        fraction + 0x10_0000_0000_0000
    };
    let e: u64 = if exponent == 0 {
        1
    } else {
        exponent
    };
    let whole: u128 = if e >= 1075 {
        scaled_up(m, (e - 1075) as u32)
    } else {
        scaled_down(m, (1075 - e) as u32) as u128
    };
    if negative {
        if whole > 0x8000_0000_0000_0000 {
            i64::MIN
        } else {
            (0i128 - whole as i128) as i64
        }
    } else if whole > 0x7fff_ffff_ffff_ffff {
        i64::MAX
    } else {
        whole as i64
    }
}

/// Whether a double is no number.
pub open spec fn is_nan(bits: u64) -> bool {
    bits as nat % 0x8000_0000_0000_0000 > 0x7ff0_0000_0000_0000
}

/// Where a double stands in the order of all doubles that are numbers; the
/// two zeros stand at the same place.
pub open spec fn rank(bits: u64) -> int {
    let magnitude = bits as int % 0x8000_0000_0000_0000;
    if bits >= 0x8000_0000_0000_0000 {
        -magnitude
    } else {
        magnitude
    }
}

/// Whether a double is zero.
pub open spec fn is_zero(bits: u64) -> bool {
    rank(bits) == 0
}

/// Whether both doubles are numbers, and `a` is at least `b`.
pub open spec fn at_least(a: u64, b: u64) -> bool {
    !is_nan(a) && !is_nan(b) && rank(a) >= rank(b)
}

fn rank_of(bits: u64) -> (r: i64)
    ensures
        r == rank(bits),
{
    let magnitude: i64 = (bits % 0x8000_0000_0000_0000) as i64;
    if bits >= 0x8000_0000_0000_0000 {
        -magnitude
    } else {
        magnitude
    }
}

/// Decide whether a double is zero.
pub fn double_is_zero(bits: u64) -> (r: bool)
    ensures
        r == is_zero(bits),
{
    rank_of(bits) == 0
}

/// Decide whether both doubles are numbers, and `a` is at least `b`.
pub fn double_at_least(a: u64, b: u64) -> (r: bool)
    ensures
        r == at_least(a, b),
{
    a % 0x8000_0000_0000_0000 <= 0x7ff0_0000_0000_0000 && b % 0x8000_0000_0000_0000
        <= 0x7ff0_0000_0000_0000 && rank_of(a) >= rank_of(b)
}

/// Bound of the integers that doubles hold exactly: two to the power of 53.
pub const EXACT_LIMIT: u64 = 0x20_0000_0000_0000;

/// Place of the highest bit of a number; zero where there is none.
pub open spec fn top_bit(n: nat) -> nat
    decreases n,
{
    if n < 2 {
        0
    } else {
        1 + top_bit(n / 2)
    }
}

/// Bits of the double that is equal to a number below [`EXACT_LIMIT`]: the
/// place of its highest bit is the exponent, and what stands behind that bit
/// is the fraction.
pub open spec fn exact_double(n: nat) -> u64 {
    if n == 0 {
        0
    } else {
        let e = top_bit(n);
        ((1023 + e) * 0x10_0000_0000_0000 + (n - pow2(e)) * pow2((52 - e) as nat)) as u64
    }
}

/// Bits of the double nearest to an integer.
pub uninterp spec fn double_of(n: int) -> u64;

/// Bits of the double that an integer becomes: the one equal to it, with the
/// sign bit where it is negative, or past [`EXACT_LIMIT`] the nearest one.
pub open spec fn nearest_double(n: int) -> u64 {
    if 0 <= n < EXACT_LIMIT {
        exact_double(n as nat)
    } else if -EXACT_LIMIT < n < 0 {
        (0x8000_0000_0000_0000 + exact_double((-n) as nat)) as u64
    } else {
        double_of(n)
    }
}

/// `serde_json::Number::as_f64`, on a number made of an integer by
/// `serde_json::Number::from_i128`: an integer in the range of `i64` or `u64`
/// is cast to the nearest double, which only the integer decides. It is equal
/// to the integer below [`EXACT_LIMIT`], has the sign of the integer, and is
/// finite and not zero where the integer is not. To which double an integer
/// past that limit is rounded is left unsaid.
#[verifier::external_body]
fn integer_as_double(n: i128) -> (r: Option<u64>)
    requires
        i64::MIN <= n <= u64::MAX,
    ensures
        r == Some(double_of(n as int)),
        -EXACT_LIMIT < n < EXACT_LIMIT ==> r == Some(nearest_double(n as int)),
        n > 0 ==> 0 < r->0 < 0x7ff0_0000_0000_0000,
        n < 0 ==> 0x8000_0000_0000_0000 < r->0 < 0xfff0_0000_0000_0000,
{
    match serde_json::Number::from_i128(n) {
        Some(number) => match number.as_f64() {
            Some(double) => Some(double.to_bits()),
            None => None,
        },
        None => None,
    }
}

/// Double that an integer becomes.
pub fn integer_to_double(n: i128) -> (r: u64)
    requires
        i64::MIN <= n <= u64::MAX,
    ensures
        r == nearest_double(n as int),
        n > 0 ==> 0 < r < 0x7ff0_0000_0000_0000,
        n < 0 ==> 0x8000_0000_0000_0000 < r < 0xfff0_0000_0000_0000,
{
    match integer_as_double(n) {
        Some(bits) => bits,
        None => 0,
    }
}

proof fn top_bit_bounds(n: nat)
    requires
        n > 0,
    ensures
        pow2(top_bit(n)) <= n < 2 * pow2(top_bit(n)),
    decreases n,
{
    lemma2_to64();
    if n >= 2 {
        top_bit_bounds(n / 2);
        lemma_pow2_unfold(top_bit(n));
    }
}

proof fn exact_parts(n: nat)
    requires
        0 < n < EXACT_LIMIT,
    ensures
        ({
            let e = top_bit(n);
            let f = (n - pow2(e)) * pow2((52 - e) as nat);
            &&& e <= 52
            &&& 0 <= f < 0x10_0000_0000_0000
            &&& exact_double(n) == (1023 + e) * 0x10_0000_0000_0000 + f
            &&& f + 0x10_0000_0000_0000 == n * pow2((52 - e) as nat)
        }),
{
    let e = top_bit(n);
    top_bit_bounds(n);
    lemma2_to64_rest();
    if e > 52 {
        if e > 53 {
            lemma_pow2_strictly_increases(53, e);
        }
        assert(false);
    }
    let k = (52 - e) as nat;
    lemma_pow2_adds(e, k);
    lemma_pow2_pos(k);
    let (p, q) = (pow2(e) as int, pow2(k) as int);
    assert(0 <= (n - p) * q < p * q) by (nonlinear_arith)
        requires
            p <= n < 2 * p,
            q > 0,
    ;
    assert((n - p) * q + p * q == n * q) by (nonlinear_arith);
}

/// Numbers below [`EXACT_LIMIT`] are kept: the double is positive and finite
/// unless the number is zero, and its whole part is the number.
pub proof fn exact_double_is_the_number(n: nat)
    requires
        n < EXACT_LIMIT,
    ensures
        whole_part(exact_double(n)) == n,
        n == 0 <==> exact_double(n) == 0,
        exact_double(n) < 0x4340_0000_0000_0000,
{
    lemma2_to64();
    if n == 0 {
        lemma_pow2_pos(1074);
        lemma_div_basics(pow2(1074) as int);
    } else {
        exact_parts(n);
        let e = top_bit(n);
        let k = (52 - e) as nat;
        let f = (n - pow2(e)) * pow2(k);
        let bits = exact_double(n);
        assert(bits as nat / 0x10_0000_0000_0000 == 1023 + e);
        assert(bits as nat % 0x10_0000_0000_0000 == f);
        assert(exponent_field(bits) == 1023 + e);
        assert(significand(bits) == n * pow2(k));
        lemma_pow2_pos(k);
        if k == 0 {
            assert(n * 1 * 1 == n);
        } else {
            lemma_div_multiples_vanish(n as int, pow2(k) as int);
            assert(pow2(k) * n == n * pow2(k)) by (nonlinear_arith);
        }
    }
}

/// Numbers below [`EXACT_LIMIT`] are ordered as their doubles are.
pub proof fn exact_doubles_keep_order(m: nat, n: nat)
    requires
        m < EXACT_LIMIT,
        n < EXACT_LIMIT,
    ensures
        at_least(exact_double(m), exact_double(n)) <==> m >= n,
{
    exact_double_is_the_number(m);
    exact_double_is_the_number(n);
    if m < n {
        exact_double_grows(m, n);
    } else if n < m {
        exact_double_grows(n, m);
    }
}

proof fn exact_double_grows(m: nat, n: nat)
    requires
        m < n < EXACT_LIMIT,
    ensures
        exact_double(m) < exact_double(n),
{
    exact_double_is_the_number(n);
    if m > 0 {
        exact_parts(m);
        exact_parts(n);
        top_bit_bounds(m);
        top_bit_bounds(n);
        let (a, b) = (top_bit(m), top_bit(n));
        if a > b {
            lemma_pow2_unfold((b + 1) as nat);
            if a > b + 1 {
                lemma_pow2_strictly_increases((b + 1) as nat, a);
            }
            assert(false);
        }
        if a == b {
            let q = pow2((52 - a) as nat) as int;
            lemma_pow2_pos((52 - a) as nat);
            assert((m - pow2(a)) * q < (n - pow2(a)) * q) by (nonlinear_arith)
                requires
                    m < n,
                    q > 0,
            ;
        }
    }
}

/// A floating point value, as the bits of an IEEE 754 double.
#[derive(Debug, Clone, Copy, PartialEq, Eq, Structural)]
pub struct Double {
    /// Bits of the value.
    pub bits: u64,
}

/// A type that can be extracted with [`dict_item`].
pub trait DictItemValue: Sized {
    /// Name of the type, as a sequence of characters.
    spec fn expected_name() -> Seq<char>;

    /// Whether `value` converts to `r`.
    spec fn converts(value: DictValue, r: Option<Self>) -> bool;

    /// Name of the type, for error messages.
    fn target_name() -> (r: &'static str)
        ensures
            r@ == Self::expected_name(),
    ;

    /// Convert a value.
    fn from_value(value: &DictValue) -> (r: Result<Self, DictTypeError>)
        ensures
            match r {
                Ok(v) => Self::converts(*value, Some(v)),
                Err(e) => {
                    &&& Self::converts(*value, None)
                    &&& e.expected() == Self::expected_name()
                    &&& e.actual() == type_of(*value)
                },
            },
    ;
}

fn mismatch(expected: &'static str, value: &DictValue) -> (e: DictTypeError)
    ensures
        e.expected() == expected@,
        e.actual() == type_of(*value),
{
    DictTypeError { expected, actual: type_name_of(value) }
}

impl DictItemValue for String {
    open spec fn expected_name() -> Seq<char> {
        "str"@
    }

    /// Text gives its characters, nothing else gives text.
    open spec fn converts(value: DictValue, r: Option<String>) -> bool {
        match value {
            DictValue::Text(s) => r matches Some(t) && t@ == s@,
            _ => r is None,
        }
    }

    fn target_name() -> &'static str {
        "str"
    }

    fn from_value(value: &DictValue) -> Result<String, DictTypeError> {
        match value {
            DictValue::Text(s) => Ok(s.clone()),
            _ => Err(mismatch("str", value)),
        }
    }
}

impl DictItemValue for bool {
    open spec fn expected_name() -> Seq<char> {
        "bool"@
    }

    /// Truth values give themselves, nothing else gives one.
    open spec fn converts(value: DictValue, r: Option<bool>) -> bool {
        r == match value {
            DictValue::Bool(b) => Some(b),
            _ => None,
        }
    }

    fn target_name() -> &'static str {
        "bool"
    }

    fn from_value(value: &DictValue) -> Result<bool, DictTypeError> {
        match value {
            DictValue::Bool(b) => Ok(*b),
            _ => Err(mismatch("bool", value)),
        }
    }
}

impl DictItemValue for i64 {
    open spec fn expected_name() -> Seq<char> {
        "int"@
    }

    /// Numbers give integers, held to the range of `i64`; doubles are cut
    /// toward zero.
    open spec fn converts(value: DictValue, r: Option<i64>) -> bool {
        match value {
            DictValue::Number(DictNumber::Unsigned(n)) => r == Some(
                if n > i64::MAX {
                    i64::MAX
                } else {
                    n as i64
                },
            ),
            DictValue::Number(DictNumber::Negative(n)) => r == Some(n),
            DictValue::Number(DictNumber::Double(bits)) => r matches Some(n) && n == truncated(
                bits,
            ),
            _ => r is None,
        }
    }

    fn target_name() -> &'static str {
        "int"
    }

    fn from_value(value: &DictValue) -> Result<i64, DictTypeError> {
        match value {
            DictValue::Number(DictNumber::Unsigned(n)) => Ok(
                if *n > 0x7fff_ffff_ffff_ffff {
                    i64::MAX
                } else {
                    *n as i64
                },
            ),
            DictValue::Number(DictNumber::Negative(n)) => Ok(*n),
            DictValue::Number(DictNumber::Double(bits)) => Ok(float_to_int(*bits)),
            _ => Err(mismatch("int", value)),
        }
    }
}

impl DictItemValue for Double {
    open spec fn expected_name() -> Seq<char> {
        "float"@
    }

    /// Numbers give doubles: integers the nearest one.
    open spec fn converts(value: DictValue, r: Option<Double>) -> bool {
        r == match value {
            DictValue::Number(DictNumber::Unsigned(n)) => Some(
                Double { bits: nearest_double(n as int) },
            ),
            DictValue::Number(DictNumber::Negative(n)) => Some(
                Double { bits: nearest_double(n as int) },
            ),
            DictValue::Number(DictNumber::Double(bits)) => Some(Double { bits }),
            _ => None,
        }
    }

    fn target_name() -> &'static str {
        "float"
    }

    fn from_value(value: &DictValue) -> Result<Double, DictTypeError> {
        let double = match value {
            DictValue::Number(DictNumber::Unsigned(n)) => Some(integer_to_double(*n as i128)),
            DictValue::Number(DictNumber::Negative(n)) => Some(integer_to_double(*n as i128)),
            DictValue::Number(DictNumber::Double(bits)) => Some(*bits),
            _ => None,
        };
        match double {
            Some(bits) => Ok(Double { bits }),
            None => Err(mismatch("float", value)),
        }
    }
}

/// A dictionary: values by key.
#[derive(Debug, PartialEq, Eq)]
pub struct Dict {
    entries: Vec<(String, DictValue)>,
}

/// Value of the last entry with the given key.
pub open spec fn lookup(entries: Seq<(String, DictValue)>, key: Seq<char>) -> Option<DictValue>
    decreases entries.len(),
{
    if entries.len() == 0 {
        None
    } else if entries.last().0@ == key {
        Some(entries.last().1)
    } else {
        lookup(entries.drop_last(), key)
    }
}

/// What the last entry with the given key holds.
pub open spec fn found(contents: Seq<(Seq<char>, DictView)>, key: Seq<char>) -> Option<DictView>
    decreases contents.len(),
{
    if contents.len() == 0 {
        None
    } else if contents.last().0 == key {
        Some(contents.last().1)
    } else {
        found(contents.drop_last(), key)
    }
}

proof fn found_is_lookup(entries: Seq<(String, DictValue)>, key: Seq<char>)
    ensures
        found(entries_view(entries), key) == match lookup(entries, key) {
            Some(v) => Some(value_view(v)),
            None => None,
        },
    decreases entries.len(),
{
    if entries.len() > 0 {
        assert(entries_view(entries).drop_last() =~= entries_view(entries.drop_last()));
        found_is_lookup(entries.drop_last(), key);
    }
}

spec fn entries_view(entries: Seq<(String, DictValue)>) -> Seq<(Seq<char>, DictView)> {
    Seq::new(entries.len(), |i: int| (entries[i].0@, value_view(entries[i].1)))
}

impl Dict {
    /// Keys with their values, in the order of insertion.
    pub closed spec fn contents(self) -> Seq<(Seq<char>, DictView)>
        decreases self,
    {
        Seq::new(
            self.entries@.len(),
            |i: int|
                if 0 <= i < self.entries@.len() {
                    (self.entries@[i].0@, value_view(self.entries@[i].1))
                } else {
                    (Seq::empty(), DictView::Null)
                },
        )
    }

    /// Value for a key.
    pub closed spec fn value(self, key: Seq<char>) -> Option<DictValue> {
        lookup(self.entries@, key)
    }

    /// What the contents hold for a key is what its value is.
    pub proof fn contents_hold_values(self, key: Seq<char>)
        ensures
            found(self.contents(), key) == match self.value(key) {
                Some(v) => Some(value_view(v)),
                None => None,
            },
    {
        assert(self.contents() =~= entries_view(self.entries@));
        found_is_lookup(self.entries@, key);
    }

    /// Number of entries.
    pub fn len(&self) -> (n: usize)
        ensures
            n == self.contents().len(),
    {
        self.entries.len()
    }

    /// Value of an entry.
    pub fn value_at(&self, i: usize) -> (r: &DictValue)
        requires
            i < self.contents().len(),
        ensures
            value_view(*r) == self.contents()[i as int].1,
    {
        &self.entries[i].1
    }

    /// An empty dictionary.
    pub fn new() -> (r: Self)
        ensures
            forall|key: Seq<char>| #[trigger] r.value(key) is None,
    {
        Dict { entries: Vec::new() }
    }

    /// Set the value for a key.
    pub fn insert(&mut self, key: &str, value: DictValue)
        ensures
            forall|k: Seq<char>| #[trigger]
                final(self).value(k) == if k == key@ {
                    Some(value)
                } else {
                    old(self).value(k)
                },
    {
        let ghost before = self.entries@;
        self.entries.push((key.to_owned(), value));
        assert(self.entries@.drop_last() =~= before);
    }

    /// Value for a key, if any.
    pub fn get(&self, key: &str) -> (r: Option<&DictValue>)
        ensures
            match r {
                Some(v) => self.value(key@) == Some(*v),
                None => self.value(key@) is None,
            },
    {
        let mut i: usize = self.entries.len();
        assert(self.entries@.take(i as int) =~= self.entries@);
        while i > 0
            invariant
                i <= self.entries@.len(),
                lookup(self.entries@, key@) == lookup(self.entries@.take(i as int), key@),
            decreases i,
        {
            let ghost upto = self.entries@.take(i as int);
            assert(upto.drop_last() =~= self.entries@.take(i - 1));
            i = i - 1;
            if text::same(self.entries[i].0.as_str(), key) {
                return Some(&self.entries[i].1);
            }
        }
        None
    }
}

/// Extract a value from a dictionary: the default where the key is missing,
/// an error where the value has an unexpected type.
pub fn dict_item<T: DictItemValue>(data: &Dict, key: &str, default: Option<T>) -> (r: Result<
    Option<T>,
    DictTypeError,
>)
    ensures
        match data.value(key@) {
            None => r == Ok::<Option<T>, DictTypeError>(default),
            Some(value) => match r {
                Ok(v) => v is Some && T::converts(value, v),
                Err(e) => {
                    &&& T::converts(value, None)
                    &&& e.expected() == T::expected_name()
                    &&& e.actual() == type_of(value)
                },
            },
        },
{
    match data.get(key) {
        None => Ok(default),
        Some(value) => match T::from_value(value) {
            Ok(v) => Ok(Some(v)),
            Err(e) => Err(e),
        },
    }
}

/// `serde_json::Value`, which Verus does not look into.
#[verifier::external_type_specification]
#[verifier::external_body]
pub struct ExValue(Value);

/// What a JSON value of `serde_json` holds.
pub uninterp spec fn json_contents(value: Value) -> DictView;

/// What JSON text is read as, or the reason why it is no JSON.
pub uninterp spec fn json_reading(bytes: Seq<u8>) -> Result<DictView, Seq<char>>;

/// `serde_json::from_slice`: whether bytes are JSON, which value they are and
/// the reason why they are none depends on the bytes alone. The grammar is
/// left unsaid.
#[verifier::external_body]
fn json_from_slice(bytes: &[u8]) -> (r: Result<Value, String>)
    ensures
        match r {
            Ok(v) => json_reading(bytes@) == Ok::<DictView, Seq<char>>(json_contents(v)),
            Err(reason) => json_reading(bytes@) == Err::<DictView, Seq<char>>(reason@),
        },
{
    match serde_json::from_slice(bytes) {
        Ok(value) => Ok(value),
        Err(e) => Err(e.to_string()),
    }
}

/// `serde_json::Value`, part by part: its variants are those of a value of a
/// dictionary, and `serde_json::Number::as_u64`, `as_i64` and `as_f64` tell
/// which number it is. A number that the first two do not give is a double,
/// which the third one gives.
#[verifier::external_body]
fn json_parts(value: Value) -> (r: DictValue)
    ensures
        value_view(r) == json_contents(value),
{
    match value {
        Value::Null => DictValue::Null,
        Value::Bool(b) => DictValue::Bool(b),
        Value::Number(n) => DictValue::Number(match (n.as_u64(), n.as_i64()) {
            (Some(u), _) => DictNumber::Unsigned(u),
            (_, Some(i)) => DictNumber::Negative(i),
            _ => DictNumber::Double(n.as_f64().unwrap_or_default().to_bits()),
        }),
        Value::String(s) => DictValue::Text(s),
        Value::Array(v) => DictValue::List(v.into_iter().map(json_parts).collect()),
        Value::Object(m) => DictValue::Dict(
            Dict { entries: m.into_iter().map(|(k, v)| (k, json_parts(v))).collect() },
        ),
    }
}

/// Read JSON, or tell why it is none.
pub fn read_json(bytes: &[u8]) -> (r: Result<DictValue, String>)
    ensures
        match json_reading(bytes@) {
            Ok(view) => r matches Ok(v) && value_view(v) == view,
            Err(reason) => r matches Err(e) && e@ == reason,
        },
{
    match json_from_slice(bytes) {
        Ok(value) => Ok(json_parts(value)),
        Err(reason) => Err(reason),
    }
}

/// The last entry of a key is the one that is found; entries of other keys
/// make no difference.
pub proof fn last_entry_is_found(
    contents: Seq<(Seq<char>, DictView)>,
    key: Seq<char>,
    value: DictView,
    other: Seq<char>,
)
    ensures
        found(contents.push((key, value)), key) == Some(value),
        other != key ==> found(contents.push((key, value)), other) == found(contents, other),
        found(Seq::empty(), key) is None,
{
    assert(contents.push((key, value)).drop_last() =~= contents);
}

/// Doubles are compared as numbers are: every double that is a number is at
/// least itself, of two that differ one is greater, and no comparison holds
/// with one that is no number. Both zeros are zero.
pub proof fn doubles_are_ordered(a: u64, b: u64, c: u64)
    ensures
        !is_nan(a) ==> at_least(a, a),
        !is_nan(a) && !is_nan(b) ==> at_least(a, b) || at_least(b, a),
        at_least(a, b) && at_least(b, a) ==> a == b || (is_zero(a) && is_zero(b)),
        at_least(a, b) && at_least(b, c) ==> at_least(a, c),
        is_nan(a) || is_nan(b) ==> !at_least(a, b),
        is_zero(a) <==> a == 0 || a == 0x8000_0000_0000_0000,
        0 < a < 0x7ff0_0000_0000_0000 ==> at_least(a, 0) && !at_least(0, a),
        0x8000_0000_0000_0000 < a < 0xfff0_0000_0000_0000 ==> at_least(0, a) && !at_least(a, 0),
{
}

} // verus!
