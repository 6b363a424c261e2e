use vstd::prelude::*;
use std::rc::Rc;
use crate::ast::{Expression, FunctionDeclarator};
use crate::text::{decimal, number_text};
use crate::vault::Handle;

verus! {

/// The host routines that a script can call.
#[derive(Clone, Copy, Debug, PartialEq, Eq, Structural)]
pub enum NativeFunction {
    IOPrint,
    IOPrintln,
    ToString,
    IsError,
    HMNew,
    HMSet,
    HMGet,
    HMDelete,
    HMHas,
    HMLen,
    HMKeys,
    HMValues,
    HMClear,
}

/// A runtime value.
#[derive(Debug)]
pub enum Value {
    /// The value of the literal `None`.
    Nil,
    Number(i64),
    Bool(bool),
    Str(String),
    /// A sequence of values, which is never changed once it is made.
    Sequence(Rc<Vec<Value>>),
    /// An expression kept unevaluated by a formula binding.
    Ast(Rc<Expression>),
    /// A handle to a scope record.
    ScopeRef(Handle),
    NativeFunction(NativeFunction),
    Function(Rc<FunctionDeclarator>),
    /// What a call gives back when its body threw.
    Error(String),
}

/// What a statement asks of the statements around it.
#[derive(Debug)]
pub enum ControlFlow {
    Continue,
    Break,
    Return(Value),
    Throw(Value),
    /// Go on with the next statement.
    Normal,
}

/// `Rc::clone`: another pointer to the same allocation.
#[verifier::external_body]
pub(crate) fn share<T>(rc: &Rc<T>) -> (other: Rc<T>)
    ensures
        other == *rc,
{
    Rc::clone(rc)
}

/// `n` brought into the range of a number, the way an overflowing result is kept.
pub open spec fn clamp(n: int) -> i64 {
    if n > i64::MAX {
        i64::MAX
    } else if n < i64::MIN {
        i64::MIN
    } else {
        n as i64
    }
}

/// A number read as an unsigned integer: negative numbers count as zero.
pub open spec fn unsigned(n: i64) -> u64 {
    if n < 0 {
        0
    } else {
        n as u64
    }
}

/// An unsigned integer read as a number: what does not fit is kept at the largest number.
pub open spec fn signed(n: u64) -> i64 {
    if n > i64::MAX as u64 {
        i64::MAX
    } else {
        n as i64
    }
}

/// `base` multiplied by itself `exp` times, every product clamped.
pub open spec fn power(base: int, exp: nat) -> int
    decreases exp,
{
    if exp == 0 {
        1
    } else {
        clamp(power(base, (exp - 1) as nat) * base) as int
    }
}

/// `text` written `count` times in a row.
pub open spec fn repeated(text: Seq<char>, count: nat) -> Seq<char>
    decreases count,
{
    if count == 0 {
        Seq::empty()
    } else {
        repeated(text, (count - 1) as nat) + text
    }
}

/// Truthiness: `None` and zero are false, a boolean is itself, all else is true.
pub open spec fn truthy(v: Value) -> bool {
    match v {
        Value::Nil => false,
        Value::Number(n) => n != 0,
        Value::Bool(b) => b,
        _ => true,
    }
}

/// `r` is a string value that reads `text`.
pub open spec fn is_text(r: Value, text: Seq<char>) -> bool {
    r is Str && r->Str_0@ == text
}

/// `r` is the sequence of the numbers from `lo` to `hi`, both included.
pub open spec fn is_range(r: Value, lo: int, hi: int) -> bool {
    &&& r is Sequence
    &&& r->Sequence_0@.len() == (if lo <= hi {
        hi - lo + 1
    } else {
        0
    })
    &&& forall|i: int|
        0 <= i < r->Sequence_0@.len() ==> #[trigger] r->Sequence_0@[i] == Value::Number(
            (lo + i) as i64,
        )
}

/// The result of `+`.
pub open spec fn add_result(lhs: Value, rhs: Value, r: Value) -> bool {
    match (lhs, rhs) {
        (Value::Number(a), Value::Number(b)) => r == Value::Number(clamp(a + b)),
        (Value::Number(a), Value::Str(s)) => is_text(r, decimal(a as int) + s@),
        (Value::Str(s), Value::Number(b)) => is_text(r, s@ + decimal(b as int)),
        (Value::Str(s), Value::Str(t)) => is_text(r, s@ + t@),
        (Value::Bool(a), Value::Bool(b)) => r == Value::Bool(a || b),
        _ => r == Value::Nil,
    }
}

/// The result of `-`.
pub open spec fn sub_result(lhs: Value, rhs: Value, r: Value) -> bool {
    match (lhs, rhs) {
        (Value::Number(a), Value::Number(b)) => r == Value::Number(clamp(a - b)),
        _ => r == Value::Nil,
    }
}

/// The result of `*`.
pub open spec fn mul_result(lhs: Value, rhs: Value, r: Value) -> bool {
    match (lhs, rhs) {
        (Value::Number(a), Value::Number(b)) => r == Value::Number(clamp(a * b)),
        (Value::Str(s), Value::Number(n)) => is_text(r, repeated(s@, unsigned(n) as nat)),
        (Value::Number(n), Value::Str(s)) => is_text(r, repeated(s@, unsigned(n) as nat)),
        (Value::Bool(a), Value::Bool(b)) => r == Value::Bool(a && b),
        _ => r == Value::Nil,
    }
}

/// The magnitude of a number.
pub open spec fn magnitude(n: int) -> int {
    if n >= 0 {
        n
    } else {
        -n
    }
}

/// The quotient of `a` by `b`, rounded toward zero.
pub open spec fn quotient(a: int, b: int) -> int
    recommends
        b != 0,
{
    if (a >= 0) == (b > 0) {
        magnitude(a) / magnitude(b)
    } else {
        -(magnitude(a) / magnitude(b))
    }
}

/// The result of `/`: numbers divide toward zero, and nothing divides by zero.
pub open spec fn div_result(lhs: Value, rhs: Value, r: Value) -> bool {
    match (lhs, rhs) {
        (Value::Number(a), Value::Number(b)) => if b == 0 {
            r == Value::Nil
        } else {
            r == Value::Number(clamp(quotient(a as int, b as int)))
        },
        _ => r == Value::Nil,
    }
}

/// The result of `%`: the remainder has the sign of the dividend.
pub open spec fn rem_result(lhs: Value, rhs: Value, r: Value) -> bool {
    match (lhs, rhs) {
        (Value::Number(a), Value::Number(b)) => if b == 0 {
            r == Value::Nil
        } else {
            r == Value::Number((a - quotient(a as int, b as int) * b) as i64)
        },
        _ => r == Value::Nil,
    }
}

/// The result of `^`: defined for a number raised to a number that is not negative.
pub open spec fn pow_result(lhs: Value, rhs: Value, r: Value) -> bool {
    match (lhs, rhs) {
        (Value::Number(a), Value::Number(b)) => if b < 0 {
            r == Value::Nil
        } else {
            r == Value::Number(power(a as int, b as nat) as i64)
        },
        _ => r == Value::Nil,
    }
}

/// The result of `..`.
pub open spec fn range_result(lhs: Value, rhs: Value, r: Value) -> bool {
    match (lhs, rhs) {
        (Value::Number(a), Value::Number(b)) => is_range(
            r,
            unsigned(a) as int,
            unsigned(b) as int,
        ),
        _ => r == Value::Nil,
    }
}

/// Whether `==` holds of two values.
pub open spec fn same(lhs: Value, rhs: Value) -> bool {
    match (lhs, rhs) {
        (Value::Number(a), Value::Number(b)) => a == b,
        (Value::Bool(a), Value::Bool(b)) => a == b,
        (Value::Str(s), Value::Str(t)) => s@ == t@,
        (Value::ScopeRef(g), Value::ScopeRef(h)) => g == h,
        (Value::Nil, Value::Nil) => true,
        _ => false,
    }
}

/// The two numbers of a comparison, where both sides are numbers.
pub open spec fn numbers(lhs: Value, rhs: Value) -> Option<(i64, i64)> {
    match (lhs, rhs) {
        (Value::Number(a), Value::Number(b)) => Some((a, b)),
        _ => None,
    }
}

/// The two booleans of a logical operation, where both sides are booleans.
pub open spec fn booleans(lhs: Value, rhs: Value) -> Option<(bool, bool)> {
    match (lhs, rhs) {
        (Value::Bool(a), Value::Bool(b)) => Some((a, b)),
        _ => None,
    }
}

/// The result of unary `-`.
pub open spec fn neg_result(v: Value) -> Value {
    match v {
        Value::Number(n) => Value::Number(clamp(-n)),
        _ => Value::Nil,
    }
}

/// The result of `!`.
pub open spec fn not_result(v: Value) -> Value {
    match v {
        Value::Nil => Value::Nil,
        Value::Number(n) => Value::Bool(n == 0),
        Value::Bool(b) => Value::Bool(!b),
        _ => Value::Bool(false),
    }
}

/// The result of `<<`.
pub open spec fn shl_result(lhs: Value, rhs: Value) -> Value {
    match (lhs, rhs) {
        (Value::Number(a), Value::Number(b)) => if unsigned(b) >= 64 {
            Value::Number(0)
        } else {
            Value::Number(signed(unsigned(a) << unsigned(b)))
        },
        _ => Value::Nil,
    }
}

/// The result of `>>`.
pub open spec fn shr_result(lhs: Value, rhs: Value) -> Value {
    match (lhs, rhs) {
        (Value::Number(a), Value::Number(b)) => if unsigned(b) >= 64 {
            Value::Number(0)
        } else {
            Value::Number(signed(unsigned(a) >> unsigned(b)))
        },
        _ => Value::Nil,
    }
}

/// `n` clamped into the range of a number.
fn clamp_wide(n: i128) -> (r: i64)
    ensures
        r == clamp(n as int),
{
    if n > i64::MAX as i128 {
        i64::MAX
    } else if n < i64::MIN as i128 {
        i64::MIN
    } else {
        n as i64
    }
}

fn to_unsigned(n: i64) -> (r: u64)
    ensures
        r == unsigned(n),
{
    if n < 0 {
        0
    } else {
        n as u64
    }
}

fn to_signed(n: u64) -> (r: i64)
    ensures
        r == signed(n),
{
    if n > i64::MAX as u64 {
        i64::MAX
    } else {
        n as i64
    }
}

/// The product of two numbers, clamped.
fn times(a: i64, b: i64) -> (r: i64)
    ensures
        r == clamp(a * b),
{
    assert(-0x8000_0000_0000_0000 * 0x8000_0000_0000_0000 <= a * b <= 0x8000_0000_0000_0000
        * 0x8000_0000_0000_0000) by (nonlinear_arith)
        requires
            -0x8000_0000_0000_0000 <= a < 0x8000_0000_0000_0000,
            -0x8000_0000_0000_0000 <= b < 0x8000_0000_0000_0000,
    ;
    clamp_wide((a as i128) * (b as i128))
}

/// The quotient of two numbers, rounded toward zero, and what is left of the dividend.
fn divide(a: i64, b: i64) -> (r: (i128, i64))
    requires
        b != 0,
    ensures
        r.0 == quotient(a as int, b as int),
        r.1 == a - quotient(a as int, b as int) * b,
{
    let abs_a: i128 = if a >= 0 {
        a as i128
    } else {
        -(a as i128)
    };
    let abs_b: i128 = if b > 0 {
        b as i128
    } else {
        -(b as i128)
    };
    let q: i128 = abs_a / abs_b;
    let m: i128 = abs_a % abs_b;
    assert(0 <= q <= abs_a && 0 <= m < abs_b && abs_a == q * abs_b + m) by (nonlinear_arith)
        requires
            q == abs_a / abs_b,
            m == abs_a % abs_b,
            abs_a >= 0,
            abs_b > 0,
    ;
    let signed_q: i128 = if (a >= 0) == (b > 0) {
        q
    } else {
        -q
    };
    let rest: i128 = if a >= 0 {
        m
    } else {
        -m
    };
    assert(rest == a - signed_q * b) by (nonlinear_arith)
        requires
            abs_a == q * abs_b + m,
            abs_a == magnitude(a as int),
            abs_b == magnitude(b as int),
            b != 0,
            signed_q == (if (a >= 0) == (b > 0) {
                q as int
            } else {
                -q
            }),
            rest == (if a >= 0 {
                m as int
            } else {
                -m
            }),
    ;
    (signed_q, rest as i64)
}

/// Once a product no longer changes, no further multiplication changes it.
proof fn lemma_power_settled(base: int, at: nat, exp: nat)
    requires
        at <= exp,
        clamp(power(base, at) * base) == power(base, at),
    ensures
        power(base, exp) == power(base, at),
    decreases exp,
{
    if exp > at {
        lemma_power_settled(base, at, (exp - 1) as nat);
    }
}

/// Once the products alternate between two values, they do so for good.
proof fn lemma_power_alternates(base: int, at: nat, exp: nat)
    requires
        at <= exp,
        power(base, at + 2) == power(base, at),
    ensures
        power(base, exp) == (if (exp - at) % 2 == 0 {
            power(base, at)
        } else {
            power(base, at + 1)
        }),
    decreases exp,
{
    if exp >= at + 2 {
        lemma_power_alternates(base, at, (exp - 2) as nat);
        assert(power(base, exp) == clamp(power(base, (exp - 1) as nat) * base));
        assert(power(base, (exp - 1) as nat) == clamp(power(base, (exp - 2) as nat) * base));
        assert(power(base, at + 2) == clamp(power(base, at + 1) * base));
        assert(power(base, at + 1) == clamp(power(base, at) * base));
        if (exp - 2 - at) % 2 == 0 {
        } else {
            assert(power(base, (exp - 2) as nat) == power(base, at + 1));
            assert(power(base, (exp - 1) as nat) == power(base, at + 2));
        }
    }
}

/// `base` raised to `exp`, every product clamped.
fn raise(base: i64, exp: u64) -> (r: i64)
    ensures
        r == power(base as int, exp as nat),
{
    let mut acc: i64 = 1;
    let mut done: u64 = 0;
    while done < exp
        invariant
            done <= exp,
            acc == power(base as int, done as nat),
        decreases exp - done,
    {
        let next = times(acc, base);
        assert(next == power(base as int, (done + 1) as nat));
        if next == acc {
            proof {
                lemma_power_settled(base as int, done as nat, exp as nat);
            }
            return acc;
        }
        let after = times(next, base);
        assert(after == power(base as int, (done + 2) as nat));
        if after == acc {
            proof {
                lemma_power_alternates(base as int, done as nat, exp as nat);
            }
            if (exp - done) % 2 == 0 {
                return acc;
            } else {
                return next;
            }
        }
        acc = next;
        done = done + 1;
    }
    acc
}

/// `text` written `count` times in a row.
fn repeat_text(text: &String, count: u64) -> (r: String)
    ensures
        r@ == repeated(text@, count as nat),
{
    let mut out = String::new();
    let mut done: u64 = 0;
    while done < count
        invariant
            done <= count,
            out@ == repeated(text@, done as nat),
        decreases count - done,
    {
        out.append(text.as_str());
        done = done + 1;
    }
    out
}

impl Value {
    /// Truthiness of a value.
    pub fn as_bool(&self) -> (b: bool)
        ensures
            b == truthy(*self),
    {
        match self {
            Value::Nil => false,
            Value::Number(n) => *n != 0,
            Value::Bool(b) => *b,
            _ => true,
        }
    }

    /// A copy of the value. Sequences and syntax are shared, not copied.
    pub fn duplicate(&self) -> (r: Value)
        ensures
            r == *self,
    {
        match self {
            Value::Nil => Value::Nil,
            Value::Number(n) => Value::Number(*n),
            Value::Bool(b) => Value::Bool(*b),
            Value::Str(s) => Value::Str(s.clone()),
            Value::Sequence(items) => Value::Sequence(share(items)),
            Value::Ast(e) => Value::Ast(share(e)),
            Value::ScopeRef(h) => Value::ScopeRef(*h),
            Value::NativeFunction(f) => Value::NativeFunction(*f),
            Value::Function(d) => Value::Function(share(d)),
            Value::Error(s) => Value::Error(s.clone()),
        }
    }

    /// `+`: numbers add, strings and numbers concatenate, booleans are joined by "or".
    pub fn add(self, rhs: Value) -> (r: Value)
        ensures
            add_result(self, rhs, r),
    {
        match (self, rhs) {
            (Value::Number(a), Value::Number(b)) => Value::Number(
                clamp_wide((a as i128) + (b as i128)),
            ),
            (Value::Number(a), Value::Str(s)) => {
                let mut out = number_text(a);
                out.append(s.as_str());
                Value::Str(out)
            },
            (Value::Str(s), Value::Number(b)) => {
                let mut out = s;
                let digits = number_text(b);
                out.append(digits.as_str());
                Value::Str(out)
            },
            (Value::Str(s), Value::Str(t)) => {
                let mut out = s;
                out.append(t.as_str());
                Value::Str(out)
            },
            (Value::Bool(a), Value::Bool(b)) => Value::Bool(a || b),
            _ => Value::Nil,
        }
    }

    /// `-`: defined for two numbers.
    pub fn sub(self, rhs: Value) -> (r: Value)
        ensures
            sub_result(self, rhs, r),
    {
        match (self, rhs) {
            (Value::Number(a), Value::Number(b)) => Value::Number(
                clamp_wide((a as i128) - (b as i128)),
            ),
            _ => Value::Nil,
        }
    }

    /// `*`: numbers multiply, a string is repeated, booleans are joined by "and".
    pub fn mul(self, rhs: Value) -> (r: Value)
        ensures
            mul_result(self, rhs, r),
    {
        match (self, rhs) {
            (Value::Number(a), Value::Number(b)) => Value::Number(times(a, b)),
            (Value::Str(s), Value::Number(n)) => Value::Str(repeat_text(&s, to_unsigned(n))),
            (Value::Number(n), Value::Str(s)) => Value::Str(repeat_text(&s, to_unsigned(n))),
            (Value::Bool(a), Value::Bool(b)) => Value::Bool(a && b),
            _ => Value::Nil,
        }
    }

    /// `/`: defined for two numbers, the second not zero.
    pub fn div(self, rhs: Value) -> (r: Value)
        ensures
            div_result(self, rhs, r),
    {
        match (self, rhs) {
            (Value::Number(a), Value::Number(b)) => {
                if b == 0 {
                    Value::Nil
                } else {
                    Value::Number(clamp_wide(divide(a, b).0))
                }
            },
            _ => Value::Nil,
        }
    }

    /// `%`: defined for two numbers, the second not zero.
    pub fn rem(self, rhs: Value) -> (r: Value)
        ensures
            rem_result(self, rhs, r),
    {
        match (self, rhs) {
            (Value::Number(a), Value::Number(b)) => {
                if b == 0 {
                    Value::Nil
                } else {
                    Value::Number(divide(a, b).1)
                }
            },
            _ => Value::Nil,
        }
    }

    /// Unary `-`.
    pub fn neg(self) -> (r: Value)
        ensures
            r == neg_result(self),
    {
        match self {
            Value::Number(n) => Value::Number(clamp_wide(-(n as i128))),
            _ => Value::Nil,
        }
    }

    /// `!`.
    pub fn not(self) -> (r: Value)
        ensures
            r == not_result(self),
    {
        match self {
            Value::Nil => Value::Nil,
            Value::Number(n) => Value::Bool(n == 0),
            Value::Bool(b) => Value::Bool(!b),
            _ => Value::Bool(false),
        }
    }

    /// Logical "and": true only of two true booleans.
    pub fn and(&self, other: &Value) -> (r: Value)
        ensures
            r == Value::Bool(
                match booleans(*self, *other) {
                    Some((a, b)) => a && b,
                    None => false,
                },
            ),
    {
        Value::Bool(
            match (self, other) {
                (Value::Bool(a), Value::Bool(b)) => *a && *b,
                _ => false,
            },
        )
    }

    /// Logical "or" of two booleans; false of anything else.
    pub fn or(&self, other: &Value) -> (r: Value)
        ensures
            r == Value::Bool(
                match booleans(*self, *other) {
                    Some((a, b)) => a || b,
                    None => false,
                },
            ),
    {
        Value::Bool(
            match (self, other) {
                (Value::Bool(a), Value::Bool(b)) => *a || *b,
                _ => false,
            },
        )
    }

    /// Logical "exclusive or" of two booleans; false of anything else.
    pub fn xor(&self, other: &Value) -> (r: Value)
        ensures
            r == Value::Bool(
                match booleans(*self, *other) {
                    Some((a, b)) => a != b,
                    None => false,
                },
            ),
    {
        Value::Bool(
            match (self, other) {
                (Value::Bool(a), Value::Bool(b)) => *a != *b,
                _ => false,
            },
        )
    }

    /// Bitwise "and" of two numbers read as unsigned integers; zero of anything else.
    pub fn bit_and(&self, other: &Value) -> (r: Value)
        ensures
            r == Value::Number(
                match numbers(*self, *other) {
                    Some((a, b)) => signed(unsigned(a) & unsigned(b)),
                    None => 0,
                },
            ),
    {
        Value::Number(
            match (self, other) {
                (Value::Number(a), Value::Number(b)) => to_signed(
                    to_unsigned(*a) & to_unsigned(*b),
                ),
                _ => 0,
            },
        )
    }

    /// Bitwise "or" of two numbers read as unsigned integers; zero of anything else.
    pub fn bit_or(&self, other: &Value) -> (r: Value)
        ensures
            r == Value::Number(
                match numbers(*self, *other) {
                    Some((a, b)) => signed(unsigned(a) | unsigned(b)),
                    None => 0,
                },
            ),
    {
        Value::Number(
            match (self, other) {
                (Value::Number(a), Value::Number(b)) => to_signed(
                    to_unsigned(*a) | to_unsigned(*b),
                ),
                _ => 0,
            },
        )
    }

    /// Bitwise "exclusive or" of two numbers read as unsigned integers; zero of anything else.
    pub fn bit_xor(&self, other: &Value) -> (r: Value)
        ensures
            r == Value::Number(
                match numbers(*self, *other) {
                    Some((a, b)) => signed(unsigned(a) ^ unsigned(b)),
                    None => 0,
                },
            ),
    {
        Value::Number(
            match (self, other) {
                (Value::Number(a), Value::Number(b)) => to_signed(
                    to_unsigned(*a) ^ to_unsigned(*b),
                ),
                _ => 0,
            },
        )
    }

    /// `<<` on numbers read as unsigned integers.
    pub fn shl(self, rhs: Value) -> (r: Value)
        ensures
            r == shl_result(self, rhs),
    {
        match (self, rhs) {
            (Value::Number(a), Value::Number(b)) => {
                let amount = to_unsigned(b);
                if amount >= 64 {
                    Value::Number(0)
                } else {
                    Value::Number(to_signed(to_unsigned(a) << amount))
                }
            },
            _ => Value::Nil,
        }
    }

    /// `>>` on numbers read as unsigned integers.
    pub fn shr(self, rhs: Value) -> (r: Value)
        ensures
            r == shr_result(self, rhs),
    {
        match (self, rhs) {
            (Value::Number(a), Value::Number(b)) => {
                let amount = to_unsigned(b);
                if amount >= 64 {
                    Value::Number(0)
                } else {
                    Value::Number(to_signed(to_unsigned(a) >> amount))
                }
            },
            _ => Value::Nil,
        }
    }

    /// `^`: a number raised to a number that is not negative.
    pub fn pow(&self, other: &Value) -> (r: Value)
        ensures
            pow_result(*self, *other, r),
    {
        match (self, other) {
            (Value::Number(a), Value::Number(b)) => {
                if *b < 0 {
                    Value::Nil
                } else {
                    Value::Number(raise(*a, *b as u64))
                }
            },
            _ => Value::Nil,
        }
    }

    /// `..`: the numbers from the first to the second, both included and read as unsigned.
    pub fn range(&self, other: &Value) -> (r: Value)
        ensures
            range_result(*self, *other, r),
    {
        match (self, other) {
            (Value::Number(a), Value::Number(b)) => {
                let lo: i64 = if *a < 0 {
                    0
                } else {
                    *a
                };
                let hi: i64 = if *b < 0 {
                    0
                } else {
                    *b
                };
                let mut items: Vec<Value> = Vec::new();
                if lo <= hi {
                    let mut at: i64 = lo;
                    items.push(Value::Number(at));
                    while at < hi
                        invariant
                            0 <= lo <= at <= hi,
                            items@.len() == at - lo + 1,
                            forall|i: int|
                                0 <= i < items@.len() ==> #[trigger] items@[i] == Value::Number(
                                    (lo + i) as i64,
                                ),
                        decreases hi - at,
                    {
                        at = at + 1;
                        items.push(Value::Number(at));
                    }
                }
                Value::Sequence(Rc::new(items))
            },
            _ => Value::Nil,
        }
    }

    /// `==`.
    pub fn equal(&self, other: &Value) -> (r: Value)
        ensures
            r == Value::Bool(same(*self, *other)),
    {
        Value::Bool(
            match (self, other) {
                (Value::Number(a), Value::Number(b)) => *a == *b,
                (Value::Bool(a), Value::Bool(b)) => *a == *b,
                (Value::Str(s), Value::Str(t)) => *s == *t,
                (Value::ScopeRef(g), Value::ScopeRef(h)) => *g == *h,
                (Value::Nil, Value::Nil) => true,
                _ => false,
            },
        )
    }

    /// `!=`.
    pub fn not_equal(&self, other: &Value) -> (r: Value)
        ensures
            r == Value::Bool(!same(*self, *other)),
    {
        self.equal(other).not()
    }

    /// `>` on two numbers; false of anything else.
    pub fn greater(&self, other: &Value) -> (r: Value)
        ensures
            r == Value::Bool(
                match numbers(*self, *other) {
                    Some((a, b)) => a > b,
                    None => false,
                },
            ),
    {
        Value::Bool(
            match (self, other) {
                (Value::Number(a), Value::Number(b)) => *a > *b,
                _ => false,
            },
        )
    }

    /// `>=` on two numbers; false of anything else.
    pub fn greater_equal(&self, other: &Value) -> (r: Value)
        ensures
            r == Value::Bool(
                match numbers(*self, *other) {
                    Some((a, b)) => a >= b,
                    None => false,
                },
            ),
    {
        Value::Bool(
            match (self, other) {
                (Value::Number(a), Value::Number(b)) => *a >= *b,
                _ => false,
            },
        )
    }

    /// `<` on two numbers; false of anything else.
    pub fn less(&self, other: &Value) -> (r: Value)
        ensures
            r == Value::Bool(
                match numbers(*self, *other) {
                    Some((a, b)) => a < b,
                    None => false,
                },
            ),
    {
        Value::Bool(
            match (self, other) {
                (Value::Number(a), Value::Number(b)) => *a < *b,
                _ => false,
            },
        )
    }

    /// `<=` on two numbers; false of anything else.
    pub fn less_equal(&self, other: &Value) -> (r: Value)
        ensures
            r == Value::Bool(
                match numbers(*self, *other) {
                    Some((a, b)) => a <= b,
                    None => false,
                },
            ),
    {
        Value::Bool(
            match (self, other) {
                (Value::Number(a), Value::Number(b)) => *a <= *b,
                _ => false,
            },
        )
    }
}

} // verus!
