//! Runtime values and the number system that gives numbers their arithmetic.
use vstd::prelude::*;

verus! {

/// The bit pattern of positive zero.
pub const ZERO_BITS: u64 = 0;

/// The bit pattern of negative zero: the sign bit alone.
pub const SIGN_BIT: u64 = 0x8000_0000_0000_0000;

/// The bit pattern of one.
pub const ONE_BITS: u64 = 0x3FF0_0000_0000_0000;

/// A number of the language: a 64-bit IEEE-754 binary float, held by its bit
/// pattern. What needs float arithmetic is asked of a [`NumberSystem`].
#[derive(Debug, Clone, Copy, PartialEq, Eq, Structural)]
pub struct Number {
    pub bits: u64,
}

impl Number {
    /// Positive or negative zero.
    pub open spec fn zero_spec(self) -> bool {
        self.bits == ZERO_BITS || self.bits == SIGN_BIT
    }

    /// Whether the number is zero (of either sign).
    pub fn is_zero(self) -> (r: bool)
        ensures
            r == self.zero_spec(),
    {
        self.bits == ZERO_BITS || self.bits == SIGN_BIT
    }

    /// The number with its sign bit flipped.
    pub open spec fn negate_spec(self) -> Number {
        if self.bits >= SIGN_BIT {
            Number { bits: (self.bits - SIGN_BIT) as u64 }
        } else {
            Number { bits: (self.bits + SIGN_BIT) as u64 }
        }
    }

    /// The negation: the same magnitude with the other sign.
    pub fn negate(self) -> (r: Number)
        ensures
            r == self.negate_spec(),
    {
        if self.bits >= SIGN_BIT {
            Number { bits: self.bits - SIGN_BIT }
        } else {
            Number { bits: self.bits + SIGN_BIT }
        }
    }

    /// One for true, zero for false.
    pub open spec fn from_bool_spec(b: bool) -> Number {
        Number { bits: if b { ONE_BITS } else { ZERO_BITS } }
    }

    pub fn from_bool(b: bool) -> (r: Number)
        ensures
            r == Number::from_bool_spec(b),
    {
        Number { bits: if b { ONE_BITS } else { ZERO_BITS } }
    }
}

/// The arithmetic operations of a number system.
#[derive(Debug, Clone, Copy, PartialEq, Eq, Structural)]
pub enum ArithOp {
    Add,
    Sub,
    Mul,
    Div,
    /// The remainder of truncating division (the sign of the dividend).
    Rem,
    Pow,
}

/// The comparisons of a number system.
#[derive(Debug, Clone, Copy, PartialEq, Eq, Structural)]
pub enum CompareOp {
    Eq,
    Ne,
    Lt,
    Le,
    Gt,
    Ge,
}

/// The float arithmetic that the evaluator asks for. The evaluator is
/// verified for every implementation: its contracts speak of whatever the
/// number system replied.
pub trait NumberSystem {
    /// The number nearest to the integer `v`.
    fn from_integer(&self, v: i64) -> Number;

    /// The number that the decimal literal `text` (`digits '.' digits`) denotes.
    fn from_decimal(&self, text: &str) -> Number;

    /// `a op b`.
    fn arith(&self, op: ArithOp, a: Number, b: Number) -> Number;

    /// Whether `a op b` holds.
    fn compare(&self, op: CompareOp, a: Number, b: Number) -> bool;

    /// The decimal display form of `a`.
    fn display(&self, a: Number) -> String;

    /// `Some(n)` when `a` is a non-negative whole number `n` that fits in
    /// `usize`; `None` otherwise.
    fn whole_count(&self, a: Number) -> Option<usize>;
}

/// A question put to the number system.
pub enum Query {
    FromInteger(i64),
    FromDecimal(Seq<char>),
    Arith(ArithOp, Number, Number),
    Compare(CompareOp, Number, Number),
    Display(Number),
    WholeCount(Number),
}

/// An answer of the number system.
pub enum Answer {
    Number(Number),
    Truth(bool),
    Text(Seq<char>),
    Count(Option<usize>),
}

/// A question put to the number system and the answer it gave.
pub struct Reply {
    pub query: Query,
    pub answer: Answer,
}

/// The value of a runtime value.
pub enum Value {
    Number(Number),
    Bool(bool),
    Str(Seq<char>),
    Null,
    /// The marker that `ret` unwinds with, up to the function call.
    Return(Box<Value>),
}

/// A runtime value.
#[derive(Debug)]
pub enum ResultType {
    Number(Number),
    Bool(bool),
    Str(String),
    Null,
    Return(Box<ResultType>),
}

impl View for ResultType {
    type V = Value;

    open spec fn view(&self) -> Value
        decreases self,
    {
        match self {
            ResultType::Number(n) => Value::Number(*n),
            ResultType::Bool(b) => Value::Bool(*b),
            ResultType::Str(s) => Value::Str(s@),
            ResultType::Null => Value::Null,
            ResultType::Return(v) => Value::Return(Box::new((**v).view())),
        }
    }
}

impl ResultType {
    /// A copy of the value.
    pub fn duplicate(&self) -> (r: ResultType)
        ensures
            r@ == self@,
        decreases self,
    {
        match self {
            ResultType::Number(n) => ResultType::Number(*n),
            ResultType::Bool(b) => ResultType::Bool(*b),
            ResultType::Str(s) => ResultType::Str(s.clone()),
            ResultType::Null => ResultType::Null,
            ResultType::Return(v) => ResultType::Return(Box::new(v.duplicate())),
        }
    }
}

} // verus!
