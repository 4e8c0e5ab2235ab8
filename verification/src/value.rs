//! Runtime values and the operators of the language on them.
//!
//! A `Float` is held by its IEEE 754 binary32 bit pattern. What can be read
//! off the bits (sign, zero, order, equality) is decided here. What needs
//! rounding or decimal conversion is asked of the host by a [`Request`].

use crate::errors::LiteralOpError;
use crate::text::{decimal, decimal_of, repeat, repeated};
use crate::token::Operator;
use vstd::prelude::*;

verus! {

/// A value of the language.
#[derive(Debug, PartialEq)]
pub enum Literal {
    Number(i32),
    String(String),
    /// The bit pattern of a binary32 number.
    Float(u32),
    Bool(bool),
}

/// The mathematical model of a [`Literal`].
pub enum LiteralView {
    Number(i32),
    String(Seq<char>),
    Float(u32),
    Bool(bool),
}

impl View for Literal {
    type V = LiteralView;

    open spec fn view(&self) -> LiteralView {
        match self {
            Literal::Number(n) => LiteralView::Number(*n),
            Literal::String(s) => LiteralView::String(s@),
            Literal::Float(bits) => LiteralView::Float(*bits),
            Literal::Bool(b) => LiteralView::Bool(*b),
        }
    }
}

impl Clone for Literal {
    fn clone(&self) -> (r: Self)
        ensures
            r@ == self@,
    {
        match self {
            Literal::Number(n) => Literal::Number(*n),
            Literal::String(s) => Literal::String(s.clone()),
            Literal::Float(bits) => Literal::Float(*bits),
            Literal::Bool(b) => Literal::Bool(*b),
        }
    }
}

/// The rounding operations on two binary32 numbers that the host performs.
#[derive(Debug, PartialEq, Eq, Clone, Copy, Structural)]
pub enum FloatOp {
    Add,
    Sub,
    Mul,
    Div,
    Rem,
}

/// Work that only the host can do.
#[derive(Debug, PartialEq)]
pub enum Request {
    /// The binary32 number nearest to this decimal text.
    Parse(String),
    /// The binary32 number nearest to this integer.
    Convert(i32),
    /// The rounded result of the operation on two binary32 numbers.
    Arith(FloatOp, u32, u32),
    /// The decimal text of this binary32 number.
    Show(u32),
}

/// The mathematical model of a [`Request`].
pub enum RequestView {
    Parse(Seq<char>),
    Convert(i32),
    Arith(FloatOp, u32, u32),
    Show(u32),
}

impl View for Request {
    type V = RequestView;

    open spec fn view(&self) -> RequestView {
        match self {
            Request::Parse(text) => RequestView::Parse(text@),
            Request::Convert(n) => RequestView::Convert(*n),
            Request::Arith(op, a, b) => RequestView::Arith(*op, *a, *b),
            Request::Show(bits) => RequestView::Show(*bits),
        }
    }
}

impl Clone for Request {
    fn clone(&self) -> (r: Self)
        ensures
            r@ == self@,
    {
        match self {
            Request::Parse(text) => Request::Parse(text.clone()),
            Request::Convert(n) => Request::Convert(*n),
            Request::Arith(op, a, b) => Request::Arith(*op, *a, *b),
            Request::Show(bits) => Request::Show(*bits),
        }
    }
}

/// The host's answer to a [`Request`]: a bit pattern for `Parse`, `Convert`
/// and `Arith`, a text for `Show`.
#[derive(Debug, PartialEq)]
pub enum Reply {
    Bits(u32),
    Text(String),
}

/// The mathematical model of a [`Reply`].
pub enum ReplyView {
    Bits(u32),
    Text(Seq<char>),
}

impl View for Reply {
    type V = ReplyView;

    open spec fn view(&self) -> ReplyView {
        match self {
            Reply::Bits(bits) => ReplyView::Bits(*bits),
            Reply::Text(text) => ReplyView::Text(text@),
        }
    }
}

impl RequestView {
    /// The value that a reply to this request stands for; none where the
    /// reply is of the wrong kind.
    pub open spec fn answered(self, reply: ReplyView) -> Option<LiteralView> {
        match (self, reply) {
            (RequestView::Show(_), ReplyView::Text(text)) => Some(LiteralView::String(text)),
            (RequestView::Show(_), ReplyView::Bits(_)) => None,
            (_, ReplyView::Bits(bits)) => Some(LiteralView::Float(bits)),
            (_, ReplyView::Text(_)) => None,
        }
    }
}

impl Request {
    /// Turns the host's reply into the value it stands for. A text answers
    /// `Show`, a bit pattern answers the other requests; a reply of the wrong
    /// kind is refused.
    pub fn answered(&self, reply: Reply) -> (r: Option<Literal>)
        ensures
            r.is_some() == self@.answered(reply@).is_some(),
            r.is_some() ==> r.unwrap()@ == self@.answered(reply@).unwrap(),
    {
        match self {
            Request::Show(_) => match reply {
                Reply::Text(text) => Some(Literal::String(text)),
                Reply::Bits(_) => None,
            },
            _ => match reply {
                Reply::Bits(bits) => Some(Literal::Float(bits)),
                Reply::Text(_) => None,
            },
        }
    }
}

/// What applying a binary operator to two values comes to.
#[derive(Debug, PartialEq)]
pub enum Outcome {
    /// The result.
    Value(Literal),
    /// The operands are rejected.
    Error(LiteralOpError),
    /// The host's answer is the result.
    Whole(Request),
    /// The host's answer takes the place of the left operand; the operator is
    /// then applied to it and the right operand held here.
    Left(Request, Operator, Literal),
    /// The host's answer takes the place of the right operand; the operator is
    /// then applied to the left operand held here and to it.
    Right(Literal, Operator, Request),
}

/// The mathematical model of an [`Outcome`].
pub enum OutcomeView {
    Value(LiteralView),
    Error(LiteralOpError),
    Whole(RequestView),
    Left(RequestView, Operator, LiteralView),
    Right(LiteralView, Operator, RequestView),
}

impl View for Outcome {
    type V = OutcomeView;

    open spec fn view(&self) -> OutcomeView {
        match self {
            Outcome::Value(v) => OutcomeView::Value(v@),
            Outcome::Error(e) => OutcomeView::Error(*e),
            Outcome::Whole(q) => OutcomeView::Whole(q@),
            Outcome::Left(q, op, right) => OutcomeView::Left(q@, *op, right@),
            Outcome::Right(left, op, q) => OutcomeView::Right(left@, *op, q@),
        }
    }
}

/// The bits of a binary32 number without its sign.
pub open spec fn float_magnitude(bits: u32) -> u32 {
    bits & 0x7fff_ffff
}

/// Whether the bits stand for no number: all exponent bits set and a fraction
/// that is not zero.
pub open spec fn float_is_nan(bits: u32) -> bool {
    float_magnitude(bits) > 0x7f80_0000
}

/// Whether the bits stand for zero, of either sign.
pub open spec fn float_is_zero(bits: u32) -> bool {
    float_magnitude(bits) == 0
}

/// An integer that orders the binary32 numbers as IEEE 754 does: the magnitude
/// bits, negated where the sign bit is set. Both zeros get 0.
pub open spec fn float_key(bits: u32) -> int {
    if bits & 0x8000_0000 != 0 {
        -(float_magnitude(bits) as int)
    } else {
        float_magnitude(bits) as int
    }
}

/// IEEE 754 `<` on bit patterns: false as soon as one side is no number.
pub open spec fn float_less(a: u32, b: u32) -> bool {
    !float_is_nan(a) && !float_is_nan(b) && float_key(a) < float_key(b)
}

/// IEEE 754 `==` on bit patterns: false as soon as one side is no number, and
/// true of the two zeros.
pub open spec fn float_equal(a: u32, b: u32) -> bool {
    !float_is_nan(a) && !float_is_nan(b) && float_key(a) == float_key(b)
}

/// The bits of the negated number: the sign bit flipped.
pub open spec fn float_negated(bits: u32) -> u32 {
    bits ^ 0x8000_0000
}

fn key_of(bits: u32) -> (k: i64)
    ensures
        k == float_key(bits),
{
    let m: u32 = bits & 0x7fff_ffff;
    if bits & 0x8000_0000 != 0 {
        0 - (m as i64)
    } else {
        m as i64
    }
}

fn is_nan(bits: u32) -> (r: bool)
    ensures
        r == float_is_nan(bits),
{
    (bits & 0x7fff_ffff) > 0x7f80_0000
}

/// Whether a binary32 number is zero.
pub fn is_zero(bits: u32) -> (r: bool)
    ensures
        r == float_is_zero(bits),
{
    (bits & 0x7fff_ffff) == 0
}

/// Whether one binary32 number is less than another.
pub fn less_bits(a: u32, b: u32) -> (r: bool)
    ensures
        r == float_less(a, b),
{
    !is_nan(a) && !is_nan(b) && key_of(a) < key_of(b)
}

/// Whether two binary32 numbers are equal.
pub fn equal_bits(a: u32, b: u32) -> (r: bool)
    ensures
        r == float_equal(a, b),
{
    !is_nan(a) && !is_nan(b) && key_of(a) == key_of(b)
}

/// The text of a boolean.
pub open spec fn bool_text(b: bool) -> Seq<char> {
    if b {
        "true"@
    } else {
        "false"@
    }
}

fn bool_string(b: bool) -> (s: String)
    ensures
        s@ == bool_text(b),
{
    if b {
        String::from_str("true")
    } else {
        String::from_str("false")
    }
}

/// The remainder of integer division as Rust computes it: it has the sign of
/// the dividend, and it is 0 where the quotient would not fit.
pub open spec fn remainder(a: i32, b: i32) -> i32
    recommends
        b != 0,
{
    match a.checked_rem(b) {
        Some(r) => r,
        None => 0,
    }
}

impl LiteralView {
    /// Whether the value is a number or a float.
    pub open spec fn is_numeric(self) -> bool {
        self is Number || self is Float
    }

    /// Numbers and floats are true unless zero, strings unless empty.
    pub open spec fn is_truthy(self) -> bool {
        match self {
            LiteralView::Number(n) => n != 0,
            LiteralView::String(s) => s.len() != 0,
            LiteralView::Float(bits) => !float_is_zero(bits),
            LiteralView::Bool(b) => b,
        }
    }

    /// The text that `print` shows, where the library can write it: not for a
    /// float.
    pub open spec fn text(self) -> Option<Seq<char>> {
        match self {
            LiteralView::Number(n) => Some(decimal_of(n as int)),
            LiteralView::String(s) => Some(s),
            LiteralView::Float(_) => None,
            LiteralView::Bool(b) => Some(bool_text(b)),
        }
    }

    /// Equal kind and equal content; floats by IEEE 754 equality.
    pub open spec fn same(self, other: LiteralView) -> bool {
        match (self, other) {
            (LiteralView::Number(a), LiteralView::Number(b)) => a == b,
            (LiteralView::String(s), LiteralView::String(t)) => s == t,
            (LiteralView::Float(f), LiteralView::Float(g)) => float_equal(f, g),
            (LiteralView::Bool(a), LiteralView::Bool(b)) => a == b,
            _ => false,
        }
    }

    /// What two numeric operands of an arithmetic operator come to once at
    /// least one of them is a float: the number is converted first, then the
    /// host rounds.
    pub open spec fn promoted(
        self,
        op: Operator,
        float_op: FloatOp,
        other: LiteralView,
    ) -> OutcomeView
        recommends
            self.is_numeric(),
            other.is_numeric(),
    {
        match (self, other) {
            (LiteralView::Number(a), _) => OutcomeView::Left(RequestView::Convert(a), op, other),
            (LiteralView::Float(f), LiteralView::Number(b)) => OutcomeView::Right(
                self,
                op,
                RequestView::Convert(b),
            ),
            (LiteralView::Float(f), LiteralView::Float(g)) => OutcomeView::Whole(
                RequestView::Arith(float_op, f, g),
            ),
            _ => OutcomeView::Error(LiteralOpError::InvalidTypeError),
        }
    }

    /// `+`: the sum of two numbers; the concatenation of a string with the
    /// text of the other operand; a boolean adds to a string only.
    pub open spec fn add(self, other: LiteralView) -> OutcomeView {
        match (self, other) {
            (LiteralView::Number(a), LiteralView::Number(b)) => OutcomeView::Value(
                LiteralView::Number(a.wrapping_add(b)),
            ),
            (LiteralView::String(s), LiteralView::Float(g)) => OutcomeView::Right(
                self,
                Operator::Add,
                RequestView::Show(g),
            ),
            (LiteralView::Float(f), LiteralView::String(t)) => OutcomeView::Left(
                RequestView::Show(f),
                Operator::Add,
                other,
            ),
            (LiteralView::String(s), _) => OutcomeView::Value(
                LiteralView::String(s + other.text().unwrap()),
            ),
            (_, LiteralView::String(t)) => OutcomeView::Value(
                LiteralView::String(self.text().unwrap() + t),
            ),
            (LiteralView::Bool(_), _) => OutcomeView::Error(LiteralOpError::InvalidTypeError),
            (_, LiteralView::Bool(_)) => OutcomeView::Error(LiteralOpError::InvalidTypeError),
            _ => self.promoted(Operator::Add, FloatOp::Add, other),
        }
    }

    /// `-`: the difference of two numbers; numbers and floats only.
    pub open spec fn sub(self, other: LiteralView) -> OutcomeView {
        match (self, other) {
            (LiteralView::Number(a), LiteralView::Number(b)) => OutcomeView::Value(
                LiteralView::Number(a.wrapping_sub(b)),
            ),
            _ => if self.is_numeric() && other.is_numeric() {
                self.promoted(Operator::Sub, FloatOp::Sub, other)
            } else {
                OutcomeView::Error(LiteralOpError::InvalidTypeError)
            },
        }
    }

    /// `*`: the product of two numbers, or a string written as many times as
    /// the number says.
    pub open spec fn mul(self, other: LiteralView) -> OutcomeView {
        match (self, other) {
            (LiteralView::Number(a), LiteralView::Number(b)) => OutcomeView::Value(
                LiteralView::Number(a.wrapping_mul(b)),
            ),
            (LiteralView::Number(a), LiteralView::String(t)) => OutcomeView::Value(
                LiteralView::String(repeated(t, a as int)),
            ),
            (LiteralView::String(s), LiteralView::Number(b)) => OutcomeView::Value(
                LiteralView::String(repeated(s, b as int)),
            ),
            _ => if self.is_numeric() && other.is_numeric() {
                self.promoted(Operator::Mul, FloatOp::Mul, other)
            } else {
                OutcomeView::Error(LiteralOpError::InvalidTypeError)
            },
        }
    }

    /// Whether a divisor is exactly zero, as a number or as a float.
    pub open spec fn is_zero(self) -> bool {
        match self {
            LiteralView::Number(n) => n == 0,
            LiteralView::Float(bits) => float_is_zero(bits),
            _ => false,
        }
    }

    /// `/`: always a float, also of two numbers; a divisor of zero is
    /// rejected.
    pub open spec fn div(self, other: LiteralView) -> OutcomeView {
        if !(self.is_numeric() && other.is_numeric()) {
            OutcomeView::Error(LiteralOpError::InvalidTypeError)
        } else if other.is_zero() {
            OutcomeView::Error(LiteralOpError::DivByZeroError)
        } else {
            self.promoted(Operator::Div, FloatOp::Div, other)
        }
    }

    /// `%`: the remainder of two numbers; a float where one operand is a
    /// float; a divisor of zero is rejected.
    pub open spec fn modulo(self, other: LiteralView) -> OutcomeView {
        if !(self.is_numeric() && other.is_numeric()) {
            OutcomeView::Error(LiteralOpError::InvalidTypeError)
        } else if other.is_zero() {
            OutcomeView::Error(LiteralOpError::DivByZeroError)
        } else {
            match (self, other) {
                (LiteralView::Number(a), LiteralView::Number(b)) => OutcomeView::Value(
                    LiteralView::Number(remainder(a, b)),
                ),
                _ => self.promoted(Operator::Mod, FloatOp::Rem, other),
            }
        }
    }

    /// A comparison of two numeric operands: decided here where both are
    /// numbers or both floats, after a conversion where they are mixed. The
    /// operator applied after the conversion is `strict`.
    pub open spec fn compared(
        self,
        other: LiteralView,
        strict: Operator,
        numbers: bool,
        floats: bool,
    ) -> OutcomeView {
        match (self, other) {
            (LiteralView::Number(_), LiteralView::Number(_)) => OutcomeView::Value(
                LiteralView::Bool(numbers),
            ),
            (LiteralView::Float(_), LiteralView::Float(_)) => OutcomeView::Value(
                LiteralView::Bool(floats),
            ),
            (LiteralView::Number(a), LiteralView::Float(_)) => OutcomeView::Left(
                RequestView::Convert(a),
                strict,
                other,
            ),
            (LiteralView::Float(_), LiteralView::Number(b)) => OutcomeView::Right(
                self,
                strict,
                RequestView::Convert(b),
            ),
            _ => OutcomeView::Error(LiteralOpError::InvalidTypeError),
        }
    }

    /// The number that the value is, or the default where it is none.
    pub open spec fn number_or(self, default: i32) -> i32 {
        match self {
            LiteralView::Number(n) => n,
            _ => default,
        }
    }

    /// The bits of the float that the value is, or the default where it is
    /// none.
    pub open spec fn float_or(self, default: u32) -> u32 {
        match self {
            LiteralView::Float(bits) => bits,
            _ => default,
        }
    }

    /// `>`: numbers and floats only.
    pub open spec fn greater(self, other: LiteralView) -> OutcomeView {
        self.compared(
            other,
            Operator::Greater,
            self.number_or(0) > other.number_or(0),
            float_less(other.float_or(0), self.float_or(0)),
        )
    }

    /// `<`: numbers and floats only.
    pub open spec fn less(self, other: LiteralView) -> OutcomeView {
        self.compared(
            other,
            Operator::Less,
            self.number_or(0) < other.number_or(0),
            float_less(self.float_or(0), other.float_or(0)),
        )
    }

    /// Greater, or equal in kind and content. A number and a float are never
    /// equal, so for a mixed pair this is `greater`.
    pub open spec fn greater_equal(self, other: LiteralView) -> OutcomeView {
        self.compared(
            other,
            Operator::Greater,
            self.number_or(0) >= other.number_or(0),
            float_less(other.float_or(0), self.float_or(0)) || float_equal(
                self.float_or(0),
                other.float_or(0),
            ),
        )
    }

    /// Less, or equal in kind and content. A number and a float are never
    /// equal, so for a mixed pair this is `less`.
    pub open spec fn less_equal(self, other: LiteralView) -> OutcomeView {
        self.compared(
            other,
            Operator::Less,
            self.number_or(0) <= other.number_or(0),
            float_less(self.float_or(0), other.float_or(0)) || float_equal(
                self.float_or(0),
                other.float_or(0),
            ),
        )
    }

    /// Unary `-`: a number wraps around, a float changes its sign bit; other
    /// values are rejected.
    pub open spec fn negate(self) -> Result<LiteralView, LiteralOpError> {
        match self {
            LiteralView::Number(n) => Ok(LiteralView::Number(0i32.wrapping_sub(n))),
            LiteralView::Float(bits) => Ok(LiteralView::Float(float_negated(bits))),
            _ => Err(LiteralOpError::InvalidTypeError),
        }
    }

    /// The operator applied to two values.
    pub open spec fn binary(self, op: Operator, other: LiteralView) -> OutcomeView {
        match op {
            Operator::Add => self.add(other),
            Operator::Sub => self.sub(other),
            Operator::Mul => self.mul(other),
            Operator::Div => self.div(other),
            Operator::Mod => self.modulo(other),
            Operator::Greater => self.greater(other),
            Operator::Less => self.less(other),
            Operator::GreaterEqual => self.greater_equal(other),
            Operator::LessEqual => self.less_equal(other),
            Operator::Equal => OutcomeView::Value(LiteralView::Bool(self.same(other))),
            Operator::NotEqual => OutcomeView::Value(LiteralView::Bool(!self.same(other))),
            Operator::And => OutcomeView::Value(
                LiteralView::Bool(self.is_truthy() && other.is_truthy()),
            ),
            Operator::Or => OutcomeView::Value(
                LiteralView::Bool(self.is_truthy() || other.is_truthy()),
            ),
        }
    }
}


impl Literal {
    /// The text that `print` shows. A float has none here: its text is the
    /// host's to write.
    pub fn to_string(&self) -> (r: Option<String>)
        ensures
            r.is_some() == self@.text().is_some(),
            r.is_some() ==> r.unwrap()@ == self@.text().unwrap(),
    {
        match self {
            Literal::Number(n) => Some(decimal(*n)),
            Literal::String(s) => Some(s.clone()),
            Literal::Float(_) => None,
            Literal::Bool(b) => Some(bool_string(*b)),
        }
    }

    /// Numbers and floats are true unless zero, strings unless empty.
    pub fn is_truthy(&self) -> (r: bool)
        ensures
            r == self@.is_truthy(),
    {
        match self {
            Literal::Number(n) => *n != 0,
            Literal::String(s) => !s.as_str().is_empty(),
            Literal::Float(bits) => !is_zero(*bits),
            Literal::Bool(b) => *b,
        }
    }

    fn same(&self, other: &Literal) -> (r: bool)
        ensures
            r == self@.same(other@),
    {
        match self {
            Literal::Number(a) => match other {
                Literal::Number(b) => *a == *b,
                _ => false,
            },
            Literal::String(s) => match other {
                Literal::String(t) => *s == *t,
                _ => false,
            },
            Literal::Float(f) => match other {
                Literal::Float(g) => equal_bits(*f, *g),
                _ => false,
            },
            Literal::Bool(a) => match other {
                Literal::Bool(b) => *a == *b,
                _ => false,
            },
        }
    }

    fn promoted(self, op: Operator, float_op: FloatOp, other: Literal) -> (r: Outcome)
        requires
            self@.is_numeric(),
            other@.is_numeric(),
        ensures
            r@ == self@.promoted(op, float_op, other@),
    {
        match self {
            Literal::Number(a) => Outcome::Left(Request::Convert(a), op, other),
            Literal::Float(f) => match other {
                Literal::Number(b) => Outcome::Right(Literal::Float(f), op, Request::Convert(b)),
                Literal::Float(g) => Outcome::Whole(Request::Arith(float_op, f, g)),
                _ => Outcome::Error(LiteralOpError::InvalidTypeError),
            },
            _ => Outcome::Error(LiteralOpError::InvalidTypeError),
        }
    }

    fn numeric(&self) -> (r: bool)
        ensures
            r == self@.is_numeric(),
    {
        match self {
            Literal::Number(_) => true,
            Literal::Float(_) => true,
            _ => false,
        }
    }

    fn zero(&self) -> (r: bool)
        ensures
            r == self@.is_zero(),
    {
        match self {
            Literal::Number(n) => *n == 0,
            Literal::Float(bits) => is_zero(*bits),
            _ => false,
        }
    }

    /// `+`: the sum of two numbers; the concatenation of a string with the
    /// text of the other operand; a boolean adds to a string only.
    pub fn add(self, other: Literal) -> (r: Outcome)
        ensures
            r@ == self@.add(other@),
    {
        match self {
            Literal::Number(a) => match other {
                Literal::Number(b) => Outcome::Value(Literal::Number(a.wrapping_add(b))),
                Literal::String(t) => Outcome::Value(
                    Literal::String(decimal(a).concat(t.as_str())),
                ),
                Literal::Float(g) => Outcome::Left(
                    Request::Convert(a),
                    Operator::Add,
                    Literal::Float(g),
                ),
                Literal::Bool(_) => Outcome::Error(LiteralOpError::InvalidTypeError),
            },
            Literal::String(s) => match other {
                Literal::Number(b) => Outcome::Value(
                    Literal::String(s.concat(decimal(b).as_str())),
                ),
                Literal::String(t) => Outcome::Value(Literal::String(s.concat(t.as_str()))),
                Literal::Float(g) => Outcome::Right(
                    Literal::String(s),
                    Operator::Add,
                    Request::Show(g),
                ),
                Literal::Bool(b) => Outcome::Value(
                    Literal::String(s.concat(bool_string(b).as_str())),
                ),
            },
            Literal::Float(f) => match other {
                Literal::Number(b) => Outcome::Right(
                    Literal::Float(f),
                    Operator::Add,
                    Request::Convert(b),
                ),
                Literal::String(t) => Outcome::Left(
                    Request::Show(f),
                    Operator::Add,
                    Literal::String(t),
                ),
                Literal::Float(g) => Outcome::Whole(Request::Arith(FloatOp::Add, f, g)),
                Literal::Bool(_) => Outcome::Error(LiteralOpError::InvalidTypeError),
            },
            Literal::Bool(b) => match other {
                Literal::String(t) => Outcome::Value(
                    Literal::String(bool_string(b).concat(t.as_str())),
                ),
                _ => Outcome::Error(LiteralOpError::InvalidTypeError),
            },
        }
    }

    /// `-`: numbers and floats only.
    pub fn sub(self, other: Literal) -> (r: Outcome)
        ensures
            r@ == self@.sub(other@),
    {
        if !(self.numeric() && other.numeric()) {
            return Outcome::Error(LiteralOpError::InvalidTypeError);
        }
        match (&self, &other) {
            (Literal::Number(a), Literal::Number(b)) => Outcome::Value(
                Literal::Number(a.wrapping_sub(*b)),
            ),
            _ => self.promoted(Operator::Sub, FloatOp::Sub, other),
        }
    }

    /// `*`: the product of two numbers, or a string written as many times as
    /// the number says.
    pub fn mul(self, other: Literal) -> (r: Outcome)
        ensures
            r@ == self@.mul(other@),
    {
        match (&self, &other) {
            (Literal::Number(a), Literal::Number(b)) => Outcome::Value(
                Literal::Number(a.wrapping_mul(*b)),
            ),
            (Literal::Number(a), Literal::String(t)) => Outcome::Value(
                Literal::String(repeat(t.as_str(), *a)),
            ),
            (Literal::String(s), Literal::Number(b)) => Outcome::Value(
                Literal::String(repeat(s.as_str(), *b)),
            ),
            _ => if self.numeric() && other.numeric() {
                self.promoted(Operator::Mul, FloatOp::Mul, other)
            } else {
                Outcome::Error(LiteralOpError::InvalidTypeError)
            },
        }
    }

    /// `/`: always a float, also of two numbers; a divisor of zero is
    /// rejected.
    pub fn div(self, other: Literal) -> (r: Outcome)
        ensures
            r@ == self@.div(other@),
    {
        if !(self.numeric() && other.numeric()) {
            Outcome::Error(LiteralOpError::InvalidTypeError)
        } else if other.zero() {
            Outcome::Error(LiteralOpError::DivByZeroError)
        } else {
            self.promoted(Operator::Div, FloatOp::Div, other)
        }
    }

    /// `%`: the remainder of two numbers, with the sign of the dividend; a
    /// float where one operand is a float; a divisor of zero is rejected.
    pub fn modulo(self, other: Literal) -> (r: Outcome)
        ensures
            r@ == self@.modulo(other@),
    {
        if !(self.numeric() && other.numeric()) {
            return Outcome::Error(LiteralOpError::InvalidTypeError);
        }
        if other.zero() {
            return Outcome::Error(LiteralOpError::DivByZeroError);
        }
        match (&self, &other) {
            (Literal::Number(a), Literal::Number(b)) => {
                let r: i32 = match a.checked_rem(*b) {
                    Some(r) => r,
                    None => 0,
                };
                Outcome::Value(Literal::Number(r))
            },
            _ => self.promoted(Operator::Mod, FloatOp::Rem, other),
        }
    }

    fn compared(self, other: Literal, strict: Operator, numbers: bool, floats: bool) -> (r:
        Outcome)
        ensures
            r@ == self@.compared(other@, strict, numbers, floats),
    {
        match self {
            Literal::Number(a) => match other {
                Literal::Number(_) => Outcome::Value(Literal::Bool(numbers)),
                Literal::Float(g) => Outcome::Left(Request::Convert(a), strict, Literal::Float(g)),
                _ => Outcome::Error(LiteralOpError::InvalidTypeError),
            },
            Literal::Float(f) => match other {
                Literal::Float(_) => Outcome::Value(Literal::Bool(floats)),
                Literal::Number(b) => Outcome::Right(
                    Literal::Float(f),
                    strict,
                    Request::Convert(b),
                ),
                _ => Outcome::Error(LiteralOpError::InvalidTypeError),
            },
            _ => Outcome::Error(LiteralOpError::InvalidTypeError),
        }
    }

    fn number_or(&self, default: i32) -> (r: i32)
        ensures
            r == self@.number_or(default),
    {
        match self {
            Literal::Number(n) => *n,
            _ => default,
        }
    }

    fn float_or(&self, default: u32) -> (r: u32)
        ensures
            r == self@.float_or(default),
    {
        match self {
            Literal::Float(bits) => *bits,
            _ => default,
        }
    }

    /// `>`: numbers and floats only.
    pub fn greater(self, other: Literal) -> (r: Outcome)
        ensures
            r@ == self@.greater(other@),
    {
        let numbers = self.number_or(0) > other.number_or(0);
        let floats = less_bits(other.float_or(0), self.float_or(0));
        self.compared(other, Operator::Greater, numbers, floats)
    }

    /// `<`: numbers and floats only.
    pub fn less(self, other: Literal) -> (r: Outcome)
        ensures
            r@ == self@.less(other@),
    {
        let numbers = self.number_or(0) < other.number_or(0);
        let floats = less_bits(self.float_or(0), other.float_or(0));
        self.compared(other, Operator::Less, numbers, floats)
    }

    /// `==`: equal kind and equal content.
    pub fn equal(self, other: Literal) -> (r: Literal)
        ensures
            r@ == LiteralView::Bool(self@.same(other@)),
    {
        Literal::Bool(self.same(&other))
    }

    /// `>=`: greater, or equal in kind and content.
    pub fn greater_equal(self, other: Literal) -> (r: Outcome)
        ensures
            r@ == self@.greater_equal(other@),
    {
        let numbers = self.number_or(0) >= other.number_or(0);
        let floats = less_bits(other.float_or(0), self.float_or(0)) || equal_bits(
            self.float_or(0),
            other.float_or(0),
        );
        self.compared(other, Operator::Greater, numbers, floats)
    }

    /// `<=`: less, or equal in kind and content.
    pub fn less_equal(self, other: Literal) -> (r: Outcome)
        ensures
            r@ == self@.less_equal(other@),
    {
        let numbers = self.number_or(0) <= other.number_or(0);
        let floats = less_bits(self.float_or(0), other.float_or(0)) || equal_bits(
            self.float_or(0),
            other.float_or(0),
        );
        self.compared(other, Operator::Less, numbers, floats)
    }

    /// `!=`: the opposite of `==`.
    pub fn not_equal(self, other: Literal) -> (r: Literal)
        ensures
            r@ == LiteralView::Bool(!self@.same(other@)),
    {
        Literal::Bool(!self.same(&other))
    }

    /// `and`, on the truth of both operands.
    pub fn and(self, other: Literal) -> (r: Literal)
        ensures
            r@ == LiteralView::Bool(self@.is_truthy() && other@.is_truthy()),
    {
        Literal::Bool(self.is_truthy() && other.is_truthy())
    }

    /// `or`, on the truth of both operands.
    pub fn or(self, other: Literal) -> (r: Literal)
        ensures
            r@ == LiteralView::Bool(self@.is_truthy() || other@.is_truthy()),
    {
        Literal::Bool(self.is_truthy() || other.is_truthy())
    }

    /// `!`, on the truth of the operand.
    pub fn not(self) -> (r: Literal)
        ensures
            r@ == LiteralView::Bool(!self@.is_truthy()),
    {
        Literal::Bool(!self.is_truthy())
    }

    /// Unary `-`: numbers and floats only. A number wraps around, a float
    /// changes its sign bit.
    pub fn negate(self) -> (r: Result<Literal, LiteralOpError>)
        ensures
            match (r, self@.negate()) {
                (Ok(value), Ok(model)) => value@ == model,
                (Err(error), Err(model)) => error == model,
                _ => false,
            },
    {
        match self {
            Literal::Number(n) => Ok(Literal::Number(0i32.wrapping_sub(n))),
            Literal::Float(bits) => Ok(Literal::Float(bits ^ 0x8000_0000)),
            _ => Err(LiteralOpError::InvalidTypeError),
        }
    }

    /// Applies a binary operator to two values.
    pub fn binary(self, op: Operator, other: Literal) -> (r: Outcome)
        ensures
            r@ == self@.binary(op, other@),
    {
        match op {
            Operator::Add => self.add(other),
            Operator::Sub => self.sub(other),
            Operator::Mul => self.mul(other),
            Operator::Div => self.div(other),
            Operator::Mod => self.modulo(other),
            Operator::Greater => self.greater(other),
            Operator::Less => self.less(other),
            Operator::GreaterEqual => self.greater_equal(other),
            Operator::LessEqual => self.less_equal(other),
            Operator::Equal => Outcome::Value(self.equal(other)),
            Operator::NotEqual => Outcome::Value(self.not_equal(other)),
            Operator::And => Outcome::Value(self.and(other)),
            Operator::Or => Outcome::Value(self.or(other)),
        }
    }
}


/// Division never gives a value by itself, and never a number. It is
/// rejected; or it goes on as a division once a number was converted to a
/// float; or it is the quotient of two floats, which the host rounds and
/// which is taken as a float.
pub proof fn lemma_division_gives_floats(left: LiteralView, right: LiteralView)
    ensures
        match left.div(right) {
            OutcomeView::Value(_) => false,
            OutcomeView::Error(_) => true,
            OutcomeView::Whole(request) => request is Arith && forall|reply: ReplyView|
                (#[trigger] request.answered(reply)) is Some ==> request.answered(
                    reply,
                ).unwrap() is Float,
            OutcomeView::Left(request, op, operand) => op == Operator::Div && request is Convert
                && operand == right && forall|reply: ReplyView|
                (#[trigger] request.answered(reply)) is Some ==> request.answered(
                    reply,
                ).unwrap() is Float,
            OutcomeView::Right(operand, op, request) => op == Operator::Div && request is Convert
                && operand == left && operand is Float && forall|reply: ReplyView|
                (#[trigger] request.answered(reply)) is Some ==> request.answered(
                    reply,
                ).unwrap() is Float,
        },
{
}

/// A string times a number is the number times the string: the string
/// written as many times as the number says, and not at all where the number
/// is not positive.
pub proof fn lemma_string_times_number(text: Seq<char>, count: i32)
    ensures
        LiteralView::String(text).mul(LiteralView::Number(count)) == OutcomeView::Value(
            LiteralView::String(repeated(text, count as int)),
        ),
        LiteralView::Number(count).mul(LiteralView::String(text)) == LiteralView::String(
            text,
        ).mul(LiteralView::Number(count)),
        count <= 0 ==> repeated(text, count as int) == Seq::<char>::empty(),
{
}

/// Dividing a number or a float by zero, as a number or as a float of
/// either sign, is rejected as a division by zero.
pub proof fn lemma_division_by_zero(left: LiteralView, right: LiteralView)
    requires
        left.is_numeric(),
        right.is_zero(),
    ensures
        left.div(right) == OutcomeView::Error(LiteralOpError::DivByZeroError),
        left.modulo(right) == OutcomeView::Error(LiteralOpError::DivByZeroError),
{
}

/// Equality never rejects its operands, whatever their kinds, and values of
/// different kinds are never equal.
pub proof fn lemma_equality_is_total(left: LiteralView, right: LiteralView)
    ensures
        left.binary(Operator::Equal, right) == OutcomeView::Value(
            LiteralView::Bool(left.same(right)),
        ),
        left.binary(Operator::NotEqual, right) == OutcomeView::Value(
            LiteralView::Bool(!left.same(right)),
        ),
        left.same(right) ==> (left is Number <==> right is Number) && (left is String
            <==> right is String) && (left is Float <==> right is Float),
{
}

} // verus!
