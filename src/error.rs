use vstd::prelude::*;
use crate::scalar::ArithFault;

verus! {

/// Why an operator does not apply to the kinds of its operands.
#[derive(Debug, Clone, Copy, PartialEq, Eq, Structural)]
pub enum TypeFault {
    AddMixed,
    SubtractMixed,
    MultiplyVectors,
    DivideScalarByVector,
    DivideVectorByVector,
    DotNeedsVectors,
    CrossNeedsVectors,
    CrossNeedsThreeDimensions,
    NotANumber,
    NotAVector,
}

/// Everything that can go wrong while reading or evaluating a line.
#[derive(Debug, Clone, PartialEq)]
pub enum ParseError {
    /// The input does not follow the grammar; the byte offset where it stops.
    TokenError { position: usize },
    /// A number literal that a scalar cannot hold exactly; its byte offset.
    ValueParseError { position: usize },
    /// A name that no variable has.
    InvalidIdentifier { token: String },
    /// An operator that has no evaluation rule.
    InvalidOperator { token: String },
    /// Operands of kinds that the operator does not accept.
    InvalidExpression(TypeFault),
    /// As `InvalidExpression`, with the byte range of the expression.
    InvalidExpr { fault: TypeFault, start: usize, end: usize },
    /// A result that a scalar cannot hold, or a division by zero. Scalars are
    /// exact decimals in millionths held in an `i64`, so unlike a float they
    /// have no infinities: such a result is this error.
    Arithmetic(ArithFault),
}

/// The content of a `ParseError`, with names as character sequences.
pub ghost enum Fault {
    TokenError { position: usize },
    ValueParseError { position: usize },
    InvalidIdentifier { token: Seq<char> },
    InvalidOperator { token: Seq<char> },
    InvalidExpression(TypeFault),
    InvalidExpr { fault: TypeFault, start: usize, end: usize },
    Arithmetic(ArithFault),
}

impl View for ParseError {
    type V = Fault;

    open spec fn view(&self) -> Fault {
        match self {
            ParseError::TokenError { position } => Fault::TokenError { position: *position },
            ParseError::ValueParseError { position } => Fault::ValueParseError { position: *position },
            ParseError::InvalidIdentifier { token } => Fault::InvalidIdentifier { token: token@ },
            ParseError::InvalidOperator { token } => Fault::InvalidOperator { token: token@ },
            ParseError::InvalidExpression(f) => Fault::InvalidExpression(*f),
            ParseError::InvalidExpr { fault, start, end } => Fault::InvalidExpr {
                fault: *fault,
                start: *start,
                end: *end,
            },
            ParseError::Arithmetic(a) => Fault::Arithmetic(*a),
        }
    }
}

/// The text that describes a type fault.
pub open spec fn fault_message(f: TypeFault) -> Seq<char> {
    match f {
        TypeFault::AddMixed => "Can't add a scalar and a vector together"@,
        TypeFault::SubtractMixed => "Can't subtract a scalar and a vector"@,
        TypeFault::MultiplyVectors => "Can't multiply two vectors"@,
        TypeFault::DivideScalarByVector => "Can't divide a scalar by a vector"@,
        TypeFault::DivideVectorByVector => "Can't divide a vector by a vector"@,
        TypeFault::DotNeedsVectors => "Can only do a dot product on two vectors"@,
        TypeFault::CrossNeedsVectors => "Can only do a cross product on two vectors"@,
        TypeFault::CrossNeedsThreeDimensions => "Cross product is only between two vectors, both in 3 dimensions"@,
        TypeFault::NotANumber => "Expected a number, found a vector"@,
        TypeFault::NotAVector => "Expected a vector, found a number"@,
    }
}

impl TypeFault {
    pub fn message(&self) -> (r: &'static str)
        ensures
            r@ == fault_message(*self),
    {
        match self {
            TypeFault::AddMixed => "Can't add a scalar and a vector together",
            TypeFault::SubtractMixed => "Can't subtract a scalar and a vector",
            TypeFault::MultiplyVectors => "Can't multiply two vectors",
            TypeFault::DivideScalarByVector => "Can't divide a scalar by a vector",
            TypeFault::DivideVectorByVector => "Can't divide a vector by a vector",
            TypeFault::DotNeedsVectors => "Can only do a dot product on two vectors",
            TypeFault::CrossNeedsVectors => "Can only do a cross product on two vectors",
            TypeFault::CrossNeedsThreeDimensions =>
                "Cross product is only between two vectors, both in 3 dimensions",
            TypeFault::NotANumber => "Expected a number, found a vector",
            TypeFault::NotAVector => "Expected a vector, found a number",
        }
    }
}

impl ParseError {
    /// The spanned form of a type fault, for the expression between `start` and `end`.
    pub fn from_pair(fault: TypeFault, start: usize, end: usize) -> (r: ParseError)
        ensures
            r == (ParseError::InvalidExpr { fault, start, end }),
    {
        ParseError::InvalidExpr { fault, start, end }
    }
}

} // verus!
