//! Error kinds raised while reading, solving and stepping equations.
use vstd::prelude::*;
use crate::text::{decimal, push_decimal, push_str, string_of};

verus! {

/// What went wrong in the grammar of an expression.
#[derive(Clone, Copy, Debug, PartialEq, Eq, Structural)]
pub enum Syntax {
    /// A numeric literal holds more than one decimal point.
    MalformedNumber,
    /// The input ended where an expression was expected.
    PrematureEnd,
    /// An implicit product `a(b` was not closed.
    UnclosedProduct,
    /// A `-` sign stands before something that is not an operand.
    MissingOperand,
    /// A parenthesised group `(a` was not closed.
    UnclosedGroup,
    /// A function call has an empty argument, such as `f(1,)`.
    MissingArgument,
    /// A function call's argument list was not closed.
    UnclosedArguments,
    /// Tokens follow a complete expression, such as a second `=`.
    TrailingInput,
}

#[derive(Clone, Debug, PartialEq)]
pub enum ErrorKind {
    UnsatisfiedVariable(String),
    UnsatisfiedFunction(String),
    WrongNumberOfArguments { name: String, expected: usize, found: usize },
    UnexpectedComparison,
    ExpectedComparison,
    RootFindingDepthExceeded,
    InvalidDimensions,
    InvalidToken(char),
    InvalidMathSyntax(Syntax),
}

#[derive(Clone, Debug, PartialEq)]
pub struct Error {
    pub kind: ErrorKind,
}

impl Error {
    pub fn new(kind: ErrorKind) -> (r: Error)
        ensures
            r.kind == kind,
    {
        Error { kind }
    }
}

/// The explanation given for each kind of syntax error.
pub open spec fn syntax_text(s: Syntax) -> Seq<char> {
    match s {
        Syntax::MalformedNumber => "Unable to convert number to float."@,
        Syntax::PrematureEnd => "Premature end of input"@,
        Syntax::UnclosedProduct => "Expected close param"@,
        Syntax::MissingOperand => "Expected expression after '-' sign."@,
        Syntax::UnclosedGroup => "No close param"@,
        Syntax::MissingArgument => "Expecting another parameter (at least 1 parameter, and 1 value after every comma is required)."@,
        Syntax::UnclosedArguments => "No close param."@,
        Syntax::TrailingInput => "Unexpected input after the end of the expression."@,
    }
}

/// The human-readable rendering of an error kind: what failed, the symbol at
/// fault, and a remedy where one applies.
pub open spec fn message_of(k: ErrorKind) -> Seq<char> {
    match k {
        ErrorKind::UnsatisfiedVariable(x) => "Unsatisfied variable: "@ + x@
            + ". Make sure you properly define all required variables for this computation"@,
        ErrorKind::UnsatisfiedFunction(x) => "Unsatisfied function: "@ + x@
            + ". This function is unknown, try defining it (eg. f(x)=5x)"@,
        ErrorKind::WrongNumberOfArguments { name, expected, found } => "Function "@ + name@
            + " takes "@ + decimal(expected as nat) + " arguments, but you provided "@
            + decimal(found as nat) + "."@,
        ErrorKind::UnexpectedComparison => "Unexpected equals sign!"@,
        ErrorKind::ExpectedComparison => "Expected an equals sign!"@,
        ErrorKind::RootFindingDepthExceeded =>
            "Math too complicated, failed to find roots of function fast enough."@,
        ErrorKind::InvalidDimensions => "This matrix is the wrong size."@,
        ErrorKind::InvalidToken(c) => "Invalid token '"@ + seq![c] + "', in your equation."@,
        ErrorKind::InvalidMathSyntax(s) => "Invalid math syntax: "@ + syntax_text(s),
    }
}

fn syntax_str(s: Syntax) -> (r: &'static str)
    ensures
        r@ == syntax_text(s),
{
    match s {
        Syntax::MalformedNumber => "Unable to convert number to float.",
        Syntax::PrematureEnd => "Premature end of input",
        Syntax::UnclosedProduct => "Expected close param",
        Syntax::MissingOperand => "Expected expression after '-' sign.",
        Syntax::UnclosedGroup => "No close param",
        Syntax::MissingArgument => "Expecting another parameter (at least 1 parameter, and 1 value after every comma is required).",
        Syntax::UnclosedArguments => "No close param.",
        Syntax::TrailingInput => "Unexpected input after the end of the expression.",
    }
}

impl ErrorKind {
    /// A copy of this error kind.
    pub fn duplicate(&self) -> (r: ErrorKind)
        ensures
            r == *self,
    {
        match self {
            ErrorKind::UnsatisfiedVariable(x) => ErrorKind::UnsatisfiedVariable(x.clone()),
            ErrorKind::UnsatisfiedFunction(x) => ErrorKind::UnsatisfiedFunction(x.clone()),
            ErrorKind::WrongNumberOfArguments { name, expected, found } =>
                ErrorKind::WrongNumberOfArguments { name: name.clone(), expected: *expected, found: *found },
            ErrorKind::UnexpectedComparison => ErrorKind::UnexpectedComparison,
            ErrorKind::ExpectedComparison => ErrorKind::ExpectedComparison,
            ErrorKind::RootFindingDepthExceeded => ErrorKind::RootFindingDepthExceeded,
            ErrorKind::InvalidDimensions => ErrorKind::InvalidDimensions,
            ErrorKind::InvalidToken(c) => ErrorKind::InvalidToken(*c),
            ErrorKind::InvalidMathSyntax(s) => ErrorKind::InvalidMathSyntax(*s),
        }
    }

    /// Renders this error for a person to read.
    pub fn message(&self) -> (r: String)
        ensures
            r@ == message_of(*self),
    {
        let mut out: Vec<char> = Vec::new();
        match self {
            ErrorKind::UnsatisfiedVariable(x) => {
                push_str(&mut out, "Unsatisfied variable: ");
                push_str(&mut out, x.as_str());
                push_str(&mut out, ". Make sure you properly define all required variables for this computation");
            },
            ErrorKind::UnsatisfiedFunction(x) => {
                push_str(&mut out, "Unsatisfied function: ");
                push_str(&mut out, x.as_str());
                push_str(&mut out, ". This function is unknown, try defining it (eg. f(x)=5x)");
            },
            ErrorKind::WrongNumberOfArguments { name, expected, found } => {
                push_str(&mut out, "Function ");
                push_str(&mut out, name.as_str());
                push_str(&mut out, " takes ");
                push_decimal(&mut out, *expected);
                push_str(&mut out, " arguments, but you provided ");
                push_decimal(&mut out, *found);
                push_str(&mut out, ".");
            },
            ErrorKind::UnexpectedComparison => {
                push_str(&mut out, "Unexpected equals sign!");
            },
            ErrorKind::ExpectedComparison => {
                push_str(&mut out, "Expected an equals sign!");
            },
            ErrorKind::RootFindingDepthExceeded => {
                push_str(&mut out, "Math too complicated, failed to find roots of function fast enough.");
            },
            ErrorKind::InvalidDimensions => {
                push_str(&mut out, "This matrix is the wrong size.");
            },
            ErrorKind::InvalidToken(c) => {
                push_str(&mut out, "Invalid token '");
                out.push(*c);
                push_str(&mut out, "', in your equation.");
            },
            ErrorKind::InvalidMathSyntax(s) => {
                push_str(&mut out, "Invalid math syntax: ");
                push_str(&mut out, syntax_str(*s));
            },
        }
        let r = string_of(&out);
        assert(r@ =~= message_of(*self));
        r
    }
}

} // verus!
