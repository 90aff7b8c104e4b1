//! Errors of loading a table and of evaluating a formula.
use vstd::prelude::*;
use crate::lexer::LexError;
use crate::parser::ParseError;
use crate::text::{decimal_digits, usize_text};
use crate::lexer::lex_error_text;
use crate::parser::parse_error_text;

verus! {

/// A file that could not be read.
#[derive(Debug, Clone, PartialEq)]
pub enum FilesystemError {
    FileNotFound { path: String },
}

impl FilesystemError {
    /// A sentence describing the error.
    pub fn message(&self) -> String {
        match self {
            FilesystemError::FileNotFound { path } => {
                let mut out = String::from_str("file not found: ");
                out.append(path.as_str());
                out
            },
        }
    }
}

/// A table whose rows do not all have the column count of its first row.
#[derive(Debug, Clone, PartialEq)]
pub enum SpreadsheetError {
    TooManyColumns { line: usize, expected: usize, found: usize },
    NotEnoughColumns { line: usize, expected: usize, found: usize },
}

/// The text of a column-count error.
pub open spec fn column_count_text(line: usize, expected: usize, found: usize) -> Seq<char> {
    "invalid column count on line "@ + decimal_digits(line as nat) + ". Expected "@
        + decimal_digits(expected as nat) + " but found "@ + decimal_digits(found as nat)
}

impl SpreadsheetError {
    /// A sentence naming the line, the expected and the found column counts.
    pub fn message(&self) -> (r: String)
        ensures
            r@ == match *self {
                SpreadsheetError::TooManyColumns { line, expected, found } => column_count_text(
                    line,
                    expected,
                    found,
                ),
                SpreadsheetError::NotEnoughColumns { line, expected, found } => column_count_text(
                    line,
                    expected,
                    found,
                ),
            },
    {
        let (line, expected, found) = match self {
            SpreadsheetError::TooManyColumns { line, expected, found } => (*line, *expected, *found),
            SpreadsheetError::NotEnoughColumns { line, expected, found } => (
                *line,
                *expected,
                *found,
            ),
        };
        let mut out = String::from_str("invalid column count on line ");
        out.append(usize_text(line).as_str());
        out.append(". Expected ");
        out.append(usize_text(expected).as_str());
        out.append(" but found ");
        out.append(usize_text(found).as_str());
        out
    }
}

/// Why a formula has no value.
#[derive(Debug, Clone, PartialEq)]
pub enum FormulaError {
    Lex(LexError),
    Parse(ParseError),
    /// No cell has this address.
    CellNotFound(String),
    /// No label cell has this name.
    LabelNotFound(String),
    /// A built-in function called with the wrong number of arguments.
    Arity(String),
    /// A built-in function that looks at the row above, used in the first row.
    FirstRow(String),
    /// A built-in function whose argument must be a column reference.
    NotAColumn(String),
    /// `^^` above a cell that holds no formula.
    NotAFormula,
    DivisionByZero,
    UnknownFunction(String),
    /// An expression that has no value of its own (a bare column reference).
    UnexpectedExpression,
    /// A number that leaves the range of the decimal representation.
    Overflow,
    /// Evaluations nested deeper than the fuel allows (a cycle always is).
    TooDeep,
}

/// The text of an evaluation error.
pub open spec fn formula_error_text(e: FormulaError) -> Seq<char> {
    match e {
        FormulaError::Lex(x) => lex_error_text(x),
        FormulaError::Parse(x) => parse_error_text(x),
        FormulaError::CellNotFound(h) => "cell not found: "@ + h@,
        FormulaError::LabelNotFound(h) => "label not found: "@ + h@,
        FormulaError::Arity(h) => "wrong number of arguments: "@ + h@,
        FormulaError::FirstRow(h) => "cannot be used in the first row: "@ + h@,
        FormulaError::NotAColumn(h) => "expected a column reference: "@ + h@,
        FormulaError::NotAFormula => "copy_and_increments_formula can only refer to cells with a formula"@,
        FormulaError::DivisionByZero => "division by zero"@,
        FormulaError::UnknownFunction(h) => "unknown function: "@ + h@,
        FormulaError::UnexpectedExpression => "unexpected expression"@,
        FormulaError::Overflow => "number out of range"@,
        FormulaError::TooDeep => "references nested too deep"@,
    }
}

impl FormulaError {
    /// A sentence describing the error.
    pub fn message(&self) -> (r: String)
        ensures
            r@ == formula_error_text(*self),
    {
        match self {
            FormulaError::Lex(e) => e.message(),
            FormulaError::Parse(e) => e.message(),
            FormulaError::CellNotFound(h) => prefixed("cell not found: ", h),
            FormulaError::LabelNotFound(h) => prefixed("label not found: ", h),
            FormulaError::Arity(h) => prefixed("wrong number of arguments: ", h),
            FormulaError::FirstRow(h) => prefixed("cannot be used in the first row: ", h),
            FormulaError::NotAColumn(h) => prefixed("expected a column reference: ", h),
            FormulaError::NotAFormula => String::from_str(
                "copy_and_increments_formula can only refer to cells with a formula",
            ),
            FormulaError::DivisionByZero => String::from_str("division by zero"),
            FormulaError::UnknownFunction(h) => prefixed("unknown function: ", h),
            FormulaError::UnexpectedExpression => String::from_str("unexpected expression"),
            FormulaError::Overflow => String::from_str("number out of range"),
            FormulaError::TooDeep => String::from_str("references nested too deep"),
        }
    }
}

/// `head` followed by `tail`.
pub(crate) fn prefixed(head: &str, tail: &String) -> (r: String)
    ensures
        r@ == head@ + tail@,
{
    let mut out = String::from_str(head);
    out.append(tail.as_str());
    out
}

} // verus!
