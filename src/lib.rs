//! A small spreadsheet engine: pipe-delimited tables whose cells hold
//! literal text or formulas, evaluated against the table they live in.
//!
//! Formulas go through three stages, each stated over views and proved:
//! `lexer` (against `lexspec`), `parser` (against `parsespec`) and
//! `evaluator` (against `evalspec`). Numbers are exact decimals (`decimal`):
//! sums, differences and products are exact, quotients are cut toward zero
//! at sixteen fraction digits, and results print in their shortest form
//! (`3`, `0.3`, `-2.25`). A result that leaves the range of the decimal
//! representation is an error. Text counts as a number when it is an optional
//! sign, digits with at most one point, and an optional exponent (`2.5e-3`);
//! other text counts as zero.

pub mod calculator;
pub mod cell;
pub mod column;
pub mod decimal;
pub mod error;
pub mod evalspec;
pub mod evaluator;
pub mod grammar;
pub mod lexer;
pub mod lexspec;
pub mod matches;
pub mod parser;
pub mod parsespec;
pub mod render;
pub mod table;
pub mod text;
pub mod value;

pub use column::{get_column_name, get_column_number};

pub use calculator::Calculator;
pub use cell::Cell;
pub use decimal::Decimal;
pub use error::{FilesystemError, FormulaError, SpreadsheetError};
pub use grammar::{CellReference, ColumnReference, Expression, LabelReference};
pub use lexer::{LexError, Lexer, Token};
pub use matches::find_matches;
pub use parser::{ParseError, Parser};
pub use table::{CellProvider, Table};
pub use value::Value;
