//! References and expression trees of the formula language.
use vstd::prelude::*;
use crate::decimal::Decimal;
use crate::column::column_letters;
use crate::text::decimal_digits;

verus! {

/// A reference to one cell by column letters and row, as in `AB12`.
#[derive(Debug, Clone, PartialEq)]
pub struct CellReference {
    /// Column letters followed by the row number.
    pub hash: String,
    /// The column letters.
    pub column_name: String,
    /// The 1-based column index of `column_name`.
    pub column: usize,
    /// The 1-based row.
    pub row: usize,
}

/// A reference to the cell `n_rows` below the label cell named `label`.
#[derive(Debug, Clone, PartialEq)]
pub struct LabelReference {
    pub label: String,
    pub n_rows: usize,
}

/// A whole column, named by its letters.
#[derive(Debug, Clone, PartialEq)]
pub struct ColumnReference {
    pub name: String,
}

/// The canonical address of a cell: column letters, then the row in decimal.
pub open spec fn address_of(column: nat, row: nat) -> Seq<char> {
    column_letters(column) + decimal_digits(row)
}

impl CellReference {
    /// Whether the fields agree with one another: the letters name the column
    /// and the hash is the canonical address.
    pub open spec fn wf(&self) -> bool {
        &&& self.column_name@ == column_letters(self.column as nat)
        &&& self.hash@ == address_of(self.column as nat, self.row as nat)
    }
}

/// A parsed formula.
#[derive(Debug, PartialEq)]
pub enum Expression {
    Number(Decimal),
    String(String),
    CellReference(CellReference),
    LabelReference(LabelReference),
    ColumnReference(ColumnReference),
    Sum { args: Vec<Expression> },
    Difference { args: Vec<Expression> },
    Product { args: Vec<Expression> },
    Quotient { args: Vec<Expression> },
    Function { name: String, args: Vec<Expression> },
    Collection { expressions: Vec<Expression> },
}

} // verus!
