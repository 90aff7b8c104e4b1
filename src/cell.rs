//! One cell of a table: its position, address and source text.
use vstd::prelude::*;
use crate::column::{column_letters, column_index, all_capitals};
use crate::grammar::address_of;
use crate::text::{chars_of, string_from_chars, usize_text};

verus! {

/// Whether a source marks a label cell.
pub open spec fn is_label_source(s: Seq<char>) -> bool {
    s.len() > 0 && s[0] == '!'
}

/// A cell at `row`, `column` (both 1-based) with its source text.
#[derive(Debug, Clone)]
pub struct Cell {
    pub row: usize,
    pub column: usize,
    /// The canonical address, such as `B3`.
    pub hash: String,
    pub value: String,
}

impl Cell {
    /// The cell at `row`, `column` holding `value`.
    pub fn new(row: usize, column: usize, value: &str) -> (r: Cell)
        ensures
            r.row == row,
            r.column == column,
            r.value@ == value@,
            r.hash@ == address_of(column as nat, row as nat),
    {
        let mut hash = Self::column_name(column);
        hash.append(usize_text(row).as_str());
        Cell { row, column, hash, value: String::from_str(value) }
    }

    /// The label name of a label cell: its source without the `!`.
    pub fn label(&self) -> (r: Option<String>)
        ensures
            is_label_source(self.value@) <==> r is Some,
            r matches Some(l) ==> l@ == self.value@.drop_first(),
    {
        if self.is_label() {
            Some(source_tail(&self.value))
        } else {
            None
        }
    }

    /// The formula of a formula cell: its source without the `=`.
    pub fn formula(&self) -> (r: Option<String>)
        ensures
            crate::lexer::is_formula_source(self.value@) <==> r is Some,
            r matches Some(f) ==> f@ == self.value@.drop_first(),
    {
        if self.is_formula() {
            Some(source_tail(&self.value))
        } else {
            None
        }
    }

    /// The text this cell shows: its evaluated formula, or its source.
    pub fn result(&self, table: &crate::table::Table) -> (r: Result<String, crate::error::FormulaError>)
        requires
            table.wf(),
        ensures
            !crate::lexer::is_formula_source(self.value@) ==> (r matches Ok(t) && t@ == self.value@),
            r matches Ok(t) ==> crate::calculator::shown_text(*table, *self) == Some(t@),
            crate::calculator::shown_text(*table, *self) is Some ==> r is Ok,
    {
        if self.is_formula() {
            crate::calculator::Calculator::calculate(table, self)
        } else {
            Ok(self.value.clone())
        }
    }

    /// The letter name of a 1-based column index.
    pub fn column_name(column: usize) -> (r: String)
        ensures
            r@ == column_letters(column as nat),
    {
        crate::column::get_column_name(column)
    }

    /// The 1-based column index of a letter name.
    pub fn column_number(column: &str) -> (r: usize)
        requires
            all_capitals(column@),
            column_index(column@) <= usize::MAX,
        ensures
            r == column_index(column@),
    {
        crate::column::get_column_number(column)
    }

    fn is_label(&self) -> (r: bool)
        ensures
            r == is_label_source(self.value@),
    {
        let v = chars_of(self.value.as_str());
        v.len() > 0 && v[0] == '!'
    }

    fn is_formula(&self) -> (r: bool)
        ensures
            r == crate::lexer::is_formula_source(self.value@),
    {
        let v = chars_of(self.value.as_str());
        v.len() > 0 && v[0] == '='
    }
}

/// The source without its first character.
fn source_tail(s: &String) -> (r: String)
    requires
        s@.len() > 0,
    ensures
        r@ == s@.drop_first(),
{
    let v = chars_of(s.as_str());
    let mut tail: Vec<char> = Vec::new();
    let mut i: usize = 1;
    while i < v.len()
        invariant
            1 <= i <= v.len(),
            v@ == s@,
            tail@ == v@.subrange(1, i as int),
        decreases v.len() - i,
    {
        tail.push(v[i]);
        assert(v@.subrange(1, i + 1) =~= v@.subrange(1, i as int).push(v@[i as int]));
        i += 1;
    }
    assert(v@.subrange(1, v.len() as int) =~= v@.drop_first());
    string_from_chars(tail.as_slice())
}

} // verus!
