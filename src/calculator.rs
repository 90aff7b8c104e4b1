//! The result text of a cell's formula.
use vstd::prelude::*;
use crate::cell::Cell;
use crate::error::FormulaError;
use crate::evaluator::{context_of, evaluate, parse_source};
use crate::grammar::Expression;
use crate::lexer::is_formula_source;
use crate::lexspec::formula_tokens;
use crate::parsespec::parsed_expression;
use crate::table::Table;
use crate::text::trimmed;
use crate::value::{text_value, Value};
use crate::evaluator::{evaluates_as, Context};
use crate::evalspec::{divides_by_zero, eval_spec, lemma_text_view, source_expression, vtext};

verus! {

/// Computes the text that a cell shows.
pub struct Calculator;

/// The fuel for evaluating in `table`: one more than its number of cells.
pub open spec fn fuel_of(table: Table) -> nat {
    if table.cells@.len() < usize::MAX {
        (table.cells@.len() + 1) as nat
    } else {
        table.cells@.len() as nat
    }
}

/// The context of a cell's own formula.
pub open spec fn own_context(cell: Cell) -> Context {
    Context { row: cell.row, column: cell.column, copy_row: cell.row, increment: 0 }
}

/// The text that the formula (or trimmed literal) of `cell` evaluates to in
/// `table`, where evaluation succeeds.
pub open spec fn formula_text(table: Table, cell: Cell) -> Option<Seq<char>> {
    match source_expression(cell.value@, 0) {
        Some(e) => match eval_spec(table, own_context(cell), e, fuel_of(table)) {
            Some(v) => Some(vtext(v)),
            None => None,
        },
        None => None,
    }
}

/// The text that `cell` shows in `table`: its evaluated formula, or its source.
pub open spec fn shown_text(table: Table, cell: Cell) -> Option<Seq<char>> {
    if is_formula_source(cell.value@) {
        formula_text(table, cell)
    } else {
        Some(cell.value@)
    }
}

/// The fuel for evaluating in `table`: more than its number of cells.
pub fn fuel_for(table: &Table) -> (r: usize)
    ensures
        r >= table.cells@.len(),
        r as nat == fuel_of(*table),
{
    let n = table.len();
    if n < usize::MAX {
        n + 1
    } else {
        n
    }
}

impl Calculator {
    /// The text of the cell's value: the evaluated formula, or the trimmed
    /// source of a literal cell.
    pub fn calculate(table: &Table, cell: &Cell) -> (r: Result<String, FormulaError>)
        requires
            table.wf(),
        ensures
            !is_formula_source(cell.value@) ==> (r matches Ok(t) && t@ == trimmed(cell.value@)),
            is_formula_source(cell.value@) && formula_tokens(cell.value@) is None ==> r matches Err(
                FormulaError::Lex(_),
            ),
            is_formula_source(cell.value@) && (formula_tokens(cell.value@) matches Some(vs)
                && parsed_expression(vs) is None) ==> r matches Err(FormulaError::Parse(_)),
            r matches Ok(t) ==> formula_text(*table, *cell) == Some(t@),
            formula_text(*table, *cell) is Some ==> r is Ok,
            source_expression(cell.value@, 0) matches Some(e) && divides_by_zero(
                *table,
                own_context(*cell),
                e,
                fuel_of(*table),
            ) ==> r == Err::<String, FormulaError>(FormulaError::DivisionByZero),
    {
        let e = parse_source(cell.value.as_str(), 0)?;
        let v = evaluate(&e, table, context_of(cell), fuel_for(table))?;
        proof {
            lemma_text_view(v);
        }
        Ok(text_value(&v))
    }
}

impl Expression {
    /// Evaluates this expression as the formula of `cell` in `table`.
    pub fn evaluate(&self, table: &Table, cell: &Cell) -> (r: Result<Value, FormulaError>)
        requires
            table.wf(),
        ensures
            evaluates_as(*self, *table, own_context(*cell), fuel_of(*table) as usize, r),
    {
        evaluate(self, table, context_of(cell), fuel_for(table))
    }
}

} // verus!
