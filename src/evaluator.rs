//! Evaluation of expression trees against a table.
use vstd::prelude::*;
use crate::cell::Cell;
use crate::column::{all_capitals, checked_column_number, is_capital};
use crate::decimal::{div, Decimal};
use crate::error::FormulaError;
use crate::grammar::Expression;
use crate::lexer::{is_formula_source, Lexer};
use crate::lexspec::formula_tokens;
use crate::parsespec::{expr_view, parsed_expression};
use crate::evalspec::{
    divides_by_zero, has_zero_divisor, is_zero_number,
    CellSource, ValueView, as_member, as_text, cell_context, cell_source, eval_list, eval_spec,
    fold_numbers, last_filled, lemma_eval_list_prefix, lemma_flat_view, lemma_fold_prefix,
    lemma_last_label, lemma_members_prefix, lemma_no_label, lemma_text_view, member_view,
    named_column, piece_value, source_expression, split_members, split_spec, value_view,
    values_view,
};
use crate::parsespec::{args_view, lemma_args_view_index, lemma_args_view_len, ExprView};
use crate::parser::{is_text_expression, Parser};
use crate::table::Table;
use crate::text::{chars_are, chars_of, usize_text};
use crate::text::trimmed;
use crate::value::{
    compare_values, concat_values, is_split_result, is_text_value, split_of, split_text,
    sum_values, text_value, value_number, Value,
};

verus! {

/// Where a formula is evaluated: the cell's row and column, and for `^^` the
/// row whose upper neighbour it copies and the shift applied so far.
#[derive(Clone, Copy, Debug)]
pub struct Context {
    pub row: usize,
    pub column: usize,
    pub copy_row: usize,
    pub increment: usize,
}

/// A cell's source ready for evaluation.
enum Prepared {
    /// Literal text, the cell's result as it stands.
    Literal(String),
    /// A formula and the context of its cell.
    Formula(Expression, Context),
}

/// The context of a cell's own formula.
pub fn context_of(cell: &Cell) -> (r: Context)
    ensures
        r.row == cell.row,
        r.column == cell.column,
        r.copy_row == cell.row,
        r.increment == 0,
{
    Context { row: cell.row, column: cell.column, copy_row: cell.row, increment: 0 }
}

/// Whether `p` is the literal text `s`.
spec fn is_literal_of(p: Prepared, s: Seq<char>) -> bool {
    match p {
        Prepared::Literal(x) => x@ == s,
        _ => false,
    }
}

/// Whether `p` is what cell `i` of `t` holds for evaluation.
spec fn prepared_as(p: Prepared, t: Table, i: int) -> bool {
    let src = t.cells@[i].value@;
    match p {
        Prepared::Literal(x) => !is_formula_source(src) && x@ == src,
        Prepared::Formula(e, cc) => is_formula_source(src) && source_expression(src, 0) == Some(
            expr_view(e),
        ) && cc == cell_context(t, i),
    }
}

/// Lexes and parses a formula source.
pub fn parse_source(source: &str, increment: usize) -> (r: Result<Expression, FormulaError>)
    ensures
        !is_formula_source(source@) ==> (r matches Ok(e) && is_text_expression(
            e,
            crate::text::trimmed(source@),
        )),
        r matches Ok(e) ==> source_expression(source@, increment as nat) == Some(expr_view(e)),
        r is Ok <==> source_expression(source@, increment as nat) is Some,
        is_formula_source(source@) && increment == 0 ==> match formula_tokens(source@) {
            None => r matches Err(FormulaError::Lex(_)),
            Some(vs) => match parsed_expression(vs) {
                None => r matches Err(FormulaError::Parse(_)),
                Some(e) => r matches Ok(x) && expr_view(x) == e,
            },
        },
{
    reveal(source_expression);
    let tokens = match Lexer::tokenize_and_increment(source, increment) {
        Ok(t) => t,
        Err(e) => {
            return Err(FormulaError::Lex(e));
        },
    };
    match Parser::parse(tokens.as_slice()) {
        Ok(e) => Ok(e),
        Err(e) => Err(FormulaError::Parse(e)),
    }
}

fn starts_with_equals(s: &String) -> (r: bool)
    ensures
        r == is_formula_source(s@),
{
    let v = chars_of(s.as_str());
    v.len() > 0 && v[0] == '='
}

/// The source of the cell at index `i`, parsed if it is a formula.
fn prepare(table: &Table, i: usize) -> (r: Result<Prepared, FormulaError>)
    requires
        i < table.cells@.len(),
    ensures
        !is_formula_source(table.cells@[i as int].value@) ==> (r matches Ok(p) && is_literal_of(
            p,
            table.cells@[i as int].value@,
        )),
        r matches Ok(p) ==> prepared_as(p, *table, i as int),
        r is Err ==> is_formula_source(table.cells@[i as int].value@) && source_expression(
            table.cells@[i as int].value@,
            0,
        ) is None,
{
    let cell = table.cell_by_index(i);
    if !starts_with_equals(&cell.value) {
        return Ok(Prepared::Literal(cell.value.clone()));
    }
    let e = parse_source(cell.value.as_str(), 0)?;
    Ok(Prepared::Formula(e, context_of(cell)))
}

/// The address text of `column`, `row`.
fn address_text(column: usize, row: usize) -> String {
    let mut s = crate::column::get_column_name(column);
    s.append(usize_text(row).as_str());
    s
}

/// The column index named by `name`, if it is made of capital letters.
fn column_of(name: &String) -> (r: Option<usize>)
    ensures
        r matches Some(k) ==> named_column(name@) == Some(k as nat),
        r is None ==> named_column(name@) is None,
{
    let v = chars_of(name.as_str());
    let mut i: usize = 0;
    while i < v.len()
        invariant
            i <= v@.len(),
            v@ == name@,
            forall|j: int| 0 <= j < i ==> is_capital(#[trigger] v@[j]),
        decreases v@.len() - i,
    {
        if !('A' <= v[i] && v[i] <= 'Z') {
            assert(!is_capital(v@[i as int]));
            return None;
        }
        i += 1;
    }
    if v.len() == 0 {
        return None;
    }
    assert(all_capitals(v@));
    checked_column_number(v.as_slice())
}

fn name_text(name: &str) -> String {
    String::from_str(name)
}

/// What `evaluate` promises of its result `r` for `expr`: it succeeds exactly
/// where `eval_spec` gives a value, and then gives that value; for the cases
/// below it also says which value or which error comes.
pub open spec fn evaluates_as(
    expr: Expression,
    table: Table,
    ctx: Context,
    fuel: usize,
    r: Result<Value, FormulaError>,
) -> bool {
    &&& (r matches Ok(v) ==> eval_spec(table, ctx, expr_view(expr), fuel as nat) == Some(
        value_view(v),
    ))
    &&& (r is Err ==> eval_spec(table, ctx, expr_view(expr), fuel as nat) is None)
    &&& (divides_by_zero(table, ctx, expr_view(expr), fuel as nat) ==> r == Err::<Value, FormulaError>(
        FormulaError::DivisionByZero,
    ))
    &&& (expr is String ==> (r matches Ok(v) && is_text_value(v, text_of_expression(expr))))
    &&& (expr is Number ==> (r matches Ok(v) && v == Value::Number(number_of_expression(expr))))
    &&& ((expr is Sum || expr is Difference || expr is Product || expr is Quotient) ==> (r matches Ok(
        v,
    ) ==> v is Number))
    &&& (expr is ColumnReference ==> r == Err::<Value, FormulaError>(FormulaError::UnexpectedExpression))
    &&& (refers_outside(table, expr) ==> r matches Err(FormulaError::CellNotFound(_)))
    &&& (forall|s: Seq<char>| #[trigger] refers_to_literal(table, expr, s) ==> (r matches Ok(v)
        && is_text_value(v, s)))
    &&& (expr is Function && !is_builtin(function_name(expr)) ==> r matches Err(
        FormulaError::UnknownFunction(_),
    ))
    &&& (calls(expr, "sum"@) && function_arity(expr) == 0 ==> r == Ok::<Value, FormulaError>(
        Value::Number(Decimal { mantissa: 0, scale: 0 }),
    ))
    &&& (calls(expr, "concat"@) && function_arity(expr) == 0 ==> (r matches Ok(v) && is_text_value(
        v,
        Seq::empty(),
    )))
    &&& (calls(expr, "copy_and_increments_formula"@) && function_arity(expr) != 0 ==> r matches Err(
        FormulaError::Arity(_),
    ))
    &&& (calls(expr, "copy_and_increments_formula"@) && function_arity(expr) == 0 && ctx.copy_row
        <= 1 ==> r matches Err(FormulaError::FirstRow(_)))
    &&& (calls(expr, "split"@) ==> (r matches Ok(v) ==> exists|s: Seq<char>, d: Seq<char>|
        is_split_result(v, s, d)))
}

/// The text of a string literal (empty for other expressions).
pub open spec fn text_of_expression(e: Expression) -> Seq<char> {
    match e {
        Expression::String(s) => s@,
        _ => Seq::empty(),
    }
}

/// The number of a number literal (zero for other expressions).
pub open spec fn number_of_expression(e: Expression) -> Decimal {
    match e {
        Expression::Number(d) => d,
        _ => Decimal { mantissa: 0, scale: 0 },
    }
}

/// A piece of a split text: literal text, or a formula to evaluate.
pub enum Piece {
    Text(String),
    Formula(Expression),
}

/// Whether `p` is what the piece `part` of a split text becomes: its trimmed
/// text, or for a formula its expression.
pub open spec fn is_piece_of(p: Piece, part: Seq<char>) -> bool {
    if is_formula_source(part) {
        match p {
            Piece::Formula(e) => source_expression(part, 0) == Some(expr_view(e)),
            _ => false,
        }
    } else {
        match p {
            Piece::Text(t) => t@ == trimmed(part),
            _ => false,
        }
    }
}

/// The pieces of `s` between occurrences of `d`, each lexed and parsed.
pub fn split_pieces(s: &String, d: &String) -> (r: Result<Vec<Piece>, FormulaError>)
    ensures
        r matches Ok(ps) ==> ps@.len() == split_of(s@, d@).len() && forall|i: int|
            0 <= i < ps@.len() ==> is_piece_of(#[trigger] ps@[i], split_of(s@, d@)[i]),
        (forall|i: int| 0 <= i < split_of(s@, d@).len() ==> !is_formula_source(
            #[trigger] split_of(s@, d@)[i],
        )) ==> r is Ok,
        r is Err ==> exists|i: int| 0 <= i < split_of(s@, d@).len() && is_formula_source(
            #[trigger] split_of(s@, d@)[i],
        ) && source_expression(split_of(s@, d@)[i], 0) is None,
{
    let parts = split_text(s.as_str(), d.as_str());
    let mut pieces: Vec<Piece> = Vec::new();
    let mut k: usize = 0;
    while k < parts.len()
        invariant
            k <= parts@.len() == split_of(s@, d@).len(),
            forall|j: int| 0 <= j < parts@.len() ==> (#[trigger] parts@[j])@ == split_of(s@, d@)[j],
            pieces@.len() == k,
            forall|j: int| 0 <= j < k ==> is_piece_of(#[trigger] pieces@[j], split_of(s@, d@)[j]),
        decreases parts@.len() - k,
    {
        assert(parts@[k as int]@ == split_of(s@, d@)[k as int]);
        let formula = starts_with_equals(&parts[k]);
        let e = parse_source(parts[k].as_str(), 0)?;
        let p = if formula {
            Piece::Formula(e)
        } else {
            match e {
                Expression::String(t) => Piece::Text(t),
                other => Piece::Formula(other),
            }
        };
        proof {
            if !is_formula_source(split_of(s@, d@)[k as int]) {
                assert(is_piece_of(p, split_of(s@, d@)[k as int]));
            }
        }
        pieces.push(p);
        k += 1;
    }
    Ok(pieces)
}

/// The arguments of a function call, viewed.
pub open spec fn function_args_view(e: Expression) -> Seq<ExprView> {
    match e {
        Expression::Function { args, .. } => args_view(args@),
        _ => Seq::empty(),
    }
}

/// The name of a function call (empty for other expressions).
pub open spec fn function_name(e: Expression) -> Seq<char> {
    match e {
        Expression::Function { name, .. } => name@,
        _ => Seq::empty(),
    }
}

/// The number of arguments of a function call.
pub open spec fn function_arity(e: Expression) -> int {
    match e {
        Expression::Function { args, .. } => args@.len() as int,
        _ => -1,
    }
}

/// Whether `e` calls the built-in function `n`.
pub open spec fn calls(e: Expression, n: Seq<char>) -> bool {
    e is Function && function_name(e) == n
}

/// The names of the built-in functions.
pub open spec fn is_builtin(n: Seq<char>) -> bool {
    n == "sum"@ || n == "split"@ || n == "gte"@ || n == "lte"@ || n == "text"@ || n == "concat"@
        || n == "incfrom"@ || n == "copy_above_result"@ || n == "copy_last_result"@
        || n == "copy_and_increments_formula"@
}

/// Whether `e` calls the built-in `n` with `arity` arguments, past the
/// checks that come first in dispatch.
pub open spec fn dispatching(e: Expression, n: Seq<char>, arity: int) -> bool {
    &&& e is Function
    &&& function_name(e) == n
    &&& function_arity(e) == arity
    &&& is_builtin(n)
    &&& !(n == "sum"@ && arity == 0)
    &&& !(n == "concat"@ && arity == 0)
    &&& n != "copy_and_increments_formula"@
}

/// Whether `e` refers to a cell outside the table.
pub open spec fn refers_outside(table: Table, e: Expression) -> bool {
    match e {
        Expression::CellReference(c) => !table.contains(c.row as int, c.column as int),
        _ => false,
    }
}

/// Whether `e` refers to a cell of the table whose source is literal text `s`.
pub open spec fn refers_to_literal(table: Table, e: Expression, s: Seq<char>) -> bool {
    match e {
        Expression::CellReference(c) => {
            &&& table.contains(c.row as int, c.column as int)
            &&& table.cells@[table.index_of(c.row as int, c.column as int)].value@ == s
            &&& !is_formula_source(s)
        },
        _ => false,
    }
}

/// The result that `copy_above_result` (`above`) or `copy_last_result` gives
/// for `column`.
fn copy_result(
    expr: &Expression,
    table: &Table,
    ctx: Context,
    fuel: usize,
    above: bool,
    column: usize,
) -> (r: Result<Value, FormulaError>)
    requires
        table.wf(),
        above ==> ctx.row > 1,
        column >= 1,
    ensures
        r is Ok ==> !(!above && table.num_rows > 0 && column > table.num_columns),
        r is Err ==> (!above && table.num_rows > 0 && column > table.num_columns) || match (if above {
            Some(ctx.row - 1)
        } else {
            last_filled(*table, column as int, table.num_rows as int)
        }) {
            Some(row) => match cell_source(*table, row, column as int) {
                CellSource::Literal(_) => false,
                CellSource::Formula(x, cc) => fuel == 0 || eval_spec(
                    *table,
                    cc,
                    x,
                    (fuel - 1) as nat,
                ) is None,
                CellSource::Unusable => true,
            },
            None => false,
        },
        r matches Ok(v) ==> match (if above {
            Some(ctx.row - 1)
        } else {
            last_filled(*table, column as int, table.num_rows as int)
        }) {
            Some(row) => match cell_source(*table, row, column as int) {
                CellSource::Literal(s) => value_view(v) == ValueView::Text(s),
                CellSource::Formula(x, cc) => fuel > 0 && as_text(
                    eval_spec(*table, cc, x, (fuel - 1) as nat),
                ) == Some(value_view(v)),
                CellSource::Unusable => false,
            },
            None => value_view(v) == ValueView::Text(Seq::empty()),
        },
    decreases fuel, ctx.copy_row, expr, 0nat,
{
    reveal(last_filled);
    let ghost target: Option<int> = if above {
        Some(ctx.row - 1)
    } else {
        last_filled(*table, column as int, table.num_rows as int)
    };
    let mut row = if above {
        ctx.row - 1
    } else {
        table.num_rows
    };
    while row > 0
        invariant
            table.wf(),
            above ==> ctx.row > 1 && row == ctx.row - 1,
            target == (if above {
                Some(ctx.row - 1)
            } else {
                last_filled(*table, column as int, table.num_rows as int)
            }),
            !above ==> target == last_filled(*table, column as int, row as int),
            !above && column > table.num_columns ==> row == table.num_rows,
            !above ==> row <= table.num_rows,
            column >= 1,
        decreases row,
    {
        reveal(last_filled);
        let i = match table.position(row, column) {
            Some(i) => i,
            None => {
                return Err(FormulaError::CellNotFound(address_text(column, row)));
            },
        };
        let empty = chars_of(table.cell_by_index(i).value.as_str()).len() == 0;
        if above || !empty {
            assert(target == Some(row as int));
            let p = prepare(table, i)?;
            return match p {
                Prepared::Literal(s) => Ok(Value::String(s)),
                Prepared::Formula(e, cc) => {
                    if fuel == 0 {
                        return Err(FormulaError::TooDeep);
                    }
                    let v = evaluate(&e, table, cc, fuel - 1)?;
                    proof {
                        lemma_text_view(v);
                    }
                    Ok(Value::String(text_value(&v)))
                },
            };
        }
        row -= 1;
    }
    Ok(Value::String(String::new()))
}

/// Evaluates the arguments `args` of `expr` in turn.
fn eval_args(
    expr: &Expression,
    args: &Vec<Expression>,
    table: &Table,
    ctx: Context,
    fuel: usize,
) -> (r: Result<Vec<Value>, FormulaError>)
    requires
        table.wf(),
        decreases_to!(*expr => *args),
    ensures
        r matches Ok(vs) ==> eval_list(*table, ctx, args_view(args@), fuel as nat) == Some(
            values_view(vs@),
        ),
        r is Err ==> eval_list(*table, ctx, args_view(args@), fuel as nat) is None,
    decreases fuel, ctx.copy_row, expr, 0nat,
{
    let mut values: Vec<Value> = Vec::new();
    let mut i: usize = 0;
    proof {
        lemma_args_view_len(args@);
        assert(args_view(args@).subrange(0, 0) =~= Seq::<ExprView>::empty());
        assert(values_view(values@) =~= Seq::<ValueView>::empty());
    }
    while i < args.len()
        invariant
            decreases_to!(*expr => *args),
            table.wf(),
            i <= args@.len(),
            args_view(args@).len() == args@.len(),
            eval_list(*table, ctx, args_view(args@).subrange(0, i as int), fuel as nat) == Some(
                values_view(values@),
            ),
        decreases args@.len() - i,
    {
        proof {
            assert(decreases_to!(*args => args[i as int]));
            assert(decreases_to!(*expr => args[i as int]));
        }
        proof {
            let es = args_view(args@);
            lemma_args_view_index(args@, i as int);
            assert(es.subrange(0, i + 1).subrange(0, i as int) =~= es.subrange(0, i as int));
            assert(es.subrange(0, i + 1)[i as int] == es[i as int]);
            assert(es.subrange(0, args@.len() as int) =~= es);
        }
        let v = match evaluate(&args[i], table, ctx, fuel) {
            Ok(v) => v,
            Err(e) => {
                proof {
                    lemma_eval_list_prefix(*table, ctx, args_view(args@), fuel as nat, i + 1, args@.len() as int);
                }
                return Err(e);
            },
        };
        proof {
            let es = args_view(args@);
            lemma_args_view_index(args@, i as int);
            assert(es.subrange(0, i + 1).subrange(0, i as int) =~= es.subrange(0, i as int));
            assert(es.subrange(0, i + 1).len() == i + 1);
            assert(es.subrange(0, i + 1)[i as int] == es[i as int]);
            assert(values_view(values@.push(v)) =~= values_view(values@).push(value_view(v)));
        }
        values.push(v);
        i += 1;
    }
    assert(args_view(args@).subrange(0, args@.len() as int) =~= args_view(args@));
    Ok(values)
}

/// An arithmetic operator folded over the numbers of `values` from the left
/// (`op`: 0 subtracts, 1 multiplies, 2 divides).
fn fold_values(op: u8, values: &Vec<Value>) -> (r: Result<Decimal, FormulaError>)
    requires
        op <= 2,
    ensures
        r matches Ok(d) ==> values@.len() > 0 && fold_numbers(op as int, values_view(values@))
            == Some(d),
        r is Err ==> values@.len() == 0 || fold_numbers(op as int, values_view(values@)) is None,
        op == 2 && has_zero_divisor(values_view(values@)) ==> r == Err::<Decimal, FormulaError>(
            FormulaError::DivisionByZero,
        ),
{
    if values.len() == 0 {
        return Err(FormulaError::Arity(name_text("operator")));
    }
    let ghost vs = values_view(values@);
    proof {
        lemma_text_view(values@[0]);
        assert(vs.subrange(0, 1).len() == 1);
        assert(vs.subrange(0, 1)[0] == value_view(values@[0]));
        assert(vs.subrange(0, values@.len() as int) =~= vs);
    }
    let mut acc = match value_number(&values[0]) {
        Ok(a) => a,
        Err(e) => {
            proof {
                lemma_fold_prefix(op as int, vs, 1, values@.len() as int);
                assert forall|k: int| 1 <= k < vs.len() implies fold_numbers(
                    op as int,
                    vs.subrange(0, k),
                ) is None by {
                    lemma_fold_prefix(op as int, vs, 1, k);
                }
            }
            return Err(e);
        },
    };
    let mut i: usize = 1;
    while i < values.len()
        invariant
            op <= 2,
            1 <= i <= values@.len(),
            vs == values_view(values@),
            fold_numbers(op as int, vs.subrange(0, i as int)) == Some(acc),
            op == 2 ==> forall|k: int| 1 <= k < i ==> !is_zero_number(#[trigger] vs[k]),
        decreases values@.len() - i,
    {
        proof {
            lemma_text_view(values@[i as int]);
            assert(vs.subrange(0, i + 1).drop_last() =~= vs.subrange(0, i as int));
            assert(vs.subrange(0, i + 1).last() == value_view(values@[i as int]));
            assert(vs.subrange(0, values@.len() as int) =~= vs);
        }
        let x = match value_number(&values[i]) {
            Ok(x) => x,
            Err(e) => {
                proof {
                    lemma_fold_prefix(op as int, vs, i + 1, values@.len() as int);
                    assert forall|k: int| i < k < vs.len() implies fold_numbers(
                        op as int,
                        vs.subrange(0, k),
                    ) is None by {
                        lemma_fold_prefix(op as int, vs, i + 1, k);
                    }
                    assert(!is_zero_number(vs[i as int]));
                }
                return Err(e);
            },
        };
        let next = if op == 0 {
            crate::decimal::sub(acc, x)
        } else if op == 1 {
            crate::decimal::mul(acc, x)
        } else {
            if x.mantissa == 0 {
                proof {
                    lemma_fold_prefix(op as int, vs, i + 1, values@.len() as int);
                }
                return Err(FormulaError::DivisionByZero);
            }
            div(acc, x)
        };
        proof {
            assert(vs[i as int] == value_view(values@[i as int]));
            assert(op == 2 ==> !is_zero_number(vs[i as int]));
        }
        acc = match next {
            Some(a) => a,
            None => {
                proof {
                    lemma_fold_prefix(op as int, vs, i + 1, values@.len() as int);
                    assert forall|k: int| i < k < vs.len() implies fold_numbers(
                        op as int,
                        vs.subrange(0, k),
                    ) is None by {
                        lemma_fold_prefix(op as int, vs, i + 1, k);
                    }
                    assert(vs[i as int] == value_view(values@[i as int]));
                    assert(op == 2 ==> !is_zero_number(vs[i as int]));
                }
                return Err(FormulaError::Overflow);
            },
        };
        i += 1;
    }
    assert(vs.subrange(0, values@.len() as int) =~= vs);
    Ok(acc)
}

/// Evaluates `expr` in the context `ctx`. `fuel` bounds the nesting of
/// evaluations: each reference to a formula cell, and each formula piece of a
/// `split`, uses one unit, and running out is the error `TooDeep`. A cycle of
/// references always runs out.
#[verifier::rlimit(100)]
pub fn evaluate(expr: &Expression, table: &Table, ctx: Context, fuel: usize) -> (r: Result<
    Value,
    FormulaError,
>)
    requires
        table.wf(),
    ensures
        evaluates_as(*expr, *table, ctx, fuel, r),
    decreases fuel, ctx.copy_row, expr, 3nat,
{
    match expr {
        Expression::Number(d) => Ok(Value::Number(*d)),
        Expression::String(s) => Ok(Value::String(s.clone())),
        Expression::CellReference(c) => {
            let i = match table.position(c.row, c.column) {
                Some(i) => i,
                None => {
                    return Err(FormulaError::CellNotFound(c.hash.clone()));
                },
            };
            let p = prepare(table, i)?;
            proof {
                assert(expr_view(*expr) == ExprView::Cell(c.column as nat, c.row as nat));
                assert(table.contains(c.row as int, c.column as int));
            }
            match p {
                Prepared::Literal(s) => Ok(Value::String(s)),
                Prepared::Formula(e, cc) => {
                    if fuel == 0 {
                        return Err(FormulaError::TooDeep);
                    }
                    let v = evaluate(&e, table, cc, fuel - 1)?;
                    proof {
                        lemma_text_view(v);
                    }
                    Ok(Value::String(text_value(&v)))
                },
            }
        },
        Expression::LabelReference(l) => {
            let name = chars_of(l.label.as_str());
            let k = match table.label_position(&name) {
                Some(k) => k,
                None => {
                    proof {
                        lemma_no_label(*table, l.label@, table.cells@.len() as int);
                    }
                    return Err(FormulaError::LabelNotFound(l.label.clone()));
                },
            };
            proof {
                lemma_last_label(*table, l.label@, k as int, table.cells@.len() as int);
            }
            let label_cell = table.cell_by_index(k);
            let target = match label_cell.row.checked_add(l.n_rows) {
                Some(t) => if t > table.num_rows {
                    table.num_rows
                } else {
                    t
                },
                None => table.num_rows,
            };
            let i = match table.position(target, label_cell.column) {
                Some(i) => i,
                None => {
                    return Err(
                        FormulaError::CellNotFound(address_text(label_cell.column, target)),
                    );
                },
            };
            let p = prepare(table, i)?;
            proof {
                lemma_last_label(*table, l.label@, k as int, table.cells@.len() as int);
                assert(expr_view(*expr) == ExprView::Label(l.label@, l.n_rows as nat));
                assert(table.contains(target as int, label_cell.column as int));
            }
            match p {
                Prepared::Literal(s) => Ok(Value::String(s)),
                Prepared::Formula(e, cc) => {
                    if fuel == 0 {
                        return Err(FormulaError::TooDeep);
                    }
                    let v = evaluate(&e, table, cc, fuel - 1)?;
                    proof {
                        lemma_text_view(v);
                    }
                    Ok(Value::String(text_value(&v)))
                },
            }
        },
        Expression::ColumnReference(_) => Err(FormulaError::UnexpectedExpression),
        Expression::Collection { expressions } => {
            assert(decreases_to!(*expr => *expressions));
            let values = eval_args(expr, expressions, table, ctx, fuel)?;
            let mut members: Vec<Value> = Vec::new();
            let mut i: usize = 0;
            while i < values.len()
                invariant
                    i <= values@.len(),
                    members@.len() == i,
                    forall|j: int| 0 <= j < i ==> member_view(#[trigger] members@[j]) == as_member(
                        value_view(values@[j]),
                    ),
                decreases values@.len() - i,
            {
                let v = &values[i];
                let m = match v {
                    Value::Collection(_) => Value::String(text_value(v)),
                    Value::Number(d) => Value::Number(*d),
                    Value::String(t) => Value::String(t.clone()),
                };
                proof {
                    lemma_text_view(*v);
                }
                members.push(m);
                i += 1;
            }
            proof {
                let vs = values_view(values@);
                assert(members@.map_values(|x: Value| member_view(x)) =~= vs.map_values(
                    |v: ValueView| as_member(v),
                ));
            }
            Ok(Value::Collection(members))
        },
        Expression::Sum { args } => {
            assert(decreases_to!(*expr => *args));
            let values = eval_args(expr, args, table, ctx, fuel)?;
            proof {
                lemma_flat_view(values@);
            }
            Ok(Value::Number(sum_values(&values)?))
        },
        Expression::Difference { args } | Expression::Product { args } | Expression::Quotient {
            args,
        } => {
            assert(decreases_to!(*expr => *args));
            let values = eval_args(expr, args, table, ctx, fuel)?;
            let op: u8 = match expr {
                Expression::Difference { .. } => 0,
                Expression::Product { .. } => 1,
                _ => 2,
            };
            let d = fold_values(op, &values)?;
            Ok(Value::Number(d))
        },
        Expression::Function { .. } => eval_function(expr, table, ctx, fuel),
    }
}

/// Evaluates a call of a built-in function.
#[verifier::rlimit(100)]
fn eval_function(expr: &Expression, table: &Table, ctx: Context, fuel: usize) -> (r: Result<
    Value,
    FormulaError,
>)
    requires
        table.wf(),
        expr is Function,
    ensures
        evaluates_as(*expr, *table, ctx, fuel, r),
    decreases fuel, ctx.copy_row, expr, 2nat,
{
    let (name, args) = match expr {
        Expression::Function { name, args } => (name, args),
        _ => {
            return Err(FormulaError::UnexpectedExpression);
        },
    };
    let ghost av = args_view(args@);
    proof {
        lemma_args_view_len(args@);
        assert(expr_view(*expr) == ExprView::Function(name@, av));
    }
    let n = chars_of(name.as_str());
    if !(chars_are(&n, "sum") || chars_are(&n, "split") || chars_are(&n, "gte") || chars_are(
        &n,
        "lte",
    ) || chars_are(&n, "text") || chars_are(&n, "concat") || chars_are(&n, "incfrom")
        || chars_are(&n, "copy_above_result") || chars_are(&n, "copy_last_result")
        || chars_are(&n, "copy_and_increments_formula")) {
        return Err(FormulaError::UnknownFunction(name.clone()));
    }
    if args.len() == 0 && chars_are(&n, "sum") {
        proof {
            reveal_strlit("sum");
            reveal_strlit("concat");
            reveal_strlit("copy_and_increments_formula");
            reveal_strlit("split");
            assert("sum"@.len() != "concat"@.len());
            assert("sum"@.len() != "copy_and_increments_formula"@.len());
            assert("sum"@.len() != "split"@.len());
        }
        let z = Decimal::zero();
        assert(z == Decimal { mantissa: 0, scale: 0 });
        return Ok(Value::Number(z));
    }
    if args.len() == 0 && chars_are(&n, "concat") {
        proof {
            reveal_strlit("concat");
            reveal_strlit("copy_and_increments_formula");
            reveal_strlit("split");
            assert("concat"@.len() != "copy_and_increments_formula"@.len());
            assert("concat"@.len() != "split"@.len());
        }
        let t = String::new();
        assert(t@ =~= Seq::<char>::empty());
        return Ok(Value::String(t));
    }
    if chars_are(&n, "copy_and_increments_formula") {
        proof {
            reveal_strlit("split");
            reveal_strlit("copy_and_increments_formula");
            assert("split"@.len() != "copy_and_increments_formula"@.len());
        }
        if args.len() != 0 {
            return Err(FormulaError::Arity(name.clone()));
        }
        if ctx.copy_row <= 1 {
            return Err(FormulaError::FirstRow(name.clone()));
        }
        let i = match table.position(ctx.copy_row - 1, ctx.column) {
            Some(i) => i,
            None => {
                return Err(FormulaError::CellNotFound(address_text(ctx.column, ctx.copy_row - 1)));
            },
        };
        let source = &table.cell_by_index(i).value;
        if !starts_with_equals(source) {
            return Err(FormulaError::NotAFormula);
        }
        let increment = match ctx.increment.checked_add(1) {
            Some(k) => k,
            None => {
                return Err(FormulaError::Overflow);
            },
        };
        let e = parse_source(source.as_str(), increment)?;
        let cc = Context { row: ctx.row, column: ctx.column, copy_row: ctx.copy_row - 1, increment };
        return evaluate(&e, table, cc, fuel);
    }
    if chars_are(&n, "copy_above_result") || chars_are(&n, "copy_last_result") {
        let above = chars_are(&n, "copy_above_result");
        proof {
            reveal_strlit("split");
            reveal_strlit("copy_above_result");
            reveal_strlit("copy_last_result");
            assert("split"@.len() != "copy_above_result"@.len());
            assert("split"@.len() != "copy_last_result"@.len());
        }
        if args.len() != 1 {
            return Err(FormulaError::Arity(name.clone()));
        }
        if above && ctx.row <= 1 {
            return Err(FormulaError::FirstRow(name.clone()));
        }
        proof {
            lemma_args_view_index(args@, 0);
        }
        let column = match &args[0] {
            Expression::ColumnReference(c) => match column_of(&c.name) {
                Some(k) => k,
                None => {
                    return Err(FormulaError::CellNotFound(c.name.clone()));
                },
            },
            _ => {
                return Err(FormulaError::NotAColumn(name.clone()));
            },
        };
        proof {
            lemma_args_view_index(args@, 0);
        }
        return copy_result(expr, table, ctx, fuel, above, column);
    }
    assert(decreases_to!(*expr => *args));
    let values = eval_args(expr, args, table, ctx, fuel)?;
    apply_to_values(expr, name, &n, values, table, ctx, fuel)
}

/// Applies the built-in function of `expr` to its evaluated arguments.
#[verifier::rlimit(100)]
fn apply_to_values(
    expr: &Expression,
    name: &String,
    n: &Vec<char>,
    values: Vec<Value>,
    table: &Table,
    ctx: Context,
    fuel: usize,
) -> (r: Result<Value, FormulaError>)
    requires
        table.wf(),
        n@ == name@,
        expr_view(*expr) == ExprView::Function(name@, function_args_view(*expr)),
        dispatching(*expr, n@, function_arity(*expr)),
        function_args_view(*expr).len() == function_arity(*expr),
        name@ != "copy_above_result"@ && name@ != "copy_last_result"@,
        eval_list(*table, ctx, function_args_view(*expr), fuel as nat) == Some(
            values_view(values@),
        ),
    ensures
        evaluates_as(*expr, *table, ctx, fuel, r),
    decreases fuel, ctx.copy_row, expr, 1nat,
{
    let ghost args = function_args_view(*expr);
    let ghost vs = values_view(values@);
    proof {
        lemma_flat_view(values@);
        assert(vs.len() == values@.len());
        if values@.len() > 0 {
            lemma_text_view(values@[0]);
            assert(vs[0] == value_view(values@[0]));
        }
        if values@.len() > 1 {
            lemma_text_view(values@[1]);
            assert(vs[1] == value_view(values@[1]));
        }
    }
    if chars_are(n, "split") {
        if values.len() != 2 {
            return Err(FormulaError::Arity(name.clone()));
        }
        let s = text_value(&values[0]);
        let d = text_value(&values[1]);
        let r = split_values(expr, &s, &d, table, ctx, fuel)?;
        proof {
            lemma_text_view(values@[0]);
            lemma_text_view(values@[1]);
        }
        Ok(r)
    } else if chars_are(n, "sum") {
        Ok(Value::Number(sum_values(&values)?))
    } else if chars_are(n, "concat") {
        Ok(Value::String(concat_values(&values)))
    } else if chars_are(n, "gte") || chars_are(n, "lte") {
        if values.len() != 2 {
            return Err(FormulaError::Arity(name.clone()));
        }
        let t = compare_values(&values[0], &values[1], chars_are(n, "gte"))?;
        Ok(Value::String(t))
    } else if chars_are(n, "text") {
        if values.len() != 1 {
            return Err(FormulaError::Arity(name.clone()));
        }
        Ok(Value::String(text_value(&values[0])))
    } else if chars_are(n, "incfrom") {
        if values.len() != 1 {
            return Err(FormulaError::Arity(name.clone()));
        }
        Ok(Value::Number(value_number(&values[0])?))
    } else {
        Err(FormulaError::UnknownFunction(name.clone()))
    }
}

/// The members that `split` gives for the text `s` and the separator `d`.
#[verifier::rlimit(100)]
fn split_values(
    expr: &Expression,
    s: &String,
    d: &String,
    table: &Table,
    ctx: Context,
    fuel: usize,
) -> (r: Result<Value, FormulaError>)
    requires
        table.wf(),
    ensures
        r matches Ok(v) ==> is_split_result(v, s@, d@) && split_spec(
            *table,
            ctx,
            split_of(s@, d@),
            fuel as nat,
        ) == Some(value_view(v)),
        r is Err ==> split_spec(*table, ctx, split_of(s@, d@), fuel as nat) is None,
    decreases fuel, ctx.copy_row, expr, 0nat,
{
    let pieces = match split_pieces(&s, &d) {
        Ok(p) => p,
        Err(e) => {
            proof {
                let parts = split_of(s@, d@);
                let j = choose|j: int| 0 <= j < parts.len() && is_formula_source(
                    #[trigger] parts[j],
                ) && source_expression(parts[j], 0) is None;
                if fuel > 0 {
                    assert(piece_value(*table, ctx, parts[j], (fuel - 1) as nat) is None);
                    assert(split_members(*table, ctx, parts, (fuel - 1) as nat, j + 1) is None);
                    lemma_members_prefix(*table, ctx, parts, (fuel - 1) as nat, j + 1, parts.len() as int);
                }
            }
            return Err(e);
        },
    };
    let ghost parts = split_of(s@, d@);
    let mut members: Vec<Value> = Vec::new();
    let mut k: usize = 0;
    assert(members@.map_values(|x: Value| member_view(x)) =~= Seq::<ValueView>::empty());
    while k < pieces.len()
        invariant
            parts == split_of(s@, d@),
            table.wf(),
            pieces@.len() == parts.len(),
            forall|j: int| 0 <= j < pieces@.len() ==> is_piece_of(#[trigger] pieces@[j], parts[j]),
            k <= pieces@.len(),
            members@.len() == k,
            forall|j: int| 0 <= j < k && !is_formula_source(parts[j]) ==> is_text_value(
                #[trigger] members@[j],
                trimmed(parts[j]),
            ),
            forall|j: int| 0 <= j < k ==> !(#[trigger] members@[j] is Collection),
                        fuel == 0 ==> forall|j: int| 0 <= j < k ==> !is_formula_source(#[trigger] parts[j]),
            fuel > 0 ==> split_members(*table, ctx, parts, (fuel - 1) as nat, k as int) == Some(
                members@.map_values(|x: Value| member_view(x)),
            ),
        decreases pieces@.len() - k,
    {
        let ghost before = members@;
        proof {
            assert(is_piece_of(pieces@[k as int], parts[k as int]));
        }
        let v = match &pieces[k] {
            Piece::Text(t) => {
                let x = Value::String(t.clone());
                proof {
                    assert(!is_formula_source(parts[k as int]));
                    assert(fuel > 0 ==> piece_value(*table, ctx, parts[k as int], (fuel - 1) as nat)
                        == Some(member_view(x)));
                }
                x
            },
            Piece::Formula(e) => {
                if fuel == 0 {
                    assert(is_formula_source(parts[k as int]));
                    return Err(FormulaError::TooDeep);
                }
                let v = match evaluate(e, table, ctx, fuel - 1) {
                    Ok(v) => v,
                    Err(err) => {
                        proof {
                            assert(piece_value(*table, ctx, parts[k as int], (fuel - 1) as nat) is None);
                            assert(split_members(*table, ctx, parts, (fuel - 1) as nat, k + 1) is None);
                            lemma_members_prefix(*table, ctx, parts, (fuel - 1) as nat, k + 1, parts.len() as int);
                        }
                        return Err(err);
                    },
                };
                proof {
                    lemma_text_view(v);
                    assert(source_expression(parts[k as int], 0) == Some(expr_view(*e)));
                    assert(eval_spec(*table, ctx, expr_view(*e), (fuel - 1) as nat) == Some(
                        value_view(v),
                    ));
                }
                let x = match v {
                    Value::Collection(_) => Value::String(text_value(&v)),
                    _ => v,
                };
                proof {
                    assert(member_view(x) == as_member(value_view(v)));
                    assert(piece_value(*table, ctx, parts[k as int], (fuel - 1) as nat) == Some(
                        member_view(x),
                    ));
                }
                x
            },
        };
        proof {
            assert(before.push(v).map_values(|x: Value| member_view(x)) =~= before.map_values(
                |x: Value| member_view(x),
            ).push(member_view(v)));
        }
        members.push(v);
        k += 1;
    }
    let r = Value::Collection(members);
    proof {
        assert(is_split_result(r, s@, d@));
        if fuel == 0 {
            assert(members@.map_values(|x: Value| member_view(x)) =~= parts.map_values(
                |p: Seq<char>| ValueView::Text(trimmed(p)),
            ));
        }
    }
    Ok(r)
}

} // verus!
