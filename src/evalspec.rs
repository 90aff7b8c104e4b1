//! What evaluating an expression gives, stated over views.
use vstd::prelude::*;
use crate::column::{all_capitals, column_index};
use crate::decimal::{
    decimal_text, divided_opt, le_value, minus_opt, number_value, times_opt, Decimal,
};
use crate::evaluator::{is_builtin, Context};
use crate::lexer::is_formula_source;
use crate::lexspec::{formula_tokens, shift_ok, shift_views};
use crate::parsespec::{parsed_expression, ExprView};
use crate::table::Table;
use crate::text::trimmed;
use crate::value::{
    bool_text, concatenated, flat_numbers, joined, number_of_value, scalar_number, scalar_text,
    split_of, total, value_numbers, value_text, Value,
};

verus! {

/// What a value says, with strings as character sequences.
pub enum ValueView {
    Number(Decimal),
    Text(Seq<char>),
    Collection(Seq<ValueView>),
}

/// What a member of a collection says (a nested collection counts as empty text).
pub open spec fn member_view(v: Value) -> ValueView {
    match v {
        Value::Number(d) => ValueView::Number(d),
        Value::String(s) => ValueView::Text(s@),
        Value::Collection(_) => ValueView::Text(Seq::empty()),
    }
}

/// What value `v` says.
pub open spec fn value_view(v: Value) -> ValueView {
    match v {
        Value::Collection(vs) => ValueView::Collection(vs@.map_values(|x: Value| member_view(x))),
        _ => member_view(v),
    }
}

/// What each value says.
pub open spec fn values_view(vs: Seq<Value>) -> Seq<ValueView> {
    vs.map_values(|x: Value| value_view(x))
}

/// The text of a number or string (empty for a collection).
pub open spec fn vscalar_text(v: ValueView) -> Seq<char> {
    match v {
        ValueView::Number(d) => decimal_text(d),
        ValueView::Text(s) => s,
        ValueView::Collection(_) => Seq::empty(),
    }
}

/// The text of a value; members of a collection are joined with spaces.
pub open spec fn vtext(v: ValueView) -> Seq<char> {
    match v {
        ValueView::Collection(ms) => joined(ms.map_values(|x: ValueView| vscalar_text(x))),
        _ => vscalar_text(v),
    }
}

/// The number of a number or string; text that is no number counts as zero.
pub open spec fn vscalar_number(v: ValueView) -> Decimal {
    match v {
        ValueView::Number(d) => d,
        ValueView::Text(s) => number_value(s),
        ValueView::Collection(_) => Decimal { mantissa: 0, scale: 0 },
    }
}

/// The numbers that a value contributes to a sum.
pub open spec fn vnumbers(v: ValueView) -> Seq<Decimal> {
    match v {
        ValueView::Collection(ms) => ms.map_values(|x: ValueView| vscalar_number(x)),
        _ => seq![vscalar_number(v)],
    }
}

/// The numbers of all values, collections flattened.
pub open spec fn vflat(vs: Seq<ValueView>) -> Seq<Decimal>
    decreases vs.len(),
{
    if vs.len() == 0 {
        Seq::empty()
    } else {
        vflat(vs.drop_last()) + vnumbers(vs.last())
    }
}

/// The number a value stands for in arithmetic.
pub open spec fn vnumber(v: ValueView) -> Option<Decimal> {
    match v {
        ValueView::Collection(_) => total(vnumbers(v)),
        _ => Some(vscalar_number(v)),
    }
}

/// The texts of values concatenated.
pub open spec fn vconcat(vs: Seq<ValueView>) -> Seq<char>
    decreases vs.len(),
{
    if vs.len() == 0 {
        Seq::empty()
    } else {
        vconcat(vs.drop_last()) + vtext(vs.last())
    }
}

/// A collection member: a collection is replaced by its text.
pub open spec fn as_member(v: ValueView) -> ValueView {
    match v {
        ValueView::Collection(_) => ValueView::Text(vtext(v)),
        _ => v,
    }
}

/// The text of an evaluated cell, as a reference sees it.
pub open spec fn as_text(r: Option<ValueView>) -> Option<ValueView> {
    match r {
        Some(v) => Some(ValueView::Text(vtext(v))),
        None => None,
    }
}

/// The expression of a source text with the increment `k`: literal text is
/// its trimmed self.
#[verifier::opaque]
pub open spec fn source_expression(src: Seq<char>, k: nat) -> Option<ExprView> {
    if !is_formula_source(src) {
        Some(ExprView::Text(trimmed(src)))
    } else {
        match formula_tokens(src) {
            Some(vs) => if k == 0 {
                parsed_expression(vs)
            } else if shift_ok(vs, k) {
                parsed_expression(shift_views(vs, k))
            } else {
                None
            },
            None => None,
        }
    }
}

/// The context of the formula of cell `i`.
pub open spec fn cell_context(t: Table, i: int) -> Context {
    Context {
        row: t.cells@[i].row,
        column: t.cells@[i].column,
        copy_row: t.cells@[i].row,
        increment: 0,
    }
}

/// The text of a value is the text of its view.
pub proof fn lemma_text_view(v: Value)
    ensures
        vtext(value_view(v)) == value_text(v),
        vnumber(value_view(v)) == number_of_value(v),
        vnumbers(value_view(v)) == value_numbers(v),
{
    match v {
        Value::Collection(vs) => {
            let ms = vs@.map_values(|x: Value| member_view(x));
            assert(ms.map_values(|x: ValueView| vscalar_text(x)) =~= vs@.map_values(
                |x: Value| scalar_text(x),
            ));
            assert(ms.map_values(|x: ValueView| vscalar_number(x)) =~= vs@.map_values(
                |x: Value| scalar_number(x),
            ));
        },
        _ => {},
    }
}

/// The flattened numbers of values are those of their views.
pub proof fn lemma_flat_view(vs: Seq<Value>)
    ensures
        vflat(values_view(vs)) == flat_numbers(vs),
        vconcat(values_view(vs)) == concatenated(vs),
    decreases vs.len(),
{
    if vs.len() > 0 {
        lemma_flat_view(vs.drop_last());
        lemma_text_view(vs.last());
        assert(values_view(vs).drop_last() =~= values_view(vs.drop_last()));
        assert(values_view(vs).last() == value_view(vs.last()));
    } else {
        assert(values_view(vs) =~= Seq::<ValueView>::empty());
    }
}

/// The index of the last label cell named `l`.
pub open spec fn last_label(t: Table, l: Seq<char>, n: int) -> Option<int>
    decreases n,
{
    if n <= 0 {
        None
    } else if t.is_label_named(n - 1, l) {
        Some(n - 1)
    } else {
        last_label(t, l, n - 1)
    }
}

/// With no label cell named `l` among the first `n` cells there is none.
pub proof fn lemma_no_label(t: Table, l: Seq<char>, n: int)
    requires
        0 <= n <= t.cells@.len(),
        forall|j: int| 0 <= j < n ==> !t.is_label_named(j, l),
    ensures
        last_label(t, l, n) is None,
    decreases n,
{
    if n > 0 {
        lemma_no_label(t, l, n - 1);
    }
}

/// A list whose prefix fails to evaluate fails too.
pub proof fn lemma_eval_list_prefix(
    t: Table,
    ctx: Context,
    es: Seq<ExprView>,
    fuel: nat,
    j: int,
    n: int,
)
    requires
        0 <= j <= n <= es.len(),
        eval_list(t, ctx, es.subrange(0, j), fuel) is None,
    ensures
        eval_list(t, ctx, es.subrange(0, n), fuel) is None,
    decreases n - j,
{
    if n > j {
        lemma_eval_list_prefix(t, ctx, es, fuel, j, n - 1);
        assert(es.subrange(0, n).subrange(0, n - 1) =~= es.subrange(0, n - 1));
    }
}

/// A fold whose prefix fails fails too.
pub proof fn lemma_fold_prefix(op: int, vs: Seq<ValueView>, j: int, n: int)
    requires
        1 <= j <= n <= vs.len(),
        fold_numbers(op, vs.subrange(0, j)) is None,
    ensures
        fold_numbers(op, vs.subrange(0, n)) is None,
    decreases n - j,
{
    if n > j {
        lemma_fold_prefix(op, vs, j, n - 1);
        assert(vs.subrange(0, n).drop_last() =~= vs.subrange(0, n - 1));
    }
}

/// Members whose prefix fails fail too.
pub proof fn lemma_members_prefix(
    t: Table,
    ctx: Context,
    parts: Seq<Seq<char>>,
    f: nat,
    j: int,
    n: int,
)
    requires
        0 <= j <= n,
        split_members(t, ctx, parts, f, j) is None,
    ensures
        split_members(t, ctx, parts, f, n) is None,
    decreases n - j,
{
    if n > j {
        lemma_members_prefix(t, ctx, parts, f, j, n - 1);
    }
}

/// The last label cell named `l` among the first `n` cells is at `i`.
pub proof fn lemma_last_label(t: Table, l: Seq<char>, i: int, n: int)
    requires
        0 <= i < n <= t.cells@.len(),
        t.is_label_named(i, l),
        forall|j: int| i < j < n ==> !t.is_label_named(j, l),
    ensures
        last_label(t, l, n) == Some(i),
    decreases n,
{
    if n - 1 > i {
        lemma_last_label(t, l, i, n - 1);
    }
}

/// The lowest row at or above `r` whose cell in column `c` is not empty.
#[verifier::opaque]
pub open spec fn last_filled(t: Table, c: int, r: int) -> Option<int>
    decreases r,
{
    if r <= 0 {
        None
    } else if t.cells@[t.index_of(r, c)].value@.len() > 0 {
        Some(r)
    } else {
        last_filled(t, c, r - 1)
    }
}

/// The column that a column name stands for.
pub open spec fn named_column(name: Seq<char>) -> Option<nat> {
    if name.len() > 0 && all_capitals(name) && column_index(name) <= usize::MAX {
        Some(column_index(name))
    } else {
        None
    }
}

/// The fold of an arithmetic operator over the numbers of `vs`, from the
/// left (`op`: 0 subtracts, 1 multiplies, 2 divides).
pub open spec fn fold_numbers(op: int, vs: Seq<ValueView>) -> Option<Decimal>
    decreases vs.len(),
{
    if vs.len() <= 1 {
        if vs.len() == 0 {
            None
        } else {
            vnumber(vs[0])
        }
    } else {
        match fold_numbers(op, vs.drop_last()) {
            Some(a) => match vnumber(vs.last()) {
                Some(x) => if op == 0 {
                    minus_opt(a, x)
                } else if op == 1 {
                    times_opt(a, x)
                } else if x.mantissa == 0 {
                    None
                } else {
                    divided_opt(a, x)
                },
                None => None,
            },
            None => None,
        }
    }
}

/// Whether folding a quotient over `vs` reaches a divisor whose number is
/// zero, every step before it succeeding.
pub open spec fn has_zero_divisor(vs: Seq<ValueView>) -> bool {
    exists|k: int|
        1 <= k < vs.len() && fold_numbers(2, vs.subrange(0, k)) is Some && is_zero_number(
            #[trigger] vs[k],
        )
}

/// Whether the number of `v` is zero.
pub open spec fn is_zero_number(v: ValueView) -> bool {
    match vnumber(v) {
        Some(x) => x.mantissa == 0,
        None => false,
    }
}

/// Whether `e` is a quotient whose arguments evaluate and reach a zero divisor.
pub open spec fn divides_by_zero(t: Table, ctx: Context, e: ExprView, fuel: nat) -> bool {
    match e {
        ExprView::Quotient(args) => match eval_list(t, ctx, args, fuel) {
            Some(vs) => has_zero_divisor(vs),
            None => false,
        },
        _ => false,
    }
}

/// The values of a list of expressions, evaluated in turn.
pub open spec fn eval_list(t: Table, ctx: Context, es: Seq<ExprView>, fuel: nat) -> Option<
    Seq<ValueView>,
>
    decreases fuel, ctx.copy_row + 1, es,
{
    if es.len() == 0 {
        Some(Seq::empty())
    } else {
        match eval_list(t, ctx, es.subrange(0, es.len() - 1), fuel) {
            Some(vs) => match eval_spec(t, ctx, es[es.len() - 1], fuel) {
                Some(v) => Some(vs.push(v)),
                None => None,
            },
            None => None,
        }
    }
}

/// What the cell at `row`, `column` holds for evaluation.
pub enum CellSource {
    /// No such cell, or a formula that does not lex or parse.
    Unusable,
    Literal(Seq<char>),
    Formula(ExprView, Context),
}

/// What the cell at `row`, `column` holds for evaluation.
pub open spec fn cell_source(t: Table, row: int, column: int) -> CellSource {
    if !t.contains(row, column) {
        CellSource::Unusable
    } else {
        let i = t.index_of(row, column);
        let src = t.cells@[i].value@;
        if !is_formula_source(src) {
            CellSource::Literal(src)
        } else {
            match source_expression(src, 0) {
                Some(e) => CellSource::Formula(e, cell_context(t, i)),
                None => CellSource::Unusable,
            }
        }
    }
}

/// The built-in function `name` applied to evaluated arguments (all but
/// `split`, which evaluates the pieces of its text).
pub open spec fn apply_builtin(name: Seq<char>, vs: Seq<ValueView>) -> Option<ValueView> {
    if name == "sum"@ {
        match total(vflat(vs)) {
            Some(d) => Some(ValueView::Number(d)),
            None => None,
        }
    } else if name == "concat"@ {
        Some(ValueView::Text(vconcat(vs)))
    } else if name == "gte"@ || name == "lte"@ {
        if vs.len() != 2 {
            None
        } else {
            match (vnumber(vs[0]), vnumber(vs[1])) {
                (Some(x), Some(y)) => Some(
                    ValueView::Text(
                        bool_text(
                            if name == "gte"@ {
                                le_value(y, x)
                            } else {
                                le_value(x, y)
                            },
                        ),
                    ),
                ),
                _ => None,
            }
        }
    } else if name == "text"@ {
        if vs.len() != 1 {
            None
        } else {
            Some(ValueView::Text(vtext(vs[0])))
        }
    } else if name == "incfrom"@ {
        if vs.len() != 1 {
            None
        } else {
            match vnumber(vs[0]) {
                Some(d) => Some(ValueView::Number(d)),
                None => None,
            }
        }
    } else {
        None
    }
}

/// The member that piece `part` of a split text gives; `f` is the fuel for
/// evaluating a formula piece.
pub open spec fn piece_value(t: Table, ctx: Context, part: Seq<char>, f: nat) -> Option<ValueView>
    decreases f, ctx.copy_row + 2, ExprView::Column(Seq::empty()),
{
    if !is_formula_source(part) {
        Some(ValueView::Text(trimmed(part)))
    } else {
        match source_expression(part, 0) {
            Some(e) => match eval_spec(t, ctx, e, f) {
                Some(v) => Some(as_member(v)),
                None => None,
            },
            None => None,
        }
    }
}

/// The members that the first `n` pieces give.
pub open spec fn split_members(t: Table, ctx: Context, parts: Seq<Seq<char>>, f: nat, n: int) -> Option<
    Seq<ValueView>,
>
    decreases f, ctx.copy_row + 2 + if n > 0 { n } else { 0 }, ExprView::Column(Seq::empty()),
{
    if n <= 0 {
        Some(Seq::empty())
    } else {
        match split_members(t, ctx, parts, f, n - 1) {
            Some(ms) => match piece_value(t, ctx, parts[n - 1], f) {
                Some(m) => Some(ms.push(m)),
                None => None,
            },
            None => None,
        }
    }
}

/// The members of a split text when no fuel is left: only literal pieces.
pub open spec fn literal_members(parts: Seq<Seq<char>>) -> Option<Seq<ValueView>> {
    if forall|i: int| 0 <= i < parts.len() ==> !is_formula_source(#[trigger] parts[i]) {
        Some(parts.map_values(|p: Seq<char>| ValueView::Text(trimmed(p))))
    } else {
        None
    }
}

/// The collection that `split` gives for the pieces `parts`.
pub open spec fn split_spec(t: Table, ctx: Context, parts: Seq<Seq<char>>, fuel: nat) -> Option<
    ValueView,
> {
    let ms = if fuel == 0 {
        literal_members(parts)
    } else {
        split_members(t, ctx, parts, (fuel - 1) as nat, parts.len() as int)
    };
    match ms {
        Some(ms) => Some(ValueView::Collection(ms)),
        None => None,
    }
}

/// What evaluating `e` in `ctx` gives, where it succeeds.
pub open spec fn eval_spec(t: Table, ctx: Context, e: ExprView, fuel: nat) -> Option<ValueView>
    decreases fuel, ctx.copy_row + 1, e,
{
    match e {
        ExprView::Number(d) => Some(ValueView::Number(d)),
        ExprView::Text(s) => Some(ValueView::Text(s)),
        ExprView::Column(_) => None,
        ExprView::Cell(c, r) => match cell_source(t, r as int, c as int) {
            CellSource::Literal(s) => Some(ValueView::Text(s)),
            CellSource::Formula(x, cc) => if fuel == 0 {
                None
            } else {
                as_text(eval_spec(t, cc, x, (fuel - 1) as nat))
            },
            CellSource::Unusable => None,
        },
        ExprView::Label(l, n) => match last_label(t, l, t.cells@.len() as int) {
            Some(k) => {
                let lr = t.cells@[k].row as int;
                let target = if lr + n > t.num_rows {
                    t.num_rows as int
                } else {
                    lr + n
                };
                match cell_source(t, target, t.cells@[k].column as int) {
                    CellSource::Literal(s) => Some(ValueView::Text(s)),
                    CellSource::Formula(x, cc) => if fuel == 0 {
                        None
                    } else {
                        as_text(eval_spec(t, cc, x, (fuel - 1) as nat))
                    },
                    CellSource::Unusable => None,
                }
            },
            None => None,
        },
        ExprView::Collection(es) => match eval_list(t, ctx, es, fuel) {
            Some(vs) => Some(ValueView::Collection(vs.map_values(|v: ValueView| as_member(v)))),
            None => None,
        },
        ExprView::Sum(args) => match eval_list(t, ctx, args, fuel) {
            Some(vs) => match total(vflat(vs)) {
                Some(d) => Some(ValueView::Number(d)),
                None => None,
            },
            None => None,
        },
        ExprView::Difference(args) => arith(eval_list(t, ctx, args, fuel), 0),
        ExprView::Product(args) => arith(eval_list(t, ctx, args, fuel), 1),
        ExprView::Quotient(args) => arith(eval_list(t, ctx, args, fuel), 2),
        ExprView::Function(name, args) => if !is_builtin(name) {
            None
        } else if args.len() == 0 && name == "sum"@ {
            Some(ValueView::Number(Decimal { mantissa: 0, scale: 0 }))
        } else if args.len() == 0 && name == "concat"@ {
            Some(ValueView::Text(Seq::empty()))
        } else if name == "copy_and_increments_formula"@ {
            if args.len() != 0 || ctx.copy_row <= 1 || ctx.increment + 1 > usize::MAX {
                None
            } else {
                let r = ctx.copy_row - 1;
                if !t.contains(r, ctx.column as int) {
                    None
                } else {
                    let src = t.cells@[t.index_of(r, ctx.column as int)].value@;
                    if !is_formula_source(src) {
                        None
                    } else {
                        match source_expression(src, (ctx.increment + 1) as nat) {
                            Some(x) => eval_spec(
                                t,
                                Context {
                                    row: ctx.row,
                                    column: ctx.column,
                                    copy_row: r as usize,
                                    increment: (ctx.increment + 1) as usize,
                                },
                                x,
                                fuel,
                            ),
                            None => None,
                        }
                    }
                }
            }
        } else if name == "copy_above_result"@ || name == "copy_last_result"@ {
            if args.len() != 1 || (name == "copy_above_result"@ && ctx.row <= 1) {
                None
            } else {
                match args[0] {
                    ExprView::Column(cn) => match named_column(cn) {
                        Some(col) => if name != "copy_above_result"@ && t.num_rows > 0
                            && col > t.num_columns {
                            None
                        } else {
                            let row = if name == "copy_above_result"@ {
                                Some(ctx.row - 1)
                            } else {
                                last_filled(t, col as int, t.num_rows as int)
                            };
                            match row {
                                Some(r) => match cell_source(t, r, col as int) {
                                    CellSource::Literal(s) => Some(ValueView::Text(s)),
                                    CellSource::Formula(x, cc) => if fuel == 0 {
                                        None
                                    } else {
                                        as_text(eval_spec(t, cc, x, (fuel - 1) as nat))
                                    },
                                    CellSource::Unusable => None,
                                },
                                None => Some(ValueView::Text(Seq::empty())),
                            }
                        },
                        None => None,
                    },
                    _ => None,
                }
            }
        } else {
            match eval_list(t, ctx, args, fuel) {
                Some(vs) => if name == "split"@ {
                    if vs.len() != 2 {
                        None
                    } else {
                        let parts = split_of(vtext(vs[0]), vtext(vs[1]));
                        let ms = if fuel == 0 {
                            literal_members(parts)
                        } else {
                            split_members(t, ctx, parts, (fuel - 1) as nat, parts.len() as int)
                        };
                        match ms {
                            Some(ms) => Some(ValueView::Collection(ms)),
                            None => None,
                        }
                    }
                } else {
                    apply_builtin(name, vs)
                },
                None => None,
            }
        },
    }
}

/// An arithmetic operator over evaluated arguments.
pub open spec fn arith(vs: Option<Seq<ValueView>>, op: int) -> Option<ValueView> {
    match vs {
        Some(vs) => if vs.len() == 0 {
            None
        } else {
            match fold_numbers(op, vs) {
                Some(d) => Some(ValueView::Number(d)),
                None => None,
            }
        },
        None => None,
    }
}

/// Applying `text` twice gives what applying it once gives.
pub proof fn lemma_text_of_text(t: Table, ctx: Context, x: ExprView, fuel: nat)
    ensures
        eval_spec(
            t,
            ctx,
            ExprView::Function("text"@, seq![ExprView::Function("text"@, seq![x])]),
            fuel,
        ) == eval_spec(t, ctx, ExprView::Function("text"@, seq![x]), fuel),
{
    reveal_strlit("text");
    reveal_strlit("sum");
    reveal_strlit("split");
    reveal_strlit("gte");
    reveal_strlit("lte");
    reveal_strlit("concat");
    reveal_strlit("incfrom");
    reveal_strlit("copy_above_result");
    reveal_strlit("copy_last_result");
    reveal_strlit("copy_and_increments_formula");
    let inner = ExprView::Function("text"@, seq![x]);
    assert("text"@ != "sum"@ && "text"@ != "concat"@ && "text"@ != "split"@ && "text"@ != "gte"@
        && "text"@ != "lte"@ && "text"@ != "copy_above_result"@ && "text"@ != "copy_last_result"@
        && "text"@ != "copy_and_increments_formula"@) by {
        assert("text"@.len() == 4);
        assert("sum"@.len() == 3);
        assert("concat"@.len() == 6);
        assert("split"@.len() == 5);
        assert("gte"@.len() == 3);
        assert("lte"@.len() == 3);
    }
    assert(seq![x].subrange(0, 0) =~= Seq::<ExprView>::empty());
    assert(seq![inner].subrange(0, 0) =~= Seq::<ExprView>::empty());
    assert(eval_list(t, ctx, Seq::<ExprView>::empty(), fuel) == Some(Seq::<ValueView>::empty()));
    match eval_spec(t, ctx, x, fuel) {
        Some(v) => {
            assert(eval_list(t, ctx, seq![x], fuel) == Some(seq![v]));
            assert(eval_spec(t, ctx, inner, fuel) == Some(ValueView::Text(vtext(v))));
            assert(eval_list(t, ctx, seq![inner], fuel) == Some(seq![ValueView::Text(vtext(v))]));
        },
        None => {
            assert(eval_list(t, ctx, seq![x], fuel) is None);
            assert(eval_spec(t, ctx, inner, fuel) is None);
            assert(eval_list(t, ctx, seq![inner], fuel) is None);
        },
    }
}

/// `sum()` evaluates to zero and `concat()` to the empty text.
pub proof fn lemma_empty_sum_and_concat(t: Table, ctx: Context, fuel: nat)
    ensures
        eval_spec(t, ctx, ExprView::Function("sum"@, Seq::empty()), fuel) == Some(
            ValueView::Number(Decimal { mantissa: 0, scale: 0 }),
        ),
        eval_spec(t, ctx, ExprView::Function("concat"@, Seq::empty()), fuel) == Some(
            ValueView::Text(Seq::empty()),
        ),
{
    reveal_strlit("sum");
    reveal_strlit("concat");
    assert("sum"@.len() != "concat"@.len());
}

/// `concat` gives the texts of its evaluated arguments joined in order with
/// no separator, and `sum` the sum of their numbers, collections flattened.
pub proof fn lemma_concat_and_sum(t: Table, ctx: Context, args: Seq<ExprView>, fuel: nat)
    ensures
        eval_spec(t, ctx, ExprView::Function("concat"@, args), fuel) == match eval_list(
            t,
            ctx,
            args,
            fuel,
        ) {
            Some(vs) => Some(ValueView::Text(vconcat(vs))),
            None => None::<ValueView>,
        },
        eval_spec(t, ctx, ExprView::Function("sum"@, args), fuel) == match eval_list(
            t,
            ctx,
            args,
            fuel,
        ) {
            Some(vs) => match total(vflat(vs)) {
                Some(d) => Some(ValueView::Number(d)),
                None => None::<ValueView>,
            },
            None => None::<ValueView>,
        },
{
    reveal_strlit("sum");
    reveal_strlit("split");
    reveal_strlit("concat");
    reveal_strlit("copy_above_result");
    reveal_strlit("copy_last_result");
    reveal_strlit("copy_and_increments_formula");
    assert("concat"@.len() == 6 && "sum"@.len() == 3 && "split"@.len() == 5);
    assert("concat"@ != "sum"@ && "concat"@ != "split"@ && "concat"@ != "copy_above_result"@
        && "concat"@ != "copy_last_result"@ && "concat"@ != "copy_and_increments_formula"@);
    assert("sum"@ != "concat"@ && "sum"@ != "split"@ && "sum"@ != "copy_above_result"@
        && "sum"@ != "copy_last_result"@ && "sum"@ != "copy_and_increments_formula"@);
    if args.len() == 0 {
        assert(eval_list(t, ctx, args, fuel) == Some(Seq::<ValueView>::empty()));
        assert(vconcat(Seq::<ValueView>::empty()) == Seq::<char>::empty());
        assert(vflat(Seq::<ValueView>::empty()) == Seq::<Decimal>::empty());
        assert(total(Seq::<Decimal>::empty()) == Some(Decimal { mantissa: 0, scale: 0 }));
    }
}

/// Pieces that are all literal give their trimmed texts.
proof fn lemma_literal_members(t: Table, ctx: Context, parts: Seq<Seq<char>>, f: nat, n: int)
    requires
        0 <= n <= parts.len(),
        forall|i: int| 0 <= i < parts.len() ==> !is_formula_source(#[trigger] parts[i]),
    ensures
        split_members(t, ctx, parts, f, n) == Some(
            parts.subrange(0, n).map_values(|p: Seq<char>| ValueView::Text(trimmed(p))),
        ),
    decreases n,
{
    if n > 0 {
        lemma_literal_members(t, ctx, parts, f, n - 1);
        assert(!is_formula_source(parts[n - 1]));
        assert(piece_value(t, ctx, parts[n - 1], f) == Some(ValueView::Text(trimmed(parts[n - 1]))));
        assert(parts.subrange(0, n).map_values(|p: Seq<char>| ValueView::Text(trimmed(p)))
            =~= parts.subrange(0, n - 1).map_values(|p: Seq<char>| ValueView::Text(trimmed(p))).push(
            ValueView::Text(trimmed(parts[n - 1])),
        ));
    } else {
        assert(parts.subrange(0, 0).map_values(|p: Seq<char>| ValueView::Text(trimmed(p)))
            =~= Seq::<ValueView>::empty());
    }
}

/// Two arguments that evaluate give the list of their values.
proof fn lemma_eval_pair(
    t: Table,
    ctx: Context,
    x: ExprView,
    d: ExprView,
    fuel: nat,
    vx: ValueView,
    vd: ValueView,
)
    requires
        eval_spec(t, ctx, x, fuel) == Some(vx),
        eval_spec(t, ctx, d, fuel) == Some(vd),
    ensures
        eval_list(t, ctx, seq![x, d], fuel) == Some(seq![vx, vd]),
{
    let pair = seq![x, d];
    assert(pair.subrange(0, 1) =~= seq![x]);
    assert(seq![x].subrange(0, 0) =~= Seq::<ExprView>::empty());
    assert(eval_list(t, ctx, Seq::<ExprView>::empty(), fuel) == Some(Seq::<ValueView>::empty()));
    assert(eval_list(t, ctx, seq![x], fuel) == Some(seq![vx]));
    assert(seq![vx].push(vd) =~= seq![vx, vd]);
}

/// A call of `split` whose pieces are all literal gives their trimmed texts.
#[verifier::rlimit(100)]
#[verifier::spinoff_prover]
proof fn lemma_split_call(
    t: Table,
    ctx: Context,
    x: ExprView,
    d: ExprView,
    fuel: nat,
    vx: ValueView,
    vd: ValueView,
)
    requires
        eval_spec(t, ctx, x, fuel) == Some(vx),
        eval_spec(t, ctx, d, fuel) == Some(vd),
        forall|i: int| 0 <= i < split_of(vtext(vx), vtext(vd)).len() ==> !is_formula_source(
            #[trigger] split_of(vtext(vx), vtext(vd))[i],
        ),
    ensures
        eval_spec(t, ctx, ExprView::Function("split"@, seq![x, d]), fuel) == Some(
            ValueView::Collection(
                split_of(vtext(vx), vtext(vd)).map_values(|p: Seq<char>| ValueView::Text(trimmed(p))),
            ),
        ),
{
    reveal_strlit("sum");
    reveal_strlit("split");
    reveal_strlit("concat");
    reveal_strlit("copy_above_result");
    reveal_strlit("copy_last_result");
    reveal_strlit("copy_and_increments_formula");
    assert("split"@ != "sum"@ && "split"@ != "concat"@ && "split"@ != "copy_above_result"@
        && "split"@ != "copy_last_result"@ && "split"@ != "copy_and_increments_formula"@) by {
        assert("split"@.len() == 5);
        assert("sum"@.len() == 3);
        assert("concat"@.len() == 6);
    }
    let parts = split_of(vtext(vx), vtext(vd));
    lemma_eval_pair(t, ctx, x, d, fuel, vx, vd);
    lemma_split_spec_literal(t, ctx, parts, fuel);
}

/// Pieces that are all literal split into their trimmed texts.
proof fn lemma_split_spec_literal(t: Table, ctx: Context, parts: Seq<Seq<char>>, fuel: nat)
    requires
        forall|i: int| 0 <= i < parts.len() ==> !is_formula_source(#[trigger] parts[i]),
    ensures
        split_spec(t, ctx, parts, fuel) == Some(
            ValueView::Collection(parts.map_values(|p: Seq<char>| ValueView::Text(trimmed(p)))),
        ),
{
    if fuel > 0 {
        lemma_literal_members(t, ctx, parts, (fuel - 1) as nat, parts.len() as int);
        assert(parts.subrange(0, parts.len() as int) =~= parts);
    }
}

/// Summing a split text adds the numbers of its trimmed pieces, where no
/// piece is a formula.
#[verifier::rlimit(100)]
#[verifier::spinoff_prover]
pub proof fn lemma_sum_of_split_text(
    t: Table,
    ctx: Context,
    x: ExprView,
    d: ExprView,
    fuel: nat,
    vx: ValueView,
    vd: ValueView,
)
    requires
        eval_spec(t, ctx, x, fuel) == Some(vx),
        eval_spec(t, ctx, d, fuel) == Some(vd),
        forall|i: int| 0 <= i < split_of(vtext(vx), vtext(vd)).len() ==> !is_formula_source(
            #[trigger] split_of(vtext(vx), vtext(vd))[i],
        ),
    ensures
        eval_spec(
            t,
            ctx,
            ExprView::Function("sum"@, seq![ExprView::Function("split"@, seq![x, d])]),
            fuel,
        ) == match total(
            split_of(vtext(vx), vtext(vd)).map_values(|p: Seq<char>| number_value(trimmed(p))),
        ) {
            Some(n) => Some(ValueView::Number(n)),
            None => None::<ValueView>,
        },
{
    lemma_split_call(t, ctx, x, d, fuel, vx, vd);
    reveal_strlit("sum");
    reveal_strlit("split");
    reveal_strlit("concat");
    reveal_strlit("copy_above_result");
    reveal_strlit("copy_last_result");
    reveal_strlit("copy_and_increments_formula");
    assert("sum"@ != "split"@ && "sum"@ != "concat"@ && "sum"@ != "copy_above_result"@
        && "sum"@ != "copy_last_result"@ && "sum"@ != "copy_and_increments_formula"@) by {
        assert("sum"@.len() == 3);
        assert("split"@.len() == 5);
        assert("concat"@.len() == 6);
    }
    let parts = split_of(vtext(vx), vtext(vd));
    let texts = parts.map_values(|p: Seq<char>| ValueView::Text(trimmed(p)));
    let call = ExprView::Function("split"@, seq![x, d]);
    let one = seq![call];
    assert(one.subrange(0, 0) =~= Seq::<ExprView>::empty());
    assert(eval_list(t, ctx, Seq::<ExprView>::empty(), fuel) == Some(Seq::<ValueView>::empty()));
    assert(eval_list(t, ctx, one, fuel) == Some(seq![ValueView::Collection(texts)]));
    let vs = seq![ValueView::Collection(texts)];
    assert(vs.drop_last() =~= Seq::<ValueView>::empty());
    assert(vs.last() == ValueView::Collection(texts));
    assert(vflat(Seq::<ValueView>::empty()) == Seq::<Decimal>::empty());
    assert(vflat(vs) =~= vnumbers(ValueView::Collection(texts)));
    assert(vnumbers(ValueView::Collection(texts)) =~= parts.map_values(
        |p: Seq<char>| number_value(trimmed(p)),
    ));
}

} // verus!
