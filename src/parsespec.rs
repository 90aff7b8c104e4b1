//! The expression that a token sequence parses to, stated over token views.
use vstd::prelude::*;
use crate::decimal::Decimal;
use crate::grammar::Expression;
use crate::lexspec::TokenView;

verus! {

/// What an expression says, with strings as character sequences and cell
/// references as (column, row).
pub enum ExprView {
    Number(Decimal),
    Text(Seq<char>),
    Cell(nat, nat),
    Label(Seq<char>, nat),
    Column(Seq<char>),
    Sum(Seq<ExprView>),
    Difference(Seq<ExprView>),
    Product(Seq<ExprView>),
    Quotient(Seq<ExprView>),
    Function(Seq<char>, Seq<ExprView>),
    Collection(Seq<ExprView>),
}

/// What expression `e` says.
pub open spec fn expr_view(e: Expression) -> ExprView
    decreases e,
{
    match e {
        Expression::Number(d) => ExprView::Number(d),
        Expression::String(s) => ExprView::Text(s@),
        Expression::CellReference(c) => ExprView::Cell(c.column as nat, c.row as nat),
        Expression::LabelReference(l) => ExprView::Label(l.label@, l.n_rows as nat),
        Expression::ColumnReference(c) => ExprView::Column(c.name@),
        Expression::Sum { args } => ExprView::Sum(args_view(args@)),
        Expression::Difference { args } => ExprView::Difference(args_view(args@)),
        Expression::Product { args } => ExprView::Product(args_view(args@)),
        Expression::Quotient { args } => ExprView::Quotient(args_view(args@)),
        Expression::Function { name, args } => ExprView::Function(name@, args_view(args@)),
        Expression::Collection { expressions } => ExprView::Collection(args_view(expressions@)),
    }
}

/// What each expression says.
pub open spec fn args_view(args: Seq<Expression>) -> Seq<ExprView>
    decreases args,
{
    if args.len() == 0 {
        Seq::empty()
    } else {
        args_view(args.drop_last()).push(expr_view(args.last()))
    }
}

/// Expression `i` of a list, viewed.
pub proof fn lemma_args_view_index(args: Seq<Expression>, i: int)
    requires
        0 <= i < args.len(),
    ensures
        args_view(args).len() == args.len(),
        args_view(args)[i] == expr_view(args[i]),
    decreases args.len(),
{
    lemma_args_view_len(args);
    if i < args.len() - 1 {
        lemma_args_view_index(args.drop_last(), i);
    }
}

/// A list and its view have the same length.
pub proof fn lemma_args_view_len(args: Seq<Expression>)
    ensures
        args_view(args).len() == args.len(),
    decreases args.len(),
{
    if args.len() > 0 {
        lemma_args_view_len(args.drop_last());
    }
}

/// Whether the cell references in `e` are well formed.
pub open spec fn expr_wf(e: Expression) -> bool
    decreases e,
{
    match e {
        Expression::CellReference(c) => c.wf(),
        Expression::Sum { args } => args_wf(args@),
        Expression::Difference { args } => args_wf(args@),
        Expression::Product { args } => args_wf(args@),
        Expression::Quotient { args } => args_wf(args@),
        Expression::Function { args, .. } => args_wf(args@),
        Expression::Collection { expressions } => args_wf(expressions@),
        _ => true,
    }
}

/// Whether the cell references in every expression are well formed.
pub open spec fn args_wf(args: Seq<Expression>) -> bool
    decreases args,
{
    if args.len() == 0 {
        true
    } else {
        args_wf(args.drop_last()) && expr_wf(args.last())
    }
}

/// The references of row `r` from column `c` to `c2`.
pub open spec fn range_row(r: nat, c: nat, c2: nat) -> Seq<ExprView>
    decreases c2 + 1 - c,
{
    if c > c2 {
        Seq::empty()
    } else {
        seq![ExprView::Cell(c, r)] + range_row(r, c + 1, c2)
    }
}

/// The references of rows `r` to `r2`, columns `c1` to `c2`, row by row.
pub open spec fn range_rows(r: nat, r2: nat, c1: nat, c2: nat) -> Seq<ExprView>
    decreases r2 + 1 - r,
{
    if r > r2 {
        Seq::empty()
    } else {
        range_row(r, c1, c2) + range_rows(r + 1, r2, c1, c2)
    }
}

/// `expression := term (('+' | '-') term)*` from `i`: the expression and the position after it.
pub open spec fn p_expr(s: Seq<TokenView>, i: int) -> Option<(ExprView, int)>
    decreases s.len() - i, 3nat,
{
    match p_term(s, i) {
        Some((e, k)) => if i < k <= s.len() {
            p_expr_rest(s, e, k)
        } else {
            None
        },
        None => None,
    }
}

/// The `(('+' | '-') term)*` part after `acc`, from `j`.
pub open spec fn p_expr_rest(s: Seq<TokenView>, acc: ExprView, j: int) -> Option<(ExprView, int)>
    decreases s.len() - j, 3nat,
{
    if 0 <= j < s.len() && (s[j] == TokenView::Plus || s[j] == TokenView::Minus) {
        match p_term(s, j + 1) {
            Some((r, k)) => if j + 1 < k <= s.len() {
                p_expr_rest(
                    s,
                    if s[j] == TokenView::Plus {
                        ExprView::Sum(seq![acc, r])
                    } else {
                        ExprView::Difference(seq![acc, r])
                    },
                    k,
                )
            } else {
                None
            },
            None => None,
        }
    } else {
        Some((acc, j))
    }
}

/// `term := factor (('*' | '/') factor)*` from `i`.
pub open spec fn p_term(s: Seq<TokenView>, i: int) -> Option<(ExprView, int)>
    decreases s.len() - i, 2nat,
{
    match p_factor(s, i) {
        Some((e, k)) => if i < k <= s.len() {
            p_term_rest(s, e, k)
        } else {
            None
        },
        None => None,
    }
}

/// The `(('*' | '/') factor)*` part after `acc`, from `j`.
pub open spec fn p_term_rest(s: Seq<TokenView>, acc: ExprView, j: int) -> Option<(ExprView, int)>
    decreases s.len() - j, 2nat,
{
    if 0 <= j < s.len() && (s[j] == TokenView::Multiply || s[j] == TokenView::Divide) {
        match p_factor(s, j + 1) {
            Some((r, k)) => if j + 1 < k <= s.len() {
                p_term_rest(
                    s,
                    if s[j] == TokenView::Multiply {
                        ExprView::Product(seq![acc, r])
                    } else {
                        ExprView::Quotient(seq![acc, r])
                    },
                    k,
                )
            } else {
                None
            },
            None => None,
        }
    } else {
        Some((acc, j))
    }
}

/// A factor at `i`.
pub open spec fn p_factor(s: Seq<TokenView>, i: int) -> Option<(ExprView, int)>
    decreases s.len() - i, 1nat,
{
    if i < 0 || i >= s.len() {
        None
    } else {
        match s[i] {
            TokenView::Number(d) => Some((ExprView::Number(d), i + 1)),
            TokenView::Text(t) => Some((ExprView::Text(t), i + 1)),
            TokenView::Cell(c, r) => Some((ExprView::Cell(c, r), i + 1)),
            TokenView::Range(c1, r1, c2, r2) => Some(
                (ExprView::Collection(range_rows(r1, r2, c1, c2)), i + 1),
            ),
            TokenView::Label(l, n) => Some((ExprView::Label(l, n), i + 1)),
            TokenView::Formula(name) => p_function(s, i + 1, name),
            TokenView::CopyAbove(c) => Some(
                (ExprView::Function("copy_above_result"@, seq![ExprView::Column(c)]), i + 1),
            ),
            TokenView::CopyLast(c) => Some(
                (ExprView::Function("copy_last_result"@, seq![ExprView::Column(c)]), i + 1),
            ),
            TokenView::CopyAndIncrement => Some(
                (ExprView::Function("copy_and_increments_formula"@, Seq::empty()), i + 1),
            ),
            TokenView::Open => match p_expr(s, i + 1) {
                Some((e, k)) => if i + 1 < k < s.len() && s[k] == TokenView::Close {
                    Some((e, k + 1))
                } else {
                    None
                },
                None => None,
            },
            _ => None,
        }
    }
}

/// A call `'(' args ')'` of the function `name`, from `j`.
pub open spec fn p_function(s: Seq<TokenView>, j: int, name: Seq<char>) -> Option<(ExprView, int)>
    decreases s.len() - j, 0nat,
{
    if 0 <= j < s.len() && s[j] == TokenView::Open {
        match p_args(s, j + 1, Seq::empty()) {
            Some((args, k)) => Some((ExprView::Function(name, args), k)),
            None => None,
        }
    } else {
        None
    }
}

/// Arguments from `j`, after the arguments `acc`: expressions, commas
/// skipped, up to and including `)`; running out of tokens first is an error.
pub open spec fn p_args(s: Seq<TokenView>, j: int, acc: Seq<ExprView>) -> Option<(Seq<ExprView>, int)>
    decreases s.len() - j, 4nat,
{
    if j < 0 || j >= s.len() {
        None
    } else if s[j] == TokenView::Comma {
        p_args(s, j + 1, acc)
    } else if s[j] == TokenView::Close {
        Some((acc, j + 1))
    } else {
        match p_expr(s, j) {
            Some((e, k)) => if j < k <= s.len() {
                p_args(s, k, acc.push(e))
            } else {
                None
            },
            None => None,
        }
    }
}

/// The expression that a token sequence parses to (later tokens are ignored).
pub open spec fn parsed_expression(s: Seq<TokenView>) -> Option<ExprView> {
    match p_expr(s, 0) {
        Some((e, _)) => Some(e),
        None => None,
    }
}

} // verus!
