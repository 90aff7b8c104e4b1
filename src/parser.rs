//! Recursive-descent parsing of tokens into an expression tree.
use vstd::prelude::*;
use crate::grammar::{CellReference, ColumnReference, Expression, LabelReference};
use crate::lexer::{cell_reference_at, is_text_token, Token};
use crate::lexspec::{all_wf, token_view, token_wf, views, TokenView};
use crate::parsespec::{
    args_view, args_wf, expr_view, expr_wf, p_args, p_expr, p_expr_rest, p_factor, p_function,
    p_term, p_term_rest, parsed_expression, range_row, range_rows, ExprView,
};
use crate::text::chars_of;

verus! {

/// Why a token sequence is not a formula.
#[derive(Debug, Clone, PartialEq)]
pub enum ParseError {
    /// The tokens ended where a factor was needed.
    UnexpectedEnd,
    /// A token that cannot start a factor.
    UnexpectedToken,
    /// A `(` without its `)`.
    UnclosedParenthesis,
    /// A function name that is not followed by `(`.
    MissingOpenParenthesis,
}

/// The text of a parse error.
pub open spec fn parse_error_text(e: ParseError) -> Seq<char> {
    match e {
        ParseError::UnexpectedEnd => "unexpected end of formula"@,
        ParseError::UnexpectedToken => "unexpected factor"@,
        ParseError::UnclosedParenthesis => "unexpected token, expected ')'"@,
        ParseError::MissingOpenParenthesis => "unexpected token, expected '('"@,
    }
}

impl ParseError {
    /// A sentence describing the error.
    pub fn message(&self) -> (r: String)
        ensures
            r@ == parse_error_text(*self),
    {
        match self {
            ParseError::UnexpectedEnd => String::from_str("unexpected end of formula"),
            ParseError::UnexpectedToken => String::from_str("unexpected factor"),
            ParseError::UnclosedParenthesis => String::from_str("unexpected token, expected ')'"),
            ParseError::MissingOpenParenthesis => String::from_str("unexpected token, expected '('"),
        }
    }
}

/// Whether `e` is a string literal holding `s`.
pub open spec fn is_text_expression(e: Expression, s: Seq<char>) -> bool {
    match e {
        Expression::String(x) => x@ == s,
        _ => false,
    }
}

/// The text of a string token (empty for other tokens).
pub open spec fn text_of_token(t: Token) -> Seq<char> {
    match t {
        Token::String(s) => s@,
        _ => Seq::empty(),
    }
}

/// A parser; formulas are read from a token slice by position.
pub struct Parser {
    pub index: usize,
}

fn copy_string(s: &String) -> (r: String)
    ensures
        r@ == s@,
{
    s.clone()
}

fn copy_reference(c: &CellReference) -> (r: CellReference)
    ensures
        r.hash@ == c.hash@,
        r.column_name@ == c.column_name@,
        r.column == c.column,
        r.row == c.row,
{
    CellReference {
        hash: copy_string(&c.hash),
        column_name: copy_string(&c.column_name),
        column: c.column,
        row: c.row,
    }
}

proof fn lemma_args_push(s: Seq<Expression>, e: Expression)
    ensures
        args_view(s.push(e)) == args_view(s).push(expr_view(e)),
        args_wf(s.push(e)) == (args_wf(s) && expr_wf(e)),
{
    assert(s.push(e).drop_last() =~= s);
}

proof fn lemma_args_pair(a: Expression, b: Expression)
    ensures
        args_view(seq![a, b]) == seq![expr_view(a), expr_view(b)],
        args_wf(seq![a, b]) == (expr_wf(a) && expr_wf(b)),
{
    let e = Seq::<Expression>::empty();
    assert(args_view(e) == Seq::<ExprView>::empty());
    assert(args_wf(e));
    lemma_args_push(e, a);
    assert(e.push(a) =~= seq![a]);
    lemma_args_push(seq![a], b);
    assert(seq![a].push(b) =~= seq![a, b]);
    assert(args_view(seq![a, b]) =~= seq![expr_view(a), expr_view(b)]);
}

/// The references of the rectangle from `start` to `end`, row by row.
fn expand_range(start: &CellReference, end: &CellReference) -> (r: Vec<Expression>)
    ensures
        args_view(r@) == range_rows(
            start.row as nat,
            end.row as nat,
            start.column as nat,
            end.column as nat,
        ),
        args_wf(r@),
{
    let ghost c1 = start.column as nat;
    let ghost c2 = end.column as nat;
    let ghost total = range_rows(start.row as nat, end.row as nat, c1, c2);
    let mut cells: Vec<Expression> = Vec::new();
    let mut row = start.row;
    let mut rows_done = start.row > end.row;
    assert(args_view(cells@) =~= Seq::<ExprView>::empty());
    while !rows_done
        invariant
            c1 == start.column,
            c2 == end.column,
            total == range_rows(start.row as nat, end.row as nat, c1, c2),
            !rows_done ==> row <= end.row,
            args_wf(cells@),
            args_view(cells@) + (if rows_done {
                Seq::<ExprView>::empty()
            } else {
                range_rows(row as nat, end.row as nat, c1, c2)
            }) == total,
        decreases end.row - row, if rows_done { 0int } else { 1int },
    {
        let ghost before = args_view(cells@);
        let ghost rest = range_rows((row + 1) as nat, end.row as nat, c1, c2);
        assert(range_rows(row as nat, end.row as nat, c1, c2) == range_row(row as nat, c1, c2) + rest);
        let mut column = start.column;
        let mut done = start.column > end.column;
        while !done
            invariant
                c1 == start.column,
                c2 == end.column,
                !done ==> column <= end.column,
                args_wf(cells@),
                args_view(cells@) + (if done {
                    Seq::<ExprView>::empty()
                } else {
                    range_row(row as nat, column as nat, c2)
                }) == before + range_row(row as nat, c1, c2),
            decreases end.column - column, if done { 0int } else { 1int },
        {
            let name = crate::column::get_column_name(column);
            let letters = chars_of(name.as_str());
            let c = cell_reference_at(&letters, column, row);
            let ghost old_cells = cells@;
            let e = Expression::CellReference(c);
            proof {
                lemma_args_push(old_cells, e);
                assert(range_row(row as nat, column as nat, c2) == seq![ExprView::Cell(column as nat, row as nat)]
                    + range_row(row as nat, (column + 1) as nat, c2));
            }
            cells.push(e);
            if column == end.column {
                assert(range_row(row as nat, (column + 1) as nat, c2) =~= Seq::<ExprView>::empty());
                done = true;
            } else {
                column += 1;
            }
            assert(args_view(cells@) + (if done {
                Seq::<ExprView>::empty()
            } else {
                range_row(row as nat, column as nat, c2)
            }) =~= before + range_row(row as nat, c1, c2));
        }
        if row == end.row {
            assert(rest =~= Seq::<ExprView>::empty());
            rows_done = true;
        } else {
            row += 1;
        }
        assert(args_view(cells@) + (if rows_done {
            Seq::<ExprView>::empty()
        } else {
            range_rows(row as nat, end.row as nat, c1, c2)
        }) =~= total);
    }
    assert(args_view(cells@) =~= total);
    cells
}

/// Whether `r` is the result that `spec` describes for a parse from `index`.
pub open spec fn parse_result(
    r: Result<(Expression, usize), ParseError>,
    spec: Option<(ExprView, int)>,
    index: int,
) -> bool {
    match spec {
        Some((e, k)) => r matches Ok((x, next)) && expr_view(x) == e && next == k && expr_wf(x)
            && index < next,
        None => r is Err,
    }
}

impl Parser {
    /// Parses a formula from its tokens.
    pub fn parse(input: &[Token]) -> (r: Result<Expression, ParseError>)
        requires
            all_wf(input@),
        ensures
            match parsed_expression(views(input@)) {
                Some(e) => r matches Ok(x) && expr_view(x) == e && expr_wf(x),
                None => r is Err,
            },
            input@.len() == 1 && input@[0] is String ==> (r matches Ok(e) && is_text_expression(
                e,
                text_of_token(input@[0]),
            )),
    {
        let (expression, _) = Self::parse_expression(input, 0)?;
        Ok(expression)
    }

    /// `term (('+' | '-') term)*`
    fn parse_expression(tokens: &[Token], index: usize) -> (r: Result<(Expression, usize), ParseError>)
        requires
            index <= tokens@.len(),
            all_wf(tokens@),
        ensures
            parse_result(r, p_expr(views(tokens@), index as int), index as int),
            r matches Ok((e, next)) ==> index < next <= tokens@.len(),
            tokens@.len() == 1 && index == 0 && tokens@[0] is String ==> (r matches Ok((e, next))
                && is_text_expression(e, text_of_token(tokens@[0]))),
        decreases tokens@.len() - index, 3nat,
    {
        let ghost s = views(tokens@);
        let (mut expression, mut i) = Self::parse_term(tokens, index)?;
        let mut done = false;
        while i < tokens.len() && !done
            invariant
                index < i <= tokens@.len(),
                s == views(tokens@),
                all_wf(tokens@),
                expr_wf(expression),
                tokens@.len() == 1 ==> i == 1,
                tokens@.len() == 1 && index == 0 && tokens@[0] is String ==> is_text_expression(
                    expression,
                    text_of_token(tokens@[0]),
                ),
                !done ==> p_expr(s, index as int) == p_expr_rest(s, expr_view(expression), i as int),
                done ==> p_expr(s, index as int) == Some((expr_view(expression), i as int)),
            decreases tokens@.len() - i, if done { 0int } else { 1int },
        {
            assert(s[i as int] == token_view(tokens@[i as int]));
            let is_plus = match &tokens[i] {
                Token::Plus => true,
                Token::Minus => false,
                _ => {
                    done = true;
                    continue;
                },
            };
            let (right, next) = Self::parse_term(tokens, i + 1)?;
            let mut args: Vec<Expression> = Vec::new();
            args.push(expression);
            args.push(right);
            proof {
                assert(args@ =~= seq![expression, right]);
                lemma_args_pair(expression, right);
            }
            expression = if is_plus {
                Expression::Sum { args }
            } else {
                Expression::Difference { args }
            };
            i = next;
        }
        Ok((expression, i))
    }

    /// `factor (('*' | '/') factor)*`
    fn parse_term(tokens: &[Token], index: usize) -> (r: Result<(Expression, usize), ParseError>)
        requires
            index <= tokens@.len(),
            all_wf(tokens@),
        ensures
            parse_result(r, p_term(views(tokens@), index as int), index as int),
            r matches Ok((e, next)) ==> index < next <= tokens@.len(),
            tokens@.len() == 1 && index == 0 && tokens@[0] is String ==> (r matches Ok((e, next))
                && next == 1 && is_text_expression(e, text_of_token(tokens@[0]))),
        decreases tokens@.len() - index, 2nat,
    {
        let ghost s = views(tokens@);
        let (mut expression, mut i) = Self::parse_factor(tokens, index)?;
        let mut done = false;
        while i < tokens.len() && !done
            invariant
                index < i <= tokens@.len(),
                s == views(tokens@),
                all_wf(tokens@),
                expr_wf(expression),
                tokens@.len() == 1 ==> i == 1,
                tokens@.len() == 1 && index == 0 && tokens@[0] is String ==> is_text_expression(
                    expression,
                    text_of_token(tokens@[0]),
                ),
                !done ==> p_term(s, index as int) == p_term_rest(s, expr_view(expression), i as int),
                done ==> p_term(s, index as int) == Some((expr_view(expression), i as int)),
            decreases tokens@.len() - i, if done { 0int } else { 1int },
        {
            assert(s[i as int] == token_view(tokens@[i as int]));
            let is_times = match &tokens[i] {
                Token::Multiply => true,
                Token::Divide => false,
                _ => {
                    done = true;
                    continue;
                },
            };
            let (right, next) = Self::parse_factor(tokens, i + 1)?;
            let mut args: Vec<Expression> = Vec::new();
            args.push(expression);
            args.push(right);
            proof {
                assert(args@ =~= seq![expression, right]);
                lemma_args_pair(expression, right);
            }
            expression = if is_times {
                Expression::Product { args }
            } else {
                Expression::Quotient { args }
            };
            i = next;
        }
        Ok((expression, i))
    }

    /// A number, string, reference, range, function call, copy marker or
    /// parenthesised expression.
    fn parse_factor(tokens: &[Token], index: usize) -> (r: Result<(Expression, usize), ParseError>)
        requires
            index <= tokens@.len(),
            all_wf(tokens@),
        ensures
            parse_result(r, p_factor(views(tokens@), index as int), index as int),
            r matches Ok((e, next)) ==> index < next <= tokens@.len(),
            index < tokens@.len() && tokens@[index as int] is String ==> (r matches Ok((e, next))
                && next == index + 1 && is_text_expression(e, text_of_token(tokens@[index as int]))),
        decreases tokens@.len() - index, 1nat,
    {
        let ghost s = views(tokens@);
        if index >= tokens.len() {
            return Err(ParseError::UnexpectedEnd);
        }
        assert(s[index as int] == token_view(tokens@[index as int]));
        assert(token_wf(tokens@[index as int]));
        let next = index + 1;
        match &tokens[index] {
            Token::Number(d) => Ok((Expression::Number(*d), next)),
            Token::String(s) => Ok((Expression::String(copy_string(s)), next)),
            Token::CellReference(c) => Ok((Expression::CellReference(copy_reference(c)), next)),
            Token::CellRange { start, end } => {
                let cells = expand_range(start, end);
                Ok((Expression::Collection { expressions: cells }, next))
            },
            Token::LabelReference(l) => Ok((
                Expression::LabelReference(
                    LabelReference { label: copy_string(&l.label), n_rows: l.n_rows },
                ),
                next,
            )),
            Token::Formula(name) => Self::parse_function(tokens, next, copy_string(name)),
            Token::CopyAboveResult(c) => {
                let mut args: Vec<Expression> = Vec::new();
                let a = Expression::ColumnReference(ColumnReference { name: copy_string(&c.name) });
                args.push(a);
                proof {
                    lemma_args_push(Seq::empty(), a);
                    assert(args@ =~= Seq::<Expression>::empty().push(a));
                    assert(args_view(Seq::<Expression>::empty()) =~= Seq::<ExprView>::empty());
                    assert(args_view(args@) =~= seq![expr_view(a)]);
                }
                Ok((Expression::Function { name: String::from_str("copy_above_result"), args }, next))
            },
            Token::CopyLastResult(c) => {
                let mut args: Vec<Expression> = Vec::new();
                let a = Expression::ColumnReference(ColumnReference { name: copy_string(&c.name) });
                args.push(a);
                proof {
                    lemma_args_push(Seq::empty(), a);
                    assert(args@ =~= Seq::<Expression>::empty().push(a));
                    assert(args_view(Seq::<Expression>::empty()) =~= Seq::<ExprView>::empty());
                    assert(args_view(args@) =~= seq![expr_view(a)]);
                }
                Ok((Expression::Function { name: String::from_str("copy_last_result"), args }, next))
            },
            Token::CopyAndIncrementsFormula => {
                let args: Vec<Expression> = Vec::new();
                assert(args_view(args@) =~= Seq::<ExprView>::empty());
                Ok((
                    Expression::Function {
                        name: String::from_str("copy_and_increments_formula"),
                        args,
                    },
                    next,
                ))
            },
            Token::OpenParenthesis => {
                let (expression, after) = Self::parse_expression(tokens, next)?;
                if after < tokens.len() {
                    assert(s[after as int] == token_view(tokens@[after as int]));
                    match &tokens[after] {
                        Token::CloseParenthesis => {
                            return Ok((expression, after + 1));
                        },
                        _ => {},
                    }
                }
                Err(ParseError::UnclosedParenthesis)
            },
            _ => Err(ParseError::UnexpectedToken),
        }
    }

    /// `'(' (expression (',' expression)*)? ')'` after a function name.
    fn parse_function(tokens: &[Token], index: usize, name: String) -> (r: Result<
        (Expression, usize),
        ParseError,
    >)
        requires
            0 < index <= tokens@.len(),
            all_wf(tokens@),
        ensures
            parse_result(r, p_function(views(tokens@), index as int, name@), index as int - 1),
            r matches Ok((e, next)) ==> index <= next <= tokens@.len(),
        decreases tokens@.len() - index, 0nat,
    {
        let ghost s = views(tokens@);
        if index >= tokens.len() {
            return Err(ParseError::MissingOpenParenthesis);
        }
        assert(s[index as int] == token_view(tokens@[index as int]));
        match &tokens[index] {
            Token::OpenParenthesis => {},
            _ => {
                return Err(ParseError::MissingOpenParenthesis);
            },
        }
        let mut args: Vec<Expression> = Vec::new();
        let mut i = index + 1;
        let mut closed = false;
        let ghost whole = p_args(s, i as int, Seq::empty());
        assert(args_view(args@) =~= Seq::<ExprView>::empty());
        while i < tokens.len() && !closed
            invariant
                index < i <= tokens@.len(),
                s == views(tokens@),
                all_wf(tokens@),
                args_wf(args@),
                whole == p_args(s, index + 1, Seq::empty()),
                !closed ==> whole == p_args(s, i as int, args_view(args@)),
                closed ==> whole == Some((args_view(args@), i as int)),
            decreases tokens@.len() - i, if closed { 0int } else { 1int },
        {
            assert(s[i as int] == token_view(tokens@[i as int]));
            match &tokens[i] {
                Token::Comma => {
                    i += 1;
                },
                Token::CloseParenthesis => {
                    i += 1;
                    closed = true;
                },
                _ => {
                    let (expression, next) = Self::parse_expression(tokens, i)?;
                    proof {
                        lemma_args_push(args@, expression);
                    }
                    args.push(expression);
                    i = next;
                },
            }
        }
        if !closed {
            return Err(ParseError::UnclosedParenthesis);
        }
        Ok((Expression::Function { name, args }, i))
    }
}

} // verus!
