//! Turns the source of one formula into tokens.
use vstd::prelude::*;
use crate::column::{all_capitals, lemma_capitals_push, checked_column_number, column_letters, is_capital, lemma_letters_of_index};
use crate::decimal::{Decimal, parse_number, parsed_number, pow10};
use crate::grammar::{address_of, CellReference, ColumnReference, LabelReference};
use crate::column::column_index;
use crate::lexspec::{
    all_wf, cell_at, formula_tokens, label_at, label_scan, letters_end, digits_end, lex_from, lex_step,
    numeric_end, quote_end, token_view, token_wf, upper_letters, views, TokenView,
    is_incfrom_argument_view, shift_ok, shift_ok_at, shift_views,
};
use crate::text::{
    all_digits, lemma_all_digits_push, chars_are, chars_of, decimal_digits, digits_of, digits_value, is_digit, is_letter,
    lower, lower_text, lowercase_chars, parse_usize, string_from_chars, trim_text, trimmed, upper,
    uppercase_char,
};

verus! {

/// One lexical unit of a formula.
#[derive(Debug, Clone, PartialEq)]
pub enum Token {
    Plus,
    Minus,
    Multiply,
    Divide,
    OpenParenthesis,
    CloseParenthesis,
    Comma,
    Number(Decimal),
    String(String),
    /// A built-in function name, lower-cased.
    Formula(String),
    /// `A1`, `AB12`.
    CellReference(CellReference),
    /// `A1:B2`.
    CellRange { start: CellReference, end: CellReference },
    /// `@label<n>`.
    LabelReference(LabelReference),
    /// `A^`: the result of the cell above, in column `A`.
    CopyAboveResult(ColumnReference),
    /// `A^v`: the result of the last non-empty cell of column `A`.
    CopyLastResult(ColumnReference),
    /// `^^`: the formula of the cell above, with its references moved down.
    CopyAndIncrementsFormula,
}

/// Why a formula could not be split into tokens.
#[derive(Debug, Clone, PartialEq)]
pub enum LexError {
    /// A `!` inside a formula.
    LabelInFormula,
    /// A quote that is never closed.
    UnterminatedString,
    /// An `@` reference without a name, a `<n>` count, or with another character.
    InvalidLabelReference,
    /// A `^` that is neither part of `^^` nor follows column letters.
    InvalidCopySymbol,
    /// A name before `(` that is not a built-in function.
    UnknownFunction(String),
    /// Letters that form no reference, or a reference that cannot be read.
    InvalidReference(String),
    /// A `:` that is not followed by a cell reference.
    InvalidRange,
    /// Digits and points that do not form a number.
    InvalidNumber(String),
    /// An `incfrom` whose argument is not a plain number, or a shift that leaves the range.
    InvalidIncrement,
}

/// The text of a lexical error.
pub open spec fn lex_error_text(e: LexError) -> Seq<char> {
    match e {
        LexError::LabelInFormula => "label identifier is not allowed in formulas"@,
        LexError::UnterminatedString => "unterminated string"@,
        LexError::InvalidLabelReference => "invalid label reference"@,
        LexError::InvalidCopySymbol => "invalid copy symbol, expected ^^"@,
        LexError::UnknownFunction(t) => "unknown formula: "@ + t@,
        LexError::InvalidReference(t) => "invalid reference: "@ + t@,
        LexError::InvalidRange => "invalid range"@,
        LexError::InvalidNumber(t) => "invalid number: "@ + t@,
        LexError::InvalidIncrement => "invalid incfrom argument"@,
    }
}

impl LexError {
    /// A sentence describing the error.
    pub fn message(&self) -> (r: String)
        ensures
            r@ == lex_error_text(*self),
    {
        match self {
            LexError::LabelInFormula => String::from_str("label identifier is not allowed in formulas"),
            LexError::UnterminatedString => String::from_str("unterminated string"),
            LexError::InvalidLabelReference => String::from_str("invalid label reference"),
            LexError::InvalidCopySymbol => String::from_str("invalid copy symbol, expected ^^"),
            LexError::UnknownFunction(t) => crate::error::prefixed("unknown formula: ", t),
            LexError::InvalidReference(t) => crate::error::prefixed("invalid reference: ", t),
            LexError::InvalidRange => String::from_str("invalid range"),
            LexError::InvalidNumber(t) => crate::error::prefixed("invalid number: ", t),
            LexError::InvalidIncrement => String::from_str("invalid incfrom argument"),
        }
    }
}

/// The lexer; `increment` is added to the rows of cell references and to
/// `incfrom` arguments.
pub struct Lexer {
    pub increment: usize,
}

/// Whether `s` is the source of a formula.
pub open spec fn is_formula_source(s: Seq<char>) -> bool {
    s.len() > 0 && s[0] == '='
}

/// Whether `t` is a string token holding `s`.
pub open spec fn is_text_token(t: Token, s: Seq<char>) -> bool {
    match t {
        Token::String(x) => x@ == s,
        _ => false,
    }
}

/// Whether `s` holds a quote character.
pub open spec fn has_quote(s: Seq<char>) -> bool {
    exists|i: int| 0 <= i < s.len() && (s[i] == '"' || s[i] == '\'')
}

/// Whether `s` holds a `!`.
pub open spec fn has_bang(s: Seq<char>) -> bool {
    exists|i: int| 0 <= i < s.len() && s[i] == '!'
}

/// No `!` among `s[a..b]`.
pub open spec fn no_bang(s: Seq<char>, a: int, b: int) -> bool {
    forall|j: int| a <= j < b ==> s[j] != '!'
}

/// The built-in function names that the lexer accepts before `(`.
pub open spec fn is_known_function(name: Seq<char>) -> bool {
    name == "sum"@ || name == "split"@ || name == "gte"@ || name == "lte"@ || name == "text"@
        || name == "concat"@ || name == "incfrom"@
}

/// The cell reference with the column letters `letters` and the row spelled by `v[from..to]`.
fn make_cell_reference(letters: &Vec<char>, v: &Vec<char>, from: usize, to: usize) -> (r: Result<
    CellReference,
    LexError,
>)
    requires
        from <= to <= v.len(),
        all_capitals(letters@),
        letters@.len() > 0,
        all_digits(v@.subrange(from as int, to as int)),
    ensures
        r matches Ok(c) ==> c.wf() && c.column_name@ == letters@ && c.row == digits_value(
            v@.subrange(from as int, to as int),
        ) && c.column == column_index(letters@),
        r is Err <==> digits_value(v@.subrange(from as int, to as int)) > usize::MAX
            || column_index(letters@) > usize::MAX,
{
    let row = match parse_usize(v, from, to) {
        Some(n) => n,
        None => {
            return Err(LexError::InvalidReference(string_from_chars(letters.as_slice())));
        },
    };
    let column = match checked_column_number(letters.as_slice()) {
        Some(n) => n,
        None => {
            return Err(LexError::InvalidReference(string_from_chars(letters.as_slice())));
        },
    };
    proof {
        lemma_letters_of_index(letters@);
    }
    Ok(cell_reference_at(letters, column, row))
}

/// The cell reference to `letters` and `row`, where `letters` names `column`.
pub(crate) fn cell_reference_at(letters: &Vec<char>, column: usize, row: usize) -> (r: CellReference)
    requires
        letters@ == column_letters(column as nat),
    ensures
        r.wf(),
        r.column == column,
        r.row == row,
        r.column_name@ == letters@,
{
    let mut hash_chars = letters.clone();
    let mut ds = digits_of(row as u128);
    hash_chars.append(&mut ds);
    CellReference {
        hash: string_from_chars(hash_chars.as_slice()),
        column_name: string_from_chars(letters.as_slice()),
        column,
        row,
    }
}

/// `new` is `old` with one well-formed token pushed, and `step` says that
/// this token ends at `p`.
pub open spec fn pushed_one(
    old: Seq<Token>,
    new: Seq<Token>,
    step: Option<(Seq<TokenView>, int)>,
    p: int,
) -> bool {
    &&& new.len() == old.len() + 1
    &&& new == old.push(new.last())
    &&& step == Some((seq![token_view(new.last())], p))
    &&& token_wf(new.last())
}

proof fn lemma_views_push(ts: Seq<Token>, t: Token)
    ensures
        views(ts.push(t)) == views(ts) + seq![token_view(t)],
{
    assert(views(ts.push(t)) =~= views(ts) + seq![token_view(t)]);
}

/// Scans letters from `pos`, upper-cased.
fn scan_letters(v: &Vec<char>, pos: usize) -> (r: (Vec<char>, usize))
    requires
        pos <= v.len(),
    ensures
        r.1 == letters_end(v@, pos as int),
        pos <= r.1 <= v.len(),
        r.0@ == upper_letters(v@, pos as int, r.1 as int),
        all_capitals(r.0@),
        no_bang(v@, pos as int, r.1 as int),
{
    let mut letters: Vec<char> = Vec::new();
    let mut j = pos;
    while j < v.len() && is_letter_char(v[j])
        invariant
            pos <= j <= v.len(),
            letters_end(v@, pos as int) == letters_end(v@, j as int),
            letters@ == upper_letters(v@, pos as int, j as int),
            all_capitals(letters@),
            no_bang(v@, pos as int, j as int),
            forall|k: int| pos <= k < j ==> is_letter(#[trigger] v@[k]),
        decreases v.len() - j,
    {
        let u = uppercase_char(v[j]);
        proof {
            lemma_capitals_push(letters@, u);
            assert(upper_letters(v@, pos as int, j + 1) =~= upper_letters(v@, pos as int, j as int).push(u));
        }
        letters.push(u);
        j += 1;
    }
    (letters, j)
}

/// Scans digits from `pos`.
fn scan_digits(v: &Vec<char>, pos: usize) -> (r: usize)
    requires
        pos <= v.len(),
    ensures
        r == digits_end(v@, pos as int),
        pos <= r <= v.len(),
        all_digits(v@.subrange(pos as int, r as int)),
        no_bang(v@, pos as int, r as int),
{
    let mut j = pos;
    while j < v.len() && '0' <= v[j] && v[j] <= '9'
        invariant
            pos <= j <= v.len(),
            digits_end(v@, pos as int) == digits_end(v@, j as int),
            all_digits(v@.subrange(pos as int, j as int)),
            no_bang(v@, pos as int, j as int),
        decreases v.len() - j,
    {
        proof {
            lemma_all_digits_push(v@.subrange(pos as int, j as int), v@[j as int]);
            assert(v@.subrange(pos as int, j + 1) =~= v@.subrange(pos as int, j as int).push(
                v@[j as int],
            ));
        }
        j += 1;
    }
    j
}

impl Lexer {
    /// Handles the character after a `^`: it must be a second `^`.
    fn tokenize_copy_and_increment(v: &Vec<char>, pos: usize, tokens: &mut Vec<Token>) -> (r:
        Result<usize, LexError>)
        requires
            1 <= pos <= v.len(),
            v@[pos - 1] == '^',
        ensures
            r matches Ok(p) ==> pos <= p <= v.len() && no_bang(v@, pos as int, p as int)
                && pushed_one(old(tokens)@, final(tokens)@, lex_step(v@, pos - 1), p as int),
            r is Err ==> lex_step(v@, pos - 1) is None,
    {
        if pos < v.len() && v[pos] == '^' {
            tokens.push(Token::CopyAndIncrementsFormula);
            Ok(pos + 1)
        } else {
            Err(LexError::InvalidCopySymbol)
        }
    }

    /// Reads a string after its opening quote, up to the matching quote.
    fn tokenize_string(v: &Vec<char>, pos: usize, tokens: &mut Vec<Token>, quote: char) -> (r:
        Result<usize, LexError>)
        requires
            1 <= pos <= v.len(),
            v@[pos - 1] == quote,
            quote == '"' || quote == '\'',
        ensures
            r matches Ok(p) ==> pos <= p <= v.len() && pushed_one(
                old(tokens)@,
                final(tokens)@,
                lex_step(v@, pos - 1),
                p as int,
            ),
            r is Err ==> lex_step(v@, pos - 1) is None,
    {
        let mut j = pos;
        while j < v.len() && v[j] != quote
            invariant
                pos <= j <= v.len(),
                quote_end(v@, pos as int, quote) == quote_end(v@, j as int, quote),
            decreases v.len() - j,
        {
            j += 1;
        }
        if j >= v.len() {
            return Err(LexError::UnterminatedString);
        }
        let mut text: Vec<char> = Vec::new();
        let mut k = pos;
        while k < j
            invariant
                pos <= k <= j < v.len(),
                text@ == v@.subrange(pos as int, k as int),
            decreases j - k,
        {
            text.push(v[k]);
            assert(v@.subrange(pos as int, k + 1) =~= v@.subrange(pos as int, k as int).push(
                v@[k as int],
            ));
            k += 1;
        }
        tokens.push(Token::String(string_from_chars(text.as_slice())));
        Ok(j + 1)
    }

    /// Reads `name<n>` after an `@`.
    fn tokenize_label_reference(v: &Vec<char>, pos: usize, tokens: &mut Vec<Token>) -> (r: Result<
        usize,
        LexError,
    >)
        requires
            1 <= pos <= v.len(),
            v@[pos - 1] == '@',
        ensures
            r matches Ok(p) ==> pos <= p <= v.len() && no_bang(v@, pos as int, p as int)
                && pushed_one(old(tokens)@, final(tokens)@, lex_step(v@, pos - 1), p as int),
            r is Err ==> lex_step(v@, pos - 1) is None,
    {
        let mut label: Vec<char> = Vec::new();
        let mut count: Vec<char> = Vec::new();
        let mut in_label = true;
        let mut j = pos;
        let mut closed = false;
        let ghost whole = label_scan(v@, pos as int, true, Seq::empty(), Seq::empty());
        while j < v.len() && !closed
            invariant
                1 <= pos <= j <= v.len(),
                v@[pos - 1] == '@',
                no_bang(v@, pos as int, j as int),
                all_digits(count@),
                whole == label_scan(v@, pos as int, true, Seq::empty(), Seq::empty()),
                !closed ==> whole == label_scan(v@, j as int, in_label, label@, count@),
                closed ==> whole == Some((label@, count@, j as int)),
            decreases v.len() - j, if closed { 0int } else { 1int },
        {
            let c = v[j];
            if is_letter_char(c) || c == '_' {
                label.push(lowercase_char_of(c));
            } else if '0' <= c && c <= '9' {
                if in_label {
                    label.push(c);
                } else {
                    proof {
                        lemma_all_digits_push(count@, c);
                    }
                    count.push(c);
                }
            } else if c == '<' {
                in_label = false;
            } else if c == '>' {
                closed = true;
            } else {
                return Err(LexError::InvalidLabelReference);
            }
            j += 1;
        }
        if label.len() == 0 || count.len() == 0 {
            return Err(LexError::InvalidLabelReference);
        }
        assert(count@.subrange(0, count@.len() as int) =~= count@);
        let n_rows = match parse_usize(&count, 0, count.len()) {
            Some(n) => n,
            None => {
                return Err(LexError::InvalidLabelReference);
            },
        };
        tokens.push(
            Token::LabelReference(
                LabelReference { label: string_from_chars(label.as_slice()), n_rows },
            ),
        );
        Ok(j)
    }

    /// Reads a number from its first digit at `pos`.
    fn tokenize_number(v: &Vec<char>, pos: usize, tokens: &mut Vec<Token>) -> (r: Result<
        usize,
        LexError,
    >)
        requires
            pos < v.len(),
            is_digit(v@[pos as int]),
        ensures
            r matches Ok(p) ==> pos < p <= v.len() && no_bang(v@, pos as int, p as int)
                && pushed_one(old(tokens)@, final(tokens)@, lex_step(v@, pos as int), p as int),
            r is Err ==> lex_step(v@, pos as int) is None,
    {
        let mut text: Vec<char> = Vec::new();
        let mut j = pos;
        while j < v.len() && (('0' <= v[j] && v[j] <= '9') || v[j] == '.')
            invariant
                pos <= j <= v.len(),
                no_bang(v@, pos as int, j as int),
                numeric_end(v@, pos as int) == numeric_end(v@, j as int),
                text@ == v@.subrange(pos as int, j as int),
            decreases v.len() - j,
        {
            text.push(v[j]);
            assert(v@.subrange(pos as int, j + 1) =~= v@.subrange(pos as int, j as int).push(
                v@[j as int],
            ));
            j += 1;
        }
        match parse_number(&text) {
            Some(d) => {
                tokens.push(Token::Number(d));
                Ok(j)
            },
            None => Err(LexError::InvalidNumber(string_from_chars(text.as_slice()))),
        }
    }

    /// Reads a cell reference (`AB12`) from its first letter at `pos`.
    fn tokenize_cell(v: &Vec<char>, pos: usize) -> (r: Result<(CellReference, usize), LexError>)
        requires
            pos < v.len(),
        ensures
            r matches Ok((c, p)) ==> pos < p <= v.len() && no_bang(v@, pos as int, p as int)
                && c.wf() && cell_at(v@, pos as int) == Some((c.column as nat, c.row as nat, p as int)),
            r is Err ==> cell_at(v@, pos as int) is None,
    {
        let (letters, start) = scan_letters(v, pos);
        let j = scan_digits(v, start);
        if letters.len() == 0 || j == start || (j < v.len() && is_letter_char(v[j])) {
            return Err(LexError::InvalidReference(string_from_chars(letters.as_slice())));
        }
        let c = make_cell_reference(&letters, v, start, j)?;
        Ok((c, j))
    }

    /// Reads a range end after a cell reference that ends at `pos`, or keeps the reference.
    fn tokenize_cell_or_range(
        v: &Vec<char>,
        pos: usize,
        tokens: &mut Vec<Token>,
        start: CellReference,
    ) -> (r: Result<usize, LexError>)
        requires
            pos <= v.len(),
            start.wf(),
        ensures
            r matches Ok(p) ==> pos <= p <= v.len() && no_bang(v@, pos as int, p as int) && (
            if pos < v.len() && v@[pos as int] == ':' {
                pos + 1 < v.len() && is_letter(v@[pos + 1]) && (cell_at(v@, pos + 1) matches Some(
                    (c2, r2, e),
                ) && e == p && pushed_one(
                    old(tokens)@,
                    final(tokens)@,
                    Some((seq![TokenView::Range(start.column as nat, start.row as nat, c2, r2)], e)),
                    p as int,
                ))
            } else {
                p == pos && pushed_one(
                    old(tokens)@,
                    final(tokens)@,
                    Some((seq![TokenView::Cell(start.column as nat, start.row as nat)], pos as int)),
                    p as int,
                )
            }),
            r is Err ==> pos < v.len() && v@[pos as int] == ':' && (!(pos + 1 < v.len() && is_letter(
                v@[pos + 1],
            )) || cell_at(v@, pos + 1) is None),
    {
        if pos < v.len() && v[pos] == ':' {
            if pos + 1 < v.len() && is_letter_char(v[pos + 1]) {
                let (end, p) = Self::tokenize_cell(v, pos + 1)?;
                tokens.push(Token::CellRange { start, end });
                Ok(p)
            } else {
                Err(LexError::InvalidRange)
            }
        } else {
            tokens.push(Token::CellReference(start));
            Ok(pos)
        }
    }

    /// Reads what starts with a letter at `pos`: a function name before `(`, a
    /// cell reference or range, or column letters before `^` or `^v`.
    fn tokenize_reference_or_formula(v: &Vec<char>, pos: usize, tokens: &mut Vec<Token>) -> (r:
        Result<usize, LexError>)
        requires
            pos < v.len(),
            is_letter(v@[pos as int]),
        ensures
            r matches Ok(p) ==> pos < p <= v.len() && no_bang(v@, pos as int, p as int)
                && pushed_one(old(tokens)@, final(tokens)@, lex_step(v@, pos as int), p as int),
            r is Err ==> lex_step(v@, pos as int) is None,
    {
        let (letters, j) = scan_letters(v, pos);
        if j < v.len() && '0' <= v[j] && v[j] <= '9' {
            let start = j;
            let e = scan_digits(v, start);
            if e < v.len() && (is_letter_char(v[e]) || v[e] == '(' || v[e] == '^') {
                return Err(LexError::InvalidReference(string_from_chars(letters.as_slice())));
            }
            let cell = make_cell_reference(&letters, v, start, e)?;
            return Self::tokenize_cell_or_range(v, e, tokens, cell);
        }
        if j < v.len() && v[j] == '(' {
            let name = lowercase_chars(&letters);
            if chars_are(&name, "sum") || chars_are(&name, "split") || chars_are(&name, "gte")
                || chars_are(&name, "lte") || chars_are(&name, "text") || chars_are(&name, "concat")
                || chars_are(&name, "incfrom") {
                tokens.push(Token::Formula(string_from_chars(name.as_slice())));
                return Ok(j);
            }
            return Err(LexError::UnknownFunction(string_from_chars(letters.as_slice())));
        }
        if j < v.len() && v[j] == '^' {
            let column = ColumnReference { name: string_from_chars(letters.as_slice()) };
            if j + 1 < v.len() && (v[j + 1] == 'v' || v[j + 1] == 'V') {
                tokens.push(Token::CopyLastResult(column));
                return Ok(j + 2);
            }
            tokens.push(Token::CopyAboveResult(column));
            return Ok(j + 1);
        }
        Err(LexError::InvalidReference(string_from_chars(letters.as_slice())))
    }

    /// The tokens of a formula source, from the position after its `=`.
    fn tokenize_formula(v: &Vec<char>) -> (r: Result<Vec<Token>, LexError>)
        requires
            is_formula_source(v@),
        ensures
            !has_quote(v@) && has_bang(v@) ==> r is Err,
            match formula_tokens(v@) {
                Some(vs) => r matches Ok(ts) && views(ts@) == vs && all_wf(ts@),
                None => r is Err,
            },
    {
        let mut tokens: Vec<Token> = Vec::new();
        let mut i: usize = 1;
        assert(views(tokens@) =~= Seq::<TokenView>::empty());
        while i < v.len()
            invariant
                1 <= i <= v.len(),
                is_formula_source(v@),
                !has_quote(v@) ==> no_bang(v@, 0, i as int),
                formula_tokens(v@) == match lex_from(v@, i as int) {
                    Some(rest) => Some(views(tokens@) + rest),
                    None => None::<Seq<TokenView>>,
                },
                all_wf(tokens@),
            decreases v.len() - i,
        {
            let c = v[i];
            let ghost before = tokens@;
            let next = if c == '+' {
                tokens.push(Token::Plus);
                i + 1
            } else if c == '-' {
                tokens.push(Token::Minus);
                i + 1
            } else if c == '*' {
                tokens.push(Token::Multiply);
                i + 1
            } else if c == '/' {
                tokens.push(Token::Divide);
                i + 1
            } else if c == '(' {
                tokens.push(Token::OpenParenthesis);
                i + 1
            } else if c == ')' {
                tokens.push(Token::CloseParenthesis);
                i + 1
            } else if c == ',' {
                tokens.push(Token::Comma);
                i + 1
            } else if c == '@' {
                Self::tokenize_label_reference(v, i + 1, &mut tokens)?
            } else if c == '^' {
                Self::tokenize_copy_and_increment(v, i + 1, &mut tokens)?
            } else if c == '"' || c == '\'' {
                assert(has_quote(v@));
                Self::tokenize_string(v, i + 1, &mut tokens, c)?
            } else if is_letter_char(c) {
                Self::tokenize_reference_or_formula(v, i, &mut tokens)?
            } else if '0' <= c && c <= '9' {
                Self::tokenize_number(v, i, &mut tokens)?
            } else if c == '!' {
                return Err(LexError::LabelInFormula);
            } else {
                i + 1
            };
            proof {
                if tokens@.len() == before.len() {
                    assert(tokens@ == before);
                    assert(lex_step(v@, i as int) == Some((Seq::<TokenView>::empty(), next as int)));
                    assert(views(before) + Seq::<TokenView>::empty() =~= views(before));
                } else {
                    lemma_views_push(before, tokens@.last());
                    assert(lex_step(v@, i as int) == Some((seq![token_view(tokens@.last())], next as int)));
                    assert forall|k: int| 0 <= k < tokens@.len() implies token_wf(#[trigger] tokens@[k]) by {
                        if k < before.len() {
                            assert(tokens@[k] == before[k]);
                        }
                    }
                }
                let (emitted, _) = lex_step(v@, i as int)->0;
                match lex_from(v@, next as int) {
                    Some(rest) => {
                        assert(views(tokens@) + rest =~= views(before) + (emitted + rest));
                    },
                    None => {},
                }
            }
            i = next;
        }
        proof {
            if !has_quote(v@) && has_bang(v@) {
                let k = choose|k: int| 0 <= k < v@.len() && v@[k] == '!';
                assert(v@[k] != '!');
            }
            assert(views(tokens@) + Seq::<TokenView>::empty() =~= views(tokens@));
        }
        Ok(tokens)
    }

    /// The tokens of a cell source. Text that is not a formula gives one
    /// string token holding it trimmed.
    pub fn tokenize(content: &str) -> (r: Result<Vec<Token>, LexError>)
        ensures
            !is_formula_source(content@) ==> (r matches Ok(ts) && ts@.len() == 1 && is_text_token(
                ts@[0],
                trimmed(content@),
            )),
            is_formula_source(content@) && !has_quote(content@) && has_bang(content@) ==> r is Err,
            is_formula_source(content@) ==> match formula_tokens(content@) {
                Some(vs) => r matches Ok(ts) && views(ts@) == vs && all_wf(ts@),
                None => r is Err,
            },
            r matches Ok(ts) ==> all_wf(ts@),
    {
        let v = chars_of(content);
        if v.len() == 0 || v[0] != '=' {
            let mut ts: Vec<Token> = Vec::new();
            ts.push(Token::String(trim_text(content)));
            return Ok(ts);
        }
        Self::tokenize_formula(&v)
    }

    /// The tokens of a cell source with the increment `amount` applied (see
    /// `shift_tokens`).
    pub fn tokenize_and_increment(content: &str, amount: usize) -> (r: Result<Vec<Token>, LexError>)
        ensures
            !is_formula_source(content@) ==> (r matches Ok(ts) && ts@.len() == 1 && is_text_token(
                ts@[0],
                trimmed(content@),
            )),
            is_formula_source(content@) && !has_quote(content@) && has_bang(content@) ==> r is Err,
            is_formula_source(content@) && formula_tokens(content@) is None ==> r is Err,
            r matches Ok(ts) ==> all_wf(ts@),
            is_formula_source(content@) && amount > 0 ==> (r matches Ok(ts) ==> formula_tokens(
                content@,
            ) is Some && views(ts@) == shift_views(formula_tokens(content@)->0, amount as nat)),
            is_formula_source(content@) && amount > 0 ==> (r is Ok <==> (formula_tokens(content@) is Some
                && shift_ok(formula_tokens(content@)->0, amount as nat))),
            is_formula_source(content@) && amount == 0 ==> match formula_tokens(content@) {
                Some(vs) => r matches Ok(ts) && views(ts@) == vs && all_wf(ts@),
                None => r is Err,
            },
            is_formula_source(content@) && amount > 0 ==> (r matches Ok(ts) ==> exists|base: Seq<Token>|
                views(base) == formula_tokens(content@)->0 && base.len() == ts@.len() && forall|i: int|
                0 <= i < base.len() ==> #[trigger] shifted_at(base, ts@, i, amount as nat)),
    {
        let mut tokens = Self::tokenize(content)?;
        let ghost base = tokens@;
        let v = chars_of(content);
        if v.len() == 0 || v[0] != '=' {
            return Ok(tokens);
        }
        shift_tokens(&mut tokens, amount)?;
        assert(amount > 0 ==> views(base) == formula_tokens(content@)->0 && base.len() == tokens@.len()
            && forall|i: int| 0 <= i < base.len() ==> #[trigger] shifted_at(base, tokens@, i, amount as nat));
        proof {
            if amount > 0 {
                lemma_shifted_views(base, tokens@, amount as nat);
            }
        }
        Ok(tokens)
    }
}

/// `y` is `x` moved `k` rows down.
pub open spec fn moved_down(x: CellReference, y: CellReference, k: nat) -> bool {
    &&& y.wf()
    &&& y.column == x.column
    &&& y.row == x.row + k
}

/// Whether `t` names the `incfrom` function.
pub open spec fn is_incfrom(t: Token) -> bool {
    match t {
        Token::Formula(n) => n@ == "incfrom"@,
        _ => false,
    }
}

/// Whether position `i` of `ts` holds the argument of an `incfrom(` call.
pub open spec fn is_incfrom_argument(ts: Seq<Token>, i: int) -> bool {
    &&& 2 <= i < ts.len()
    &&& ts[i - 1] == Token::OpenParenthesis
    &&& is_incfrom(ts[i - 2])
}

/// Token `i` of `b` is token `i` of `a` with the increment `k` applied: cell
/// references and ranges move `k` rows down, the number of an `incfrom(`
/// grows by `k`, everything else stays.
pub open spec fn shifted_at(a: Seq<Token>, b: Seq<Token>, i: int, k: nat) -> bool {
    match a[i] {
        Token::CellReference(x) => match b[i] {
            Token::CellReference(y) => moved_down(x, y, k),
            _ => false,
        },
        Token::CellRange { start, end } => match b[i] {
            Token::CellRange { start: s, end: e } => moved_down(start, s, k) && moved_down(end, e, k),
            _ => false,
        },
        Token::Number(d) => if is_incfrom_argument(a, i) {
            match b[i] {
                Token::Number(e) => e.scale == d.scale && e.mantissa == d.mantissa + k * pow10(
                    d.scale as nat,
                ),
                _ => false,
            }
        } else {
            b[i] == a[i]
        },
        _ => b[i] == a[i],
    }
}

/// Applying the increment token by token gives the shifted views.
proof fn lemma_shifted_views(base: Seq<Token>, ts: Seq<Token>, k: nat)
    requires
        base.len() == ts.len(),
        forall|i: int| 0 <= i < base.len() ==> #[trigger] shifted_at(base, ts, i, k),
    ensures
        views(ts) == shift_views(views(base), k),
{
    let vb = views(base);
    assert forall|i: int| 0 <= i < ts.len() implies #[trigger] views(ts)[i] == shift_views(vb, k)[i] by {
        assert(shifted_at(base, ts, i, k));
        assert(vb[i] == token_view(base[i]));
        if i >= 2 {
            assert(vb[i - 1] == token_view(base[i - 1]));
            assert(vb[i - 2] == token_view(base[i - 2]));
            assert(is_incfrom_argument(base, i) == is_incfrom_argument_view(vb, i));
        }
    }
    assert(views(ts) =~= shift_views(vb, k));
}

/// `x` moved `k` rows down.
fn move_down(x: &CellReference, k: usize) -> (r: Result<CellReference, LexError>)
    ensures
        r matches Ok(y) ==> moved_down(*x, y, k as nat),
        r is Ok <==> x.row + k <= usize::MAX,
{
    let row = match x.row.checked_add(k) {
        Some(n) => n,
        None => {
            return Err(LexError::InvalidIncrement);
        },
    };
    let name = crate::column::get_column_name(x.column);
    let letters = chars_of(name.as_str());
    Ok(cell_reference_at(&letters, x.column, row))
}

/// Applies the increment `k` to every token: see `shifted_at`. An `incfrom`
/// not followed by `(` and a number is an error when `k` is positive.
pub fn shift_tokens(tokens: &mut Vec<Token>, k: usize) -> (r: Result<(), LexError>)
    ensures
        k == 0 ==> r is Ok && final(tokens)@ == old(tokens)@,
        r is Ok && all_wf(old(tokens)@) ==> all_wf(final(tokens)@),
        k > 0 ==> (r is Ok <==> shift_ok(views(old(tokens)@), k as nat)),
        k > 0 && r is Ok ==> final(tokens)@.len() == old(tokens)@.len() && forall|i: int|
            0 <= i < old(tokens)@.len() ==> #[trigger] shifted_at(
                old(tokens)@,
                final(tokens)@,
                i,
                k as nat,
            ),
{
    if k == 0 {
        return Ok(());
    }
    let ghost orig = tokens@;
    let mut i: usize = 0;
    while i < tokens.len()
        invariant
            k > 0,
            i <= tokens@.len() == orig.len(),
            forall|j: int| 0 <= j < i ==> #[trigger] shifted_at(orig, tokens@, j, k as nat),
            forall|j: int| i <= j < orig.len() ==> tokens@[j] == orig[j],
            !is_incfrom_argument(orig, i as int),
            i > 0 ==> !is_incfrom(orig[i - 1]),
            forall|j: int| 0 <= j < i ==> #[trigger] shift_ok_at(views(orig), j, k as nat),
            orig == old(tokens)@,
        decreases tokens.len() - i,
    {
        let ghost before = tokens@;
        let ghost vo = views(orig);
        proof {
            assert(vo[i as int] == token_view(orig[i as int]));
            if i + 2 < orig.len() {
                assert(vo[i + 1] == token_view(orig[i + 1]));
                assert(vo[i + 2] == token_view(orig[i + 2]));
            }
        }
        let step: usize = match &tokens[i] {
            Token::CellReference(x) => {
                let y = match move_down(x, k) {
                    Ok(y) => y,
                    Err(err) => {
                        assert(vo[i as int] == TokenView::Cell(x.column as nat, x.row as nat));
                        assert(!shift_ok_at(vo, i as int, k as nat));
                        return Err(err);
                    },
                };
                tokens.set(i, Token::CellReference(y));
                assert(shifted_at(orig, tokens@, i as int, k as nat));
                1
            },
            Token::CellRange { start, end } => {
                let s = match move_down(start, k) {
                    Ok(y) => y,
                    Err(err) => {
                        assert(vo[i as int] == TokenView::Range(
                            start.column as nat,
                            start.row as nat,
                            end.column as nat,
                            end.row as nat,
                        ));
                        assert(!shift_ok_at(vo, i as int, k as nat));
                        return Err(err);
                    },
                };
                let e = match move_down(end, k) {
                    Ok(y) => y,
                    Err(err) => {
                        assert(!shift_ok_at(vo, i as int, k as nat));
                        return Err(err);
                    },
                };
                tokens.set(i, Token::CellRange { start: s, end: e });
                assert(shifted_at(orig, tokens@, i as int, k as nat));
                1
            },
            Token::Formula(n) => {
                let name = chars_of(n.as_str());
                if chars_are(&name, "incfrom") {
                    if tokens.len() - i <= 2 {
                        assert(!shift_ok_at(vo, i as int, k as nat));
                        return Err(LexError::InvalidIncrement);
                    }
                    match &tokens[i + 1] {
                        Token::OpenParenthesis => {},
                        _ => {
                            assert(!shift_ok_at(vo, i as int, k as nat));
                            return Err(LexError::InvalidIncrement);
                        },
                    }
                    let d = match &tokens[i + 2] {
                        Token::Number(d) => *d,
                        _ => {
                            assert(!shift_ok_at(vo, i as int, k as nat));
                            return Err(LexError::InvalidIncrement);
                        },
                    };
                    let e = match crate::decimal::add(d, Decimal::from_u64(k as u64)) {
                        Some(e) => e,
                        None => {
                            assert(!shift_ok_at(vo, i as int, k as nat));
                            return Err(LexError::InvalidIncrement);
                        },
                    };
                    assert(shift_ok_at(vo, i as int, k as nat));
                    assert(shift_ok_at(vo, i + 1, k as nat));
                    assert(shift_ok_at(vo, i + 2, k as nat));
                    tokens.set(i + 2, Token::Number(e));
                    proof {
                        assert(is_incfrom(orig[i as int]));
                        assert(is_incfrom_argument(orig, i + 2));
                        assert(pow10(0) == 1);
                        let kd = Decimal { mantissa: k as i128, scale: 0 };
                        assert(crate::decimal::max_scale(d, kd) == d.scale);
                        assert(crate::decimal::rescaled(d, d.scale as nat) == d.mantissa * 1);
                        assert(e.mantissa == d.mantissa + k * pow10(d.scale as nat));
                        assert(orig[i + 2] == Token::Number(d));
                        assert(shifted_at(orig, tokens@, i + 2, k as nat));
                        assert(shifted_at(orig, tokens@, i + 1, k as nat));
                        assert(shifted_at(orig, tokens@, i as int, k as nat));
                    }
                    3
                } else {
                    assert(!is_incfrom(orig[i as int]));
                    assert(shifted_at(orig, tokens@, i as int, k as nat));
                    1
                }
            },
            _ => {
                assert(!is_incfrom(orig[i as int]));
                assert(shifted_at(orig, tokens@, i as int, k as nat));
                1
            },
        };
        assert forall|j: int| 0 <= j < i implies #[trigger] shifted_at(orig, tokens@, j, k as nat) by {
            assert(tokens@[j] == before[j]);
            assert(shifted_at(orig, before, j, k as nat));
        }
        assert(shift_ok_at(vo, i as int, k as nat));
        i = i + step;
    }
    assert(all_wf(orig) ==> all_wf(tokens@)) by {
        if all_wf(orig) {
            assert forall|j: int| 0 <= j < tokens@.len() implies token_wf(#[trigger] tokens@[j]) by {
                assert(shifted_at(orig, tokens@, j, k as nat));
                assert(token_wf(orig[j]));
            }
        }
    }
    Ok(())
}

/// Whether `c` is an ASCII letter.
fn is_letter_char(c: char) -> (r: bool)
    ensures
        r == is_letter(c),
{
    ('A' <= c && c <= 'Z') || ('a' <= c && c <= 'z')
}

fn lowercase_char_of(c: char) -> (r: char)
    ensures
        r == lower(c),
{
    crate::text::lowercase_char(c)
}

} // verus!
