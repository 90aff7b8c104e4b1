//! The tokens of a formula source, stated over characters.
use vstd::prelude::*;
use crate::column::column_index;
use crate::decimal::{parsed_number, plus, pow10, Decimal};
use crate::grammar::CellReference;
use crate::lexer::{is_known_function, Token};
use crate::text::{digits_value, is_digit, is_letter, lower, lower_text, upper};

verus! {

/// What a token says, with strings as character sequences and cell
/// references as (column, row).
pub enum TokenView {
    Plus,
    Minus,
    Multiply,
    Divide,
    Open,
    Close,
    Comma,
    Number(Decimal),
    Text(Seq<char>),
    Formula(Seq<char>),
    Cell(nat, nat),
    Range(nat, nat, nat, nat),
    Label(Seq<char>, nat),
    CopyAbove(Seq<char>),
    CopyLast(Seq<char>),
    CopyAndIncrement,
}

/// What token `t` says.
pub open spec fn token_view(t: Token) -> TokenView {
    match t {
        Token::Plus => TokenView::Plus,
        Token::Minus => TokenView::Minus,
        Token::Multiply => TokenView::Multiply,
        Token::Divide => TokenView::Divide,
        Token::OpenParenthesis => TokenView::Open,
        Token::CloseParenthesis => TokenView::Close,
        Token::Comma => TokenView::Comma,
        Token::Number(d) => TokenView::Number(d),
        Token::String(s) => TokenView::Text(s@),
        Token::Formula(s) => TokenView::Formula(s@),
        Token::CellReference(c) => TokenView::Cell(c.column as nat, c.row as nat),
        Token::CellRange { start, end } => TokenView::Range(
            start.column as nat,
            start.row as nat,
            end.column as nat,
            end.row as nat,
        ),
        Token::LabelReference(l) => TokenView::Label(l.label@, l.n_rows as nat),
        Token::CopyAboveResult(c) => TokenView::CopyAbove(c.name@),
        Token::CopyLastResult(c) => TokenView::CopyLast(c.name@),
        Token::CopyAndIncrementsFormula => TokenView::CopyAndIncrement,
    }
}

/// Whether the cell references that token `t` holds are well formed.
pub open spec fn token_wf(t: Token) -> bool {
    match t {
        Token::CellReference(c) => c.wf(),
        Token::CellRange { start, end } => start.wf() && end.wf(),
        _ => true,
    }
}

/// What the tokens say.
pub open spec fn views(ts: Seq<Token>) -> Seq<TokenView> {
    ts.map_values(|t: Token| token_view(t))
}

/// Whether every token is well formed.
pub open spec fn all_wf(ts: Seq<Token>) -> bool {
    forall|i: int| 0 <= i < ts.len() ==> token_wf(#[trigger] ts[i])
}

/// The end of the run of letters from `i`.
pub open spec fn letters_end(s: Seq<char>, i: int) -> int
    decreases s.len() - i,
{
    if 0 <= i < s.len() && is_letter(s[i]) {
        letters_end(s, i + 1)
    } else {
        i
    }
}

/// The end of the run of digits from `i`.
pub open spec fn digits_end(s: Seq<char>, i: int) -> int
    decreases s.len() - i,
{
    if 0 <= i < s.len() && is_digit(s[i]) {
        digits_end(s, i + 1)
    } else {
        i
    }
}

/// The end of the run of digits and points from `i`.
pub open spec fn numeric_end(s: Seq<char>, i: int) -> int
    decreases s.len() - i,
{
    if 0 <= i < s.len() && (is_digit(s[i]) || s[i] == '.') {
        numeric_end(s, i + 1)
    } else {
        i
    }
}

/// The position of the first `q` from `i` (the length if there is none).
pub open spec fn quote_end(s: Seq<char>, i: int, q: char) -> int
    decreases s.len() - i,
{
    if 0 <= i < s.len() && s[i] != q {
        quote_end(s, i + 1, q)
    } else {
        i
    }
}

/// The letters `s[a..b]` in upper case.
pub open spec fn upper_letters(s: Seq<char>, a: int, b: int) -> Seq<char> {
    s.subrange(a, b).map_values(|c: char| upper(c))
}

/// A cell reference `letters digits` from `i`: column, row and end.
pub open spec fn cell_at(s: Seq<char>, i: int) -> Option<(nat, nat, int)> {
    let le = letters_end(s, i);
    let de = digits_end(s, le);
    let column = column_index(upper_letters(s, i, le));
    let row = digits_value(s.subrange(le, de));
    if le == i || de == le || (de < s.len() && is_letter(s[de])) || row > usize::MAX || column
        > usize::MAX {
        None
    } else {
        Some((column, row, de))
    }
}

/// What starts with a letter at `i`: a cell reference or range, a function
/// name before `(`, or column letters before `^` or `^v`.
pub open spec fn word_at(s: Seq<char>, i: int) -> Option<(Seq<TokenView>, int)> {
    let le = letters_end(s, i);
    let letters = upper_letters(s, i, le);
    if le < s.len() && is_digit(s[le]) {
        let de = digits_end(s, le);
        let row = digits_value(s.subrange(le, de));
        let column = column_index(letters);
        if de < s.len() && (is_letter(s[de]) || s[de] == '(' || s[de] == '^') {
            None
        } else if row > usize::MAX || column > usize::MAX {
            None
        } else if de < s.len() && s[de] == ':' {
            if de + 1 < s.len() && is_letter(s[de + 1]) {
                match cell_at(s, de + 1) {
                    Some((c2, r2, e)) => Some((seq![TokenView::Range(column, row, c2, r2)], e)),
                    None => None,
                }
            } else {
                None
            }
        } else {
            Some((seq![TokenView::Cell(column, row)], de))
        }
    } else if le < s.len() && s[le] == '(' {
        if is_known_function(lower_text(letters)) {
            Some((seq![TokenView::Formula(lower_text(letters))], le))
        } else {
            None
        }
    } else if le < s.len() && s[le] == '^' {
        if le + 1 < s.len() && (s[le + 1] == 'v' || s[le + 1] == 'V') {
            Some((seq![TokenView::CopyLast(letters)], le + 2))
        } else {
            Some((seq![TokenView::CopyAbove(letters)], le + 1))
        }
    } else {
        None
    }
}

/// Reads a label reference from `j`: the label so far, the count digits so
/// far, and whether the `<` has come.
pub open spec fn label_scan(
    s: Seq<char>,
    j: int,
    in_label: bool,
    label: Seq<char>,
    count: Seq<char>,
) -> Option<(Seq<char>, Seq<char>, int)>
    decreases s.len() - j,
{
    if j < 0 || j >= s.len() {
        Some((label, count, j))
    } else {
        let c = s[j];
        if is_letter(c) || c == '_' {
            label_scan(s, j + 1, in_label, label.push(lower(c)), count)
        } else if is_digit(c) {
            if in_label {
                label_scan(s, j + 1, in_label, label.push(c), count)
            } else {
                label_scan(s, j + 1, in_label, label, count.push(c))
            }
        } else if c == '<' {
            label_scan(s, j + 1, false, label, count)
        } else if c == '>' {
            Some((label, count, j + 1))
        } else {
            None
        }
    }
}

/// A label reference `name<n>` from `i` (after the `@`).
pub open spec fn label_at(s: Seq<char>, i: int) -> Option<(Seq<TokenView>, int)> {
    match label_scan(s, i, true, Seq::empty(), Seq::empty()) {
        Some((l, c, e)) => if l.len() == 0 || c.len() == 0 || digits_value(c) > usize::MAX {
            None
        } else {
            Some((seq![TokenView::Label(l, digits_value(c))], e))
        },
        None => None,
    }
}

/// The tokens that the character at `i` starts, and the position after them.
pub open spec fn lex_step(s: Seq<char>, i: int) -> Option<(Seq<TokenView>, int)> {
    let c = s[i];
    if c == '+' {
        Some((seq![TokenView::Plus], i + 1))
    } else if c == '-' {
        Some((seq![TokenView::Minus], i + 1))
    } else if c == '*' {
        Some((seq![TokenView::Multiply], i + 1))
    } else if c == '/' {
        Some((seq![TokenView::Divide], i + 1))
    } else if c == '(' {
        Some((seq![TokenView::Open], i + 1))
    } else if c == ')' {
        Some((seq![TokenView::Close], i + 1))
    } else if c == ',' {
        Some((seq![TokenView::Comma], i + 1))
    } else if c == '@' {
        label_at(s, i + 1)
    } else if c == '^' {
        if i + 1 < s.len() && s[i + 1] == '^' {
            Some((seq![TokenView::CopyAndIncrement], i + 2))
        } else {
            None
        }
    } else if c == '"' || c == '\'' {
        let e = quote_end(s, i + 1, c);
        if e < s.len() {
            Some((seq![TokenView::Text(s.subrange(i + 1, e))], e + 1))
        } else {
            None
        }
    } else if is_letter(c) {
        word_at(s, i)
    } else if is_digit(c) {
        let e = numeric_end(s, i);
        match parsed_number(s.subrange(i, e)) {
            Some(d) => Some((seq![TokenView::Number(d)], e)),
            None => None,
        }
    } else if c == '!' {
        None
    } else {
        Some((Seq::empty(), i + 1))
    }
}

/// The tokens of `s` from position `i` on; `None` for a lexical error.
pub open spec fn lex_from(s: Seq<char>, i: int) -> Option<Seq<TokenView>>
    decreases s.len() - i,
{
    if i < 0 || i >= s.len() {
        Some(Seq::empty())
    } else {
        match lex_step(s, i) {
            Some((ts, j)) => if i < j <= s.len() {
                match lex_from(s, j) {
                    Some(rest) => Some(ts + rest),
                    None => None,
                }
            } else {
                None
            },
            None => None,
        }
    }
}

/// Whether position `i` of `vs` holds the argument of an `incfrom(` call.
pub open spec fn is_incfrom_argument_view(vs: Seq<TokenView>, i: int) -> bool {
    &&& 2 <= i < vs.len()
    &&& vs[i - 1] == TokenView::Open
    &&& vs[i - 2] == TokenView::Formula("incfrom"@)
}

/// Token `i` of `vs` with the increment `k` applied: rows of references
/// grow by `k`, and so does the number of an `incfrom(`.
pub open spec fn shifted_view(vs: Seq<TokenView>, i: int, k: nat) -> TokenView {
    match vs[i] {
        TokenView::Cell(c, r) => TokenView::Cell(c, r + k),
        TokenView::Range(c1, r1, c2, r2) => TokenView::Range(c1, r1 + k, c2, r2 + k),
        TokenView::Number(d) => if is_incfrom_argument_view(vs, i) {
            TokenView::Number(
                Decimal { mantissa: (d.mantissa + k * pow10(d.scale as nat)) as i128, scale: d.scale },
            )
        } else {
            vs[i]
        },
        _ => vs[i],
    }
}

/// Whether the increment `k` can be applied at token `i` of `vs`: rows stay
/// within `usize`, and an `incfrom` is followed by `(` and a number that
/// stays in range.
pub open spec fn shift_ok_at(vs: Seq<TokenView>, i: int, k: nat) -> bool {
    match vs[i] {
        TokenView::Cell(_, r) => r + k <= usize::MAX,
        TokenView::Range(_, r1, _, r2) => r1 + k <= usize::MAX && r2 + k <= usize::MAX,
        TokenView::Formula(n) => n == "incfrom"@ ==> i + 2 < vs.len() && vs[i + 1] == TokenView::Open
            && match vs[i + 2] {
            TokenView::Number(d) => plus(d, Decimal { mantissa: k as i128, scale: 0 }) is Some,
            _ => false,
        },
        _ => true,
    }
}

/// Whether the increment `k` can be applied to every token of `vs`.
pub open spec fn shift_ok(vs: Seq<TokenView>, k: nat) -> bool {
    forall|i: int| 0 <= i < vs.len() ==> #[trigger] shift_ok_at(vs, i, k)
}

/// Every token of `vs` with the increment `k` applied.
pub open spec fn shift_views(vs: Seq<TokenView>, k: nat) -> Seq<TokenView> {
    Seq::new(vs.len(), |i: int| shifted_view(vs, i, k))
}

/// The tokens of a formula source (after its `=`).
pub open spec fn formula_tokens(s: Seq<char>) -> Option<Seq<TokenView>> {
    lex_from(s, 1)
}

/// Whether `s` holds a `!` from position `i` on that lies outside every
/// quoted string (a quote opens a string that the next same quote closes).
pub open spec fn bang_outside_quotes(s: Seq<char>, i: int) -> bool
    decreases s.len() - i,
{
    if i < 0 || i >= s.len() {
        false
    } else if s[i] == '!' {
        true
    } else if s[i] == '"' || s[i] == '\'' {
        let e = quote_end(s, i + 1, s[i]);
        if i < e < s.len() {
            bang_outside_quotes(s, e + 1)
        } else {
            false
        }
    } else {
        bang_outside_quotes(s, i + 1)
    }
}

/// The position after a step (zero for a failed step).
pub open spec fn step_end(r: Option<(Seq<TokenView>, int)>) -> int {
    match r {
        Some((_, j)) => j,
        None => 0,
    }
}

/// The position after a label reference (zero for a failed one).
pub open spec fn label_end(r: Option<(Seq<char>, Seq<char>, int)>) -> int {
    match r {
        Some((_, _, e)) => e,
        None => 0,
    }
}

/// No `!` and no quote among `s[i..j]`.
pub open spec fn plain_between(s: Seq<char>, i: int, j: int) -> bool {
    forall|k: int| i <= k < j ==> s[k] != '!' && s[k] != '"' && s[k] != '\''
}

proof fn lemma_quote_end_bounds(s: Seq<char>, i: int, q: char)
    requires
        0 <= i,
    ensures
        i <= quote_end(s, i, q),
        i <= s.len() ==> quote_end(s, i, q) <= s.len(),
    decreases s.len() - i,
{
    if 0 <= i < s.len() && s[i] != q {
        lemma_quote_end_bounds(s, i + 1, q);
    }
}

proof fn lemma_skip_plain(s: Seq<char>, i: int, j: int)
    requires
        0 <= i <= j <= s.len(),
        plain_between(s, i, j),
    ensures
        bang_outside_quotes(s, i) == bang_outside_quotes(s, j),
    decreases j - i,
{
    if i < j {
        lemma_skip_plain(s, i + 1, j);
    }
}

proof fn lemma_letters_plain(s: Seq<char>, i: int)
    requires
        0 <= i <= s.len(),
    ensures
        i <= letters_end(s, i) <= s.len(),
        plain_between(s, i, letters_end(s, i)),
        forall|k: int| i <= k < letters_end(s, i) ==> is_letter(#[trigger] s[k]),
    decreases s.len() - i,
{
    if i < s.len() && is_letter(s[i]) {
        lemma_letters_plain(s, i + 1);
    }
}

proof fn lemma_digits_plain(s: Seq<char>, i: int)
    requires
        0 <= i <= s.len(),
    ensures
        i <= digits_end(s, i) <= s.len(),
        plain_between(s, i, digits_end(s, i)),
    decreases s.len() - i,
{
    if i < s.len() && is_digit(s[i]) {
        lemma_digits_plain(s, i + 1);
    }
}

proof fn lemma_numeric_plain(s: Seq<char>, i: int)
    requires
        0 <= i <= s.len(),
    ensures
        i <= numeric_end(s, i) <= s.len(),
        plain_between(s, i, numeric_end(s, i)),
    decreases s.len() - i,
{
    if i < s.len() && (is_digit(s[i]) || s[i] == '.') {
        lemma_numeric_plain(s, i + 1);
    }
}

proof fn lemma_label_plain(s: Seq<char>, j: int, in_label: bool, l: Seq<char>, c: Seq<char>)
    requires
        0 <= j <= s.len(),
        label_scan(s, j, in_label, l, c) is Some,
    ensures
        ({
            let e = label_end(label_scan(s, j, in_label, l, c));
            j <= e <= s.len() && plain_between(s, j, e)
        }),
    decreases s.len() - j,
{
    if j < s.len() {
        let ch = s[j];
        if is_letter(ch) || ch == '_' {
            lemma_label_plain(s, j + 1, in_label, l.push(lower(ch)), c);
        } else if is_digit(ch) {
            if in_label {
                lemma_label_plain(s, j + 1, in_label, l.push(ch), c);
            } else {
                lemma_label_plain(s, j + 1, in_label, l, c.push(ch));
            }
        } else if ch == '<' {
            lemma_label_plain(s, j + 1, false, l, c);
        }
    }
}

proof fn lemma_word_plain(s: Seq<char>, i: int)
    requires
        0 <= i < s.len(),
        is_letter(s[i]),
        word_at(s, i) is Some,
    ensures
        i < step_end(word_at(s, i)) <= s.len(),
        plain_between(s, i, step_end(word_at(s, i))),
{
    let le = letters_end(s, i);
    lemma_letters_plain(s, i);
    if le < s.len() && is_digit(s[le]) {
        let de = digits_end(s, le);
        lemma_digits_plain(s, le);
        if de < s.len() && s[de] == ':' {
            let f = de + 1;
            lemma_letters_plain(s, f);
            lemma_digits_plain(s, letters_end(s, f));
        }
    }
}

/// The tokens of a step that does not start with a quote hold no `!` and no quote.
proof fn lemma_step_plain(s: Seq<char>, i: int)
    requires
        0 <= i < s.len(),
        s[i] != '"' && s[i] != '\'',
        lex_step(s, i) is Some,
    ensures
        i < step_end(lex_step(s, i)) <= s.len(),
        plain_between(s, i, step_end(lex_step(s, i))),
{
    let c = s[i];
    if c == '@' {
        lemma_label_plain(s, i + 1, true, Seq::empty(), Seq::empty());
    } else if is_letter(c) {
        lemma_word_plain(s, i);
    } else if is_digit(c) {
        lemma_numeric_plain(s, i);
    }
}

/// From position `i` on, a `!` outside every quoted string makes lexing fail.
pub proof fn lemma_bang_fails_from(s: Seq<char>, i: int)
    requires
        0 <= i,
        bang_outside_quotes(s, i),
    ensures
        lex_from(s, i) is None,
    decreases s.len() - i,
{
    if i < s.len() && s[i] != '!' {
        let c = s[i];
        if c == '"' || c == '\'' {
            let e = quote_end(s, i + 1, c);
            lemma_quote_end_bounds(s, i + 1, c);
            if lex_step(s, i) is Some {
                lemma_bang_fails_from(s, e + 1);
            }
        } else if lex_step(s, i) is Some {
            lemma_step_plain(s, i);
            let j = step_end(lex_step(s, i));
            lemma_skip_plain(s, i + 1, j);
            lemma_bang_fails_from(s, j);
        }
    }
}

/// A formula holding a `!` outside every quoted string does not lex.
pub proof fn lemma_bang_in_formula(s: Seq<char>)
    requires
        s.len() > 0 && s[0] == '=',
        bang_outside_quotes(s, 1),
    ensures
        formula_tokens(s) is None,
{
    lemma_bang_fails_from(s, 1);
}

} // verus!
