use cell::{
    get_column_name, get_column_number, Calculator, Cell, CellReference, ColumnReference, Decimal,
    Expression, FormulaError, LexError, Lexer, ParseError, Parser, SpreadsheetError, Table, Token,
    Value,
};

fn result_of(table: &Table, row: usize, column: usize, source: &str) -> Result<String, FormulaError> {
    Calculator::calculate(table, &Cell::new(row, column, source))
}

fn grid() -> Table {
    Table::from_string(
        "1 | 2 | !total \n\
         3 | 4 | 10 \n\
         =A1+A2 | hello | 20 \n",
    )
    .unwrap()
}

fn challenge(threshold: &str) -> Table {
    let text = format!(
        "!date|!transaction_id|!tokens|!token_prices|!total_cost
        2022-02-20|=concat(\"t_\", text(incFrom(1)))|btc,eth,dai|38341.88,2643.77,1.0003|=sum(split(D2, \",\"))
        2022-02-21|=^^|bch,eth,dai|304.38,2621.15,1.0001|=E^+sum(split(D3, \",\"))
        2022-02-22|=^^|sol,eth,dai|85,2604.17,0.9997|=^^
        !fee|!cost_threshold|||
        0.09|{}|||
        !adjusted_cost||||
        =E^v+(E^v*A6)||||
        !cost_too_high||||
        =text(gte(@adjusted_cost<1>, @cost_threshold<1>))||||",
        threshold
    );
    Table::from_string(&text).unwrap()
}

#[test]
fn column_names_round_trip() {
    for n in 1..=18280usize {
        assert_eq!(get_column_number(&get_column_name(n)), n);
    }
    assert_eq!(get_column_name(702), "ZZ");
    assert_eq!(get_column_name(703), "AAA");
    assert_eq!(get_column_name(0), "");
}

#[test]
fn literal_cells_show_their_trimmed_text() {
    let table = grid();
    assert_eq!(result_of(&table, 1, 1, "  plain text  ").unwrap(), "plain text");
    assert_eq!(result_of(&table, 1, 1, "").unwrap(), "");
    assert_eq!(result_of(&table, 1, 1, "12.50").unwrap(), "12.50");
    let cell = Cell::new(3, 2, "hello");
    assert_eq!(cell.result(&table).unwrap(), "hello");
}

#[test]
fn text_of_text_is_text() {
    let table = grid();
    for source in ["A1", "B3", "A1:B2", "1.50", "\"x y\"", "gte(1, 2)"] {
        let once = result_of(&table, 1, 1, &format!("=text({})", source)).unwrap();
        let twice = result_of(&table, 1, 1, &format!("=text(text({}))", source)).unwrap();
        assert_eq!(once, twice);
    }
    assert_eq!(result_of(&table, 1, 1, "=text(A1:B2)").unwrap(), "1 2 3 4");
    assert_eq!(result_of(&table, 1, 1, "=text(1.50)").unwrap(), "1.5");
}

#[test]
fn empty_sum_and_concat() {
    let table = grid();
    assert_eq!(result_of(&table, 1, 1, "=sum()").unwrap(), "0");
    assert_eq!(result_of(&table, 1, 1, "=concat()").unwrap(), "");
}

#[test]
fn sum_of_split_adds_the_parts() {
    let table = grid();
    assert_eq!(result_of(&table, 1, 1, "=sum(split(\"1,2.5, 3 ,x\", \",\"))").unwrap(), "6.5");
    assert_eq!(result_of(&table, 1, 1, "=sum(split(\"a;b\", \";\"))").unwrap(), "0");
    assert_eq!(result_of(&table, 1, 1, "=concat(split(\"a;b\", \";\"))").unwrap(), "a b");
}

#[test]
fn extra_field_on_second_line() {
    match Table::from_string("a | b | c\nd | e | f | g\n") {
        Err(e) => {
            assert_eq!(
                e,
                SpreadsheetError::TooManyColumns { line: 2, expected: 3, found: 4 }
            );
            assert_eq!(e.message(), "invalid column count on line 2. Expected 3 but found 4");
        }
        Ok(_) => panic!("expected a column count error"),
    }
    match Table::from_string("a | b\nc | d\ne\n") {
        Err(e) => assert_eq!(
            e,
            SpreadsheetError::NotEnoughColumns { line: 3, expected: 2, found: 1 }
        ),
        Ok(_) => panic!("expected a column count error"),
    }
}

#[test]
fn bang_in_formula_is_a_lex_error() {
    assert_eq!(Lexer::tokenize("=A1+!x"), Err(LexError::LabelInFormula));
    let table = grid();
    assert_eq!(
        result_of(&table, 1, 1, "=sum(!total)"),
        Err(FormulaError::Lex(LexError::LabelInFormula))
    );
}

#[test]
fn division_by_zero() {
    let table = grid();
    let e = result_of(&table, 2, 2, "=A1/0").unwrap_err();
    assert_eq!(e, FormulaError::DivisionByZero);
    assert_eq!(e.message(), "division by zero");
}

#[test]
fn end_to_end_scenarios() {
    assert_eq!(challenge("10000").print().is_ok(), true);
    let t = challenge("10000");
    assert_eq!(t.cell_at(10, 1).unwrap().result(&t).unwrap(), "true");
    assert_eq!(t.cell_at(3, 2).unwrap().result(&t).unwrap(), "t_2");
    assert_eq!(t.cell_at(4, 2).unwrap().result(&t).unwrap(), "t_3");
    assert_eq!(t.cell_at(2, 5).unwrap().result(&t).unwrap(), "40986.6503");
    assert_eq!(t.cell_at(4, 5).unwrap().result(&t).unwrap(), "46603.3501");
    assert_eq!(t.cell_at(8, 1).unwrap().result(&t).unwrap(), "50797.651609");
    let f = challenge("51000");
    assert_eq!(f.cell_at(10, 1).unwrap().result(&f).unwrap(), "false");
}

#[test]
fn exact_decimal_formulas() {
    let table = grid();
    assert_eq!(result_of(&table, 1, 1, "=1/3").unwrap(), "0.3333333333333333");
    assert_eq!(result_of(&table, 1, 1, "=2/3").unwrap(), "0.6666666666666666");
    assert_eq!(result_of(&table, 1, 1, "=0.1+0.2").unwrap(), "0.3");
    assert_eq!(result_of(&table, 1, 1, "=1-3.25").unwrap(), "-2.25");
    assert_eq!(result_of(&table, 1, 1, "=2*3.5").unwrap(), "7");
    assert_eq!(result_of(&table, 1, 1, "=(1+2)*3").unwrap(), "9");
    assert_eq!(result_of(&table, 1, 1, "=1+2*3").unwrap(), "7");
    assert_eq!(result_of(&table, 1, 1, "=10-2-3").unwrap(), "5");
    assert_eq!(result_of(&table, 1, 1, "=lte(B1, A2)").unwrap(), "true");
    assert_eq!(result_of(&table, 1, 1, "=gte(B1, A2)").unwrap(), "false");
    assert_eq!(result_of(&table, 1, 1, "=A3").unwrap(), "4");
    assert_eq!(result_of(&table, 2, 1, "=@total<1>").unwrap(), "10");
    assert_eq!(result_of(&table, 2, 1, "=@TOTAL<9>").unwrap(), "20");
    assert_eq!(result_of(&table, 3, 1, "=C^").unwrap(), "10");
    assert_eq!(result_of(&table, 1, 1, "=C^v").unwrap(), "20");
}

#[test]
fn incremented_tokens() {
    let tokens = Lexer::tokenize_and_increment("=A1+incfrom(2)", 3).unwrap();
    assert_eq!(
        tokens,
        vec![
            Token::CellReference(CellReference {
                hash: String::from("A4"),
                column_name: String::from("A"),
                column: 1,
                row: 4,
            }),
            Token::Plus,
            Token::Formula(String::from("incfrom")),
            Token::OpenParenthesis,
            Token::Number(Decimal { mantissa: 5, scale: 0 }),
            Token::CloseParenthesis,
        ]
    );
    assert_eq!(
        Lexer::tokenize_and_increment("=incfrom(A1)", 1),
        Err(LexError::InvalidIncrement)
    );
    assert_eq!(
        Lexer::tokenize_and_increment(" plain ", 1).unwrap(),
        vec![Token::String(String::from("plain"))]
    );
}

#[test]
fn lex_errors() {
    assert_eq!(Lexer::tokenize("=\"open"), Err(LexError::UnterminatedString));
    assert_eq!(Lexer::tokenize("=@<1>"), Err(LexError::InvalidLabelReference));
    assert_eq!(Lexer::tokenize("=@a$<1>"), Err(LexError::InvalidLabelReference));
    assert_eq!(Lexer::tokenize("=^"), Err(LexError::InvalidCopySymbol));
    assert_eq!(
        Lexer::tokenize("=foo(1)"),
        Err(LexError::UnknownFunction(String::from("FOO")))
    );
    assert_eq!(
        Lexer::tokenize("=A1B"),
        Err(LexError::InvalidReference(String::from("A")))
    );
    assert_eq!(
        Lexer::tokenize("=A1^"),
        Err(LexError::InvalidReference(String::from("A")))
    );
    assert_eq!(Lexer::tokenize("=A1:"), Err(LexError::InvalidRange));
    assert_eq!(
        Lexer::tokenize("=1.2.3"),
        Err(LexError::InvalidNumber(String::from("1.2.3")))
    );
    assert_eq!(
        Lexer::tokenize("=AB12").unwrap(),
        vec![Token::CellReference(CellReference {
            hash: String::from("AB12"),
            column_name: String::from("AB"),
            column: 28,
            row: 12,
        })]
    );
}

#[test]
fn parse_errors() {
    assert_eq!(Parser::parse(&[]), Err(ParseError::UnexpectedEnd));
    assert_eq!(Parser::parse(&[Token::Comma]), Err(ParseError::UnexpectedToken));
    assert_eq!(
        Parser::parse(&[Token::OpenParenthesis, Token::Number(Decimal { mantissa: 1, scale: 0 })]),
        Err(ParseError::UnclosedParenthesis)
    );
    assert_eq!(
        Parser::parse(&[Token::Formula(String::from("sum")), Token::Comma]),
        Err(ParseError::MissingOpenParenthesis)
    );
}

#[test]
fn evaluation_errors() {
    let table = grid();
    assert_eq!(
        result_of(&table, 1, 1, "=Z99"),
        Err(FormulaError::CellNotFound(String::from("Z99")))
    );
    assert_eq!(
        result_of(&table, 1, 1, "=@nope<1>"),
        Err(FormulaError::LabelNotFound(String::from("nope")))
    );
    assert_eq!(
        result_of(&table, 1, 1, "=gte(1)"),
        Err(FormulaError::Arity(String::from("gte")))
    );
    assert_eq!(
        result_of(&table, 1, 1, "=A^"),
        Err(FormulaError::FirstRow(String::from("copy_above_result")))
    );
    assert_eq!(
        result_of(&table, 1, 1, "=^^"),
        Err(FormulaError::FirstRow(String::from("copy_and_increments_formula")))
    );
    assert_eq!(result_of(&table, 2, 2, "=^^"), Err(FormulaError::NotAFormula));
    assert_eq!(
        result_of(&table, 1, 1, "=99999999999999999999*99999999999999999999"),
        Err(FormulaError::Overflow)
    );
    let cycle = Table::from_string("=B1 | =A1").unwrap();
    assert_eq!(result_of(&cycle, 1, 1, "=B1"), Err(FormulaError::TooDeep));
    let cell = Cell::new(2, 1, "");
    let f = Expression::Function {
        name: String::from("copy_above_result"),
        args: vec![Expression::Number(Decimal { mantissa: 1, scale: 0 })],
    };
    assert_eq!(
        f.evaluate(&table, &cell),
        Err(FormulaError::NotAColumn(String::from("copy_above_result")))
    );
    let g = Expression::Function { name: String::from("foo"), args: vec![] };
    assert_eq!(
        g.evaluate(&table, &cell),
        Err(FormulaError::UnknownFunction(String::from("foo")))
    );
    let c = Expression::ColumnReference(ColumnReference { name: String::from("A") });
    assert_eq!(c.evaluate(&table, &cell), Err(FormulaError::UnexpectedExpression));
    assert_eq!(
        Expression::String(String::from("s")).evaluate(&table, &cell),
        Ok(Value::String(String::from("s")))
    );
}

#[test]
fn exponent_forms_are_numbers() {
    let table = grid();
    assert_eq!(
        result_of(&table, 1, 1, "=sum(split(\"1e3,2E-1,+5e+0,-1.5e1,7e,x1\", \",\"))").unwrap(),
        "990.2"
    );
    assert_eq!(result_of(&table, 1, 1, "=text(\"2.5e2\" + 0)").unwrap(), "250");
}

#[test]
fn comparison_across_distant_scales() {
    let table = grid();
    let tiny = format!("0.{}1", "0".repeat(40));
    assert_eq!(result_of(&table, 1, 1, &format!("=gte(1, {})", tiny)).unwrap(), "true");
    assert_eq!(result_of(&table, 1, 1, &format!("=lte(1, {})", tiny)).unwrap(), "false");
    assert_eq!(result_of(&table, 1, 1, &format!("=gte(0-1, {})", tiny)).unwrap(), "false");
}

#[test]
fn unclosed_function_call_is_a_parse_error() {
    let tokens = vec![
        Token::Formula(String::from("sum")),
        Token::OpenParenthesis,
        Token::Number(Decimal { mantissa: 1, scale: 0 }),
    ];
    assert_eq!(Parser::parse(&tokens), Err(ParseError::UnclosedParenthesis));
    let table = grid();
    assert_eq!(
        result_of(&table, 1, 1, "=sum(1"),
        Err(FormulaError::Parse(ParseError::UnclosedParenthesis))
    );
}

#[test]
fn lookup_by_address_and_label() {
    let table = grid();
    assert_eq!(table.lookup("B2").unwrap().value, "4");
    assert_eq!(table.lookup("total").unwrap().value, "!total");
    assert!(table.lookup("Z9").is_none());
    assert_eq!(table.cell_at(2, 3).unwrap().value, "10");
}

#[test]
fn error_messages() {
    assert_eq!(FormulaError::DivisionByZero.message(), "division by zero");
    assert_eq!(
        FormulaError::CellNotFound(String::from("Z99")).message(),
        "cell not found: Z99"
    );
    assert_eq!(
        SpreadsheetError::NotEnoughColumns { line: 12, expected: 4, found: 3 }.message(),
        "invalid column count on line 12. Expected 4 but found 3"
    );
    assert_eq!(
        FormulaError::Lex(LexError::InvalidNumber(String::from("1.2.3"))).message(),
        "invalid number: 1.2.3"
    );
}

#[test]
fn bang_outside_quotes_fails_inside_quotes_is_text() {
    assert_eq!(
        Lexer::tokenize("=concat(\"a!\", 'b') + !"),
        Err(LexError::LabelInFormula)
    );
    assert_eq!(
        Lexer::tokenize("=\"x!y\"").unwrap(),
        vec![Token::String(String::from("x!y"))]
    );
}
