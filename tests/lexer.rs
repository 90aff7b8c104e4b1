use cell::{CellReference, ColumnReference, Decimal, LabelReference, Lexer, Token};

#[test]
fn test_tokenize() {
    let content = String::from("=sum(A1:A2) + 1");
    let tokens = Lexer::tokenize(&content).unwrap();

    assert_eq!(
        tokens,
        vec![
            Token::Formula(String::from("sum")),
            Token::OpenParenthesis,
            Token::CellRange {
                start: CellReference {
                    hash: String::from("A1"),
                    column_name: String::from("A"),
                    column: 1,
                    row: 1
                },
                end: CellReference {
                    hash: String::from("A2"),
                    column_name: String::from("A"),
                    column: 1,
                    row: 2
                }
            },
            Token::CloseParenthesis,
            Token::Plus,
            Token::Number(Decimal { mantissa: 1, scale: 0 }),
        ]
    );
}

#[test]
fn test_tokenize_copy_and_increment_formula() {
    let content = String::from("=sum(A1,A2)-^^");
    let tokens = Lexer::tokenize(&content).unwrap();

    assert_eq!(
        tokens,
        vec![
            Token::Formula(String::from("sum")),
            Token::OpenParenthesis,
            Token::CellReference(CellReference {
                hash: String::from("A1"),
                column_name: String::from("A"),
                column: 1,
                row: 1
            }),
            Token::Comma,
            Token::CellReference(CellReference {
                hash: String::from("A2"),
                column_name: String::from("A"),
                column: 1,
                row: 2
            }),
            Token::CloseParenthesis,
            Token::Minus,
            Token::CopyAndIncrementsFormula,
        ]
    );
}

#[test]
fn test_tokenize_label_reference_with_number() {
    let content = String::from("=sum(A1, A2)+@label_1<2>");
    let tokens = Lexer::tokenize(&content).unwrap();

    assert_eq!(
        tokens,
        vec![
            Token::Formula(String::from("sum")),
            Token::OpenParenthesis,
            Token::CellReference(CellReference {
                hash: String::from("A1"),
                column_name: String::from("A"),
                column: 1,
                row: 1
            }),
            Token::Comma,
            Token::CellReference(CellReference {
                hash: String::from("A2"),
                column_name: String::from("A"),
                column: 1,
                row: 2
            }),
            Token::CloseParenthesis,
            Token::Plus,
            Token::LabelReference(LabelReference {
                label: String::from("label_1"),
                n_rows: 2,
            }),
        ]
    );
}

#[test]
fn test_tokenize_multiple_label_references() {
    let content = String::from("=text(gte(@adjusted_cost<1>, @cost_threshold<1>))");
    let tokens = Lexer::tokenize(&content).unwrap();

    assert_eq!(
        tokens,
        vec![
            Token::Formula(String::from("text")),
            Token::OpenParenthesis,
            Token::Formula(String::from("gte")),
            Token::OpenParenthesis,
            Token::LabelReference(LabelReference {
                label: String::from("adjusted_cost"),
                n_rows: 1,
            }),
            Token::Comma,
            Token::LabelReference(LabelReference {
                label: String::from("cost_threshold"),
                n_rows: 1,
            }),
            Token::CloseParenthesis,
            Token::CloseParenthesis,
        ]
    );
}

#[test]
fn test_tokenize_copy_last_result() {
    let content = String::from("=sum( A1,AB2)+A^v");
    let tokens = Lexer::tokenize(&content).unwrap();

    assert_eq!(
        tokens,
        vec![
            Token::Formula(String::from("sum")),
            Token::OpenParenthesis,
            Token::CellReference(CellReference {
                hash: String::from("A1"),
                column_name: String::from("A"),
                column: 1,
                row: 1
            }),
            Token::Comma,
            Token::CellReference(CellReference {
                hash: String::from("AB2"),
                column_name: String::from("AB"),
                column: 28,
                row: 2
            }),
            Token::CloseParenthesis,
            Token::Plus,
            Token::CopyLastResult(ColumnReference {
                name: String::from("A")
            }),
        ]
    );
}

#[test]
fn lexer_test_multiple_copy_last_result() {
    let content = String::from("=E^v+(E^v*A9)");
    let tokens = Lexer::tokenize(&content).unwrap();

    assert_eq!(
        tokens,
        vec![
            Token::CopyLastResult(ColumnReference {
                name: String::from("E")
            }),
            Token::Plus,
            Token::OpenParenthesis,
            Token::CopyLastResult(ColumnReference {
                name: String::from("E")
            }),
            Token::Multiply,
            Token::CellReference(CellReference {
                hash: String::from("A9"),
                column_name: String::from("A"),
                column: 1,
                row: 9
            }),
            Token::CloseParenthesis,
        ]
    );
}

#[test]
fn test_tokenize_copy_above_result() {
    let content = String::from("=sum(A1,A2)/B^");
    let tokens = Lexer::tokenize(&content).unwrap();

    assert_eq!(
        tokens,
        vec![
            Token::Formula(String::from("sum")),
            Token::OpenParenthesis,
            Token::CellReference(CellReference {
                hash: String::from("A1"),
                column_name: String::from("A"),
                column: 1,
                row: 1
            }),
            Token::Comma,
            Token::CellReference(CellReference {
                hash: String::from("A2"),
                column_name: String::from("A"),
                column: 1,
                row: 2
            }),
            Token::CloseParenthesis,
            Token::Divide,
            Token::CopyAboveResult(ColumnReference {
                name: String::from("B")
            }),
        ]
    );
}

#[test]
fn lexer_test_tokenize_concat_formula_with_text() {
    let content = String::from("=concat(\"t_\", text(incFrom(1)))");
    let tokens = Lexer::tokenize(&content).unwrap();

    assert_eq!(
        tokens,
        vec![
            Token::Formula(String::from("concat")),
            Token::OpenParenthesis,
            Token::String(String::from("t_")),
            Token::Comma,
            Token::Formula(String::from("text")),
            Token::OpenParenthesis,
            Token::Formula(String::from("incfrom")),
            Token::OpenParenthesis,
            Token::Number(Decimal { mantissa: 1, scale: 0 }),
            Token::CloseParenthesis,
            Token::CloseParenthesis,
            Token::CloseParenthesis,
        ]
    );
}

#[test]
fn test_tokenize_copy_above_and_nested_formulas() {
    let content = String::from("=E^+sum(split(D3, \",\"))");
    let tokens = Lexer::tokenize(&content).unwrap();

    assert_eq!(
        tokens,
        vec![
            Token::CopyAboveResult(ColumnReference {
                name: String::from("E")
            }),
            Token::Plus,
            Token::Formula(String::from("sum")),
            Token::OpenParenthesis,
            Token::Formula(String::from("split")),
            Token::OpenParenthesis,
            Token::CellReference(CellReference {
                hash: String::from("D3"),
                column_name: String::from("D"),
                column: 4,
                row: 3
            }),
            Token::Comma,
            Token::String(String::from(",")),
            Token::CloseParenthesis,
            Token::CloseParenthesis,
        ]
    );
}
