use cell::{CellReference, ColumnReference, Decimal, Expression, LabelReference, Parser, Token};

#[test]
fn test_sum_range() {
    let input = vec![
        Token::Formula(String::from("sum")), // Expression::Function
        Token::OpenParenthesis,
        Token::CellRange {
            start: CellReference {
                hash: String::from("A1"),
                column_name: String::from("A"),
                column: 1,
                row: 1,
            },
            end: CellReference {
                hash: String::from("B2"),
                column_name: String::from("B"),
                column: 2,
                row: 2,
            },
        },
        Token::CloseParenthesis,
        Token::Plus, // Note: Expression::Sum refers to this token
        Token::Number(Decimal { mantissa: 1, scale: 0 }),
    ];

    let expression = Parser::parse(&input).unwrap();

    assert_eq!(
        expression,
        Expression::Sum {
            args: vec![
                Expression::Function {
                    name: String::from("sum"),
                    args: vec![Expression::Collection {
                        expressions: vec![
                            Expression::CellReference(CellReference {
                                hash: String::from("A1"),
                                column_name: String::from("A"),
                                column: 1,
                                row: 1,
                            }),
                            Expression::CellReference(CellReference {
                                hash: String::from("B1"),
                                column_name: String::from("B"),
                                column: 2,
                                row: 1,
                            }),
                            Expression::CellReference(CellReference {
                                hash: String::from("A2"),
                                column_name: String::from("A"),
                                column: 1,
                                row: 2,
                            }),
                            Expression::CellReference(CellReference {
                                hash: String::from("B2"),
                                column_name: String::from("B"),
                                column: 2,
                                row: 2,
                            })
                        ],
                    }],
                },
                Expression::Number(Decimal { mantissa: 1, scale: 0 }),
            ],
        }
    );
}

#[test]
fn test_subtract_values_with_copy_and_increment_formula() {
    let input = vec![
        Token::Formula(String::from("sum")),
        Token::OpenParenthesis,
        Token::CellReference(CellReference {
            hash: String::from("A1"),
            column_name: String::from("A"),
            column: 1,
            row: 1,
        }),
        Token::Comma,
        Token::CellReference(CellReference {
            hash: String::from("A2"),
            column_name: String::from("A"),
            column: 1,
            row: 2,
        }),
        Token::CloseParenthesis,
        Token::Minus,
        Token::CopyAndIncrementsFormula,
    ];

    let expression = Parser::parse(&input).unwrap();

    assert_eq!(
        expression,
        Expression::Difference {
            args: vec![
                Expression::Function {
                    name: String::from("sum"),
                    args: vec![
                        Expression::CellReference(CellReference {
                            hash: String::from("A1"),
                            column_name: String::from("A"),
                            column: 1,
                            row: 1,
                        }),
                        Expression::CellReference(CellReference {
                            hash: String::from("A2"),
                            column_name: String::from("A"),
                            column: 1,
                            row: 2,
                        }),
                    ],
                },
                Expression::Function {
                    name: String::from("copy_and_increments_formula"),
                    args: vec![],
                },
            ],
        }
    );
}

#[test]
fn test_label_reference() {
    let input = vec![
        Token::Formula(String::from("sum")),
        Token::OpenParenthesis,
        Token::CellReference(CellReference {
            hash: String::from("A1"),
            column_name: String::from("A"),
            column: 1,
            row: 1,
        }),
        Token::Comma,
        Token::CellReference(CellReference {
            hash: String::from("A2"),
            column_name: String::from("A"),
            column: 1,
            row: 2,
        }),
        Token::CloseParenthesis,
        Token::Plus,
        Token::LabelReference(LabelReference {
            label: String::from("label"),
            n_rows: 2,
        }),
    ];

    let expression = Parser::parse(&input).unwrap();

    assert_eq!(
        expression,
        Expression::Sum {
            args: vec![
                Expression::Function {
                    name: String::from("sum"),
                    args: vec![
                        Expression::CellReference(CellReference {
                            hash: String::from("A1"),
                            column_name: String::from("A"),
                            column: 1,
                            row: 1,
                        }),
                        Expression::CellReference(CellReference {
                            hash: String::from("A2"),
                            column_name: String::from("A"),
                            column: 1,
                            row: 2,
                        }),
                    ],
                },
                Expression::LabelReference(LabelReference {
                    label: String::from("label"),
                    n_rows: 2,
                }),
            ],
        }
    );
}

#[test]
fn test_multiple_label_references() {
    let input = vec![
        Token::Formula(String::from("text")),
        Token::OpenParenthesis,
        Token::Formula(String::from("gte")),
        Token::OpenParenthesis,
        Token::LabelReference(LabelReference {
            label: String::from("adjusted_cost"),
            n_rows: 1,
        }),
        Token::Comma,
        Token::LabelReference(LabelReference {
            label: String::from("cost_threshold"),
            n_rows: 1,
        }),
        Token::CloseParenthesis,
        Token::CloseParenthesis,
    ];

    let expression = Parser::parse(&input).unwrap();

    assert_eq!(
        expression,
        Expression::Function {
            name: String::from("text"),
            args: vec![Expression::Function {
                name: String::from("gte"),
                args: vec![
                    Expression::LabelReference(LabelReference {
                        label: String::from("adjusted_cost"),
                        n_rows: 1,
                    }),
                    Expression::LabelReference(LabelReference {
                        label: String::from("cost_threshold"),
                        n_rows: 1,
                    }),
                ],
            }],
        }
    );
}

#[test]
fn test_copy_last_result() {
    let input = vec![
        Token::Formula(String::from("sum")),
        Token::OpenParenthesis,
        Token::CellReference(CellReference {
            hash: String::from("A1"),
            column_name: String::from("A"),
            column: 1,
            row: 1,
        }),
        Token::Comma,
        Token::CellReference(CellReference {
            hash: String::from("AB2"),
            column_name: String::from("AB"),
            column: 28,
            row: 2,
        }),
        Token::CloseParenthesis,
        Token::Plus,
        Token::CopyLastResult(ColumnReference {
            name: String::from("A"),
        }),
    ];

    let expression = Parser::parse(&input).unwrap();

    assert_eq!(
        expression,
        Expression::Sum {
            args: vec![
                Expression::Function {
                    name: String::from("sum"),
                    args: vec![
                        Expression::CellReference(CellReference {
                            hash: String::from("A1"),
                            column_name: String::from("A"),
                            column: 1,
                            row: 1,
                        }),
                        Expression::CellReference(CellReference {
                            hash: String::from("AB2"),
                            column_name: String::from("AB"),
                            column: 28,
                            row: 2,
                        }),
                    ],
                },
                Expression::Function {
                    name: String::from("copy_last_result"),
                    args: vec![Expression::ColumnReference(ColumnReference {
                        name: String::from("A"),
                    })]
                },
            ],
        }
    );
}

#[test]
fn parser_test_multiple_copy_last_result() {
    let input = vec![
        Token::CopyLastResult(ColumnReference {
            name: String::from("E"),
        }),
        Token::Plus,
        Token::OpenParenthesis,
        Token::CopyLastResult(ColumnReference {
            name: String::from("E"),
        }),
        Token::Multiply,
        Token::CellReference(CellReference {
            hash: String::from("A9"),
            column_name: String::from("A"),
            column: 1,
            row: 9,
        }),
        Token::CloseParenthesis,
    ];

    let expression = Parser::parse(&input).unwrap();

    assert_eq!(
        expression,
        Expression::Sum {
            args: vec![
                Expression::Function {
                    name: String::from("copy_last_result"),
                    args: vec![Expression::ColumnReference(ColumnReference {
                        name: String::from("E"),
                    })],
                },
                Expression::Product {
                    args: vec![
                        Expression::Function {
                            name: String::from("copy_last_result"),
                            args: vec![Expression::ColumnReference(ColumnReference {
                                name: String::from("E"),
                            })],
                        },
                        Expression::CellReference(CellReference {
                            hash: String::from("A9"),
                            column_name: String::from("A"),
                            column: 1,
                            row: 9,
                        }),
                    ],
                }
            ],
        }
    );
}

#[test]
fn test_copy_above_result_result() {
    let input = vec![
        Token::Formula(String::from("sum")),
        Token::OpenParenthesis,
        Token::CellReference(CellReference {
            hash: String::from("A1"),
            column_name: String::from("A"),
            column: 1,
            row: 1,
        }),
        Token::Comma,
        Token::CellReference(CellReference {
            hash: String::from("A2"),
            column_name: String::from("A"),
            column: 1,
            row: 2,
        }),
        Token::CloseParenthesis,
        Token::Divide,
        Token::CopyAboveResult(ColumnReference {
            name: String::from("B"),
        }),
    ];

    let expression = Parser::parse(&input).unwrap();

    assert_eq!(
        expression,
        Expression::Quotient {
            args: vec![
                Expression::Function {
                    name: String::from("sum"),
                    args: vec![
                        Expression::CellReference(CellReference {
                            hash: String::from("A1"),
                            column_name: String::from("A"),
                            column: 1,
                            row: 1,
                        }),
                        Expression::CellReference(CellReference {
                            hash: String::from("A2"),
                            column_name: String::from("A"),
                            column: 1,
                            row: 2,
                        }),
                    ],
                },
                Expression::Function {
                    name: String::from("copy_above_result"),
                    args: vec![Expression::ColumnReference(ColumnReference {
                        name: String::from("B"),
                    })],
                },
            ],
        }
    );
}

#[test]
fn parser_test_tokenize_concat_formula_with_text() {
    let input = vec![
        Token::Formula(String::from("concat")),
        Token::OpenParenthesis,
        Token::String(String::from("t_")),
        Token::Comma,
        Token::Formula(String::from("text")),
        Token::OpenParenthesis,
        Token::Formula(String::from("incfrom")),
        Token::OpenParenthesis,
        Token::Number(Decimal { mantissa: 1, scale: 0 }),
        Token::CloseParenthesis,
        Token::CloseParenthesis,
        Token::CloseParenthesis,
    ];

    let expression = Parser::parse(&input).unwrap();

    assert_eq!(
        expression,
        Expression::Function {
            name: String::from("concat"),
            args: vec![
                Expression::String(String::from("t_")),
                Expression::Function {
                    name: String::from("text"),
                    args: vec![Expression::Function {
                        name: String::from("incfrom"),
                        args: vec![Expression::Number(Decimal { mantissa: 1, scale: 0 })],
                    }],
                },
            ],
        }
    );
}

#[test]
fn test_tokenize_copy_above_result_and_nested_formulas() {
    let input = vec![
        Token::CopyAboveResult(ColumnReference {
            name: String::from("E"),
        }),
        Token::Plus,
        Token::Formula(String::from("sum")),
        Token::OpenParenthesis,
        Token::Formula(String::from("split")),
        Token::OpenParenthesis,
        Token::CellReference(CellReference {
            hash: String::from("D3"),
            column_name: String::from("D"),
            column: 4,
            row: 3,
        }),
        Token::Comma,
        Token::String(String::from(",")),
        Token::CloseParenthesis,
        Token::CloseParenthesis,
    ];

    let expression = Parser::parse(&input).unwrap();

    assert_eq!(
        expression,
        Expression::Sum {
            args: vec![
                Expression::Function {
                    name: String::from("copy_above_result"),
                    args: vec![Expression::ColumnReference(ColumnReference {
                        name: String::from("E"),
                    })],
                },
                Expression::Function {
                    name: String::from("sum"),
                    args: vec![Expression::Function {
                        name: String::from("split"),
                        args: vec![
                            Expression::CellReference(CellReference {
                                hash: String::from("D3"),
                                column_name: String::from("D"),
                                column: 4,
                                row: 3,
                            }),
                            Expression::String(String::from(",")),
                        ],
                    }],
                },
            ],
        }
    );
}
