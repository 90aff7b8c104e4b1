use cell::Table;

#[test]
fn prints_file_contents_to_stdout() {
    let table = Table::from_string(
        "a | sample | table \n\
              with | two | lines",
    )
    .unwrap();
    let out = table.print().unwrap();
    assert!(out.contains(
        "\n\
        a    | sample | table\n\
        with | two    | lines\n\n",
    ));
}

#[test]
fn lets_test_some_formulas() {
    let table = Table::from_string(
        "\
        a     | =sum(1,2,incfrom(3)) | table \n\
        with  | =^^                  | formulas\
        ",
    )
    .unwrap();
    let out = table.print().unwrap();
    assert!(out.contains(
        "a    | 6 | table\n\
        with | 7 | formulas\n\n",
    ));
}
