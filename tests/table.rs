use cell::Table;

#[test]
fn outputs_aligned_columns() {
    let file_contents = "this | is | an | example \n\
    csv | file | with | the \n\
    correct | number | of | columns \n";

    let table = Table::from_string(file_contents).unwrap();
    let result = table.print().unwrap();

    assert_eq!(
        result,
        "\n\
        this    | is     | an   | example\n\
        csv     | file   | with | the\n\
        correct | number | of   | columns\n\
        \n"
    );
}

#[test]
fn outputs_aligned_results() {
    let file_contents = "=incfrom(999) | results           | will     | align  \n\
                               =^^           | 1                 | =100+100 |        \n\
                               1             | =incfrom(0) + 1.0 | 1        |        \n";

    let table = Table::from_string(file_contents).unwrap();
    let result = table.print().unwrap();

    assert_eq!(
        result,
        "\n\
        999  | results | will | align\n\
        1000 | 1       | 200  | \n\
        1    | 1       | 1    | \n\
        \n"
    );
}

#[test]
fn fails_with_too_many_columns() {
    let file_contents = "this | is | an | example \n\
                               csv | file | with | too | many  \n\
                               columns \n";

    let result = Table::from_string(file_contents);

    match result {
        Ok(_) => panic!("Expected error"),
        Err(err) => assert_eq!(
            err.message(),
            "invalid column count on line 2. Expected 4 but found 5"
        ),
    }
}

#[test]
fn fails_with_not_enough_columns() {
    let file_contents = "this | is | an | example \n\
                               csv | file | with \n\
                               not | enough | columns \n";

    let result = Table::from_string(file_contents);

    match result {
        Ok(_) => panic!("Expected error"),
        Err(err) => assert_eq!(
            err.message(),
            "invalid column count on line 2. Expected 4 but found 3"
        ),
    }
}
