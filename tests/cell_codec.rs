use cell::Cell;

#[test]
fn test_column_name_assignment() {
    assert_eq!(Cell::column_name(1), "A");
    assert_eq!(Cell::column_name(2), "B");
    assert_eq!(Cell::column_name(3), "C");

    assert_eq!(Cell::column_name(24), "X");
    assert_eq!(Cell::column_name(25), "Y");
    assert_eq!(Cell::column_name(26), "Z");

    assert_eq!(Cell::column_name(27), "AA");
    assert_eq!(Cell::column_name(28), "AB");
    assert_eq!(Cell::column_name(29), "AC");

    assert_eq!(Cell::column_name(50), "AX");
    assert_eq!(Cell::column_name(51), "AY");
    assert_eq!(Cell::column_name(52), "AZ");

    assert_eq!(Cell::column_name(53), "BA");
    assert_eq!(Cell::column_name(54), "BB");
    assert_eq!(Cell::column_name(55), "BC");

    assert_eq!(Cell::column_name(676), "YZ");
    assert_eq!(Cell::column_name(677), "ZA");
    assert_eq!(Cell::column_name(678), "ZB");

    assert_eq!(Cell::column_name(702), "ZZ");
    assert_eq!(Cell::column_name(703), "AAA");
    assert_eq!(Cell::column_name(704), "AAB");

    assert_eq!(Cell::column_name(18278), "ZZZ");
    assert_eq!(Cell::column_name(18279), "AAAA");
    assert_eq!(Cell::column_name(18280), "AAAB");
}

#[test]
fn test_column_number_retrieval() {
    assert_eq!(Cell::column_number("A"), 1);
    assert_eq!(Cell::column_number("B"), 2);
    assert_eq!(Cell::column_number("C"), 3);

    assert_eq!(Cell::column_number("X"), 24);
    assert_eq!(Cell::column_number("Y"), 25);
    assert_eq!(Cell::column_number("Z"), 26);

    assert_eq!(Cell::column_number("AA"), 27);
    assert_eq!(Cell::column_number("AB"), 28);
    assert_eq!(Cell::column_number("AC"), 29);

    assert_eq!(Cell::column_number("AX"), 50);
    assert_eq!(Cell::column_number("AY"), 51);
    assert_eq!(Cell::column_number("AZ"), 52);

    assert_eq!(Cell::column_number("BA"), 53);
    assert_eq!(Cell::column_number("BB"), 54);
    assert_eq!(Cell::column_number("BC"), 55);

    assert_eq!(Cell::column_number("YZ"), 676);
    assert_eq!(Cell::column_number("ZA"), 677);
    assert_eq!(Cell::column_number("ZB"), 678);

    assert_eq!(Cell::column_number("ZZ"), 702);
    assert_eq!(Cell::column_number("AAA"), 703);
    assert_eq!(Cell::column_number("AAB"), 704);

    assert_eq!(Cell::column_number("ZZZ"), 18278);
    assert_eq!(Cell::column_number("AAAA"), 18279);
    assert_eq!(Cell::column_number("AAAB"), 18280);
}
