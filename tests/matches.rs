use cell::find_matches;

#[test]
fn print_only_lines_with_pattern() {
    let file_contents = "line containing THIS pattern\n\
    line not containing the pattern\n\
    another line containing THIS pattern";

    let result = find_matches(file_contents, "THIS");

    assert_eq!(
        result.as_bytes(),
        b"line containing THIS pattern\n\
        another line containing THIS pattern\n"
    );
}

#[test]
fn matches_with_empty_pattern_and_crlf() {
    assert_eq!(find_matches("a\r\nb\n", ""), "a\nb\n");
    assert_eq!(find_matches("abc\nxbcx\nbx", "bc"), "abc\nxbcx\n");
    assert_eq!(find_matches("", "x"), "");
    assert_eq!(find_matches("short", "longer pattern"), "");
}
