use ahiru_tpm::prefix_lines::PrefixLines;

#[test]
fn prefixes_each_line() {
    assert_eq!("a\nb".prefix_lines("> "), "> a\n> b");
    assert_eq!("a\r\nb\n".prefix_lines("> "), "> a\n> b");
    assert_eq!("a\n\nb".prefix_lines("- "), "- a\n- \n- b");
}

#[test]
fn prefixes_nothing_in_empty_text() {
    assert_eq!("".prefix_lines("> "), "");
    assert_eq!("\n".prefix_lines("> "), "> ");
}
