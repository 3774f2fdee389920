use ahiru_tpm::truncate_ellipsis::TruncateEllipsis;

#[test]
fn should_not_truncate_shorter_strings() {
    let str = "string with 20 chars";
    let str_truncated = str.truncate_ellipsis(21);

    assert_eq!(str_truncated, str);
}

#[test]
fn should_not_truncate_string_with_exactly_max_length() {
    let str = "string with 20 chars";
    let str_truncated = str.truncate_ellipsis(20);

    assert_eq!(str_truncated, str);
}

#[test]
fn should_truncate_longer_strings() {
    let str = "string with 20 chars";
    let str_truncated = str.truncate_ellipsis(19);

    assert_eq!(str_truncated, "string with 20 cha…");
}

#[test]
fn should_correctly_truncate_strings_with_utf8_chars() {
    let str = "string with 82 chars and fancy 'ƒ' with two-bytes length, making it 83 bytes long.";
    let str_truncated = str.truncate_ellipsis(81);

    assert_eq!(str.len(), 83);
    assert_eq!(str.chars().count(), 82);

    assert_eq!(
        str_truncated,
        "string with 82 chars and fancy 'ƒ' with two-bytes length, making it 83 bytes lon…"
    );

    assert_eq!(str_truncated.len(), 84);
    assert_eq!(str_truncated.chars().count(), 81);
}

#[test]
fn truncates_to_a_single_ellipsis() {
    assert_eq!("abc".truncate_ellipsis(1), "…");
    assert_eq!("a".truncate_ellipsis(1), "a");
    assert_eq!("".truncate_ellipsis(3), "");
}
