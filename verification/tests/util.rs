use tlang::util::{
    extract_digits, extract_ident, extract_op, extract_whitespace, extract_whitespace1, tag,
    take_while, take_while1,
};

#[test]
fn extract_on_digit() {
    assert_eq!(extract_digits("1+2"), Ok(("+2", "1")));
}

#[test]
fn extract_multiple_digits() {
    assert_eq!(extract_digits("10-20"), Ok(("-20", "10")))
}

#[test]
fn do_not_extract_digits_from_invalid_input() {
    assert_eq!(extract_digits("abcd"), Err("expected digits".to_string()));
}

#[test]
fn extract_digits_with_no_remainder() {
    assert_eq!(extract_digits("100"), Ok(("", "100")))
}

#[test]
fn extract_plus() {
    assert_eq!(extract_op("+2"), ("2", "+"))
}

#[test]
fn extract_minus() {
    assert_eq!(extract_op("-10"), ("10", "-"))
}

#[test]
fn extract_star() {
    assert_eq!(extract_op("*3"), ("3", "*"))
}

#[test]
fn extract_slash() {
    assert_eq!(extract_op("/4"), ("4", "/"))
}

#[test]
fn extract_spaces() {
    assert_eq!(extract_whitespace("    1"), ("1", "    "))
}

#[test]
fn extract_newlines_or_spaces() {
    assert_eq!(extract_whitespace(" \n   \n\nabc"), ("abc", " \n   \n\n"));
}

#[test]
fn do_not_extract_spaces1_when_input_does_not_start_with_them() {
    assert_eq!(
        extract_whitespace1("blah"),
        Err("expected whitespace".to_string()),
    );
}

#[test]
fn extract_alphabetic_ident() {
    assert_eq!(extract_ident("abcdEFG stop"), Ok((" stop", "abcdEFG")))
}

#[test]
fn extract_alphanumeric_ident() {
    assert_eq!(extract_ident("foobar1()"), Ok(("()", "foobar1")))
}

#[test]
fn cannot_extract_ident_beginning_with_number() {
    assert_eq!(
        extract_ident("123abc"),
        Err("expected identifier".to_string())
    );
}

#[test]
fn tag_word() {
    assert_eq!(tag("let", "let a"), Ok(" a"))
}

#[test]
fn take_while_takes_the_longest_accepted_prefix() {
    assert_eq!(take_while(|c| c == 'a', "aaab"), ("b", "aaa"));
    assert_eq!(take_while(|c| c == 'a', "aaa"), ("", "aaa"));
}

#[test]
fn take_while_may_take_nothing() {
    assert_eq!(take_while(|c| c == 'a', "baa"), ("baa", ""));
    assert_eq!(take_while(|c| c == 'a', ""), ("", ""));
}

#[test]
fn take_while_splits_between_characters_of_several_bytes() {
    assert_eq!(take_while(|c| c == 'é', "ééλx"), ("λx", "éé"));
    assert_eq!(take_while(|c| c != 'x', "ééλx"), ("x", "ééλ"));
}

#[test]
fn take_while1_fails_with_the_given_message_on_an_empty_prefix() {
    assert_eq!(
        take_while1(|c| c == 'a', "baa", "wanted a".to_string()),
        Err("wanted a".to_string()),
    );
    assert_eq!(
        take_while1(|c| c == 'a', "", "wanted a".to_string()),
        Err("wanted a".to_string()),
    );
}

#[test]
fn take_while1_returns_a_non_empty_prefix() {
    assert_eq!(
        take_while1(|c| c == 'a', "aab", "wanted a".to_string()),
        Ok(("b", "aa")),
    );
}

#[test]
fn extract_digits_stops_at_non_ascii_digits() {
    assert_eq!(extract_digits("12٣4"), Ok(("٣4", "12")));
    assert_eq!(extract_digits("٣4"), Err("expected digits".to_string()));
}

#[test]
fn extract_whitespace_takes_only_spaces_and_newlines() {
    assert_eq!(extract_whitespace(" \n\t x"), ("\t x", " \n"));
    assert_eq!(extract_whitespace("\r\n"), ("\r\n", ""));
    assert_eq!(extract_whitespace(""), ("", ""));
}

#[test]
fn extract_whitespace1_returns_the_run() {
    assert_eq!(extract_whitespace1(" \n x"), Ok(("x", " \n ")));
}

#[test]
fn extract_ident_needs_an_ascii_letter_first() {
    assert_eq!(extract_ident(""), Err("expected identifier".to_string()));
    assert_eq!(extract_ident("_a"), Err("expected identifier".to_string()));
    assert_eq!(extract_ident("éa"), Err("expected identifier".to_string()));
    assert_eq!(extract_ident("aé"), Ok(("é", "a")));
    assert_eq!(extract_ident("Zz9_"), Ok(("_", "Zz9")));
}

#[test]
fn tag_names_the_literal_it_missed() {
    assert_eq!(tag("let", "le"), Err("expected let".to_string()));
    assert_eq!(tag("let", "lit a"), Err("expected let".to_string()));
    assert_eq!(tag("}", ""), Err("expected }".to_string()));
}

#[test]
fn tag_of_the_whole_input_leaves_nothing() {
    assert_eq!(tag("let", "let"), Ok(""));
    assert_eq!(tag("", "abc"), Ok("abc"));
}
