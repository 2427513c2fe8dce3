use yamaha_rcp_to_osc::split_respecting_quotes;

#[test]
fn a_quote_without_its_partner_keeps_the_rest() {
    assert_eq!(split_respecting_quotes("a \"b c"), vec!["a", "\"b c"]);
    assert_eq!(split_respecting_quotes("a \"b c d  e "), vec!["a", "\"b c d  e "]);
    assert_eq!(split_respecting_quotes("\""), vec!["\""]);
    assert_eq!(split_respecting_quotes("a b\" "), vec!["a", "b\" "]);
}

#[test]
fn quotes_inside_a_token_stay_in_it() {
    assert_eq!(split_respecting_quotes("a\"b c\"d e"), vec!["a\"b c\"d", "e"]);
    assert_eq!(split_respecting_quotes("\"\""), vec!["\"\""]);
    assert_eq!(split_respecting_quotes("\"a\"\"b\""), vec!["\"a\"\"b\""]);
    assert_eq!(split_respecting_quotes("\"a\" \"b c\""), vec!["\"a\"", "\"b c\""]);
    assert_eq!(split_respecting_quotes("\" \""), vec!["\" \""]);
}

#[test]
fn spaces_at_the_ends_make_no_tokens() {
    assert_eq!(split_respecting_quotes("  a  b  "), vec!["a", "b"]);
    assert!(split_respecting_quotes("     ").is_empty());
    assert!(split_respecting_quotes(" ").is_empty());
    assert_eq!(split_respecting_quotes("a"), vec!["a"]);
}

#[test]
fn only_the_space_separates() {
    assert_eq!(split_respecting_quotes("a\tb"), vec!["a\tb"]);
    assert_eq!(split_respecting_quotes("a\nb c"), vec!["a\nb", "c"]);
    assert_eq!(split_respecting_quotes("a\u{a0}b"), vec!["a\u{a0}b"]);
    assert_eq!(split_respecting_quotes("gr\u{fc}n  \u{1f3b9} \u{e9}"), vec!["gr\u{fc}n", "\u{1f3b9}", "\u{e9}"]);
}

#[test]
fn no_token_is_empty() {
    for line in ["", " ", "a  b", " \"\" ", "  x  \"y  z\"  ", "\" ", " \""] {
        for token in split_respecting_quotes(line) {
            assert!(!token.is_empty(), "line {:?}", line);
        }
    }
}
