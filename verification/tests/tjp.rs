use utf8proj::tjp::parse_string;

#[test]
fn tjp_strings_lose_quotes_and_escapes() {
    assert_eq!(parse_string("\"Test Project\""), "Test Project");
    assert_eq!(parse_string("\"say \\\"hi\\\" now\""), "say \"hi\" now");
    // A quote escaped at the very end goes with the closing quotes.
    assert_eq!(parse_string("\"say \\\"hi\\\"\""), "say \"hi\\");
    assert_eq!(parse_string("\"a\\nb\\tc\""), "a\nb\tc");
    assert_eq!(parse_string("\"back\\\\slash\""), "back\\slash");
    // Quotes go from both ends, however many there are.
    assert_eq!(parse_string("\"\"x\"\"\""), "x");
    assert_eq!(parse_string("\"\""), "");
    // Replacements run in order: an escaped backslash before `n` becomes a
    // line break first.
    assert_eq!(parse_string("\"\\\\n\""), "\\\n");
    assert_eq!(parse_string("plain"), "plain");
}
