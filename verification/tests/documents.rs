use line_config::parser::parse_all_statements;
use line_config::{parse, Expression, ParseError, Statement};

fn comment(text: &str) -> Statement {
    Statement::Comment(text.to_string())
}

fn named(name: &str, text: &str) -> Statement {
    Statement::Assignment(Some(name.to_string()), Expression::Text(text.to_string()))
}

fn anonymous(text: &str) -> Statement {
    Statement::Assignment(None, Expression::Text(text.to_string()))
}

#[test]
fn empty_input_is_an_empty_document() {
    assert_eq!(parse(""), Ok(vec![]));
}

#[test]
fn comment_line() {
    assert_eq!(parse("# hello world\n"), Ok(vec![comment("hello world")]));
}

#[test]
fn named_assignment() {
    assert_eq!(parse("x=\"value\"\n"), Ok(vec![named("x", "value")]));
}

#[test]
fn anonymous_assignment() {
    assert_eq!(parse("=\"value\"\n"), Ok(vec![anonymous("value")]));
}

#[test]
fn empty_string_literal() {
    assert_eq!(parse("x=\"\"\n"), Ok(vec![named("x", "")]));
}

#[test]
fn missing_line_feed_fails() {
    assert_eq!(parse("x=\"value\""), Err(ParseError::GrammarMismatch));
}

#[test]
fn unterminated_string_fails() {
    assert_eq!(parse("x=\"value\n"), Err(ParseError::GrammarMismatch));
}

#[test]
fn mixed_document() {
    assert_eq!(
        parse("# comment\nx=\"1\"\n"),
        Ok(vec![comment("comment"), named("x", "1")])
    );
}

#[test]
fn name_stops_at_an_invalid_character() {
    assert_eq!(parse("x-y=\"v\"\n"), Err(ParseError::GrammarMismatch));
}

#[test]
fn statements_keep_the_order_of_the_lines() {
    let lines = ["b=\"2\"\n", "# first\n", "a=\"1\"\n", "=\"0\"\n", "# last\n", "b=\"3\"\n"];
    let expected = vec![
        named("b", "2"),
        comment("first"),
        named("a", "1"),
        anonymous("0"),
        comment("last"),
        named("b", "3"),
    ];
    for n in 0..=lines.len() {
        let input: String = lines[..n].concat();
        assert_eq!(parse(&input), Ok(expected[..n].to_vec()));
    }
}

#[test]
fn one_bad_line_rejects_the_whole_document() {
    assert_eq!(
        parse("# fine\nx=\"1\"\nbroken\ny=\"2\"\n"),
        Err(ParseError::GrammarMismatch)
    );
    assert_eq!(parse("x=\"1\"\ny=2\n"), Err(ParseError::GrammarMismatch));
    assert_eq!(parse("x=\"1\"\n#"), Err(ParseError::GrammarMismatch));
}

#[test]
fn whitespace_between_tokens_is_skipped() {
    assert_eq!(parse("  x  =  \"v\"  \n"), Ok(vec![named("x", "v")]));
    assert_eq!(parse("\tx\t=\t\"v\"\t\n"), Ok(vec![named("x", "v")]));
    assert_eq!(parse("x\n=\n\"v\"\n"), Ok(vec![named("x", "v")]));
    assert_eq!(parse(" = \"v\"\n"), Ok(vec![anonymous("v")]));
}

#[test]
fn blank_lines_around_statements_are_skipped() {
    assert_eq!(
        parse("\n\n# a\n\n\nx=\"1\"\n\n  \n"),
        Ok(vec![comment("a"), named("x", "1")])
    );
}

#[test]
fn whitespace_alone_is_no_document() {
    assert_eq!(parse("\n"), Err(ParseError::GrammarMismatch));
    assert_eq!(parse("  \t "), Err(ParseError::GrammarMismatch));
}

#[test]
fn carriage_return_before_the_line_feed() {
    assert_eq!(parse("x=\"1\"\r\ny=\"2\"\r\n"), Ok(vec![named("x", "1"), named("y", "2")]));
    assert_eq!(parse("# a\r\n"), Ok(vec![comment("a\r")]));
}

#[test]
fn comment_text_is_kept_exactly() {
    assert_eq!(parse("#\n"), Ok(vec![comment("")]));
    assert_eq!(parse("#   \n"), Ok(vec![comment("")]));
    assert_eq!(parse("#a  b \n"), Ok(vec![comment("a  b ")]));
    assert_eq!(parse("## x=\"1\"\n"), Ok(vec![comment("# x=\"1\"")]));
    assert_eq!(parse("#\n#\n"), Ok(vec![comment(""), comment("")]));
    assert_eq!(parse("#\nx=\"1\"\n"), Ok(vec![comment(""), named("x", "1")]));
}

#[test]
fn comment_without_line_feed_fails() {
    assert_eq!(parse("#"), Err(ParseError::GrammarMismatch));
    assert_eq!(parse("# no end"), Err(ParseError::GrammarMismatch));
}

#[test]
fn string_text_is_kept_exactly() {
    assert_eq!(parse("x=\" a  b \"\n"), Ok(vec![named("x", " a  b ")]));
    assert_eq!(parse("x=\"a\nb\"\n"), Ok(vec![named("x", "a\nb")]));
    assert_eq!(parse("x=\"#=\\\"\n"), Ok(vec![named("x", "#=\\")]));
    assert_eq!(
        parse("x=\"h\u{e9}llo \u{4e16}\u{754c}\"\n"),
        Ok(vec![named("x", "h\u{e9}llo \u{4e16}\u{754c}")])
    );
}

#[test]
fn a_second_boundary_closes_the_string() {
    assert_eq!(parse("x=\"a\"b\"\n"), Err(ParseError::GrammarMismatch));
    assert_eq!(parse("x=\"a\" \"b\"\n"), Err(ParseError::GrammarMismatch));
}

#[test]
fn names_are_alphanumeric_or_underscore() {
    assert_eq!(parse("_a1_B=\"v\"\n"), Ok(vec![named("_a1_B", "v")]));
    assert_eq!(parse("42=\"v\"\n"), Ok(vec![named("42", "v")]));
    assert_eq!(parse("x y=\"v\"\n"), Err(ParseError::GrammarMismatch));
    assert_eq!(parse("x.y=\"v\"\n"), Err(ParseError::GrammarMismatch));
}

#[test]
fn names_are_read_byte_by_byte() {
    // Both bytes of U+00EA are alphanumeric when read as characters.
    assert_eq!(parse("\u{ea}=\"v\"\n"), Ok(vec![named("\u{ea}", "v")]));
    // The second byte of U+00E9 is not.
    assert_eq!(parse("\u{e9}=\"v\"\n"), Err(ParseError::GrammarMismatch));
}

#[test]
fn assignment_needs_operator_value_and_line_feed() {
    assert_eq!(parse("x\n"), Err(ParseError::GrammarMismatch));
    assert_eq!(parse("x=\n"), Err(ParseError::GrammarMismatch));
    assert_eq!(parse("x=value\n"), Err(ParseError::GrammarMismatch));
    assert_eq!(parse("x=\"v\" y\n"), Err(ParseError::GrammarMismatch));
    assert_eq!(parse("x==\"v\"\n"), Err(ParseError::GrammarMismatch));
}

#[test]
fn bytes_parse_like_text() {
    assert_eq!(
        parse_all_statements(b"# c\nx=\"1\"\n"),
        Ok(vec![comment("c"), named("x", "1")])
    );
    assert_eq!(parse_all_statements(b""), Ok(vec![]));
}

#[test]
fn invalid_text_is_rejected() {
    assert_eq!(parse_all_statements(b"#\xff\n"), Err(ParseError::GrammarMismatch));
    assert_eq!(parse_all_statements(b"x=\"\xff\"\n"), Err(ParseError::GrammarMismatch));
    assert_eq!(parse_all_statements(b"x=\"\xc3\"\n"), Err(ParseError::GrammarMismatch));
}

#[test]
fn a_name_that_is_no_text_is_absent() {
    assert_eq!(parse_all_statements(b"\xc3=\"v\"\n"), Ok(vec![anonymous("v")]));
}

#[test]
fn parsed_statements_are_well_formed() {
    let parsed = parse("# a # b\n_n1=\"x # y\"\n=\"\"\n").unwrap();
    assert_eq!(parsed.len(), 3);
    for statement in parsed {
        match statement {
            Statement::Comment(text) => {
                assert!(!text.contains('\n'));
                assert!(!text.starts_with([' ', '\t', '\r']));
            }
            Statement::Assignment(name, Expression::Text(text)) => {
                assert!(!text.contains('"'));
                if let Some(name) = name {
                    assert!(!name.is_empty());
                    assert!(name.chars().all(|c| c.is_alphanumeric() || c == '_'));
                }
            }
        }
    }
}

fn canonical_text(document: &[Statement]) -> String {
    let mut out = String::new();
    for statement in document {
        match statement {
            Statement::Comment(text) => {
                out.push('#');
                out.push_str(text);
            }
            Statement::Assignment(name, Expression::Text(text)) => {
                if let Some(name) = name {
                    out.push_str(name);
                }
                out.push_str("=\"");
                out.push_str(text);
                out.push('"');
            }
        }
        out.push('\n');
    }
    out
}

#[test]
fn parsing_inverts_writing() {
    let document = vec![
        comment(""),
        comment("a comment, with = and \" in it"),
        named("name_1", "text with # and\nline feeds"),
        anonymous(""),
        named("\u{ea}", "\u{4e16}\u{754c}"),
        comment("#"),
        anonymous(" = "),
    ];
    for n in 0..=document.len() {
        assert_eq!(parse(&canonical_text(&document[..n])), Ok(document[..n].to_vec()));
    }
}

#[test]
fn a_comment_loses_the_blanks_in_front_of_its_text() {
    assert_eq!(parse("# \t a\n"), Ok(vec![comment("a")]));
    assert_eq!(parse("#\r\n"), Ok(vec![comment("")]));
}

#[test]
fn a_comment_that_matches_is_no_assignment() {
    assert_eq!(parse("#=\"v\"\n"), Ok(vec![comment("=\"v\"")]));
    assert_eq!(parse("# x=\"v\"\n"), Ok(vec![comment("x=\"v\"")]));
}
