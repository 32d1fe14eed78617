use line_config::lexical::{
    is_string_boundary, is_valid_assignment_name_char, is_whitespace, scan_run, skip_blanks,
    skip_whitespace, ByteClass,
};
use line_config::parser::{assignment, assignment_name, comment, expr_text, expression, statement};
use line_config::text::decode_text;
use line_config::{Expression, Statement};

#[test]
fn name_bytes_are_the_alphanumeric_characters_and_underscore() {
    for c in 0..=255u8 {
        let ch = c as char;
        assert_eq!(
            is_valid_assignment_name_char(c),
            ch.is_alphanumeric() || ch == '_',
            "byte {}",
            c
        );
    }
}

#[test]
fn name_bytes_by_example() {
    for c in [b'a', b'z', b'A', b'Z', b'0', b'9', b'_', 0xAA, 0xB5, 0xC0, 0xFF] {
        assert!(is_valid_assignment_name_char(c));
    }
    for c in [b'-', b'=', b'"', b'#', b' ', b'\n', b'.', 0x00, 0x7F, 0x80, 0xD7, 0xF7] {
        assert!(!is_valid_assignment_name_char(c));
    }
}

#[test]
fn the_string_boundary_is_the_double_quote() {
    for c in 0..=255u8 {
        assert_eq!(is_string_boundary(c), c == b'"');
    }
}

#[test]
fn whitespace_is_space_tab_and_line_ends() {
    for c in 0..=255u8 {
        assert_eq!(is_whitespace(c), c == b' ' || c == b'\t' || c == b'\r' || c == b'\n');
    }
}

#[test]
fn whitespace_runs_agree_with_nom() {
    let inputs: [&[u8]; 8] = [
        b"",
        b"abc",
        b" \t abc ",
        b"\r\n\t x",
        b"   ",
        b"\n\n",
        b"\x0b x",
        b" \xa0",
    ];
    for input in inputs {
        match nom::sp(input) {
            nom::IResult::Done(rest, eaten) => {
                let end = skip_whitespace(input, 0);
                assert_eq!(end, eaten.len());
                assert_eq!(&input[end..], rest);
            }
            _ => panic!("the whitespace parser does not fail"),
        }
    }
}

#[test]
fn classes_hold_their_bytes() {
    assert!(ByteClass::Whitespace.holds(b'\n'));
    assert!(!ByteClass::Blank.holds(b'\n'));
    assert!(ByteClass::Blank.holds(b' '));
    assert!(ByteClass::Blank.holds(b'\t'));
    assert!(ByteClass::Blank.holds(b'\r'));
    assert!(!ByteClass::Blank.holds(b'x'));
    assert!(ByteClass::Name.holds(b'_'));
    assert!(!ByteClass::Name.holds(b'-'));
    assert!(ByteClass::CommentText.holds(b'"'));
    assert!(!ByteClass::CommentText.holds(b'\n'));
    assert!(ByteClass::StringText.holds(b'\n'));
    assert!(!ByteClass::StringText.holds(b'"'));
}

#[test]
fn runs_are_maximal() {
    assert_eq!(scan_run(b"abc def", ByteClass::Name, 0), 3);
    assert_eq!(scan_run(b"abc def", ByteClass::Name, 1), 3);
    assert_eq!(scan_run(b"abc def", ByteClass::Name, 3), 3);
    assert_eq!(scan_run(b"abc def", ByteClass::Name, 4), 7);
    assert_eq!(scan_run(b"abc def", ByteClass::Whitespace, 3), 4);
    assert_eq!(scan_run(b"a \t\r\nb", ByteClass::Blank, 1), 4);
    assert_eq!(scan_run(b"a \t\r\nb", ByteClass::Whitespace, 1), 5);
    assert_eq!(scan_run(b"one\ntwo", ByteClass::CommentText, 0), 3);
    assert_eq!(scan_run(b"one\"two", ByteClass::StringText, 0), 3);
}

#[test]
fn whitespace_and_blanks_are_passed_over() {
    assert_eq!(skip_whitespace(b"x \t\r\n y", 1), 6);
    assert_eq!(skip_whitespace(b"x \t\r\n y", 6), 6);
    assert_eq!(skip_whitespace(b"  ", 0), 2);
    assert_eq!(skip_blanks(b"x \t\r\n y", 1), 4);
    assert_eq!(skip_blanks(b"x \t\r\n y", 4), 4);
    assert_eq!(skip_blanks(b"\n", 0), 0);
    assert_eq!(skip_blanks(b"", 3), 3);
}

#[test]
fn a_run_from_outside_the_input_is_empty() {
    assert_eq!(scan_run(b"abc", ByteClass::Name, 3), 3);
    assert_eq!(scan_run(b"abc", ByteClass::Name, 7), 7);
    assert_eq!(scan_run(b"", ByteClass::Whitespace, 0), 0);
}

#[test]
fn text_is_decoded_from_a_range() {
    assert_eq!(decode_text(b"hello world", 6, 11), Some("world".to_string()));
    assert_eq!(decode_text(b"hello", 2, 2), Some(String::new()));
    assert_eq!(decode_text("h\u{e9}".as_bytes(), 0, 3), Some("h\u{e9}".to_string()));
}

#[test]
fn text_that_is_not_utf8_is_not_decoded() {
    assert_eq!(decode_text(b"a\xffb", 0, 3), None);
    assert_eq!(decode_text("h\u{e9}".as_bytes(), 0, 2), None);
    assert_eq!(decode_text("h\u{e9}".as_bytes(), 2, 3), None);
}

#[test]
fn a_range_outside_the_input_is_not_decoded() {
    assert_eq!(decode_text(b"abc", 2, 1), None);
    assert_eq!(decode_text(b"abc", 1, 4), None);
}

#[test]
fn string_literal_rule() {
    assert_eq!(expr_text(b"\"value\"\n", 0), Some(("value".to_string(), 7)));
    assert_eq!(expr_text(b"x=\"value\"\n", 2), Some(("value".to_string(), 9)));
    assert_eq!(expr_text(b"\"\"", 0), Some((String::new(), 2)));
    assert_eq!(expr_text(b"\" a \"", 0), Some((" a ".to_string(), 5)));
    assert_eq!(expr_text(b"value\"", 0), None);
    assert_eq!(expr_text(b" \"value\"", 0), None);
    assert_eq!(expr_text(b"\"value", 0), None);
    assert_eq!(expr_text(b"\"", 0), None);
    assert_eq!(expr_text(b"", 0), None);
    assert_eq!(expr_text(b"\"a\"", 5), None);
    assert_eq!(expr_text(b"\"\xff\"", 0), None);
}

#[test]
fn expression_rule() {
    assert_eq!(
        expression(b"\"v\" rest", 0),
        Some((Expression::Text("v".to_string()), 3))
    );
    assert_eq!(expression(b"v", 0), None);
}

#[test]
fn comment_rule() {
    assert_eq!(comment(b"# hello world\n", 0), Some(("hello world".to_string(), 14)));
    assert_eq!(comment(b"#x\ny", 0), Some(("x".to_string(), 3)));
    assert_eq!(comment(b"#\n", 0), Some((String::new(), 2)));
    assert_eq!(comment(b"# \t\n", 0), Some((String::new(), 4)));
    assert_eq!(comment(b"x#a\n", 1), Some(("a".to_string(), 4)));
    assert_eq!(comment(b" #a\n", 0), None);
    assert_eq!(comment(b"#a", 0), None);
    assert_eq!(comment(b"a\n", 0), None);
    assert_eq!(comment(b"", 0), None);
    assert_eq!(comment(b"#\xff\n", 0), None);
}

#[test]
fn name_rule() {
    assert_eq!(assignment_name(b"x-y=\"v\"\n", 0), (Some("x".to_string()), 1));
    assert_eq!(assignment_name(b"name_1 =", 0), (Some("name_1".to_string()), 6));
    assert_eq!(assignment_name(b"=\"v\"", 0), (None, 0));
    assert_eq!(assignment_name(b"", 0), (None, 0));
    assert_eq!(assignment_name(b"abc", 1), (Some("bc".to_string()), 3));
    assert_eq!(assignment_name(b"\xc3=", 0), (None, 1));
}

#[test]
fn assignment_rule() {
    assert_eq!(
        assignment(b"x=\"value\"\n", 0),
        Some((Some("x".to_string()), Expression::Text("value".to_string()), 10))
    );
    assert_eq!(
        assignment(b"=\"value\"\nrest", 0),
        Some((None, Expression::Text("value".to_string()), 9))
    );
    assert_eq!(
        assignment(b"x = \"v\" \n\n", 0),
        Some((Some("x".to_string()), Expression::Text("v".to_string()), 9))
    );
    assert_eq!(
        assignment(b" =\"v\"\n", 0),
        Some((None, Expression::Text("v".to_string()), 6))
    );
    assert_eq!(assignment(b" x=\"v\"\n", 0), None);
    assert_eq!(assignment(b"x-y=\"v\"\n", 0), None);
    assert_eq!(assignment(b"x=\"v\"", 0), None);
    assert_eq!(assignment(b"x\"v\"\n", 0), None);
    assert_eq!(assignment(b"x=\n", 0), None);
}

#[test]
fn statement_rule() {
    assert_eq!(
        statement(b"  # a\n\n  x=\"1\"\n", 0),
        Some((Statement::Comment("a".to_string()), 9))
    );
    assert_eq!(
        statement(b"  # a\n\n  x=\"1\"\n", 9),
        Some((
            Statement::Assignment(Some("x".to_string()), Expression::Text("1".to_string())),
            15
        ))
    );
    assert_eq!(statement(b"  # a\n\n  x=\"1\"\n", 15), None);
    assert_eq!(statement(b"\n", 0), None);
    assert_eq!(statement(b"#", 0), None);
}
