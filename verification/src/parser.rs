//! The executable parser: one function for each rule of the grammar.
//!
//! Each function tries its rule at a position of the input and returns what
//! the rule recognised together with the position behind it, exactly as the
//! specification function of the same rule in [`crate::grammar`] says.

use vstd::prelude::*;
use vstd::string::StringSliceAdditionalSpecFns;
use crate::document::{Expression, ParseError, Statement, StatementView};
use crate::grammar::{
    byte_at, lemma_statement_end, spec_assignment, spec_assignment_name, spec_comment,
    spec_expr_text, spec_expression, spec_parse, spec_statement, spec_statements,
};
use crate::invariants::lemma_statements_well_formed;
use crate::lexical::{
    scan_run, skip_blanks, skip_whitespace, ByteClass, ASSIGNMENT_OPERATOR, COMMENT_START,
    LINE_END, STRING_BOUNDARY,
};
use crate::text::decode_text;

verus! {

/// Tells whether the byte `c` stands at position `pos` of `input`.
fn has_byte(input: &[u8], pos: usize, c: u8) -> (r: bool)
    ensures
        r == byte_at(input@, pos as int, c),
        r ==> pos < usize::MAX,
{
    pos < input.len() && input[pos] == c
}

/// Recognises a string literal at `pos` and returns its text and the
/// position behind its closing boundary.
pub fn expr_text(input: &[u8], pos: usize) -> (r: Option<(String, usize)>)
    ensures
        match r {
            Some((text, end)) => spec_expr_text(input@, pos as int) == Some((text@, end as int)),
            None => spec_expr_text(input@, pos as int) is None,
        },
{
    if !has_byte(input, pos, STRING_BOUNDARY) {
        return None;
    }
    let close = scan_run(input, ByteClass::StringText, pos + 1);
    if close >= input.len() {
        return None;
    }
    match decode_text(input, pos + 1, close) {
        Some(text) => Some((text, close + 1)),
        None => None,
    }
}

/// Recognises an expression at `pos` and returns it with the position
/// behind it.
pub fn expression(input: &[u8], pos: usize) -> (r: Option<(Expression, usize)>)
    ensures
        match r {
            Some((value, end)) => spec_expression(input@, pos as int) == Some(
                (value@, end as int),
            ),
            None => spec_expression(input@, pos as int) is None,
        },
{
    match expr_text(input, pos) {
        Some((text, end)) => Some((Expression::Text(text), end)),
        None => None,
    }
}

/// Recognises a comment at `pos` and returns its text and the position
/// behind the line feed that closes it.
pub fn comment(input: &[u8], pos: usize) -> (r: Option<(String, usize)>)
    ensures
        match r {
            Some((text, end)) => spec_comment(input@, pos as int) == Some((text@, end as int)),
            None => spec_comment(input@, pos as int) is None,
        },
{
    if !has_byte(input, pos, COMMENT_START) {
        return None;
    }
    let start = skip_blanks(input, pos + 1);
    let end = scan_run(input, ByteClass::CommentText, start);
    if end >= input.len() {
        return None;
    }
    match decode_text(input, start, end) {
        Some(text) => Some((text, end + 1)),
        None => None,
    }
}

/// Reads the name of an assignment at `pos`: returns the name, if there is
/// one, and the position behind the run of name bytes.
pub fn assignment_name(input: &[u8], pos: usize) -> (r: (Option<String>, usize))
    ensures
        match r.0 {
            Some(name) => spec_assignment_name(input@, pos as int).0 == Some(name@),
            None => spec_assignment_name(input@, pos as int).0 is None,
        },
        r.1 == spec_assignment_name(input@, pos as int).1,
{
    let end = scan_run(input, ByteClass::Name, pos);
    if pos < end {
        (decode_text(input, pos, end), end)
    } else {
        (None, end)
    }
}

/// Recognises an assignment at `pos` and returns its name, its value and
/// the position behind the line feed that closes it.
pub fn assignment(input: &[u8], pos: usize) -> (r: Option<(Option<String>, Expression, usize)>)
    ensures
        match r {
            Some((name, value, end)) => spec_assignment(input@, pos as int) == Some(
                (
                    match name {
                        Some(n) => Some(n@),
                        None => None,
                    },
                    value@,
                    end as int,
                ),
            ),
            None => spec_assignment(input@, pos as int) is None,
        },
{
    let (name, name_end) = assignment_name(input, pos);
    let operator = skip_whitespace(input, name_end);
    if !has_byte(input, operator, ASSIGNMENT_OPERATOR) {
        return None;
    }
    let value_start = skip_whitespace(input, operator + 1);
    match expression(input, value_start) {
        Some((value, value_end)) => {
            let line_end = skip_blanks(input, value_end);
            if has_byte(input, line_end, LINE_END) {
                Some((name, value, line_end + 1))
            } else {
                None
            }
        },
        None => None,
    }
}

/// Recognises a statement at `pos`, with the whitespace around it, and
/// returns it with the position behind it. A statement that is recognised
/// consumes input: that position lies behind `pos` and within the input.
pub fn statement(input: &[u8], pos: usize) -> (r: Option<(Statement, usize)>)
    ensures
        match r {
            Some((parsed, end)) => spec_statement(input@, pos as int) == Some(
                (parsed@, end as int),
            ) && pos < end <= input@.len(),
            None => spec_statement(input@, pos as int) is None,
        },
{
    let start = skip_whitespace(input, pos);
    let r = match comment(input, start) {
        Some((text, end)) => Some(
            (Statement::Comment(text), skip_whitespace(input, end)),
        ),
        None => match assignment(input, start) {
            Some((name, value, end)) => Some(
                (Statement::Assignment(name, value), skip_whitespace(input, end)),
            ),
            None => None,
        },
    };
    proof {
        if r is Some {
            lemma_statement_end(input@, pos as int);
        }
    }
    r
}

/// Parses a whole document given as bytes: statement after statement until
/// the input is used up. Returns the statements in the order of the input,
/// or the error where a statement is required and none matches; no part of
/// a document is returned.
pub fn parse_all_statements(input: &[u8]) -> (r: Result<Vec<Statement>, ParseError>)
    ensures
        match r {
            Ok(statements) => spec_parse(input@) == Some(statements.deep_view()),
            Err(e) => spec_parse(input@) is None && e == ParseError::GrammarMismatch,
        },
        r matches Ok(statements) ==> forall|i: int|
            0 <= i < statements@.len() ==> (#[trigger] statements@[i])@.well_formed(),
{
    let mut statements: Vec<Statement> = Vec::new();
    let mut pos: usize = 0;
    while pos < input.len()
        invariant
            pos <= input@.len(),
            spec_parse(input@) == match spec_statements(input@, pos as int) {
                Some(rest) => Some(statements.deep_view() + rest),
                None => None,
            },
        decreases input@.len() - pos,
    {
        match statement(input, pos) {
            Some((parsed, end)) => {
                let ghost before = statements.deep_view();
                statements.push(parsed);
                assert(statements.deep_view() =~= before + seq![parsed@]);
                assert forall|rest: Seq<StatementView>|
                    before + (seq![parsed@] + rest) == statements.deep_view() + rest by {
                    assert(before + (seq![parsed@] + rest) =~= (before + seq![parsed@]) + rest);
                }
                pos = end;
            },
            None => {
                return Err(ParseError::GrammarMismatch);
            },
        }
    }
    proof {
        assert(statements.deep_view() + Seq::empty() =~= statements.deep_view());
        lemma_statements_well_formed(input@, 0);
        assert forall|i: int| 0 <= i < statements@.len() implies (#[trigger] statements@[i])@
            .well_formed() by {
            assert(statements.deep_view()[i] == statements@[i]@);
        }
    }
    Ok(statements)
}

/// Parses a document. Returns its statements in the order in which they
/// stand in `input`, one for each statement that the grammar recognises, or
/// the error where `input` does not match the grammar.
pub fn parse(input: &str) -> (r: Result<Vec<Statement>, ParseError>)
    ensures
        match r {
            Ok(statements) => spec_parse(input.spec_bytes()) == Some(statements.deep_view()),
            Err(e) => spec_parse(input.spec_bytes()) is None && e == ParseError::GrammarMismatch,
        },
        r matches Ok(statements) ==> forall|i: int|
            0 <= i < statements@.len() ==> (#[trigger] statements@[i])@.well_formed(),
{
    parse_all_statements(input.as_bytes())
}

} // verus!
