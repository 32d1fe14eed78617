//! The grammar of a document, as specification functions over bytes.
//!
//! ```text
//! document   := statement*
//! statement  := comment | assignment
//! comment    := "#" text-without-newline "\n"
//! assignment := name? "=" expression "\n"
//! name       := (alnum | "_")+
//! expression := '"' text-without-quote '"'
//! ```
//!
//! Each rule is a function of the input and of the position at which the rule
//! is tried. Where the rule matches, the function gives what was recognised
//! and the position behind it.
//!
//! Whitespace between two tokens of a statement carries no meaning and is
//! passed over, before the first token and behind the last one too. The line
//! feed that ends a statement is a token of its own: in front of it, and in
//! front of the text of a comment, which may be empty, only blanks are passed
//! over, so that a statement never reaches beyond the line feed that closes
//! it. A string literal is one token: every byte between its boundaries
//! belongs to its text.

use vstd::prelude::*;
use crate::document::{ExpressionView, StatementView};
use crate::lexical::{
    run_end, lemma_run_end, ByteClass, ASSIGNMENT_OPERATOR, COMMENT_START, LINE_END,
    STRING_BOUNDARY,
};
use crate::text::text_at;

verus! {

/// Whether the byte `c` stands at position `pos` of `s`.
pub open spec fn byte_at(s: Seq<u8>, pos: int, c: u8) -> bool {
    0 <= pos < s.len() && s[pos] == c
}

/// A string literal at `pos`: a boundary, the maximal run of bytes that are
/// no boundary, and a closing boundary. Gives the text of the run and the
/// position behind the closing boundary. There is no match where `pos` holds
/// no boundary, where the input ends before the literal is closed, or where
/// the run is not valid text.
pub open spec fn spec_expr_text(s: Seq<u8>, pos: int) -> Option<(Seq<char>, int)> {
    let close = run_end(s, ByteClass::StringText, pos + 1);
    if byte_at(s, pos, STRING_BOUNDARY) && close < s.len() {
        match text_at(s, pos + 1, close) {
            Some(text) => Some((text, close + 1)),
            None => None,
        }
    } else {
        None
    }
}

/// An expression at `pos`. The string literal is the only form.
pub open spec fn spec_expression(s: Seq<u8>, pos: int) -> Option<(ExpressionView, int)> {
    match spec_expr_text(s, pos) {
        Some((text, end)) => Some((ExpressionView::Text(text), end)),
        None => None,
    }
}

/// A comment at `pos`: `#`, blanks, the maximal run of bytes up to the next
/// line feed, and that line feed. Gives the text of the run and the position
/// behind the line feed. There is no match where `pos` holds no `#`, where
/// the input ends before a line feed, or where the run is not valid text.
pub open spec fn spec_comment(s: Seq<u8>, pos: int) -> Option<(Seq<char>, int)> {
    let start = run_end(s, ByteClass::Blank, pos + 1);
    let end = run_end(s, ByteClass::CommentText, start);
    if byte_at(s, pos, COMMENT_START) && end < s.len() {
        match text_at(s, start, end) {
            Some(text) => Some((text, end + 1)),
            None => None,
        }
    } else {
        None
    }
}

/// The name of an assignment at `pos`: the maximal run of name bytes. Gives
/// the name and the position behind the run. The name is absent where the
/// run is empty or is not valid text; the run is passed over all the same.
pub open spec fn spec_assignment_name(s: Seq<u8>, pos: int) -> (Option<Seq<char>>, int) {
    let end = run_end(s, ByteClass::Name, pos);
    (
        if pos < end {
            text_at(s, pos, end)
        } else {
            None
        },
        end,
    )
}

/// An assignment at `pos`: an optional name, `=`, an expression and a line
/// feed. Gives the name, the expression and the position behind the line
/// feed. There is no match where `=` is missing, where no expression
/// follows it, or where no line feed follows the expression.
pub open spec fn spec_assignment(s: Seq<u8>, pos: int) -> Option<
    (Option<Seq<char>>, ExpressionView, int),
> {
    let (name, name_end) = spec_assignment_name(s, pos);
    let operator = run_end(s, ByteClass::Whitespace, name_end);
    if byte_at(s, operator, ASSIGNMENT_OPERATOR) {
        match spec_expression(s, run_end(s, ByteClass::Whitespace, operator + 1)) {
            Some((value, value_end)) => {
                let line_end = run_end(s, ByteClass::Blank, value_end);
                if byte_at(s, line_end, LINE_END) {
                    Some((name, value, line_end + 1))
                } else {
                    None
                }
            },
            None => None,
        }
    } else {
        None
    }
}

/// A statement at `pos`: whitespace, then a comment or else an assignment,
/// then whitespace. The comment is tried first, and the assignment only
/// where the comment does not match. Gives the statement and the position
/// behind the closing whitespace.
pub open spec fn spec_statement(s: Seq<u8>, pos: int) -> Option<(StatementView, int)> {
    let start = run_end(s, ByteClass::Whitespace, pos);
    match spec_comment(s, start) {
        Some((text, end)) => Some(
            (StatementView::Comment(text), run_end(s, ByteClass::Whitespace, end)),
        ),
        None => match spec_assignment(s, start) {
            Some((name, value, end)) => Some(
                (StatementView::Assignment(name, value), run_end(s, ByteClass::Whitespace, end)),
            ),
            None => None,
        },
    }
}

/// The statements of `s` from `pos` to its end: none where `pos` is the end,
/// else the statement at `pos` followed by the statements behind it. There
/// is no result where a statement is required and none matches.
pub open spec fn spec_statements(s: Seq<u8>, pos: int) -> Option<Seq<StatementView>>
    decreases s.len() - pos,
    via spec_statements_decreases
{
    if pos >= s.len() {
        Some(Seq::empty())
    } else {
        match spec_statement(s, pos) {
            Some((statement, end)) => match spec_statements(s, end) {
                Some(rest) => Some(seq![statement] + rest),
                None => None,
            },
            None => None,
        }
    }
}

#[via_fn]
proof fn spec_statements_decreases(s: Seq<u8>, pos: int) {
    if pos < s.len() && spec_statement(s, pos) is Some {
        lemma_statement_end(s, pos);
    }
}

/// The document that `s` holds: its statements in the order of the input,
/// or nothing where `s` does not match the grammar.
pub open spec fn spec_parse(s: Seq<u8>) -> Option<Seq<StatementView>> {
    spec_statements(s, 0)
}

/// A comment that matches ends within the input, behind at least `#` and the
/// line feed.
pub proof fn lemma_comment_end(s: Seq<u8>, pos: int)
    requires
        spec_comment(s, pos) is Some,
    ensures
        pos + 2 <= spec_comment(s, pos).unwrap().1 <= s.len(),
{
    lemma_run_end(s, ByteClass::Blank, pos + 1);
}

/// An assignment that matches ends within the input, behind at least `=`, a
/// string literal and the line feed.
pub proof fn lemma_assignment_end(s: Seq<u8>, pos: int)
    requires
        spec_assignment(s, pos) is Some,
    ensures
        pos + 4 <= spec_assignment(s, pos).unwrap().2 <= s.len(),
{
    let name_end = run_end(s, ByteClass::Name, pos);
    let operator = run_end(s, ByteClass::Whitespace, name_end);
    let value_start = run_end(s, ByteClass::Whitespace, operator + 1);
    lemma_run_end(s, ByteClass::Name, pos);
    lemma_run_end(s, ByteClass::Whitespace, name_end);
    lemma_run_end(s, ByteClass::Whitespace, operator + 1);
    lemma_run_end(s, ByteClass::Blank, spec_expr_text(s, value_start).unwrap().1);
}

/// A statement that matches consumes input: it ends within the input and
/// behind the position at which it was tried.
pub proof fn lemma_statement_end(s: Seq<u8>, pos: int)
    requires
        spec_statement(s, pos) is Some,
    ensures
        pos < spec_statement(s, pos).unwrap().1 <= s.len(),
{
    let start = run_end(s, ByteClass::Whitespace, pos);
    lemma_run_end(s, ByteClass::Whitespace, pos);
    if spec_comment(s, start) is Some {
        lemma_comment_end(s, start);
        lemma_run_end(s, ByteClass::Whitespace, spec_comment(s, start).unwrap().1);
    } else {
        lemma_assignment_end(s, start);
        lemma_run_end(s, ByteClass::Whitespace, spec_assignment(s, start).unwrap().2);
    }
}

} // verus!
