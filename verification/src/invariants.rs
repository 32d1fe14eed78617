//! What holds of everything that the grammar recognises: statements are
//! well formed, the two forms of a statement exclude each other, and in a
//! text no rule fails for want of valid text.

use vstd::prelude::*;
use vstd::utf8::{encode_utf8, valid_utf8};
use crate::document::{is_name, ExpressionView, StatementView};
use crate::grammar::{
    byte_at, lemma_statement_end, spec_assignment, spec_assignment_name, spec_comment,
    spec_expr_text, spec_statement, spec_statements,
};
use crate::lexical::{
    is_blank_byte, is_name_byte, is_whitespace_byte, lemma_run_end, run_end, ByteClass,
    ASSIGNMENT_OPERATOR, COMMENT_START, LINE_END, STRING_BOUNDARY,
};
use crate::text::{
    lemma_ascii_in_encoding, lemma_encoded_char, lemma_text_at_bytes, lemma_text_between_ascii,
};

verus! {

/// A string literal that matches holds no boundary character in its text.
pub proof fn lemma_expr_text_well_formed(s: Seq<u8>, pos: int)
    requires
        spec_expr_text(s, pos) is Some,
    ensures
        ExpressionView::Text(spec_expr_text(s, pos).unwrap().0).well_formed(),
{
    let close = run_end(s, ByteClass::StringText, pos + 1);
    let text = spec_expr_text(s, pos).unwrap().0;
    lemma_run_end(s, ByteClass::StringText, pos + 1);
    lemma_text_at_bytes(s, pos + 1, close);
    lemma_ascii_in_encoding(text, STRING_BOUNDARY);
    if text.contains('"') {
        let j = choose|j: int|
            0 <= j < encode_utf8(text).len() && encode_utf8(text)[j] == STRING_BOUNDARY;
        assert(s.subrange(pos + 1, close)[j] == s[pos + 1 + j]);
    }
}

/// A comment that matches holds no line feed in its text, and its text
/// does not begin with a blank.
pub proof fn lemma_comment_well_formed(s: Seq<u8>, pos: int)
    requires
        spec_comment(s, pos) is Some,
    ensures
        StatementView::Comment(spec_comment(s, pos).unwrap().0).well_formed(),
{
    let start = run_end(s, ByteClass::Blank, pos + 1);
    let end = run_end(s, ByteClass::CommentText, start);
    let text = spec_comment(s, pos).unwrap().0;
    lemma_run_end(s, ByteClass::Blank, pos + 1);
    lemma_run_end(s, ByteClass::CommentText, start);
    lemma_text_at_bytes(s, start, end);
    lemma_ascii_in_encoding(text, LINE_END);
    if text.contains('\n') {
        let j = choose|j: int| 0 <= j < encode_utf8(text).len() && encode_utf8(text)[j] == LINE_END;
        assert(s.subrange(start, end)[j] == s[start + j]);
    }
    if text.len() > 0 {
        lemma_encoded_char(text[0]);
        assert(s.subrange(start, end)[0] == s[start]);
        assert(!is_blank_byte(s[start]));
    }
}

/// The name of an assignment, where there is one, is a name.
pub proof fn lemma_assignment_name_well_formed(s: Seq<u8>, pos: int)
    requires
        spec_assignment_name(s, pos).0 is Some,
    ensures
        is_name(spec_assignment_name(s, pos).0.unwrap()),
{
    let end = run_end(s, ByteClass::Name, pos);
    let name = spec_assignment_name(s, pos).0.unwrap();
    lemma_run_end(s, ByteClass::Name, pos);
    lemma_text_at_bytes(s, pos, end);
    let run = s.subrange(pos, end);
    assert(run.len() > 0);
    assert forall|i: int| 0 <= i < run.len() implies is_name_byte(#[trigger] run[i]) by {
        assert(run[i] == s[pos + i]);
    }
}

/// Every statement that the grammar recognises is well formed.
pub proof fn lemma_statement_well_formed(s: Seq<u8>, pos: int)
    requires
        spec_statement(s, pos) is Some,
    ensures
        spec_statement(s, pos).unwrap().0.well_formed(),
{
    let start = run_end(s, ByteClass::Whitespace, pos);
    if spec_comment(s, start) is Some {
        lemma_comment_well_formed(s, start);
    } else {
        let name_end = run_end(s, ByteClass::Name, start);
        let operator = run_end(s, ByteClass::Whitespace, name_end);
        if spec_assignment_name(s, start).0 is Some {
            lemma_assignment_name_well_formed(s, start);
        }
        lemma_expr_text_well_formed(s, run_end(s, ByteClass::Whitespace, operator + 1));
    }
}

/// Every statement of a document that parses is well formed.
pub proof fn lemma_statements_well_formed(s: Seq<u8>, pos: int)
    requires
        spec_statements(s, pos) is Some,
    ensures
        forall|i: int|
            0 <= i < spec_statements(s, pos).unwrap().len() ==> (#[trigger] spec_statements(
                s,
                pos,
            ).unwrap()[i]).well_formed(),
    decreases s.len() - pos,
{
    if pos < s.len() {
        let end = spec_statement(s, pos).unwrap().1;
        lemma_statement_end(s, pos);
        lemma_statement_well_formed(s, pos);
        lemma_statements_well_formed(s, end);
    }
}

/// The two forms of a statement exclude each other: where a comment
/// matches, no assignment does, so the order in which they are tried hides
/// no reading of the input.
pub proof fn lemma_alternatives_exclusive(s: Seq<u8>, pos: int)
    ensures
        !(spec_comment(s, pos) is Some && spec_assignment(s, pos) is Some),
{
    if byte_at(s, pos, COMMENT_START) {
        assert(run_end(s, ByteClass::Name, pos) == pos);
        assert(run_end(s, ByteClass::Whitespace, pos) == pos);
    }
}

/// A name is never cut short to make a statement match: where the run of
/// name bytes is followed by a byte that is neither whitespace nor `=`, no
/// assignment matches.
pub proof fn lemma_name_is_not_cut_short(s: Seq<u8>, pos: int)
    requires
        0 <= pos,
        run_end(s, ByteClass::Name, pos) < s.len(),
        !is_whitespace_byte(s[run_end(s, ByteClass::Name, pos)]),
        s[run_end(s, ByteClass::Name, pos)] != ASSIGNMENT_OPERATOR,
    ensures
        spec_assignment(s, pos) is None,
{
}

/// In a text, a string literal matches wherever it is opened and closed:
/// what stands between two boundaries is text.
pub proof fn lemma_expr_text_in_text(s: Seq<u8>, pos: int)
    requires
        valid_utf8(s),
    ensures
        spec_expr_text(s, pos) is Some <==> byte_at(s, pos, STRING_BOUNDARY) && run_end(
            s,
            ByteClass::StringText,
            pos + 1,
        ) < s.len(),
{
    let close = run_end(s, ByteClass::StringText, pos + 1);
    if byte_at(s, pos, STRING_BOUNDARY) && close < s.len() {
        lemma_run_end(s, ByteClass::StringText, pos + 1);
        lemma_text_between_ascii(s, pos + 1, close);
    }
}

/// In a text, a comment matches wherever `#` stands and a line feed
/// follows: what stands between them is text.
pub proof fn lemma_comment_in_text(s: Seq<u8>, pos: int)
    requires
        valid_utf8(s),
    ensures
        spec_comment(s, pos) is Some <==> byte_at(s, pos, COMMENT_START) && run_end(
            s,
            ByteClass::CommentText,
            run_end(s, ByteClass::Blank, pos + 1),
        ) < s.len(),
{
    let start = run_end(s, ByteClass::Blank, pos + 1);
    let end = run_end(s, ByteClass::CommentText, start);
    if byte_at(s, pos, COMMENT_START) && end < s.len() {
        lemma_run_end(s, ByteClass::Blank, pos + 1);
        lemma_run_end(s, ByteClass::CommentText, start);
        lemma_text_between_ascii(s, start, end);
    }
}

/// In a text, an assignment that begins behind an ASCII byte, or at the
/// start, has a name wherever one is written: the name is absent only
/// where the run of name bytes is empty.
pub proof fn lemma_name_in_text(s: Seq<u8>, pos: int)
    requires
        valid_utf8(s),
        pos == 0 || (0 < pos && s[pos - 1] < 0x80),
        spec_assignment(s, pos) is Some,
    ensures
        spec_assignment(s, pos).unwrap().0 is Some <==> pos < run_end(s, ByteClass::Name, pos),
{
    let name_end = run_end(s, ByteClass::Name, pos);
    if pos < name_end {
        lemma_text_between_ascii(s, pos, name_end);
    }
}

} // verus!
