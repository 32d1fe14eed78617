//! The canonical text of a document, and the proof that parsing it gives
//! the document back.
//!
//! The canonical text of a statement is the shortest text that the grammar
//! reads as that statement: its tokens one after the other, with no
//! whitespace between them. The grammar is stated by how text is read; the
//! law of this module holds it against how a document is written.

use vstd::prelude::*;
use vstd::utf8::{encode_utf8, encode_utf8_decode_utf8, encode_utf8_valid_utf8};
use crate::document::{ExpressionView, StatementView};
use crate::grammar::{spec_parse, spec_statement};
use crate::order::{is_statement_line, lemma_order_preservation, line_statement};
use crate::lexical::{
    lemma_run_end_is, ByteClass, ASSIGNMENT_OPERATOR, COMMENT_START, LINE_END, STRING_BOUNDARY,
};
use crate::text::{lemma_ascii_in_encoding, lemma_encoded_char, text_at};

verus! {

/// The canonical text of the name of an assignment: the name, or nothing
/// where there is none.
pub open spec fn name_text(name: Option<Seq<char>>) -> Seq<u8> {
    match name {
        Some(n) => encode_utf8(n),
        None => Seq::empty(),
    }
}

/// The canonical text of a statement: for a comment, `#`, its text and a
/// line feed; for an assignment, its name, `=`, the text of its value
/// between two boundaries, and a line feed.
pub open spec fn statement_text(statement: StatementView) -> Seq<u8> {
    match statement {
        StatementView::Comment(text) => seq![COMMENT_START] + encode_utf8(text) + seq![LINE_END],
        StatementView::Assignment(name, ExpressionView::Text(text)) => name_text(name)
            + seq![ASSIGNMENT_OPERATOR, STRING_BOUNDARY] + encode_utf8(text)
            + seq![STRING_BOUNDARY, LINE_END],
    }
}

/// The canonical text of a document: the canonical texts of its statements,
/// one after the other.
pub open spec fn document_text(document: Seq<StatementView>) -> Seq<u8> {
    Seq::new(document.len(), |i: int| statement_text(document[i])).flatten()
}

/// A range of the input that holds an encoded text is read as that text.
proof fn lemma_encoded_text_at(s: Seq<u8>, from: int, text: Seq<char>)
    requires
        0 <= from,
        from + encode_utf8(text).len() <= s.len(),
        s.subrange(from, from + encode_utf8(text).len()) == encode_utf8(text),
    ensures
        text_at(s, from, from + encode_utf8(text).len()) == Some(text),
{
    encode_utf8_valid_utf8(text);
    encode_utf8_decode_utf8(text);
}

/// The canonical text of a well-formed comment is read as that comment.
proof fn lemma_comment_text_parses(text: Seq<char>)
    requires
        StatementView::Comment(text).well_formed(),
    ensures
        spec_statement(statement_text(StatementView::Comment(text)), 0) == Some(
            (
                StatementView::Comment(text),
                statement_text(StatementView::Comment(text)).len() as int,
            ),
        ),
{
    let s = statement_text(StatementView::Comment(text));
    let body = encode_utf8(text);
    let m = body.len() as int;
    assert(s.len() == m + 2);
    assert(s[0] == COMMENT_START);
    assert(s[m + 1] == LINE_END);
    assert forall|i: int| 0 <= i < m implies s[1 + i] == body[i] by {}
    assert(s.subrange(1, 1 + m) =~= body);
    lemma_ascii_in_encoding(text, LINE_END);
    assert forall|i: int| 1 <= i < 1 + m implies ByteClass::CommentText.contains(
        #[trigger] s[i],
    ) by {
        assert(s[i] == body[i - 1]);
    }
    if text.len() > 0 {
        lemma_encoded_char(text[0]);
        assert(s[1] == body[0]);
    }
    lemma_run_end_is(s, ByteClass::CommentText, 1, 1 + m);
    lemma_encoded_text_at(s, 1, text);
}

/// The canonical text of a well-formed assignment is read as that
/// assignment.
proof fn lemma_assignment_text_parses(name: Option<Seq<char>>, text: Seq<char>)
    requires
        StatementView::Assignment(name, ExpressionView::Text(text)).well_formed(),
    ensures
        spec_statement(
            statement_text(StatementView::Assignment(name, ExpressionView::Text(text))),
            0,
        ) == Some(
            (
                StatementView::Assignment(name, ExpressionView::Text(text)),
                statement_text(
                    StatementView::Assignment(name, ExpressionView::Text(text)),
                ).len() as int,
            ),
        ),
{
    let s = statement_text(StatementView::Assignment(name, ExpressionView::Text(text)));
    let head = name_text(name);
    let body = encode_utf8(text);
    let k = head.len() as int;
    let m = body.len() as int;
    assert(s.len() == k + m + 4);
    assert forall|i: int| 0 <= i < k implies s[i] == head[i] by {}
    assert(s[k] == ASSIGNMENT_OPERATOR);
    assert(s[k + 1] == STRING_BOUNDARY);
    assert forall|i: int| 0 <= i < m implies s[k + 2 + i] == body[i] by {}
    assert(s[k + m + 2] == STRING_BOUNDARY);
    assert(s[k + m + 3] == LINE_END);
    assert(s.subrange(0, k) =~= head);
    assert(s.subrange(k + 2, k + 2 + m) =~= body);
    assert forall|i: int| 0 <= i < k implies ByteClass::Name.contains(#[trigger] s[i]) by {
        assert(s[i] == head[i]);
    }
    lemma_ascii_in_encoding(text, STRING_BOUNDARY);
    assert forall|i: int| k + 2 <= i < k + 2 + m implies ByteClass::StringText.contains(
        #[trigger] s[i],
    ) by {
        assert(s[i] == body[i - (k + 2)]);
    }
    lemma_run_end_is(s, ByteClass::Name, 0, k);
    match name {
        Some(n) => {
            lemma_encoded_text_at(s, 0, n);
        },
        None => {},
    }
    lemma_run_end_is(s, ByteClass::StringText, k + 2, k + 2 + m);
    lemma_encoded_text_at(s, k + 2, text);
}

/// The canonical text of a well-formed statement is read, from its first
/// byte to its last, as that statement.
pub proof fn lemma_statement_text_parses(statement: StatementView)
    requires
        statement.well_formed(),
    ensures
        spec_statement(statement_text(statement), 0) == Some(
            (statement, statement_text(statement).len() as int),
        ),
{
    match statement {
        StatementView::Comment(text) => lemma_comment_text_parses(text),
        StatementView::Assignment(name, ExpressionView::Text(text)) => {
            lemma_assignment_text_parses(name, text)
        },
    }
}

/// Parsing inverts writing. The canonical text of a document whose
/// statements are well formed parses, and the result is the document.
pub proof fn lemma_document_text_parses(document: Seq<StatementView>)
    requires
        forall|i: int| 0 <= i < document.len() ==> (#[trigger] document[i]).well_formed(),
    ensures
        spec_parse(document_text(document)) == Some(document),
{
    let lines = Seq::new(document.len(), |i: int| statement_text(document[i]));
    assert forall|i: int| 0 <= i < lines.len() implies is_statement_line(#[trigger] lines[i])
        && line_statement(lines[i]) == document[i] by {
        lemma_statement_text_parses(document[i]);
    }
    lemma_order_preservation(lines);
    assert(Seq::new(lines.len(), |i: int| line_statement(lines[i])) =~= document);
}

} // verus!
