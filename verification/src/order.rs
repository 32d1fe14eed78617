//! Order preservation: a document made of statement lines parses to the
//! statements of its lines, in the order of the lines.

use vstd::prelude::*;
use crate::document::StatementView;
use crate::grammar::{
    spec_assignment, spec_comment, spec_expr_text, spec_parse, spec_statement, spec_statements,
};
use crate::lexical::{lemma_run_end, lemma_run_resumes, run_end, ByteClass};
use crate::text::text_at;

verus! {

/// Whether `line` stands in `s` at the offset `offset`: each byte of `line`
/// is the byte of `s` that lies `offset` positions further on.
pub open spec fn stands_at(s: Seq<u8>, offset: int, line: Seq<u8>) -> bool {
    &&& 0 <= offset
    &&& offset + line.len() <= s.len()
    &&& forall|i: int| 0 <= i < line.len() ==> s[offset + i] == #[trigger] line[i]
}

/// Whether `line` is the text of one statement: the statement grammar
/// matches it from its first byte to its last.
pub open spec fn is_statement_line(line: Seq<u8>) -> bool {
    match spec_statement(line, 0) {
        Some((_, end)) => end == line.len(),
        None => false,
    }
}

/// The statement that a statement line holds.
pub open spec fn line_statement(line: Seq<u8>) -> StatementView
    recommends
        is_statement_line(line),
{
    spec_statement(line, 0).unwrap().0
}

/// A run that ends within a line ends at the same byte wherever the line
/// stands.
proof fn lemma_run_in_line(s: Seq<u8>, offset: int, line: Seq<u8>, class: ByteClass, pos: int)
    requires
        stands_at(s, offset, line),
        0 <= pos,
        run_end(line, class, pos) < line.len(),
    ensures
        run_end(s, class, offset + pos) == offset + run_end(line, class, pos),
    decreases line.len() - pos,
{
    if pos < line.len() && class.contains(line[pos]) {
        lemma_run_in_line(s, offset, line, class, pos + 1);
    }
}

/// Where a run reaches the end of a line, it goes on behind the line, in
/// whatever follows where the line stands.
proof fn lemma_run_leaves_line(s: Seq<u8>, offset: int, line: Seq<u8>, class: ByteClass, pos: int)
    requires
        stands_at(s, offset, line),
        0 <= pos <= line.len(),
        run_end(line, class, pos) == line.len(),
    ensures
        run_end(s, class, offset + pos) == run_end(s, class, offset + line.len()),
{
    lemma_run_end(line, class, pos);
    assert forall|i: int| offset + pos <= i < offset + line.len() implies class.contains(
        #[trigger] s[i],
    ) by {
        assert(class.contains(line[i - offset]));
    }
    lemma_run_resumes(s, class, offset + pos, offset + line.len());
}

/// A range of a line holds the same text wherever the line stands.
proof fn lemma_text_in_line(s: Seq<u8>, offset: int, line: Seq<u8>, from: int, to: int)
    requires
        stands_at(s, offset, line),
        0 <= from <= to <= line.len(),
    ensures
        text_at(s, offset + from, offset + to) == text_at(line, from, to),
{
    assert(s.subrange(offset + from, offset + to) =~= line.subrange(from, to));
}

/// A string literal of a line is the same literal wherever the line stands.
proof fn lemma_expr_text_in_line(s: Seq<u8>, offset: int, line: Seq<u8>, pos: int)
    requires
        stands_at(s, offset, line),
        0 <= pos,
        spec_expr_text(line, pos) is Some,
    ensures
        spec_expr_text(s, offset + pos) == Some(
            (spec_expr_text(line, pos).unwrap().0, offset + spec_expr_text(line, pos).unwrap().1),
        ),
{
    let close = run_end(line, ByteClass::StringText, pos + 1);
    lemma_run_in_line(s, offset, line, ByteClass::StringText, pos + 1);
    lemma_text_in_line(s, offset, line, pos + 1, close);
}

/// A comment of a line is the same comment wherever the line stands.
proof fn lemma_comment_in_line(s: Seq<u8>, offset: int, line: Seq<u8>, pos: int)
    requires
        stands_at(s, offset, line),
        0 <= pos,
        spec_comment(line, pos) is Some,
    ensures
        spec_comment(s, offset + pos) == Some(
            (spec_comment(line, pos).unwrap().0, offset + spec_comment(line, pos).unwrap().1),
        ),
{
    let start = run_end(line, ByteClass::Blank, pos + 1);
    let end = run_end(line, ByteClass::CommentText, start);
    lemma_run_in_line(s, offset, line, ByteClass::Blank, pos + 1);
    lemma_run_in_line(s, offset, line, ByteClass::CommentText, start);
    lemma_text_in_line(s, offset, line, start, end);
}

/// An assignment of a line is the same assignment wherever the line stands.
proof fn lemma_assignment_in_line(s: Seq<u8>, offset: int, line: Seq<u8>, pos: int)
    requires
        stands_at(s, offset, line),
        0 <= pos,
        spec_assignment(line, pos) is Some,
    ensures
        spec_assignment(s, offset + pos) == Some(
            (
                spec_assignment(line, pos).unwrap().0,
                spec_assignment(line, pos).unwrap().1,
                offset + spec_assignment(line, pos).unwrap().2,
            ),
        ),
{
    let name_end = run_end(line, ByteClass::Name, pos);
    let operator = run_end(line, ByteClass::Whitespace, name_end);
    let value_start = run_end(line, ByteClass::Whitespace, operator + 1);
    let value_end = spec_expr_text(line, value_start).unwrap().1;
    lemma_run_end(line, ByteClass::Name, pos);
    lemma_run_in_line(s, offset, line, ByteClass::Name, pos);
    lemma_text_in_line(s, offset, line, pos, name_end);
    lemma_run_in_line(s, offset, line, ByteClass::Whitespace, name_end);
    lemma_run_in_line(s, offset, line, ByteClass::Whitespace, operator + 1);
    lemma_expr_text_in_line(s, offset, line, value_start);
    lemma_run_in_line(s, offset, line, ByteClass::Blank, value_end);
}

/// The statement of a statement line is recognised wherever the line
/// stands; behind the line, the whitespace that follows is consumed too.
pub proof fn lemma_statement_in_line(s: Seq<u8>, offset: int, line: Seq<u8>)
    requires
        stands_at(s, offset, line),
        is_statement_line(line),
    ensures
        spec_statement(s, offset) == Some(
            (line_statement(line), run_end(s, ByteClass::Whitespace, offset + line.len())),
        ),
{
    let start = run_end(line, ByteClass::Whitespace, 0);
    if spec_comment(line, start) is Some {
        let end = spec_comment(line, start).unwrap().1;
        lemma_run_in_line(s, offset, line, ByteClass::Whitespace, 0);
        lemma_comment_in_line(s, offset, line, start);
        lemma_run_leaves_line(s, offset, line, ByteClass::Whitespace, end);
    } else {
        let end = spec_assignment(line, start).unwrap().2;
        lemma_run_in_line(s, offset, line, ByteClass::Whitespace, 0);
        lemma_assignment_in_line(s, offset, line, start);
        lemma_run_leaves_line(s, offset, line, ByteClass::Whitespace, end);
    }
}

/// Whitespace in front of a document that parses does not change it.
pub proof fn lemma_statements_skip_whitespace(s: Seq<u8>, pos: int)
    requires
        0 <= pos,
        spec_statements(s, pos) is Some,
    ensures
        spec_statements(s, run_end(s, ByteClass::Whitespace, pos)) == spec_statements(s, pos),
{
    if pos < s.len() {
        let start = run_end(s, ByteClass::Whitespace, pos);
        assert(spec_statement(s, start) == spec_statement(s, pos));
    }
}

/// The statements of lines written one after the other, from the position
/// at which the first line begins.
proof fn lemma_statements_of_lines(s: Seq<u8>, pos: int, lines: Seq<Seq<u8>>)
    requires
        0 <= pos <= s.len(),
        s.subrange(pos, s.len() as int) == lines.flatten(),
        forall|i: int| 0 <= i < lines.len() ==> is_statement_line(#[trigger] lines[i]),
    ensures
        spec_statements(s, pos) == Some(
            Seq::new(lines.len(), |i: int| line_statement(lines[i])),
        ),
    decreases lines.len(),
{
    let expected = Seq::new(lines.len(), |i: int| line_statement(lines[i]));
    if lines.len() == 0 {
        assert(expected =~= Seq::empty());
        assert(s.subrange(pos, s.len() as int).len() == 0);
    } else {
        let line = lines.first();
        let rest = lines.drop_first();
        let next = pos + line.len();
        let tail = s.subrange(pos, s.len() as int);
        assert(tail.len() == line.len() + rest.flatten().len());
        assert forall|i: int| 0 <= i < line.len() implies s[pos + i] == #[trigger] line[i] by {
            assert(tail[i] == line[i]);
        }
        assert(lines[0] == line);
        lemma_statement_in_line(s, pos, line);
        assert(s.subrange(next, s.len() as int) =~= rest.flatten()) by {
            assert forall|i: int| 0 <= i < rest.flatten().len() implies s[next + i]
                == rest.flatten()[i] by {
                assert(tail[line.len() + i] == rest.flatten()[i]);
            }
        }
        assert forall|i: int| 0 <= i < rest.len() implies is_statement_line(#[trigger] rest[i]) by {
            assert(rest[i] == lines[i + 1]);
        }
        lemma_statements_of_lines(s, next, rest);
        lemma_statements_skip_whitespace(s, next);
        let following = Seq::new(rest.len(), |i: int| line_statement(rest[i]));
        assert(expected =~= seq![line_statement(line)] + following);
    }
}

/// Order preservation. A document made of statement lines, written one
/// after the other, parses to exactly one statement for each line, and the
/// statements stand in the order of the lines.
pub proof fn lemma_order_preservation(lines: Seq<Seq<u8>>)
    requires
        forall|i: int| 0 <= i < lines.len() ==> is_statement_line(#[trigger] lines[i]),
    ensures
        spec_parse(lines.flatten()) == Some(
            Seq::new(lines.len(), |i: int| line_statement(lines[i])),
        ),
{
    let s = lines.flatten();
    assert(s.subrange(0, s.len() as int) =~= s);
    lemma_statements_of_lines(s, 0, lines);
}

} // verus!
