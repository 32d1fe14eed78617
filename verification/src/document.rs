//! The parsed document: statements and the expressions they assign.

use vstd::prelude::*;
use vstd::utf8::encode_utf8;
use crate::lexical::is_name_byte;

verus! {

/// The value on the right-hand side of an assignment.
#[derive(Debug, PartialEq, Clone)]
pub enum Expression {
    /// A string literal: the text between its two boundary characters.
    Text(String),
}

/// One parsed unit of a document.
#[derive(Debug, PartialEq, Clone)]
pub enum Statement {
    /// A comment: its text, without the leading `#` and the closing line feed.
    Comment(String),
    /// An assignment of a value to a name; the name may be absent.
    Assignment(Option<String>, Expression),
}

/// Why a document was rejected.
#[derive(Debug, PartialEq, Eq, Clone, Copy)]
pub enum ParseError {
    /// The input does not match the grammar: a required character is
    /// missing, a rule that is required does not match, or consumed bytes
    /// are not valid text.
    GrammarMismatch,
}

/// The mathematical value of an [`Expression`].
pub enum ExpressionView {
    /// A string literal, by the characters of its text.
    Text(Seq<char>),
}

/// The mathematical value of a [`Statement`].
pub enum StatementView {
    /// A comment, by the characters of its text.
    Comment(Seq<char>),
    /// An assignment, by the characters of its name, if it has one, and by
    /// its value.
    Assignment(Option<Seq<char>>, ExpressionView),
}

/// Whether `name` can be the name of an assignment: it is not empty, and
/// each byte of its encoding is alphanumeric or `_`.
pub open spec fn is_name(name: Seq<char>) -> bool {
    &&& name.len() > 0
    &&& forall|i: int|
        0 <= i < encode_utf8(name).len() ==> is_name_byte(#[trigger] encode_utf8(name)[i])
}

/// Whether `c` is a blank: whitespace that does not end a line.
pub open spec fn is_blank_char(c: char) -> bool {
    c == ' ' || c == '\t' || c == '\r'
}

impl ExpressionView {
    /// What holds of every expression that the parser returns: the text of
    /// a string literal holds no boundary character.
    pub open spec fn well_formed(self) -> bool {
        match self {
            ExpressionView::Text(text) => !text.contains('"'),
        }
    }
}

impl StatementView {
    /// What holds of every statement that the parser returns: the text of a
    /// comment holds no line feed and does not begin with a blank, the name
    /// of an assignment, where there is one, is a name, and the value of an
    /// assignment is well formed.
    pub open spec fn well_formed(self) -> bool {
        match self {
            StatementView::Comment(text) => {
                &&& !text.contains('\n')
                &&& text.len() > 0 ==> !is_blank_char(text[0])
            },
            StatementView::Assignment(name, value) => {
                &&& name matches Some(n) ==> is_name(n)
                &&& value.well_formed()
            },
        }
    }
}

impl View for Expression {
    type V = ExpressionView;

    open spec fn view(&self) -> ExpressionView {
        match self {
            Expression::Text(text) => ExpressionView::Text(text@),
        }
    }
}

impl DeepView for Expression {
    type V = ExpressionView;

    open spec fn deep_view(&self) -> ExpressionView {
        self.view()
    }
}

impl View for Statement {
    type V = StatementView;

    open spec fn view(&self) -> StatementView {
        match self {
            Statement::Comment(text) => StatementView::Comment(text@),
            Statement::Assignment(name, value) => StatementView::Assignment(
                match name {
                    Some(n) => Some(n@),
                    None => None,
                },
                value@,
            ),
        }
    }
}

impl DeepView for Statement {
    type V = StatementView;

    open spec fn deep_view(&self) -> StatementView {
        self.view()
    }
}

} // verus!
