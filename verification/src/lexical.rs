//! Byte classification and the scanning of maximal runs of one class.

use vstd::prelude::*;

verus! {

/// `#`, which opens a comment.
pub const COMMENT_START: u8 = 0x23;

/// `"`, which opens and closes a string literal.
pub const STRING_BOUNDARY: u8 = 0x22;

/// `=`, which separates the name of an assignment from its value.
pub const ASSIGNMENT_OPERATOR: u8 = 0x3D;

/// The line feed, which ends a statement.
pub const LINE_END: u8 = 0x0A;

/// Whether the character whose code point is `c` is alphanumeric: a letter or
/// a number of ASCII or of the Latin-1 supplement.
pub open spec fn is_alphanumeric_byte(c: u8) -> bool {
    ||| 0x30 <= c <= 0x39
    ||| 0x41 <= c <= 0x5A
    ||| 0x61 <= c <= 0x7A
    ||| c == 0xAA
    ||| c == 0xB2
    ||| c == 0xB3
    ||| c == 0xB5
    ||| c == 0xB9
    ||| c == 0xBA
    ||| 0xBC <= c <= 0xBE
    ||| 0xC0 <= c <= 0xD6
    ||| 0xD8 <= c <= 0xF6
    ||| 0xF8 <= c
}

/// Whether `c` may stand in the name of an assignment.
pub open spec fn is_name_byte(c: u8) -> bool {
    is_alphanumeric_byte(c) || c == 0x5F
}

/// Whether `c` separates tokens: space, tab, carriage return or line feed.
pub open spec fn is_whitespace_byte(c: u8) -> bool {
    c == 0x20 || c == 0x09 || c == 0x0D || c == 0x0A
}

/// Whether `c` is whitespace that does not end a line.
pub open spec fn is_blank_byte(c: u8) -> bool {
    c == 0x20 || c == 0x09 || c == 0x0D
}

/// Tells whether the byte `c`, read as a character, may stand in the name of
/// an assignment: an alphanumeric character or `_`.
pub fn is_valid_assignment_name_char(c: u8) -> (r: bool)
    ensures
        r == is_name_byte(c),
{
    (0x30 <= c && c <= 0x39) || (0x41 <= c && c <= 0x5A) || (0x61 <= c && c <= 0x7A) || c == 0x5F
        || c == 0xAA || c == 0xB2 || c == 0xB3 || c == 0xB5 || c == 0xB9 || c == 0xBA || (0xBC <= c
        && c <= 0xBE) || (0xC0 <= c && c <= 0xD6) || (0xD8 <= c && c <= 0xF6) || 0xF8 <= c
}

/// Tells whether the byte `c` is the string boundary `"`.
pub fn is_string_boundary(c: u8) -> (r: bool)
    ensures
        r == (c == STRING_BOUNDARY),
{
    c == STRING_BOUNDARY
}

/// Tells whether the byte `c` is whitespace between tokens.
pub fn is_whitespace(c: u8) -> (r: bool)
    ensures
        r == is_whitespace_byte(c),
{
    c == 0x20 || c == 0x09 || c == 0x0D || c == 0x0A
}

/// A set of bytes of which the grammar consumes maximal runs.
#[derive(Clone, Copy, Debug)]
pub enum ByteClass {
    /// Whitespace between tokens, line feeds included.
    Whitespace,
    /// Whitespace within a line.
    Blank,
    /// The bytes of a name.
    Name,
    /// The bytes of a comment's text: every byte but the line feed.
    CommentText,
    /// The bytes of a string literal's text: every byte but the boundary.
    StringText,
}

impl ByteClass {
    /// Whether the byte `c` belongs to the class.
    pub open spec fn contains(self, c: u8) -> bool {
        match self {
            ByteClass::Whitespace => is_whitespace_byte(c),
            ByteClass::Blank => is_blank_byte(c),
            ByteClass::Name => is_name_byte(c),
            ByteClass::CommentText => c != LINE_END,
            ByteClass::StringText => c != STRING_BOUNDARY,
        }
    }

    /// Tells whether the byte `c` belongs to the class.
    pub fn holds(self, c: u8) -> (r: bool)
        ensures
            r == self.contains(c),
    {
        match self {
            ByteClass::Whitespace => is_whitespace(c),
            ByteClass::Blank => c != LINE_END && is_whitespace(c),
            ByteClass::Name => is_valid_assignment_name_char(c),
            ByteClass::CommentText => c != LINE_END,
            ByteClass::StringText => !is_string_boundary(c),
        }
    }
}

/// The end of the maximal run of bytes of `class` that starts at `pos`: the
/// first position from `pos` on that holds no byte of the class. A position
/// outside the input starts an empty run.
pub open spec fn run_end(s: Seq<u8>, class: ByteClass, pos: int) -> int
    decreases s.len() - pos,
{
    if 0 <= pos < s.len() && class.contains(s[pos]) {
        run_end(s, class, pos + 1)
    } else {
        pos
    }
}

/// What `run_end` denotes: every byte of the run is of the class, and the run
/// stops at the end of the input or before a byte that is not.
pub proof fn lemma_run_end(s: Seq<u8>, class: ByteClass, pos: int)
    ensures
        pos <= run_end(s, class, pos),
        0 <= pos <= s.len() ==> run_end(s, class, pos) <= s.len(),
        forall|i: int| pos <= i < run_end(s, class, pos) ==> class.contains(#[trigger] s[i]),
        0 <= run_end(s, class, pos) < s.len() ==> !class.contains(s[run_end(s, class, pos)]),
    decreases s.len() - pos,
{
    if 0 <= pos < s.len() && class.contains(s[pos]) {
        lemma_run_end(s, class, pos + 1);
    }
}

/// A run may be entered anywhere: from a position within the run it ends
/// where it ends from the start.
pub proof fn lemma_run_resumes(s: Seq<u8>, class: ByteClass, from: int, to: int)
    requires
        0 <= from <= to <= s.len(),
        forall|i: int| from <= i < to ==> class.contains(#[trigger] s[i]),
    ensures
        run_end(s, class, from) == run_end(s, class, to),
    decreases to - from,
{
    if from < to {
        lemma_run_resumes(s, class, from + 1, to);
    }
}

/// The end of a run is determined by what `lemma_run_end` says of it: a
/// position up to which every byte is of the class, and which is the end of
/// the input or holds a byte that is not, is the end of the run.
pub proof fn lemma_run_end_is(s: Seq<u8>, class: ByteClass, from: int, to: int)
    requires
        0 <= from <= to <= s.len(),
        forall|i: int| from <= i < to ==> class.contains(#[trigger] s[i]),
        to == s.len() || !class.contains(s[to]),
    ensures
        run_end(s, class, from) == to,
{
    lemma_run_resumes(s, class, from, to);
}

/// Scans the maximal run of bytes of `class` that starts at `pos` and returns
/// the position at which it ends.
pub fn scan_run(input: &[u8], class: ByteClass, pos: usize) -> (end: usize)
    ensures
        end == run_end(input@, class, pos as int),
        pos <= end,
        pos <= input@.len() ==> end <= input@.len(),
        forall|i: int| pos <= i < end ==> class.contains(#[trigger] input@[i]),
        end < input@.len() ==> !class.contains(input@[end as int]),
{
    let mut end: usize = pos;
    while end < input.len() && class.holds(input[end])
        invariant
            pos <= end,
            pos <= input@.len() ==> end <= input@.len(),
            run_end(input@, class, pos as int) == run_end(input@, class, end as int),
        decreases input@.len() - end,
    {
        end = end + 1;
    }
    proof {
        lemma_run_end(input@, class, pos as int);
    }
    end
}

/// Passes over the whitespace between two tokens: returns the first
/// position from `pos` on that holds no whitespace.
pub fn skip_whitespace(input: &[u8], pos: usize) -> (end: usize)
    ensures
        end == run_end(input@, ByteClass::Whitespace, pos as int),
        pos <= end,
        pos <= input@.len() ==> end <= input@.len(),
{
    scan_run(input, ByteClass::Whitespace, pos)
}

/// Passes over the blanks in front of a token that may be a line feed:
/// returns the first position from `pos` on that holds no blank.
pub fn skip_blanks(input: &[u8], pos: usize) -> (end: usize)
    ensures
        end == run_end(input@, ByteClass::Blank, pos as int),
        pos <= end,
        pos <= input@.len() ==> end <= input@.len(),
{
    scan_run(input, ByteClass::Blank, pos)
}

} // verus!
