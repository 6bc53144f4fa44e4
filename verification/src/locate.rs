//! Turning a byte offset in a source text into a 1-indexed line and column.
//!
//! The line is one more than the number of newline bytes before the offset;
//! the column is one more than the distance from the byte after the last
//! newline before the offset. An offset past the end of the text is treated
//! as the end of the text.

use vstd::prelude::*;

use crate::diag::ParseErrorDetail;
use crate::diag::RawParseError;

verus! {

/// The newline byte.
pub const NEWLINE: u8 = 10;

/// How many newline bytes stand before position `end`.
pub open spec fn newlines_before(s: Seq<u8>, end: int) -> int
    decreases end,
{
    if end <= 0 || end > s.len() {
        0
    } else {
        newlines_before(s, end - 1) + if s[end - 1] == NEWLINE {
            1int
        } else {
            0int
        }
    }
}

/// The position of the last newline before position `end`, or -1 if there
/// is none.
pub open spec fn last_newline_before(s: Seq<u8>, end: int) -> int
    decreases end,
{
    if end <= 0 || end > s.len() {
        -1
    } else if s[end - 1] == NEWLINE {
        end - 1
    } else {
        last_newline_before(s, end - 1)
    }
}

/// The offset clamped to the length of the text.
pub open spec fn clamped(s: Seq<u8>, pos: int) -> int {
    if pos <= s.len() {
        pos
    } else {
        s.len() as int
    }
}

/// The 1-indexed line of a byte offset.
pub open spec fn line_of(s: Seq<u8>, pos: int) -> int {
    newlines_before(s, clamped(s, pos)) + 1
}

/// The 1-indexed column of a byte offset.
pub open spec fn column_of(s: Seq<u8>, pos: int) -> int {
    clamped(s, pos) - (last_newline_before(s, clamped(s, pos)) + 1) + 1
}

/// There are no more newlines before a position than bytes.
proof fn lemma_newlines_bound(s: Seq<u8>, end: int)
    ensures
        0 <= newlines_before(s, end) <= if end <= s.len() {
            if end >= 0 {
                end
            } else {
                0
            }
        } else {
            0
        },
    decreases end,
{
    if 0 < end <= s.len() {
        lemma_newlines_bound(s, end - 1);
    }
}

/// The last newline before a position lies before it.
proof fn lemma_last_newline_bound(s: Seq<u8>, end: int)
    ensures
        -1 <= last_newline_before(s, end),
        0 <= end <= s.len() ==> last_newline_before(s, end) < end,
        last_newline_before(s, end) < s.len(),
    decreases end,
{
    if 0 < end <= s.len() {
        lemma_last_newline_bound(s, end - 1);
    }
}

/// Converts a byte offset in the source to its 1-indexed line and column.
pub fn byte_pos_to_line_col(source: &[u8], byte_pos: usize) -> (r: (usize, usize))
    requires
        source@.len() < usize::MAX,
    ensures
        r.0 == line_of(source@, byte_pos as int),
        r.1 == column_of(source@, byte_pos as int),
{
    let end: usize = if byte_pos <= source.len() {
        byte_pos
    } else {
        source.len()
    };
    let mut i: usize = 0;
    let mut lines: usize = 0;
    let mut last_nl: usize = 0;
    let mut seen_nl: bool = false;
    while i < end
        invariant
            0 <= i <= end <= source@.len(),
            end == clamped(source@, byte_pos as int),
            lines == newlines_before(source@, i as int),
            if seen_nl {
                last_nl == last_newline_before(source@, i as int)
            } else {
                last_newline_before(source@, i as int) == -1 && last_nl == 0
            },
        decreases end - i,
    {
        proof {
            lemma_newlines_bound(source@, i as int);
            lemma_last_newline_bound(source@, i as int);
        }
        if source[i] == NEWLINE {
            lines = lines + 1;
            last_nl = i;
            seen_nl = true;
        }
        i = i + 1;
    }
    proof {
        lemma_newlines_bound(source@, end as int);
        lemma_last_newline_bound(source@, end as int);
    }
    let line = lines + 1;
    let column = if seen_nl {
        end - (last_nl + 1) + 1
    } else {
        end + 1
    };
    (line, column)
}

/// Resolves one raw syntax error against its source text, carrying the
/// message and byte range over and computing the line and column.
pub fn locate_parse_error(raw: &RawParseError, source: &[u8], filename: &Option<String>) -> (r:
    ParseErrorDetail)
    requires
        source@.len() < usize::MAX,
    ensures
        r.v().message == raw.message@,
        r.v().line == line_of(source@, raw.start as int),
        r.v().column == column_of(source@, raw.start as int),
        r.v().byte_start == raw.start as int,
        r.v().byte_end == raw.end as int,
        r.v().filename == crate::diag::opt_str_view(*filename),
{
    let (line, column) = byte_pos_to_line_col(source, raw.start);
    ParseErrorDetail {
        message: raw.message.clone(),
        line,
        column,
        byte_start: raw.start,
        byte_end: raw.end,
        filename: crate::diag::clone_opt(filename),
    }
}

} // verus!
