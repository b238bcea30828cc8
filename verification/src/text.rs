//! Texts as bytes: where a byte stands, and where the last line is.

use vstd::prelude::*;
use vstd::slice::slice_subrange;

verus! {

pub const NEWLINE: u8 = 10;

pub const RETURN: u8 = 13;

pub const SPACE: u8 = 32;

pub const PLUS: u8 = 43;

pub const COLON: u8 = 58;

/// The first place in `from..end` where `byte` stands, or `end` if it stands
/// nowhere there.
pub open spec fn byte_in(text: Seq<u8>, byte: u8, from: int, end: int) -> int
    decreases end - from,
{
    if from >= end {
        end
    } else if text[from] == byte {
        from
    } else {
        byte_in(text, byte, from + 1, end)
    }
}

/// Length of a text without the line ending at its end, if it ends with one:
/// a newline, or a carriage return and a newline.
pub open spec fn trimmed_len(text: Seq<u8>) -> int {
    if text.len() > 0 && text[text.len() - 1] == NEWLINE {
        if text.len() > 1 && text[text.len() - 2] == RETURN {
            text.len() - 2
        } else {
            text.len() - 1
        }
    } else {
        text.len() as int
    }
}

/// Where the line starts that ends at `end`: behind the last newline before
/// `end`, or at 0.
pub open spec fn line_start(text: Seq<u8>, end: int) -> int
    decreases end,
{
    if end <= 0 {
        0
    } else if text[end - 1] == NEWLINE {
        end
    } else {
        line_start(text, end - 1)
    }
}

/// The last line of a text, without its line ending. The empty text has no
/// line.
pub open spec fn last_line(text: Seq<u8>) -> Option<Seq<u8>> {
    if text.len() == 0 {
        None
    } else {
        Some(text.subrange(line_start(text, trimmed_len(text)), trimmed_len(text)))
    }
}

/// The first place in `from..end` where `byte` stands.
pub fn find_byte(text: &[u8], byte: u8, from: usize, end: usize) -> (at: usize)
    requires
        from <= end <= text@.len(),
    ensures
        at == byte_in(text@, byte, from as int, end as int),
        from <= at <= end,
{
    let mut at = from;
    while at < end && text[at] != byte
        invariant
            from <= at <= end <= text@.len(),
            byte_in(text@, byte, from as int, end as int) == byte_in(
                text@,
                byte,
                at as int,
                end as int,
            ),
        decreases end - at,
    {
        at += 1;
    }
    at
}

/// The last line of `text`.
pub fn find_last_line(text: &[u8]) -> (line: Option<&[u8]>)
    ensures
        match line {
            Some(found) => last_line(text@) == Some(found@),
            None => last_line(text@) is None,
        },
{
    let len = text.len();
    if len == 0 {
        return None;
    }
    let end = if text[len - 1] == NEWLINE {
        if len > 1 && text[len - 2] == RETURN {
            len - 2
        } else {
            len - 1
        }
    } else {
        len
    };
    let mut start = end;
    while start > 0 && text[start - 1] != NEWLINE
        invariant
            start <= end <= text@.len(),
            line_start(text@, end as int) == line_start(text@, start as int),
        decreases start,
    {
        start -= 1;
    }
    Some(slice_subrange(text, start, end))
}

} // verus!
