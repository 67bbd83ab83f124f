//! Places in source texts: bytes, lines and columns.

use vstd::prelude::*;
use vstd::string::*;
use vstd::utf8::*;

use crate::lexer::{lemma_offset_grows, Source};
use crate::text::{byte_offset_of, char_width, find_char, position_of, utf16_width};

verus! {

/// The first character from `from` on that begins at a byte or behind it.
pub open spec fn index_from(chars: Seq<char>, byte: int, from: int) -> int
    decreases chars.len() - from,
{
    if from >= chars.len() || byte_offset_of(chars, from) >= byte {
        from
    } else {
        index_from(chars, byte, from + 1)
    }
}

/// The character at a byte.
pub open spec fn index_at(chars: Seq<char>, byte: int) -> int {
    index_from(chars, byte, 0)
}

/// How many lines end before a character.
pub open spec fn newlines(chars: Seq<char>, until: int) -> nat
    decreases until,
{
    if until <= 0 {
        0
    } else {
        newlines(chars, until - 1) + (if chars[until - 1] == '\n' {
            1nat
        } else {
            0
        })
    }
}

/// Where the line of a character begins.
pub open spec fn line_start(chars: Seq<char>, index: int) -> int
    decreases index,
{
    if index <= 0 {
        0
    } else if chars[index - 1] == '\n' {
        index
    } else {
        line_start(chars, index - 1)
    }
}

/// How many UTF-16 code units characters take.
pub open spec fn utf16_between(chars: Seq<char>, from: int, to: int) -> nat
    decreases to - from,
{
    if from >= to {
        0
    } else {
        utf16_between(chars, from, to - 1) + utf16_width(chars[to - 1])
    }
}

/// Line and column of a byte, counted from one, in characters.
pub open spec fn location(chars: Seq<char>, byte: int) -> (int, int) {
    let index = index_at(chars, byte);
    (newlines(chars, index) as int + 1, index - line_start(chars, index) + 1)
}

/// Line and column of a byte, counted from zero, in UTF-16 code units.
pub open spec fn utf16_position(chars: Seq<char>, byte: int) -> (int, int) {
    let index = index_at(chars, byte);
    (
        newlines(chars, index) as int,
        utf16_between(chars, line_start(chars, index), index) as int,
    )
}

/// Where a line begins, if there are so many.
pub open spec fn start_of_line(chars: Seq<char>, line: nat) -> Option<int>
    decreases line,
{
    if line == 0 {
        Some(0)
    } else {
        match start_of_line(chars, (line - 1) as nat) {
            Some(start) => if position_of(chars, '\n', start) < chars.len() {
                Some(position_of(chars, '\n', start) + 1)
            } else {
                None
            },
            None => None,
        }
    }
}

/// The character in a line with so many UTF-16 code units before it.
pub open spec fn column_from(
    chars: Seq<char>,
    from: int,
    end: int,
    column: nat,
    seen: nat,
) -> Option<int>
    decreases end - from,
{
    if from >= end {
        if seen == column {
            Some(end)
        } else {
            None
        }
    } else if seen >= column {
        Some(from)
    } else {
        column_from(chars, from + 1, end, column, seen + utf16_width(chars[from]))
    }
}

/// The byte at a line and column, counted from zero, in UTF-16 code units.
pub open spec fn byte_at(chars: Seq<char>, line: nat, column: nat) -> Option<nat> {
    match start_of_line(chars, line) {
        Some(start) => match column_from(
            chars,
            start,
            position_of(chars, '\n', start),
            column,
            0,
        ) {
            Some(index) => Some(byte_offset_of(chars, index)),
            None => None,
        },
        None => None,
    }
}

// ---------------------------------------------------------------------------
// The executable side

proof fn lemma_index_from(chars: Seq<char>, byte: int, from: int)
    requires
        0 <= from <= chars.len(),
    ensures
        from <= index_from(chars, byte, from) <= chars.len(),
    decreases chars.len() - from,
{
    if from < chars.len() && byte_offset_of(chars, from) < byte {
        lemma_index_from(chars, byte, from + 1);
    }
}

/// The character at a byte of the text.
pub fn find_index(source: &Source, byte: usize) -> (index: usize)
    requires
        source.valid(),
    ensures
        index == index_at(source.chars@, byte as int),
        index <= source.chars@.len(),
{
    let mut index: usize = 0;
    while index < source.chars.len() && source.offsets[index] < byte
        invariant
            source.valid(),
            index <= source.chars@.len(),
            index_at(source.chars@, byte as int) == index_from(
                source.chars@,
                byte as int,
                index as int,
            ),
        decreases source.chars@.len() - index,
    {
        proof {
            assert(source.offsets@[index as int] == byte_offset_of(source.chars@, index as int));
        }
        index += 1;
    }
    proof {
        if index < source.chars@.len() {
            assert(source.offsets@[index as int] == byte_offset_of(source.chars@, index as int));
        }
    }
    index
}

/// Where the line of a character begins.
pub fn find_line_start(chars: &Vec<char>, index: usize) -> (start: usize)
    requires
        index <= chars@.len(),
    ensures
        start == line_start(chars@, index as int),
        start <= index,
{
    let mut start: usize = index;
    while start > 0 && chars[start - 1] != '\n'
        invariant
            start <= index <= chars@.len(),
            line_start(chars@, index as int) == line_start(chars@, start as int),
        decreases start,
    {
        start -= 1;
    }
    start
}

proof fn lemma_newlines_bound(chars: Seq<char>, until: int)
    requires
        0 <= until,
    ensures
        newlines(chars, until) <= until,
    decreases until,
{
    if until > 0 {
        lemma_newlines_bound(chars, until - 1);
    }
}

fn count_newlines(chars: &Vec<char>, until: usize) -> (count: usize)
    requires
        until <= chars@.len(),
    ensures
        count == newlines(chars@, until as int),
        count <= until,
{
    let mut count: usize = 0;
    let mut at: usize = 0;
    while at < until
        invariant
            at <= until <= chars@.len(),
            count == newlines(chars@, at as int),
            count <= at,
        decreases until - at,
    {
        if chars[at] == '\n' {
            count += 1;
        }
        at += 1;
    }
    count
}

proof fn lemma_utf16_bound(chars: Seq<char>, from: int, to: int)
    requires
        0 <= from <= to <= chars.len(),
    ensures
        utf16_between(chars, from, to) + byte_offset_of(chars, from) <= byte_offset_of(chars, to),
    decreases to - from,
{
    broadcast use char_is_scalar;

    if from < to {
        lemma_utf16_bound(chars, from, to - 1);
        lemma_width(chars[to - 1]);
    }
}

proof fn lemma_width(c: char)
    ensures
        1 <= utf16_width(c) <= char_width(c),
{
    broadcast use char_is_scalar;

}

/// Line and column of a byte, counted from one, in characters.
pub fn source_location(text: &str, byte: usize) -> (place: (usize, usize))
    ensures
        (place.0 as int, place.1 as int) == location(text@, byte as int),
{
    let source: Source = Source::new(text);
    proof {
        assert(source.offsets.len() == source.offsets@.len());
    }
    let index: usize = find_index(&source, byte);
    let start: usize = find_line_start(&source.chars, index);
    (count_newlines(&source.chars, index) + 1, index - start + 1)
}

fn utf16_width_of(c: char) -> (width: usize)
    ensures
        width == utf16_width(c),
{
    if (c as u32) < 0x10000 {
        1
    } else {
        2
    }
}

/// Line and column of a byte, counted from zero, in UTF-16 code units.
pub fn position(text: &str, byte: usize) -> (place: (usize, usize))
    ensures
        (place.0 as int, place.1 as int) == utf16_position(text@, byte as int),
{
    let source: Source = Source::new(text);
    let index: usize = find_index(&source, byte);
    let start: usize = find_line_start(&source.chars, index);
    let mut width: usize = 0;
    let mut at: usize = start;
    while at < index
        invariant
            source.valid(),
            start <= at <= index <= source.chars@.len(),
            width == utf16_between(source.chars@, start as int, at as int),
        decreases index - at,
    {
        proof {
            lemma_utf16_bound(source.chars@, start as int, at + 1);
            assert(source.offsets@[at + 1] == byte_offset_of(source.chars@, at + 1));
        }
        width = width + utf16_width_of(source.chars[at]);
        at += 1;
    }
    (count_newlines(&source.chars, index), width)
}

/// The byte at a line and column, counted from zero, in UTF-16 code units.
pub fn byte_offset(text: &str, line: usize, character: usize) -> (byte: Option<usize>)
    ensures
        (match byte {
            Some(byte) => Some(byte as nat),
            None => None,
        }) == byte_at(text@, line as nat, character as nat),
{
    let source: Source = Source::new(text);
    let mut start: usize = 0;
    let mut skipped: usize = 0;
    while skipped < line
        invariant
            skipped <= line,
            source.chars@ == text@,
            start <= source.chars@.len(),
            start_of_line(text@, skipped as nat) == Some(start as int),
        decreases line - skipped,
    {
        let newline: usize = find_char(&source.chars, '\n', start);
        if newline >= source.chars.len() {
            proof {
                lemma_no_line(text@, (skipped + 1) as nat, line as nat);
            }
            return None;
        }
        start = newline + 1;
        skipped += 1;
    }
    let end: usize = find_char(&source.chars, '\n', start);
    let ghost first = start;
    let mut at: usize = start;
    let mut seen: usize = 0;
    proof {
        assert(utf16_between(text@, first as int, first as int) == 0);
    }
    while at < end
        invariant
            source.valid(),
            source.chars@ == text@,
            first <= at <= end <= source.chars@.len(),
            seen == utf16_between(text@, first as int, at as int),
            start_of_line(text@, line as nat) == Some(first as int),
            end == position_of(text@, '\n', first as int),
            column_from(text@, first as int, end as int, character as nat, 0) == column_from(
                text@,
                at as int,
                end as int,
                character as nat,
                seen as nat,
            ),
        decreases end - at,
    {
        if seen >= character {
            proof {
                assert(source.offsets@[at as int] == byte_offset_of(text@, at as int));
            }
            return Some(source.offsets[at]);
        }
        proof {
            lemma_utf16_bound(text@, first as int, at + 1);
            assert(source.offsets@[at + 1] == byte_offset_of(text@, at + 1));
        }
        seen = seen + utf16_width_of(source.chars[at]);
        at += 1;
    }
    if seen == character {
        proof {
            assert(source.offsets@[end as int] == byte_offset_of(text@, end as int));
        }
        Some(source.offsets[end])
    } else {
        None
    }
}

proof fn lemma_no_line(chars: Seq<char>, line: nat, later: nat)
    requires
        line <= later,
        start_of_line(chars, line) is None,
    ensures
        start_of_line(chars, later) is None,
    decreases later - line,
{
    if line < later {
        lemma_no_line(chars, line, (later - 1) as nat);
    }
}

// ---------------------------------------------------------------------------
// Laws

proof fn lemma_line_start(chars: Seq<char>, index: int)
    requires
        0 <= index <= chars.len(),
    ensures
        0 <= line_start(chars, index) <= index,
        forall|i: int| line_start(chars, index) <= i < index ==> chars[i] != '\n',
    decreases index,
{
    if index > 0 && chars[index - 1] != '\n' {
        lemma_line_start(chars, index - 1);
    }
}

proof fn lemma_position_is(chars: Seq<char>, from: int, at: int)
    requires
        0 <= from <= at <= chars.len(),
        forall|i: int| from <= i < at ==> chars[i] != '\n',
    ensures
        at < chars.len() && chars[at] == '\n' ==> position_of(chars, '\n', from) == at,
        position_of(chars, '\n', from) >= at,
    decreases at - from,
{
    if from < at {
        lemma_position_is(chars, from + 1, at);
    } else {
        crate::text::lemma_position_of(chars, '\n', from);
    }
}

proof fn lemma_start_of_line(chars: Seq<char>, index: int)
    requires
        0 <= index <= chars.len(),
    ensures
        start_of_line(chars, newlines(chars, index)) == Some(line_start(chars, index)),
    decreases index,
{
    if index > 0 {
        lemma_start_of_line(chars, index - 1);
        if chars[index - 1] == '\n' {
            lemma_line_start(chars, index - 1);
            lemma_position_is(chars, line_start(chars, index - 1), index - 1);
        }
    }
}

proof fn lemma_utf16_grows(chars: Seq<char>, from: int, to: int, end: int)
    requires
        0 <= from <= to < end <= chars.len(),
    ensures
        utf16_between(chars, from, to) < utf16_between(chars, from, end),
    decreases end - to,
{
    lemma_width(chars[end - 1]);
    if to < end - 1 {
        lemma_utf16_grows(chars, from, to, end - 1);
    }
}

proof fn lemma_column(chars: Seq<char>, start: int, at: int, index: int, end: int)
    requires
        0 <= start <= at <= index <= end <= chars.len(),
    ensures
        column_from(
            chars,
            at,
            end,
            utf16_between(chars, start, index),
            utf16_between(chars, start, at),
        ) == Some(index),
    decreases index - at,
{
    if at < index {
        lemma_utf16_grows(chars, start, at, index);
        lemma_column(chars, start, at + 1, index, end);
    }
}

proof fn lemma_index_of_offset(chars: Seq<char>, from: int, index: int)
    requires
        0 <= from <= index <= chars.len(),
    ensures
        index_from(chars, byte_offset_of(chars, index) as int, from) == index,
    decreases index - from,
{
    if from < index {
        lemma_offset_grows(chars, from, index);
        lemma_index_of_offset(chars, from + 1, index);
    }
}

/// The line and column of a character lead back to its byte.
pub proof fn law_position_round_trip(chars: Seq<char>, index: int)
    requires
        0 <= index <= chars.len(),
    ensures
        ({
            let byte = byte_offset_of(chars, index);
            let place = utf16_position(chars, byte as int);
            byte_at(chars, place.0 as nat, place.1 as nat) == Some(byte)
        }),
{
    lemma_index_of_offset(chars, 0, index);
    lemma_start_of_line(chars, index);
    lemma_line_start(chars, index);
    let start = line_start(chars, index);
    lemma_position_is(chars, start, index);
    crate::text::lemma_position_of(chars, '\n', start);
    lemma_column(chars, start, start, index, position_of(chars, '\n', start));
}

} // verus!
