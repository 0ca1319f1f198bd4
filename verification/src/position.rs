//! Editor coordinates and their translation into offsets in stored text.
//!
//! The editor addresses text by line number and by a code-unit offset within
//! the line, counted in the units of the negotiated position encoding.  The
//! library stores text as a sequence of characters, so every edit must first
//! translate such a position into a character index.  The translation walks
//! the text once: it skips the requested number of line breaks, then consumes
//! code units until the requested offset is reached.  Offsets past the end of
//! a line stop at the line break, lines past the end of the text stop at the
//! end of the text, and an offset that falls inside a character wider than
//! one unit stops at the start of that character.

use vstd::prelude::*;

verus! {

/// The code-unit encoding negotiated with the editor for positions.
#[derive(Debug, Clone, Copy, PartialEq, Eq, Structural)]
pub enum PositionEncoding {
    /// Offsets count bytes of the UTF-8 form.
    Utf8,
    /// Offsets count 16-bit units of the UTF-16 form.
    Utf16,
}

/// A position in a document as the editor reports it: a zero-based line and
/// a zero-based code-unit offset within that line.
#[derive(Debug, Clone, Copy, PartialEq, Eq, Structural)]
pub struct LspPosition {
    pub line: u32,
    pub character: u32,
}

/// A half-open range of editor positions together with the encoding its
/// code-unit offsets are counted in.
#[derive(Debug, Clone, Copy, PartialEq, Eq, Structural)]
pub struct LspRange {
    pub start: LspPosition,
    pub end: LspPosition,
    pub encoding: PositionEncoding,
}

/// How many code units the character occupies under the encoding.
pub open spec fn spec_unit_len(c: char, encoding: PositionEncoding) -> int {
    match encoding {
        PositionEncoding::Utf8 => if (c as u32) < 0x80 {
            1
        } else if (c as u32) < 0x800 {
            2
        } else if (c as u32) < 0x10000 {
            3
        } else {
            4
        },
        PositionEncoding::Utf16 => if (c as u32) < 0x10000 {
            1
        } else {
            2
        },
    }
}

/// The character index reached from index `i` after skipping `line` line
/// breaks and then consuming `units` code units on the reached line.
pub open spec fn index_from(
    text: Seq<char>,
    i: int,
    line: int,
    units: int,
    encoding: PositionEncoding,
) -> int
    decreases text.len() - i,
{
    if i < 0 || i >= text.len() {
        text.len() as int
    } else if line > 0 {
        if text[i] == '\n' {
            index_from(text, i + 1, line - 1, units, encoding)
        } else {
            index_from(text, i + 1, line, units, encoding)
        }
    } else if units <= 0 || text[i] == '\n' || units < spec_unit_len(text[i], encoding) {
        i
    } else {
        index_from(text, i + 1, line, units - spec_unit_len(text[i], encoding), encoding)
    }
}

/// The character index that an editor position denotes in the text.
pub open spec fn spec_index_of(text: Seq<char>, pos: LspPosition, encoding: PositionEncoding) -> int {
    index_from(text, 0, pos.line as int, pos.character as int, encoding)
}

/// A text after an editor edit: the characters the range denotes are
/// replaced by the replacement text.
pub open spec fn edited_text(text: Seq<char>, replace: LspRange, with: Seq<char>) -> Seq<char> {
    let s = spec_index_of(text, replace.start, replace.encoding);
    let e = spec_index_of(text, replace.end, replace.encoding);
    text.subrange(0, s) + with + text.subrange(e, text.len() as int)
}

/// Positions ordered first by line, then by code-unit offset.
pub open spec fn pos_le(a: LspPosition, b: LspPosition) -> bool {
    a.line < b.line || (a.line == b.line && a.character <= b.character)
}

/// The index reached by the walk never moves backwards and never leaves the
/// text.
pub proof fn lemma_index_from_bounds(
    text: Seq<char>,
    i: int,
    line: int,
    units: int,
    encoding: PositionEncoding,
)
    requires
        0 <= i <= text.len(),
    ensures
        i <= index_from(text, i, line, units, encoding) <= text.len(),
    decreases text.len() - i,
{
    if i < text.len() {
        if line > 0 {
            lemma_index_from_bounds(text, i + 1, line - 1, units, encoding);
            lemma_index_from_bounds(text, i + 1, line, units, encoding);
        } else if !(units <= 0 || text[i] == '\n' || units < spec_unit_len(text[i], encoding)) {
            lemma_index_from_bounds(text, i + 1, line, units - spec_unit_len(text[i], encoding), encoding);
        }
    }
}

/// On one line, consuming fewer code units never reaches a later index.
proof fn lemma_index_from_units_le(
    text: Seq<char>,
    i: int,
    u1: int,
    u2: int,
    encoding: PositionEncoding,
)
    requires
        0 <= i <= text.len(),
        u1 <= u2,
    ensures
        index_from(text, i, 0, u1, encoding) <= index_from(text, i, 0, u2, encoding),
    decreases text.len() - i,
{
    if i < text.len() {
        if u1 <= 0 || text[i] == '\n' || u1 < spec_unit_len(text[i], encoding) {
            lemma_index_from_bounds(text, i, 0, u2, encoding);
        } else {
            let step = spec_unit_len(text[i], encoding);
            lemma_index_from_units_le(text, i + 1, u1 - step, u2 - step, encoding);
        }
    }
}

/// Skipping to a strictly later line never reaches an earlier index than any
/// walk that stops on an earlier line.
proof fn lemma_index_from_line_le(
    text: Seq<char>,
    i: int,
    l1: int,
    u1: int,
    l2: int,
    u2: int,
    encoding: PositionEncoding,
)
    requires
        0 <= i <= text.len(),
        0 <= l1 < l2,
    ensures
        index_from(text, i, l1, u1, encoding) <= index_from(text, i, l2, u2, encoding),
    decreases text.len() - i,
{
    if i < text.len() {
        if l1 > 0 {
            if text[i] == '\n' {
                lemma_index_from_line_le(text, i + 1, l1 - 1, u1, l2 - 1, u2, encoding);
            } else {
                lemma_index_from_line_le(text, i + 1, l1, u1, l2, u2, encoding);
            }
        } else {
            if text[i] == '\n' {
                // The left walk stops at this break; the right walk crosses it.
                lemma_index_from_bounds(text, i + 1, l2 - 1, u2, encoding);
            } else if u1 <= 0 || u1 < spec_unit_len(text[i], encoding) {
                // The left walk stops here; the right walk moves on.
                lemma_index_from_bounds(text, i + 1, l2, u2, encoding);
            } else {
                lemma_index_from_line_le(
                    text,
                    i + 1,
                    0,
                    u1 - spec_unit_len(text[i], encoding),
                    l2,
                    u2,
                    encoding,
                );
            }
        }
    }
}

/// Translating positions preserves their order: the index of an earlier
/// position never exceeds the index of a later one.
pub proof fn lemma_index_of_monotone(
    text: Seq<char>,
    a: LspPosition,
    b: LspPosition,
    encoding: PositionEncoding,
)
    requires
        pos_le(a, b),
    ensures
        spec_index_of(text, a, encoding) <= spec_index_of(text, b, encoding),
{
    if a.line == b.line {
        lemma_index_from_same_line(
            text,
            0,
            a.line as int,
            a.character as int,
            b.character as int,
            encoding,
        );
    } else {
        lemma_index_from_line_le(
            text,
            0,
            a.line as int,
            a.character as int,
            b.line as int,
            b.character as int,
            encoding,
        );
    }
}

/// On the same (possibly still to be reached) line, fewer code units never
/// reach a later index.
proof fn lemma_index_from_same_line(
    text: Seq<char>,
    i: int,
    line: int,
    u1: int,
    u2: int,
    encoding: PositionEncoding,
)
    requires
        0 <= i <= text.len(),
        0 <= line,
        u1 <= u2,
    ensures
        index_from(text, i, line, u1, encoding) <= index_from(text, i, line, u2, encoding),
    decreases text.len() - i,
{
    if i < text.len() {
        if line > 0 {
            if text[i] == '\n' {
                lemma_index_from_same_line(text, i + 1, line - 1, u1, u2, encoding);
            } else {
                lemma_index_from_same_line(text, i + 1, line, u1, u2, encoding);
            }
        } else {
            lemma_index_from_units_le(text, i, u1, u2, encoding);
        }
    }
}

/// How many code units a character occupies under the encoding.
pub fn unit_len(c: char, encoding: PositionEncoding) -> (r: u32)
    ensures
        r == spec_unit_len(c, encoding),
        1 <= r <= 4,
{
    match encoding {
        PositionEncoding::Utf8 => {
            let v = c as u32;
            if v < 0x80 {
                1
            } else if v < 0x800 {
                2
            } else if v < 0x10000 {
                3
            } else {
                4
            }
        },
        PositionEncoding::Utf16 => {
            if (c as u32) < 0x10000 {
                1
            } else {
                2
            }
        },
    }
}

/// Translates an editor position into a character index of the text,
/// clamping past-the-end lines and offsets as [`index_from`] describes.
pub fn index_of_position(text: &Vec<char>, pos: LspPosition, encoding: PositionEncoding) -> (r: usize)
    ensures
        r == spec_index_of(text@, pos, encoding),
        r <= text.len(),
{
    let mut i: usize = 0;
    let mut line: u32 = pos.line;
    let mut units: u32 = pos.character;
    loop
        invariant
            0 <= i <= text.len(),
            index_from(text@, 0, pos.line as int, pos.character as int, encoding) == index_from(
                text@,
                i as int,
                line as int,
                units as int,
                encoding,
            ),
        decreases text.len() - i,
    {
        if i >= text.len() {
            return text.len();
        }
        let c = text[i];
        if line > 0 {
            if c == '\n' {
                line = line - 1;
            }
            i = i + 1;
        } else {
            if units == 0 || c == '\n' {
                return i;
            }
            let w = unit_len(c, encoding);
            if units < w {
                return i;
            }
            units = units - w;
            i = i + 1;
        }
    }
}

} // verus!
