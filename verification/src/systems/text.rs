//! Bitmap font lookup: which atlas cell holds a character's glyph. Font
//! atlases lay glyphs out in character-code order, row by row, starting at
//! the font's first character (typically 32 = space).
use vstd::prelude::*;

verus! {

/// Glyph cell of character code `code` in a `cols` × `rows` atlas whose
/// first glyph is `start_char`.
pub open spec fn glyph_cell(code: u32, cols: u32, rows: u32, start_char: u8) -> Option<(u32, u32)> {
    if code < start_char {
        None
    } else if code - start_char >= cols * rows {
        None
    } else {
        Some((((code - start_char) % (cols as int)) as u32, ((code - start_char) / (cols as int)) as u32))
    }
}

/// Convert a character to grid coordinates (col, row) in the font atlas.
///
/// Returns `None` if the character is outside the valid range for this font.
pub fn char_to_cell(c: char, cols: u32, rows: u32, start_char: u8) -> (r: Option<(u32, u32)>)
    requires
        cols * rows <= u32::MAX,
    ensures
        r == glyph_cell(c as u32, cols, rows, start_char),
        r matches Some(cell) ==> cell.0 < cols && cell.1 < rows,
{
    let ascii = c as u32;
    let start = start_char as u32;
    if ascii < start {
        return None;
    }
    let index = ascii - start;
    let max_chars = cols * rows;
    if index >= max_chars {
        return None;
    }
    proof {
        assert(cols > 0) by (nonlinear_arith)
            requires index < cols * rows, index >= 0, cols >= 0, rows >= 0;
        assert((index as int) / (cols as int) < rows) by (nonlinear_arith)
            requires index < cols * rows, cols > 0;
    }
    let col = index % cols;
    let row = index / cols;
    Some((col, row))
}

} // verus!
